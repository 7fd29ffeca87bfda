//! The crash-safe protocol of a resize, as a list of device operations.
//!
//! A run goes through three phases, each entered by a checkpoint:
//! shifting the data, writing the FATs under an invalidated boot sector,
//! and updating the metadata. What a run writes depends only on what it
//! read before: boot sector, FSInfo, FAT and, for a resumed run, the
//! checkpoint. `plan_resize` computes the writes from those.

use crate::device::{ops_model, DeviceOp, OpModel, ProtocolPoint};
use crate::fat32::layout;
use crate::fat32::layout::{overwrite, u32_le_bytes};
use crate::fat32::structs::{fsinfo_free_count, BootSector, FSInfo};
use crate::fat32::validation::{is_fat32_geometry, lemma_fat32_geometry_defined};
use crate::resize::calculator::{
    affected_clusters, clusters_gained, data_sectors_for, SizeCalculation,
};
use crate::resize::checkpoint::{checkpoint_bytes, ResizeCheckpoint, ResizePhase};
use crate::resize::log::{describe_log, log_texts, texts, Operation};
use crate::resize::relocator::{
    lemma_moves_desc, move_of, move_ops, moves_addressable, plan_limit, planned_moves,
    push_move_ops, relocation_plan, shift_sectors, ClusterMove, RelocationPlan,
};
use vstd::prelude::*;
use vstd::slice::slice_to_vec;

verus! {

/// How a resize is to be run.
#[derive(Debug, Clone)]
pub struct ResizeOptions {
    /// The path of the device or image file.
    pub device_path: String,
    /// Read and calculate, but write nothing.
    pub dry_run: bool,
    /// Report progress in detail.
    pub verbose: bool,
}

/// What a resize did.
#[derive(Debug)]
pub struct ResizeResult {
    /// The size of the volume before, in bytes.
    pub old_size_bytes: u64,
    /// The size of the volume after, in bytes.
    pub new_size_bytes: u64,
    /// Whether the FATs grew.
    pub fat_grew: bool,
    /// The number of clusters whose sectors moved.
    pub clusters_relocated: usize,
    /// The size calculation that the run went by.
    pub calculation: SizeCalculation,
    /// The steps of the run, in order, for a human reader.
    pub operations: Vec<String>,
}

/// A resize result as contracts see it.
pub struct ResultModel {
    pub old_size_bytes: u64,
    pub new_size_bytes: u64,
    pub fat_grew: bool,
    pub clusters_relocated: usize,
    pub calculation: SizeCalculation,
    pub operations: Seq<Seq<char>>,
}

impl View for ResizeResult {
    type V = ResultModel;

    open spec fn view(&self) -> ResultModel {
        ResultModel {
            old_size_bytes: self.old_size_bytes,
            new_size_bytes: self.new_size_bytes,
            fat_grew: self.fat_grew,
            clusters_relocated: self.clusters_relocated,
            calculation: self.calculation,
            operations: texts(self.operations@),
        }
    }
}

/// The writes of a resize and the result that stands once they are done.
#[derive(Debug)]
pub struct ResizePlan {
    /// What to do on the device, in order.
    pub ops: Vec<DeviceOp>,
    /// What to report once every operation has succeeded.
    pub result: ResizeResult,
}

/// A resize plan as contracts see it.
pub struct PlanModel {
    pub ops: Seq<OpModel>,
    pub result: ResultModel,
}

impl View for ResizePlan {
    type V = PlanModel;

    open spec fn view(&self) -> PlanModel {
        PlanModel { ops: ops_model(self.ops@), result: self.result@ }
    }
}

/// What a run has read of the volume before it plans its writes.
pub struct Volume {
    /// The boot sector, cut to the sector size.
    pub boot: Seq<u8>,
    /// The FSInfo sector.
    pub fsinfo: Seq<u8>,
    /// The entries of the first FAT.
    pub fat: Seq<u32>,
    /// The number of whole sectors of the device.
    pub device_sectors: int,
}

impl Volume {
    pub open spec fn bps(self) -> int {
        layout::bytes_per_sector(self.boot) as int
    }

    pub open spec fn spc(self) -> int {
        layout::sectors_per_cluster(self.boot) as int
    }

    pub open spec fn reserved(self) -> int {
        layout::reserved_sectors(self.boot) as int
    }

    pub open spec fn num_fats(self) -> int {
        layout::num_fats(self.boot) as int
    }

    /// The byte at which the checkpoint lies: the last sector of the
    /// device.
    pub open spec fn checkpoint_offset(self) -> int {
        (self.device_sectors - 1) * self.bps()
    }

    /// The moves of the data shift.
    pub open spec fn moves(self, calc: SizeCalculation) -> Seq<ClusterMove> {
        planned_moves(
            self.boot,
            self.fat,
            calc.first_affected_cluster as int,
            calc.fat_growth_sectors as int,
        )
    }
}

/// The checkpoint of a run with calculation `calc` that enters `phase`.
pub open spec fn checkpoint_for(calc: SizeCalculation, phase: ResizePhase) -> ResizeCheckpoint {
    ResizeCheckpoint {
        phase,
        old_total_sectors: calc.old_total_sectors,
        new_total_sectors: calc.new_total_sectors,
        old_fat_size: calc.old_fat_size,
        new_fat_size: calc.new_fat_size,
    }
}

/// The calculation that a resumed run rebuilds from a checkpoint and the
/// boot sector. No calculation where the range of affected clusters does
/// not fit in 32 bits; such a checkpoint was not written by a resize.
pub open spec fn checkpoint_calculation(raw: Seq<u8>, cp: ResizeCheckpoint) -> Option<
    SizeCalculation,
> {
    let growth = clusters_gained(cp.new_fat_size as int, cp.old_fat_size as int);
    let last = 1 + affected_clusters(
        growth,
        layout::num_fats(raw) as int,
        layout::sectors_per_cluster(raw) as int,
    );
    if last > u32::MAX {
        None
    } else {
        Some(
            SizeCalculation {
                old_total_sectors: cp.old_total_sectors,
                new_total_sectors: cp.new_total_sectors,
                old_fat_size: cp.old_fat_size,
                new_fat_size: cp.new_fat_size,
                new_data_clusters: (data_sectors_for(
                    cp.new_total_sectors as int,
                    layout::reserved_sectors(raw) as int,
                    layout::num_fats(raw) as int,
                    cp.new_fat_size as int,
                ) / (layout::sectors_per_cluster(raw) as int)) as u32,
                new_free_clusters: 0,
                fat_needs_growth: cp.new_fat_size > cp.old_fat_size,
                fat_growth_sectors: growth as u32,
                first_affected_cluster: 2,
                last_affected_cluster: last as u32,
            },
        )
    }
}

/// The write of the checkpoint for `phase` to the last sector.
pub open spec fn checkpoint_write(v: Volume, calc: SizeCalculation, phase: ResizePhase) -> OpModel {
    OpModel::Write {
        offset: v.checkpoint_offset(),
        data: checkpoint_bytes(checkpoint_for(calc, phase), v.bps() as nat),
    }
}

/// A boot sector with its signature zeroed.
pub open spec fn invalidated_boot(raw: Seq<u8>) -> Seq<u8> {
    raw.update(510, 0u8).update(511, 0u8)
}

/// The boot sector of the grown volume: the new total sector count, the
/// new FAT size, a valid signature, and every other byte as it was.
pub open spec fn final_boot(raw: Seq<u8>, calc: SizeCalculation) -> Seq<u8> {
    overwrite(
        overwrite(raw, 32, u32_le_bytes(calc.new_total_sectors)),
        36,
        u32_le_bytes(calc.new_fat_size),
    ).update(510, 0x55u8).update(511, 0xAAu8)
}

/// The data clusters of the volume before the resize, by the sizes of the
/// calculation.
pub open spec fn old_data_clusters(raw: Seq<u8>, calc: SizeCalculation) -> int {
    data_sectors_for(
        calc.old_total_sectors as int,
        layout::reserved_sectors(raw) as int,
        layout::num_fats(raw) as int,
        calc.old_fat_size as int,
    ) / (layout::sectors_per_cluster(raw) as int)
}

/// The free count after `additional` clusters were added: unknown stays
/// unknown, and the count stops at the largest 32-bit value.
pub open spec fn grown_free_count(old_free: u32, additional: int) -> u32 {
    if old_free == FSInfo::UNKNOWN_FREE {
        FSInfo::UNKNOWN_FREE
    } else if old_free + additional > u32::MAX {
        u32::MAX
    } else {
        (old_free + additional) as u32
    }
}

/// The free count that the grown volume reports.
pub open spec fn final_free_count(v: Volume, calc: SizeCalculation) -> u32 {
    grown_free_count(
        fsinfo_free_count(v.fsinfo),
        clusters_gained(calc.new_data_clusters as int, old_data_clusters(v.boot, calc)),
    )
}

/// The FSInfo sector of the grown volume: the new free count, and every
/// other byte as it was.
pub open spec fn final_fsinfo(v: Volume, calc: SizeCalculation) -> Seq<u8> {
    overwrite(v.fsinfo, 488, u32_le_bytes(final_free_count(v, calc)))
}

/// The first phase: checkpoint, data shift, checkpoint.
pub open spec fn shift_phase_ops(v: Volume, calc: SizeCalculation) -> Seq<OpModel> {
    seq![
        checkpoint_write(v, calc, ResizePhase::Started),
        OpModel::Sync,
        OpModel::Reached(ProtocolPoint::AfterCheckpointStart),
    ] + move_ops(v.moves(calc), v.bps(), v.spc() * v.bps()) + seq![
        OpModel::Sync,
        OpModel::Reached(ProtocolPoint::AfterDataShift),
        checkpoint_write(v, calc, ResizePhase::DataCopied),
        OpModel::Sync,
        OpModel::Reached(ProtocolPoint::AfterCheckpointDataCopied),
    ]
}

/// The zeroing of the sectors that the first FAT gains.
pub open spec fn fat_init_ops(v: Volume, calc: SizeCalculation) -> Seq<OpModel> {
    if calc.new_fat_size > calc.old_fat_size {
        seq![
            OpModel::Zero {
                offset: (v.reserved() + calc.old_fat_size) * v.bps(),
                len: (calc.new_fat_size - calc.old_fat_size) * v.bps(),
            },
        ]
    } else {
        Seq::empty()
    }
}

/// The copy of the whole first FAT, at its new size, to the second.
pub open spec fn fat_sync_ops(v: Volume, calc: SizeCalculation) -> Seq<OpModel> {
    if calc.new_fat_size > calc.old_fat_size && v.num_fats() >= 2 {
        seq![
            OpModel::Copy {
                from: v.reserved() * v.bps(),
                to: (v.reserved() + calc.new_fat_size) * v.bps(),
                len: calc.new_fat_size * v.bps(),
            },
        ]
    } else {
        Seq::empty()
    }
}

/// The second phase: boot sector invalidated, FATs written, checkpoint.
pub open spec fn fat_phase_ops(v: Volume, calc: SizeCalculation) -> Seq<OpModel> {
    seq![
        OpModel::Write { offset: 0, data: invalidated_boot(v.boot) },
        OpModel::Sync,
        OpModel::Reached(ProtocolPoint::AfterBootInvalidate),
    ] + fat_init_ops(v, calc) + fat_sync_ops(v, calc) + seq![
        OpModel::Reached(ProtocolPoint::AfterFatWrite),
        checkpoint_write(v, calc, ResizePhase::FatWritten),
        OpModel::Sync,
        OpModel::Reached(ProtocolPoint::AfterCheckpointFatWritten),
    ]
}

/// The third phase: boot sector, backup boot sector and FSInfo updated,
/// checkpoint cleared.
pub open spec fn metadata_ops(v: Volume, calc: SizeCalculation) -> Seq<OpModel> {
    seq![
        OpModel::Write { offset: 0, data: final_boot(v.boot, calc) },
        OpModel::Write {
            offset: layout::backup_boot_sector(v.boot) * v.bps(),
            data: final_boot(v.boot, calc),
        },
        OpModel::Write {
            offset: layout::fs_info_sector(v.boot) * v.bps(),
            data: final_fsinfo(v, calc),
        },
        OpModel::Zero { offset: v.checkpoint_offset(), len: v.bps() },
        OpModel::Sync,
    ]
}

/// The phases that come before the metadata update, for a run that starts
/// at `start`: none where the FATs do not grow. Where they grow, both
/// phases run, whether or not a cluster holds data to shift.
pub open spec fn growth_ops(v: Volume, calc: SizeCalculation, start: ResizePhase) -> Seq<OpModel> {
    if !calc.fat_needs_growth {
        Seq::empty()
    } else {
        (if start == ResizePhase::Started {
            shift_phase_ops(v, calc)
        } else {
            Seq::empty()
        }) + (if start != ResizePhase::FatWritten {
            fat_phase_ops(v, calc)
        } else {
            Seq::empty()
        })
    }
}

/// Everything that a run writes. A dry run writes nothing.
pub open spec fn resize_ops(v: Volume, calc: SizeCalculation, start: ResizePhase, dry_run: bool) -> Seq<
    OpModel,
> {
    if dry_run {
        Seq::empty()
    } else {
        growth_ops(v, calc, start) + metadata_ops(v, calc)
    }
}

/// The phase at which a run starts: that of the checkpoint, or the first.
pub open spec fn starting_phase(resumed: Option<ResizePhase>) -> ResizePhase {
    match resumed {
        Some(phase) => phase,
        None => ResizePhase::Started,
    }
}

/// The log entries of the phases before the metadata update. The plan of
/// the data shift is named only where it holds a move.
pub open spec fn growth_log(v: Volume, calc: SizeCalculation, start: ResizePhase, dry_run: bool) -> Seq<
    Operation,
> {
    if !calc.fat_needs_growth {
        Seq::empty()
    } else {
        let count = v.moves(calc).len() as u64;
        let planned = seq![
            Operation::FatNeedsGrowth { sectors: calc.fat_growth_sectors },
        ] + (if count == 0 {
            Seq::empty()
        } else {
            seq![
                Operation::PlannedDataShift {
                    clusters: count,
                    bytes: (count * layout::bytes_per_cluster(v.boot)) as u64,
                },
            ]
        });
        if dry_run {
            planned + (if count == 0 {
                Seq::empty()
            } else {
                seq![Operation::DryRunWouldShift]
            })
        } else {
            planned + (if start == ResizePhase::Started {
                seq![
                    Operation::WroteCheckpointStarted,
                    Operation::ShiftedClusters { clusters: count },
                    Operation::VerifiedDataShift,
                    Operation::UpdatedCheckpointDataCopied,
                ]
            } else {
                seq![Operation::SkippedDataShift]
            }) + (if start != ResizePhase::FatWritten {
                seq![
                    Operation::InvalidatedBootSector,
                    Operation::InitializedFatSectors,
                    Operation::SyncedFatCopies,
                    Operation::UpdatedCheckpointFatWritten,
                ]
            } else {
                seq![Operation::SkippedFatOperations]
            })
        }
    }
}

/// The log of a run.
pub open spec fn resize_log(
    v: Volume,
    calc: SizeCalculation,
    resumed: Option<ResizePhase>,
    dry_run: bool,
) -> Seq<Operation> {
    seq![Operation::ReadBootSector { bytes_per_sector: layout::bytes_per_sector(v.boot) }] + (
    match resumed {
        Some(phase) => seq![Operation::DetectedIncompleteResize { phase }],
        None => Seq::empty(),
    }) + seq![
        Operation::VerifiedBackupBootSector { sector: layout::backup_boot_sector(v.boot) },
        Operation::ReadFsInfo { sector: layout::fs_info_sector(v.boot) },
        Operation::CalculatedResize {
            old_total_sectors: calc.old_total_sectors,
            new_total_sectors: calc.new_total_sectors,
        },
        Operation::ReadFatTable { entries: v.fat.len() as u64 },
    ] + growth_log(v, calc, starting_phase(resumed), dry_run) + (if dry_run {
        seq![Operation::DryRunNoChanges]
    } else {
        seq![
            Operation::UpdatedBootSector,
            Operation::UpdatedBackupBootSector,
            Operation::UpdatedFsInfo { free_clusters: final_free_count(v, calc) },
            Operation::ClearedCheckpoint,
            Operation::SyncedChanges,
        ]
    })
}

/// The result of a run.
pub open spec fn resize_result(
    v: Volume,
    calc: SizeCalculation,
    resumed: Option<ResizePhase>,
    dry_run: bool,
) -> ResultModel {
    ResultModel {
        old_size_bytes: (calc.old_total_sectors * v.bps()) as u64,
        new_size_bytes: (calc.new_total_sectors * v.bps()) as u64,
        fat_grew: calc.fat_needs_growth,
        clusters_relocated: if calc.fat_needs_growth && !dry_run {
            v.moves(calc).len() as usize
        } else {
            0
        },
        calculation: calc,
        operations: log_texts(resize_log(v, calc, resumed, dry_run)),
    }
}

/// The plan of a run: its writes and its result.
pub open spec fn planned_resize(
    v: Volume,
    calc: SizeCalculation,
    resumed: Option<ResizePhase>,
    dry_run: bool,
) -> PlanModel {
    PlanModel {
        ops: resize_ops(v, calc, starting_phase(resumed), dry_run),
        result: resize_result(v, calc, resumed, dry_run),
    }
}

/// On a FAT32 volume every planned move lies within the first 2^41
/// sectors, and there are fewer than 2^32 moves.
pub proof fn lemma_moves_bounded(raw: Seq<u8>, fat: Seq<u32>, first: int, growth: int)
    requires
        is_fat32_geometry(raw),
        2 <= first,
        0 <= growth <= u32::MAX,
    ensures
        planned_moves(raw, fat, first, growth).len() <= u32::MAX,
        forall|i: int|
            0 <= i < planned_moves(raw, fat, first, growth).len() ==> (#[trigger] planned_moves(
                raw,
                fat,
                first,
                growth,
            )[i]).from_sector <= 0x1FF_FFFF_FFFF && planned_moves(
                raw,
                fat,
                first,
                growth,
            )[i].to_sector <= 0x1FF_FFFF_FFFF,
{
    lemma_fat32_geometry_defined(raw);
    let spc = layout::sectors_per_cluster(raw) as int;
    let nf = layout::num_fats(raw) as int;
    let old_first = layout::first_data_sector(raw);
    let shift = shift_sectors(raw, growth);
    let limit = plan_limit(raw, fat.len() as int);
    assert(nf * layout::fat_size_32(raw) <= 2 * 0xFFFF_FFFF) by (nonlinear_arith)
        requires
            0 <= nf <= 2,
            0 <= layout::fat_size_32(raw) <= 0xFFFF_FFFF,
    ;
    assert(0 <= shift <= 2 * 0xFFFF_FFFF) by (nonlinear_arith)
        requires
            0 <= nf <= 2,
            0 <= growth <= 0xFFFF_FFFF,
            shift == growth * nf,
    ;
    if shift != 0 {
        lemma_moves_desc(fat, first, limit, old_first, shift, spc);
        let moves = moves_desc_of(raw, fat, first, growth);
        assert forall|i: int| 0 <= i < moves.len() implies (#[trigger] moves[i]).from_sector
            <= 0x1FF_FFFF_FFFF && moves[i].to_sector <= 0x1FF_FFFF_FFFF by {
            let c = moves[i].from_cluster as int;
            assert(moves[i] == move_of(c, old_first, shift, spc));
            assert(0 <= (c - 2) * spc <= 0xFFFF_FFFF * 128) by (nonlinear_arith)
                requires
                    2 <= c <= 0xFFFF_FFFF,
                    1 <= spc <= 128,
            ;
        }
    }
}

/// The planned moves where the data area shifts.
pub open spec fn moves_desc_of(raw: Seq<u8>, fat: Seq<u32>, first: int, growth: int) -> Seq<
    ClusterMove,
> {
    crate::resize::relocator::moves_desc(
        fat,
        first,
        plan_limit(raw, fat.len() as int),
        layout::first_data_sector(raw),
        shift_sectors(raw, growth),
        layout::sectors_per_cluster(raw) as int,
    )
}

fn push_op(ops: &mut Vec<DeviceOp>, op: DeviceOp)
    ensures
        ops_model(final(ops)@) == ops_model(old(ops)@).push(op@),
{
    ops.push(op);
    assert(ops_model(ops@) =~= ops_model(old(ops)@).push(op@));
}

/// The byte at which a sector starts.
fn sector_start(sector: u64, bytes_per_sector: u16) -> (r: u64)
    requires
        sector <= 0xFFFF_FFFF_FFFF,
    ensures
        r == sector * bytes_per_sector,
{
    assert(sector * bytes_per_sector <= 0xFFFF_FFFF_FFFF * 0xFFFF) by (nonlinear_arith)
        requires
            sector <= 0xFFFF_FFFF_FFFF,
            bytes_per_sector <= 0xFFFF,
    ;
    sector * bytes_per_sector as u64
}

fn push_checkpoint(
    ops: &mut Vec<DeviceOp>,
    calc: &SizeCalculation,
    phase: ResizePhase,
    checkpoint_offset: u64,
    bytes_per_sector: u16,
    Ghost(v): Ghost<Volume>,
)
    requires
        bytes_per_sector >= 512,
        v.bps() == bytes_per_sector,
        v.checkpoint_offset() == checkpoint_offset,
    ensures
        ops_model(final(ops)@) == ops_model(old(ops)@).push(checkpoint_write(v, *calc, phase)).push(
            OpModel::Sync,
        ),
{
    let checkpoint = ResizeCheckpoint::new(
        phase,
        calc.old_total_sectors,
        calc.new_total_sectors,
        calc.old_fat_size,
        calc.new_fat_size,
    );
    push_op(
        ops,
        DeviceOp::Write { offset: checkpoint_offset, data: checkpoint.to_bytes(bytes_per_sector as usize) },
    );
    push_op(ops, DeviceOp::Sync);
}

/// The data clusters of a volume of `total_sectors` sectors with FATs of
/// `fat_size` sectors; 0 where the metadata alone fills the volume.
pub fn calculate_data_clusters_from_params(
    total_sectors: u32,
    reserved_sectors: u16,
    num_fats: u8,
    fat_size: u32,
    sectors_per_cluster: u8,
) -> (r: u32)
    requires
        sectors_per_cluster > 0,
    ensures
        r == data_sectors_for(
            total_sectors as int,
            reserved_sectors as int,
            num_fats as int,
            fat_size as int,
        ) / (sectors_per_cluster as int),
{
    assert(num_fats * fat_size <= 255 * 0xFFFF_FFFF) by (nonlinear_arith)
        requires
            num_fats <= 255,
            fat_size <= 0xFFFF_FFFF,
    ;
    let used: u64 = reserved_sectors as u64 + num_fats as u64 * fat_size as u64;
    let data_sectors: u64 = if total_sectors as u64 >= used {
        total_sectors as u64 - used
    } else {
        0
    };
    let spc: u64 = sectors_per_cluster as u64;
    assert(data_sectors / spc <= data_sectors) by (nonlinear_arith)
        requires
            spc >= 1,
            data_sectors >= 0,
    ;
    (data_sectors / spc) as u32
}

/// Rebuilds the size calculation of an interrupted run from its
/// checkpoint.
pub fn calculation_from_checkpoint(boot: &BootSector, checkpoint: &ResizeCheckpoint) -> (r: Option<
    SizeCalculation,
>)
    requires
        boot.wf(),
        layout::sectors_per_cluster(boot@) > 0,
    ensures
        r == checkpoint_calculation(boot@, *checkpoint),
{
    let num_fats: u8 = boot.num_fats();
    let spc: u8 = boot.sectors_per_cluster();
    let growth: u32 = checkpoint.new_fat_size.saturating_sub(checkpoint.old_fat_size);
    assert(growth * num_fats <= 0xFFFF_FFFF * 255) by (nonlinear_arith)
        requires
            growth <= 0xFFFF_FFFF,
            num_fats <= 255,
    ;
    let total_growth: u64 = growth as u64 * num_fats as u64;
    let affected: u64 = (total_growth + spc as u64 - 1) / spc as u64;
    assert(affected <= total_growth) by (nonlinear_arith)
        requires
            affected == (total_growth + spc - 1) / (spc as int),
            spc >= 1,
            total_growth >= 0,
    ;
    let last: u64 = 1 + affected;
    if last > u32::MAX as u64 {
        return None;
    }
    Some(
        SizeCalculation {
            old_total_sectors: checkpoint.old_total_sectors,
            new_total_sectors: checkpoint.new_total_sectors,
            old_fat_size: checkpoint.old_fat_size,
            new_fat_size: checkpoint.new_fat_size,
            new_data_clusters: calculate_data_clusters_from_params(
                checkpoint.new_total_sectors,
                boot.reserved_sectors(),
                num_fats,
                checkpoint.new_fat_size,
                spc,
            ),
            new_free_clusters: 0,
            fat_needs_growth: checkpoint.new_fat_size > checkpoint.old_fat_size,
            fat_growth_sectors: growth,
            first_affected_cluster: 2,
            last_affected_cluster: last as u32,
        },
    )
}

/// The operations of the first phase.
fn build_shift_phase(
    boot: &BootSector,
    relocation: &RelocationPlan,
    calc: &SizeCalculation,
    checkpoint_offset: u64,
    Ghost(v): Ghost<Volume>,
) -> (ops: Vec<DeviceOp>)
    requires
        boot.wf(),
        is_fat32_geometry(boot@),
        calc.first_affected_cluster >= 2,
        v.boot == boot@,
        relocation.moves@ == v.moves(*calc),
        v.checkpoint_offset() == checkpoint_offset,
    ensures
        ops_model(ops@) == shift_phase_ops(v, *calc),
{
    proof {
        lemma_fat32_geometry_defined(boot@);
        lemma_moves_bounded(
            boot@,
            v.fat,
            calc.first_affected_cluster as int,
            calc.fat_growth_sectors as int,
        );
    }
    let bps: u16 = boot.bytes_per_sector();
    let mut ops: Vec<DeviceOp> = Vec::new();
    assert(ops_model(ops@) =~= Seq::<OpModel>::empty());
    push_checkpoint(&mut ops, calc, ResizePhase::Started, checkpoint_offset, bps, Ghost(v));
    push_op(&mut ops, DeviceOp::Reached(ProtocolPoint::AfterCheckpointStart));
    assert(moves_addressable(relocation.moves@, bps as int)) by {
        assert forall|i: int| 0 <= i < relocation.moves@.len() implies (
        #[trigger] relocation.moves@[i]).from_sector * bps <= u64::MAX
            && relocation.moves@[i].to_sector * bps <= u64::MAX by {
            let m = relocation.moves@[i];
            assert(m.from_sector * bps <= 0x1FF_FFFF_FFFF * 4096 && m.to_sector * bps
                <= 0x1FF_FFFF_FFFF * 4096) by (nonlinear_arith)
                requires
                    m.from_sector <= 0x1FF_FFFF_FFFF,
                    m.to_sector <= 0x1FF_FFFF_FFFF,
                    0 <= bps <= 4096,
            ;
        }
    }
    push_move_ops(&mut ops, relocation, boot.sectors_per_cluster(), bps as u32);
    push_op(&mut ops, DeviceOp::Sync);
    push_op(&mut ops, DeviceOp::Reached(ProtocolPoint::AfterDataShift));
    push_checkpoint(&mut ops, calc, ResizePhase::DataCopied, checkpoint_offset, bps, Ghost(v));
    push_op(&mut ops, DeviceOp::Reached(ProtocolPoint::AfterCheckpointDataCopied));
    assert(ops_model(ops@) =~= shift_phase_ops(v, *calc));
    ops
}

/// The operations of the second phase.
fn build_fat_phase(
    boot: &BootSector,
    calc: &SizeCalculation,
    checkpoint_offset: u64,
    Ghost(v): Ghost<Volume>,
) -> (ops: Vec<DeviceOp>)
    requires
        boot.wf(),
        is_fat32_geometry(boot@),
        v.boot == boot@,
        v.checkpoint_offset() == checkpoint_offset,
    ensures
        ops_model(ops@) == fat_phase_ops(v, *calc),
{
    let bps: u16 = boot.bytes_per_sector();
    let reserved: u64 = boot.reserved_sectors() as u64;
    let mut ops: Vec<DeviceOp> = Vec::new();
    assert(ops_model(ops@) =~= Seq::<OpModel>::empty());
    let mut invalid = boot.clone();
    invalid.invalidate_signature();
    push_op(&mut ops, DeviceOp::Write { offset: 0, data: slice_to_vec(invalid.as_bytes()) });
    push_op(&mut ops, DeviceOp::Sync);
    push_op(&mut ops, DeviceOp::Reached(ProtocolPoint::AfterBootInvalidate));
    if calc.new_fat_size > calc.old_fat_size {
        push_op(
            &mut ops,
            DeviceOp::Zero {
                offset: sector_start(reserved + calc.old_fat_size as u64, bps),
                len: sector_start((calc.new_fat_size - calc.old_fat_size) as u64, bps),
            },
        );
        if boot.num_fats() >= 2 {
            push_op(
                &mut ops,
                DeviceOp::Copy {
                    from: sector_start(reserved, bps),
                    to: sector_start(reserved + calc.new_fat_size as u64, bps),
                    len: sector_start(calc.new_fat_size as u64, bps),
                },
            );
        }
    }
    push_op(&mut ops, DeviceOp::Reached(ProtocolPoint::AfterFatWrite));
    push_checkpoint(&mut ops, calc, ResizePhase::FatWritten, checkpoint_offset, bps, Ghost(v));
    push_op(&mut ops, DeviceOp::Reached(ProtocolPoint::AfterCheckpointFatWritten));
    assert(ops_model(ops@) =~= fat_phase_ops(v, *calc));
    ops
}

/// The free count that the FSInfo sector gets.
fn new_free_count(boot: &BootSector, fsinfo: &FSInfo, calc: &SizeCalculation, Ghost(v): Ghost<Volume>) -> (r: u32)
    requires
        boot.wf(),
        is_fat32_geometry(boot@),
        fsinfo.wf(),
        v.boot == boot@,
        v.fsinfo == fsinfo@,
    ensures
        r == final_free_count(v, *calc),
{
    let old_free: u32 = fsinfo.free_count();
    let old_clusters: u32 = calculate_data_clusters_from_params(
        calc.old_total_sectors,
        boot.reserved_sectors(),
        boot.num_fats(),
        calc.old_fat_size,
        boot.sectors_per_cluster(),
    );
    let additional: u32 = calc.new_data_clusters.saturating_sub(old_clusters);
    if old_free == FSInfo::UNKNOWN_FREE {
        FSInfo::UNKNOWN_FREE
    } else {
        old_free.saturating_add(additional)
    }
}

/// The operations of the third phase.
fn build_metadata_phase(
    boot: &BootSector,
    fsinfo: &FSInfo,
    calc: &SizeCalculation,
    checkpoint_offset: u64,
    Ghost(v): Ghost<Volume>,
) -> (ops: Vec<DeviceOp>)
    requires
        boot.wf(),
        is_fat32_geometry(boot@),
        fsinfo.wf(),
        v.boot == boot@,
        v.fsinfo == fsinfo@,
        v.checkpoint_offset() == checkpoint_offset,
    ensures
        ops_model(ops@) == metadata_ops(v, *calc),
{
    let bps: u16 = boot.bytes_per_sector();
    let mut ops: Vec<DeviceOp> = Vec::new();
    assert(ops_model(ops@) =~= Seq::<OpModel>::empty());
    let mut updated = boot.clone();
    updated.set_total_sectors_32(calc.new_total_sectors);
    updated.set_fat_size_32(calc.new_fat_size);
    updated.restore_signature();
    assert(updated@ =~= final_boot(boot@, *calc));
    push_op(&mut ops, DeviceOp::Write { offset: 0, data: slice_to_vec(updated.as_bytes()) });
    push_op(
        &mut ops,
        DeviceOp::Write {
            offset: sector_start(boot.backup_boot_sector() as u64, bps),
            data: slice_to_vec(updated.as_bytes()),
        },
    );
    let new_free: u32 = new_free_count(boot, fsinfo, calc, Ghost(v));
    let mut info = fsinfo.clone();
    info.set_free_count(new_free);
    push_op(
        &mut ops,
        DeviceOp::Write {
            offset: sector_start(boot.fs_info_sector() as u64, bps),
            data: slice_to_vec(info.as_bytes()),
        },
    );
    push_op(&mut ops, DeviceOp::Zero { offset: checkpoint_offset, len: bps as u64 });
    push_op(&mut ops, DeviceOp::Sync);
    assert(ops_model(ops@) =~= metadata_ops(v, *calc));
    ops
}

/// Moves the operations of `more` to the end of `ops`.
fn append_ops(ops: &mut Vec<DeviceOp>, more: Vec<DeviceOp>)
    ensures
        ops_model(final(ops)@) == ops_model(old(ops)@) + ops_model(more@),
{
    let ghost added = more@;
    let mut more = more;
    ops.append(&mut more);
    assert(ops_model(ops@) =~= ops_model(old(ops)@) + ops_model(added));
}

/// The log entries of the phases before the metadata update.
fn build_growth_log(
    calc: &SizeCalculation,
    move_count: u64,
    total_bytes: u64,
    start: ResizePhase,
    dry_run: bool,
    Ghost(v): Ghost<Volume>,
) -> (log: Vec<Operation>)
    requires
        move_count == v.moves(*calc).len(),
        total_bytes == move_count * layout::bytes_per_cluster(v.boot),
    ensures
        log@ == growth_log(v, *calc, start, dry_run),
{
    let mut log: Vec<Operation> = Vec::new();
    if calc.fat_needs_growth {
        log.push(Operation::FatNeedsGrowth { sectors: calc.fat_growth_sectors });
        if move_count != 0 {
            log.push(Operation::PlannedDataShift { clusters: move_count, bytes: total_bytes });
        }
        if !dry_run {
            if start == ResizePhase::Started {
                log.push(Operation::WroteCheckpointStarted);
                log.push(Operation::ShiftedClusters { clusters: move_count });
                log.push(Operation::VerifiedDataShift);
                log.push(Operation::UpdatedCheckpointDataCopied);
            } else {
                log.push(Operation::SkippedDataShift);
            }
            if start != ResizePhase::FatWritten {
                log.push(Operation::InvalidatedBootSector);
                log.push(Operation::InitializedFatSectors);
                log.push(Operation::SyncedFatCopies);
                log.push(Operation::UpdatedCheckpointFatWritten);
            } else {
                log.push(Operation::SkippedFatOperations);
            }
        } else if move_count != 0 {
            log.push(Operation::DryRunWouldShift);
        }
    }
    assert(log@ =~= growth_log(v, *calc, start, dry_run));
    log
}

/// The log of a run.
fn build_log(
    boot: &BootSector,
    calc: &SizeCalculation,
    resumed: Option<ResizePhase>,
    dry_run: bool,
    fat_len: u64,
    growth: Vec<Operation>,
    new_free: u32,
    Ghost(v): Ghost<Volume>,
) -> (log: Vec<Operation>)
    requires
        boot.wf(),
        v.boot == boot@,
        fat_len == v.fat.len(),
        growth@ == growth_log(v, *calc, starting_phase(resumed), dry_run),
        new_free == final_free_count(v, *calc),
    ensures
        log@ == resize_log(v, *calc, resumed, dry_run),
{
    let mut log: Vec<Operation> = Vec::new();
    log.push(Operation::ReadBootSector { bytes_per_sector: boot.bytes_per_sector() });
    match resumed {
        Some(phase) => {
            log.push(Operation::DetectedIncompleteResize { phase });
        },
        None => {},
    }
    log.push(Operation::VerifiedBackupBootSector { sector: boot.backup_boot_sector() });
    log.push(Operation::ReadFsInfo { sector: boot.fs_info_sector() });
    log.push(
        Operation::CalculatedResize {
            old_total_sectors: calc.old_total_sectors,
            new_total_sectors: calc.new_total_sectors,
        },
    );
    log.push(Operation::ReadFatTable { entries: fat_len });
    let ghost head = log@;
    let mut growth = growth;
    log.append(&mut growth);
    if dry_run {
        log.push(Operation::DryRunNoChanges);
    } else {
        log.push(Operation::UpdatedBootSector);
        log.push(Operation::UpdatedBackupBootSector);
        log.push(Operation::UpdatedFsInfo { free_clusters: new_free });
        log.push(Operation::ClearedCheckpoint);
        log.push(Operation::SyncedChanges);
    }
    assert(log@ =~= resize_log(v, *calc, resumed, dry_run));
    log
}

/// Everything that a run writes.
fn build_ops(
    boot: &BootSector,
    fsinfo: &FSInfo,
    relocation: &RelocationPlan,
    calc: &SizeCalculation,
    start: ResizePhase,
    dry_run: bool,
    checkpoint_offset: u64,
    Ghost(v): Ghost<Volume>,
) -> (ops: Vec<DeviceOp>)
    requires
        boot.wf(),
        is_fat32_geometry(boot@),
        fsinfo.wf(),
        calc.first_affected_cluster >= 2,
        v.boot == boot@,
        v.fsinfo == fsinfo@,
        relocation.moves@ == v.moves(*calc),
        v.checkpoint_offset() == checkpoint_offset,
    ensures
        ops_model(ops@) == resize_ops(v, *calc, start, dry_run),
{
    let mut ops: Vec<DeviceOp> = Vec::new();
    assert(ops_model(ops@) =~= Seq::<OpModel>::empty());
    if dry_run {
        return ops;
    }
    if calc.fat_needs_growth {
        if start == ResizePhase::Started {
            append_ops(
                &mut ops,
                build_shift_phase(boot, relocation, calc, checkpoint_offset, Ghost(v)),
            );
        }
        if start != ResizePhase::FatWritten {
            append_ops(&mut ops, build_fat_phase(boot, calc, checkpoint_offset, Ghost(v)));
        }
    }
    assert(ops_model(ops@) =~= growth_ops(v, *calc, start));
    append_ops(&mut ops, build_metadata_phase(boot, fsinfo, calc, checkpoint_offset, Ghost(v)));
    ops
}

/// Plans a resize from what was read of the volume: the writes, in order,
/// and the result to report once they are done. `resumed` is the phase of
/// the checkpoint that was found, if one was.
pub fn plan_resize(
    boot: &BootSector,
    fsinfo: &FSInfo,
    fat: &[u32],
    calc: SizeCalculation,
    resumed: Option<ResizePhase>,
    device_sectors: u64,
    dry_run: bool,
) -> (plan: ResizePlan)
    requires
        boot.wf(),
        is_fat32_geometry(boot@),
        fsinfo.wf(),
        calc.first_affected_cluster >= 2,
        1 <= device_sectors,
        device_sectors * layout::bytes_per_sector(boot@) <= u64::MAX,
    ensures
        plan@ == planned_resize(
            Volume { boot: boot@, fsinfo: fsinfo@, fat: fat@, device_sectors: device_sectors as int },
            calc,
            resumed,
            dry_run,
        ),
{
    let ghost v = Volume {
        boot: boot@,
        fsinfo: fsinfo@,
        fat: fat@,
        device_sectors: device_sectors as int,
    };
    proof {
        lemma_fat32_geometry_defined(boot@);
        lemma_moves_bounded(
            boot@,
            fat@,
            calc.first_affected_cluster as int,
            calc.fat_growth_sectors as int,
        );
    }
    let bps: u16 = boot.bytes_per_sector();
    let start: ResizePhase = match resumed {
        Some(phase) => phase,
        None => ResizePhase::Started,
    };
    assert((device_sectors - 1) * bps <= device_sectors * bps) by (nonlinear_arith)
        requires
            device_sectors >= 1,
            bps >= 0,
    ;
    let checkpoint_offset: u64 = (device_sectors - 1) * bps as u64;
    let relocation = relocation_plan(
        boot,
        fat,
        calc.first_affected_cluster,
        calc.fat_growth_sectors,
    );
    let move_count: usize = relocation.cluster_count();
    let ops = build_ops(
        boot,
        fsinfo,
        &relocation,
        &calc,
        start,
        dry_run,
        checkpoint_offset,
        Ghost(v),
    );
    let growth = build_growth_log(
        &calc,
        move_count as u64,
        relocation.total_bytes,
        start,
        dry_run,
        Ghost(v),
    );
    let new_free: u32 = new_free_count(boot, fsinfo, &calc, Ghost(v));
    let log = build_log(boot, &calc, resumed, dry_run, fat.len() as u64, growth, new_free, Ghost(v));
    assert(calc.old_total_sectors * bps <= 0xFFFF_FFFF * 0xFFFF && calc.new_total_sectors * bps
        <= 0xFFFF_FFFF * 0xFFFF) by (nonlinear_arith)
        requires
            calc.old_total_sectors <= 0xFFFF_FFFF,
            calc.new_total_sectors <= 0xFFFF_FFFF,
            bps <= 0xFFFF,
    ;
    let result = ResizeResult {
        old_size_bytes: calc.old_total_sectors as u64 * bps as u64,
        new_size_bytes: calc.new_total_sectors as u64 * bps as u64,
        fat_grew: calc.fat_needs_growth,
        clusters_relocated: if calc.fat_needs_growth && !dry_run {
            move_count
        } else {
            0
        },
        calculation: calc,
        operations: describe_log(&log),
    };
    ResizePlan { ops, result }
}

} // verus!
