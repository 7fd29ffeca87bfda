//! The resize orchestrator.
//!
//! A resize reads the boot sector, the checkpoint of an interrupted run if
//! there is one, the backup boot sector, the FSInfo sector and the first
//! FAT, in this order, and then writes what `plan_resize` lists. Which
//! bytes to read next, and what to make of them, is decided by a
//! `ResizeSession`; it never touches a device itself. `resize_fat32` runs
//! a session against a device in memory.

use crate::device::{in_range, ops_fit, run_ops, Device};
use crate::error::{Error, IoFault};
use crate::fat32::layout;
use crate::fat32::operations::{
    boot_sector_size, decode_fat, fat_entries, parse_boot_sector, parse_fsinfo,
    parsed_boot_sector, parsed_fsinfo, sector_size_after,
};
use crate::fat32::structs::{BootSector, FSInfo};
use crate::fat32::validation::{
    boot_sectors_match, is_fat32_geometry, lemma_fat32_geometry_defined,
    lemma_no_fault_iff_valid,
};
use crate::resize::calculator::{calculate_new_size, new_size, SizeCalculation};
use crate::resize::checkpoint::{parse_checkpoint, ResizeCheckpoint, ResizePhase};
use crate::resize::protocol::{
    calculation_from_checkpoint, checkpoint_calculation, plan_resize, planned_resize, PlanModel,
    ResizeOptions, ResizePlan, ResizeResult, ResultModel, Volume,
};
use vstd::prelude::*;

verus! {

/// What a session waits for.
#[derive(Debug, Clone, Copy, PartialEq, Eq, Structural)]
pub enum Stage {
    /// The first bytes of the device, which hold the boot sector.
    Boot,
    /// The last sector of the device, which may hold a checkpoint.
    Checkpoint,
    /// The backup boot sector.
    Backup,
    /// The FSInfo sector.
    FsInfo,
    /// The first FAT.
    Fat,
    /// Nothing: the plan is ready.
    Done,
}

/// The place of a stage in the order of a run.
pub open spec fn stage_rank(stage: Stage) -> int {
    match stage {
        Stage::Boot => 0,
        Stage::Checkpoint => 1,
        Stage::Backup => 2,
        Stage::FsInfo => 3,
        Stage::Fat => 4,
        Stage::Done => 5,
    }
}

/// What a session holds at each stage, as contracts see it.
pub enum StageModel {
    Boot,
    Checkpoint {
        /// The boot sector.
        boot: Seq<u8>,
        /// Whether the run cannot go on without a checkpoint.
        required: bool,
    },
    Backup {
        boot: Seq<u8>,
        /// The checkpoint of the interrupted run, if one was found.
        checkpoint: Option<ResizeCheckpoint>,
    },
    FsInfo { boot: Seq<u8>, checkpoint: Option<ResizeCheckpoint> },
    Fat {
        boot: Seq<u8>,
        checkpoint: Option<ResizeCheckpoint>,
        /// The FSInfo sector.
        fsinfo: Seq<u8>,
        /// The size calculation of the run.
        calculation: SizeCalculation,
    },
    Done { plan: PlanModel },
}

/// A session as contracts see it.
pub struct SessionModel {
    /// The size of the device in bytes.
    pub device_bytes: u64,
    pub dry_run: bool,
    pub state: StageModel,
}

/// The phase of a checkpoint, if there is one.
pub open spec fn resumed_phase(checkpoint: Option<ResizeCheckpoint>) -> Option<ResizePhase> {
    match checkpoint {
        Some(cp) => Some(cp.phase),
        None => None,
    }
}

impl SessionModel {
    /// The session before anything is read.
    pub open spec fn initial(device_bytes: u64, dry_run: bool) -> SessionModel {
        SessionModel { device_bytes, dry_run, state: StageModel::Boot }
    }

    /// The session at another stage.
    pub open spec fn at(self, state: StageModel) -> SessionModel {
        SessionModel { state, ..self }
    }

    /// What the session waits for.
    pub open spec fn stage(self) -> Stage {
        match self.state {
            StageModel::Boot => Stage::Boot,
            StageModel::Checkpoint { .. } => Stage::Checkpoint,
            StageModel::Backup { .. } => Stage::Backup,
            StageModel::FsInfo { .. } => Stage::FsInfo,
            StageModel::Fat { .. } => Stage::Fat,
            StageModel::Done { .. } => Stage::Done,
        }
    }

    /// The number of whole sectors of the device, by the sector size of
    /// boot sector `boot`.
    pub open spec fn sectors(self, boot: Seq<u8>) -> int {
        self.device_bytes as int / (layout::bytes_per_sector(boot) as int)
    }

    /// Whether the device has more sectors than the volume.
    pub open spec fn behind(self, boot: Seq<u8>) -> bool {
        self.sectors(boot) > layout::total_sectors(boot)
    }

    /// What holds of the boot sector that a session holds: it is a whole
    /// sector of a FAT32 volume, and a checkpoint was only looked for
    /// behind the volume.
    pub open spec fn boot_ok(self, boot: Seq<u8>, checkpoint: Option<ResizeCheckpoint>) -> bool {
        &&& boot.len() == layout::bytes_per_sector(boot)
        &&& is_fat32_geometry(boot)
        &&& checkpoint.is_some() ==> self.behind(boot)
    }

    /// What holds of a session at each stage.
    pub open spec fn ok(self) -> bool {
        match self.state {
            StageModel::Boot => true,
            StageModel::Checkpoint { boot, required } => self.boot_ok(boot, None) && self.behind(
                boot,
            ),
            StageModel::Backup { boot, checkpoint } => self.boot_ok(boot, checkpoint),
            StageModel::FsInfo { boot, checkpoint } => self.boot_ok(boot, checkpoint),
            StageModel::Fat { boot, checkpoint, fsinfo, calculation } => {
                &&& self.boot_ok(boot, checkpoint)
                &&& fsinfo.len() >= layout::MIN_SECTOR_SIZE
                &&& calculation.first_affected_cluster == 2
                &&& self.sectors(boot) >= 1
            },
            StageModel::Done { plan } => self.dry_run ==> plan.ops.len() == 0,
        }
    }

    /// The bytes that the session waits for: offset and length. `None`
    /// once the plan is ready.
    pub open spec fn pending_read(self) -> Option<(int, int)> {
        match self.state {
            StageModel::Boot => Some((0, layout::MAX_SECTOR_SIZE as int)),
            StageModel::Checkpoint { boot, required } => Some(
                (
                    (self.sectors(boot) - 1) * layout::bytes_per_sector(boot),
                    layout::bytes_per_sector(boot) as int,
                ),
            ),
            StageModel::Backup { boot, checkpoint } => Some(
                (
                    layout::backup_boot_sector(boot) * layout::bytes_per_sector(boot),
                    layout::bytes_per_sector(boot) as int,
                ),
            ),
            StageModel::FsInfo { boot, checkpoint } => Some(
                (
                    layout::fs_info_sector(boot) * layout::bytes_per_sector(boot),
                    layout::bytes_per_sector(boot) as int,
                ),
            ),
            StageModel::Fat { boot, checkpoint, fsinfo, calculation } => Some(
                (
                    layout::reserved_sectors(boot) * layout::bytes_per_sector(boot),
                    layout::fat_size(boot) * layout::bytes_per_sector(boot),
                ),
            ),
            StageModel::Done { plan } => None,
        }
    }

    /// The stage after the boot sector was read. A dry run looks for no
    /// checkpoint. Else a boot sector with a zero signature needs one, and
    /// a valid one may have one, where the device has sectors behind the
    /// volume.
    pub open spec fn after_boot(self, data: Seq<u8>) -> Result<StageModel, Error> {
        match parsed_boot_sector(data, true) {
            Err(e) => Err(e),
            Ok(boot) => if self.dry_run {
                Ok(StageModel::Backup { boot, checkpoint: None })
            } else if layout::boot_signature(boot) != layout::VALID_SIGNATURE {
                if self.behind(boot) {
                    Ok(StageModel::Checkpoint { boot, required: true })
                } else {
                    Err(Error::InvalidatedFilesystem)
                }
            } else if self.behind(boot) {
                Ok(StageModel::Checkpoint { boot, required: false })
            } else {
                Ok(StageModel::Backup { boot, checkpoint: None })
            },
        }
    }

    /// The stage after the last sector was read. A resumed run needs a
    /// device of at least the sectors that the checkpoint aims at.
    pub open spec fn after_checkpoint(self, boot: Seq<u8>, required: bool, data: Seq<u8>) -> Result<
        StageModel,
        Error,
    > {
        match parse_checkpoint(data) {
            Err(e) => Err(e),
            Ok(None) => if required {
                Err(Error::InvalidatedFilesystem)
            } else {
                Ok(StageModel::Backup { boot, checkpoint: None })
            },
            Ok(Some(cp)) => if self.sectors(boot) < cp.new_total_sectors {
                Err(Error::ResizeSizeMismatch(cp.phase.spec_to_u8()))
            } else {
                Ok(StageModel::Backup { boot, checkpoint: Some(cp) })
            },
        }
    }

    /// The stage after the backup boot sector was read. The backup must
    /// agree with a valid boot sector on the geometry.
    pub open spec fn after_backup(
        self,
        boot: Seq<u8>,
        checkpoint: Option<ResizeCheckpoint>,
        data: Seq<u8>,
    ) -> Result<StageModel, Error> {
        if layout::boot_signature(boot) == layout::VALID_SIGNATURE && !layout::same_geometry(
            boot,
            data,
        ) {
            Err(Error::BackupMismatch)
        } else {
            Ok(StageModel::FsInfo { boot, checkpoint })
        }
    }

    /// The size calculation of the run: that of the checkpoint, if there
    /// is one, else the one for the whole device.
    pub open spec fn calculate(self, boot: Seq<u8>, checkpoint: Option<ResizeCheckpoint>) -> Result<
        SizeCalculation,
        Error,
    > {
        match checkpoint {
            Some(cp) => match checkpoint_calculation(boot, cp) {
                Some(calc) => Ok(calc),
                None => Err(Error::CheckpointCorrupted),
            },
            None => new_size(boot, self.sectors(boot) as u64),
        }
    }

    /// The stage after the FSInfo sector was read.
    pub open spec fn after_fsinfo(
        self,
        boot: Seq<u8>,
        checkpoint: Option<ResizeCheckpoint>,
        data: Seq<u8>,
    ) -> Result<StageModel, Error> {
        match parsed_fsinfo(data) {
            Err(e) => Err(e),
            Ok(fsinfo) => match self.calculate(boot, checkpoint) {
                Err(e) => Err(e),
                Ok(calculation) => Ok(StageModel::Fat { boot, checkpoint, fsinfo, calculation }),
            },
        }
    }

    /// The stage after the FAT was read: the plan is made.
    pub open spec fn after_fat(
        self,
        boot: Seq<u8>,
        checkpoint: Option<ResizeCheckpoint>,
        fsinfo: Seq<u8>,
        calculation: SizeCalculation,
        data: Seq<u8>,
    ) -> StageModel {
        StageModel::Done {
            plan: planned_resize(
                Volume {
                    boot,
                    fsinfo,
                    fat: fat_entries(data),
                    device_sectors: self.sectors(boot),
                },
                calculation,
                resumed_phase(checkpoint),
                self.dry_run,
            ),
        }
    }

    /// The stage after the bytes that the session waited for were read,
    /// or the error that ends the run.
    pub open spec fn next_stage(self, data: Seq<u8>) -> Result<StageModel, Error> {
        match self.state {
            StageModel::Boot => self.after_boot(data),
            StageModel::Checkpoint { boot, required } => self.after_checkpoint(
                boot,
                required,
                data,
            ),
            StageModel::Backup { boot, checkpoint } => self.after_backup(boot, checkpoint, data),
            StageModel::FsInfo { boot, checkpoint } => self.after_fsinfo(boot, checkpoint, data),
            StageModel::Fat { boot, checkpoint, fsinfo, calculation } => Ok(
                self.after_fat(boot, checkpoint, fsinfo, calculation, data),
            ),
            StageModel::Done { plan } => Err(Error::Io(IoFault::InvalidInput)),
        }
    }

    /// The session after the bytes that it waited for were read: at the
    /// next stage, or the error that ends the run. Bytes of another length
    /// than the session asked for are an error, and so are bytes for a
    /// session that waits for none.
    #[verifier::opaque]
    pub open spec fn advance(self, data: Seq<u8>) -> Result<SessionModel, Error> {
        match self.pending_read() {
            None => Err(Error::Io(IoFault::InvalidInput)),
            Some((offset, len)) => if data.len() != len {
                Err(Error::Io(IoFault::InvalidInput))
            } else {
                match self.next_stage(data) {
                    Ok(state) => Ok(self.at(state)),
                    Err(e) => Err(e),
                }
            },
        }
    }
}

/// Every step takes a session to a later stage and keeps it sound.
pub proof fn lemma_advance(m: SessionModel, data: Seq<u8>)
    requires
        m.ok(),
    ensures
        match m.advance(data) {
            Ok(next) => next.ok() && stage_rank(next.stage()) > stage_rank(m.stage())
                && next.device_bytes == m.device_bytes && next.dry_run == m.dry_run,
            Err(_) => true,
        },
{
    reveal(SessionModel::advance);
    match m.state {
        StageModel::Boot => {
            if m.advance(data).is_ok() {
                let raw = parsed_boot_sector(data, true).unwrap();
                lemma_no_fault_iff_valid(raw, true);
                assert(raw.len() == layout::bytes_per_sector(data));
                assert(raw[11] == data[11]);
                assert(raw[12] == data[12]);
            }
        },
        StageModel::FsInfo { boot, checkpoint } => {
            if m.advance(data).is_ok() {
                lemma_fat32_geometry_defined(boot);
            }
        },
        _ => {},
    }
}

/// The step of a run that is no dry run from a boot sector that has
/// sectors of the device behind its volume: the last sector is read next.
pub proof fn lemma_step_boot(m: SessionModel, data: Seq<u8>, boot: Seq<u8>)
    requires
        m.state == StageModel::Boot,
        !m.dry_run,
        data.len() == layout::MAX_SECTOR_SIZE,
        parsed_boot_sector(data, true) == Ok::<Seq<u8>, Error>(boot),
        m.behind(boot),
    ensures
        m.advance(data) == Ok::<SessionModel, Error>(
            m.at(
                StageModel::Checkpoint {
                    boot,
                    required: layout::boot_signature(boot) != layout::VALID_SIGNATURE,
                },
            ),
        ),
{
    reveal(SessionModel::advance);
}

/// The step from the last sector: with the checkpoint that it holds, or
/// with none where none is needed.
pub proof fn lemma_step_checkpoint(
    m: SessionModel,
    boot: Seq<u8>,
    required: bool,
    data: Seq<u8>,
    found: Option<ResizeCheckpoint>,
)
    requires
        m.state == (StageModel::Checkpoint { boot, required }),
        data.len() == layout::bytes_per_sector(boot),
        parse_checkpoint(data) == Ok::<Option<ResizeCheckpoint>, Error>(found),
        found.is_none() ==> !required,
        found.is_some() ==> m.sectors(boot) >= found.unwrap().new_total_sectors,
    ensures
        m.advance(data) == Ok::<SessionModel, Error>(
            m.at(StageModel::Backup { boot, checkpoint: found }),
        ),
{
    reveal(SessionModel::advance);
}

/// The step from a backup boot sector that agrees with the boot sector,
/// or that no valid boot sector is there to be held against.
pub proof fn lemma_step_backup(
    m: SessionModel,
    boot: Seq<u8>,
    checkpoint: Option<ResizeCheckpoint>,
    data: Seq<u8>,
)
    requires
        m.state == (StageModel::Backup { boot, checkpoint }),
        data.len() == layout::bytes_per_sector(boot),
        layout::boot_signature(boot) == layout::VALID_SIGNATURE ==> layout::same_geometry(
            boot,
            data,
        ),
    ensures
        m.advance(data) == Ok::<SessionModel, Error>(m.at(StageModel::FsInfo { boot, checkpoint })),
{
    reveal(SessionModel::advance);
}

/// The step from a valid FSInfo sector, where the sizes can be
/// calculated.
pub proof fn lemma_step_fsinfo(
    m: SessionModel,
    boot: Seq<u8>,
    checkpoint: Option<ResizeCheckpoint>,
    data: Seq<u8>,
    calculation: SizeCalculation,
)
    requires
        m.state == (StageModel::FsInfo { boot, checkpoint }),
        data.len() == layout::bytes_per_sector(boot),
        parsed_fsinfo(data) == Ok::<Seq<u8>, Error>(data),
        m.calculate(boot, checkpoint) == Ok::<SizeCalculation, Error>(calculation),
    ensures
        m.advance(data) == Ok::<SessionModel, Error>(
            m.at(StageModel::Fat { boot, checkpoint, fsinfo: data, calculation }),
        ),
{
    reveal(SessionModel::advance);
}

/// The step from the first FAT: to the plan.
pub proof fn lemma_step_fat(
    m: SessionModel,
    boot: Seq<u8>,
    checkpoint: Option<ResizeCheckpoint>,
    fsinfo: Seq<u8>,
    calculation: SizeCalculation,
    data: Seq<u8>,
)
    requires
        m.state == (StageModel::Fat { boot, checkpoint, fsinfo, calculation }),
        data.len() == layout::fat_size(boot) * layout::bytes_per_sector(boot),
    ensures
        m.advance(data) == Ok::<SessionModel, Error>(
            m.at(m.after_fat(boot, checkpoint, fsinfo, calculation, data)),
        ),
{
    reveal(SessionModel::advance);
}

/// What a run on a device with bytes `image` arrives at, from session `m`
/// on: the plan, or the error that ends the run. A read beyond the end of
/// the device ends the run.
#[verifier::opaque]
pub open spec fn run_session(m: SessionModel, image: Seq<u8>) -> Result<PlanModel, Error>
    decreases 5 - stage_rank(m.stage()),
{
    match m.state {
        StageModel::Done { plan } => Ok(plan),
        _ => {
            let (offset, len) = m.pending_read().unwrap();
            if !in_range(image.len() as int, offset, len) {
                Err(Error::Io(IoFault::OutOfRange))
            } else {
                match m.advance(image.subrange(offset, offset + len)) {
                    Err(e) => Err(e),
                    Ok(next) => if stage_rank(next.stage()) > stage_rank(m.stage()) {
                        run_session(next, image)
                    } else {
                        Err(Error::Io(IoFault::InvalidInput))
                    },
                }
            }
        },
    }
}

/// A run goes on from a session by reading what the session waits for and
/// taking the step that the session decides on.
pub proof fn lemma_run_step(m: SessionModel, image: Seq<u8>)
    requires
        m.ok(),
    ensures
        run_session(m, image) == match m.state {
            StageModel::Done { plan } => Ok::<PlanModel, Error>(plan),
            _ => if !in_range(
                image.len() as int,
                m.pending_read().unwrap().0,
                m.pending_read().unwrap().1,
            ) {
                Err(Error::Io(IoFault::OutOfRange))
            } else {
                match m.advance(
                    image.subrange(
                        m.pending_read().unwrap().0,
                        m.pending_read().unwrap().0 + m.pending_read().unwrap().1,
                    ),
                ) {
                    Err(e) => Err(e),
                    Ok(next) => run_session(next, image),
                }
            },
        },
{
    reveal(run_session);
    match m.pending_read() {
        None => {},
        Some((offset, len)) => {
            lemma_advance(m, image.subrange(offset, offset + len));
        },
    }
}

/// A run goes on from the session that a step arrives at.
pub proof fn lemma_run_advance(m: SessionModel, image: Seq<u8>, data: Seq<u8>, next: SessionModel)
    requires
        m.ok(),
        m.pending_read().is_some(),
        in_range(image.len() as int, m.pending_read().unwrap().0, m.pending_read().unwrap().1),
        data == image.subrange(
            m.pending_read().unwrap().0,
            m.pending_read().unwrap().0 + m.pending_read().unwrap().1,
        ),
        m.advance(data) == Ok::<SessionModel, Error>(next),
    ensures
        next.ok(),
        run_session(m, image) == run_session(next, image),
{
    lemma_run_step(m, image);
    lemma_advance(m, data);
}

/// What a run reads on its way to the plan, where every read succeeds.
pub struct Reads {
    /// The boot sector.
    pub boot: Seq<u8>,
    /// The checkpoint in the last sector, if there is one.
    pub checkpoint: Option<ResizeCheckpoint>,
    /// The FSInfo sector.
    pub fsinfo: Seq<u8>,
    /// The size calculation that the run makes.
    pub calculation: SizeCalculation,
}

/// Whether a run that is no dry run reads `reads` from a device with
/// bytes `image` that has sectors behind its volume, and arrives at a
/// plan.
pub open spec fn reads_of(image: Seq<u8>, reads: Reads) -> bool {
    let boot = reads.boot;
    let bps = layout::bytes_per_sector(boot) as int;
    let sectors = image.len() as int / bps;
    let backup_at = layout::backup_boot_sector(boot) * bps;
    let fsinfo_at = layout::fs_info_sector(boot) * bps;
    &&& layout::MAX_SECTOR_SIZE <= image.len() <= u64::MAX
    &&& parsed_boot_sector(image.subrange(0, layout::MAX_SECTOR_SIZE as int), true) == Ok::<
        Seq<u8>,
        Error,
    >(boot)
    &&& boot.len() == bps
    &&& is_fat32_geometry(boot)
    &&& sectors > layout::total_sectors(boot)
    &&& parse_checkpoint(image.subrange((sectors - 1) * bps, (sectors - 1) * bps + bps)) == Ok::<
        Option<ResizeCheckpoint>,
        Error,
    >(reads.checkpoint)
    &&& reads.checkpoint.is_none() ==> layout::boot_signature(boot) == layout::VALID_SIGNATURE
    &&& reads.checkpoint.is_some() ==> sectors >= reads.checkpoint.unwrap().new_total_sectors
    &&& in_range(image.len() as int, backup_at, bps)
    &&& layout::boot_signature(boot) == layout::VALID_SIGNATURE ==> layout::same_geometry(
        boot,
        image.subrange(backup_at, backup_at + bps),
    )
    &&& in_range(image.len() as int, fsinfo_at, bps)
    &&& reads.fsinfo == image.subrange(fsinfo_at, fsinfo_at + bps)
    &&& parsed_fsinfo(reads.fsinfo) == Ok::<Seq<u8>, Error>(reads.fsinfo)
    &&& SessionModel::initial(image.len() as u64, false).calculate(boot, reads.checkpoint) == Ok::<
        SizeCalculation,
        Error,
    >(reads.calculation)
}

/// What the run has read once the FAT is there, too.
pub open spec fn volume_read(image: Seq<u8>, reads: Reads) -> Volume {
    let bps = layout::bytes_per_sector(reads.boot) as int;
    let fat_at = layout::reserved_sectors(reads.boot) * bps;
    Volume {
        boot: reads.boot,
        fsinfo: reads.fsinfo,
        fat: fat_entries(
            image.subrange(fat_at, fat_at + layout::fat_size(reads.boot) * bps),
        ),
        device_sectors: image.len() as int / bps,
    }
}

/// The first two steps of a run: boot sector and last sector.
pub proof fn lemma_run_to_backup(image: Seq<u8>, reads: Reads)
    requires
        reads_of(image, reads),
    ensures
        SessionModel::initial(image.len() as u64, false).at(
            StageModel::Backup { boot: reads.boot, checkpoint: reads.checkpoint },
        ).ok(),
        run_session(SessionModel::initial(image.len() as u64, false), image) == run_session(
            SessionModel::initial(image.len() as u64, false).at(
                StageModel::Backup { boot: reads.boot, checkpoint: reads.checkpoint },
            ),
            image,
        ),
{
    let boot = reads.boot;
    let bps = layout::bytes_per_sector(boot) as int;
    let m0 = SessionModel::initial(image.len() as u64, false);
    let sectors = m0.sectors(boot);
    let first = image.subrange(0, layout::MAX_SECTOR_SIZE as int);
    let required = layout::boot_signature(boot) != layout::VALID_SIGNATURE;
    let m1 = m0.at(StageModel::Checkpoint { boot, required });
    lemma_step_boot(m0, first, boot);
    lemma_run_advance(m0, image, first, m1);
    let n = image.len() as int;
    assert((n / bps) * bps <= n) by (nonlinear_arith)
        requires
            bps >= 1,
            n >= 0,
    ;
    assert((sectors - 1) * bps + bps == sectors * bps && (sectors - 1) * bps >= 0)
        by (nonlinear_arith)
        requires
            sectors >= 1,
            bps >= 0,
    ;
    let last = image.subrange((sectors - 1) * bps, (sectors - 1) * bps + bps);
    let m2 = m0.at(StageModel::Backup { boot, checkpoint: reads.checkpoint });
    lemma_step_checkpoint(m1, boot, required, last, reads.checkpoint);
    lemma_run_advance(m1, image, last, m2);
}

/// The steps of a run from the backup boot sector to the FAT.
pub proof fn lemma_run_to_fat(image: Seq<u8>, reads: Reads)
    requires
        reads_of(image, reads),
    ensures
        SessionModel::initial(image.len() as u64, false).at(
            StageModel::Fat {
                boot: reads.boot,
                checkpoint: reads.checkpoint,
                fsinfo: reads.fsinfo,
                calculation: reads.calculation,
            },
        ).ok(),
        run_session(SessionModel::initial(image.len() as u64, false), image) == run_session(
            SessionModel::initial(image.len() as u64, false).at(
                StageModel::Fat {
                    boot: reads.boot,
                    checkpoint: reads.checkpoint,
                    fsinfo: reads.fsinfo,
                    calculation: reads.calculation,
                },
            ),
            image,
        ),
{
    lemma_run_to_backup(image, reads);
    let boot = reads.boot;
    let bps = layout::bytes_per_sector(boot) as int;
    let m0 = SessionModel::initial(image.len() as u64, false);
    let m2 = m0.at(StageModel::Backup { boot, checkpoint: reads.checkpoint });
    let backup_at = layout::backup_boot_sector(boot) * bps;
    let backup = image.subrange(backup_at, backup_at + bps);
    let m3 = m0.at(StageModel::FsInfo { boot, checkpoint: reads.checkpoint });
    lemma_step_backup(m2, boot, reads.checkpoint, backup);
    lemma_run_advance(m2, image, backup, m3);
    let m4 = m0.at(
        StageModel::Fat {
            boot,
            checkpoint: reads.checkpoint,
            fsinfo: reads.fsinfo,
            calculation: reads.calculation,
        },
    );
    lemma_step_fsinfo(m3, boot, reads.checkpoint, reads.fsinfo, reads.calculation);
    lemma_run_advance(m3, image, reads.fsinfo, m4);
}

/// A run whose reads all succeed arrives at the plan for what it read.
pub proof fn lemma_run_to_plan(image: Seq<u8>, reads: Reads)
    requires
        reads_of(image, reads),
    ensures
        run_session(SessionModel::initial(image.len() as u64, false), image) == Ok::<
            PlanModel,
            Error,
        >(
            planned_resize(
                volume_read(image, reads),
                reads.calculation,
                resumed_phase(reads.checkpoint),
                false,
            ),
        ),
{
    lemma_run_to_fat(image, reads);
    let boot = reads.boot;
    let bps = layout::bytes_per_sector(boot) as int;
    let m0 = SessionModel::initial(image.len() as u64, false);
    let m4 = m0.at(
        StageModel::Fat {
            boot,
            checkpoint: reads.checkpoint,
            fsinfo: reads.fsinfo,
            calculation: reads.calculation,
        },
    );
    lemma_fat32_geometry_defined(boot);
    let reserved = layout::reserved_sectors(boot) as int;
    let fat_size = layout::fat_size(boot) as int;
    let sectors = m0.sectors(boot);
    let n = image.len() as int;
    assert((n / bps) * bps <= n) by (nonlinear_arith)
        requires
            bps >= 1,
            n >= 0,
    ;
    assert(layout::num_fats(boot) * fat_size >= fat_size) by (nonlinear_arith)
        requires
            layout::num_fats(boot) >= 1,
            fat_size >= 0,
    ;
    assert(reserved * bps >= 0 && fat_size * bps >= 0 && reserved * bps + fat_size * bps
        <= sectors * bps) by (nonlinear_arith)
        requires
            reserved >= 0,
            fat_size >= 0,
            bps >= 1,
            reserved + fat_size <= sectors,
    ;
    let fat = image.subrange(reserved * bps, reserved * bps + fat_size * bps);
    let plan = planned_resize(
        volume_read(image, reads),
        reads.calculation,
        resumed_phase(reads.checkpoint),
        false,
    );
    let m5 = m0.at(StageModel::Done { plan });
    lemma_step_fat(m4, boot, reads.checkpoint, reads.fsinfo, reads.calculation, fat);
    assert(m4.after_fat(boot, reads.checkpoint, reads.fsinfo, reads.calculation, fat) == (
    StageModel::Done { plan }));
    lemma_run_advance(m4, image, fat, m5);
    lemma_run_step(m5, image);
}

/// What a resize does to a device with bytes `image`: the result, and the
/// bytes of the device afterwards. Where the plan is made, its operations
/// are performed up to the first that does not fit the device.
pub open spec fn resize_outcome(image: Seq<u8>, dry_run: bool) -> (Result<ResultModel, Error>, Seq<u8>) {
    match run_session(SessionModel::initial(image.len() as u64, dry_run), image) {
        Err(e) => (Err(e), image),
        Ok(plan) => (
            if ops_fit(image.len() as int, plan.ops) {
                Ok(plan.result)
            } else {
                Err(Error::Io(IoFault::OutOfRange))
            },
            run_ops(image, plan.ops),
        ),
    }
}

/// What a session holds at each stage.
#[derive(Debug)]
enum State {
    Boot,
    Checkpoint { boot: BootSector, required: bool },
    Backup { boot: BootSector, checkpoint: Option<ResizeCheckpoint> },
    FsInfo { boot: BootSector, checkpoint: Option<ResizeCheckpoint> },
    Fat {
        boot: BootSector,
        checkpoint: Option<ResizeCheckpoint>,
        fsinfo: FSInfo,
        calculation: SizeCalculation,
    },
    Done { plan: ResizePlan },
}

impl View for State {
    type V = StageModel;

    closed spec fn view(&self) -> StageModel {
        match *self {
            State::Boot => StageModel::Boot,
            State::Checkpoint { boot, required } => StageModel::Checkpoint { boot: boot@, required },
            State::Backup { boot, checkpoint } => StageModel::Backup { boot: boot@, checkpoint },
            State::FsInfo { boot, checkpoint } => StageModel::FsInfo { boot: boot@, checkpoint },
            State::Fat { boot, checkpoint, fsinfo, calculation } => StageModel::Fat {
                boot: boot@,
                checkpoint,
                fsinfo: fsinfo@,
                calculation,
            },
            State::Done { plan } => StageModel::Done { plan: plan@ },
        }
    }
}

/// The decisions of a resize run, between its reads.
#[derive(Debug)]
pub struct ResizeSession {
    device_bytes: u64,
    dry_run: bool,
    state: State,
}

impl View for ResizeSession {
    type V = SessionModel;

    closed spec fn view(&self) -> SessionModel {
        SessionModel { device_bytes: self.device_bytes, dry_run: self.dry_run, state: self.state@ }
    }
}

/// The number of whole sectors of a device of `device_bytes` bytes, by
/// the sector size of the boot sector.
fn device_sectors(device_bytes: u64, boot: &BootSector) -> (r: u64)
    requires
        boot.wf(),
        layout::bytes_per_sector(boot@) > 0,
    ensures
        r == device_bytes as int / (layout::bytes_per_sector(boot@) as int),
        r * layout::bytes_per_sector(boot@) <= device_bytes,
{
    let bps: u64 = boot.bytes_per_sector() as u64;
    let sectors: u64 = device_bytes / bps;
    assert(sectors * bps <= device_bytes) by (nonlinear_arith)
        requires
            sectors == device_bytes / bps,
            bps > 0,
    ;
    sectors
}

/// The byte range of `count` sectors from sector `sector` on.
fn sector_range(sector: u64, count: u64, boot: &BootSector, Ghost(limit): Ghost<int>) -> (r: (
    u64,
    u64,
))
    requires
        boot.wf(),
        sector <= 0xFFFF || sector <= limit,
        limit * layout::bytes_per_sector(boot@) <= u64::MAX,
        count <= 0xFFFF_FFFF,
    ensures
        r.0 == sector * layout::bytes_per_sector(boot@),
        r.1 == count * layout::bytes_per_sector(boot@),
{
    let bps: u64 = boot.bytes_per_sector() as u64;
    assert(sector * bps <= u64::MAX && count * bps <= u64::MAX) by (nonlinear_arith)
        requires
            sector <= 0xFFFF || sector <= limit,
            limit * bps <= u64::MAX,
            count <= 0xFFFF_FFFF,
            0 <= bps <= 0xFFFF,
    ;
    (sector * bps, count * bps)
}

fn after_boot(device_bytes: u64, dry_run: bool, data: &[u8]) -> (r: Result<State, Error>)
    ensures
        match SessionModel::initial(device_bytes, dry_run).after_boot(data@) {
            Ok(next) => r.is_ok() && r.unwrap()@ == next,
            Err(e) => r == Err::<State, Error>(e),
        },
{
    let boot = match parse_boot_sector(data, true) {
        Ok(boot) => boot,
        Err(e) => {
            return Err(e);
        },
    };
    proof {
        lemma_no_fault_iff_valid(boot@, true);
    }
    if dry_run {
        return Ok(State::Backup { boot, checkpoint: None });
    }
    let behind: bool = device_sectors(device_bytes, &boot) > boot.total_sectors() as u64;
    if !boot.is_signature_valid() {
        if !behind {
            return Err(Error::InvalidatedFilesystem);
        }
        Ok(State::Checkpoint { boot, required: true })
    } else if behind {
        Ok(State::Checkpoint { boot, required: false })
    } else {
        Ok(State::Backup { boot, checkpoint: None })
    }
}

fn after_checkpoint(device_bytes: u64, boot: BootSector, required: bool, data: &[u8]) -> (r: Result<
    State,
    Error,
>)
    requires
        boot.wf(),
        layout::bytes_per_sector(boot@) > 0,
    ensures
        match SessionModel::initial(device_bytes, false).after_checkpoint(boot@, required, data@) {
            Ok(next) => r.is_ok() && r.unwrap()@ == next,
            Err(e) => r == Err::<State, Error>(e),
        },
{
    let found = match ResizeCheckpoint::from_bytes(data) {
        Ok(found) => found,
        Err(e) => {
            return Err(e);
        },
    };
    match found {
        None => {
            if required {
                return Err(Error::InvalidatedFilesystem);
            }
            Ok(State::Backup { boot, checkpoint: None })
        },
        Some(checkpoint) => {
            if device_sectors(device_bytes, &boot) < checkpoint.new_total_sectors as u64 {
                return Err(Error::ResizeSizeMismatch(checkpoint.phase.to_u8()));
            }
            Ok(State::Backup { boot, checkpoint: Some(checkpoint) })
        },
    }
}

fn after_backup(boot: BootSector, checkpoint: Option<ResizeCheckpoint>, data: &[u8]) -> (r: Result<
    State,
    Error,
>)
    requires
        boot.wf(),
        data@.len() >= layout::MIN_SECTOR_SIZE,
    ensures
        match SessionModel::initial(0, false).after_backup(boot@, checkpoint, data@) {
            Ok(next) => r.is_ok() && r.unwrap()@ == next,
            Err(e) => r == Err::<State, Error>(e),
        },
{
    let backup = match BootSector::from_bytes(data) {
        Ok(backup) => backup,
        Err(e) => {
            return Err(e);
        },
    };
    if boot.is_signature_valid() && !boot_sectors_match(&boot, &backup) {
        return Err(Error::BackupMismatch);
    }
    Ok(State::FsInfo { boot, checkpoint })
}

fn after_fsinfo(
    device_bytes: u64,
    boot: BootSector,
    checkpoint: Option<ResizeCheckpoint>,
    data: &[u8],
) -> (r: Result<State, Error>)
    requires
        boot.wf(),
        is_fat32_geometry(boot@),
    ensures
        match SessionModel::initial(device_bytes, false).after_fsinfo(boot@, checkpoint, data@) {
            Ok(next) => r.is_ok() && r.unwrap()@ == next,
            Err(e) => r == Err::<State, Error>(e),
        },
{
    let fsinfo = match parse_fsinfo(data) {
        Ok(fsinfo) => fsinfo,
        Err(e) => {
            return Err(e);
        },
    };
    let calculated = match &checkpoint {
        Some(found) => match calculation_from_checkpoint(&boot, found) {
            Some(calculation) => Ok(calculation),
            None => Err(Error::CheckpointCorrupted),
        },
        None => calculate_new_size(&boot, device_sectors(device_bytes, &boot)),
    };
    match calculated {
        Ok(calculation) => Ok(State::Fat { boot, checkpoint, fsinfo, calculation }),
        Err(e) => Err(e),
    }
}

fn after_fat(
    device_bytes: u64,
    dry_run: bool,
    boot: BootSector,
    checkpoint: Option<ResizeCheckpoint>,
    fsinfo: FSInfo,
    calculation: SizeCalculation,
    data: &[u8],
) -> (r: State)
    requires
        boot.wf(),
        is_fat32_geometry(boot@),
        fsinfo.wf(),
        calculation.first_affected_cluster == 2,
        device_bytes as int / (layout::bytes_per_sector(boot@) as int) >= 1,
    ensures
        r@ == SessionModel::initial(device_bytes, dry_run).after_fat(
            boot@,
            checkpoint,
            fsinfo@,
            calculation,
            data@,
        ),
{
    let fat: Vec<u32> = decode_fat(data);
    let resumed: Option<ResizePhase> = match &checkpoint {
        Some(found) => Some(found.phase),
        None => None,
    };
    let plan = plan_resize(
        &boot,
        &fsinfo,
        fat.as_slice(),
        calculation,
        resumed,
        device_sectors(device_bytes, &boot),
        dry_run,
    );
    State::Done { plan }
}

impl ResizeSession {
    /// The session holds what its stage needs. `new` establishes this and
    /// `advance` keeps it.
    pub closed spec fn wf(&self) -> bool {
        self@.ok()
    }

    /// A session for a device of `device_bytes` bytes. It waits for the
    /// first bytes of the device.
    pub fn new(device_bytes: u64, dry_run: bool) -> (r: Self)
        ensures
            r.wf(),
            r@ == SessionModel::initial(device_bytes, dry_run),
    {
        ResizeSession { device_bytes, dry_run, state: State::Boot }
    }

    /// What the session waits for.
    pub fn stage(&self) -> (r: Stage)
        ensures
            r == self@.stage(),
    {
        match &self.state {
            State::Boot => Stage::Boot,
            State::Checkpoint { .. } => Stage::Checkpoint,
            State::Backup { .. } => Stage::Backup,
            State::FsInfo { .. } => Stage::FsInfo,
            State::Fat { .. } => Stage::Fat,
            State::Done { .. } => Stage::Done,
        }
    }

    /// The bytes to read next, offset and length, and to hand to
    /// `advance`. `None` once the plan is ready.
    pub fn pending_read(&self) -> (r: Option<(u64, u64)>)
        requires
            self.wf(),
        ensures
            match self@.pending_read() {
                Some((offset, len)) => r == Some((offset as u64, len as u64)) && 0 <= offset
                    <= u64::MAX && 0 <= len <= u64::MAX,
                None => r.is_none(),
            },
    {
        match &self.state {
            State::Boot => Some((0, layout::MAX_SECTOR_SIZE as u64)),
            State::Checkpoint { boot, required } => {
                let sectors: u64 = device_sectors(self.device_bytes, boot);
                Some(sector_range(sectors - 1, 1, boot, Ghost(sectors as int)))
            },
            State::Backup { boot, checkpoint } => Some(
                sector_range(boot.backup_boot_sector() as u64, 1, boot, Ghost(0)),
            ),
            State::FsInfo { boot, checkpoint } => Some(
                sector_range(boot.fs_info_sector() as u64, 1, boot, Ghost(0)),
            ),
            State::Fat { boot, checkpoint, fsinfo, calculation } => Some(
                sector_range(boot.reserved_sectors() as u64, boot.fat_size() as u64, boot, Ghost(0)),
            ),
            State::Done { plan } => None,
        }
    }

    /// Takes the bytes that the session waited for, and decides how the
    /// run goes on: with the next read, with the plan, or not at all.
    pub fn advance(self, data: &[u8]) -> (r: Result<Self, Error>)
        requires
            self.wf(),
        ensures
            match self@.advance(data@) {
                Ok(next) => r.is_ok() && r.unwrap()@ == next && r.unwrap().wf(),
                Err(e) => r == Err::<Self, Error>(e),
            },
    {
        proof {
            reveal(SessionModel::advance);
            lemma_advance(self@, data@);
        }
        let expected: u64 = match self.pending_read() {
            Some((_, len)) => len,
            None => {
                return Err(Error::Io(IoFault::InvalidInput));
            },
        };
        if data.len() as u64 != expected {
            return Err(Error::Io(IoFault::InvalidInput));
        }
        let device_bytes: u64 = self.device_bytes;
        let dry_run: bool = self.dry_run;
        let next = match self.state {
            State::Boot => after_boot(device_bytes, dry_run, data),
            State::Checkpoint { boot, required } => after_checkpoint(
                device_bytes,
                boot,
                required,
                data,
            ),
            State::Backup { boot, checkpoint } => after_backup(boot, checkpoint, data),
            State::FsInfo { boot, checkpoint } => after_fsinfo(device_bytes, boot, checkpoint, data),
            State::Fat { boot, checkpoint, fsinfo, calculation } => Ok(
                after_fat(device_bytes, dry_run, boot, checkpoint, fsinfo, calculation, data),
            ),
            State::Done { plan } => Err(Error::Io(IoFault::InvalidInput)),
        };
        match next {
            Ok(state) => Ok(ResizeSession { device_bytes, dry_run, state }),
            Err(e) => Err(e),
        }
    }

    /// The plan of the run, once the session waits for nothing more. A
    /// session that still waits for bytes is handed back as it is.
    pub fn finish(self) -> (r: Result<ResizePlan, Self>)
        ensures
            match self@.state {
                StageModel::Done { plan } => r.is_ok() && r.unwrap()@ == plan,
                _ => r == Err::<ResizePlan, Self>(self),
            },
    {
        let device_bytes: u64 = self.device_bytes;
        let dry_run: bool = self.dry_run;
        match self.state {
            State::Done { plan } => Ok(plan),
            state => Err(ResizeSession { device_bytes, dry_run, state }),
        }
    }
}

/// Reads from the device what the session waits for and takes the step.
/// The read of the boot sector sets the sector size of the device to the
/// one that the boot sector declares, where FAT32 allows it.
fn read_and_advance(device: &mut Device, session: ResizeSession) -> (r: Result<
    ResizeSession,
    Error,
>)
    requires
        old(device).wf(),
        session.wf(),
        session@.stage() != Stage::Done,
    ensures
        final(device).wf(),
        final(device)@ == old(device)@,
        final(device).spec_sector_size() == if session@.stage() == Stage::Boot {
            sector_size_after(old(device)@, old(device).spec_sector_size())
        } else {
            old(device).spec_sector_size()
        },
        match r {
            Ok(next) => next.wf() && run_session(next@, old(device)@) == run_session(
                session@,
                old(device)@,
            ) && stage_rank(next@.stage()) > stage_rank(session@.stage()),
            Err(e) => run_session(session@, old(device)@) == Err::<PlanModel, Error>(e),
        },
{
    proof {
        lemma_run_step(session@, device@);
    }
    let (offset, len) = match session.pending_read() {
        Some(read) => read,
        None => {
            return Err(Error::Io(IoFault::InvalidInput));
        },
    };
    if len > usize::MAX as u64 {
        return Err(Error::Io(IoFault::OutOfRange));
    }
    let data = match device.read_bytes_at(offset, len as usize) {
        Ok(data) => data,
        Err(e) => {
            return Err(e);
        },
    };
    match session.stage() {
        Stage::Boot => {
            match boot_sector_size(data.as_slice()) {
                Ok(size) => {
                    device.set_sector_size(size as u32);
                },
                Err(_) => {},
            }
        },
        _ => {},
    }
    proof {
        lemma_advance(session@, data@);
    }
    session.advance(data.as_slice())
}

/// Grows the FAT32 volume on the device to the size of the device: reads
/// what the protocol needs, plans the writes and performs them. A dry run
/// performs none. A run on a device that holds the checkpoint of an
/// interrupted run goes on from the phase that the checkpoint names. The
/// sector size of the device is set to the one that the boot sector
/// declares, as soon as that is known to be one that FAT32 allows.
pub fn resize_fat32(device: &mut Device, options: &ResizeOptions) -> (r: Result<ResizeResult, Error>)
    requires
        old(device).wf(),
    ensures
        final(device).wf(),
        final(device)@ == resize_outcome(old(device)@, options.dry_run).1,
        final(device).spec_sector_size() == sector_size_after(
            old(device)@,
            old(device).spec_sector_size(),
        ),
        match resize_outcome(old(device)@, options.dry_run).0 {
            Ok(result) => r.is_ok() && r.unwrap()@ == result,
            Err(e) => r == Err::<ResizeResult, Error>(e),
        },
{
    let device_bytes: u64 = match device.size_bytes() {
        Ok(size) => size,
        Err(e) => {
            return Err(e);
        },
    };
    let mut session = ResizeSession::new(device_bytes, options.dry_run);
    let ghost image = device@;
    let ghost initial = session@;
    let ghost old_size = device.spec_sector_size();
    loop
        invariant
            device.wf(),
            device@ == image,
            image == old(device)@,
            old_size == old(device).spec_sector_size(),
            initial == SessionModel::initial(image.len() as u64, options.dry_run),
            session.wf(),
            run_session(session@, image) == run_session(initial, image),
            device.spec_sector_size() == if session@.stage() == Stage::Boot {
                old_size
            } else {
                sector_size_after(image, old_size)
            },
        decreases 5 - stage_rank(session@.stage()),
    {
        proof {
            lemma_run_step(session@, image);
        }
        session = match session.finish() {
            Ok(plan) => {
                return match device.apply_all(plan.ops.as_slice()) {
                    Ok(()) => Ok(plan.result),
                    Err(e) => Err(e),
                };
            },
            Err(waiting) => match read_and_advance(device, waiting) {
                Ok(next) => next,
                Err(e) => {
                    return Err(e);
                },
            },
        };
    }
}

} // verus!
