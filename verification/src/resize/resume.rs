//! What holds of a run that goes on where an interrupted run stopped.
//!
//! A run that is cut off right behind one of its three checkpoint writes
//! leaves a device from which a second run arrives at the same bytes as a
//! run that was never interrupted.

use crate::device::{
    in_range, lemma_run_concat, lemma_run_keeps_size, lemma_run_push, op_fits, ops_fit, run_ops,
    zeros, OpModel, ProtocolPoint,
};
use crate::error::Error;
use crate::fat32::layout;
use crate::fat32::layout::overwrite;
use crate::fat32::operations::parsed_boot_sector;
use crate::fat32::validation::{
    is_fat32_geometry, lemma_fat32_geometry_defined, lemma_no_fault_iff_valid,
};
use crate::resize::calculator::{new_size, SizeCalculation};
use crate::resize::checkpoint::{checkpoint_bytes, lemma_checkpoint_round_trip, ResizePhase};
use crate::resize::executor::{
    lemma_run_to_plan, reads_of, resize_outcome, run_session, volume_read, Reads, SessionModel,
};
use crate::resize::laws::{
    boot_of, calculation_of, is_clean_volume, lemma_checkpoint_holds_calculation,
    lemma_checkpoint_ops_keep, lemma_clean_boot, lemma_clean_outcome, lemma_clean_run,
    lemma_distribute, lemma_fit_concat, lemma_keep_concat, lemma_run_keeps, lemma_scale,
    lemma_shift_geometry, lemma_shift_moves, metadata_apart, op_keeps, ops_keep, sectors_of,
    shift_closing, shift_opening, volume_of,
};
use crate::resize::protocol::{
    checkpoint_for, checkpoint_write, fat_init_ops, fat_phase_ops, fat_sync_ops, final_boot,
    final_fsinfo, growth_ops, invalidated_boot, metadata_ops, planned_resize, resize_ops,
    shift_phase_ops, PlanModel, Volume,
};
use crate::resize::relocator::{move_ops, moves_desc, plan_limit, shift_sectors};
use vstd::prelude::*;

verus! {

/// A calculation as a resumed run rebuilds it: without the count of new
/// free clusters.
pub open spec fn rebuilt(calc: SizeCalculation) -> SizeCalculation {
    SizeCalculation { new_free_clusters: 0, ..calc }
}

/// What a run writes does not depend on the count of new free clusters
/// in its calculation.
pub proof fn lemma_ops_of_rebuilt(v: Volume, calc: SizeCalculation, start: ResizePhase)
    ensures
        v.moves(rebuilt(calc)) == v.moves(calc),
        shift_phase_ops(v, rebuilt(calc)) == shift_phase_ops(v, calc),
        fat_phase_ops(v, rebuilt(calc)) == fat_phase_ops(v, calc),
        metadata_ops(v, rebuilt(calc)) == metadata_ops(v, calc),
        resize_ops(v, rebuilt(calc), start, false) == resize_ops(v, calc, start, false),
{
    assert(checkpoint_for(rebuilt(calc), ResizePhase::Started) == checkpoint_for(
        calc,
        ResizePhase::Started,
    ));
    assert(checkpoint_for(rebuilt(calc), ResizePhase::DataCopied) == checkpoint_for(
        calc,
        ResizePhase::DataCopied,
    ));
    assert(checkpoint_for(rebuilt(calc), ResizePhase::FatWritten) == checkpoint_for(
        calc,
        ResizePhase::FatWritten,
    ));
    assert(final_boot(v.boot, rebuilt(calc)) == final_boot(v.boot, calc));
    assert(final_fsinfo(v, rebuilt(calc)) == final_fsinfo(v, calc));
}

/// Zeroing the signature of a boot sector changes no other byte, and so
/// no field of the geometry.
pub proof fn lemma_invalidated_boot(raw: Seq<u8>)
    requires
        raw.len() >= layout::MIN_SECTOR_SIZE,
        is_fat32_geometry(raw),
    ensures
        invalidated_boot(raw).len() == raw.len(),
        is_fat32_geometry(invalidated_boot(raw)),
        layout::boot_signature(invalidated_boot(raw)) == 0,
        layout::bytes_per_sector(invalidated_boot(raw)) == layout::bytes_per_sector(raw),
        layout::sectors_per_cluster(invalidated_boot(raw)) == layout::sectors_per_cluster(raw),
        layout::reserved_sectors(invalidated_boot(raw)) == layout::reserved_sectors(raw),
        layout::num_fats(invalidated_boot(raw)) == layout::num_fats(raw),
        layout::total_sectors(invalidated_boot(raw)) == layout::total_sectors(raw),
        layout::fat_size(invalidated_boot(raw)) == layout::fat_size(raw),
        layout::fs_info_sector(invalidated_boot(raw)) == layout::fs_info_sector(raw),
        layout::backup_boot_sector(invalidated_boot(raw)) == layout::backup_boot_sector(raw),
        layout::first_data_sector(invalidated_boot(raw)) == layout::first_data_sector(raw),
        layout::data_clusters(invalidated_boot(raw)) == layout::data_clusters(raw),
        forall|calc: SizeCalculation|
            #[trigger] final_boot(invalidated_boot(raw), calc) == final_boot(raw, calc),
{
    let zeroed = invalidated_boot(raw);
    assert forall|i: int| 0 <= i < 510 implies zeroed[i] == raw[i] by {}
    assert(zeroed[510] == 0u8 && zeroed[511] == 0u8);
    assert forall|calc: SizeCalculation| #[trigger]
        final_boot(zeroed, calc) == final_boot(raw, calc) by {
        assert(final_boot(zeroed, calc) =~= final_boot(raw, calc));
    }
}

/// What a second run has to find on a device to go on with `phase` where
/// the first run read volume `v` from `image` and calculated `calc`: the
/// boot sector `boot`, valid or invalidated, the checkpoint of the first
/// run in the last sector, and backup boot sector, FSInfo sector and
/// first FAT as the first run found them.
pub open spec fn interrupted_layout(
    crashed: Seq<u8>,
    image: Seq<u8>,
    v: Volume,
    calc: SizeCalculation,
    boot: Seq<u8>,
    phase: ResizePhase,
) -> bool {
    let bps = v.bps();
    let last = v.checkpoint_offset();
    let fat_at = v.reserved() * bps;
    let fat_len = layout::fat_size(v.boot) * bps;
    let backup_at = layout::backup_boot_sector(v.boot) * bps;
    let fsinfo_at = layout::fs_info_sector(v.boot) * bps;
    &&& crashed.len() == image.len()
    &&& crashed.subrange(0, bps) == boot
    &&& (boot == v.boot || boot == invalidated_boot(v.boot))
    &&& crashed.subrange(last, last + bps) == checkpoint_bytes(
        checkpoint_for(calc, phase),
        bps as nat,
    )
    &&& boot == v.boot ==> crashed.subrange(backup_at, backup_at + bps) == image.subrange(
        backup_at,
        backup_at + bps,
    )
    &&& crashed.subrange(fsinfo_at, fsinfo_at + bps) == image.subrange(fsinfo_at, fsinfo_at + bps)
    &&& crashed.subrange(fat_at, fat_at + fat_len) == image.subrange(fat_at, fat_at + fat_len)
}

/// What a second run has to find on the device to go on with `phase`,
/// after a first run on the clean volume `image`.
pub open spec fn is_interrupted(
    crashed: Seq<u8>,
    image: Seq<u8>,
    boot: Seq<u8>,
    phase: ResizePhase,
) -> bool {
    interrupted_layout(crashed, image, volume_of(image), calculation_of(image), boot, phase)
}

/// What a second run reads of the volume.
pub open spec fn resumed_volume(image: Seq<u8>, boot: Seq<u8>) -> Volume {
    Volume { boot, ..volume_of(image) }
}

/// The boot sector that a second run parses from an interrupted device.
pub proof fn lemma_interrupted_boot(
    crashed: Seq<u8>,
    image: Seq<u8>,
    boot: Seq<u8>,
    phase: ResizePhase,
)
    requires
        is_clean_volume(image),
        is_interrupted(crashed, image, boot, phase),
    ensures
        parsed_boot_sector(crashed.subrange(0, layout::MAX_SECTOR_SIZE as int), true) == Ok::<
            Seq<u8>,
            Error,
        >(boot),
        is_fat32_geometry(boot),
        boot.len() == layout::bytes_per_sector(boot),
        layout::bytes_per_sector(boot) == layout::bytes_per_sector(boot_of(image)),
        layout::total_sectors(boot) == layout::total_sectors(boot_of(image)),
        layout::reserved_sectors(boot) == layout::reserved_sectors(boot_of(image)),
        layout::fat_size(boot) == layout::fat_size(boot_of(image)),
        layout::num_fats(boot) == layout::num_fats(boot_of(image)),
        layout::sectors_per_cluster(boot) == layout::sectors_per_cluster(boot_of(image)),
        layout::backup_boot_sector(boot) == layout::backup_boot_sector(boot_of(image)),
        layout::fs_info_sector(boot) == layout::fs_info_sector(boot_of(image)),
        layout::boot_signature(boot) == layout::VALID_SIGNATURE <==> boot == boot_of(image),
{
    lemma_clean_boot(image);
    let raw = boot_of(image);
    lemma_invalidated_boot(raw);
    let bps = layout::bytes_per_sector(raw) as int;
    let first = crashed.subrange(0, layout::MAX_SECTOR_SIZE as int);
    assert(crashed.subrange(0, bps)[11] == crashed[11]);
    assert(crashed.subrange(0, bps)[12] == crashed[12]);
    assert(first[11] == boot[11] && first[12] == boot[12]);
    assert(boot[11] == raw[11] && boot[12] == raw[12]);
    assert(layout::bytes_per_sector(first) == bps);
    assert(first.subrange(0, bps) =~= boot);
    lemma_no_fault_iff_valid(boot, true);
    lemma_no_fault_iff_valid(raw, true);
}

/// The calculation that a second run rebuilds from the checkpoint of the
/// first.
pub proof fn lemma_interrupted_calculation(image: Seq<u8>, boot: Seq<u8>, phase: ResizePhase)
    requires
        is_clean_volume(image),
        new_size(boot_of(image), sectors_of(image) as u64).is_ok(),
        boot == boot_of(image) || boot == invalidated_boot(boot_of(image)),
    ensures
        crate::resize::protocol::checkpoint_calculation(
            boot,
            checkpoint_for(calculation_of(image), phase),
        ) == Some(rebuilt(calculation_of(image))),
        calculation_of(image).new_total_sectors == sectors_of(image),
{
    lemma_clean_boot(image);
    let raw = boot_of(image);
    lemma_invalidated_boot(raw);
    lemma_checkpoint_holds_calculation(raw, sectors_of(image) as u64, phase);
}

/// A second run on an interrupted device arrives at the plan that goes on
/// with the phase of the checkpoint, by the calculation of the first run.
pub proof fn lemma_resumed_run(crashed: Seq<u8>, image: Seq<u8>, boot: Seq<u8>, phase: ResizePhase)
    requires
        is_clean_volume(image),
        run_session(SessionModel::initial(image.len() as u64, false), image).is_ok(),
        is_interrupted(crashed, image, boot, phase),
    ensures
        run_session(SessionModel::initial(crashed.len() as u64, false), crashed) == Ok::<
            PlanModel,
            Error,
        >(
            planned_resize(
                resumed_volume(image, boot),
                rebuilt(calculation_of(image)),
                Some(phase),
                false,
            ),
        ),
{
    let reads = Reads {
        boot,
        checkpoint: Some(checkpoint_for(calculation_of(image), phase)),
        fsinfo: volume_of(image).fsinfo,
        calculation: rebuilt(calculation_of(image)),
    };
    lemma_interrupted_reads(crashed, image, boot, phase);
    lemma_run_to_plan(crashed, reads);
    assert(volume_read(crashed, reads) == resumed_volume(image, boot)) by {
        lemma_interrupted_boot(crashed, image, boot, phase);
    }
}

/// What a second run reads from an interrupted device.
pub proof fn lemma_interrupted_reads(
    crashed: Seq<u8>,
    image: Seq<u8>,
    boot: Seq<u8>,
    phase: ResizePhase,
)
    requires
        is_clean_volume(image),
        run_session(SessionModel::initial(image.len() as u64, false), image).is_ok(),
        is_interrupted(crashed, image, boot, phase),
    ensures
        reads_of(
            crashed,
            Reads {
                boot,
                checkpoint: Some(checkpoint_for(calculation_of(image), phase)),
                fsinfo: volume_of(image).fsinfo,
                calculation: rebuilt(calculation_of(image)),
            },
        ),
{
    lemma_clean_boot(image);
    lemma_clean_run(image);
    lemma_interrupted_boot(crashed, image, boot, phase);
    lemma_interrupted_calculation(image, boot, phase);
    let raw = boot_of(image);
    let bps = layout::bytes_per_sector(raw) as int;
    lemma_checkpoint_round_trip(checkpoint_for(calculation_of(image), phase), bps as nat);
}

/// The sector that holds the checkpoint of `phase`.
pub open spec fn checkpoint_sector_of(v: Volume, calc: SizeCalculation, phase: ResizePhase) -> Seq<
    u8,
> {
    checkpoint_bytes(checkpoint_for(calc, phase), v.bps() as nat)
}

/// The operations of a run up to the point behind the checkpoint write
/// that enters `phase`.
pub open spec fn ops_until(v: Volume, calc: SizeCalculation, phase: ResizePhase) -> Seq<OpModel> {
    match phase {
        ResizePhase::Started => shift_opening(v, calc),
        ResizePhase::DataCopied => shift_phase_ops(v, calc),
        ResizePhase::FatWritten => shift_phase_ops(v, calc) + fat_phase_ops(v, calc),
    }
}

/// The device after a run on `image` that is cut off behind the
/// checkpoint write that enters `phase`.
pub open spec fn interrupted_behind(image: Seq<u8>, phase: ResizePhase) -> Seq<u8> {
    run_ops(image, ops_until(volume_of(image), calculation_of(image), phase))
}

/// Writing the same bytes to the same place twice is writing them once.
pub proof fn lemma_overwrite_twice(bytes: Seq<u8>, at: int, data: Seq<u8>)
    ensures
        overwrite(overwrite(bytes, at, data), at, data) == overwrite(bytes, at, data),
{
    assert(overwrite(overwrite(bytes, at, data), at, data) =~= overwrite(bytes, at, data));
}

/// What was written is what is read.
pub proof fn lemma_overwrite_lands(bytes: Seq<u8>, at: int, data: Seq<u8>)
    requires
        in_range(bytes.len() as int, at, data.len() as int),
    ensures
        overwrite(bytes, at, data).len() == bytes.len(),
        overwrite(bytes, at, data).subrange(at, at + data.len()) == data,
{
    assert(overwrite(bytes, at, data).subrange(at, at + data.len()) =~= data);
}

/// What lies outside of what was written is as before.
pub proof fn lemma_overwrite_keeps(bytes: Seq<u8>, at: int, data: Seq<u8>, lo: int, hi: int)
    requires
        0 <= lo <= hi <= bytes.len(),
        hi <= at || at + data.len() <= lo,
    ensures
        overwrite(bytes, at, data).subrange(lo, hi) == bytes.subrange(lo, hi),
{
    assert(overwrite(bytes, at, data).subrange(lo, hi) =~= bytes.subrange(lo, hi));
}

/// A part of two byte strings that agree on a range around it.
pub proof fn lemma_subrange_within(a: Seq<u8>, b: Seq<u8>, lo: int, hi: int, from: int, to: int)
    requires
        0 <= lo <= from <= to <= hi <= a.len(),
        hi <= b.len(),
        a.subrange(lo, hi) == b.subrange(lo, hi),
    ensures
        a.subrange(from, to) == b.subrange(from, to),
{
    assert forall|i: int| from <= i < to implies a[i] == b[i] by {
        assert(a.subrange(lo, hi)[i - lo] == a[i]);
        assert(b.subrange(lo, hi)[i - lo] == b[i]);
    }
    assert(a.subrange(from, to) =~= b.subrange(from, to));
}

/// Running the three operations that open the first phase writes the
/// checkpoint.
pub proof fn lemma_run_opening(bytes: Seq<u8>, v: Volume, calc: SizeCalculation)
    requires
        ops_fit(bytes.len() as int, shift_opening(v, calc)),
    ensures
        run_ops(bytes, shift_opening(v, calc)) == overwrite(
            bytes,
            v.checkpoint_offset(),
            checkpoint_sector_of(v, calc, ResizePhase::Started),
        ),
{
    let ops = shift_opening(v, calc);
    let none = Seq::<OpModel>::empty();
    let size = bytes.len() as int;
    assert(op_fits(size, ops[0]));
    assert(op_fits(size, ops[1]));
    assert(op_fits(size, ops[2]));
    assert(run_ops(bytes, none) == bytes);
    lemma_run_push(bytes, none, ops[0]);
    lemma_run_push(bytes, none.push(ops[0]), ops[1]);
    lemma_run_push(bytes, none.push(ops[0]).push(ops[1]), ops[2]);
    assert(ops =~= none.push(ops[0]).push(ops[1]).push(ops[2]));
}

/// Running the five operations that close the first phase writes the
/// checkpoint.
pub proof fn lemma_run_closing(bytes: Seq<u8>, v: Volume, calc: SizeCalculation)
    requires
        ops_fit(bytes.len() as int, shift_closing(v, calc)),
    ensures
        run_ops(bytes, shift_closing(v, calc)) == overwrite(
            bytes,
            v.checkpoint_offset(),
            checkpoint_sector_of(v, calc, ResizePhase::DataCopied),
        ),
{
    let ops = shift_closing(v, calc);
    let none = Seq::<OpModel>::empty();
    let size = bytes.len() as int;
    assert(op_fits(size, ops[0]));
    assert(op_fits(size, ops[1]));
    assert(op_fits(size, ops[2]));
    assert(op_fits(size, ops[3]));
    assert(op_fits(size, ops[4]));
    assert(run_ops(bytes, none) == bytes);
    lemma_run_push(bytes, none, ops[0]);
    lemma_run_push(bytes, none.push(ops[0]), ops[1]);
    lemma_run_push(bytes, none.push(ops[0]).push(ops[1]), ops[2]);
    lemma_run_push(bytes, none.push(ops[0]).push(ops[1]).push(ops[2]), ops[3]);
    lemma_run_push(bytes, none.push(ops[0]).push(ops[1]).push(ops[2]).push(ops[3]), ops[4]);
    assert(ops =~= none.push(ops[0]).push(ops[1]).push(ops[2]).push(ops[3]).push(ops[4]));
}

/// What the resume laws ask of the geometry of a volume and of its
/// calculation, in bytes.
pub struct Places {
    /// The bytes of a sector.
    pub bps: int,
    /// The end of the first FAT before the resize.
    pub old_fat_end: int,
    /// The start of the data area after the resize.
    pub new_data: int,
    /// The start of the last sector of the device.
    pub last: int,
    /// The size of the device.
    pub size: int,
}

/// The places of a volume on a device of `size` bytes.
pub open spec fn places_of(v: Volume, calc: SizeCalculation, size: int) -> Places {
    Places {
        bps: v.bps(),
        old_fat_end: (v.reserved() + calc.old_fat_size) * v.bps(),
        new_data: (v.reserved() + v.num_fats() * calc.new_fat_size) * v.bps(),
        last: v.checkpoint_offset(),
        size,
    }
}

/// The places lie in order: boot sector, rest of the reserved area with
/// backup and FSInfo, first FAT, new data area, last sector.
pub open spec fn places_in_order(v: Volume, calc: SizeCalculation, size: int) -> bool {
    let p = places_of(v, calc, size);
    let backup_at = layout::backup_boot_sector(v.boot) * p.bps;
    let fsinfo_at = layout::fs_info_sector(v.boot) * p.bps;
    let fat_at = v.reserved() * p.bps;
    &&& 512 <= p.bps
    &&& p.bps <= fat_at
    &&& 0 <= backup_at && backup_at + p.bps <= fat_at
    &&& p.bps <= fsinfo_at && fsinfo_at + p.bps <= fat_at
    &&& fat_at + calc.old_fat_size * p.bps == p.old_fat_end
    &&& p.old_fat_end <= p.new_data
    &&& p.new_data <= p.last
    &&& p.last + p.bps <= size
}

/// On a clean volume with a calculation that lets the FATs grow, the
/// places lie in order.
pub proof fn lemma_places(image: Seq<u8>)
    requires
        is_clean_volume(image),
        new_size(boot_of(image), sectors_of(image) as u64).is_ok(),
        metadata_apart(boot_of(image)),
        calculation_of(image).new_fat_size >= layout::fat_size(boot_of(image)),
        volume_of(image).fsinfo.len() == layout::bytes_per_sector(boot_of(image)),
    ensures
        places_in_order(volume_of(image), calculation_of(image), image.len() as int),
        volume_of(image).boot.len() == volume_of(image).bps(),
        volume_of(image).fsinfo.len() == volume_of(image).bps(),
        1 <= volume_of(image).num_fats() <= 2,
        1 <= volume_of(image).reserved(),
        calculation_of(image).old_fat_size == layout::fat_size(boot_of(image)),
{
    lemma_clean_boot(image);
    let raw = boot_of(image);
    let v = volume_of(image);
    let calc = calculation_of(image);
    lemma_fat32_geometry_defined(raw);
    lemma_shift_geometry(raw, v.fat, sectors_of(image) as u64);
    crate::resize::laws::lemma_final_boot_valid(raw, sectors_of(image) as u64);
    let bps = v.bps();
    let r = v.reserved();
    let nf = v.num_fats();
    let old_fat = calc.old_fat_size as int;
    let new_fat = calc.new_fat_size as int;
    let b = layout::backup_boot_sector(raw) as int;
    let f = layout::fs_info_sector(raw) as int;
    let sectors = sectors_of(image);
    lemma_scale(1, r, bps);
    lemma_scale(0, b, bps);
    lemma_scale(b + 1, r, bps);
    lemma_scale(1, f, bps);
    lemma_scale(f + 1, r, bps);
    lemma_distribute(b, 1, bps);
    lemma_distribute(f, 1, bps);
    lemma_distribute(r, old_fat, bps);
    assert(old_fat <= nf * new_fat) by (nonlinear_arith)
        requires
            0 <= old_fat <= new_fat,
            nf >= 1,
    ;
    lemma_scale(r + old_fat, r + nf * new_fat, bps);
    let spc = layout::sectors_per_cluster(raw) as int;
    let clusters = calc.new_data_clusters as int;
    let rest = sectors - r - nf * new_fat;
    assert(clusters * spc <= rest && clusters * spc >= 1) by (nonlinear_arith)
        requires
            clusters == rest / spc,
            rest >= 0,
            spc >= 1,
            clusters >= 1,
    ;
    lemma_scale(r + nf * new_fat, sectors - 1, bps);
    lemma_distribute(sectors - 1, 1, bps);
}

/// The length of a checkpoint sector.
pub proof fn lemma_checkpoint_sector_len(v: Volume, calc: SizeCalculation, phase: ResizePhase)
    requires
        v.bps() >= 32,
    ensures
        checkpoint_sector_of(v, calc, phase).len() == v.bps(),
{
    lemma_checkpoint_round_trip(checkpoint_for(calc, phase), v.bps() as nat);
}

/// The first phase leaves alone what lies before the new data area, and
/// leaves the checkpoint of the second phase in the last sector.
#[verifier::rlimit(40)]
pub proof fn lemma_shift_phase_bytes(
    image: Seq<u8>,
    v: Volume,
    calc: SizeCalculation,
    old_first: int,
    shift: int,
    limit: int,
)
    requires
        v.bps() >= 32,
        1 <= v.spc() <= 128,
        0 <= old_first <= 0xFFFF + 2 * 0xFFFF_FFFF,
        0 < shift <= 2 * 0xFFFF_FFFF,
        limit <= v.fat.len(),
        limit <= u32::MAX,
        v.moves(calc) == moves_desc(v.fat, 2, limit, old_first, shift, v.spc()),
        0 <= (old_first + shift) * v.bps() <= v.checkpoint_offset(),
        v.checkpoint_offset() + v.bps() <= image.len(),
        ops_fit(image.len() as int, shift_phase_ops(v, calc)),
    ensures
        run_ops(image, shift_phase_ops(v, calc)).len() == image.len(),
        run_ops(image, shift_phase_ops(v, calc)).subrange(0, (old_first + shift) * v.bps())
            == image.subrange(0, (old_first + shift) * v.bps()),
        run_ops(image, shift_phase_ops(v, calc)).subrange(
            v.checkpoint_offset(),
            v.checkpoint_offset() + v.bps(),
        ) == checkpoint_sector_of(v, calc, ResizePhase::DataCopied),
{
    let size = image.len() as int;
    let bps = v.bps();
    let spc = v.spc();
    let new_data = (old_first + shift) * bps;
    let last = v.checkpoint_offset();
    let opening = shift_opening(v, calc);
    let closing = shift_closing(v, calc);
    let moving = move_ops(v.moves(calc), bps, spc * bps);
    let shifting = shift_phase_ops(v, calc);
    assert(shifting =~= opening + (moving + closing));
    lemma_fit_concat(size, opening, moving + closing);
    lemma_fit_concat(size, moving, closing);
    let j0 = run_ops(image, opening);
    let j1 = run_ops(j0, moving);
    let j2 = run_ops(j1, closing);
    lemma_run_concat(image, opening, moving + closing);
    lemma_run_keeps_size(image, opening);
    lemma_run_concat(j0, moving, closing);
    lemma_run_keeps_size(j0, moving);
    lemma_run_keeps_size(j1, closing);
    assert(run_ops(image, shifting) == j2);
    lemma_checkpoint_ops_keep(v, calc, 0, new_data);
    lemma_run_keeps(image, opening, 0, new_data);
    lemma_run_keeps(j1, closing, 0, new_data);
    assert(limit * spc <= 0xFFFF_FFFF * 128) by (nonlinear_arith)
        requires
            limit <= 0xFFFF_FFFF,
            1 <= spc <= 128,
    ;
    lemma_shift_moves(j0, v.fat, 2, limit, old_first, shift, spc, bps);
    assert(crate::resize::laws::cluster_place(old_first + shift, 2, spc, bps) == new_data) by {
        assert((2 - 2) * spc == 0) by (nonlinear_arith);
    }
    assert(j1.subrange(0, new_data) =~= j0.subrange(0, new_data));
    lemma_run_closing(j1, v, calc);
    lemma_checkpoint_sector_len(v, calc, ResizePhase::DataCopied);
    lemma_overwrite_lands(j1, last, checkpoint_sector_of(v, calc, ResizePhase::DataCopied));
}

/// The second phase leaves the invalidated boot sector at the start of
/// the device and the checkpoint of the third phase in the last sector,
/// and leaves alone what lies between the boot sector and the end of the
/// first FAT as it was before the resize.
#[verifier::rlimit(40)]
pub proof fn lemma_fat_phase_effect(bytes: Seq<u8>, v: Volume, calc: SizeCalculation)
    requires
        places_in_order(v, calc, bytes.len() as int),
        v.boot.len() == v.bps(),
        calc.new_fat_size >= calc.old_fat_size,
        ops_fit(bytes.len() as int, fat_phase_ops(v, calc)),
    ensures
        ({
            let p = places_of(v, calc, bytes.len() as int);
            let after = run_ops(bytes, fat_phase_ops(v, calc));
            &&& after.len() == bytes.len()
            &&& after.subrange(0, p.bps) == invalidated_boot(v.boot)
            &&& after.subrange(p.bps, p.old_fat_end) == bytes.subrange(p.bps, p.old_fat_end)
            &&& after.subrange(p.last, p.last + p.bps) == checkpoint_sector_of(
                v,
                calc,
                ResizePhase::FatWritten,
            )
        }),
{
    let size = bytes.len() as int;
    let p = places_of(v, calc, size);
    let none = Seq::<OpModel>::empty();
    let head = seq![
        OpModel::Write { offset: 0, data: invalidated_boot(v.boot) },
        OpModel::Sync,
        OpModel::Reached(ProtocolPoint::AfterBootInvalidate),
    ];
    let middle = fat_init_ops(v, calc) + fat_sync_ops(v, calc);
    let tail = seq![
        OpModel::Reached(ProtocolPoint::AfterFatWrite),
        checkpoint_write(v, calc, ResizePhase::FatWritten),
        OpModel::Sync,
        OpModel::Reached(ProtocolPoint::AfterCheckpointFatWritten),
    ];
    let all = fat_phase_ops(v, calc);
    assert(all =~= head + (middle + tail));
    lemma_fit_concat(size, head, middle + tail);
    lemma_fit_concat(size, middle, tail);
    let zeroed = invalidated_boot(v.boot);
    assert(zeroed.len() == p.bps);
    // the head writes the boot sector
    let with_boot = run_ops(bytes, head);
    assert(with_boot == overwrite(bytes, 0, zeroed)) by {
        assert(op_fits(size, head[0]));
        assert(op_fits(size, head[1]));
        assert(op_fits(size, head[2]));
        assert(run_ops(bytes, none) == bytes);
        lemma_run_push(bytes, none, head[0]);
        lemma_run_push(bytes, none.push(head[0]), head[1]);
        lemma_run_push(bytes, none.push(head[0]).push(head[1]), head[2]);
        assert(head =~= none.push(head[0]).push(head[1]).push(head[2]));
    }
    lemma_overwrite_lands(bytes, 0, zeroed);
    lemma_overwrite_keeps(bytes, 0, zeroed, p.bps, p.old_fat_end);
    // the FAT writes lie behind the first FAT as it was
    let with_fats = run_ops(with_boot, middle);
    lemma_distribute(v.reserved() + calc.old_fat_size, calc.new_fat_size - calc.old_fat_size, p.bps);
    lemma_scale(v.reserved() + calc.old_fat_size, v.reserved() + calc.new_fat_size, p.bps);
    assert(ops_keep(middle, 0, p.old_fat_end)) by {
        let init = fat_init_ops(v, calc);
        let sync = fat_sync_ops(v, calc);
        assert forall|i: int| 0 <= i < init.len() implies op_keeps(
            #[trigger] init[i],
            0,
            p.old_fat_end,
        ) by {
            assert(i == 0);
        }
        assert forall|i: int| 0 <= i < sync.len() implies op_keeps(
            #[trigger] sync[i],
            0,
            p.old_fat_end,
        ) by {
            assert(i == 0);
        }
        lemma_keep_concat(init, sync, 0, p.old_fat_end);
    }
    lemma_run_keeps_size(bytes, head);
    lemma_run_keeps(with_boot, middle, 0, p.old_fat_end);
    lemma_run_keeps_size(with_boot, middle);
    // the tail writes the checkpoint
    let after = run_ops(with_fats, tail);
    let sector = checkpoint_sector_of(v, calc, ResizePhase::FatWritten);
    assert(after == overwrite(with_fats, p.last, sector)) by {
        assert(op_fits(size, tail[0]));
        assert(op_fits(size, tail[1]));
        assert(op_fits(size, tail[2]));
        assert(op_fits(size, tail[3]));
        assert(run_ops(with_fats, none) == with_fats);
        lemma_run_push(with_fats, none, tail[0]);
        lemma_run_push(with_fats, none.push(tail[0]), tail[1]);
        lemma_run_push(with_fats, none.push(tail[0]).push(tail[1]), tail[2]);
        lemma_run_push(with_fats, none.push(tail[0]).push(tail[1]).push(tail[2]), tail[3]);
        assert(tail =~= none.push(tail[0]).push(tail[1]).push(tail[2]).push(tail[3]));
    }
    lemma_checkpoint_sector_len(v, calc, ResizePhase::FatWritten);
    lemma_overwrite_lands(with_fats, p.last, sector);
    lemma_overwrite_keeps(with_fats, p.last, sector, 0, p.bps);
    lemma_overwrite_keeps(with_fats, p.last, sector, p.bps, p.old_fat_end);
    lemma_run_concat(bytes, head, middle + tail);
    lemma_run_concat(with_boot, middle, tail);
    assert(run_ops(bytes, all) == after);
    lemma_subrange_within(with_fats, with_boot, 0, p.old_fat_end, 0, p.bps);
    lemma_subrange_within(with_fats, with_boot, 0, p.old_fat_end, p.bps, p.old_fat_end);
}

/// What the first phase does to a device, by its places.
pub open spec fn shift_phase_done(image: Seq<u8>, shifted: Seq<u8>, v: Volume, calc: SizeCalculation) -> bool {
    let p = places_of(v, calc, image.len() as int);
    &&& places_in_order(v, calc, image.len() as int)
    &&& v.boot == image.subrange(0, p.bps)
    &&& layout::boot_signature(v.boot) == layout::VALID_SIGNATURE
    &&& calc.old_fat_size == layout::fat_size(v.boot)
    &&& calc.new_fat_size >= calc.old_fat_size
    &&& 1 <= v.num_fats() <= 2
    &&& 1 <= v.reserved()
    &&& shifted.len() == image.len()
    &&& shifted.subrange(0, p.new_data) == image.subrange(0, p.new_data)
    &&& shifted.subrange(p.last, p.last + p.bps) == checkpoint_sector_of(
        v,
        calc,
        ResizePhase::DataCopied,
    )
}

/// The first phase leaves an interrupted device.
pub proof fn lemma_layout_behind_second(
    image: Seq<u8>,
    shifted: Seq<u8>,
    v: Volume,
    calc: SizeCalculation,
)
    requires
        shift_phase_done(image, shifted, v, calc),
    ensures
        interrupted_layout(shifted, image, v, calc, v.boot, ResizePhase::DataCopied),
{
    let p = places_of(v, calc, image.len() as int);
    let bps = p.bps;
    let backup_at = layout::backup_boot_sector(v.boot) * bps;
    let fsinfo_at = layout::fs_info_sector(v.boot) * bps;
    let fat_at = v.reserved() * bps;
    let fat_len = layout::fat_size(v.boot) * bps;
    lemma_subrange_within(shifted, image, 0, p.new_data, 0, bps);
    lemma_subrange_within(shifted, image, 0, p.new_data, backup_at, backup_at + bps);
    lemma_subrange_within(shifted, image, 0, p.new_data, fsinfo_at, fsinfo_at + bps);
    lemma_subrange_within(shifted, image, 0, p.new_data, fat_at, fat_at + fat_len);
}

/// The first two phases leave an interrupted device, with an invalidated
/// boot sector.
pub proof fn lemma_layout_behind_third(
    image: Seq<u8>,
    shifted: Seq<u8>,
    v: Volume,
    calc: SizeCalculation,
)
    requires
        shift_phase_done(image, shifted, v, calc),
        calc.new_fat_size >= calc.old_fat_size,
        ops_fit(image.len() as int, fat_phase_ops(v, calc)),
    ensures
        interrupted_layout(
            run_ops(shifted, fat_phase_ops(v, calc)),
            image,
            v,
            calc,
            invalidated_boot(v.boot),
            ResizePhase::FatWritten,
        ),
{
    let p = places_of(v, calc, image.len() as int);
    let bps = p.bps;
    let fsinfo_at = layout::fs_info_sector(v.boot) * bps;
    let fat_at = v.reserved() * bps;
    let fat_len = layout::fat_size(v.boot) * bps;
    let crashed = run_ops(shifted, fat_phase_ops(v, calc));
    assert(v.boot.len() == bps);
    assert(invalidated_boot(v.boot)[510] == 0u8);
    assert(invalidated_boot(v.boot) != v.boot);
    lemma_fat_phase_effect(shifted, v, calc);
    lemma_subrange_within(shifted, image, 0, p.new_data, bps, p.old_fat_end);
    assert(crashed.subrange(bps, p.old_fat_end) == image.subrange(bps, p.old_fat_end));
    lemma_subrange_within(crashed, image, bps, p.old_fat_end, fsinfo_at, fsinfo_at + bps);
    lemma_subrange_within(crashed, image, bps, p.old_fat_end, fat_at, fat_at + fat_len);
}

/// The first checkpoint write leaves an interrupted device.
pub proof fn lemma_layout_behind_first(image: Seq<u8>, v: Volume, calc: SizeCalculation)
    requires
        places_in_order(v, calc, image.len() as int),
        v.boot == image.subrange(0, v.bps()),
        calc.old_fat_size == layout::fat_size(v.boot),
    ensures
        interrupted_layout(
            overwrite(
                image,
                v.checkpoint_offset(),
                checkpoint_sector_of(v, calc, ResizePhase::Started),
            ),
            image,
            v,
            calc,
            v.boot,
            ResizePhase::Started,
        ),
{
    let p = places_of(v, calc, image.len() as int);
    let bps = p.bps;
    let sector = checkpoint_sector_of(v, calc, ResizePhase::Started);
    let backup_at = layout::backup_boot_sector(v.boot) * bps;
    let fsinfo_at = layout::fs_info_sector(v.boot) * bps;
    let fat_at = v.reserved() * bps;
    let fat_len = layout::fat_size(v.boot) * bps;
    lemma_checkpoint_sector_len(v, calc, ResizePhase::Started);
    lemma_overwrite_lands(image, p.last, sector);
    lemma_overwrite_keeps(image, p.last, sector, 0, bps);
    lemma_overwrite_keeps(image, p.last, sector, backup_at, backup_at + bps);
    lemma_overwrite_keeps(image, p.last, sector, fsinfo_at, fsinfo_at + bps);
    lemma_overwrite_keeps(image, p.last, sector, fat_at, fat_at + fat_len);
}

/// What the first phase does to the device of a clean volume.
pub proof fn lemma_shift_phase_done(image: Seq<u8>)
    requires
        is_clean_volume(image),
        resize_outcome(image, false).0.is_ok(),
        metadata_apart(boot_of(image)),
        calculation_of(image).fat_needs_growth,
    ensures
        shift_phase_done(
            image,
            run_ops(image, shift_phase_ops(volume_of(image), calculation_of(image))),
            volume_of(image),
            calculation_of(image),
        ),
        calculation_of(image).new_fat_size >= calculation_of(image).old_fat_size,
        ops_fit(
            image.len() as int,
            shift_phase_ops(volume_of(image), calculation_of(image)),
        ),
        ops_fit(
            image.len() as int,
            fat_phase_ops(volume_of(image), calculation_of(image)),
        ),
        ops_fit(
            image.len() as int,
            metadata_ops(volume_of(image), calculation_of(image)),
        ),
        resize_outcome(image, false).1 == run_ops(
            image,
            shift_phase_ops(volume_of(image), calculation_of(image)) + (fat_phase_ops(
                volume_of(image),
                calculation_of(image),
            ) + metadata_ops(volume_of(image), calculation_of(image))),
        ),
{
    lemma_clean_boot(image);
    lemma_clean_outcome(image);
    let v = volume_of(image);
    let calc = calculation_of(image);
    let raw = boot_of(image);
    let size = image.len() as int;
    lemma_shift_geometry(raw, v.fat, sectors_of(image) as u64);
    lemma_places(image);
    let shifting = shift_phase_ops(v, calc);
    let writing = fat_phase_ops(v, calc);
    let metadata = metadata_ops(v, calc);
    assert(growth_ops(v, calc, ResizePhase::Started) == shifting + writing);
    lemma_fit_concat(size, shifting + writing, metadata);
    lemma_fit_concat(size, shifting, writing);
    assert((shifting + writing) + metadata =~= shifting + (writing + metadata));
    let old_first = layout::first_data_sector(raw);
    let shift = shift_sectors(raw, calc.fat_growth_sectors as int);
    let limit = plan_limit(raw, v.fat.len() as int);
    lemma_shift_phase_bytes(image, v, calc, old_first, shift, limit);
}

/// The metadata update of a run that goes on from an invalidated boot
/// sector is that of the run that was interrupted.
pub proof fn lemma_metadata_of_resumed(v: Volume, calc: SizeCalculation)
    requires
        v.boot.len() >= layout::MIN_SECTOR_SIZE,
        is_fat32_geometry(v.boot),
    ensures
        metadata_ops(Volume { boot: invalidated_boot(v.boot), ..v }, rebuilt(calc))
            == metadata_ops(v, calc),
{
    lemma_invalidated_boot(v.boot);
    let resumed = Volume { boot: invalidated_boot(v.boot), ..v };
    assert(final_boot(resumed.boot, rebuilt(calc)) == final_boot(v.boot, calc)) by {
        assert(final_boot(resumed.boot, rebuilt(calc)) =~= final_boot(v.boot, calc));
    }
    assert(final_fsinfo(resumed, rebuilt(calc)) == final_fsinfo(v, calc));
}

/// A cut behind the first checkpoint write: the checkpoint is written
/// once more, to no effect.
pub proof fn lemma_redo_behind_first(
    image: Seq<u8>,
    v: Volume,
    calc: SizeCalculation,
    rest: Seq<OpModel>,
)
    requires
        ops_fit(image.len() as int, shift_opening(v, calc) + rest),
    ensures
        ops_fit(image.len() as int, shift_opening(v, calc)),
        run_ops(image, shift_opening(v, calc)) == overwrite(
            image,
            v.checkpoint_offset(),
            checkpoint_sector_of(v, calc, ResizePhase::Started),
        ),
        run_ops(run_ops(image, shift_opening(v, calc)), shift_opening(v, calc) + rest) == run_ops(
            image,
            shift_opening(v, calc) + rest,
        ),
{
    let size = image.len() as int;
    let opening = shift_opening(v, calc);
    let crashed = run_ops(image, opening);
    lemma_fit_concat(size, opening, rest);
    lemma_run_opening(image, v, calc);
    lemma_run_keeps_size(image, opening);
    lemma_run_opening(crashed, v, calc);
    lemma_overwrite_twice(
        image,
        v.checkpoint_offset(),
        checkpoint_sector_of(v, calc, ResizePhase::Started),
    );
    lemma_run_concat(image, opening, rest);
    lemma_run_concat(crashed, opening, rest);
}

/// What a run that grows the FATs writes: the three phases, the first
/// opened by its checkpoint write.
pub proof fn lemma_full_run_parts(v: Volume, calc: SizeCalculation)
    requires
        calc.fat_needs_growth,
    ensures
        resize_ops(v, calc, ResizePhase::Started, false) == shift_opening(v, calc) + (move_ops(
            v.moves(calc),
            v.bps(),
            v.spc() * v.bps(),
        ) + shift_closing(v, calc) + fat_phase_ops(v, calc) + metadata_ops(v, calc)),
{
    let opening = shift_opening(v, calc);
    let rest = move_ops(v.moves(calc), v.bps(), v.spc() * v.bps()) + shift_closing(v, calc)
        + fat_phase_ops(v, calc) + metadata_ops(v, calc);
    assert(resize_ops(v, calc, ResizePhase::Started, false) =~= opening + rest);
}

/// A second run behind the first checkpoint write arrives where the run
/// that was not interrupted arrives.
pub proof fn lemma_resume_behind_first(image: Seq<u8>)
    requires
        is_clean_volume(image),
        resize_outcome(image, false).0.is_ok(),
        metadata_apart(boot_of(image)),
        calculation_of(image).fat_needs_growth,
    ensures
        resize_outcome(interrupted_behind(image, ResizePhase::Started), false).0.is_ok(),
        resize_outcome(interrupted_behind(image, ResizePhase::Started), false).1
            == resize_outcome(image, false).1,
{
    lemma_shift_phase_done(image);
    lemma_clean_outcome(image);
    let v = volume_of(image);
    let calc = calculation_of(image);
    let crashed = interrupted_behind(image, ResizePhase::Started);
    let rest = move_ops(v.moves(calc), v.bps(), v.spc() * v.bps()) + shift_closing(v, calc)
        + fat_phase_ops(v, calc) + metadata_ops(v, calc);
    lemma_full_run_parts(v, calc);
    lemma_redo_behind_first(image, v, calc, rest);
    lemma_layout_behind_first(image, v, calc);
    lemma_resumed_run(crashed, image, boot_of(image), ResizePhase::Started);
    assert(resumed_volume(image, boot_of(image)) == v);
    lemma_ops_of_rebuilt(v, calc, ResizePhase::Started);
}

/// A second run behind the second checkpoint write arrives where the run
/// that was not interrupted arrives.
pub proof fn lemma_resume_behind_second(image: Seq<u8>)
    requires
        is_clean_volume(image),
        resize_outcome(image, false).0.is_ok(),
        metadata_apart(boot_of(image)),
        calculation_of(image).fat_needs_growth,
    ensures
        resize_outcome(interrupted_behind(image, ResizePhase::DataCopied), false).0.is_ok(),
        resize_outcome(interrupted_behind(image, ResizePhase::DataCopied), false).1
            == resize_outcome(image, false).1,
{
    lemma_shift_phase_done(image);
    let v = volume_of(image);
    let calc = calculation_of(image);
    let size = image.len() as int;
    let crashed = interrupted_behind(image, ResizePhase::DataCopied);
    let shifting = shift_phase_ops(v, calc);
    let writing = fat_phase_ops(v, calc);
    let metadata = metadata_ops(v, calc);
    lemma_layout_behind_second(image, crashed, v, calc);
    lemma_resumed_run(crashed, image, boot_of(image), ResizePhase::DataCopied);
    assert(resumed_volume(image, boot_of(image)) == v);
    lemma_ops_of_rebuilt(v, calc, ResizePhase::DataCopied);
    assert(resize_ops(v, calc, ResizePhase::DataCopied, false) =~= writing + metadata);
    lemma_fit_concat(size, writing, metadata);
    lemma_run_concat(image, shifting, writing + metadata);
}

/// A second run behind the third checkpoint write arrives where the run
/// that was not interrupted arrives.
pub proof fn lemma_resume_behind_third(image: Seq<u8>)
    requires
        is_clean_volume(image),
        resize_outcome(image, false).0.is_ok(),
        metadata_apart(boot_of(image)),
        calculation_of(image).fat_needs_growth,
    ensures
        resize_outcome(interrupted_behind(image, ResizePhase::FatWritten), false).0.is_ok(),
        resize_outcome(interrupted_behind(image, ResizePhase::FatWritten), false).1
            == resize_outcome(image, false).1,
{
    lemma_shift_phase_done(image);
    lemma_clean_boot(image);
    let v = volume_of(image);
    let calc = calculation_of(image);
    let size = image.len() as int;
    let crashed = interrupted_behind(image, ResizePhase::FatWritten);
    let shifting = shift_phase_ops(v, calc);
    let writing = fat_phase_ops(v, calc);
    let metadata = metadata_ops(v, calc);
    let shifted = run_ops(image, shifting);
    let boot = invalidated_boot(boot_of(image));
    lemma_fit_concat(size, shifting, writing);
    lemma_run_concat(image, shifting, writing);
    lemma_run_keeps_size(image, shifting);
    lemma_layout_behind_third(image, shifted, v, calc);
    lemma_resumed_run(crashed, image, boot, ResizePhase::FatWritten);
    let resumed = resumed_volume(image, boot);
    lemma_metadata_of_resumed(v, calc);
    assert(resumed == (Volume { boot: invalidated_boot(v.boot), ..v }));
    assert(growth_ops(resumed, rebuilt(calc), ResizePhase::FatWritten) =~= Seq::empty());
    assert(resize_ops(resumed, rebuilt(calc), ResizePhase::FatWritten, false) =~= metadata);
    lemma_run_keeps_size(image, shifting + writing);
    assert(shifting + (writing + metadata) =~= (shifting + writing) + metadata);
    lemma_run_concat(image, shifting + writing, metadata);
}

/// The three operations that open the second phase.
pub open spec fn fat_opening(v: Volume) -> Seq<OpModel> {
    seq![
        OpModel::Write { offset: 0, data: invalidated_boot(v.boot) },
        OpModel::Sync,
        OpModel::Reached(ProtocolPoint::AfterBootInvalidate),
    ]
}

/// The writes to the FATs in the second phase.
pub open spec fn fat_writes(v: Volume, calc: SizeCalculation) -> Seq<OpModel> {
    fat_init_ops(v, calc) + fat_sync_ops(v, calc)
}

/// The four operations that close the second phase.
pub open spec fn fat_closing(v: Volume, calc: SizeCalculation) -> Seq<OpModel> {
    seq![
        OpModel::Reached(ProtocolPoint::AfterFatWrite),
        checkpoint_write(v, calc, ResizePhase::FatWritten),
        OpModel::Sync,
        OpModel::Reached(ProtocolPoint::AfterCheckpointFatWritten),
    ]
}

/// The second phase is its opening, the writes to the FATs, and its
/// closing.
pub proof fn lemma_fat_phase_parts(v: Volume, calc: SizeCalculation)
    ensures
        fat_phase_ops(v, calc) == fat_opening(v) + (fat_writes(v, calc) + fat_closing(v, calc)),
{
    assert(fat_phase_ops(v, calc) =~= fat_opening(v) + (fat_writes(v, calc) + fat_closing(
        v,
        calc,
    )));
}

/// Running the opening of the second phase writes the invalidated boot
/// sector.
pub proof fn lemma_run_fat_opening(bytes: Seq<u8>, v: Volume)
    requires
        ops_fit(bytes.len() as int, fat_opening(v)),
    ensures
        run_ops(bytes, fat_opening(v)) == overwrite(bytes, 0, invalidated_boot(v.boot)),
{
    let head = fat_opening(v);
    let none = Seq::<OpModel>::empty();
    let size = bytes.len() as int;
    assert(op_fits(size, head[0]));
    assert(op_fits(size, head[1]));
    assert(op_fits(size, head[2]));
    assert(run_ops(bytes, none) == bytes);
    lemma_run_push(bytes, none, head[0]);
    lemma_run_push(bytes, none.push(head[0]), head[1]);
    lemma_run_push(bytes, none.push(head[0]).push(head[1]), head[2]);
    assert(head =~= none.push(head[0]).push(head[1]).push(head[2]));
}

/// Writing what is there changes nothing.
pub proof fn lemma_overwrite_same(bytes: Seq<u8>, at: int, data: Seq<u8>)
    requires
        in_range(bytes.len() as int, at, data.len() as int),
        bytes.subrange(at, at + data.len()) == data,
    ensures
        overwrite(bytes, at, data) == bytes,
{
    assert forall|i: int| at <= i < at + data.len() implies data[i - at] == bytes[i] by {
        assert(bytes.subrange(at, at + data.len())[i - at] == bytes[i]);
    }
    assert(overwrite(bytes, at, data) =~= bytes);
}

/// Writing to the FATs a second time changes nothing: the new sectors of
/// the first FAT are zero already, and the second FAT is the copy of the
/// first already.
#[verifier::rlimit(40)]
pub proof fn lemma_fat_writes_twice(bytes: Seq<u8>, v: Volume, calc: SizeCalculation)
    requires
        v.bps() >= 1,
        v.reserved() >= 0,
        calc.new_fat_size >= calc.old_fat_size,
        ops_fit(bytes.len() as int, fat_writes(v, calc)),
    ensures
        run_ops(run_ops(bytes, fat_writes(v, calc)), fat_writes(v, calc)) == run_ops(
            bytes,
            fat_writes(v, calc),
        ),
{
    let bps = v.bps();
    let r = v.reserved();
    let old_fat = calc.old_fat_size as int;
    let new_fat = calc.new_fat_size as int;
    let size = bytes.len() as int;
    let none = Seq::<OpModel>::empty();
    let writes = fat_writes(v, calc);
    if new_fat > old_fat {
        let ext_at = (r + old_fat) * bps;
        let ext_len = (new_fat - old_fat) * bps;
        let fat_at = r * bps;
        let fat_len = new_fat * bps;
        let copy_at = (r + new_fat) * bps;
        lemma_distribute(r + old_fat, new_fat - old_fat, bps);
        lemma_distribute(r, new_fat, bps);
        lemma_scale(r, r + old_fat, bps);
        lemma_scale(0, r, bps);
        lemma_scale(0, new_fat, bps);
        lemma_scale(0, new_fat - old_fat, bps);
        let zero = OpModel::Zero { offset: ext_at, len: ext_len };
        let with_zeros = overwrite(bytes, ext_at, zeros(ext_len));
        if v.num_fats() >= 2 {
            let copy = OpModel::Copy { from: fat_at, to: copy_at, len: fat_len };
            assert(writes =~= none.push(zero).push(copy));
            assert(op_fits(size, writes[0]));
            assert(op_fits(size, writes[1]));
            let once = overwrite(with_zeros, copy_at, with_zeros.subrange(fat_at, fat_at + fat_len));
            assert(run_ops(bytes, none) == bytes);
            lemma_run_push(bytes, none, zero);
            lemma_run_push(bytes, none.push(zero), copy);
            assert(run_ops(bytes, writes) == once);
            // what the first pass left
            lemma_overwrite_lands(bytes, ext_at, zeros(ext_len));
            lemma_overwrite_lands(with_zeros, copy_at, with_zeros.subrange(fat_at, fat_at + fat_len));
            lemma_overwrite_keeps(
                with_zeros,
                copy_at,
                with_zeros.subrange(fat_at, fat_at + fat_len),
                fat_at,
                fat_at + fat_len,
            );
            lemma_subrange_within(once, with_zeros, fat_at, fat_at + fat_len, ext_at, ext_at + ext_len);
            // the second pass writes the same
            lemma_overwrite_same(once, ext_at, zeros(ext_len));
            lemma_overwrite_same(once, copy_at, once.subrange(fat_at, fat_at + fat_len));
            assert(run_ops(once, none) == once);
            lemma_run_push(once, none, zero);
            lemma_run_push(once, none.push(zero), copy);
        } else {
            assert(writes =~= none.push(zero));
            assert(op_fits(size, writes[0]));
            assert(run_ops(bytes, none) == bytes);
            lemma_run_push(bytes, none, zero);
            lemma_overwrite_lands(bytes, ext_at, zeros(ext_len));
            lemma_overwrite_same(with_zeros, ext_at, zeros(ext_len));
            assert(run_ops(with_zeros, none) == with_zeros);
            lemma_run_push(with_zeros, none, zero);
        }
    } else {
        assert(writes =~= none);
    }
}

/// What a run that goes on from an invalidated boot sector writes in
/// its second and third phase is what the interrupted run would have
/// written.
pub proof fn lemma_ops_of_resumed(v: Volume, calc: SizeCalculation)
    requires
        v.boot.len() >= layout::MIN_SECTOR_SIZE,
        is_fat32_geometry(v.boot),
    ensures
        (Volume { boot: invalidated_boot(v.boot), ..v }).moves(rebuilt(calc)) == v.moves(calc),
        fat_phase_ops(Volume { boot: invalidated_boot(v.boot), ..v }, rebuilt(calc))
            == fat_phase_ops(v, calc),
        metadata_ops(Volume { boot: invalidated_boot(v.boot), ..v }, rebuilt(calc))
            == metadata_ops(v, calc),
{
    lemma_invalidated_boot(v.boot);
    lemma_metadata_of_resumed(v, calc);
    let resumed = Volume { boot: invalidated_boot(v.boot), ..v };
    assert(invalidated_boot(resumed.boot) =~= invalidated_boot(v.boot));
    assert(checkpoint_for(rebuilt(calc), ResizePhase::FatWritten) == checkpoint_for(
        calc,
        ResizePhase::FatWritten,
    ));
    assert(fat_init_ops(resumed, rebuilt(calc)) == fat_init_ops(v, calc));
    assert(fat_sync_ops(resumed, rebuilt(calc)) == fat_sync_ops(v, calc));
}

/// A run that is cut off while its second phase writes leaves an
/// interrupted device: the boot sector is invalidated, the checkpoint is
/// that of the second phase.
pub proof fn lemma_layout_in_second_phase(
    image: Seq<u8>,
    shifted: Seq<u8>,
    crashed: Seq<u8>,
    v: Volume,
    calc: SizeCalculation,
)
    requires
        shift_phase_done(image, shifted, v, calc),
        crashed.len() == shifted.len(),
        crashed.subrange(0, v.bps()) == invalidated_boot(v.boot),
        crashed.subrange(v.bps(), places_of(v, calc, image.len() as int).old_fat_end)
            == shifted.subrange(v.bps(), places_of(v, calc, image.len() as int).old_fat_end),
        crashed.subrange(v.checkpoint_offset(), v.checkpoint_offset() + v.bps())
            == shifted.subrange(v.checkpoint_offset(), v.checkpoint_offset() + v.bps()),
    ensures
        interrupted_layout(
            crashed,
            image,
            v,
            calc,
            invalidated_boot(v.boot),
            ResizePhase::DataCopied,
        ),
{
    let p = places_of(v, calc, image.len() as int);
    let bps = p.bps;
    let fsinfo_at = layout::fs_info_sector(v.boot) * bps;
    let fat_at = v.reserved() * bps;
    let fat_len = layout::fat_size(v.boot) * bps;
    assert(v.boot.len() == bps);
    assert(invalidated_boot(v.boot)[510] == 0u8);
    assert(invalidated_boot(v.boot) != v.boot);
    lemma_subrange_within(shifted, image, 0, p.new_data, bps, p.old_fat_end);
    assert(crashed.subrange(bps, p.old_fat_end) == image.subrange(bps, p.old_fat_end));
    lemma_subrange_within(crashed, image, bps, p.old_fat_end, fsinfo_at, fsinfo_at + bps);
    lemma_subrange_within(crashed, image, bps, p.old_fat_end, fat_at, fat_at + fat_len);
}

/// The writes to the FATs leave alone the boot sector, the first FAT as
/// it was, and the last sector.
pub proof fn lemma_fat_writes_keep(bytes: Seq<u8>, v: Volume, calc: SizeCalculation)
    requires
        places_in_order(v, calc, bytes.len() as int),
        1 <= v.num_fats() <= 2,
        calc.new_fat_size >= calc.old_fat_size,
    ensures
        ({
            let p = places_of(v, calc, bytes.len() as int);
            let after = run_ops(bytes, fat_writes(v, calc));
            &&& after.len() == bytes.len()
            &&& after.subrange(0, p.bps) == bytes.subrange(0, p.bps)
            &&& after.subrange(p.bps, p.old_fat_end) == bytes.subrange(p.bps, p.old_fat_end)
            &&& after.subrange(p.last, p.last + p.bps) == bytes.subrange(p.last, p.last + p.bps)
        }),
{
    let p = places_of(v, calc, bytes.len() as int);
    let init = fat_init_ops(v, calc);
    let sync = fat_sync_ops(v, calc);
    let r = v.reserved();
    let old_fat = calc.old_fat_size as int;
    let new_fat = calc.new_fat_size as int;
    lemma_distribute(r + old_fat, new_fat - old_fat, p.bps);
    lemma_distribute(r + new_fat, new_fat, p.bps);
    lemma_scale(r + old_fat, r + new_fat, p.bps);
    assert(new_fat <= v.num_fats() * new_fat && (v.num_fats() >= 2 ==> 2 * new_fat
        <= v.num_fats() * new_fat)) by (nonlinear_arith)
        requires
            1 <= v.num_fats(),
            0 <= new_fat,
    ;
    lemma_scale(r + new_fat, r + v.num_fats() * new_fat, p.bps);
    if v.num_fats() >= 2 {
        lemma_scale(r + new_fat + new_fat, r + v.num_fats() * new_fat, p.bps);
    }
    assert(ops_keep(init, 0, p.old_fat_end) && ops_keep(init, p.last, p.last + p.bps)) by {
        assert forall|i: int| 0 <= i < init.len() implies op_keeps(
            #[trigger] init[i],
            0,
            p.old_fat_end,
        ) && op_keeps(init[i], p.last, p.last + p.bps) by {
            assert(i == 0);
        }
    }
    assert(ops_keep(sync, 0, p.old_fat_end) && ops_keep(sync, p.last, p.last + p.bps)) by {
        assert forall|i: int| 0 <= i < sync.len() implies op_keeps(
            #[trigger] sync[i],
            0,
            p.old_fat_end,
        ) && op_keeps(sync[i], p.last, p.last + p.bps) by {
            assert(i == 0);
        }
    }
    lemma_keep_concat(init, sync, 0, p.old_fat_end);
    lemma_keep_concat(init, sync, p.last, p.last + p.bps);
    lemma_run_keeps(bytes, fat_writes(v, calc), 0, p.old_fat_end);
    lemma_run_keeps(bytes, fat_writes(v, calc), p.last, p.last + p.bps);
    lemma_run_keeps_size(bytes, fat_writes(v, calc));
    let after = run_ops(bytes, fat_writes(v, calc));
    lemma_subrange_within(after, bytes, 0, p.old_fat_end, 0, p.bps);
    lemma_subrange_within(after, bytes, 0, p.old_fat_end, p.bps, p.old_fat_end);
}

/// The operations of a run up to one of its points.
pub open spec fn ops_behind(v: Volume, calc: SizeCalculation, point: ProtocolPoint) -> Seq<OpModel> {
    match point {
        ProtocolPoint::AfterCheckpointStart => shift_opening(v, calc),
        ProtocolPoint::AfterDataShift => shift_opening(v, calc) + move_ops(
            v.moves(calc),
            v.bps(),
            v.spc() * v.bps(),
        ) + seq![OpModel::Sync, OpModel::Reached(ProtocolPoint::AfterDataShift)],
        ProtocolPoint::AfterCheckpointDataCopied => shift_phase_ops(v, calc),
        ProtocolPoint::AfterBootInvalidate => shift_phase_ops(v, calc) + fat_opening(v),
        ProtocolPoint::AfterFatWrite => shift_phase_ops(v, calc) + (fat_opening(v) + (fat_writes(
            v,
            calc,
        ) + seq![OpModel::Reached(ProtocolPoint::AfterFatWrite)])),
        ProtocolPoint::AfterCheckpointFatWritten => shift_phase_ops(v, calc) + fat_phase_ops(
            v,
            calc,
        ),
    }
}

/// The operations up to a point are the first operations of a run that
/// shifts data, and they end with the point.
pub proof fn lemma_ops_behind_start_the_run(v: Volume, calc: SizeCalculation, point: ProtocolPoint)
    requires
        calc.fat_needs_growth,
    ensures
        ops_behind(v, calc, point).len() <= resize_ops(
            v,
            calc,
            ResizePhase::Started,
            false,
        ).len(),
        resize_ops(v, calc, ResizePhase::Started, false).subrange(
            0,
            ops_behind(v, calc, point).len() as int,
        ) == ops_behind(v, calc, point),
        ops_behind(v, calc, point).last() == OpModel::Reached(point),
{
    let all = resize_ops(v, calc, ResizePhase::Started, false);
    let prefix = ops_behind(v, calc, point);
    let moving = move_ops(v.moves(calc), v.bps(), v.spc() * v.bps());
    let shifting = shift_phase_ops(v, calc);
    lemma_fat_phase_parts(v, calc);
    assert(shifting =~= shift_opening(v, calc) + moving + shift_closing(v, calc));
    assert(all =~= shifting + fat_phase_ops(v, calc) + metadata_ops(v, calc));
    assert(all.subrange(0, prefix.len() as int) =~= prefix);
}

/// The device after a run on `image` that is cut off behind `point`.
pub open spec fn interrupted_at(image: Seq<u8>, point: ProtocolPoint) -> Seq<u8> {
    run_ops(image, ops_behind(volume_of(image), calculation_of(image), point))
}

/// What a cut in the second phase leaves, and that the second phase, run
/// once more from there, arrives where it would have arrived.
pub open spec fn second_phase_redone(
    shifted: Seq<u8>,
    crashed: Seq<u8>,
    v: Volume,
    calc: SizeCalculation,
) -> bool {
    let p = places_of(v, calc, shifted.len() as int);
    &&& crashed.len() == shifted.len()
    &&& crashed.subrange(0, p.bps) == invalidated_boot(v.boot)
    &&& crashed.subrange(p.bps, p.old_fat_end) == shifted.subrange(p.bps, p.old_fat_end)
    &&& crashed.subrange(p.last, p.last + p.bps) == shifted.subrange(p.last, p.last + p.bps)
    &&& run_ops(crashed, fat_phase_ops(v, calc)) == run_ops(shifted, fat_phase_ops(v, calc))
}

/// A cut behind the invalidation of the boot sector: the boot sector is
/// invalidated once more, to no effect.
pub proof fn lemma_redo_behind_invalidate(shifted: Seq<u8>, v: Volume, calc: SizeCalculation)
    requires
        places_in_order(v, calc, shifted.len() as int),
        v.boot.len() == v.bps(),
        ops_fit(shifted.len() as int, fat_phase_ops(v, calc)),
    ensures
        ops_fit(shifted.len() as int, fat_opening(v)),
        second_phase_redone(shifted, run_ops(shifted, fat_opening(v)), v, calc),
{
    let size = shifted.len() as int;
    let p = places_of(v, calc, size);
    let head = fat_opening(v);
    let rest = fat_writes(v, calc) + fat_closing(v, calc);
    let zeroed = invalidated_boot(v.boot);
    lemma_fat_phase_parts(v, calc);
    lemma_fit_concat(size, head, rest);
    lemma_run_fat_opening(shifted, v);
    let crashed = overwrite(shifted, 0, zeroed);
    assert(zeroed.len() == p.bps);
    lemma_overwrite_lands(shifted, 0, zeroed);
    lemma_overwrite_keeps(shifted, 0, zeroed, p.bps, p.old_fat_end);
    lemma_overwrite_keeps(shifted, 0, zeroed, p.last, p.last + p.bps);
    lemma_overwrite_twice(shifted, 0, zeroed);
    lemma_run_fat_opening(crashed, v);
    lemma_run_concat(crashed, head, rest);
    lemma_run_concat(shifted, head, rest);
}

/// A cut behind the writes to the FATs: boot sector and FATs are written
/// once more, to no effect.
#[verifier::rlimit(40)]
pub proof fn lemma_redo_behind_fat_write(shifted: Seq<u8>, v: Volume, calc: SizeCalculation)
    requires
        places_in_order(v, calc, shifted.len() as int),
        v.boot.len() == v.bps(),
        1 <= v.num_fats() <= 2,
        0 <= v.reserved(),
        calc.new_fat_size >= calc.old_fat_size,
        ops_fit(shifted.len() as int, fat_phase_ops(v, calc)),
    ensures
        ops_fit(
            shifted.len() as int,
            fat_opening(v) + (fat_writes(v, calc) + seq![
                OpModel::Reached(ProtocolPoint::AfterFatWrite),
            ]),
        ),
        second_phase_redone(
            shifted,
            run_ops(
                shifted,
                fat_opening(v) + (fat_writes(v, calc) + seq![
                    OpModel::Reached(ProtocolPoint::AfterFatWrite),
                ]),
            ),
            v,
            calc,
        ),
{
    let size = shifted.len() as int;
    let p = places_of(v, calc, size);
    let head = fat_opening(v);
    let writes = fat_writes(v, calc);
    let tail = fat_closing(v, calc);
    let mark = seq![OpModel::Reached(ProtocolPoint::AfterFatWrite)];
    let zeroed = invalidated_boot(v.boot);
    let with_boot = overwrite(shifted, 0, zeroed);
    lemma_fat_phase_parts(v, calc);
    lemma_fit_concat(size, head, writes + tail);
    lemma_fit_concat(size, writes, tail);
    assert(ops_fit(size, mark));
    lemma_fit_concat(size, writes, mark);
    lemma_fit_concat(size, head, writes + mark);
    // what the cut leaves
    lemma_run_fat_opening(shifted, v);
    lemma_run_concat(shifted, head, writes + mark);
    lemma_run_concat(with_boot, writes, mark);
    lemma_run_keeps_size(with_boot, writes);
    let crashed = run_ops(with_boot, writes);
    assert(run_ops(crashed, mark) == crashed) by {
        assert(mark.drop_first() =~= Seq::<OpModel>::empty());
        assert(run_ops(crashed, Seq::<OpModel>::empty()) == crashed);
    }
    assert(zeroed.len() == p.bps);
    lemma_overwrite_lands(shifted, 0, zeroed);
    lemma_overwrite_keeps(shifted, 0, zeroed, p.bps, p.old_fat_end);
    lemma_overwrite_keeps(shifted, 0, zeroed, p.last, p.last + p.bps);
    lemma_fat_writes_keep(with_boot, v, calc);
    // the second pass
    lemma_overwrite_same(crashed, 0, zeroed);
    lemma_run_fat_opening(crashed, v);
    lemma_fat_writes_twice(with_boot, v, calc);
    lemma_run_concat(crashed, head, writes + tail);
    lemma_run_concat(crashed, writes, tail);
    lemma_run_concat(shifted, head, writes + tail);
    lemma_run_concat(with_boot, writes, tail);
}

/// A second run on a device that was cut off in the second phase arrives
/// where the run that was not interrupted arrives.
pub proof fn lemma_resume_in_second_phase(image: Seq<u8>, prefix: Seq<OpModel>)
    requires
        is_clean_volume(image),
        resize_outcome(image, false).0.is_ok(),
        metadata_apart(boot_of(image)),
        calculation_of(image).fat_needs_growth,
        ops_fit(image.len() as int, prefix),
        second_phase_redone(
            run_ops(image, shift_phase_ops(volume_of(image), calculation_of(image))),
            run_ops(
                run_ops(image, shift_phase_ops(volume_of(image), calculation_of(image))),
                prefix,
            ),
            volume_of(image),
            calculation_of(image),
        ),
    ensures
        resize_outcome(
            run_ops(
                image,
                shift_phase_ops(volume_of(image), calculation_of(image)) + prefix,
            ),
            false,
        ).0.is_ok(),
        resize_outcome(
            run_ops(
                image,
                shift_phase_ops(volume_of(image), calculation_of(image)) + prefix,
            ),
            false,
        ).1 == resize_outcome(image, false).1,
{
    lemma_shift_phase_done(image);
    lemma_clean_boot(image);
    let v = volume_of(image);
    let calc = calculation_of(image);
    let size = image.len() as int;
    let shifting = shift_phase_ops(v, calc);
    let writing = fat_phase_ops(v, calc);
    let metadata = metadata_ops(v, calc);
    let shifted = run_ops(image, shifting);
    let crashed = run_ops(shifted, prefix);
    let zeroed = invalidated_boot(boot_of(image));
    lemma_run_concat(image, shifting, prefix);
    lemma_layout_in_second_phase(image, shifted, crashed, v, calc);
    lemma_resumed_run(crashed, image, zeroed, ResizePhase::DataCopied);
    let resumed = resumed_volume(image, zeroed);
    assert(resumed == (Volume { boot: invalidated_boot(v.boot), ..v }));
    lemma_ops_of_resumed(v, calc);
    assert(resize_ops(resumed, rebuilt(calc), ResizePhase::DataCopied, false) =~= writing
        + metadata);
    lemma_fit_concat(size, writing, metadata);
    lemma_run_concat(crashed, writing, metadata);
    lemma_run_concat(shifted, writing, metadata);
    lemma_run_concat(image, shifting, writing + metadata);
}

/// A second run behind the invalidation of the boot sector arrives where
/// the run that was not interrupted arrives.
pub proof fn lemma_resume_behind_invalidate(image: Seq<u8>)
    requires
        is_clean_volume(image),
        resize_outcome(image, false).0.is_ok(),
        metadata_apart(boot_of(image)),
        calculation_of(image).fat_needs_growth,
    ensures
        resize_outcome(interrupted_at(image, ProtocolPoint::AfterBootInvalidate), false).0.is_ok(),
        resize_outcome(interrupted_at(image, ProtocolPoint::AfterBootInvalidate), false).1
            == resize_outcome(image, false).1,
{
    lemma_shift_phase_done(image);
    let v = volume_of(image);
    let calc = calculation_of(image);
    let shifted = run_ops(image, shift_phase_ops(v, calc));
    lemma_redo_behind_invalidate(shifted, v, calc);
    lemma_resume_in_second_phase(image, fat_opening(v));
}

/// A second run behind the writes to the FATs arrives where the run that
/// was not interrupted arrives.
pub proof fn lemma_resume_behind_fat_write(image: Seq<u8>)
    requires
        is_clean_volume(image),
        resize_outcome(image, false).0.is_ok(),
        metadata_apart(boot_of(image)),
        calculation_of(image).fat_needs_growth,
    ensures
        resize_outcome(interrupted_at(image, ProtocolPoint::AfterFatWrite), false).0.is_ok(),
        resize_outcome(interrupted_at(image, ProtocolPoint::AfterFatWrite), false).1
            == resize_outcome(image, false).1,
{
    lemma_shift_phase_done(image);
    let v = volume_of(image);
    let calc = calculation_of(image);
    let shifted = run_ops(image, shift_phase_ops(v, calc));
    lemma_redo_behind_fat_write(shifted, v, calc);
    lemma_resume_in_second_phase(
        image,
        fat_opening(v) + (fat_writes(v, calc) + seq![
            OpModel::Reached(ProtocolPoint::AfterFatWrite),
        ]),
    );
}

/// The crash-resume law. A run that shifts data and is cut off at a point
/// of the protocol leaves a device from which a second run arrives at the
/// bytes that the run would have arrived at, had it not been cut off. This
/// holds of every point but the one behind the data shift: there the
/// checkpoint still names the first phase, and a second run shifts the
/// data again, which is only sound where no cluster was moved onto the
/// old place of another.
pub proof fn lemma_resume_at_point(image: Seq<u8>, point: ProtocolPoint)
    requires
        is_clean_volume(image),
        resize_outcome(image, false).0.is_ok(),
        metadata_apart(boot_of(image)),
        calculation_of(image).fat_needs_growth,
        point != ProtocolPoint::AfterDataShift,
    ensures
        resize_outcome(interrupted_at(image, point), false).0.is_ok(),
        resize_outcome(interrupted_at(image, point), false).1 == resize_outcome(image, false).1,
{
    match point {
        ProtocolPoint::AfterCheckpointStart => lemma_resume_behind_first(image),
        ProtocolPoint::AfterDataShift => {},
        ProtocolPoint::AfterCheckpointDataCopied => lemma_resume_behind_second(image),
        ProtocolPoint::AfterBootInvalidate => lemma_resume_behind_invalidate(image),
        ProtocolPoint::AfterFatWrite => lemma_resume_behind_fat_write(image),
        ProtocolPoint::AfterCheckpointFatWritten => lemma_resume_behind_third(image),
    }
}

} // verus!
