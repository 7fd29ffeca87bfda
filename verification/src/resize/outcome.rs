//! What a device holds after a successful resize: a whole FAT32 volume
//! that fills it, with its FAT copies in step and the checkpoint gone, and
//! what an inspection reports of it.

use crate::device::{
    lemma_run_concat, lemma_run_keeps_size, lemma_run_push, op_fits, ops_fit, run_ops, zeros,
    OpModel, ProtocolPoint,
};
use crate::error::Error;
use crate::fat32::layout;
use crate::fat32::layout::{lemma_overwrite_u32, overwrite};
use crate::fat32::operations::{parsed_boot_sector, parsed_fsinfo};
use crate::fat32::structs::fsinfo_free_count;
use crate::fat32::validation::{lemma_fat32_geometry_defined, lemma_no_fault_iff_valid};
use crate::resize::calculator::SizeCalculation;
use crate::resize::checkpoint::ResizePhase;
use crate::resize::executor::resize_outcome;
use crate::resize::info::{fs_info_outcome, report_of, ReportModel};
use crate::resize::laws::{
    after_metadata, boot_of, calculation_of, is_clean_volume, lemma_clean_boot,
    lemma_clean_outcome, lemma_clean_run, lemma_distribute, lemma_final_boot_fields,
    lemma_final_boot_valid, lemma_fit_concat, lemma_resize_ends_with_metadata,
    lemma_resize_grows_to_device, lemma_scale, lemma_sectors_in_order, metadata_apart, sectors_of,
    volume_of,
};
use crate::resize::protocol::{
    fat_phase_ops, final_boot, final_free_count, final_fsinfo, growth_ops, shift_phase_ops, Volume,
};
use crate::resize::resume::{
    fat_closing, fat_opening, fat_writes, interrupted_at, lemma_fat_phase_parts,
    lemma_overwrite_keeps, lemma_overwrite_lands, lemma_resume_at_point, lemma_run_fat_opening,
    lemma_shift_phase_done, lemma_subrange_within, places_in_order, places_of,
};
use vstd::prelude::*;

verus! {

/// After the metadata update the FSInfo sector holds the new free count,
/// the last sector is zero, and what lies between the reserved area and
/// the last sector is as it was.
pub proof fn lemma_metadata_rest(mid: Seq<u8>, v: Volume, calc: SizeCalculation)
    requires
        v.bps() >= 1,
        v.boot.len() == v.bps(),
        v.boot.len() >= layout::MIN_SECTOR_SIZE,
        v.fsinfo.len() == v.bps(),
        metadata_apart(v.boot),
        v.reserved() <= v.device_sectors - 1,
        v.device_sectors * v.bps() <= mid.len(),
    ensures
        after_metadata(mid, v, calc).len() == mid.len(),
        after_metadata(mid, v, calc).subrange(
            layout::fs_info_sector(v.boot) * v.bps(),
            layout::fs_info_sector(v.boot) * v.bps() + v.bps(),
        ) == final_fsinfo(v, calc),
        after_metadata(mid, v, calc).subrange(
            v.checkpoint_offset(),
            v.checkpoint_offset() + v.bps(),
        ) == zeros(v.bps()),
        after_metadata(mid, v, calc).subrange(v.reserved() * v.bps(), v.checkpoint_offset())
            == mid.subrange(v.reserved() * v.bps(), v.checkpoint_offset()),
{
    let bps = v.bps();
    let r = v.reserved();
    let b = layout::backup_boot_sector(v.boot) as int;
    let f = layout::fs_info_sector(v.boot) as int;
    let last = v.checkpoint_offset();
    lemma_final_boot_fields(v.boot, calc);
    let target = final_boot(v.boot, calc);
    let info = final_fsinfo(v, calc);
    let with_boot = overwrite(mid, 0, target);
    let with_backup = overwrite(with_boot, b * bps, target);
    let with_fsinfo = overwrite(with_backup, f * bps, info);
    let after = overwrite(with_fsinfo, last, zeros(bps));
    assert(after == after_metadata(mid, v, calc));
    lemma_scale(1, r, bps);
    lemma_scale(0, b, bps);
    lemma_scale(b + 1, r, bps);
    lemma_scale(f + 1, r, bps);
    lemma_scale(1, f, bps);
    lemma_distribute(b, 1, bps);
    lemma_distribute(f, 1, bps);
    lemma_scale(r, v.device_sectors - 1, bps);
    lemma_distribute(v.device_sectors - 1, 1, bps);
    assert(info.len() == bps);
    assert(after.subrange(f * bps, f * bps + bps) =~= info);
    assert(after.subrange(last, last + bps) =~= zeros(bps));
    assert(after.subrange(r * bps, last) =~= mid.subrange(r * bps, last));
}

/// The FSInfo sector of the grown volume is valid where that of the
/// volume was, and holds the new free count.
pub proof fn lemma_final_fsinfo_valid(v: Volume, calc: SizeCalculation)
    requires
        parsed_fsinfo(v.fsinfo) == Ok::<Seq<u8>, Error>(v.fsinfo),
    ensures
        parsed_fsinfo(final_fsinfo(v, calc)) == Ok::<Seq<u8>, Error>(final_fsinfo(v, calc)),
        fsinfo_free_count(final_fsinfo(v, calc)) == final_free_count(v, calc),
{
    lemma_overwrite_u32(v.fsinfo, 488, final_free_count(v, calc));
}

/// The writes to the FATs leave the first FAT as it was, with zeros
/// behind it up to its new size, and the second FAT as its copy.
#[verifier::rlimit(40)]
pub proof fn lemma_fat_writes_effect(bytes: Seq<u8>, v: Volume, calc: SizeCalculation)
    requires
        v.bps() >= 1,
        v.reserved() >= 0,
        calc.new_fat_size > calc.old_fat_size,
        ops_fit(bytes.len() as int, fat_writes(v, calc)),
    ensures
        ({
            let bps = v.bps();
            let fat_at = v.reserved() * bps;
            let old_end = (v.reserved() + calc.old_fat_size) * bps;
            let new_end = (v.reserved() + calc.new_fat_size) * bps;
            let after = run_ops(bytes, fat_writes(v, calc));
            &&& after.len() == bytes.len()
            &&& 0 <= fat_at <= old_end <= new_end <= bytes.len()
            &&& new_end == fat_at + calc.new_fat_size * bps
            &&& after.subrange(fat_at, old_end) == bytes.subrange(fat_at, old_end)
            &&& after.subrange(old_end, new_end) == zeros(new_end - old_end)
            &&& v.num_fats() >= 2 ==> new_end + calc.new_fat_size * bps <= bytes.len()
                && after.subrange(new_end, new_end + calc.new_fat_size * bps) == after.subrange(
                fat_at,
                new_end,
            )
        }),
{
    let bps = v.bps();
    let r = v.reserved();
    let old_fat = calc.old_fat_size as int;
    let new_fat = calc.new_fat_size as int;
    let size = bytes.len() as int;
    let none = Seq::<OpModel>::empty();
    let writes = fat_writes(v, calc);
    let ext_at = (r + old_fat) * bps;
    let ext_len = (new_fat - old_fat) * bps;
    let fat_at = r * bps;
    let fat_len = new_fat * bps;
    let copy_at = (r + new_fat) * bps;
    lemma_distribute(r + old_fat, new_fat - old_fat, bps);
    lemma_distribute(r, new_fat, bps);
    lemma_scale(r, r + old_fat, bps);
    lemma_scale(0, r, bps);
    lemma_scale(0, new_fat, bps);
    lemma_scale(0, new_fat - old_fat, bps);
    let zero = OpModel::Zero { offset: ext_at, len: ext_len };
    let with_zeros = overwrite(bytes, ext_at, zeros(ext_len));
    assert(run_ops(bytes, none) == bytes);
    if v.num_fats() >= 2 {
        let copy = OpModel::Copy { from: fat_at, to: copy_at, len: fat_len };
        assert(writes =~= none.push(zero).push(copy));
        assert(op_fits(size, writes[0]));
        assert(op_fits(size, writes[1]));
        let once = overwrite(with_zeros, copy_at, with_zeros.subrange(fat_at, fat_at + fat_len));
        lemma_run_push(bytes, none, zero);
        lemma_run_push(bytes, none.push(zero), copy);
        assert(run_ops(bytes, writes) == once);
        lemma_overwrite_lands(bytes, ext_at, zeros(ext_len));
        lemma_overwrite_keeps(bytes, ext_at, zeros(ext_len), fat_at, ext_at);
        lemma_overwrite_lands(with_zeros, copy_at, with_zeros.subrange(fat_at, fat_at + fat_len));
        lemma_overwrite_keeps(
            with_zeros,
            copy_at,
            with_zeros.subrange(fat_at, fat_at + fat_len),
            fat_at,
            fat_at + fat_len,
        );
        lemma_subrange_within(once, with_zeros, fat_at, fat_at + fat_len, ext_at, ext_at + ext_len);
        lemma_subrange_within(once, with_zeros, fat_at, fat_at + fat_len, fat_at, ext_at);
    } else {
        assert(writes =~= none.push(zero));
        assert(op_fits(size, writes[0]));
        lemma_run_push(bytes, none, zero);
        lemma_overwrite_lands(bytes, ext_at, zeros(ext_len));
        lemma_overwrite_keeps(bytes, ext_at, zeros(ext_len), fat_at, ext_at);
    }
}

/// Whether the FATs of a device are in step at the sizes of the
/// calculation: the first FAT holds zeros in its new sectors, and the
/// second FAT, where there is one, is the copy of the first.
pub open spec fn fats_in_step(bytes: Seq<u8>, v: Volume, calc: SizeCalculation) -> bool {
    let bps = v.bps();
    let fat_at = v.reserved() * bps;
    let old_end = (v.reserved() + calc.old_fat_size) * bps;
    let new_end = (v.reserved() + calc.new_fat_size) * bps;
    &&& bytes.subrange(old_end, new_end) == zeros(new_end - old_end)
    &&& v.num_fats() >= 2 ==> bytes.subrange(new_end, new_end + calc.new_fat_size * bps)
        == bytes.subrange(fat_at, new_end)
}

/// The second phase leaves the FATs in step, and the first FAT as it was
/// up to its old size.
#[verifier::rlimit(40)]
pub proof fn lemma_fat_phase_leaves_fats_in_step(
    bytes: Seq<u8>,
    v: Volume,
    calc: SizeCalculation,
)
    requires
        places_in_order(v, calc, bytes.len() as int),
        v.boot.len() == v.bps(),
        1 <= v.num_fats() <= 2,
        0 <= v.reserved(),
        calc.new_fat_size > calc.old_fat_size,
        ops_fit(bytes.len() as int, fat_phase_ops(v, calc)),
    ensures
        fats_in_step(run_ops(bytes, fat_phase_ops(v, calc)), v, calc),
        run_ops(bytes, fat_phase_ops(v, calc)).len() == bytes.len(),
        run_ops(bytes, fat_phase_ops(v, calc)).subrange(
            v.reserved() * v.bps(),
            (v.reserved() + calc.old_fat_size) * v.bps(),
        ) == bytes.subrange(v.reserved() * v.bps(), (v.reserved() + calc.old_fat_size) * v.bps()),
{
    let size = bytes.len() as int;
    let p = places_of(v, calc, size);
    let bps = p.bps;
    let head = fat_opening(v);
    let writes = fat_writes(v, calc);
    let tail = fat_closing(v, calc);
    let zeroed = crate::resize::protocol::invalidated_boot(v.boot);
    let fat_at = v.reserved() * bps;
    let old_end = p.old_fat_end;
    let new_end = (v.reserved() + calc.new_fat_size) * bps;
    let copy_end = new_end + calc.new_fat_size * bps;
    lemma_fat_phase_parts(v, calc);
    lemma_fit_concat(size, head, writes + tail);
    lemma_fit_concat(size, writes, tail);
    lemma_run_fat_opening(bytes, v);
    let with_boot = overwrite(bytes, 0, zeroed);
    assert(zeroed.len() == bps);
    lemma_overwrite_keeps(bytes, 0, zeroed, fat_at, old_end);
    lemma_run_concat(bytes, head, writes + tail);
    lemma_run_concat(with_boot, writes, tail);
    let with_fats = run_ops(with_boot, writes);
    lemma_fat_writes_effect(with_boot, v, calc);
    // the closing writes the checkpoint, behind the FATs
    let none = Seq::<OpModel>::empty();
    let sector = crate::resize::resume::checkpoint_sector_of(v, calc, ResizePhase::FatWritten);
    let after = run_ops(with_fats, tail);
    assert(after == overwrite(with_fats, p.last, sector)) by {
        assert(op_fits(size, tail[0]));
        assert(op_fits(size, tail[1]));
        assert(op_fits(size, tail[2]));
        assert(op_fits(size, tail[3]));
        assert(run_ops(with_fats, none) == with_fats);
        lemma_run_push(with_fats, none, tail[0]);
        lemma_run_push(with_fats, none.push(tail[0]), tail[1]);
        lemma_run_push(with_fats, none.push(tail[0]).push(tail[1]), tail[2]);
        lemma_run_push(with_fats, none.push(tail[0]).push(tail[1]).push(tail[2]), tail[3]);
        assert(tail =~= none.push(tail[0]).push(tail[1]).push(tail[2]).push(tail[3]));
    }
    let nf = v.num_fats();
    let new_fat = calc.new_fat_size as int;
    assert(new_fat <= nf * new_fat && (nf >= 2 ==> 2 * new_fat <= nf * new_fat)) by (nonlinear_arith)
        requires
            1 <= nf,
            0 <= new_fat,
    ;
    lemma_scale(v.reserved() + new_fat, v.reserved() + nf * new_fat, bps);
    lemma_distribute(v.reserved() + new_fat, new_fat, bps);
    if nf >= 2 {
        lemma_scale(v.reserved() + new_fat + new_fat, v.reserved() + nf * new_fat, bps);
    }
    lemma_overwrite_keeps(with_fats, p.last, sector, fat_at, old_end);
    lemma_overwrite_keeps(with_fats, p.last, sector, old_end, new_end);
    lemma_overwrite_keeps(with_fats, p.last, sector, fat_at, new_end);
    if nf >= 2 {
        lemma_overwrite_keeps(with_fats, p.last, sector, new_end, copy_end);
    }
}

/// What a device holds after a successful resize of a clean volume whose
/// metadata sectors lie apart: the boot sector of the grown volume and its
/// copy in the backup sector, the FSInfo sector with the new free count,
/// zeros in the last sector, where the checkpoint was, and, where the
/// FATs grew, the FATs in step, the first as it was up to its old size.
pub open spec fn is_whole_volume(after: Seq<u8>, image: Seq<u8>) -> bool {
    let v = volume_of(image);
    let calc = calculation_of(image);
    let bps = v.bps();
    let backup_at = layout::backup_boot_sector(v.boot) * bps;
    let fsinfo_at = layout::fs_info_sector(v.boot) * bps;
    let fat_at = v.reserved() * bps;
    let old_end = (v.reserved() + calc.old_fat_size) * bps;
    &&& after.len() == image.len()
    &&& after.subrange(0, bps) == final_boot(v.boot, calc)
    &&& after.subrange(backup_at, backup_at + bps) == final_boot(v.boot, calc)
    &&& after.subrange(fsinfo_at, fsinfo_at + bps) == final_fsinfo(v, calc)
    &&& after.subrange(v.checkpoint_offset(), v.checkpoint_offset() + bps) == zeros(bps)
    &&& calc.fat_needs_growth ==> fats_in_step(after, v, calc) && after.subrange(fat_at, old_end)
        == image.subrange(fat_at, old_end)
}

/// A successful resize of a clean volume whose metadata sectors lie apart
/// leaves a whole volume.
pub proof fn lemma_resize_leaves_whole_volume(image: Seq<u8>)
    requires
        is_clean_volume(image),
        resize_outcome(image, false).0.is_ok(),
        metadata_apart(boot_of(image)),
    ensures
        is_whole_volume(resize_outcome(image, false).1, image),
{
    lemma_clean_boot(image);
    lemma_clean_outcome(image);
    lemma_resize_ends_with_metadata(image);
    lemma_resize_grows_to_device(image);
    let v = volume_of(image);
    let calc = calculation_of(image);
    let raw = boot_of(image);
    let size = image.len() as int;
    lemma_fat32_geometry_defined(raw);
    let mid = run_ops(image, growth_ops(v, calc, ResizePhase::Started));
    lemma_run_keeps_size(image, growth_ops(v, calc, ResizePhase::Started));
    lemma_metadata_rest(mid, v, calc);
    if calc.fat_needs_growth {
        lemma_grown_fats(image);
        lemma_fats_stay_in_step(mid, after_metadata(mid, v, calc), v, calc);
    }
}

/// FATs that are in step stay in step where nothing is written between
/// the reserved area and the last sector.
pub proof fn lemma_fats_stay_in_step(
    mid: Seq<u8>,
    after: Seq<u8>,
    v: Volume,
    calc: SizeCalculation,
)
    requires
        places_in_order(v, calc, mid.len() as int),
        1 <= v.num_fats() <= 2,
        0 <= v.reserved(),
        calc.new_fat_size > calc.old_fat_size,
        after.len() == mid.len(),
        after.subrange(v.reserved() * v.bps(), v.checkpoint_offset()) == mid.subrange(
            v.reserved() * v.bps(),
            v.checkpoint_offset(),
        ),
        fats_in_step(mid, v, calc),
    ensures
        fats_in_step(after, v, calc),
        after.subrange(v.reserved() * v.bps(), (v.reserved() + calc.old_fat_size) * v.bps())
            == mid.subrange(v.reserved() * v.bps(), (v.reserved() + calc.old_fat_size) * v.bps()),
{
    let p = places_of(v, calc, mid.len() as int);
    let bps = p.bps;
    let fat_at = v.reserved() * bps;
    let old_end = p.old_fat_end;
    let new_end = (v.reserved() + calc.new_fat_size) * bps;
    let nf = v.num_fats();
    let new_fat = calc.new_fat_size as int;
    assert(new_fat <= nf * new_fat && (nf >= 2 ==> 2 * new_fat <= nf * new_fat)) by (nonlinear_arith)
        requires
            1 <= nf,
            0 <= new_fat,
    ;
    lemma_scale(v.reserved() + new_fat, v.reserved() + nf * new_fat, bps);
    lemma_distribute(v.reserved() + new_fat, new_fat, bps);
    lemma_scale(v.reserved() + calc.old_fat_size, v.reserved() + new_fat, bps);
    lemma_subrange_within(after, mid, fat_at, p.last, fat_at, old_end);
    lemma_subrange_within(after, mid, fat_at, p.last, old_end, new_end);
    lemma_subrange_within(after, mid, fat_at, p.last, fat_at, new_end);
    if nf >= 2 {
        lemma_scale(v.reserved() + new_fat + new_fat, v.reserved() + nf * new_fat, bps);
        lemma_subrange_within(after, mid, fat_at, p.last, new_end, new_end + new_fat * bps);
    }
}

/// What the first two phases leave of the FATs.
pub open spec fn fats_grown(image: Seq<u8>, mid: Seq<u8>, v: Volume, calc: SizeCalculation) -> bool {
    &&& places_in_order(v, calc, image.len() as int)
    &&& 1 <= v.num_fats() <= 2
    &&& calc.new_fat_size > calc.old_fat_size
    &&& mid.len() == image.len()
    &&& fats_in_step(mid, v, calc)
    &&& mid.subrange(v.reserved() * v.bps(), (v.reserved() + calc.old_fat_size) * v.bps())
        == image.subrange(v.reserved() * v.bps(), (v.reserved() + calc.old_fat_size) * v.bps())
}

/// After the second phase the FATs are in step, and the first FAT is as
/// it was before the run up to its old size.
pub proof fn lemma_fats_after_second_phase(
    image: Seq<u8>,
    shifted: Seq<u8>,
    v: Volume,
    calc: SizeCalculation,
)
    requires
        crate::resize::resume::shift_phase_done(image, shifted, v, calc),
        calc.fat_needs_growth ==> calc.new_fat_size > calc.old_fat_size,
        calc.fat_needs_growth,
        ops_fit(image.len() as int, fat_phase_ops(v, calc)),
    ensures
        fats_grown(image, run_ops(shifted, fat_phase_ops(v, calc)), v, calc),
{
    let p = places_of(v, calc, image.len() as int);
    assert(v.boot.len() == p.bps);
    lemma_fat_phase_leaves_fats_in_step(shifted, v, calc);
    lemma_subrange_within(shifted, image, 0, p.new_data, v.reserved() * v.bps(), p.old_fat_end);
}

/// After the first two phases of a run on a clean volume the FATs are in
/// step, and the first FAT is as it was up to its old size.
pub proof fn lemma_grown_fats(image: Seq<u8>)
    requires
        is_clean_volume(image),
        resize_outcome(image, false).0.is_ok(),
        metadata_apart(boot_of(image)),
        calculation_of(image).fat_needs_growth,
    ensures
        fats_grown(
            image,
            run_ops(
                image,
                growth_ops(volume_of(image), calculation_of(image), ResizePhase::Started),
            ),
            volume_of(image),
            calculation_of(image),
        ),
{
    lemma_shift_phase_done(image);
    let v = volume_of(image);
    let calc = calculation_of(image);
    let shifting = shift_phase_ops(v, calc);
    let writing = fat_phase_ops(v, calc);
    let shifted = run_ops(image, shifting);
    lemma_run_concat(image, shifting, writing);
    assert(calc.new_fat_size > calc.old_fat_size) by {
        lemma_clean_boot(image);
        lemma_clean_outcome(image);
    }
    lemma_fats_after_second_phase(image, shifted, v, calc);
}

/// A second run behind the invalidation of the boot sector leaves a whole
/// volume: the boot sector is valid again and holds the sizes of the
/// checkpoint, the backup is its copy, the FATs are in step, and the last
/// sector is zero.
pub proof fn lemma_resumed_volume_is_whole(image: Seq<u8>)
    requires
        is_clean_volume(image),
        resize_outcome(image, false).0.is_ok(),
        metadata_apart(boot_of(image)),
        calculation_of(image).fat_needs_growth,
    ensures
        resize_outcome(interrupted_at(image, ProtocolPoint::AfterBootInvalidate), false).0.is_ok(),
        is_whole_volume(
            resize_outcome(interrupted_at(image, ProtocolPoint::AfterBootInvalidate), false).1,
            image,
        ),
        layout::boot_signature(final_boot(boot_of(image), calculation_of(image)))
            == layout::VALID_SIGNATURE,
        layout::total_sectors_32(final_boot(boot_of(image), calculation_of(image)))
            == calculation_of(image).new_total_sectors,
        layout::fat_size_32(final_boot(boot_of(image), calculation_of(image))) == calculation_of(
            image,
        ).new_fat_size,
{
    lemma_resume_at_point(image, ProtocolPoint::AfterBootInvalidate);
    lemma_resize_leaves_whole_volume(image);
    lemma_clean_boot(image);
    lemma_final_boot_fields(boot_of(image), calculation_of(image));
}

/// What an inspection reports of a volume that a resize has grown: the
/// volume has the sectors of the device and the clusters that the
/// calculation names, its backup matches, and it cannot grow.
pub proof fn lemma_info_after_resize(image: Seq<u8>, device_path: Seq<char>)
    requires
        is_clean_volume(image),
        resize_outcome(image, false).0.is_ok(),
        metadata_apart(boot_of(image)),
    ensures
        fs_info_outcome(resize_outcome(image, false).1, device_path) == Ok::<ReportModel, Error>(
            report_of(
                device_path,
                final_boot(boot_of(image), calculation_of(image)),
                true,
                final_fsinfo(volume_of(image), calculation_of(image)),
                sectors_of(image) as u64,
            ),
        ),
        fs_info_outcome(resize_outcome(image, false).1, device_path).unwrap().total_sectors
            == sectors_of(image),
        fs_info_outcome(resize_outcome(image, false).1, device_path).unwrap().device_sectors
            == sectors_of(image),
        !fs_info_outcome(resize_outcome(image, false).1, device_path).unwrap().can_grow,
        fs_info_outcome(resize_outcome(image, false).1, device_path).unwrap().max_new_size_bytes
            == None::<u64>,
        fs_info_outcome(resize_outcome(image, false).1, device_path).unwrap().data_clusters
            == calculation_of(image).new_data_clusters,
        fs_info_outcome(resize_outcome(image, false).1, device_path).unwrap().fat_size_sectors
            == calculation_of(image).new_fat_size,
        fs_info_outcome(resize_outcome(image, false).1, device_path).unwrap().free_clusters
            == final_free_count(volume_of(image), calculation_of(image)),
{
    lemma_resize_leaves_whole_volume(image);
    lemma_clean_boot(image);
    lemma_clean_run(image);
    let raw = boot_of(image);
    let v = volume_of(image);
    let calc = calculation_of(image);
    let after = resize_outcome(image, false).1;
    let target = final_boot(raw, calc);
    let bps = layout::bytes_per_sector(raw) as int;
    lemma_final_boot_fields(raw, calc);
    lemma_final_boot_valid(raw, sectors_of(image) as u64);
    lemma_final_fsinfo_valid(v, calc);
    lemma_fat32_geometry_defined(target);
    lemma_no_fault_iff_valid(target, false);
    let first = after.subrange(0, layout::MAX_SECTOR_SIZE as int);
    assert(after.subrange(0, bps)[11] == after[11]);
    assert(after.subrange(0, bps)[12] == after[12]);
    assert(first[11] == target[11] && first[12] == target[12]);
    assert(first.subrange(0, bps) =~= target);
    assert(parsed_boot_sector(first, false) == Ok::<Seq<u8>, Error>(target));
    lemma_sectors_in_order(
        layout::backup_boot_sector(raw) as int,
        sectors_of(image),
        bps,
    );
    lemma_sectors_in_order(layout::fs_info_sector(raw) as int, sectors_of(image), bps);
}

} // verus!
