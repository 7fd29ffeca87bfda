//! What holds of every resize of a clean volume.
//!
//! A clean volume is a device that starts with a valid FAT32 boot sector,
//! is larger than the volume, and holds no checkpoint in its last sector.
//! The laws speak of `resize_outcome`, which is what `resize_fat32` does.

use crate::device::{
    in_range, lemma_run_concat, lemma_run_keeps_size, op_fits, ops_fit, run_ops, OpModel,
};
use crate::error::Error;
use crate::fat32::layout;
use crate::fat32::layout::{lemma_overwrite_u32, overwrite, u32_le_bytes};
use crate::fat32::operations::{fat_entries, parsed_boot_sector, parsed_fsinfo, sector_bytes};
use crate::fat32::validation::{
    is_fat32_geometry, judged_cluster_count, lemma_fat32_geometry_defined,
    lemma_no_fault_iff_valid,
};
use crate::resize::calculator::{lemma_new_layout_fits, new_size, SizeCalculation};
use crate::resize::checkpoint::{parse_checkpoint, ResizeCheckpoint, ResizePhase};
use crate::resize::executor::{
    lemma_advance, lemma_run_step, resize_outcome, run_session, SessionModel, StageModel,
};
use crate::fat32::fat_entry;
use crate::resize::protocol::{
    checkpoint_calculation, checkpoint_for, checkpoint_write, fat_init_ops, fat_phase_ops,
    fat_sync_ops, final_boot, growth_ops, invalidated_boot, metadata_ops, planned_resize,
    resize_ops, shift_phase_ops, PlanModel, Volume,
};
use crate::resize::relocator::{
    move_of, move_ops, moves_desc, plan_limit, shift_sectors, ClusterMove,
};
use crate::device::{apply_op, lemma_run_push, ProtocolPoint};
use vstd::prelude::*;

verus! {

/// The boot sector of a device that starts with a valid one.
pub open spec fn boot_of(image: Seq<u8>) -> Seq<u8> {
    parsed_boot_sector(image.subrange(0, layout::MAX_SECTOR_SIZE as int), false).unwrap()
}

/// The number of whole sectors of a device, by the sector size of its boot
/// sector.
pub open spec fn sectors_of(image: Seq<u8>) -> int {
    image.len() as int / (layout::bytes_per_sector(boot_of(image)) as int)
}

/// The bytes of sector `sector` of a device.
pub open spec fn sector_of(image: Seq<u8>, sector: int) -> Seq<u8> {
    let bps = layout::bytes_per_sector(boot_of(image)) as int;
    image.subrange(sector * bps, sector * bps + bps)
}

/// A device that starts with a valid FAT32 boot sector, has more sectors
/// than the volume, and holds no checkpoint in its last sector.
pub open spec fn is_clean_volume(image: Seq<u8>) -> bool {
    &&& layout::MAX_SECTOR_SIZE <= image.len() <= usize::MAX
    &&& parsed_boot_sector(image.subrange(0, layout::MAX_SECTOR_SIZE as int), false).is_ok()
    &&& sectors_of(image) > layout::total_sectors(boot_of(image))
    &&& parse_checkpoint(sector_of(image, sectors_of(image) - 1)) == Ok::<
        Option<ResizeCheckpoint>,
        Error,
    >(None)
}

/// What a run reads of a clean volume.
pub open spec fn volume_of(image: Seq<u8>) -> Volume {
    let boot = boot_of(image);
    let bps = layout::bytes_per_sector(boot) as int;
    Volume {
        boot,
        fsinfo: sector_of(image, layout::fs_info_sector(boot) as int),
        fat: fat_entries(
            image.subrange(
                layout::reserved_sectors(boot) * bps,
                layout::reserved_sectors(boot) * bps + layout::fat_size(boot) * bps,
            ),
        ),
        device_sectors: sectors_of(image),
    }
}

/// The size calculation of a run on a clean volume.
pub open spec fn calculation_of(image: Seq<u8>) -> SizeCalculation {
    new_size(boot_of(image), sectors_of(image) as u64).unwrap()
}

/// The boot sector of a clean volume is a whole sector with a valid
/// signature and FAT32 geometry, and the sectors of the device fit on it.
pub proof fn lemma_clean_boot(image: Seq<u8>)
    requires
        is_clean_volume(image),
    ensures
        is_fat32_geometry(boot_of(image)),
        layout::boot_signature(boot_of(image)) == layout::VALID_SIGNATURE,
        boot_of(image).len() == layout::bytes_per_sector(boot_of(image)),
        boot_of(image) == image.subrange(0, layout::bytes_per_sector(boot_of(image)) as int),
        parsed_boot_sector(image.subrange(0, layout::MAX_SECTOR_SIZE as int), true) == Ok::<
            Seq<u8>,
            Error,
        >(boot_of(image)),
        512 <= layout::bytes_per_sector(boot_of(image)) <= 4096,
        sectors_of(image) * layout::bytes_per_sector(boot_of(image)) <= image.len(),
        sectors_of(image) <= u64::MAX,
{
    let data = image.subrange(0, layout::MAX_SECTOR_SIZE as int);
    let raw = boot_of(image);
    let size = layout::bytes_per_sector(data);
    assert(raw == data.subrange(0, size as int));
    assert(raw =~= image.subrange(0, size as int));
    assert(raw[11] == data[11]);
    assert(raw[12] == data[12]);
    lemma_no_fault_iff_valid(raw, false);
    lemma_no_fault_iff_valid(raw, true);
    let bps = layout::bytes_per_sector(raw) as int;
    let n = image.len() as int;
    assert((n / bps) * bps <= n && n / bps <= n) by (nonlinear_arith)
        requires
            bps >= 1,
            n >= 0,
    ;
}

/// A run on a clean volume that arrives at a plan has found the backup
/// boot sector in agreement with the primary and the FSInfo sector
/// valid, has calculated the sizes for the whole device, and plans the
/// full protocol from its first phase.
#[verifier::rlimit(40)]
pub proof fn lemma_clean_run(image: Seq<u8>)
    requires
        is_clean_volume(image),
        run_session(SessionModel::initial(image.len() as u64, false), image).is_ok(),
    ensures
        sector_bytes(
            image,
            layout::bytes_per_sector(boot_of(image)) as u32,
            layout::backup_boot_sector(boot_of(image)) as int,
        ).is_some(),
        layout::same_geometry(
            boot_of(image),
            sector_of(image, layout::backup_boot_sector(boot_of(image)) as int),
        ),
        sector_bytes(
            image,
            layout::bytes_per_sector(boot_of(image)) as u32,
            layout::fs_info_sector(boot_of(image)) as int,
        ).is_some(),
        parsed_fsinfo(volume_of(image).fsinfo) == Ok::<Seq<u8>, Error>(volume_of(image).fsinfo),
        new_size(boot_of(image), sectors_of(image) as u64).is_ok(),
        run_session(SessionModel::initial(image.len() as u64, false), image) == Ok::<
            PlanModel,
            Error,
        >(planned_resize(volume_of(image), calculation_of(image), None, false)),
{
    reveal(SessionModel::advance);
    lemma_clean_boot(image);
    let boot = boot_of(image);
    let bps = layout::bytes_per_sector(boot) as int;
    let sectors = sectors_of(image);
    let m0 = SessionModel::initial(image.len() as u64, false);
    let first = image.subrange(0, layout::MAX_SECTOR_SIZE as int);
    lemma_run_step(m0, image);
    lemma_advance(m0, first);
    let m1 = m0.at(StageModel::Checkpoint { boot, required: false });
    assert(m0.advance(first) == Ok::<SessionModel, Error>(m1));
    assert(m0.sectors(boot) == sectors);
    assert((sectors - 1) * bps + bps == sectors * bps) by (nonlinear_arith);
    assert((sectors - 1) * bps >= 0) by (nonlinear_arith)
        requires
            sectors >= 1,
            bps >= 0,
    ;
    lemma_run_step(m1, image);
    let last = image.subrange((sectors - 1) * bps, (sectors - 1) * bps + bps);
    assert(last == sector_of(image, sectors - 1));
    lemma_advance(m1, last);
    let m2 = m0.at(StageModel::Backup { boot, checkpoint: None });
    assert(m1.advance(last) == Ok::<SessionModel, Error>(m2));
    lemma_run_step(m2, image);
    let backup_at = layout::backup_boot_sector(boot) * bps;
    let backup = image.subrange(backup_at, backup_at + bps);
    lemma_advance(m2, backup);
    let m3 = m0.at(StageModel::FsInfo { boot, checkpoint: None });
    assert(m2.advance(backup) == Ok::<SessionModel, Error>(m3));
    lemma_run_step(m3, image);
    let fsinfo_at = layout::fs_info_sector(boot) * bps;
    let fsinfo = image.subrange(fsinfo_at, fsinfo_at + bps);
    lemma_advance(m3, fsinfo);
    let calculation = calculation_of(image);
    let m4 = m0.at(StageModel::Fat { boot, checkpoint: None, fsinfo, calculation });
    assert(m3.advance(fsinfo) == Ok::<SessionModel, Error>(m4));
    lemma_run_step(m4, image);
    let fat_at = layout::reserved_sectors(boot) * bps;
    let fat_len = layout::fat_size(boot) * bps;
    let fat = image.subrange(fat_at, fat_at + fat_len);
    lemma_advance(m4, fat);
    let plan = planned_resize(volume_of(image), calculation, None, false);
    let m5 = m0.at(StageModel::Done { plan });
    assert(m4.advance(fat) == Ok::<SessionModel, Error>(m5));
    lemma_run_step(m5, image);
}

/// The size calculation in the result of a resize of a clean volume is the
/// one that the calculator gives for the boot sector and the sector count
/// of the device.
pub proof fn lemma_result_holds_calculation(image: Seq<u8>)
    requires
        is_clean_volume(image),
        resize_outcome(image, false).0.is_ok(),
    ensures
        Ok::<SizeCalculation, Error>(resize_outcome(image, false).0.unwrap().calculation)
            == new_size(boot_of(image), sectors_of(image) as u64),
        resize_outcome(image, false).0.unwrap().calculation.new_total_sectors == sectors_of(
            image,
        ),
{
    lemma_clean_run(image);
}

/// The calculation that a resumed run rebuilds from the checkpoint of a
/// run is the calculation of that run, but for the count of new free
/// clusters, which a resumed run does not know.
pub proof fn lemma_checkpoint_holds_calculation(
    raw: Seq<u8>,
    device_sectors: u64,
    phase: ResizePhase,
)
    requires
        is_fat32_geometry(raw),
        new_size(raw, device_sectors).is_ok(),
    ensures
        checkpoint_calculation(raw, checkpoint_for(new_size(raw, device_sectors).unwrap(), phase))
            == Some(
            SizeCalculation { new_free_clusters: 0, ..new_size(raw, device_sectors).unwrap() },
        ),
{
    lemma_fat32_geometry_defined(raw);
    lemma_new_layout_fits(raw, device_sectors as u32);
    let calc = new_size(raw, device_sectors).unwrap();
    let spc = layout::sectors_per_cluster(raw) as int;
    let nf = layout::num_fats(raw) as int;
    let growth = calc.fat_growth_sectors as int;
    let new_fat = calc.new_fat_size as int;
    assert(0 <= growth * nf <= nf * new_fat) by (nonlinear_arith)
        requires
            0 <= growth <= new_fat,
            nf >= 0,
    ;
    let tg = growth * nf;
    assert((tg + spc - 1) / spc <= tg) by (nonlinear_arith)
        requires
            tg >= 0,
            spc >= 1,
    ;
    let rest = device_sectors - layout::reserved_sectors(raw) - nf * new_fat;
    assert(0 <= rest / spc <= rest) by (nonlinear_arith)
        requires
            rest >= 0,
            spc >= 1,
    ;
}

/// Sector `a` ends where sector `a + 1` starts, and no later than any
/// sector behind it starts.
pub proof fn lemma_sectors_in_order(a: int, b: int, bps: int)
    requires
        0 <= a < b,
        bps > 0,
    ensures
        0 <= a * bps,
        a * bps + bps <= b * bps,
{
    assert(0 <= a * bps && a * bps + bps <= b * bps) by (nonlinear_arith)
        requires
            0 <= a < b,
            bps > 0,
    ;
}

/// The boot sector of the grown volume holds the new sizes and a valid
/// signature, and every other geometry field as before.
pub proof fn lemma_final_boot_fields(raw: Seq<u8>, calc: SizeCalculation)
    requires
        raw.len() >= layout::MIN_SECTOR_SIZE,
    ensures
        final_boot(raw, calc).len() == raw.len(),
        layout::total_sectors_32(final_boot(raw, calc)) == calc.new_total_sectors,
        layout::fat_size_32(final_boot(raw, calc)) == calc.new_fat_size,
        layout::boot_signature(final_boot(raw, calc)) == layout::VALID_SIGNATURE,
        layout::bytes_per_sector(final_boot(raw, calc)) == layout::bytes_per_sector(raw),
        layout::sectors_per_cluster(final_boot(raw, calc)) == layout::sectors_per_cluster(raw),
        layout::reserved_sectors(final_boot(raw, calc)) == layout::reserved_sectors(raw),
        layout::num_fats(final_boot(raw, calc)) == layout::num_fats(raw),
        layout::root_entry_count(final_boot(raw, calc)) == layout::root_entry_count(raw),
        layout::total_sectors_16(final_boot(raw, calc)) == layout::total_sectors_16(raw),
        layout::media_type(final_boot(raw, calc)) == layout::media_type(raw),
        layout::fat_size_16(final_boot(raw, calc)) == layout::fat_size_16(raw),
        layout::root_cluster(final_boot(raw, calc)) == layout::root_cluster(raw),
        layout::fs_info_sector(final_boot(raw, calc)) == layout::fs_info_sector(raw),
        layout::backup_boot_sector(final_boot(raw, calc)) == layout::backup_boot_sector(raw),
        forall|i: int|
            0 <= i < raw.len() && !(32 <= i < 40) && !(510 <= i < 512) ==> final_boot(raw, calc)[i]
                == raw[i],
{
    let first = overwrite(raw, 32, u32_le_bytes(calc.new_total_sectors));
    let second = overwrite(first, 36, u32_le_bytes(calc.new_fat_size));
    let last = final_boot(raw, calc);
    lemma_overwrite_u32(raw, 32, calc.new_total_sectors);
    lemma_overwrite_u32(first, 36, calc.new_fat_size);
    assert(last[32] == first[32] && last[33] == first[33] && last[34] == first[34] && last[35]
        == first[35]);
    assert(last[36] == second[36] && last[37] == second[37] && last[38] == second[38] && last[39]
        == second[39]);
    assert(last[510] == 0x55u8 && last[511] == 0xAAu8);
    assert forall|i: int|
        0 <= i < raw.len() && !(32 <= i < 40) && !(510 <= i < 512) implies last[i] == raw[i] by {
        assert(second[i] == first[i]);
        assert(first[i] == raw[i]);
    }
}

/// The boot sector of the grown volume is that of a FAT32 volume with the
/// data clusters that the calculation names.
pub proof fn lemma_final_boot_valid(raw: Seq<u8>, device_sectors: u64)
    requires
        raw.len() >= layout::MIN_SECTOR_SIZE,
        is_fat32_geometry(raw),
        new_size(raw, device_sectors).is_ok(),
    ensures
        is_fat32_geometry(final_boot(raw, new_size(raw, device_sectors).unwrap())),
        layout::data_clusters(final_boot(raw, new_size(raw, device_sectors).unwrap()))
            == new_size(raw, device_sectors).unwrap().new_data_clusters,
        layout::first_data_sector(final_boot(raw, new_size(raw, device_sectors).unwrap()))
            == layout::reserved_sectors(raw) + layout::num_fats(raw) * new_size(
            raw,
            device_sectors,
        ).unwrap().new_fat_size,
        new_size(raw, device_sectors).unwrap().new_total_sectors == device_sectors,
        new_size(raw, device_sectors).unwrap().new_fat_size >= 1,
{
    let calc = new_size(raw, device_sectors).unwrap();
    let after = final_boot(raw, calc);
    lemma_fat32_geometry_defined(raw);
    lemma_final_boot_fields(raw, calc);
    lemma_new_layout_fits(raw, device_sectors as u32);
    let bps = layout::bytes_per_sector(raw) as int;
    let spc = layout::sectors_per_cluster(raw) as int;
    let nf = layout::num_fats(raw) as int;
    let reserved = layout::reserved_sectors(raw) as int;
    let new_fat = calc.new_fat_size as int;
    let a = device_sectors - reserved;
    let d = crate::resize::calculator::fat_size_divisor(
        layout::num_fats(raw),
        layout::sectors_per_cluster(raw),
        layout::bytes_per_sector(raw),
    );
    assert((a + d - 1) / d >= 1) by (nonlinear_arith)
        requires
            a >= 1,
            d >= 1,
    ;
    assert(layout::root_dir_sectors(after) == (bps - 1) / bps);
    assert((bps - 1) / bps == 0);
    let rest = device_sectors - reserved - nf * new_fat;
    assert(0 <= rest / spc <= rest) by (nonlinear_arith)
        requires
            rest >= 0,
            spc >= 1,
    ;
    assert(layout::data_sectors(after) == rest);
    assert(judged_cluster_count(after) == rest / spc);
}

/// The backup boot sector and the FSInfo sector lie in the reserved area,
/// apart from each other and from the boot sector. The FAT specification
/// asks for this; validation does not check it.
pub open spec fn metadata_apart(raw: Seq<u8>) -> bool {
    &&& 0 < layout::fs_info_sector(raw) < layout::reserved_sectors(raw)
    &&& layout::backup_boot_sector(raw) < layout::reserved_sectors(raw)
    &&& layout::fs_info_sector(raw) != layout::backup_boot_sector(raw)
}

/// The bytes of the device after the metadata update that ends a run, on a
/// device whose bytes were `mid` before it.
pub open spec fn after_metadata(mid: Seq<u8>, v: Volume, calc: SizeCalculation) -> Seq<u8> {
    overwrite(
        overwrite(
            overwrite(
                overwrite(mid, 0, final_boot(v.boot, calc)),
                layout::backup_boot_sector(v.boot) * v.bps(),
                final_boot(v.boot, calc),
            ),
            layout::fs_info_sector(v.boot) * v.bps(),
            crate::resize::protocol::final_fsinfo(v, calc),
        ),
        v.checkpoint_offset(),
        crate::device::zeros(v.bps()),
    )
}

/// Running the metadata update writes the boot sector, its backup and
/// the FSInfo sector, and zeroes the checkpoint, in this order.
pub proof fn lemma_run_metadata(mid: Seq<u8>, v: Volume, calc: SizeCalculation)
    requires
        ops_fit(mid.len() as int, metadata_ops(v, calc)),
    ensures
        run_ops(mid, metadata_ops(v, calc)) == after_metadata(mid, v, calc),
{
    let ops = metadata_ops(v, calc);
    let none = Seq::<OpModel>::empty();
    let size = mid.len() as int;
    assert(op_fits(size, ops[0]));
    assert(op_fits(size, ops[1]));
    assert(op_fits(size, ops[2]));
    assert(op_fits(size, ops[3]));
    assert(op_fits(size, ops[4]));
    assert(run_ops(mid, none) == mid);
    crate::device::lemma_run_push(mid, none, ops[0]);
    crate::device::lemma_run_push(mid, none.push(ops[0]), ops[1]);
    crate::device::lemma_run_push(mid, none.push(ops[0]).push(ops[1]), ops[2]);
    crate::device::lemma_run_push(mid, none.push(ops[0]).push(ops[1]).push(ops[2]), ops[3]);
    crate::device::lemma_run_push(
        mid,
        none.push(ops[0]).push(ops[1]).push(ops[2]).push(ops[3]),
        ops[4],
    );
    assert(ops =~= none.push(ops[0]).push(ops[1]).push(ops[2]).push(ops[3]).push(ops[4]));
}

/// A list of operations fits a device exactly when its two parts do.
pub proof fn lemma_fit_concat(size: int, first: Seq<OpModel>, second: Seq<OpModel>)
    ensures
        ops_fit(size, first + second) <==> ops_fit(size, first) && ops_fit(size, second),
{
    let all = first + second;
    if ops_fit(size, all) {
        assert forall|i: int| 0 <= i < first.len() implies op_fits(size, #[trigger] first[i]) by {
            assert(all[i] == first[i]);
        }
        assert forall|i: int| 0 <= i < second.len() implies op_fits(
            size,
            #[trigger] second[i],
        ) by {
            assert(all[i + first.len()] == second[i]);
        }
    }
    if ops_fit(size, first) && ops_fit(size, second) {
        assert forall|i: int| 0 <= i < all.len() implies op_fits(size, #[trigger] all[i]) by {
            if i < first.len() {
                assert(all[i] == first[i]);
            } else {
                assert(all[i] == second[i - first.len()]);
            }
        }
    }
}

/// What a successful resize of a clean volume leaves on the device: the
/// bytes after the phases before the metadata update, with the metadata
/// update on top.
pub proof fn lemma_resize_ends_with_metadata(image: Seq<u8>)
    requires
        is_clean_volume(image),
        resize_outcome(image, false).0.is_ok(),
    ensures
        ops_fit(
            image.len() as int,
            growth_ops(volume_of(image), calculation_of(image), ResizePhase::Started),
        ),
        ops_fit(image.len() as int, metadata_ops(volume_of(image), calculation_of(image))),
        resize_outcome(image, false).1 == after_metadata(
            run_ops(
                image,
                growth_ops(volume_of(image), calculation_of(image), ResizePhase::Started),
            ),
            volume_of(image),
            calculation_of(image),
        ),
        resize_outcome(image, false).1.len() == image.len(),
{
    lemma_clean_run(image);
    let v = volume_of(image);
    let calc = calculation_of(image);
    let growth = growth_ops(v, calc, ResizePhase::Started);
    let metadata = metadata_ops(v, calc);
    assert(resize_ops(v, calc, ResizePhase::Started, false) == growth + metadata);
    lemma_fit_concat(image.len() as int, growth, metadata);
    lemma_run_concat(image, growth, metadata);
    lemma_run_keeps_size(image, growth);
    lemma_run_metadata(run_ops(image, growth), v, calc);
    lemma_run_keeps_size(image, growth + metadata);
}

/// After the metadata update the device starts with the boot sector of
/// the grown volume, and holds its copy in the backup sector, where the
/// metadata sectors lie apart in the reserved area and the checkpoint
/// lies behind it.
pub proof fn lemma_metadata_lands(mid: Seq<u8>, v: Volume, calc: SizeCalculation)
    requires
        v.bps() >= 1,
        v.boot.len() == v.bps(),
        v.boot.len() >= layout::MIN_SECTOR_SIZE,
        v.fsinfo.len() == v.bps(),
        metadata_apart(v.boot),
        v.reserved() <= v.device_sectors - 1,
        v.device_sectors * v.bps() <= mid.len(),
    ensures
        after_metadata(mid, v, calc).subrange(0, v.bps()) == final_boot(v.boot, calc),
        after_metadata(mid, v, calc).subrange(
            layout::backup_boot_sector(v.boot) * v.bps(),
            layout::backup_boot_sector(v.boot) * v.bps() + v.bps(),
        ) == final_boot(v.boot, calc),
{
    let bps = v.bps();
    let r = v.reserved();
    let b = layout::backup_boot_sector(v.boot) as int;
    let f = layout::fs_info_sector(v.boot) as int;
    let target = final_boot(v.boot, calc);
    lemma_final_boot_fields(v.boot, calc);
    let with_boot = overwrite(mid, 0, target);
    let with_backup = overwrite(with_boot, b * bps, target);
    let with_fsinfo = overwrite(with_backup, f * bps, crate::resize::protocol::final_fsinfo(v, calc));
    let after = overwrite(with_fsinfo, v.checkpoint_offset(), crate::device::zeros(bps));
    assert(after == after_metadata(mid, v, calc));
    lemma_sectors_in_order(0, f, bps);
    lemma_sectors_in_order(b, r, bps);
    lemma_sectors_in_order(f, r, bps);
    lemma_scale(r, v.device_sectors - 1, bps);
    lemma_sectors_in_order(v.device_sectors - 1, v.device_sectors, bps);
    if b < f {
        lemma_sectors_in_order(b, f, bps);
    } else {
        lemma_sectors_in_order(f, b, bps);
    }
    if b > 0 {
        lemma_sectors_in_order(0, b, bps);
    }
    assert(after.subrange(0, bps) =~= target) by {
        assert forall|i: int| 0 <= i < bps implies after[i] == target[i] by {
            assert(after[i] == with_fsinfo[i]);
            assert(with_fsinfo[i] == with_backup[i]);
            assert(with_boot[i] == target[i]);
        }
    }
    assert(after.subrange(b * bps, b * bps + bps) =~= target) by {
        assert forall|i: int| 0 <= i < bps implies after[b * bps + i] == target[i] by {
            assert(after[b * bps + i] == with_fsinfo[b * bps + i]);
            assert(with_fsinfo[b * bps + i] == with_backup[b * bps + i]);
            assert(with_backup[b * bps + i] == target[i]);
        }
    }
}

/// A successful resize of a clean volume whose metadata sectors lie apart
/// leaves a boot sector that declares exactly the sectors of the device,
/// with a valid signature and FAT32 geometry and the data clusters that
/// the calculation names, and a backup boot sector that is its copy, byte
/// for byte. The data clusters are no fewer than before wherever the
/// calculation does not lose clusters to the longer FATs.
pub proof fn lemma_resize_grows_to_device(image: Seq<u8>)
    requires
        is_clean_volume(image),
        resize_outcome(image, false).0.is_ok(),
        metadata_apart(boot_of(image)),
    ensures
        ({
            let after = resize_outcome(image, false).1;
            let before = boot_of(image);
            let bps = layout::bytes_per_sector(before) as int;
            let boot = after.subrange(0, bps);
            let backup = after.subrange(
                layout::backup_boot_sector(before) * bps,
                layout::backup_boot_sector(before) * bps + bps,
            );
            &&& boot == final_boot(before, calculation_of(image))
            &&& backup == boot
            &&& layout::total_sectors_32(boot) == sectors_of(image)
            &&& layout::total_sectors(boot) == sectors_of(image)
            &&& layout::fat_size_32(boot) == calculation_of(image).new_fat_size
            &&& layout::same_geometry(boot, backup)
            &&& layout::boot_signature(boot) == layout::VALID_SIGNATURE
            &&& is_fat32_geometry(boot)
            &&& layout::data_clusters(boot) == calculation_of(image).new_data_clusters
            &&& calculation_of(image).new_data_clusters >= layout::data_clusters(before)
                ==> layout::data_clusters(boot) >= layout::data_clusters(before)
        }),
{
    lemma_clean_boot(image);
    lemma_resize_ends_with_metadata(image);
    let v = volume_of(image);
    let calc = calculation_of(image);
    let before = boot_of(image);
    assert(new_size(before, sectors_of(image) as u64).is_ok()) by {
        lemma_clean_outcome(image);
    }
    assert(v.fsinfo.len() == v.bps()) by {
        lemma_clean_outcome(image);
    }
    lemma_final_boot_fields(before, calc);
    lemma_final_boot_valid(before, sectors_of(image) as u64);
    assert(v.reserved() <= v.device_sectors - 1) by {
        lemma_fat32_geometry_defined(before);
    }
    let mid = run_ops(image, growth_ops(v, calc, ResizePhase::Started));
    lemma_run_keeps_size(image, growth_ops(v, calc, ResizePhase::Started));
    lemma_metadata_lands(mid, v, calc);
}

/// Whether an operation leaves the bytes `lo .. hi` of the device alone.
pub open spec fn op_keeps(op: OpModel, lo: int, hi: int) -> bool {
    match op {
        OpModel::Write { offset, data } => offset + data.len() <= lo || hi <= offset,
        OpModel::Copy { from, to, len } => to + len <= lo || hi <= to,
        OpModel::Zero { offset, len } => offset + len <= lo || hi <= offset,
        OpModel::Sync => true,
        OpModel::Reached(_) => true,
    }
}

/// Whether every operation of a list leaves the bytes `lo .. hi` alone.
pub open spec fn ops_keep(ops: Seq<OpModel>, lo: int, hi: int) -> bool {
    forall|i: int| 0 <= i < ops.len() ==> op_keeps(#[trigger] ops[i], lo, hi)
}

/// Bytes that every operation of a list leaves alone are after the run
/// what they were before.
pub proof fn lemma_run_keeps(bytes: Seq<u8>, ops: Seq<OpModel>, lo: int, hi: int)
    requires
        ops_keep(ops, lo, hi),
        0 <= lo <= hi <= bytes.len(),
    ensures
        run_ops(bytes, ops).subrange(lo, hi) == bytes.subrange(lo, hi),
    decreases ops.len(),
{
    if ops.len() > 0 && op_fits(bytes.len() as int, ops[0]) {
        let next = apply_op(bytes, ops[0]);
        assert(op_keeps(ops[0], lo, hi));
        assert(next.subrange(lo, hi) =~= bytes.subrange(lo, hi));
        assert forall|i: int| 0 <= i < ops.drop_first().len() implies op_keeps(
            #[trigger] ops.drop_first()[i],
            lo,
            hi,
        ) by {
            assert(ops.drop_first()[i] == ops[i + 1]);
        }
        lemma_run_keeps(next, ops.drop_first(), lo, hi);
    }
}

/// Two lists that leave a range alone do so in a row.
pub proof fn lemma_keep_concat(first: Seq<OpModel>, second: Seq<OpModel>, lo: int, hi: int)
    requires
        ops_keep(first, lo, hi),
        ops_keep(second, lo, hi),
    ensures
        ops_keep(first + second, lo, hi),
{
    let all = first + second;
    assert forall|i: int| 0 <= i < all.len() implies op_keeps(#[trigger] all[i], lo, hi) by {
        if i < first.len() {
            assert(all[i] == first[i]);
        } else {
            assert(all[i] == second[i - first.len()]);
        }
    }
}

/// The byte at which cluster `cluster` starts where the data area starts
/// at sector `first_data`.
pub open spec fn cluster_place(first_data: int, cluster: int, spc: int, bps: int) -> int {
    (first_data + (cluster - 2) * spc) * bps
}

/// Clusters lie in a row: each starts a cluster size behind the one
/// before, and a data area that starts `shift` sectors later puts every
/// cluster that many sectors later.
pub proof fn lemma_cluster_places(first_data: int, shift: int, c1: int, c2: int, spc: int, bps: int)
    requires
        c1 <= c2,
        spc >= 1,
        bps >= 1,
        shift >= 0,
    ensures
        cluster_place(first_data, c2, spc, bps) == cluster_place(first_data, c1, spc, bps) + (c2
            - c1) * (spc * bps),
        (c2 - c1) * (spc * bps) >= 0,
        c1 < c2 ==> (c2 - c1) * (spc * bps) >= spc * bps,
        cluster_place(first_data + shift, c1, spc, bps) == cluster_place(first_data, c1, spc, bps)
            + shift * bps,
        shift * bps >= 0,
        shift > 0 ==> shift * bps >= 1,
        spc * bps >= 1,
{
    assert((first_data + (c2 - 2) * spc) * bps == (first_data + (c1 - 2) * spc) * bps + (c2 - c1)
        * (spc * bps)) by (nonlinear_arith);
    assert((c2 - c1) * (spc * bps) >= 0 && (c1 < c2 ==> (c2 - c1) * (spc * bps) >= spc * bps)
        && spc * bps >= 1) by (nonlinear_arith)
        requires
            c1 <= c2,
            spc >= 1,
            bps >= 1,
    ;
    assert((first_data + shift + (c1 - 2) * spc) * bps == (first_data + (c1 - 2) * spc) * bps
        + shift * bps) by (nonlinear_arith);
    assert(shift * bps >= 0 && (shift > 0 ==> shift * bps >= 1)) by (nonlinear_arith)
        requires
            shift >= 0,
            bps >= 1,
    ;
}

/// The data shift puts the content of every cluster that is not free at
/// its new place, and changes no byte before the new place of the lowest
/// cluster of the range. The moves run from the highest cluster down, so
/// no move reads what an earlier move wrote.
#[verifier::rlimit(40)]
pub proof fn lemma_shift_moves(
    bytes: Seq<u8>,
    fat: Seq<u32>,
    lo: int,
    hi: int,
    old_first: int,
    shift: int,
    spc: int,
    bps: int,
)
    requires
        2 <= lo,
        hi <= fat.len(),
        hi <= u32::MAX,
        0 <= old_first,
        0 < shift,
        1 <= spc,
        1 <= bps,
        old_first + shift + hi * spc <= u64::MAX,
        ops_fit(
            bytes.len() as int,
            move_ops(moves_desc(fat, lo, hi, old_first, shift, spc), bps, spc * bps),
        ),
    ensures
        ({
            let after = run_ops(
                bytes,
                move_ops(moves_desc(fat, lo, hi, old_first, shift, spc), bps, spc * bps),
            );
            &&& after.len() == bytes.len()
            &&& forall|c: int|
                lo <= c < hi && !fat_entry::spec_is_free(#[trigger] fat[c]) ==> 0 <= cluster_place(
                    old_first,
                    c,
                    spc,
                    bps,
                ) && cluster_place(old_first + shift, c, spc, bps) + spc * bps <= bytes.len()
            &&& forall|c: int|
                lo <= c < hi && !fat_entry::spec_is_free(#[trigger] fat[c]) ==> after.subrange(
                    cluster_place(old_first + shift, c, spc, bps),
                    cluster_place(old_first + shift, c, spc, bps) + spc * bps,
                ) == bytes.subrange(
                    cluster_place(old_first, c, spc, bps),
                    cluster_place(old_first, c, spc, bps) + spc * bps,
                )
            &&& forall|p: int|
                0 <= p < bytes.len() && (lo < hi ==> p < cluster_place(
                    old_first + shift,
                    lo,
                    spc,
                    bps,
                )) ==> #[trigger] after[p] == bytes[p]
        }),
    decreases hi - lo,
{
    let size = bytes.len() as int;
    let cluster_bytes = spc * bps;
    let moves = moves_desc(fat, lo, hi, old_first, shift, spc);
    let after = run_ops(bytes, move_ops(moves, bps, cluster_bytes));
    lemma_run_keeps_size(bytes, move_ops(moves, bps, cluster_bytes));
    if lo < hi {
        let higher = moves_desc(fat, lo + 1, hi, old_first, shift, spc);
        let higher_ops = move_ops(higher, bps, cluster_bytes);
        let mid = run_ops(bytes, higher_ops);
        lemma_cluster_places(old_first, shift, lo, lo + 1, spc, bps);
        lemma_cluster_places(old_first, shift, lo + 1, lo + 1, spc, bps);
        let from = cluster_place(old_first, lo, spc, bps);
        let to = cluster_place(old_first + shift, lo, spc, bps);
        assert((lo - 2) * spc >= 0 && (lo - 2) * spc <= hi * spc) by (nonlinear_arith)
            requires
                2 <= lo < hi,
                spc >= 1,
        ;
        assert(from >= 0) by (nonlinear_arith)
            requires
                from == (old_first + (lo - 2) * spc) * bps,
                old_first >= 0,
                (lo - 2) * spc >= 0,
                bps >= 1,
        ;
        if fat_entry::spec_is_free(fat[lo]) {
            assert(moves == higher);
            lemma_shift_moves(bytes, fat, lo + 1, hi, old_first, shift, spc, bps);
            assert forall|c: int|
                lo <= c < hi && !fat_entry::spec_is_free(#[trigger] fat[c]) implies after.subrange(
                cluster_place(old_first + shift, c, spc, bps),
                cluster_place(old_first + shift, c, spc, bps) + spc * bps,
            ) == bytes.subrange(
                cluster_place(old_first, c, spc, bps),
                cluster_place(old_first, c, spc, bps) + spc * bps,
            ) by {
                assert(lo + 1 <= c);
            }
            assert forall|p: int|
                0 <= p < bytes.len() && p < cluster_place(
                    old_first + shift,
                    lo,
                    spc,
                    bps,
                ) implies #[trigger] after[p] == bytes[p] by {
                if lo + 1 < hi {
                    assert(p < cluster_place(old_first + shift, lo + 1, spc, bps));
                }
            }
        } else {
            let m = move_of(lo, old_first, shift, spc);
            let copy = OpModel::Copy { from, to, len: cluster_bytes };
            assert(moves == higher.push(m));
            assert(m.from_sector == old_first + (lo - 2) * spc);
            assert(m.to_sector == old_first + shift + (lo - 2) * spc);
            let all_ops = move_ops(moves, bps, cluster_bytes);
            assert(all_ops =~= higher_ops.push(copy));
            assert(ops_fit(size, higher_ops)) by {
                assert forall|i: int| 0 <= i < higher_ops.len() implies op_fits(
                    size,
                    #[trigger] higher_ops[i],
                ) by {
                    assert(all_ops[i] == higher_ops[i]);
                }
            }
            assert(op_fits(size, copy)) by {
                assert(all_ops[higher_ops.len() as int] == copy);
            }
            lemma_run_push(bytes, higher_ops, copy);
            lemma_shift_moves(bytes, fat, lo + 1, hi, old_first, shift, spc, bps);
            lemma_run_keeps_size(bytes, higher_ops);
            assert(after == overwrite(mid, to, mid.subrange(from, from + cluster_bytes)));
            // what the move reads is what was there at the start
            assert(mid.subrange(from, from + cluster_bytes) =~= bytes.subrange(
                from,
                from + cluster_bytes,
            )) by {
                assert forall|p: int| from <= p < from + cluster_bytes implies #[trigger] mid[p]
                    == bytes[p] by {
                    if lo + 1 < hi {
                        assert(p < cluster_place(old_first + shift, lo + 1, spc, bps));
                    }
                }
            }
            assert forall|c: int|
                lo <= c < hi && !fat_entry::spec_is_free(#[trigger] fat[c]) implies after.subrange(
                cluster_place(old_first + shift, c, spc, bps),
                cluster_place(old_first + shift, c, spc, bps) + spc * bps,
            ) == bytes.subrange(
                cluster_place(old_first, c, spc, bps),
                cluster_place(old_first, c, spc, bps) + spc * bps,
            ) by {
                let target = cluster_place(old_first + shift, c, spc, bps);
                assert(target + cluster_bytes <= size);
                if c == lo {
                    assert(after.subrange(to, to + cluster_bytes) =~= mid.subrange(
                        from,
                        from + cluster_bytes,
                    ));
                } else {
                    lemma_cluster_places(old_first + shift, 0, lo, c, spc, bps);
                    assert(target >= to + cluster_bytes);
                    assert(after.subrange(target, target + cluster_bytes) =~= mid.subrange(
                        target,
                        target + cluster_bytes,
                    ));
                }
            }
            assert forall|p: int| 0 <= p < bytes.len() && p < to implies #[trigger] after[p]
                == bytes[p] by {
                assert(after[p] == mid[p]);
            }
            assert forall|c: int|
                lo <= c < hi && !fat_entry::spec_is_free(#[trigger] fat[c]) implies 0
                <= cluster_place(old_first, c, spc, bps) && cluster_place(
                old_first + shift,
                c,
                spc,
                bps,
            ) + spc * bps <= bytes.len() by {
                lemma_cluster_places(old_first, shift, lo, c, spc, bps);
            }
        }
    } else {
        assert(moves =~= Seq::<ClusterMove>::empty());
        assert(move_ops(moves, bps, cluster_bytes) =~= Seq::<OpModel>::empty());
    }
}

/// Whether `cluster` is a data cluster of the volume that holds data:
/// its FAT entry is not free.
pub open spec fn in_use(v: Volume, cluster: int) -> bool {
    &&& 2 <= cluster < layout::data_clusters(v.boot) + 2
    &&& cluster < v.fat.len()
    &&& !fat_entry::spec_is_free(v.fat[cluster])
}

/// The bytes of cluster `cluster` on a device with bytes `image`, by the
/// geometry of boot sector `boot`.
pub open spec fn cluster_content(image: Seq<u8>, boot: Seq<u8>, cluster: int) -> Seq<u8> {
    image.subrange(
        layout::cluster_to_sector(boot, cluster) * layout::bytes_per_sector(boot),
        layout::cluster_to_sector(boot, cluster) * layout::bytes_per_sector(boot)
            + layout::sectors_per_cluster(boot) * layout::bytes_per_sector(boot),
    )
}

/// The three operations that open the first phase.
pub open spec fn shift_opening(v: Volume, calc: SizeCalculation) -> Seq<OpModel> {
    seq![
        checkpoint_write(v, calc, ResizePhase::Started),
        OpModel::Sync,
        OpModel::Reached(ProtocolPoint::AfterCheckpointStart),
    ]
}

/// The five operations that close the first phase.
pub open spec fn shift_closing(v: Volume, calc: SizeCalculation) -> Seq<OpModel> {
    seq![
        OpModel::Sync,
        OpModel::Reached(ProtocolPoint::AfterDataShift),
        checkpoint_write(v, calc, ResizePhase::DataCopied),
        OpModel::Sync,
        OpModel::Reached(ProtocolPoint::AfterCheckpointDataCopied),
    ]
}

/// Sector numbers in order give byte offsets in order.
pub proof fn lemma_scale(x: int, y: int, k: int)
    requires
        x <= y,
        k >= 0,
    ensures
        x * k <= y * k,
{
    assert(x * k <= y * k) by (nonlinear_arith)
        requires
            x <= y,
            k >= 0,
    ;
}

/// The bytes of `x + y` sectors are those of `x` and those of `y`.
pub proof fn lemma_distribute(x: int, y: int, k: int)
    ensures
        (x + y) * k == x * k + y * k,
{
    assert((x + y) * k == x * k + y * k) by (nonlinear_arith);
}

/// The checkpoint writes of the first phase leave alone what lies before
/// the last sector.
pub proof fn lemma_checkpoint_ops_keep(v: Volume, calc: SizeCalculation, lo: int, hi: int)
    requires
        hi <= v.checkpoint_offset(),
    ensures
        ops_keep(shift_opening(v, calc), lo, hi),
        ops_keep(shift_closing(v, calc), lo, hi),
{
    let opening = shift_opening(v, calc);
    assert forall|i: int| 0 <= i < opening.len() implies op_keeps(#[trigger] opening[i], lo, hi) by {
        if i == 0 {
        } else if i == 1 {
        } else {
        }
    }
    let closing = shift_closing(v, calc);
    assert forall|i: int| 0 <= i < closing.len() implies op_keeps(#[trigger] closing[i], lo, hi) by {
        if i == 0 {
        } else if i == 1 {
        } else if i == 2 {
        } else if i == 3 {
        } else {
        }
    }
}

/// The second phase leaves alone what lies behind the grown FATs and
/// before the last sector.
pub proof fn lemma_fat_ops_keep(v: Volume, calc: SizeCalculation, lo: int, hi: int)
    requires
        v.bps() >= 1,
        v.boot.len() == v.bps(),
        v.boot.len() >= layout::MIN_SECTOR_SIZE,
        1 <= v.reserved(),
        1 <= v.num_fats() <= 2,
        calc.new_fat_size >= calc.old_fat_size,
        (v.reserved() + v.num_fats() * calc.new_fat_size) * v.bps() <= lo,
        lo <= hi <= v.checkpoint_offset(),
    ensures
        ops_keep(fat_phase_ops(v, calc), lo, hi),
{
    let bps = v.bps();
    let r = v.reserved();
    let nf = v.num_fats();
    let old_fat = calc.old_fat_size as int;
    let new_fat = calc.new_fat_size as int;
    let area = r + nf * new_fat;
    assert(new_fat <= nf * new_fat && (nf >= 2 ==> 2 * new_fat <= nf * new_fat)) by (nonlinear_arith)
        requires
            1 <= nf,
            0 <= new_fat,
    ;
    lemma_scale(1, area, bps);
    lemma_scale(r + new_fat, area, bps);
    lemma_distribute(r + old_fat, new_fat - old_fat, bps);
    lemma_distribute(r + new_fat, new_fat, bps);
    if nf >= 2 {
        lemma_scale(r + new_fat + new_fat, area, bps);
    }
    let head = seq![
        OpModel::Write { offset: 0, data: invalidated_boot(v.boot) },
        OpModel::Sync,
        OpModel::Reached(ProtocolPoint::AfterBootInvalidate),
    ];
    let tail = seq![
        OpModel::Reached(ProtocolPoint::AfterFatWrite),
        checkpoint_write(v, calc, ResizePhase::FatWritten),
        OpModel::Sync,
        OpModel::Reached(ProtocolPoint::AfterCheckpointFatWritten),
    ];
    assert forall|i: int| 0 <= i < head.len() implies op_keeps(#[trigger] head[i], lo, hi) by {
        if i == 0 {
            assert(invalidated_boot(v.boot).len() == bps);
        } else if i == 1 {
        } else {
        }
    }
    assert forall|i: int| 0 <= i < tail.len() implies op_keeps(#[trigger] tail[i], lo, hi) by {
        if i == 0 {
        } else if i == 1 {
        } else if i == 2 {
        } else {
        }
    }
    let init = fat_init_ops(v, calc);
    assert forall|i: int| 0 <= i < init.len() implies op_keeps(#[trigger] init[i], lo, hi) by {
        assert(i == 0);
    }
    let sync = fat_sync_ops(v, calc);
    assert forall|i: int| 0 <= i < sync.len() implies op_keeps(#[trigger] sync[i], lo, hi) by {
        assert(i == 0);
    }
    lemma_keep_concat(head, init, lo, hi);
    lemma_keep_concat(head + init, sync, lo, hi);
    lemma_keep_concat(head + init + sync, tail, lo, hi);
    assert(fat_phase_ops(v, calc) == head + init + sync + tail);
}

/// The metadata update leaves alone what lies behind the reserved area
/// and before the last sector.
pub proof fn lemma_metadata_ops_keep(v: Volume, calc: SizeCalculation, lo: int, hi: int)
    requires
        v.bps() >= 1,
        v.boot.len() == v.bps(),
        v.boot.len() >= layout::MIN_SECTOR_SIZE,
        v.fsinfo.len() == v.bps(),
        metadata_apart(v.boot),
        v.reserved() * v.bps() <= lo,
        lo <= hi <= v.checkpoint_offset(),
    ensures
        ops_keep(metadata_ops(v, calc), lo, hi),
{
    let bps = v.bps();
    let r = v.reserved();
    let b = layout::backup_boot_sector(v.boot) as int;
    let f = layout::fs_info_sector(v.boot) as int;
    lemma_scale(1, r, bps);
    lemma_scale(b + 1, r, bps);
    lemma_scale(f + 1, r, bps);
    lemma_distribute(b, 1, bps);
    lemma_distribute(f, 1, bps);
    let metadata = metadata_ops(v, calc);
    lemma_final_boot_fields(v.boot, calc);
    assert(crate::resize::protocol::final_fsinfo(v, calc).len() == bps);
    assert forall|i: int| 0 <= i < metadata.len() implies op_keeps(
        #[trigger] metadata[i],
        lo,
        hi,
    ) by {
        if i == 0 {
        } else if i == 1 {
        } else if i == 2 {
        } else if i == 3 {
        } else {
        }
    }
}

/// Where a cluster in use lies before and after the resize, in bytes, and
/// that both places are on the device before its last sector.
pub proof fn lemma_cluster_range(
    v: Volume,
    calc: SizeCalculation,
    cluster: int,
    old_first: int,
    shift: int,
)
    requires
        v.bps() >= 1,
        v.spc() >= 1,
        old_first >= v.reserved() >= 1,
        shift >= 0,
        old_first + shift == v.reserved() + v.num_fats() * calc.new_fat_size,
        cluster >= 2,
        old_first + shift + (cluster - 2) * v.spc() + v.spc() <= v.device_sectors - 1,
    ensures
        ({
            let from = cluster_place(old_first, cluster, v.spc(), v.bps());
            let to = cluster_place(old_first + shift, cluster, v.spc(), v.bps());
            let len = v.spc() * v.bps();
            &&& v.reserved() * v.bps() <= from <= to
            &&& (v.reserved() + v.num_fats() * calc.new_fat_size) * v.bps() <= to
            &&& to == from + shift * v.bps()
            &&& len >= 1
            &&& to + len <= v.checkpoint_offset()
            &&& v.checkpoint_offset() >= 0
            &&& v.checkpoint_offset() + v.bps() == v.device_sectors * v.bps()
        }),
{
    let bps = v.bps();
    let spc = v.spc();
    let index = (cluster - 2) * spc;
    assert(index >= 0) by (nonlinear_arith)
        requires
            cluster >= 2,
            spc >= 1,
            index == (cluster - 2) * spc,
    ;
    lemma_cluster_places(old_first, shift, cluster, cluster, spc, bps);
    lemma_scale(v.reserved(), old_first + index, bps);
    lemma_scale(old_first + shift, old_first + shift + index, bps);
    lemma_distribute(old_first + shift + index, spc, bps);
    lemma_scale(old_first + shift + index + spc, v.device_sectors - 1, bps);
    lemma_distribute(v.device_sectors - 1, 1, bps);
    lemma_scale(0, v.device_sectors - 1, bps);
}

/// The run of the full protocol, with a data shift, leaves the content of
/// a cluster in use at the new place of the cluster.
#[verifier::rlimit(40)]
pub proof fn lemma_shift_keeps_cluster(
    image: Seq<u8>,
    v: Volume,
    calc: SizeCalculation,
    cluster: int,
    old_first: int,
    shift: int,
    limit: int,
)
    requires
        v.bps() >= 1,
        1 <= v.spc() <= 128,
        v.boot.len() == v.bps(),
        v.boot.len() >= layout::MIN_SECTOR_SIZE,
        v.fsinfo.len() == v.bps(),
        metadata_apart(v.boot),
        1 <= v.num_fats() <= 2,
        calc.new_fat_size >= calc.old_fat_size,
        v.reserved() <= old_first <= 0xFFFF + 2 * 0xFFFF_FFFF,
        0 < shift <= 2 * 0xFFFF_FFFF,
        old_first + shift == v.reserved() + v.num_fats() * calc.new_fat_size,
        2 <= cluster < limit,
        limit <= v.fat.len(),
        limit <= u32::MAX,
        !fat_entry::spec_is_free(v.fat[cluster]),
        v.moves(calc) == moves_desc(v.fat, 2, limit, old_first, shift, v.spc()),
        old_first + shift + (cluster - 2) * v.spc() + v.spc() <= v.device_sectors - 1,
        v.device_sectors * v.bps() <= image.len(),
        ops_fit(
            image.len() as int,
            shift_phase_ops(v, calc) + fat_phase_ops(v, calc) + metadata_ops(v, calc),
        ),
    ensures
        run_ops(
            image,
            shift_phase_ops(v, calc) + fat_phase_ops(v, calc) + metadata_ops(v, calc),
        ).subrange(
            cluster_place(old_first + shift, cluster, v.spc(), v.bps()),
            cluster_place(old_first + shift, cluster, v.spc(), v.bps()) + v.spc() * v.bps(),
        ) == image.subrange(
            cluster_place(old_first, cluster, v.spc(), v.bps()),
            cluster_place(old_first, cluster, v.spc(), v.bps()) + v.spc() * v.bps(),
        ),
{
    let size = image.len() as int;
    let bps = v.bps();
    let spc = v.spc();
    let from = cluster_place(old_first, cluster, spc, bps);
    let to = cluster_place(old_first + shift, cluster, spc, bps);
    let len = spc * bps;
    lemma_cluster_range(v, calc, cluster, old_first, shift);
    let opening = shift_opening(v, calc);
    let closing = shift_closing(v, calc);
    let moving = move_ops(v.moves(calc), bps, len);
    let writing = fat_phase_ops(v, calc);
    let metadata = metadata_ops(v, calc);
    let rest = closing + writing + metadata;
    let all = shift_phase_ops(v, calc) + writing + metadata;
    assert(shift_phase_ops(v, calc) =~= opening + moving + closing);
    assert(all =~= opening + (moving + rest));
    lemma_fit_concat(size, opening, moving + rest);
    lemma_fit_concat(size, moving, rest);
    let j0 = run_ops(image, opening);
    let j1 = run_ops(j0, moving);
    lemma_run_concat(image, opening, moving + rest);
    lemma_run_keeps_size(image, opening);
    lemma_run_concat(j0, moving, rest);
    lemma_run_keeps_size(j0, moving);
    assert(run_ops(image, all) == run_ops(j1, rest));
    lemma_checkpoint_ops_keep(v, calc, from, from + len);
    lemma_run_keeps(image, opening, from, from + len);
    assert(limit * spc <= 0xFFFF_FFFF * 128) by (nonlinear_arith)
        requires
            0 <= limit <= 0xFFFF_FFFF,
            1 <= spc <= 128,
    ;
    lemma_shift_moves(j0, v.fat, 2, limit, old_first, shift, spc, bps);
    assert(j1.subrange(to, to + len) == j0.subrange(from, from + len));
    lemma_checkpoint_ops_keep(v, calc, to, to + len);
    lemma_fat_ops_keep(v, calc, to, to + len);
    lemma_metadata_ops_keep(v, calc, to, to + len);
    lemma_keep_concat(closing, writing, to, to + len);
    lemma_keep_concat(closing + writing, metadata, to, to + len);
    lemma_run_keeps(j1, rest, to, to + len);
}

/// A successful resize of a clean volume performs the phases before the
/// metadata update and then the metadata update, and every operation fits
/// the device.
pub proof fn lemma_clean_outcome(image: Seq<u8>)
    requires
        is_clean_volume(image),
        resize_outcome(image, false).0.is_ok(),
    ensures
        ops_fit(
            image.len() as int,
            growth_ops(volume_of(image), calculation_of(image), ResizePhase::Started)
                + metadata_ops(volume_of(image), calculation_of(image)),
        ),
        resize_outcome(image, false).1 == run_ops(
            image,
            growth_ops(volume_of(image), calculation_of(image), ResizePhase::Started)
                + metadata_ops(volume_of(image), calculation_of(image)),
        ),
        new_size(boot_of(image), sectors_of(image) as u64).is_ok(),
        volume_of(image).fsinfo.len() == layout::bytes_per_sector(boot_of(image)),
{
    lemma_clean_run(image);
    lemma_clean_boot(image);
}

/// What the geometry of a clean volume and its calculation give for the
/// data shift: where the data area starts before and after, and that the
/// moves of the plan are those of the clusters in use.
pub proof fn lemma_shift_geometry(raw: Seq<u8>, fat: Seq<u32>, device_sectors: u64)
    requires
        raw.len() >= layout::MIN_SECTOR_SIZE,
        is_fat32_geometry(raw),
        new_size(raw, device_sectors).is_ok(),
        new_size(raw, device_sectors).unwrap().new_fat_size >= layout::fat_size(raw),
    ensures
        ({
            let calc = new_size(raw, device_sectors).unwrap();
            let shift = shift_sectors(raw, calc.fat_growth_sectors as int);
            let old_first = layout::first_data_sector(raw);
            &&& calc.old_fat_size == layout::fat_size(raw)
            &&& calc.first_affected_cluster == 2
            &&& calc.fat_needs_growth == (shift > 0)
            &&& 0 <= shift <= 2 * 0xFFFF_FFFF
            &&& layout::reserved_sectors(raw) <= old_first <= 0xFFFF + 2 * 0xFFFF_FFFF
            &&& old_first + shift == layout::reserved_sectors(raw) + layout::num_fats(raw)
                * calc.new_fat_size
            &&& old_first + shift == layout::first_data_sector(final_boot(raw, calc))
            &&& layout::sectors_per_cluster(final_boot(raw, calc)) == layout::sectors_per_cluster(
                raw,
            )
            &&& layout::bytes_per_sector(final_boot(raw, calc)) == layout::bytes_per_sector(raw)
            &&& plan_limit(raw, fat.len() as int) <= u32::MAX
            &&& plan_limit(raw, fat.len() as int) <= fat.len()
        }),
{
    let calc = new_size(raw, device_sectors).unwrap();
    lemma_fat32_geometry_defined(raw);
    lemma_final_boot_fields(raw, calc);
    lemma_final_boot_valid(raw, device_sectors);
    lemma_new_layout_fits(raw, device_sectors as u32);
    let nf = layout::num_fats(raw) as int;
    let r = layout::reserved_sectors(raw) as int;
    let old_fat = layout::fat_size(raw) as int;
    let new_fat = calc.new_fat_size as int;
    let growth = new_fat - old_fat;
    let shift = shift_sectors(raw, calc.fat_growth_sectors as int);
    assert(calc.fat_growth_sectors == growth);
    assert(nf * old_fat + growth * nf == nf * new_fat && 0 <= growth * nf <= 2 * 0xFFFF_FFFF
        && (growth > 0 <==> growth * nf > 0) && 0 <= nf * old_fat <= 2 * 0xFFFF_FFFF)
        by (nonlinear_arith)
        requires
            growth == new_fat - old_fat,
            0 <= growth <= 0xFFFF_FFFF,
            0 <= old_fat <= 0xFFFF_FFFF,
            1 <= nf <= 2,
    ;
}

/// A successful resize of a clean volume leaves the content of every
/// cluster in use where the boot sector of the grown volume puts that
/// cluster: cluster numbers stay, and so does what each cluster holds.
/// This holds where the metadata sectors lie apart, the FATs do not
/// shrink, and the cluster ends before the last sector of the device,
/// which the checkpoint takes.
#[verifier::rlimit(40)]
pub proof fn lemma_resize_keeps_cluster_content(image: Seq<u8>, cluster: int)
    requires
        is_clean_volume(image),
        resize_outcome(image, false).0.is_ok(),
        metadata_apart(boot_of(image)),
        calculation_of(image).new_fat_size >= layout::fat_size(boot_of(image)),
        in_use(volume_of(image), cluster),
        layout::cluster_to_sector(final_boot(boot_of(image), calculation_of(image)), cluster)
            + layout::sectors_per_cluster(boot_of(image)) <= sectors_of(image) - 1,
    ensures
        cluster_content(
            resize_outcome(image, false).1,
            final_boot(boot_of(image), calculation_of(image)),
            cluster,
        ) == cluster_content(image, boot_of(image), cluster),
{
    lemma_clean_boot(image);
    lemma_clean_outcome(image);
    let raw = boot_of(image);
    let v = volume_of(image);
    let calc = calculation_of(image);
    let size = image.len() as int;
    lemma_shift_geometry(raw, v.fat, sectors_of(image) as u64);
    lemma_fat32_geometry_defined(raw);
    let bps = v.bps();
    let spc = v.spc();
    let old_first = layout::first_data_sector(raw);
    let shift = shift_sectors(raw, calc.fat_growth_sectors as int);
    let limit = plan_limit(raw, v.fat.len() as int);
    let from = cluster_place(old_first, cluster, spc, bps);
    let to = cluster_place(old_first + shift, cluster, spc, bps);
    let len = spc * bps;
    let after_boot = final_boot(raw, calc);
    assert(layout::cluster_to_sector(raw, cluster) * layout::bytes_per_sector(raw) == from);
    assert(layout::cluster_to_sector(after_boot, cluster) * layout::bytes_per_sector(after_boot)
        == to);
    lemma_cluster_range(v, calc, cluster, old_first, shift);
    let growing = growth_ops(v, calc, ResizePhase::Started);
    let metadata = metadata_ops(v, calc);
    if shift == 0 {
        assert(growing =~= Seq::<OpModel>::empty());
        assert(growing + metadata =~= metadata);
        lemma_metadata_ops_keep(v, calc, to, to + len);
        lemma_run_keeps(image, metadata, to, to + len);
    } else {
        assert(v.moves(calc) == moves_desc(v.fat, 2, limit, old_first, shift, spc));
        assert(growing == shift_phase_ops(v, calc) + fat_phase_ops(v, calc));
        lemma_shift_keeps_cluster(image, v, calc, cluster, old_first, shift, limit);
    }
}

/// Whatever a dry run reads, the plan that it arrives at holds no
/// operation.
pub proof fn lemma_dry_run_plans_nothing(m: SessionModel, image: Seq<u8>)
    requires
        m.ok(),
        m.dry_run,
    ensures
        run_session(m, image).is_ok() ==> run_session(m, image).unwrap().ops.len() == 0,
    decreases 5 - crate::resize::executor::stage_rank(m.stage()),
{
    lemma_run_step(m, image);
    match m.pending_read() {
        None => {},
        Some((offset, len)) => {
            if in_range(image.len() as int, offset, len) {
                let data = image.subrange(offset, offset + len);
                lemma_advance(m, data);
                match m.advance(data) {
                    Ok(next) => {
                        lemma_dry_run_plans_nothing(next, image);
                    },
                    Err(_) => {},
                }
            }
        },
    }
}

/// A dry run leaves every byte of the device as it was.
pub proof fn lemma_dry_run_writes_nothing(image: Seq<u8>)
    ensures
        resize_outcome(image, true).1 == image,
{
    let m = SessionModel::initial(image.len() as u64, true);
    lemma_dry_run_plans_nothing(m, image);
    if run_session(m, image).is_ok() {
        let ops = run_session(m, image).unwrap().ops;
        assert(run_ops(image, ops) == image);
    }
}

/// A run that ends with an error before its plan is made leaves every
/// byte of the device as it was.
pub proof fn lemma_failed_run_writes_nothing(image: Seq<u8>, dry_run: bool)
    requires
        run_session(SessionModel::initial(image.len() as u64, dry_run), image).is_err(),
    ensures
        resize_outcome(image, dry_run).1 == image,
        resize_outcome(image, dry_run).0.is_err(),
{
}

} // verus!
