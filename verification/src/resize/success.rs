//! When a resize is owed success: on every clean volume whose backup boot
//! sector agrees with the primary, whose FSInfo sector is valid, and whose
//! calculation loses no cluster, the run arrives at its plan and every
//! operation of the plan fits the device.

use crate::device::{in_range, op_fits, ops_fit, OpModel};
use crate::error::Error;
use crate::fat32::layout;
use crate::fat32::operations::{parsed_fsinfo, sector_bytes};
use crate::fat32::validation::lemma_fat32_geometry_defined;
use crate::resize::calculator::{lemma_new_layout_fits, new_size, SizeCalculation};
use crate::resize::checkpoint::ResizePhase;
use crate::resize::executor::{lemma_run_to_plan, reads_of, resize_outcome, volume_read, Reads};
use crate::resize::laws::{
    boot_of, calculation_of, cluster_place, in_use, is_clean_volume, lemma_clean_boot,
    lemma_cluster_places, lemma_distribute, lemma_final_boot_fields, lemma_fit_concat, lemma_scale,
    lemma_shift_geometry, sector_of, sectors_of, shift_closing, shift_opening, volume_of,
};
use crate::resize::protocol::{
    fat_init_ops, fat_phase_ops, fat_sync_ops, final_fsinfo, growth_ops, invalidated_boot,
    metadata_ops, resize_ops, resize_result, shift_phase_ops, Volume,
};
use crate::resize::relocator::{
    lemma_moves_desc, lemma_moves_desc_complete, move_of, move_ops, moves_desc, plan_limit,
    shift_sectors,
};
use crate::resize::resume::lemma_checkpoint_sector_len;
use vstd::prelude::*;

verus! {

/// A clean volume that a resize can grow: the backup boot sector agrees
/// with the primary, the FSInfo sector is valid, the sizes can be
/// calculated, and the grown volume has no fewer clusters than the volume
/// has, so that every cluster has its place on the device.
pub open spec fn is_growable(image: Seq<u8>) -> bool {
    let raw = boot_of(image);
    let bps = layout::bytes_per_sector(raw) as u32;
    let backup = layout::backup_boot_sector(raw) as int;
    let fsinfo = layout::fs_info_sector(raw) as int;
    &&& is_clean_volume(image)
    &&& sector_bytes(image, bps, backup).is_some()
    &&& layout::same_geometry(raw, sector_of(image, backup))
    &&& sector_bytes(image, bps, fsinfo).is_some()
    &&& parsed_fsinfo(sector_of(image, fsinfo)) == Ok::<Seq<u8>, Error>(sector_of(image, fsinfo))
    &&& new_size(raw, sectors_of(image) as u64).is_ok()
    &&& calculation_of(image).new_data_clusters >= layout::data_clusters(raw)
}

/// Every move of a planned list stays on a device that holds the new
/// place of every cluster of the range.
pub proof fn lemma_moves_fit(
    fat: Seq<u32>,
    lo: int,
    hi: int,
    old_first: int,
    shift: int,
    spc: int,
    bps: int,
    size: int,
)
    requires
        2 <= lo,
        hi <= fat.len(),
        hi <= u32::MAX,
        0 <= old_first,
        0 <= shift,
        1 <= spc,
        1 <= bps,
        old_first + shift + hi * spc <= u64::MAX,
        lo < hi ==> cluster_place(old_first + shift, hi, spc, bps) <= size,
    ensures
        ops_fit(size, move_ops(moves_desc(fat, lo, hi, old_first, shift, spc), bps, spc * bps)),
{
    let moves = moves_desc(fat, lo, hi, old_first, shift, spc);
    let ops = move_ops(moves, bps, spc * bps);
    lemma_moves_desc(fat, lo, hi, old_first, shift, spc);
    assert forall|i: int| 0 <= i < ops.len() implies op_fits(size, #[trigger] ops[i]) by {
        let m = moves[i];
        let c = m.from_cluster as int;
        assert(m == move_of(c, old_first, shift, spc));
        assert(0 <= (c - 2) * spc <= hi * spc) by (nonlinear_arith)
            requires
                2 <= c < hi,
                spc >= 1,
        ;
        assert(m.from_sector == old_first + (c - 2) * spc);
        assert(m.to_sector == old_first + shift + (c - 2) * spc);
        lemma_cluster_places(old_first, shift, c, hi, spc, bps);
        lemma_cluster_places(old_first + shift, 0, c, hi, spc, bps);
        lemma_scale(0, old_first + (c - 2) * spc, bps);
    }
}

/// What the geometry of a volume gives for the places of its writes.
pub open spec fn writes_on_device(v: Volume, calc: SizeCalculation, size: int) -> bool {
    let bps = v.bps();
    let backup_at = layout::backup_boot_sector(v.boot) * bps;
    let fsinfo_at = layout::fs_info_sector(v.boot) * bps;
    &&& bps >= 512
    &&& v.boot.len() == bps
    &&& v.fsinfo.len() == bps
    &&& 1 <= v.num_fats() <= 2
    &&& 1 <= v.reserved()
    &&& in_range(size, backup_at, bps)
    &&& in_range(size, fsinfo_at, bps)
    &&& 0 <= v.checkpoint_offset()
    &&& v.checkpoint_offset() + bps <= size
    &&& calc.fat_needs_growth ==> {
        &&& calc.old_fat_size < calc.new_fat_size
        &&& (v.reserved() + v.num_fats() * calc.new_fat_size) * bps <= size
    }
}

/// The checkpoint writes of the first phase stay on the device.
pub proof fn lemma_checkpoints_fit(v: Volume, calc: SizeCalculation, size: int)
    requires
        writes_on_device(v, calc, size),
    ensures
        ops_fit(size, shift_opening(v, calc)),
        ops_fit(size, shift_closing(v, calc)),
{
    lemma_checkpoint_sector_len(v, calc, ResizePhase::Started);
    lemma_checkpoint_sector_len(v, calc, ResizePhase::DataCopied);
    let opening = shift_opening(v, calc);
    assert forall|i: int| 0 <= i < opening.len() implies op_fits(size, #[trigger] opening[i]) by {
        if i == 0 {
        } else if i == 1 {
        } else {
        }
    }
    let closing = shift_closing(v, calc);
    assert forall|i: int| 0 <= i < closing.len() implies op_fits(size, #[trigger] closing[i]) by {
        if i == 0 {
        } else if i == 1 {
        } else if i == 2 {
        } else if i == 3 {
        } else {
        }
    }
}

/// The second phase stays on the device.
pub proof fn lemma_fat_phase_fits(v: Volume, calc: SizeCalculation, size: int)
    requires
        writes_on_device(v, calc, size),
        calc.fat_needs_growth,
        v.boot.len() >= layout::MIN_SECTOR_SIZE,
    ensures
        ops_fit(size, fat_phase_ops(v, calc)),
{
    let bps = v.bps();
    let r = v.reserved();
    let nf = v.num_fats();
    let old_fat = calc.old_fat_size as int;
    let new_fat = calc.new_fat_size as int;
    lemma_checkpoint_sector_len(v, calc, ResizePhase::FatWritten);
    assert(new_fat <= nf * new_fat && (nf >= 2 ==> 2 * new_fat <= nf * new_fat)) by (nonlinear_arith)
        requires
            1 <= nf,
            0 <= new_fat,
    ;
    lemma_distribute(r + old_fat, new_fat - old_fat, bps);
    lemma_distribute(r + new_fat, new_fat, bps);
    lemma_distribute(r, new_fat, bps);
    lemma_scale(0, r, bps);
    lemma_scale(0, r + old_fat, bps);
    lemma_scale(0, new_fat, bps);
    lemma_scale(0, new_fat - old_fat, bps);
    lemma_scale(r, r + new_fat, bps);
    lemma_scale(r + new_fat, r + nf * new_fat, bps);
    if nf >= 2 {
        lemma_scale(r + new_fat + new_fat, r + nf * new_fat, bps);
    }
    let ops = fat_phase_ops(v, calc);
    let head = seq![
        OpModel::Write { offset: 0, data: invalidated_boot(v.boot) },
        OpModel::Sync,
        OpModel::Reached(crate::device::ProtocolPoint::AfterBootInvalidate),
    ];
    let init = fat_init_ops(v, calc);
    let sync = fat_sync_ops(v, calc);
    let tail = seq![
        OpModel::Reached(crate::device::ProtocolPoint::AfterFatWrite),
        crate::resize::protocol::checkpoint_write(v, calc, ResizePhase::FatWritten),
        OpModel::Sync,
        OpModel::Reached(crate::device::ProtocolPoint::AfterCheckpointFatWritten),
    ];
    assert(invalidated_boot(v.boot).len() == bps);
    assert forall|i: int| 0 <= i < head.len() implies op_fits(size, #[trigger] head[i]) by {
        if i == 0 {
        } else if i == 1 {
        } else {
        }
    }
    assert forall|i: int| 0 <= i < init.len() implies op_fits(size, #[trigger] init[i]) by {
        assert(i == 0);
    }
    assert forall|i: int| 0 <= i < sync.len() implies op_fits(size, #[trigger] sync[i]) by {
        assert(i == 0);
    }
    assert forall|i: int| 0 <= i < tail.len() implies op_fits(size, #[trigger] tail[i]) by {
        if i == 0 {
        } else if i == 1 {
        } else if i == 2 {
        } else {
        }
    }
    lemma_fit_concat(size, head, init);
    lemma_fit_concat(size, head + init, sync);
    lemma_fit_concat(size, head + init + sync, tail);
    assert(ops == head + init + sync + tail);
}

/// The metadata update stays on the device.
pub proof fn lemma_metadata_fits(v: Volume, calc: SizeCalculation, size: int)
    requires
        writes_on_device(v, calc, size),
    ensures
        ops_fit(size, metadata_ops(v, calc)),
{
    let ops = metadata_ops(v, calc);
    lemma_final_boot_fields(v.boot, calc);
    assert(final_fsinfo(v, calc).len() == v.bps());
    assert forall|i: int| 0 <= i < ops.len() implies op_fits(size, #[trigger] ops[i]) by {
        if i == 0 {
        } else if i == 1 {
        } else if i == 2 {
        } else if i == 3 {
        } else {
        }
    }
}

/// Everything that a run from the first phase on writes stays on the
/// device, where the new place of every cluster does.
pub proof fn lemma_run_fits(
    v: Volume,
    calc: SizeCalculation,
    size: int,
    old_first: int,
    shift: int,
    limit: int,
)
    requires
        writes_on_device(v, calc, size),
        v.boot.len() >= layout::MIN_SECTOR_SIZE,
        1 <= v.spc(),
        calc.fat_needs_growth ==> {
            &&& 0 <= old_first
            &&& 0 < shift
            &&& limit <= v.fat.len()
            &&& limit <= u32::MAX
            &&& old_first + shift + limit * v.spc() <= u64::MAX
            &&& v.moves(calc) == moves_desc(v.fat, 2, limit, old_first, shift, v.spc())
            &&& 2 < limit ==> cluster_place(old_first + shift, limit, v.spc(), v.bps()) <= size
        },
    ensures
        ops_fit(size, resize_ops(v, calc, ResizePhase::Started, false)),
{
    lemma_metadata_fits(v, calc, size);
    let metadata = metadata_ops(v, calc);
    if calc.fat_needs_growth {
        lemma_checkpoints_fit(v, calc, size);
        lemma_fat_phase_fits(v, calc, size);
        lemma_moves_fit(v.fat, 2, limit, old_first, shift, v.spc(), v.bps(), size);
        let opening = shift_opening(v, calc);
        let moving = move_ops(v.moves(calc), v.bps(), v.spc() * v.bps());
        let closing = shift_closing(v, calc);
        lemma_fit_concat(size, opening, moving);
        lemma_fit_concat(size, opening + moving, closing);
        assert(shift_phase_ops(v, calc) =~= opening + moving + closing);
        lemma_fit_concat(size, shift_phase_ops(v, calc), fat_phase_ops(v, calc));
        lemma_fit_concat(size, shift_phase_ops(v, calc) + fat_phase_ops(v, calc), metadata);
    } else {
        assert(growth_ops(v, calc, ResizePhase::Started) + metadata =~= metadata);
    }
}

/// What a growable volume gives for the places of the writes of a run.
pub proof fn lemma_growable_places(image: Seq<u8>)
    requires
        is_growable(image),
    ensures
        writes_on_device(volume_of(image), calculation_of(image), image.len() as int),
        calculation_of(image).fat_needs_growth ==> {
            let raw = boot_of(image);
            let v = volume_of(image);
            let calc = calculation_of(image);
            let old_first = layout::first_data_sector(raw);
            let shift = shift_sectors(raw, calc.fat_growth_sectors as int);
            let limit = plan_limit(raw, v.fat.len() as int);
            &&& 0 <= old_first
            &&& 0 < shift
            &&& limit <= v.fat.len()
            &&& limit <= u32::MAX
            &&& old_first + shift + limit * v.spc() <= u64::MAX
            &&& v.moves(calc) == moves_desc(v.fat, 2, limit, old_first, shift, v.spc())
            &&& 2 < limit ==> cluster_place(old_first + shift, limit, v.spc(), v.bps())
                <= image.len()
        },
{
    lemma_clean_boot(image);
    let raw = boot_of(image);
    let v = volume_of(image);
    let calc = calculation_of(image);
    let sectors = sectors_of(image);
    let bps = v.bps();
    let spc = v.spc();
    let r = v.reserved();
    let nf = v.num_fats();
    let new_fat = calc.new_fat_size as int;
    lemma_fat32_geometry_defined(raw);
    lemma_new_layout_fits(raw, sectors as u32);
    crate::resize::calculator::lemma_size_errors(raw, sectors as u64);
    lemma_scale(0, sectors - 1, bps);
    lemma_distribute(sectors - 1, 1, bps);
    lemma_scale(r + nf * new_fat, sectors, bps);
    if calc.fat_needs_growth {
        lemma_shift_geometry(raw, v.fat, sectors as u64);
        let old_first = layout::first_data_sector(raw);
        let shift = shift_sectors(raw, calc.fat_growth_sectors as int);
        let limit = plan_limit(raw, v.fat.len() as int);
        let old_clusters = layout::data_clusters(raw);
        let new_clusters = calc.new_data_clusters as int;
        let rest = sectors - r - nf * new_fat;
        assert(new_clusters * spc <= rest) by (nonlinear_arith)
            requires
                new_clusters == rest / spc,
                rest >= 0,
                spc >= 1,
        ;
        assert((limit - 2) * spc <= new_clusters * spc && limit * spc <= 0xFFFF_FFFF * 128)
            by (nonlinear_arith)
            requires
                limit - 2 <= old_clusters <= new_clusters,
                0 <= limit <= 0xFFFF_FFFF,
                1 <= spc <= 128,
        ;
        lemma_scale(old_first + shift + (limit - 2) * spc, sectors, bps);
    }
}

/// What a run reads of a growable volume: all of it, without a
/// checkpoint.
pub proof fn lemma_growable_reads(image: Seq<u8>)
    requires
        is_growable(image),
    ensures
        reads_of(
            image,
            Reads {
                boot: boot_of(image),
                checkpoint: None,
                fsinfo: volume_of(image).fsinfo,
                calculation: calculation_of(image),
            },
        ),
        volume_read(
            image,
            Reads {
                boot: boot_of(image),
                checkpoint: None,
                fsinfo: volume_of(image).fsinfo,
                calculation: calculation_of(image),
            },
        ) == volume_of(image),
{
    lemma_clean_boot(image);
}

/// Success is owed: a resize of a growable volume succeeds, with the
/// result of the plan for the whole device.
pub proof fn lemma_resize_succeeds(image: Seq<u8>)
    requires
        is_growable(image),
    ensures
        resize_outcome(image, false).0 == Ok::<crate::resize::protocol::ResultModel, Error>(
            resize_result(volume_of(image), calculation_of(image), None, false),
        ),
{
    let reads = Reads {
        boot: boot_of(image),
        checkpoint: None,
        fsinfo: volume_of(image).fsinfo,
        calculation: calculation_of(image),
    };
    lemma_growable_reads(image);
    lemma_run_to_plan(image, reads);
    lemma_growable_places(image);
    let raw = boot_of(image);
    let v = volume_of(image);
    let calc = calculation_of(image);
    lemma_clean_boot(image);
    lemma_fat32_geometry_defined(raw);
    lemma_run_fits(
        v,
        calc,
        image.len() as int,
        layout::first_data_sector(raw),
        shift_sectors(raw, calc.fat_growth_sectors as int),
        plan_limit(raw, v.fat.len() as int),
    );
}

/// A resize of a growable volume whose FATs are shorter than the grown
/// volume needs reports the growth: the FATs grew by at least a sector,
/// the new size is larger than the old, and where a cluster is in use, at
/// least one cluster was moved.
pub proof fn lemma_growth_is_reported(image: Seq<u8>)
    requires
        is_growable(image),
        calculation_of(image).new_fat_size > layout::fat_size(boot_of(image)),
    ensures
        resize_outcome(image, false).0.is_ok(),
        resize_outcome(image, false).0.unwrap().fat_grew,
        resize_outcome(image, false).0.unwrap().calculation.fat_growth_sectors > 0,
        resize_outcome(image, false).0.unwrap().calculation.new_fat_size > layout::fat_size(
            boot_of(image),
        ),
        resize_outcome(image, false).0.unwrap().new_size_bytes > resize_outcome(
            image,
            false,
        ).0.unwrap().old_size_bytes,
        forall|cluster: int|
            in_use(volume_of(image), cluster) ==> resize_outcome(
                image,
                false,
            ).0.unwrap().clusters_relocated >= 1,
{
    lemma_resize_succeeds(image);
    lemma_clean_boot(image);
    let raw = boot_of(image);
    let v = volume_of(image);
    let calc = calculation_of(image);
    let sectors = sectors_of(image);
    let bps = v.bps();
    lemma_fat32_geometry_defined(raw);
    crate::resize::calculator::lemma_size_errors(raw, sectors as u64);
    lemma_shift_geometry(raw, v.fat, sectors as u64);
    assert(calc.old_total_sectors * bps < calc.new_total_sectors * bps && calc.new_total_sectors
        * bps <= 0xFFFF_FFFF * 4096) by (nonlinear_arith)
        requires
            0 <= calc.old_total_sectors < calc.new_total_sectors <= 0xFFFF_FFFF,
            512 <= bps <= 4096,
    ;
    let old_first = layout::first_data_sector(raw);
    let shift = shift_sectors(raw, calc.fat_growth_sectors as int);
    let limit = plan_limit(raw, v.fat.len() as int);
    lemma_moves_desc(v.fat, 2, limit, old_first, shift, v.spc());
    assert forall|cluster: int| in_use(v, cluster) implies v.moves(calc).len() >= 1 by {
        lemma_moves_desc_complete(v.fat, 2, limit, old_first, shift, v.spc(), cluster);
    }
}

} // verus!
