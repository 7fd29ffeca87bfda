//! The data-shift planner.
//!
//! When each FAT grows by `k` sectors, the data area starts `k * num_fats`
//! sectors further on. Cluster numbers stay; only the sectors of every
//! cluster that holds data move. The plan lists those moves from the
//! highest cluster down, so that no move writes over a sector that a later
//! move still has to read.

use crate::device::{Device, DeviceOp, OpModel};
use crate::error::Error;
use crate::fat32::fat_entry;
use crate::fat32::layout;
use crate::fat32::structs::BootSector;
use vstd::prelude::*;

verus! {

/// The move of one cluster to its new sectors. The cluster number stays.
#[derive(Debug, Clone, Copy, PartialEq, Eq)]
pub struct ClusterMove {
    /// The cluster number.
    pub from_cluster: u32,
    /// The cluster number after the move: the same.
    pub to_cluster: u32,
    /// The first sector of the cluster before the move.
    pub from_sector: u64,
    /// The first sector of the cluster after the move.
    pub to_sector: u64,
}

/// The moves of a resize, highest cluster first.
#[derive(Debug)]
pub struct RelocationPlan {
    /// One move for each cluster that holds data.
    pub moves: Vec<ClusterMove>,
    /// The bytes that the moves copy in all.
    pub total_bytes: u64,
    /// The first sector of the data area before the resize.
    pub old_first_data_sector: u64,
    /// The first sector of the data area after the resize.
    pub new_first_data_sector: u64,
}

impl RelocationPlan {
    /// Whether there is nothing to move.
    pub fn is_empty(&self) -> (r: bool)
        ensures
            r == (self.moves@.len() == 0),
    {
        self.moves.len() == 0
    }

    /// The number of clusters to move.
    pub fn cluster_count(&self) -> (r: usize)
        ensures
            r == self.moves@.len(),
    {
        self.moves.len()
    }
}

/// The move of cluster `cluster` when the data area, which starts at
/// sector `old_first`, shifts forward by `shift` sectors.
pub open spec fn move_of(cluster: int, old_first: int, shift: int, spc: int) -> ClusterMove {
    ClusterMove {
        from_cluster: cluster as u32,
        to_cluster: cluster as u32,
        from_sector: (old_first + (cluster - 2) * spc) as u64,
        to_sector: (old_first + shift + (cluster - 2) * spc) as u64,
    }
}

/// The moves of the clusters `lo .. hi` whose FAT entry is not free, from
/// the highest cluster down.
pub open spec fn moves_desc(
    fat: Seq<u32>,
    lo: int,
    hi: int,
    old_first: int,
    shift: int,
    spc: int,
) -> Seq<ClusterMove>
    decreases hi - lo,
{
    if lo >= hi {
        Seq::empty()
    } else {
        let higher = moves_desc(fat, lo + 1, hi, old_first, shift, spc);
        if fat_entry::spec_is_free(fat[lo]) {
            higher
        } else {
            higher.push(move_of(lo, old_first, shift, spc))
        }
    }
}

/// The first cluster number that the planner does not look at: the end of
/// the data clusters, or of the FAT in memory where that is shorter.
pub open spec fn plan_limit(raw: Seq<u8>, fat_len: int) -> int {
    if fat_len < layout::data_clusters(raw) + 2 {
        fat_len
    } else {
        layout::data_clusters(raw) + 2
    }
}

/// The sectors by which the data area shifts when each FAT grows by
/// `fat_growth_sectors`.
pub open spec fn shift_sectors(raw: Seq<u8>, fat_growth_sectors: int) -> int {
    fat_growth_sectors * layout::num_fats(raw)
}

/// The moves that the planner lists for the volume of boot sector `raw`
/// with FAT `fat`: none where nothing shifts.
pub open spec fn planned_moves(
    raw: Seq<u8>,
    fat: Seq<u32>,
    first_affected: int,
    fat_growth_sectors: int,
) -> Seq<ClusterMove> {
    if shift_sectors(raw, fat_growth_sectors) == 0 {
        Seq::empty()
    } else {
        moves_desc(
            fat,
            first_affected,
            plan_limit(raw, fat.len() as int),
            layout::first_data_sector(raw),
            shift_sectors(raw, fat_growth_sectors),
            layout::sectors_per_cluster(raw) as int,
        )
    }
}

/// A planned list holds at most one move for each cluster in the range,
/// each for a cluster of the range that is not free, and the cluster
/// numbers fall strictly along the list.
pub proof fn lemma_moves_desc(fat: Seq<u32>, lo: int, hi: int, old_first: int, shift: int, spc: int)
    requires
        0 <= lo,
        hi <= fat.len(),
        hi <= u32::MAX,
    ensures
        moves_desc(fat, lo, hi, old_first, shift, spc).len() <= if hi >= lo {
            hi - lo
        } else {
            0
        },
        forall|i: int|
            #![trigger moves_desc(fat, lo, hi, old_first, shift, spc)[i]]
            0 <= i < moves_desc(fat, lo, hi, old_first, shift, spc).len() ==> {
                let m = moves_desc(fat, lo, hi, old_first, shift, spc)[i];
                &&& lo <= m.from_cluster < hi
                &&& !fat_entry::spec_is_free(fat[m.from_cluster as int])
                &&& m == move_of(m.from_cluster as int, old_first, shift, spc)
            },
        forall|i: int, j: int|
            #![trigger moves_desc(fat, lo, hi, old_first, shift, spc)[i], moves_desc(fat, lo, hi, old_first, shift, spc)[j]]
            0 <= i < j < moves_desc(fat, lo, hi, old_first, shift, spc).len() ==> moves_desc(
                fat,
                lo,
                hi,
                old_first,
                shift,
                spc,
            )[i].from_cluster > moves_desc(fat, lo, hi, old_first, shift, spc)[j].from_cluster,
    decreases hi - lo,
{
    if lo < hi {
        lemma_moves_desc(fat, lo + 1, hi, old_first, shift, spc);
    }
}

/// Every cluster of the range that is not free has its move in the list.
pub proof fn lemma_moves_desc_complete(
    fat: Seq<u32>,
    lo: int,
    hi: int,
    old_first: int,
    shift: int,
    spc: int,
    cluster: int,
)
    requires
        0 <= lo <= cluster < hi,
        hi <= fat.len(),
        !fat_entry::spec_is_free(fat[cluster]),
    ensures
        moves_desc(fat, lo, hi, old_first, shift, spc).contains(
            move_of(cluster, old_first, shift, spc),
        ),
    decreases hi - lo,
{
    let higher = moves_desc(fat, lo + 1, hi, old_first, shift, spc);
    if cluster == lo {
        let all = higher.push(move_of(lo, old_first, shift, spc));
        assert(all[higher.len() as int] == move_of(lo, old_first, shift, spc));
    } else {
        lemma_moves_desc_complete(fat, lo + 1, hi, old_first, shift, spc, cluster);
        let m = move_of(cluster, old_first, shift, spc);
        let i = choose|i: int| 0 <= i < higher.len() && higher[i] == m;
        if !fat_entry::spec_is_free(fat[lo]) {
            assert(higher.push(move_of(lo, old_first, shift, spc))[i] == m);
        }
    }
}

/// Plans the data shift for FATs that grow by `fat_growth_sectors` each:
/// one move for every cluster from `first_affected` on whose FAT entry is
/// not free, from the highest cluster down. Free clusters are skipped.
pub fn plan_relocation(
    boot: &BootSector,
    fat: &[u32],
    first_affected: u32,
    fat_growth_sectors: u32,
) -> (r: Result<RelocationPlan, Error>)
    requires
        boot.wf(),
        layout::geometry_defined(boot@),
        layout::data_clusters(boot@) + 2 <= u32::MAX,
        first_affected >= 2,
    ensures
        r.is_ok(),
        is_plan_for(
            r.unwrap(),
            boot@,
            fat@,
            first_affected as int,
            fat_growth_sectors as int,
        ),
{
    Ok(relocation_plan(boot, fat, first_affected, fat_growth_sectors))
}

/// Whether `plan` is the plan of the data shift for the volume of boot
/// sector `raw` with FAT `fat`.
pub open spec fn is_plan_for(
    plan: RelocationPlan,
    raw: Seq<u8>,
    fat: Seq<u32>,
    first_affected: int,
    fat_growth_sectors: int,
) -> bool {
    &&& plan.moves@ == planned_moves(raw, fat, first_affected, fat_growth_sectors)
    &&& plan.total_bytes == plan.moves@.len() * layout::bytes_per_cluster(raw)
    &&& plan.old_first_data_sector == layout::first_data_sector(raw)
    &&& plan.new_first_data_sector == layout::first_data_sector(raw) + shift_sectors(
        raw,
        fat_growth_sectors,
    )
}

/// The plan of the data shift; planning cannot fail.
pub fn relocation_plan(
    boot: &BootSector,
    fat: &[u32],
    first_affected: u32,
    fat_growth_sectors: u32,
) -> (plan: RelocationPlan)
    requires
        boot.wf(),
        layout::geometry_defined(boot@),
        layout::data_clusters(boot@) + 2 <= u32::MAX,
        first_affected >= 2,
    ensures
        is_plan_for(plan, boot@, fat@, first_affected as int, fat_growth_sectors as int),
{
    let old_first_data_sector: u64 = boot.first_data_sector();
    let spc: u64 = boot.sectors_per_cluster() as u64;
    let num_fats: u64 = boot.num_fats() as u64;
    assert(fat_growth_sectors * num_fats <= 0xFFFF_FFFF * 255) by (nonlinear_arith)
        requires
            fat_growth_sectors <= 0xFFFF_FFFF,
            num_fats <= 255,
    ;
    let shift: u64 = fat_growth_sectors as u64 * num_fats;
    assert(layout::num_fats(boot@) * layout::fat_size(boot@) <= 255 * 0xFFFF_FFFF)
        by (nonlinear_arith)
        requires
            layout::num_fats(boot@) <= 255,
            layout::fat_size(boot@) <= 0xFFFF_FFFF,
    ;
    let new_first_data_sector: u64 = old_first_data_sector + shift;
    let old_max_cluster: u64 = boot.data_clusters() as u64 + 2;
    let limit: u64 = if (fat.len() as u64) < old_max_cluster {
        fat.len() as u64
    } else {
        old_max_cluster
    };
    let lo: u64 = first_affected as u64;
    let mut moves: Vec<ClusterMove> = Vec::new();
    if shift != 0 && lo < limit {
        let mut cluster: u64 = limit;
        while cluster > lo
            invariant
                2 <= lo <= cluster <= limit,
                limit <= fat@.len(),
                limit <= u32::MAX,
                spc <= 255,
                old_first_data_sector <= 0xFFFF + 255 * 0xFFFF_FFFF + 65535 * 33,
                shift <= 0xFFFF_FFFF * 255,
                new_first_data_sector == old_first_data_sector + shift,
                moves@ == moves_desc(
                    fat@,
                    cluster as int,
                    limit as int,
                    old_first_data_sector as int,
                    shift as int,
                    spc as int,
                ),
                moves@.len() <= limit - cluster,
            decreases cluster,
        {
            cluster -= 1;
            let ghost higher = moves_desc(
                fat@,
                cluster + 1,
                limit as int,
                old_first_data_sector as int,
                shift as int,
                spc as int,
            );
            assert(moves_desc(
                fat@,
                cluster as int,
                limit as int,
                old_first_data_sector as int,
                shift as int,
                spc as int,
            ) == if fat_entry::spec_is_free(fat@[cluster as int]) {
                higher
            } else {
                higher.push(
                    move_of(cluster as int, old_first_data_sector as int, shift as int, spc as int),
                )
            });
            if !fat_entry::is_free(fat[cluster as usize]) {
                let index: u64 = cluster - 2;
                assert(index * spc <= 0xFFFF_FFFF * 255) by (nonlinear_arith)
                    requires
                        index <= 0xFFFF_FFFF,
                        spc <= 255,
                ;
                let old_sector: u64 = old_first_data_sector + index * spc;
                let new_sector: u64 = new_first_data_sector + index * spc;
                moves.push(
                    ClusterMove {
                        from_cluster: cluster as u32,
                        to_cluster: cluster as u32,
                        from_sector: old_sector,
                        to_sector: new_sector,
                    },
                );
            }
        }
    }
    let bytes_per_cluster: u64 = boot.bytes_per_cluster() as u64;
    assert(layout::bytes_per_sector(boot@) * layout::sectors_per_cluster(boot@) <= 65535 * 255)
        by (nonlinear_arith)
        requires
            layout::bytes_per_sector(boot@) <= 65535,
            layout::sectors_per_cluster(boot@) <= 255,
    ;
    let count: u64 = moves.len() as u64;
    assert(count * bytes_per_cluster <= 0xFFFF_FFFF * (65535 * 255)) by (nonlinear_arith)
        requires
            count <= 0xFFFF_FFFF,
            bytes_per_cluster <= 65535 * 255,
    ;
    let total_bytes: u64 = count * bytes_per_cluster;
    RelocationPlan { moves, total_bytes, old_first_data_sector, new_first_data_sector }
}

/// The copies that perform a list of moves on a device with sectors of
/// `sector_size` bytes and clusters of `cluster_bytes` bytes.
pub open spec fn move_ops(moves: Seq<ClusterMove>, sector_size: int, cluster_bytes: int) -> Seq<
    OpModel,
> {
    Seq::new(
        moves.len(),
        |i: int|
            OpModel::Copy {
                from: moves[i].from_sector * sector_size,
                to: moves[i].to_sector * sector_size,
                len: cluster_bytes,
            },
    )
}

/// Whether the byte offsets of every move fit in 64 bits.
pub open spec fn moves_addressable(moves: Seq<ClusterMove>, sector_size: int) -> bool {
    forall|i: int|
        0 <= i < moves.len() ==> (#[trigger] moves[i]).from_sector * sector_size <= u64::MAX
            && moves[i].to_sector * sector_size <= u64::MAX
}

/// Appends to `ops` the copies that perform the moves of the plan, in the
/// order of the plan.
pub fn push_move_ops(
    ops: &mut Vec<DeviceOp>,
    plan: &RelocationPlan,
    sectors_per_cluster: u8,
    sector_size: u32,
)
    requires
        moves_addressable(plan.moves@, sector_size as int),
    ensures
        crate::device::ops_model(final(ops)@) == crate::device::ops_model(old(ops)@) + move_ops(
            plan.moves@,
            sector_size as int,
            sectors_per_cluster * sector_size,
        ),
{
    assert(sectors_per_cluster * sector_size <= 255 * 0xFFFF_FFFF) by (nonlinear_arith)
        requires
            sectors_per_cluster <= 255,
            sector_size <= 0xFFFF_FFFF,
    ;
    let cluster_bytes: u64 = sectors_per_cluster as u64 * sector_size as u64;
    let ghost target = move_ops(plan.moves@, sector_size as int, cluster_bytes as int);
    let ghost before = crate::device::ops_model(old(ops)@);
    let n: usize = plan.moves.len();
    let mut i: usize = 0;
    while i < n
        invariant
            i <= n,
            n == plan.moves@.len(),
            moves_addressable(plan.moves@, sector_size as int),
            target == move_ops(plan.moves@, sector_size as int, cluster_bytes as int),
            crate::device::ops_model(ops@) == before + target.subrange(0, i as int),
        decreases n - i,
    {
        let m: ClusterMove = plan.moves[i];
        let ghost prev = ops@;
        ops.push(
            DeviceOp::Copy {
                from: m.from_sector * sector_size as u64,
                to: m.to_sector * sector_size as u64,
                len: cluster_bytes,
            },
        );
        assert(crate::device::ops_model(ops@) =~= crate::device::ops_model(prev).push(
            target[i as int],
        ));
        assert(before + target.subrange(0, i + 1) =~= (before + target.subrange(0, i as int)).push(
            target[i as int],
        ));
        i += 1;
    }
    assert(target.subrange(0, n as int) =~= target);
}

/// Shifts the data: performs every move of the plan on the device, from
/// the first of the list to the last, and syncs. No FAT entry and no
/// directory entry is touched, since no cluster number changes; the list
/// of renumbered clusters that is returned is therefore empty.
pub fn execute_relocation(device: &mut Device, boot: &BootSector, plan: &RelocationPlan) -> (r:
    Result<Vec<(u32, u32)>, Error>)
    requires
        old(device).wf(),
        boot.wf(),
        moves_addressable(plan.moves@, old(device).spec_sector_size() as int),
    ensures
        final(device).wf(),
        final(device).spec_sector_size() == old(device).spec_sector_size(),
        final(device)@ == crate::device::run_ops(
            old(device)@,
            move_ops(
                plan.moves@,
                old(device).spec_sector_size() as int,
                layout::sectors_per_cluster(boot@) * old(device).spec_sector_size(),
            ),
        ),
        r.is_ok() <==> crate::device::ops_fit(
            old(device)@.len() as int,
            move_ops(
                plan.moves@,
                old(device).spec_sector_size() as int,
                layout::sectors_per_cluster(boot@) * old(device).spec_sector_size(),
            ),
        ),
        r.is_ok() ==> r.unwrap()@.len() == 0,
        r.is_err() ==> r == Err::<Vec<(u32, u32)>, Error>(
            Error::Io(crate::error::IoFault::OutOfRange),
        ),
{
    let mut ops: Vec<DeviceOp> = Vec::new();
    push_move_ops(&mut ops, plan, boot.sectors_per_cluster(), device.sector_size());
    assert(crate::device::ops_model(ops@) =~= move_ops(
        plan.moves@,
        old(device).spec_sector_size() as int,
        layout::sectors_per_cluster(boot@) * old(device).spec_sector_size(),
    ));
    match device.apply_all(ops.as_slice()) {
        Ok(()) => {
            let _ = device.sync();
            Ok(Vec::new())
        },
        Err(e) => Err(e),
    }
}

/// The check after the data shift. Since the shift frees no cluster, there
/// is nothing to check, and this always succeeds.
pub fn verify_relocation(fat: &[u32], first_affected: u32, last_affected: u32) -> (r: Result<
    (),
    Error,
>)
    ensures
        r.is_ok(),
{
    Ok(())
}

} // verus!
