//! The data shift for any plan whose moves fall by cluster number: every
//! cluster arrives at its new place with the bytes that it had, because no
//! move writes over what a later move has yet to read.

use crate::device::{lemma_run_keeps_size, lemma_run_push, op_fits, ops_fit, run_ops, OpModel};
use crate::fat32::layout::overwrite;
use crate::resize::laws::{cluster_place, lemma_cluster_places};
use crate::resize::relocator::{move_ops, ClusterMove};
use vstd::prelude::*;

verus! {

/// Whether a list of moves shifts data clusters forward by `shift`
/// sectors, from the highest cluster of the list down: every move starts
/// at the old place of its cluster, ends `shift` sectors further on, and
/// has a lower cluster number than the move before.
pub open spec fn is_shift_plan(moves: Seq<ClusterMove>, old_first: int, shift: int, spc: int) -> bool {
    &&& forall|i: int|
        0 <= i < moves.len() ==> {
            &&& (#[trigger] moves[i]).from_cluster >= 2
            &&& moves[i].from_sector == old_first + (moves[i].from_cluster - 2) * spc
            &&& moves[i].to_sector == moves[i].from_sector + shift
        }
    &&& forall|i: int, j: int|
        0 <= i < j < moves.len() ==> (#[trigger] moves[i]).from_cluster > (
        #[trigger] moves[j]).from_cluster
}

/// Performing a shift plan puts the bytes that each cluster of the plan
/// had before the first move at the new place of the cluster, and changes
/// no byte before the new place of the last cluster of the plan.
#[verifier::rlimit(40)]
pub proof fn lemma_shift_plan_keeps_clusters(
    bytes: Seq<u8>,
    moves: Seq<ClusterMove>,
    old_first: int,
    shift: int,
    spc: int,
    bps: int,
)
    requires
        is_shift_plan(moves, old_first, shift, spc),
        0 <= old_first,
        0 < shift,
        1 <= spc,
        1 <= bps,
        ops_fit(bytes.len() as int, move_ops(moves, bps, spc * bps)),
    ensures
        run_ops(bytes, move_ops(moves, bps, spc * bps)).len() == bytes.len(),
        forall|i: int|
            0 <= i < moves.len() ==> run_ops(bytes, move_ops(moves, bps, spc * bps)).subrange(
                (#[trigger] moves[i]).to_sector * bps,
                moves[i].to_sector * bps + spc * bps,
            ) == bytes.subrange(moves[i].from_sector * bps, moves[i].from_sector * bps + spc * bps),
        forall|p: int|
            0 <= p < bytes.len() && (moves.len() > 0 ==> p < moves.last().to_sector * bps)
                ==> #[trigger] run_ops(bytes, move_ops(moves, bps, spc * bps))[p] == bytes[p],
    decreases moves.len(),
{
    let size = bytes.len() as int;
    let len = spc * bps;
    let ops = move_ops(moves, bps, len);
    let after = run_ops(bytes, ops);
    lemma_run_keeps_size(bytes, ops);
    if moves.len() == 0 {
        assert(ops =~= Seq::<OpModel>::empty());
    } else {
        let n = moves.len() as int;
        let first = moves.drop_last();
        let last = moves.last();
        let first_ops = move_ops(first, bps, len);
        let c = last.from_cluster as int;
        let from = cluster_place(old_first, c, spc, bps);
        let to = cluster_place(old_first + shift, c, spc, bps);
        let copy = OpModel::Copy { from, to, len };
        assert(last == moves[n - 1]);
        assert(last.from_sector * bps == from && last.to_sector * bps == to);
        assert(ops =~= first_ops.push(copy));
        assert(is_shift_plan(first, old_first, shift, spc)) by {
            assert forall|i: int| 0 <= i < first.len() implies {
                &&& (#[trigger] first[i]).from_cluster >= 2
                &&& first[i].from_sector == old_first + (first[i].from_cluster - 2) * spc
                &&& first[i].to_sector == first[i].from_sector + shift
            } by {
                assert(first[i] == moves[i]);
            }
            assert forall|i: int, j: int| 0 <= i < j < first.len() implies (
            #[trigger] first[i]).from_cluster > (#[trigger] first[j]).from_cluster by {
                assert(first[i] == moves[i]);
                assert(first[j] == moves[j]);
            }
        }
        assert(ops_fit(size, first_ops)) by {
            assert forall|i: int| 0 <= i < first_ops.len() implies op_fits(
                size,
                #[trigger] first_ops[i],
            ) by {
                assert(ops[i] == first_ops[i]);
            }
        }
        assert(op_fits(size, copy)) by {
            assert(ops[n - 1] == copy);
        }
        lemma_shift_plan_keeps_clusters(bytes, first, old_first, shift, spc, bps);
        let mid = run_ops(bytes, first_ops);
        lemma_run_keeps_size(bytes, first_ops);
        lemma_run_push(bytes, first_ops, copy);
        assert(after == overwrite(mid, to, mid.subrange(from, from + len)));
        lemma_cluster_places(old_first, shift, c, c, spc, bps);
        assert((c - 2) * spc >= 0) by (nonlinear_arith)
            requires
                c >= 2,
                spc >= 1,
        ;
        // what the last move reads was not written by a move before it
        assert(mid.subrange(from, from + len) =~= bytes.subrange(from, from + len)) by {
            assert forall|p: int| from <= p < from + len implies #[trigger] mid[p] == bytes[p] by {
                if first.len() > 0 {
                    let before = first.last();
                    assert(before == moves[n - 2]);
                    let cb = before.from_cluster as int;
                    lemma_cluster_places(old_first, shift, c, cb, spc, bps);
                    lemma_cluster_places(old_first, shift, cb, cb, spc, bps);
                    assert(before.to_sector * bps == cluster_place(old_first + shift, cb, spc, bps));
                }
            }
        }
        assert forall|i: int| 0 <= i < moves.len() implies after.subrange(
            (#[trigger] moves[i]).to_sector * bps,
            moves[i].to_sector * bps + len,
        ) == bytes.subrange(moves[i].from_sector * bps, moves[i].from_sector * bps + len) by {
            if i == n - 1 {
                assert(after.subrange(to, to + len) =~= mid.subrange(from, from + len));
            } else {
                let m = moves[i];
                assert(first[i] == m);
                let ci = m.from_cluster as int;
                let target = cluster_place(old_first + shift, ci, spc, bps);
                assert(m.to_sector * bps == target);
                lemma_cluster_places(old_first + shift, 0, c, ci, spc, bps);
                // the place of an earlier move lies on the device
                assert(first_ops[i] == OpModel::Copy {
                    from: m.from_sector * bps,
                    to: m.to_sector * bps,
                    len,
                });
                assert(op_fits(size, first_ops[i]));
                assert(after.subrange(target, target + len) =~= mid.subrange(target, target + len));
            }
        }
        assert forall|p: int| 0 <= p < bytes.len() && p < to implies #[trigger] after[p]
            == bytes[p] by {
            assert(after[p] == mid[p]);
            if first.len() > 0 {
                let before = first.last();
                assert(before == moves[n - 2]);
                let cb = before.from_cluster as int;
                lemma_cluster_places(old_first + shift, 0, c, cb, spc, bps);
                assert(before.to_sector * bps == cluster_place(old_first + shift, cb, spc, bps));
            }
        }
    }
}

} // verus!
