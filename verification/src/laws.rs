//! Properties of the traversal that hold for every input, proved once and
//! for all: a depth of zero reports nothing beyond the seed line, every
//! candidate stems from a transaction strictly after the cutoff, and a
//! receiver without an address contributes nothing.

use vstd::prelude::*;
use crate::candidates::{CandidateModel, frontier_cands, outs_cands, receiver_cand, txs_cands};
use crate::dedup::dedup_adjacent;
use crate::explore::initial_model;
use crate::model::{ReceiverModel, RecordModel, TransactionModel};

verus! {

/// With depth zero a run is finished before it begins: the starting state is
/// already past its last level, and its report holds the seed address line
/// alone — no level section, no fragment.  (`Explorer::begin_level` leaves a
/// finished state untouched.)
pub proof fn lemma_depth_zero(seed: Seq<char>, rec: RecordModel, cutoff: u64)
    ensures
        initial_model(seed, rec, 0, cutoff).output == seed,
        initial_model(seed, rec, 0, cutoff).level
            >= initial_model(seed, rec, 0, cutoff).levels,
{
}

/// Every candidate a transaction sequence yields stems from a transaction
/// strictly after the cutoff; none derives from one at or before it.
pub proof fn lemma_txs_cands_after_cutoff(txs: Seq<TransactionModel>, cutoff: u64, i: int)
    requires
        0 <= i < txs_cands(txs, cutoff).len(),
    ensures
        exists|j: int|
            0 <= j < txs.len() && txs[j].time > cutoff && #[trigger] outs_cands(
                txs[j].out,
            ).contains(txs_cands(txs, cutoff)[i]),
    decreases txs.len(),
{
    let head: Seq<CandidateModel> = if txs[0].time > cutoff {
        outs_cands(txs[0].out)
    } else {
        Seq::empty()
    };
    if i < head.len() {
        assert(txs[0].time > cutoff);
        assert(txs_cands(txs, cutoff)[i] == head[i]);
        assert(outs_cands(txs[0].out).contains(txs_cands(txs, cutoff)[i]));
    } else {
        let rest = txs.drop_first();
        let i2 = i - head.len();
        assert(txs_cands(txs, cutoff)[i] == txs_cands(rest, cutoff)[i2]);
        lemma_txs_cands_after_cutoff(rest, cutoff, i2);
        let j2 = choose|j: int|
            0 <= j < rest.len() && rest[j].time > cutoff && #[trigger] outs_cands(
                rest[j].out,
            ).contains(txs_cands(rest, cutoff)[i2]);
        assert(txs[j2 + 1] == rest[j2]);
        assert(outs_cands(txs[j2 + 1].out).contains(txs_cands(txs, cutoff)[i]));
    }
}

/// Every candidate a frontier yields stems from a transaction of one of its
/// records strictly after the cutoff; no fragment and no fetch derives from
/// a transaction at or before it.
pub proof fn lemma_candidates_after_cutoff(fr: Seq<RecordModel>, cutoff: u64, i: int)
    requires
        0 <= i < frontier_cands(fr, cutoff).len(),
    ensures
        exists|k: int, j: int|
            0 <= k < fr.len() && 0 <= j < fr[k].txs.len() && fr[k].txs[j].time > cutoff
                && #[trigger] outs_cands(fr[k].txs[j].out).contains(
                frontier_cands(fr, cutoff)[i],
            ),
    decreases fr.len(),
{
    let head = txs_cands(fr[0].txs, cutoff);
    if i < head.len() {
        assert(frontier_cands(fr, cutoff)[i] == head[i]);
        lemma_txs_cands_after_cutoff(fr[0].txs, cutoff, i);
        let j0 = choose|j: int|
            0 <= j < fr[0].txs.len() && fr[0].txs[j].time > cutoff && #[trigger] outs_cands(
                fr[0].txs[j].out,
            ).contains(txs_cands(fr[0].txs, cutoff)[i]);
        assert(outs_cands(fr[0].txs[j0].out).contains(frontier_cands(fr, cutoff)[i]));
    } else {
        let rest = fr.drop_first();
        let i2 = i - head.len();
        assert(frontier_cands(fr, cutoff)[i] == frontier_cands(rest, cutoff)[i2]);
        lemma_candidates_after_cutoff(rest, cutoff, i2);
        let (k2, j2) = choose|k: int, j: int|
            0 <= k < rest.len() && 0 <= j < rest[k].txs.len() && rest[k].txs[j].time > cutoff
                && #[trigger] outs_cands(rest[k].txs[j].out).contains(
                frontier_cands(rest, cutoff)[i2],
            );
        assert(fr[k2 + 1] == rest[k2]);
        assert(outs_cands(fr[k2 + 1].txs[j2].out).contains(frontier_cands(fr, cutoff)[i]));
    }
}

/// A transaction sequence that lies wholly at or before the cutoff yields no
/// candidate at all.
pub proof fn lemma_stale_txs_empty(txs: Seq<TransactionModel>, cutoff: u64)
    requires
        forall|j: int| 0 <= j < txs.len() ==> #[trigger] txs[j].time <= cutoff,
    ensures
        txs_cands(txs, cutoff) == Seq::<CandidateModel>::empty(),
    decreases txs.len(),
{
    if txs.len() > 0 {
        assert(txs[0].time <= cutoff);
        let rest = txs.drop_first();
        assert(forall|j: int| 0 <= j < rest.len() ==> #[trigger] rest[j].time <= cutoff) by {
            assert(forall|j: int| 0 <= j < rest.len() ==> rest[j] == #[trigger] txs[j + 1]);
        }
        lemma_stale_txs_empty(rest, cutoff);
        assert(txs_cands(txs, cutoff) =~= Seq::<CandidateModel>::empty());
    }
}

/// A frontier whose transactions all lie at or before the cutoff yields no
/// candidate: the level's section of the report stays empty.
pub proof fn lemma_stale_frontier_empty(fr: Seq<RecordModel>, cutoff: u64)
    requires
        forall|k: int, j: int|
            0 <= k < fr.len() && 0 <= j < fr[k].txs.len() ==> #[trigger] fr[k].txs[j].time
                <= cutoff,
    ensures
        frontier_cands(fr, cutoff) == Seq::<CandidateModel>::empty(),
    decreases fr.len(),
{
    if fr.len() > 0 {
        lemma_stale_txs_empty(fr[0].txs, cutoff);
        let rest = fr.drop_first();
        assert(forall|k: int, j: int|
            0 <= k < rest.len() && 0 <= j < rest[k].txs.len() ==> #[trigger] rest[k].txs[j].time
                <= cutoff) by {
            assert(forall|k: int| 0 <= k < rest.len() ==> rest[k] == #[trigger] fr[k + 1]);
        }
        lemma_stale_frontier_empty(rest, cutoff);
        assert(frontier_cands(fr, cutoff) =~= Seq::<CandidateModel>::empty());
    }
}

/// Collapsing adjacent duplicates leaves no two equal records back to back;
/// a repeated record separated by a different one is retained, since only
/// the record kept last is compared against.
pub proof fn lemma_dedup_no_adjacent_duplicates(s: Seq<RecordModel>, i: int)
    requires
        0 <= i,
        i + 1 < dedup_adjacent(s).len(),
    ensures
        dedup_adjacent(s)[i] != dedup_adjacent(s)[i + 1],
    decreases s.len(),
{
    if s.len() > 0 {
        let d = dedup_adjacent(s.drop_last());
        if d.len() > 0 && d.last() == s.last() {
            lemma_dedup_no_adjacent_duplicates(s.drop_last(), i);
        } else {
            if i + 1 < d.len() {
                lemma_dedup_no_adjacent_duplicates(s.drop_last(), i);
            } else {
                assert(dedup_adjacent(s)[i] == d[d.len() - 1]);
                assert(dedup_adjacent(s)[i + 1] == s.last());
            }
        }
    }
}

/// A receiver without an address contributes nothing: removing it from a
/// transaction's outputs leaves the candidates — and with them the report's
/// fragments and the addresses handed out to fetch — unchanged.
pub proof fn lemma_addressless_receiver_dropped(outs: Seq<ReceiverModel>, i: int)
    requires
        0 <= i < outs.len(),
        outs[i].addr is None,
    ensures
        outs_cands(outs.remove(i)) == outs_cands(outs),
    decreases outs.len(),
{
    if i == 0 {
        assert(outs.remove(0) =~= outs.drop_first());
        assert(receiver_cand(outs[0]) =~= Seq::<CandidateModel>::empty());
        assert(outs_cands(outs.remove(0)) =~= outs_cands(outs));
    } else {
        lemma_addressless_receiver_dropped(outs.drop_first(), i - 1);
        assert(outs.remove(i).drop_first() =~= outs.drop_first().remove(i - 1));
        assert(outs.remove(i)[0] == outs[0]);
        assert(outs_cands(outs.remove(i)) =~= outs_cands(outs));
    }
}

} // verus!
