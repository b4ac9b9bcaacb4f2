//! Extraction of expansion candidates from a frontier: the time filter over
//! transactions and the collection of every addressed receiver, in encounter
//! order.

use vstd::prelude::*;
use crate::model::{AddressRecord, ReceiverModel, RecordModel, TransactionModel, record_models};

verus! {

/// One expansion candidate: the recipient address to fetch next and the value
/// its fragment reports.
pub struct Candidate {
    pub addr: String,
    pub value: i64,
}

/// Mathematical image of a [`Candidate`].
#[verifier::ext_equal]
pub struct CandidateModel {
    pub addr: Seq<char>,
    pub value: i64,
}

impl View for Candidate {
    type V = CandidateModel;

    open spec fn view(&self) -> CandidateModel {
        CandidateModel { addr: self.addr@, value: self.value }
    }
}

/// The images of a sequence of candidates, in order.
pub open spec fn candidate_models(s: Seq<Candidate>) -> Seq<CandidateModel> {
    Seq::new(s.len(), |i: int| s[i]@)
}

/// The addresses of a sequence of candidates, in order.
pub open spec fn candidate_addrs(cs: Seq<CandidateModel>) -> Seq<Seq<char>> {
    Seq::new(cs.len(), |i: int| cs[i].addr)
}

/// The candidate a single receiver contributes: one entry when it carries an
/// address, none otherwise.
pub open spec fn receiver_cand(r: ReceiverModel) -> Seq<CandidateModel> {
    match r.addr {
        Some(a) => seq![CandidateModel { addr: a, value: r.value }],
        None => Seq::empty(),
    }
}

/// The candidates of one transaction's outputs, in output order.
pub open spec fn outs_cands(outs: Seq<ReceiverModel>) -> Seq<CandidateModel>
    decreases outs.len(),
{
    if outs.len() == 0 {
        Seq::empty()
    } else {
        receiver_cand(outs[0]) + outs_cands(outs.drop_first())
    }
}

/// The candidates of a sequence of transactions: only those strictly after
/// the cutoff contribute, each its outputs' candidates in order.
pub open spec fn txs_cands(txs: Seq<TransactionModel>, cutoff: u64) -> Seq<CandidateModel>
    decreases txs.len(),
{
    if txs.len() == 0 {
        Seq::empty()
    } else {
        (if txs[0].time > cutoff {
            outs_cands(txs[0].out)
        } else {
            Seq::empty()
        }) + txs_cands(txs.drop_first(), cutoff)
    }
}

/// The candidates one frontier yields: each record's candidates in record
/// order.
pub open spec fn frontier_cands(fr: Seq<RecordModel>, cutoff: u64) -> Seq<CandidateModel>
    decreases fr.len(),
{
    if fr.len() == 0 {
        Seq::empty()
    } else {
        txs_cands(fr[0].txs, cutoff) + frontier_cands(fr.drop_first(), cutoff)
    }
}

/// Extending the outputs by one receiver extends the candidates by that
/// receiver's contribution.
pub proof fn lemma_outs_cands_push(outs: Seq<ReceiverModel>, r: ReceiverModel)
    ensures
        outs_cands(outs.push(r)) == outs_cands(outs) + receiver_cand(r),
    decreases outs.len(),
{
    if outs.len() == 0 {
        assert(outs.push(r)[0] == r);
        assert(outs.push(r).drop_first() =~= outs);
        assert(outs_cands(outs.push(r)) =~= outs_cands(outs) + receiver_cand(r));
    } else {
        assert(outs.push(r).drop_first() =~= outs.drop_first().push(r));
        lemma_outs_cands_push(outs.drop_first(), r);
        assert(outs.push(r)[0] == outs[0]);
        assert(outs_cands(outs.push(r)) =~= outs_cands(outs) + receiver_cand(r));
    }
}

/// Extending the transactions by one extends the candidates by that
/// transaction's contribution, which is empty at or before the cutoff.
pub proof fn lemma_txs_cands_push(txs: Seq<TransactionModel>, t: TransactionModel, cutoff: u64)
    ensures
        txs_cands(txs.push(t), cutoff) == txs_cands(txs, cutoff) + (if t.time > cutoff {
            outs_cands(t.out)
        } else {
            Seq::empty()
        }),
    decreases txs.len(),
{
    if txs.len() == 0 {
        assert(txs.push(t)[0] == t);
        assert(txs.push(t).drop_first() =~= txs);
        assert(txs_cands(txs.push(t), cutoff) =~= txs_cands(txs, cutoff) + (if t.time > cutoff {
            outs_cands(t.out)
        } else {
            Seq::empty()
        }));
    } else {
        assert(txs.push(t).drop_first() =~= txs.drop_first().push(t));
        lemma_txs_cands_push(txs.drop_first(), t, cutoff);
        assert(txs.push(t)[0] == txs[0]);
        assert(txs_cands(txs.push(t), cutoff) =~= txs_cands(txs, cutoff) + (if t.time > cutoff {
            outs_cands(t.out)
        } else {
            Seq::empty()
        }));
    }
}

/// Extending the frontier by one record extends the candidates by that
/// record's contribution.
pub proof fn lemma_frontier_cands_push(fr: Seq<RecordModel>, r: RecordModel, cutoff: u64)
    ensures
        frontier_cands(fr.push(r), cutoff) == frontier_cands(fr, cutoff) + txs_cands(
            r.txs,
            cutoff,
        ),
    decreases fr.len(),
{
    if fr.len() == 0 {
        assert(fr.push(r)[0] == r);
        assert(fr.push(r).drop_first() =~= fr);
        assert(frontier_cands(fr.push(r), cutoff) =~= frontier_cands(fr, cutoff) + txs_cands(
            r.txs,
            cutoff,
        ));
    } else {
        assert(fr.push(r).drop_first() =~= fr.drop_first().push(r));
        lemma_frontier_cands_push(fr.drop_first(), r, cutoff);
        assert(fr.push(r)[0] == fr[0]);
        assert(frontier_cands(fr.push(r), cutoff) =~= frontier_cands(fr, cutoff) + txs_cands(
            r.txs,
            cutoff,
        ));
    }
}

/// Collects every expansion candidate of a frontier: for each record, each
/// transaction strictly after the cutoff, and each of its receivers that
/// carries an address, in encounter order.
pub fn level_candidates(frontier: &Vec<AddressRecord>, cutoff: u64) -> (r: Vec<Candidate>)
    ensures
        candidate_models(r@) == frontier_cands(record_models(frontier@), cutoff),
{
    let ghost frv = record_models(frontier@);
    let mut acc: Vec<Candidate> = Vec::new();
    let mut i: usize = 0;
    assert(candidate_models(acc@) =~= frontier_cands(frv.take(0), cutoff));
    while i < frontier.len()
        invariant
            i <= frontier.len(),
            frv == record_models(frontier@),
            candidate_models(acc@) == frontier_cands(frv.take(i as int), cutoff),
        decreases frontier.len() - i,
    {
        let ghost txv = frv[i as int].txs;
        let mut j: usize = 0;
        assert(txs_cands(txv.take(0), cutoff) =~= Seq::<CandidateModel>::empty());
        assert(candidate_models(acc@) =~= frontier_cands(frv.take(i as int), cutoff) + txs_cands(
            txv.take(0),
            cutoff,
        ));
        while j < frontier[i].txs.len()
            invariant
                i < frontier.len(),
                j <= frontier@[i as int].txs.len(),
                frv == record_models(frontier@),
                txv == frv[i as int].txs,
                candidate_models(acc@) == frontier_cands(frv.take(i as int), cutoff) + txs_cands(
                    txv.take(j as int),
                    cutoff,
                ),
            decreases frontier@[i as int].txs.len() - j,
        {
            assert(txv[j as int] == frontier@[i as int]@.txs[j as int]);
            if frontier[i].txs[j].time > cutoff {
                let ghost outv = txv[j as int].out;
                let mut k: usize = 0;
                assert(outs_cands(outv.take(0)) =~= Seq::<CandidateModel>::empty());
                let ghost base = frontier_cands(frv.take(i as int), cutoff) + txs_cands(
                    txv.take(j as int),
                    cutoff,
                );
                assert(candidate_models(acc@) =~= base + outs_cands(outv.take(0)));
                while k < frontier[i].txs[j].out.len()
                    invariant
                        i < frontier.len(),
                        j < frontier@[i as int].txs.len(),
                        k <= frontier@[i as int].txs@[j as int].out.len(),
                        frv == record_models(frontier@),
                        txv == frv[i as int].txs,
                        outv == txv[j as int].out,
                        base == frontier_cands(frv.take(i as int), cutoff) + txs_cands(
                            txv.take(j as int),
                            cutoff,
                        ),
                        candidate_models(acc@) == base + outs_cands(outv.take(k as int)),
                    decreases frontier@[i as int].txs@[j as int].out.len() - k,
                {
                    assert(outv[k as int]
                        == frontier@[i as int].txs@[j as int].out@[k as int]@);
                    match &frontier[i].txs[j].out[k].addr {
                        Some(a) => {
                            let c = Candidate {
                                addr: a.clone(),
                                value: frontier[i].txs[j].out[k].value,
                            };
                            proof {
                                assert(c@ == (CandidateModel {
                                    addr: outv[k as int].addr->0,
                                    value: outv[k as int].value,
                                }));
                            }
                            let ghost acc0 = candidate_models(acc@);
                            acc.push(c);
                            proof {
                                assert(candidate_models(acc@) =~= acc0.push(c@));
                                lemma_outs_cands_push(outv.take(k as int), outv[k as int]);
                                assert(outv.take(k + 1) =~= outv.take(k as int).push(
                                    outv[k as int],
                                ));
                                assert(receiver_cand(outv[k as int]) =~= seq![c@]);
                                assert(candidate_models(acc@) =~= base + outs_cands(
                                    outv.take(k + 1),
                                ));
                            }
                        }
                        None => {
                            proof {
                                lemma_outs_cands_push(outv.take(k as int), outv[k as int]);
                                assert(outv.take(k + 1) =~= outv.take(k as int).push(
                                    outv[k as int],
                                ));
                                assert(receiver_cand(outv[k as int])
                                    =~= Seq::<CandidateModel>::empty());
                                assert(candidate_models(acc@) =~= base + outs_cands(
                                    outv.take(k + 1),
                                ));
                            }
                        }
                    }
                    k += 1;
                }
                proof {
                    assert(outv.take(outv.len() as int) =~= outv);
                    lemma_txs_cands_push(txv.take(j as int), txv[j as int], cutoff);
                    assert(txv.take(j + 1) =~= txv.take(j as int).push(txv[j as int]));
                    assert(candidate_models(acc@) =~= frontier_cands(frv.take(i as int), cutoff)
                        + txs_cands(txv.take(j + 1), cutoff));
                }
            } else {
                proof {
                    lemma_txs_cands_push(txv.take(j as int), txv[j as int], cutoff);
                    assert(txv.take(j + 1) =~= txv.take(j as int).push(txv[j as int]));
                    assert(candidate_models(acc@) =~= frontier_cands(frv.take(i as int), cutoff)
                        + txs_cands(txv.take(j + 1), cutoff));
                }
            }
            j += 1;
        }
        proof {
            assert(txv.take(txv.len() as int) =~= txv);
            lemma_frontier_cands_push(frv.take(i as int), frv[i as int], cutoff);
            assert(frv.take(i + 1) =~= frv.take(i as int).push(frv[i as int]));
            assert(candidate_models(acc@) =~= frontier_cands(frv.take(i + 1), cutoff));
        }
        i += 1;
    }
    proof {
        assert(frv.take(frv.len() as int) =~= frv);
    }
    acc
}

} // verus!
