//! Adjacent-only deduplication of the next frontier: only back-to-back
//! structurally equal records collapse; a repeated record that is not
//! adjacent to its twin is kept, and will be processed again.

use vstd::prelude::*;
use crate::model::{AddressRecord, RecordModel, record_models};

verus! {

/// The result of collapsing adjacent structurally equal records: each record
/// is kept unless it equals the record kept just before it.
pub open spec fn dedup_adjacent(s: Seq<RecordModel>) -> Seq<RecordModel>
    decreases s.len(),
{
    if s.len() == 0 {
        Seq::empty()
    } else {
        let d = dedup_adjacent(s.drop_last());
        if d.len() > 0 && d.last() == s.last() {
            d
        } else {
            d.push(s.last())
        }
    }
}

/// Collapses adjacent structurally equal records, keeping the first of each
/// run; records repeated elsewhere in the sequence are retained.
pub fn dedup_records(v: Vec<AddressRecord>) -> (r: Vec<AddressRecord>)
    ensures
        record_models(r@) == dedup_adjacent(record_models(v@)),
{
    let ghost orig = record_models(v@);
    let mut rest = v;
    let mut out: Vec<AddressRecord> = Vec::new();
    proof {
        assert(record_models(rest@) =~= orig.subrange(0, orig.len() as int));
        assert(record_models(out@) =~= dedup_adjacent(orig.take(0)));
    }
    while rest.len() > 0
        invariant
            rest@.len() <= orig.len(),
            record_models(rest@) == orig.subrange(
                orig.len() - rest@.len(),
                orig.len() as int,
            ),
            record_models(out@) == dedup_adjacent(orig.take(orig.len() - rest@.len())),
        decreases rest.len(),
    {
        let ghost i = orig.len() - rest@.len();
        let ghost rest0 = rest@;
        let x = rest.remove(0);
        proof {
            assert(record_models(rest0)[0] == rest0[0]@);
            assert(x@ == orig[i]);
            assert(rest@ =~= rest0.remove(0));
            assert forall|m: int| 0 <= m < rest@.len() implies record_models(rest@)[m]
                == orig.subrange(i + 1, orig.len() as int)[m] by {
                assert(rest@[m] == rest0[m + 1]);
                assert(record_models(rest0)[m + 1] == rest0[m + 1]@);
            }
            assert(record_models(rest@) =~= orig.subrange(i + 1, orig.len() as int));
            assert(orig.take(i + 1).drop_last() =~= orig.take(i));
            assert(orig.take(i + 1).last() == orig[i]);
        }
        if out.len() == 0 {
            let ghost out0 = record_models(out@);
            out.push(x);
            proof {
                assert(record_models(out@) =~= out0.push(x@));
                assert(record_models(out@) =~= dedup_adjacent(orig.take(i + 1)));
            }
        } else {
            let last = out.len() - 1;
            if out[last].same_as(&x) {
                proof {
                    assert(record_models(out@).last() == x@);
                    assert(record_models(out@) =~= dedup_adjacent(orig.take(i + 1)));
                }
            } else {
                let ghost out0 = record_models(out@);
                proof {
                    assert(out0.last() != x@);
                }
                out.push(x);
                proof {
                    assert(record_models(out@) =~= out0.push(x@));
                    assert(record_models(out@) =~= dedup_adjacent(orig.take(i + 1)));
                }
            }
        }
    }
    proof {
        assert(orig.take(orig.len() as int) =~= orig);
    }
    out
}

} // verus!
