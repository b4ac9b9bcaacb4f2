//! The traversal driver: a state machine that walks the transaction graph
//! level by level.  The caller performs each requested fetch and hands the
//! outcome back; every decision — which addresses to fetch, what the report
//! says, what the next frontier is — is made here.
//!
//! One level runs as: [`Explorer::begin_level`] appends the marker line and
//! every qualifying recipient's fragment to the report and returns the
//! addresses to fetch; the caller fetches each, in order, reporting each
//! outcome through [`Explorer::record_fetch`]; [`Explorer::end_level`] then
//! collapses adjacent duplicates of the accumulated records into the next
//! frontier.  The run is over when [`Explorer::begin_level`] returns `None`,
//! which happens exactly after the chosen number of levels, whether or not
//! the frontier emptied earlier.

use vstd::prelude::*;
use crate::candidates::{
    CandidateModel, candidate_addrs, candidate_models, frontier_cands, level_candidates,
};
use crate::dedup::{dedup_adjacent, dedup_records};
use crate::model::{AddressRecord, RecordModel, record_models};
use crate::report::{
    append_fragment, append_marker, fragment_text, fragments_text, level_text,
    lemma_fragments_push, marker_text,
};

verus! {

/// The texts of a sequence of strings, in order.
pub open spec fn string_views(s: Seq<String>) -> Seq<Seq<char>> {
    Seq::new(s.len(), |i: int| s[i]@)
}

/// The traversal state: how deep to go and how far the run has come, the
/// report accumulated so far, the frontier being expanded, and the records
/// gathered for the next one.
pub struct Explorer {
    cutoff: u64,
    levels: usize,
    level: usize,
    in_level: bool,
    output: String,
    frontier: Vec<AddressRecord>,
    next: Vec<AddressRecord>,
}

/// Mathematical image of an [`Explorer`].
#[verifier::ext_equal]
pub struct ExplorerModel {
    pub cutoff: u64,
    pub levels: usize,
    pub level: usize,
    pub in_level: bool,
    pub output: Seq<char>,
    pub frontier: Seq<RecordModel>,
    pub next: Seq<RecordModel>,
}

impl View for Explorer {
    type V = ExplorerModel;

    closed spec fn view(&self) -> ExplorerModel {
        ExplorerModel {
            cutoff: self.cutoff,
            levels: self.levels,
            level: self.level,
            in_level: self.in_level,
            output: self.output@,
            frontier: record_models(self.frontier@),
            next: record_models(self.next@),
        }
    }
}

/// The state a fresh explorer starts in: the report holds the seed address
/// line alone, and the frontier holds the seed's record.
pub open spec fn initial_model(
    seed: Seq<char>,
    rec: RecordModel,
    levels: usize,
    cutoff: u64,
) -> ExplorerModel {
    ExplorerModel {
        cutoff: cutoff,
        levels: levels,
        level: 0,
        in_level: false,
        output: seed,
        frontier: seq![rec],
        next: Seq::empty(),
    }
}

impl Explorer {
    /// Starts a traversal of the given depth from the seed address, whose
    /// record the caller has already fetched (a failure there ends the whole
    /// run before any explorer exists).
    pub fn new(seed: String, seed_record: AddressRecord, levels: usize, cutoff: u64) -> (e:
        Explorer)
        ensures
            e@ == initial_model(seed@, seed_record@, levels, cutoff),
    {
        let ghost recm = seed_record@;
        let mut frontier: Vec<AddressRecord> = Vec::new();
        frontier.push(seed_record);
        let e = Explorer {
            cutoff,
            levels,
            level: 0,
            in_level: false,
            output: seed,
            frontier,
            next: Vec::new(),
        };
        proof {
            assert(record_models(e.frontier@) =~= seq![recm]);
            assert(record_models(e.next@) =~= Seq::<RecordModel>::empty());
            assert(e@ =~= initial_model(seed@, recm, levels, cutoff));
        }
        e
    }

    /// Opens the next level, if one is left to run.
    ///
    /// When the depth is exhausted nothing changes and `None` comes back; so
    /// with depth zero the report keeps the seed address line alone, with no
    /// level section.  Otherwise the marker line and one fragment per
    /// candidate — every receiver that carries an address, of every
    /// transaction strictly after the cutoff — are appended to the report,
    /// and exactly the candidates' addresses come back, in encounter order,
    /// for the caller to fetch.
    pub fn begin_level(&mut self) -> (r: Option<Vec<String>>)
        requires
            !old(self)@.in_level,
        ensures
            old(self)@.level >= old(self)@.levels ==> r is None && final(self)@ == old(self)@,
            old(self)@.level < old(self)@.levels ==> (match r {
                Some(addrs) => {
                    &&& final(self)@ == (ExplorerModel {
                        in_level: true,
                        next: Seq::empty(),
                        output: old(self)@.output + level_text(
                            old(self)@.frontier,
                            old(self)@.cutoff,
                            old(self)@.level as nat,
                        ),
                        ..old(self)@
                    })
                    &&& string_views(addrs@) == candidate_addrs(
                        frontier_cands(old(self)@.frontier, old(self)@.cutoff),
                    )
                },
                None => false,
            }),
    {
        if self.level >= self.levels {
            proof {
                assert(self@ =~= old(self)@);
            }
            return None;
        }
        let ghost pre = self@;
        append_marker(self.level as u64, &mut self.output);
        let cands = level_candidates(&self.frontier, self.cutoff);
        let ghost cmv = candidate_models(cands@);
        let ghost out_base = pre.output + marker_text(pre.level as nat);
        let mut addrs: Vec<String> = Vec::new();
        let mut idx: usize = 0;
        proof {
            assert(self.output@ =~= out_base + fragments_text(cmv.take(0)));
            assert(string_views(addrs@) =~= candidate_addrs(cmv.take(0)));
        }
        while idx < cands.len()
            invariant
                idx <= cands.len(),
                cmv == candidate_models(cands@),
                self.output@ == out_base + fragments_text(cmv.take(idx as int)),
                string_views(addrs@) == candidate_addrs(cmv.take(idx as int)),
                self.cutoff == pre.cutoff,
                self.levels == pre.levels,
                self.level == pre.level,
                self.in_level == pre.in_level,
                record_models(self.frontier@) == pre.frontier,
                record_models(self.next@) == pre.next,
            decreases cands.len() - idx,
        {
            let ghost addrs0 = string_views(addrs@);
            append_fragment(&cands[idx].addr, cands[idx].value, &mut self.output);
            addrs.push(cands[idx].addr.clone());
            proof {
                assert(cmv[idx as int] == cands@[idx as int]@);
                lemma_fragments_push(cmv.take(idx as int), cmv[idx as int]);
                assert(cmv.take(idx + 1) =~= cmv.take(idx as int).push(cmv[idx as int]));
                assert(fragment_text((CandidateModel {
                    addr: cands@[idx as int].addr@,
                    value: cands@[idx as int].value,
                })) == fragment_text(cmv[idx as int]));
                assert(self.output@ =~= out_base + fragments_text(cmv.take(idx + 1)));
                assert(string_views(addrs@) =~= addrs0.push(cands@[idx as int].addr@));
                assert(candidate_addrs(cmv.take(idx + 1)) =~= candidate_addrs(
                    cmv.take(idx as int),
                ).push(cmv[idx as int].addr));
                assert(string_views(addrs@) =~= candidate_addrs(cmv.take(idx + 1)));
            }
            idx += 1;
        }
        self.next.clear();
        self.in_level = true;
        proof {
            assert(cmv.take(cands@.len() as int) =~= cmv);
            assert(record_models(self.next@) =~= Seq::<RecordModel>::empty());
            assert(self@ =~= (ExplorerModel {
                in_level: true,
                next: Seq::empty(),
                output: pre.output + level_text(pre.frontier, pre.cutoff, pre.level as nat),
                ..pre
            }));
        }
        Some(addrs)
    }

    /// Records the outcome of one requested fetch: a retrieved record joins
    /// the accumulator for the next frontier; a failed fetch changes nothing
    /// — the candidate is dropped silently, the report and the rest of the
    /// state stay as they were.
    pub fn record_fetch(&mut self, outcome: Option<AddressRecord>)
        requires
            old(self)@.in_level,
        ensures
            (match outcome {
                Some(rec) => final(self)@ == (ExplorerModel {
                    next: old(self)@.next.push(rec@),
                    ..old(self)@
                }),
                None => final(self)@ == old(self)@,
            }),
    {
        let ghost pre = self@;
        match outcome {
            Some(rec) => {
                let ghost recm = rec@;
                self.next.push(rec);
                proof {
                    assert(record_models(self.next@) =~= pre.next.push(recm));
                    assert(self@ =~= (ExplorerModel { next: pre.next.push(recm), ..pre }));
                }
            },
            None => {
                proof {
                    assert(self@ =~= pre);
                }
            },
        }
    }

    /// Closes the level: the records gathered from successful fetches,
    /// with adjacent duplicates collapsed, become the frontier of the next
    /// level.
    pub fn end_level(&mut self)
        requires
            old(self)@.in_level,
            old(self)@.level < old(self)@.levels,
        ensures
            final(self)@ == (ExplorerModel {
                level: (old(self)@.level + 1) as usize,
                in_level: false,
                frontier: dedup_adjacent(old(self)@.next),
                next: Seq::empty(),
                ..old(self)@
            }),
    {
        let ghost pre = self@;
        let mut gathered: Vec<AddressRecord> = Vec::new();
        std::mem::swap(&mut gathered, &mut self.next);
        self.frontier = dedup_records(gathered);
        self.level = self.level + 1;
        self.in_level = false;
        proof {
            assert(record_models(self.next@) =~= Seq::<RecordModel>::empty());
            assert(self@ =~= (ExplorerModel {
                level: (pre.level + 1) as usize,
                in_level: false,
                frontier: dedup_adjacent(pre.next),
                next: Seq::empty(),
                ..pre
            }));
        }
    }

    /// Whether a level is open, between `begin_level` and `end_level`.
    pub fn is_mid_level(&self) -> (b: bool)
        ensures
            b == self@.in_level,
    {
        self.in_level
    }

    /// The index of the level `begin_level` would open next.
    pub fn current_level(&self) -> (n: usize)
        ensures
            n == self@.level,
    {
        self.level
    }

    /// The depth the traversal was started with.
    pub fn depth(&self) -> (n: usize)
        ensures
            n == self@.levels,
    {
        self.levels
    }

    /// How many records the current frontier holds.
    pub fn frontier_len(&self) -> (n: usize)
        ensures
            n == self@.frontier.len(),
    {
        self.frontier.len()
    }

    /// Gives up the explorer and hands out the accumulated report.
    pub fn into_output(self) -> (s: String)
        ensures
            s@ == self@.output,
    {
        self.output
    }
}

} // verus!
