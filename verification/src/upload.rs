//! The upload pipeline's bookkeeping: a sliding window of at most `limit`
//! uploads in flight over an ordered queue of local paths, per-item
//! outcomes recorded in completion order — which is not input order — and a
//! first-error-wins aggregate. The machine decides what may start and
//! records what finished; performing an upload is the caller's concern.
use crate::text::{str_eq, views_of};
use crate::user::UserError;
use vstd::prelude::*;

verus! {

/// One file's outcome, correlated by the path captured at dispatch time.
pub struct UploadOutcome {
    pub path: String,
    /// The remote URL on success, the first failure of this upload else.
    pub result: Result<String, UserError>,
}

/// The paths of a sequence of outcomes, in completion order.
pub open spec fn outcome_paths(os: Seq<UploadOutcome>) -> Seq<Seq<char>> {
    os.map_values(|o: UploadOutcome| o.path@)
}

/// The bounded-concurrency upload batch.
pub struct UploadBatch {
    /// The ordered input queue; never reordered.
    pub paths: Vec<String>,
    /// The window bound: at most this many uploads run at once.
    pub limit: usize,
    /// How many of `paths` have been started, in order.
    pub dispatched: usize,
    /// The paths started and not yet completed.
    pub in_flight: Vec<String>,
    /// The per-item outcomes, in completion order.
    pub outcomes: Vec<UploadOutcome>,
}

impl UploadBatch {
    /// The batch invariant: the window never exceeds its bound, and the
    /// outcomes together with the uploads still in flight account for
    /// exactly the dispatched prefix of the queue — nothing lost, nothing
    /// invented, correlated by path.
    pub open spec fn wf(&self) -> bool {
        &&& self.limit >= 1
        &&& self.dispatched <= self.paths@.len()
        &&& self.in_flight@.len() <= self.limit
        &&& self.outcomes@.len() + self.in_flight@.len() == self.dispatched
        &&& outcome_paths(self.outcomes@).to_multiset().add(
            views_of(self.in_flight@).to_multiset(),
        ) == views_of(self.paths@.subrange(0, self.dispatched as int)).to_multiset()
    }

    /// A fresh batch over `paths` with window bound `limit`.
    pub fn new(paths: Vec<String>, limit: usize) -> (r: UploadBatch)
        requires
            limit >= 1,
        ensures
            r.wf(),
            r.paths@ == paths@,
            r.limit == limit,
            r.dispatched == 0,
            r.in_flight@.len() == 0,
            r.outcomes@.len() == 0,
    {
        let r = UploadBatch {
            paths,
            limit,
            dispatched: 0,
            in_flight: Vec::new(),
            outcomes: Vec::new(),
        };
        proof {
            broadcast use vstd::seq_lib::group_to_multiset_ensures;
            broadcast use vstd::multiset::group_multiset_axioms;

            assert(r.paths@.subrange(0, 0) =~= Seq::<String>::empty());
            assert(views_of(Seq::<String>::empty()) =~= Seq::<Seq<char>>::empty());
            assert(outcome_paths(Seq::<UploadOutcome>::empty()) =~= Seq::<Seq<char>>::empty());
            let em = Seq::<Seq<char>>::empty().to_multiset();
            assert(em.len() == 0);
            vstd::multiset::lemma_multiset_empty_len(em);
            assert(em.add(em) =~= em);
        }
        r
    }

    /// Whether the next queued upload may start: something is queued and
    /// the window has room.
    pub fn can_start(&self) -> (r: bool)
        ensures
            r <==> (self.dispatched < self.paths@.len() && self.in_flight@.len() < self.limit),
    {
        self.dispatched < self.paths.len() && self.in_flight.len() < self.limit
    }

    /// Starts the next queued upload if the window has room, handing back
    /// the path to upload; the window bound is never exceeded.
    pub fn start_next(&mut self) -> (r: Option<String>)
        requires
            old(self).wf(),
        ensures
            final(self).wf(),
            final(self).in_flight@.len() <= final(self).limit,
            final(self).paths@ == old(self).paths@,
            final(self).limit == old(self).limit,
            final(self).outcomes@ == old(self).outcomes@,
            r is Some <==> (old(self).dispatched < old(self).paths@.len()
                && old(self).in_flight@.len() < old(self).limit),
            r matches Some(p) ==> (p@ == old(self).paths@[old(self).dispatched as int]@
                && final(self).dispatched == old(self).dispatched + 1
                && final(self).in_flight@ == old(self).in_flight@.push(p)
                && final(self).in_flight@.len() == old(self).in_flight@.len() + 1),
            r is None ==> *final(self) == *old(self),
    {
        if self.dispatched < self.paths.len() && self.in_flight.len() < self.limit {
            let ghost old_in_flight = self.in_flight@;
            let ghost old_dispatched = self.dispatched as int;
            let p = self.paths[self.dispatched].clone();
            let handed = p.clone();
            self.in_flight.push(p);
            self.dispatched = self.dispatched + 1;
            proof {
                broadcast use vstd::seq_lib::group_to_multiset_ensures;
                broadcast use vstd::multiset::group_multiset_axioms;

                let x = self.paths@[old_dispatched]@;
                assert(views_of(self.in_flight@) =~= views_of(old_in_flight).push(x));
                assert(self.paths@.subrange(0, old_dispatched + 1) =~= self.paths@.subrange(
                    0,
                    old_dispatched,
                ).push(self.paths@[old_dispatched]));
                assert(views_of(
                    self.paths@.subrange(0, old_dispatched).push(self.paths@[old_dispatched]),
                ) =~= views_of(self.paths@.subrange(0, old_dispatched)).push(x));
                let om = outcome_paths(self.outcomes@).to_multiset();
                let fm = views_of(old_in_flight).to_multiset();
                let pm = views_of(self.paths@.subrange(0, old_dispatched)).to_multiset();
                assert(views_of(old_in_flight).push(x).to_multiset() =~= fm.insert(x));
                assert(views_of(self.paths@.subrange(0, old_dispatched)).push(x).to_multiset()
                    =~= pm.insert(x));
                assert(om.add(fm.insert(x)) =~= pm.insert(x)) by {
                    assert(om.add(fm) == pm);
                }
            }
            Some(handed)
        } else {
            None
        }
    }

    /// Records a completed upload by its dispatch-time path; the upload
    /// leaves the window and its outcome joins the completion-order list.
    pub fn complete(&mut self, path: String, result: Result<String, UserError>)
        requires
            old(self).wf(),
            views_of(old(self).in_flight@).contains(path@),
        ensures
            final(self).wf(),
            final(self).paths@ == old(self).paths@,
            final(self).limit == old(self).limit,
            final(self).dispatched == old(self).dispatched,
            final(self).outcomes@ == old(self).outcomes@.push(
                (UploadOutcome { path, result }),
            ),
            final(self).in_flight@.len() == old(self).in_flight@.len() - 1,
    {
        let ghost old_in_flight = self.in_flight@;
        let ghost old_outcomes = self.outcomes@;
        let idx = find_path_index(&self.in_flight, path.as_str());
        self.in_flight.remove(idx);
        let ghost o = UploadOutcome { path: path, result: result };
        self.outcomes.push(UploadOutcome { path, result });
        proof {
            broadcast use vstd::seq_lib::group_to_multiset_ensures;
            broadcast use vstd::multiset::group_multiset_axioms;

            let x = o.path@;
            assert(self.outcomes@ == old_outcomes.push(o));
            assert(outcome_paths(self.outcomes@) =~= outcome_paths(old_outcomes).push(x));
            assert(self.in_flight@ == old_in_flight.remove(idx as int));
            assert(views_of(self.in_flight@) =~= views_of(old_in_flight).remove(idx as int));
            assert(views_of(old_in_flight).remove(idx as int).to_multiset() =~= views_of(
                old_in_flight,
            ).to_multiset().remove(views_of(old_in_flight)[idx as int]));
            assert(views_of(old_in_flight)[idx as int] == x);
            let om = outcome_paths(old_outcomes).to_multiset();
            let fm = views_of(old_in_flight).to_multiset();
            let pm = views_of(
                self.paths@.subrange(0, self.dispatched as int),
            ).to_multiset();
            assert(outcome_paths(old_outcomes).push(x).to_multiset() =~= om.insert(x));
            assert(fm.count(x) > 0) by {
                assert(views_of(old_in_flight).contains(x));
            }
            assert(om.insert(x).add(fm.remove(x)) =~= pm) by {
                assert(om.add(fm) == pm);
            }
        }
    }

    /// Whether `path` names an upload currently in flight: the run-time
    /// test a caller makes before recording a completion.
    pub fn in_flight_contains(&self, path: &str) -> (r: bool)
        ensures
            r == views_of(self.in_flight@).contains(path@),
    {
        let n = self.in_flight.len();
        let mut idx: usize = 0;
        while idx < n
            invariant
                n == self.in_flight@.len(),
                idx <= n,
                forall|j: int| 0 <= j < idx ==> self.in_flight@[j]@ != path@,
            decreases n - idx,
        {
            if str_eq(self.in_flight[idx].as_str(), path) {
                proof {
                    assert(views_of(self.in_flight@)[idx as int] == path@);
                }
                return true;
            }
            idx = idx + 1;
        }
        proof {
            assert(!views_of(self.in_flight@).contains(path@)) by {
                if views_of(self.in_flight@).contains(path@) {
                    let w = choose|w: int|
                        0 <= w < views_of(self.in_flight@).len() && views_of(self.in_flight@)[w]
                            == path@;
                    assert(views_of(self.in_flight@)[w] == self.in_flight@[w]@);
                }
            }
        }
        false
    }

    /// Whether every queued upload has resolved.
    pub fn is_done(&self) -> (r: bool)
        ensures
            r <==> self.outcomes@.len() == self.paths@.len(),
    {
        self.outcomes.len() == self.paths.len()
    }
}

/// The position of `path` inside `v`; the caller warrants membership.
fn find_path_index(v: &Vec<String>, path: &str) -> (r: usize)
    requires
        views_of(v@).contains(path@),
    ensures
        r < v@.len() && v@[r as int]@ == path@,
{
    let n = v.len();
    let mut idx: usize = 0;
    while idx < n
        invariant
            n == v@.len(),
            idx <= n,
            views_of(v@).contains(path@),
            forall|j: int| 0 <= j < idx ==> v@[j]@ != path@,
        decreases n - idx,
    {
        if str_eq(v[idx].as_str(), path) {
            return idx;
        }
        idx = idx + 1;
    }
    proof {
        let w = choose|w: int|
            0 <= w < views_of(v@).len() && views_of(v@)[w] == path@;
        assert(views_of(v@)[w] == v@[w]@);
        assert(false);
    }
    unreached()
}

/// The position of the first failed outcome, in completion order.
pub open spec fn first_error_from(os: Seq<UploadOutcome>, k: int) -> Option<int>
    decreases os.len() - k,
{
    if 0 <= k < os.len() {
        if os[k].result is Err {
            Some(k)
        } else {
            first_error_from(os, k + 1)
        }
    } else {
        None
    }
}

impl UploadBatch {
    /// Folds the per-item outcomes into the batch's aggregate: every upload
    /// succeeded and the remote URLs come back in completion order, or the
    /// first failure encountered is the batch's error. The per-item list
    /// stays visible to callers before this consumes the batch.
    #[verifier::loop_isolation(false)]
    pub fn aggregate(self) -> (r: Result<Vec<String>, UserError>)
        ensures
            first_error_from(self.outcomes@, 0) is None ==> (r matches Ok(urls)
                && urls@.len() == self.outcomes@.len() && (forall|j: int|
                0 <= j < urls@.len() ==> #[trigger] urls@[j]@
                    == self.outcomes@[j].result->Ok_0@)),
            first_error_from(self.outcomes@, 0) matches Some(i) ==> (r matches Err(e) && e
                == self.outcomes@[i].result->Err_0),
    {
        let ghost full = self.outcomes@;
        let mut os = self.outcomes;
        let mut urls: Vec<String> = Vec::new();
        proof {
            assert(os@ =~= full.subrange(0, full.len() as int));
        }
        while os.len() > 0
            invariant
                os@ == full.subrange(
                    full.len() - os@.len(),
                    full.len() as int,
                ),
                urls@.len() + os@.len() == full.len(),
                forall|j: int| 0 <= j < urls@.len() ==> full[j].result is Ok,
                forall|j: int|
                    0 <= j < urls@.len() ==> #[trigger] urls@[j]@ == full[j].result->Ok_0@,
                first_error_from(full, 0) == first_error_from(full, full.len() - os@.len()),
            decreases os@.len(),
        {
            let ghost k = full.len() - os@.len();
            proof {
                assert(os@[0] == full[k]);
                assert(os@.remove(0) =~= full.subrange(k + 1, full.len() as int));
            }
            let o = os.remove(0);
            let ghost oo = o;
            proof {
                assert(oo == full[k]);
            }
            match o.result {
                Ok(u) => {
                    proof {
                        assert(full[k].result is Ok);
                        assert(u == full[k].result->Ok_0);
                        assert(first_error_from(full, k) == first_error_from(full, k + 1));
                    }
                    urls.push(u);
                },
                Err(e) => {
                    proof {
                        assert(full[k].result is Err);
                        assert(first_error_from(full, k) == Some(k));
                        assert(first_error_from(full, 0) == Some(k));
                        assert(e == full[k].result->Err_0);
                    }
                    return Err(e);
                },
            }
        }
        proof {
            assert(first_error_from(full, full.len() as int) is None);
        }
        Ok(urls)
    }
}

/// Completion accounts for everything: once a well-formed batch has an
/// outcome for every queued path, the outcomes' paths are exactly the input
/// paths — as a multiset, since completion order is not input order.
pub proof fn lemma_done_accounts_for_all(b: &UploadBatch)
    requires
        b.wf(),
        b.outcomes@.len() == b.paths@.len(),
    ensures
        outcome_paths(b.outcomes@).to_multiset() == views_of(b.paths@).to_multiset(),
{
    broadcast use vstd::seq_lib::group_to_multiset_ensures;
    broadcast use vstd::multiset::group_multiset_axioms;

    assert(b.in_flight@.len() == 0);
    assert(views_of(b.in_flight@) =~= Seq::<Seq<char>>::empty());
    let em = Seq::<Seq<char>>::empty().to_multiset();
    vstd::multiset::lemma_multiset_empty_len(em);
    assert(b.paths@.subrange(0, b.dispatched as int) =~= b.paths@);
    let om = outcome_paths(b.outcomes@).to_multiset();
    assert(om.add(em) =~= om);
}

/// Bounded concurrency: a well-formed batch never has more uploads in
/// flight than its window allows.
pub proof fn lemma_bounded_concurrency(b: &UploadBatch)
    requires
        b.wf(),
    ensures
        b.in_flight@.len() <= b.limit,
{
}

/// Progress: an unfinished well-formed batch can always move — either an
/// upload is still in flight to await, or the window has room and the
/// queue has a next upload to start. Driven to quiescence, all inputs
/// therefore resolve.
pub proof fn lemma_progress(b: &UploadBatch)
    requires
        b.wf(),
        b.outcomes@.len() < b.paths@.len(),
    ensures
        b.in_flight@.len() > 0 || (b.dispatched < b.paths@.len() && b.in_flight@.len() < b.limit),
{
}

} // verus!
