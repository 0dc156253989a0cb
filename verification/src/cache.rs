//! The per-session user-hash cache: a lazily initialized, exactly-once
//! fetched value. The cache is a small state machine — idle, one fetch
//! pending, resolved — whose invariant pins the number of fetches ever
//! started to at most one, however many concurrent callers step it; all
//! callers then read the one stored outcome, success or failure alike.
use crate::user::UserError;
use vstd::prelude::*;

verus! {

/// What one caller of the cache must do next.
pub enum CacheStep {
    /// The cache was idle: this caller alone performs the single fetch.
    MustFetch,
    /// Another caller's fetch is in flight: wait for it to resolve.
    Wait,
    /// The outcome is stored: read it.
    Ready,
}

/// The cache's state.
pub enum CacheState {
    /// No fetch has been started.
    Idle,
    /// The single fetch is in flight.
    Pending,
    /// The single fetch resolved to this outcome, kept for the session's
    /// lifetime and never invalidated.
    Done(Result<String, UserError>),
}

/// The at-most-once user-hash cache of one session.
pub struct UserHashCache {
    pub state: CacheState,
    /// How many underlying fetches were ever started.
    pub fetches_started: u64,
}

impl UserHashCache {
    /// The cache's invariant: a fetch is started exactly at the move out of
    /// `Idle`, so at most one is ever started.
    pub open spec fn wf(&self) -> bool {
        &&& self.state is Idle ==> self.fetches_started == 0
        &&& !(self.state is Idle) ==> self.fetches_started == 1
    }

    /// A fresh cache: idle, no fetch started.
    pub fn new() -> (r: Self)
        ensures
            r.wf(),
            r.state is Idle,
            r.fetches_started == 0,
    {
        UserHashCache { state: CacheState::Idle, fetches_started: 0 }
    }

    /// One caller's step. From an idle cache the caller is told to perform
    /// the single fetch; while that fetch is pending every other caller
    /// waits; once resolved every caller reads the one stored outcome.
    pub fn step(&mut self) -> (r: CacheStep)
        requires
            old(self).wf(),
        ensures
            final(self).wf(),
            final(self).fetches_started <= 1,
            old(self).state is Idle ==> (r is MustFetch && final(self).state is Pending
                && final(self).fetches_started == old(self).fetches_started + 1),
            old(self).state is Pending ==> (r is Wait && *final(self) == *old(self)),
            old(self).state is Done ==> (r is Ready && *final(self) == *old(self)),
    {
        match &self.state {
            CacheState::Idle => {
                self.state = CacheState::Pending;
                self.fetches_started = self.fetches_started + 1;
                CacheStep::MustFetch
            },
            CacheState::Pending => CacheStep::Wait,
            CacheState::Done(_) => CacheStep::Ready,
        }
    }

    /// Resolves the single in-flight fetch. The outcome — the user hash or
    /// the failure — is stored and shared with every caller; no further
    /// fetch is ever started.
    pub fn resolve(&mut self, outcome: Result<String, UserError>)
        requires
            old(self).wf(),
            old(self).state is Pending,
        ensures
            final(self).wf(),
            final(self).state == CacheState::Done(outcome),
            final(self).fetches_started == old(self).fetches_started,
    {
        self.state = CacheState::Done(outcome);
    }

    /// The stored outcome, identical for every caller that reads it.
    pub fn peek(&self) -> (r: &Result<String, UserError>)
        requires
            self.state is Done,
        ensures
            self.state == CacheState::Done(*r),
    {
        match &self.state {
            CacheState::Done(v) => v,
            _ => unreached(),
        }
    }
}

/// At-most-once initialization: however many callers step a well-formed
/// cache, at most one underlying fetch has ever been started.
pub proof fn lemma_at_most_one_fetch(c: &UserHashCache)
    requires
        c.wf(),
    ensures
        c.fetches_started <= 1,
{
}

} // verus!
