//! Single-flight gate of the process-wide catalog cache. It decides which
//! caller runs the loader, which callers wait for that run, and when the
//! kept catalog is handed out. Callers keep it behind a mutex, run the
//! loader when asked to, and report its outcome.

use vstd::prelude::*;

verus! {

/// Where the cache stands.
#[derive(PartialEq, Eq, Structural, Clone, Copy, Debug)]
pub enum CachePhase {
    /// Nothing loaded and no load under way.
    Empty,
    /// One load is under way.
    Loading,
    /// A catalog is loaded and kept for good.
    Ready,
}

/// What a caller of `get` is to do.
#[derive(PartialEq, Eq, Structural, Clone, Copy, Debug)]
pub enum GetAction {
    /// Run the loader, as attempt number `0`, and report its outcome.
    StartLoad(u64),
    /// Wait for the outcome of the attempt with this number.
    Wait(u64),
    /// Serve the loaded catalog.
    UseReady,
}

/// What a caller waiting on an attempt learns when it looks again.
#[derive(PartialEq, Eq, Structural, Clone, Copy, Debug)]
pub enum PollOutcome {
    /// The attempt succeeded: serve the kept catalog.
    Loaded,
    /// The attempt failed: report its error.
    Failed,
    /// The attempt is still under way.
    KeepWaiting,
}

/// The cache's state: its phase and the number of the current attempt.
#[derive(PartialEq, Eq, Structural, Clone, Copy, Debug)]
pub struct LoadGate {
    pub phase: CachePhase,
    pub attempt: u64,
}

/// The attempt number after `a`.
pub open spec fn next_attempt(a: u64) -> u64 {
    if a < u64::MAX { (a + 1) as u64 } else { 0 }
}

/// State and action after one call of `get`.
pub open spec fn get_step(g: LoadGate) -> (LoadGate, GetAction) {
    match g.phase {
        CachePhase::Empty => (LoadGate { phase: CachePhase::Loading, attempt: g.attempt }, GetAction::StartLoad(g.attempt)),
        CachePhase::Loading => (g, GetAction::Wait(g.attempt)),
        CachePhase::Ready => (g, GetAction::UseReady),
    }
}

/// State after the load of the current attempt finished: kept for good
/// on success; on failure back to empty under a new attempt number, so
/// that a later `get` may load again.
pub open spec fn finish_step(g: LoadGate, succeeded: bool) -> LoadGate {
    if succeeded {
        LoadGate { phase: CachePhase::Ready, attempt: g.attempt }
    } else {
        LoadGate { phase: CachePhase::Empty, attempt: next_attempt(g.attempt) }
    }
}

/// What a waiter on attempt `a` learns in state `g`. Only a failure moves
/// the attempt number on, so a gate past `a` means that `a` failed.
pub open spec fn poll_step(g: LoadGate, a: u64) -> PollOutcome {
    if g.attempt != a {
        PollOutcome::Failed
    } else if g.phase == CachePhase::Ready {
        PollOutcome::Loaded
    } else if g.phase == CachePhase::Loading {
        PollOutcome::KeepWaiting
    } else {
        PollOutcome::Failed
    }
}

/// Actions handed to `n` calls of `get` in a row from state `g`, with no
/// load finishing in between.
pub open spec fn run_gets(g: LoadGate, n: nat) -> Seq<GetAction>
    decreases n,
{
    if n == 0 {
        Seq::empty()
    } else {
        let (next, a) = get_step(g);
        seq![a] + run_gets(next, (n - 1) as nat)
    }
}

/// State after `n` calls of `get` in a row from state `g`.
pub open spec fn after_gets(g: LoadGate, n: nat) -> LoadGate
    decreases n,
{
    if n == 0 {
        g
    } else {
        after_gets(get_step(g).0, (n - 1) as nat)
    }
}

impl LoadGate {
    /// An empty cache at its first attempt.
    pub fn new() -> (r: LoadGate)
        ensures
            r.phase == CachePhase::Empty,
            r.attempt == 0,
    {
        LoadGate { phase: CachePhase::Empty, attempt: 0 }
    }

    /// Decides what a caller of `get` does, and records it.
    pub fn on_get(&mut self) -> (r: GetAction)
        ensures
            (*final(self), r) == get_step(*old(self)),
    {
        match self.phase {
            CachePhase::Empty => {
                self.phase = CachePhase::Loading;
                GetAction::StartLoad(self.attempt)
            },
            CachePhase::Loading => GetAction::Wait(self.attempt),
            CachePhase::Ready => GetAction::UseReady,
        }
    }

    /// Tells a caller waiting on attempt `attempt` how that attempt stands.
    pub fn on_poll(&self, attempt: u64) -> (r: PollOutcome)
        ensures
            r == poll_step(*self, attempt),
    {
        if self.attempt != attempt {
            PollOutcome::Failed
        } else {
            match self.phase {
                CachePhase::Ready => PollOutcome::Loaded,
                CachePhase::Loading => PollOutcome::KeepWaiting,
                CachePhase::Empty => PollOutcome::Failed,
            }
        }
    }

    /// Records the outcome of the load of attempt `attempt`; an outcome
    /// for another attempt than the one under way changes nothing, and
    /// `false` is returned for it.
    pub fn on_load_finished(&mut self, attempt: u64, succeeded: bool) -> (r: bool)
        ensures
            r == (old(self).phase == CachePhase::Loading && old(self).attempt == attempt),
            r ==> *final(self) == finish_step(*old(self), succeeded),
            !r ==> *final(self) == *old(self),
    {
        if self.phase != CachePhase::Loading || self.attempt != attempt {
            return false;
        }
        if succeeded {
            self.phase = CachePhase::Ready;
        } else {
            self.phase = CachePhase::Empty;
            self.attempt = if self.attempt < u64::MAX { self.attempt + 1 } else { 0 };
        }
        true
    }
}

proof fn lemma_loading_waits(g: LoadGate, n: nat)
    requires
        g.phase == CachePhase::Loading,
    ensures
        run_gets(g, n).len() == n,
        forall|i: int| 0 <= i < n ==> #[trigger] run_gets(g, n)[i] == GetAction::Wait(g.attempt),
        after_gets(g, n) == g,
    decreases n,
{
    if n > 0 {
        lemma_loading_waits(g, (n - 1) as nat);
        let rest = run_gets(g, (n - 1) as nat);
        assert forall|i: int| 0 <= i < n implies #[trigger] run_gets(g, n)[i] == GetAction::Wait(g.attempt) by {
            if i > 0 {
                assert(run_gets(g, n)[i] == rest[i - 1]);
            }
        }
    }
}

/// Single flight: of any number of calls of `get` made on an empty cache
/// before a load finishes, the first is told to load and every other one
/// to wait for that very attempt, so the loader runs exactly once and
/// all of them share its one outcome.
pub proof fn lemma_single_flight(g: LoadGate, n: nat)
    requires
        g.phase == CachePhase::Empty,
        n > 0,
    ensures
        run_gets(g, n).len() == n,
        run_gets(g, n)[0] == GetAction::StartLoad(g.attempt),
        forall|i: int| 1 <= i < n ==> #[trigger] run_gets(g, n)[i] == GetAction::Wait(g.attempt),
        after_gets(g, n) == (LoadGate { phase: CachePhase::Loading, attempt: g.attempt }),
{
    let loading = LoadGate { phase: CachePhase::Loading, attempt: g.attempt };
    lemma_loading_waits(loading, (n - 1) as nat);
    let rest = run_gets(loading, (n - 1) as nat);
    assert forall|i: int| 1 <= i < n implies #[trigger] run_gets(g, n)[i] == GetAction::Wait(g.attempt) by {
        assert(run_gets(g, n)[i] == rest[i - 1]);
    }
}

proof fn lemma_ready_serves(g: LoadGate, n: nat)
    requires
        g.phase == CachePhase::Ready,
    ensures
        run_gets(g, n).len() == n,
        forall|i: int| 0 <= i < n ==> #[trigger] run_gets(g, n)[i] == GetAction::UseReady,
        after_gets(g, n) == g,
    decreases n,
{
    if n > 0 {
        lemma_ready_serves(g, (n - 1) as nat);
        let rest = run_gets(g, (n - 1) as nat);
        assert forall|i: int| 0 <= i < n implies #[trigger] run_gets(g, n)[i] == GetAction::UseReady by {
            if i > 0 {
                assert(run_gets(g, n)[i] == rest[i - 1]);
            }
        }
    }
}

/// Once a load has succeeded, every later call of `get`, however many,
/// is served the kept catalog and none runs the loader again.
pub proof fn lemma_loaded_is_kept(g: LoadGate, n: nat)
    requires
        g.phase == CachePhase::Loading,
    ensures
        forall|i: int| 0 <= i < n ==> #[trigger] run_gets(finish_step(g, true), n)[i] == GetAction::UseReady,
        after_gets(finish_step(g, true), n) == finish_step(g, true),
{
    lemma_ready_serves(finish_step(g, true), n);
}

/// Every waiter shares the one outcome of its attempt: once that attempt
/// has finished, a waiter on it is told it loaded exactly when it
/// succeeded, and told it failed exactly when it failed; this stays so
/// through any number of later calls of `get`.
pub proof fn lemma_waiters_share_outcome(g: LoadGate, succeeded: bool, n: nat)
    requires
        g.phase == CachePhase::Loading,
    ensures
        poll_step(finish_step(g, succeeded), g.attempt)
            == (if succeeded { PollOutcome::Loaded } else { PollOutcome::Failed }),
        poll_step(after_gets(finish_step(g, succeeded), n), g.attempt)
            == (if succeeded { PollOutcome::Loaded } else { PollOutcome::Failed }),
{
    if succeeded {
        lemma_ready_serves(finish_step(g, true), n);
    } else {
        lemma_gets_keep_attempt(finish_step(g, false), n);
    }
}

proof fn lemma_gets_keep_attempt(g: LoadGate, n: nat)
    ensures
        after_gets(g, n).attempt == g.attempt,
    decreases n,
{
    if n > 0 {
        lemma_gets_keep_attempt(get_step(g).0, (n - 1) as nat);
    }
}

/// A failed load leaves the cache empty under a new attempt number, so
/// the next call of `get` runs the loader again, as a new attempt.
pub proof fn lemma_failure_allows_retry(g: LoadGate)
    requires
        g.phase == CachePhase::Loading,
    ensures
        get_step(finish_step(g, false)).1 == GetAction::StartLoad(next_attempt(g.attempt)),
        next_attempt(g.attempt) != g.attempt,
{
}

} // verus!
