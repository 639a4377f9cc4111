//! Re-listing after mutations. Any completed mutation invalidates the
//! displayed listing; at most one listing call is outstanding, and every
//! invalidation that lands while one is outstanding folds into a single
//! follow-up call for the directory displayed by then.
use vstd::prelude::*;

verus! {

/// The abstract coordinator state.
pub struct RefreshView {
    /// The displayed directory.
    pub current: Seq<char>,
    /// A listing call is outstanding.
    pub in_flight: bool,
    /// An invalidation arrived while the call was outstanding.
    pub pending: bool,
    /// Flips on every invalidation.
    pub tick: bool,
}

/// The state after an invalidation, and whether a listing call starts now.
pub open spec fn invalidate_step(v: RefreshView) -> (RefreshView, bool) {
    if v.in_flight {
        (RefreshView { pending: true, tick: !v.tick, ..v }, false)
    } else {
        (RefreshView { in_flight: true, tick: !v.tick, ..v }, true)
    }
}

/// The state after the displayed directory changes to `d`, and whether a
/// listing call starts now.
pub open spec fn navigate_step(v: RefreshView, d: Seq<char>) -> (RefreshView, bool) {
    invalidate_step(RefreshView { current: d, ..v })
}

/// Completion of the outstanding call, which listed `fetched`: the new
/// state, whether its result is shown, and whether a follow-up call starts.
pub open spec fn complete_step(v: RefreshView, fetched: Seq<char>) -> (RefreshView, bool, bool) {
    if v.pending {
        (RefreshView { pending: false, ..v }, false, true)
    } else {
        (RefreshView { in_flight: false, ..v }, fetched == v.current, false)
    }
}

/// The state after `k` invalidations.
pub open spec fn invalidate_n(v: RefreshView, k: nat) -> RefreshView
    decreases k,
{
    if k == 0 {
        v
    } else {
        invalidate_step(invalidate_n(v, (k - 1) as nat)).0
    }
}

/// While a listing call is outstanding, any number of invalidations start
/// no call of their own; when the call completes, exactly one follow-up
/// call starts if there was at least one, and after it nothing is left
/// pending.
pub proof fn lemma_coalesce(v: RefreshView, k: nat, fetched: Seq<char>)
    requires
        v.in_flight,
        !v.pending,
    ensures
        forall|j: nat| j < k ==> !(#[trigger] invalidate_step(invalidate_n(v, j))).1,
        complete_step(invalidate_n(v, k), fetched).2 == (k > 0),
        !complete_step(invalidate_n(v, k), fetched).0.pending,
        complete_step(invalidate_n(v, k), fetched).0.in_flight == (k > 0),
{
    lemma_in_flight(v, k);
    assert forall|j: nat| j < k implies !(#[trigger] invalidate_step(invalidate_n(v, j))).1 by {
        lemma_in_flight(v, j);
    }
}

proof fn lemma_in_flight(v: RefreshView, k: nat)
    requires
        v.in_flight,
        !v.pending,
    ensures
        invalidate_n(v, k).in_flight,
        invalidate_n(v, k).pending == (k > 0),
        invalidate_n(v, k).current == v.current,
    decreases k,
{
    if k > 0 {
        lemma_in_flight(v, (k - 1) as nat);
    }
}

/// The refresh coordinator.
#[derive(Debug)]
pub struct Refresh {
    current: String,
    in_flight: bool,
    pending: bool,
    tick: bool,
}

impl Refresh {
    pub closed spec fn view(&self) -> RefreshView {
        RefreshView {
            current: self.current@,
            in_flight: self.in_flight,
            pending: self.pending,
            tick: self.tick,
        }
    }

    /// A coordinator showing `current`, with the first listing call
    /// outstanding.
    pub fn new(current: String) -> (r: Refresh)
        ensures
            r@ == (RefreshView { current: current@, in_flight: true, pending: false, tick: false }),
    {
        Refresh { current, in_flight: true, pending: false, tick: false }
    }

    /// The displayed directory.
    pub fn current(&self) -> (r: &String)
        ensures
            r@ == self@.current,
    {
        &self.current
    }

    /// The refresh tick.
    pub fn tick(&self) -> (r: bool)
        ensures
            r == self@.tick,
    {
        self.tick
    }

    /// A mutation completed. Returns true when the caller is to list the
    /// current directory now.
    pub fn invalidate(&mut self) -> (r: bool)
        ensures
            (final(self)@, r) == invalidate_step(old(self)@),
    {
        self.tick = !self.tick;
        if self.in_flight {
            self.pending = true;
            false
        } else {
            self.in_flight = true;
            true
        }
    }

    /// The displayed directory changed. Returns true when the caller is to
    /// list it now.
    pub fn navigate(&mut self, dir: String) -> (r: bool)
        ensures
            (final(self)@, r) == navigate_step(old(self)@, dir@),
    {
        self.current = dir;
        self.invalidate()
    }

    /// The outstanding listing of `fetched` came back. Returns whether to
    /// show its result, and whether to list the current directory again.
    pub fn complete(&mut self, fetched: &String) -> (r: (bool, bool))
        ensures
            (final(self)@, r.0, r.1) == complete_step(old(self)@, fetched@),
    {
        if self.pending {
            self.pending = false;
            (false, true)
        } else {
            self.in_flight = false;
            (*fetched == self.current, false)
        }
    }
}

} // verus!
