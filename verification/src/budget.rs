//! The two shared budgets of one pipeline run: a rate throttle that paces
//! operation starts, and a concurrency budget that caps how many operations
//! are in flight at once. Acquisition is the only path that mutates either.

use vstd::prelude::*;

verus! {

/// Successive grant times are spaced so that `rate` grants never take less
/// than one window: each consecutive pair is at least `window / rate` ticks
/// apart, stated without division.
pub open spec fn spaced(starts: Seq<int>, rate: int, window: int) -> bool {
    forall|i: int|
        0 <= i < starts.len() - 1 ==> rate * (#[trigger] starts[i + 1] - starts[i]) >= window
}

/// The rate throttle: grants permission to start an operation only when the
/// start would keep the run at or under `rate` starts per `window` ticks.
/// Callers ask again later when a grant is refused; the throttle itself
/// never rejects a caller for good.
pub struct Throttle {
    rate: u64,
    window: u64,
    scaled_next: u128,
    starts: Ghost<Seq<int>>,
}

impl Throttle {
    /// The configured number of starts per window.
    pub closed spec fn rate(&self) -> int {
        self.rate as int
    }

    /// The configured window, in ticks.
    pub closed spec fn window(&self) -> int {
        self.window as int
    }

    /// The times, in ticks, of the starts granted so far, in grant order.
    pub closed spec fn starts(&self) -> Seq<int> {
        self.starts@
    }

    /// The throttle's invariant: a positive configuration, spaced grants,
    /// and a threshold that keeps the spacing for the next grant.
    pub closed spec fn wf(&self) -> bool {
        &&& self.rate >= 1
        &&& self.window >= 1
        &&& spaced(self.starts@, self.rate as int, self.window as int)
        &&& forall|i: int| 0 <= i < self.starts@.len() ==> #[trigger] self.starts@[i] >= 0
        &&& self.scaled_next as int == if self.starts@.len() == 0 {
            0
        } else {
            self.rate as int * self.starts@.last() + self.window as int
        }
    }

    /// A fresh throttle that has granted nothing.
    pub fn new(rate: u64, window: u64) -> (t: Throttle)
        requires
            rate >= 1,
            window >= 1,
        ensures
            t.wf(),
            t.rate() == rate as int,
            t.window() == window as int,
            t.starts() == Seq::<int>::empty(),
    {
        Throttle { rate, window, scaled_next: 0, starts: Ghost(Seq::empty()) }
    }

    /// Ask to start one operation now. The first request is granted at any
    /// time; a later one exactly when a full spacing gap has passed since
    /// the last grant, so no caller is refused for good. A grant records
    /// the start; a refusal changes nothing.
    pub fn try_acquire(&mut self, now: u64) -> (granted: bool)
        requires
            old(self).wf(),
        ensures
            final(self).wf(),
            final(self).rate() == old(self).rate(),
            final(self).window() == old(self).window(),
            granted == (old(self).starts().len() == 0 || old(self).rate() * (now as int) >= old(
                self,
            ).rate() * old(self).starts().last() + old(self).window()),
            granted ==> final(self).starts() == old(self).starts().push(now as int),
            !granted ==> final(self).starts() == old(self).starts(),
    {
        proof {
            assert((now as int) * (self.rate as int) + (self.window as int) <= u128::MAX as int)
                by (nonlinear_arith)
                requires
                    0 <= now as int <= u64::MAX as int,
                    0 <= self.rate as int <= u64::MAX as int,
                    0 <= self.window as int <= u64::MAX as int,
            ;
        }
        let scaled_now = (now as u128) * (self.rate as u128);
        proof {
            assert((now as int) * (self.rate as int) >= 0) by (nonlinear_arith)
                requires
                    now as int >= 0,
                    self.rate as int >= 0,
            ;
            assert((now as int) * (self.rate as int) == (self.rate as int) * (now as int))
                by (nonlinear_arith);
        }
        if scaled_now >= self.scaled_next {
            self.scaled_next = scaled_now + (self.window as u128);
            proof {
                let prior = self.starts@;
                self.starts@ = self.starts@.push(now as int);
                if prior.len() > 0 {
                    assert(self.rate as int * (now as int - prior.last()) >= self.window as int)
                        by (nonlinear_arith)
                        requires
                            now as int * self.rate as int >= self.rate as int * prior.last()
                                + self.window as int,
                    ;
                }
                assert forall|i: int|
                    0 <= i < self.starts@.len() - 1 implies self.rate as int * (
                #[trigger] self.starts@[i + 1] - self.starts@[i]) >= self.window as int by {
                    if i < prior.len() - 1 {
                        assert(prior[i + 1] == self.starts@[i + 1]);
                        assert(prior[i] == self.starts@[i]);
                    }
                }
                assert forall|i: int|
                    0 <= i < self.starts@.len() implies #[trigger] self.starts@[i] >= 0 by {
                    if i < prior.len() {
                        assert(self.starts@[i] == prior[i]);
                    }
                }
                assert(self.starts@.last() == now as int);
                assert(self.rate as int * (now as int) == (now as int) * (self.rate as int))
                    by (nonlinear_arith);
            }
            true
        } else {
            false
        }
    }

    /// Rate floor over a whole run: after any sequence of grants, the span
    /// from the first to the last start is at least `(n - 1) * window /
    /// rate` ticks, stated without division. The run's wall-clock time can
    /// never beat that bound, whatever the concurrency.
    pub proof fn lemma_rate_floor(&self)
        requires
            self.wf(),
            self.starts().len() >= 1,
        ensures
            self.rate() * (self.starts().last() - self.starts().first()) >= (self.starts().len()
                - 1) * self.window(),
    {
        lemma_spaced_span(self.starts(), self.rate(), self.window());
    }
}

/// The span of a spaced sequence is bounded below by its length.
proof fn lemma_spaced_span(s: Seq<int>, rate: int, window: int)
    requires
        s.len() >= 1,
        spaced(s, rate, window),
    ensures
        rate * (s.last() - s.first()) >= (s.len() - 1) * window,
    decreases s.len(),
{
    if s.len() == 1 {
        let a = s.last();
        let w = window;
        assert(s.first() == a);
        assert(rate * (a - a) >= 0 * w) by (nonlinear_arith);
        assert((s.len() - 1) * window == 0 * window);
        assert(0 * window <= rate * (a - a)) by (nonlinear_arith);
    }
    if s.len() >= 2 {
        let t = s.drop_last();
        assert forall|i: int|
            0 <= i < t.len() - 1 implies rate * (#[trigger] t[i + 1] - t[i]) >= window by {
            assert(s[i + 1] == t[i + 1]);
            assert(s[i] == t[i]);
        }
        lemma_spaced_span(t, rate, window);
        assert(rate * (s.last() - t.last()) >= window) by {
            assert(s[s.len() - 2] == t[t.len() - 1]);
            assert(rate * (s[s.len() - 2 + 1] - s[s.len() - 2]) >= window);
        }
        let a = s.last();
        let b = t.last();
        let c = s.first();
        let n = s.len() as int;
        assert(t.first() == c);
        assert(rate * (a - c) == rate * (a - b) + rate * (b - c)) by (nonlinear_arith);
        assert((n - 1) * window == (n - 2) * window + window) by (nonlinear_arith);
        assert(rate * (t.last() - t.first()) >= (n - 2) * window);
    }
}

/// The concurrency budget: a slot counter that never lets more than `cap`
/// operations be in flight at once. Starting an operation takes a slot;
/// finishing one, however it went, returns it.
pub struct ConcurrencyBudget {
    cap: usize,
    in_flight: usize,
}

impl ConcurrencyBudget {
    /// The configured cap.
    pub closed spec fn cap(&self) -> int {
        self.cap as int
    }

    /// How many operations hold a slot now.
    pub closed spec fn in_flight(&self) -> int {
        self.in_flight as int
    }

    /// The budget's invariant: the cap is positive and never exceeded.
    pub closed spec fn wf(&self) -> bool {
        self.cap >= 1 && self.in_flight <= self.cap
    }

    /// A fresh budget with every slot free.
    pub fn new(cap: usize) -> (b: ConcurrencyBudget)
        requires
            cap >= 1,
        ensures
            b.wf(),
            b.cap() == cap as int,
            b.in_flight() == 0,
    {
        ConcurrencyBudget { cap, in_flight: 0 }
    }

    /// Whether a slot is free.
    pub fn has_slot(&self) -> (r: bool)
        ensures
            r == (self.in_flight() < self.cap()),
    {
        self.in_flight < self.cap
    }

    /// Whether no operation holds a slot.
    pub fn none_in_flight(&self) -> (r: bool)
        ensures
            r == (self.in_flight() == 0),
    {
        self.in_flight == 0
    }

    /// The cap is never exceeded.
    pub proof fn lemma_bounded(&self)
        requires
            self.wf(),
        ensures
            self.in_flight() <= self.cap(),
    {
    }

    /// Ask for a slot; granted exactly when one is free.
    pub fn try_acquire(&mut self) -> (granted: bool)
        requires
            old(self).wf(),
        ensures
            final(self).wf(),
            final(self).cap() == old(self).cap(),
            granted == (old(self).in_flight() < old(self).cap()),
            granted ==> final(self).in_flight() == old(self).in_flight() + 1,
            !granted ==> final(self).in_flight() == old(self).in_flight(),
    {
        if self.in_flight < self.cap {
            self.in_flight = self.in_flight + 1;
            true
        } else {
            false
        }
    }

    /// Return a slot when an operation completes.
    pub fn release(&mut self)
        requires
            old(self).wf(),
            old(self).in_flight() >= 1,
        ensures
            final(self).wf(),
            final(self).cap() == old(self).cap(),
            final(self).in_flight() == old(self).in_flight() - 1,
    {
        self.in_flight = self.in_flight - 1;
    }
}

} // verus!
