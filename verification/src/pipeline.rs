//! The bounded fan-out pipeline that both the brute-force enumeration and
//! the bulk query engine run on: a fixed list of work items, at most `cap`
//! of them in flight at once, one outcome recorded per item, successes
//! flattened into one record collection and failures into one log.
//!
//! The pipeline is the decision core; the driver outside the library
//! performs each item's network operation and hands the outcome back.

use vstd::prelude::*;

use crate::aggregate::Outcome;
use crate::aggregate::failure_messages;
use crate::aggregate::flatten_successes;
use crate::budget::ConcurrencyBudget;
use crate::records::ResourceRecord;

verus! {

/// One run's pipeline state over work items of type `T`.
pub struct Pipeline<T> {
    items: Vec<T>,
    started: usize,
    budget: ConcurrencyBudget,
    records: Vec<ResourceRecord>,
    failures: Vec<String>,
    history: Ghost<Seq<Outcome>>,
}

impl<T> Pipeline<T> {
    /// The work items of this run, in input order.
    pub closed spec fn items_seq(&self) -> Seq<T> {
        self.items@
    }

    /// How many items have been started.
    pub closed spec fn started(&self) -> int {
        self.started as int
    }

    /// How many items are in flight: started and not yet completed.
    pub closed spec fn in_flight(&self) -> int {
        self.budget.in_flight()
    }

    /// The concurrency cap.
    pub closed spec fn cap(&self) -> int {
        self.budget.cap()
    }

    /// The outcomes recorded so far, in completion order.
    pub closed spec fn history(&self) -> Seq<Outcome> {
        self.history@
    }

    /// The records collected so far: the flattened successes.
    pub closed spec fn records(&self) -> Seq<ResourceRecord> {
        self.records@
    }

    /// The failure log so far: one line per failed outcome.
    pub closed spec fn failures(&self) -> Seq<Seq<char>> {
        self.failures@.map_values(|m: String| m@)
    }

    /// The pipeline's invariant: the budget is respected, completions never
    /// outrun starts, starts never outrun the item list, and the collected
    /// records and failure log are exactly the aggregate of the history.
    pub closed spec fn wf(&self) -> bool {
        &&& self.budget.wf()
        &&& self.in_flight() <= self.started() <= self.items@.len()
        &&& self.history@.len() + self.in_flight() == self.started()
        &&& self.records@ == flatten_successes(self.history@)
        &&& self.failures@.map_values(|m: String| m@) == failure_messages(self.history@)
    }

    /// A fresh pipeline over the given items with the given concurrency
    /// cap.
    pub fn new(items: Vec<T>, cap: usize) -> (p: Pipeline<T>)
        requires
            cap >= 1,
        ensures
            p.wf(),
            p.items_seq() == items@,
            p.started() == 0,
            p.in_flight() == 0,
            p.cap() == cap as int,
            p.history() == Seq::<Outcome>::empty(),
            p.records() == Seq::<ResourceRecord>::empty(),
            p.failures() == Seq::<Seq<char>>::empty(),
    {
        let p = Pipeline {
            items,
            started: 0,
            budget: ConcurrencyBudget::new(cap),
            records: Vec::new(),
            failures: Vec::new(),
            history: Ghost(Seq::empty()),
        };
        proof {
            assert(p.records@ =~= flatten_successes(p.history@));
            assert(p.failures@.map_values(|m: String| m@) =~= failure_messages(p.history@));
            assert(p.failures() =~= Seq::<Seq<char>>::empty());
        }
        p
    }

    /// Whether another item may start now: one is left and a concurrency
    /// slot is free.
    pub fn can_start(&self) -> (r: bool)
        requires
            self.wf(),
        ensures
            r == (self.started() < self.items_seq().len() && self.in_flight() < self.cap()),
    {
        self.started < self.items.len() && self.budget.has_slot()
    }

    /// Start the next item, taking a concurrency slot. Returns the started
    /// item's position; every position is started exactly once, in input
    /// order.
    pub fn start(&mut self) -> (i: usize)
        requires
            old(self).wf(),
            old(self).started() < old(self).items_seq().len(),
            old(self).in_flight() < old(self).cap(),
        ensures
            final(self).wf(),
            i as int == old(self).started(),
            final(self).started() == old(self).started() + 1,
            final(self).in_flight() == old(self).in_flight() + 1,
            final(self).items_seq() == old(self).items_seq(),
            final(self).cap() == old(self).cap(),
            final(self).history() == old(self).history(),
            final(self).records() == old(self).records(),
            final(self).failures() == old(self).failures(),
    {
        let n = self.items.len();
        let granted = self.budget.try_acquire();
        let i = self.started;
        proof {
            assert(granted);
            assert(i < n);
        }
        self.started = i + 1;
        i
    }

    /// Read the item at a position.
    pub fn item(&self, i: usize) -> (t: &T)
        requires
            i < self.items_seq().len(),
        ensures
            *t == self.items_seq()[i as int],
    {
        &self.items[i]
    }

    /// Record the outcome of one in-flight item, returning its concurrency
    /// slot. A success's records join the aggregate; a failure adds exactly
    /// one log line and nothing to the aggregate.
    pub fn complete(&mut self, outcome: Outcome)
        requires
            old(self).wf(),
            old(self).in_flight() >= 1,
        ensures
            final(self).wf(),
            final(self).started() == old(self).started(),
            final(self).in_flight() == old(self).in_flight() - 1,
            final(self).items_seq() == old(self).items_seq(),
            final(self).cap() == old(self).cap(),
            final(self).history() == old(self).history().push(outcome),
            final(self).records() == old(self).records() + match outcome {
                Outcome::Success { records } => records@,
                Outcome::Failure { .. } => Seq::<ResourceRecord>::empty(),
            },
            final(self).failures() == match outcome {
                Outcome::Success { .. } => old(self).failures(),
                Outcome::Failure { message } => old(self).failures().push(message@),
            },
    {
        self.budget.release();
        let ghost prior = self.history@;
        proof {
            self.history@ = self.history@.push(outcome);
            assert(self.history@.drop_last() =~= prior);
        }
        match outcome {
            Outcome::Success { records: mut found } => {
                self.records.append(&mut found);
                proof {
                    assert(self.records@ =~= flatten_successes(self.history@));
                    assert(self.records() =~= old(self).records() + match outcome {
                        Outcome::Success { records } => records@,
                        Outcome::Failure { .. } => Seq::<ResourceRecord>::empty(),
                    });
                }
            },
            Outcome::Failure { message } => {
                let ghost prev = self.failures@;
                self.failures.push(message);
                proof {
                    prev.lemma_push_map_commute(|m: String| m@, message);
                    assert(self.failures@.map_values(|m: String| m@) =~= failure_messages(
                        self.history@,
                    ));
                    assert(self.records@ =~= flatten_successes(self.history@));
                }
            },
        }
    }

    /// Whether the run has drained: every item started and none in flight.
    pub fn is_done(&self) -> (r: bool)
        requires
            self.wf(),
        ensures
            r == (self.started() == self.items_seq().len() && self.in_flight() == 0),
    {
        self.started == self.items.len() && self.budget.none_in_flight()
    }

    /// Hand out the aggregate: the flattened records of every success and
    /// the failure log, in completion order.
    pub fn into_results(self) -> (r: (Vec<ResourceRecord>, Vec<String>))
        requires
            self.wf(),
        ensures
            r.0@ == flatten_successes(self.history()),
            r.1@.map_values(|m: String| m@) == failure_messages(self.history()),
    {
        (self.records, self.failures)
    }

    /// At no point are more operations in flight than the concurrency cap.
    pub proof fn lemma_in_flight_bounded(&self)
        requires
            self.wf(),
        ensures
            self.in_flight() <= self.cap(),
    {
        self.budget.lemma_bounded();
    }

    /// A drained run has attempted exactly its items: one recorded outcome
    /// per item, whatever each outcome was.
    pub proof fn lemma_drained_run_attempts_each_item_once(&self)
        requires
            self.wf(),
            self.started() == self.items_seq().len(),
            self.in_flight() == 0,
        ensures
            self.history().len() == self.items_seq().len(),
    {
    }
}

} // verus!
