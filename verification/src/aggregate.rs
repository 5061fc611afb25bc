//! Per-item outcomes and the result aggregator: every resolution or query
//! attempt yields exactly one outcome, and a run's outcomes are partitioned
//! into one flat record collection and one failure log.

use vstd::prelude::*;

use crate::records::ResourceRecord;

verus! {

/// The result of one resolution or query attempt: the records it returned,
/// or the description of its failure.
pub enum Outcome {
    Success { records: Vec<ResourceRecord> },
    Failure { message: String },
}

/// The records of all successful outcomes, flattened in order.
pub open spec fn flatten_successes(h: Seq<Outcome>) -> Seq<ResourceRecord>
    decreases h.len(),
{
    if h.len() == 0 {
        seq![]
    } else {
        flatten_successes(h.drop_last()) + match h.last() {
            Outcome::Success { records } => records@,
            Outcome::Failure { .. } => seq![],
        }
    }
}

/// The messages of all failed outcomes, in order.
pub open spec fn failure_messages(h: Seq<Outcome>) -> Seq<Seq<char>>
    decreases h.len(),
{
    if h.len() == 0 {
        seq![]
    } else {
        failure_messages(h.drop_last()) + match h.last() {
            Outcome::Success { .. } => seq![],
            Outcome::Failure { message } => seq![message@],
        }
    }
}

/// How many outcomes failed.
pub open spec fn count_failures(h: Seq<Outcome>) -> int
    decreases h.len(),
{
    if h.len() == 0 {
        0
    } else {
        count_failures(h.drop_last()) + match h.last() {
            Outcome::Success { .. } => 0int,
            Outcome::Failure { .. } => 1int,
        }
    }
}

/// How many outcomes succeeded.
pub open spec fn count_successes(h: Seq<Outcome>) -> int
    decreases h.len(),
{
    if h.len() == 0 {
        0
    } else {
        count_successes(h.drop_last()) + match h.last() {
            Outcome::Success { .. } => 1int,
            Outcome::Failure { .. } => 0int,
        }
    }
}

/// The failure log has exactly one line for each failed outcome, and every
/// outcome is counted exactly once as a success or as a failure.
pub proof fn lemma_one_log_line_per_failure(h: Seq<Outcome>)
    ensures
        failure_messages(h).len() == count_failures(h),
        count_failures(h) + count_successes(h) == h.len(),
        count_failures(h) >= 0,
        count_successes(h) >= 0,
    decreases h.len(),
{
    if h.len() > 0 {
        lemma_one_log_line_per_failure(h.drop_last());
    }
}

/// When every outcome fails, the aggregate is empty and the log holds one
/// line per outcome.
pub proof fn lemma_all_failures_empty_aggregate(h: Seq<Outcome>)
    requires
        count_failures(h) == h.len(),
    ensures
        flatten_successes(h) =~= Seq::<ResourceRecord>::empty(),
        failure_messages(h).len() == h.len(),
    decreases h.len(),
{
    lemma_one_log_line_per_failure(h);
    if h.len() > 0 {
        lemma_one_log_line_per_failure(h.drop_last());
        lemma_all_failures_empty_aggregate(h.drop_last());
    }
}

/// Partition a run's outcomes: the flattened records of every success, in
/// order, beside the message of every failure, in order.
pub fn aggregate(outcomes: Vec<Outcome>) -> (r: (Vec<ResourceRecord>, Vec<String>))
    ensures
        r.0@ == flatten_successes(outcomes@),
        r.1@.map_values(|m: String| m@) == failure_messages(outcomes@),
{
    let ghost all = outcomes@;
    let mut rest = outcomes;
    let mut records: Vec<ResourceRecord> = Vec::new();
    let mut failures: Vec<String> = Vec::new();
    proof {
        assert(records@ =~= flatten_successes(all.take(0)));
        assert(failures@.map_values(|m: String| m@) =~= failure_messages(all.take(0)));
    }
    let ghost mut taken: int = 0;
    while rest.len() > 0
        invariant
            0 <= taken <= all.len(),
            rest@ =~= all.skip(taken),
            records@ == flatten_successes(all.take(taken)),
            failures@.map_values(|m: String| m@) == failure_messages(all.take(taken)),
        decreases rest.len(),
    {
        let oc = rest.remove(0);
        proof {
            assert(oc == all[taken]);
            assert(rest@ =~= all.skip(taken + 1));
            assert(all.take(taken + 1).drop_last() =~= all.take(taken));
            assert(all.take(taken + 1).last() == all[taken]);
        }
        match oc {
            Outcome::Success { records: mut found } => {
                records.append(&mut found);
                proof {
                    assert(records@ =~= flatten_successes(all.take(taken + 1)));
                    assert(failures@.map_values(|m: String| m@) =~= failure_messages(
                        all.take(taken + 1),
                    ));
                }
            },
            Outcome::Failure { message } => {
                let ghost prev = failures@;
                failures.push(message);
                proof {
                    prev.lemma_push_map_commute(|m: String| m@, message);
                    assert(failures@.map_values(|m: String| m@) =~= failure_messages(
                        all.take(taken + 1),
                    ));
                    assert(records@ =~= flatten_successes(all.take(taken + 1)));
                }
            },
        }
        proof {
            taken = taken + 1;
        }
    }
    proof {
        assert(all.take(taken) =~= all);
    }
    (records, failures)
}

} // verus!
