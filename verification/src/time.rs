//! Points in time and the spans between them.
use vstd::prelude::*;

verus! {

/// A point in time: nanoseconds since an epoch that all points share.
pub type Nanos = u128;

/// Nanoseconds from `start` to `end`; none if `end` comes first.
pub open spec fn span(start: Nanos, end: Nanos) -> nat {
    if start <= end {
        (end - start) as nat
    } else {
        0
    }
}

/// Nanoseconds from `start` to `end`; zero if `end` comes first.
pub fn duration_since(end: Nanos, start: Nanos) -> (nanos: u128)
    ensures
        nanos == span(start, end),
{
    if start <= end {
        end - start
    } else {
        0
    }
}

/// A span is what has to be added to its start to get to its end; there is none back in time.
pub proof fn span_leads_from_start_to_end(start: Nanos, end: Nanos)
    ensures
        start <= end ==> start + span(start, end) == end,
        end <= start ==> span(start, end) == 0,
{
}

/// Spans that follow each other add up.
pub proof fn spans_add_up(a: Nanos, b: Nanos, c: Nanos)
    requires
        a <= b <= c,
    ensures
        span(a, b) + span(b, c) == span(a, c),
{
}

/// How long the given runs, each from its start to its end, took together. A run that ends before
/// it starts takes no time.
pub open spec fn total_time(runs: Seq<(Nanos, Nanos)>) -> int
    decreases runs.len(),
{
    if runs.len() == 0 {
        0
    } else if runs.last().0 <= runs.last().1 {
        total_time(runs.drop_last()) + (runs.last().1 - runs.last().0)
    } else {
        total_time(runs.drop_last())
    }
}

/// The last run takes its part of the total time, and the others the rest.
pub proof fn lemma_last_run(runs: Seq<(Nanos, Nanos)>)
    requires
        runs.len() > 0,
    ensures
        total_time(runs) == total_time(runs.drop_last()) + span(runs.last().0, runs.last().1),
        total_time(runs.drop_last()) >= 0,
    decreases runs.len(),
{
    if runs.len() > 1 {
        lemma_last_run(runs.drop_last());
    }
}

} // verus!
