//! The integer measurements of a restart probe, taken from what a retrieval returned.
use vstd::prelude::*;

use crate::driver::{
    relevant_returned, relevant_returned_count, reported_id, returned_object_ids,
    ExpectedRelevance, RestartProbeCounts, ReturnedItem,
};
use crate::order::{has_text, strictly_sorted};

verus! {

/// A selectivity decision of a retrieval trace: whether it was scored and whether it
/// fell back.
#[derive(Debug, Clone, Copy, PartialEq, Eq, Structural)]
pub struct SelectivityDecision {
    pub scored: bool,
    pub fallback: bool,
}

/// The parts of a native retrieval trace that restart probes count.
#[derive(Debug, Clone, PartialEq, Eq)]
pub struct TraceSummary {
    pub graph_relation_count: usize,
    pub fanout_decision_count: usize,
    pub selectivity_decisions: Vec<SelectivityDecision>,
}

/// One retrieval outcome of a pack: how many results the graph verified, and its trace
/// when the retrieval recorded one.
#[derive(Debug, Clone, PartialEq, Eq)]
pub struct OutcomeSummary {
    pub graph_verified_count: usize,
    pub trace: Option<TraceSummary>,
}

/// How many of the first `n` decisions satisfy `pick`.
pub open spec fn decisions_counted(d: Seq<SelectivityDecision>, pick: spec_fn(SelectivityDecision) -> bool, n: int) -> nat
    decreases n,
{
    if n <= 0 {
        0
    } else {
        decisions_counted(d, pick, n - 1) + if pick(d[n - 1]) {
            1nat
        } else {
            0nat
        }
    }
}

/// What a restart probe counts in a trace.
#[derive(Debug, Clone, Copy, PartialEq, Eq, Structural)]
pub enum TraceMeasure {
    GraphRelations,
    FanoutDecisions,
    SelectivityDecisions,
    ScoredSelectivity,
    FallbackSelectivity,
}

/// A measurement of one trace.
pub open spec fn trace_measure(t: TraceSummary, which: TraceMeasure) -> nat {
    let d = t.selectivity_decisions@;
    match which {
        TraceMeasure::GraphRelations => t.graph_relation_count as nat,
        TraceMeasure::FanoutDecisions => t.fanout_decision_count as nat,
        TraceMeasure::SelectivityDecisions => d.len(),
        TraceMeasure::ScoredSelectivity => decisions_counted(
            d,
            |x: SelectivityDecision| x.scored,
            d.len() as int,
        ),
        TraceMeasure::FallbackSelectivity => decisions_counted(
            d,
            |x: SelectivityDecision| x.fallback,
            d.len() as int,
        ),
    }
}

/// The sum of a trace measurement over the traces of the first `n` outcomes.
pub open spec fn traced_sum(outcomes: Seq<OutcomeSummary>, which: TraceMeasure, n: int) -> nat
    decreases n,
{
    if n <= 0 {
        0
    } else {
        traced_sum(outcomes, which, n - 1) + match outcomes[n - 1].trace {
            Some(t) => trace_measure(t, which),
            None => 0,
        }
    }
}

/// The sum of the graph-verified counts of the first `n` outcomes.
pub open spec fn verified_sum(outcomes: Seq<OutcomeSummary>, n: int) -> nat
    decreases n,
{
    if n <= 0 {
        0
    } else {
        verified_sum(outcomes, n - 1) + outcomes[n - 1].graph_verified_count as nat
    }
}

/// Some outcome recorded a trace.
pub open spec fn has_trace(outcomes: Seq<OutcomeSummary>) -> bool {
    exists|k: int| 0 <= k < outcomes.len() && (#[trigger] outcomes[k]).trace is Some
}

/// The sums of a pack fit in `usize`.
pub open spec fn sums_fit(outcomes: Seq<OutcomeSummary>) -> bool {
    &&& verified_sum(outcomes, outcomes.len() as int) <= usize::MAX
    &&& forall|which: TraceMeasure| #[trigger] traced_sum(outcomes, which, outcomes.len() as int) <= usize::MAX
}

proof fn lemma_decisions_monotone(d: Seq<SelectivityDecision>, pick: spec_fn(SelectivityDecision) -> bool, m: int, n: int)
    requires
        0 <= m <= n,
    ensures
        decisions_counted(d, pick, m) <= decisions_counted(d, pick, n),
        decisions_counted(d, pick, n) <= n,
    decreases n,
{
    if n > 0 {
        if m < n {
            lemma_decisions_monotone(d, pick, m, n - 1);
        } else {
            lemma_decisions_monotone(d, pick, m - 1, n - 1);
        }
    }
}

proof fn lemma_traced_monotone(outcomes: Seq<OutcomeSummary>, which: TraceMeasure, m: int, n: int)
    requires
        0 <= m <= n,
    ensures
        traced_sum(outcomes, which, m) <= traced_sum(outcomes, which, n),
    decreases n,
{
    if n > m {
        lemma_traced_monotone(outcomes, which, m, n - 1);
    }
}

proof fn lemma_verified_monotone(outcomes: Seq<OutcomeSummary>, m: int, n: int)
    requires
        0 <= m <= n,
    ensures
        verified_sum(outcomes, m) <= verified_sum(outcomes, n),
    decreases n,
{
    if n > m {
        lemma_verified_monotone(outcomes, m, n - 1);
    }
}

fn count_decisions(d: &Vec<SelectivityDecision>, fallback: bool) -> (n: usize)
    ensures
        n == (if fallback {
            decisions_counted(d@, |x: SelectivityDecision| x.fallback, d@.len() as int)
        } else {
            decisions_counted(d@, |x: SelectivityDecision| x.scored, d@.len() as int)
        }),
{
    let ghost pick = if fallback {
        |x: SelectivityDecision| x.fallback
    } else {
        |x: SelectivityDecision| x.scored
    };
    let mut n: usize = 0;
    let mut i: usize = 0;
    while i < d.len()
        invariant
            i <= d@.len(),
            n == decisions_counted(d@, pick, i as int),
            n <= i,
            pick == (if fallback {
                |x: SelectivityDecision| x.fallback
            } else {
                |x: SelectivityDecision| x.scored
            }),
        decreases d@.len() - i,
    {
        proof {
            lemma_decisions_monotone(d@, pick, i as int, i as int);
        }
        let hit = if fallback {
            d[i].fallback
        } else {
            d[i].scored
        };
        assert(hit == pick(d@[i as int]));
        if hit {
            n = n + 1;
        }
        i = i + 1;
    }
    n
}

fn trace_measure_exec(t: &TraceSummary, which: TraceMeasure) -> (n: usize)
    ensures
        n == trace_measure(*t, which),
{
    match which {
        TraceMeasure::GraphRelations => t.graph_relation_count,
        TraceMeasure::FanoutDecisions => t.fanout_decision_count,
        TraceMeasure::SelectivityDecisions => t.selectivity_decisions.len(),
        TraceMeasure::ScoredSelectivity => count_decisions(&t.selectivity_decisions, false),
        TraceMeasure::FallbackSelectivity => count_decisions(&t.selectivity_decisions, true),
    }
}

fn traced_total(outcomes: &Vec<OutcomeSummary>, which: TraceMeasure) -> (n: usize)
    requires
        traced_sum(outcomes@, which, outcomes@.len() as int) <= usize::MAX,
    ensures
        n == traced_sum(outcomes@, which, outcomes@.len() as int),
{
    let mut n: usize = 0;
    let mut i: usize = 0;
    while i < outcomes.len()
        invariant
            i <= outcomes@.len(),
            n == traced_sum(outcomes@, which, i as int),
            traced_sum(outcomes@, which, outcomes@.len() as int) <= usize::MAX,
        decreases outcomes@.len() - i,
    {
        proof {
            lemma_traced_monotone(outcomes@, which, i + 1, outcomes@.len() as int);
        }
        match &outcomes[i].trace {
            Some(t) => {
                let m = trace_measure_exec(t, which);
                n = n + m;
            },
            None => {},
        }
        i = i + 1;
    }
    n
}

fn verified_total(outcomes: &Vec<OutcomeSummary>) -> (n: usize)
    requires
        verified_sum(outcomes@, outcomes@.len() as int) <= usize::MAX,
    ensures
        n == verified_sum(outcomes@, outcomes@.len() as int),
{
    let mut n: usize = 0;
    let mut i: usize = 0;
    while i < outcomes.len()
        invariant
            i <= outcomes@.len(),
            n == verified_sum(outcomes@, i as int),
            verified_sum(outcomes@, outcomes@.len() as int) <= usize::MAX,
        decreases outcomes@.len() - i,
    {
        proof {
            lemma_verified_monotone(outcomes@, i + 1, outcomes@.len() as int);
        }
        n = n + outcomes[i].graph_verified_count;
        i = i + 1;
    }
    n
}

fn any_trace(outcomes: &Vec<OutcomeSummary>) -> (r: bool)
    ensures
        r == has_trace(outcomes@),
{
    let mut i: usize = 0;
    while i < outcomes.len()
        invariant
            i <= outcomes@.len(),
            forall|k: int| 0 <= k < i ==> (#[trigger] outcomes@[k]).trace is None,
        decreases outcomes@.len() - i,
    {
        if outcomes[i].trace.is_some() {
            return true;
        }
        i = i + 1;
    }
    false
}

/// A measurement taken only when some outcome recorded a trace.
pub open spec fn when_traced(outcomes: Seq<OutcomeSummary>, value: nat) -> Option<usize> {
    if has_trace(outcomes) {
        Some(value as usize)
    } else {
        None
    }
}

/// The integer measurements of a restart probe: the distinct ids returned, in order; how
/// many expected relevant ids some item stands for; how many were expected; and, when
/// some outcome recorded a trace, the sums over the traces of the graph relations,
/// fan-out decisions, selectivity decisions and their scored and fallback ones, with the
/// sum of graph-verified counts over all outcomes.
pub fn restart_probe_counts(
    expected: &ExpectedRelevance,
    items: &Vec<ReturnedItem>,
    outcomes: &Vec<OutcomeSummary>,
) -> (c: RestartProbeCounts)
    requires
        sums_fit(outcomes@),
    ensures
        strictly_sorted(c.returned_object_ids@),
        forall|x: Seq<char>|
            #[trigger] has_text(c.returned_object_ids@, x) <==> exists|k: int|
                0 <= k < items@.len() && reported_id(#[trigger] items@[k]) == x,
        c.relevant_returned_count == relevant_returned(expected.relevant_external_ids@, items@),
        c.expected_relevant_count == expected.relevant_external_ids@.len(),
        c.graph_relation_count == when_traced(outcomes@, traced_sum(outcomes@, TraceMeasure::GraphRelations, outcomes@.len() as int)),
        c.fanout_decision_count == when_traced(outcomes@, traced_sum(outcomes@, TraceMeasure::FanoutDecisions, outcomes@.len() as int)),
        c.selectivity_decision_count == when_traced(outcomes@, traced_sum(outcomes@, TraceMeasure::SelectivityDecisions, outcomes@.len() as int)),
        c.scored_selectivity_count == when_traced(outcomes@, traced_sum(outcomes@, TraceMeasure::ScoredSelectivity, outcomes@.len() as int)),
        c.fallback_selectivity_count == when_traced(outcomes@, traced_sum(outcomes@, TraceMeasure::FallbackSelectivity, outcomes@.len() as int)),
        c.graph_verified_count == when_traced(outcomes@, verified_sum(outcomes@, outcomes@.len() as int)),
{
    assert(traced_sum(outcomes@, TraceMeasure::GraphRelations, outcomes@.len() as int) <= usize::MAX);
    assert(traced_sum(outcomes@, TraceMeasure::FanoutDecisions, outcomes@.len() as int) <= usize::MAX);
    assert(traced_sum(outcomes@, TraceMeasure::SelectivityDecisions, outcomes@.len() as int) <= usize::MAX);
    assert(traced_sum(outcomes@, TraceMeasure::ScoredSelectivity, outcomes@.len() as int) <= usize::MAX);
    assert(traced_sum(outcomes@, TraceMeasure::FallbackSelectivity, outcomes@.len() as int) <= usize::MAX);
    let traced = any_trace(outcomes);
    let (relations, fanout, selectivity, scored, fallback, verified) = if traced {
        (
            Some(traced_total(outcomes, TraceMeasure::GraphRelations)),
            Some(traced_total(outcomes, TraceMeasure::FanoutDecisions)),
            Some(traced_total(outcomes, TraceMeasure::SelectivityDecisions)),
            Some(traced_total(outcomes, TraceMeasure::ScoredSelectivity)),
            Some(traced_total(outcomes, TraceMeasure::FallbackSelectivity)),
            Some(verified_total(outcomes)),
        )
    } else {
        (None, None, None, None, None, None)
    };
    RestartProbeCounts {
        returned_object_ids: returned_object_ids(items),
        relevant_returned_count: relevant_returned_count(&expected.relevant_external_ids, items),
        expected_relevant_count: expected.relevant_external_ids.len(),
        graph_relation_count: relations,
        graph_verified_count: verified,
        fanout_decision_count: fanout,
        selectivity_decision_count: selectivity,
        scored_selectivity_count: scored,
        fallback_selectivity_count: fallback,
    }
}

} // verus!
