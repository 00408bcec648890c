//! Counts of returned and omitted objects that a retrieval trace's lifecycle decisions
//! report, as the retrieval telemetry records them.
use vstd::prelude::*;

verus! {

/// What a lifecycle filter did with a candidate.
#[derive(Debug, Clone, Copy, PartialEq, Eq, Structural)]
pub enum LifecycleAction {
    Included,
    Omitted,
}

/// Why a lifecycle filter decided as it did; reasons the counts do not look at are
/// `Other`.
#[derive(Debug, Clone, Copy, PartialEq, Eq, Structural)]
pub enum LifecycleReason {
    SuppressedIncludedByPolicy,
    DeletedIncludedByPolicy,
    NonCurrentIncludedByPolicy,
    SupersededIncludedByPolicy,
    GraphObjectMissing,
    Other,
}

/// The retention state a decision saw; states the counts do not look at are `Other`.
#[derive(Debug, Clone, Copy, PartialEq, Eq, Structural)]
pub enum RetentionMark {
    Suppressed,
    Deleted,
    Other,
}

/// Why a stale candidate was omitted; reasons the counts do not look at are `Other`.
#[derive(Debug, Clone, Copy, PartialEq, Eq, Structural)]
pub enum StaleReason {
    GraphObjectMissing,
    Other,
}

/// One lifecycle filter decision of a retrieval trace.
#[derive(Debug, Clone, Copy, PartialEq, Eq, Structural)]
pub struct LifecycleDecision {
    pub object_id: u128,
    pub action: LifecycleAction,
    pub reason: LifecycleReason,
    pub retention_state: Option<RetentionMark>,
    pub is_current: Option<bool>,
    pub superseded_by_count: usize,
}

/// The lifecycle counts of a traced retrieval.
#[derive(Debug, Clone, Copy, PartialEq, Eq, Structural)]
pub struct LifecycleCounts {
    pub suppressed_or_deleted_returned: usize,
    pub superseded_current_returned: usize,
    pub graph_object_missing_omitted: usize,
    pub graph_object_missing_returned: usize,
}

/// A returned object was included although suppressed or deleted.
pub open spec fn suppressed_or_deleted_returned(returned: Seq<u128>, d: LifecycleDecision) -> bool {
    &&& returned.contains(d.object_id)
    &&& d.action == LifecycleAction::Included
    &&& (d.retention_state == Some(RetentionMark::Suppressed) || d.retention_state == Some(
        RetentionMark::Deleted,
    ) || d.reason == LifecycleReason::SuppressedIncludedByPolicy || d.reason
        == LifecycleReason::DeletedIncludedByPolicy)
}

/// A returned object was included although no longer current or superseded.
pub open spec fn superseded_current_returned(returned: Seq<u128>, d: LifecycleDecision) -> bool {
    &&& returned.contains(d.object_id)
    &&& d.action == LifecycleAction::Included
    &&& (d.is_current == Some(false) || d.superseded_by_count > 0 || d.reason
        == LifecycleReason::NonCurrentIncludedByPolicy || d.reason
        == LifecycleReason::SupersededIncludedByPolicy)
}

/// An object that was not returned was omitted because its graph object is missing.
pub open spec fn graph_missing_omitted(returned: Seq<u128>, d: LifecycleDecision) -> bool {
    &&& !returned.contains(d.object_id)
    &&& d.action == LifecycleAction::Omitted
    &&& d.reason == LifecycleReason::GraphObjectMissing
}

/// A returned object was included although its graph object is missing.
pub open spec fn graph_missing_returned(returned: Seq<u128>, d: LifecycleDecision) -> bool {
    &&& returned.contains(d.object_id)
    &&& d.action == LifecycleAction::Included
    &&& d.reason == LifecycleReason::GraphObjectMissing
}

/// Which of the four counts a decision is weighed for.
pub enum CountKind {
    SuppressedOrDeleted,
    SupersededCurrent,
    GraphMissingOmitted,
    GraphMissingReturned,
}

pub open spec fn counted(k: CountKind, returned: Seq<u128>, d: LifecycleDecision) -> bool {
    match k {
        CountKind::SuppressedOrDeleted => suppressed_or_deleted_returned(returned, d),
        CountKind::SupersededCurrent => superseded_current_returned(returned, d),
        CountKind::GraphMissingOmitted => graph_missing_omitted(returned, d),
        CountKind::GraphMissingReturned => graph_missing_returned(returned, d),
    }
}

/// How many of the decisions are counted for `k`.
pub open spec fn count_where(k: CountKind, returned: Seq<u128>, ds: Seq<LifecycleDecision>) -> nat
    decreases ds.len(),
{
    if ds.len() == 0 {
        0
    } else {
        count_where(k, returned, ds.drop_last()) + if counted(k, returned, ds.last()) {
            1nat
        } else {
            0nat
        }
    }
}

/// How many stale-candidate omissions name a missing graph object.
pub open spec fn stale_graph_missing(reasons: Seq<StaleReason>) -> nat
    decreases reasons.len(),
{
    if reasons.len() == 0 {
        0
    } else {
        stale_graph_missing(reasons.drop_last()) + if reasons.last() == StaleReason::GraphObjectMissing {
            1nat
        } else {
            0nat
        }
    }
}

proof fn lemma_count_bounded(k: CountKind, returned: Seq<u128>, ds: Seq<LifecycleDecision>)
    ensures
        count_where(k, returned, ds) <= ds.len(),
    decreases ds.len(),
{
    if ds.len() > 0 {
        lemma_count_bounded(k, returned, ds.drop_last());
    }
}

proof fn lemma_stale_bounded(reasons: Seq<StaleReason>)
    ensures
        stale_graph_missing(reasons) <= reasons.len(),
    decreases reasons.len(),
{
    if reasons.len() > 0 {
        lemma_stale_bounded(reasons.drop_last());
    }
}

fn contains_id(ids: &Vec<u128>, id: u128) -> (r: bool)
    ensures
        r == ids@.contains(id),
{
    let mut i: usize = 0;
    while i < ids.len()
        invariant
            i <= ids@.len(),
            forall|j: int| 0 <= j < i ==> ids@[j] != id,
        decreases ids@.len() - i,
    {
        if ids[i] == id {
            assert(ids@[i as int] == id);
            return true;
        }
        i = i + 1;
    }
    false
}

fn is_counted(k: &CountKind, returned: &Vec<u128>, d: &LifecycleDecision) -> (r: bool)
    ensures
        r == counted(*k, returned@, *d),
{
    let present = contains_id(returned, d.object_id);
    match k {
        CountKind::SuppressedOrDeleted => present && d.action == LifecycleAction::Included && (
        d.retention_state == Some(RetentionMark::Suppressed) || d.retention_state == Some(
            RetentionMark::Deleted,
        ) || d.reason == LifecycleReason::SuppressedIncludedByPolicy || d.reason
            == LifecycleReason::DeletedIncludedByPolicy),
        CountKind::SupersededCurrent => present && d.action == LifecycleAction::Included && (
        d.is_current == Some(false) || d.superseded_by_count > 0 || d.reason
            == LifecycleReason::NonCurrentIncludedByPolicy || d.reason
            == LifecycleReason::SupersededIncludedByPolicy),
        CountKind::GraphMissingOmitted => !present && d.action == LifecycleAction::Omitted
            && d.reason == LifecycleReason::GraphObjectMissing,
        CountKind::GraphMissingReturned => present && d.action == LifecycleAction::Included
            && d.reason == LifecycleReason::GraphObjectMissing,
    }
}

fn count_decisions(k: CountKind, returned: &Vec<u128>, decisions: &Vec<LifecycleDecision>) -> (n: usize)
    ensures
        n == count_where(k, returned@, decisions@),
{
    let mut n: usize = 0;
    let mut i: usize = 0;
    while i < decisions.len()
        invariant
            i <= decisions@.len(),
            n == count_where(k, returned@, decisions@.subrange(0, i as int)),
            n <= i,
        decreases decisions@.len() - i,
    {
        assert(decisions@.subrange(0, i + 1).drop_last() =~= decisions@.subrange(0, i as int));
        if is_counted(&k, returned, &decisions[i]) {
            n = n + 1;
        }
        i = i + 1;
    }
    assert(decisions@.subrange(0, decisions@.len() as int) =~= decisions@);
    n
}

fn count_stale_graph_missing(reasons: &Vec<StaleReason>) -> (n: usize)
    ensures
        n == stale_graph_missing(reasons@),
{
    let mut n: usize = 0;
    let mut i: usize = 0;
    while i < reasons.len()
        invariant
            i <= reasons@.len(),
            n == stale_graph_missing(reasons@.subrange(0, i as int)),
            n <= i,
        decreases reasons@.len() - i,
    {
        assert(reasons@.subrange(0, i + 1).drop_last() =~= reasons@.subrange(0, i as int));
        if reasons[i] == StaleReason::GraphObjectMissing {
            n = n + 1;
        }
        i = i + 1;
    }
    assert(reasons@.subrange(0, reasons@.len() as int) =~= reasons@);
    n
}

/// The lifecycle counts of a traced retrieval: each counts the lifecycle decisions of
/// its kind, and the omitted count adds the stale-candidate omissions that name a
/// missing graph object.
pub fn returned_lifecycle_counts(
    returned: &Vec<u128>,
    decisions: &Vec<LifecycleDecision>,
    stale_omissions: &Vec<StaleReason>,
) -> (c: LifecycleCounts)
    requires
        stale_omissions@.len() + decisions@.len() <= usize::MAX,
    ensures
        c.suppressed_or_deleted_returned == count_where(
            CountKind::SuppressedOrDeleted,
            returned@,
            decisions@,
        ),
        c.superseded_current_returned == count_where(CountKind::SupersededCurrent, returned@, decisions@),
        c.graph_object_missing_omitted == stale_graph_missing(stale_omissions@) + count_where(
            CountKind::GraphMissingOmitted,
            returned@,
            decisions@,
        ),
        c.graph_object_missing_returned == count_where(
            CountKind::GraphMissingReturned,
            returned@,
            decisions@,
        ),
{
    let stale = count_stale_graph_missing(stale_omissions);
    let omitted = count_decisions(CountKind::GraphMissingOmitted, returned, decisions);
    proof {
        lemma_stale_bounded(stale_omissions@);
        lemma_count_bounded(CountKind::GraphMissingOmitted, returned@, decisions@);
    }
    LifecycleCounts {
        suppressed_or_deleted_returned: count_decisions(CountKind::SuppressedOrDeleted, returned, decisions),
        superseded_current_returned: count_decisions(CountKind::SupersededCurrent, returned, decisions),
        graph_object_missing_omitted: stale + omitted,
        graph_object_missing_returned: count_decisions(CountKind::GraphMissingReturned, returned, decisions),
    }
}

} // verus!
