use cmem_eval_bench::telemetry::{
    returned_lifecycle_counts, LifecycleAction, LifecycleCounts, LifecycleDecision, LifecycleReason,
    RetentionMark, StaleReason,
};

fn decision(object_id: u128, action: LifecycleAction, reason: LifecycleReason) -> LifecycleDecision {
    LifecycleDecision {
        object_id,
        action,
        reason,
        retention_state: None,
        is_current: None,
        superseded_by_count: 0,
    }
}

#[test]
fn lifecycle_counts_filter_the_decisions_by_kind() {
    let returned = vec![1u128, 2, 3];
    let mut suppressed = decision(1, LifecycleAction::Included, LifecycleReason::Other);
    suppressed.retention_state = Some(RetentionMark::Suppressed);
    let mut stale = decision(2, LifecycleAction::Included, LifecycleReason::Other);
    stale.is_current = Some(false);
    let mut superseded_not_returned = decision(9, LifecycleAction::Included, LifecycleReason::Other);
    superseded_not_returned.superseded_by_count = 1;
    let decisions = vec![
        suppressed,
        stale,
        superseded_not_returned,
        decision(3, LifecycleAction::Included, LifecycleReason::DeletedIncludedByPolicy),
        decision(3, LifecycleAction::Included, LifecycleReason::GraphObjectMissing),
        decision(7, LifecycleAction::Omitted, LifecycleReason::GraphObjectMissing),
        decision(1, LifecycleAction::Omitted, LifecycleReason::GraphObjectMissing),
    ];
    let stale_omissions = vec![StaleReason::GraphObjectMissing, StaleReason::Other];
    assert_eq!(
        returned_lifecycle_counts(&returned, &decisions, &stale_omissions),
        LifecycleCounts {
            suppressed_or_deleted_returned: 2,
            superseded_current_returned: 1,
            graph_object_missing_omitted: 2,
            graph_object_missing_returned: 1,
        }
    );
    assert_eq!(
        returned_lifecycle_counts(&Vec::new(), &Vec::new(), &Vec::new()),
        LifecycleCounts {
            suppressed_or_deleted_returned: 0,
            superseded_current_returned: 0,
            graph_object_missing_omitted: 0,
            graph_object_missing_returned: 0,
        }
    );
}
