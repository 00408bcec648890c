use cmem_eval_bench::driver::{
    checked_write_outcome, correction_target_input, endpoint, forget_target, increment,
    is_supported, option_usize_delta, relevant_returned_count, restart_probe_delta,
    returned_object_ids, scenario_missing_features, signed_delta, supported_scenario_features,
    AdmittedObject, CorrectionTarget, DriverError, ExpectedRelevance, ExpectedRelevanceRecord,
    MemoryEndpoint, ObjectType, OperationCounts, RestartProbeCounts, ReturnedItem,
    ScenarioFeature, WriteOutcomeFault, WriteOutcomeSummary,
};
use cmem_eval_bench::driver::{event_operations, following_query, record_operations, ScriptedEventKind};
use cmem_eval_bench::probe::{restart_probe_counts, OutcomeSummary, SelectivityDecision, TraceSummary};
use cmem_eval_bench::textmap::TextMap;

fn admitted(object_type: ObjectType) -> AdmittedObject {
    AdmittedObject {
        object_type,
        source_episode_external_id: None,
        original_raw_ref: None,
        original_setting_key: None,
    }
}

#[test]
fn source_correction_target_preserves_authoritative_write_references() {
    let admitted = AdmittedObject {
        object_type: ObjectType::Episode,
        source_episode_external_id: Some("delivery-v1".to_string()),
        original_raw_ref: Some(
            "continuity://correction-chains/event-001?at=2025-01-01T08:00:00Z".to_string(),
        ),
        original_setting_key: Some("delivery-v1".to_string()),
    };

    let (target, supersedes) =
        correction_target_input("correction-chains", "delivery-v1", &admitted).unwrap();

    assert_eq!(supersedes, Vec::<String>::new());
    assert_eq!(
        target,
        CorrectionTarget::SourceObject {
            object_type: ObjectType::Episode,
            external_id: "delivery-v1".to_string(),
            original_raw_ref: Some(
                "continuity://correction-chains/event-001?at=2025-01-01T08:00:00Z".to_string()
            ),
            original_setting_key: Some("delivery-v1".to_string()),
        }
    );
}

#[test]
fn correction_targets_by_object_kind() {
    assert_eq!(
        correction_target_input("f", "d1", &admitted(ObjectType::DerivedMemory)).unwrap(),
        (CorrectionTarget::DerivedMemory { external_id: "d1".to_string() }, vec!["d1".to_string()])
    );
    let error = correction_target_input("f", "e1", &admitted(ObjectType::Episode)).unwrap_err();
    assert_eq!(
        error,
        DriverError::NoAuthoritativeReference {
            fixture_id: "f".to_string(),
            target_external_id: "e1".to_string()
        }
    );
    assert_eq!(
        error.message(),
        "scenario \"f\" source correction target \"e1\" has no authoritative original reference"
    );
    assert_eq!(
        correction_target_input("f", "x", &admitted(ObjectType::Entity)).unwrap_err().message(),
        "scenario \"f\" cannot correct object type Entity"
    );
}

#[test]
fn endpoints_and_forget_targets_must_be_admitted_and_of_the_right_kind() {
    let mut objects: TextMap<AdmittedObject> = TextMap::new();
    objects.insert("ep", admitted(ObjectType::Episode));
    objects.insert("link", admitted(ObjectType::MemoryLink));
    objects.insert("ent", admitted(ObjectType::Entity));
    assert_eq!(
        endpoint("f", &objects, "ep").unwrap(),
        MemoryEndpoint { object_type: ObjectType::Episode, external_id: "ep".to_string() }
    );
    assert_eq!(
        endpoint("f", &objects, "link").unwrap_err().message(),
        "scenario \"f\" cannot use a memory link as a link endpoint"
    );
    assert_eq!(
        endpoint("f", &objects, "nope").unwrap_err().message(),
        "scenario \"f\" link endpoint was not admitted: nope"
    );
    assert_eq!(forget_target("f", &objects, "ep").unwrap().external_id, "ep");
    assert_eq!(
        forget_target("f", &objects, "ent").unwrap_err().message(),
        "scenario \"f\" cannot forget object type Entity"
    );
    assert_eq!(
        forget_target("f", &objects, "nope").unwrap_err().message(),
        "scenario \"f\" forget target was not admitted: nope"
    );
}

fn item(external: Option<&str>, episode: Option<&str>) -> ReturnedItem {
    ReturnedItem {
        kind: "observation".to_string(),
        internal_id: "observation-internal".to_string(),
        external_id: external.map(str::to_string),
        episode_external_id: episode.map(str::to_string),
    }
}

#[test]
fn restart_recall_matches_items_by_represented_episode_identity() {
    let items = vec![item(Some("observation-external"), Some("episode-relevant"))];
    let expected = ExpectedRelevance {
        relevant_external_ids: vec!["episode-relevant".to_string()],
        irrelevant_external_ids: vec!["episode-negative".to_string()],
    };
    let snapshot = restart_probe_counts(&expected, &items, &Vec::new());
    assert_eq!(snapshot.relevant_returned_count, 1);
    assert_eq!(snapshot.expected_relevant_count, 1);
    assert_eq!(snapshot.returned_object_ids, vec!["observation-external".to_string()]);
    assert_eq!(snapshot.fanout_decision_count, None);
    for native_trace in [
        None,
        Some(TraceSummary {
            graph_relation_count: 0,
            fanout_decision_count: 0,
            selectivity_decisions: Vec::new(),
        }),
    ] {
        let outcome = OutcomeSummary { graph_verified_count: 0, trace: None };
        let has_trace = native_trace.is_some();
        let second = OutcomeSummary { graph_verified_count: 2, trace: native_trace };
        let snapshot = restart_probe_counts(&expected, &Vec::new(), &vec![outcome, second]);
        assert_eq!(snapshot.graph_verified_count, has_trace.then_some(2));
        assert_eq!(snapshot.graph_relation_count, has_trace.then_some(0));
        assert_eq!(snapshot.fanout_decision_count, has_trace.then_some(0));
        assert_eq!(snapshot.selectivity_decision_count, has_trace.then_some(0));
        assert_eq!(snapshot.scored_selectivity_count, has_trace.then_some(0));
        assert_eq!(snapshot.fallback_selectivity_count, has_trace.then_some(0));
    }
}

#[test]
fn restart_counts_sum_over_traces() {
    let expected = ExpectedRelevance {
        relevant_external_ids: vec!["a".to_string(), "b".to_string()],
        irrelevant_external_ids: Vec::new(),
    };
    let decision = |scored: bool, fallback: bool| SelectivityDecision { scored, fallback };
    let outcomes = vec![
        OutcomeSummary {
            graph_verified_count: 1,
            trace: Some(TraceSummary {
                graph_relation_count: 3,
                fanout_decision_count: 2,
                selectivity_decisions: vec![decision(true, false), decision(false, true)],
            }),
        },
        OutcomeSummary { graph_verified_count: 4, trace: None },
        OutcomeSummary {
            graph_verified_count: 0,
            trace: Some(TraceSummary {
                graph_relation_count: 1,
                fanout_decision_count: 0,
                selectivity_decisions: vec![decision(true, true)],
            }),
        },
    ];
    let counts = restart_probe_counts(&expected, &vec![item(Some("b"), None)], &outcomes);
    assert_eq!(counts.relevant_returned_count, 1);
    assert_eq!(counts.expected_relevant_count, 2);
    assert_eq!(counts.graph_relation_count, Some(4));
    assert_eq!(counts.graph_verified_count, Some(5));
    assert_eq!(counts.fanout_decision_count, Some(2));
    assert_eq!(counts.selectivity_decision_count, Some(3));
    assert_eq!(counts.scored_selectivity_count, Some(2));
    assert_eq!(counts.fallback_selectivity_count, Some(2));
}

#[test]
fn returned_ids_are_sorted_distinct_and_fall_back_to_kind_and_internal_id() {
    let items = vec![
        item(Some("b"), None),
        item(None, None),
        item(Some("a"), None),
        item(Some("b"), Some("e")),
    ];
    assert_eq!(
        returned_object_ids(&items),
        vec!["a".to_string(), "b".to_string(), "observation:observation-internal".to_string()]
    );
    let relevant = vec!["e".to_string(), "z".to_string(), "a".to_string()];
    assert_eq!(relevant_returned_count(&relevant, &items), 2);
}

#[test]
fn restart_delta_is_after_minus_before() {
    let before = RestartProbeCounts {
        returned_object_ids: vec!["a".to_string(), "b".to_string()],
        relevant_returned_count: 2,
        expected_relevant_count: 3,
        graph_relation_count: Some(4),
        graph_verified_count: None,
        fanout_decision_count: Some(1),
        selectivity_decision_count: Some(0),
        scored_selectivity_count: None,
        fallback_selectivity_count: Some(2),
    };
    let mut after = before.clone();
    after.returned_object_ids = vec!["a".to_string()];
    after.relevant_returned_count = 1;
    after.graph_relation_count = Some(1);
    after.graph_verified_count = Some(5);
    let delta = restart_probe_delta(&before, &after);
    assert_eq!(delta.returned_object_count, -1);
    assert_eq!(delta.relevant_returned_count, -1);
    assert_eq!(delta.graph_relation_count, Some(-3));
    assert_eq!(delta.graph_verified_count, None);
    assert_eq!(delta.fanout_decision_count, Some(0));
    assert!(!delta.stable_returned_objects);
    let same = restart_probe_delta(&before, &before);
    assert!(same.stable_returned_objects);
    assert_eq!(same.graph_relation_count, Some(0));
    assert_eq!(signed_delta(3, 10), 7);
    assert_eq!(option_usize_delta(Some(10), Some(3)), Some(-7));
    assert_eq!(option_usize_delta(None, Some(3)), None);
}

#[test]
fn operation_counts_grow_one_name_at_a_time() {
    let mut counts = OperationCounts::new();
    increment(&mut counts, "remember");
    increment(&mut counts, "remember");
    increment(&mut counts, "link");
    assert_eq!(counts.get("remember"), 2);
    assert_eq!(counts.get("link"), 1);
    assert_eq!(counts.get("forget"), 0);
}

#[test]
fn unsupported_features_are_reported_in_analysis_order() {
    let found = vec![
        ScenarioFeature::DueCue,
        ScenarioFeature::WriteScene,
        ScenarioFeature::IntentionMemory,
        ScenarioFeature::PackOrder,
    ];
    assert_eq!(
        scenario_missing_features(&found),
        vec![ScenarioFeature::DueCue, ScenarioFeature::IntentionMemory]
    );
    assert!(scenario_missing_features(&supported_scenario_features()).is_empty());
    assert!(is_supported(ScenarioFeature::WriteSceneCustom));
    assert!(!is_supported(ScenarioFeature::WriteSceneWhat));
}

#[test]
fn write_outcomes_report_the_first_fault() {
    let healthy = WriteOutcomeSummary {
        vector_indexing_failure: None,
        repair_needed: Vec::new(),
        stats_update_failure: None,
        vector_indexed_object_count: 2,
    };
    assert_eq!(checked_write_outcome(&healthy), Ok(()));
    let stats = WriteOutcomeSummary {
        stats_update_failure: Some("stats-update failure".to_string()),
        ..healthy
    };
    assert_eq!(checked_write_outcome(&stats), Err(WriteOutcomeFault::StatsUpdateFailure));
    let both = WriteOutcomeSummary {
        vector_indexing_failure: Some("vector-indexing failure".to_string()),
        repair_needed: vec!["repair".to_string()],
        stats_update_failure: None,
        vector_indexed_object_count: 0,
    };
    assert_eq!(checked_write_outcome(&both), Err(WriteOutcomeFault::VectorIndexingFailure));
    let empty = WriteOutcomeSummary {
        vector_indexing_failure: None,
        repair_needed: Vec::new(),
        stats_update_failure: None,
        vector_indexed_object_count: 0,
    };
    assert_eq!(checked_write_outcome(&empty), Err(WriteOutcomeFault::NothingVectorIndexed));
}

#[test]
fn expected_relevance_record_keeps_labels_in_order() {
    let expected = ExpectedRelevance {
        relevant_external_ids: vec!["b".to_string(), "a".to_string()],
        irrelevant_external_ids: vec!["c".to_string()],
    };
    let record = ExpectedRelevanceRecord::from(&expected);
    assert_eq!(record.relevant_external_ids, ["b", "a"]);
    assert_eq!(record.irrelevant_external_ids, ["c"]);
}

#[test]
fn write_fault_messages_name_the_event_and_the_fault() {
    let outcome = WriteOutcomeSummary {
        vector_indexing_failure: None,
        repair_needed: vec!["VectorIndex".to_string(), "Stats".to_string()],
        stats_update_failure: Some("\"locked\"".to_string()),
        vector_indexed_object_count: 0,
    };
    assert_eq!(
        WriteOutcomeFault::RepairNeeded.message("f", "visit", &outcome),
        "scenario \"f\" event \"visit\" committed with repair-needed markers: [VectorIndex, Stats]"
    );
    assert_eq!(
        WriteOutcomeFault::StatsUpdateFailure.message("f", "visit", &outcome),
        "scenario \"f\" event \"visit\" committed with stats-update failure: \"locked\""
    );
    assert_eq!(
        WriteOutcomeFault::NothingVectorIndexed.message("f", "visit", &outcome),
        "scenario \"f\" event \"visit\" committed without vector-indexed objects"
    );
}

#[test]
fn situated_write_rejects_failed_stats_even_after_vector_success() {
    let mut outcome = WriteOutcomeSummary {
        vector_indexing_failure: None,
        repair_needed: Vec::new(),
        stats_update_failure: None,
        vector_indexed_object_count: 1,
    };
    assert_eq!(checked_write_outcome(&outcome), Ok(()));
    outcome.stats_update_failure = Some("Failed { causes: [StoreUnhealthy] }".to_string());
    let fault = checked_write_outcome(&outcome).unwrap_err();
    assert_eq!(fault, WriteOutcomeFault::StatsUpdateFailure);
    let error = fault.message("situated-control", "visit", &outcome);
    assert!(error.contains("stats-update failure"));
    assert!(error.contains("situated-control") && error.contains("visit"));
}

#[test]
fn a_restart_remeasures_the_first_query_after_it() {
    let kinds = vec![
        ScriptedEventKind::Remember,
        ScriptedEventKind::Restart,
        ScriptedEventKind::Link,
        ScriptedEventKind::Query,
        ScriptedEventKind::Query,
    ];
    assert_eq!(following_query("f", "restart", &kinds, 1), Ok(3));
    assert_eq!(following_query("f", "restart", &kinds, 3), Ok(4));
    let error = following_query("f", "restart", &kinds, 4).unwrap_err();
    assert_eq!(
        error.message(),
        "scenario \"f\" restart event \"restart\" has no following scripted query for re-measurement"
    );
    assert_eq!(
        following_query("f", "r", &vec![ScriptedEventKind::Query, ScriptedEventKind::Restart], 1),
        Err(DriverError::NoFollowingQuery { fixture_id: "f".to_string(), event_id: "r".to_string() })
    );
}

#[test]
fn quoted_ids_escape_as_debug_formatting_does() {
    for id in ["plain", "quote\"d", "tab\tnew\nline", "bell\u{7}", "nbsp\u{a0}", "acute\u{301}", "é"] {
        let error = DriverError::LinkAsEndpoint { fixture_id: id.to_string() };
        assert_eq!(
            error.message(),
            format!("scenario {:?} cannot use a memory link as a link endpoint", id)
        );
    }
    let error = DriverError::LinkAsEndpoint { fixture_id: "a\u{1}b".to_string() };
    assert_eq!(error.message(), "scenario \"a\\u{1}b\" cannot use a memory link as a link endpoint");
}

#[test]
fn scripted_events_count_the_operations_they_run() {
    assert_eq!(
        event_operations(ScriptedEventKind::Experience, false, 0),
        ["prepare", "validate_plan", "commit", "experience"]
    );
    assert_eq!(
        event_operations(ScriptedEventKind::Remember, false, 2),
        ["prepare", "validate_plan", "commit", "link", "link"]
    );
    assert_eq!(
        event_operations(ScriptedEventKind::Remember, true, 0),
        ["remember_episode", "remember_observation"]
    );
    assert_eq!(event_operations(ScriptedEventKind::Query, false, 3), ["retrieve"]);
    let mut counts = OperationCounts::new();
    record_operations(&mut counts, &event_operations(ScriptedEventKind::Experience, false, 0));
    record_operations(&mut counts, &event_operations(ScriptedEventKind::Experience, false, 0));
    record_operations(&mut counts, &event_operations(ScriptedEventKind::Derive, false, 0));
    assert_eq!(counts.get("experience"), 2);
    assert_eq!(counts.get("validate_plan"), 2);
    assert_eq!(counts.get("derive"), 1);
    assert_eq!(counts.get("link"), 0);
}
