use cmem_eval_bench::assemble::ConvertedScenario;
use cmem_eval_bench::batch::{convert_selected_rows, BatchError};
use cmem_eval_bench::embedding_manifest::{
    convert_loaded_datasets, runtime_embedding_inputs, runtime_memory_embedding_text,
    similarity_ordering, EmbeddingManifestError, EmbeddingSource, SimilarityOrdering,
};
use cmem_eval_bench::textmap::TextMap;
use cmem_eval_bench::conversion::{
    require_question_type, require_source_text, require_timestamp, ContinuityScenario,
    ConversionError, InteractionEvent, LoCoMoQa, LoCoMoSample, LoCoMoSession, LoCoMoTurn,
    LongMemEvalInstance, LongMemEvalSession, LongMemEvalTurn,
};
use cmem_eval_bench::selection::{
    BenchmarkSource, CuratorAssertions, InstanceSelection, MachineDerivedPredicates, ScenarioKind,
    ScenarioPattern, SelectionManifest, SelectionProof,
};
use cmem_eval_bench::timestamp::Timestamp;

const JAN_1_2024: i64 = 1_704_067_200;
const DAY: i64 = 86_400;

fn test_manifest(kind: ScenarioKind, gold_empty: bool) -> SelectionManifest {
    SelectionManifest {
        schema_version: 2,
        instances: vec![InstanceSelection {
            fixture_id: "fixture".to_string(),
            source: BenchmarkSource::LongmemevalS,
            source_instance_id: "lme".to_string(),
            source_qa_index: None,
            scenario_kind: kind,
            expected_question_type: "knowledge-update".to_string(),
            selected_session_ids: vec![
                "old".to_string(),
                "new".to_string(),
                "background".to_string(),
            ],
            sampled_negative_turn_ids: vec![
                "old:turn:1".to_string(),
                "background:turn:1".to_string(),
            ],
            similarity_nearer_external_id: if kind == ScenarioKind::Abstention {
                "old:turn:1".to_string()
            } else {
                "new:turn:1".to_string()
            },
            similarity_farther_external_id: "background:turn:1".to_string(),
            selection_proof: SelectionProof {
                machine_derived: MachineDerivedPredicates {
                    session_count: 3,
                    evidence_clean: true,
                    no_img_url_in_evidence: None,
                    gold_turn_ids_empty: Some(gold_empty),
                },
                curator_asserted: CuratorAssertions { self_contained: true },
            },
        }],
    }
}

/// A LongMemEval-S row as the benchmark loader yields it: one user turn per session,
/// numbered from one, and the gold turn ids of the turns that carry the answer.
fn lme_row(
    question_id: &str,
    question: &str,
    question_date: Option<&str>,
    sessions: &[(&str, &str, &str, bool)],
) -> LongMemEvalInstance {
    let mut gold = Vec::new();
    let mut out = Vec::new();
    for (id, date, content, has_answer) in sessions {
        if *has_answer {
            gold.push(format!("{id}:turn:1"));
        }
        out.push(LongMemEvalSession {
            session_id: id.to_string(),
            date: Some(date.to_string()),
            turns: vec![LongMemEvalTurn { index: 1, text: content.to_string() }],
        });
    }
    LongMemEvalInstance {
        question_id: question_id.to_string(),
        question_type: Some("knowledge-update".to_string()),
        question: question.to_string(),
        question_date: question_date.map(str::to_string),
        sessions: out,
        gold_turn_ids: gold,
    }
}

fn row_error(result: Result<Vec<ConvertedScenario>, BatchError>) -> ConversionError {
    match result {
        Err(BatchError::Row(e)) => e,
        Err(other) => panic!("unexpected refusal: {}", other.message()),
        Ok(_) => panic!("conversion unexpectedly succeeded"),
    }
}

#[test]
fn update_conversion_preserves_source_bytes_and_maps_current_answer_only() {
    let manifest = test_manifest(ScenarioKind::Update, false);
    let longmemeval = vec![lme_row(
        "lme",
        "What is current?\nExactly.",
        Some("2024/01/04 (Thu) 00:00"),
        &[
            ("old", "2024/01/01 (Mon) 00:00", "old\n  café", true),
            ("new", "2024/01/02 (Tue) 00:00", "new \t東京", true),
            ("background", "2024/01/03 (Wed) 00:00", "background", false),
        ],
    )];
    let artifacts = convert_loaded_datasets(&manifest, &longmemeval, &Vec::new()).unwrap();
    let scenario = &artifacts.scenarios[0].scenario;
    assert!(scenario.events.iter().any(|event| matches!(
        event,
        InteractionEvent::Remember { external_id, text, .. }
            if external_id == "old:turn:1" && text.as_bytes() == "old\n  café".as_bytes()
    )));
    assert!(scenario.events.iter().any(|event| matches!(
        event,
        InteractionEvent::Correct {
            target_external_id,
            replacement_external_id,
            replacement_text,
            ..
        } if target_external_id == "old:turn:1"
            && replacement_external_id == "new:turn:1"
            && replacement_text.as_bytes() == "new \t東京".as_bytes()
    )));
    let InteractionEvent::Query { text, expected, .. } = scenario.events.last().unwrap() else {
        panic!("last event must be query");
    };
    assert_eq!(text.as_bytes(), "What is current?\nExactly.".as_bytes());
    assert_eq!(expected.relevant_external_ids, ["new:turn:1"]);
    assert!(expected.irrelevant_external_ids.contains(&"old:turn:1".to_string()));

    let manifest_texts = artifacts
        .embedding_texts
        .iter()
        .map(|item| (item.id.as_str(), item.text.as_str()))
        .collect::<std::collections::BTreeMap<_, _>>();
    assert_eq!(manifest_texts["fixture:remember:0001:embedding"], "old café");
    assert_eq!(manifest_texts["fixture:correct:embedding"], "new 東京");
    assert_eq!(
        manifest_texts["fixture:query:embedding"].as_bytes(),
        "What is current?\nExactly.".as_bytes()
    );
    assert_eq!(artifacts.embedding_texts.len(), scenario.events.len());
    assert_eq!(
        runtime_embedding_inputs(scenario),
        artifacts
            .embedding_texts
            .iter()
            .map(|item| item.text.clone())
            .collect::<std::collections::BTreeSet<_>>()
            .into_iter()
            .collect::<Vec<_>>()
    );
    assert_eq!(
        artifacts.embedding_texts.last().unwrap(),
        &EmbeddingSource {
            id: "fixture:query:embedding".to_string(),
            text: "What is current?\nExactly.".to_string(),
            is_query: true,
        }
    );
    assert_eq!(
        artifacts.similarity_orderings,
        vec![SimilarityOrdering {
            description: "fixture query-adapted evidence outranks curated background".to_string(),
            anchor_id: "fixture:query:embedding".to_string(),
            nearer_id: "fixture:correct:embedding".to_string(),
            farther_id: "fixture:remember:0002:embedding".to_string(),
        }]
    );
}

#[test]
fn longmemeval_evidence_clean_is_derived_from_selected_turns() {
    let manifest = test_manifest(ScenarioKind::Update, false);
    let longmemeval = vec![lme_row(
        "lme",
        "What is current?",
        None,
        &[
            ("old", "2024/01/01 (Mon) 00:00", "old", false),
            ("new", "2024/01/02 (Tue) 00:00", "new", false),
            ("background", "2024/01/03 (Wed) 00:00", "background", false),
            ("omitted-evidence", "2024/01/04 (Thu) 00:00", "evidence", true),
        ],
    )];
    let error = row_error(convert_selected_rows(&manifest, &longmemeval, &Vec::new())).message();
    assert!(error.contains("records evidence_clean=true, derived false"));
}

#[test]
fn abstention_requires_empty_gold() {
    let mut manifest = test_manifest(ScenarioKind::Abstention, true);
    manifest.instances[0].source_instance_id = "lme_abs".to_string();
    let longmemeval = vec![lme_row(
        "lme_abs",
        "Unknown?",
        None,
        &[
            ("old", "2024/01/01 (Mon) 00:00", "old", true),
            ("new", "2024/01/02 (Tue) 00:00", "new", false),
            ("background", "2024/01/03 (Wed) 00:00", "background", false),
        ],
    )];
    let error = row_error(convert_selected_rows(&manifest, &longmemeval, &Vec::new())).message();
    assert!(error.contains("expected gold_turn_ids_empty=true, derived false"));
}

#[test]
fn conversion_is_byte_deterministic() {
    let manifest = test_manifest(ScenarioKind::Update, false);
    let source = vec![lme_row(
        "lme",
        "Current?",
        None,
        &[
            ("old", "2024/01/01 (Mon) 00:00", "old", true),
            ("new", "2024/01/02 (Tue) 00:00", "new", true),
            ("background", "2024/01/03 (Wed) 00:00", "background", false),
        ],
    )];
    let first = convert_loaded_datasets(&manifest, &source, &Vec::new()).unwrap();
    let second = convert_loaded_datasets(&manifest, &source, &Vec::new()).unwrap();
    assert_eq!(first.scenarios.len(), second.scenarios.len());
    for (a, b) in first.scenarios.iter().zip(second.scenarios.iter()) {
        assert_eq!(a.scenario, b.scenario);
        assert_eq!(a.text_id_by_external_id.entries, b.text_id_by_external_id.entries);
        assert_eq!(a.query_text_id, b.query_text_id);
    }
    assert_eq!(first.embedding_texts, second.embedding_texts);
    assert_eq!(first.similarity_orderings, second.similarity_orderings);
}

#[test]
fn update_scenario_orders_events_and_times_the_query() {
    let manifest = test_manifest(ScenarioKind::Update, false);
    let source = vec![lme_row(
        "lme",
        "Current?",
        Some("2024/01/04 (Thu) 00:00"),
        &[
            ("old", "2024/01/01 (Mon) 00:00", "old", true),
            ("new", "2024/01/02 (Tue) 00:00", "new", true),
            ("background", "2024/01/03 (Wed) 00:00", "background", false),
        ],
    )];
    let converted = convert_selected_rows(&manifest, &source, &Vec::new()).unwrap();
    let scenario = &converted[0].scenario;
    assert_eq!(scenario.fixture_id, "fixture");
    assert_eq!(scenario.namespace, "continuity-benchmark:fixture");
    assert_eq!(scenario.pattern, ScenarioPattern::EntrenchedCorrection);
    let ids: Vec<(String, i64)> = scenario
        .events
        .iter()
        .map(|event| match event {
            InteractionEvent::Remember { event_id, timestamp, .. }
            | InteractionEvent::Correct { event_id, timestamp, .. }
            | InteractionEvent::Query { event_id, timestamp, .. } => {
                (event_id.clone(), timestamp.seconds)
            }
        })
        .collect();
    assert_eq!(
        ids,
        vec![
            ("fixture:remember:0001".to_string(), JAN_1_2024 + 1),
            ("fixture:correct".to_string(), JAN_1_2024 + DAY + 1),
            ("fixture:remember:0002".to_string(), JAN_1_2024 + 2 * DAY + 1),
            ("fixture:query".to_string(), JAN_1_2024 + 3 * DAY + 1),
        ]
    );
    assert_eq!(
        converted[0].text_id_by_external_id.get("background:turn:1").map(String::as_str),
        Some("fixture:remember:0002:embedding")
    );
}

#[test]
fn query_follows_the_last_event_when_its_date_is_earlier() {
    let manifest = test_manifest(ScenarioKind::Update, false);
    let source = vec![lme_row(
        "lme",
        "Current?",
        Some("2023/12/31 (Sun) 00:00"),
        &[
            ("old", "2024/01/01 (Mon) 00:00", "old", true),
            ("new", "2024/01/02 (Tue) 00:00", "new", true),
            ("background", "2024/01/03 (Wed) 00:00", "background", false),
        ],
    )];
    let converted = convert_selected_rows(&manifest, &source, &Vec::new()).unwrap();
    let InteractionEvent::Query { timestamp, .. } = converted[0].scenario.events.last().unwrap()
    else {
        panic!("last event must be query");
    };
    assert_eq!(*timestamp, Timestamp { seconds: JAN_1_2024 + 2 * DAY + 2, nanos: 0 });
}

#[test]
fn temporal_selection_keeps_every_gold_turn_relevant() {
    let mut manifest = test_manifest(ScenarioKind::Temporal, false);
    manifest.instances[0].similarity_nearer_external_id = "old:turn:1".to_string();
    manifest.instances[0].sampled_negative_turn_ids = vec!["background:turn:1".to_string()];
    let source = vec![lme_row(
        "lme",
        "When?",
        None,
        &[
            ("old", "2024/01/01 (Mon) 00:00", "old", true),
            ("new", "2024/01/02 (Tue) 00:00", "new", true),
            ("background", "2024/01/03 (Wed) 00:00", "background", false),
        ],
    )];
    let converted = convert_selected_rows(&manifest, &source, &Vec::new()).unwrap();
    let scenario = &converted[0].scenario;
    assert_eq!(scenario.pattern, ScenarioPattern::TemporalPatterns);
    assert_eq!(scenario.events.len(), 4);
    assert!(!scenario.events.iter().any(|e| matches!(e, InteractionEvent::Correct { .. })));
    let InteractionEvent::Query { expected, timestamp, .. } = scenario.events.last().unwrap()
    else {
        panic!("last event must be query");
    };
    assert_eq!(expected.relevant_external_ids, ["old:turn:1", "new:turn:1"]);
    assert_eq!(timestamp.seconds, JAN_1_2024 + 2 * DAY + 2);
}

#[test]
fn refusals_report_the_first_failing_check() {
    let rows = |gold_in_old: bool| {
        vec![lme_row(
            "lme",
            "Current?",
            None,
            &[
                ("old", "2024/01/01 (Mon) 00:00", "old", gold_in_old),
                ("new", "2024/01/02 (Tue) 00:00", "new", true),
                ("background", "2024/01/03 (Wed) 00:00", "background", false),
            ],
        )]
    };

    let mut wrong_type = test_manifest(ScenarioKind::Update, false);
    wrong_type.instances[0].expected_question_type = "temporal-reasoning".to_string();
    let error = row_error(convert_selected_rows(&wrong_type, &rows(true), &Vec::new()));
    assert_eq!(
        error.message(),
        "selection \"fixture\" expected question type \"temporal-reasoning\", derived Some(\"knowledge-update\")"
    );

    let mut missing = test_manifest(ScenarioKind::Update, false);
    missing.instances[0].source_instance_id = "absent".to_string();
    let error = row_error(convert_selected_rows(&missing, &rows(true), &Vec::new()));
    assert_eq!(
        error.message(),
        "selection \"fixture\" references missing LongMemEval-S instance \"absent\""
    );

    let mut one_gold = test_manifest(ScenarioKind::Update, false);
    one_gold.instances[0].selection_proof.machine_derived.evidence_clean = true;
    let error = row_error(convert_selected_rows(&one_gold, &rows(false), &Vec::new()));
    assert_eq!(
        error,
        ConversionError::UpdateGoldCount { fixture_id: "fixture".to_string(), found: 1 }
    );
    assert_eq!(
        error.message(),
        "update selection \"fixture\" must derive exactly two gold turns, found 1"
    );

    let mut unsampled_old = test_manifest(ScenarioKind::Update, false);
    unsampled_old.instances[0].sampled_negative_turn_ids = vec!["background:turn:1".to_string()];
    let error = row_error(convert_selected_rows(&unsampled_old, &rows(true), &Vec::new()));
    assert_eq!(
        error.message(),
        "update selection \"fixture\" must label the old gold turn \"old:turn:1\" as sampled negative"
    );

    let mut stray_negative = test_manifest(ScenarioKind::Update, false);
    stray_negative.instances[0].sampled_negative_turn_ids.push("elsewhere:turn:1".to_string());
    let error = row_error(convert_selected_rows(&stray_negative, &rows(true), &Vec::new()));
    assert_eq!(
        error.message(),
        "selection \"fixture\" sampled negative \"elsewhere:turn:1\" is not in a selected session"
    );

    let mut absent_session = test_manifest(ScenarioKind::Update, false);
    absent_session.instances[0].selected_session_ids[2] = "gone".to_string();
    let error = row_error(convert_selected_rows(&absent_session, &rows(true), &Vec::new()));
    assert_eq!(
        error.message(),
        "selection \"fixture\" references missing LongMemEval-S session \"gone\""
    );

    let mut bad_date = rows(true);
    bad_date[0].sessions[1].date = Some("yesterday".to_string());
    let error = row_error(convert_selected_rows(
        &test_manifest(ScenarioKind::Update, false),
        &bad_date,
        &Vec::new(),
    ));
    assert_eq!(error.message(), "selection \"fixture\" session \"new\" has invalid timestamp");

    let mut empty_text = rows(true);
    empty_text[0].sessions[2].turns[0].text = String::new();
    let error = row_error(convert_selected_rows(
        &test_manifest(ScenarioKind::Update, false),
        &empty_text,
        &Vec::new(),
    ));
    assert_eq!(error.message(), "selection \"fixture\" source text \"background\" is empty");

    let mut empty_query = rows(true);
    empty_query[0].question = String::new();
    let error = row_error(convert_selected_rows(
        &test_manifest(ScenarioKind::Update, false),
        &empty_query,
        &Vec::new(),
    ));
    assert_eq!(error.message(), "selection \"fixture\" source text \"query\" is empty");

    let mut bad_question_date = rows(true);
    bad_question_date[0].question_date = Some("soon".to_string());
    let error = row_error(convert_selected_rows(
        &test_manifest(ScenarioKind::Update, false),
        &bad_question_date,
        &Vec::new(),
    ));
    assert_eq!(error.message(), "selection \"fixture\" has invalid LongMemEval-S question_date");

    let nested = vec![lme_row(
        "lme",
        "When?",
        None,
        &[
            ("x:turn:y", "2024/01/01 (Mon) 00:00", "nested", true),
            ("new", "2024/01/02 (Tue) 00:00", "new", true),
            ("background", "2024/01/03 (Wed) 00:00", "background", false),
        ],
    )];
    let mut nested_manifest = test_manifest(ScenarioKind::Temporal, false);
    nested_manifest.instances[0].selected_session_ids[0] = "x:turn:y".to_string();
    nested_manifest.instances[0].sampled_negative_turn_ids = vec!["background:turn:1".to_string()];
    let error = row_error(convert_selected_rows(&nested_manifest, &nested, &Vec::new()));
    assert_eq!(error.message(), "selection \"fixture\" omits gold session \"x\"");
}

#[test]
fn abstention_rows_need_an_abs_id_and_a_negative_nearer_candidate() {
    let rows = vec![lme_row(
        "lme",
        "Unknown?",
        None,
        &[
            ("old", "2024/01/01 (Mon) 00:00", "old", false),
            ("new", "2024/01/02 (Tue) 00:00", "new", false),
            ("background", "2024/01/03 (Wed) 00:00", "background", false),
        ],
    )];
    let manifest = test_manifest(ScenarioKind::Abstention, true);
    let error = row_error(convert_selected_rows(&manifest, &rows, &Vec::new()));
    assert_eq!(
        error.message(),
        "LongMemEval-S abstention selection \"fixture\" must use an _abs source row"
    );

    let mut abs_rows = rows.clone();
    abs_rows[0].question_id = "lme_abs".to_string();
    let mut abs_manifest = test_manifest(ScenarioKind::Abstention, true);
    abs_manifest.instances[0].source_instance_id = "lme_abs".to_string();
    let converted = convert_selected_rows(&abs_manifest, &abs_rows, &Vec::new()).unwrap();
    let scenario = &converted[0].scenario;
    assert_eq!(scenario.pattern, ScenarioPattern::Abstention);
    let InteractionEvent::Query { expected, .. } = scenario.events.last().unwrap() else {
        panic!("last event must be query");
    };
    assert!(expected.relevant_external_ids.is_empty());
    assert_eq!(expected.irrelevant_external_ids, ["old:turn:1", "background:turn:1"]);

    abs_manifest.instances[0].similarity_nearer_external_id = "new:turn:1".to_string();
    let error = row_error(convert_selected_rows(&abs_manifest, &abs_rows, &Vec::new()));
    assert_eq!(
        error.message(),
        "abstention selection \"fixture\" similarity nearer candidate must be sampled negative"
    );
}

#[test]
fn refused_manifest_stops_the_batch() {
    let mut manifest = test_manifest(ScenarioKind::Update, false);
    manifest.schema_version = 1;
    match convert_selected_rows(&manifest, &Vec::new(), &Vec::new()) {
        Err(error @ BatchError::Manifest(_)) => assert_eq!(
            error.message(),
            "unsupported benchmark selection manifest schema_version 1; expected 2"
        ),
        _ => panic!("manifest must be refused"),
    }
}

fn locomo_sample() -> LoCoMoSample {
    let turn = |id: &str, text: &str, images: usize| LoCoMoTurn {
        dialog_id: id.to_string(),
        text: text.to_string(),
        image_url_count: images,
    };
    LoCoMoSample {
        sample_id: "conv-1".to_string(),
        sessions: vec![
            LoCoMoSession {
                session_id: "session_1".to_string(),
                timestamp: Some("1:56 pm on 8 May, 2023".to_string()),
                turns: vec![turn("D1:1", "I adopted a cat.", 0), turn("D1:2", "Nice!", 0)],
            },
            LoCoMoSession {
                session_id: "session_2".to_string(),
                timestamp: Some("2:00 pm on 9 May, 2023".to_string()),
                turns: vec![turn("D2:1", "Her name is Miso.", 0)],
            },
            LoCoMoSession {
                session_id: "session_3".to_string(),
                timestamp: Some("3:30 pm on 10 May, 2023".to_string()),
                turns: vec![turn("D3:1", "A photo.", 1)],
            },
        ],
        qa: vec![LoCoMoQa {
            qa_index: 1,
            question: "What is the cat called?".to_string(),
            question_type: Some("single-hop".to_string()),
            evidence_dialog_ids: vec!["D2:1".to_string()],
            evidence_sessions: vec!["session_2".to_string()],
        }],
    }
}

fn locomo_manifest() -> SelectionManifest {
    SelectionManifest {
        schema_version: 2,
        instances: vec![InstanceSelection {
            fixture_id: "loco".to_string(),
            source: BenchmarkSource::Locomo,
            source_instance_id: "conv-1".to_string(),
            source_qa_index: Some(1),
            scenario_kind: ScenarioKind::SingleHopControl,
            expected_question_type: "single-hop".to_string(),
            selected_session_ids: vec![
                "session_1".to_string(),
                "session_2".to_string(),
                "session_3".to_string(),
            ],
            sampled_negative_turn_ids: vec!["D1:1".to_string(), "D3:1".to_string()],
            similarity_nearer_external_id: "D2:1".to_string(),
            similarity_farther_external_id: "D1:1".to_string(),
            selection_proof: SelectionProof {
                machine_derived: MachineDerivedPredicates {
                    session_count: 3,
                    evidence_clean: true,
                    no_img_url_in_evidence: Some(true),
                    gold_turn_ids_empty: None,
                },
                curator_asserted: CuratorAssertions { self_contained: true },
            },
        }],
    }
}

#[test]
fn locomo_turns_are_timed_by_position_and_labelled_by_evidence() {
    let converted =
        convert_selected_rows(&locomo_manifest(), &Vec::new(), &vec![locomo_sample()]).unwrap();
    let scenario = &converted[0].scenario;
    assert_eq!(scenario.pattern, ScenarioPattern::Autobiographical);
    let may_8_1356 = 1_683_554_160;
    let remembered: Vec<(String, i64)> = scenario
        .events
        .iter()
        .filter_map(|event| match event {
            InteractionEvent::Remember { external_id, timestamp, .. } => {
                Some((external_id.clone(), timestamp.seconds))
            }
            _ => None,
        })
        .collect();
    assert_eq!(remembered[0], ("D1:1".to_string(), may_8_1356 + 1));
    assert_eq!(remembered[1], ("D1:2".to_string(), may_8_1356 + 2));
    assert_eq!(remembered.len(), 4);
    let InteractionEvent::Query { expected, text, .. } = scenario.events.last().unwrap() else {
        panic!("last event must be query");
    };
    assert_eq!(text, "What is the cat called?");
    assert_eq!(expected.relevant_external_ids, ["D2:1"]);
}

#[test]
fn locomo_refusals_name_the_broken_rule() {
    let mut missing_qa = locomo_manifest();
    missing_qa.instances[0].source_qa_index = Some(7);
    let error = row_error(convert_selected_rows(&missing_qa, &Vec::new(), &vec![locomo_sample()]));
    assert_eq!(error.message(), "selection \"loco\" references missing LoCoMo QA index 7");

    let mut renumbered = locomo_sample();
    renumbered.qa[0].qa_index = 2;
    let error = row_error(convert_selected_rows(&locomo_manifest(), &Vec::new(), &vec![renumbered]));
    assert_eq!(error.message(), "selection \"loco\" resolved inconsistent LoCoMo QA index");

    let mut omitted = locomo_manifest();
    omitted.instances[0].selected_session_ids[1] = "session_9".to_string();
    let error = row_error(convert_selected_rows(&omitted, &Vec::new(), &vec![locomo_sample()]));
    assert_eq!(error.message(), "selection \"loco\" omits LoCoMo evidence session \"session_2\"");

    let mut image = locomo_sample();
    image.sessions[1].turns[0].image_url_count = 2;
    let error = row_error(convert_selected_rows(&locomo_manifest(), &Vec::new(), &vec![image]));
    assert_eq!(
        error.message(),
        "selection \"loco\" records no_img_url_in_evidence=true, derived false"
    );

    let mut doubled = locomo_sample();
    doubled.sessions[2].turns.push(LoCoMoTurn {
        dialog_id: "D2:1".to_string(),
        text: "again".to_string(),
        image_url_count: 0,
    });
    let error = row_error(convert_selected_rows(&locomo_manifest(), &Vec::new(), &vec![doubled]));
    assert_eq!(error.message(), "selection \"loco\" records evidence_clean=true, derived false");

    let mut not_relevant = locomo_manifest();
    not_relevant.instances[0].similarity_nearer_external_id = "D1:2".to_string();
    let error = row_error(convert_selected_rows(&not_relevant, &Vec::new(), &vec![locomo_sample()]));
    assert_eq!(
        error.message(),
        "selection \"loco\" similarity nearer candidate must be relevant"
    );

    let mut abstention = locomo_manifest();
    abstention.instances[0].scenario_kind = ScenarioKind::Abstention;
    abstention.instances[0].similarity_nearer_external_id = "D3:1".to_string();
    let error = row_error(convert_selected_rows(&abstention, &Vec::new(), &vec![locomo_sample()]));
    assert_eq!(
        error.message(),
        "LoCoMo abstention selection \"loco\" must label cited evidence \"D2:1\" as sampled-negative-only"
    );

    let error = row_error(convert_selected_rows(&locomo_manifest(), &Vec::new(), &Vec::new()));
    assert_eq!(
        error.message(),
        "selection \"loco\" references missing LoCoMo sample \"conv-1\""
    );
}

#[test]
fn similarity_ordering_needs_text_ids_for_both_candidates() {
    let manifest = test_manifest(ScenarioKind::Update, false);
    let selection = &manifest.instances[0];
    let mut ids: TextMap<String> = TextMap::new();
    ids.insert("new:turn:1", "n-id".to_string());
    let converted = ConvertedScenario {
        scenario: ContinuityScenario {
            fixture_id: "fixture".to_string(),
            namespace: "continuity-benchmark:fixture".to_string(),
            pattern: ScenarioPattern::EntrenchedCorrection,
            events: Vec::new(),
        },
        text_id_by_external_id: ids,
        query_text_id: "q-id".to_string(),
    };
    let error = similarity_ordering(selection, &converted).unwrap_err();
    assert_eq!(
        error,
        EmbeddingManifestError::FartherNotAdmitted {
            fixture_id: "fixture".to_string(),
            external_id: "background:turn:1".to_string(),
        }
    );
    assert_eq!(
        error.message(),
        "selection \"fixture\" similarity farther candidate \"background:turn:1\" is not admitted"
    );
    let mut with_farther = converted;
    with_farther.text_id_by_external_id.insert("background:turn:1", "f-id".to_string());
    let ordering = similarity_ordering(selection, &with_farther).unwrap();
    assert_eq!(ordering.anchor_id, "q-id");
    assert_eq!(ordering.nearer_id, "n-id");
    assert_eq!(ordering.farther_id, "f-id");
}

#[test]
fn single_row_checks_report_their_own_failures() {
    let manifest = test_manifest(ScenarioKind::Update, false);
    let selection = &manifest.instances[0];
    assert_eq!(require_question_type(selection, &Some("knowledge-update".to_string())), Ok(()));
    assert_eq!(
        require_question_type(selection, &None).unwrap_err().message(),
        "selection \"fixture\" expected question type \"knowledge-update\", derived None"
    );
    assert_eq!(require_source_text("fixture", "s1", "text"), Ok(()));
    assert_eq!(
        require_source_text("fixture", "s1", "").unwrap_err(),
        ConversionError::EmptySourceText {
            fixture_id: "fixture".to_string(),
            source_id: "s1".to_string()
        }
    );
    assert_eq!(
        require_timestamp(&Some("2024/01/01 (Mon) 00:00".to_string()), "fixture", "s1"),
        Ok(Timestamp { seconds: JAN_1_2024, nanos: 0 })
    );
    assert_eq!(
        require_timestamp(&None, "fixture", "s1").unwrap_err().message(),
        "selection \"fixture\" session \"s1\" has invalid timestamp"
    );
}

#[test]
fn stored_turns_are_embedded_with_whitespace_collapsed() {
    assert_eq!(runtime_memory_embedding_text("old\n  café"), "old café");
    assert_eq!(runtime_memory_embedding_text("new \t東京"), "new 東京");
    assert_eq!(runtime_memory_embedding_text("  a\u{3000}b\u{a0} c \r\n"), "a b c");
    assert_eq!(runtime_memory_embedding_text(" \t\n"), "");
    assert_eq!(runtime_memory_embedding_text("same"), "same");
}
