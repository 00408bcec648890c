use cmem_eval_bench::selection::{
    BenchmarkSource, CuratorAssertions, InstanceSelection, MachineDerivedPredicates, ScenarioKind,
    ScenarioPattern, SelectionError, SelectionManifest, SelectionProof,
};

fn test_manifest(kind: ScenarioKind, gold_empty: bool) -> SelectionManifest {
    SelectionManifest {
        schema_version: 2,
        instances: vec![InstanceSelection {
            fixture_id: "fixture".to_string(),
            source: BenchmarkSource::LongmemevalS,
            source_instance_id: "lme".to_string(),
            source_qa_index: None,
            scenario_kind: kind,
            expected_question_type: "knowledge-update".to_string(),
            selected_session_ids: vec![
                "old".to_string(),
                "new".to_string(),
                "background".to_string(),
            ],
            sampled_negative_turn_ids: vec![
                "old:turn:1".to_string(),
                "background:turn:1".to_string(),
            ],
            similarity_nearer_external_id: if kind == ScenarioKind::Abstention {
                "old:turn:1".to_string()
            } else {
                "new:turn:1".to_string()
            },
            similarity_farther_external_id: "background:turn:1".to_string(),
            selection_proof: SelectionProof {
                machine_derived: MachineDerivedPredicates {
                    session_count: 3,
                    evidence_clean: true,
                    no_img_url_in_evidence: None,
                    gold_turn_ids_empty: Some(gold_empty),
                },
                curator_asserted: CuratorAssertions { self_contained: true },
            },
        }],
    }
}

#[test]
fn selection_manifest_rejects_more_than_five_sessions() {
    let mut manifest = test_manifest(ScenarioKind::Update, false);
    let selection = &mut manifest.instances[0];
    selection.selected_session_ids = (1..=6).map(|index| format!("session-{index}")).collect();
    selection.selection_proof.machine_derived.session_count = 6;
    let error = manifest.validate().unwrap_err().message();
    assert!(error.contains("must contain 3 to 5 sessions"));
}

#[test]
fn well_formed_manifest_is_admitted() {
    assert_eq!(test_manifest(ScenarioKind::Update, false).validate(), Ok(()));
    assert_eq!(test_manifest(ScenarioKind::Abstention, true).validate(), Ok(()));
}

#[test]
fn each_rule_reports_its_own_refusal() {
    let refused = |edit: &dyn Fn(&mut SelectionManifest)| {
        let mut manifest = test_manifest(ScenarioKind::Update, false);
        edit(&mut manifest);
        manifest.validate().unwrap_err()
    };
    let fixture = || "fixture".to_string();

    assert_eq!(
        refused(&|m| m.schema_version = 99),
        SelectionError::UnsupportedSchemaVersion { version: 99 }
    );
    assert_eq!(
        refused(&|m| m.schema_version = 99).message(),
        "unsupported benchmark selection manifest schema_version 99; expected 2"
    );
    assert_eq!(refused(&|m| m.instances.clear()), SelectionError::NoInstances);
    assert_eq!(
        refused(&|m| m.instances[0].expected_question_type = "  ".to_string()),
        SelectionError::EmptyIdentityField
    );
    assert_eq!(
        refused(&|m| {
            let copy = m.instances[0].clone();
            m.instances.push(copy);
        }),
        SelectionError::DuplicateFixtureId { fixture_id: fixture() }
    );
    assert_eq!(
        refused(&|m| m.instances[0].selected_session_ids.truncate(2)),
        SelectionError::SessionCountOutOfRange { fixture_id: fixture(), found: 2 }
    );
    assert_eq!(
        refused(&|m| m.instances[0].selected_session_ids[2] = "old".to_string()),
        SelectionError::DuplicateSessions { fixture_id: fixture() }
    );
    assert_eq!(
        refused(&|m| m.instances[0].selection_proof.machine_derived.session_count = 4),
        SelectionError::SessionCountMismatch { fixture_id: fixture(), recorded: 4, selected: 3 }
    );
    assert_eq!(
        refused(&|m| m.instances[0].selection_proof.machine_derived.evidence_clean = false),
        SelectionError::EvidenceNotClean { fixture_id: fixture() }
    );
    assert_eq!(
        refused(&|m| m.instances[0].selection_proof.curator_asserted.self_contained = false),
        SelectionError::NotSelfContained { fixture_id: fixture() }
    );
    assert_eq!(
        refused(&|m| m.instances[0].sampled_negative_turn_ids.clear()),
        SelectionError::NoSampledNegative { fixture_id: fixture() }
    );
    assert_eq!(
        refused(&|m| m.instances[0].sampled_negative_turn_ids.push("old:turn:1".to_string())),
        SelectionError::DuplicateNegatives { fixture_id: fixture() }
    );
    assert_eq!(
        refused(&|m| {
            m.instances[0].similarity_nearer_external_id = "background:turn:1".to_string()
        }),
        SelectionError::SimilarityNotDistinct { fixture_id: fixture() }
    );
    assert_eq!(
        refused(&|m| m.instances[0].similarity_farther_external_id = "x:turn:1".to_string()),
        SelectionError::FartherNotNegative { fixture_id: fixture() }
    );
    assert_eq!(
        refused(&|m| m.instances[0].source_qa_index = Some(3)),
        SelectionError::LongmemevalQaIndexSet { fixture_id: fixture() }
    );
    assert_eq!(
        refused(&|m| m.instances[0].selection_proof.machine_derived.gold_turn_ids_empty = None),
        SelectionError::LongmemevalPredicates { fixture_id: fixture() }
    );
    assert_eq!(
        refused(&|m| m.instances[0].source = BenchmarkSource::Locomo),
        SelectionError::LocomoQaIndexMissing { fixture_id: fixture() }
    );
    assert_eq!(
        refused(&|m| {
            m.instances[0].source = BenchmarkSource::Locomo;
            m.instances[0].source_qa_index = Some(1);
        }),
        SelectionError::LocomoPredicates { fixture_id: fixture() }
    );
    assert_eq!(
        refused(&|m| m.instances[0].sampled_negative_turn_ids.clear()).message(),
        "selection \"fixture\" must include at least one sampled negative"
    );
}

#[test]
fn scenario_kinds_map_to_patterns() {
    assert_eq!(ScenarioKind::Update.pattern(), ScenarioPattern::EntrenchedCorrection);
    assert_eq!(ScenarioKind::Temporal.pattern(), ScenarioPattern::TemporalPatterns);
    assert_eq!(ScenarioKind::MultiEvidence.pattern(), ScenarioPattern::MultiEvidenceAssembly);
    assert_eq!(ScenarioKind::SingleHopControl.pattern(), ScenarioPattern::Autobiographical);
    assert_eq!(ScenarioKind::Abstention.pattern(), ScenarioPattern::Abstention);
}
