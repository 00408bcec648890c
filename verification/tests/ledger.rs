use cmem_eval_bench::driver::{AdmittedObject, CorrectionTarget, DriverError, MemoryEndpoint, ObjectType};
use cmem_eval_bench::ledger::{
    admit_correction, admit_experience, admit_derived, admit_link, admit_remember, entity_ledger, forget_targets,
    DerivedAdmission, LinkRelation,
};

fn entity() -> AdmittedObject {
    AdmittedObject {
        object_type: ObjectType::Entity,
        source_episode_external_id: None,
        original_raw_ref: None,
        original_setting_key: None,
    }
}

#[test]
fn entities_seed_the_ledger() {
    let ledger = entity_ledger(&vec!["ada".to_string(), "jo".to_string()]);
    assert_eq!(ledger.get("ada"), Some(&entity()));
    assert_eq!(ledger.get("jo"), Some(&entity()));
    assert_eq!(ledger.get("visit"), None);
}

#[test]
fn remembering_admits_episode_observation_thread_and_derived_memory() {
    let mut ledger = entity_ledger(&vec!["ada".to_string()]);
    let plan = admit_remember(
        &mut ledger,
        "fixture",
        "event-001",
        "visit",
        "visit:observation",
        "visit:derived",
        "2025-01-01T08:00:00Z",
        false,
        Some("thread-1"),
        &vec!["ada".to_string()],
    );
    let raw = "continuity://fixture/event-001?at=2025-01-01T08:00:00Z".to_string();
    assert_eq!(plan.original_raw_ref, raw);
    assert!(plan.open_thread);
    assert_eq!(
        ledger.get("visit"),
        Some(&AdmittedObject {
            object_type: ObjectType::Episode,
            source_episode_external_id: Some("visit".to_string()),
            original_raw_ref: Some(raw.clone()),
            original_setting_key: Some("visit".to_string()),
        })
    );
    assert_eq!(ledger.get("visit:observation").unwrap().object_type, ObjectType::Observation);
    assert_eq!(ledger.get("thread-1").unwrap().object_type, ObjectType::MemoryThread);
    assert_eq!(
        ledger.get("visit:derived"),
        Some(&AdmittedObject {
            object_type: ObjectType::DerivedMemory,
            source_episode_external_id: Some("visit".to_string()),
            original_raw_ref: None,
            original_setting_key: None,
        })
    );
    let ids: Vec<&str> = plan.links.iter().map(|l| l.external_id.as_str()).collect();
    assert_eq!(
        ids,
        vec![
            "continuity:fixture:event-001:entity-mentions-0000",
            "continuity:fixture:event-001:entity-involves-0000",
            "continuity:fixture:event-001:derived-thread",
        ]
    );
    assert_eq!(plan.links[0].relation, LinkRelation::Mentions);
    assert_eq!(
        plan.links[1].from,
        MemoryEndpoint { object_type: ObjectType::Entity, external_id: "ada".to_string() }
    );
    assert_eq!(plan.links[1].rationale, "fixture-scripted entity association event-001");
    assert_eq!(plan.links[2].rationale, "fixture-scripted thread membership event-001");

    let again = admit_remember(
        &mut ledger,
        "fixture",
        "event-002",
        "visit-2",
        "visit-2:observation",
        "visit-2:derived",
        "2025-01-02T08:00:00Z",
        true,
        Some("thread-1"),
        &Vec::new(),
    );
    assert!(!again.open_thread);
    assert_eq!(again.links.len(), 1);
    assert_eq!(ledger.get("visit-2").unwrap().original_raw_ref, None);
}

#[test]
fn corrections_need_an_admitted_sourced_correctable_target() {
    let mut ledger = entity_ledger(&vec!["ada".to_string()]);
    admit_remember(
        &mut ledger,
        "fixture",
        "event-001",
        "visit",
        "visit:observation",
        "visit:derived",
        "2025-01-01T08:00:00Z",
        false,
        None,
        &Vec::new(),
    );
    let (target, supersedes, source) =
        admit_correction(&mut ledger, "fixture", "visit:derived", "visit:corrected").unwrap();
    assert_eq!(target, CorrectionTarget::DerivedMemory { external_id: "visit:derived".to_string() });
    assert_eq!(supersedes, vec!["visit:derived".to_string()]);
    assert_eq!(source, "visit");
    assert_eq!(ledger.get("visit:corrected").unwrap().object_type, ObjectType::DerivedMemory);

    let (target, supersedes, _) =
        admit_correction(&mut ledger, "fixture", "visit", "visit:replacement").unwrap();
    assert!(supersedes.is_empty());
    assert!(matches!(target, CorrectionTarget::SourceObject { object_type: ObjectType::Episode, .. }));

    let missing = admit_correction(&mut ledger, "fixture", "nothing", "x").unwrap_err();
    assert_eq!(missing.message(), "scenario \"fixture\" correction target was not admitted: nothing");
    let unsourced = admit_correction(&mut ledger, "fixture", "ada", "x").unwrap_err();
    assert_eq!(unsourced, DriverError::NoSourceEpisode { target_external_id: "ada".to_string() });
    assert_eq!(unsourced.message(), "correction target has no source episode");
    assert_eq!(ledger.get("x"), None);
}

#[test]
fn forget_targets_are_checked_in_order() {
    let mut ledger = entity_ledger(&vec!["ada".to_string()]);
    admit_derived(
        &mut ledger,
        &vec![DerivedAdmission {
            external_id: "belief".to_string(),
            source_episode_external_id: Some("visit".to_string()),
        }],
    );
    assert_eq!(ledger.get("belief").unwrap().source_episode_external_id.as_deref(), Some("visit"));
    let targets = forget_targets(&ledger, "f", &vec!["belief".to_string()]).unwrap();
    assert_eq!(
        targets,
        vec![MemoryEndpoint { object_type: ObjectType::DerivedMemory, external_id: "belief".to_string() }]
    );
    let error =
        forget_targets(&ledger, "f", &vec!["ada".to_string(), "nothing".to_string()]).unwrap_err();
    assert_eq!(error.message(), "scenario \"f\" cannot forget object type Entity");
}

#[test]
fn links_join_admitted_objects_and_are_admitted_themselves() {
    let mut ledger = entity_ledger(&vec!["ada".to_string(), "jo".to_string()]);
    let (from, to) = admit_link(&mut ledger, "f", "knows", "ada", "jo").unwrap();
    assert_eq!(from.external_id, "ada");
    assert_eq!(to.object_type, ObjectType::Entity);
    assert_eq!(ledger.get("knows").unwrap().object_type, ObjectType::MemoryLink);
    assert_eq!(
        admit_link(&mut ledger, "f", "meta", "knows", "jo").unwrap_err(),
        DriverError::LinkAsEndpoint { fixture_id: "f".to_string() }
    );
    assert_eq!(
        admit_link(&mut ledger, "f", "meta", "ada", "ghost").unwrap_err().message(),
        "scenario \"f\" link endpoint was not admitted: ghost"
    );
    assert_eq!(ledger.get("meta"), None);
}

#[test]
fn experiences_admit_their_episode_and_observation_with_eval_references() {
    let mut ledger = entity_ledger(&vec!["ada".to_string()]);
    admit_experience(&mut ledger, "ns", "visit", "visit:obs", &Some("garden".to_string()));
    assert_eq!(
        ledger.get("visit"),
        Some(&AdmittedObject {
            object_type: ObjectType::Episode,
            source_episode_external_id: Some("visit".to_string()),
            original_raw_ref: Some("eval://ns/episode/visit".to_string()),
            original_setting_key: Some("garden".to_string()),
        })
    );
    assert_eq!(
        ledger.get("visit:obs"),
        Some(&AdmittedObject {
            object_type: ObjectType::Observation,
            source_episode_external_id: Some("visit".to_string()),
            original_raw_ref: Some("eval://ns/observation/visit:obs".to_string()),
            original_setting_key: Some("garden".to_string()),
        })
    );
    assert_eq!(ledger.get("ada"), Some(&entity()));
}
