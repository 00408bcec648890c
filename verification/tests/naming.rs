use cmem_eval_bench::naming::{
    collection_name, deterministic_id, durable_store_identity, explicit_lifecycle_error,
    identity_registry_file_name, namespace_identity_suffix, namespace_prefix,
    sanitize_collection_segment, shared_input_namespace, to_ascii_snake_case, uuid_simple,
    validate_cleanup_target, CleanupError, UUID_NAMESPACE,
};

fn v5(name: &str) -> u128 {
    uuid::Uuid::new_v5(&uuid::Uuid::from_u128(UUID_NAMESPACE), name.as_bytes()).as_u128()
}

#[test]
fn cleanup_target_requires_eval_prefix_match() {
    validate_cleanup_target("bench_lme_longmemeval_s_v0_1_lme_q1_abc", Some("bench:lme")).unwrap();

    let err = validate_cleanup_target("prod_collection", Some("bench:lme")).unwrap_err().message();
    assert!(err.contains("refusing to cleanup"));
}

#[test]
fn cleanup_target_rejects_missing_prefix() {
    let err = validate_cleanup_target("bench_lme_q1", None).unwrap_err().message();
    assert!(err.contains("no required collection prefix"));
}

#[test]
fn cleanup_target_refuses_blank_and_short_prefixes() {
    assert_eq!(validate_cleanup_target("bench_x", Some("   ")), Err(CleanupError::MissingPrefix));
    assert_eq!(validate_cleanup_target("ab_x", Some(" ab ")), Err(CleanupError::PrefixTooBroad));
    assert_eq!(
        validate_cleanup_target("prod", Some(" bench:lme ")),
        Err(CleanupError::NotUnderPrefix {
            collection_name: "prod".to_string(),
            sanitized_prefix: "bench_lme".to_string(),
        })
    );
    assert_eq!(
        validate_cleanup_target("prod", Some("bench:lme")).unwrap_err().message(),
        "refusing to cleanup collection prod; it does not start with required eval prefix bench_lme"
    );
}

#[test]
fn deterministic_ids_are_stable_and_namespaced() {
    let first = deterministic_id("n1", "episode", "s1");
    assert_eq!(first, deterministic_id("n1", "episode", "s1"));
    assert_ne!(first, deterministic_id("n2", "episode", "s1"));
    assert_ne!(first, deterministic_id("n1", "observation", "s1"));
}

#[test]
fn deterministic_id_is_the_v5_uuid_of_the_nul_joined_parts() {
    assert_eq!(deterministic_id("n1", "episode", "s1"), v5("n1\0episode\0s1"));
    assert_ne!(deterministic_id("n1", "episode", "s1"), v5("n1episodes1"));
}

#[test]
fn sanitizing_replaces_each_unsafe_character() {
    assert_eq!(sanitize_collection_segment("bench:lme/q1 é-x_Y9"), "bench_lme_q1__-x_Y9");
    assert_eq!(sanitize_collection_segment(""), "");
}

#[test]
fn collection_names_are_run_scoped_and_carry_the_identity_uuid() {
    let suffix = namespace_identity_suffix("cmem_eval_task3", "run-a", "namespace");
    assert_eq!(suffix, v5("cmem_eval_task3\0run-a\0namespace"));
    let simple = uuid::Uuid::from_u128(suffix).simple().to_string();
    assert_eq!(uuid_simple(suffix), simple);
    assert_eq!(
        collection_name("cmem_eval_task3", "run-a", "namespace"),
        format!("cmem_eval_task3_run-a_namespace_{simple}")
    );
    assert_ne!(
        collection_name("cmem_eval_task3", "run-a", "namespace"),
        collection_name("cmem_eval_task3", "run-b", "namespace")
    );
    assert_eq!(
        identity_registry_file_name("cmem_eval_task3", "run-a", "namespace"),
        format!("identity-cmem_eval_task3-namespace-{simple}.json")
    );
    assert_eq!(
        durable_store_identity("cmem:eval", "run-a", "name space"),
        format!(
            "cmem_eval-name_space-{}",
            uuid::Uuid::from_u128(v5("cmem:eval\0run-a\0name space")).simple()
        )
    );
}

#[test]
fn own_collections_pass_their_cleanup_guard() {
    let name = collection_name("bench:lme", "run-a", "ns");
    assert!(validate_cleanup_target(&name, Some("bench:lme")).is_ok());
}

#[test]
fn uuid_simple_is_32_lowercase_hex_digits() {
    assert_eq!(uuid_simple(0), "0".repeat(32));
    assert_eq!(uuid_simple(0xAB), format!("{}ab", "0".repeat(30)));
    assert_eq!(uuid_simple(u128::MAX), "f".repeat(32));
}

#[test]
fn namespace_prefix_defaults_to_cmem_eval() {
    assert_eq!(namespace_prefix(None), "cmem_eval");
    assert_eq!(namespace_prefix(Some("custom")), "custom");
}

#[test]
fn unopened_namespace_error_names_the_lifecycle_calls() {
    let message = explicit_lifecycle_error("explicit-lifecycle").message();
    assert!(message.contains("namespace is not open"));
    assert!(message.contains("open_namespace or reattach_namespace"));
}

#[test]
fn shared_namespace_reports_the_first_stranger() {
    let same = vec!["a".to_string(), "a".to_string()];
    assert_eq!(shared_input_namespace("batch", "a", &same).unwrap(), "a");
    let mixed = vec!["a".to_string(), "b".to_string(), "c".to_string()];
    let err = shared_input_namespace("batch", "a", &mixed).unwrap_err();
    assert_eq!(err.found, "b");
    assert_eq!(err.message(), "batch contains multiple namespaces: a and b");
}

#[test]
fn snake_case_lowers_capitals_after_underscores() {
    assert_eq!(to_ascii_snake_case("RememberEpisode"), "remember_episode");
    assert_eq!(to_ascii_snake_case("link"), "link");
    assert_eq!(to_ascii_snake_case("ValidatePlan"), "validate_plan");
}
