use cmem_eval_bench::driver::ObjectType;
use cmem_eval_bench::resolve::{
    parse_object_type, render_context_text, resolve_endpoint, resolve_ids, ContextItem,
    EndpointError, NamespaceIds, PendingIds, UnknownExternalId,
};
use cmem_eval_bench::textmap::TextMap;

fn map(entries: &[(&str, u128)]) -> TextMap<u128> {
    let mut m = TextMap::new();
    for (k, v) in entries {
        m.insert(k, *v);
    }
    m
}

#[test]
fn renders_context_text_with_external_ids() {
    let text = render_context_text(&vec![ContextItem {
        kind: "observation".to_string(),
        external_id: Some("s1:turn:1".to_string()),
        rank: 1,
        text: Some("hello".to_string()),
    }]);
    assert!(text.contains("observation:s1:turn:1"));
    assert!(text.contains("hello"));
}

#[test]
fn context_text_has_one_line_per_item_with_text() {
    let items = vec![
        ContextItem { kind: "episode".to_string(), external_id: None, rank: 1, text: Some("a".to_string()) },
        ContextItem { kind: "entity".to_string(), external_id: Some("e".to_string()), rank: 2, text: None },
        ContextItem {
            kind: "observation".to_string(),
            external_id: Some("o".to_string()),
            rank: 12,
            text: Some("b".to_string()),
        },
    ];
    assert_eq!(render_context_text(&items), "[episode:unknown rank=1] a\n[observation:o rank=12] b");
    assert_eq!(render_context_text(&Vec::new()), "");
}

#[test]
fn ids_resolve_from_persisted_then_pending() {
    let persisted = map(&[("a", 1), ("b", 2)]);
    let pending = map(&[("b", 20), ("c", 30)]);
    let ids = vec!["b".to_string(), "c".to_string(), "a".to_string()];
    assert_eq!(resolve_ids("entity", &ids, &persisted, &pending).unwrap(), vec![2, 30, 1]);
    let missing = vec!["a".to_string(), "z".to_string()];
    let error = resolve_ids("thread", &missing, &persisted, &pending).unwrap_err();
    assert_eq!(error, UnknownExternalId { kind: "thread".to_string(), external_id: "z".to_string() });
    assert_eq!(error.message(), "thread enrichment references unknown external_id z");
}

#[test]
fn endpoints_resolve_by_object_type() {
    let state = NamespaceIds {
        episodes: map(&[("ep", 1)]),
        observations: map(&[("ob", 2)]),
        entities: map(&[("ada", 3)]),
        threads: TextMap::new(),
        derived_memories: TextMap::new(),
    };
    let pending = PendingIds {
        entities: TextMap::new(),
        threads: map(&[("t", 4)]),
        derived_memories: TextMap::new(),
        links: TextMap::new(),
    };
    assert_eq!(resolve_endpoint("episode", "ep", &state, &pending), Ok((ObjectType::Episode, 1)));
    assert_eq!(resolve_endpoint("memory_thread", "t", &state, &pending), Ok((ObjectType::MemoryThread, 4)));
    assert_eq!(resolve_endpoint("entity", "ada", &state, &pending), Ok((ObjectType::Entity, 3)));
    assert_eq!(
        resolve_endpoint("memory_link", "x", &state, &pending),
        Err(EndpointError::LinkEndpoint)
    );
    let unknown = resolve_endpoint("observation", "ep", &state, &pending).unwrap_err();
    assert_eq!(unknown.message(), "link endpoint Observation references unknown external_id ep");
    let bad = resolve_endpoint("Episode", "ep", &state, &pending).unwrap_err();
    assert_eq!(bad.message(), "parse endpoint.object_type value \"Episode\"");
    assert_eq!(parse_object_type("derived_memory"), Some(ObjectType::DerivedMemory));
}
