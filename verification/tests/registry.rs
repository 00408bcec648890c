use std::collections::BTreeMap;

use cmem_eval_bench::registry::{commit_registered_ids, IdRegistry};
use cmem_eval_bench::resolve::PendingIds;
use cmem_eval_bench::textmap::TextMap;

fn map(entries: &[(&str, u128)]) -> TextMap<u128> {
    let mut m = TextMap::new();
    for (k, v) in entries {
        m.insert(k, *v);
    }
    m
}

fn registry() -> IdRegistry {
    let mut reverse_entities = BTreeMap::new();
    reverse_entities.insert(1u128, "ada".to_string());
    IdRegistry {
        entities: map(&[("ada", 1)]),
        threads: TextMap::new(),
        derived_memories: TextMap::new(),
        links: TextMap::new(),
        reverse_entities,
        reverse_threads: BTreeMap::new(),
        reverse_derived_memories: BTreeMap::new(),
        reverse_links: BTreeMap::new(),
    }
}

fn pending() -> PendingIds {
    PendingIds {
        entities: map(&[("jo", 2)]),
        threads: map(&[("t", 3)]),
        derived_memories: map(&[("d", 4)]),
        links: map(&[("l", 5)]),
    }
}

#[test]
fn ids_are_registered_only_after_an_accepted_write() {
    let mut refused = registry();
    commit_registered_ids(&mut refused, &pending(), false);
    assert_eq!(refused.entities.get("jo"), None);
    assert_eq!(refused.reverse_entities.len(), 1);
    assert_eq!(refused.threads.get("t"), None);

    let mut accepted = registry();
    commit_registered_ids(&mut accepted, &pending(), true);
    assert_eq!(accepted.entities.get("ada"), Some(&1));
    assert_eq!(accepted.entities.get("jo"), Some(&2));
    assert_eq!(accepted.reverse_entities.get(&2), Some(&"jo".to_string()));
    assert_eq!(accepted.reverse_entities.get(&1), Some(&"ada".to_string()));
    assert_eq!(accepted.threads.get("t"), Some(&3));
    assert_eq!(accepted.reverse_threads.get(&3), Some(&"t".to_string()));
    assert_eq!(accepted.derived_memories.get("d"), Some(&4));
    assert_eq!(accepted.reverse_derived_memories.get(&4), Some(&"d".to_string()));
    assert_eq!(accepted.links.get("l"), Some(&5));
    assert_eq!(accepted.reverse_links.get(&5), Some(&"l".to_string()));
}

#[test]
fn a_shared_memory_id_reads_back_the_greatest_external_id() {
    let mut r = registry();
    let shared = PendingIds {
        entities: map(&[("zed", 9), ("bea", 9), ("kim", 9)]),
        threads: TextMap::new(),
        derived_memories: TextMap::new(),
        links: TextMap::new(),
    };
    commit_registered_ids(&mut r, &shared, true);
    assert_eq!(r.reverse_entities.get(&9), Some(&"zed".to_string()));
    assert_eq!(r.entities.get("bea"), Some(&9));
}
