use cmem_eval_bench::order::{sorted_positions, sorted_unique_texts, text_less};
use cmem_eval_bench::textmap::TextMap;
use cmem_eval_bench::timestamp::Timestamp;

fn at(seconds: i64) -> Timestamp {
    Timestamp { seconds, nanos: 0 }
}

#[test]
fn texts_order_by_code_point_with_prefixes_first() {
    assert!(text_less("a", "b"));
    assert!(text_less("ab", "abc"));
    assert!(!text_less("abc", "ab"));
    assert!(!text_less("a", "a"));
    assert!(text_less("Z", "a"));
    assert!(text_less("é", "東"));
}

#[test]
fn sorting_texts_removes_repeats() {
    let v = vec!["b".to_string(), "a".to_string(), "b".to_string(), "c".to_string()];
    assert_eq!(sorted_unique_texts(v), vec!["a", "b", "c"]);
}

#[test]
fn positions_follow_instant_then_text_then_position() {
    let ts = vec![at(5), at(1), at(5), at(1), at(5)];
    let texts = vec![
        "b".to_string(),
        "z".to_string(),
        "a".to_string(),
        "z".to_string(),
        "b".to_string(),
    ];
    assert_eq!(sorted_positions(&ts, &texts), vec![1, 3, 2, 0, 4]);
}

#[test]
fn text_map_reads_back_the_last_write() {
    let mut m: TextMap<u32> = TextMap::new();
    m.insert("a", 1);
    m.insert("b", 2);
    m.insert("a", 3);
    assert_eq!(m.get("a"), Some(&3));
    assert_eq!(m.get("b"), Some(&2));
    assert_eq!(m.get("c"), None);
    assert!(m.contains_key("b"));
    assert_eq!(m.entries.len(), 2);
}
