use cmem_eval_bench::persist::{persist_backoff_millis, persist_should_retry, PERSIST_ATTEMPTS};

#[test]
fn only_refused_permissions_are_retried_while_attempts_remain() {
    assert_eq!(PERSIST_ATTEMPTS, 4);
    assert!(persist_should_retry(1, true));
    assert!(persist_should_retry(3, true));
    assert!(!persist_should_retry(4, true));
    assert!(!persist_should_retry(1, false));
    assert_eq!(persist_backoff_millis(1), 25);
    assert_eq!(persist_backoff_millis(3), 75);
}
