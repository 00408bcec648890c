use cmem_eval_bench::embedding::{
    decide_after_attempt, ordered_embeddings, plan_embedding_request, AttemptDecision,
    AttemptOutcome, EmbeddingRequestError, EmbeddingRequestPlan, EmbeddingResponse,
    EmbeddingRetryPolicy, IndexedEmbedding, ResponseOrderError,
};
use std::time::Duration;

fn policy(max_attempts: usize) -> EmbeddingRetryPolicy {
    EmbeddingRetryPolicy { max_attempts, initial_backoff: Duration::from_millis(250) }
}

#[test]
fn no_retry_allows_one_immediate_attempt() {
    let p = EmbeddingRetryPolicy::no_retry();
    assert_eq!(p.max_attempts, 1);
    assert_eq!(p.initial_backoff, Duration::from_millis(0));
}

#[test]
fn batches_are_planned_before_any_request() {
    let none: Vec<String> = Vec::new();
    assert_eq!(plan_embedding_request(&none, policy(0)), Ok(EmbeddingRequestPlan::NothingToEmbed));
    let inputs = vec!["a".to_string(), " \t".to_string()];
    assert_eq!(plan_embedding_request(&inputs, policy(0)), Err(EmbeddingRequestError::ZeroAttempts));
    assert_eq!(plan_embedding_request(&inputs, policy(2)), Err(EmbeddingRequestError::BlankInput));
    let good = vec!["a".to_string(), "b".to_string()];
    assert_eq!(plan_embedding_request(&good, policy(2)), Ok(EmbeddingRequestPlan::Send));
}

#[test]
fn only_transient_failures_are_retried_while_attempts_remain() {
    let p = policy(3);
    assert_eq!(decide_after_attempt(1, p, AttemptOutcome::Success), AttemptDecision::ReadBody);
    assert_eq!(
        decide_after_attempt(1, p, AttemptOutcome::HttpStatus { status: 429 }),
        AttemptDecision::Retry { backoff_multiplier: 1 }
    );
    assert_eq!(
        decide_after_attempt(2, p, AttemptOutcome::HttpStatus { status: 503 }),
        AttemptDecision::Retry { backoff_multiplier: 2 }
    );
    assert_eq!(
        decide_after_attempt(3, p, AttemptOutcome::HttpStatus { status: 503 }),
        AttemptDecision::Fail
    );
    assert_eq!(
        decide_after_attempt(1, p, AttemptOutcome::HttpStatus { status: 400 }),
        AttemptDecision::Fail
    );
    assert_eq!(
        decide_after_attempt(1, p, AttemptOutcome::Transport { timeout_or_connect: true }),
        AttemptDecision::Retry { backoff_multiplier: 1 }
    );
    assert_eq!(
        decide_after_attempt(1, p, AttemptOutcome::Transport { timeout_or_connect: false }),
        AttemptDecision::Fail
    );
}

fn response(model: &str, items: &[(usize, Vec<i32>)]) -> EmbeddingResponse<i32> {
    EmbeddingResponse {
        model: model.to_string(),
        data: items
            .iter()
            .map(|(index, embedding)| IndexedEmbedding { index: *index, embedding: embedding.clone() })
            .collect(),
    }
}

#[test]
fn vectors_are_put_back_in_input_order() {
    let r = response("m", &[(1, vec![3, 4]), (0, vec![1, 2])]);
    assert_eq!(ordered_embeddings("m", 2, Some(2), r).unwrap(), vec![vec![1, 2], vec![3, 4]]);
}

#[test]
fn malformed_responses_are_refused_with_the_first_fault() {
    let err = |r: EmbeddingResponse<i32>, count: usize, dims: Option<usize>| {
        ordered_embeddings("m", count, dims, r).unwrap_err()
    };
    assert_eq!(
        err(response("other", &[(0, vec![1])]), 1, None),
        ResponseOrderError::ModelMismatch { returned_model: "other".to_string() }
    );
    assert_eq!(
        err(response("m", &[(0, vec![1])]), 2, None),
        ResponseOrderError::CountMismatch { returned: 1, expected: 2 }
    );
    assert_eq!(
        err(response("m", &[(0, vec![1]), (5, vec![1])]), 2, None),
        ResponseOrderError::IndexOutOfRange { index: 5, expected: 2 }
    );
    assert_eq!(
        err(response("m", &[(1, vec![1]), (1, vec![1])]), 2, None),
        ResponseOrderError::DuplicateIndex { index: 1 }
    );
    assert_eq!(
        err(response("m", &[(0, vec![1, 2]), (1, vec![1])]), 2, Some(2)),
        ResponseOrderError::DimensionMismatch { index: 1, found: 1, expected: 2 }
    );
}

#[test]
fn refusals_carry_the_messages_of_the_http_client() {
    assert_eq!(
        EmbeddingRequestError::ZeroAttempts.message(),
        "embedding retry policy max_attempts must be greater than zero"
    );
    assert_eq!(EmbeddingRequestError::BlankInput.message(), "embedding inputs must not be blank");
    assert_eq!(
        ResponseOrderError::ModelMismatch { returned_model: "other".to_string() }.message("model-a"),
        "OpenAI embedding response model \"other\" does not match requested model \"model-a\""
    );
    assert_eq!(
        ResponseOrderError::CountMismatch { returned: 1, expected: 2 }.message("m"),
        "OpenAI embedding response returned 1 vectors for 2 inputs"
    );
    assert_eq!(
        ResponseOrderError::IndexOutOfRange { index: 7, expected: 2 }.message("m"),
        "OpenAI embedding response index 7 is outside expected range 0..2"
    );
    assert_eq!(
        ResponseOrderError::DuplicateIndex { index: 0 }.message("m"),
        "OpenAI embedding response contains duplicate index 0"
    );
    assert_eq!(
        ResponseOrderError::DimensionMismatch { index: 1, found: 3, expected: 4 }.message("m"),
        "OpenAI embedding response index 1 has vector size 3, expected 4"
    );
    assert_eq!(
        ResponseOrderError::MissingIndex { index: 5 }.message("m"),
        "OpenAI embedding response omitted index 5"
    );
}
