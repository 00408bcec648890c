//! Decisions of the batched embedding client: what a request may carry, when a failed
//! attempt is retried, and how a response is put back in input order.
use vstd::prelude::*;

use crate::render::{decimal_digits, decimal_text, quote, quoted};
use crate::text::{is_blank, is_blank_spec, string_of};

verus! {

/// How often, and how patiently, an embedding request is retried.
#[derive(Debug, Clone, Copy, PartialEq, Eq)]
pub struct EmbeddingRetryPolicy {
    pub max_attempts: usize,
    pub initial_backoff: std::time::Duration,
}

/// The duration of `millis` milliseconds.
pub uninterp spec fn duration_of_millis(millis: u64) -> std::time::Duration;

/// `Duration::from_millis`: the duration of the given number of milliseconds.
#[verifier::external_body]
fn duration_from_millis(millis: u64) -> (d: std::time::Duration)
    ensures
        d == duration_of_millis(millis),
{
    std::time::Duration::from_millis(millis)
}

impl EmbeddingRetryPolicy {
    /// One attempt and no backoff.
    pub fn no_retry() -> (p: Self)
        ensures
            p.max_attempts == 1,
            p.initial_backoff == duration_of_millis(0),
    {
        EmbeddingRetryPolicy { max_attempts: 1, initial_backoff: duration_from_millis(0) }
    }
}

/// Why a batch was refused before any request was sent.
#[derive(Debug, Clone, Copy, PartialEq, Eq, Structural)]
pub enum EmbeddingRequestError {
    /// The policy allows no attempt at all.
    ZeroAttempts,
    /// Some input is empty or only whitespace.
    BlankInput,
}

/// What to do with a batch before the first request.
#[derive(Debug, Clone, Copy, PartialEq, Eq, Structural)]
pub enum EmbeddingRequestPlan {
    /// Nothing to embed: the answer is the empty list, without any request.
    NothingToEmbed,
    /// Send the batch.
    Send,
}

pub open spec fn some_blank(inputs: Seq<String>) -> bool {
    exists|i: int| 0 <= i < inputs.len() && is_blank_spec(#[trigger] inputs[i]@)
}

/// Admits a batch: an empty batch needs no request; otherwise the policy must allow
/// an attempt and no input may be blank.
pub fn plan_embedding_request(inputs: &Vec<String>, retry: EmbeddingRetryPolicy) -> (r: Result<
    EmbeddingRequestPlan,
    EmbeddingRequestError,
>)
    ensures
        inputs@.len() == 0 ==> r == Ok::<_, EmbeddingRequestError>(
            EmbeddingRequestPlan::NothingToEmbed,
        ),
        inputs@.len() > 0 && retry.max_attempts == 0 ==> r == Err::<EmbeddingRequestPlan, _>(
            EmbeddingRequestError::ZeroAttempts,
        ),
        inputs@.len() > 0 && retry.max_attempts > 0 && some_blank(inputs@) ==> r == Err::<
            EmbeddingRequestPlan,
            _,
        >(EmbeddingRequestError::BlankInput),
        inputs@.len() > 0 && retry.max_attempts > 0 && !some_blank(inputs@) ==> r == Ok::<
            _,
            EmbeddingRequestError,
        >(EmbeddingRequestPlan::Send),
{
    if inputs.len() == 0 {
        return Ok(EmbeddingRequestPlan::NothingToEmbed);
    }
    if retry.max_attempts == 0 {
        return Err(EmbeddingRequestError::ZeroAttempts);
    }
    let mut i: usize = 0;
    while i < inputs.len()
        invariant
            i <= inputs.len(),
            inputs@.len() > 0,
            retry.max_attempts > 0,
            forall|j: int| 0 <= j < i ==> !is_blank_spec(#[trigger] inputs@[j]@),
        decreases inputs.len() - i,
    {
        if is_blank(inputs[i].as_str()) {
            return Err(EmbeddingRequestError::BlankInput);
        }
        i = i + 1;
    }
    Ok(EmbeddingRequestPlan::Send)
}

/// What came back from one attempt.
#[derive(Debug, Clone, Copy, PartialEq, Eq, Structural)]
pub enum AttemptOutcome {
    /// The server answered with a success status.
    Success,
    /// The server answered with another status.
    HttpStatus { status: u16 },
    /// No answer; `timeout_or_connect` tells whether it timed out or failed to connect.
    Transport { timeout_or_connect: bool },
}

/// What to do after one attempt.
#[derive(Debug, Clone, Copy, PartialEq, Eq, Structural)]
pub enum AttemptDecision {
    /// Read the body of the successful answer.
    ReadBody,
    /// Give up and report this attempt's failure.
    Fail,
    /// Sleep `initial_backoff` times `backoff_multiplier` (saturating), then try again.
    Retry { backoff_multiplier: u32 },
}

/// A failing status that may pass on its own: too many requests, or a server error.
pub open spec fn retryable_status(status: u16) -> bool {
    status == 429 || (500 <= status && status <= 599)
}

pub open spec fn attempt_decision(
    attempt: usize,
    max_attempts: usize,
    outcome: AttemptOutcome,
) -> AttemptDecision {
    match outcome {
        AttemptOutcome::Success => AttemptDecision::ReadBody,
        AttemptOutcome::HttpStatus { status } => if !retryable_status(status) || attempt
            == max_attempts {
            AttemptDecision::Fail
        } else {
            AttemptDecision::Retry { backoff_multiplier: attempt as u32 }
        },
        AttemptOutcome::Transport { timeout_or_connect } => if attempt == max_attempts
            || !timeout_or_connect {
            AttemptDecision::Fail
        } else {
            AttemptDecision::Retry { backoff_multiplier: attempt as u32 }
        },
    }
}

/// What follows an attempt, over every status: a success is read; too many requests
/// (429) and every server error (500 to 599) are retried, the `n`-th pause being `n`
/// times the initial one, while attempts remain and failed after the last; every other
/// status fails at once; a timeout or a failed connection is retried while attempts
/// remain, and any other transport error fails.
pub proof fn lemma_retry_decisions(attempt: int, max_attempts: usize, outcome: AttemptOutcome)
    requires
        1 <= attempt <= max_attempts,
    ensures
        outcome is Success ==> attempt_decision(attempt as usize, max_attempts, outcome)
            == AttemptDecision::ReadBody,
        forall|status: u16|
            outcome == (AttemptOutcome::HttpStatus { status }) && (status == 429 || (500 <= status
                && status <= 599)) && attempt < max_attempts ==> #[trigger] attempt_decision(
                attempt as usize,
                max_attempts,
                AttemptOutcome::HttpStatus { status },
            ) == (AttemptDecision::Retry { backoff_multiplier: attempt as u32 }),
        forall|status: u16|
            outcome == (AttemptOutcome::HttpStatus { status }) && (status == 429 || (500 <= status
                && status <= 599)) && attempt == max_attempts ==> #[trigger] attempt_decision(
                attempt as usize,
                max_attempts,
                AttemptOutcome::HttpStatus { status },
            ) == AttemptDecision::Fail,
        forall|status: u16|
            !(status == 429 || (500 <= status && status <= 599)) ==> #[trigger] attempt_decision(
                attempt as usize,
                max_attempts,
                AttemptOutcome::HttpStatus { status },
            ) == AttemptDecision::Fail,
        attempt < max_attempts ==> attempt_decision(
            attempt as usize,
            max_attempts,
            AttemptOutcome::Transport { timeout_or_connect: true },
        ) == (AttemptDecision::Retry { backoff_multiplier: attempt as u32 }),
        attempt_decision(attempt as usize, max_attempts, AttemptOutcome::Transport { timeout_or_connect: false })
            == AttemptDecision::Fail,
{
}

/// Decides after attempt number `attempt` (counted from one): a success is read, a
/// failure is retried only while attempts remain and only when it may pass on its own.
pub fn decide_after_attempt(attempt: usize, retry: EmbeddingRetryPolicy, outcome: AttemptOutcome) -> (d:
    AttemptDecision)
    requires
        1 <= attempt <= retry.max_attempts,
    ensures
        d == attempt_decision(attempt, retry.max_attempts, outcome),
        d is Retry ==> attempt < retry.max_attempts,
        outcome is Success ==> d == AttemptDecision::ReadBody,
        (outcome matches AttemptOutcome::HttpStatus { status } && (status == 429 || (500 <= status
            && status <= 599)) && attempt < retry.max_attempts) ==> d == (AttemptDecision::Retry {
            backoff_multiplier: attempt as u32,
        }),
        (outcome matches AttemptOutcome::HttpStatus { status } && !(status == 429 || (500 <= status
            && status <= 599))) ==> d == AttemptDecision::Fail,
{
    proof {
        lemma_retry_decisions(attempt as int, retry.max_attempts, outcome);
    }
    match outcome {
        AttemptOutcome::Success => AttemptDecision::ReadBody,
        AttemptOutcome::HttpStatus { status } => {
            let retryable = status == 429 || (500 <= status && status <= 599);
            if !retryable || attempt == retry.max_attempts {
                AttemptDecision::Fail
            } else {
                AttemptDecision::Retry { backoff_multiplier: attempt as u32 }
            }
        },
        AttemptOutcome::Transport { timeout_or_connect } => {
            if attempt == retry.max_attempts || !timeout_or_connect {
                AttemptDecision::Fail
            } else {
                AttemptDecision::Retry { backoff_multiplier: attempt as u32 }
            }
        },
    }
}

/// How many requests a batch sends from attempt `attempt` on, when attempt `k` ends as
/// `outcomes(k)`: each attempt sends one request, and another follows only when the
/// decision after it is to retry.
pub open spec fn requests_sent(outcomes: spec_fn(int) -> AttemptOutcome, attempt: int, max_attempts: usize) -> nat
    decreases max_attempts - attempt,
{
    if attempt < 1 || attempt > max_attempts {
        0
    } else if attempt_decision(attempt as usize, max_attempts, outcomes(attempt)) is Retry {
        1 + requests_sent(outcomes, attempt + 1, max_attempts)
    } else {
        1
    }
}

proof fn lemma_requests_from(outcomes: spec_fn(int) -> AttemptOutcome, attempt: int, max_attempts: usize)
    requires
        1 <= attempt <= max_attempts,
    ensures
        1 <= requests_sent(outcomes, attempt, max_attempts) <= max_attempts - attempt + 1,
    decreases max_attempts - attempt,
{
    if attempt_decision(attempt as usize, max_attempts, outcomes(attempt)) is Retry {
        lemma_requests_from(outcomes, attempt + 1, max_attempts);
    }
}

/// A batch that is sent sends at least one request and never more than the policy's
/// attempts, whatever the attempts end as; under `no_retry` it sends exactly one.
pub proof fn lemma_requests_bounded(outcomes: spec_fn(int) -> AttemptOutcome, retry: EmbeddingRetryPolicy)
    requires
        retry.max_attempts >= 1,
    ensures
        1 <= requests_sent(outcomes, 1, retry.max_attempts) <= retry.max_attempts,
        retry.max_attempts == 1 ==> requests_sent(outcomes, 1, retry.max_attempts) == 1,
{
    lemma_requests_from(outcomes, 1, retry.max_attempts);
}

/// One vector of a response, with the position of the input it belongs to.
pub struct IndexedEmbedding<E> {
    pub index: usize,
    pub embedding: Vec<E>,
}

/// A response of the embedding service.
pub struct EmbeddingResponse<E> {
    pub model: String,
    pub data: Vec<IndexedEmbedding<E>>,
}

/// Why a response was refused.
#[derive(Debug, Clone, PartialEq, Eq)]
pub enum ResponseOrderError {
    ModelMismatch { returned_model: String },
    CountMismatch { returned: usize, expected: usize },
    IndexOutOfRange { index: usize, expected: usize },
    DuplicateIndex { index: usize },
    DimensionMismatch { index: usize, found: usize, expected: usize },
    MissingIndex { index: usize },
}

/// An item before position `i` carries the same index as item `i`.
pub open spec fn index_repeated<E>(data: Seq<IndexedEmbedding<E>>, i: int) -> bool {
    exists|j: int| 0 <= j < i && #[trigger] data[j].index == data[i].index
}

/// The first fault of item `i`, if it has one.
pub open spec fn item_fault<E>(
    data: Seq<IndexedEmbedding<E>>,
    i: int,
    expected_count: usize,
    dims: Option<usize>,
) -> Option<ResponseOrderError> {
    if data[i].index >= expected_count {
        Some(ResponseOrderError::IndexOutOfRange { index: data[i].index, expected: expected_count })
    } else if index_repeated(data, i) {
        Some(ResponseOrderError::DuplicateIndex { index: data[i].index })
    } else {
        match dims {
            Some(d) => if data[i].embedding@.len() != d {
                Some(
                    ResponseOrderError::DimensionMismatch {
                        index: data[i].index,
                        found: data[i].embedding@.len() as usize,
                        expected: d,
                    },
                )
            } else {
                None
            },
            None => None,
        }
    }
}

/// The vector `v` is the one that an item carrying index `k` holds.
pub open spec fn placed_at<E>(data: Seq<IndexedEmbedding<E>>, k: int, v: Seq<E>) -> bool {
    exists|j: int| 0 <= j < data.len() && #[trigger] data[j].index == k && v == data[j].embedding@
}

/// Some item carries index `k`.
pub open spec fn index_present<E>(data: Seq<IndexedEmbedding<E>>, k: int) -> bool {
    exists|j: int| 0 <= j < data.len() && #[trigger] data[j].index == k
}

/// The answer owed for a response: the vectors in input order, or the first fault in
/// the order the checks are made.
pub open spec fn ordering_refused_with<E>(
    requested_model: Seq<char>,
    expected_count: usize,
    dims: Option<usize>,
    response: EmbeddingResponse<E>,
    e: ResponseOrderError,
) -> bool {
    let data = response.data@;
    if response.model@ != requested_model {
        e matches ResponseOrderError::ModelMismatch { returned_model } && returned_model@ == response.model@
    } else if data.len() != expected_count {
        e == ResponseOrderError::CountMismatch { returned: data.len() as usize, expected: expected_count }
    } else if exists|i: int| 0 <= i < data.len() && #[trigger] item_fault(data, i, expected_count, dims) is Some {
        exists|i: int|
            #![trigger data[i]]
            0 <= i < data.len() && (forall|j: int| 0 <= j < i ==> #[trigger] item_fault(data, j, expected_count, dims) is None)
                && item_fault(data, i, expected_count, dims) == Some(e)
    } else {
        exists|k: int|
            #![trigger index_present(data, k)]
            0 <= k < expected_count && !index_present(data, k) && (forall|m: int|
                0 <= m < k ==> index_present(data, m)) && e == ResponseOrderError::MissingIndex {
                index: k as usize,
            }
    }
}

/// All checks pass: the model matches, there is one item per input, every index is in
/// range and used once, every vector has the requested size, and every input position
/// is covered.
pub open spec fn ordering_accepted<E>(
    requested_model: Seq<char>,
    expected_count: usize,
    dims: Option<usize>,
    response: EmbeddingResponse<E>,
) -> bool {
    let data = response.data@;
    &&& response.model@ == requested_model
    &&& data.len() == expected_count
    &&& forall|i: int| 0 <= i < data.len() ==> #[trigger] item_fault(data, i, expected_count, dims) is None
    &&& forall|k: int| 0 <= k < expected_count ==> index_present(data, k)
}

/// Puts the vectors of a response in the order of the inputs, refusing a response from
/// another model, with the wrong number of vectors, an index out of range or repeated,
/// a vector of the wrong size, or an input left without a vector.
#[verifier::loop_isolation(false)]
pub fn ordered_embeddings<E>(
    requested_model: &str,
    expected_count: usize,
    expected_dimensions: Option<usize>,
    response: EmbeddingResponse<E>,
) -> (r: Result<Vec<Vec<E>>, ResponseOrderError>)
    ensures
        r is Ok <==> ordering_accepted(requested_model@, expected_count, expected_dimensions, response),
        r matches Err(e) ==> ordering_refused_with(
            requested_model@,
            expected_count,
            expected_dimensions,
            response,
            e,
        ),
        r matches Ok(out) ==> {
            &&& out@.len() == expected_count
            &&& forall|k: int|
                0 <= k < expected_count ==> placed_at(response.data@, k, #[trigger] out@[k]@)
        },
{
    let ghost data0 = response.data@;
    if !crate::text::text_eq(response.model.as_str(), requested_model) {
        return Err(ResponseOrderError::ModelMismatch { returned_model: response.model });
    }
    if response.data.len() != expected_count {
        return Err(
            ResponseOrderError::CountMismatch {
                returned: response.data.len(),
                expected: expected_count,
            },
        );
    }
    // Check every item in order, remembering which positions are taken.
    let mut taken: Vec<bool> = Vec::new();
    let mut t: usize = 0;
    while t < expected_count
        invariant
            t <= expected_count,
            taken@.len() == t,
            forall|k: int| 0 <= k < t ==> !(#[trigger] taken@[k]),
        decreases expected_count - t,
    {
        taken.push(false);
        t = t + 1;
    }
    let mut i: usize = 0;
    while i < response.data.len()
        invariant
            response.data@ == data0,
            data0.len() == expected_count,
            taken@.len() == expected_count,
            i <= data0.len(),
            forall|j: int| 0 <= j < i ==> #[trigger] item_fault(data0, j, expected_count, expected_dimensions) is None,
            forall|k: int|
                0 <= k < expected_count ==> (#[trigger] taken@[k] <==> exists|j: int|
                    0 <= j < i && #[trigger] data0[j].index == k),
        decreases data0.len() - i,
    {
        let index = response.data[i].index;
        if index >= expected_count {
            assert(item_fault(data0, i as int, expected_count, expected_dimensions) is Some);
            return Err(ResponseOrderError::IndexOutOfRange { index, expected: expected_count });
        }
        if taken[index] {
            assert(index_repeated(data0, i as int));
            assert(item_fault(data0, i as int, expected_count, expected_dimensions) is Some);
            return Err(ResponseOrderError::DuplicateIndex { index });
        }
        assert(!index_repeated(data0, i as int));
        match expected_dimensions {
            Some(d) => {
                let found: usize = response.data[i].embedding.len();
                if found != d {
                    assert(item_fault(data0, i as int, expected_count, expected_dimensions) is Some);
                    return Err(
                        ResponseOrderError::DimensionMismatch { index, found, expected: d },
                    );
                }
            },
            None => {},
        }
        taken.set(index, true);
        i = i + 1;
        assert forall|k: int|
            0 <= k < expected_count implies (#[trigger] taken@[k] <==> exists|j: int|
                0 <= j < i && #[trigger] data0[j].index == k) by {
            if k == index {
                assert(data0[i - 1].index == k);
            }
        }
    }
    // Every input position must be covered.
    let mut k: usize = 0;
    while k < expected_count
        invariant
            taken@.len() == expected_count,
            k <= expected_count,
            forall|m: int| 0 <= m < k ==> index_present(data0, m),
            forall|m: int|
                0 <= m < expected_count ==> (#[trigger] taken@[m] <==> exists|j: int|
                    0 <= j < data0.len() && #[trigger] data0[j].index == m),
        decreases expected_count - k,
    {
        if !taken[k] {
            assert(!index_present(data0, k as int));
            return Err(ResponseOrderError::MissingIndex { index: k });
        }
        k = k + 1;
    }
    // Move each vector into its position.
    let mut slots: Vec<Option<Vec<E>>> = Vec::new();
    let mut s: usize = 0;
    while s < expected_count
        invariant
            s <= expected_count,
            slots@.len() == s,
            forall|m: int| 0 <= m < s ==> #[trigger] slots@[m] is None,
        decreases expected_count - s,
    {
        slots.push(None);
        s = s + 1;
    }
    assert forall|j: int| 0 <= j < data0.len() implies #[trigger] data0[j].index < expected_count
        && !index_repeated(data0, j) by {
        assert(item_fault(data0, j, expected_count, expected_dimensions) is None);
    }
    let mut rest = response.data;
    while rest.len() > 0
        invariant
            data0.len() == expected_count,
            slots@.len() == expected_count,
            rest@.len() <= data0.len(),
            rest@ == data0.subrange(0, rest@.len() as int),
            forall|j: int|
                0 <= j < data0.len() ==> #[trigger] data0[j].index < expected_count
                    && !index_repeated(data0, j),
            forall|m: int|
                #![trigger slots@[m]]
                0 <= m < expected_count ==> match slots@[m] {
                    Some(v) => exists|j: int|
                        rest@.len() <= j < data0.len() && #[trigger] data0[j].index == m && v@
                            == data0[j].embedding@,
                    None => forall|j: int|
                        rest@.len() <= j < data0.len() ==> #[trigger] data0[j].index != m,
                },
        decreases rest@.len(),
    {
        let ghost jj: int = rest@.len() - 1;
        let item = rest.pop().unwrap();
        assert(item == data0[jj]);
        let ghost m0: int = item.index as int;
        assert forall|j: int| jj < j < data0.len() implies #[trigger] data0[j].index != m0 by {
            assert(!index_repeated(data0, j));
            if data0[j].index == m0 {
                assert(data0[jj].index == data0[j].index);
            }
        }
        let ghost before = slots@;
        slots.set(item.index, Some(item.embedding));
        assert forall|m: int|
            #![trigger slots@[m]]
            0 <= m < expected_count implies match slots@[m] {
                Some(v) => exists|j: int|
                    rest@.len() <= j < data0.len() && #[trigger] data0[j].index == m && v@
                        == data0[j].embedding@,
                None => forall|j: int|
                    rest@.len() <= j < data0.len() ==> #[trigger] data0[j].index != m,
            } by {
            if m == m0 {
                assert(data0[jj].index == m);
            } else {
                assert(slots@[m] == before[m]);
                if before[m] is None {
                    assert(data0[jj].index != m);
                }
            }
        }
    }
    assert forall|m: int| 0 <= m < expected_count implies #[trigger] slots@[m] is Some by {
        assert(index_present(data0, m));
        let j = choose|j: int| 0 <= j < data0.len() && #[trigger] data0[j].index == m;
        if slots@[m] is None {
            assert(data0[j].index != m);
        }
    }
    // Unwrap the slots in order.
    let ghost slots0 = slots@;
    let mut rev: Vec<Vec<E>> = Vec::new();
    while slots.len() > 0
        invariant
            slots0.len() == expected_count,
            slots@.len() + rev@.len() == expected_count,
            slots@ == slots0.subrange(0, slots@.len() as int),
            forall|m: int| 0 <= m < expected_count ==> #[trigger] slots0[m] is Some,
            forall|q: int|
                0 <= q < rev@.len() ==> Some(#[trigger] rev@[q]) == slots0[expected_count - 1 - q],
        decreases slots@.len(),
    {
        let ghost top: int = slots@.len() - 1;
        let slot = slots.pop().unwrap();
        assert(slot == slots0[top]);
        let v = slot.unwrap();
        rev.push(v);
    }
    let ghost rev0 = rev@;
    let mut out: Vec<Vec<E>> = Vec::new();
    while rev.len() > 0
        invariant
            rev0.len() == expected_count,
            out@.len() + rev@.len() == expected_count,
            rev@ == rev0.subrange(0, rev@.len() as int),
            forall|q: int| 0 <= q < out@.len() ==> #[trigger] out@[q] == rev0[expected_count - 1 - q],
        decreases rev@.len(),
    {
        let ghost top: int = rev@.len() - 1;
        let v = rev.pop().unwrap();
        assert(v == rev0[top]);
        out.push(v);
    }
    assert forall|k: int| 0 <= k < expected_count implies placed_at(data0, k, #[trigger] out@[k]@) by {
        assert(out@[k] == rev0[expected_count - 1 - k]);
        assert(Some(rev0[expected_count - 1 - k]) == slots0[k]);
    }
    assert(out@.len() == expected_count);
    assert(data0 == response.data@);
    Ok(out)
}


/// A response fit to be put in order, stated without the order of checks: it comes from
/// the requested model, has one item per input, every index is below the input count
/// and no two items share one, and every vector has the requested size.
pub open spec fn response_fits<E>(
    requested_model: Seq<char>,
    expected_count: usize,
    dims: Option<usize>,
    response: EmbeddingResponse<E>,
) -> bool {
    let data = response.data@;
    &&& response.model@ == requested_model
    &&& data.len() == expected_count
    &&& forall|i: int| 0 <= i < data.len() ==> #[trigger] data[i].index < expected_count
    &&& forall|i: int, j: int| 0 <= i < j < data.len() ==> #[trigger] data[i].index != #[trigger] data[j].index
    &&& forall|i: int| 0 <= i < data.len() ==> (dims matches Some(d) ==> #[trigger] data[i].embedding@.len() == d)
}

/// A response is put in order exactly when it fits: the model matches, there is one
/// item per input, the indices are in range and pairwise distinct, and the vectors have
/// the requested size; every input then has its vector.
pub proof fn lemma_ordering_accepted_exactly<E>(
    requested_model: Seq<char>,
    expected_count: usize,
    dims: Option<usize>,
    response: EmbeddingResponse<E>,
)
    ensures
        ordering_accepted(requested_model, expected_count, dims, response) <==> response_fits(
            requested_model,
            expected_count,
            dims,
            response,
        ),
{
    let data = response.data@;
    let n = expected_count as int;
    if ordering_accepted(requested_model, expected_count, dims, response) {
        assert forall|i: int| 0 <= i < data.len() implies #[trigger] data[i].index < expected_count by {
            assert(item_fault(data, i, expected_count, dims) is None);
        }
        assert forall|i: int, j: int| 0 <= i < j < data.len() implies #[trigger] data[i].index
            != #[trigger] data[j].index by {
            assert(item_fault(data, j, expected_count, dims) is None);
            if data[i].index == data[j].index {
                assert(index_repeated(data, j));
            }
        }
        assert forall|i: int| 0 <= i < data.len() implies (dims matches Some(d) ==> #[trigger] data[i].embedding@.len()
            == d) by {
            assert(item_fault(data, i, expected_count, dims) is None);
        }
    }
    if response_fits(requested_model, expected_count, dims, response) {
        assert forall|i: int| 0 <= i < data.len() implies #[trigger] item_fault(data, i, expected_count, dims) is None by {
            if index_repeated(data, i) {
                let j = choose|j: int| 0 <= j < i && #[trigger] data[j].index == data[i].index;
                assert(data[j].index != data[i].index);
            }
        }
        let p = data.map_values(|x: IndexedEmbedding<E>| x.index as int);
        assert(crate::selection::is_permutation(p, n)) by {
            assert forall|k: int| 0 <= k < n implies 0 <= #[trigger] p[k] < n by {
                assert(data[k].index < expected_count);
            }
            assert forall|a: int, b: int| 0 <= a < b < n implies #[trigger] p[a] != #[trigger] p[b] by {
                assert(data[a].index != data[b].index);
            }
        }
        assert forall|k: int| 0 <= k < expected_count implies index_present(data, k) by {
            crate::selection::lemma_permutation_onto(p, n, k);
            let j = choose|j: int| 0 <= j < n && p[j] == k;
            assert(data[j].index == k);
        }
    }
}


impl EmbeddingRequestError {
    /// The message of this refusal.
    pub fn message(&self) -> (m: String)
        ensures
            m@ == match *self {
                EmbeddingRequestError::ZeroAttempts => "embedding retry policy max_attempts must be greater than zero"@,
                EmbeddingRequestError::BlankInput => "embedding inputs must not be blank"@,
            },
    {
        match self {
            EmbeddingRequestError::ZeroAttempts => string_of(
                "embedding retry policy max_attempts must be greater than zero",
            ),
            EmbeddingRequestError::BlankInput => string_of("embedding inputs must not be blank"),
        }
    }
}

/// The message of a refused response, for a request of `requested_model`.
pub open spec fn response_error_text(e: ResponseOrderError, requested_model: Seq<char>) -> Seq<char> {
    let head = "OpenAI embedding response "@;
    match e {
        ResponseOrderError::ModelMismatch { returned_model } => head + "model "@ + quoted(returned_model@)
            + " does not match requested model "@ + quoted(requested_model),
        ResponseOrderError::CountMismatch { returned, expected } => head + "returned "@ + decimal_digits(
            returned as nat,
        ) + " vectors for "@ + decimal_digits(expected as nat) + " inputs"@,
        ResponseOrderError::IndexOutOfRange { index, expected } => head + "index "@ + decimal_digits(
            index as nat,
        ) + " is outside expected range 0.."@ + decimal_digits(expected as nat),
        ResponseOrderError::DuplicateIndex { index } => head + "contains duplicate index "@ + decimal_digits(
            index as nat,
        ),
        ResponseOrderError::DimensionMismatch { index, found, expected } => head + "index "@ + decimal_digits(
            index as nat,
        ) + " has vector size "@ + decimal_digits(found as nat) + ", expected "@ + decimal_digits(
            expected as nat,
        ),
        ResponseOrderError::MissingIndex { index } => head + "omitted index "@ + decimal_digits(index as nat),
    }
}

impl ResponseOrderError {
    /// The message of this refusal, for a request of `requested_model`.
    pub fn message(&self, requested_model: &str) -> (m: String)
        ensures
            m@ == response_error_text(*self, requested_model@),
    {
        let mut m = string_of("OpenAI embedding response ");
        match self {
            ResponseOrderError::ModelMismatch { returned_model } => {
                m.append("model ");
                m.append(quote(returned_model.as_str()).as_str());
                m.append(" does not match requested model ");
                m.append(quote(requested_model).as_str());
            },
            ResponseOrderError::CountMismatch { returned, expected } => {
                m.append("returned ");
                m.append(decimal_text(*returned).as_str());
                m.append(" vectors for ");
                m.append(decimal_text(*expected).as_str());
                m.append(" inputs");
            },
            ResponseOrderError::IndexOutOfRange { index, expected } => {
                m.append("index ");
                m.append(decimal_text(*index).as_str());
                m.append(" is outside expected range 0..");
                m.append(decimal_text(*expected).as_str());
            },
            ResponseOrderError::DuplicateIndex { index } => {
                m.append("contains duplicate index ");
                m.append(decimal_text(*index).as_str());
            },
            ResponseOrderError::DimensionMismatch { index, found, expected } => {
                m.append("index ");
                m.append(decimal_text(*index).as_str());
                m.append(" has vector size ");
                m.append(decimal_text(*found).as_str());
                m.append(", expected ");
                m.append(decimal_text(*expected).as_str());
            },
            ResponseOrderError::MissingIndex { index } => {
                m.append("omitted index ");
                m.append(decimal_text(*index).as_str());
            },
        }
        m
    }
}

} // verus!
