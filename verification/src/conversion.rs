//! Conversion of curated LongMemEval-S and LoCoMo rows into continuity scenarios.
use vstd::prelude::*;

use crate::driver::ExpectedRelevance;
use crate::order::{is_sorted_perm, rank_lt, sorted_positions};
use crate::render::{decimal_digits, decimal_text};
use crate::selection::{
    pattern_of, BenchmarkSource, InstanceSelection, ScenarioKind, ScenarioPattern,
};
use crate::text::{
    contains_text, first_occurrence, seq_contains_text, split_once_text, string_of, text_eq,
};
use crate::textmap::TextMap;
use crate::timestamp::{
    later_of, parse_source_timestamp, seconds_after, shift_fits, shifted, source_instant, ts_lt,
    Timestamp,
};

verus! {

/// One turn of a LongMemEval-S session; `index` counts from one.
#[derive(Debug, Clone, PartialEq, Eq)]
pub struct LongMemEvalTurn {
    pub index: usize,
    pub text: String,
}

/// One LongMemEval-S session, with its date as the dataset writes it.
#[derive(Debug, Clone, PartialEq, Eq)]
pub struct LongMemEvalSession {
    pub session_id: String,
    pub date: Option<String>,
    pub turns: Vec<LongMemEvalTurn>,
}

/// One LongMemEval-S row, with the gold turn ids as the benchmark loader derives them.
#[derive(Debug, Clone, PartialEq, Eq)]
pub struct LongMemEvalInstance {
    pub question_id: String,
    pub question_type: Option<String>,
    pub question: String,
    pub question_date: Option<String>,
    pub sessions: Vec<LongMemEvalSession>,
    pub gold_turn_ids: Vec<String>,
}

/// One LoCoMo turn, with how many image URLs it carries.
#[derive(Debug, Clone, PartialEq, Eq)]
pub struct LoCoMoTurn {
    pub dialog_id: String,
    pub text: String,
    pub image_url_count: usize,
}

/// One LoCoMo session, with its timestamp as the dataset writes it.
#[derive(Debug, Clone, PartialEq, Eq)]
pub struct LoCoMoSession {
    pub session_id: String,
    pub timestamp: Option<String>,
    pub turns: Vec<LoCoMoTurn>,
}

/// One LoCoMo question, with the sessions of its evidence as the benchmark loader
/// derives them.
#[derive(Debug, Clone, PartialEq, Eq)]
pub struct LoCoMoQa {
    pub qa_index: usize,
    pub question: String,
    pub question_type: Option<String>,
    pub evidence_dialog_ids: Vec<String>,
    pub evidence_sessions: Vec<String>,
}

/// One LoCoMo conversation and its questions.
#[derive(Debug, Clone, PartialEq, Eq)]
pub struct LoCoMoSample {
    pub sample_id: String,
    pub sessions: Vec<LoCoMoSession>,
    pub qa: Vec<LoCoMoQa>,
}

/// A source turn admitted into a scenario.
#[derive(Debug, Clone, PartialEq, Eq)]
pub struct SourceTurn<T = String> {
    pub external_id: T,
    pub timestamp: Timestamp,
    pub text: T,
}

/// A scripted interaction of a converted scenario.
#[derive(Debug, Clone, PartialEq, Eq)]
pub enum InteractionEvent<T = String, L = Vec<String>> {
    /// Remember a source turn.
    Remember { event_id: T, external_id: T, timestamp: Timestamp, text: T },
    /// Replace a remembered turn by a newer one.
    Correct {
        event_id: T,
        target_external_id: T,
        replacement_external_id: T,
        timestamp: Timestamp,
        replacement_text: T,
    },
    /// Ask the question.
    Query { event_id: T, query_id: T, timestamp: Timestamp, text: T, expected: ExpectedRelevance<L> },
}

/// A converted continuity scenario.
#[derive(Debug, Clone, PartialEq, Eq)]
pub struct ContinuityScenario<T = String, E = Vec<InteractionEvent>> {
    pub fixture_id: T,
    pub namespace: T,
    pub pattern: ScenarioPattern,
    pub events: E,
}

/// Texts as character sequences.
pub type TextView = Seq<char>;

pub type TurnView = SourceTurn<TextView>;

pub type EventView = InteractionEvent<TextView, Seq<TextView>>;

pub open spec fn texts_view(v: Seq<String>) -> Seq<TextView> {
    v.map_values(|s: String| s@)
}

pub open spec fn turn_view(t: SourceTurn) -> TurnView {
    SourceTurn { external_id: t.external_id@, timestamp: t.timestamp, text: t.text@ }
}

pub open spec fn turns_view(v: Seq<SourceTurn>) -> Seq<TurnView> {
    v.map_values(|t: SourceTurn| turn_view(t))
}

pub open spec fn event_view(e: InteractionEvent) -> EventView {
    match e {
        InteractionEvent::Remember { event_id, external_id, timestamp, text } =>
            InteractionEvent::Remember {
                event_id: event_id@,
                external_id: external_id@,
                timestamp,
                text: text@,
            },
        InteractionEvent::Correct {
            event_id,
            target_external_id,
            replacement_external_id,
            timestamp,
            replacement_text,
        } => InteractionEvent::Correct {
            event_id: event_id@,
            target_external_id: target_external_id@,
            replacement_external_id: replacement_external_id@,
            timestamp,
            replacement_text: replacement_text@,
        },
        InteractionEvent::Query { event_id, query_id, timestamp, text, expected } =>
            InteractionEvent::Query {
                event_id: event_id@,
                query_id: query_id@,
                timestamp,
                text: text@,
                expected: ExpectedRelevance {
                    relevant_external_ids: texts_view(expected.relevant_external_ids@),
                    irrelevant_external_ids: texts_view(expected.irrelevant_external_ids@),
                },
            },
    }
}

pub open spec fn events_view(v: Seq<InteractionEvent>) -> Seq<EventView> {
    v.map_values(|e: InteractionEvent| event_view(e))
}

/// Why a selected row could not be converted.
#[derive(Debug, Clone, PartialEq, Eq)]
pub enum ConversionError<T = String> {
    QuestionTypeMismatch { fixture_id: T, expected: T, derived: Option<T> },
    AbstentionRowNotAbs { fixture_id: T },
    GoldEmptinessMismatch { fixture_id: T, expected_empty: bool, derived_empty: bool },
    AbstentionHasGold { fixture_id: T },
    NoGoldTurn { fixture_id: T },
    MissingSession { source: BenchmarkSource, fixture_id: T, session_id: T },
    InvalidSessionTimestamp { fixture_id: T, session_id: T },
    EmptySourceText { fixture_id: T, source_id: T },
    TimestampOverflow { fixture_id: T },
    EvidenceCleanMismatch { fixture_id: T, recorded: bool, derived: bool },
    GoldSessionOmitted { fixture_id: T, session_id: T },
    NegativeNotSelected { fixture_id: T, external_id: T },
    UpdateGoldCount { fixture_id: T, found: usize },
    UpdateGoldNotSelected { fixture_id: T },
    OldGoldNotNegative { fixture_id: T, external_id: T },
    InvalidQuestionDate { fixture_id: T },
    MissingQa { fixture_id: T, qa_index: usize },
    InconsistentQa { fixture_id: T },
    EvidenceSessionOmitted { fixture_id: T, session_id: T },
    NoImgUrlMismatch { fixture_id: T, recorded: bool, derived: bool },
    AbstentionEvidenceNotNegative { fixture_id: T, evidence_id: T },
    NearerNotNegative { fixture_id: T },
    NearerNotRelevant { fixture_id: T },
    NoSourceTurn { fixture_id: T },
    MissingInstance { source: BenchmarkSource, fixture_id: T, instance_id: T },
}

pub type ErrorView = ConversionError<TextView>;

pub open spec fn opt_text_view(o: Option<String>) -> Option<TextView> {
    match o {
        Some(s) => Some(s@),
        None => None,
    }
}

pub open spec fn error_view(e: ConversionError) -> ErrorView {
    match e {
        ConversionError::QuestionTypeMismatch { fixture_id, expected, derived } =>
            ConversionError::QuestionTypeMismatch {
                fixture_id: fixture_id@,
                expected: expected@,
                derived: opt_text_view(derived),
            },
        ConversionError::AbstentionRowNotAbs { fixture_id } =>
            ConversionError::AbstentionRowNotAbs { fixture_id: fixture_id@ },
        ConversionError::GoldEmptinessMismatch { fixture_id, expected_empty, derived_empty } =>
            ConversionError::GoldEmptinessMismatch {
                fixture_id: fixture_id@,
                expected_empty,
                derived_empty,
            },
        ConversionError::AbstentionHasGold { fixture_id } =>
            ConversionError::AbstentionHasGold { fixture_id: fixture_id@ },
        ConversionError::NoGoldTurn { fixture_id } =>
            ConversionError::NoGoldTurn { fixture_id: fixture_id@ },
        ConversionError::MissingSession { source, fixture_id, session_id } =>
            ConversionError::MissingSession {
                source,
                fixture_id: fixture_id@,
                session_id: session_id@,
            },
        ConversionError::InvalidSessionTimestamp { fixture_id, session_id } =>
            ConversionError::InvalidSessionTimestamp {
                fixture_id: fixture_id@,
                session_id: session_id@,
            },
        ConversionError::EmptySourceText { fixture_id, source_id } =>
            ConversionError::EmptySourceText { fixture_id: fixture_id@, source_id: source_id@ },
        ConversionError::TimestampOverflow { fixture_id } =>
            ConversionError::TimestampOverflow { fixture_id: fixture_id@ },
        ConversionError::EvidenceCleanMismatch { fixture_id, recorded, derived } =>
            ConversionError::EvidenceCleanMismatch { fixture_id: fixture_id@, recorded, derived },
        ConversionError::GoldSessionOmitted { fixture_id, session_id } =>
            ConversionError::GoldSessionOmitted { fixture_id: fixture_id@, session_id: session_id@ },
        ConversionError::NegativeNotSelected { fixture_id, external_id } =>
            ConversionError::NegativeNotSelected {
                fixture_id: fixture_id@,
                external_id: external_id@,
            },
        ConversionError::UpdateGoldCount { fixture_id, found } =>
            ConversionError::UpdateGoldCount { fixture_id: fixture_id@, found },
        ConversionError::UpdateGoldNotSelected { fixture_id } =>
            ConversionError::UpdateGoldNotSelected { fixture_id: fixture_id@ },
        ConversionError::OldGoldNotNegative { fixture_id, external_id } =>
            ConversionError::OldGoldNotNegative {
                fixture_id: fixture_id@,
                external_id: external_id@,
            },
        ConversionError::InvalidQuestionDate { fixture_id } =>
            ConversionError::InvalidQuestionDate { fixture_id: fixture_id@ },
        ConversionError::MissingQa { fixture_id, qa_index } =>
            ConversionError::MissingQa { fixture_id: fixture_id@, qa_index },
        ConversionError::InconsistentQa { fixture_id } =>
            ConversionError::InconsistentQa { fixture_id: fixture_id@ },
        ConversionError::EvidenceSessionOmitted { fixture_id, session_id } =>
            ConversionError::EvidenceSessionOmitted {
                fixture_id: fixture_id@,
                session_id: session_id@,
            },
        ConversionError::NoImgUrlMismatch { fixture_id, recorded, derived } =>
            ConversionError::NoImgUrlMismatch { fixture_id: fixture_id@, recorded, derived },
        ConversionError::AbstentionEvidenceNotNegative { fixture_id, evidence_id } =>
            ConversionError::AbstentionEvidenceNotNegative {
                fixture_id: fixture_id@,
                evidence_id: evidence_id@,
            },
        ConversionError::NearerNotNegative { fixture_id } =>
            ConversionError::NearerNotNegative { fixture_id: fixture_id@ },
        ConversionError::NearerNotRelevant { fixture_id } =>
            ConversionError::NearerNotRelevant { fixture_id: fixture_id@ },
        ConversionError::NoSourceTurn { fixture_id } =>
            ConversionError::NoSourceTurn { fixture_id: fixture_id@ },
        ConversionError::MissingInstance { source, fixture_id, instance_id } =>
            ConversionError::MissingInstance {
                source,
                fixture_id: fixture_id@,
                instance_id: instance_id@,
            },
    }
}

/// The outcome of a conversion step, seen through views.
pub open spec fn outcome_view<A, B>(r: Result<A, ConversionError>, f: spec_fn(A) -> B) -> Result<
    B,
    ErrorView,
> {
    match r {
        Ok(a) => Ok(f(a)),
        Err(e) => Err(error_view(e)),
    }
}

/// The question type that the source row reports must be the one the curator expected.
pub open spec fn question_type_outcome(sel: InstanceSelection, actual: Option<TextView>) -> Result<
    (),
    ErrorView,
> {
    if actual == Some(sel.expected_question_type@) {
        Ok(())
    } else {
        Err(
            ConversionError::QuestionTypeMismatch {
                fixture_id: sel.fixture_id@,
                expected: sel.expected_question_type@,
                derived: actual,
            },
        )
    }
}

pub fn require_question_type(sel: &InstanceSelection, actual: &Option<String>) -> (r: Result<
    (),
    ConversionError,
>)
    ensures
        outcome_view(r, |u: ()| u) == question_type_outcome(*sel, opt_text_view(*actual)),
{
    let matches = match actual {
        Some(a) => *a == sel.expected_question_type,
        None => false,
    };
    if matches {
        Ok(())
    } else {
        Err(
            ConversionError::QuestionTypeMismatch {
                fixture_id: sel.fixture_id.clone(),
                expected: sel.expected_question_type.clone(),
                derived: match actual {
                    Some(a) => Some(a.clone()),
                    None => None,
                },
            },
        )
    }
}

/// Source text must not be empty.
pub open spec fn source_text_outcome(fixture_id: TextView, source_id: TextView, text: TextView) -> Result<
    (),
    ErrorView,
> {
    if text.len() == 0 {
        Err(ConversionError::EmptySourceText { fixture_id, source_id })
    } else {
        Ok(())
    }
}

pub fn require_source_text(fixture_id: &str, source_id: &str, text: &str) -> (r: Result<
    (),
    ConversionError,
>)
    ensures
        outcome_view(r, |u: ()| u) == source_text_outcome(fixture_id@, source_id@, text@),
{
    if text.unicode_len() == 0 {
        Err(
            ConversionError::EmptySourceText {
                fixture_id: string_of(fixture_id),
                source_id: string_of(source_id),
            },
        )
    } else {
        Ok(())
    }
}

/// A session timestamp must be present and readable.
pub open spec fn session_timestamp_outcome(
    timestamp: Option<TextView>,
    fixture_id: TextView,
    session_id: TextView,
) -> Result<Timestamp, ErrorView> {
    match timestamp {
        Some(v) => match source_instant(v) {
            Some(t) => Ok(t),
            None => Err(ConversionError::InvalidSessionTimestamp { fixture_id, session_id }),
        },
        None => Err(ConversionError::InvalidSessionTimestamp { fixture_id, session_id }),
    }
}

pub fn require_timestamp(timestamp: &Option<String>, fixture_id: &str, session_id: &str) -> (r:
    Result<Timestamp, ConversionError>)
    ensures
        outcome_view(r, |t: Timestamp| t) == session_timestamp_outcome(
            opt_text_view(*timestamp),
            fixture_id@,
            session_id@,
        ),
{
    let parsed = match timestamp {
        Some(v) => match parse_source_timestamp(v.as_str()) {
            Ok(t) => Some(t),
            Err(_) => None,
        },
        None => None,
    };
    match parsed {
        Some(t) => Ok(t),
        None => Err(
            ConversionError::InvalidSessionTimestamp {
                fixture_id: string_of(fixture_id),
                session_id: string_of(session_id),
            },
        ),
    }
}

/// Every sampled negative must be one of the admitted turns.
pub open spec fn negatives_outcome(sel: InstanceSelection, turns: Seq<TurnView>) -> Result<(), ErrorView> {
    let negatives = sel.sampled_negative_turn_ids@;
    if exists|k: int|
        0 <= k < negatives.len() && !turn_ids_contain(turns, #[trigger] negatives[k]@) {
        let k = choose|k: int|
            0 <= k < negatives.len() && !turn_ids_contain(turns, #[trigger] negatives[k]@)
                && forall|j: int| 0 <= j < k ==> turn_ids_contain(turns, #[trigger] negatives[j]@);
        Err(
            ConversionError::NegativeNotSelected {
                fixture_id: sel.fixture_id@,
                external_id: negatives[k]@,
            },
        )
    } else {
        Ok(())
    }
}

/// Some admitted turn has the external id `id`.
pub open spec fn turn_ids_contain(turns: Seq<TurnView>, id: TextView) -> bool {
    exists|i: int| 0 <= i < turns.len() && #[trigger] turns[i].external_id == id
}

fn turns_contain(turns: &Vec<SourceTurn>, id: &String) -> (r: bool)
    ensures
        r == turn_ids_contain(turns_view(turns@), id@),
{
    let mut i: usize = 0;
    while i < turns.len()
        invariant
            i <= turns@.len(),
            forall|j: int| 0 <= j < i ==> #[trigger] turns@[j].external_id@ != id@,
        decreases turns@.len() - i,
    {
        if turns[i].external_id == *id {
            assert(turns_view(turns@)[i as int].external_id == id@);
            return true;
        }
        i = i + 1;
    }
    assert forall|j: int| 0 <= j < turns_view(turns@).len() implies #[trigger] turns_view(turns@)[j].external_id != id@ by {
        assert(turns_view(turns@)[j].external_id == turns@[j].external_id@);
    }
    false
}

pub fn require_negatives_present(sel: &InstanceSelection, turns: &Vec<SourceTurn>) -> (r: Result<
    (),
    ConversionError,
>)
    ensures
        outcome_view(r, |u: ()| u) == negatives_outcome(*sel, turns_view(turns@)),
{
    let negatives = &sel.sampled_negative_turn_ids;
    let ghost tv = turns_view(turns@);
    let mut k: usize = 0;
    while k < negatives.len()
        invariant
            k <= negatives@.len(),
            tv == turns_view(turns@),
            negatives == &sel.sampled_negative_turn_ids,
            forall|j: int| 0 <= j < k ==> turn_ids_contain(tv, #[trigger] negatives@[j]@),
        decreases negatives@.len() - k,
    {
        if !turns_contain(turns, &negatives[k]) {
            proof {
                let c = choose|c: int|
                    0 <= c < negatives@.len() && !turn_ids_contain(tv, #[trigger] negatives@[c]@)
                        && forall|j: int| 0 <= j < c ==> turn_ids_contain(tv, #[trigger] negatives@[j]@);
                if c < k {
                } else if c > k {
                    assert(turn_ids_contain(tv, negatives@[k as int]@));
                }
            }
            return Err(
                ConversionError::NegativeNotSelected {
                    fixture_id: sel.fixture_id.clone(),
                    external_id: negatives[k].clone(),
                },
            );
        }
        k = k + 1;
    }
    Ok(())
}

/// The external id of a LongMemEval-S turn: its session id, `:turn:`, then its index.
pub open spec fn lme_turn_id(session_id: TextView, index: nat) -> TextView {
    session_id + ":turn:"@ + decimal_digits(index)
}

/// The first session of the row with the given id.
pub open spec fn find_lme_session(sessions: Seq<LongMemEvalSession>, id: TextView) -> Option<int> {
    if exists|k: int| 0 <= k < sessions.len() && #[trigger] sessions[k].session_id@ == id {
        Some(
            choose|k: int|
                0 <= k < sessions.len() && #[trigger] sessions[k].session_id@ == id && forall|j: int|
                    0 <= j < k ==> #[trigger] sessions[j].session_id@ != id,
        )
    } else {
        None
    }
}

proof fn lemma_find_lme_session(sessions: Seq<LongMemEvalSession>, id: TextView)
    ensures
        find_lme_session(sessions, id) matches Some(k) ==> 0 <= k < sessions.len()
            && sessions[k].session_id@ == id,
{
    if exists|k: int| 0 <= k < sessions.len() && #[trigger] sessions[k].session_id@ == id {
        let w = choose|k: int| 0 <= k < sessions.len() && #[trigger] sessions[k].session_id@ == id;
        assert(exists|c: int|
            0 <= c < sessions.len() && #[trigger] sessions[c].session_id@ == id && forall|j: int|
                0 <= j < c ==> #[trigger] sessions[j].session_id@ != id) by {
            lemma_earliest_session(sessions, id, w);
        }
    }
}

proof fn lemma_earliest_session(sessions: Seq<LongMemEvalSession>, id: TextView, w: int)
    requires
        0 <= w < sessions.len(),
        sessions[w].session_id@ == id,
    ensures
        exists|c: int|
            0 <= c < sessions.len() && #[trigger] sessions[c].session_id@ == id && forall|j: int|
                0 <= j < c ==> #[trigger] sessions[j].session_id@ != id,
    decreases w,
{
    if exists|j: int| 0 <= j < w && #[trigger] sessions[j].session_id@ == id {
        let j = choose|j: int| 0 <= j < w && #[trigger] sessions[j].session_id@ == id;
        lemma_earliest_session(sessions, id, j);
    } else {
        assert(forall|j: int| 0 <= j < w ==> #[trigger] sessions[j].session_id@ != id);
    }
}

fn find_lme_session_exec(sessions: &Vec<LongMemEvalSession>, id: &String) -> (r: Option<usize>)
    ensures
        match find_lme_session(sessions@, id@) {
            Some(k) => r matches Some(j) && j as int == k,
            None => r is None,
        },
        r matches Some(k) ==> k < sessions@.len() && sessions@[k as int].session_id@ == id@,
{
    let mut k: usize = 0;
    while k < sessions.len()
        invariant
            k <= sessions@.len(),
            forall|j: int| 0 <= j < k ==> #[trigger] sessions@[j].session_id@ != id@,
        decreases sessions@.len() - k,
    {
        if sessions[k].session_id == *id {
            proof {
                let c = choose|c: int|
                    0 <= c < sessions@.len() && #[trigger] sessions@[c].session_id@ == id@ && forall|j: int|
                        0 <= j < c ==> #[trigger] sessions@[j].session_id@ != id@;
                if c > k {
                    assert(sessions@[k as int].session_id@ == id@);
                }
            }
            return Some(k);
        }
        k = k + 1;
    }
    None
}

/// Turn indexes stay within what a whole-second offset can be built from.
pub open spec fn lme_indexes_bounded(inst: LongMemEvalInstance) -> bool {
    forall|k: int, i: int|
        0 <= k < inst.sessions@.len() && 0 <= i < inst.sessions@[k].turns@.len()
            ==> #[trigger] inst.sessions@[k].turns@[i].index <= i64::MAX / 1000
}

/// The first `n` turns of a LongMemEval-S session, each one index's worth of seconds
/// after the session's date.
pub open spec fn lme_session_turns(
    fixture_id: TextView,
    session: LongMemEvalSession,
    base: Timestamp,
    n: int,
) -> Result<Seq<TurnView>, ErrorView>
    decreases n,
{
    if n <= 0 {
        Ok(Seq::empty())
    } else {
        match lme_session_turns(fixture_id, session, base, n - 1) {
            Err(e) => Err(e),
            Ok(prev) => {
                let t = session.turns@[n - 1];
                if t.text@.len() == 0 {
                    Err(
                        ConversionError::EmptySourceText {
                            fixture_id,
                            source_id: session.session_id@,
                        },
                    )
                } else if !shift_fits(base, t.index as int) {
                    Err(ConversionError::TimestampOverflow { fixture_id })
                } else {
                    Ok(
                        prev.push(
                            SourceTurn {
                                external_id: lme_turn_id(session.session_id@, t.index as nat),
                                timestamp: shifted(base, t.index as int),
                                text: t.text@,
                            },
                        ),
                    )
                }
            },
        }
    }
}

/// The turns of one selected session.
pub open spec fn lme_selected_session_turns(
    fixture_id: TextView,
    sid: TextView,
    sessions: Seq<LongMemEvalSession>,
) -> Result<Seq<TurnView>, ErrorView> {
    match find_lme_session(sessions, sid) {
        None => Err(
            ConversionError::MissingSession {
                source: BenchmarkSource::LongmemevalS,
                fixture_id,
                session_id: sid,
            },
        ),
        Some(k) => {
            let s = sessions[k];
            match session_timestamp_outcome(opt_text_view(s.date), fixture_id, s.session_id@) {
                Err(e) => Err(e),
                Ok(base) => lme_session_turns(fixture_id, s, base, s.turns@.len() as int),
            }
        },
    }
}

/// The turns of the first `n` selected sessions, in the selected order.
pub open spec fn lme_collect(
    fixture_id: TextView,
    selected: Seq<String>,
    sessions: Seq<LongMemEvalSession>,
    n: int,
) -> Result<Seq<TurnView>, ErrorView>
    decreases n,
{
    if n <= 0 {
        Ok(Seq::empty())
    } else {
        match lme_collect(fixture_id, selected, sessions, n - 1) {
            Err(e) => Err(e),
            Ok(prev) => match lme_selected_session_turns(fixture_id, selected[n - 1]@, sessions) {
                Err(e) => Err(e),
                Ok(ts) => Ok(prev + ts),
            },
        }
    }
}

proof fn lemma_session_turns_err_persists(
    fixture_id: TextView,
    session: LongMemEvalSession,
    base: Timestamp,
    m: int,
    n: int,
)
    requires
        0 <= m <= n,
        lme_session_turns(fixture_id, session, base, m) is Err,
    ensures
        lme_session_turns(fixture_id, session, base, n) == lme_session_turns(fixture_id, session, base, m),
    decreases n - m,
{
    if n > m {
        lemma_session_turns_err_persists(fixture_id, session, base, m, n - 1);
    }
}

proof fn lemma_collect_err_persists(
    fixture_id: TextView,
    selected: Seq<String>,
    sessions: Seq<LongMemEvalSession>,
    m: int,
    n: int,
)
    requires
        0 <= m <= n,
        lme_collect(fixture_id, selected, sessions, m) is Err,
    ensures
        lme_collect(fixture_id, selected, sessions, n) == lme_collect(fixture_id, selected, sessions, m),
    decreases n - m,
{
    if n > m {
        lemma_collect_err_persists(fixture_id, selected, sessions, m, n - 1);
    }
}

fn lme_turn_id_exec(session_id: &String, index: usize) -> (id: String)
    ensures
        id@ == lme_turn_id(session_id@, index as nat),
{
    let mut id = session_id.clone();
    id.append(":turn:");
    id.append(decimal_text(index).as_str());
    id
}

fn collect_lme_session(
    fixture_id: &String,
    session: &LongMemEvalSession,
    base: Timestamp,
    out: &mut Vec<SourceTurn>,
) -> (r: Result<(), ConversionError>)
    requires
        forall|i: int| 0 <= i < session.turns@.len() ==> #[trigger] session.turns@[i].index <= i64::MAX / 1000,
    ensures
        match lme_session_turns(fixture_id@, *session, base, session.turns@.len() as int) {
            Ok(ts) => r is Ok && turns_view(final(out)@) == turns_view(old(out)@) + ts,
            Err(e) => r matches Err(x) && error_view(x) == e,
        },
{
    let ghost start = turns_view(out@);
    let mut i: usize = 0;
    while i < session.turns.len()
        invariant
            i <= session.turns@.len(),
            forall|j: int| 0 <= j < session.turns@.len() ==> #[trigger] session.turns@[j].index <= i64::MAX / 1000,
            lme_session_turns(fixture_id@, *session, base, i as int) matches Ok(ts) && turns_view(out@) == start + ts,
        decreases session.turns@.len() - i,
    {
        let t = &session.turns[i];
        if t.text.as_str().unicode_len() == 0 {
            proof {
                lemma_session_turns_err_persists(fixture_id@, *session, base, i + 1, session.turns@.len() as int);
            }
            return Err(
                ConversionError::EmptySourceText {
                    fixture_id: fixture_id.clone(),
                    source_id: session.session_id.clone(),
                },
            );
        }
        let index: usize = t.index;
        match seconds_after(base, index as i64) {
            None => {
                proof {
                    lemma_session_turns_err_persists(fixture_id@, *session, base, i + 1, session.turns@.len() as int);
                }
                return Err(ConversionError::TimestampOverflow { fixture_id: fixture_id.clone() });
            },
            Some(ts) => {
                let ghost before = out@;
                out.push(
                    SourceTurn {
                        external_id: lme_turn_id_exec(&session.session_id, index),
                        timestamp: ts,
                        text: t.text.clone(),
                    },
                );
                assert(turns_view(out@) =~= turns_view(before).push(turns_view(out@).last()));
            },
        }
        i = i + 1;
    }
    Ok(())
}

fn collect_selected_lme_session(
    fixture_id: &String,
    sid: &String,
    inst: &LongMemEvalInstance,
    out: &mut Vec<SourceTurn>,
) -> (r: Result<(), ConversionError>)
    requires
        lme_indexes_bounded(*inst),
    ensures
        match lme_selected_session_turns(fixture_id@, sid@, inst.sessions@) {
            Ok(ts) => r is Ok && turns_view(final(out)@) == turns_view(old(out)@) + ts,
            Err(e) => r matches Err(x) && error_view(x) == e,
        },
{
    let found = find_lme_session_exec(&inst.sessions, sid);
    match found {
        None => Err(
            ConversionError::MissingSession {
                source: BenchmarkSource::LongmemevalS,
                fixture_id: fixture_id.clone(),
                session_id: sid.clone(),
            },
        ),
        Some(k) => {
            let s = &inst.sessions[k];
            proof {
                lemma_find_lme_session(inst.sessions@, sid@);
            }
            let base = match require_timestamp(&s.date, fixture_id.as_str(), s.session_id.as_str()) {
                Ok(b) => b,
                Err(e) => {
                    return Err(e);
                },
            };
            assert forall|i: int| 0 <= i < s.turns@.len() implies #[trigger] s.turns@[i].index <= i64::MAX / 1000 by {
                assert(inst.sessions@[k as int].turns@[i].index <= i64::MAX / 1000);
            }
            collect_lme_session(fixture_id, s, base, out)
        },
    }
}

/// The turns of the selected sessions of a LongMemEval-S row, in the selected order.
#[verifier::rlimit(40)]
pub fn collect_longmemeval_turns(sel: &InstanceSelection, inst: &LongMemEvalInstance) -> (r: Result<
    Vec<SourceTurn>,
    ConversionError,
>)
    requires
        lme_indexes_bounded(*inst),
    ensures
        outcome_view(r, |v: Vec<SourceTurn>| turns_view(v@)) == lme_collect(
            sel.fixture_id@,
            sel.selected_session_ids@,
            inst.sessions@,
            sel.selected_session_ids@.len() as int,
        ),
{
    let mut out: Vec<SourceTurn> = Vec::new();
    let selected = &sel.selected_session_ids;
    let mut n: usize = 0;
    while n < selected.len()
        invariant
            n <= selected@.len(),
            selected == &sel.selected_session_ids,
            lme_indexes_bounded(*inst),
            lme_collect(sel.fixture_id@, selected@, inst.sessions@, n as int) matches Ok(ts)
                && turns_view(out@) == ts,
        decreases selected@.len() - n,
    {
        let ghost before = turns_view(out@);
        match collect_selected_lme_session(&sel.fixture_id, &selected[n], inst, &mut out) {
            Ok(()) => {
                assert(lme_collect(sel.fixture_id@, selected@, inst.sessions@, n + 1) == Ok::<Seq<TurnView>, ErrorView>(turns_view(out@)));
            },
            Err(e) => {
                proof {
                    lemma_collect_err_persists(sel.fixture_id@, selected@, inst.sessions@, n + 1, selected@.len() as int);
                }
                return Err(e);
            },
        }
        n = n + 1;
    }
    Ok(out)
}

} // verus!
