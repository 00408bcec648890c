//! The checks and choices that turn a selected LongMemEval-S row or LoCoMo question
//! into a continuity scenario.
use vstd::prelude::*;

use crate::assemble::{
    lemma_assembly_exclusive, lemma_assembled_timeline, lemma_assembled_correction,
    lemma_assembled_query_last, correct_event, lemma_assembled_turns_remembered, remembers,
    lemma_assembled_one_event_per_turn, distinct_turn_ids, stored_external_id, timeline_ordered, embedding_ids_complete, lemma_assembled_ids_complete, lemma_assembly_deterministic, arrange, correction_view, opt_correction_view, assemble_scenario, assembly_outcome, Correction, ConvertedScenario, CorrectionView,
};
use crate::conversion::{
    collect_longmemeval_turns, error_view, lme_collect, lme_indexes_bounded, negatives_outcome,
    opt_text_view, question_type_outcome, require_negatives_present, require_question_type,
    texts_view, turns_view, ConversionError, ErrorView, LongMemEvalInstance, SourceTurn, TextView,
    TurnView,
};
use crate::driver::clone_texts;
use crate::order::{text_less, text_lt};
use crate::selection::{InstanceSelection, ScenarioKind};
use crate::text::{chars_of, contains_text, first_occurrence, seq_contains_text, split_once_text};
use crate::timestamp::{earlier, parse_source_timestamp, source_instant, ts_lt, Timestamp};

verus! {

/// `r` is the error `e`.
pub open spec fn fails_with<A>(r: Result<A, ConversionError>, e: ErrorView) -> bool {
    r matches Err(x) && error_view(x) == e
}

/// `s` ends with `suffix`.
pub open spec fn ends_with(s: TextView, suffix: TextView) -> bool {
    s.len() >= suffix.len() && s.subrange(s.len() - suffix.len(), s.len() as int) == suffix
}

fn ends_with_text(s: &str, suffix: &str) -> (r: bool)
    ensures
        r == ends_with(s@, suffix@),
{
    let sv = chars_of(s);
    let pv = chars_of(suffix);
    if pv.len() > sv.len() {
        return false;
    }
    let off: usize = sv.len() - pv.len();
    let mut i: usize = 0;
    while i < pv.len()
        invariant
            sv@ == s@,
            pv@ == suffix@,
            off + pv@.len() == sv@.len(),
            off + pv.len() == sv.len(),
            i <= pv@.len(),
            forall|j: int| 0 <= j < i ==> sv@[off + j] == pv@[j],
        decreases pv@.len() - i,
    {
        if sv[off + i] != pv[i] {
            assert(s@.subrange(off as int, s@.len() as int)[i as int] != suffix@[i as int]);
            return false;
        }
        i = i + 1;
    }
    assert(s@.subrange(off as int, s@.len() as int) =~= suffix@);
    true
}

/// The checks on a LongMemEval-S row that come before its turns are read: the question
/// type, an `_abs` row for an abstention, and the gold turns the kind calls for.
pub open spec fn lme_precheck(sel: InstanceSelection, inst: LongMemEvalInstance) -> Result<(), ErrorView> {
    let fixture_id = sel.fixture_id@;
    let gold_empty = inst.gold_turn_ids@.len() == 0;
    let abstention = sel.scenario_kind == ScenarioKind::Abstention;
    match question_type_outcome(sel, opt_text_view(inst.question_type)) {
        Err(e) => Err(e),
        Ok(()) => if abstention && !ends_with(inst.question_id@, "_abs"@) {
            Err(ConversionError::AbstentionRowNotAbs { fixture_id })
        } else if sel.selection_proof.machine_derived.gold_turn_ids_empty matches Some(expected)
            && gold_empty != expected {
            Err(
                ConversionError::GoldEmptinessMismatch {
                    fixture_id,
                    expected_empty: sel.selection_proof.machine_derived.gold_turn_ids_empty->0,
                    derived_empty: gold_empty,
                },
            )
        } else if abstention && !gold_empty {
            Err(ConversionError::AbstentionHasGold { fixture_id })
        } else if !abstention && gold_empty {
            Err(ConversionError::NoGoldTurn { fixture_id })
        } else {
            Ok(())
        },
    }
}

fn check_lme_row(sel: &InstanceSelection, inst: &LongMemEvalInstance) -> (r: Result<(), ConversionError>)
    ensures
        match lme_precheck(*sel, *inst) {
            Ok(()) => r is Ok,
            Err(e) => fails_with(r, e),
        },
{
    match require_question_type(sel, &inst.question_type) {
        Ok(()) => {},
        Err(e) => {
            return Err(e);
        },
    }
    let abstention = sel.scenario_kind == ScenarioKind::Abstention;
    if abstention && !ends_with_text(inst.question_id.as_str(), "_abs") {
        return Err(ConversionError::AbstentionRowNotAbs { fixture_id: sel.fixture_id.clone() });
    }
    let gold_empty = inst.gold_turn_ids.len() == 0;
    match sel.selection_proof.machine_derived.gold_turn_ids_empty {
        Some(expected) => {
            if gold_empty != expected {
                return Err(
                    ConversionError::GoldEmptinessMismatch {
                        fixture_id: sel.fixture_id.clone(),
                        expected_empty: expected,
                        derived_empty: gold_empty,
                    },
                );
            }
        },
        None => {},
    }
    if abstention && !gold_empty {
        return Err(ConversionError::AbstentionHasGold { fixture_id: sel.fixture_id.clone() });
    }
    if !abstention && gold_empty {
        return Err(ConversionError::NoGoldTurn { fixture_id: sel.fixture_id.clone() });
    }
    Ok(())
}

/// How many admitted turns have the external id `id`.
pub open spec fn id_count(turns: Seq<TurnView>, id: TextView) -> nat
    decreases turns.len(),
{
    if turns.len() == 0 {
        0
    } else {
        id_count(turns.drop_last(), id) + if turns.last().external_id == id {
            1nat
        } else {
            0nat
        }
    }
}

fn count_id(turns: &Vec<SourceTurn>, id: &String) -> (n: usize)
    ensures
        n == id_count(turns_view(turns@), id@),
{
    let ghost tv = turns_view(turns@);
    let mut n: usize = 0;
    let mut i: usize = 0;
    while i < turns.len()
        invariant
            i <= turns@.len(),
            tv == turns_view(turns@),
            n == id_count(tv.subrange(0, i as int), id@),
            n <= i,
        decreases turns@.len() - i,
    {
        assert(tv.subrange(0, i + 1).drop_last() =~= tv.subrange(0, i as int));
        if turns[i].external_id == *id {
            n = n + 1;
        }
        i = i + 1;
    }
    assert(tv.subrange(0, turns@.len() as int) =~= tv);
    n
}

/// Every gold turn is admitted exactly once.
pub open spec fn gold_evidence_clean(turns: Seq<TurnView>, gold: Seq<String>) -> bool {
    forall|i: int| 0 <= i < gold.len() ==> id_count(turns, #[trigger] gold[i]@) == 1
}

/// The recorded `evidence_clean` must be what the admitted turns show.
pub open spec fn lme_evidence_check(sel: InstanceSelection, turns: Seq<TurnView>, gold: Seq<String>) -> Result<
    (),
    ErrorView,
> {
    let recorded = sel.selection_proof.machine_derived.evidence_clean;
    let derived = gold_evidence_clean(turns, gold);
    if derived != recorded {
        Err(ConversionError::EvidenceCleanMismatch { fixture_id: sel.fixture_id@, recorded, derived })
    } else {
        Ok(())
    }
}

fn check_lme_evidence(sel: &InstanceSelection, turns: &Vec<SourceTurn>, gold: &Vec<String>) -> (r:
    Result<(), ConversionError>)
    ensures
        match lme_evidence_check(*sel, turns_view(turns@), gold@) {
            Ok(()) => r is Ok,
            Err(e) => fails_with(r, e),
        },
{
    let mut derived = true;
    let mut i: usize = 0;
    while i < gold.len()
        invariant
            i <= gold@.len(),
            derived == forall|j: int| 0 <= j < i ==> id_count(turns_view(turns@), #[trigger] gold@[j]@) == 1,
        decreases gold@.len() - i,
    {
        let c = count_id(turns, &gold[i]);
        if c != 1 {
            derived = false;
        }
        i = i + 1;
    }
    let recorded = sel.selection_proof.machine_derived.evidence_clean;
    if derived != recorded {
        return Err(
            ConversionError::EvidenceCleanMismatch {
                fixture_id: sel.fixture_id.clone(),
                recorded,
                derived,
            },
        );
    }
    Ok(())
}

/// The session of a gold turn id: what comes before its first `:turn:`, or nothing.
pub open spec fn gold_session(id: TextView) -> TextView {
    match first_occurrence(id, ":turn:"@) {
        Some(k) => id.subrange(0, k),
        None => Seq::empty(),
    }
}

/// Every gold turn's session must be selected.
pub open spec fn gold_sessions_check(sel: InstanceSelection, gold: Seq<String>) -> Result<(), ErrorView> {
    let selected = sel.selected_session_ids@;
    if exists|k: int|
        0 <= k < gold.len() && !seq_contains_text(selected, gold_session(#[trigger] gold[k]@)) {
        let k = choose|k: int|
            0 <= k < gold.len() && !seq_contains_text(selected, gold_session(#[trigger] gold[k]@))
                && forall|j: int|
                0 <= j < k ==> seq_contains_text(selected, gold_session(#[trigger] gold[j]@));
        Err(
            ConversionError::GoldSessionOmitted {
                fixture_id: sel.fixture_id@,
                session_id: gold_session(gold[k]@),
            },
        )
    } else {
        Ok(())
    }
}

fn gold_session_text(id: &String) -> (s: String)
    ensures
        s@ == gold_session(id@),
{
    match split_once_text(id.as_str(), ":turn:") {
        Some((a, _)) => a,
        None => String::new(),
    }
}

fn check_gold_sessions(sel: &InstanceSelection, gold: &Vec<String>) -> (r: Result<(), ConversionError>)
    ensures
        match gold_sessions_check(*sel, gold@) {
            Ok(()) => r is Ok,
            Err(e) => fails_with(r, e),
        },
{
    let selected = &sel.selected_session_ids;
    let mut k: usize = 0;
    while k < gold.len()
        invariant
            k <= gold@.len(),
            selected == &sel.selected_session_ids,
            forall|j: int| 0 <= j < k ==> seq_contains_text(selected@, gold_session(#[trigger] gold@[j]@)),
        decreases gold@.len() - k,
    {
        let session = gold_session_text(&gold[k]);
        if !contains_text(selected, session.as_str()) {
            proof {
                let c = choose|c: int|
                    0 <= c < gold@.len() && !seq_contains_text(selected@, gold_session(#[trigger] gold@[c]@))
                        && forall|j: int|
                        0 <= j < c ==> seq_contains_text(selected@, gold_session(#[trigger] gold@[j]@));
                if c < k {
                } else if c > k {
                    assert(seq_contains_text(selected@, gold_session(gold@[k as int]@)));
                }
            }
            return Err(
                ConversionError::GoldSessionOmitted { fixture_id: sel.fixture_id.clone(), session_id: session },
            );
        }
        k = k + 1;
    }
    Ok(())
}

/// The admitted turns whose external id is a gold turn id, in admitted order.
pub open spec fn gold_filter(turns: Seq<TurnView>, gold: Seq<String>) -> Seq<TurnView>
    decreases turns.len(),
{
    if turns.len() == 0 {
        Seq::empty()
    } else {
        let prev = gold_filter(turns.drop_last(), gold);
        if seq_contains_text(gold, turns.last().external_id) {
            prev.push(turns.last())
        } else {
            prev
        }
    }
}

/// `a` sorts before `b` by instant, then by external id.
pub open spec fn turn_key_lt(a: TurnView, b: TurnView) -> bool {
    ts_lt(a.timestamp, b.timestamp) || (a.timestamp == b.timestamp && text_lt(
        a.external_id,
        b.external_id,
    ))
}

/// The relevant ids and the correction that a row's kind calls for. An update needs
/// exactly two gold turns, both admitted; the earlier (by instant, then id) is the old
/// one, which must be a sampled negative, and the later replaces it and is the one
/// relevant id. An abstention has none; any other kind has the gold turns.
pub open spec fn labels_outcome(sel: InstanceSelection, turns: Seq<TurnView>, gold: Seq<String>) -> Result<
    (Seq<TextView>, Option<CorrectionView>),
    ErrorView,
> {
    let fixture_id = sel.fixture_id@;
    if sel.scenario_kind == ScenarioKind::Update {
        if gold.len() != 2 {
            Err(ConversionError::UpdateGoldCount { fixture_id, found: gold.len() as usize })
        } else {
            let updates = gold_filter(turns, gold);
            if updates.len() != 2 {
                Err(ConversionError::UpdateGoldNotSelected { fixture_id })
            } else {
                let swap = turn_key_lt(updates[1], updates[0]);
                let old = if swap {
                    updates[1]
                } else {
                    updates[0]
                };
                let new = if swap {
                    updates[0]
                } else {
                    updates[1]
                };
                if !seq_contains_text(sel.sampled_negative_turn_ids@, old.external_id) {
                    Err(ConversionError::OldGoldNotNegative { fixture_id, external_id: old.external_id })
                } else {
                    Ok(
                        (
                            seq![new.external_id],
                            Some(
                                Correction {
                                    target_external_id: old.external_id,
                                    replacement_external_id: new.external_id,
                                    timestamp: new.timestamp,
                                    replacement_text: new.text,
                                },
                            ),
                        ),
                    )
                }
            }
        }
    } else if sel.scenario_kind == ScenarioKind::Abstention {
        Ok((Seq::empty(), None))
    } else {
        Ok((texts_view(gold), None))
    }
}

fn gold_positions(turns: &Vec<SourceTurn>, gold: &Vec<String>) -> (picks: Vec<usize>)
    ensures
        arrange(turns_view(turns@), picks@) == gold_filter(turns_view(turns@), gold@),
        forall|k: int| 0 <= k < picks@.len() ==> #[trigger] picks@[k] < turns@.len(),
{
    let ghost tv = turns_view(turns@);
    let mut picks: Vec<usize> = Vec::new();
    let mut i: usize = 0;
    while i < turns.len()
        invariant
            i <= turns@.len(),
            tv == turns_view(turns@),
            forall|k: int| 0 <= k < picks@.len() ==> #[trigger] picks@[k] < i,
            arrange(tv, picks@) == gold_filter(tv.subrange(0, i as int), gold@),
        decreases turns@.len() - i,
    {
        assert(tv.subrange(0, i + 1).drop_last() =~= tv.subrange(0, i as int));
        assert(tv.subrange(0, i + 1).last() == tv[i as int]);
        if contains_text(gold, turns[i].external_id.as_str()) {
            let ghost before = picks@;
            picks.push(i);
            assert(arrange(tv, picks@) =~= arrange(tv, before).push(tv[i as int]));
        }
        i = i + 1;
    }
    assert(tv.subrange(0, turns@.len() as int) =~= tv);
    picks
}

fn turn_before(a: &SourceTurn, b: &SourceTurn) -> (r: bool)
    ensures
        r == turn_key_lt(crate::conversion::turn_view(*a), crate::conversion::turn_view(*b)),
{
    if earlier(a.timestamp, b.timestamp) {
        return true;
    }
    a.timestamp == b.timestamp && text_less(a.external_id.as_str(), b.external_id.as_str())
}

fn choose_labels(sel: &InstanceSelection, turns: &Vec<SourceTurn>, gold: &Vec<String>) -> (r: Result<
    (Vec<String>, Option<Correction>),
    ConversionError,
>)
    ensures
        match labels_outcome(*sel, turns_view(turns@), gold@) {
            Ok((relevant, correction)) => r matches Ok((v, c)) && texts_view(v@) == relevant
                && opt_correction_view(c) == correction,
            Err(e) => fails_with(r, e),
        },
{
    let ghost tv = turns_view(turns@);
    if sel.scenario_kind == ScenarioKind::Update {
        if gold.len() != 2 {
            return Err(
                ConversionError::UpdateGoldCount { fixture_id: sel.fixture_id.clone(), found: gold.len() },
            );
        }
        let picks = gold_positions(turns, gold);
        if picks.len() != 2 {
            return Err(ConversionError::UpdateGoldNotSelected { fixture_id: sel.fixture_id.clone() });
        }
        let first = &turns[picks[0]];
        let second = &turns[picks[1]];
        assert(arrange(tv, picks@)[0] == tv[picks@[0] as int]);
        assert(arrange(tv, picks@)[1] == tv[picks@[1] as int]);
        let swap = turn_before(second, first);
        let (old, new) = if swap {
            (second, first)
        } else {
            (first, second)
        };
        if !contains_text(&sel.sampled_negative_turn_ids, old.external_id.as_str()) {
            return Err(
                ConversionError::OldGoldNotNegative {
                    fixture_id: sel.fixture_id.clone(),
                    external_id: old.external_id.clone(),
                },
            );
        }
        let mut relevant: Vec<String> = Vec::new();
        relevant.push(new.external_id.clone());
        assert(texts_view(relevant@) =~= seq![new.external_id@]);
        Ok(
            (
                relevant,
                Some(
                    Correction {
                        target_external_id: old.external_id.clone(),
                        replacement_external_id: new.external_id.clone(),
                        timestamp: new.timestamp,
                        replacement_text: new.text.clone(),
                    },
                ),
            ),
        )
    } else if sel.scenario_kind == ScenarioKind::Abstention {
        let relevant: Vec<String> = Vec::new();
        assert(texts_view(relevant@) =~= Seq::<TextView>::empty());
        Ok((relevant, None))
    } else {
        Ok((clone_texts(gold), None))
    }
}

/// The question date of a LongMemEval-S row, read when present.
pub open spec fn question_date_outcome(sel: InstanceSelection, date: Option<TextView>) -> Result<
    Option<Timestamp>,
    ErrorView,
> {
    match date {
        None => Ok(None),
        Some(v) => match source_instant(v) {
            Some(t) => Ok(Some(t)),
            None => Err(ConversionError::InvalidQuestionDate { fixture_id: sel.fixture_id@ }),
        },
    }
}

fn read_question_date(sel: &InstanceSelection, date: &Option<String>) -> (r: Result<
    Option<Timestamp>,
    ConversionError,
>)
    ensures
        match question_date_outcome(*sel, opt_text_view(*date)) {
            Ok(t) => r == Ok::<Option<Timestamp>, ConversionError>(t),
            Err(e) => fails_with(r, e),
        },
{
    match date {
        None => Ok(None),
        Some(v) => match parse_source_timestamp(v.as_str()) {
            Ok(t) => Ok(Some(t)),
            Err(_) => Err(ConversionError::InvalidQuestionDate { fixture_id: sel.fixture_id.clone() }),
        },
    }
}

/// What converting a selected LongMemEval-S row gives: the first check that fails, in
/// the order the conversion makes them, or the assembled scenario.
pub open spec fn longmemeval_conversion(
    sel: InstanceSelection,
    inst: LongMemEvalInstance,
    r: Result<ConvertedScenario, ConversionError>,
) -> bool {
    let gold = inst.gold_turn_ids@;
    match lme_precheck(sel, inst) {
        Err(e) => fails_with(r, e),
        Ok(()) => match lme_collect(
            sel.fixture_id@,
            sel.selected_session_ids@,
            inst.sessions@,
            sel.selected_session_ids@.len() as int,
        ) {
            Err(e) => fails_with(r, e),
            Ok(turns) => match lme_evidence_check(sel, turns, gold) {
                Err(e) => fails_with(r, e),
                Ok(()) => match gold_sessions_check(sel, gold) {
                    Err(e) => fails_with(r, e),
                    Ok(()) => match negatives_outcome(sel, turns) {
                        Err(e) => fails_with(r, e),
                        Ok(()) => match labels_outcome(sel, turns, gold) {
                            Err(e) => fails_with(r, e),
                            Ok((relevant, correction)) => match question_date_outcome(
                                sel,
                                opt_text_view(inst.question_date),
                            ) {
                                Err(e) => fails_with(r, e),
                                Ok(query_source) => assembly_outcome(
                                    sel,
                                    inst.question@,
                                    turns,
                                    relevant,
                                    correction,
                                    query_source,
                                    r,
                                ),
                            },
                        },
                    },
                },
            },
        },
    }
}

/// Converts a selected LongMemEval-S row: checks the row against the selection, admits
/// the turns of the selected sessions (each one index's worth of seconds after its
/// session's date), checks the evidence, the gold sessions and the negatives, chooses
/// the labels, and assembles the scenario.
pub fn convert_longmemeval(sel: &InstanceSelection, inst: &LongMemEvalInstance) -> (r: Result<
    ConvertedScenario,
    ConversionError,
>)
    requires
        lme_indexes_bounded(*inst),
    ensures
        longmemeval_conversion(*sel, *inst, r),
{
    match check_lme_row(sel, inst) {
        Ok(()) => {},
        Err(e) => {
            return Err(e);
        },
    }
    let turns = match collect_longmemeval_turns(sel, inst) {
        Ok(t) => t,
        Err(e) => {
            return Err(e);
        },
    };
    match check_lme_evidence(sel, &turns, &inst.gold_turn_ids) {
        Ok(()) => {},
        Err(e) => {
            return Err(e);
        },
    }
    match check_gold_sessions(sel, &inst.gold_turn_ids) {
        Ok(()) => {},
        Err(e) => {
            return Err(e);
        },
    }
    match require_negatives_present(sel, &turns) {
        Ok(()) => {},
        Err(e) => {
            return Err(e);
        },
    }
    let (relevant, correction) = match choose_labels(sel, &turns, &inst.gold_turn_ids) {
        Ok(x) => x,
        Err(e) => {
            return Err(e);
        },
    };
    let query_source = match read_question_date(sel, &inst.question_date) {
        Ok(t) => t,
        Err(e) => {
            return Err(e);
        },
    };
    assemble_scenario(sel, inst.question.as_str(), &turns, &relevant, &correction, query_source)
}

/// The collected turns of a selection's sessions.
pub open spec fn lme_turns(sel: InstanceSelection, inst: LongMemEvalInstance) -> Seq<TurnView> {
    lme_collect(
        sel.fixture_id@,
        sel.selected_session_ids@,
        inst.sessions@,
        sel.selected_session_ids@.len() as int,
    )->Ok_0
}

/// The old and the new of two gold turns: the earlier by instant, then by external id,
/// and the later.
pub open spec fn update_pair(updates: Seq<TurnView>) -> (TurnView, TurnView) {
    if turn_key_lt(updates[1], updates[0]) {
        (updates[1], updates[0])
    } else {
        (updates[0], updates[1])
    }
}

/// An update converts as its two gold turns say: the row has exactly two gold turns,
/// both among the selected sessions' turns; the older (by instant, then external id) is
/// a sampled negative; the query asks for the newer alone; the scenario corrects the
/// older by the newer, with the newer's text and instant, in its one correction event;
/// and the newer is never remembered on its own.
pub proof fn lemma_longmemeval_update(sel: InstanceSelection, inst: LongMemEvalInstance, c: ConvertedScenario)
    requires
        longmemeval_conversion(sel, inst, Ok(c)),
        sel.scenario_kind == ScenarioKind::Update,
    ensures
        ({
            let gold = inst.gold_turn_ids@;
            let updates = gold_filter(lme_turns(sel, inst), gold);
            let old = update_pair(updates).0;
            let new = update_pair(updates).1;
            let ev = crate::conversion::events_view(c.scenario.events@);
            let cv = Correction {
                target_external_id: old.external_id,
                replacement_external_id: new.external_id,
                timestamp: new.timestamp,
                replacement_text: new.text,
            };
            &&& gold.len() == 2
            &&& updates.len() == 2
            &&& !turn_key_lt(new, old)
            &&& seq_contains_text(sel.sampled_negative_turn_ids@, old.external_id)
            &&& ev.len() >= 2
            &&& ev.last() matches crate::conversion::InteractionEvent::Query { expected, .. } && expected.relevant_external_ids
                == seq![new.external_id]
            &&& exists|k: int| 0 <= k < ev.len() - 1 && #[trigger] ev[k] == correct_event(sel.fixture_id@, cv)
            &&& forall|k: int| 0 <= k < ev.len() && #[trigger] ev[k] is Correct ==> ev[k] == correct_event(sel.fixture_id@, cv)
            &&& forall|k1: int, k2: int|
                0 <= k1 < ev.len() && 0 <= k2 < ev.len() && #[trigger] ev[k1] is Correct && #[trigger] ev[k2] is Correct
                    ==> k1 == k2
            &&& forall|k: int|
                0 <= k < ev.len() ==> !(#[trigger] ev[k] matches crate::conversion::InteractionEvent::Remember { external_id, .. }
                    && external_id == new.external_id)
        }),
{
    let gold = inst.gold_turn_ids@;
    let turns = lme_turns(sel, inst);
    let updates = gold_filter(turns, gold);
    let labels = labels_outcome(sel, turns, gold)->Ok_0;
    let query_source = question_date_outcome(sel, opt_text_view(inst.question_date))->Ok_0;
    let cv = labels.1->Some_0;
    if turn_key_lt(updates[1], updates[0]) && turn_key_lt(updates[0], updates[1]) {
        if updates[1].timestamp == updates[0].timestamp {
            crate::order::lemma_text_lt_asymmetric(updates[1].external_id, updates[0].external_id);
        }
    }
    lemma_assembled_query_last(sel, inst.question@, turns, labels.0, labels.1, query_source, c);
    lemma_assembled_correction(sel, inst.question@, turns, labels.0, cv, query_source, c);
}

/// Every turn of the selected sessions is remembered by the scenario converted from a
/// LongMemEval-S row, under its own external id, with its text unchanged and at its
/// session's date plus its index in seconds; the one exception is the newer gold turn
/// of an update, which the scenario's correction stores instead.
pub proof fn lemma_longmemeval_turns_remembered(
    sel: InstanceSelection,
    inst: LongMemEvalInstance,
    c: ConvertedScenario,
    i: int,
)
    requires
        longmemeval_conversion(sel, inst, Ok(c)),
        0 <= i < lme_turns(sel, inst).len(),
        !(sel.scenario_kind == ScenarioKind::Update && lme_turns(sel, inst)[i].external_id == update_pair(
            gold_filter(lme_turns(sel, inst), inst.gold_turn_ids@),
        ).1.external_id),
    ensures
        exists|k: int|
            0 <= k < crate::conversion::events_view(c.scenario.events@).len() - 1 && #[trigger] remembers(
                crate::conversion::events_view(c.scenario.events@)[k],
                lme_turns(sel, inst)[i],
            ),
{
    let gold = inst.gold_turn_ids@;
    let turns = lme_turns(sel, inst);
    let labels = labels_outcome(sel, turns, gold)->Ok_0;
    let query_source = question_date_outcome(sel, opt_text_view(inst.question_date))->Ok_0;
    lemma_assembled_turns_remembered(sel, inst.question@, turns, labels.0, labels.1, query_source, c, i);
}

/// When the selected turns of a LongMemEval-S row have distinct external ids, the
/// converted scenario stores each of them in exactly one event (a remember event, or
/// for an update's newer gold turn the correction), and it has at most one correction.
pub proof fn lemma_longmemeval_one_event_per_turn(sel: InstanceSelection, inst: LongMemEvalInstance, c: ConvertedScenario)
    requires
        longmemeval_conversion(sel, inst, Ok(c)),
        distinct_turn_ids(lme_turns(sel, inst)),
    ensures
        ({
            let ev = crate::conversion::events_view(c.scenario.events@);
            let turns = lme_turns(sel, inst);
            &&& forall|i: int|
                #![trigger turns[i]]
                0 <= i < turns.len() ==> exists|k: int|
                    0 <= k < ev.len() - 1 && stored_external_id(#[trigger] ev[k]) == Some(turns[i].external_id)
            &&& forall|k1: int, k2: int|
                0 <= k1 < k2 < ev.len() && stored_external_id(#[trigger] ev[k1]) is Some ==> stored_external_id(ev[k1])
                    != stored_external_id(#[trigger] ev[k2])
            &&& forall|k1: int, k2: int|
                0 <= k1 < ev.len() && 0 <= k2 < ev.len() && #[trigger] ev[k1] is Correct && #[trigger] ev[k2] is Correct
                    ==> k1 == k2
        }),
{
    let gold = inst.gold_turn_ids@;
    let turns = lme_turns(sel, inst);
    let labels = labels_outcome(sel, turns, gold)->Ok_0;
    let query_source = question_date_outcome(sel, opt_text_view(inst.question_date))->Ok_0;
    lemma_assembled_one_event_per_turn(sel, inst.question@, turns, labels.0, labels.1, query_source, c);
    let ev = crate::conversion::events_view(c.scenario.events@);
    assert forall|i: int| #![trigger turns[i]] 0 <= i < turns.len() implies exists|k: int|
        0 <= k < ev.len() - 1 && stored_external_id(#[trigger] ev[k]) == Some(turns[i].external_id) by {
        if sel.scenario_kind == ScenarioKind::Update && turns[i].external_id == update_pair(
            gold_filter(turns, gold),
        ).1.external_id {
            lemma_longmemeval_update(sel, inst, c);
            let new = update_pair(gold_filter(turns, gold)).1;
            let old = update_pair(gold_filter(turns, gold)).0;
            let cv = Correction {
                target_external_id: old.external_id,
                replacement_external_id: new.external_id,
                timestamp: new.timestamp,
                replacement_text: new.text,
            };
            let k = choose|k: int| 0 <= k < ev.len() - 1 && #[trigger] ev[k] == correct_event(sel.fixture_id@, cv);
            assert(stored_external_id(ev[k]) == Some(turns[i].external_id));
        } else {
            lemma_longmemeval_turns_remembered(sel, inst, c, i);
            let k = choose|k: int| 0 <= k < ev.len() - 1 && #[trigger] remembers(ev[k], turns[i]);
            assert(stored_external_id(ev[k]) == Some(turns[i].external_id));
        }
    }
}

/// The question a converted LongMemEval-S scenario asks is the row's question as
/// written; it expects every gold turn id of the row, in order, as relevant (none for
/// an abstention; an update expects only its newer gold turn, see
/// `lemma_longmemeval_update`), and the sampled negatives as irrelevant.
pub proof fn lemma_longmemeval_query_expects_gold(sel: InstanceSelection, inst: LongMemEvalInstance, c: ConvertedScenario)
    requires
        longmemeval_conversion(sel, inst, Ok(c)),
    ensures
        ({
            let ev = crate::conversion::events_view(c.scenario.events@);
            &&& ev.len() >= 2
            &&& ev.last() matches crate::conversion::InteractionEvent::Query { text, expected, .. }
            &&& ev.last()->Query_text == inst.question@
            &&& ev.last()->Query_expected.irrelevant_external_ids == texts_view(sel.sampled_negative_turn_ids@)
            &&& sel.scenario_kind == ScenarioKind::Abstention ==> ev.last()->Query_expected.relevant_external_ids
                == Seq::<TextView>::empty()
            &&& sel.scenario_kind != ScenarioKind::Abstention && sel.scenario_kind != ScenarioKind::Update
                ==> ev.last()->Query_expected.relevant_external_ids == texts_view(inst.gold_turn_ids@)
        }),
{
    let gold = inst.gold_turn_ids@;
    let turns = lme_turns(sel, inst);
    let labels = labels_outcome(sel, turns, gold)->Ok_0;
    let query_source = question_date_outcome(sel, opt_text_view(inst.question_date))->Ok_0;
    lemma_assembled_query_last(sel, inst.question@, turns, labels.0, labels.1, query_source, c);
}

/// Converting a LongMemEval-S row is deterministic: two scenarios converted from the
/// same selection and row have the same identity, events, embedding text ids and query
/// text id.
pub proof fn lemma_longmemeval_deterministic(
    sel: InstanceSelection,
    inst: LongMemEvalInstance,
    c1: ConvertedScenario,
    c2: ConvertedScenario,
)
    requires
        longmemeval_conversion(sel, inst, Ok(c1)),
        longmemeval_conversion(sel, inst, Ok(c2)),
    ensures
        c1.scenario.fixture_id@ == c2.scenario.fixture_id@,
        c1.scenario.namespace@ == c2.scenario.namespace@,
        c1.scenario.pattern == c2.scenario.pattern,
        crate::conversion::events_view(c1.scenario.events@) == crate::conversion::events_view(
            c2.scenario.events@,
        ),
        forall|key: TextView|
            #[trigger] opt_text_view(c1.text_id_by_external_id.at(key)) == opt_text_view(
                c2.text_id_by_external_id.at(key),
            ),
        c1.query_text_id@ == c2.query_text_id@,
{
    let gold = inst.gold_turn_ids@;
    let turns = lme_collect(
        sel.fixture_id@,
        sel.selected_session_ids@,
        inst.sessions@,
        sel.selected_session_ids@.len() as int,
    )->Ok_0;
    let labels = labels_outcome(sel, turns, gold)->Ok_0;
    let query_source = question_date_outcome(sel, opt_text_view(inst.question_date))->Ok_0;
    lemma_assembly_deterministic(
        sel,
        inst.question@,
        turns,
        labels.0,
        labels.1,
        query_source,
        c1,
        c2,
    );
}

/// A scenario converted from a LongMemEval-S row has an embedding text id for every
/// stored turn.
pub proof fn lemma_longmemeval_ids_complete(
    sel: InstanceSelection,
    inst: LongMemEvalInstance,
    c: ConvertedScenario,
)
    requires
        longmemeval_conversion(sel, inst, Ok(c)),
    ensures
        c.text_id_by_external_id.wf(),
        embedding_ids_complete(c),
{
    let turns = lme_collect(
        sel.fixture_id@,
        sel.selected_session_ids@,
        inst.sessions@,
        sel.selected_session_ids@.len() as int,
    )->Ok_0;
    let labels = labels_outcome(sel, turns, inst.gold_turn_ids@)->Ok_0;
    let query_source = question_date_outcome(sel, opt_text_view(inst.question_date))->Ok_0;
    lemma_assembled_ids_complete(sel, inst.question@, turns, labels.0, labels.1, query_source, c);
}

/// A scenario converted from a LongMemEval-S row has its events in order of instant, the
/// query last and strictly after every other event.
pub proof fn lemma_longmemeval_timeline(sel: InstanceSelection, inst: LongMemEvalInstance, c: ConvertedScenario)
    requires
        longmemeval_conversion(sel, inst, Ok(c)),
    ensures
        timeline_ordered(c),
{
    let turns = lme_collect(
        sel.fixture_id@,
        sel.selected_session_ids@,
        inst.sessions@,
        sel.selected_session_ids@.len() as int,
    )->Ok_0;
    let labels = labels_outcome(sel, turns, inst.gold_turn_ids@)->Ok_0;
    let query_source = question_date_outcome(sel, opt_text_view(inst.question_date))->Ok_0;
    lemma_assembled_timeline(sel, inst.question@, turns, labels.0, labels.1, query_source, c);
}

/// Converting a LongMemEval-S row either succeeds or fails: no selection and row both
/// give a scenario and an error.
pub proof fn lemma_longmemeval_exclusive(
    sel: InstanceSelection,
    inst: LongMemEvalInstance,
    c: ConvertedScenario,
    e: ConversionError,
)
    requires
        longmemeval_conversion(sel, inst, Ok(c)),
    ensures
        !longmemeval_conversion(sel, inst, Err(e)),
{
    let turns = lme_collect(
        sel.fixture_id@,
        sel.selected_session_ids@,
        inst.sessions@,
        sel.selected_session_ids@.len() as int,
    )->Ok_0;
    let labels = labels_outcome(sel, turns, inst.gold_turn_ids@)->Ok_0;
    let query_source = question_date_outcome(sel, opt_text_view(inst.question_date))->Ok_0;
    lemma_assembly_exclusive(sel, inst.question@, turns, labels.0, labels.1, query_source, c, e);
}

} // verus!
