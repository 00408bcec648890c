//! Conversion of a selected LoCoMo question into a continuity scenario.
use vstd::prelude::*;

use crate::assemble::{
    lemma_assembly_exclusive, lemma_assembled_timeline, lemma_assembled_query_last, timeline_ordered, embedding_ids_complete, lemma_assembled_ids_complete, assemble_scenario, assembly_outcome, lemma_assembly_deterministic, ConvertedScenario,
};
use crate::conversion::{
    error_view, negatives_outcome, opt_text_view, question_type_outcome, require_negatives_present,
    require_question_type, require_timestamp, session_timestamp_outcome, texts_view, turns_view,
    ConversionError, ErrorView, LoCoMoQa, LoCoMoSample, LoCoMoSession, LoCoMoTurn, SourceTurn,
    TextView, TurnView,
};
use crate::convert::fails_with;
use crate::driver::clone_texts;
use crate::selection::{BenchmarkSource, InstanceSelection, ScenarioKind};
use crate::text::{contains_text, seq_contains_text};
use crate::timestamp::{seconds_after, shift_fits, shifted, Timestamp};

verus! {

/// The question a selection names: the one at its one-based index, which must carry
/// that index.
pub open spec fn qa_outcome(sel: InstanceSelection, sample: LoCoMoSample) -> Result<int, ErrorView> {
    let qa_index = sel.source_qa_index->0;
    let pos: int = if qa_index == 0 {
        0
    } else {
        qa_index - 1
    };
    if pos >= sample.qa@.len() {
        Err(ConversionError::MissingQa { fixture_id: sel.fixture_id@, qa_index })
    } else if sample.qa@[pos].qa_index != qa_index {
        Err(ConversionError::InconsistentQa { fixture_id: sel.fixture_id@ })
    } else {
        Ok(pos)
    }
}

/// Every session the question's evidence lies in must be selected.
pub open spec fn evidence_sessions_check(sel: InstanceSelection, sessions: Seq<String>) -> Result<
    (),
    ErrorView,
> {
    let selected = sel.selected_session_ids@;
    if exists|k: int| 0 <= k < sessions.len() && !seq_contains_text(selected, #[trigger] sessions[k]@) {
        let k = choose|k: int|
            0 <= k < sessions.len() && !seq_contains_text(selected, #[trigger] sessions[k]@)
                && forall|j: int| 0 <= j < k ==> seq_contains_text(selected, #[trigger] sessions[j]@);
        Err(
            ConversionError::EvidenceSessionOmitted {
                fixture_id: sel.fixture_id@,
                session_id: sessions[k]@,
            },
        )
    } else {
        Ok(())
    }
}

/// The first element of `ids` that is not one of `allowed`, if any.
pub open spec fn first_missing(ids: Seq<String>, allowed: Seq<String>) -> Option<int> {
    if exists|k: int| 0 <= k < ids.len() && !seq_contains_text(allowed, #[trigger] ids[k]@) {
        Some(
            choose|k: int|
                0 <= k < ids.len() && !seq_contains_text(allowed, #[trigger] ids[k]@) && forall|j: int|
                    0 <= j < k ==> seq_contains_text(allowed, #[trigger] ids[j]@),
        )
    } else {
        None
    }
}

fn find_missing(ids: &Vec<String>, allowed: &Vec<String>) -> (r: Option<usize>)
    ensures
        match first_missing(ids@, allowed@) {
            Some(k) => r matches Some(j) && j as int == k && j < ids@.len(),
            None => r is None,
        },
{
    let mut k: usize = 0;
    while k < ids.len()
        invariant
            k <= ids@.len(),
            forall|j: int| 0 <= j < k ==> seq_contains_text(allowed@, #[trigger] ids@[j]@),
        decreases ids@.len() - k,
    {
        if !contains_text(allowed, ids[k].as_str()) {
            proof {
                let c = choose|c: int|
                    0 <= c < ids@.len() && !seq_contains_text(allowed@, #[trigger] ids@[c]@)
                        && forall|j: int| 0 <= j < c ==> seq_contains_text(allowed@, #[trigger] ids@[j]@);
                if c < k {
                } else if c > k {
                    assert(seq_contains_text(allowed@, ids@[k as int]@));
                }
            }
            return Some(k);
        }
        k = k + 1;
    }
    None
}

/// Every turn of the first `n` sessions, in order.
pub open spec fn all_turns(sessions: Seq<LoCoMoSession>, n: int) -> Seq<LoCoMoTurn>
    decreases n,
{
    if n <= 0 {
        Seq::empty()
    } else {
        all_turns(sessions, n - 1) + sessions[n - 1].turns@
    }
}

/// The turns among `turns` with the dialog id `id`.
pub open spec fn dialog_matches(turns: Seq<LoCoMoTurn>, id: TextView) -> Seq<LoCoMoTurn>
    decreases turns.len(),
{
    if turns.len() == 0 {
        Seq::empty()
    } else {
        let prev = dialog_matches(turns.drop_last(), id);
        if turns.last().dialog_id@ == id {
            prev.push(turns.last())
        } else {
            prev
        }
    }
}

/// The evidence turn `id` occurs once in the sample, with text.
pub open spec fn evidence_turn_clean(turns: Seq<LoCoMoTurn>, id: TextView) -> bool {
    let m = dialog_matches(turns, id);
    m.len() == 1 && m[0].text@.len() > 0
}

/// The evidence turn `id` occurs once in the sample, without an image.
pub open spec fn evidence_turn_without_image(turns: Seq<LoCoMoTurn>, id: TextView) -> bool {
    let m = dialog_matches(turns, id);
    m.len() == 1 && m[0].image_url_count == 0
}

/// The question cites evidence, and every cited turn occurs once, with text.
pub open spec fn locomo_evidence_clean(turns: Seq<LoCoMoTurn>, ids: Seq<String>) -> bool {
    ids.len() > 0 && forall|i: int| 0 <= i < ids.len() ==> evidence_turn_clean(turns, #[trigger] ids[i]@)
}

/// Every cited turn occurs once, without an image.
pub open spec fn locomo_no_image(turns: Seq<LoCoMoTurn>, ids: Seq<String>) -> bool {
    forall|i: int| 0 <= i < ids.len() ==> evidence_turn_without_image(turns, #[trigger] ids[i]@)
}

/// The recorded evidence predicates must be what the sample shows.
pub open spec fn locomo_evidence_check(sel: InstanceSelection, sample: LoCoMoSample, qa: LoCoMoQa) -> Result<
    (),
    ErrorView,
> {
    let turns = all_turns(sample.sessions@, sample.sessions@.len() as int);
    let clean = locomo_evidence_clean(turns, qa.evidence_dialog_ids@);
    let no_image = locomo_no_image(turns, qa.evidence_dialog_ids@);
    let recorded = sel.selection_proof.machine_derived.evidence_clean;
    if clean != recorded {
        Err(ConversionError::EvidenceCleanMismatch { fixture_id: sel.fixture_id@, recorded, derived: clean })
    } else if sel.selection_proof.machine_derived.no_img_url_in_evidence matches Some(expected)
        && expected != no_image {
        Err(
            ConversionError::NoImgUrlMismatch {
                fixture_id: sel.fixture_id@,
                recorded: sel.selection_proof.machine_derived.no_img_url_in_evidence->0,
                derived: no_image,
            },
        )
    } else {
        Ok(())
    }
}

/// How many turns of the sample have the dialog id `id` (counted up to two), and whether
/// the first of them has text and has no image.
fn dialog_summary(sample: &LoCoMoSample, id: &String) -> (r: (u8, bool, bool))
    ensures
        ({
            let m = dialog_matches(all_turns(sample.sessions@, sample.sessions@.len() as int), id@);
            &&& r.0 == (if m.len() >= 2 {
                2
            } else {
                m.len()
            })
            &&& m.len() >= 1 ==> r.1 == (m[0].text@.len() > 0) && r.2 == (m[0].image_url_count == 0)
        }),
{
    let ghost sessions = sample.sessions@;
    let mut count: u8 = 0;
    let mut has_text = false;
    let mut no_image = false;
    let mut s: usize = 0;
    while s < sample.sessions.len()
        invariant
            s <= sessions.len(),
            sessions == sample.sessions@,
            ({
                let m = dialog_matches(all_turns(sessions, s as int), id@);
                &&& count == (if m.len() >= 2 {
                    2
                } else {
                    m.len()
                })
                &&& m.len() >= 1 ==> has_text == (m[0].text@.len() > 0) && no_image == (m[0].image_url_count == 0)
            }),
        decreases sessions.len() - s,
    {
        let session = &sample.sessions[s];
        let ghost base = all_turns(sessions, s as int);
        let mut t: usize = 0;
        while t < session.turns.len()
            invariant
                t <= session.turns@.len(),
                session == &sample.sessions[s as int],
                ({
                    let m = dialog_matches(base + session.turns@.subrange(0, t as int), id@);
                    &&& count == (if m.len() >= 2 {
                        2
                    } else {
                        m.len()
                    })
                    &&& m.len() >= 1 ==> has_text == (m[0].text@.len() > 0) && no_image == (
                    m[0].image_url_count == 0)
                }),
            decreases session.turns@.len() - t,
        {
            let turn = &session.turns[t];
            let ghost prefix = base + session.turns@.subrange(0, t as int);
            assert((base + session.turns@.subrange(0, t + 1)).drop_last() =~= prefix);
            assert((base + session.turns@.subrange(0, t + 1)).last() == session.turns@[t as int]);
            if turn.dialog_id == *id {
                if count == 0 {
                    has_text = turn.text.as_str().unicode_len() > 0;
                    no_image = turn.image_url_count == 0;
                    count = 1;
                } else {
                    count = 2;
                }
            }
            t = t + 1;
        }
        assert(base + session.turns@.subrange(0, session.turns@.len() as int) =~= all_turns(sessions, s + 1));
        s = s + 1;
    }
    (count, has_text, no_image)
}

fn check_locomo_evidence(sel: &InstanceSelection, sample: &LoCoMoSample, qa: &LoCoMoQa) -> (r: Result<
    (),
    ConversionError,
>)
    ensures
        match locomo_evidence_check(*sel, *sample, *qa) {
            Ok(()) => r is Ok,
            Err(e) => fails_with(r, e),
        },
{
    let ghost turns = all_turns(sample.sessions@, sample.sessions@.len() as int);
    let ids = &qa.evidence_dialog_ids;
    let mut clean = ids.len() > 0;
    let mut no_image = true;
    let mut i: usize = 0;
    while i < ids.len()
        invariant
            i <= ids@.len(),
            ids == &qa.evidence_dialog_ids,
            turns == all_turns(sample.sessions@, sample.sessions@.len() as int),
            clean == (ids@.len() > 0 && forall|j: int| 0 <= j < i ==> evidence_turn_clean(turns, #[trigger] ids@[j]@)),
            no_image == forall|j: int| 0 <= j < i ==> evidence_turn_without_image(turns, #[trigger] ids@[j]@),
        decreases ids@.len() - i,
    {
        let (count, has_text, without_image) = dialog_summary(sample, &ids[i]);
        let one = count == 1;
        clean = clean && one && has_text;
        no_image = no_image && one && without_image;
        i = i + 1;
    }
    let recorded = sel.selection_proof.machine_derived.evidence_clean;
    if clean != recorded {
        return Err(
            ConversionError::EvidenceCleanMismatch {
                fixture_id: sel.fixture_id.clone(),
                recorded,
                derived: clean,
            },
        );
    }
    match sel.selection_proof.machine_derived.no_img_url_in_evidence {
        Some(expected) => {
            if expected != no_image {
                return Err(
                    ConversionError::NoImgUrlMismatch {
                        fixture_id: sel.fixture_id.clone(),
                        recorded: expected,
                        derived: no_image,
                    },
                );
            }
        },
        None => {},
    }
    Ok(())
}

/// The first session of the sample with the given id.
pub open spec fn find_locomo_session(sessions: Seq<LoCoMoSession>, id: TextView) -> Option<int> {
    if exists|k: int| 0 <= k < sessions.len() && #[trigger] sessions[k].session_id@ == id {
        Some(
            choose|k: int|
                0 <= k < sessions.len() && #[trigger] sessions[k].session_id@ == id && forall|j: int|
                    0 <= j < k ==> #[trigger] sessions[j].session_id@ != id,
        )
    } else {
        None
    }
}

proof fn lemma_earliest_locomo_session(sessions: Seq<LoCoMoSession>, id: TextView, w: int)
    requires
        0 <= w < sessions.len(),
        sessions[w].session_id@ == id,
    ensures
        exists|c: int|
            0 <= c < sessions.len() && #[trigger] sessions[c].session_id@ == id && forall|j: int|
                0 <= j < c ==> #[trigger] sessions[j].session_id@ != id,
    decreases w,
{
    if exists|j: int| 0 <= j < w && #[trigger] sessions[j].session_id@ == id {
        let j = choose|j: int| 0 <= j < w && #[trigger] sessions[j].session_id@ == id;
        lemma_earliest_locomo_session(sessions, id, j);
    } else {
        assert(forall|j: int| 0 <= j < w ==> #[trigger] sessions[j].session_id@ != id);
    }
}

proof fn lemma_find_locomo_session(sessions: Seq<LoCoMoSession>, id: TextView)
    ensures
        find_locomo_session(sessions, id) matches Some(k) ==> 0 <= k < sessions.len()
            && sessions[k].session_id@ == id,
{
    if exists|k: int| 0 <= k < sessions.len() && #[trigger] sessions[k].session_id@ == id {
        let w = choose|k: int| 0 <= k < sessions.len() && #[trigger] sessions[k].session_id@ == id;
        lemma_earliest_locomo_session(sessions, id, w);
    }
}

fn find_locomo_session_exec(sessions: &Vec<LoCoMoSession>, id: &String) -> (r: Option<usize>)
    ensures
        match find_locomo_session(sessions@, id@) {
            Some(k) => r matches Some(j) && j as int == k,
            None => r is None,
        },
        r matches Some(k) ==> k < sessions@.len() && sessions@[k as int].session_id@ == id@,
{
    let mut k: usize = 0;
    while k < sessions.len()
        invariant
            k <= sessions@.len(),
            forall|j: int| 0 <= j < k ==> #[trigger] sessions@[j].session_id@ != id@,
        decreases sessions@.len() - k,
    {
        if sessions[k].session_id == *id {
            proof {
                let c = choose|c: int|
                    0 <= c < sessions@.len() && #[trigger] sessions@[c].session_id@ == id@ && forall|j: int|
                        0 <= j < c ==> #[trigger] sessions@[j].session_id@ != id@;
                if c > k {
                    assert(sessions@[k as int].session_id@ == id@);
                }
            }
            return Some(k);
        }
        k = k + 1;
    }
    None
}

/// Sessions are short enough that every turn's offset in seconds can be built.
pub open spec fn locomo_sessions_bounded(sample: LoCoMoSample) -> bool {
    forall|k: int|
        0 <= k < sample.sessions@.len() ==> #[trigger] sample.sessions@[k].turns@.len() <= i64::MAX / 1000
}

/// The first `n` turns of a LoCoMo session, the `i`-th (from one) `i` seconds after the
/// session's timestamp.
pub open spec fn locomo_session_turns(
    fixture_id: TextView,
    session: LoCoMoSession,
    base: Timestamp,
    n: int,
) -> Result<Seq<TurnView>, ErrorView>
    decreases n,
{
    if n <= 0 {
        Ok(Seq::empty())
    } else {
        match locomo_session_turns(fixture_id, session, base, n - 1) {
            Err(e) => Err(e),
            Ok(prev) => {
                let t = session.turns@[n - 1];
                if t.text@.len() == 0 {
                    Err(
                        ConversionError::EmptySourceText {
                            fixture_id,
                            source_id: session.session_id@,
                        },
                    )
                } else if !shift_fits(base, n) {
                    Err(ConversionError::TimestampOverflow { fixture_id })
                } else {
                    Ok(
                        prev.push(
                            crate::conversion::SourceTurn {
                                external_id: t.dialog_id@,
                                timestamp: shifted(base, n),
                                text: t.text@,
                            },
                        ),
                    )
                }
            },
        }
    }
}

/// The turns of one selected session.
pub open spec fn locomo_selected_session_turns(
    fixture_id: TextView,
    sid: TextView,
    sessions: Seq<LoCoMoSession>,
) -> Result<Seq<TurnView>, ErrorView> {
    match find_locomo_session(sessions, sid) {
        None => Err(
            ConversionError::MissingSession {
                source: BenchmarkSource::Locomo,
                fixture_id,
                session_id: sid,
            },
        ),
        Some(k) => {
            let s = sessions[k];
            match session_timestamp_outcome(opt_text_view(s.timestamp), fixture_id, s.session_id@) {
                Err(e) => Err(e),
                Ok(base) => locomo_session_turns(fixture_id, s, base, s.turns@.len() as int),
            }
        },
    }
}

/// The turns of the first `n` selected sessions, in the selected order.
pub open spec fn locomo_collect(
    fixture_id: TextView,
    selected: Seq<String>,
    sessions: Seq<LoCoMoSession>,
    n: int,
) -> Result<Seq<TurnView>, ErrorView>
    decreases n,
{
    if n <= 0 {
        Ok(Seq::empty())
    } else {
        match locomo_collect(fixture_id, selected, sessions, n - 1) {
            Err(e) => Err(e),
            Ok(prev) => match locomo_selected_session_turns(fixture_id, selected[n - 1]@, sessions) {
                Err(e) => Err(e),
                Ok(ts) => Ok(prev + ts),
            },
        }
    }
}

proof fn lemma_locomo_session_err_persists(
    fixture_id: TextView,
    session: LoCoMoSession,
    base: Timestamp,
    m: int,
    n: int,
)
    requires
        0 <= m <= n,
        locomo_session_turns(fixture_id, session, base, m) is Err,
    ensures
        locomo_session_turns(fixture_id, session, base, n) == locomo_session_turns(
            fixture_id,
            session,
            base,
            m,
        ),
    decreases n - m,
{
    if n > m {
        lemma_locomo_session_err_persists(fixture_id, session, base, m, n - 1);
    }
}

proof fn lemma_locomo_collect_err_persists(
    fixture_id: TextView,
    selected: Seq<String>,
    sessions: Seq<LoCoMoSession>,
    m: int,
    n: int,
)
    requires
        0 <= m <= n,
        locomo_collect(fixture_id, selected, sessions, m) is Err,
    ensures
        locomo_collect(fixture_id, selected, sessions, n) == locomo_collect(fixture_id, selected, sessions, m),
    decreases n - m,
{
    if n > m {
        lemma_locomo_collect_err_persists(fixture_id, selected, sessions, m, n - 1);
    }
}

fn collect_locomo_session(
    fixture_id: &String,
    session: &LoCoMoSession,
    base: Timestamp,
    out: &mut Vec<SourceTurn>,
) -> (r: Result<(), ConversionError>)
    requires
        session.turns@.len() <= i64::MAX / 1000,
    ensures
        match locomo_session_turns(fixture_id@, *session, base, session.turns@.len() as int) {
            Ok(ts) => r is Ok && turns_view(final(out)@) == turns_view(old(out)@) + ts,
            Err(e) => r matches Err(x) && error_view(x) == e,
        },
{
    let ghost start = turns_view(out@);
    let mut i: usize = 0;
    while i < session.turns.len()
        invariant
            i <= session.turns@.len(),
            session.turns@.len() <= i64::MAX / 1000,
            locomo_session_turns(fixture_id@, *session, base, i as int) matches Ok(ts) && turns_view(out@)
                == start + ts,
        decreases session.turns@.len() - i,
    {
        let t = &session.turns[i];
        if t.text.as_str().unicode_len() == 0 {
            proof {
                lemma_locomo_session_err_persists(fixture_id@, *session, base, i + 1, session.turns@.len() as int);
            }
            return Err(
                ConversionError::EmptySourceText {
                    fixture_id: fixture_id.clone(),
                    source_id: session.session_id.clone(),
                },
            );
        }
        let offset: i64 = i as i64 + 1;
        match seconds_after(base, offset) {
            None => {
                proof {
                    lemma_locomo_session_err_persists(fixture_id@, *session, base, i + 1, session.turns@.len() as int);
                }
                return Err(ConversionError::TimestampOverflow { fixture_id: fixture_id.clone() });
            },
            Some(ts) => {
                let ghost before = out@;
                out.push(
                    SourceTurn {
                        external_id: t.dialog_id.clone(),
                        timestamp: ts,
                        text: t.text.clone(),
                    },
                );
                assert(turns_view(out@) =~= turns_view(before).push(turns_view(out@).last()));
            },
        }
        i = i + 1;
    }
    Ok(())
}

fn collect_selected_locomo_session(
    fixture_id: &String,
    sid: &String,
    sample: &LoCoMoSample,
    out: &mut Vec<SourceTurn>,
) -> (r: Result<(), ConversionError>)
    requires
        locomo_sessions_bounded(*sample),
    ensures
        match locomo_selected_session_turns(fixture_id@, sid@, sample.sessions@) {
            Ok(ts) => r is Ok && turns_view(final(out)@) == turns_view(old(out)@) + ts,
            Err(e) => r matches Err(x) && error_view(x) == e,
        },
{
    let found = find_locomo_session_exec(&sample.sessions, sid);
    match found {
        None => Err(
            ConversionError::MissingSession {
                source: BenchmarkSource::Locomo,
                fixture_id: fixture_id.clone(),
                session_id: sid.clone(),
            },
        ),
        Some(k) => {
            let s = &sample.sessions[k];
            proof {
                lemma_find_locomo_session(sample.sessions@, sid@);
                assert(find_locomo_session(sample.sessions@, sid@) == Some(k as int));
            }
            let base = match require_timestamp(&s.timestamp, fixture_id.as_str(), s.session_id.as_str()) {
                Ok(b) => b,
                Err(e) => {
                    return Err(e);
                },
            };
            assert(sample.sessions@[k as int].turns@.len() <= i64::MAX / 1000);
            collect_locomo_session(fixture_id, s, base, out)
        },
    }
}

/// The turns of the selected sessions of a LoCoMo sample, in the selected order.
#[verifier::rlimit(40)]
pub fn collect_locomo_turns(sel: &InstanceSelection, sample: &LoCoMoSample) -> (r: Result<
    Vec<SourceTurn>,
    ConversionError,
>)
    requires
        locomo_sessions_bounded(*sample),
    ensures
        match locomo_collect(
            sel.fixture_id@,
            sel.selected_session_ids@,
            sample.sessions@,
            sel.selected_session_ids@.len() as int,
        ) {
            Ok(ts) => r matches Ok(v) && turns_view(v@) == ts,
            Err(e) => fails_with(r, e),
        },
{
    let mut out: Vec<SourceTurn> = Vec::new();
    let selected = &sel.selected_session_ids;
    let mut n: usize = 0;
    while n < selected.len()
        invariant
            n <= selected@.len(),
            selected == &sel.selected_session_ids,
            locomo_sessions_bounded(*sample),
            locomo_collect(sel.fixture_id@, selected@, sample.sessions@, n as int) matches Ok(ts)
                && turns_view(out@) == ts,
        decreases selected@.len() - n,
    {
        match collect_selected_locomo_session(&sel.fixture_id, &selected[n], sample, &mut out) {
            Ok(()) => {
                assert(locomo_collect(sel.fixture_id@, selected@, sample.sessions@, n + 1) == Ok::<
                    Seq<TurnView>,
                    ErrorView,
                >(turns_view(out@)));
            },
            Err(e) => {
                proof {
                    lemma_locomo_collect_err_persists(
                        sel.fixture_id@,
                        selected@,
                        sample.sessions@,
                        n + 1,
                        selected@.len() as int,
                    );
                }
                return Err(e);
            },
        }
        n = n + 1;
    }
    Ok(out)
}

/// The relevant ids of a LoCoMo question: none for an abstention, whose cited evidence
/// must all be sampled negatives, the cited evidence otherwise.
pub open spec fn locomo_labels(sel: InstanceSelection, qa: LoCoMoQa) -> Result<Seq<TextView>, ErrorView> {
    if sel.scenario_kind == ScenarioKind::Abstention {
        match first_missing(qa.evidence_dialog_ids@, sel.sampled_negative_turn_ids@) {
            Some(k) => Err(
                ConversionError::AbstentionEvidenceNotNegative {
                    fixture_id: sel.fixture_id@,
                    evidence_id: qa.evidence_dialog_ids@[k]@,
                },
            ),
            None => Ok(Seq::empty()),
        }
    } else {
        Ok(texts_view(qa.evidence_dialog_ids@))
    }
}

fn find_qa(sel: &InstanceSelection, sample: &LoCoMoSample) -> (r: Result<usize, ConversionError>)
    requires
        sel.source_qa_index is Some,
    ensures
        match qa_outcome(*sel, *sample) {
            Ok(pos) => r matches Ok(p) && p as int == pos && p < sample.qa@.len(),
            Err(e) => fails_with(r, e),
        },
{
    let qa_index: usize = match sel.source_qa_index {
        Some(i) => i,
        None => 0,
    };
    let pos: usize = if qa_index == 0 {
        0
    } else {
        qa_index - 1
    };
    if pos >= sample.qa.len() {
        return Err(ConversionError::MissingQa { fixture_id: sel.fixture_id.clone(), qa_index });
    }
    if sample.qa[pos].qa_index != qa_index {
        return Err(ConversionError::InconsistentQa { fixture_id: sel.fixture_id.clone() });
    }
    Ok(pos)
}

fn check_evidence_sessions(sel: &InstanceSelection, qa: &LoCoMoQa) -> (r: Result<(), ConversionError>)
    ensures
        match evidence_sessions_check(*sel, qa.evidence_sessions@) {
            Ok(()) => r is Ok,
            Err(e) => fails_with(r, e),
        },
{
    match find_missing(&qa.evidence_sessions, &sel.selected_session_ids) {
        Some(k) => Err(
            ConversionError::EvidenceSessionOmitted {
                fixture_id: sel.fixture_id.clone(),
                session_id: qa.evidence_sessions[k].clone(),
            },
        ),
        None => Ok(()),
    }
}

fn choose_locomo_labels(sel: &InstanceSelection, qa: &LoCoMoQa) -> (r: Result<Vec<String>, ConversionError>)
    ensures
        match locomo_labels(*sel, *qa) {
            Ok(relevant) => r matches Ok(v) && texts_view(v@) == relevant,
            Err(e) => fails_with(r, e),
        },
{
    if sel.scenario_kind == ScenarioKind::Abstention {
        match find_missing(&qa.evidence_dialog_ids, &sel.sampled_negative_turn_ids) {
            Some(k) => {
                return Err(
                    ConversionError::AbstentionEvidenceNotNegative {
                        fixture_id: sel.fixture_id.clone(),
                        evidence_id: qa.evidence_dialog_ids[k].clone(),
                    },
                );
            },
            None => {},
        }
        let v: Vec<String> = Vec::new();
        assert(texts_view(v@) =~= Seq::<TextView>::empty());
        Ok(v)
    } else {
        Ok(clone_texts(&qa.evidence_dialog_ids))
    }
}

/// What converting a selected LoCoMo question gives: the first check that fails, in the
/// order the conversion makes them, or the assembled scenario.
pub open spec fn locomo_conversion(
    sel: InstanceSelection,
    sample: LoCoMoSample,
    r: Result<ConvertedScenario, ConversionError>,
) -> bool {
    match qa_outcome(sel, sample) {
        Err(e) => fails_with(r, e),
        Ok(pos) => {
            let qa = sample.qa@[pos];
            match question_type_outcome(sel, opt_text_view(qa.question_type)) {
                Err(e) => fails_with(r, e),
                Ok(()) => match evidence_sessions_check(sel, qa.evidence_sessions@) {
                    Err(e) => fails_with(r, e),
                    Ok(()) => match locomo_evidence_check(sel, sample, qa) {
                        Err(e) => fails_with(r, e),
                        Ok(()) => match locomo_collect(
                            sel.fixture_id@,
                            sel.selected_session_ids@,
                            sample.sessions@,
                            sel.selected_session_ids@.len() as int,
                        ) {
                            Err(e) => fails_with(r, e),
                            Ok(turns) => match negatives_outcome(sel, turns) {
                                Err(e) => fails_with(r, e),
                                Ok(()) => match locomo_labels(sel, qa) {
                                    Err(e) => fails_with(r, e),
                                    Ok(relevant) => assembly_outcome(
                                        sel,
                                        qa.question@,
                                        turns,
                                        relevant,
                                        None,
                                        None,
                                        r,
                                    ),
                                },
                            },
                        },
                    },
                },
            }
        },
    }
}

/// Converts a selected LoCoMo question: finds the question, checks it and its evidence
/// against the selection, admits the turns of the selected sessions (the `i`-th, from
/// one, `i` seconds after its session's timestamp), checks the negatives, chooses the
/// labels, and assembles the scenario.
pub fn convert_locomo(sel: &InstanceSelection, sample: &LoCoMoSample) -> (r: Result<
    ConvertedScenario,
    ConversionError,
>)
    requires
        sel.source_qa_index is Some,
        locomo_sessions_bounded(*sample),
    ensures
        locomo_conversion(*sel, *sample, r),
        r matches Ok(c) ==> exists|p: int|
            #![trigger sample.qa@[p]]
            0 <= p < sample.qa@.len() && sample.qa@[p].qa_index == sel.source_qa_index->0 && (
            crate::conversion::events_view(c.scenario.events@).last() matches crate::conversion::InteractionEvent::Query {
                text,
                expected,
                ..
            } && text == sample.qa@[p].question@ && expected.relevant_external_ids == (if sel.scenario_kind
                == ScenarioKind::Abstention {
                Seq::<TextView>::empty()
            } else {
                texts_view(sample.qa@[p].evidence_dialog_ids@)
            }) && expected.irrelevant_external_ids == texts_view(sel.sampled_negative_turn_ids@)),
{
    let pos = match find_qa(sel, sample) {
        Ok(p) => p,
        Err(e) => {
            return Err(e);
        },
    };
    let qa = &sample.qa[pos];
    match require_question_type(sel, &qa.question_type) {
        Ok(()) => {},
        Err(e) => {
            return Err(e);
        },
    }
    match check_evidence_sessions(sel, qa) {
        Ok(()) => {},
        Err(e) => {
            return Err(e);
        },
    }
    match check_locomo_evidence(sel, sample, qa) {
        Ok(()) => {},
        Err(e) => {
            return Err(e);
        },
    }
    let turns = match collect_locomo_turns(sel, sample) {
        Ok(t) => t,
        Err(e) => {
            return Err(e);
        },
    };
    match require_negatives_present(sel, &turns) {
        Ok(()) => {},
        Err(e) => {
            return Err(e);
        },
    }
    let relevant = match choose_locomo_labels(sel, qa) {
        Ok(v) => v,
        Err(e) => {
            return Err(e);
        },
    };
    let r = assemble_scenario(sel, qa.question.as_str(), &turns, &relevant, &None, None);
    proof {
        if r is Ok {
            lemma_locomo_query_expects_evidence(*sel, *sample, r->Ok_0);
        }
    }
    r
}

/// Converting a LoCoMo question is deterministic: two scenarios converted from the same
/// selection and sample have the same identity, events, embedding text ids and query
/// text id.
pub proof fn lemma_locomo_deterministic(
    sel: InstanceSelection,
    sample: LoCoMoSample,
    c1: ConvertedScenario,
    c2: ConvertedScenario,
)
    requires
        locomo_conversion(sel, sample, Ok(c1)),
        locomo_conversion(sel, sample, Ok(c2)),
    ensures
        c1.scenario.fixture_id@ == c2.scenario.fixture_id@,
        c1.scenario.namespace@ == c2.scenario.namespace@,
        c1.scenario.pattern == c2.scenario.pattern,
        crate::conversion::events_view(c1.scenario.events@) == crate::conversion::events_view(
            c2.scenario.events@,
        ),
        forall|key: TextView|
            #[trigger] opt_text_view(c1.text_id_by_external_id.at(key)) == opt_text_view(
                c2.text_id_by_external_id.at(key),
            ),
        c1.query_text_id@ == c2.query_text_id@,
{
    let qa = sample.qa@[qa_outcome(sel, sample)->Ok_0];
    let turns = locomo_collect(
        sel.fixture_id@,
        sel.selected_session_ids@,
        sample.sessions@,
        sel.selected_session_ids@.len() as int,
    )->Ok_0;
    let relevant = locomo_labels(sel, qa)->Ok_0;
    lemma_assembly_deterministic(sel, qa.question@, turns, relevant, None, None, c1, c2);
}

/// A scenario converted from a LoCoMo question has an embedding text id for every stored
/// turn.
pub proof fn lemma_locomo_ids_complete(sel: InstanceSelection, sample: LoCoMoSample, c: ConvertedScenario)
    requires
        locomo_conversion(sel, sample, Ok(c)),
    ensures
        c.text_id_by_external_id.wf(),
        embedding_ids_complete(c),
{
    let qa = sample.qa@[qa_outcome(sel, sample)->Ok_0];
    let turns = locomo_collect(
        sel.fixture_id@,
        sel.selected_session_ids@,
        sample.sessions@,
        sel.selected_session_ids@.len() as int,
    )->Ok_0;
    let relevant = locomo_labels(sel, qa)->Ok_0;
    lemma_assembled_ids_complete(sel, qa.question@, turns, relevant, None, None, c);
}

/// A scenario converted from a LoCoMo question has its events in order of instant, the
/// query last and strictly after every other event.
pub proof fn lemma_locomo_timeline(sel: InstanceSelection, sample: LoCoMoSample, c: ConvertedScenario)
    requires
        locomo_conversion(sel, sample, Ok(c)),
    ensures
        timeline_ordered(c),
{
    let qa = sample.qa@[qa_outcome(sel, sample)->Ok_0];
    let turns = locomo_collect(
        sel.fixture_id@,
        sel.selected_session_ids@,
        sample.sessions@,
        sel.selected_session_ids@.len() as int,
    )->Ok_0;
    let relevant = locomo_labels(sel, qa)->Ok_0;
    lemma_assembled_timeline(sel, qa.question@, turns, relevant, None, None, c);
}

/// Converting a LoCoMo question either succeeds or fails: no selection and sample both
/// give a scenario and an error.
pub proof fn lemma_locomo_exclusive(sel: InstanceSelection, sample: LoCoMoSample, c: ConvertedScenario, e: ConversionError)
    requires
        locomo_conversion(sel, sample, Ok(c)),
    ensures
        !locomo_conversion(sel, sample, Err(e)),
{
    let qa = sample.qa@[qa_outcome(sel, sample)->Ok_0];
    let turns = locomo_collect(
        sel.fixture_id@,
        sel.selected_session_ids@,
        sample.sessions@,
        sel.selected_session_ids@.len() as int,
    )->Ok_0;
    let relevant = locomo_labels(sel, qa)->Ok_0;
    lemma_assembly_exclusive(sel, qa.question@, turns, relevant, None, None, c, e);
}


/// The question a converted LoCoMo scenario asks expects what the question's own record
/// says: the question is the sample's QA entry carrying the selection's QA index; unless
/// the selection is an abstention, every evidence dialog id of that entry, in order, is
/// relevant (an abstention expects none); the sampled negatives are the irrelevant ids;
/// and the question is asked as written.
pub proof fn lemma_locomo_query_expects_evidence(sel: InstanceSelection, sample: LoCoMoSample, c: ConvertedScenario)
    requires
        locomo_conversion(sel, sample, Ok(c)),
    ensures
        ({
            let ev = crate::conversion::events_view(c.scenario.events@);
            &&& ev.len() >= 2
            &&& exists|p: int|
                #![trigger sample.qa@[p]]
                0 <= p < sample.qa@.len() && sample.qa@[p].qa_index == sel.source_qa_index->0 && (
                ev.last() matches crate::conversion::InteractionEvent::Query { text, expected, .. } && text
                    == sample.qa@[p].question@ && expected.relevant_external_ids == (if sel.scenario_kind
                    == ScenarioKind::Abstention {
                    Seq::<TextView>::empty()
                } else {
                    texts_view(sample.qa@[p].evidence_dialog_ids@)
                }) && expected.irrelevant_external_ids == texts_view(sel.sampled_negative_turn_ids@))
        }),
{
    let pos = qa_outcome(sel, sample)->Ok_0;
    let qa = sample.qa@[pos];
    let turns = locomo_collect(
        sel.fixture_id@,
        sel.selected_session_ids@,
        sample.sessions@,
        sel.selected_session_ids@.len() as int,
    )->Ok_0;
    let relevant = locomo_labels(sel, qa)->Ok_0;
    lemma_assembled_query_last(sel, qa.question@, turns, relevant, None, None, c);
    if sel.scenario_kind == ScenarioKind::Abstention {
        assert(relevant == Seq::<TextView>::empty());
    }
    assert(sample.qa@[pos] == qa);
}

} // verus!
