//! Building a continuity scenario from the admitted turns of a selected row.
use vstd::prelude::*;

use crate::conversion::{
    opt_text_view, error_view, event_view, events_view, texts_view, turns_view, ConversionError,
    ContinuityScenario, ErrorView, EventView, InteractionEvent, SourceTurn, TextView, TurnView,
};
use crate::driver::{clone_texts, ExpectedRelevance};
use crate::order::{
    is_sorted_perm, lemma_rank_irreflexive_pair, lemma_sorted_perm_covers, lemma_sorted_perm_unique, sorted_positions, text_lt,
    text_views,
};
use crate::render::{decimal_digits, decimal_text};
use crate::selection::{pattern_of, InstanceSelection, ScenarioKind, ScenarioPattern};
use crate::text::{contains_text, push_char, seq_contains_text, string_of};
use crate::textmap::TextMap;
use crate::timestamp::{later_of, seconds_after, shift_fits, shifted, ts_lt, Timestamp};

verus! {

/// An update of a remembered turn: the old turn is replaced by the new one.
#[derive(Debug, Clone, PartialEq, Eq)]
pub struct Correction<T = String> {
    pub target_external_id: T,
    pub replacement_external_id: T,
    pub timestamp: Timestamp,
    pub replacement_text: T,
}

pub type CorrectionView = Correction<TextView>;

pub open spec fn correction_view(c: Correction) -> CorrectionView {
    Correction {
        target_external_id: c.target_external_id@,
        replacement_external_id: c.replacement_external_id@,
        timestamp: c.timestamp,
        replacement_text: c.replacement_text@,
    }
}

pub open spec fn opt_correction_view(c: Option<Correction>) -> Option<CorrectionView> {
    match c {
        Some(x) => Some(correction_view(x)),
        None => None,
    }
}

/// `n` in decimal with at least four digits, zeros in front.
pub open spec fn padded4(n: nat) -> TextView {
    let d = decimal_digits(n);
    if d.len() < 4 {
        Seq::new((4 - d.len()) as nat, |i: int| '0') + d
    } else {
        d
    }
}

/// The id of the `n`-th remember event of a fixture.
pub open spec fn remember_event_id(fixture: TextView, n: nat) -> TextView {
    fixture + ":remember:"@ + padded4(n)
}

/// The id of the correction event of a fixture.
pub open spec fn correct_event_id(fixture: TextView) -> TextView {
    fixture + ":correct"@
}

/// The id of the query event of a fixture.
pub open spec fn query_event_id(fixture: TextView) -> TextView {
    fixture + ":query"@
}

/// The id under which the text of an event is embedded.
pub open spec fn embedding_text_id(event_id: TextView) -> TextView {
    event_id + ":embedding"@
}

/// `items` taken in the order of the positions `p`.
pub open spec fn arrange<A>(items: Seq<A>, p: Seq<usize>) -> Seq<A> {
    Seq::new(p.len(), |k: int| items[p[k] as int])
}

pub open spec fn turn_times(t: Seq<TurnView>) -> Seq<Timestamp> {
    t.map_values(|x: TurnView| x.timestamp)
}

pub open spec fn turn_names(t: Seq<TurnView>) -> Seq<TextView> {
    t.map_values(|x: TurnView| x.external_id)
}

pub open spec fn event_time(e: EventView) -> Timestamp {
    match e {
        InteractionEvent::Remember { timestamp, .. } => timestamp,
        InteractionEvent::Correct { timestamp, .. } => timestamp,
        InteractionEvent::Query { timestamp, .. } => timestamp,
    }
}

pub open spec fn event_name(e: EventView) -> TextView {
    match e {
        InteractionEvent::Remember { event_id, .. } => event_id,
        InteractionEvent::Correct { event_id, .. } => event_id,
        InteractionEvent::Query { event_id, .. } => event_id,
    }
}

pub open spec fn event_times(e: Seq<EventView>) -> Seq<Timestamp> {
    e.map_values(|x: EventView| event_time(x))
}

pub open spec fn event_names(e: Seq<EventView>) -> Seq<TextView> {
    e.map_values(|x: EventView| event_name(x))
}

/// The remember events of the first `n` ordered turns; the turn with the id `skip`
/// is left out, and the events are numbered from one.
pub open spec fn remember_events(
    fixture: TextView,
    ordered: Seq<TurnView>,
    skip: Option<TextView>,
    n: int,
) -> Seq<EventView>
    decreases n,
{
    if n <= 0 {
        Seq::empty()
    } else {
        let prev = remember_events(fixture, ordered, skip, n - 1);
        let t = ordered[n - 1];
        if skip == Some(t.external_id) {
            prev
        } else {
            prev.push(
                InteractionEvent::Remember {
                    event_id: remember_event_id(fixture, (prev.len() + 1) as nat),
                    external_id: t.external_id,
                    timestamp: t.timestamp,
                    text: t.text,
                },
            )
        }
    }
}

/// The events scripted before the query: the ordered turns remembered, the
/// replacement turn excepted, then the correction if there is one.
pub open spec fn scripted_events(
    fixture: TextView,
    ordered: Seq<TurnView>,
    correction: Option<CorrectionView>,
) -> Seq<EventView> {
    match correction {
        None => remember_events(fixture, ordered, None, ordered.len() as int),
        Some(c) => remember_events(
            fixture,
            ordered,
            Some(c.replacement_external_id),
            ordered.len() as int,
        ).push(
            InteractionEvent::Correct {
                event_id: correct_event_id(fixture),
                target_external_id: c.target_external_id,
                replacement_external_id: c.replacement_external_id,
                timestamp: c.timestamp,
                replacement_text: c.replacement_text,
            },
        ),
    }
}

/// The external id whose text an event stores.
pub open spec fn stored_external_id(e: EventView) -> Option<TextView> {
    match e {
        InteractionEvent::Remember { external_id, .. } => Some(external_id),
        InteractionEvent::Correct { replacement_external_id, .. } => Some(replacement_external_id),
        InteractionEvent::Query { .. } => None,
    }
}

/// The embedding text id of `key`: that of the last event that stores it.
pub open spec fn text_id_for(events: Seq<EventView>, key: TextView) -> Option<TextView>
    decreases events.len(),
{
    if events.len() == 0 {
        None
    } else if stored_external_id(events.last()) == Some(key) {
        Some(embedding_text_id(event_name(events.last())))
    } else {
        text_id_for(events.drop_last(), key)
    }
}

/// The latest instant among the events (of a non-empty list).
pub open spec fn latest_time(events: Seq<EventView>) -> Timestamp
    decreases events.len(),
{
    if events.len() <= 1 {
        event_time(events[0])
    } else {
        let m = latest_time(events.drop_last());
        let t = event_time(events.last());
        if ts_lt(m, t) {
            t
        } else {
            m
        }
    }
}

/// The instant the query is asked from: its own date when that is later than every event.
pub open spec fn query_base(source: Option<Timestamp>, latest: Timestamp) -> Timestamp {
    match source {
        Some(q) => if ts_lt(q, latest) {
            latest
        } else {
            q
        },
        None => latest,
    }
}

/// What must hold of the query and the labels before a scenario is assembled.
pub open spec fn assemble_precheck(
    sel: InstanceSelection,
    query: TextView,
    relevant: Seq<TextView>,
) -> Result<(), ErrorView> {
    if query.len() == 0 {
        Err(ConversionError::EmptySourceText { fixture_id: sel.fixture_id@, source_id: "query"@ })
    } else if sel.scenario_kind == ScenarioKind::Abstention {
        if seq_contains_text(sel.sampled_negative_turn_ids@, sel.similarity_nearer_external_id@) {
            Ok(())
        } else {
            Err(ConversionError::NearerNotNegative { fixture_id: sel.fixture_id@ })
        }
    } else if relevant.contains(sel.similarity_nearer_external_id@) {
        Ok(())
    } else {
        Err(ConversionError::NearerNotRelevant { fixture_id: sel.fixture_id@ })
    }
}

/// A converted scenario, with the embedding text id of every stored turn and of the query.
pub struct ConvertedScenario {
    pub scenario: ContinuityScenario,
    pub text_id_by_external_id: TextMap<String>,
    pub query_text_id: String,
}

pub(crate) fn padded4_text(n: usize) -> (s: String)
    ensures
        s@ == padded4(n as nat),
{
    let digits = decimal_text(n);
    let len = digits.as_str().unicode_len();
    let mut s = String::new();
    let mut k: usize = len;
    while k < 4
        invariant
            len == decimal_digits(n as nat).len(),
            len <= k <= 4 || (len > 4 && k == len),
            s@ == Seq::new((k - len) as nat, |i: int| '0'),
        decreases 4 - k,
    {
        push_char(&mut s, '0');
        k = k + 1;
        assert(s@ =~= Seq::new((k - len) as nat, |i: int| '0'));
    }
    s.append(digits.as_str());
    proof {
        if len >= 4 {
            assert(s@ =~= decimal_digits(n as nat));
        }
    }
    s
}

fn text_with(prefix: &str, suffix: &str) -> (s: String)
    ensures
        s@ == prefix@ + suffix@,
{
    let mut s = string_of(prefix);
    s.append(suffix);
    s
}

fn clone_event(e: &InteractionEvent) -> (c: InteractionEvent)
    ensures
        event_view(c) == event_view(*e),
{
    match e {
        InteractionEvent::Remember { event_id, external_id, timestamp, text } =>
            InteractionEvent::Remember {
                event_id: event_id.clone(),
                external_id: external_id.clone(),
                timestamp: *timestamp,
                text: text.clone(),
            },
        InteractionEvent::Correct {
            event_id,
            target_external_id,
            replacement_external_id,
            timestamp,
            replacement_text,
        } => InteractionEvent::Correct {
            event_id: event_id.clone(),
            target_external_id: target_external_id.clone(),
            replacement_external_id: replacement_external_id.clone(),
            timestamp: *timestamp,
            replacement_text: replacement_text.clone(),
        },
        InteractionEvent::Query { event_id, query_id, timestamp, text, expected } =>
            InteractionEvent::Query {
                event_id: event_id.clone(),
                query_id: query_id.clone(),
                timestamp: *timestamp,
                text: text.clone(),
                expected: ExpectedRelevance {
                    relevant_external_ids: clone_texts(&expected.relevant_external_ids),
                    irrelevant_external_ids: clone_texts(&expected.irrelevant_external_ids),
                },
            },
    }
}

fn event_parts(e: &InteractionEvent) -> (r: (Timestamp, String))
    ensures
        r.0 == event_time(event_view(*e)),
        r.1@ == event_name(event_view(*e)),
{
    match e {
        InteractionEvent::Remember { event_id, timestamp, .. } => (*timestamp, event_id.clone()),
        InteractionEvent::Correct { event_id, timestamp, .. } => (*timestamp, event_id.clone()),
        InteractionEvent::Query { event_id, timestamp, .. } => (*timestamp, event_id.clone()),
    }
}

proof fn lemma_text_id_push(events: Seq<EventView>, e: EventView, key: TextView)
    ensures
        text_id_for(events.push(e), key) == if stored_external_id(e) == Some(key) {
            Some(embedding_text_id(event_name(e)))
        } else {
            text_id_for(events, key)
        },
{
    assert(events.push(e).drop_last() =~= events);
}

/// The events scripted before the query, and the embedding text id of every stored turn.
fn script_events(
    fixture: &String,
    turns: &Vec<SourceTurn>,
    perm: &Vec<usize>,
    correction: &Option<Correction>,
) -> (r: (Vec<InteractionEvent>, TextMap<String>))
    requires
        forall|k: int| 0 <= k < perm@.len() ==> #[trigger] perm@[k] < turns@.len(),
    ensures
        events_view(r.0@) == scripted_events(
            fixture@,
            arrange(turns_view(turns@), perm@),
            opt_correction_view(*correction),
        ),
        r.1.wf(),
        forall|key: TextView| #[trigger] opt_text_view(r.1.at(key)) == text_id_for(events_view(r.0@), key),
{
    let ghost ordered = arrange(turns_view(turns@), perm@);
    let ghost skip: Option<TextView> = match correction {
        Some(c) => Some(c.replacement_external_id@),
        None => None,
    };
    let mut events: Vec<InteractionEvent> = Vec::new();
    let mut ids: TextMap<String> = TextMap::new();
    proof {
        assert forall|key: TextView| #[trigger] opt_text_view(ids.at(key)) == text_id_for(events_view(events@), key) by {
        }
    }
    let mut k: usize = 0;
    while k < perm.len()
        invariant
            k <= perm@.len(),
            forall|j: int| 0 <= j < perm@.len() ==> #[trigger] perm@[j] < turns@.len(),
            ordered == arrange(turns_view(turns@), perm@),
            skip == (match correction {
                Some(c) => Some(c.replacement_external_id@),
                None => None::<TextView>,
            }),
            events_view(events@) == remember_events(fixture@, ordered, skip, k as int),
            events@.len() <= k,
            ids.wf(),
            forall|key: TextView| #[trigger] opt_text_view(ids.at(key)) == text_id_for(events_view(events@), key),
        decreases perm@.len() - k,
    {
        let t = &turns[perm[k]];
        assert(ordered[k as int] == turns_view(turns@)[perm@[k as int] as int]);
        let skipped = match correction {
            Some(c) => c.replacement_external_id == t.external_id,
            None => false,
        };
        if !skipped {
            let number = padded4_text(events.len() + 1);
            let mut event_id = text_with(fixture.as_str(), ":remember:");
            event_id.append(number.as_str());
            let text_id = text_with(event_id.as_str(), ":embedding");
            let ghost before = events_view(events@);
            let ghost old_ids = ids;
            ids.insert(t.external_id.as_str(), text_id);
            events.push(
                InteractionEvent::Remember {
                    event_id,
                    external_id: t.external_id.clone(),
                    timestamp: t.timestamp,
                    text: t.text.clone(),
                },
            );
            assert(events_view(events@) =~= before.push(event_view(events@.last())));
            assert forall|key: TextView| #[trigger] opt_text_view(ids.at(key)) == text_id_for(events_view(events@), key) by {
                lemma_text_id_push(before, event_view(events@.last()), key);
                if key != t.external_id@ {
                    assert(ids.at(key) == old_ids.at(key));
                }
            }
        }
        k = k + 1;
    }
    match correction {
        Some(c) => {
            let event_id = text_with(fixture.as_str(), ":correct");
            let text_id = text_with(event_id.as_str(), ":embedding");
            let ghost before = events_view(events@);
            let ghost old_ids = ids;
            ids.insert(c.replacement_external_id.as_str(), text_id);
            events.push(
                InteractionEvent::Correct {
                    event_id,
                    target_external_id: c.target_external_id.clone(),
                    replacement_external_id: c.replacement_external_id.clone(),
                    timestamp: c.timestamp,
                    replacement_text: c.replacement_text.clone(),
                },
            );
            assert(events_view(events@) =~= before.push(event_view(events@.last())));
            assert forall|key: TextView| #[trigger] opt_text_view(ids.at(key)) == text_id_for(events_view(events@), key) by {
                lemma_text_id_push(before, event_view(events@.last()), key);
                if key != c.replacement_external_id@ {
                    assert(ids.at(key) == old_ids.at(key));
                }
            }
        },
        None => {},
    }
    (events, ids)
}

/// The latest instant among the events.
fn latest_event_time(events: &Vec<InteractionEvent>) -> (t: Timestamp)
    requires
        events@.len() > 0,
    ensures
        t == latest_time(events_view(events@)),
{
    let ghost ev = events_view(events@);
    let mut latest = event_parts(&events[0]).0;
    let mut i: usize = 1;
    while i < events.len()
        invariant
            1 <= i <= events@.len(),
            ev == events_view(events@),
            latest == latest_time(ev.subrange(0, i as int)),
        decreases events@.len() - i,
    {
        let t = event_parts(&events[i]).0;
        assert(ev.subrange(0, i + 1).drop_last() =~= ev.subrange(0, i as int));
        latest = later_of(latest, t);
        i = i + 1;
    }
    assert(ev.subrange(0, events@.len() as int) =~= ev);
    latest
}

/// The events ordered by instant, then by id, ties kept in their order.
fn order_events(events: &Vec<InteractionEvent>) -> (out: Vec<InteractionEvent>)
    ensures
        exists|q: Seq<usize>|
            #[trigger] is_sorted_perm(event_times(events_view(events@)), event_names(events_view(events@)), q)
                && events_view(out@) == arrange(events_view(events@), q),
{
    let ghost ev = events_view(events@);
    let mut times: Vec<Timestamp> = Vec::new();
    let mut names: Vec<String> = Vec::new();
    let mut i: usize = 0;
    while i < events.len()
        invariant
            i <= events@.len(),
            ev == events_view(events@),
            times@ == event_times(ev).subrange(0, i as int),
            names@.len() == i,
            text_views(names@) == event_names(ev).subrange(0, i as int),
        decreases events@.len() - i,
    {
        let (t, name) = event_parts(&events[i]);
        let ghost old_names = names@;
        times.push(t);
        names.push(name);
        assert forall|j: int| 0 <= j <= i implies #[trigger] text_views(names@)[j] == event_names(ev)[j] by {
            if j < i {
                assert(names@[j] == old_names[j]);
                assert(text_views(old_names)[j] == event_names(ev).subrange(0, i as int)[j]);
            }
        }
        assert(times@ =~= event_times(ev).subrange(0, i + 1));
        assert(text_views(names@) =~= event_names(ev).subrange(0, i + 1));
        i = i + 1;
    }
    assert(times@ =~= event_times(ev));
    assert(text_views(names@) =~= event_names(ev));
    let perm = sorted_positions(&times, &names);
    let mut out: Vec<InteractionEvent> = Vec::new();
    let mut k: usize = 0;
    while k < perm.len()
        invariant
            k <= perm@.len(),
            ev == events_view(events@),
            is_sorted_perm(event_times(ev), event_names(ev), perm@),
            events_view(out@) == arrange(ev, perm@).subrange(0, k as int),
        decreases perm@.len() - k,
    {
        assert(perm@[k as int] < event_times(ev).len());
        let e = clone_event(&events[perm[k]]);
        let ghost before = events_view(out@);
        out.push(e);
        assert(events_view(out@) =~= before.push(ev[perm@[k as int] as int]));
        assert(events_view(out@) =~= arrange(ev, perm@).subrange(0, k + 1));
        k = k + 1;
    }
    assert(events_view(out@) =~= arrange(ev, perm@));
    out
}

/// The query event of a scenario.
pub open spec fn query_event(
    sel: InstanceSelection,
    query: TextView,
    relevant: Seq<TextView>,
    timestamp: Timestamp,
) -> EventView {
    InteractionEvent::Query {
        event_id: query_event_id(sel.fixture_id@),
        query_id: query_event_id(sel.fixture_id@),
        timestamp,
        text: query,
        expected: ExpectedRelevance {
            relevant_external_ids: relevant,
            irrelevant_external_ids: texts_view(sel.sampled_negative_turn_ids@),
        },
    }
}

/// `c` is the scenario assembled from `script`: the scripted events in order of instant
/// and id, ties kept in their order, then the query at `query_time`.
pub open spec fn assembled_as(
    c: ConvertedScenario,
    sel: InstanceSelection,
    query: TextView,
    relevant: Seq<TextView>,
    script: Seq<EventView>,
    query_time: Timestamp,
) -> bool {
    &&& c.scenario.fixture_id@ == sel.fixture_id@
    &&& c.scenario.namespace@ == "continuity-benchmark:"@ + sel.fixture_id@
    &&& c.scenario.pattern == pattern_of(sel.scenario_kind)
    &&& exists|q: Seq<usize>|
        #[trigger] is_sorted_perm(event_times(script), event_names(script), q)
            && events_view(c.scenario.events@) == arrange(script, q).push(
            query_event(sel, query, relevant, query_time),
        )
    &&& c.text_id_by_external_id.wf()
    &&& forall|key: TextView| #[trigger]
        opt_text_view(c.text_id_by_external_id.at(key)) == text_id_for(script, key)
    &&& c.query_text_id@ == embedding_text_id(query_event_id(sel.fixture_id@))
}

/// What assembling the scripted events gives: an error when there is no event or the
/// query instant cannot be written, the scenario otherwise.
pub open spec fn assembled(
    sel: InstanceSelection,
    query: TextView,
    relevant: Seq<TextView>,
    script: Seq<EventView>,
    query_source: Option<Timestamp>,
    r: Result<ConvertedScenario, ConversionError>,
) -> bool {
    if script.len() == 0 {
        r matches Err(x) && error_view(x) == ConversionError::NoSourceTurn::<TextView> {
            fixture_id: sel.fixture_id@,
        }
    } else {
        let base = query_base(query_source, latest_time(script));
        if !shift_fits(base, 1) {
            r matches Err(x) && error_view(x) == ConversionError::TimestampOverflow::<TextView> {
                fixture_id: sel.fixture_id@,
            }
        } else {
            r matches Ok(c) && assembled_as(
                c,
                sel,
                query,
                relevant,
                script,
                shifted(base, 1),
            )
        }
    }
}

/// What assembling a scenario from `turns` gives.
pub open spec fn assembly_outcome(
    sel: InstanceSelection,
    query: TextView,
    turns: Seq<TurnView>,
    relevant: Seq<TextView>,
    correction: Option<CorrectionView>,
    query_source: Option<Timestamp>,
    r: Result<ConvertedScenario, ConversionError>,
) -> bool {
    match assemble_precheck(sel, query, relevant) {
        Err(e) => r matches Err(x) && error_view(x) == e,
        Ok(()) => exists|p: Seq<usize>|
            #[trigger] is_sorted_perm(turn_times(turns), turn_names(turns), p) && assembled(
                sel,
                query,
                relevant,
                scripted_events(sel.fixture_id@, arrange(turns, p), correction),
                query_source,
                r,
            ),
    }
}

proof fn lemma_contains_text_view(v: Seq<String>, x: TextView)
    ensures
        seq_contains_text(v, x) == texts_view(v).contains(x),
{
    if seq_contains_text(v, x) {
        let i = choose|i: int| 0 <= i < v.len() && #[trigger] v[i]@ == x;
        assert(texts_view(v)[i] == x);
    }
    if texts_view(v).contains(x) {
        let i = choose|i: int| 0 <= i < texts_view(v).len() && texts_view(v)[i] == x;
        assert(v[i]@ == x);
    }
}

fn turn_order(turns: &Vec<SourceTurn>) -> (perm: Vec<usize>)
    ensures
        is_sorted_perm(turn_times(turns_view(turns@)), turn_names(turns_view(turns@)), perm@),
{
    let ghost tv = turns_view(turns@);
    let mut times: Vec<Timestamp> = Vec::new();
    let mut names: Vec<String> = Vec::new();
    let mut i: usize = 0;
    while i < turns.len()
        invariant
            i <= turns@.len(),
            tv == turns_view(turns@),
            times@ == turn_times(tv).subrange(0, i as int),
            names@.len() == i,
            text_views(names@) == turn_names(tv).subrange(0, i as int),
        decreases turns@.len() - i,
    {
        let ghost old_names = names@;
        times.push(turns[i].timestamp);
        names.push(turns[i].external_id.clone());
        assert(times@ =~= turn_times(tv).subrange(0, i + 1));
        assert forall|j: int| 0 <= j <= i implies #[trigger] text_views(names@)[j] == turn_names(tv)[j] by {
            if j < i {
                assert(names@[j] == old_names[j]);
                assert(text_views(old_names)[j] == turn_names(tv).subrange(0, i as int)[j]);
            }
        }
        assert(text_views(names@) =~= turn_names(tv).subrange(0, i + 1));
        i = i + 1;
    }
    assert(times@ =~= turn_times(tv));
    assert(text_views(names@) =~= turn_names(tv));
    sorted_positions(&times, &names)
}

/// Assembles the scenario of a selected row from its admitted turns: the turns are
/// remembered in order of instant and external id (the replacement turn of a
/// correction excepted), the correction follows, the events are ordered by instant and
/// id, and the query comes one second after the later of its own date and the last
/// event.
pub fn assemble_scenario(
    sel: &InstanceSelection,
    query: &str,
    turns: &Vec<SourceTurn>,
    relevant_ids: &Vec<String>,
    correction: &Option<Correction>,
    query_source_timestamp: Option<Timestamp>,
) -> (r: Result<ConvertedScenario, ConversionError>)
    ensures
        assembly_outcome(
            *sel,
            query@,
            turns_view(turns@),
            texts_view(relevant_ids@),
            opt_correction_view(*correction),
            query_source_timestamp,
            r,
        ),
{
    if query.unicode_len() == 0 {
        return Err(
            ConversionError::EmptySourceText {
                fixture_id: sel.fixture_id.clone(),
                source_id: string_of("query"),
            },
        );
    }
    if sel.scenario_kind == ScenarioKind::Abstention {
        if !contains_text(&sel.sampled_negative_turn_ids, sel.similarity_nearer_external_id.as_str()) {
            return Err(ConversionError::NearerNotNegative { fixture_id: sel.fixture_id.clone() });
        }
    } else if !contains_text(relevant_ids, sel.similarity_nearer_external_id.as_str()) {
        proof {
            lemma_contains_text_view(relevant_ids@, sel.similarity_nearer_external_id@);
        }
        return Err(ConversionError::NearerNotRelevant { fixture_id: sel.fixture_id.clone() });
    }
    proof {
        lemma_contains_text_view(relevant_ids@, sel.similarity_nearer_external_id@);
    }
    let perm = turn_order(turns);
    proof {
        assert(forall|k: int| 0 <= k < perm@.len() ==> #[trigger] perm@[k] < turn_times(turns_view(turns@)).len());
    }
    let (script, ids) = script_events(&sel.fixture_id, turns, &perm, correction);
    let ghost sv = events_view(script@);
    if script.len() == 0 {
        return Err(ConversionError::NoSourceTurn { fixture_id: sel.fixture_id.clone() });
    }
    let latest = latest_event_time(&script);
    let base = match query_source_timestamp {
        Some(q) => later_of(q, latest),
        None => latest,
    };
    let query_time = match seconds_after(base, 1) {
        Some(t) => t,
        None => {
            return Err(ConversionError::TimestampOverflow { fixture_id: sel.fixture_id.clone() });
        },
    };
    let mut events = order_events(&script);
    let query_id = text_with(sel.fixture_id.as_str(), ":query");
    let query_text_id = text_with(query_id.as_str(), ":embedding");
    let ghost before = events_view(events@);
    events.push(
        InteractionEvent::Query {
            event_id: query_id.clone(),
            query_id,
            timestamp: query_time,
            text: string_of(query),
            expected: ExpectedRelevance {
                relevant_external_ids: clone_texts(relevant_ids),
                irrelevant_external_ids: clone_texts(&sel.sampled_negative_turn_ids),
            },
        },
    );
    assert(events_view(events@) =~= before.push(query_event(*sel, query@, texts_view(relevant_ids@), query_time)));
    let scenario = ContinuityScenario {
        fixture_id: sel.fixture_id.clone(),
        namespace: text_with("continuity-benchmark:", sel.fixture_id.as_str()),
        pattern: sel.scenario_kind.pattern(),
        events,
    };
    proof {
        reveal_strlit("continuity-benchmark:");
    }
    Ok(ConvertedScenario { scenario, text_id_by_external_id: ids, query_text_id })
}

/// Assembling is deterministic: two scenarios assembled from the same selection, query,
/// turns, labels, correction and query date have the same identity, the same events in
/// the same order, the same embedding text ids and the same query text id.
pub proof fn lemma_assembly_deterministic(
    sel: InstanceSelection,
    query: TextView,
    turns: Seq<TurnView>,
    relevant: Seq<TextView>,
    correction: Option<CorrectionView>,
    query_source: Option<Timestamp>,
    c1: ConvertedScenario,
    c2: ConvertedScenario,
)
    requires
        assembly_outcome(sel, query, turns, relevant, correction, query_source, Ok(c1)),
        assembly_outcome(sel, query, turns, relevant, correction, query_source, Ok(c2)),
    ensures
        c1.scenario.fixture_id@ == c2.scenario.fixture_id@,
        c1.scenario.namespace@ == c2.scenario.namespace@,
        c1.scenario.pattern == c2.scenario.pattern,
        events_view(c1.scenario.events@) == events_view(c2.scenario.events@),
        forall|key: TextView|
            #[trigger] opt_text_view(c1.text_id_by_external_id.at(key)) == opt_text_view(
                c2.text_id_by_external_id.at(key),
            ),
        c1.query_text_id@ == c2.query_text_id@,
{
    let p1 = choose|p: Seq<usize>|
        #[trigger] is_sorted_perm(turn_times(turns), turn_names(turns), p) && assembled(
            sel,
            query,
            relevant,
            scripted_events(sel.fixture_id@, arrange(turns, p), correction),
            query_source,
            Ok(c1),
        );
    let p2 = choose|p: Seq<usize>|
        #[trigger] is_sorted_perm(turn_times(turns), turn_names(turns), p) && assembled(
            sel,
            query,
            relevant,
            scripted_events(sel.fixture_id@, arrange(turns, p), correction),
            query_source,
            Ok(c2),
        );
    lemma_sorted_perm_unique(turn_times(turns), turn_names(turns), p1, p2);
    let script = scripted_events(sel.fixture_id@, arrange(turns, p1), correction);
    let base = query_base(query_source, latest_time(script));
    let qt = shifted(base, 1);
    assert(assembled_as(c1, sel, query, relevant, script, qt));
    assert(assembled_as(c2, sel, query, relevant, script, qt));
    let q1 = choose|q: Seq<usize>|
        #[trigger] is_sorted_perm(event_times(script), event_names(script), q) && events_view(
            c1.scenario.events@,
        ) == arrange(script, q).push(query_event(sel, query, relevant, qt));
    let q2 = choose|q: Seq<usize>|
        #[trigger] is_sorted_perm(event_times(script), event_names(script), q) && events_view(
            c2.scenario.events@,
        ) == arrange(script, q).push(query_event(sel, query, relevant, qt));
    lemma_sorted_perm_unique(event_times(script), event_names(script), q1, q2);
}

/// Every stored turn of a scenario's events has an embedding text id.
pub open spec fn embedding_ids_complete(c: ConvertedScenario) -> bool {
    forall|k: int|
        0 <= k < c.scenario.events@.len() ==> match stored_external_id(
            #[trigger] event_view(c.scenario.events@[k]),
        ) {
            Some(x) => c.text_id_by_external_id.at(x) is Some,
            None => true,
        }
}

proof fn lemma_text_id_present(events: Seq<EventView>, j: int, x: TextView)
    requires
        0 <= j < events.len(),
        stored_external_id(events[j]) == Some(x),
    ensures
        text_id_for(events, x) is Some,
    decreases events.len(),
{
    if j < events.len() - 1 && stored_external_id(events.last()) != Some(x) {
        assert(events.drop_last()[j] == events[j]);
        lemma_text_id_present(events.drop_last(), j, x);
    }
}

/// An assembled scenario has a well-formed text id map in which every stored turn of
/// its events has an embedding text id.
pub proof fn lemma_assembled_ids_complete(
    sel: InstanceSelection,
    query: TextView,
    turns: Seq<TurnView>,
    relevant: Seq<TextView>,
    correction: Option<CorrectionView>,
    query_source: Option<Timestamp>,
    c: ConvertedScenario,
)
    requires
        assembly_outcome(sel, query, turns, relevant, correction, query_source, Ok(c)),
    ensures
        c.text_id_by_external_id.wf(),
        embedding_ids_complete(c),
{
    let p = choose|p: Seq<usize>|
        #[trigger] is_sorted_perm(turn_times(turns), turn_names(turns), p) && assembled(
            sel,
            query,
            relevant,
            scripted_events(sel.fixture_id@, arrange(turns, p), correction),
            query_source,
            Ok(c),
        );
    let script = scripted_events(sel.fixture_id@, arrange(turns, p), correction);
    let base = query_base(query_source, latest_time(script));
    let qt = shifted(base, 1);
    assert(assembled_as(c, sel, query, relevant, script, qt));
    let q = choose|q: Seq<usize>|
        #[trigger] is_sorted_perm(event_times(script), event_names(script), q) && events_view(
            c.scenario.events@,
        ) == arrange(script, q).push(query_event(sel, query, relevant, qt));
    let ev = events_view(c.scenario.events@);
    assert forall|k: int|
        0 <= k < c.scenario.events@.len() implies match stored_external_id(
            #[trigger] event_view(c.scenario.events@[k]),
        ) {
            Some(x) => c.text_id_by_external_id.at(x) is Some,
            None => true,
        } by {
        assert(ev[k] == event_view(c.scenario.events@[k]));
        assert(ev.len() == q.len() + 1);
        if k == q.len() {
            assert(ev[k] == query_event(sel, query, relevant, qt));
        }
        if k < q.len() && stored_external_id(ev[k]) is Some {
            let x = stored_external_id(ev[k])->0;
            assert(q[k] < event_times(script).len());
            assert(ev[k] == script[q[k] as int]);
            lemma_text_id_present(script, q[k] as int, x);
            assert(opt_text_view(c.text_id_by_external_id.at(x)) == text_id_for(script, x));
        }
    }
}

proof fn lemma_latest_time_bounds(events: Seq<EventView>, j: int)
    requires
        0 <= j < events.len(),
    ensures
        !ts_lt(latest_time(events), event_time(events[j])),
    decreases events.len(),
{
    if events.len() > 1 {
        if j < events.len() - 1 {
            assert(events.drop_last()[j] == events[j]);
            lemma_latest_time_bounds(events.drop_last(), j);
        }
    }
}

/// The events of a scenario come in order of instant, and the query, last, comes
/// strictly after every other one.
pub open spec fn timeline_ordered(c: ConvertedScenario) -> bool {
    let ev = events_view(c.scenario.events@);
    &&& ev.len() >= 2
    &&& ev.last() is Query
    &&& forall|a: int, b: int|
        0 <= a < b < ev.len() - 1 ==> !ts_lt(event_time(#[trigger] ev[b]), event_time(#[trigger] ev[a]))
    &&& forall|a: int| 0 <= a < ev.len() - 1 ==> ts_lt(event_time(#[trigger] ev[a]), event_time(ev.last()))
}

/// The timeline of an assembled scenario: its scripted events come in order of instant,
/// and the query, last, comes strictly after every one of them.
pub proof fn lemma_assembled_timeline(
    sel: InstanceSelection,
    query: TextView,
    turns: Seq<TurnView>,
    relevant: Seq<TextView>,
    correction: Option<CorrectionView>,
    query_source: Option<Timestamp>,
    c: ConvertedScenario,
)
    requires
        assembly_outcome(sel, query, turns, relevant, correction, query_source, Ok(c)),
    ensures
        timeline_ordered(c),
{
    let p = choose|p: Seq<usize>|
        #[trigger] is_sorted_perm(turn_times(turns), turn_names(turns), p) && assembled(
            sel,
            query,
            relevant,
            scripted_events(sel.fixture_id@, arrange(turns, p), correction),
            query_source,
            Ok(c),
        );
    let script = scripted_events(sel.fixture_id@, arrange(turns, p), correction);
    let latest = latest_time(script);
    let base = query_base(query_source, latest);
    let qt = shifted(base, 1);
    assert(assembled_as(c, sel, query, relevant, script, qt));
    let q = choose|q: Seq<usize>|
        #[trigger] is_sorted_perm(event_times(script), event_names(script), q) && events_view(
            c.scenario.events@,
        ) == arrange(script, q).push(query_event(sel, query, relevant, qt));
    let ev = events_view(c.scenario.events@);
    assert(ev.len() == q.len() + 1);
    assert(ev.last() == query_event(sel, query, relevant, qt));
    assert forall|a: int, b: int| 0 <= a < b < c.scenario.events@.len() - 1 implies !ts_lt(
        event_time(#[trigger] ev[b]),
        event_time(#[trigger] ev[a]),
    ) by {
        assert(q[a] < event_times(script).len() && q[b] < event_times(script).len());
        assert(ev[a] == script[q[a] as int]);
        assert(ev[b] == script[q[b] as int]);
        assert(crate::order::rank_lt(event_times(script), event_names(script), q[a] as int, q[b] as int));
    }
    assert forall|a: int| 0 <= a < c.scenario.events@.len() - 1 implies ts_lt(
        event_time(#[trigger] ev[a]),
        event_time(ev.last()),
    ) by {
        assert(q[a] < event_times(script).len());
        assert(ev[a] == script[q[a] as int]);
        lemma_latest_time_bounds(script, q[a] as int);
    }
}

proof fn lemma_latest_time_attained(events: Seq<EventView>)
    requires
        events.len() >= 1,
    ensures
        exists|i: int| 0 <= i < events.len() && event_time(#[trigger] events[i]) == latest_time(events),
    decreases events.len(),
{
    if events.len() > 1 {
        lemma_latest_time_attained(events.drop_last());
        let i = choose|i: int|
            0 <= i < events.drop_last().len() && event_time(#[trigger] events.drop_last()[i]) == latest_time(
                events.drop_last(),
            );
        assert(events[i] == events.drop_last()[i]);
        assert(event_time(events[events.len() - 1]) == event_time(events.last()));
    } else {
        assert(event_time(events[0]) == latest_time(events));
    }
}

/// The shape of an assembled scenario: its scripted events come ordered by instant and,
/// at equal instants, by event id; then comes the query, under the id
/// `{fixture id}:query`, with the question, the relevant ids and the sampled negatives,
/// one second after the later of the last scripted event and the question's own date.
pub proof fn lemma_assembled_query_last(
    sel: InstanceSelection,
    query: TextView,
    turns: Seq<TurnView>,
    relevant: Seq<TextView>,
    correction: Option<CorrectionView>,
    query_source: Option<Timestamp>,
    c: ConvertedScenario,
)
    requires
        assembly_outcome(sel, query, turns, relevant, correction, query_source, Ok(c)),
    ensures
        ({
            let ev = events_view(c.scenario.events@);
            let n = ev.len();
            &&& n >= 2
            &&& forall|a: int, b: int|
                0 <= a < b < n - 1 ==> !ts_lt(event_time(#[trigger] ev[b]), event_time(#[trigger] ev[a])) && (
                event_time(ev[a]) == event_time(ev[b]) ==> !text_lt(event_name(ev[b]), event_name(ev[a])))
            &&& ev[n - 1] == query_event(
                sel,
                query,
                relevant,
                shifted(query_base(query_source, event_time(ev[n - 2])), 1),
            )
        }),
        c.scenario.fixture_id@ == sel.fixture_id@,
        c.scenario.namespace@ == "continuity-benchmark:"@ + sel.fixture_id@,
{
    lemma_assembled_timeline(sel, query, turns, relevant, correction, query_source, c);
    let p = choose|p: Seq<usize>|
        #[trigger] is_sorted_perm(turn_times(turns), turn_names(turns), p) && assembled(
            sel,
            query,
            relevant,
            scripted_events(sel.fixture_id@, arrange(turns, p), correction),
            query_source,
            Ok(c),
        );
    let script = scripted_events(sel.fixture_id@, arrange(turns, p), correction);
    let latest = latest_time(script);
    let qt = shifted(query_base(query_source, latest), 1);
    assert(assembled_as(c, sel, query, relevant, script, qt));
    let q = choose|q: Seq<usize>|
        #[trigger] is_sorted_perm(event_times(script), event_names(script), q) && events_view(
            c.scenario.events@,
        ) == arrange(script, q).push(query_event(sel, query, relevant, qt));
    let ev = events_view(c.scenario.events@);
    let n = ev.len() as int;
    assert(ev.len() == q.len() + 1);
    assert(ev[n - 1] == query_event(sel, query, relevant, qt));
    assert forall|a: int, b: int| 0 <= a < b < n - 1 implies !ts_lt(
        event_time(#[trigger] ev[b]),
        event_time(#[trigger] ev[a]),
    ) && (event_time(ev[a]) == event_time(ev[b]) ==> !text_lt(event_name(ev[b]), event_name(ev[a]))) by {
        assert(q[a] < event_times(script).len() && q[b] < event_times(script).len());
        assert(ev[a] == script[q[a] as int]);
        assert(ev[b] == script[q[b] as int]);
        assert(crate::order::rank_lt(event_times(script), event_names(script), q[a] as int, q[b] as int));
        if event_time(ev[a]) == event_time(ev[b]) && text_lt(event_name(ev[b]), event_name(ev[a])) {
            crate::order::lemma_text_lt_asymmetric(event_name(ev[b]), event_name(ev[a]));
        }
    }
    lemma_latest_time_attained(script);
    let i = choose|i: int| 0 <= i < script.len() && event_time(#[trigger] script[i]) == latest;
    lemma_sorted_perm_covers(event_times(script), event_names(script), q, i);
    let k = choose|k: int| 0 <= k < q.len() && q[k] == i;
    assert(ev[k] == script[i]);
    assert(q[n - 2] < event_times(script).len());
    assert(ev[n - 2] == script[q[n - 2] as int]);
    lemma_latest_time_bounds(script, q[n - 2] as int);
    if k < n - 2 {
        assert(!ts_lt(event_time(ev[n - 2]), event_time(ev[k])));
    }
    assert(event_time(ev[n - 2]) == latest);
}

/// The event a correction scripts.
pub open spec fn correct_event(fixture: TextView, cv: CorrectionView) -> EventView {
    InteractionEvent::Correct {
        event_id: correct_event_id(fixture),
        target_external_id: cv.target_external_id,
        replacement_external_id: cv.replacement_external_id,
        timestamp: cv.timestamp,
        replacement_text: cv.replacement_text,
    }
}

proof fn lemma_remember_events_shape(fixture: TextView, ordered: Seq<TurnView>, skip: Option<TextView>, n: int)
    ensures
        forall|i: int|
            0 <= i < remember_events(fixture, ordered, skip, n).len() ==> (#[trigger] remember_events(
                fixture,
                ordered,
                skip,
                n,
            )[i] matches InteractionEvent::Remember { external_id, .. } && skip != Some(external_id)),
    decreases n,
{
    if n > 0 {
        lemma_remember_events_shape(fixture, ordered, skip, n - 1);
    }
}

/// What an assembled scenario scripts for a correction: exactly one correction event,
/// the one the correction describes, and no remember event for the replacement turn.
pub proof fn lemma_assembled_correction(
    sel: InstanceSelection,
    query: TextView,
    turns: Seq<TurnView>,
    relevant: Seq<TextView>,
    cv: CorrectionView,
    query_source: Option<Timestamp>,
    c: ConvertedScenario,
)
    requires
        assembly_outcome(sel, query, turns, relevant, Some(cv), query_source, Ok(c)),
    ensures
        ({
            let ev = events_view(c.scenario.events@);
            &&& exists|k: int| 0 <= k < ev.len() - 1 && #[trigger] ev[k] == correct_event(sel.fixture_id@, cv)
            &&& forall|k: int| 0 <= k < ev.len() && #[trigger] ev[k] is Correct ==> ev[k] == correct_event(sel.fixture_id@, cv)
            &&& forall|k1: int, k2: int|
                0 <= k1 < ev.len() && 0 <= k2 < ev.len() && #[trigger] ev[k1] is Correct && #[trigger] ev[k2] is Correct
                    ==> k1 == k2
            &&& forall|k: int|
                0 <= k < ev.len() ==> !(#[trigger] ev[k] matches InteractionEvent::Remember { external_id, .. }
                    && external_id == cv.replacement_external_id)
        }),
{
    let p = choose|p: Seq<usize>|
        #[trigger] is_sorted_perm(turn_times(turns), turn_names(turns), p) && assembled(
            sel,
            query,
            relevant,
            scripted_events(sel.fixture_id@, arrange(turns, p), Some(cv)),
            query_source,
            Ok(c),
        );
    let ordered = arrange(turns, p);
    let script = scripted_events(sel.fixture_id@, ordered, Some(cv));
    let rem = remember_events(sel.fixture_id@, ordered, Some(cv.replacement_external_id), ordered.len() as int);
    lemma_remember_events_shape(sel.fixture_id@, ordered, Some(cv.replacement_external_id), ordered.len() as int);
    assert(script == rem.push(correct_event(sel.fixture_id@, cv)));
    let latest = latest_time(script);
    let qt = shifted(query_base(query_source, latest), 1);
    assert(assembled_as(c, sel, query, relevant, script, qt));
    let q = choose|q: Seq<usize>|
        #[trigger] is_sorted_perm(event_times(script), event_names(script), q) && events_view(
            c.scenario.events@,
        ) == arrange(script, q).push(query_event(sel, query, relevant, qt));
    let ev = events_view(c.scenario.events@);
    assert(ev.len() == q.len() + 1);
    assert forall|k: int| 0 <= k < ev.len() - 1 implies #[trigger] ev[k] == script[q[k] as int] by {
        assert(q[k] < event_times(script).len());
    }
    let last = rem.len() as int;
    lemma_sorted_perm_covers(event_times(script), event_names(script), q, last);
    let kc = choose|k: int| 0 <= k < q.len() && q[k] == last;
    assert(ev[kc] == correct_event(sel.fixture_id@, cv));
    assert forall|k: int| 0 <= k < ev.len() && #[trigger] ev[k] is Correct implies ev[k] == correct_event(
        sel.fixture_id@,
        cv,
    ) by {
        if k < ev.len() - 1 {
            assert(ev[k] == script[q[k] as int]);
            if q[k] < last {
                assert(rem[q[k] as int] is Remember);
            }
        }
    }
    assert forall|k: int| 0 <= k < ev.len() implies !(#[trigger] ev[k] matches InteractionEvent::Remember {
        external_id,
        ..
    } && external_id == cv.replacement_external_id) by {
        if k < ev.len() - 1 {
            assert(ev[k] == script[q[k] as int]);
            if q[k] < last {
                assert(rem[q[k] as int] == script[q[k] as int]);
            }
        }
    }
    assert forall|k1: int, k2: int| 0 <= k1 < ev.len() && 0 <= k2 < ev.len() && #[trigger] ev[k1] is Correct
        && #[trigger] ev[k2] is Correct implies k1 == k2 by {
        if k1 != k2 && k1 < ev.len() - 1 && k2 < ev.len() - 1 {
            assert(q[k1] < script.len() && q[k2] < script.len());
            assert(ev[k1] == script[q[k1] as int] && ev[k2] == script[q[k2] as int]);
            if q[k1] < last {
                assert(rem[q[k1] as int] is Remember);
            }
            if q[k2] < last {
                assert(rem[q[k2] as int] is Remember);
            }
            if k1 < k2 {
                lemma_rank_irreflexive_pair(event_times(script), event_names(script), q[k1] as int, q[k2] as int);
            } else {
                lemma_rank_irreflexive_pair(event_times(script), event_names(script), q[k2] as int, q[k1] as int);
            }
        }
    }
}

/// A remember event that stores the turn `t` as it is.
pub open spec fn remembers(e: EventView, t: TurnView) -> bool {
    e matches InteractionEvent::Remember { external_id, timestamp, text, .. } && external_id
        == t.external_id && timestamp == t.timestamp && text == t.text
}

proof fn lemma_remember_events_cover(
    fixture: TextView,
    ordered: Seq<TurnView>,
    skip: Option<TextView>,
    n: int,
    j: int,
)
    requires
        0 <= j < n <= ordered.len(),
        skip != Some(ordered[j].external_id),
    ensures
        exists|m: int|
            0 <= m < remember_events(fixture, ordered, skip, n).len() && #[trigger] remembers(
                remember_events(fixture, ordered, skip, n)[m],
                ordered[j],
            ),
    decreases n,
{
    let prev = remember_events(fixture, ordered, skip, n - 1);
    let cur = remember_events(fixture, ordered, skip, n);
    if j < n - 1 {
        lemma_remember_events_cover(fixture, ordered, skip, n - 1, j);
        let m = choose|m: int| 0 <= m < prev.len() && #[trigger] remembers(prev[m], ordered[j]);
        if skip != Some(ordered[n - 1].external_id) {
            assert(cur[m] == prev[m]);
        }
        assert(remembers(cur[m], ordered[j]));
    } else {
        assert(remembers(cur[prev.len() as int], ordered[j]));
    }
}

/// Every turn an assembled scenario is given, the replacement of its correction
/// excepted, is remembered by one of its scripted events, with its own text and instant.
pub proof fn lemma_assembled_turns_remembered(
    sel: InstanceSelection,
    query: TextView,
    turns: Seq<TurnView>,
    relevant: Seq<TextView>,
    correction: Option<CorrectionView>,
    query_source: Option<Timestamp>,
    c: ConvertedScenario,
    i: int,
)
    requires
        assembly_outcome(sel, query, turns, relevant, correction, query_source, Ok(c)),
        0 <= i < turns.len(),
        !(correction matches Some(cv) && cv.replacement_external_id == turns[i].external_id),
    ensures
        exists|k: int|
            0 <= k < events_view(c.scenario.events@).len() - 1 && #[trigger] remembers(
                events_view(c.scenario.events@)[k],
                turns[i],
            ),
{
    let p = choose|p: Seq<usize>|
        #[trigger] is_sorted_perm(turn_times(turns), turn_names(turns), p) && assembled(
            sel,
            query,
            relevant,
            scripted_events(sel.fixture_id@, arrange(turns, p), correction),
            query_source,
            Ok(c),
        );
    let ordered = arrange(turns, p);
    let script = scripted_events(sel.fixture_id@, ordered, correction);
    let skip = match correction {
        Some(cv) => Some(cv.replacement_external_id),
        None => None,
    };
    let rem = remember_events(sel.fixture_id@, ordered, skip, ordered.len() as int);
    lemma_sorted_perm_covers(turn_times(turns), turn_names(turns), p, i);
    let j = choose|j: int| 0 <= j < p.len() && p[j] == i;
    assert(ordered[j] == turns[i]);
    lemma_remember_events_cover(sel.fixture_id@, ordered, skip, ordered.len() as int, j);
    let m = choose|m: int| 0 <= m < rem.len() && #[trigger] remembers(rem[m], ordered[j]);
    assert(script[m] == rem[m]);
    let latest = latest_time(script);
    let qt = shifted(query_base(query_source, latest), 1);
    assert(assembled_as(c, sel, query, relevant, script, qt));
    let q = choose|q: Seq<usize>|
        #[trigger] is_sorted_perm(event_times(script), event_names(script), q) && events_view(
            c.scenario.events@,
        ) == arrange(script, q).push(query_event(sel, query, relevant, qt));
    let ev = events_view(c.scenario.events@);
    lemma_sorted_perm_covers(event_times(script), event_names(script), q, m);
    let k = choose|k: int| 0 <= k < q.len() && q[k] == m;
    assert(ev[k] == script[m]);
    assert(remembers(ev[k], turns[i]));
}

/// No two turns share an external id.
pub open spec fn distinct_turn_ids(turns: Seq<TurnView>) -> bool {
    forall|a: int, b: int| 0 <= a < b < turns.len() ==> #[trigger] turns[a].external_id != #[trigger] turns[b].external_id
}

proof fn lemma_remember_events_store(fixture: TextView, ordered: Seq<TurnView>, skip: Option<TextView>, n: int)
    requires
        0 <= n <= ordered.len(),
    ensures
        forall|m: int|
            #![trigger remember_events(fixture, ordered, skip, n)[m]]
            0 <= m < remember_events(fixture, ordered, skip, n).len() ==> exists|j: int|
                0 <= j < n && stored_external_id(remember_events(fixture, ordered, skip, n)[m]) == Some(
                    #[trigger] ordered[j].external_id,
                ),
        distinct_turn_ids(ordered) ==> forall|m1: int, m2: int|
            0 <= m1 < m2 < remember_events(fixture, ordered, skip, n).len() ==> stored_external_id(
                #[trigger] remember_events(fixture, ordered, skip, n)[m1],
            ) != stored_external_id(#[trigger] remember_events(fixture, ordered, skip, n)[m2]),
    decreases n,
{
    if n > 0 {
        lemma_remember_events_store(fixture, ordered, skip, n - 1);
        let prev = remember_events(fixture, ordered, skip, n - 1);
        let cur = remember_events(fixture, ordered, skip, n);
        assert forall|m: int| #![trigger cur[m]] 0 <= m < cur.len() implies exists|j: int|
            0 <= j < n && stored_external_id(cur[m]) == Some(#[trigger] ordered[j].external_id) by {
            if m < prev.len() {
                assert(cur[m] == prev[m]);
                let j = choose|j: int| 0 <= j < n - 1 && stored_external_id(prev[m]) == Some(#[trigger] ordered[j].external_id);
                assert(stored_external_id(cur[m]) == Some(ordered[j].external_id));
            } else {
                assert(stored_external_id(cur[m]) == Some(ordered[n - 1].external_id));
            }
        }
        if distinct_turn_ids(ordered) {
            assert forall|m1: int, m2: int| 0 <= m1 < m2 < cur.len() implies stored_external_id(
                #[trigger] cur[m1],
            ) != stored_external_id(#[trigger] cur[m2]) by {
                if m2 < prev.len() {
                    assert(cur[m1] == prev[m1] && cur[m2] == prev[m2]);
                } else {
                    assert(cur[m1] == prev[m1]);
                    let j = choose|j: int| 0 <= j < n - 1 && stored_external_id(prev[m1]) == Some(#[trigger] ordered[j].external_id);
                    assert(ordered[j].external_id != ordered[n - 1].external_id);
                }
            }
        }
    }
}

/// In an assembled scenario whose turns have distinct external ids, each turn's id is
/// stored by exactly one event, and the scenario has at most one correction event.
pub proof fn lemma_assembled_one_event_per_turn(
    sel: InstanceSelection,
    query: TextView,
    turns: Seq<TurnView>,
    relevant: Seq<TextView>,
    correction: Option<CorrectionView>,
    query_source: Option<Timestamp>,
    c: ConvertedScenario,
)
    requires
        assembly_outcome(sel, query, turns, relevant, correction, query_source, Ok(c)),
        distinct_turn_ids(turns),
    ensures
        ({
            let ev = events_view(c.scenario.events@);
            &&& forall|k1: int, k2: int|
                0 <= k1 < k2 < ev.len() && stored_external_id(#[trigger] ev[k1]) is Some ==> stored_external_id(ev[k1])
                    != stored_external_id(#[trigger] ev[k2])
            &&& forall|k1: int, k2: int|
                0 <= k1 < ev.len() && 0 <= k2 < ev.len() && #[trigger] ev[k1] is Correct && #[trigger] ev[k2] is Correct
                    ==> k1 == k2
        }),
{
    let p = choose|p: Seq<usize>|
        #[trigger] is_sorted_perm(turn_times(turns), turn_names(turns), p) && assembled(
            sel,
            query,
            relevant,
            scripted_events(sel.fixture_id@, arrange(turns, p), correction),
            query_source,
            Ok(c),
        );
    let ordered = arrange(turns, p);
    let skip = match correction {
        Some(cv) => Some(cv.replacement_external_id),
        None => None,
    };
    let script = scripted_events(sel.fixture_id@, ordered, correction);
    let rem = remember_events(sel.fixture_id@, ordered, skip, ordered.len() as int);
    assert(distinct_turn_ids(ordered)) by {
        assert forall|a: int, b: int| 0 <= a < b < ordered.len() implies #[trigger] ordered[a].external_id
            != #[trigger] ordered[b].external_id by {
            lemma_rank_irreflexive_pair(turn_times(turns), turn_names(turns), p[a] as int, p[b] as int);
            assert(p[a] < turns.len() && p[b] < turns.len());
            if p[a] < p[b] {
                assert(turns[p[a] as int].external_id != turns[p[b] as int].external_id);
            } else {
                assert(turns[p[b] as int].external_id != turns[p[a] as int].external_id);
            }
        }
    }
    lemma_remember_events_store(sel.fixture_id@, ordered, skip, ordered.len() as int);
    lemma_remember_events_shape(sel.fixture_id@, ordered, skip, ordered.len() as int);
    // Distinct positions of the script store distinct ids.
    assert forall|m1: int, m2: int| 0 <= m1 < script.len() && 0 <= m2 < script.len() && m1 != m2
        && stored_external_id(#[trigger] script[m1]) is Some implies stored_external_id(script[m1])
        != stored_external_id(#[trigger] script[m2]) by {
        match correction {
            None => {
                if m1 < m2 {
                    assert(stored_external_id(rem[m1]) != stored_external_id(rem[m2]));
                } else {
                    assert(stored_external_id(rem[m2]) != stored_external_id(rem[m1]));
                }
            },
            Some(cv) => {
                if m1 < rem.len() && m2 < rem.len() {
                    if m1 < m2 {
                        assert(stored_external_id(rem[m1]) != stored_external_id(rem[m2]));
                    } else {
                        assert(stored_external_id(rem[m2]) != stored_external_id(rem[m1]));
                    }
                } else if m1 < rem.len() {
                    assert(script[m1] == rem[m1]);
                } else {
                    assert(script[m2] == rem[m2]);
                }
            },
        }
    }
    let latest = latest_time(script);
    let qt = shifted(query_base(query_source, latest), 1);
    assert(assembled_as(c, sel, query, relevant, script, qt));
    let q = choose|q: Seq<usize>|
        #[trigger] is_sorted_perm(event_times(script), event_names(script), q) && events_view(
            c.scenario.events@,
        ) == arrange(script, q).push(query_event(sel, query, relevant, qt));
    let ev = events_view(c.scenario.events@);
    let n = ev.len() as int;
    assert(ev.len() == q.len() + 1);
    assert forall|k1: int, k2: int| 0 <= k1 < k2 < ev.len() && stored_external_id(#[trigger] ev[k1]) is Some
        implies stored_external_id(ev[k1]) != stored_external_id(#[trigger] ev[k2]) by {
        if k2 < n - 1 {
            assert(q[k1] < script.len() && q[k2] < script.len());
            assert(ev[k1] == script[q[k1] as int] && ev[k2] == script[q[k2] as int]);
            lemma_rank_irreflexive_pair(event_times(script), event_names(script), q[k1] as int, q[k2] as int);
            assert(stored_external_id(script[q[k1] as int]) != stored_external_id(script[q[k2] as int]));
        }
    }
    assert forall|k1: int, k2: int| 0 <= k1 < ev.len() && 0 <= k2 < ev.len() && #[trigger] ev[k1] is Correct
        && #[trigger] ev[k2] is Correct implies k1 == k2 by {
        if k1 != k2 && k1 < n - 1 && k2 < n - 1 {
            assert(q[k1] < script.len() && q[k2] < script.len());
            assert(ev[k1] == script[q[k1] as int] && ev[k2] == script[q[k2] as int]);
            if q[k1] < rem.len() {
                assert(script[q[k1] as int] == rem[q[k1] as int]);
            }
            if q[k2] < rem.len() {
                assert(script[q[k2] as int] == rem[q[k2] as int]);
            }
            if k1 < k2 {
                lemma_rank_irreflexive_pair(event_times(script), event_names(script), q[k1] as int, q[k2] as int);
            } else {
                lemma_rank_irreflexive_pair(event_times(script), event_names(script), q[k2] as int, q[k1] as int);
            }
        }
    }
}

/// Assembling either succeeds or fails: no inputs both give a scenario and an error.
pub proof fn lemma_assembly_exclusive(
    sel: InstanceSelection,
    query: TextView,
    turns: Seq<TurnView>,
    relevant: Seq<TextView>,
    correction: Option<CorrectionView>,
    query_source: Option<Timestamp>,
    c: ConvertedScenario,
    e: ConversionError,
)
    requires
        assembly_outcome(sel, query, turns, relevant, correction, query_source, Ok(c)),
    ensures
        !assembly_outcome(sel, query, turns, relevant, correction, query_source, Err(e)),
{
    if assembly_outcome(sel, query, turns, relevant, correction, query_source, Err(e)) {
        let p1 = choose|p: Seq<usize>|
            #[trigger] is_sorted_perm(turn_times(turns), turn_names(turns), p) && assembled(
                sel,
                query,
                relevant,
                scripted_events(sel.fixture_id@, arrange(turns, p), correction),
                query_source,
                Ok(c),
            );
        let p2 = choose|p: Seq<usize>|
            #[trigger] is_sorted_perm(turn_times(turns), turn_names(turns), p) && assembled(
                sel,
                query,
                relevant,
                scripted_events(sel.fixture_id@, arrange(turns, p), correction),
                query_source,
                Err(e),
            );
        lemma_sorted_perm_unique(turn_times(turns), turn_names(turns), p1, p2);
    }
}

} // verus!
