//! The texts that a set of converted scenarios embeds, under their text ids, and the
//! similarity ordering each selection asserts.
use vstd::prelude::*;

use crate::assemble::{embedding_ids_complete, ConvertedScenario};
use crate::batch::{convert_selected_rows, lemma_row_ids_complete, row_outcome, rows_bounded, BatchError, fails_first_at};
use crate::conversion::{
    event_view, events_view, opt_text_view, EventView, InteractionEvent, LoCoMoSample,
    LongMemEvalInstance, TextView,
};
use crate::render::{quote, quoted};
use crate::selection::{manifest_admitted, manifest_refused_with, InstanceSelection, SelectionManifest};
use crate::order::{has_text, sorted_unique_texts, strictly_sorted};
use crate::text::{chars_of, is_unicode_whitespace, is_whitespace_char, string_from_chars, string_of};
use crate::conversion::ContinuityScenario;

verus! {

/// A text to embed, under its text id; a query is embedded as written, a stored turn as
/// the memory library renders it (`runtime_memory_embedding_text`).
#[derive(Debug, Clone, PartialEq, Eq)]
pub struct EmbeddingSource<T = String> {
    pub id: T,
    pub text: T,
    pub is_query: bool,
}

pub type SourceView = EmbeddingSource<TextView>;

pub open spec fn source_view(s: EmbeddingSource) -> SourceView {
    EmbeddingSource { id: s.id@, text: s.text@, is_query: s.is_query }
}

pub open spec fn sources_view(v: Seq<EmbeddingSource>) -> Seq<SourceView> {
    v.map_values(|s: EmbeddingSource| source_view(s))
}

/// The similarity ordering a selection asserts: from the query, its nearer candidate
/// outranks its farther one.
#[derive(Debug, Clone, PartialEq, Eq)]
pub struct SimilarityOrdering<T = String> {
    pub description: T,
    pub anchor_id: T,
    pub nearer_id: T,
    pub farther_id: T,
}

pub type OrderingView = SimilarityOrdering<TextView>;

pub open spec fn ordering_view(o: SimilarityOrdering) -> OrderingView {
    SimilarityOrdering {
        description: o.description@,
        anchor_id: o.anchor_id@,
        nearer_id: o.nearer_id@,
        farther_id: o.farther_id@,
    }
}

pub open spec fn orderings_view(v: Seq<SimilarityOrdering>) -> Seq<OrderingView> {
    v.map_values(|o: SimilarityOrdering| ordering_view(o))
}

/// Why a similarity ordering could not be written.
#[derive(Debug, Clone, PartialEq, Eq)]
pub enum EmbeddingManifestError {
    NearerNotAdmitted { fixture_id: String, external_id: String },
    FartherNotAdmitted { fixture_id: String, external_id: String },
}

pub open spec fn embedding_manifest_error_text(e: EmbeddingManifestError) -> TextView {
    match e {
        EmbeddingManifestError::NearerNotAdmitted { fixture_id, external_id } => "selection "@
            + quoted(fixture_id@) + " similarity nearer candidate "@ + quoted(external_id@)
            + " is not admitted"@,
        EmbeddingManifestError::FartherNotAdmitted { fixture_id, external_id } => "selection "@
            + quoted(fixture_id@) + " similarity farther candidate "@ + quoted(external_id@)
            + " is not admitted"@,
    }
}

impl EmbeddingManifestError {
    /// The human-readable message of this failure.
    pub fn message(&self) -> (m: String)
        ensures
            m@ == embedding_manifest_error_text(*self),
    {
        let (fixture_id, which, external_id) = match self {
            EmbeddingManifestError::NearerNotAdmitted { fixture_id, external_id } => (
                fixture_id,
                " similarity nearer candidate ",
                external_id,
            ),
            EmbeddingManifestError::FartherNotAdmitted { fixture_id, external_id } => (
                fixture_id,
                " similarity farther candidate ",
                external_id,
            ),
        };
        let mut m = String::from_str("selection ");
        m.append(quote(fixture_id.as_str()).as_str());
        m.append(which);
        m.append(quote(external_id.as_str()).as_str());
        m.append(" is not admitted");
        m
    }
}

/// The rendering of `s` from position `i` on, given what is written so far and whether
/// whitespace has been passed since the last word: each maximal run of non-whitespace
/// characters is written, and words are separated by one space.
pub open spec fn collapse_from(s: Seq<char>, i: int, out: Seq<char>, gap: bool) -> Seq<char>
    decreases s.len() - i,
{
    if i >= s.len() || i < 0 {
        out
    } else if is_unicode_whitespace(s[i]) {
        collapse_from(s, i + 1, out, out.len() > 0)
    } else if gap {
        collapse_from(s, i + 1, out.push(' ').push(s[i]), false)
    } else {
        collapse_from(s, i + 1, out.push(s[i]), false)
    }
}

/// How the memory library renders a stored text for embedding: its words (maximal runs
/// of non-whitespace characters, whitespace being Unicode `White_Space`) joined by single
/// spaces, so that leading and trailing whitespace goes and every inner run of whitespace
/// becomes one space.
pub open spec fn embedding_rendering(s: Seq<char>) -> Seq<char> {
    collapse_from(s, 0, Seq::empty(), false)
}

/// Renders a stored text as the memory library embeds it.
pub fn runtime_memory_embedding_text(s: &str) -> (r: String)
    ensures
        r@ == embedding_rendering(s@),
{
    let chars = chars_of(s);
    let mut out: Vec<char> = Vec::new();
    let mut gap = false;
    let mut i: usize = 0;
    while i < chars.len()
        invariant
            chars@ == s@,
            i <= chars@.len(),
            collapse_from(s@, i as int, out@, gap) == embedding_rendering(s@),
        decreases chars@.len() - i,
    {
        let c = chars[i];
        if is_whitespace_char(c) {
            gap = out.len() > 0;
        } else {
            if gap {
                out.push(' ');
            }
            out.push(c);
            gap = false;
        }
        i = i + 1;
    }
    string_from_chars(&out)
}

/// The text an event gives the runtime to embed: a stored turn as rendered, a query as
/// written.
pub open spec fn runtime_input(e: EventView) -> Seq<char> {
    match e {
        InteractionEvent::Remember { text, .. } => embedding_rendering(text),
        InteractionEvent::Correct { replacement_text, .. } => embedding_rendering(replacement_text),
        InteractionEvent::Query { text, .. } => text,
    }
}

/// The distinct texts a scenario gives the runtime to embed, in increasing order.
pub fn runtime_embedding_inputs(scenario: &ContinuityScenario) -> (out: Vec<String>)
    ensures
        strictly_sorted(out@),
        forall|x: Seq<char>|
            #[trigger] has_text(out@, x) <==> exists|k: int|
                0 <= k < scenario.events@.len() && runtime_input(event_view(#[trigger] scenario.events@[k])) == x,
{
    let mut texts: Vec<String> = Vec::new();
    let mut i: usize = 0;
    while i < scenario.events.len()
        invariant
            i <= scenario.events@.len(),
            texts@.len() == i,
            forall|k: int| 0 <= k < i ==> #[trigger] texts@[k]@ == runtime_input(event_view(scenario.events@[k])),
        decreases scenario.events@.len() - i,
    {
        let text = match &scenario.events[i] {
            InteractionEvent::Remember { text, .. } => runtime_memory_embedding_text(text.as_str()),
            InteractionEvent::Correct { replacement_text, .. } => runtime_memory_embedding_text(
                replacement_text.as_str(),
            ),
            InteractionEvent::Query { text, .. } => text.clone(),
        };
        texts.push(text);
        i = i + 1;
    }
    let ghost all = texts@;
    let out = sorted_unique_texts(texts);
    assert forall|x: Seq<char>| #[trigger] has_text(out@, x) <==> exists|k: int|
        0 <= k < scenario.events@.len() && runtime_input(event_view(#[trigger] scenario.events@[k])) == x by {
        if has_text(all, x) {
            let k = choose|k: int| 0 <= k < all.len() && #[trigger] all[k]@ == x;
            assert(runtime_input(event_view(scenario.events@[k])) == x);
        }
        if exists|k: int| 0 <= k < scenario.events@.len() && runtime_input(event_view(#[trigger] scenario.events@[k])) == x {
            let k = choose|k: int| 0 <= k < scenario.events@.len() && runtime_input(event_view(#[trigger] scenario.events@[k])) == x;
            assert(all[k]@ == x);
        }
    }
    out
}

/// The text an event of `c` embeds, under its text id.
pub open spec fn event_source(c: ConvertedScenario, e: EventView) -> SourceView {
    match e {
        InteractionEvent::Remember { external_id, text, .. } => EmbeddingSource {
            id: opt_text_view(c.text_id_by_external_id.at(external_id))->0,
            text: embedding_rendering(text),
            is_query: false,
        },
        InteractionEvent::Correct { replacement_external_id, replacement_text, .. } =>
            EmbeddingSource {
            id: opt_text_view(c.text_id_by_external_id.at(replacement_external_id))->0,
            text: embedding_rendering(replacement_text),
            is_query: false,
        },
        InteractionEvent::Query { text, .. } => EmbeddingSource {
            id: c.query_text_id@,
            text,
            is_query: true,
        },
    }
}

/// The texts a scenario embeds, one per event, in event order.
pub open spec fn scenario_sources(c: ConvertedScenario) -> Seq<SourceView> {
    events_view(c.scenario.events@).map_values(|e: EventView| event_source(c, e))
}

/// The texts the first `n` scenarios embed, in order.
pub open spec fn all_sources(cs: Seq<ConvertedScenario>, n: int) -> Seq<SourceView>
    decreases n,
{
    if n <= 0 {
        Seq::empty()
    } else {
        all_sources(cs, n - 1) + scenario_sources(cs[n - 1])
    }
}

/// The text id of `key` in `c`, which must be present.
fn text_id_of(c: &ConvertedScenario, key: &String) -> (id: String)
    requires
        c.text_id_by_external_id.wf(),
        c.text_id_by_external_id.at(key@) is Some,
    ensures
        id@ == opt_text_view(c.text_id_by_external_id.at(key@))->0,
{
    match c.text_id_by_external_id.get(key.as_str()) {
        Some(id) => id.clone(),
        None => String::new(),
    }
}

/// The texts a scenario embeds, one per event, in event order.
pub fn scenario_embedding_sources(c: &ConvertedScenario, out: &mut Vec<EmbeddingSource>)
    requires
        c.text_id_by_external_id.wf(),
        embedding_ids_complete(*c),
    ensures
        sources_view(final(out)@) == sources_view(old(out)@) + scenario_sources(*c),
{
    let ghost start = sources_view(out@);
    let ghost ev = events_view(c.scenario.events@);
    let mut k: usize = 0;
    while k < c.scenario.events.len()
        invariant
            k <= c.scenario.events@.len(),
            c.text_id_by_external_id.wf(),
            embedding_ids_complete(*c),
            ev == events_view(c.scenario.events@),
            sources_view(out@) == start + scenario_sources(*c).subrange(0, k as int),
        decreases c.scenario.events@.len() - k,
    {
        let e = &c.scenario.events[k];
        assert(ev[k as int] == event_view(*e));
        let source = match e {
            InteractionEvent::Remember { external_id, text, .. } => EmbeddingSource {
                id: text_id_of(c, external_id),
                text: runtime_memory_embedding_text(text.as_str()),
                is_query: false,
            },
            InteractionEvent::Correct { replacement_external_id, replacement_text, .. } =>
                EmbeddingSource {
                id: text_id_of(c, replacement_external_id),
                text: runtime_memory_embedding_text(replacement_text.as_str()),
                is_query: false,
            },
            InteractionEvent::Query { text, .. } => EmbeddingSource {
                id: c.query_text_id.clone(),
                text: text.clone(),
                is_query: true,
            },
        };
        let ghost before = sources_view(out@);
        out.push(source);
        assert(sources_view(out@) =~= before.push(source_view(source)));
        assert(scenario_sources(*c).subrange(0, k + 1) =~= scenario_sources(*c).subrange(
            0,
            k as int,
        ).push(scenario_sources(*c)[k as int]));
        k = k + 1;
    }
    assert(scenario_sources(*c).subrange(0, c.scenario.events@.len() as int) =~= scenario_sources(*c));
}

/// The similarity ordering of a selection, over the text ids of its scenario.
pub open spec fn ordering_outcome(sel: InstanceSelection, c: ConvertedScenario) -> Result<
    OrderingView,
    EmbeddingManifestError,
> {
    let ids = c.text_id_by_external_id;
    match (ids.at(sel.similarity_nearer_external_id@), ids.at(sel.similarity_farther_external_id@)) {
        (None, _) => Err(
            EmbeddingManifestError::NearerNotAdmitted {
                fixture_id: sel.fixture_id,
                external_id: sel.similarity_nearer_external_id,
            },
        ),
        (Some(_), None) => Err(
            EmbeddingManifestError::FartherNotAdmitted {
                fixture_id: sel.fixture_id,
                external_id: sel.similarity_farther_external_id,
            },
        ),
        (Some(n), Some(f)) => Ok(
            SimilarityOrdering {
                description: sel.fixture_id@ + " query-adapted evidence outranks curated background"@,
                anchor_id: c.query_text_id@,
                nearer_id: n@,
                farther_id: f@,
            },
        ),
    }
}

/// The similarity ordering of a selection: from its query, the text of its nearer
/// candidate outranks that of its farther one; both must have text ids.
pub fn similarity_ordering(sel: &InstanceSelection, c: &ConvertedScenario) -> (r: Result<
    SimilarityOrdering,
    EmbeddingManifestError,
>)
    requires
        c.text_id_by_external_id.wf(),
    ensures
        match ordering_outcome(*sel, *c) {
            Ok(o) => r matches Ok(x) && ordering_view(x) == o,
            Err(e) => r == Err::<SimilarityOrdering, EmbeddingManifestError>(e),
        },
{
    let nearer = match c.text_id_by_external_id.get(sel.similarity_nearer_external_id.as_str()) {
        Some(n) => n.clone(),
        None => {
            return Err(
                EmbeddingManifestError::NearerNotAdmitted {
                    fixture_id: sel.fixture_id.clone(),
                    external_id: sel.similarity_nearer_external_id.clone(),
                },
            );
        },
    };
    let farther = match c.text_id_by_external_id.get(sel.similarity_farther_external_id.as_str()) {
        Some(f) => f.clone(),
        None => {
            return Err(
                EmbeddingManifestError::FartherNotAdmitted {
                    fixture_id: sel.fixture_id.clone(),
                    external_id: sel.similarity_farther_external_id.clone(),
                },
            );
        },
    };
    let mut description = sel.fixture_id.clone();
    description.append(" query-adapted evidence outranks curated background");
    Ok(
        SimilarityOrdering {
            description,
            anchor_id: c.query_text_id.clone(),
            nearer_id: nearer,
            farther_id: farther,
        },
    )
}

/// The similarity orderings of the first `n` selections, or the first that cannot be
/// written.
pub open spec fn orderings_outcome(
    instances: Seq<InstanceSelection>,
    cs: Seq<ConvertedScenario>,
    n: int,
) -> Result<Seq<OrderingView>, EmbeddingManifestError>
    decreases n,
{
    if n <= 0 {
        Ok(Seq::empty())
    } else {
        match orderings_outcome(instances, cs, n - 1) {
            Err(e) => Err(e),
            Ok(prev) => match ordering_outcome(instances[n - 1], cs[n - 1]) {
                Err(e) => Err(e),
                Ok(o) => Ok(prev.push(o)),
            },
        }
    }
}

proof fn lemma_orderings_err_persists(
    instances: Seq<InstanceSelection>,
    cs: Seq<ConvertedScenario>,
    m: int,
    n: int,
)
    requires
        0 <= m <= n,
        orderings_outcome(instances, cs, m) is Err,
    ensures
        orderings_outcome(instances, cs, n) == orderings_outcome(instances, cs, m),
    decreases n - m,
{
    if n > m {
        lemma_orderings_err_persists(instances, cs, m, n - 1);
    }
}

/// The texts the scenarios embed and the similarity orderings of their selections,
/// taken pairwise, in order.
pub fn build_embedding_manifest(
    instances: &Vec<InstanceSelection>,
    converted: &Vec<ConvertedScenario>,
) -> (r: Result<(Vec<EmbeddingSource>, Vec<SimilarityOrdering>), EmbeddingManifestError>)
    requires
        instances@.len() == converted@.len(),
        forall|i: int|
            0 <= i < converted@.len() ==> (#[trigger] converted@[i]).text_id_by_external_id.wf()
                && embedding_ids_complete(converted@[i]),
    ensures
        match orderings_outcome(instances@, converted@, converted@.len() as int) {
            Ok(os) => r matches Ok((texts, orderings)) && orderings_view(orderings@) == os
                && sources_view(texts@) == all_sources(converted@, converted@.len() as int),
            Err(e) => r == Err::<(Vec<EmbeddingSource>, Vec<SimilarityOrdering>), _>(e),
        },
{
    let mut texts: Vec<EmbeddingSource> = Vec::new();
    let mut orderings: Vec<SimilarityOrdering> = Vec::new();
    let mut i: usize = 0;
    while i < converted.len()
        invariant
            i <= converted@.len(),
            instances@.len() == converted@.len(),
            forall|j: int|
                0 <= j < converted@.len() ==> (#[trigger] converted@[j]).text_id_by_external_id.wf()
                    && embedding_ids_complete(converted@[j]),
            sources_view(texts@) == all_sources(converted@, i as int),
            orderings_outcome(instances@, converted@, i as int) matches Ok(os) && orderings_view(
                orderings@,
            ) == os,
        decreases converted@.len() - i,
    {
        let c = &converted[i];
        assert(c.text_id_by_external_id.wf() && embedding_ids_complete(*c));
        scenario_embedding_sources(c, &mut texts);
        match similarity_ordering(&instances[i], c) {
            Ok(o) => {
                let ghost before = orderings_view(orderings@);
                orderings.push(o);
                assert(orderings_view(orderings@) =~= before.push(ordering_view(o)));
            },
            Err(e) => {
                proof {
                    lemma_orderings_err_persists(
                        instances@,
                        converted@,
                        i + 1,
                        converted@.len() as int,
                    );
                }
                return Err(e);
            },
        }
        i = i + 1;
    }
    Ok((texts, orderings))
}

/// The scenarios converted from a manifest, the texts they embed and the similarity
/// orderings of their selections.
pub struct ConversionArtifacts {
    pub scenarios: Vec<ConvertedScenario>,
    pub embedding_texts: Vec<EmbeddingSource>,
    pub similarity_orderings: Vec<SimilarityOrdering>,
}

/// Every selection converts, to the scenarios `cs`, and writing their similarity
/// orderings fails with `e`.
pub open spec fn orderings_refused_with(
    instances: Seq<InstanceSelection>,
    lme: Seq<LongMemEvalInstance>,
    locomo: Seq<LoCoMoSample>,
    cs: Seq<ConvertedScenario>,
    e: EmbeddingManifestError,
) -> bool {
    &&& cs.len() == instances.len()
    &&& forall|i: int| 0 <= i < cs.len() ==> row_outcome(#[trigger] instances[i], lme, locomo, Ok(cs[i]))
    &&& orderings_outcome(instances, cs, cs.len() as int) == Err::<Seq<OrderingView>, _>(e)
}

/// What converting a manifest against the loaded rows gives: a manifest refusal exactly
/// when it is not admitted; a row refusal only at the first row that cannot be converted;
/// an ordering refusal only when every row converts; otherwise one scenario per selection,
/// the texts they embed and the similarity ordering of each selection.
pub open spec fn loaded_conversion(
    manifest: SelectionManifest,
    lme: Seq<LongMemEvalInstance>,
    locomo: Seq<LoCoMoSample>,
    r: Result<ConversionArtifacts, BatchError>,
) -> bool {
    &&& (r matches Err(BatchError::Manifest(_))) <==> !manifest_admitted(manifest)
    &&& r matches Err(BatchError::Manifest(e)) ==> manifest_refused_with(manifest, e)
    &&& r matches Err(BatchError::Row(e)) ==> exists|i: int|
        0 <= i < manifest.instances@.len() && #[trigger] fails_first_at(manifest.instances@, lme, locomo, e, i)
    &&& r matches Err(BatchError::EmbeddingManifest(e)) ==> exists|cs: Seq<ConvertedScenario>|
        #[trigger] orderings_refused_with(manifest.instances@, lme, locomo, cs, e)
    &&& r matches Ok(a) ==> {
        &&& a.scenarios@.len() == manifest.instances@.len()
        &&& forall|i: int|
            0 <= i < a.scenarios@.len() ==> row_outcome(
                #[trigger] manifest.instances@[i],
                lme,
                locomo,
                Ok(a.scenarios@[i]),
            )
        &&& orderings_outcome(manifest.instances@, a.scenarios@, a.scenarios@.len() as int)
            == Ok::<Seq<OrderingView>, EmbeddingManifestError>(orderings_view(a.similarity_orderings@))
        &&& sources_view(a.embedding_texts@) == all_sources(a.scenarios@, a.scenarios@.len() as int)
    }
}

/// Two converted scenarios agree in everything conversion writes: identity, events,
/// embedding text ids and query text id.
pub open spec fn same_conversion(c1: ConvertedScenario, c2: ConvertedScenario) -> bool {
    &&& c1.scenario.fixture_id@ == c2.scenario.fixture_id@
    &&& c1.scenario.namespace@ == c2.scenario.namespace@
    &&& c1.scenario.pattern == c2.scenario.pattern
    &&& events_view(c1.scenario.events@) == events_view(c2.scenario.events@)
    &&& forall|key: TextView|
        #[trigger] opt_text_view(c1.text_id_by_external_id.at(key)) == opt_text_view(
            c2.text_id_by_external_id.at(key),
        )
    &&& c1.query_text_id@ == c2.query_text_id@
}

proof fn lemma_sources_agree(c1: ConvertedScenario, c2: ConvertedScenario)
    requires
        same_conversion(c1, c2),
    ensures
        scenario_sources(c1) == scenario_sources(c2),
{
    let ev = events_view(c1.scenario.events@);
    assert forall|i: int| 0 <= i < ev.len() implies #[trigger] event_source(c1, ev[i]) == event_source(c2, ev[i]) by {
        match ev[i] {
            InteractionEvent::Remember { external_id, .. } => {
                assert(opt_text_view(c1.text_id_by_external_id.at(external_id)) == opt_text_view(
                    c2.text_id_by_external_id.at(external_id),
                ));
            },
            InteractionEvent::Correct { replacement_external_id, .. } => {
                assert(opt_text_view(c1.text_id_by_external_id.at(replacement_external_id))
                    == opt_text_view(c2.text_id_by_external_id.at(replacement_external_id)));
            },
            InteractionEvent::Query { .. } => {},
        }
    }
    assert(scenario_sources(c1) =~= scenario_sources(c2));
}

proof fn lemma_ordering_agrees(sel: InstanceSelection, c1: ConvertedScenario, c2: ConvertedScenario)
    requires
        same_conversion(c1, c2),
    ensures
        ordering_outcome(sel, c1) == ordering_outcome(sel, c2),
{
    let n = sel.similarity_nearer_external_id@;
    let f = sel.similarity_farther_external_id@;
    assert(opt_text_view(c1.text_id_by_external_id.at(n)) == opt_text_view(c2.text_id_by_external_id.at(n)));
    assert(opt_text_view(c1.text_id_by_external_id.at(f)) == opt_text_view(c2.text_id_by_external_id.at(f)));
}

proof fn lemma_batch_agrees(
    instances: Seq<InstanceSelection>,
    cs1: Seq<ConvertedScenario>,
    cs2: Seq<ConvertedScenario>,
    n: int,
)
    requires
        0 <= n <= cs1.len(),
        n <= cs2.len(),
        forall|i: int| 0 <= i < n ==> same_conversion(#[trigger] cs1[i], cs2[i]),
    ensures
        all_sources(cs1, n) == all_sources(cs2, n),
        orderings_outcome(instances, cs1, n) == orderings_outcome(instances, cs2, n),
    decreases n,
{
    if n > 0 {
        lemma_batch_agrees(instances, cs1, cs2, n - 1);
        assert(same_conversion(cs1[n - 1], cs2[n - 1]));
        lemma_sources_agree(cs1[n - 1], cs2[n - 1]);
        lemma_ordering_agrees(instances[n - 1], cs1[n - 1], cs2[n - 1]);
    }
}

/// Converting the same manifest against the same loaded rows is deterministic: two
/// conversions both succeed or both fail, and when they succeed they give scenarios that
/// agree selection by selection, the same embedding texts and the same similarity
/// orderings.
pub proof fn lemma_conversion_deterministic(
    manifest: SelectionManifest,
    lme: Seq<LongMemEvalInstance>,
    locomo: Seq<LoCoMoSample>,
    r1: Result<ConversionArtifacts, BatchError>,
    r2: Result<ConversionArtifacts, BatchError>,
)
    requires
        loaded_conversion(manifest, lme, locomo, r1),
        loaded_conversion(manifest, lme, locomo, r2),
    ensures
        r1 is Ok <==> r2 is Ok,
        r1 matches Ok(a1) ==> r2 matches Ok(a2) && {
            &&& a1.scenarios@.len() == a2.scenarios@.len()
            &&& forall|i: int|
                0 <= i < a1.scenarios@.len() ==> #[trigger] same_conversion(a1.scenarios@[i], a2.scenarios@[i])
            &&& sources_view(a1.embedding_texts@) == sources_view(a2.embedding_texts@)
            &&& orderings_view(a1.similarity_orderings@) == orderings_view(a2.similarity_orderings@)
        },
{
    if r1 is Ok {
        lemma_ok_excludes_err(manifest, lme, locomo, r1, r2);
    }
    if r2 is Ok {
        lemma_ok_excludes_err(manifest, lme, locomo, r2, r1);
    }
    if r1 is Ok && r2 is Ok {
        lemma_artifacts_agree(manifest.instances@, lme, locomo, r1->Ok_0, r2->Ok_0);
    }
}

proof fn lemma_artifacts_agree(
    inst: Seq<InstanceSelection>,
    lme: Seq<LongMemEvalInstance>,
    locomo: Seq<LoCoMoSample>,
    a1: ConversionArtifacts,
    a2: ConversionArtifacts,
)
    requires
        a1.scenarios@.len() == inst.len(),
        a2.scenarios@.len() == inst.len(),
        forall|i: int| 0 <= i < inst.len() ==> row_outcome(#[trigger] inst[i], lme, locomo, Ok(a1.scenarios@[i])),
        forall|i: int| 0 <= i < inst.len() ==> row_outcome(#[trigger] inst[i], lme, locomo, Ok(a2.scenarios@[i])),
        orderings_outcome(inst, a1.scenarios@, inst.len() as int) == Ok::<Seq<OrderingView>, EmbeddingManifestError>(
            orderings_view(a1.similarity_orderings@),
        ),
        orderings_outcome(inst, a2.scenarios@, inst.len() as int) == Ok::<Seq<OrderingView>, EmbeddingManifestError>(
            orderings_view(a2.similarity_orderings@),
        ),
        sources_view(a1.embedding_texts@) == all_sources(a1.scenarios@, inst.len() as int),
        sources_view(a2.embedding_texts@) == all_sources(a2.scenarios@, inst.len() as int),
    ensures
        forall|i: int|
            0 <= i < a1.scenarios@.len() ==> #[trigger] same_conversion(a1.scenarios@[i], a2.scenarios@[i]),
        sources_view(a1.embedding_texts@) == sources_view(a2.embedding_texts@),
        orderings_view(a1.similarity_orderings@) == orderings_view(a2.similarity_orderings@),
{
    assert forall|i: int| 0 <= i < a1.scenarios@.len() implies #[trigger] same_conversion(
        a1.scenarios@[i],
        a2.scenarios@[i],
    ) by {
        crate::batch::lemma_row_deterministic(inst[i], lme, locomo, a1.scenarios@[i], a2.scenarios@[i]);
    }
    lemma_batch_agrees(inst, a1.scenarios@, a2.scenarios@, inst.len() as int);
}

/// When one conversion succeeds, another of the same manifest and rows is no refusal.
proof fn lemma_ok_excludes_err(
    manifest: SelectionManifest,
    lme: Seq<LongMemEvalInstance>,
    locomo: Seq<LoCoMoSample>,
    r1: Result<ConversionArtifacts, BatchError>,
    r2: Result<ConversionArtifacts, BatchError>,
)
    requires
        loaded_conversion(manifest, lme, locomo, r1),
        loaded_conversion(manifest, lme, locomo, r2),
        r1 is Ok,
    ensures
        r2 is Ok,
{
    let a1 = r1->Ok_0;
    let inst = manifest.instances@;
    match r2 {
        Ok(_) => {},
        Err(BatchError::Manifest(_)) => {},
        Err(BatchError::Row(e)) => {
            let i = choose|i: int| 0 <= i < inst.len() && #[trigger] fails_first_at(inst, lme, locomo, e, i);
            crate::batch::lemma_row_exclusive(inst[i], lme, locomo, a1.scenarios@[i], e);
        },
        Err(BatchError::EmbeddingManifest(e)) => {
            let cs = choose|cs: Seq<ConvertedScenario>| #[trigger] orderings_refused_with(inst, lme, locomo, cs, e);
            assert forall|i: int| 0 <= i < cs.len() implies #[trigger] same_conversion(cs[i], a1.scenarios@[i]) by {
                crate::batch::lemma_row_deterministic(inst[i], lme, locomo, cs[i], a1.scenarios@[i]);
            }
            lemma_batch_agrees(inst, cs, a1.scenarios@, cs.len() as int);
        },
    }
}

/// Validates the manifest, converts its selections in order, and lists the texts the
/// scenarios embed and the similarity ordering of each selection.
#[verifier::rlimit(60)]
pub fn convert_loaded_datasets(
    manifest: &SelectionManifest,
    lme: &Vec<LongMemEvalInstance>,
    locomo: &Vec<LoCoMoSample>,
) -> (r: Result<ConversionArtifacts, BatchError>)
    requires
        rows_bounded(lme@, locomo@),
    ensures
        loaded_conversion(*manifest, lme@, locomo@, r),
{
    let scenarios = match convert_selected_rows(manifest, lme, locomo) {
        Ok(s) => s,
        Err(e) => {
            return Err(e);
        },
    };
    proof {
        assert forall|i: int| 0 <= i < scenarios@.len() implies (#[trigger] scenarios@[i]).text_id_by_external_id.wf()
            && embedding_ids_complete(scenarios@[i]) by {
            lemma_row_ids_complete(manifest.instances@[i], lme@, locomo@, scenarios@[i]);
        }
    }
    match build_embedding_manifest(&manifest.instances, &scenarios) {
        Ok((embedding_texts, similarity_orderings)) => Ok(
            ConversionArtifacts { scenarios, embedding_texts, similarity_orderings },
        ),
        Err(e) => {
            assert(orderings_refused_with(manifest.instances@, lme@, locomo@, scenarios@, e));
            Err(BatchError::EmbeddingManifest(e))
        },
    }
}

} // verus!
