//! Conversion of every selection of an admitted manifest against the loaded rows.
use vstd::prelude::*;

use crate::assemble::{embedding_ids_complete, timeline_ordered, ConvertedScenario};
use crate::embedding_manifest::EmbeddingManifestError;
use crate::conversion::{
    events_view, opt_text_view, lme_indexes_bounded, ConversionError, LoCoMoSample, LongMemEvalInstance, TextView,
};
use crate::convert::{
    lemma_longmemeval_exclusive, lemma_longmemeval_timeline, lemma_longmemeval_ids_complete, convert_longmemeval, fails_with, lemma_longmemeval_deterministic, longmemeval_conversion,
};
use crate::locomo::{
    lemma_locomo_exclusive, lemma_locomo_timeline, lemma_locomo_ids_complete, convert_locomo, lemma_locomo_deterministic, locomo_conversion, locomo_sessions_bounded,
};
use crate::selection::{
    instance_violation, manifest_admitted, manifest_refused_with, violation_at, BenchmarkSource,
    InstanceSelection, SelectionError, SelectionManifest,
};

verus! {

/// Why a manifest's selections could not be converted.
#[derive(Debug, Clone, PartialEq, Eq)]
pub enum BatchError {
    /// The manifest was refused.
    Manifest(SelectionError),
    /// A selected row could not be converted.
    Row(ConversionError),
    /// The similarity ordering of a converted selection could not be written.
    EmbeddingManifest(EmbeddingManifestError),
}

/// The last LongMemEval-S row with the question id `id`.
pub open spec fn last_lme_row(rows: Seq<LongMemEvalInstance>, id: TextView) -> Option<int> {
    if exists|k: int| 0 <= k < rows.len() && #[trigger] rows[k].question_id@ == id {
        Some(
            choose|k: int|
                0 <= k < rows.len() && #[trigger] rows[k].question_id@ == id && forall|j: int|
                    k < j < rows.len() ==> #[trigger] rows[j].question_id@ != id,
        )
    } else {
        None
    }
}

/// The last LoCoMo sample with the sample id `id`.
pub open spec fn last_locomo_row(rows: Seq<LoCoMoSample>, id: TextView) -> Option<int> {
    if exists|k: int| 0 <= k < rows.len() && #[trigger] rows[k].sample_id@ == id {
        Some(
            choose|k: int|
                0 <= k < rows.len() && #[trigger] rows[k].sample_id@ == id && forall|j: int|
                    k < j < rows.len() ==> #[trigger] rows[j].sample_id@ != id,
        )
    } else {
        None
    }
}

fn find_last_lme_row(rows: &Vec<LongMemEvalInstance>, id: &String) -> (r: Option<usize>)
    ensures
        match last_lme_row(rows@, id@) {
            Some(k) => r matches Some(j) && j as int == k && j < rows@.len(),
            None => r is None,
        },
{
    let mut i: usize = rows.len();
    while i > 0
        invariant
            i <= rows@.len(),
            forall|j: int| i <= j < rows@.len() ==> #[trigger] rows@[j].question_id@ != id@,
        decreases i,
    {
        i = i - 1;
        if rows[i].question_id == *id {
            proof {
                assert(rows@[i as int].question_id@ == id@);
                let c = choose|c: int|
                    0 <= c < rows@.len() && #[trigger] rows@[c].question_id@ == id@ && forall|j: int|
                        c < j < rows@.len() ==> #[trigger] rows@[j].question_id@ != id@;
                if c < i {
                    assert(rows@[i as int].question_id@ == id@);
                }
            }
            return Some(i);
        }
    }
    None
}

fn find_last_locomo_row(rows: &Vec<LoCoMoSample>, id: &String) -> (r: Option<usize>)
    ensures
        match last_locomo_row(rows@, id@) {
            Some(k) => r matches Some(j) && j as int == k && j < rows@.len(),
            None => r is None,
        },
{
    let mut i: usize = rows.len();
    while i > 0
        invariant
            i <= rows@.len(),
            forall|j: int| i <= j < rows@.len() ==> #[trigger] rows@[j].sample_id@ != id@,
        decreases i,
    {
        i = i - 1;
        if rows[i].sample_id == *id {
            proof {
                assert(rows@[i as int].sample_id@ == id@);
                let c = choose|c: int|
                    0 <= c < rows@.len() && #[trigger] rows@[c].sample_id@ == id@ && forall|j: int|
                        c < j < rows@.len() ==> #[trigger] rows@[j].sample_id@ != id@;
                if c < i {
                    assert(rows@[i as int].sample_id@ == id@);
                }
            }
            return Some(i);
        }
    }
    None
}

/// What converting one selection against the loaded rows gives: the last row with the
/// selection's instance id is converted.
pub open spec fn row_outcome(
    sel: InstanceSelection,
    lme: Seq<LongMemEvalInstance>,
    locomo: Seq<LoCoMoSample>,
    r: Result<ConvertedScenario, ConversionError>,
) -> bool {
    let missing = ConversionError::MissingInstance {
        source: sel.source,
        fixture_id: sel.fixture_id@,
        instance_id: sel.source_instance_id@,
    };
    match sel.source {
        BenchmarkSource::LongmemevalS => match last_lme_row(lme, sel.source_instance_id@) {
            None => fails_with(r, missing),
            Some(k) => longmemeval_conversion(sel, lme[k], r),
        },
        BenchmarkSource::Locomo => match last_locomo_row(locomo, sel.source_instance_id@) {
            None => fails_with(r, missing),
            Some(k) => locomo_conversion(sel, locomo[k], r),
        },
    }
}

/// The loaded rows are within what conversion can time.
pub open spec fn rows_bounded(lme: Seq<LongMemEvalInstance>, locomo: Seq<LoCoMoSample>) -> bool {
    &&& forall|k: int| 0 <= k < lme.len() ==> lme_indexes_bounded(#[trigger] lme[k])
    &&& forall|k: int| 0 <= k < locomo.len() ==> locomo_sessions_bounded(#[trigger] locomo[k])
}

/// Converts one selection against the loaded rows.
pub fn convert_row(
    sel: &InstanceSelection,
    lme: &Vec<LongMemEvalInstance>,
    locomo: &Vec<LoCoMoSample>,
) -> (r: Result<ConvertedScenario, ConversionError>)
    requires
        rows_bounded(lme@, locomo@),
        sel.source == BenchmarkSource::Locomo ==> sel.source_qa_index is Some,
    ensures
        row_outcome(*sel, lme@, locomo@, r),
{
    match sel.source {
        BenchmarkSource::LongmemevalS => match find_last_lme_row(lme, &sel.source_instance_id) {
            None => Err(
                ConversionError::MissingInstance {
                    source: sel.source,
                    fixture_id: sel.fixture_id.clone(),
                    instance_id: sel.source_instance_id.clone(),
                },
            ),
            Some(k) => convert_longmemeval(sel, &lme[k]),
        },
        BenchmarkSource::Locomo => match find_last_locomo_row(locomo, &sel.source_instance_id) {
            None => Err(
                ConversionError::MissingInstance {
                    source: sel.source,
                    fixture_id: sel.fixture_id.clone(),
                    instance_id: sel.source_instance_id.clone(),
                },
            ),
            Some(k) => convert_locomo(sel, &locomo[k]),
        },
    }
}

/// Selection `i` is the first that cannot be converted, and fails with `e`.
pub open spec fn fails_first_at(
    instances: Seq<InstanceSelection>,
    lme: Seq<LongMemEvalInstance>,
    locomo: Seq<LoCoMoSample>,
    e: ConversionError,
    i: int,
) -> bool {
    &&& row_outcome(instances[i], lme, locomo, Err(e))
    &&& converts_before(instances, lme, locomo, i)
}

/// Every selection before `i` can be converted.
pub open spec fn converts_before(
    instances: Seq<InstanceSelection>,
    lme: Seq<LongMemEvalInstance>,
    locomo: Seq<LoCoMoSample>,
    i: int,
) -> bool {
    forall|j: int| #[trigger]
        index_below(j, i) ==> exists|c: ConvertedScenario| row_outcome(instances[j], lme, locomo, Ok(c))
}

/// `j` is a position before `i`.
pub open spec fn index_below(j: int, i: int) -> bool {
    0 <= j < i
}

/// Validates the manifest, then converts its selections in order; the first selection
/// that cannot be converted stops the batch.
pub fn convert_selected_rows(
    manifest: &SelectionManifest,
    lme: &Vec<LongMemEvalInstance>,
    locomo: &Vec<LoCoMoSample>,
) -> (r: Result<Vec<ConvertedScenario>, BatchError>)
    requires
        rows_bounded(lme@, locomo@),
    ensures
        (r matches Err(BatchError::Manifest(_))) <==> !manifest_admitted(*manifest),
        r matches Err(BatchError::Manifest(e)) ==> manifest_refused_with(*manifest, e),
        !(r matches Err(BatchError::EmbeddingManifest(_))),
        r matches Ok(v) ==> v@.len() == manifest.instances@.len() && forall|i: int|
            0 <= i < v@.len() ==> row_outcome(
                #[trigger] manifest.instances@[i],
                lme@,
                locomo@,
                Ok(v@[i]),
            ),
        r matches Err(BatchError::Row(e)) ==> exists|i: int|
            0 <= i < manifest.instances@.len() && #[trigger] fails_first_at(
                manifest.instances@,
                lme@,
                locomo@,
                e,
                i,
            ),
{
    match manifest.validate() {
        Ok(()) => {},
        Err(e) => {
            return Err(BatchError::Manifest(e));
        },
    }
    let instances = &manifest.instances;
    let mut out: Vec<ConvertedScenario> = Vec::new();
    let mut i: usize = 0;
    while i < instances.len()
        invariant
            i <= instances@.len(),
            instances == &manifest.instances,
            manifest_admitted(*manifest),
            rows_bounded(lme@, locomo@),
            out@.len() == i,
            forall|j: int| 0 <= j < i ==> row_outcome(#[trigger] instances@[j], lme@, locomo@, Ok(out@[j])),
        decreases instances@.len() - i,
    {
        assert(violation_at(instances@, i as int) is None);
        match convert_row(&instances[i], lme, locomo) {
            Ok(c) => {
                let ghost before = out@;
                out.push(c);
                assert forall|j: int| 0 <= j < i + 1 implies row_outcome(
                    #[trigger] instances@[j],
                    lme@,
                    locomo@,
                    Ok(out@[j]),
                ) by {
                    if j < i {
                        assert(out@[j] == before[j]);
                    }
                }
            },
            Err(e) => {
                proof {
                    let seq_i = manifest.instances@;
                    let ii: int = i as int;
                    assert(instances@ == seq_i);
                    assert(converts_before(seq_i, lme@, locomo@, ii)) by {
                        assert forall|j: int| #[trigger] index_below(j, ii) implies exists|c: ConvertedScenario|
                            row_outcome(seq_i[j], lme@, locomo@, Ok(c)) by {
                            assert(row_outcome(seq_i[j], lme@, locomo@, Ok(out@[j])));
                        }
                    }
                    assert(row_outcome(seq_i[ii], lme@, locomo@, Err(e)));
                    assert(fails_first_at(seq_i, lme@, locomo@, e, ii));
                }
                return Err(BatchError::Row(e));
            },
        }
        i = i + 1;
    }
    Ok(out)
}

/// Converting a selection against the same loaded rows is deterministic: two scenarios
/// it gives have the same identity, events, embedding text ids and query text id.
pub proof fn lemma_row_deterministic(
    sel: InstanceSelection,
    lme: Seq<LongMemEvalInstance>,
    locomo: Seq<LoCoMoSample>,
    c1: ConvertedScenario,
    c2: ConvertedScenario,
)
    requires
        row_outcome(sel, lme, locomo, Ok(c1)),
        row_outcome(sel, lme, locomo, Ok(c2)),
    ensures
        c1.scenario.fixture_id@ == c2.scenario.fixture_id@,
        c1.scenario.namespace@ == c2.scenario.namespace@,
        c1.scenario.pattern == c2.scenario.pattern,
        events_view(c1.scenario.events@) == events_view(c2.scenario.events@),
        forall|key: TextView|
            #[trigger] opt_text_view(c1.text_id_by_external_id.at(key)) == opt_text_view(
                c2.text_id_by_external_id.at(key),
            ),
        c1.query_text_id@ == c2.query_text_id@,
{
    match sel.source {
        BenchmarkSource::LongmemevalS => {
            let k = last_lme_row(lme, sel.source_instance_id@)->0;
            lemma_longmemeval_deterministic(sel, lme[k], c1, c2);
        },
        BenchmarkSource::Locomo => {
            let k = last_locomo_row(locomo, sel.source_instance_id@)->0;
            lemma_locomo_deterministic(sel, locomo[k], c1, c2);
        },
    }
}

/// A scenario converted from a selection has an embedding text id for every stored turn.
pub proof fn lemma_row_ids_complete(
    sel: InstanceSelection,
    lme: Seq<LongMemEvalInstance>,
    locomo: Seq<LoCoMoSample>,
    c: ConvertedScenario,
)
    requires
        row_outcome(sel, lme, locomo, Ok(c)),
    ensures
        c.text_id_by_external_id.wf(),
        embedding_ids_complete(c),
{
    match sel.source {
        BenchmarkSource::LongmemevalS => {
            let k = last_lme_row(lme, sel.source_instance_id@)->0;
            lemma_longmemeval_ids_complete(sel, lme[k], c);
        },
        BenchmarkSource::Locomo => {
            let k = last_locomo_row(locomo, sel.source_instance_id@)->0;
            lemma_locomo_ids_complete(sel, locomo[k], c);
        },
    }
}

/// Every scenario converted from a selection has its events in order of instant, the
/// query last and strictly after every other event.
pub proof fn lemma_row_timeline(
    sel: InstanceSelection,
    lme: Seq<LongMemEvalInstance>,
    locomo: Seq<LoCoMoSample>,
    c: ConvertedScenario,
)
    requires
        row_outcome(sel, lme, locomo, Ok(c)),
    ensures
        timeline_ordered(c),
{
    match sel.source {
        BenchmarkSource::LongmemevalS => {
            let k = last_lme_row(lme, sel.source_instance_id@)->0;
            lemma_longmemeval_timeline(sel, lme[k], c);
        },
        BenchmarkSource::Locomo => {
            let k = last_locomo_row(locomo, sel.source_instance_id@)->0;
            lemma_locomo_timeline(sel, locomo[k], c);
        },
    }
}

/// Converting a selection either succeeds or fails: no selection and rows both give a
/// scenario and an error.
pub proof fn lemma_row_exclusive(
    sel: InstanceSelection,
    lme: Seq<LongMemEvalInstance>,
    locomo: Seq<LoCoMoSample>,
    c: ConvertedScenario,
    e: ConversionError,
)
    requires
        row_outcome(sel, lme, locomo, Ok(c)),
    ensures
        !row_outcome(sel, lme, locomo, Err(e)),
{
    match sel.source {
        BenchmarkSource::LongmemevalS => {
            let k = last_lme_row(lme, sel.source_instance_id@)->0;
            lemma_longmemeval_exclusive(sel, lme[k], c, e);
        },
        BenchmarkSource::Locomo => {
            let k = last_locomo_row(locomo, sel.source_instance_id@)->0;
            lemma_locomo_exclusive(sel, locomo[k], c, e);
        },
    }
}

/// A batch is refused for a row only when that row cannot be converted: when every
/// selection of an admitted manifest converts, no row refusal can be reported.
pub proof fn lemma_batch_succeeds_when_rows_convert(
    instances: Seq<InstanceSelection>,
    lme: Seq<LongMemEvalInstance>,
    locomo: Seq<LoCoMoSample>,
    cs: Seq<ConvertedScenario>,
    e: ConversionError,
    i: int,
)
    requires
        cs.len() == instances.len(),
        forall|j: int| 0 <= j < cs.len() ==> row_outcome(#[trigger] instances[j], lme, locomo, Ok(cs[j])),
        0 <= i < instances.len(),
    ensures
        !fails_first_at(instances, lme, locomo, e, i),
{
    lemma_row_exclusive(instances[i], lme, locomo, cs[i], e);
}

} // verus!
