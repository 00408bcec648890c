//! Decisions of the continuity scenario driver: which scenarios it can run, which
//! admitted objects an operation may name, and the bookkeeping it records.
use vstd::prelude::*;

use crate::render::{quote, quoted};
use crate::order::{has_text, sorted_unique_texts, strictly_sorted, text_views};
use crate::text::string_of;
use crate::textmap::TextMap;

verus! {

/// A capability that a continuity scenario may need from the memory library.
#[derive(Debug, Clone, Copy, PartialEq, Eq, PartialOrd, Ord, Structural)]
pub enum ScenarioFeature {
    WriteScene,
    WriteSceneWhere,
    WriteSceneWhat,
    WriteSceneCustom,
    ProbeScene,
    ProbeActivity,
    NoTopic,
    ReferenceTime,
    ParticipantName,
    ParticipantDescription,
    PlaceName,
    PlaceDescription,
    ReferenceTrace,
    MemorySceneTrace,
    CueTrace,
    OmissionReasons,
    AuthoredDerivedMemory,
    PackSections,
    PackOrder,
    DescriptionReferenceResolution,
    IntentionMemory,
    PreferenceMemory,
    ThreadProvenance,
    PairCounterpartCue,
    DateCue,
    DueCue,
    TriggerCue,
    OwnDayCue,
    RecentAndSalientCue,
}

/// The features that the pinned memory library forwards whole.
pub open spec fn is_supported_feature(f: ScenarioFeature) -> bool {
    match f {
        ScenarioFeature::WriteScene | ScenarioFeature::WriteSceneWhere
        | ScenarioFeature::WriteSceneCustom | ScenarioFeature::ProbeScene
        | ScenarioFeature::ProbeActivity | ScenarioFeature::NoTopic
        | ScenarioFeature::ReferenceTime | ScenarioFeature::ParticipantName
        | ScenarioFeature::ParticipantDescription | ScenarioFeature::PlaceName
        | ScenarioFeature::PlaceDescription | ScenarioFeature::ReferenceTrace
        | ScenarioFeature::MemorySceneTrace | ScenarioFeature::CueTrace
        | ScenarioFeature::OmissionReasons | ScenarioFeature::AuthoredDerivedMemory
        | ScenarioFeature::PackSections | ScenarioFeature::PackOrder => true,
        _ => false,
    }
}

/// The features that the pinned memory library forwards whole, in their declared order.
pub fn supported_scenario_features() -> (v: Vec<ScenarioFeature>)
    ensures
        forall|f: ScenarioFeature| is_supported_feature(f) <==> v@.contains(f),
        v@.len() == 18,
{
    let v = vec![
        ScenarioFeature::WriteScene,
        ScenarioFeature::WriteSceneWhere,
        ScenarioFeature::WriteSceneCustom,
        ScenarioFeature::ProbeScene,
        ScenarioFeature::ProbeActivity,
        ScenarioFeature::NoTopic,
        ScenarioFeature::ReferenceTime,
        ScenarioFeature::ParticipantName,
        ScenarioFeature::ParticipantDescription,
        ScenarioFeature::PlaceName,
        ScenarioFeature::PlaceDescription,
        ScenarioFeature::ReferenceTrace,
        ScenarioFeature::MemorySceneTrace,
        ScenarioFeature::CueTrace,
        ScenarioFeature::OmissionReasons,
        ScenarioFeature::AuthoredDerivedMemory,
        ScenarioFeature::PackSections,
        ScenarioFeature::PackOrder,
    ];
    assert forall|f: ScenarioFeature| is_supported_feature(f) <==> v@.contains(f) by {
        if is_supported_feature(f) {
            match f {
                ScenarioFeature::WriteScene => assert(v@[0] == f),
                ScenarioFeature::WriteSceneWhere => assert(v@[1] == f),
                ScenarioFeature::WriteSceneCustom => assert(v@[2] == f),
                ScenarioFeature::ProbeScene => assert(v@[3] == f),
                ScenarioFeature::ProbeActivity => assert(v@[4] == f),
                ScenarioFeature::NoTopic => assert(v@[5] == f),
                ScenarioFeature::ReferenceTime => assert(v@[6] == f),
                ScenarioFeature::ParticipantName => assert(v@[7] == f),
                ScenarioFeature::ParticipantDescription => assert(v@[8] == f),
                ScenarioFeature::PlaceName => assert(v@[9] == f),
                ScenarioFeature::PlaceDescription => assert(v@[10] == f),
                ScenarioFeature::ReferenceTrace => assert(v@[11] == f),
                ScenarioFeature::MemorySceneTrace => assert(v@[12] == f),
                ScenarioFeature::CueTrace => assert(v@[13] == f),
                ScenarioFeature::OmissionReasons => assert(v@[14] == f),
                ScenarioFeature::AuthoredDerivedMemory => assert(v@[15] == f),
                ScenarioFeature::PackSections => assert(v@[16] == f),
                ScenarioFeature::PackOrder => assert(v@[17] == f),
                _ => {},
            }
        }
    }
    v
}

/// Whether the pinned memory library forwards a feature whole.
pub fn is_supported(f: ScenarioFeature) -> (r: bool)
    ensures
        r == is_supported_feature(f),
{
    match f {
        ScenarioFeature::WriteScene | ScenarioFeature::WriteSceneWhere
        | ScenarioFeature::WriteSceneCustom | ScenarioFeature::ProbeScene
        | ScenarioFeature::ProbeActivity | ScenarioFeature::NoTopic
        | ScenarioFeature::ReferenceTime | ScenarioFeature::ParticipantName
        | ScenarioFeature::ParticipantDescription | ScenarioFeature::PlaceName
        | ScenarioFeature::PlaceDescription | ScenarioFeature::ReferenceTrace
        | ScenarioFeature::MemorySceneTrace | ScenarioFeature::CueTrace
        | ScenarioFeature::OmissionReasons | ScenarioFeature::AuthoredDerivedMemory
        | ScenarioFeature::PackSections | ScenarioFeature::PackOrder => true,
        _ => false,
    }
}

/// The features of a scenario that the library does not support, in the order the
/// scenario analysis listed them.
pub open spec fn missing_features(features: Seq<ScenarioFeature>) -> Seq<ScenarioFeature> {
    features.filter(|f: ScenarioFeature| !is_supported_feature(f))
}

/// The features, among those a scenario's analysis found, that the pinned memory
/// library does not support; a scenario with any of them is not run.
pub fn scenario_missing_features(features: &Vec<ScenarioFeature>) -> (missing: Vec<ScenarioFeature>)
    ensures
        missing@ == missing_features(features@),
{
    let mut missing: Vec<ScenarioFeature> = Vec::new();
    let mut i: usize = 0;
    while i < features.len()
        invariant
            i <= features.len(),
            missing@ == missing_features(features@.subrange(0, i as int)),
        decreases features.len() - i,
    {
        let f = features[i];
        proof {
            let pred = |f: ScenarioFeature| !is_supported_feature(f);
            assert(features@.subrange(0, i + 1).drop_last() =~= features@.subrange(0, i as int));
            reveal_with_fuel(Seq::filter, 1);
        }
        if !is_supported(f) {
            missing.push(f);
        }
        i = i + 1;
    }
    assert(features@.subrange(0, features@.len() as int) =~= features@);
    missing
}

/// The missing features are exactly the unsupported ones among those found: each
/// reported feature was found and is unsupported, and each unsupported feature that
/// was found is reported.
pub proof fn lemma_missing_features_exact(features: Seq<ScenarioFeature>)
    ensures
        forall|f: ScenarioFeature|
            #[trigger] missing_features(features).contains(f) <==> (features.contains(f)
                && !is_supported_feature(f)),
{
    let pred = |f: ScenarioFeature| !is_supported_feature(f);
    assert forall|f: ScenarioFeature|
        #[trigger] missing_features(features).contains(f) <==> (features.contains(f)
            && !is_supported_feature(f)) by {
        if missing_features(features).contains(f) {
            features.lemma_filter_contains_rev(pred, f);
        }
        if features.contains(f) && !is_supported_feature(f) {
            let i = choose|i: int| 0 <= i < features.len() && features[i] == f;
            features.lemma_filter_contains(pred, i);
        }
    }
}

/// What a query expects to find and not to find.
#[derive(Debug, Clone, PartialEq, Eq)]
pub struct ExpectedRelevance<L = Vec<String>> {
    pub relevant_external_ids: L,
    pub irrelevant_external_ids: L,
}

/// Expected labels recorded in an artifact; fixture admission remains separate.
#[derive(Debug, Clone, PartialEq, Eq)]
pub struct ExpectedRelevanceRecord {
    pub relevant_external_ids: Vec<String>,
    pub irrelevant_external_ids: Vec<String>,
}

pub(crate) fn clone_texts(v: &Vec<String>) -> (out: Vec<String>)
    ensures
        out@ == v@,
{
    let mut out: Vec<String> = Vec::new();
    let mut i: usize = 0;
    while i < v.len()
        invariant
            i <= v.len(),
            out@ == v@.subrange(0, i as int),
        decreases v.len() - i,
    {
        out.push(v[i].clone());
        i = i + 1;
        assert(out@ =~= v@.subrange(0, i as int));
    }
    assert(out@ =~= v@);
    out
}

impl ExpectedRelevanceRecord {
    /// The record of a query's expectations, with the same labels in the same order.
    pub fn from(expected: &ExpectedRelevance) -> (r: Self)
        ensures
            r.relevant_external_ids@ == expected.relevant_external_ids@,
            r.irrelevant_external_ids@ == expected.irrelevant_external_ids@,
    {
        ExpectedRelevanceRecord {
            relevant_external_ids: clone_texts(&expected.relevant_external_ids),
            irrelevant_external_ids: clone_texts(&expected.irrelevant_external_ids),
        }
    }
}

/// The change from `before` to `after`, as a signed count.
pub fn signed_delta(before: usize, after: usize) -> (d: i64)
    requires
        before <= i64::MAX,
        after <= i64::MAX,
    ensures
        d == after - before,
{
    after as i64 - before as i64
}

/// The change between two optional counts, when both are known.
pub fn option_usize_delta(before: Option<usize>, after: Option<usize>) -> (d: Option<i64>)
    requires
        before matches Some(b) ==> b <= i64::MAX,
        after matches Some(a) ==> a <= i64::MAX,
    ensures
        d == match (before, after) {
            (Some(b), Some(a)) => Some((a - b) as i64),
            _ => None::<i64>,
        },
{
    match (before, after) {
        (Some(b), Some(a)) => Some(signed_delta(b, a)),
        _ => None,
    }
}

/// A delta applied to the count before gives the count after.
pub proof fn lemma_delta_restores_after(before: int, after: int)
    requires
        0 <= before <= i64::MAX,
        0 <= after <= i64::MAX,
    ensures
        before + (after - before) == after,
        (after - before == 0) <==> (before == after),
{
}

/// How often each operation ran, by name.
pub struct OperationCounts {
    pub counts: TextMap<usize>,
}

impl OperationCounts {
    pub open spec fn wf(&self) -> bool {
        self.counts.wf()
    }

    /// The number of times `name` ran; zero when it never ran.
    pub open spec fn count(&self, name: Seq<char>) -> nat {
        match self.counts.at(name) {
            Some(n) => n as nat,
            None => 0,
        }
    }

    /// No operation has run yet.
    pub fn new() -> (c: Self)
        ensures
            c.wf(),
            forall|name: Seq<char>| c.count(name) == 0,
    {
        OperationCounts { counts: TextMap::new() }
    }

    /// The number of times `name` ran.
    pub fn get(&self, name: &str) -> (n: usize)
        requires
            self.wf(),
        ensures
            n == self.count(name@),
    {
        match self.counts.get(name) {
            Some(n) => *n,
            None => 0,
        }
    }
}

/// Records one more run of `operation`: its count grows by one and every other count
/// stays as it was.
pub fn increment(counts: &mut OperationCounts, operation: &str)
    requires
        old(counts).wf(),
        old(counts).count(operation@) < usize::MAX,
    ensures
        final(counts).wf(),
        final(counts).count(operation@) == old(counts).count(operation@) + 1,
        forall|name: Seq<char>|
            name != operation@ ==> #[trigger] final(counts).count(name) == old(counts).count(name),
{
    let n: usize = counts.get(operation);
    counts.counts.insert(operation, n + 1);
    assert forall|name: Seq<char>| name != operation@ implies #[trigger] counts.count(name)
        == old(counts).count(name) by {
        assert(counts.counts.at(name) == old(counts).counts.at(name));
    }
}

/// The kind of a stored memory object.
#[derive(Debug, Clone, Copy, PartialEq, Eq, Structural)]
pub enum ObjectType {
    Episode,
    Observation,
    Entity,
    MemoryThread,
    DerivedMemory,
    MemoryLink,
}

/// The name of an object type, as its `Debug` form prints it.
pub open spec fn object_type_name(t: ObjectType) -> Seq<char> {
    match t {
        ObjectType::Episode => "Episode"@,
        ObjectType::Observation => "Observation"@,
        ObjectType::Entity => "Entity"@,
        ObjectType::MemoryThread => "MemoryThread"@,
        ObjectType::DerivedMemory => "DerivedMemory"@,
        ObjectType::MemoryLink => "MemoryLink"@,
    }
}

fn object_type_text(t: ObjectType) -> (s: &'static str)
    ensures
        s@ == object_type_name(t),
{
    match t {
        ObjectType::Episode => "Episode",
        ObjectType::Observation => "Observation",
        ObjectType::Entity => "Entity",
        ObjectType::MemoryThread => "MemoryThread",
        ObjectType::DerivedMemory => "DerivedMemory",
        ObjectType::MemoryLink => "MemoryLink",
    }
}

/// What the driver remembers of an object that a scenario admitted.
#[derive(Debug, Clone, PartialEq, Eq)]
pub struct AdmittedObject {
    pub object_type: ObjectType,
    pub source_episode_external_id: Option<String>,
    pub original_raw_ref: Option<String>,
    pub original_setting_key: Option<String>,
}

/// One end of a link, or one target of an operation.
#[derive(Debug, Clone, PartialEq, Eq)]
pub struct MemoryEndpoint {
    pub object_type: ObjectType,
    pub external_id: String,
}

/// What a correction replaces.
#[derive(Debug, Clone, PartialEq, Eq)]
pub enum CorrectionTarget {
    /// A source episode or observation, named with its authoritative original reference.
    SourceObject {
        object_type: ObjectType,
        external_id: String,
        original_raw_ref: Option<String>,
        original_setting_key: Option<String>,
    },
    /// A derived memory, which the replacement supersedes.
    DerivedMemory { external_id: String },
}

/// Why the driver refused a scripted operation.
#[derive(Debug, Clone, PartialEq, Eq)]
pub enum DriverError {
    EndpointNotAdmitted { fixture_id: String, external_id: String },
    LinkAsEndpoint { fixture_id: String },
    NoAuthoritativeReference { fixture_id: String, target_external_id: String },
    CannotCorrect { fixture_id: String, object_type: ObjectType },
    ForgetNotAdmitted { fixture_id: String, target_external_id: String },
    CannotForget { fixture_id: String, object_type: ObjectType },
    CorrectionNotAdmitted { fixture_id: String, target_external_id: String },
    NoSourceEpisode { target_external_id: String },
    NoFollowingQuery { fixture_id: String, event_id: String },
}

pub open spec fn driver_error_text(e: DriverError) -> Seq<char> {
    match e {
        DriverError::EndpointNotAdmitted { fixture_id, external_id } => "scenario "@ + quoted(
            fixture_id@,
        ) + " link endpoint was not admitted: "@ + external_id@,
        DriverError::LinkAsEndpoint { fixture_id } => "scenario "@ + quoted(fixture_id@)
            + " cannot use a memory link as a link endpoint"@,
        DriverError::NoAuthoritativeReference { fixture_id, target_external_id } => "scenario "@
            + quoted(fixture_id@) + " source correction target "@ + quoted(target_external_id@)
            + " has no authoritative original reference"@,
        DriverError::CannotCorrect { fixture_id, object_type } => "scenario "@ + quoted(
            fixture_id@,
        ) + " cannot correct object type "@ + object_type_name(object_type),
        DriverError::ForgetNotAdmitted { fixture_id, target_external_id } => "scenario "@
            + quoted(fixture_id@) + " forget target was not admitted: "@ + target_external_id@,
        DriverError::CannotForget { fixture_id, object_type } => "scenario "@ + quoted(
            fixture_id@,
        ) + " cannot forget object type "@ + object_type_name(object_type),
        DriverError::CorrectionNotAdmitted { fixture_id, target_external_id } => "scenario "@
            + quoted(fixture_id@) + " correction target was not admitted: "@ + target_external_id@,
        DriverError::NoSourceEpisode { .. } => "correction target has no source episode"@,
        DriverError::NoFollowingQuery { fixture_id, event_id } => "scenario "@ + quoted(fixture_id@)
            + " restart event "@ + quoted(event_id@)
            + " has no following scripted query for re-measurement"@,
    }
}

impl DriverError {
    /// The human-readable message of this refusal.
    pub fn message(&self) -> (m: String)
        ensures
            m@ == driver_error_text(*self),
    {
        if let DriverError::NoSourceEpisode { .. } = self {
            return String::from_str("correction target has no source episode");
        }
        let mut m = String::from_str("scenario ");
        match self {
            DriverError::EndpointNotAdmitted { fixture_id, external_id } => {
                m.append(quote(fixture_id.as_str()).as_str());
                m.append(" link endpoint was not admitted: ");
                m.append(external_id.as_str());
            },
            DriverError::LinkAsEndpoint { fixture_id } => {
                m.append(quote(fixture_id.as_str()).as_str());
                m.append(" cannot use a memory link as a link endpoint");
            },
            DriverError::NoAuthoritativeReference { fixture_id, target_external_id } => {
                m.append(quote(fixture_id.as_str()).as_str());
                m.append(" source correction target ");
                m.append(quote(target_external_id.as_str()).as_str());
                m.append(" has no authoritative original reference");
            },
            DriverError::CannotCorrect { fixture_id, object_type } => {
                m.append(quote(fixture_id.as_str()).as_str());
                m.append(" cannot correct object type ");
                m.append(object_type_text(*object_type));
            },
            DriverError::ForgetNotAdmitted { fixture_id, target_external_id } => {
                m.append(quote(fixture_id.as_str()).as_str());
                m.append(" forget target was not admitted: ");
                m.append(target_external_id.as_str());
            },
            DriverError::CannotForget { fixture_id, object_type } => {
                m.append(quote(fixture_id.as_str()).as_str());
                m.append(" cannot forget object type ");
                m.append(object_type_text(*object_type));
            },
            DriverError::CorrectionNotAdmitted { fixture_id, target_external_id } => {
                m.append(quote(fixture_id.as_str()).as_str());
                m.append(" correction target was not admitted: ");
                m.append(target_external_id.as_str());
            },
            DriverError::NoFollowingQuery { fixture_id, event_id } => {
                m.append(quote(fixture_id.as_str()).as_str());
                m.append(" restart event ");
                m.append(quote(event_id.as_str()).as_str());
                m.append(" has no following scripted query for re-measurement");
            },
            DriverError::NoSourceEpisode { .. } => {},
        }
        m
    }
}

/// The kinds of scripted scenario events.
#[derive(Debug, Clone, Copy, PartialEq, Eq, Structural)]
pub enum ScriptedEventKind {
    Experience,
    Derive,
    Probe,
    Remember,
    Correct,
    Forget,
    Link,
    Restart,
    Query,
}

/// The position of the first scripted query after the restart at position `index`,
/// whose retrieval is measured before and after the restart; a restart with no query
/// after it is refused.
pub fn following_query(
    fixture_id: &str,
    event_id: &str,
    kinds: &Vec<ScriptedEventKind>,
    index: usize,
) -> (r: Result<usize, DriverError>)
    ensures
        match r {
            Ok(k) => index < k < kinds@.len() && kinds@[k as int] == ScriptedEventKind::Query
                && forall|j: int| index < j < k ==> #[trigger] kinds@[j] != ScriptedEventKind::Query,
            Err(e) => (e matches DriverError::NoFollowingQuery { fixture_id: f, event_id: v } && f@
                == fixture_id@ && v@ == event_id@) && forall|j: int|
                index < j < kinds@.len() ==> #[trigger] kinds@[j] != ScriptedEventKind::Query,
        },
{
    let mut k: usize = index;
    while k < kinds.len()
        invariant
            index <= k,
            forall|j: int| index < j < k ==> #[trigger] kinds@[j] != ScriptedEventKind::Query,
        decreases kinds@.len() - k,
    {
        if k > index && kinds[k] == ScriptedEventKind::Query {
            return Ok(k);
        }
        k = k + 1;
    }
    Err(DriverError::NoFollowingQuery { fixture_id: string_of(fixture_id), event_id: string_of(event_id) })
}

/// The operations a scripted event of kind `kind` counts once it has run: a remember
/// writes its episode and observation separately when it carries surface texts and
/// through a validated write plan otherwise, then one link per association; an
/// experience writes through a validated plan; a probe or query retrieves; every other
/// kind counts itself.
pub open spec fn event_operations_spec(kind: ScriptedEventKind, surface_texts: bool, association_count: nat) -> Seq<
    Seq<char>,
> {
    match kind {
        ScriptedEventKind::Experience => seq!["prepare"@, "validate_plan"@, "commit"@, "experience"@],
        ScriptedEventKind::Derive => seq!["derive"@],
        ScriptedEventKind::Probe => seq!["retrieve"@],
        ScriptedEventKind::Remember => (if surface_texts {
            seq!["remember_episode"@, "remember_observation"@]
        } else {
            seq!["prepare"@, "validate_plan"@, "commit"@]
        }) + Seq::new(association_count, |i: int| "link"@),
        ScriptedEventKind::Correct => seq!["correct"@],
        ScriptedEventKind::Forget => seq!["forget"@],
        ScriptedEventKind::Link => seq!["link"@],
        ScriptedEventKind::Restart => seq!["restart"@],
        ScriptedEventKind::Query => seq!["retrieve"@],
    }
}

fn names(a: &[&str]) -> (v: Vec<String>)
    ensures
        v@.len() == a@.len(),
        forall|i: int| 0 <= i < a@.len() ==> #[trigger] v@[i]@ == a@[i]@,
{
    let mut v: Vec<String> = Vec::new();
    let mut i: usize = 0;
    while i < a.len()
        invariant
            i <= a@.len(),
            v@.len() == i,
            forall|j: int| 0 <= j < i ==> #[trigger] v@[j]@ == a@[j]@,
        decreases a@.len() - i,
    {
        v.push(string_of(a[i]));
        i = i + 1;
    }
    v
}

/// The operations a scripted event counts once it has run, in the order they run.
pub fn event_operations(kind: ScriptedEventKind, surface_texts: bool, association_count: usize) -> (ops: Vec<String>)
    ensures
        text_views(ops@) == event_operations_spec(kind, surface_texts, association_count as nat),
{
    let mut ops = match kind {
        ScriptedEventKind::Experience => names(&["prepare", "validate_plan", "commit", "experience"]),
        ScriptedEventKind::Derive => names(&["derive"]),
        ScriptedEventKind::Probe => names(&["retrieve"]),
        ScriptedEventKind::Remember => if surface_texts {
            names(&["remember_episode", "remember_observation"])
        } else {
            names(&["prepare", "validate_plan", "commit"])
        },
        ScriptedEventKind::Correct => names(&["correct"]),
        ScriptedEventKind::Forget => names(&["forget"]),
        ScriptedEventKind::Link => names(&["link"]),
        ScriptedEventKind::Restart => names(&["restart"]),
        ScriptedEventKind::Query => names(&["retrieve"]),
    };
    let ghost base = text_views(ops@);
    proof {
        reveal_strlit("prepare");
        reveal_strlit("validate_plan");
        reveal_strlit("commit");
        reveal_strlit("experience");
        reveal_strlit("derive");
        reveal_strlit("retrieve");
        reveal_strlit("remember_episode");
        reveal_strlit("remember_observation");
        reveal_strlit("correct");
        reveal_strlit("forget");
        reveal_strlit("link");
        reveal_strlit("restart");
    }
    if kind == ScriptedEventKind::Remember {
        let mut k: usize = 0;
        while k < association_count
            invariant
                k <= association_count,
                text_views(ops@) == base + Seq::new(k as nat, |i: int| "link"@),
            decreases association_count - k,
        {
            let ghost before = ops@;
            let link = string_of("link");
            ops.push(link);
            assert(ops@ == before.push(link));
            assert(text_views(before) == base + Seq::new(k as nat, |j: int| "link"@));
            assert(text_views(before).len() == before.len());
            assert forall|i: int| 0 <= i < ops@.len() implies #[trigger] text_views(ops@)[i]
                == (base + Seq::new((k + 1) as nat, |j: int| "link"@))[i] by {
                if i < before.len() {
                    assert(ops@[i] == before[i]);
                    assert(text_views(before)[i] == before[i]@);
                    assert(text_views(ops@)[i] == ops@[i]@);
                } else {
                    assert(text_views(ops@)[i] == link@);
                }
            }
            assert(text_views(ops@).len() == base.len() + k + 1);
            k = k + 1;
            assert(text_views(ops@) =~= base + Seq::new(k as nat, |i: int| "link"@));
        }
        assert(base =~= (if surface_texts {
            seq!["remember_episode"@, "remember_observation"@]
        } else {
            seq!["prepare"@, "validate_plan"@, "commit"@]
        }));
    } else {
        assert(text_views(ops@) =~= event_operations_spec(kind, surface_texts, association_count as nat));
    }
    ops
}

/// How many times `name` occurs among `ops`.
pub open spec fn occurrences(ops: Seq<Seq<char>>, name: Seq<char>) -> nat
    decreases ops.len(),
{
    if ops.len() == 0 {
        0
    } else {
        occurrences(ops.drop_last(), name) + if ops.last() == name {
            1nat
        } else {
            0nat
        }
    }
}

/// Counts each of `ops` once more, in order.
pub fn record_operations(counts: &mut OperationCounts, ops: &Vec<String>)
    requires
        old(counts).wf(),
        forall|name: Seq<char>| #[trigger] old(counts).count(name) + ops@.len() <= usize::MAX,
    ensures
        final(counts).wf(),
        forall|name: Seq<char>|
            #[trigger] final(counts).count(name) == old(counts).count(name) + occurrences(text_views(ops@), name),
{
    let ghost start = *counts;
    let mut i: usize = 0;
    while i < ops.len()
        invariant
            i <= ops@.len(),
            counts.wf(),
            forall|name: Seq<char>| #[trigger] start.count(name) + ops@.len() <= usize::MAX,
            forall|name: Seq<char>|
                #[trigger] counts.count(name) == start.count(name) + occurrences(
                    text_views(ops@).subrange(0, i as int),
                    name,
                ),
        decreases ops@.len() - i,
    {
        proof {
            assert(text_views(ops@).subrange(0, i + 1).drop_last() =~= text_views(ops@).subrange(0, i as int));
            lemma_occurrences_bounded(text_views(ops@).subrange(0, i as int), ops[i as int]@);
            assert(start.count(ops[i as int]@) + ops@.len() <= usize::MAX);
        }
        let ghost before = *counts;
        increment(counts, ops[i].as_str());
        assert forall|name: Seq<char>| #[trigger] counts.count(name) == start.count(name) + occurrences(
            text_views(ops@).subrange(0, i + 1),
            name,
        ) by {
            assert(text_views(ops@).subrange(0, i + 1).last() == ops@[i as int]@);
            if name != ops@[i as int]@ {
                assert(counts.count(name) == before.count(name));
            }
        }
        i = i + 1;
    }
    assert(text_views(ops@).subrange(0, ops@.len() as int) =~= text_views(ops@));
}

proof fn lemma_occurrences_bounded(ops: Seq<Seq<char>>, name: Seq<char>)
    ensures
        occurrences(ops, name) <= ops.len(),
    decreases ops.len(),
{
    if ops.len() > 0 {
        lemma_occurrences_bounded(ops.drop_last(), name);
    }
}

/// The endpoint of a scripted link: an admitted object other than a link.
pub fn endpoint(fixture_id: &str, admitted: &TextMap<AdmittedObject>, external_id: &str) -> (r: Result<
    MemoryEndpoint,
    DriverError,
>)
    requires
        admitted.wf(),
    ensures
        match admitted.at(external_id@) {
            None => r matches Err(DriverError::EndpointNotAdmitted { fixture_id: f, external_id: x })
                && f@ == fixture_id@ && x@ == external_id@,
            Some(o) => if o.object_type == ObjectType::MemoryLink {
                r matches Err(DriverError::LinkAsEndpoint { fixture_id: f }) && f@ == fixture_id@
            } else {
                r matches Ok(ep) && ep.object_type == o.object_type && ep.external_id@
                    == external_id@
            },
        },
{
    match admitted.get(external_id) {
        None => Err(
            DriverError::EndpointNotAdmitted {
                fixture_id: string_of(fixture_id),
                external_id: string_of(external_id),
            },
        ),
        Some(object) => {
            if object.object_type == ObjectType::MemoryLink {
                Err(DriverError::LinkAsEndpoint { fixture_id: string_of(fixture_id) })
            } else {
                Ok(MemoryEndpoint { object_type: object.object_type, external_id: string_of(external_id) })
            }
        },
    }
}

/// What correcting the admitted object `target` gives: a source episode or observation
/// needs an authoritative original reference and supersedes nothing; a derived memory
/// supersedes itself; other kinds cannot be corrected.
pub open spec fn correction_outcome(
    fixture_id: Seq<char>,
    target_external_id: Seq<char>,
    target: AdmittedObject,
    r: Result<(CorrectionTarget, Vec<String>), DriverError>,
) -> bool {
    match target.object_type {
        ObjectType::Episode | ObjectType::Observation => if target.original_raw_ref is None
            && target.original_setting_key is None {
            r matches Err(DriverError::NoAuthoritativeReference { fixture_id: f, target_external_id: t })
                && f@ == fixture_id && t@ == target_external_id
        } else {
            r matches Ok((CorrectionTarget::SourceObject { object_type, external_id, original_raw_ref, original_setting_key }, sup))
                && object_type == target.object_type && external_id@ == target_external_id
                && original_raw_ref == target.original_raw_ref && original_setting_key
                == target.original_setting_key && sup@.len() == 0
        },
        ObjectType::DerivedMemory => r matches Ok((CorrectionTarget::DerivedMemory { external_id }, sup))
            && external_id@ == target_external_id && sup@.len() == 1 && sup@[0]@
            == target_external_id,
        _ => r matches Err(DriverError::CannotCorrect { fixture_id: f, object_type })
            && f@ == fixture_id && object_type == target.object_type,
    }
}

/// Which admitted objects a correction may target, by kind: an episode or observation
/// with a recorded reference or setting key is corrected as a source object and
/// supersedes nothing, one with neither is refused as having no authoritative original;
/// a derived memory is corrected by superseding itself; entities, memory threads and
/// memory links cannot be corrected.
pub proof fn lemma_correction_by_kind(
    fixture_id: Seq<char>,
    target_external_id: Seq<char>,
    target: AdmittedObject,
    r: Result<(CorrectionTarget, Vec<String>), DriverError>,
)
    requires
        correction_outcome(fixture_id, target_external_id, target, r),
    ensures
        (target.object_type == ObjectType::Entity || target.object_type == ObjectType::MemoryThread
            || target.object_type == ObjectType::MemoryLink) ==> (r matches Err(
            DriverError::CannotCorrect { object_type, .. },
        ) && object_type == target.object_type),
        target.object_type == ObjectType::DerivedMemory ==> (r matches Ok(
            (CorrectionTarget::DerivedMemory { external_id }, sup),
        ) && external_id@ == target_external_id && sup@.len() == 1 && sup@[0]@ == target_external_id),
        ((target.object_type == ObjectType::Episode || target.object_type == ObjectType::Observation)
            && (target.original_raw_ref is Some || target.original_setting_key is Some)) ==> (r matches Ok(
            (CorrectionTarget::SourceObject { object_type, external_id, .. }, sup),
        ) && object_type == target.object_type && external_id@ == target_external_id && sup@.len() == 0),
        ((target.object_type == ObjectType::Episode || target.object_type == ObjectType::Observation)
            && target.original_raw_ref is None && target.original_setting_key is None) ==> r is Err,
{
}

/// The target of a scripted correction and the derived memories it supersedes.
pub fn correction_target_input(
    fixture_id: &str,
    target_external_id: &str,
    target: &AdmittedObject,
) -> (r: Result<(CorrectionTarget, Vec<String>), DriverError>)
    ensures
        correction_outcome(fixture_id@, target_external_id@, *target, r),
{
    match target.object_type {
        ObjectType::Episode | ObjectType::Observation => {
            if target.original_raw_ref.is_none() && target.original_setting_key.is_none() {
                return Err(
                    DriverError::NoAuthoritativeReference {
                        fixture_id: string_of(fixture_id),
                        target_external_id: string_of(target_external_id),
                    },
                );
            }
            Ok(
                (
                    CorrectionTarget::SourceObject {
                        object_type: target.object_type,
                        external_id: string_of(target_external_id),
                        original_raw_ref: target.original_raw_ref.clone(),
                        original_setting_key: target.original_setting_key.clone(),
                    },
                    Vec::new(),
                ),
            )
        },
        ObjectType::DerivedMemory => {
            let mut sup: Vec<String> = Vec::new();
            sup.push(string_of(target_external_id));
            Ok((CorrectionTarget::DerivedMemory { external_id: string_of(target_external_id) }, sup))
        },
        _ => Err(
            DriverError::CannotCorrect {
                fixture_id: string_of(fixture_id),
                object_type: target.object_type,
            },
        ),
    }
}

/// Kinds of object that a scripted forget may name.
pub open spec fn forgettable(t: ObjectType) -> bool {
    t == ObjectType::Episode || t == ObjectType::Observation || t == ObjectType::DerivedMemory
        || t == ObjectType::MemoryThread
}

/// A scripted forget may name every kind of admitted object but two: episodes,
/// observations, derived memories and memory threads can be forgotten; entities and
/// memory links cannot.
pub proof fn lemma_forget_refuses_only_entities_and_links()
    ensures
        forgettable(ObjectType::Episode),
        forgettable(ObjectType::Observation),
        forgettable(ObjectType::DerivedMemory),
        forgettable(ObjectType::MemoryThread),
        !forgettable(ObjectType::Entity),
        !forgettable(ObjectType::MemoryLink),
{
}

/// The target of a scripted forget: an admitted episode, observation, derived memory
/// or thread.
pub fn forget_target(fixture_id: &str, admitted: &TextMap<AdmittedObject>, target_external_id: &str) -> (r:
    Result<MemoryEndpoint, DriverError>)
    requires
        admitted.wf(),
    ensures
        match admitted.at(target_external_id@) {
            None => r matches Err(DriverError::ForgetNotAdmitted { fixture_id: f, target_external_id: t })
                && f@ == fixture_id@ && t@ == target_external_id@,
            Some(o) => if !forgettable(o.object_type) {
                r matches Err(DriverError::CannotForget { fixture_id: f, object_type })
                    && f@ == fixture_id@ && object_type == o.object_type
            } else {
                r matches Ok(ep) && ep.object_type == o.object_type && ep.external_id@
                    == target_external_id@
            },
        },
        (admitted.at(target_external_id@) matches Some(o) && (o.object_type == ObjectType::Episode
            || o.object_type == ObjectType::Observation || o.object_type == ObjectType::DerivedMemory
            || o.object_type == ObjectType::MemoryThread)) ==> (r matches Ok(ep) && ep.object_type
            == admitted.at(target_external_id@)->0.object_type && ep.external_id@ == target_external_id@),
        (admitted.at(target_external_id@) matches Some(o) && (o.object_type == ObjectType::Entity
            || o.object_type == ObjectType::MemoryLink)) ==> (r matches Err(
            DriverError::CannotForget { object_type, .. },
        ) && object_type == admitted.at(target_external_id@)->0.object_type),
{
    proof {
        lemma_forget_refuses_only_entities_and_links();
    }
    match admitted.get(target_external_id) {
        None => Err(
            DriverError::ForgetNotAdmitted {
                fixture_id: string_of(fixture_id),
                target_external_id: string_of(target_external_id),
            },
        ),
        Some(object) => {
            let t = object.object_type;
            if !(t == ObjectType::Episode || t == ObjectType::Observation || t
                == ObjectType::DerivedMemory || t == ObjectType::MemoryThread) {
                Err(DriverError::CannotForget { fixture_id: string_of(fixture_id), object_type: t })
            } else {
                Ok(MemoryEndpoint { object_type: t, external_id: string_of(target_external_id) })
            }
        },
    }
}

/// What a committed write reported, as far as the driver reads it.
pub struct WriteOutcomeSummary {
    /// The vector-indexing failure, rendered, if there was one.
    pub vector_indexing_failure: Option<String>,
    /// The repair-needed markers, rendered.
    pub repair_needed: Vec<String>,
    /// The statistics-update failure, rendered, if there was one.
    pub stats_update_failure: Option<String>,
    /// How many objects were indexed for vector search.
    pub vector_indexed_object_count: usize,
}

/// Why a committed write is not accepted as healthy.
#[derive(Debug, Clone, Copy, PartialEq, Eq, Structural)]
pub enum WriteOutcomeFault {
    VectorIndexingFailure,
    RepairNeeded,
    StatsUpdateFailure,
    NothingVectorIndexed,
}

/// A write is healthy when vector indexing did not fail, no repair is needed, the
/// statistics update did not fail and at least one object was vector-indexed; the
/// first of these that does not hold is reported.
pub fn checked_write_outcome(outcome: &WriteOutcomeSummary) -> (r: Result<(), WriteOutcomeFault>)
    ensures
        r == if outcome.vector_indexing_failure is Some {
            Err::<(), WriteOutcomeFault>(WriteOutcomeFault::VectorIndexingFailure)
        } else if outcome.repair_needed@.len() > 0 {
            Err(WriteOutcomeFault::RepairNeeded)
        } else if outcome.stats_update_failure is Some {
            Err(WriteOutcomeFault::StatsUpdateFailure)
        } else if outcome.vector_indexed_object_count == 0 {
            Err(WriteOutcomeFault::NothingVectorIndexed)
        } else {
            Ok(())
        },
{
    if outcome.vector_indexing_failure.is_some() {
        return Err(WriteOutcomeFault::VectorIndexingFailure);
    }
    if outcome.repair_needed.len() > 0 {
        return Err(WriteOutcomeFault::RepairNeeded);
    }
    if outcome.stats_update_failure.is_some() {
        return Err(WriteOutcomeFault::StatsUpdateFailure);
    }
    if outcome.vector_indexed_object_count == 0 {
        return Err(WriteOutcomeFault::NothingVectorIndexed);
    }
    Ok(())
}

/// Rendered items in square brackets, separated by `, `, as a list is debug-printed.
pub open spec fn bracketed(items: Seq<String>) -> Seq<char> {
    "["@ + joined(items, items.len() as int) + "]"@
}

/// The first `n` rendered items separated by `, `.
pub open spec fn joined(items: Seq<String>, n: int) -> Seq<char>
    decreases n,
{
    if n <= 0 {
        Seq::empty()
    } else if n == 1 {
        items[0]@
    } else {
        joined(items, n - 1) + ", "@ + items[n - 1]@
    }
}

fn bracketed_text(items: &Vec<String>) -> (s: String)
    ensures
        s@ == bracketed(items@),
{
    let mut s = String::from_str("[");
    let ghost start = s@;
    let mut i: usize = 0;
    while i < items.len()
        invariant
            i <= items@.len(),
            start == "["@,
            s@ == start + joined(items@, i as int),
        decreases items@.len() - i,
    {
        if i > 0 {
            s.append(", ");
        }
        s.append(items[i].as_str());
        i = i + 1;
    }
    s.append("]");
    s
}

/// The message of an unhealthy write of an event.
pub open spec fn write_fault_text(
    fixture_id: Seq<char>,
    event_id: Seq<char>,
    outcome: WriteOutcomeSummary,
    fault: WriteOutcomeFault,
) -> Seq<char> {
    "scenario "@ + quoted(fixture_id) + " event "@ + quoted(event_id) + match fault {
        WriteOutcomeFault::VectorIndexingFailure => " committed with vector-indexing failure: "@
            + outcome.vector_indexing_failure->0@,
        WriteOutcomeFault::RepairNeeded => " committed with repair-needed markers: "@ + bracketed(
            outcome.repair_needed@,
        ),
        WriteOutcomeFault::StatsUpdateFailure => " committed with stats-update failure: "@
            + outcome.stats_update_failure->0@,
        WriteOutcomeFault::NothingVectorIndexed => " committed without vector-indexed objects"@,
    }
}

impl WriteOutcomeFault {
    /// The message of this fault for the write of an event.
    pub fn message(&self, fixture_id: &str, event_id: &str, outcome: &WriteOutcomeSummary) -> (m: String)
        requires
            *self == WriteOutcomeFault::VectorIndexingFailure ==> outcome.vector_indexing_failure is Some,
            *self == WriteOutcomeFault::StatsUpdateFailure ==> outcome.stats_update_failure is Some,
        ensures
            m@ == write_fault_text(fixture_id@, event_id@, *outcome, *self),
    {
        let mut m = String::from_str("scenario ");
        m.append(quote(fixture_id).as_str());
        m.append(" event ");
        m.append(quote(event_id).as_str());
        match self {
            WriteOutcomeFault::VectorIndexingFailure => {
                m.append(" committed with vector-indexing failure: ");
                match &outcome.vector_indexing_failure {
                    Some(f) => m.append(f.as_str()),
                    None => {},
                }
            },
            WriteOutcomeFault::RepairNeeded => {
                m.append(" committed with repair-needed markers: ");
                m.append(bracketed_text(&outcome.repair_needed).as_str());
            },
            WriteOutcomeFault::StatsUpdateFailure => {
                m.append(" committed with stats-update failure: ");
                match &outcome.stats_update_failure {
                    Some(f) => m.append(f.as_str()),
                    None => {},
                }
            },
            WriteOutcomeFault::NothingVectorIndexed => {
                m.append(" committed without vector-indexed objects");
            },
        }
        m
    }
}

/// An item of a retrieved context pack, as far as restart probes read it.
#[derive(Debug, Clone, PartialEq, Eq)]
pub struct ReturnedItem {
    pub kind: String,
    pub internal_id: String,
    pub external_id: Option<String>,
    pub episode_external_id: Option<String>,
}

/// An item stands for `id` when its own external id, or that of the episode it
/// belongs to, is `id`.
pub open spec fn item_represents(item: ReturnedItem, id: Seq<char>) -> bool {
    (item.external_id matches Some(x) && x@ == id) || (item.episode_external_id matches Some(x)
        && x@ == id)
}

pub open spec fn some_item_represents(items: Seq<ReturnedItem>, id: Seq<char>) -> bool {
    exists|k: int| 0 <= k < items.len() && item_represents(#[trigger] items[k], id)
}

/// How many of the expected relevant ids some returned item stands for.
pub open spec fn relevant_returned(relevant: Seq<String>, items: Seq<ReturnedItem>) -> nat
    decreases relevant.len(),
{
    if relevant.len() == 0 {
        0
    } else {
        relevant_returned(relevant.drop_last(), items) + if some_item_represents(
            items,
            relevant.last()@,
        ) {
            1nat
        } else {
            0nat
        }
    }
}

fn optional_text_is(o: &Option<String>, id: &String) -> (r: bool)
    ensures
        r == (o matches Some(x) && x@ == id@),
{
    match o {
        Some(x) => *x == *id,
        None => false,
    }
}

fn represented(items: &Vec<ReturnedItem>, id: &String) -> (r: bool)
    ensures
        r == some_item_represents(items@, id@),
{
    let mut k: usize = 0;
    while k < items.len()
        invariant
            k <= items.len(),
            forall|j: int| 0 <= j < k ==> !item_represents(#[trigger] items@[j], id@),
        decreases items.len() - k,
    {
        if optional_text_is(&items[k].external_id, id) || optional_text_is(
            &items[k].episode_external_id,
            id,
        ) {
            assert(item_represents(items@[k as int], id@));
            return true;
        }
        k = k + 1;
    }
    false
}

/// How many of the expected relevant ids a pack returned, matching an item by its own
/// external id or by that of the episode it represents.
pub fn relevant_returned_count(relevant: &Vec<String>, items: &Vec<ReturnedItem>) -> (n: usize)
    ensures
        n == relevant_returned(relevant@, items@),
        n <= relevant@.len(),
{
    let mut n: usize = 0;
    let mut i: usize = 0;
    while i < relevant.len()
        invariant
            i <= relevant.len(),
            n == relevant_returned(relevant@.subrange(0, i as int), items@),
            n <= i,
        decreases relevant.len() - i,
    {
        assert(relevant@.subrange(0, i + 1).drop_last() =~= relevant@.subrange(0, i as int));
        if represented(items, &relevant[i]) {
            n = n + 1;
        }
        i = i + 1;
    }
    assert(relevant@.subrange(0, relevant@.len() as int) =~= relevant@);
    n
}

/// The integer measurements of a restart probe.
#[derive(Debug, Clone, PartialEq, Eq)]
pub struct RestartProbeCounts {
    pub returned_object_ids: Vec<String>,
    pub relevant_returned_count: usize,
    pub expected_relevant_count: usize,
    pub graph_relation_count: Option<usize>,
    pub graph_verified_count: Option<usize>,
    pub fanout_decision_count: Option<usize>,
    pub selectivity_decision_count: Option<usize>,
    pub scored_selectivity_count: Option<usize>,
    pub fallback_selectivity_count: Option<usize>,
}

/// How the integer measurements of a restart probe changed across the restart.
#[derive(Debug, Clone, PartialEq, Eq)]
pub struct RestartProbeCountDelta {
    pub returned_object_count: i64,
    pub relevant_returned_count: i64,
    pub graph_relation_count: Option<i64>,
    pub graph_verified_count: Option<i64>,
    pub fanout_decision_count: Option<i64>,
    pub selectivity_decision_count: Option<i64>,
    pub scored_selectivity_count: Option<i64>,
    pub fallback_selectivity_count: Option<i64>,
    pub stable_returned_objects: bool,
}

/// Every count fits in `i64`.
pub open spec fn counts_fit(c: RestartProbeCounts) -> bool {
    &&& c.returned_object_ids@.len() <= i64::MAX
    &&& c.relevant_returned_count <= i64::MAX
    &&& (c.graph_relation_count matches Some(x) ==> x <= i64::MAX)
    &&& (c.graph_verified_count matches Some(x) ==> x <= i64::MAX)
    &&& (c.fanout_decision_count matches Some(x) ==> x <= i64::MAX)
    &&& (c.selectivity_decision_count matches Some(x) ==> x <= i64::MAX)
    &&& (c.scored_selectivity_count matches Some(x) ==> x <= i64::MAX)
    &&& (c.fallback_selectivity_count matches Some(x) ==> x <= i64::MAX)
}

pub open spec fn optional_delta(before: Option<usize>, after: Option<usize>) -> Option<i64> {
    match (before, after) {
        (Some(b), Some(a)) => Some((a - b) as i64),
        _ => None,
    }
}

/// The same texts in the same order.
pub open spec fn same_texts(a: Seq<String>, b: Seq<String>) -> bool {
    a.len() == b.len() && forall|i: int| 0 <= i < a.len() ==> #[trigger] a[i]@ == b[i]@
}

fn texts_equal(a: &Vec<String>, b: &Vec<String>) -> (r: bool)
    ensures
        r == same_texts(a@, b@),
{
    if a.len() != b.len() {
        return false;
    }
    let mut i: usize = 0;
    while i < a.len()
        invariant
            a.len() == b.len(),
            i <= a.len(),
            forall|j: int| 0 <= j < i ==> #[trigger] a@[j]@ == b@[j]@,
        decreases a.len() - i,
    {
        if a[i] != b[i] {
            return false;
        }
        i = i + 1;
    }
    true
}

/// The change of each measurement across a restart; an optional measurement changes
/// only when it was taken both times.
pub fn restart_probe_delta(before: &RestartProbeCounts, after: &RestartProbeCounts) -> (d:
    RestartProbeCountDelta)
    requires
        counts_fit(*before),
        counts_fit(*after),
    ensures
        d.returned_object_count == after.returned_object_ids@.len()
            - before.returned_object_ids@.len(),
        d.relevant_returned_count == after.relevant_returned_count - before.relevant_returned_count,
        d.graph_relation_count == optional_delta(before.graph_relation_count, after.graph_relation_count),
        d.graph_verified_count == optional_delta(before.graph_verified_count, after.graph_verified_count),
        d.fanout_decision_count == optional_delta(before.fanout_decision_count, after.fanout_decision_count),
        d.selectivity_decision_count == optional_delta(
            before.selectivity_decision_count,
            after.selectivity_decision_count,
        ),
        d.scored_selectivity_count == optional_delta(
            before.scored_selectivity_count,
            after.scored_selectivity_count,
        ),
        d.fallback_selectivity_count == optional_delta(
            before.fallback_selectivity_count,
            after.fallback_selectivity_count,
        ),
        d.stable_returned_objects == same_texts(before.returned_object_ids@, after.returned_object_ids@),
{
    RestartProbeCountDelta {
        returned_object_count: signed_delta(
            before.returned_object_ids.len(),
            after.returned_object_ids.len(),
        ),
        relevant_returned_count: signed_delta(
            before.relevant_returned_count,
            after.relevant_returned_count,
        ),
        graph_relation_count: option_usize_delta(
            before.graph_relation_count,
            after.graph_relation_count,
        ),
        graph_verified_count: option_usize_delta(
            before.graph_verified_count,
            after.graph_verified_count,
        ),
        fanout_decision_count: option_usize_delta(
            before.fanout_decision_count,
            after.fanout_decision_count,
        ),
        selectivity_decision_count: option_usize_delta(
            before.selectivity_decision_count,
            after.selectivity_decision_count,
        ),
        scored_selectivity_count: option_usize_delta(
            before.scored_selectivity_count,
            after.scored_selectivity_count,
        ),
        fallback_selectivity_count: option_usize_delta(
            before.fallback_selectivity_count,
            after.fallback_selectivity_count,
        ),
        stable_returned_objects: texts_equal(&before.returned_object_ids, &after.returned_object_ids),
    }
}

/// A probe compared with itself shows no change and stable returned objects.
pub proof fn lemma_restart_delta_of_unchanged_probe(c: RestartProbeCounts)
    requires
        counts_fit(c),
    ensures
        same_texts(c.returned_object_ids@, c.returned_object_ids@),
        c.graph_relation_count is Some ==> optional_delta(c.graph_relation_count, c.graph_relation_count)
            == Some(0i64),
        c.graph_relation_count is None ==> optional_delta(c.graph_relation_count, c.graph_relation_count)
            is None,
{
}

/// The id a returned item is reported under: its external id, else its kind and
/// internal id joined by `:`.
pub open spec fn reported_id(item: ReturnedItem) -> Seq<char> {
    match item.external_id {
        Some(x) => x@,
        None => item.kind@ + ":"@ + item.internal_id@,
    }
}

/// The distinct ids of the returned items, in increasing order.
pub fn returned_object_ids(items: &Vec<ReturnedItem>) -> (ids: Vec<String>)
    ensures
        strictly_sorted(ids@),
        forall|x: Seq<char>|
            #[trigger] has_text(ids@, x) <==> exists|k: int|
                0 <= k < items@.len() && reported_id(#[trigger] items@[k]) == x,
{
    let mut all: Vec<String> = Vec::new();
    let mut k: usize = 0;
    while k < items.len()
        invariant
            k <= items@.len(),
            all@.len() == k,
            forall|j: int| 0 <= j < k ==> #[trigger] all@[j]@ == reported_id(items@[j]),
        decreases items@.len() - k,
    {
        let id = match &items[k].external_id {
            Some(x) => x.clone(),
            None => {
                let mut id = items[k].kind.clone();
                id.append(":");
                id.append(items[k].internal_id.as_str());
                id
            },
        };
        all.push(id);
        k = k + 1;
    }
    let ghost all_view = all@;
    let ids = sorted_unique_texts(all);
    assert forall|x: Seq<char>|
        #[trigger] has_text(ids@, x) <==> exists|k: int|
            0 <= k < items@.len() && reported_id(#[trigger] items@[k]) == x by {
        if has_text(all_view, x) {
            let j = choose|j: int| 0 <= j < all_view.len() && #[trigger] all_view[j]@ == x;
            assert(reported_id(items@[j]) == x);
        }
        if exists|k: int| 0 <= k < items@.len() && reported_id(#[trigger] items@[k]) == x {
            let k = choose|k: int| 0 <= k < items@.len() && reported_id(#[trigger] items@[k]) == x;
            assert(all_view[k]@ == x);
        }
    }
    ids
}

} // verus!
