//! The curated benchmark selection manifest and the rules that admit it.
use vstd::prelude::*;

use crate::render::{decimal_digits, decimal_text, quote, quoted};
use crate::text::{
    contains_text, has_duplicate, has_duplicate_text, is_blank, is_blank_spec,
    seq_contains_text, text_eq,
};

verus! {

/// The only manifest schema version this library reads.
pub const SELECTION_MANIFEST_SCHEMA_VERSION: u32 = 2;

/// The seed recorded in every fixture set converted from the benchmarks.
pub const BENCHMARK_FIXTURE_SEED: u64 = 0x0023_2026_0718u64;

/// The curated selection of benchmark rows.
#[derive(Debug, Clone, PartialEq, Eq)]
pub struct SelectionManifest {
    pub schema_version: u32,
    pub instances: Vec<InstanceSelection>,
}

/// One selected benchmark row and what the curator recorded about it.
#[derive(Debug, Clone, PartialEq, Eq)]
pub struct InstanceSelection {
    pub fixture_id: String,
    pub source: BenchmarkSource,
    pub source_instance_id: String,
    pub source_qa_index: Option<usize>,
    pub scenario_kind: ScenarioKind,
    pub expected_question_type: String,
    pub selected_session_ids: Vec<String>,
    pub sampled_negative_turn_ids: Vec<String>,
    pub similarity_nearer_external_id: String,
    pub similarity_farther_external_id: String,
    pub selection_proof: SelectionProof,
}

/// The benchmark a row is taken from.
#[derive(Debug, Clone, Copy, PartialEq, Eq, PartialOrd, Ord, Structural)]
pub enum BenchmarkSource {
    LongmemevalS,
    Locomo,
}

/// What a selected row is meant to exercise.
#[derive(Debug, Clone, Copy, PartialEq, Eq, PartialOrd, Ord, Structural)]
pub enum ScenarioKind {
    Update,
    Temporal,
    MultiEvidence,
    SingleHopControl,
    Abstention,
}

/// The continuity scenario pattern that a converted row belongs to.
#[derive(Debug, Clone, Copy, PartialEq, Eq, Structural)]
pub enum ScenarioPattern {
    EntrenchedCorrection,
    TemporalPatterns,
    MultiEvidenceAssembly,
    Autobiographical,
    Abstention,
}

pub open spec fn pattern_of(kind: ScenarioKind) -> ScenarioPattern {
    match kind {
        ScenarioKind::Update => ScenarioPattern::EntrenchedCorrection,
        ScenarioKind::Temporal => ScenarioPattern::TemporalPatterns,
        ScenarioKind::MultiEvidence => ScenarioPattern::MultiEvidenceAssembly,
        ScenarioKind::SingleHopControl => ScenarioPattern::Autobiographical,
        ScenarioKind::Abstention => ScenarioPattern::Abstention,
    }
}

impl ScenarioKind {
    /// The scenario pattern a row of this kind is converted into.
    pub fn pattern(self) -> (p: ScenarioPattern)
        ensures
            p == pattern_of(self),
    {
        match self {
            ScenarioKind::Update => ScenarioPattern::EntrenchedCorrection,
            ScenarioKind::Temporal => ScenarioPattern::TemporalPatterns,
            ScenarioKind::MultiEvidence => ScenarioPattern::MultiEvidenceAssembly,
            ScenarioKind::SingleHopControl => ScenarioPattern::Autobiographical,
            ScenarioKind::Abstention => ScenarioPattern::Abstention,
        }
    }
}

/// Evidence that a row was selected by the rules.
#[derive(Debug, Clone, PartialEq, Eq)]
pub struct SelectionProof {
    pub machine_derived: MachineDerivedPredicates,
    pub curator_asserted: CuratorAssertions,
}

/// Predicates derived from the source rows by machine.
#[derive(Debug, Clone, PartialEq, Eq)]
pub struct MachineDerivedPredicates {
    pub session_count: usize,
    pub evidence_clean: bool,
    pub no_img_url_in_evidence: Option<bool>,
    pub gold_turn_ids_empty: Option<bool>,
}

/// What the curator asserted by hand.
#[derive(Debug, Clone, PartialEq, Eq)]
pub struct CuratorAssertions {
    pub self_contained: bool,
}

/// Why a manifest was refused.
#[derive(Debug, Clone, PartialEq, Eq)]
pub enum SelectionError {
    UnsupportedSchemaVersion { version: u32 },
    NoInstances,
    EmptyIdentityField,
    DuplicateFixtureId { fixture_id: String },
    SessionCountOutOfRange { fixture_id: String, found: usize },
    DuplicateSessions { fixture_id: String },
    SessionCountMismatch { fixture_id: String, recorded: usize, selected: usize },
    EvidenceNotClean { fixture_id: String },
    NotSelfContained { fixture_id: String },
    NoSampledNegative { fixture_id: String },
    DuplicateNegatives { fixture_id: String },
    SimilarityNotDistinct { fixture_id: String },
    FartherNotNegative { fixture_id: String },
    LongmemevalQaIndexSet { fixture_id: String },
    LongmemevalPredicates { fixture_id: String },
    LocomoQaIndexMissing { fixture_id: String },
    LocomoPredicates { fixture_id: String },
}

/// The rule that a refused instance broke, without its data.
pub enum SelectionRule {
    EmptyIdentityField,
    DuplicateFixtureId,
    SessionCountOutOfRange,
    DuplicateSessions,
    SessionCountMismatch,
    EvidenceNotClean,
    NotSelfContained,
    NoSampledNegative,
    DuplicateNegatives,
    SimilarityNotDistinct,
    FartherNotNegative,
    LongmemevalQaIndexSet,
    LongmemevalPredicates,
    LocomoQaIndexMissing,
    LocomoPredicates,
}

/// The first rule that one selection breaks, given whether an earlier selection of
/// the manifest already uses its fixture id; `None` when it breaks none.
pub open spec fn instance_violation(sel: InstanceSelection, id_seen: bool) -> Option<SelectionRule> {
    let sessions = sel.selected_session_ids@;
    let negatives = sel.sampled_negative_turn_ids@;
    let derived = sel.selection_proof.machine_derived;
    if is_blank_spec(sel.fixture_id@) || is_blank_spec(sel.source_instance_id@) || is_blank_spec(
        sel.expected_question_type@,
    ) {
        Some(SelectionRule::EmptyIdentityField)
    } else if id_seen {
        Some(SelectionRule::DuplicateFixtureId)
    } else if !(3 <= sessions.len() <= 5) {
        Some(SelectionRule::SessionCountOutOfRange)
    } else if has_duplicate_text(sessions) {
        Some(SelectionRule::DuplicateSessions)
    } else if derived.session_count != sessions.len() {
        Some(SelectionRule::SessionCountMismatch)
    } else if !derived.evidence_clean {
        Some(SelectionRule::EvidenceNotClean)
    } else if !sel.selection_proof.curator_asserted.self_contained {
        Some(SelectionRule::NotSelfContained)
    } else if negatives.len() == 0 {
        Some(SelectionRule::NoSampledNegative)
    } else if has_duplicate_text(negatives) {
        Some(SelectionRule::DuplicateNegatives)
    } else if sel.similarity_nearer_external_id@ == sel.similarity_farther_external_id@ {
        Some(SelectionRule::SimilarityNotDistinct)
    } else if !seq_contains_text(negatives, sel.similarity_farther_external_id@) {
        Some(SelectionRule::FartherNotNegative)
    } else {
        match sel.source {
            BenchmarkSource::LongmemevalS => if sel.source_qa_index is Some {
                Some(SelectionRule::LongmemevalQaIndexSet)
            } else if derived.gold_turn_ids_empty is None || derived.no_img_url_in_evidence is Some {
                Some(SelectionRule::LongmemevalPredicates)
            } else {
                None
            },
            BenchmarkSource::Locomo => if sel.source_qa_index is None {
                Some(SelectionRule::LocomoQaIndexMissing)
            } else if derived.no_img_url_in_evidence is None || derived.gold_turn_ids_empty is Some {
                Some(SelectionRule::LocomoPredicates)
            } else {
                None
            },
        }
    }
}

/// An earlier selection of the manifest uses the fixture id of selection `i`.
pub open spec fn fixture_id_seen(instances: Seq<InstanceSelection>, i: int) -> bool {
    exists|j: int| 0 <= j < i && #[trigger] instances[j].fixture_id@ == instances[i].fixture_id@
}

pub open spec fn violation_at(instances: Seq<InstanceSelection>, i: int) -> Option<SelectionRule> {
    instance_violation(instances[i], fixture_id_seen(instances, i))
}

/// A manifest is admitted when it has the supported schema version, at least one
/// selection, and no selection breaks a rule.
pub open spec fn manifest_admitted(m: SelectionManifest) -> bool {
    &&& m.schema_version == SELECTION_MANIFEST_SCHEMA_VERSION
    &&& m.instances@.len() > 0
    &&& forall|i: int| 0 <= i < m.instances@.len() ==> violation_at(m.instances@, i) is None
}

/// The error reported for a selection that breaks `rule`, with that selection's data.
pub open spec fn error_for_rule(e: SelectionError, rule: SelectionRule, sel: InstanceSelection) -> bool {
    let id = sel.fixture_id@;
    match rule {
        SelectionRule::EmptyIdentityField => e is EmptyIdentityField,
        SelectionRule::DuplicateFixtureId => e matches SelectionError::DuplicateFixtureId {
            fixture_id,
        } && fixture_id@ == id,
        SelectionRule::SessionCountOutOfRange => e matches SelectionError::SessionCountOutOfRange {
            fixture_id,
            found,
        } && fixture_id@ == id && found == sel.selected_session_ids@.len(),
        SelectionRule::DuplicateSessions => e matches SelectionError::DuplicateSessions {
            fixture_id,
        } && fixture_id@ == id,
        SelectionRule::SessionCountMismatch => e matches SelectionError::SessionCountMismatch {
            fixture_id,
            recorded,
            selected,
        } && fixture_id@ == id && recorded == sel.selection_proof.machine_derived.session_count
            && selected == sel.selected_session_ids@.len(),
        SelectionRule::EvidenceNotClean => e matches SelectionError::EvidenceNotClean {
            fixture_id,
        } && fixture_id@ == id,
        SelectionRule::NotSelfContained => e matches SelectionError::NotSelfContained {
            fixture_id,
        } && fixture_id@ == id,
        SelectionRule::NoSampledNegative => e matches SelectionError::NoSampledNegative {
            fixture_id,
        } && fixture_id@ == id,
        SelectionRule::DuplicateNegatives => e matches SelectionError::DuplicateNegatives {
            fixture_id,
        } && fixture_id@ == id,
        SelectionRule::SimilarityNotDistinct => e matches SelectionError::SimilarityNotDistinct {
            fixture_id,
        } && fixture_id@ == id,
        SelectionRule::FartherNotNegative => e matches SelectionError::FartherNotNegative {
            fixture_id,
        } && fixture_id@ == id,
        SelectionRule::LongmemevalQaIndexSet => e matches SelectionError::LongmemevalQaIndexSet {
            fixture_id,
        } && fixture_id@ == id,
        SelectionRule::LongmemevalPredicates => e matches SelectionError::LongmemevalPredicates {
            fixture_id,
        } && fixture_id@ == id,
        SelectionRule::LocomoQaIndexMissing => e matches SelectionError::LocomoQaIndexMissing {
            fixture_id,
        } && fixture_id@ == id,
        SelectionRule::LocomoPredicates => e matches SelectionError::LocomoPredicates {
            fixture_id,
        } && fixture_id@ == id,
    }
}

/// The error that a refused manifest is answered with: a wrong schema version first,
/// then an empty manifest, then the first rule broken by the first selection that
/// breaks one.
pub open spec fn manifest_refused_with(m: SelectionManifest, e: SelectionError) -> bool {
    if m.schema_version != SELECTION_MANIFEST_SCHEMA_VERSION {
        e == SelectionError::UnsupportedSchemaVersion { version: m.schema_version }
    } else if m.instances@.len() == 0 {
        e is NoInstances
    } else {
        exists|k: int|
            #![trigger m.instances@[k]]
            {
                &&& 0 <= k < m.instances@.len()
                &&& forall|i: int| 0 <= i < k ==> #[trigger] violation_at(m.instances@, i) is None
                &&& violation_at(m.instances@, k) matches Some(rule)
                &&& error_for_rule(e, rule, m.instances@[k])
            }
    }
}

/// Checks one selection against the rules, in the order they are stated.
fn check_instance(sel: &InstanceSelection, id_seen: bool) -> (r: Result<(), SelectionError>)
    ensures
        match instance_violation(*sel, id_seen) {
            None => r is Ok,
            Some(rule) => r matches Err(e) && error_for_rule(e, rule, *sel),
        },
{
    let derived = &sel.selection_proof.machine_derived;
    if is_blank(sel.fixture_id.as_str()) || is_blank(sel.source_instance_id.as_str()) || is_blank(
        sel.expected_question_type.as_str(),
    ) {
        return Err(SelectionError::EmptyIdentityField);
    }
    if id_seen {
        return Err(SelectionError::DuplicateFixtureId { fixture_id: sel.fixture_id.clone() });
    }
    let n: usize = sel.selected_session_ids.len();
    if !(3 <= n && n <= 5) {
        return Err(
            SelectionError::SessionCountOutOfRange { fixture_id: sel.fixture_id.clone(), found: n },
        );
    }
    if has_duplicate(&sel.selected_session_ids) {
        return Err(SelectionError::DuplicateSessions { fixture_id: sel.fixture_id.clone() });
    }
    if derived.session_count != n {
        return Err(
            SelectionError::SessionCountMismatch {
                fixture_id: sel.fixture_id.clone(),
                recorded: derived.session_count,
                selected: n,
            },
        );
    }
    if !derived.evidence_clean {
        return Err(SelectionError::EvidenceNotClean { fixture_id: sel.fixture_id.clone() });
    }
    if !sel.selection_proof.curator_asserted.self_contained {
        return Err(SelectionError::NotSelfContained { fixture_id: sel.fixture_id.clone() });
    }
    if sel.sampled_negative_turn_ids.len() == 0 {
        return Err(SelectionError::NoSampledNegative { fixture_id: sel.fixture_id.clone() });
    }
    if has_duplicate(&sel.sampled_negative_turn_ids) {
        return Err(SelectionError::DuplicateNegatives { fixture_id: sel.fixture_id.clone() });
    }
    if sel.similarity_nearer_external_id == sel.similarity_farther_external_id {
        return Err(SelectionError::SimilarityNotDistinct { fixture_id: sel.fixture_id.clone() });
    }
    if !contains_text(
        &sel.sampled_negative_turn_ids,
        sel.similarity_farther_external_id.as_str(),
    ) {
        return Err(SelectionError::FartherNotNegative { fixture_id: sel.fixture_id.clone() });
    }
    match sel.source {
        BenchmarkSource::LongmemevalS => {
            if sel.source_qa_index.is_some() {
                return Err(
                    SelectionError::LongmemevalQaIndexSet { fixture_id: sel.fixture_id.clone() },
                );
            }
            if derived.gold_turn_ids_empty.is_none() || derived.no_img_url_in_evidence.is_some() {
                return Err(
                    SelectionError::LongmemevalPredicates { fixture_id: sel.fixture_id.clone() },
                );
            }
        },
        BenchmarkSource::Locomo => {
            if sel.source_qa_index.is_none() {
                return Err(
                    SelectionError::LocomoQaIndexMissing { fixture_id: sel.fixture_id.clone() },
                );
            }
            if derived.no_img_url_in_evidence.is_none() || derived.gold_turn_ids_empty.is_some() {
                return Err(SelectionError::LocomoPredicates { fixture_id: sel.fixture_id.clone() });
            }
        },
    }
    Ok(())
}

impl SelectionManifest {
    /// Admits the manifest, or reports the first rule that it breaks.
    pub fn validate(&self) -> (r: Result<(), SelectionError>)
        ensures
            r is Ok <==> manifest_admitted(*self),
            r matches Err(e) ==> manifest_refused_with(*self, e),
            r is Ok <==> {
                &&& self.schema_version == SELECTION_MANIFEST_SCHEMA_VERSION
                &&& self.instances@.len() > 0
                &&& forall|i: int, j: int|
                    0 <= i < j < self.instances@.len() ==> #[trigger] self.instances@[i].fixture_id@
                        != #[trigger] self.instances@[j].fixture_id@
                &&& forall|i: int| 0 <= i < self.instances@.len() ==> meets_every_rule(#[trigger] self.instances@[i])
            },
    {
        proof {
            lemma_admitted_exactly_when_rules_hold(*self);
        }
        if self.schema_version != SELECTION_MANIFEST_SCHEMA_VERSION {
            return Err(SelectionError::UnsupportedSchemaVersion { version: self.schema_version });
        }
        if self.instances.len() == 0 {
            return Err(SelectionError::NoInstances);
        }
        let mut i: usize = 0;
        while i < self.instances.len()
            invariant
                self.schema_version == SELECTION_MANIFEST_SCHEMA_VERSION,
                self.instances@.len() > 0,
                i <= self.instances@.len(),
                forall|j: int| 0 <= j < i ==> #[trigger] violation_at(self.instances@, j) is None,
            decreases self.instances.len() - i,
        {
            let sel = &self.instances[i];
            let mut seen = false;
            let mut j: usize = 0;
            while j < i
                invariant
                    i < self.instances@.len(),
                    j <= i,
                    sel == self.instances@[i as int],
                    seen == exists|k: int|
                        0 <= k < j && #[trigger] self.instances@[k].fixture_id@
                            == self.instances@[i as int].fixture_id@,
                decreases i - j,
            {
                if text_eq(self.instances[j].fixture_id.as_str(), sel.fixture_id.as_str()) {
                    seen = true;
                }
                j = j + 1;
            }
            match check_instance(sel, seen) {
                Ok(()) => {},
                Err(e) => {
                    assert(violation_at(self.instances@, i as int) is Some);
                    return Err(e);
                },
            }
            i = i + 1;
        }
        Ok(())
    }
}

/// The message a refusal carries; fixture ids appear quoted.
pub open spec fn selection_error_text(e: SelectionError) -> Seq<char> {
    match e {
        SelectionError::UnsupportedSchemaVersion { version } =>
            "unsupported benchmark selection manifest schema_version "@ + decimal_digits(
                version as nat,
            ) + "; expected "@ + decimal_digits(SELECTION_MANIFEST_SCHEMA_VERSION as nat),
        SelectionError::NoInstances =>
            "benchmark selection manifest must contain at least one instance"@,
        SelectionError::EmptyIdentityField =>
            "benchmark selection identity fields must not be empty"@,
        SelectionError::SessionCountOutOfRange { fixture_id, found } => "selection "@ + quoted(
            fixture_id@,
        ) + " must contain 3 to 5 sessions, found "@ + decimal_digits(found as nat),
        SelectionError::SessionCountMismatch { fixture_id, recorded, selected } => "selection "@
            + quoted(fixture_id@) + " records session_count "@ + decimal_digits(recorded as nat)
            + ", but selects "@ + decimal_digits(selected as nat) + " sessions"@,
        SelectionError::DuplicateFixtureId { fixture_id } => "duplicate benchmark fixture_id "@ + quoted(fixture_id@) + ""@,
        SelectionError::DuplicateSessions { fixture_id } => "selection "@ + quoted(fixture_id@) + " contains duplicate session IDs"@,
        SelectionError::EvidenceNotClean { fixture_id } => "selection "@ + quoted(fixture_id@) + " must record machine-derived evidence_clean=true"@,
        SelectionError::NotSelfContained { fixture_id } => "selection "@ + quoted(fixture_id@) + " must record curator-asserted self_contained=true"@,
        SelectionError::NoSampledNegative { fixture_id } => "selection "@ + quoted(fixture_id@) + " must include at least one sampled negative"@,
        SelectionError::DuplicateNegatives { fixture_id } => "selection "@ + quoted(fixture_id@) + " contains duplicate sampled negatives"@,
        SelectionError::SimilarityNotDistinct { fixture_id } => "selection "@ + quoted(fixture_id@) + " similarity candidates must be distinct"@,
        SelectionError::FartherNotNegative { fixture_id } => "selection "@ + quoted(fixture_id@) + " similarity farther candidate must be a sampled negative"@,
        SelectionError::LongmemevalQaIndexSet { fixture_id } => "LongMemEval-S selection "@ + quoted(fixture_id@) + " must not set source_qa_index"@,
        SelectionError::LongmemevalPredicates { fixture_id } => "LongMemEval-S selection "@ + quoted(fixture_id@) + " must record gold_turn_ids_empty and omit no_img_url_in_evidence"@,
        SelectionError::LocomoQaIndexMissing { fixture_id } => "LoCoMo selection "@ + quoted(fixture_id@) + " must set source_qa_index"@,
        SelectionError::LocomoPredicates { fixture_id } => "LoCoMo selection "@ + quoted(fixture_id@) + " must record no_img_url_in_evidence and omit gold_turn_ids_empty"@,
    }
}

/// `head`, the quoted id, then `tail`.
pub(crate) fn framed(head: &str, id: &String, tail: &str) -> (m: String)
    ensures
        m@ == head@ + quoted(id@) + tail@,
{
    let mut m = String::from_str(head);
    m.append(quote(id.as_str()).as_str());
    m.append(tail);
    m
}

impl SelectionError {
    /// The human-readable message of this refusal.
    pub fn message(&self) -> (m: String)
        ensures
            m@ == selection_error_text(*self),
    {
        match self {
            SelectionError::UnsupportedSchemaVersion { version } => {
                let mut m = String::from_str(
                    "unsupported benchmark selection manifest schema_version ",
                );
                m.append(decimal_text(*version as usize).as_str());
                m.append("; expected ");
                m.append(decimal_text(SELECTION_MANIFEST_SCHEMA_VERSION as usize).as_str());
                m
            },
            SelectionError::NoInstances => String::from_str(
                "benchmark selection manifest must contain at least one instance",
            ),
            SelectionError::EmptyIdentityField => String::from_str(
                "benchmark selection identity fields must not be empty",
            ),
            SelectionError::SessionCountOutOfRange { fixture_id, found } => {
                let mut m = framed("selection ", fixture_id, " must contain 3 to 5 sessions, found ");
                m.append(decimal_text(*found).as_str());
                m
            },
            SelectionError::SessionCountMismatch { fixture_id, recorded, selected } => {
                let mut m = framed("selection ", fixture_id, " records session_count ");
                m.append(decimal_text(*recorded).as_str());
                m.append(", but selects ");
                m.append(decimal_text(*selected).as_str());
                m.append(" sessions");
                m
            },
            SelectionError::DuplicateFixtureId { fixture_id } => framed("duplicate benchmark fixture_id ", fixture_id, ""),
            SelectionError::DuplicateSessions { fixture_id } => framed("selection ", fixture_id, " contains duplicate session IDs"),
            SelectionError::EvidenceNotClean { fixture_id } => framed("selection ", fixture_id, " must record machine-derived evidence_clean=true"),
            SelectionError::NotSelfContained { fixture_id } => framed("selection ", fixture_id, " must record curator-asserted self_contained=true"),
            SelectionError::NoSampledNegative { fixture_id } => framed("selection ", fixture_id, " must include at least one sampled negative"),
            SelectionError::DuplicateNegatives { fixture_id } => framed("selection ", fixture_id, " contains duplicate sampled negatives"),
            SelectionError::SimilarityNotDistinct { fixture_id } => framed("selection ", fixture_id, " similarity candidates must be distinct"),
            SelectionError::FartherNotNegative { fixture_id } => framed("selection ", fixture_id, " similarity farther candidate must be a sampled negative"),
            SelectionError::LongmemevalQaIndexSet { fixture_id } => framed("LongMemEval-S selection ", fixture_id, " must not set source_qa_index"),
            SelectionError::LongmemevalPredicates { fixture_id } => framed("LongMemEval-S selection ", fixture_id, " must record gold_turn_ids_empty and omit no_img_url_in_evidence"),
            SelectionError::LocomoQaIndexMissing { fixture_id } => framed("LoCoMo selection ", fixture_id, " must set source_qa_index"),
            SelectionError::LocomoPredicates { fixture_id } => framed("LoCoMo selection ", fixture_id, " must record no_img_url_in_evidence and omit gold_turn_ids_empty"),
        }
    }
}

/// Every selection of an admitted manifest has its own fixture id, selects three to
/// five distinct sessions and records that count, carries clean evidence and the
/// curator's assertion, samples distinct negatives that include the farther
/// similarity candidate, which differs from the nearer one, and sets the QA index
/// exactly when it comes from LoCoMo.
pub proof fn lemma_admitted_manifest_shape(m: SelectionManifest)
    requires
        manifest_admitted(m),
    ensures
        forall|i: int, j: int|
            0 <= i < j < m.instances@.len() ==> #[trigger] m.instances@[i].fixture_id@
                != #[trigger] m.instances@[j].fixture_id@,
        forall|i: int|
            0 <= i < m.instances@.len() ==> {
                let sel = #[trigger] m.instances@[i];
                &&& 3 <= sel.selected_session_ids@.len() <= 5
                &&& !has_duplicate_text(sel.selected_session_ids@)
                &&& sel.selection_proof.machine_derived.session_count
                    == sel.selected_session_ids@.len()
                &&& sel.selection_proof.machine_derived.evidence_clean
                &&& sel.selection_proof.curator_asserted.self_contained
                &&& sel.sampled_negative_turn_ids@.len() > 0
                &&& !has_duplicate_text(sel.sampled_negative_turn_ids@)
                &&& sel.similarity_nearer_external_id@ != sel.similarity_farther_external_id@
                &&& seq_contains_text(
                    sel.sampled_negative_turn_ids@,
                    sel.similarity_farther_external_id@,
                )
                &&& (sel.source_qa_index is Some <==> sel.source == BenchmarkSource::Locomo)
            },
{
    assert forall|i: int, j: int|
        0 <= i < j < m.instances@.len() implies #[trigger] m.instances@[i].fixture_id@
        != #[trigger] m.instances@[j].fixture_id@ by {
        assert(violation_at(m.instances@, j) is None);
        if m.instances@[i].fixture_id@ == m.instances@[j].fixture_id@ {
            assert(fixture_id_seen(m.instances@, j));
        }
    }
    assert forall|i: int| 0 <= i < m.instances@.len() implies {
        let sel = #[trigger] m.instances@[i];
        &&& 3 <= sel.selected_session_ids@.len() <= 5
        &&& !has_duplicate_text(sel.selected_session_ids@)
        &&& sel.selection_proof.machine_derived.session_count == sel.selected_session_ids@.len()
        &&& sel.selection_proof.machine_derived.evidence_clean
        &&& sel.selection_proof.curator_asserted.self_contained
        &&& sel.sampled_negative_turn_ids@.len() > 0
        &&& !has_duplicate_text(sel.sampled_negative_turn_ids@)
        &&& sel.similarity_nearer_external_id@ != sel.similarity_farther_external_id@
        &&& seq_contains_text(sel.sampled_negative_turn_ids@, sel.similarity_farther_external_id@)
        &&& (sel.source_qa_index is Some <==> sel.source == BenchmarkSource::Locomo)
    } by {
        assert(violation_at(m.instances@, i) is None);
    }
}


/// `p` lists each position below `n` exactly once.
pub open spec fn is_permutation(p: Seq<int>, n: int) -> bool {
    &&& p.len() == n
    &&& forall|k: int| 0 <= k < n ==> 0 <= #[trigger] p[k] < n
    &&& forall|a: int, b: int| 0 <= a < b < n ==> #[trigger] p[a] != #[trigger] p[b]
}

pub(crate) proof fn lemma_permutation_onto(p: Seq<int>, n: int, v: int)
    requires
        is_permutation(p, n),
        0 <= v < n,
    ensures
        exists|k: int| 0 <= k < n && p[k] == v,
{
    assert forall|a: int, b: int| 0 <= a < p.len() && 0 <= b < p.len() && a != b implies p[a] != p[b] by {
        if a < b {
            assert(p[a] != p[b]);
        } else {
            assert(p[b] != p[a]);
        }
    }
    assert(p.no_duplicates());
    p.unique_seq_to_set();
    vstd::set_lib::lemma_int_range(0, n);
    let range = vstd::set_lib::set_int_range(0, n);
    assert forall|x: int| p.to_set().contains(x) implies range.contains(x) by {
        let k = choose|k: int| 0 <= k < p.len() && p[k] == x;
        assert(0 <= p[k] < n);
    }
    vstd::set_lib::lemma_subset_equality(p.to_set(), range);
    assert(range.contains(v));
    assert(p.to_set().contains(v));
}

/// Admission read without regard to order: the schema version is supported, there is a
/// selection, no two selections share a fixture id, and each selection on its own
/// breaks no rule.
pub open spec fn admitted_unordered(m: SelectionManifest) -> bool {
    &&& m.schema_version == SELECTION_MANIFEST_SCHEMA_VERSION
    &&& m.instances@.len() > 0
    &&& forall|i: int, j: int|
        0 <= i < j < m.instances@.len() ==> #[trigger] m.instances@[i].fixture_id@
            != #[trigger] m.instances@[j].fixture_id@
    &&& forall|i: int| 0 <= i < m.instances@.len() ==> instance_violation(#[trigger] m.instances@[i], false) is None
}

proof fn lemma_admitted_unordered(m: SelectionManifest)
    ensures
        manifest_admitted(m) <==> admitted_unordered(m),
{
    let inst = m.instances@;
    if manifest_admitted(m) {
        lemma_admitted_manifest_shape(m);
        assert forall|i: int| 0 <= i < inst.len() implies instance_violation(#[trigger] inst[i], false) is None by {
            assert(violation_at(inst, i) is None);
            assert(!fixture_id_seen(inst, i)) by {
                if fixture_id_seen(inst, i) {
                    let j = choose|j: int| 0 <= j < i && #[trigger] inst[j].fixture_id@ == inst[i].fixture_id@;
                    assert(inst[j].fixture_id@ != inst[i].fixture_id@);
                }
            }
        }
    }
    if admitted_unordered(m) {
        assert forall|i: int| 0 <= i < inst.len() implies violation_at(inst, i) is None by {
            if fixture_id_seen(inst, i) {
                let j = choose|j: int| 0 <= j < i && #[trigger] inst[j].fixture_id@ == inst[i].fixture_id@;
                assert(inst[j].fixture_id@ != inst[i].fixture_id@);
            }
            assert(instance_violation(inst[i], false) is None);
        }
    }
}

/// Whether a manifest is admitted does not depend on the order of its selections: a
/// manifest whose selections are a reordering of another's is admitted exactly when the
/// other is.
pub proof fn lemma_admission_ignores_order(m: SelectionManifest, m2: SelectionManifest, p: Seq<int>)
    requires
        m2.schema_version == m.schema_version,
        is_permutation(p, m.instances@.len() as int),
        m2.instances@.len() == m.instances@.len(),
        forall|k: int| 0 <= k < m2.instances@.len() ==> #[trigger] m2.instances@[k] == m.instances@[p[k]],
    ensures
        manifest_admitted(m) <==> manifest_admitted(m2),
{
    lemma_admitted_unordered(m);
    lemma_admitted_unordered(m2);
    let a = m.instances@;
    let b = m2.instances@;
    let n = a.len() as int;
    if admitted_unordered(m) {
        assert forall|i: int, j: int| 0 <= i < j < n implies #[trigger] b[i].fixture_id@ != #[trigger] b[j].fixture_id@ by {
            assert(b[i] == a[p[i]] && b[j] == a[p[j]]);
            assert(p[i] != p[j]);
            if p[i] < p[j] {
                assert(a[p[i]].fixture_id@ != a[p[j]].fixture_id@);
            } else {
                assert(a[p[j]].fixture_id@ != a[p[i]].fixture_id@);
            }
        }
        assert forall|i: int| 0 <= i < n implies instance_violation(#[trigger] b[i], false) is None by {
            assert(b[i] == a[p[i]]);
            assert(instance_violation(a[p[i]], false) is None);
        }
    }
    if admitted_unordered(m2) {
        assert forall|i: int, j: int| 0 <= i < j < n implies #[trigger] a[i].fixture_id@ != #[trigger] a[j].fixture_id@ by {
            lemma_permutation_onto(p, n, i);
            lemma_permutation_onto(p, n, j);
            let ki = choose|k: int| 0 <= k < n && p[k] == i;
            let kj = choose|k: int| 0 <= k < n && p[k] == j;
            assert(b[ki] == a[i] && b[kj] == a[j]);
            if ki < kj {
                assert(b[ki].fixture_id@ != b[kj].fixture_id@);
            } else {
                assert(b[kj].fixture_id@ != b[ki].fixture_id@);
            }
        }
        assert forall|i: int| 0 <= i < n implies instance_violation(#[trigger] a[i], false) is None by {
            lemma_permutation_onto(p, n, i);
            let k = choose|k: int| 0 <= k < n && p[k] == i;
            assert(b[k] == a[i]);
            assert(instance_violation(b[k], false) is None);
        }
    }
}


/// A selection meets every rule of the manifest on its own, spelled out: its identity
/// fields are not blank; it selects three to five distinct sessions and records that
/// count; its evidence is clean and the curator asserts it self-contained; it samples
/// distinct negatives, among them the farther similarity candidate, which differs from
/// the nearer one; a LongMemEval-S row has no QA index, records whether its gold turns
/// are empty and records nothing about image URLs; a LoCoMo row has a QA index, records
/// the image-URL check and nothing about gold emptiness.
pub open spec fn meets_every_rule(sel: InstanceSelection) -> bool {
    let sessions = sel.selected_session_ids@;
    let negatives = sel.sampled_negative_turn_ids@;
    let derived = sel.selection_proof.machine_derived;
    &&& !is_blank_spec(sel.fixture_id@)
    &&& !is_blank_spec(sel.source_instance_id@)
    &&& !is_blank_spec(sel.expected_question_type@)
    &&& 3 <= sessions.len() <= 5
    &&& !has_duplicate_text(sessions)
    &&& derived.session_count == sessions.len()
    &&& derived.evidence_clean
    &&& sel.selection_proof.curator_asserted.self_contained
    &&& negatives.len() > 0
    &&& !has_duplicate_text(negatives)
    &&& sel.similarity_nearer_external_id@ != sel.similarity_farther_external_id@
    &&& seq_contains_text(negatives, sel.similarity_farther_external_id@)
    &&& (sel.source == BenchmarkSource::LongmemevalS ==> sel.source_qa_index is None
        && derived.gold_turn_ids_empty is Some && derived.no_img_url_in_evidence is None)
    &&& (sel.source == BenchmarkSource::Locomo ==> sel.source_qa_index is Some
        && derived.no_img_url_in_evidence is Some && derived.gold_turn_ids_empty is None)
}

/// A manifest of the supported schema version with at least one selection, whose
/// selections have distinct fixture ids and each meet every rule, is admitted; and an
/// admitted manifest is exactly such a manifest. In particular three, four or five
/// distinct sessions are all accepted.
pub proof fn lemma_admitted_exactly_when_rules_hold(m: SelectionManifest)
    ensures
        manifest_admitted(m) <==> {
            &&& m.schema_version == SELECTION_MANIFEST_SCHEMA_VERSION
            &&& m.instances@.len() > 0
            &&& forall|i: int, j: int|
                0 <= i < j < m.instances@.len() ==> #[trigger] m.instances@[i].fixture_id@
                    != #[trigger] m.instances@[j].fixture_id@
            &&& forall|i: int| 0 <= i < m.instances@.len() ==> meets_every_rule(#[trigger] m.instances@[i])
        },
{
    lemma_admitted_unordered(m);
    let inst = m.instances@;
    assert forall|i: int| 0 <= i < inst.len() implies (instance_violation(#[trigger] inst[i], false) is None
        <==> meets_every_rule(inst[i])) by {
        let sel = inst[i];
        match sel.source {
            BenchmarkSource::LongmemevalS => {},
            BenchmarkSource::Locomo => {},
        }
    }
}

} // verus!
