//! The human-readable messages of conversion failures.
use vstd::prelude::*;

use crate::batch::BatchError;
use crate::embedding_manifest::embedding_manifest_error_text;
use crate::conversion::{error_view, ConversionError, ErrorView, TextView};
use crate::render::{decimal_digits, decimal_text, quote, quoted};
use crate::selection::{framed, selection_error_text, BenchmarkSource};

verus! {

/// `true` or `false`.
pub open spec fn bool_text(b: bool) -> TextView {
    if b {
        "true"@
    } else {
        "false"@
    }
}

fn bool_string(b: bool) -> (s: String)
    ensures
        s@ == bool_text(b),
{
    if b {
        String::from_str("true")
    } else {
        String::from_str("false")
    }
}

/// How the benchmark a row comes from is named in messages about sessions.
pub open spec fn source_name(source: BenchmarkSource) -> TextView {
    match source {
        BenchmarkSource::LongmemevalS => "LongMemEval-S"@,
        BenchmarkSource::Locomo => "LoCoMo"@,
    }
}

/// How a missing row is named.
pub open spec fn row_kind_name(source: BenchmarkSource) -> TextView {
    match source {
        BenchmarkSource::LongmemevalS => "LongMemEval-S instance "@,
        BenchmarkSource::Locomo => "LoCoMo sample "@,
    }
}

/// An optional text as it is debug-printed.
pub open spec fn optional_text(o: Option<TextView>) -> TextView {
    match o {
        Some(v) => "Some("@ + quoted(v) + ")"@,
        None => "None"@,
    }
}

/// `"selection "`, the quoted fixture id, then `tail`.
pub open spec fn about(fixture_id: TextView, tail: TextView) -> TextView {
    "selection "@ + quoted(fixture_id) + tail
}

/// The message of a conversion failure.
pub open spec fn conversion_error_text(e: ErrorView) -> TextView {
    match e {
        ConversionError::QuestionTypeMismatch { fixture_id, expected, derived } => about(
            fixture_id,
            " expected question type "@ + quoted(expected) + ", derived "@ + optional_text(derived),
        ),
        ConversionError::AbstentionRowNotAbs { fixture_id } => "LongMemEval-S abstention "@ + about(
            fixture_id,
            " must use an _abs source row"@,
        ),
        ConversionError::GoldEmptinessMismatch { fixture_id, expected_empty, derived_empty } =>
            about(
            fixture_id,
            " expected gold_turn_ids_empty="@ + bool_text(expected_empty) + ", derived "@
                + bool_text(derived_empty),
        ),
        ConversionError::AbstentionHasGold { fixture_id } => "abstention "@ + about(
            fixture_id,
            " must derive empty LongMemEval-S gold_turn_ids()"@,
        ),
        ConversionError::NoGoldTurn { fixture_id } => "non-abstention "@ + about(
            fixture_id,
            " must derive at least one LongMemEval-S gold turn"@,
        ),
        ConversionError::MissingSession { source, fixture_id, session_id } => about(
            fixture_id,
            " references missing "@ + source_name(source) + " session "@ + quoted(session_id),
        ),
        ConversionError::InvalidSessionTimestamp { fixture_id, session_id } => about(
            fixture_id,
            " session "@ + quoted(session_id) + " has invalid timestamp"@,
        ),
        ConversionError::EmptySourceText { fixture_id, source_id } => about(
            fixture_id,
            " source text "@ + quoted(source_id) + " is empty"@,
        ),
        ConversionError::TimestampOverflow { fixture_id } => about(
            fixture_id,
            " has a timestamp out of range"@,
        ),
        ConversionError::EvidenceCleanMismatch { fixture_id, recorded, derived } => about(
            fixture_id,
            " records evidence_clean="@ + bool_text(recorded) + ", derived "@ + bool_text(derived),
        ),
        ConversionError::GoldSessionOmitted { fixture_id, session_id } => about(
            fixture_id,
            " omits gold session "@ + quoted(session_id),
        ),
        ConversionError::NegativeNotSelected { fixture_id, external_id } => about(
            fixture_id,
            " sampled negative "@ + quoted(external_id) + " is not in a selected session"@,
        ),
        ConversionError::UpdateGoldCount { fixture_id, found } => "update "@ + about(
            fixture_id,
            " must derive exactly two gold turns, found "@ + decimal_digits(found as nat),
        ),
        ConversionError::UpdateGoldNotSelected { fixture_id } => "update "@ + about(
            fixture_id,
            " must select both gold turns"@,
        ),
        ConversionError::OldGoldNotNegative { fixture_id, external_id } => "update "@ + about(
            fixture_id,
            " must label the old gold turn "@ + quoted(external_id) + " as sampled negative"@,
        ),
        ConversionError::InvalidQuestionDate { fixture_id } => about(
            fixture_id,
            " has invalid LongMemEval-S question_date"@,
        ),
        ConversionError::MissingQa { fixture_id, qa_index } => about(
            fixture_id,
            " references missing LoCoMo QA index "@ + decimal_digits(qa_index as nat),
        ),
        ConversionError::InconsistentQa { fixture_id } => about(
            fixture_id,
            " resolved inconsistent LoCoMo QA index"@,
        ),
        ConversionError::EvidenceSessionOmitted { fixture_id, session_id } => about(
            fixture_id,
            " omits LoCoMo evidence session "@ + quoted(session_id),
        ),
        ConversionError::NoImgUrlMismatch { fixture_id, recorded, derived } => about(
            fixture_id,
            " records no_img_url_in_evidence="@ + bool_text(recorded) + ", derived "@ + bool_text(
                derived,
            ),
        ),
        ConversionError::AbstentionEvidenceNotNegative { fixture_id, evidence_id } =>
            "LoCoMo abstention "@ + about(
            fixture_id,
            " must label cited evidence "@ + quoted(evidence_id) + " as sampled-negative-only"@,
        ),
        ConversionError::NearerNotNegative { fixture_id } => "abstention "@ + about(
            fixture_id,
            " similarity nearer candidate must be sampled negative"@,
        ),
        ConversionError::NearerNotRelevant { fixture_id } => about(
            fixture_id,
            " similarity nearer candidate must be relevant"@,
        ),
        ConversionError::NoSourceTurn { .. } =>
            "selected scenario must contain at least one source turn"@,
        ConversionError::MissingInstance { source, fixture_id, instance_id } => about(
            fixture_id,
            " references missing "@ + row_kind_name(source) + quoted(instance_id),
        ),
    }
}

fn selection_text(fixture_id: &String, tail: String) -> (m: String)
    ensures
        m@ == about(fixture_id@, tail@),
{
    let mut m = framed("selection ", fixture_id, "");
    m.append(tail.as_str());
    proof {
        reveal_strlit("");
    }
    m
}

fn text2(a: &str, b: &str) -> (m: String)
    ensures
        m@ == a@ + b@,
{
    let mut m = String::from_str(a);
    m.append(b);
    m
}

fn text3(a: &str, b: &str, c: &str) -> (m: String)
    ensures
        m@ == a@ + b@ + c@,
{
    let mut m = String::from_str(a);
    m.append(b);
    m.append(c);
    m
}

fn text4(a: &str, b: &str, c: &str, d: &str) -> (m: String)
    ensures
        m@ == a@ + b@ + c@ + d@,
{
    let mut m = String::from_str(a);
    m.append(b);
    m.append(c);
    m.append(d);
    m
}

fn optional_string(o: &Option<String>) -> (s: String)
    ensures
        s@ == optional_text(crate::conversion::opt_text_view(*o)),
{
    match o {
        Some(v) => text3("Some(", quote(v.as_str()).as_str(), ")"),
        None => String::from_str("None"),
    }
}

fn source_string(source: BenchmarkSource) -> (s: String)
    ensures
        s@ == source_name(source),
{
    match source {
        BenchmarkSource::LongmemevalS => String::from_str("LongMemEval-S"),
        BenchmarkSource::Locomo => String::from_str("LoCoMo"),
    }
}

fn row_kind_string(source: BenchmarkSource) -> (s: String)
    ensures
        s@ == row_kind_name(source),
{
    match source {
        BenchmarkSource::LongmemevalS => String::from_str("LongMemEval-S instance "),
        BenchmarkSource::Locomo => String::from_str("LoCoMo sample "),
    }
}

impl ConversionError {
    /// The human-readable message of this failure.
    pub fn message(&self) -> (m: String)
        ensures
            m@ == conversion_error_text(error_view(*self)),
    {
        match self {
            ConversionError::QuestionTypeMismatch { fixture_id, expected, derived } => selection_text(
                fixture_id,
                text4(
                    " expected question type ",
                    quote(expected.as_str()).as_str(),
                    ", derived ",
                    optional_string(derived).as_str(),
                ),
            ),
            ConversionError::AbstentionRowNotAbs { fixture_id } => text2(
                "LongMemEval-S abstention ",
                selection_text(fixture_id, String::from_str(" must use an _abs source row")).as_str(),
            ),
            ConversionError::GoldEmptinessMismatch { fixture_id, expected_empty, derived_empty } =>
                selection_text(
                fixture_id,
                text4(
                    " expected gold_turn_ids_empty=",
                    bool_string(*expected_empty).as_str(),
                    ", derived ",
                    bool_string(*derived_empty).as_str(),
                ),
            ),
            ConversionError::AbstentionHasGold { fixture_id } => text2(
                "abstention ",
                selection_text(
                    fixture_id,
                    String::from_str(" must derive empty LongMemEval-S gold_turn_ids()"),
                ).as_str(),
            ),
            ConversionError::NoGoldTurn { fixture_id } => text2(
                "non-abstention ",
                selection_text(
                    fixture_id,
                    String::from_str(" must derive at least one LongMemEval-S gold turn"),
                ).as_str(),
            ),
            ConversionError::MissingSession { source, fixture_id, session_id } => selection_text(
                fixture_id,
                text4(
                    " references missing ",
                    source_string(*source).as_str(),
                    " session ",
                    quote(session_id.as_str()).as_str(),
                ),
            ),
            ConversionError::InvalidSessionTimestamp { fixture_id, session_id } => selection_text(
                fixture_id,
                text3(" session ", quote(session_id.as_str()).as_str(), " has invalid timestamp"),
            ),
            ConversionError::EmptySourceText { fixture_id, source_id } => selection_text(
                fixture_id,
                text3(" source text ", quote(source_id.as_str()).as_str(), " is empty"),
            ),
            ConversionError::TimestampOverflow { fixture_id } => selection_text(
                fixture_id,
                String::from_str(" has a timestamp out of range"),
            ),
            ConversionError::EvidenceCleanMismatch { fixture_id, recorded, derived } => selection_text(
                fixture_id,
                text4(
                    " records evidence_clean=",
                    bool_string(*recorded).as_str(),
                    ", derived ",
                    bool_string(*derived).as_str(),
                ),
            ),
            ConversionError::GoldSessionOmitted { fixture_id, session_id } => selection_text(
                fixture_id,
                text2(" omits gold session ", quote(session_id.as_str()).as_str()),
            ),
            ConversionError::NegativeNotSelected { fixture_id, external_id } => selection_text(
                fixture_id,
                text3(
                    " sampled negative ",
                    quote(external_id.as_str()).as_str(),
                    " is not in a selected session",
                ),
            ),
            ConversionError::UpdateGoldCount { fixture_id, found } => text2(
                "update ",
                selection_text(
                    fixture_id,
                    text2(
                        " must derive exactly two gold turns, found ",
                        decimal_text(*found).as_str(),
                    ),
                ).as_str(),
            ),
            ConversionError::UpdateGoldNotSelected { fixture_id } => text2(
                "update ",
                selection_text(fixture_id, String::from_str(" must select both gold turns")).as_str(),
            ),
            ConversionError::OldGoldNotNegative { fixture_id, external_id } => text2(
                "update ",
                selection_text(
                    fixture_id,
                    text3(
                        " must label the old gold turn ",
                        quote(external_id.as_str()).as_str(),
                        " as sampled negative",
                    ),
                ).as_str(),
            ),
            ConversionError::InvalidQuestionDate { fixture_id } => selection_text(
                fixture_id,
                String::from_str(" has invalid LongMemEval-S question_date"),
            ),
            ConversionError::MissingQa { fixture_id, qa_index } => selection_text(
                fixture_id,
                text2(" references missing LoCoMo QA index ", decimal_text(*qa_index).as_str()),
            ),
            ConversionError::InconsistentQa { fixture_id } => selection_text(
                fixture_id,
                String::from_str(" resolved inconsistent LoCoMo QA index"),
            ),
            ConversionError::EvidenceSessionOmitted { fixture_id, session_id } => selection_text(
                fixture_id,
                text2(" omits LoCoMo evidence session ", quote(session_id.as_str()).as_str()),
            ),
            ConversionError::NoImgUrlMismatch { fixture_id, recorded, derived } => selection_text(
                fixture_id,
                text4(
                    " records no_img_url_in_evidence=",
                    bool_string(*recorded).as_str(),
                    ", derived ",
                    bool_string(*derived).as_str(),
                ),
            ),
            ConversionError::AbstentionEvidenceNotNegative { fixture_id, evidence_id } => text2(
                "LoCoMo abstention ",
                selection_text(
                    fixture_id,
                    text3(
                        " must label cited evidence ",
                        quote(evidence_id.as_str()).as_str(),
                        " as sampled-negative-only",
                    ),
                ).as_str(),
            ),
            ConversionError::NearerNotNegative { fixture_id } => text2(
                "abstention ",
                selection_text(
                    fixture_id,
                    String::from_str(" similarity nearer candidate must be sampled negative"),
                ).as_str(),
            ),
            ConversionError::NearerNotRelevant { fixture_id } => selection_text(
                fixture_id,
                String::from_str(" similarity nearer candidate must be relevant"),
            ),
            ConversionError::NoSourceTurn { .. } => String::from_str(
                "selected scenario must contain at least one source turn",
            ),
            ConversionError::MissingInstance { source, fixture_id, instance_id } => selection_text(
                fixture_id,
                text3(
                    " references missing ",
                    row_kind_string(*source).as_str(),
                    quote(instance_id.as_str()).as_str(),
                ),
            ),
        }
    }
}

/// The message of a batch failure.
pub open spec fn batch_error_text(e: BatchError) -> TextView {
    match e {
        BatchError::Manifest(m) => selection_error_text(m),
        BatchError::Row(r) => conversion_error_text(error_view(r)),
        BatchError::EmbeddingManifest(m) => embedding_manifest_error_text(m),
    }
}

impl BatchError {
    /// The human-readable message of this failure.
    pub fn message(&self) -> (m: String)
        ensures
            m@ == batch_error_text(*self),
    {
        match self {
            BatchError::Manifest(m) => m.message(),
            BatchError::Row(r) => r.message(),
            BatchError::EmbeddingManifest(m) => m.message(),
        }
    }
}

} // verus!
