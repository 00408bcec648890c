//! The fixed wordings with which description-only probes name a place or a person.
use vstd::prelude::*;

use crate::text::text_eq;

verus! {

/// The four wordings of a described referent of `kind`: the first is the probe's
/// plain wording and the last the held-out rewording.
pub open spec fn word_pool_spec(kind: Seq<char>) -> Seq<Seq<char>> {
    if kind == "place"@ {
        seq![
            "Cedar reading room"@,
            "The reading room lined with cedar shelves"@,
            "A quiet book room with cedar shelving"@,
            "The quiet reading space surrounded by cedar bookcases"@,
        ]
    } else {
        seq![
            "Visitor wearing a linen coat"@,
            "The visitor in a loose linen overcoat"@,
            "A familiar guest dressed in a light linen coat"@,
            "The familiar visitor with the loose light linen overcoat"@,
        ]
    }
}

/// A kind of referent that has a word pool.
pub open spec fn described_kind(kind: Seq<char>) -> bool {
    kind == "place"@ || kind == "participant"@
}

/// The wordings of a place (`"place"`) or a participant (`"participant"`).
pub fn word_pool(kind: &str) -> (pool: [&'static str; 4])
    requires
        described_kind(kind@),
    ensures
        pool@.map_values(|w: &str| w@) == word_pool_spec(kind@),
{
    let pool: [&'static str; 4] = if text_eq(kind, "place") {
        [
            "Cedar reading room",
            "The reading room lined with cedar shelves",
            "A quiet book room with cedar shelving",
            "The quiet reading space surrounded by cedar bookcases",
        ]
    } else {
        [
            "Visitor wearing a linen coat",
            "The visitor in a loose linen overcoat",
            "A familiar guest dressed in a light linen coat",
            "The familiar visitor with the loose light linen overcoat",
        ]
    };
    assert(pool@.map_values(|w: &str| w@) =~= word_pool_spec(kind@));
    pool
}

/// The wording a probe uses: the held-out last wording when reworded, else the first.
pub fn probe_words(kind: &str, reworded: bool) -> (w: &'static str)
    requires
        described_kind(kind@),
    ensures
        w@ == word_pool_spec(kind@)[if reworded {
            3int
        } else {
            0int
        }],
{
    let pool = word_pool(kind);
    let w = if reworded {
        pool[3]
    } else {
        pool[0]
    };
    proof {
        let idx: int = if reworded {
            3int
        } else {
            0int
        };
        assert(pool@.map_values(|w: &str| w@)[idx] == pool@[idx]@);
    }
    w
}

} // verus!
