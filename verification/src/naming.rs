//! Deterministic, run-scoped names for evaluation namespaces, and the guard that keeps
//! cleanup away from collections that do not belong to the evaluation.
use vstd::prelude::*;

use crate::text::{chars_of, has_prefix, push_char, starts_with_text, string_from_chars, string_of, text_eq, trim_spec, trimmed};

verus! {

/// The UUID namespace under which every evaluation identity is derived.
pub const UUID_NAMESPACE: u128 = 0x9b6af7a4_9076_49bb_9231_84d1ed632cf1u128;

/// A character that may stand in a collection name unchanged.
pub open spec fn is_collection_safe_char(c: char) -> bool {
    ||| ('a' <= c && c <= 'z')
    ||| ('A' <= c && c <= 'Z')
    ||| ('0' <= c && c <= '9')
    ||| c == '_'
    ||| c == '-'
}

pub open spec fn sanitize_char(c: char) -> char {
    if is_collection_safe_char(c) {
        c
    } else {
        '_'
    }
}

/// Every character outside `[A-Za-z0-9_-]` replaced by `_`.
pub open spec fn sanitized(s: Seq<char>) -> Seq<char> {
    Seq::new(s.len(), |i: int| sanitize_char(s[i]))
}

/// Replaces every character outside `[A-Za-z0-9_-]` by `_`, one for one.
pub fn sanitize_collection_segment(value: &str) -> (out: String)
    ensures
        out@ == sanitized(value@),
{
    let chars = chars_of(value);
    let mut out = String::new();
    let mut i: usize = 0;
    while i < chars.len()
        invariant
            chars@ == value@,
            i <= chars.len(),
            out@ == sanitized(value@).subrange(0, i as int),
        decreases chars.len() - i,
    {
        let ch = chars[i];
        let safe = ('a' <= ch && ch <= 'z') || ('A' <= ch && ch <= 'Z') || ('0' <= ch && ch
            <= '9') || ch == '_' || ch == '-';
        if safe {
            push_char(&mut out, ch);
        } else {
            push_char(&mut out, '_');
        }
        i = i + 1;
        assert(out@ =~= sanitized(value@).subrange(0, i as int));
    }
    assert(out@ =~= sanitized(value@));
    out
}

/// Sanitizing leaves a text of the same length that holds only safe characters,
/// keeps a text that was already safe, and sanitizing twice changes nothing more.
pub proof fn lemma_sanitize_laws(s: Seq<char>)
    ensures
        sanitized(s).len() == s.len(),
        forall|i: int| 0 <= i < s.len() ==> is_collection_safe_char(#[trigger] sanitized(s)[i]),
        sanitized(sanitized(s)) == sanitized(s),
        (forall|i: int| 0 <= i < s.len() ==> is_collection_safe_char(#[trigger] s[i]))
            ==> sanitized(s) == s,
{
    assert(sanitized(sanitized(s)) =~= sanitized(s));
    if forall|i: int| 0 <= i < s.len() ==> is_collection_safe_char(#[trigger] s[i]) {
        assert(sanitized(s) =~= s);
    }
}

/// Why a cleanup request was refused.
#[derive(Debug, Clone, PartialEq, Eq)]
pub enum CleanupError {
    /// No prefix was configured, or it is blank.
    MissingPrefix,
    /// The sanitized prefix is shorter than three characters.
    PrefixTooBroad,
    /// The collection does not start with the sanitized prefix.
    NotUnderPrefix { collection_name: String, sanitized_prefix: String },
}

/// The outcome of the cleanup guard, stated over the texts.
pub open spec fn cleanup_target_outcome(collection: Seq<char>, prefix: Option<Seq<char>>) -> Result<
    (),
    CleanupErrorKind,
> {
    match prefix {
        None => Err(CleanupErrorKind::MissingPrefix),
        Some(p) => {
            let trimmed = trim_spec(p);
            if trimmed.len() == 0 {
                Err(CleanupErrorKind::MissingPrefix)
            } else if sanitized(trimmed).len() < 3 {
                Err(CleanupErrorKind::PrefixTooBroad)
            } else if !has_prefix(collection, sanitized(trimmed)) {
                Err(CleanupErrorKind::NotUnderPrefix)
            } else {
                Ok(())
            }
        },
    }
}

/// The kind of a cleanup refusal, without its texts.
pub enum CleanupErrorKind {
    MissingPrefix,
    PrefixTooBroad,
    NotUnderPrefix,
}

pub open spec fn cleanup_error_kind(e: CleanupError) -> CleanupErrorKind {
    match e {
        CleanupError::MissingPrefix => CleanupErrorKind::MissingPrefix,
        CleanupError::PrefixTooBroad => CleanupErrorKind::PrefixTooBroad,
        CleanupError::NotUnderPrefix { .. } => CleanupErrorKind::NotUnderPrefix,
    }
}

/// The message that a cleanup refusal carries.
pub open spec fn cleanup_error_text(e: CleanupError) -> Seq<char> {
    match e {
        CleanupError::MissingPrefix =>
            "cleanup is enabled but no required collection prefix was configured"@,
        CleanupError::PrefixTooBroad => "cleanup required collection prefix is too broad"@,
        CleanupError::NotUnderPrefix { collection_name, sanitized_prefix } =>
            "refusing to cleanup collection "@ + collection_name@
                + "; it does not start with required eval prefix "@ + sanitized_prefix@,
    }
}

impl CleanupError {
    /// The human-readable message of this refusal.
    pub fn message(&self) -> (m: String)
        ensures
            m@ == cleanup_error_text(*self),
    {
        match self {
            CleanupError::MissingPrefix => String::from_str(
                "cleanup is enabled but no required collection prefix was configured",
            ),
            CleanupError::PrefixTooBroad => String::from_str(
                "cleanup required collection prefix is too broad",
            ),
            CleanupError::NotUnderPrefix { collection_name, sanitized_prefix } => {
                let mut m = String::from_str("refusing to cleanup collection ");
                m.append(collection_name.as_str());
                m.append("; it does not start with required eval prefix ");
                m.append(sanitized_prefix.as_str());
                m
            },
        }
    }
}

/// Refuses to clean up a collection unless a prefix of at least three characters,
/// after trimming and sanitizing, was configured and the collection name starts with it.
pub fn validate_cleanup_target(collection_name: &str, required_prefix: Option<&str>) -> (r: Result<
    (),
    CleanupError,
>)
    ensures
        match r {
            Ok(()) => cleanup_target_outcome(collection_name@, opt_view(required_prefix)) is Ok,
            Err(e) => cleanup_target_outcome(collection_name@, opt_view(required_prefix)) == Err::<
                (),
                CleanupErrorKind,
            >(cleanup_error_kind(e)),
        },
        r matches Err(CleanupError::NotUnderPrefix { collection_name: c, sanitized_prefix: p })
            ==> c@ == collection_name@ && p@ == sanitized(trim_spec(required_prefix->0@)),
{
    let trimmed_prefix = match required_prefix {
        None => {
            return Err(CleanupError::MissingPrefix);
        },
        Some(p) => trimmed(p),
    };
    let prefix = trimmed_prefix.as_str();
    if prefix.unicode_len() == 0 {
        return Err(CleanupError::MissingPrefix);
    }
    let sanitized_prefix = sanitize_collection_segment(prefix);
    if sanitized_prefix.as_str().unicode_len() < 3 {
        return Err(CleanupError::PrefixTooBroad);
    }
    if !starts_with_text(collection_name, sanitized_prefix.as_str()) {
        return Err(
            CleanupError::NotUnderPrefix {
                collection_name: string_of(collection_name),
                sanitized_prefix,
            },
        );
    }
    Ok(())
}

/// The view of an optional string slice.
pub open spec fn opt_view(o: Option<&str>) -> Option<Seq<char>> {
    match o {
        Some(s) => Some(s@),
        None => None,
    }
}

/// An operation named a namespace that was not opened first.
#[derive(Debug, Clone, PartialEq, Eq)]
pub struct NamespaceNotOpen {
    pub namespace: String,
}

pub open spec fn namespace_not_open_text(namespace: Seq<char>) -> Seq<char> {
    "namespace is not open: "@ + namespace
        + "; call open_namespace or reattach_namespace before adapter operations"@
}

impl NamespaceNotOpen {
    pub fn message(&self) -> (m: String)
        ensures
            m@ == namespace_not_open_text(self.namespace@),
    {
        let mut m = String::from_str("namespace is not open: ");
        m.append(self.namespace.as_str());
        m.append("; call open_namespace or reattach_namespace before adapter operations");
        m
    }
}

/// The error that every adapter operation on an unopened namespace reports.
pub fn explicit_lifecycle_error(namespace: &str) -> (e: NamespaceNotOpen)
    ensures
        e.namespace@ == namespace@,
{
    NamespaceNotOpen { namespace: string_of(namespace) }
}

/// A batch of inputs named more than one namespace.
#[derive(Debug, Clone, PartialEq, Eq)]
pub struct MultipleNamespaces {
    pub label: String,
    pub expected: String,
    pub found: String,
}

pub open spec fn multiple_namespaces_text(e: MultipleNamespaces) -> Seq<char> {
    e.label@ + " contains multiple namespaces: "@ + e.expected@ + " and "@ + e.found@
}

impl MultipleNamespaces {
    pub fn message(&self) -> (m: String)
        ensures
            m@ == multiple_namespaces_text(*self),
    {
        let mut m = self.label.clone();
        m.append(" contains multiple namespaces: ");
        m.append(self.expected.as_str());
        m.append(" and ");
        m.append(self.found.as_str());
        m
    }
}

/// The namespace that every input of a batch shares; the first one that differs
/// from `expected` is reported.
pub fn shared_input_namespace(label: &str, expected: &str, namespaces: &Vec<String>) -> (r: Result<
    String,
    MultipleNamespaces,
>)
    ensures
        match r {
            Ok(s) => s@ == expected@ && forall|i: int|
                0 <= i < namespaces@.len() ==> #[trigger] namespaces@[i]@ == expected@,
            Err(e) => exists|k: int|
                0 <= k < namespaces@.len() && namespaces@[k]@ != expected@ && (forall|i: int|
                    0 <= i < k ==> #[trigger] namespaces@[i]@ == expected@) && e.label@ == label@
                    && e.expected@ == expected@ && e.found@ == namespaces@[k]@,
        },
{
    let mut i: usize = 0;
    while i < namespaces.len()
        invariant
            i <= namespaces.len(),
            forall|j: int| 0 <= j < i ==> #[trigger] namespaces@[j]@ == expected@,
        decreases namespaces.len() - i,
    {
        if !text_eq(namespaces[i].as_str(), expected) {
            return Err(
                MultipleNamespaces {
                    label: string_of(label),
                    expected: string_of(expected),
                    found: namespaces[i].clone(),
                },
            );
        }
        i = i + 1;
    }
    Ok(string_of(expected))
}

/// The value of the version-5 UUID derived from the UTF-8 encoding of `name` under the namespace `ns`.
pub uninterp spec fn uuid_v5_value(ns: u128, name: Seq<char>) -> u128;

/// Derives a version-5 UUID (`uuid::Uuid::new_v5`) from the UTF-8 bytes of `name`
/// under the namespace UUID `ns`, and returns its 128-bit value (`Uuid::as_u128`).
#[verifier::external_body]
fn uuid_v5(ns: u128, name: &str) -> (r: u128)
    ensures
        r == uuid_v5_value(ns, name@),
{
    uuid::Uuid::new_v5(&uuid::Uuid::from_u128(ns), name.as_bytes()).as_u128()
}

pub open spec fn hex_char(d: int) -> char {
    if d < 10 {
        (('0' as int) + d) as char
    } else {
        (('a' as int) + d - 10) as char
    }
}

/// The lowest `n` hexadecimal digits of `v`, most significant first, lower case.
pub open spec fn hex_digits(v: nat, n: nat) -> Seq<char>
    decreases n,
{
    if n == 0 {
        Seq::empty()
    } else {
        hex_digits(v / 16, (n - 1) as nat).push(hex_char((v % 16) as int))
    }
}

fn hex_digit_char(d: u128) -> (c: char)
    requires
        d < 16,
    ensures
        c == hex_char(d as int),
{
    match d {
        0 => '0',
        1 => '1',
        2 => '2',
        3 => '3',
        4 => '4',
        5 => '5',
        6 => '6',
        7 => '7',
        8 => '8',
        9 => '9',
        10 => 'a',
        11 => 'b',
        12 => 'c',
        13 => 'd',
        14 => 'e',
        _ => 'f',
    }
}

/// The "simple" form of a UUID: its 32 hexadecimal digits in lower case, no hyphens
/// (`uuid::fmt::Simple`).
pub fn uuid_simple(value: u128) -> (s: String)
    ensures
        s@ == hex_digits(value as nat, 32),
{
    let mut digits: Vec<char> = Vec::new();
    let mut cur: u128 = value;
    let mut k: usize = 0;
    while k < 32
        invariant
            k <= 32,
            hex_digits(value as nat, 32) == hex_digits(cur as nat, (32 - k) as nat) + digits@,
        decreases 32 - k,
    {
        let ghost m: nat = (32 - k) as nat;
        let c = hex_digit_char(cur % 16);
        assert(hex_digits(cur as nat, m) == hex_digits((cur / 16) as nat, (m - 1) as nat).push(
            c,
        ));
        let ghost before = digits@;
        digits.insert(0, c);
        assert(digits@ =~= seq![c] + before);
        assert(hex_digits(cur as nat, m) + before =~= hex_digits((cur / 16) as nat, (m - 1) as nat)
            + digits@);
        cur = cur / 16;
        k = k + 1;
    }
    assert(hex_digits(cur as nat, 0) =~= Seq::<char>::empty());
    assert(digits@ =~= hex_digits(value as nat, 32));
    string_from_chars(&digits)
}

/// The namespace prefix in force: the configured one, else `cmem_eval`.
pub fn namespace_prefix(configured: Option<&str>) -> (p: &str)
    ensures
        p@ == match configured {
            Some(c) => c@,
            None => "cmem_eval"@,
        },
{
    match configured {
        Some(c) => c,
        None => "cmem_eval",
    }
}

/// The text from which a namespace's identity UUID is derived: prefix, run and
/// namespace, separated by NUL characters.
pub open spec fn identity_text(prefix: Seq<char>, run_id: Seq<char>, namespace: Seq<char>) -> Seq<
    char,
> {
    prefix + "\u{0}"@ + run_id + "\u{0}"@ + namespace
}

/// The identity UUID of a namespace within a run under a prefix.
pub open spec fn identity_suffix_spec(prefix: Seq<char>, run_id: Seq<char>, namespace: Seq<char>) -> u128 {
    uuid_v5_value(UUID_NAMESPACE, identity_text(prefix, run_id, namespace))
}

/// The identity UUID of a namespace within a run under a prefix.
pub fn namespace_identity_suffix(prefix: &str, run_id: &str, namespace: &str) -> (u: u128)
    ensures
        u == identity_suffix_spec(prefix@, run_id@, namespace@),
{
    let mut text = string_of(prefix);
    text.append("\u{0}");
    text.append(run_id);
    text.append("\u{0}");
    text.append(namespace);
    uuid_v5(UUID_NAMESPACE, text.as_str())
}

/// The Qdrant collection name of a namespace: the sanitized prefix, run and namespace,
/// then the identity UUID in simple form, joined by `_`.
pub open spec fn collection_name_spec(prefix: Seq<char>, run_id: Seq<char>, namespace: Seq<char>) -> Seq<
    char,
> {
    sanitized(prefix) + "_"@ + sanitized(run_id) + "_"@ + sanitized(namespace) + "_"@ + hex_digits(
        identity_suffix_spec(prefix, run_id, namespace) as nat,
        32,
    )
}

pub fn collection_name(prefix: &str, run_id: &str, namespace: &str) -> (name: String)
    ensures
        name@ == collection_name_spec(prefix@, run_id@, namespace@),
{
    let suffix = uuid_simple(namespace_identity_suffix(prefix, run_id, namespace));
    let mut name = sanitize_collection_segment(prefix);
    name.append("_");
    name.append(sanitize_collection_segment(run_id).as_str());
    name.append("_");
    name.append(sanitize_collection_segment(namespace).as_str());
    name.append("_");
    name.append(suffix.as_str());
    name
}

/// The file name of a namespace's external-id registry.
pub open spec fn identity_registry_file_name_spec(
    prefix: Seq<char>,
    run_id: Seq<char>,
    namespace: Seq<char>,
) -> Seq<char> {
    "identity-"@ + sanitized(prefix) + "-"@ + sanitized(namespace) + "-"@ + hex_digits(
        identity_suffix_spec(prefix, run_id, namespace) as nat,
        32,
    ) + ".json"@
}

pub fn identity_registry_file_name(prefix: &str, run_id: &str, namespace: &str) -> (name: String)
    ensures
        name@ == identity_registry_file_name_spec(prefix@, run_id@, namespace@),
{
    let suffix = uuid_simple(namespace_identity_suffix(prefix, run_id, namespace));
    let mut name = String::from_str("identity-");
    name.append(sanitize_collection_segment(prefix).as_str());
    name.append("-");
    name.append(sanitize_collection_segment(namespace).as_str());
    name.append("-");
    name.append(suffix.as_str());
    name.append(".json");
    name
}

proof fn lemma_hex_digits_len(v: nat, n: nat)
    ensures
        hex_digits(v, n).len() == n,
    decreases n,
{
    if n > 0 {
        lemma_hex_digits_len(v / 16, (n - 1) as nat);
    }
}

/// A namespace's registry file and its collection carry the same identity: the last 32
/// characters of the collection name are the identity UUID in simple form, and the
/// registry file name is that UUID followed by `.json`, after the sanitized prefix and
/// namespace. Both names depend on the prefix, run and namespace alone.
pub proof fn lemma_registry_shares_collection_identity(prefix: Seq<char>, run_id: Seq<char>, namespace: Seq<char>)
    ensures
        ({
            let u = hex_digits(identity_suffix_spec(prefix, run_id, namespace) as nat, 32);
            let c = collection_name_spec(prefix, run_id, namespace);
            let f = identity_registry_file_name_spec(prefix, run_id, namespace);
            &&& c.len() >= 32
            &&& c.subrange(c.len() - 32, c.len() as int) == u
            &&& f.len() >= 37
            &&& f.subrange(f.len() - 37, f.len() - 5) == u
            &&& f.subrange(f.len() - 5, f.len() as int) == ".json"@
        }),
{
    let u = hex_digits(identity_suffix_spec(prefix, run_id, namespace) as nat, 32);
    lemma_hex_digits_len(identity_suffix_spec(prefix, run_id, namespace) as nat, 32);
    reveal_strlit(".json");
    let c = collection_name_spec(prefix, run_id, namespace);
    let head = sanitized(prefix) + "_"@ + sanitized(run_id) + "_"@ + sanitized(namespace) + "_"@;
    assert(c == head + u);
    assert(c.subrange(c.len() - 32, c.len() as int) =~= u);
    let f = identity_registry_file_name_spec(prefix, run_id, namespace);
    let fhead = "identity-"@ + sanitized(prefix) + "-"@ + sanitized(namespace) + "-"@;
    assert(f == fhead + u + ".json"@);
    assert(f.subrange(f.len() - 37, f.len() - 5) =~= u);
    assert(f.subrange(f.len() - 5, f.len() as int) =~= ".json"@);
}

/// The name under which a namespace's durable stores are kept beneath their roots.
pub open spec fn durable_store_identity_spec(
    prefix: Seq<char>,
    run_id: Seq<char>,
    namespace: Seq<char>,
) -> Seq<char> {
    sanitized(prefix) + "-"@ + sanitized(namespace) + "-"@ + hex_digits(
        identity_suffix_spec(prefix, run_id, namespace) as nat,
        32,
    )
}

pub fn durable_store_identity(prefix: &str, run_id: &str, namespace: &str) -> (name: String)
    ensures
        name@ == durable_store_identity_spec(prefix@, run_id@, namespace@),
{
    let suffix = uuid_simple(namespace_identity_suffix(prefix, run_id, namespace));
    let mut name = sanitize_collection_segment(prefix);
    name.append("-");
    name.append(sanitize_collection_segment(namespace).as_str());
    name.append("-");
    name.append(suffix.as_str());
    name
}

/// The memory id assigned to an external id of a kind within a namespace.
pub fn deterministic_id(namespace: &str, kind: &str, external_id: &str) -> (id: u128)
    ensures
        id == uuid_v5_value(
            UUID_NAMESPACE,
            namespace@ + "\u{0}"@ + kind@ + "\u{0}"@ + external_id@,
        ),
{
    let mut text = string_of(namespace);
    text.append("\u{0}");
    text.append(kind);
    text.append("\u{0}");
    text.append(external_id);
    uuid_v5(UUID_NAMESPACE, text.as_str())
}

/// A text that begins with a sanitized prefix has that prefix.
proof fn lemma_sanitized_prefix_of_name(p: Seq<char>, rest: Seq<char>)
    ensures
        has_prefix(sanitized(p) + rest, sanitized(p)),
{
    assert((sanitized(p) + rest).subrange(0, sanitized(p).len() as int) =~= sanitized(p));
}

/// The collections this library names for a namespace are always accepted by the
/// cleanup guard when the cleanup prefix is the namespace prefix itself, provided that
/// prefix has no surrounding whitespace and is at least three characters long.
pub proof fn lemma_own_collection_passes_cleanup(
    prefix: Seq<char>,
    run_id: Seq<char>,
    namespace: Seq<char>,
)
    requires
        trim_spec(prefix) == prefix,
        prefix.len() >= 3,
    ensures
        cleanup_target_outcome(collection_name_spec(prefix, run_id, namespace), Some(prefix)) is Ok,
{
    let rest = "_"@ + sanitized(run_id) + "_"@ + sanitized(namespace) + "_"@ + hex_digits(
        identity_suffix_spec(prefix, run_id, namespace) as nat,
        32,
    );
    assert(collection_name_spec(prefix, run_id, namespace) =~= sanitized(prefix) + rest);
    lemma_sanitized_prefix_of_name(prefix, rest);
}

pub open spec fn is_ascii_upper(c: char) -> bool {
    'A' <= c && c <= 'Z'
}

/// The characters that stand for the character `c` at position `idx` in snake case:
/// an ASCII capital becomes its lower-case letter, after an underscore unless it
/// opens the text; any other character stays.
pub open spec fn snake_piece(c: char, idx: int) -> Seq<char> {
    if is_ascii_upper(c) {
        (if idx > 0 {
            seq!['_']
        } else {
            Seq::empty()
        }) + seq![((c as int) + 32) as char]
    } else {
        seq![c]
    }
}

/// The snake-case form of the first `n` characters of `s`.
pub open spec fn snake_case_prefix(s: Seq<char>, n: int) -> Seq<char>
    decreases n,
{
    if n <= 0 {
        Seq::empty()
    } else {
        snake_case_prefix(s, n - 1) + snake_piece(s[n - 1], n - 1)
    }
}

/// A `CamelCase` name in `snake_case`: every ASCII capital is lowered and, unless it
/// opens the name, preceded by an underscore.
pub fn to_ascii_snake_case(s: &str) -> (out: String)
    ensures
        out@ == snake_case_prefix(s@, s@.len() as int),
{
    let chars = chars_of(s);
    let mut out: Vec<char> = Vec::new();
    let mut i: usize = 0;
    while i < chars.len()
        invariant
            chars@ == s@,
            i <= chars.len(),
            out@ == snake_case_prefix(s@, i as int),
        decreases chars.len() - i,
    {
        let ch = chars[i];
        let ghost before = out@;
        if 'A' <= ch && ch <= 'Z' {
            if i > 0 {
                out.push('_');
            }
            let lower = ((ch as u32) + 32) as u8 as char;
            assert(lower == ((ch as int) + 32) as char) by {
                assert(65 <= ch as u32 <= 90);
            }
            out.push(lower);
        } else {
            out.push(ch);
        }
        assert(out@ =~= before + snake_piece(ch, i as int));
        i = i + 1;
    }
    string_from_chars(&out)
}

} // verus!
