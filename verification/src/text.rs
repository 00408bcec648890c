//! Character-level helpers shared by the rest of the library.
use vstd::prelude::*;

verus! {

/// Unicode `White_Space`, the set that `char::is_whitespace` and `str::trim` use.
pub open spec fn is_unicode_whitespace(c: char) -> bool {
    ||| ('\u{9}' <= c && c <= '\u{d}')
    ||| c == ' '
    ||| c == '\u{85}'
    ||| c == '\u{a0}'
    ||| c == '\u{1680}'
    ||| ('\u{2000}' <= c && c <= '\u{200a}')
    ||| c == '\u{2028}'
    ||| c == '\u{2029}'
    ||| c == '\u{202f}'
    ||| c == '\u{205f}'
    ||| c == '\u{3000}'
}

/// A text with leading whitespace removed.
pub open spec fn trim_start_spec(s: Seq<char>) -> Seq<char>
    decreases s.len(),
{
    if s.len() > 0 && is_unicode_whitespace(s[0]) {
        trim_start_spec(s.drop_first())
    } else {
        s
    }
}

/// A text with trailing whitespace removed.
pub open spec fn trim_end_spec(s: Seq<char>) -> Seq<char>
    decreases s.len(),
{
    if s.len() > 0 && is_unicode_whitespace(s.last()) {
        trim_end_spec(s.drop_last())
    } else {
        s
    }
}

/// A text with whitespace removed at both ends.
pub open spec fn trim_spec(s: Seq<char>) -> Seq<char> {
    trim_end_spec(trim_start_spec(s))
}

/// True when every character of the text is whitespace (the empty text included).
pub open spec fn is_blank_spec(s: Seq<char>) -> bool {
    forall|i: int| 0 <= i < s.len() ==> is_unicode_whitespace(#[trigger] s[i])
}

/// `prefix` occurs at the start of `s`.
pub open spec fn has_prefix(s: Seq<char>, prefix: Seq<char>) -> bool {
    prefix.len() <= s.len() && s.subrange(0, prefix.len() as int) == prefix
}

pub fn is_whitespace_char(c: char) -> (r: bool)
    ensures
        r == is_unicode_whitespace(c),
{
    ('\u{9}' <= c && c <= '\u{d}') || c == ' ' || c == '\u{85}' || c == '\u{a0}' || c
        == '\u{1680}' || ('\u{2000}' <= c && c <= '\u{200a}') || c == '\u{2028}' || c
        == '\u{2029}' || c == '\u{202f}' || c == '\u{205f}' || c == '\u{3000}'
}

/// Appends one character to a string (`String::push`).
#[verifier::external_body]
pub(crate) fn push_char(s: &mut String, c: char)
    ensures
        final(s)@ == old(s)@.push(c),
{
    s.push(c);
}

/// The text with the Unicode `White_Space` characters at both ends removed, as
/// `str::trim` removes them.
pub fn trimmed(s: &str) -> (r: String)
    ensures
        r@ == trim_spec(s@),
{
    let chars = chars_of(s);
    let n = chars.len();
    let mut lo: usize = 0;
    assert(s@.subrange(0, n as int) =~= s@);
    while lo < n && is_whitespace_char(chars[lo])
        invariant
            chars@ == s@,
            n == s@.len(),
            lo <= n,
            trim_start_spec(s@) == trim_start_spec(s@.subrange(lo as int, n as int)),
        decreases n - lo,
    {
        assert(s@.subrange(lo as int, n as int).drop_first() =~= s@.subrange(lo + 1, n as int));
        lo = lo + 1;
    }
    assert(trim_start_spec(s@) == s@.subrange(lo as int, n as int));
    let mut hi: usize = n;
    while hi > lo && is_whitespace_char(chars[hi - 1])
        invariant
            chars@ == s@,
            n == s@.len(),
            lo <= hi <= n,
            trim_spec(s@) == trim_end_spec(s@.subrange(lo as int, hi as int)),
        decreases hi,
    {
        assert(s@.subrange(lo as int, hi as int).drop_last() =~= s@.subrange(lo as int, hi - 1));
        hi = hi - 1;
    }
    let mut out: Vec<char> = Vec::new();
    let mut k: usize = lo;
    while k < hi
        invariant
            chars@ == s@,
            lo <= k <= hi <= n,
            n == s@.len(),
            out@ == s@.subrange(lo as int, k as int),
        decreases hi - k,
    {
        out.push(chars[k]);
        k = k + 1;
        assert(out@ =~= s@.subrange(lo as int, k as int));
    }
    string_from_chars(&out)
}

/// The characters of a text, in order.
pub fn chars_of(s: &str) -> (out: Vec<char>)
    ensures
        out@ == s@,
{
    let n: usize = s.unicode_len();
    let mut out: Vec<char> = Vec::new();
    let mut i: usize = 0;
    while i < n
        invariant
            n == s@.len(),
            i <= n,
            out@ == s@.subrange(0, i as int),
        decreases n - i,
    {
        let c = s.get_char(i);
        out.push(c);
        i = i + 1;
        assert(out@ =~= s@.subrange(0, i as int));
    }
    assert(out@ =~= s@);
    out
}

/// A string holding the given characters.
pub fn string_from_chars(chars: &Vec<char>) -> (out: String)
    ensures
        out@ == chars@,
{
    let mut out = String::new();
    let mut i: usize = 0;
    while i < chars.len()
        invariant
            i <= chars.len(),
            out@ == chars@.subrange(0, i as int),
        decreases chars.len() - i,
    {
        push_char(&mut out, chars[i]);
        i = i + 1;
        assert(out@ =~= chars@.subrange(0, i as int));
    }
    assert(out@ =~= chars@);
    out
}

/// A copy of a string slice.
pub fn string_of(s: &str) -> (out: String)
    ensures
        out@ == s@,
{
    let chars = chars_of(s);
    string_from_chars(&chars)
}

/// Whether `prefix` occurs at the start of `s` (`str::starts_with` on a text prefix).
pub fn starts_with_text(s: &str, prefix: &str) -> (r: bool)
    ensures
        r == has_prefix(s@, prefix@),
{
    let sv = chars_of(s);
    let pv = chars_of(prefix);
    if pv.len() > sv.len() {
        return false;
    }
    let mut i: usize = 0;
    while i < pv.len()
        invariant
            pv.len() <= sv.len(),
            sv@ == s@,
            pv@ == prefix@,
            i <= pv.len(),
            forall|j: int| 0 <= j < i ==> sv@[j] == pv@[j],
        decreases pv.len() - i,
    {
        if sv[i] != pv[i] {
            assert(sv@.subrange(0, pv@.len() as int)[i as int] != pv@[i as int]);
            return false;
        }
        i = i + 1;
    }
    assert(sv@.subrange(0, pv@.len() as int) =~= pv@);
    true
}

/// Whether every character of the text is whitespace (`str::trim(..).is_empty()`).
pub fn is_blank(s: &str) -> (r: bool)
    ensures
        r == is_blank_spec(s@),
{
    let v = chars_of(s);
    let mut i: usize = 0;
    while i < v.len()
        invariant
            i <= v.len(),
            v@ == s@,
            forall|j: int| 0 <= j < i ==> is_unicode_whitespace(#[trigger] v@[j]),
        decreases v.len() - i,
    {
        if !is_whitespace_char(v[i]) {
            return false;
        }
        i = i + 1;
    }
    true
}

/// Text equality of two string slices.
pub fn text_eq(a: &str, b: &str) -> (r: bool)
    ensures
        r == (a@ == b@),
{
    let av = chars_of(a);
    let bv = chars_of(b);
    if av.len() != bv.len() {
        return false;
    }
    let mut i: usize = 0;
    while i < av.len()
        invariant
            av.len() == bv.len(),
            av@ == a@,
            bv@ == b@,
            i <= av.len(),
            forall|j: int| 0 <= j < i ==> av@[j] == bv@[j],
        decreases av.len() - i,
    {
        if av[i] != bv[i] {
            assert(av@[i as int] != bv@[i as int]);
            return false;
        }
        i = i + 1;
    }
    assert(av@ =~= bv@);
    true
}

/// Some element of `v` has the text `x`.
pub open spec fn seq_contains_text(v: Seq<String>, x: Seq<char>) -> bool {
    exists|i: int| 0 <= i < v.len() && #[trigger] v[i]@ == x
}

/// Two elements of `v` have the same text.
pub open spec fn has_duplicate_text(v: Seq<String>) -> bool {
    exists|i: int, j: int| 0 <= i < j < v.len() && #[trigger] v[i]@ == #[trigger] v[j]@
}

/// Whether some element of `v` has the text `x`.
pub fn contains_text(v: &Vec<String>, x: &str) -> (r: bool)
    ensures
        r == seq_contains_text(v@, x@),
{
    let mut i: usize = 0;
    while i < v.len()
        invariant
            i <= v.len(),
            forall|j: int| 0 <= j < i ==> #[trigger] v@[j]@ != x@,
        decreases v.len() - i,
    {
        if text_eq(v[i].as_str(), x) {
            return true;
        }
        i = i + 1;
    }
    false
}

/// Whether two elements of `v` have the same text.
pub fn has_duplicate(v: &Vec<String>) -> (r: bool)
    ensures
        r == has_duplicate_text(v@),
{
    let mut j: usize = 0;
    while j < v.len()
        invariant
            j <= v.len(),
            forall|a: int, b: int| 0 <= a < b < j ==> #[trigger] v@[a]@ != #[trigger] v@[b]@,
        decreases v.len() - j,
    {
        let mut i: usize = 0;
        while i < j
            invariant
                i <= j < v.len(),
                forall|a: int, b: int| 0 <= a < b < j ==> #[trigger] v@[a]@ != #[trigger] v@[b]@,
                forall|a: int| 0 <= a < i ==> #[trigger] v@[a]@ != v@[j as int]@,
            decreases j - i,
        {
            if text_eq(v[i].as_str(), v[j].as_str()) {
                return true;
            }
            i = i + 1;
        }
        j = j + 1;
    }
    false
}

/// `pat` occurs in `s` at position `k`.
pub open spec fn occurs_at(s: Seq<char>, pat: Seq<char>, k: int) -> bool {
    0 <= k && k + pat.len() <= s.len() && s.subrange(k, k + pat.len()) == pat
}

/// The first position at which `pat` occurs in `s`, if any (`str::find`, counted in
/// characters).
pub open spec fn first_occurrence(s: Seq<char>, pat: Seq<char>) -> Option<int> {
    if exists|k: int| occurs_at(s, pat, k) {
        Some(choose|k: int| occurs_at(s, pat, k) && forall|j: int| 0 <= j < k ==> !occurs_at(s, pat, j))
    } else {
        None
    }
}

fn occurs_at_exec(sv: &Vec<char>, pv: &Vec<char>, k: usize) -> (r: bool)
    requires
        k + pv@.len() <= sv@.len(),
    ensures
        r == occurs_at(sv@, pv@, k as int),
{
    let mut i: usize = 0;
    while i < pv.len()
        invariant
            k + pv.len() <= sv.len(),
            i <= pv@.len(),
            forall|j: int| 0 <= j < i ==> sv@[k + j] == pv@[j],
        decreases pv@.len() - i,
    {
        if sv[k + i] != pv[i] {
            assert(sv@.subrange(k as int, k + pv@.len())[i as int] != pv@[i as int]);
            return false;
        }
        i = i + 1;
    }
    assert(sv@.subrange(k as int, k + pv@.len()) =~= pv@);
    true
}

/// The first position, in characters, at which `pat` occurs in `s`.
pub fn find_text(s: &str, pat: &str) -> (r: Option<usize>)
    ensures
        match r {
            Some(k) => occurs_at(s@, pat@, k as int) && forall|j: int|
                0 <= j < k ==> !occurs_at(s@, pat@, j),
            None => forall|j: int| !occurs_at(s@, pat@, j),
        },
        r matches Some(k) ==> first_occurrence(s@, pat@) == Some(k as int),
        r is None ==> first_occurrence(s@, pat@) is None,
{
    let sv = chars_of(s);
    let pv = chars_of(pat);
    if pv.len() > sv.len() {
        return None;
    }
    if pv.len() == 0 {
        assert(s@.subrange(0, 0) =~= pat@);
        assert(occurs_at(s@, pat@, 0));
        return Some(0);
    }
    let last: usize = sv.len() - pv.len();
    let mut k: usize = 0;
    while k <= last
        invariant
            sv@ == s@,
            pv@ == pat@,
            last == sv@.len() - pv@.len(),
            last < sv.len(),
            k <= last + 1,
            forall|j: int| 0 <= j < k ==> !occurs_at(s@, pat@, j),
        decreases last + 1 - k,
    {
        if occurs_at_exec(&sv, &pv, k) {
            proof {
                let c = choose|c: int| occurs_at(s@, pat@, c) && forall|j: int|
                    0 <= j < c ==> !occurs_at(s@, pat@, j);
                if c < k {
                } else if c > k {
                }
            }
            return Some(k);
        }
        k = k + 1;
    }
    None
}

/// `s` split around the first occurrence of `pat` (`str::split_once`).
pub fn split_once_text(s: &str, pat: &str) -> (r: Option<(String, String)>)
    ensures
        match first_occurrence(s@, pat@) {
            Some(k) => r matches Some((a, b)) && a@ == s@.subrange(0, k) && b@ == s@.subrange(
                k + pat@.len(),
                s@.len() as int,
            ),
            None => r is None,
        },
{
    match find_text(s, pat) {
        None => None,
        Some(k) => {
            let n: usize = s.unicode_len();
            let plen: usize = pat.unicode_len();
            let a = s.substring_char(0, k);
            let b = s.substring_char(k + plen, n);
            Some((string_of(a), string_of(b)))
        },
    }
}

} // verus!
