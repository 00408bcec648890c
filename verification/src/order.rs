//! Lexicographic order of texts (the order of `String`'s `Ord`: by code point), and
//! sorting lists of texts.
use vstd::prelude::*;

use crate::text::chars_of;
use crate::timestamp::{earlier, ts_lt, Timestamp};

verus! {

/// `a` comes strictly before `b`: at the first position where they differ `a` has the
/// smaller character, or `a` is a proper prefix of `b`.
pub open spec fn text_lt(a: Seq<char>, b: Seq<char>) -> bool
    decreases a.len(),
{
    if a.len() == 0 {
        b.len() > 0
    } else if b.len() == 0 {
        false
    } else if a[0] != b[0] {
        a[0] < b[0]
    } else {
        text_lt(a.drop_first(), b.drop_first())
    }
}

pub proof fn lemma_text_lt_irreflexive(a: Seq<char>)
    ensures
        !text_lt(a, a),
    decreases a.len(),
{
    if a.len() > 0 {
        lemma_text_lt_irreflexive(a.drop_first());
    }
}

pub proof fn lemma_text_lt_transitive(a: Seq<char>, b: Seq<char>, c: Seq<char>)
    requires
        text_lt(a, b),
        text_lt(b, c),
    ensures
        text_lt(a, c),
    decreases a.len(),
{
    if a.len() > 0 && b.len() > 0 && c.len() > 0 {
        if a[0] == b[0] && b[0] == c[0] {
            lemma_text_lt_transitive(a.drop_first(), b.drop_first(), c.drop_first());
        }
    }
}

/// Two different texts are ordered one way or the other.
pub proof fn lemma_text_lt_total(a: Seq<char>, b: Seq<char>)
    ensures
        a == b || text_lt(a, b) || text_lt(b, a),
    decreases a.len(),
{
    if a.len() > 0 && b.len() > 0 && a[0] == b[0] {
        lemma_text_lt_total(a.drop_first(), b.drop_first());
        if a.drop_first() == b.drop_first() {
            assert(a =~= seq![a[0]] + a.drop_first());
            assert(b =~= seq![b[0]] + b.drop_first());
        }
    } else if a.len() == 0 && b.len() == 0 {
        assert(a =~= b);
    }
}

pub proof fn lemma_text_lt_asymmetric(a: Seq<char>, b: Seq<char>)
    requires
        text_lt(a, b),
    ensures
        !text_lt(b, a),
{
    if text_lt(b, a) {
        lemma_text_lt_transitive(a, b, a);
        lemma_text_lt_irreflexive(a);
    }
}

/// Whether `a` comes strictly before `b`.
pub fn text_less(a: &str, b: &str) -> (r: bool)
    ensures
        r == text_lt(a@, b@),
{
    let av = chars_of(a);
    let bv = chars_of(b);
    let mut i: usize = 0;
    assert(a@.skip(0) =~= a@);
    assert(b@.skip(0) =~= b@);
    while i < av.len() && i < bv.len()
        invariant
            av@ == a@,
            bv@ == b@,
            i <= av@.len(),
            i <= bv@.len(),
            text_lt(a@, b@) == text_lt(a@.skip(i as int), b@.skip(i as int)),
        decreases av.len() - i,
    {
        assert(a@.skip(i as int)[0] == av@[i as int]);
        assert(b@.skip(i as int)[0] == bv@[i as int]);
        if av[i] != bv[i] {
            return av[i] < bv[i];
        }
        assert(a@.skip(i as int).drop_first() =~= a@.skip(i + 1));
        assert(b@.skip(i as int).drop_first() =~= b@.skip(i + 1));
        i = i + 1;
    }
    i == av.len() && i < bv.len()
}

/// The texts are in strictly increasing order, hence also without repeats.
pub open spec fn strictly_sorted(v: Seq<String>) -> bool {
    forall|i: int, j: int| 0 <= i < j < v.len() ==> text_lt(#[trigger] v[i]@, #[trigger] v[j]@)
}

/// Some element of `v` has the text `x`.
pub open spec fn has_text(v: Seq<String>, x: Seq<char>) -> bool {
    exists|i: int| 0 <= i < v.len() && #[trigger] v[i]@ == x
}

/// The distinct texts of a list, in increasing order (`sort` then `dedup`).
pub fn sorted_unique_texts(v: Vec<String>) -> (out: Vec<String>)
    ensures
        strictly_sorted(out@),
        forall|x: Seq<char>| #[trigger] has_text(out@, x) <==> has_text(v@, x),
{
    let mut out: Vec<String> = Vec::new();
    let mut rest = v;
    let ghost all = rest@;
    while rest.len() > 0
        invariant
            rest@.len() <= all.len(),
            rest@ == all.subrange(0, rest@.len() as int),
            strictly_sorted(out@),
            forall|x: Seq<char>|
                #[trigger] has_text(out@, x) <==> exists|i: int|
                    rest@.len() <= i < all.len() && #[trigger] all[i]@ == x,
        decreases rest@.len(),
    {
        let ghost top: int = rest@.len() - 1;
        let x = rest.pop().unwrap();
        assert(x == all[top]);
        // Find the first position whose text is not before `x`.
        let mut p: usize = 0;
        while p < out.len() && text_less(out[p].as_str(), x.as_str())
            invariant
                p <= out@.len(),
                forall|k: int| 0 <= k < p ==> text_lt(#[trigger] out@[k]@, x@),
            decreases out@.len() - p,
        {
            p = p + 1;
        }
        let ghost before = out@;
        if p < out.len() && out[p] == x {
            // Already present.
            assert forall|y: Seq<char>| #[trigger] has_text(out@, y) <==> exists|i: int|
                rest@.len() <= i < all.len() && #[trigger] all[i]@ == y by {
                if y == x@ {
                    assert(out@[p as int]@ == y);
                    assert(all[top]@ == y);
                }
                if exists|i: int| rest@.len() <= i < all.len() && #[trigger] all[i]@ == y {
                    let i = choose|i: int| rest@.len() <= i < all.len() && #[trigger] all[i]@ == y;
                    if i != top {
                        assert(rest@.len() + 1 <= i);
                    }
                }
            }
        } else {
            proof {
                if p < out@.len() {
                    lemma_text_lt_total(out@[p as int]@, x@);
                }
            }
            out.insert(p, x);
            proof {
                assert forall|i: int, j: int|
                    0 <= i < j < out@.len() implies text_lt(#[trigger] out@[i]@, #[trigger] out@[j]@) by {
                    if j == p {
                        assert(out@[i] == before[i]);
                    } else if i == p {
                        assert(out@[j] == before[j - 1]);
                        if j - 1 > p {
                            lemma_text_lt_transitive(x@, before[p as int]@, before[j - 1]@);
                        }
                    } else {
                        let bi = if i < p {
                            i
                        } else {
                            i - 1
                        };
                        let bj = if j < p {
                            j
                        } else {
                            j - 1
                        };
                        assert(out@[i] == before[bi]);
                        assert(out@[j] == before[bj]);
                    }
                }
                assert forall|y: Seq<char>| #[trigger] has_text(out@, y) <==> exists|i: int|
                    rest@.len() <= i < all.len() && #[trigger] all[i]@ == y by {
                    if has_text(out@, y) {
                        let k = choose|k: int| 0 <= k < out@.len() && #[trigger] out@[k]@ == y;
                        if k == p {
                            assert(all[top]@ == y);
                        } else if k < p {
                            assert(before[k]@ == y);
                            assert(has_text(before, y));
                        } else {
                            assert(before[k - 1]@ == y);
                            assert(has_text(before, y));
                        }
                    }
                    if exists|i: int| rest@.len() <= i < all.len() && #[trigger] all[i]@ == y {
                        let i = choose|i: int| rest@.len() <= i < all.len() && #[trigger] all[i]@ == y;
                        if i == top {
                            assert(out@[p as int]@ == y);
                        } else {
                            assert(has_text(before, y));
                            let k = choose|k: int| 0 <= k < before.len() && #[trigger] before[k]@ == y;
                            if k < p {
                                assert(out@[k]@ == y);
                            } else {
                                assert(out@[k + 1]@ == y);
                            }
                        }
                    }
                }
            }
        }
    }
    assert forall|x: Seq<char>| #[trigger] has_text(out@, x) <==> has_text(v@, x) by {
        if has_text(v@, x) {
            let i = choose|i: int| 0 <= i < v@.len() && #[trigger] v@[i]@ == x;
            assert(all[i]@ == x);
        }
    }
    out
}

/// Position `i` comes before position `j` when ordered by instant, then by text, then
/// by position: the order of a stable sort by instant and text.
pub open spec fn rank_lt(ts: Seq<Timestamp>, texts: Seq<Seq<char>>, i: int, j: int) -> bool {
    ts_lt(ts[i], ts[j]) || (ts[i] == ts[j] && (text_lt(texts[i], texts[j]) || (texts[i]
        == texts[j] && i < j)))
}

/// The texts of a list of strings, as character sequences.
pub open spec fn text_views(v: Seq<String>) -> Seq<Seq<char>> {
    v.map_values(|s: String| s@)
}

/// `perm` lists each position below `n` once, in increasing rank.
pub open spec fn is_sorted_perm(ts: Seq<Timestamp>, texts: Seq<Seq<char>>, perm: Seq<usize>) -> bool {
    &&& perm.len() == ts.len()
    &&& forall|k: int| 0 <= k < perm.len() ==> #[trigger] perm[k] < ts.len()
    &&& forall|a: int, b: int|
        0 <= a < b < perm.len() ==> rank_lt(ts, texts, #[trigger] perm[a] as int, #[trigger] perm[b] as int)
}

proof fn lemma_rank_transitive(ts: Seq<Timestamp>, texts: Seq<Seq<char>>, i: int, j: int, k: int)
    requires
        rank_lt(ts, texts, i, j),
        rank_lt(ts, texts, j, k),
    ensures
        rank_lt(ts, texts, i, k),
{
    if ts[i] == ts[j] && ts[j] == ts[k] {
        if text_lt(texts[i], texts[j]) && text_lt(texts[j], texts[k]) {
            lemma_text_lt_transitive(texts[i], texts[j], texts[k]);
        }
    }
}

proof fn lemma_rank_total(ts: Seq<Timestamp>, texts: Seq<Seq<char>>, i: int, j: int)
    requires
        i != j,
    ensures
        rank_lt(ts, texts, i, j) || rank_lt(ts, texts, j, i),
{
    lemma_text_lt_total(texts[i], texts[j]);
}

pub(crate) proof fn lemma_rank_irreflexive_pair(ts: Seq<Timestamp>, texts: Seq<Seq<char>>, i: int, j: int)
    requires
        rank_lt(ts, texts, i, j),
    ensures
        !rank_lt(ts, texts, j, i),
        i != j,
{
    if text_lt(texts[i], texts[j]) {
        lemma_text_lt_asymmetric(texts[i], texts[j]);
    }
    if ts[i] == ts[j] && texts[i] == texts[j] {
        lemma_text_lt_irreflexive(texts[i]);
    }
    if i == j {
        lemma_text_lt_irreflexive(texts[i]);
    }
}

fn rank_less(ts: &Vec<Timestamp>, texts: &Vec<String>, i: usize, j: usize) -> (r: bool)
    requires
        i < ts@.len(),
        j < ts@.len(),
        texts@.len() == ts@.len(),
    ensures
        r == rank_lt(ts@, text_views(texts@), i as int, j as int),
{
    let a = ts[i];
    let b = ts[j];
    if earlier(a, b) {
        return true;
    }
    if a != b {
        return false;
    }
    if text_less(texts[i].as_str(), texts[j].as_str()) {
        return true;
    }
    texts[i] == texts[j] && i < j
}

/// The positions of a list ordered by instant, then text, then position: the order in
/// which a stable sort by instant and text leaves the list.
pub fn sorted_positions(ts: &Vec<Timestamp>, texts: &Vec<String>) -> (perm: Vec<usize>)
    requires
        texts@.len() == ts@.len(),
    ensures
        is_sorted_perm(ts@, text_views(texts@), perm@),
{
    let n: usize = ts.len();
    let mut perm: Vec<usize> = Vec::new();
    let mut k: usize = 0;
    while k < n
        invariant
            n == ts@.len(),
            texts@.len() == ts@.len(),
            k <= n,
            perm@.len() == k,
            forall|q: int| 0 <= q < perm@.len() ==> #[trigger] perm@[q] < k,
            forall|a: int, b: int|
                0 <= a < b < perm@.len() ==> rank_lt(ts@, text_views(texts@), #[trigger] perm@[a] as int, #[trigger] perm@[b] as int),
        decreases n - k,
    {
        let mut p: usize = 0;
        while p < perm.len() && rank_less(ts, texts, perm[p], k)
            invariant
                n == ts@.len(),
                texts@.len() == ts@.len(),
                k < n,
                p <= perm@.len(),
                forall|q: int| 0 <= q < perm@.len() ==> #[trigger] perm@[q] < k,
                forall|q: int| 0 <= q < p ==> rank_lt(ts@, text_views(texts@), #[trigger] perm@[q] as int, k as int),
            decreases perm@.len() - p,
        {
            p = p + 1;
        }
        let ghost before = perm@;
        proof {
            if p < before.len() {
                lemma_rank_total(ts@, text_views(texts@), before[p as int] as int, k as int);
            }
        }
        perm.insert(p, k);
        proof {
            assert forall|a: int, b: int|
                0 <= a < b < perm@.len() implies rank_lt(ts@, text_views(texts@), #[trigger] perm@[a] as int, #[trigger] perm@[b] as int) by {
                if b == p {
                    assert(perm@[a] == before[a]);
                } else if a == p {
                    assert(perm@[b] == before[b - 1]);
                    if b - 1 > p {
                        lemma_rank_transitive(ts@, text_views(texts@), k as int, before[p as int] as int, before[b - 1] as int);
                    }
                } else {
                    let ba = if a < p { a } else { a - 1 };
                    let bb = if b < p { b } else { b - 1 };
                    assert(perm@[a] == before[ba]);
                    assert(perm@[b] == before[bb]);
                }
            }
            assert forall|q: int| 0 <= q < perm@.len() implies #[trigger] perm@[q] < k + 1 by {
                if q < p {
                    assert(perm@[q] == before[q]);
                } else if q > p {
                    assert(perm@[q] == before[q - 1]);
                }
            }
        }
        k = k + 1;
    }
    perm
}

pub(crate) proof fn lemma_sorted_perm_covers(ts: Seq<Timestamp>, texts: Seq<Seq<char>>, p: Seq<usize>, v: int)
    requires
        is_sorted_perm(ts, texts, p),
        0 <= v < ts.len(),
    ensures
        exists|k: int| 0 <= k < p.len() && p[k] == v,
{
    let n = ts.len() as int;
    let pi = p.map_values(|x: usize| x as int);
    assert forall|a: int, b: int| 0 <= a < pi.len() && 0 <= b < pi.len() && a != b implies pi[a] != pi[b] by {
        if a < b {
            lemma_rank_irreflexive_pair(ts, texts, p[a] as int, p[b] as int);
        } else {
            lemma_rank_irreflexive_pair(ts, texts, p[b] as int, p[a] as int);
        }
    }
    assert(pi.no_duplicates());
    pi.unique_seq_to_set();
    vstd::set_lib::lemma_int_range(0, n);
    let range = vstd::set_lib::set_int_range(0, n);
    assert forall|x: int| pi.to_set().contains(x) implies range.contains(x) by {
        let k = choose|k: int| 0 <= k < pi.len() && pi[k] == x;
        assert(p[k] < ts.len());
    }
    assert(pi.to_set().subset_of(range));
    vstd::set_lib::lemma_subset_equality(pi.to_set(), range);
    assert(range.contains(v));
    assert(pi.to_set().contains(v));
    let k = choose|k: int| 0 <= k < pi.len() && pi[k] == v;
    assert(p[k] == v);
}

proof fn lemma_sorted_perms_agree_at(
    ts: Seq<Timestamp>,
    texts: Seq<Seq<char>>,
    p: Seq<usize>,
    q: Seq<usize>,
    k: int,
)
    requires
        is_sorted_perm(ts, texts, p),
        is_sorted_perm(ts, texts, q),
        0 <= k < p.len(),
        forall|j: int| 0 <= j < k ==> p[j] == q[j],
    ensures
        p[k] == q[k],
{
    let a = p[k] as int;
    let b = q[k] as int;
    if a != b {
        lemma_sorted_perm_covers(ts, texts, p, b);
        let kp = choose|x: int| 0 <= x < p.len() && p[x] == b;
        lemma_sorted_perm_covers(ts, texts, q, a);
        let kq = choose|x: int| 0 <= x < q.len() && q[x] == a;
        if kp < k {
            assert(q[kp] == b);
            lemma_rank_irreflexive_pair(ts, texts, q[kp] as int, q[k] as int);
        } else if kq < k {
            assert(p[kq] == a);
            lemma_rank_irreflexive_pair(ts, texts, p[kq] as int, p[k] as int);
        } else {
            assert(kp != k && kq != k);
            assert(rank_lt(ts, texts, p[k] as int, p[kp] as int));
            assert(rank_lt(ts, texts, q[k] as int, q[kq] as int));
            lemma_rank_irreflexive_pair(ts, texts, a, b);
        }
    }
}

/// The order of a stable sort by instant and text is determined: two lists of positions
/// that both order the same entries by instant, then text, then position are the same.
pub proof fn lemma_sorted_perm_unique(ts: Seq<Timestamp>, texts: Seq<Seq<char>>, p: Seq<usize>, q: Seq<usize>)
    requires
        is_sorted_perm(ts, texts, p),
        is_sorted_perm(ts, texts, q),
    ensures
        p == q,
{
    assert forall|k: int| 0 <= k < p.len() implies p[k] == q[k] by {
        lemma_sorted_perm_prefix(ts, texts, p, q, k);
    }
    assert(p =~= q);
}

proof fn lemma_sorted_perm_prefix(
    ts: Seq<Timestamp>,
    texts: Seq<Seq<char>>,
    p: Seq<usize>,
    q: Seq<usize>,
    k: int,
)
    requires
        is_sorted_perm(ts, texts, p),
        is_sorted_perm(ts, texts, q),
        0 <= k < p.len(),
    ensures
        forall|j: int| 0 <= j <= k ==> p[j] == q[j],
    decreases k,
{
    if k > 0 {
        lemma_sorted_perm_prefix(ts, texts, p, q, k - 1);
    }
    lemma_sorted_perms_agree_at(ts, texts, p, q, k);
}

} // verus!
