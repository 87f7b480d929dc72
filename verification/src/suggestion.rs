//! "Did you mean" suggestions for mistyped command and flag names.

use vstd::prelude::*;
use crate::text::{string_views, str_chars};

verus! {

/// Maximum Levenshtein distance for suggestions by default.
pub const DEFAULT_SUGGESTION_DISTANCE: usize = 2;

pub open spec fn min2(x: nat, y: nat) -> nat {
    if x <= y {
        x
    } else {
        y
    }
}

/// Edit distance (insertions, deletions and substitutions of single
/// characters) between two character sequences.
pub open spec fn lev(a: Seq<char>, b: Seq<char>) -> nat
    decreases a.len() + b.len(),
{
    if a.len() == 0 {
        b.len()
    } else if b.len() == 0 {
        a.len()
    } else {
        min2(
            min2(lev(a.drop_last(), b) + 1, lev(a, b.drop_last()) + 1),
            lev(a.drop_last(), b.drop_last()) + (if a.last() == b.last() {
                0nat
            } else {
                1nat
            }),
        )
    }
}

/// The inputs `levenshtein_distance` takes: strings whose character counts
/// leave room for one more in `usize` (the table has a column per
/// character, plus one).
pub open spec fn distance_defined(a: Seq<char>, b: Seq<char>) -> bool {
    &&& a.len() < usize::MAX
    &&& b.len() < usize::MAX
}

/// What `levenshtein_distance` returns: the edit distance counted in
/// characters.
pub open spec fn distance(a: Seq<char>, b: Seq<char>) -> nat {
    lev(a, b)
}

pub proof fn lemma_lev_bound(a: Seq<char>, b: Seq<char>)
    ensures
        lev(a, b) <= (if a.len() >= b.len() {
            a.len()
        } else {
            b.len()
        }),
    decreases a.len() + b.len(),
{
    if a.len() > 0 && b.len() > 0 {
        lemma_lev_bound(a.drop_last(), b.drop_last());
    }
}

/// A string is at distance 0 from itself.
pub proof fn lemma_lev_identity(a: Seq<char>)
    ensures
        lev(a, a) == 0,
    decreases a.len(),
{
    if a.len() > 0 {
        lemma_lev_identity(a.drop_last());
    }
}

/// The edit distance does not depend on the order of its arguments.
pub proof fn lemma_lev_symmetric(a: Seq<char>, b: Seq<char>)
    ensures
        lev(a, b) == lev(b, a),
    decreases a.len() + b.len(),
{
    if a.len() > 0 && b.len() > 0 {
        lemma_lev_symmetric(a.drop_last(), b);
        lemma_lev_symmetric(a, b.drop_last());
        lemma_lev_symmetric(a.drop_last(), b.drop_last());
    }
}

/// Only equal strings are at distance 0.
pub proof fn lemma_lev_zero(a: Seq<char>, b: Seq<char>)
    ensures
        lev(a, b) == 0 <==> a == b,
    decreases a.len() + b.len(),
{
    if a == b {
        lemma_lev_identity(a);
    } else if a.len() > 0 && b.len() > 0 {
        lemma_lev_zero(a.drop_last(), b.drop_last());
        if lev(a, b) == 0 {
            assert(a.drop_last() == b.drop_last() && a.last() == b.last());
            assert(a =~= a.drop_last().push(a.last()));
            assert(b =~= b.drop_last().push(b.last()));
        }
    } else if a.len() == 0 && b.len() == 0 {
        assert(a =~= b);
    }
}

/// Distances as `levenshtein_distance` returns them: symmetric, 0 exactly
/// between equal strings, and at most the longer string's length.
pub proof fn lemma_distance_laws(a: Seq<char>, b: Seq<char>)
    ensures
        distance(a, b) == distance(b, a),
        distance(a, b) == 0 <==> a == b,
        distance(a, b) <= (if a.len() >= b.len() {
            a.len()
        } else {
            b.len()
        }),
{
    lemma_lev_symmetric(a, b);
    lemma_lev_zero(a, b);
    lemma_lev_bound(a, b);
}

/// The Levenshtein distance between `s1` and `s2`.
pub fn levenshtein_distance(s1: &str, s2: &str) -> (d: usize)
    requires
        distance_defined(s1@, s2@),
    ensures
        d == distance(s1@, s2@),
{
    let a = str_chars(s1);
    let b = str_chars(s2);
    if a.len() == 0 {
        return b.len();
    }
    if b.len() == 0 {
        return a.len();
    }
    let n1 = a.len();
    let n2 = b.len();
    // prev[j] == lev(a[..i-1], b[..j])
    let mut prev: Vec<usize> = Vec::new();
    let mut j: usize = 0;
    while j <= n2
        invariant
            j <= n2 + 1,
            n2 == b@.len(),
            n2 < usize::MAX,
            prev@.len() == j,
            forall|k: int| 0 <= k < j ==> prev@[k] == lev(a@.take(0), b@.take(k)),
        decreases n2 + 1 - j,
    {
        prev.push(j);
        j = j + 1;
    }
    let mut i: usize = 1;
    while i <= n1
        invariant
            1 <= i <= n1 + 1,
            n1 == a@.len(),
            n2 == b@.len(),
            n1 < usize::MAX,
            n2 < usize::MAX,
            prev@.len() == n2 + 1,
            forall|k: int| 0 <= k <= n2 ==> prev@[k] == lev(a@.take(i - 1), b@.take(k)),
        decreases n1 + 1 - i,
    {
        let mut cur: Vec<usize> = Vec::new();
        cur.push(i);
        proof {
            assert(b@.take(0).len() == 0);
        }
        let mut j: usize = 1;
        while j <= n2
            invariant
                1 <= i <= n1,
                1 <= j <= n2 + 1,
                n1 == a@.len(),
                n2 == b@.len(),
                n1 < usize::MAX,
                n2 < usize::MAX,
                prev@.len() == n2 + 1,
                cur@.len() == j,
                forall|k: int| 0 <= k <= n2 ==> prev@[k] == lev(a@.take(i - 1), b@.take(k)),
                forall|k: int| 0 <= k < j ==> cur@[k] == lev(a@.take(i as int), b@.take(k)),
            decreases n2 + 1 - j,
        {
            let ghost ai = a@.take(i as int);
            let ghost bj = b@.take(j as int);
            proof {
                assert(ai.drop_last() =~= a@.take(i - 1));
                assert(bj.drop_last() =~= b@.take(j - 1));
                assert(ai.last() == a@[i - 1]);
                assert(bj.last() == b@[j - 1]);
                lemma_lev_bound(a@.take(i - 1), b@.take(j as int));
                lemma_lev_bound(ai, b@.take(j - 1));
                lemma_lev_bound(a@.take(i - 1), b@.take(j - 1));
            }
            let cost: usize = if a[i - 1] != b[j - 1] {
                1
            } else {
                0
            };
            let del = prev[j] + 1;
            let ins = cur[j - 1] + 1;
            let sub = prev[j - 1] + cost;
            let m1 = if del <= ins {
                del
            } else {
                ins
            };
            let m = if m1 <= sub {
                m1
            } else {
                sub
            };
            cur.push(m);
            j = j + 1;
        }
        prev = cur;
        i = i + 1;
    }
    proof {
        assert(a@.take(n1 as int) =~= a@);
        assert(b@.take(n2 as int) =~= b@);
    }
    prev[n2]
}

// ---------------------------------------------------------------------------
// Ordering of suggestions
// ---------------------------------------------------------------------------

/// Lexicographic order on character sequences by code point, which is the
/// order `String`'s `Ord` gives (byte order of UTF-8 agrees with it).
pub open spec fn lex_le(a: Seq<char>, b: Seq<char>) -> bool
    decreases a.len(),
{
    if a.len() == 0 {
        true
    } else if b.len() == 0 {
        false
    } else if a[0] != b[0] {
        (a[0] as u32) < (b[0] as u32)
    } else {
        lex_le(a.drop_first(), b.drop_first())
    }
}

pub proof fn lemma_lex_total(a: Seq<char>, b: Seq<char>)
    ensures
        lex_le(a, b) || lex_le(b, a),
    decreases a.len(),
{
    if a.len() > 0 && b.len() > 0 {
        if a[0] == b[0] {
            lemma_lex_total(a.drop_first(), b.drop_first());
        } else {
            vstd::utf8::char_u32_cast(a[0], a[0] as u32);
            vstd::utf8::char_u32_cast(b[0], b[0] as u32);
        }
    }
}

pub proof fn lemma_lex_antisym(a: Seq<char>, b: Seq<char>)
    requires
        lex_le(a, b),
        lex_le(b, a),
    ensures
        a == b,
    decreases a.len(),
{
    if a.len() > 0 && b.len() > 0 {
        if a[0] == b[0] {
            lemma_lex_antisym(a.drop_first(), b.drop_first());
            assert(a =~= seq![a[0]] + a.drop_first());
            assert(b =~= seq![b[0]] + b.drop_first());
        } else {
            vstd::utf8::char_u32_cast(a[0], a[0] as u32);
            vstd::utf8::char_u32_cast(b[0], b[0] as u32);
        }
    } else {
        assert(a =~= b);
    }
}

pub proof fn lemma_lex_trans(a: Seq<char>, b: Seq<char>, c: Seq<char>)
    requires
        lex_le(a, b),
        lex_le(b, c),
    ensures
        lex_le(a, c),
    decreases a.len(),
{
    if a.len() > 0 && b.len() > 0 && c.len() > 0 {
        if a[0] == b[0] && b[0] == c[0] {
            lemma_lex_trans(a.drop_first(), b.drop_first(), c.drop_first());
        } else {
            vstd::utf8::char_u32_cast(a[0], a[0] as u32);
            vstd::utf8::char_u32_cast(b[0], b[0] as u32);
            vstd::utf8::char_u32_cast(c[0], c[0] as u32);
        }
    }
}

/// `lex_le` on character buffers.
pub fn lex_le_exec(a: &[char], b: &[char]) -> (r: bool)
    ensures
        r == lex_le(a@, b@),
{
    let mut i: usize = 0;
    assert(a@.skip(0) =~= a@);
    assert(b@.skip(0) =~= b@);
    while i < a.len() && i < b.len()
        invariant
            i <= a@.len(),
            i <= b@.len(),
            lex_le(a@, b@) == lex_le(a@.skip(i as int), b@.skip(i as int)),
        decreases a.len() - i,
    {
        if a[i] != b[i] {
            return (a[i] as u32) < (b[i] as u32);
        }
        assert(a@.skip(i as int).drop_first() =~= a@.skip(i + 1));
        assert(b@.skip(i as int).drop_first() =~= b@.skip(i + 1));
        i = i + 1;
    }
    a.len() <= b.len()
}

/// Suggestion order: closer candidates first, ties broken alphabetically.
pub open spec fn suggestion_le(input: Seq<char>, x: Seq<char>, y: Seq<char>) -> bool {
    distance(input, x) < distance(input, y) || (distance(input, x) == distance(input, y)
        && lex_le(x, y))
}

/// The candidates (in the order given) within `max_distance` of `input`.
pub open spec fn within_distance(input: Seq<char>, cands: Seq<Seq<char>>, max_distance: nat) -> Seq<
    Seq<char>,
>
    decreases cands.len(),
{
    if cands.len() == 0 {
        Seq::empty()
    } else {
        let rest = within_distance(input, cands.drop_last(), max_distance);
        if distance(input, cands.last()) <= max_distance {
            rest.push(cands.last())
        } else {
            rest
        }
    }
}

/// Whether `s` is ordered by `suggestion_le`.
pub open spec fn sorted_suggestions(input: Seq<char>, s: Seq<Seq<char>>) -> bool {
    forall|i: int, j: int| 0 <= i < j < s.len() ==> suggestion_le(input, s[i], s[j])
}

proof fn lemma_multiset_insert<A>(s: Seq<A>, k: int, x: A)
    requires
        0 <= k <= s.len(),
    ensures
        s.insert(k, x).to_multiset() =~= s.to_multiset().insert(x),
{
    let pre = s.subrange(0, k);
    let post = s.subrange(k, s.len() as int);
    assert(s =~= pre + post);
    vstd::seq_lib::lemma_multiset_commutative(pre, post);
    vstd::seq_lib::lemma_multiset_commutative(pre.push(x), post);
    pre.to_multiset_ensures();
}

/// The candidates within `max_distance` edits of `input`, closest first and
/// alphabetically among equally close ones.
pub fn find_suggestions(input: &str, candidates: &[String], max_distance: usize) -> (r: Vec<
    String,
>)
    requires
        forall|i: int| 0 <= i < candidates@.len() ==> distance_defined(input@, #[trigger] candidates@[i]@),
    ensures
        string_views(r@).to_multiset() =~= within_distance(
            input@,
            string_views(candidates@),
            max_distance as nat,
        ).to_multiset(),
        sorted_suggestions(input@, string_views(r@)),
{
    let mut out: Vec<String> = Vec::new();
    let mut out_d: Vec<usize> = Vec::new();
    let mut out_c: Vec<Vec<char>> = Vec::new();
    let mut i: usize = 0;
    assert(string_views(candidates@.take(0)) =~= Seq::<Seq<char>>::empty());
    assert(string_views(out@) =~= Seq::<Seq<char>>::empty());
    while i < candidates.len()
        invariant
            i <= candidates@.len(),
            forall|k: int| 0 <= k < candidates@.len() ==> distance_defined(input@, #[trigger] candidates@[k]@),
            out@.len() == out_d@.len(),
            out@.len() == out_c@.len(),
            forall|k: int| 0 <= k < out@.len() ==> #[trigger] out_d@[k] == distance(input@, out@[k]@),
            forall|k: int| 0 <= k < out@.len() ==> #[trigger] out_c@[k]@ == out@[k]@,
            string_views(out@).to_multiset() =~= within_distance(
                input@,
                string_views(candidates@.take(i as int)),
                max_distance as nat,
            ).to_multiset(),
            sorted_suggestions(input@, string_views(out@)),
        decreases candidates.len() - i,
    {
        let cand = &candidates[i];
        let d = levenshtein_distance(input, cand.as_str());
        let ghost prefix = string_views(candidates@.take(i as int));
        let ghost next = string_views(candidates@.take(i + 1));
        proof {
            assert(next.drop_last() =~= prefix);
            assert(next.last() == cand@);
            let w = within_distance(input@, prefix, max_distance as nat);
            if d <= max_distance {
                assert(within_distance(input@, next, max_distance as nat) == w.push(cand@));
                w.to_multiset_ensures();
            } else {
                assert(within_distance(input@, next, max_distance as nat) == w);
            }
        }
        if d <= max_distance {
            let cc = str_chars(cand.as_str());
            // find the first position whose entry sorts after the candidate
            let mut k: usize = 0;
            while k < out.len()
                invariant
                    k <= out@.len(),
                    out@.len() == out_d@.len(),
                    out@.len() == out_c@.len(),
                    forall|m: int| 0 <= m < out@.len() ==> #[trigger] out_d@[m] == distance(input@, out@[m]@),
                    forall|m: int| 0 <= m < out@.len() ==> #[trigger] out_c@[m]@ == out@[m]@,
                    forall|m: int| 0 <= m < k ==> suggestion_le(input@, #[trigger] out@[m]@, cc@),
                    d == distance(input@, cc@),
                ensures
                    k <= out@.len(),
                    forall|m: int| 0 <= m < k ==> suggestion_le(input@, #[trigger] out@[m]@, cc@),
                    k < out@.len() ==> !suggestion_le(input@, out@[k as int]@, cc@),
                decreases out.len() - k,
            {
                let dk = out_d[k];
                let le = dk < d || (dk == d && lex_le_exec(&out_c[k], &cc));
                if !le {
                    break;
                }
                k = k + 1;
            }
            let ghost old_views = string_views(out@);
            proof {
                // everything from position k onward sorts after the candidate
                assert forall|m: int| k <= m < out@.len() implies suggestion_le(
                    input@,
                    cc@,
                    #[trigger] old_views[m],
                ) by {
                    assert(old_views[k as int] == out@[k as int]@);
                    lemma_lex_total(old_views[k as int], cc@);
                    if m > k {
                        assert(suggestion_le(input@, old_views[k as int], old_views[m]));
                        if distance(input@, cc@) == distance(input@, old_views[m]) {
                            lemma_lex_trans(cc@, old_views[k as int], old_views[m]);
                        }
                    }
                }
            }
            out.insert(k, cand.clone());
            out_d.insert(k, d);
            out_c.insert(k, cc);
            proof {
                assert(string_views(out@) =~= old_views.insert(k as int, cand@));
                lemma_multiset_insert(old_views, k as int, cand@);
                assert forall|p: int, q: int| 0 <= p < q < string_views(out@).len() implies suggestion_le(
                    input@,
                    string_views(out@)[p],
                    string_views(out@)[q],
                ) by {
                    let sv = string_views(out@);
                    if q < k {
                    } else if q == k {
                        assert(sv[p] == old_views[p]);
                    } else if p < k {
                        assert(sv[q] == old_views[q - 1]);
                        assert(suggestion_le(input@, old_views[p], cc@));
                        assert(suggestion_le(input@, cc@, old_views[q - 1]));
                        if distance(input@, old_views[p]) == distance(input@, old_views[q - 1]) {
                            lemma_lex_trans(old_views[p], cc@, old_views[q - 1]);
                        }
                    } else if p == k {
                    } else {
                        assert(sv[p] == old_views[p - 1]);
                        assert(sv[q] == old_views[q - 1]);
                    }
                }
            }
        }
        i = i + 1;
    }
    proof {
        assert(candidates@.take(i as int) =~= candidates@);
    }
    out
}


// ---------------------------------------------------------------------------
// Sorting character buffers
// ---------------------------------------------------------------------------

/// The contents of a list of character buffers.
pub open spec fn char_views(v: Seq<Vec<char>>) -> Seq<Seq<char>> {
    Seq::new(v.len(), |i: int| v[i]@)
}

/// Whether `s` is in lexicographic order.
pub open spec fn lex_sorted(s: Seq<Seq<char>>) -> bool {
    forall|i: int, j: int| 0 <= i < j < s.len() ==> lex_le(s[i], s[j])
}

/// Inserts `x` into the sorted list `out`, keeping it sorted.
pub fn insert_lex_sorted(out: &mut Vec<Vec<char>>, x: Vec<char>)
    requires
        lex_sorted(char_views(old(out)@)),
    ensures
        lex_sorted(char_views(final(out)@)),
        char_views(final(out)@).to_multiset() =~= char_views(old(out)@).to_multiset().insert(x@),
{
    let mut k: usize = 0;
    while k < out.len()
        invariant
            k <= out@.len(),
            forall|m: int| 0 <= m < k ==> lex_le(#[trigger] out@[m]@, x@),
        ensures
            k <= out@.len(),
            forall|m: int| 0 <= m < k ==> lex_le(#[trigger] out@[m]@, x@),
            k < out@.len() ==> !lex_le(out@[k as int]@, x@),
        decreases out.len() - k,
    {
        if !lex_le_exec(&out[k], &x) {
            break;
        }
        k = k + 1;
    }
    let ghost old_views = char_views(out@);
    proof {
        assert forall|m: int| k <= m < old_views.len() implies lex_le(x@, #[trigger] old_views[m]) by {
            assert(old_views[k as int] == out@[k as int]@);
            lemma_lex_total(old_views[k as int], x@);
            if m > k {
                lemma_lex_trans(x@, old_views[k as int], old_views[m]);
            }
        }
    }
    let ghost xv = x@;
    out.insert(k, x);
    proof {
        assert(char_views(out@) =~= old_views.insert(k as int, xv));
        lemma_multiset_insert(old_views, k as int, xv);
        assert forall|p: int, q: int| 0 <= p < q < char_views(out@).len() implies lex_le(
            char_views(out@)[p],
            char_views(out@)[q],
        ) by {
            let sv = char_views(out@);
            if q < k {
            } else if q == k {
                assert(sv[p] == old_views[p]);
            } else if p < k {
                assert(sv[q] == old_views[q - 1]);
                lemma_lex_trans(old_views[p], xv, old_views[q - 1]);
            } else if p == k {
            } else {
                assert(sv[p] == old_views[p - 1]);
                assert(sv[q] == old_views[q - 1]);
            }
        }
    }
}

/// Whether `s` is in strictly increasing lexicographic order (sorted, no
/// entry twice).
pub open spec fn lex_strictly_sorted(s: Seq<Seq<char>>) -> bool {
    forall|i: int, j: int| 0 <= i < j < s.len() ==> lex_le(s[i], s[j]) && s[i] != s[j]
}

/// Inserting `x` at a position `k` between the elements below it and the
/// elements above it keeps a strictly sorted list strictly sorted.
proof fn lemma_insert_strictly_sorted(v: Seq<Seq<char>>, k: int, x: Seq<char>)
    requires
        0 <= k <= v.len(),
        lex_strictly_sorted(v),
        forall|m: int| 0 <= m < k ==> lex_le(#[trigger] v[m], x) && v[m] != x,
        forall|m: int| k <= m < v.len() ==> lex_le(x, #[trigger] v[m]) && v[m] != x,
    ensures
        lex_strictly_sorted(v.insert(k, x)),
{
    let nv = v.insert(k, x);
    assert forall|p: int, q: int| 0 <= p < q < nv.len() implies lex_le(nv[p], nv[q]) && nv[p]
        != nv[q] by {
        if q < k {
            assert(nv[p] == v[p]);
            assert(nv[q] == v[q]);
        } else if q == k {
            assert(nv[p] == v[p]);
        } else if p < k {
            assert(nv[p] == v[p]);
            assert(nv[q] == v[q - 1]);
            lemma_lex_trans(v[p], x, v[q - 1]);
            if v[p] == v[q - 1] {
                lemma_lex_antisym(v[p], x);
            }
        } else if p == k {
            assert(nv[q] == v[q - 1]);
        } else {
            assert(nv[p] == v[p - 1]);
            assert(nv[q] == v[q - 1]);
        }
    }
}

/// Inserts `x` into the strictly sorted list `out` unless it is there.
pub fn insert_lex_unique(out: &mut Vec<Vec<char>>, x: Vec<char>)
    requires
        lex_strictly_sorted(char_views(old(out)@)),
    ensures
        lex_strictly_sorted(char_views(final(out)@)),
        char_views(final(out)@).to_set() == char_views(old(out)@).to_set().insert(x@),
{
    let ghost old_views = char_views(out@);
    let mut k: usize = 0;
    while k < out.len()
        invariant
            k <= out@.len(),
            old_views == char_views(out@),
            forall|m: int| 0 <= m < k ==> lex_le(#[trigger] out@[m]@, x@) && out@[m]@ != x@,
        ensures
            k <= out@.len(),
            old_views == char_views(out@),
            forall|m: int| 0 <= m < k ==> lex_le(#[trigger] out@[m]@, x@) && out@[m]@ != x@,
            k < out@.len() ==> !lex_le(out@[k as int]@, x@) || out@[k as int]@ == x@,
        decreases out.len() - k,
    {
        if !lex_le_exec(&out[k], &x) || crate::text::chars_eq(&out[k], &x) {
            break;
        }
        k = k + 1;
    }
    if k < out.len() && crate::text::chars_eq(&out[k], &x) {
        proof {
            assert(old_views[k as int] == x@);
            assert(old_views.to_set().insert(x@) =~= old_views.to_set());
        }
        return;
    }
    proof {
        assert forall|m: int| 0 <= m < k implies lex_le(#[trigger] old_views[m], x@) && old_views[m]
            != x@ by {
            assert(old_views[m] == out@[m]@);
        }
        assert forall|m: int| k <= m < old_views.len() implies lex_le(x@, #[trigger] old_views[m])
            && old_views[m] != x@ by {
            assert(old_views[k as int] == out@[k as int]@);
            lemma_lex_total(old_views[k as int], x@);
            if m > k {
                lemma_lex_trans(x@, old_views[k as int], old_views[m]);
                if old_views[m] == x@ {
                    lemma_lex_antisym(old_views[k as int], x@);
                }
            }
        }
    }
    let ghost xv = x@;
    out.insert(k, x);
    proof {
        let nv = char_views(out@);
        assert(nv =~= old_views.insert(k as int, xv));
        lemma_insert_strictly_sorted(old_views, k as int, xv);
        assert forall|y: Seq<char>| nv.contains(y) <==> old_views.contains(y) || y == xv by {
            if old_views.contains(y) {
                let m = choose|m: int| 0 <= m < old_views.len() && old_views[m] == y;
                if m < k {
                    assert(nv[m] == y);
                } else {
                    assert(nv[m + 1] == y);
                }
            }
            if y == xv {
                assert(nv[k as int] == y);
            }
            if nv.contains(y) {
                let m = choose|m: int| 0 <= m < nv.len() && nv[m] == y;
                if m < k {
                    assert(old_views[m] == y);
                } else if m > k {
                    assert(old_views[m - 1] == y);
                }
            }
        }
        assert(nv.to_set() =~= old_views.to_set().insert(xv));
        assert(lex_strictly_sorted(nv));
    }
}
} // verus!
