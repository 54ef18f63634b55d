//! Lexicographic ordering of occasion-group identifiers.
//!
//! Occasion groups are emitted in a deterministic order: their keys
//! sorted lexicographically by code point, by insertion sort, whose
//! result is pinned exactly by a specification-level sort.

use vstd::prelude::*;

use crate::text::to_chars;

verus! {

/// Lexicographic order on character sequences, by code point.
pub open spec fn lex_le(a: Seq<char>, b: Seq<char>) -> bool
    decreases a.len(),
{
    if a.len() == 0 {
        true
    } else if b.len() == 0 {
        false
    } else if a[0] != b[0] {
        (a[0] as int) < (b[0] as int)
    } else {
        lex_le(a.skip(1), b.skip(1))
    }
}

/// `x` inserted before the first element it precedes.
pub open spec fn insert_sorted(x: Seq<char>, s: Seq<Seq<char>>) -> Seq<Seq<char>>
    decreases s.len(),
{
    if s.len() == 0 {
        seq![x]
    } else if lex_le(x, s[0]) {
        seq![x] + s
    } else {
        seq![s[0]] + insert_sorted(x, s.skip(1))
    }
}

/// Insertion sort of key sequences.
pub open spec fn sort_keys(s: Seq<Seq<char>>) -> Seq<Seq<char>>
    decreases s.len(),
{
    if s.len() == 0 {
        s
    } else {
        insert_sorted(s[0], sort_keys(s.skip(1)))
    }
}

/// Membership is preserved by insertion.
pub proof fn lemma_insert_membership(x: Seq<char>, s: Seq<Seq<char>>, y: Seq<char>)
    ensures
        insert_sorted(x, s).contains(y) <==> (y == x || s.contains(y)),
    decreases s.len(),
{
    if s.len() > 0 && !lex_le(x, s[0]) {
        lemma_insert_membership(x, s.skip(1), y);
        let r = seq![s[0]] + insert_sorted(x, s.skip(1));
        assert(insert_sorted(x, s) == r);
        if r.contains(y) {
            let i = choose|i: int| 0 <= i < r.len() && r[i] == y;
            if i == 0 {
                assert(s.contains(y)) by {
                    assert(s[0] == y);
                }
            } else {
                assert(insert_sorted(x, s.skip(1)).contains(y)) by {
                    assert(insert_sorted(x, s.skip(1))[i - 1] == y);
                }
                if s.skip(1).contains(y) {
                    let j = choose|j: int| 0 <= j < s.skip(1).len() && s.skip(1)[j] == y;
                    assert(s[j + 1] == y);
                }
            }
        }
        if y == x || s.contains(y) {
            if y == x {
                assert(insert_sorted(x, s.skip(1)).contains(y));
                let j = choose|j: int|
                    0 <= j < insert_sorted(x, s.skip(1)).len() && insert_sorted(x, s.skip(1))[j]
                        == y;
                assert(r[j + 1] == y);
            } else {
                let i = choose|i: int| 0 <= i < s.len() && s[i] == y;
                if i == 0 {
                    assert(r[0] == y);
                } else {
                    assert(s.skip(1)[i - 1] == y);
                    assert(s.skip(1).contains(y));
                    assert(insert_sorted(x, s.skip(1)).contains(y));
                    let j = choose|j: int|
                        0 <= j < insert_sorted(x, s.skip(1)).len() && insert_sorted(x, s.skip(1))[j]
                            == y;
                    assert(r[j + 1] == y);
                }
            }
        }
    } else {
        let r = insert_sorted(x, s);
        if s.len() == 0 {
            assert(r =~= seq![x]);
            if r.contains(y) {
                assert(r[choose|i: int| 0 <= i < r.len() && r[i] == y] == y);
            }
            if y == x {
                assert(r[0] == y);
            }
        } else {
            assert(r == seq![x] + s);
            if r.contains(y) {
                let i = choose|i: int| 0 <= i < r.len() && r[i] == y;
                if i > 0 {
                    assert(s[i - 1] == y);
                }
            }
            if y == x {
                assert(r[0] == y);
            }
            if s.contains(y) {
                let i = choose|i: int| 0 <= i < s.len() && s[i] == y;
                assert(r[i + 1] == y);
            }
        }
    }
}

/// Membership is preserved by sorting.
pub proof fn lemma_sort_membership(s: Seq<Seq<char>>, y: Seq<char>)
    ensures
        sort_keys(s).contains(y) <==> s.contains(y),
    decreases s.len(),
{
    if s.len() > 0 {
        lemma_sort_membership(s.skip(1), y);
        lemma_insert_membership(s[0], sort_keys(s.skip(1)), y);
        if y == s[0] {
            assert(s.contains(y)) by {
                assert(s[0] == y);
            }
        }
        if s.skip(1).contains(y) {
            let i = choose|i: int| 0 <= i < s.skip(1).len() && s.skip(1)[i] == y;
            assert(s[i + 1] == y);
        }
        if s.contains(y) && y != s[0] {
            let i = choose|i: int| 0 <= i < s.len() && s[i] == y;
            assert(s.skip(1)[i - 1] == y);
        }
    }
}

/// Pairwise distinctness of a key sequence.
pub open spec fn distinct_keys(s: Seq<Seq<char>>) -> bool {
    forall|i: int, j: int| 0 <= i < j < s.len() ==> s[i] != s[j]
}

/// Sorting keeps distinct keys distinct.
pub proof fn lemma_sort_distinct(s: Seq<Seq<char>>)
    requires
        distinct_keys(s),
    ensures
        distinct_keys(sort_keys(s)),
    decreases s.len(),
{
    if s.len() > 0 {
        assert(distinct_keys(s.skip(1))) by {
            assert forall|i: int, j: int|
                0 <= i < j < s.skip(1).len() implies s.skip(1)[i] != s.skip(1)[j] by {
                assert(s.skip(1)[i] == s[i + 1]);
                assert(s.skip(1)[j] == s[j + 1]);
            }
        }
        lemma_sort_distinct(s.skip(1));
        assert(!s.skip(1).contains(s[0])) by {
            if s.skip(1).contains(s[0]) {
                let i = choose|i: int| 0 <= i < s.skip(1).len() && s.skip(1)[i] == s[0];
                assert(s[i + 1] == s[0]);
            }
        }
        lemma_sort_membership(s.skip(1), s[0]);
        lemma_insert_distinct(s[0], sort_keys(s.skip(1)));
    }
}

/// Inserting a fresh key keeps a distinct sequence distinct.
proof fn lemma_insert_distinct(x: Seq<char>, s: Seq<Seq<char>>)
    requires
        distinct_keys(s),
        !s.contains(x),
    ensures
        distinct_keys(insert_sorted(x, s)),
    decreases s.len(),
{
    let r = insert_sorted(x, s);
    if s.len() == 0 {
        assert forall|i: int, j: int| 0 <= i < j < r.len() implies r[i] != r[j] by {
        }
    } else if lex_le(x, s[0]) {
        assert(r == seq![x] + s);
        assert forall|i: int, j: int| 0 <= i < j < r.len() implies r[i] != r[j] by {
            if i == 0 {
                assert(r[j] == s[j - 1]);
                assert(s.contains(s[j - 1]));
            } else {
                assert(r[i] == s[i - 1]);
                assert(r[j] == s[j - 1]);
            }
        }
    } else {
        assert(!s.skip(1).contains(x)) by {
            if s.skip(1).contains(x) {
                let i = choose|i: int| 0 <= i < s.skip(1).len() && s.skip(1)[i] == x;
                assert(s[i + 1] == x);
                assert(s.contains(x));
            }
        }
        assert(distinct_keys(s.skip(1))) by {
            assert forall|i: int, j: int|
                0 <= i < j < s.skip(1).len() implies s.skip(1)[i] != s.skip(1)[j] by {
                assert(s.skip(1)[i] == s[i + 1]);
                assert(s.skip(1)[j] == s[j + 1]);
            }
        }
        lemma_insert_distinct(x, s.skip(1));
        let t = insert_sorted(x, s.skip(1));
        assert(r == seq![s[0]] + t);
        assert forall|i: int, j: int| 0 <= i < j < r.len() implies r[i] != r[j] by {
            if i == 0 {
                assert(r[j] == t[j - 1]);
                assert(t.contains(t[j - 1]));
                lemma_insert_membership(x, s.skip(1), t[j - 1]);
                if t[j - 1] == x {
                } else {
                    assert(s.skip(1).contains(t[j - 1]));
                    let m = choose|m: int| 0 <= m < s.skip(1).len() && s.skip(1)[m] == t[j - 1];
                    assert(s[m + 1] == t[j - 1]);
                }
            } else {
                assert(r[i] == t[i - 1]);
                assert(r[j] == t[j - 1]);
            }
        }
    }
}

/// The order is total.
pub proof fn lemma_lex_total(a: Seq<char>, b: Seq<char>)
    ensures
        lex_le(a, b) || lex_le(b, a),
    decreases a.len(),
{
    if a.len() > 0 && b.len() > 0 && a[0] == b[0] {
        lemma_lex_total(a.skip(1), b.skip(1));
    }
}

/// The order is transitive.
pub proof fn lemma_lex_trans(a: Seq<char>, b: Seq<char>, c: Seq<char>)
    requires
        lex_le(a, b),
        lex_le(b, c),
    ensures
        lex_le(a, c),
    decreases a.len(),
{
    if a.len() > 0 {
        assert(b.len() > 0);
        assert(c.len() > 0);
        if a[0] == b[0] && b[0] == c[0] {
            lemma_lex_trans(a.skip(1), b.skip(1), c.skip(1));
        }
    }
}

/// A key sequence in ascending lexicographic order.
pub open spec fn sorted_lex(s: Seq<Seq<char>>) -> bool {
    forall|i: int, j: int| 0 <= i < j < s.len() ==> lex_le(s[i], s[j])
}

proof fn lemma_insert_keeps_sorted(x: Seq<char>, s: Seq<Seq<char>>)
    requires
        sorted_lex(s),
    ensures
        sorted_lex(insert_sorted(x, s)),
    decreases s.len(),
{
    let r = insert_sorted(x, s);
    if s.len() == 0 {
        assert forall|i: int, j: int| 0 <= i < j < r.len() implies lex_le(r[i], r[j]) by {
        }
    } else if lex_le(x, s[0]) {
        assert(r == seq![x] + s);
        assert forall|i: int, j: int| 0 <= i < j < r.len() implies lex_le(r[i], r[j]) by {
            if i == 0 {
                assert(r[j] == s[j - 1]);
                if j == 1 {
                } else {
                    lemma_lex_trans(x, s[0], s[j - 1]);
                }
            } else {
                assert(r[i] == s[i - 1]);
                assert(r[j] == s[j - 1]);
            }
        }
    } else {
        assert(sorted_lex(s.skip(1))) by {
            assert forall|i: int, j: int|
                0 <= i < j < s.skip(1).len() implies lex_le(s.skip(1)[i], s.skip(1)[j]) by {
                assert(s.skip(1)[i] == s[i + 1]);
                assert(s.skip(1)[j] == s[j + 1]);
            }
        }
        lemma_insert_keeps_sorted(x, s.skip(1));
        let t = insert_sorted(x, s.skip(1));
        assert(r == seq![s[0]] + t);
        lemma_lex_total(x, s[0]);
        assert(lex_le(s[0], x));
        assert forall|i: int, j: int| 0 <= i < j < r.len() implies lex_le(r[i], r[j]) by {
            if i == 0 {
                assert(r[j] == t[j - 1]);
                assert(t.contains(t[j - 1]));
                lemma_insert_membership(x, s.skip(1), t[j - 1]);
                if t[j - 1] == x {
                } else {
                    assert(s.skip(1).contains(t[j - 1]));
                    let m = choose|m: int| 0 <= m < s.skip(1).len() && s.skip(1)[m] == t[j - 1];
                    assert(s.skip(1)[m] == s[m + 1]);
                    assert(lex_le(s[0], s[m + 1]));
                }
            } else {
                assert(r[i] == t[i - 1]);
                assert(r[j] == t[j - 1]);
            }
        }
    }
}

/// Law of deterministic group order: the occasion keys are emitted in
/// ascending lexicographic order.
pub proof fn lemma_sort_sorted(s: Seq<Seq<char>>)
    ensures
        sorted_lex(sort_keys(s)),
    decreases s.len(),
{
    if s.len() > 0 {
        lemma_sort_sorted(s.skip(1));
        lemma_insert_keeps_sorted(s[0], sort_keys(s.skip(1)));
    }
}

/// Compare two keys lexicographically.
pub fn lex_le_x(a: &String, b: &String) -> (r: bool)
    ensures
        r == lex_le(a@, b@),
{
    let av = to_chars(a.as_str());
    let bv = to_chars(b.as_str());
    let mut i: usize = 0;
    proof {
        assert(av@.skip(0) =~= a@);
        assert(bv@.skip(0) =~= b@);
    }
    while i < av.len() && i < bv.len()
        invariant
            i <= av@.len(),
            i <= bv@.len(),
            forall|j: int| 0 <= j < i ==> av@[j] == bv@[j],
            lex_le(a@, b@) == lex_le(av@.skip(i as int), bv@.skip(i as int)),
        decreases av@.len() - i,
    {
        let x = av[i];
        let y = bv[i];
        proof {
            assert(av@.skip(i as int)[0] == av@[i as int]);
            assert(bv@.skip(i as int)[0] == bv@[i as int]);
            assert(av@.skip(i as int).skip(1) =~= av@.skip(i + 1));
            assert(bv@.skip(i as int).skip(1) =~= bv@.skip(i + 1));
        }
        if x != y {
            return x < y;
        }
        i = i + 1;
    }
    proof {
        if i >= av.len() {
            assert(av@.skip(i as int).len() == 0);
        } else {
            assert(bv@.skip(i as int).len() == 0);
            assert(av@.skip(i as int).len() > 0);
        }
    }
    av.len() <= bv.len()
}

/// Sort keys lexicographically by insertion.
pub fn sort_keys_x(keys: Vec<String>) -> (r: Vec<String>)
    ensures
        r@.map_values(|s: String| s@) == sort_keys(keys@.map_values(|s: String| s@)),
    decreases keys@.len(),
{
    let ghost kv = keys@.map_values(|s: String| s@);
    if keys.len() == 0 {
        proof {
            assert(kv.len() == 0);
            assert(keys@.map_values(|s: String| s@) =~= sort_keys(kv));
        }
        return keys;
    }
    let mut keys = keys;
    let head = keys.remove(0);
    proof {
        assert(keys@.map_values(|s: String| s@) =~= kv.skip(1));
    }
    let sorted_rest = sort_keys_x(keys);
    let mut out = sorted_rest;
    let ghost outv = out@.map_values(|s: String| s@);
    let mut i: usize = 0;
    while i < out.len() && !lex_le_x(&head, &out[i])
        invariant
            i <= out@.len(),
            out@.map_values(|s: String| s@) == outv,
            forall|j: int| 0 <= j < i ==> !lex_le(head@, outv[j]),
        decreases out@.len() - i,
    {
        i = i + 1;
    }
    out.insert(i, head);
    proof {
        lemma_insert_at(head@, outv, i as int);
        assert(out@.map_values(|s: String| s@) =~= outv.take(i as int) + seq![head@] + outv.skip(
            i as int,
        ));
        assert(sort_keys(kv) == insert_sorted(head@, outv));
    }
    out
}

/// Inserting after the first `i` kept elements equals the insertion
/// sort's placement, when none of those precede the new key and the
/// `i`th, if any, does.
proof fn lemma_insert_at(x: Seq<char>, s: Seq<Seq<char>>, i: int)
    requires
        0 <= i <= s.len(),
        forall|j: int| 0 <= j < i ==> !lex_le(x, s[j]),
        i < s.len() ==> lex_le(x, s[i]),
    ensures
        insert_sorted(x, s) == s.take(i) + seq![x] + s.skip(i),
    decreases s.len(),
{
    if s.len() == 0 {
        assert(insert_sorted(x, s) =~= s.take(0) + seq![x] + s.skip(0));
    } else if i == 0 {
        assert(lex_le(x, s[0]));
        assert(insert_sorted(x, s) =~= s.take(0) + seq![x] + s.skip(0));
    } else {
        assert(!lex_le(x, s[0]));
        assert forall|j: int| 0 <= j < i - 1 implies !lex_le(x, s.skip(1)[j]) by {
            assert(s.skip(1)[j] == s[j + 1]);
        }
        if i - 1 < s.skip(1).len() {
            assert(s.skip(1)[i - 1] == s[i]);
        }
        lemma_insert_at(x, s.skip(1), i - 1);
        assert(insert_sorted(x, s) == seq![s[0]] + insert_sorted(x, s.skip(1)));
        assert(seq![s[0]] + (s.skip(1).take(i - 1) + seq![x] + s.skip(1).skip(i - 1)) =~= s.take(i)
            + seq![x] + s.skip(i));
    }
}

} // verus!
