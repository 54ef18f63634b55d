//! Rewriting of in-document references.
//!
//! `replace_all` substitutes every occurrence of a pattern, scanning
//! left to right. The lemmas at the end state when the rewrite is
//! complete: the pattern is gone from the result and the replacement
//! is present.

use vstd::prelude::*;

use crate::keywords::{occurs, occurs_at};

verus! {

/// `t` begins with `p`.
pub open spec fn is_prefix(p: Seq<char>, t: Seq<char>) -> bool {
    occurs_at(t, p, 0)
}

/// `t` with every occurrence of `pat` replaced by `rep`, scanning left
/// to right; an empty pattern replaces nothing.
pub open spec fn replace_all_spec(t: Seq<char>, pat: Seq<char>, rep: Seq<char>) -> Seq<char>
    decreases t.len(),
{
    if pat.len() == 0 || t.len() == 0 {
        t
    } else if is_prefix(pat, t) {
        rep + replace_all_spec(t.skip(pat.len() as int), pat, rep)
    } else {
        seq![t[0]] + replace_all_spec(t.skip(1), pat, rep)
    }
}

/// Does `p` occur in `t` at position `i`?
pub fn occurs_at_x(t: &Vec<char>, p: &Vec<char>, i: usize) -> (b: bool)
    requires
        i <= t@.len(),
    ensures
        b == occurs_at(t@, p@, i as int),
{
    if p.len() > t.len() - i {
        return false;
    }
    let mut j: usize = 0;
    while j < p.len()
        invariant
            j <= p@.len(),
            i + p@.len() <= t@.len(),
            forall|m: int| 0 <= m < j ==> t@[i + m] == p@[m],
        decreases p@.len() - j,
    {
        if t[i + j] != p[j] {
            return false;
        }
        j = j + 1;
    }
    true
}

/// Replace every occurrence of `pat` in `t` by `rep`, left to right.
pub fn replace_all(t: &Vec<char>, pat: &Vec<char>, rep: &Vec<char>) -> (r: Vec<char>)
    ensures
        r@ == replace_all_spec(t@, pat@, rep@),
{
    if pat.len() == 0 {
        return t.clone();
    }
    let mut out: Vec<char> = Vec::new();
    let mut i: usize = 0;
    proof {
        assert(t@.skip(0) =~= t@);
        assert(Seq::<char>::empty() + replace_all_spec(t@, pat@, rep@) =~= replace_all_spec(
            t@,
            pat@,
            rep@,
        ));
    }
    while i < t.len()
        invariant
            i <= t@.len(),
            pat@.len() > 0,
            replace_all_spec(t@, pat@, rep@) == out@ + replace_all_spec(
                t@.skip(i as int),
                pat@,
                rep@,
            ),
        decreases t@.len() - i,
    {
        let ghost rest = t@.skip(i as int);
        if occurs_at_x(t, pat, i) {
            proof {
                assert forall|m: int| 0 <= m < pat@.len() implies rest[m] == pat@[m] by {
                    assert(t@[i + m] == pat@[m]);
                }
                assert(is_prefix(pat@, rest));
                assert(replace_all_spec(rest, pat@, rep@) == rep@ + replace_all_spec(
                    rest.skip(pat@.len() as int),
                    pat@,
                    rep@,
                ));
                assert(rest.skip(pat@.len() as int) =~= t@.skip(i + pat@.len()));
            }
            let mut j: usize = 0;
            let ghost out0 = out@;
            while j < rep.len()
                invariant
                    j <= rep@.len(),
                    out@ == out0 + rep@.take(j as int),
                decreases rep@.len() - j,
            {
                out.push(rep[j]);
                proof {
                    assert(out@ =~= out0 + rep@.take(j + 1));
                }
                j = j + 1;
            }
            proof {
                assert(out@ =~= out0 + rep@);
            }
            i = i + pat.len();
        } else {
            proof {
                assert(!is_prefix(pat@, rest)) by {
                    if is_prefix(pat@, rest) {
                        assert forall|m: int| 0 <= m < pat@.len() implies t@[i + m] == pat@[m] by {
                            assert(rest[m] == pat@[m]);
                        }
                        assert(occurs_at(t@, pat@, i as int));
                    }
                }
                assert(rest.len() > 0);
                assert(replace_all_spec(rest, pat@, rep@) == seq![rest[0]] + replace_all_spec(
                    rest.skip(1),
                    pat@,
                    rep@,
                ));
                assert(rest.skip(1) =~= t@.skip(i + 1));
                assert(rest[0] == t@[i as int]);
            }
            out.push(t[i]);
            i = i + 1;
        }
        proof {
            assert(replace_all_spec(t@, pat@, rep@) =~= out@ + replace_all_spec(
                t@.skip(i as int),
                pat@,
                rep@,
            ));
        }
    }
    proof {
        assert(t@.skip(i as int) =~= Seq::<char>::empty());
        assert(replace_all_spec(Seq::<char>::empty(), pat@, rep@) =~= Seq::<char>::empty());
        assert(out@ + Seq::<char>::empty() =~= out@);
    }
    out
}

/// `a` and `b` agree on their first `n` positions.
pub open spec fn agree(a: Seq<char>, b: Seq<char>, n: int) -> bool {
    forall|m: int| 0 <= m < n ==> a[m] == b[m]
}

/// The replacement can never recombine with its surroundings into a
/// new occurrence of the pattern: the pattern does not occur in the
/// replacement, no tail of the replacement starts the pattern, and no
/// tail of the pattern starts the replacement.
pub open spec fn no_reintroduction(pat: Seq<char>, rep: Seq<char>) -> bool {
    &&& forall|i: int| !occurs_at(rep, pat, i)
    &&& forall|j: int|
        0 <= j < rep.len() && rep.len() - j < pat.len() ==> !agree(
            #[trigger] rep.skip(j),
            pat,
            rep.len() - j,
        )
    &&& forall|k: int|
        1 <= k < pat.len() ==> !agree(
            #[trigger] pat.skip(k),
            rep,
            if pat.len() - k < rep.len() {
                pat.len() - k
            } else {
                rep.len() as int
            },
        )
}

proof fn lemma_prefix_transfer(t: Seq<char>, pat: Seq<char>, rep: Seq<char>, k: int)
    requires
        pat.len() > 0,
        no_reintroduction(pat, rep),
        0 <= k < pat.len(),
        is_prefix(pat.skip(k), replace_all_spec(t, pat, rep)),
    ensures
        is_prefix(pat.skip(k), t),
    decreases t.len(),
{
    let r = replace_all_spec(t, pat, rep);
    let sk = pat.skip(k);
    assert(sk.len() == pat.len() - k);
    if t.len() == 0 {
        assert(r.len() == 0);
        assert(false);
    } else if is_prefix(pat, t) {
        let rr = replace_all_spec(t.skip(pat.len() as int), pat, rep);
        assert(r == rep + rr);
        let n = if sk.len() < rep.len() {
            sk.len() as int
        } else {
            rep.len() as int
        };
        assert forall|m: int| 0 <= m < n implies sk[m] == rep[m] by {
            assert(sk[m] == r[m]);
        }
        if k >= 1 {
            assert(agree(pat.skip(k), rep, n));
            assert(false);
        } else {
            assert(sk =~= pat);
            assert(is_prefix(sk, t));
        }
    } else {
        assert(r == seq![t[0]] + replace_all_spec(t.skip(1), pat, rep));
        assert(sk[0] == r[0]);
        assert(r[0] == t[0]);
        if k + 1 == pat.len() {
            assert forall|m: int| 0 <= m < sk.len() implies t[m] == sk[m] by {
                assert(m == 0);
                assert(sk[0] == t[0]);
            }
            assert(is_prefix(sk, t));
        } else {
            let sk1 = pat.skip(k + 1);
            let rr = replace_all_spec(t.skip(1), pat, rep);
            assert forall|m: int| 0 <= m < sk1.len() implies rr[m] == sk1[m] by {
                assert(sk1[m] == sk[m + 1]);
                assert(sk[m + 1] == r[m + 1]);
                assert(r[m + 1] == rr[m]);
            }
            assert(is_prefix(sk1, rr));
            lemma_prefix_transfer(t.skip(1), pat, rep, k + 1);
            assert forall|m: int| 0 <= m < sk.len() implies t[m] == sk[m] by {
                if m == 0 {
                    assert(sk[0] == t[0]);
                } else {
                    assert(t.skip(1)[m - 1] == sk1[m - 1]);
                    assert(sk1[m - 1] == sk[m]);
                    assert(t.skip(1)[m - 1] == t[m]);
                }
            }
            assert(is_prefix(sk, t));
        }
    }
}

proof fn lemma_replace_all_removes(t: Seq<char>, pat: Seq<char>, rep: Seq<char>)
    requires
        pat.len() > 0,
        no_reintroduction(pat, rep),
    ensures
        forall|i: int| !occurs_at(replace_all_spec(t, pat, rep), pat, i),
    decreases t.len(),
{
    let r = replace_all_spec(t, pat, rep);
    if t.len() == 0 {
        assert(r.len() == 0);
    } else if is_prefix(pat, t) {
        let rr = replace_all_spec(t.skip(pat.len() as int), pat, rep);
        assert(r == rep + rr);
        lemma_replace_all_removes(t.skip(pat.len() as int), pat, rep);
        assert forall|i: int| !occurs_at(r, pat, i) by {
            if occurs_at(r, pat, i) {
                if i + pat.len() <= rep.len() {
                    assert forall|m: int| 0 <= m < pat.len() implies rep[i + m] == pat[m] by {
                        assert(r[i + m] == pat[m]);
                    }
                    assert(occurs_at(rep, pat, i));
                    assert(false);
                } else if i < rep.len() {
                    assert forall|m: int| 0 <= m < rep.len() - i implies rep.skip(i)[m]
                        == pat[m] by {
                        assert(rep.skip(i)[m] == rep[i + m]);
                        assert(rep[i + m] == r[i + m]);
                        assert(r[i + m] == pat[m]);
                    }
                    assert(agree(rep.skip(i), pat, rep.len() - i));
                    assert(false);
                } else {
                    assert forall|m: int| 0 <= m < pat.len() implies rr[i - rep.len() + m]
                        == pat[m] by {
                        assert(r[i + m] == pat[m]);
                    }
                    assert(occurs_at(rr, pat, i - rep.len()));
                    assert(false);
                }
            }
        }
    } else {
        let rr = replace_all_spec(t.skip(1), pat, rep);
        assert(r == seq![t[0]] + rr);
        lemma_replace_all_removes(t.skip(1), pat, rep);
        assert forall|i: int| !occurs_at(r, pat, i) by {
            if occurs_at(r, pat, i) {
                if i >= 1 {
                    assert forall|m: int| 0 <= m < pat.len() implies rr[i - 1 + m] == pat[m] by {
                        assert(r[i + m] == pat[m]);
                    }
                    assert(occurs_at(rr, pat, i - 1));
                    assert(false);
                } else {
                    assert(i == 0);
                    assert(pat[0] == r[0]);
                    assert(r[0] == t[0]);
                    if pat.len() == 1 {
                        assert forall|m: int| 0 <= m < pat.len() implies t[m] == pat[m] by {
                            assert(m == 0);
                        }
                        assert(is_prefix(pat, t));
                        assert(false);
                    } else {
                        assert forall|m: int| 0 <= m < pat.skip(1).len() implies rr[m]
                            == pat.skip(1)[m] by {
                            assert(pat.skip(1)[m] == pat[m + 1]);
                            assert(pat[m + 1] == r[m + 1]);
                            assert(r[m + 1] == rr[m]);
                        }
                        assert(is_prefix(pat.skip(1), rr));
                        lemma_prefix_transfer(t.skip(1), pat, rep, 1);
                        assert forall|m: int| 0 <= m < pat.len() implies t[m] == pat[m] by {
                            if m == 0 {
                            } else {
                                assert(t.skip(1)[m - 1] == pat.skip(1)[m - 1]);
                                assert(t.skip(1)[m - 1] == t[m]);
                                assert(pat.skip(1)[m - 1] == pat[m]);
                            }
                        }
                        assert(is_prefix(pat, t));
                        assert(false);
                    }
                }
            }
        }
    }
}

proof fn lemma_replace_all_inserts(t: Seq<char>, pat: Seq<char>, rep: Seq<char>)
    requires
        pat.len() > 0,
        occurs(t, pat),
    ensures
        occurs(replace_all_spec(t, pat, rep), rep),
    decreases t.len(),
{
    let r = replace_all_spec(t, pat, rep);
    let i = choose|i: int| occurs_at(t, pat, i);
    assert(t.len() > 0);
    if is_prefix(pat, t) {
        let rr = replace_all_spec(t.skip(pat.len() as int), pat, rep);
        assert(r == rep + rr);
        assert forall|m: int| 0 <= m < rep.len() implies r[m] == rep[m] by {
        }
        assert(occurs_at(r, rep, 0));
    } else {
        let rr = replace_all_spec(t.skip(1), pat, rep);
        assert(r == seq![t[0]] + rr);
        assert(i >= 1) by {
            if i == 0 {
                assert(is_prefix(pat, t));
            }
        }
        assert forall|m: int| 0 <= m < pat.len() implies t.skip(1)[i - 1 + m] == pat[m] by {
            assert(t.skip(1)[i - 1 + m] == t[i + m]);
        }
        assert(occurs_at(t.skip(1), pat, i - 1));
        lemma_replace_all_inserts(t.skip(1), pat, rep);
        let m = choose|m: int| occurs_at(rr, rep, m);
        assert forall|q: int| 0 <= q < rep.len() implies r[m + 1 + q] == rep[q] by {
            assert(rr[m + q] == rep[q]);
        }
        assert(occurs_at(r, rep, m + 1));
    }
}

/// Law of rewrite completeness: replacing a nonempty reference string
/// that occurs in the document by a destination name that cannot
/// recombine into it leaves no occurrence of the reference and at
/// least one occurrence of the destination name.
pub proof fn lemma_rewrite_complete(t: Seq<char>, pat: Seq<char>, rep: Seq<char>)
    requires
        pat.len() > 0,
        occurs(t, pat),
        no_reintroduction(pat, rep),
    ensures
        !occurs(replace_all_spec(t, pat, rep), pat),
        occurs(replace_all_spec(t, pat, rep), rep),
{
    lemma_replace_all_removes(t, pat, rep);
    lemma_replace_all_inserts(t, pat, rep);
}

} // verus!
