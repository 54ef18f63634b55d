//! Conversions between `String` and `Vec<char>`, and small text helpers.
//!
//! The algorithms of this crate work on `Vec<char>`, whose view is the
//! same `Seq<char>` as a string's view, so indexing is cheap to reason
//! about and cheap to run.

use vstd::prelude::*;

verus! {

/// Collect the characters of a string slice into a vector.
pub fn to_chars(s: &str) -> (r: Vec<char>)
    ensures
        r@ == s@,
{
    let n = s.unicode_len();
    let mut r: Vec<char> = Vec::new();
    let mut i: usize = 0;
    while i < n
        invariant
            i <= n,
            n == s@.len(),
            r@ == s@.take(i as int),
        decreases n - i,
    {
        r.push(s.get_char(i));
        proof {
            assert(r@ =~= s@.take(i + 1));
        }
        i = i + 1;
    }
    proof {
        assert(r@ =~= s@);
    }
    r
}

/// Relies on `String: FromIterator<char>`: collecting characters
/// builds the string of exactly those characters in order.
#[verifier::external_body]
pub fn chars_to_string(v: &Vec<char>) -> (r: String)
    ensures
        r@ == v@,
{
    v.iter().collect()
}

/// Equality of two character vectors.
pub fn chars_eq(a: &Vec<char>, b: &Vec<char>) -> (r: bool)
    ensures
        r == (a@ == b@),
{
    if a.len() != b.len() {
        proof {
            assert(a@.len() != b@.len());
        }
        return false;
    }
    let n = a.len();
    let mut i: usize = 0;
    while i < n
        invariant
            i <= n,
            n == a@.len() == b@.len(),
            forall|j: int| 0 <= j < i ==> a@[j] == b@[j],
        decreases n - i,
    {
        if a[i] != b[i] {
            return false;
        }
        i = i + 1;
    }
    proof {
        assert(a@ =~= b@);
    }
    true
}

/// Equality of two byte slices.
pub fn bytes_eq(a: &[u8], b: &[u8]) -> (r: bool)
    ensures
        r == (a@ == b@),
{
    if a.len() != b.len() {
        proof {
            assert(a@.len() != b@.len());
        }
        return false;
    }
    let n = a.len();
    let mut i: usize = 0;
    while i < n
        invariant
            i <= n,
            n == a@.len() == b@.len(),
            forall|j: int| 0 <= j < i ==> a@[j] == b@[j],
        decreases n - i,
    {
        if a[i] != b[i] {
            return false;
        }
        i = i + 1;
    }
    proof {
        assert(a@ =~= b@);
    }
    true
}

/// Copy out the characters of `v` between `from` and `to`.
pub fn sub_chars(v: &Vec<char>, from: usize, to: usize) -> (r: Vec<char>)
    requires
        from <= to <= v@.len(),
    ensures
        r@ == v@.subrange(from as int, to as int),
{
    let mut r: Vec<char> = Vec::new();
    let mut i: usize = from;
    while i < to
        invariant
            from <= i <= to <= v@.len(),
            r@ == v@.subrange(from as int, i as int),
        decreases to - i,
    {
        r.push(v[i]);
        proof {
            assert(r@ =~= v@.subrange(from as int, i + 1));
        }
        i = i + 1;
    }
    r
}

/// Does `c` occur in `s`?
pub open spec fn has_char(s: Seq<char>, c: char) -> bool {
    exists|i: int| 0 <= i < s.len() && s[i] == c
}

/// The index of the last occurrence of `c` in `s`, or `-1`.
pub open spec fn last_index_of_char(s: Seq<char>, c: char) -> int
    decreases s.len(),
{
    if s.len() == 0 {
        -1
    } else if s[s.len() - 1] == c {
        s.len() - 1
    } else {
        last_index_of_char(s.drop_last(), c)
    }
}

pub proof fn lemma_last_index_at(s: Seq<char>, c: char, i: int)
    requires
        0 <= i < s.len(),
        s[i] == c,
        forall|j: int| i < j < s.len() ==> s[j] != c,
    ensures
        last_index_of_char(s, c) == i,
    decreases s.len(),
{
    if i < s.len() - 1 {
        lemma_last_index_at(s.drop_last(), c, i);
    }
}

pub proof fn lemma_last_index_none(s: Seq<char>, c: char)
    requires
        forall|j: int| 0 <= j < s.len() ==> s[j] != c,
    ensures
        last_index_of_char(s, c) == -1,
    decreases s.len(),
{
    if s.len() > 0 {
        lemma_last_index_none(s.drop_last(), c);
    }
}

/// After the last occurrence of `c` there is no further `c`, and the
/// last occurrence, if any, holds `c`.
pub proof fn lemma_last_index_props(s: Seq<char>, c: char)
    ensures
        last_index_of_char(s, c) == -1 ==> !has_char(s, c),
        last_index_of_char(s, c) != -1 ==> 0 <= last_index_of_char(s, c) < s.len() && s[
            last_index_of_char(s, c)
        ] == c,
        forall|j: int| last_index_of_char(s, c) < j < s.len() ==> s[j] != c,
    decreases s.len(),
{
    if s.len() > 0 && s[s.len() - 1] != c {
        lemma_last_index_props(s.drop_last(), c);
        if last_index_of_char(s, c) == -1 {
            assert forall|i: int| 0 <= i < s.len() implies s[i] != c by {
                if i < s.len() - 1 {
                    assert(s.drop_last()[i] != c);
                }
            }
        }
        assert forall|j: int| last_index_of_char(s, c) < j < s.len() implies s[j] != c by {
            if j < s.len() - 1 {
                assert(s.drop_last()[j] != c);
            }
        }
    }
}

/// Find the last occurrence of `c` in `v`.
pub fn last_index_of(v: &Vec<char>, c: char) -> (r: Option<usize>)
    ensures
        match r {
            Some(i) => 0 <= i < v@.len() && last_index_of_char(v@, c) == i,
            None => last_index_of_char(v@, c) == -1,
        },
{
    let mut i: usize = v.len();
    while i > 0
        invariant
            i <= v@.len(),
            forall|j: int| i <= j < v@.len() ==> v@[j] != c,
        decreases i,
    {
        i = i - 1;
        if v[i] == c {
            proof {
                lemma_last_index_at(v@, c, i as int);
            }
            return Some(i);
        }
    }
    proof {
        lemma_last_index_none(v@, c);
    }
    None
}

/// Does `c` occur in `v`?
pub fn contains_char(v: &Vec<char>, c: char) -> (r: bool)
    ensures
        r == has_char(v@, c),
{
    let mut i: usize = 0;
    while i < v.len()
        invariant
            i <= v@.len(),
            forall|j: int| 0 <= j < i ==> v@[j] != c,
        decreases v@.len() - i,
    {
        if v[i] == c {
            return true;
        }
        i = i + 1;
    }
    false
}

/// The decimal digits of `n`, most significant first.
pub open spec fn dec_digits(n: nat) -> Seq<char>
    decreases n,
{
    if n < 10 {
        seq![digit_char(n)]
    } else {
        dec_digits(n / 10) + seq![digit_char(n % 10)]
    }
}

/// The character for one decimal digit value.
pub open spec fn digit_char(d: nat) -> char {
    ((d + 48) as u8) as char
}

/// Render a number in decimal, for report attributes.
pub fn dec_string(n: usize) -> (r: String)
    ensures
        r@ == dec_digits(n as nat),
{
    let mut digits: Vec<char> = Vec::new();
    let mut m: usize = n;
    while m >= 10
        invariant
            dec_digits(n as nat) == dec_digits(m as nat) + digits@,
        decreases m,
    {
        let d: usize = m % 10;
        proof {
            assert(dec_digits(m as nat) == dec_digits((m / 10) as nat) + seq![digit_char((m % 10) as nat)]);
        }
        digits.insert(0, ((d as u8) + 48) as char);
        m = m / 10;
    }
    let d0: usize = m;
    digits.insert(0, ((d0 as u8) + 48) as char);
    proof {
        assert(dec_digits(n as nat) =~= digits@);
    }
    chars_to_string(&digits)
}

} // verus!
