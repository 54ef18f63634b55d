//! Assessment-relevance classification of text.
//!
//! A text is relevant when it contains one of a fixed multilingual set
//! of assessment-related keywords, matched case-insensitively and
//! anchored at word boundaries on both sides.

use vstd::prelude::*;

use crate::text::to_chars;

verus! {

/// Case folding used for matching: ASCII upper case letters and the
/// Latin-1 upper case letters (except the multiplication sign) map to
/// their lower case forms 32 code points higher; everything else is
/// left alone.
pub open spec fn fold_char(c: char) -> char {
    if ('A' <= c && c <= 'Z') || ('\u{c0}' <= c && c <= '\u{de}' && c != '\u{d7}') {
        ((c as int) + 32) as char
    } else {
        c
    }
}

/// The whole text, case folded.
pub open spec fn folded(t: Seq<char>) -> Seq<char> {
    t.map_values(|c: char| fold_char(c))
}

/// Word characters for boundary anchoring: ASCII alphanumerics, the
/// underscore, and the Latin-1 letters (the 0xC0..0xFF block except
/// the multiplication and division signs).
pub open spec fn is_word_char(c: char) -> bool {
    ('a' <= c && c <= 'z') || ('A' <= c && c <= 'Z') || ('0' <= c && c <= '9') || c == '_'
        || ('\u{c0}' <= c && c <= '\u{ff}' && c != '\u{d7}' && c != '\u{f7}')
}

/// `p` occurs in `t` starting at position `i`.
pub open spec fn occurs_at(t: Seq<char>, p: Seq<char>, i: int) -> bool {
    0 <= i && i + p.len() <= t.len() && forall|j: int| 0 <= j < p.len() ==> t[i + j] == p[j]
}

/// `p` occurs somewhere in `t`.
pub open spec fn occurs(t: Seq<char>, p: Seq<char>) -> bool {
    exists|i: int| occurs_at(t, p, i)
}

/// An occurrence at `i` of a pattern of length `len` is anchored at
/// word boundaries on both sides.
pub open spec fn word_bounded(t: Seq<char>, i: int, len: int) -> bool {
    (i == 0 || !is_word_char(t[i - 1])) && (i + len == t.len() || !is_word_char(t[i + len]))
}

/// Keyword `p` matches the folded text `f` at position `i`.
pub open spec fn keyword_at(f: Seq<char>, p: Seq<char>, i: int) -> bool {
    occurs_at(f, p, i) && word_bounded(f, i, p.len() as int)
}

/// The keyword set: assessment-related terms in English and Swedish,
/// all lower case, each matched as a whole word.
pub open spec fn keywords() -> Seq<Seq<char>> {
    seq![
        "exam"@,
        "examination"@,
        "assignment"@,
        "assigment"@,
        "assignement"@,
        "assigement"@,
        "lab"@,
        "exercise"@,
        "homework"@,
        "submission"@,
        "oral-exam"@,
        "quiz"@,
        "task"@,
        "seminar"@,
        "answer-key"@,
        "written-exam"@,
        "formula-sheet"@,
        "tenta"@,
        "omtenta"@,
        "\u{f6}vning"@,
        "ovning"@,
        "l\u{e4}xa"@,
        "laxa"@,
        "inl\u{e4}mning"@,
        "inlamning"@,
        "munta"@,
        "uppgift"@,
        "facit"@,
        "kontrollskrivning"@,
        "salskrivning"@,
        "salsskrivning"@,
        "formelsamling"@,
    ]
}

/// A text is relevant when some keyword matches its folded form at a
/// word boundary.
pub open spec fn relevant_spec(t: Seq<char>) -> bool {
    exists|k: int, i: int|
        0 <= k < keywords().len() && #[trigger] keyword_at(folded(t), keywords()[k], i)
}

/// Every keyword is a nonempty word, so no keyword can match inside
/// the empty text or beyond the end of a text.
pub proof fn lemma_keywords_nonempty()
    ensures
        forall|k: int| 0 <= k < keywords().len() ==> (#[trigger] keywords()[k]).len() > 0,
{
    reveal_strlit("exam");
    reveal_strlit("examination");
    reveal_strlit("assignment");
    reveal_strlit("assigment");
    reveal_strlit("assignement");
    reveal_strlit("assigement");
    reveal_strlit("lab");
    reveal_strlit("exercise");
    reveal_strlit("homework");
    reveal_strlit("submission");
    reveal_strlit("oral-exam");
    reveal_strlit("quiz");
    reveal_strlit("task");
    reveal_strlit("seminar");
    reveal_strlit("answer-key");
    reveal_strlit("written-exam");
    reveal_strlit("formula-sheet");
    reveal_strlit("tenta");
    reveal_strlit("omtenta");
    reveal_strlit("\u{f6}vning");
    reveal_strlit("ovning");
    reveal_strlit("l\u{e4}xa");
    reveal_strlit("laxa");
    reveal_strlit("inl\u{e4}mning");
    reveal_strlit("inlamning");
    reveal_strlit("munta");
    reveal_strlit("uppgift");
    reveal_strlit("facit");
    reveal_strlit("kontrollskrivning");
    reveal_strlit("salskrivning");
    reveal_strlit("salsskrivning");
    reveal_strlit("formelsamling");
}

fn fold_char_x(c: char) -> (r: char)
    ensures
        r == fold_char(c),
{
    if ('A' <= c && c <= 'Z') || ('\u{c0}' <= c && c <= '\u{de}' && c != '\u{d7}') {
        ((c as u8) + 32) as char
    } else {
        c
    }
}

fn is_word_char_x(c: char) -> (r: bool)
    ensures
        r == is_word_char(c),
{
    ('a' <= c && c <= 'z') || ('A' <= c && c <= 'Z') || ('0' <= c && c <= '9') || c == '_'
        || ('\u{c0}' <= c && c <= '\u{ff}' && c != '\u{d7}' && c != '\u{f7}')
}

fn fold_chars(t: &Vec<char>) -> (r: Vec<char>)
    ensures
        r@ == folded(t@),
{
    let mut r: Vec<char> = Vec::new();
    let mut i: usize = 0;
    while i < t.len()
        invariant
            i <= t@.len(),
            r@.len() == i,
            forall|j: int| 0 <= j < i ==> r@[j] == fold_char(t@[j]),
        decreases t@.len() - i,
    {
        r.push(fold_char_x(t[i]));
        i = i + 1;
    }
    proof {
        assert(r@ =~= folded(t@));
    }
    r
}

/// The keyword set as runtime values, in the order of `keywords`.
fn keyword_vecs() -> (r: Vec<Vec<char>>)
    ensures
        r@.len() == keywords().len(),
        forall|k: int| 0 <= k < r@.len() ==> #[trigger] r@[k]@ == keywords()[k],
{
    let words: [&str; 32] = [
        "exam",
        "examination",
        "assignment",
        "assigment",
        "assignement",
        "assigement",
        "lab",
        "exercise",
        "homework",
        "submission",
        "oral-exam",
        "quiz",
        "task",
        "seminar",
        "answer-key",
        "written-exam",
        "formula-sheet",
        "tenta",
        "omtenta",
        "\u{f6}vning",
        "ovning",
        "l\u{e4}xa",
        "laxa",
        "inl\u{e4}mning",
        "inlamning",
        "munta",
        "uppgift",
        "facit",
        "kontrollskrivning",
        "salskrivning",
        "salsskrivning",
        "formelsamling",
    ];
    let mut r: Vec<Vec<char>> = Vec::new();
    let mut k: usize = 0;
    while k < 32
        invariant
            k <= 32,
            r@.len() == k,
            forall|j: int| 0 <= j < 32 ==> words@[j]@ == keywords()[j],
            forall|j: int| 0 <= j < k ==> #[trigger] r@[j]@ == keywords()[j],
        decreases 32 - k,
    {
        r.push(to_chars(words[k]));
        k = k + 1;
    }
    r
}

/// Does keyword `kw` match the folded text `f` at position `i`?
fn keyword_at_x(f: &Vec<char>, kw: &Vec<char>, i: usize) -> (b: bool)
    requires
        i <= f@.len(),
    ensures
        b == keyword_at(f@, kw@, i as int),
{
    if kw.len() > f.len() - i {
        return false;
    }
    let mut j: usize = 0;
    while j < kw.len()
        invariant
            j <= kw@.len(),
            i + kw@.len() <= f@.len(),
            forall|m: int| 0 <= m < j ==> f@[i + m] == kw@[m],
        decreases kw@.len() - j,
    {
        if f[i + j] != kw[j] {
            return false;
        }
        j = j + 1;
    }
    if i > 0 && is_word_char_x(f[i - 1]) {
        return false;
    }
    if i + kw.len() < f.len() && is_word_char_x(f[i + kw.len()]) {
        return false;
    }
    true
}

/// Decide whether a text belongs to the retained assessment-related
/// corpus: some keyword of the fixed set matches it, case-insensitively
/// and word-boundary-anchored.
pub fn is_relevant(doc: &str) -> (r: bool)
    ensures
        r == relevant_spec(doc@),
{
    let chars = to_chars(doc);
    let f = fold_chars(&chars);
    let kws = keyword_vecs();
    let n = f.len();
    let mut i: usize = 0;
    while i < n
        invariant
            i <= n,
            n == f@.len(),
            f@ == folded(doc@),
            kws@.len() == keywords().len(),
            forall|k: int| 0 <= k < kws@.len() ==> #[trigger] kws@[k]@ == keywords()[k],
            forall|k: int, i2: int|
                0 <= k < keywords().len() && 0 <= i2 < i ==> !keyword_at(f@, keywords()[k], i2),
        decreases n - i,
    {
        let mut k: usize = 0;
        while k < kws.len()
            invariant
                i < n,
                k <= kws@.len(),
                forall|k2: int|
                    0 <= k2 < k ==> !keyword_at(f@, keywords()[k2], i as int),
            decreases kws@.len() - k,
        {
            if keyword_at_x(&f, &kws[k], i) {
                proof {
                    assert(keyword_at(folded(doc@), keywords()[k as int], i as int));
                }
                return true;
            }
            k = k + 1;
        }
        i = i + 1;
    }
    proof {
        lemma_keywords_nonempty();
        assert forall|k: int, i2: int|
            0 <= k < keywords().len() implies !keyword_at(folded(doc@), keywords()[k], i2) by {
            if 0 <= i2 < n {
                assert(!keyword_at(f@, keywords()[k], i2));
            } else {
                assert(keywords()[k].len() > 0);
            }
        }
    }
    false
}

} // verus!
