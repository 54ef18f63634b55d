//! Resolution of recorded attachment references.
//!
//! A recorded reference may be malformed or inconsistently encoded, so
//! resolution tries an ordered list of candidate paths until one names
//! an existing file. The order is a compatibility contract: the
//! literal path first, then cheap textual corrections, then the
//! encoding-correcting heuristics. The caller checks existence on
//! disk and reports it back as one flag per candidate.

use vstd::prelude::*;
use vstd::utf8::encode_utf8;

use crate::percent::{percent_decode, percent_decode_spec, percent_encode, percent_encode_spec};
use crate::rewrite::{replace_all, replace_all_spec};
use crate::text::{chars_to_string, last_index_of, last_index_of_char, sub_chars, to_chars};
use crate::LibError;

verus! {

/// The category of a recorded link; only file links are resolved.
#[derive(Debug, Clone, Copy, PartialEq, Eq, Structural)]
pub enum Category {
    File,
    External,
    InCourse,
}

/// One recorded link of a page.
#[derive(Debug, Clone)]
pub struct Link {
    /// The reference string exactly as recorded.
    pub url: String,
    /// The validated category.
    pub category: Category,
}

/// A candidate path, relative to the course base directory: either
/// text, or raw bytes where percent-decoding left no valid text.
#[derive(Debug, Clone)]
pub enum Candidate {
    Text(String),
    Bytes(Vec<u8>),
}

/// The mathematical value of a candidate path.
pub enum CandV {
    Text(Seq<char>),
    Bytes(Seq<u8>),
}

impl View for Candidate {
    type V = CandV;

    open spec fn view(&self) -> CandV {
        match self {
            Candidate::Text(s) => CandV::Text(s@),
            Candidate::Bytes(b) => CandV::Bytes(b@),
        }
    }
}

/// A successfully resolved attachment: the candidate that named an
/// existing file, and the reference string it came from.
#[derive(Debug, Clone)]
pub struct FileNode {
    pub path: Candidate,
    pub srcname: String,
}

/// The part of `s` after its last `/`, or all of `s`.
pub open spec fn filename_spec(s: Seq<char>) -> Seq<char> {
    if last_index_of_char(s, '/') == -1 {
        s
    } else {
        s.skip(last_index_of_char(s, '/') + 1)
    }
}

/// The reference with only its filename part percent-re-encoded.
pub open spec fn reencoded_name_spec(s: Seq<char>) -> Seq<char> {
    if last_index_of_char(s, '/') == -1 {
        percent_encode_spec(encode_utf8(s))
    } else {
        s.take(last_index_of_char(s, '/') + 1) + percent_encode_spec(
            encode_utf8(s.skip(last_index_of_char(s, '/') + 1)),
        )
    }
}

/// The ordered candidate paths for a recorded reference: the literal
/// path; `+` replaced by the space it stands for, so a file recorded
/// with `+` but stored with a literal space is found; the literal
/// sequence `%2B` replaced by `%20`; the whole path percent-decoded to
/// raw bytes; the filename part percent-re-encoded.
pub open spec fn candidates_spec(url: Seq<char>) -> Seq<CandV> {
    seq![
        CandV::Text(url),
        CandV::Text(replace_all_spec(url, seq!['+'], seq![' '])),
        CandV::Text(replace_all_spec(url, seq!['%', '2', 'B'], seq!['%', '2', '0'])),
        CandV::Bytes(percent_decode_spec(encode_utf8(url))),
        CandV::Text(reencoded_name_spec(url)),
    ]
}

/// The index of the first `true`, if any.
pub open spec fn first_true(s: Seq<bool>) -> Option<int>
    decreases s.len(),
{
    if s.len() == 0 {
        None
    } else if s[0] {
        Some(0)
    } else {
        match first_true(s.skip(1)) {
            Some(i) => Some(i + 1),
            None => None,
        }
    }
}

proof fn lemma_first_true_at(s: Seq<bool>, i: int)
    requires
        0 <= i < s.len(),
        s[i],
        forall|j: int| 0 <= j < i ==> !s[j],
    ensures
        first_true(s) == Some(i),
    decreases i,
{
    if i > 0 {
        lemma_first_true_at(s.skip(1), i - 1);
    }
}

proof fn lemma_first_true_none(s: Seq<bool>)
    requires
        forall|j: int| 0 <= j < s.len() ==> !s[j],
    ensures
        first_true(s) is None,
    decreases s.len(),
{
    if s.len() > 0 {
        lemma_first_true_none(s.skip(1));
    }
}

/// Resolution as a function of the reference and of which candidate
/// paths exist on disk.
pub open spec fn resolve_spec(url: Seq<char>, on_disk: Set<CandV>) -> Option<CandV> {
    let cands = candidates_spec(url);
    match first_true(Seq::new(cands.len(), |i: int| on_disk.contains(cands[i]))) {
        Some(i) => Some(cands[i]),
        None => None,
    }
}

/// Existence flags that model the disk faithfully make `get_file`
/// return exactly what `resolve_spec` names.
pub proof fn lemma_exists_flags_model(url: Seq<char>, exists: Seq<bool>, on_disk: Set<CandV>)
    requires
        exists.len() == candidates_spec(url).len(),
        forall|i: int|
            0 <= i < exists.len() ==> exists[i] == on_disk.contains(
                #[trigger] candidates_spec(url)[i],
            ),
    ensures
        resolve_spec(url, on_disk) == match first_true(exists) {
            Some(i) => Some(candidates_spec(url)[i]),
            None => None,
        },
{
    let cands = candidates_spec(url);
    assert(Seq::new(cands.len(), |i: int| on_disk.contains(cands[i])) =~= exists);
}

/// Law: resolution is deterministic. Identical (reference, existing
/// paths) pairs yield the same resolved path or the same not-found
/// outcome.
pub proof fn lemma_resolution_deterministic(
    u1: Seq<char>,
    d1: Set<CandV>,
    u2: Seq<char>,
    d2: Set<CandV>,
)
    requires
        u1 == u2,
        d1 == d2,
    ensures
        resolve_spec(u1, d1) == resolve_spec(u2, d2),
{
}

impl Link {
    /// Validate a recorded category tag. An absent tag is a file link;
    /// anything but the three known tags is a malformed manifest.
    pub fn parse_category(tag: &Option<String>) -> (r: Result<Category, LibError>)
        ensures
            match tag {
                Option::None => r == Ok::<Category, LibError>(Category::File),
                Option::Some(s) => {
                    if s@ == "file"@ {
                        r == Ok::<Category, LibError>(Category::File)
                    } else if s@ == "ext"@ {
                        r == Ok::<Category, LibError>(Category::External)
                    } else if s@ == "incourse"@ {
                        r == Ok::<Category, LibError>(Category::InCourse)
                    } else {
                        r == Err::<Category, LibError>(LibError::UnknownCategory)
                    }
                },
            },
    {
        match tag {
            Option::None => Ok(Category::File),
            Option::Some(s) => {
                let sc = to_chars(s.as_str());
                if crate::text::chars_eq(&sc, &to_chars("file")) {
                    Ok(Category::File)
                } else if crate::text::chars_eq(&sc, &to_chars("ext")) {
                    Ok(Category::External)
                } else if crate::text::chars_eq(&sc, &to_chars("incourse")) {
                    Ok(Category::InCourse)
                } else {
                    Err(LibError::UnknownCategory)
                }
            },
        }
    }

    /// Only links of the file category are resolved on disk.
    pub fn is_file(&self) -> (r: bool)
        ensures
            r == (self.category == Category::File),
    {
        match self.category {
            Category::File => true,
            _ => false,
        }
    }

    /// The recorded name of the file: the part of the reference after
    /// its last `/`.
    pub fn filename(&self) -> (r: String)
        ensures
            r@ == filename_spec(self.url@),
    {
        let chars = to_chars(self.url.as_str());
        let n = chars.len();
        match last_index_of(&chars, '/') {
            Some(i) => {
                let name = sub_chars(&chars, i + 1, n);
                proof {
                    assert(name@ =~= self.url@.skip(last_index_of_char(self.url@, '/') + 1));
                }
                chars_to_string(&name)
            },
            None => {
                proof {
                    assert(chars@ =~= filename_spec(self.url@));
                }
                chars_to_string(&chars)
            },
        }
    }

    /// The ordered candidate paths for this reference, relative to the
    /// course base directory.
    pub fn candidates(&self) -> (r: Vec<Candidate>)
        ensures
            r@.len() == candidates_spec(self.url@).len(),
            forall|i: int| 0 <= i < r@.len() ==> #[trigger] r@[i]@ == candidates_spec(self.url@)[i],
    {
        let url_chars = to_chars(self.url.as_str());
        let plus: Vec<char> = vec!['+'];
        let space: Vec<char> = vec![' '];
        let pct20: Vec<char> = vec!['%', '2', '0'];
        let pct2b: Vec<char> = vec!['%', '2', 'B'];
        proof {
            assert(plus@ =~= seq!['+']);
            assert(space@ =~= seq![' ']);
            assert(pct20@ =~= seq!['%', '2', '0']);
            assert(pct2b@ =~= seq!['%', '2', 'B']);
        }

        let c1 = Candidate::Text(self.url.clone());
        let c2 = Candidate::Text(chars_to_string(&replace_all(&url_chars, &plus, &space)));
        let c3 = Candidate::Text(chars_to_string(&replace_all(&url_chars, &pct2b, &pct20)));
        let url_bytes = self.url.as_str().as_bytes();
        let c4 = Candidate::Bytes(percent_decode(url_bytes));
        let n = url_chars.len();
        let c5 = match last_index_of(&url_chars, '/') {
            Some(i) => {
                let name = sub_chars(&url_chars, i + 1, n);
                proof {
                    assert(name@ =~= self.url@.skip(last_index_of_char(self.url@, '/') + 1));
                }
                let name_str = chars_to_string(&name);
                let encoded = percent_encode(name_str.as_str().as_bytes());
                let dir = sub_chars(&url_chars, 0, i + 1);
                proof {
                    assert(dir@ =~= self.url@.take(last_index_of_char(self.url@, '/') + 1));
                }
                let joined = chars_to_string(&dir).concat(encoded.as_str());
                Candidate::Text(joined)
            },
            None => Candidate::Text(percent_encode(self.url.as_str().as_bytes())),
        };
        let r: Vec<Candidate> = vec![c1, c2, c3, c4, c5];
        proof {
            assert(r@[0]@ == candidates_spec(self.url@)[0]);
            assert(r@[1]@ == candidates_spec(self.url@)[1]);
            assert(r@[2]@ == candidates_spec(self.url@)[2]);
            assert(r@[3]@ == candidates_spec(self.url@)[3]);
            assert(r@[4]@ == candidates_spec(self.url@)[4]);
        }
        r
    }

    /// Resolve this reference given, for each candidate in order,
    /// whether it names an existing file. The first existing candidate
    /// wins; if none exists the attachment is not found.
    pub fn get_file(&self, exists: &Vec<bool>) -> (r: Result<FileNode, LibError>)
        requires
            exists@.len() == candidates_spec(self.url@).len(),
        ensures
            match first_true(exists@) {
                Some(i) => r matches Ok(f) && f.path@ == candidates_spec(self.url@)[i]
                    && f.srcname@ == self.url@,
                None => r == Err::<FileNode, LibError>(LibError::AttachmentNotFound),
            },
    {
        let mut cands = self.candidates();
        let mut i: usize = 0;
        while i < cands.len()
            invariant
                cands@.len() == candidates_spec(self.url@).len() == exists@.len(),
                i <= cands@.len(),
                forall|k: int|
                    0 <= k < cands@.len() ==> #[trigger] cands@[k]@ == candidates_spec(
                        self.url@,
                    )[k],
                forall|j: int| 0 <= j < i ==> !exists@[j],
            decreases cands@.len() - i,
        {
            if exists[i] {
                proof {
                    lemma_first_true_at(exists@, i as int);
                }
                let path = cands.remove(i);
                return Ok(FileNode { path, srcname: self.url.clone() });
            }
            i = i + 1;
        }
        proof {
            lemma_first_true_none(exists@);
        }
        Err(LibError::AttachmentNotFound)
    }
}

} // verus!
