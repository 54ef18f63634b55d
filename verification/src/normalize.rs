//! Normalization of attachment filenames.
//!
//! A recorded reference becomes a stable, filesystem-safe destination
//! name: the upload-path prefix is stripped; a percent-encoded name is
//! decoded to bytes and read as UTF-8, falling back to the legacy
//! Latin-1 decoding with replacement; the stem is slugified and the
//! extension is reattached verbatim when it is filesystem-safe, and
//! slugified like the stem when it is not, so a destination name never
//! holds a path separator, a percent sign, or a non-ASCII character.

use encoding::Encoding;
use vstd::prelude::*;
use vstd::utf8::{decode_utf8, encode_utf8, valid_utf8};

use crate::keywords::occurs_at;
use crate::percent::{percent_decode, percent_decode_spec};
use crate::resolver::{Candidate, FileNode};
use crate::text::{
    chars_to_string, contains_char, has_char, last_index_of, last_index_of_char, sub_chars,
    to_chars,
};
use crate::LibError;

verus! {

/// What `slug::slugify` returns for a given string; a fixed function
/// of the characters alone.
pub uninterp spec fn slug_of(s: Seq<char>) -> Seq<char>;

/// The shape of every slug: lower case ASCII letters, digits and `-`,
/// with no `-` at either end and no two `-` in a row.
pub open spec fn slug_shaped(s: Seq<char>) -> bool {
    &&& forall|i: int|
        0 <= i < s.len() ==> (('a' <= #[trigger] s[i] && s[i] <= 'z') || ('0' <= s[i] && s[i]
            <= '9') || s[i] == '-')
    &&& s.len() > 0 ==> s[0] != '-' && s[s.len() - 1] != '-'
    &&& forall|i: int| 0 <= i < s.len() - 1 ==> !(s[i] == '-' && #[trigger] s[i + 1] == '-')
}

/// What the slugifier guarantees of one call on `s`: the result is
/// slug shaped, and an input that already has that shape comes back
/// unchanged.
pub open spec fn slug_contract(s: Seq<char>) -> bool {
    slug_shaped(slug_of(s)) && (slug_shaped(s) ==> slug_of(s) == s)
}

/// Relies on `slug::slugify`: the result consists of `a-z`, `0-9` and
/// `-`, never doubled nor at either end, and depends on the characters
/// alone; an input already of that shape is returned unchanged.
#[verifier::external_body]
pub fn slugify_str(s: &String) -> (r: String)
    ensures
        r@ == slug_of(s@),
        slug_shaped(r@),
        slug_shaped(s@) ==> r@ == s@,
{
    slug::slugify(s.as_str())
}

/// Relies on `String::from_utf8`: returns the bytes as text exactly
/// when they are valid UTF-8, and the error carries the bytes back
/// unchanged.
#[verifier::external_body]
pub fn utf8_to_string(b: Vec<u8>) -> (r: Result<String, Vec<u8>>)
    ensures
        match r {
            Ok(s) => valid_utf8(b@) && s@ == decode_utf8(b@),
            Err(v) => !valid_utf8(b@) && v@ == b@,
        },
{
    match String::from_utf8(b) {
        Ok(s) => Ok(s),
        Err(e) => Err(e.into_bytes()),
    }
}

/// The Latin-1 reading of a byte string: byte value as code point.
pub open spec fn iso_decode_spec(b: Seq<u8>) -> Seq<char> {
    Seq::new(b.len(), |i: int| b[i] as char)
}

/// Relies on the `encoding` crate's ISO 8859-1 decoder: each byte maps
/// to the character of the same code point; with replacement trapping
/// the decoder never fails, so the unwrap cannot panic.
#[verifier::external_body]
pub fn iso_8859_1_to_string(b: &[u8]) -> (r: String)
    ensures
        r@ == iso_decode_spec(b@),
{
    encoding::all::ISO_8859_1.decode(b, encoding::DecoderTrap::Replace).unwrap()
}

/// The prefix under which uploads were recorded.
pub open spec fn uploads_prefix() -> Seq<char> {
    "01-files/"@
}

/// `s` with every repetition of the upload-path prefix stripped from
/// its front.
pub open spec fn strip_uploads_prefix(s: Seq<char>) -> Seq<char>
    decreases s.len(),
{
    if occurs_at(s, uploads_prefix(), 0) && uploads_prefix().len() > 0 {
        strip_uploads_prefix(s.skip(uploads_prefix().len() as int))
    } else {
        s
    }
}

/// The name a reference decodes to: prefix stripped, then, if a `%`
/// remains, percent-decoded and read as UTF-8 or as Latin-1.
pub open spec fn decoded_of(url: Seq<char>) -> Seq<char> {
    let t = strip_uploads_prefix(url);
    if has_char(t, '%') {
        let b = percent_decode_spec(encode_utf8(t));
        if valid_utf8(b) {
            decode_utf8(b)
        } else {
            iso_decode_spec(b)
        }
    } else {
        t
    }
}

/// The stem that is slugified: the decoded name up to its last `.`,
/// or all of it.
pub open spec fn norm_stem(url: Seq<char>) -> Seq<char> {
    let d = decoded_of(url);
    let dot = last_index_of_char(d, '.');
    if dot == -1 {
        d
    } else {
        d.take(dot)
    }
}

/// The extension that is kept verbatim: what follows the last `.` of
/// the decoded name, or nothing.
pub open spec fn norm_ext(url: Seq<char>) -> Seq<char> {
    let d = decoded_of(url);
    let dot = last_index_of_char(d, '.');
    if dot == -1 {
        Seq::empty()
    } else {
        d.skip(dot + 1)
    }
}

/// The extension as it is reattached: verbatim when filesystem-safe,
/// else slugified like the stem, so the destination name is always
/// safe.
pub open spec fn norm_ext_out(url: Seq<char>) -> Seq<char> {
    let e = norm_ext(url);
    if safe_ext(e) {
        e
    } else {
        slug_of(e)
    }
}

/// The destination name of a reference: the slugified stem and, when
/// there is an extension, a `.` and the reattached extension.
pub open spec fn destname_spec(url: Seq<char>) -> Seq<char> {
    let d = decoded_of(url);
    if last_index_of_char(d, '.') == -1 {
        slug_of(d)
    } else {
        slug_of(norm_stem(url)) + seq!['.'] + norm_ext_out(url)
    }
}

/// Characters an extension may hold for the destination name to be
/// filesystem-safe: ASCII, and neither `/` nor `%` nor a further `.`.
pub open spec fn safe_ext(e: Seq<char>) -> bool {
    forall|i: int|
        0 <= i < e.len() ==> (#[trigger] e[i] as int) < 128 && e[i] != '/' && e[i] != '%' && e[i]
            != '.'
}

/// A destination name is safe: ASCII only, and free of path
/// separators and percent signs.
pub open spec fn safe_name(s: Seq<char>) -> bool {
    forall|i: int| 0 <= i < s.len() ==> (#[trigger] s[i] as int) < 128 && s[i] != '/' && s[i] != '%'
}

/// Is every character of this extension filesystem-safe?
fn safe_ext_x(v: &Vec<char>) -> (b: bool)
    ensures
        b == safe_ext(v@),
{
    let mut i: usize = 0;
    while i < v.len()
        invariant
            i <= v@.len(),
            forall|j: int|
                0 <= j < i ==> (#[trigger] v@[j] as int) < 128 && v@[j] != '/' && v@[j] != '%'
                    && v@[j] != '.',
        decreases v@.len() - i,
    {
        let c = v[i];
        if c > '\u{7f}' || c == '/' || c == '%' || c == '.' {
            return false;
        }
        i = i + 1;
    }
    true
}

/// Strip every repetition of the upload-path prefix.
fn strip_prefix_x(v: Vec<char>) -> (r: Vec<char>)
    ensures
        r@ == strip_uploads_prefix(v@),
{
    let pfx = to_chars("01-files/");
    proof {
        reveal_strlit("01-files/");
        assert(pfx@ =~= uploads_prefix());
    }
    let ghost v0 = v@;
    let mut v = v;
    while crate::rewrite::occurs_at_x(&v, &pfx, 0)
        invariant
            pfx@ == uploads_prefix(),
            strip_uploads_prefix(v@) == strip_uploads_prefix(v0),
        decreases v@.len(),
    {
        proof {
            assert(uploads_prefix().len() == 9);
        }
        let w = sub_chars(&v, 9, v.len());
        proof {
            assert(w@ =~= v@.skip(uploads_prefix().len() as int));
        }
        v = w;
    }
    v
}

impl FileNode {
    /// The destination filename for this attachment, derived
    /// deterministically from its recorded reference; it is always
    /// filesystem-safe.
    pub fn destname(&self) -> (r: String)
        ensures
            r@ == destname_spec(self.srcname@),
            safe_name(r@),
    {
        let chars = to_chars(self.srcname.as_str());
        let trimmed = strip_prefix_x(chars);
        let d: Vec<char> = if contains_char(&trimmed, '%') {
            let t_str = chars_to_string(&trimmed);
            let decoded = percent_decode(t_str.as_str().as_bytes());
            match utf8_to_string(decoded) {
                Ok(s) => to_chars(s.as_str()),
                Err(raw) => to_chars(iso_8859_1_to_string(raw.as_slice()).as_str()),
            }
        } else {
            trimmed
        };
        let ghost url = self.srcname@;
        proof {
            assert(d@ == decoded_of(url));
        }
        let n = d.len();
        match last_index_of(&d, '.') {
            Some(dot) => {
                let stem = sub_chars(&d, 0, dot);
                let ext = sub_chars(&d, dot + 1, n);
                proof {
                    assert(stem@ =~= norm_stem(url));
                    assert(ext@ =~= norm_ext(url));
                }
                let slugged = slugify_str(&chars_to_string(&stem));
                let ext_out: Vec<char> = if safe_ext_x(&ext) {
                    ext
                } else {
                    to_chars(slugify_str(&chars_to_string(&ext)).as_str())
                };
                proof {
                    assert(ext_out@ == norm_ext_out(url));
                    assert(safe_ext(ext_out@)) by {
                        if !safe_ext(norm_ext(url)) {
                            assert(slug_shaped(ext_out@));
                            assert forall|i2: int|
                                0 <= i2 < ext_out@.len() implies (#[trigger] ext_out@[i2] as int)
                                < 128 && ext_out@[i2] != '/' && ext_out@[i2] != '%' && ext_out@[i2]
                                != '.' by {
                                assert(('a' <= ext_out@[i2] && ext_out@[i2] <= 'z') || ('0'
                                    <= ext_out@[i2] && ext_out@[i2] <= '9') || ext_out@[i2] == '-');
                            }
                        }
                    }
                }
                let mut out = to_chars(slugged.as_str());
                out.push('.');
                let mut i: usize = 0;
                let ghost base = out@;
                while i < ext_out.len()
                    invariant
                        i <= ext_out@.len(),
                        out@ == base + ext_out@.take(i as int),
                    decreases ext_out@.len() - i,
                {
                    out.push(ext_out[i]);
                    proof {
                        assert(out@ =~= base + ext_out@.take(i + 1));
                    }
                    i = i + 1;
                }
                proof {
                    assert(out@ =~= slug_of(norm_stem(url)) + seq!['.'] + norm_ext_out(url));
                    assert forall|i2: int|
                        0 <= i2 < out@.len() implies (#[trigger] out@[i2] as int) < 128 && out@[i2]
                        != '/' && out@[i2] != '%' by {
                        let g = slug_of(norm_stem(url));
                        if i2 < g.len() {
                            assert(out@[i2] == g[i2]);
                        } else if i2 == g.len() {
                            assert(out@[i2] == '.');
                        } else {
                            assert(out@[i2] == norm_ext_out(url)[i2 - g.len() - 1]);
                        }
                    }
                }
                chars_to_string(&out)
            },
            None => {
                let slugged = slugify_str(&chars_to_string(&d));
                proof {
                    assert(slugged@ == destname_spec(url));
                    assert(safe_name(slugged@));
                }
                slugged
            },
        }
    }
}

/// A path candidate as report text: the text form itself, or the raw
/// bytes read as UTF-8. The report format requires representable path
/// text, so bytes that are not valid UTF-8 are an error.
pub fn ps(path: &Candidate) -> (r: Result<String, LibError>)
    ensures
        match path@ {
            crate::resolver::CandV::Text(s) => r matches Ok(t) && t@ == s,
            crate::resolver::CandV::Bytes(b) => {
                if valid_utf8(b) {
                    r matches Ok(t) && t@ == decode_utf8(b)
                } else {
                    r == Err::<String, LibError>(LibError::NonRepresentablePath)
                }
            },
        },
{
    match path {
        Candidate::Text(s) => Ok(s.clone()),
        Candidate::Bytes(b) => {
            match utf8_to_string(b.clone()) {
                Ok(s) => Ok(s),
                Err(_) => Err(LibError::NonRepresentablePath),
            }
        },
    }
}

/// Law: normalization is idempotent. Re-normalizing a destination name
/// yields it unchanged. The hypotheses are the slugifier's contract at
/// the values re-normalization reaches; its trusted wrapper states
/// that they hold on every call.
pub proof fn lemma_normalize_idempotent(url: Seq<char>)
    requires
        slug_contract(norm_stem(url)),
        slug_contract(slug_of(norm_stem(url))),
        slug_contract(norm_ext(url)),
    ensures
        destname_spec(destname_spec(url)) == destname_spec(url),
{
    reveal_strlit("01-files/");
    let d = decoded_of(url);
    let dot = last_index_of_char(d, '.');
    crate::text::lemma_last_index_props(d, '.');
    let out = destname_spec(url);
    if dot == -1 {
        let g = slug_of(d);
        assert(out == g);
        assert(slug_shaped(g));
        lemma_renormalize_fixed(g);
        assert(destname_spec(out) == slug_of(g));
    } else {
        let g = slug_of(norm_stem(url));
        let e = norm_ext_out(url);
        assert(out == g + seq!['.'] + e);
        assert(slug_shaped(g));
        // whichever branch produced it, the reattached extension is
        // safe: verbatim it satisfies `safe_ext`, slugified it is slug
        // shaped
        assert(safe_ext(e)) by {
            if !safe_ext(norm_ext(url)) {
                assert(slug_shaped(e));
                assert forall|i: int|
                    0 <= i < e.len() implies (#[trigger] e[i] as int) < 128 && e[i] != '/' && e[i]
                    != '%' && e[i] != '.' by {
                    assert(('a' <= e[i] && e[i] <= 'z') || ('0' <= e[i] && e[i] <= '9') || e[i]
                        == '-');
                }
            }
        }
        // no slash and no percent anywhere in `out`
        assert forall|i: int| 0 <= i < out.len() implies out[i] != '/' && out[i] != '%' by {
            if i < g.len() {
                assert(out[i] == g[i]);
            } else if i == g.len() {
                assert(out[i] == '.');
            } else {
                assert(out[i] == e[i - g.len() - 1]);
            }
        }
        lemma_strip_noop(out);
        assert(!has_char(out, '%'));
        assert(decoded_of(out) == out);
        // the last dot of `out` is the connector
        assert(out[g.len() as int] == '.');
        assert forall|j: int| g.len() < j < out.len() implies out[j] != '.' by {
            if j > g.len() {
                assert(out[j] == e[j - g.len() - 1]);
            }
        }
        assert forall|j: int| 0 <= j < g.len() implies out[j] != '.' by {
            assert(out[j] == g[j]);
        }
        crate::text::lemma_last_index_at(out, '.', g.len() as int);
        assert(norm_stem(out) =~= g);
        assert(norm_ext(out) =~= e);
        assert(norm_ext_out(out) == e);
        assert(slug_of(g) == g);
        assert(destname_spec(out) == slug_of(g) + seq!['.'] + e);
    }
}

/// For a slug-shaped name, re-normalization reaches the slugifier with
/// the name itself.
proof fn lemma_renormalize_fixed(g: Seq<char>)
    requires
        slug_shaped(g),
    ensures
        decoded_of(g) == g,
        last_index_of_char(g, '.') == -1,
        destname_spec(g) == slug_of(g),
{
    reveal_strlit("01-files/");
    assert forall|i: int| 0 <= i < g.len() implies g[i] != '/' && g[i] != '%' && g[i] != '.' by {
        assert(('a' <= g[i] && g[i] <= 'z') || ('0' <= g[i] && g[i] <= '9') || g[i] == '-');
    }
    lemma_strip_noop(g);
    assert(!has_char(g, '%'));
    crate::text::lemma_last_index_none(g, '.');
}

/// Stripping the upload-path prefix from a name without `/` does
/// nothing.
proof fn lemma_strip_noop(s: Seq<char>)
    requires
        forall|i: int| 0 <= i < s.len() ==> s[i] != '/',
    ensures
        strip_uploads_prefix(s) == s,
{
    reveal_strlit("01-files/");
    assert(uploads_prefix().len() == 9);
    assert(uploads_prefix()[8] == '/');
    if occurs_at(s, uploads_prefix(), 0) {
        assert(s[8] == uploads_prefix()[8]);
        assert(false);
    }
}

} // verus!
