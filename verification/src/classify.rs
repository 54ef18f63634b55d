//! Relevance classification of attachments.
//!
//! Dispatch is by file extension: known binary formats are never
//! relevant and are not read; PDF-like formats go through an external
//! text extraction whose outcome is judged here; everything else is
//! read raw and decoded permissively. The caller performs the reading
//! and the extraction and hands the outcome in as plain values.

use vstd::prelude::*;
use vstd::string::StringSliceAdditionalSpecFns;
use vstd::utf8::{decode_utf8, valid_utf8};

use crate::keywords::{is_relevant, relevant_spec};
use crate::resolver::{filename_spec, Candidate, FileNode};
use crate::text::{
    bytes_eq, chars_eq, chars_to_string, last_index_of, last_index_of_char, sub_chars, to_chars,
};
use crate::LibError;

verus! {

/// How an attachment of a given extension is classified.
#[derive(Debug, Clone, Copy, PartialEq, Eq, Structural)]
pub enum AttachmentKind {
    /// A known non-text binary format: never relevant, never read.
    Binary,
    /// A format whose text must be extracted by the external tool.
    Extract,
    /// Anything else: read raw and scanned as text.
    Text,
}

/// ASCII lower casing of one character.
pub open spec fn lower_ascii(c: char) -> char {
    if 'A' <= c && c <= 'Z' {
        ((c as int) + 32) as char
    } else {
        c
    }
}

/// The extension of a path: what follows the last `.` of the part
/// after the last `/`, lower cased; empty when there is no `.` or when
/// the only `.` leads a hidden file's name.
pub open spec fn extension_of(p: Seq<char>) -> Seq<char> {
    let f = filename_spec(p);
    let dot = last_index_of_char(f, '.');
    if dot <= 0 {
        Seq::empty()
    } else {
        f.skip(dot + 1).map_values(|c: char| lower_ascii(c))
    }
}

/// The classification of one extension: the fixed table of known
/// binary formats, the extraction formats, and text for the rest.
pub open spec fn kind_of(ext: Seq<char>) -> AttachmentKind {
    if ext == "doc"@ || ext == "docx"@ || ext == "dxf"@ || ext == "idml"@ || ext == "indd"@ || ext
        == "jpg"@ || ext == "jpeg"@ || ext == "png"@ || ext == "tif"@ || ext == "tiff"@ || ext
        == "mp3"@ || ext == "wav"@ || ext == "odt"@ || ext == "ppt"@ || ext == "pptx"@ || ext
        == "webarchive"@ || ext == "xls"@ || ext == "xlsx"@ || ext == "zip"@ {
        AttachmentKind::Binary
    } else if ext == "pdf"@ || ext == "ai"@ {
        AttachmentKind::Extract
    } else {
        AttachmentKind::Text
    }
}

/// The bytes of a candidate path as characters, for extension
/// dispatch: text as it is, raw bytes read as Latin-1.
pub open spec fn candidate_chars(c: crate::resolver::CandV) -> Seq<char> {
    match c {
        crate::resolver::CandV::Text(s) => s,
        crate::resolver::CandV::Bytes(b) => crate::normalize::iso_decode_spec(b),
    }
}

/// The outcome of one run of the external text-extraction tool.
pub struct ExtractionOutcome {
    /// Did the tool exit successfully?
    pub success: bool,
    /// What it wrote on its standard output.
    pub stdout: Vec<u8>,
    /// What it wrote on its error stream.
    pub stderr: Vec<u8>,
}

/// What the caller read or ran for one attachment, as its kind asks.
pub enum AttachmentContent {
    /// A known binary format: nothing is read.
    Binary,
    /// The outcome of the external text extraction.
    Extracted(ExtractionOutcome),
    /// The raw bytes of the file.
    Raw(Vec<u8>),
    /// The file could not be read: excluded, never an error of the
    /// run.
    Unreadable,
}

/// What `String::from_utf8_lossy` returns: a fixed function of the
/// bytes alone.
pub uninterp spec fn lossy_of(b: Seq<u8>) -> Seq<char>;

/// Relies on `String::from_utf8_lossy`: invalid sequences are replaced,
/// valid UTF-8 is returned unchanged, and the result depends on the
/// bytes alone.
#[verifier::external_body]
pub fn lossy_utf8(b: &[u8]) -> (r: String)
    ensures
        r@ == lossy_of(b@),
        valid_utf8(b@) ==> r@ == decode_utf8(b@),
{
    String::from_utf8_lossy(b).into_owned()
}

/// Is this error output one of the two benign extraction failures:
/// an empty document stream, or an incorrect password?
pub fn extraction_benign(stderr: &[u8]) -> (b: bool)
    ensures
        b == (stderr@ == "Syntax Error: Document stream is empty\n".spec_bytes() || stderr@
            == "Command Line Error: Incorrect password\n".spec_bytes()),
{
    bytes_eq(stderr, "Syntax Error: Document stream is empty\n".as_bytes()) || bytes_eq(
        stderr,
        "Command Line Error: Incorrect password\n".as_bytes(),
    )
}

/// Judge one extraction outcome. A failed run is never relevant,
/// benign or not: a broken extraction must not block the run. A
/// successful run is relevant exactly when the extracted text is,
/// and non-text output is an error.
pub fn extraction_relevance(o: &ExtractionOutcome) -> (r: Result<bool, LibError>)
    ensures
        !o.success ==> r == Ok::<bool, LibError>(false),
        o.success && valid_utf8(o.stdout@) ==> r == Ok::<bool, LibError>(
            relevant_spec(decode_utf8(o.stdout@)),
        ),
        o.success && !valid_utf8(o.stdout@) ==> r == Err::<bool, LibError>(
            LibError::ExtractionNotText,
        ),
{
    if !o.success {
        return Ok(false);
    }
    match crate::normalize::utf8_to_string(o.stdout.clone()) {
        Ok(text) => Ok(is_relevant(text.as_str())),
        Err(_) => Err(LibError::ExtractionNotText),
    }
}

impl FileNode {
    /// The classification of this attachment, from the extension of
    /// its resolved path.
    pub fn kind(&self) -> (r: AttachmentKind)
        ensures
            r == kind_of(extension_of(candidate_chars(self.path@))),
    {
        let chars: Vec<char> = match &self.path {
            Candidate::Text(s) => to_chars(s.as_str()),
            Candidate::Bytes(b) => {
                let mut v: Vec<char> = Vec::new();
                let mut i: usize = 0;
                while i < b.len()
                    invariant
                        i <= b@.len(),
                        v@.len() == i,
                        forall|j: int| 0 <= j < i ==> v@[j] == b@[j] as char,
                    decreases b@.len() - i,
                {
                    v.push(b[i] as char);
                    i = i + 1;
                }
                proof {
                    assert(v@ =~= crate::normalize::iso_decode_spec(b@));
                }
                v
            },
        };
        let n = chars.len();
        let name = match last_index_of(&chars, '/') {
            Some(i) => sub_chars(&chars, i + 1, n),
            None => chars,
        };
        proof {
            assert(name@ =~= filename_spec(candidate_chars(self.path@)));
        }
        let m = name.len();
        let ext: Vec<char> = match last_index_of(&name, '.') {
            Some(d) if d > 0 => {
                let raw = sub_chars(&name, d + 1, m);
                let mut low: Vec<char> = Vec::new();
                let mut i: usize = 0;
                while i < raw.len()
                    invariant
                        i <= raw@.len(),
                        low@.len() == i,
                        forall|j: int| 0 <= j < i ==> low@[j] == lower_ascii(raw@[j]),
                    decreases raw@.len() - i,
                {
                    let c = raw[i];
                    if 'A' <= c && c <= 'Z' {
                        low.push(((c as u8) + 32) as char);
                    } else {
                        low.push(c);
                    }
                    i = i + 1;
                }
                proof {
                    assert(low@ =~= extension_of(candidate_chars(self.path@)));
                }
                low
            },
            _ => {
                let v: Vec<char> = Vec::new();
                proof {
                    assert(v@ =~= extension_of(candidate_chars(self.path@)));
                }
                v
            },
        };
        let binary: [&str; 19] = [
            "doc",
            "docx",
            "dxf",
            "idml",
            "indd",
            "jpg",
            "jpeg",
            "png",
            "tif",
            "tiff",
            "mp3",
            "wav",
            "odt",
            "ppt",
            "pptx",
            "webarchive",
            "xls",
            "xlsx",
            "zip",
        ];
        let mut k: usize = 0;
        while k < 19
            invariant
                k <= 19,
                ext@ == extension_of(candidate_chars(self.path@)),
                binary@[0]@ == "doc"@ && binary@[1]@ == "docx"@ && binary@[2]@ == "dxf"@
                    && binary@[3]@ == "idml"@ && binary@[4]@ == "indd"@ && binary@[5]@ == "jpg"@
                    && binary@[6]@ == "jpeg"@ && binary@[7]@ == "png"@ && binary@[8]@ == "tif"@
                    && binary@[9]@ == "tiff"@ && binary@[10]@ == "mp3"@ && binary@[11]@ == "wav"@
                    && binary@[12]@ == "odt"@ && binary@[13]@ == "ppt"@ && binary@[14]@ == "pptx"@
                    && binary@[15]@ == "webarchive"@ && binary@[16]@ == "xls"@ && binary@[17]@
                    == "xlsx"@ && binary@[18]@ == "zip"@,
                forall|j: int| 0 <= j < k ==> ext@ != #[trigger] binary@[j]@,
            decreases 19 - k,
        {
            if chars_eq(&ext, &to_chars(binary[k])) {
                return AttachmentKind::Binary;
            }
            k = k + 1;
        }
        if chars_eq(&ext, &to_chars("pdf")) || chars_eq(&ext, &to_chars("ai")) {
            return AttachmentKind::Extract;
        }
        AttachmentKind::Text
    }

    /// Is this attachment relevant, given what the caller read or ran
    /// for it? Binary formats never are; an extraction outcome is
    /// judged by `extraction_relevance`; raw bytes are decoded
    /// permissively and scanned for the keyword set.
    pub fn is_relevant(&self, content: &AttachmentContent) -> (r: Result<bool, LibError>)
        ensures
            match content {
                AttachmentContent::Binary => r == Ok::<bool, LibError>(false),
                AttachmentContent::Extracted(o) => {
                    if !o.success {
                        r == Ok::<bool, LibError>(false)
                    } else if valid_utf8(o.stdout@) {
                        r == Ok::<bool, LibError>(relevant_spec(decode_utf8(o.stdout@)))
                    } else {
                        r == Err::<bool, LibError>(LibError::ExtractionNotText)
                    }
                },
                AttachmentContent::Raw(b) => r == Ok::<bool, LibError>(
                    relevant_spec(lossy_of(b@)),
                ),
                AttachmentContent::Unreadable => r == Ok::<bool, LibError>(false),
            },
    {
        match content {
            AttachmentContent::Binary => Ok(false),
            AttachmentContent::Extracted(o) => extraction_relevance(o),
            AttachmentContent::Raw(b) => {
                let text = lossy_utf8(b.as_slice());
                Ok(is_relevant(text.as_str()))
            },
            AttachmentContent::Unreadable => Ok(false),
        }
    }
}

} // verus!
