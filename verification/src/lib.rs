//! Archiving of e-learning course pages into a delivery package.
//!
//! The library resolves recorded attachment references to on-disk
//! candidates, classifies pages and attachments for assessment
//! relevance, normalizes attachment filenames, rewrites in-document
//! references, and assembles a well-nested structured report.
//! All file and process access stays with the caller: the functions
//! here work on plain values and state what they compute.
#![verifier::loop_isolation(false)]

pub mod archive;
pub mod classify;
pub mod keys;
pub mod keywords;
pub mod normalize;
pub mod pages;
pub mod percent;
pub mod report;
pub mod resolver;
pub mod rewrite;
pub mod text;

use vstd::prelude::*;

verus! {

/// Errors produced by the library itself. I/O failures belong to the
/// caller, which performs all file and process access.
#[derive(Debug, PartialEq, Eq, Structural, Clone)]
pub enum LibError {
    /// No resolution candidate named an existing file.
    AttachmentNotFound,
    /// A path must be representable as text for the report, and was not.
    NonRepresentablePath,
    /// The text-extraction tool succeeded but emitted non-text output.
    ExtractionNotText,
    /// A link category tag was none of the accepted ones.
    UnknownCategory,
}

} // verus!
