//! Paths and filenames used throughout the filesystem layer.

use vstd::prelude::*;
use unicode_normalization::UnicodeNormalization;
use crate::error::Error;

verus! {

/// The Unicode NFC normalization of a text.
pub uninterp spec fn nfc_of(s: Seq<char>) -> Seq<char>;

/// Relies on unicode_normalization's `nfc`: the canonical composition of
/// the text, a function of the text alone; the empty text stays empty.
#[verifier::external_body]
fn normalize_nfc(s: &str) -> (r: String)
    ensures
        r@ == nfc_of(s@),
        s@.len() == 0 ==> r@.len() == 0,
{
    s.nfc().collect::<String>()
}

/// Filesystem path used internally, distinct from the platform's own path type.
///
/// Some characters have more than one valid encoding (a precomposed `Å`, or
/// `A` followed by a combining ring), and filesystems differ in which form
/// they store. Paths are kept in NFC, so equivalent spellings give equal paths.
#[derive(Debug, Clone, PartialEq, Eq)]
pub struct PbPath {
    pub inner: String,
}

impl PbPath {
    pub fn new(val: String) -> (r: Result<PbPath, Error>)
        ensures
            r matches Ok(p) && p.inner@ == nfc_of(val@),
    {
        Ok(PbPath { inner: normalize_nfc(val.as_str()) })
    }
}

/// Filename component of a [`PbPath`], kept in NFC as well.
#[derive(Debug, Clone, PartialEq, Eq)]
pub struct PbFilename {
    pub inner: String,
}

impl PbFilename {
    pub fn new(val: String) -> (r: Result<PbFilename, Error>)
        ensures
            r matches Ok(f) && f.inner@ == nfc_of(val@),
    {
        Ok(PbFilename { inner: normalize_nfc(val.as_str()) })
    }
}

} // verus!
