//! A document on disk.

use std::path::PathBuf;
use vstd::prelude::*;

verus! {

/// A path of the standard library, carried through as it is.
#[verifier::external_type_specification]
#[verifier::external_body]
pub struct ExPathBuf(std::path::PathBuf);

/// `PathBuf::clone`: the copy is the path that was copied.
pub assume_specification[ <std::path::PathBuf as Clone>::clone ](path: &std::path::PathBuf) -> (r:
    std::path::PathBuf)
    ensures
        r == *path,
;

#[derive(Clone, Debug, PartialEq, Eq)]
pub struct PdfDocument {
    pub path: PathBuf,
    pub page_count: usize,
}

impl PdfDocument {
    /// A document whose pages have not been counted yet.
    pub fn new(path: PathBuf) -> (r: Self)
        ensures
            r == (PdfDocument { path, page_count: 0 }),
    {
        PdfDocument { path, page_count: 0 }
    }
}

} // verus!
