//! A path together with its canonical form.
//!
//! Two paths are the same entity exactly when their canonical (symlink- and
//! relative-component-resolved) forms agree, however they were spelled.
//! Canonicalization itself is file-system work and is performed by the
//! caller of this crate; a `CanonicalPath` merely carries both spellings.

use crate::bytes_eq;
use vstd::prelude::*;

verus! {

/// A file-system path as the author wrote it, paired with its canonical form.
///
/// Equality is defined on the canonical form only; the original spelling is
/// kept so that error messages can show what the author wrote.
#[derive(Debug)]
pub struct CanonicalPath {
    pub source: Vec<u8>,
    pub canonical: Vec<u8>,
}

impl CanonicalPath {
    /// Pairs a path spelling with the canonical form the file system gave it.
    pub fn new(source: Vec<u8>, canonical: Vec<u8>) -> (r: Self)
        ensures
            r.source@ == source@,
            r.canonical@ == canonical@,
    {
        CanonicalPath { source, canonical }
    }

    /// The path as it was originally written.
    pub fn source(&self) -> (r: &Vec<u8>)
        ensures
            r@ == self.source@,
    {
        &self.source
    }

    /// Two paths denote the same file exactly when their canonical forms
    /// agree, regardless of spelling.
    pub open spec fn same_entity(&self, other: &CanonicalPath) -> bool {
        self.canonical@ == other.canonical@
    }
}

impl PartialEq for CanonicalPath {
    fn eq(&self, other: &Self) -> (r: bool) {
        bytes_eq(&self.canonical, &other.canonical)
    }
}

impl vstd::std_specs::cmp::PartialEqSpecImpl for CanonicalPath {
    open spec fn obeys_eq_spec() -> bool {
        true
    }

    open spec fn eq_spec(&self, other: &Self) -> bool {
        self.canonical@ == other.canonical@
    }
}

} // verus!
