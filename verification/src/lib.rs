//! Recursive resolution of textual inclusion directives.
//!
//! A text file may reference other files through inline directives; resolving
//! a file replaces each active directive with the fully resolved text of the
//! file it names, relative paths being taken relative to the referencing
//! file.  Escape backslashes suppress expansion, an optional variant of the
//! directive re-applies the captured indentation to every substituted line
//! after the first, and cyclic reference chains are detected and rejected.
//!
//! All file-system access (reading a file, canonicalizing a path) happens
//! outside this crate: the [`loader::Loader`] state machine asks for it
//! through [`loader::Action`] values and is answered with [`loader::Event`]
//! values, so the whole resolution logic is verified here while a thin
//! driver performs the reads.

use vstd::prelude::*;

pub mod canonical_path;
pub mod dependency_path;
pub mod includes;
pub mod loader;
pub mod parser;

use crate::loader::{Action, Loader, Mode};

verus! {

/// The path separator, `/`.
pub const SLASH: u8 = 47;

/// Line feed.
pub const NEWLINE: u8 = 10;

/// Carriage return.
pub const CARRIAGE: u8 = 13;

/// The escape character, a backslash.
pub const BACKSLASH: u8 = 92;

/// `$`, the first character of a directive expression.
pub const DOLLAR: u8 = 36;

/// `{`.
pub const OPEN_BRACE: u8 = 123;

/// `}`.
pub const CLOSE_BRACE: u8 = 125;

/// `"`.
pub const QUOTE: u8 = 34;

/// `(`.
pub const OPEN_PAREN: u8 = 40;

/// `)`.
pub const CLOSE_PAREN: u8 = 41;

/// A space.
pub const SPACE: u8 = 32;

/// A horizontal tab.
pub const TAB: u8 = 9;

/// `_`, which introduces the indentation-preserving directive variant.
pub const UNDERSCORE: u8 = 95;

/// The ways a resolution can fail.
#[derive(Debug)]
pub enum Error {
    /// A referenced (or root) path does not name an existing file; the
    /// payload is the path as it was written.
    FileNotFound(Vec<u8>),
    /// Resolving the second path was requested while the first (the
    /// innermost file still in progress) was on the resolution stack;
    /// both paths are reported in their original spelling.
    CyclicDependency(Vec<u8>, Vec<u8>),
    /// Any other failure of the file system.
    IOError,
}

/// Begins loading the file at `origin` and recursively following the
/// references inside it.  The returned [`Loader`] owns the resolution state
/// and the returned [`Action`] is its first request; the caller performs the
/// requested file-system work, answers through [`Loader::on_event`], calls
/// [`Loader::step`] on [`Action::Working`], and so drives the machine to
/// [`Action::Done`] with the flattened text or to [`Action::Fail`].
pub fn load_file_recursively(origin: Vec<u8>) -> (r: (Loader, Action))
    ensures
        r.0.inv(),
        r.0.frames@.len() == 0,
        (r.0.mode matches Mode::AwaitCanon { spelling, pending } && spelling@ == origin@
            && pending is None),
        (r.1 matches Action::Canonicalize(p) && p@ == origin@),
{
    let mut loader = Loader::new();
    let action = loader.load_file_recursively(origin);
    (loader, action)
}

/// Compares two byte strings for equality of their contents.
pub fn bytes_eq(a: &Vec<u8>, b: &Vec<u8>) -> (r: bool)
    ensures
        r == (a@ == b@),
{
    if a.len() != b.len() {
        return false;
    }
    let mut i: usize = 0;
    while i < a.len()
        invariant
            i <= a@.len(),
            a@.len() == b@.len(),
            forall|k: int| 0 <= k < i ==> a@[k] == b@[k],
        decreases a@.len() - i,
    {
        if a[i] != b[i] {
            return false;
        }
        i += 1;
    }
    proof {
        assert(a@ =~= b@);
    }
    true
}

/// Copies a byte string.
pub fn bytes_clone(v: &Vec<u8>) -> (r: Vec<u8>)
    ensures
        r@ == v@,
{
    let mut r: Vec<u8> = Vec::new();
    append_range(&mut r, v, 0, v.len());
    proof {
        assert(r@ =~= v@);
    }
    r
}

/// Appends `src[from..to]` to `dst`.
pub fn append_range(dst: &mut Vec<u8>, src: &Vec<u8>, from: usize, to: usize)
    requires
        from <= to <= src@.len(),
    ensures
        final(dst)@ == old(dst)@ + src@.subrange(from as int, to as int),
{
    let mut i: usize = from;
    while i < to
        invariant
            from <= i <= to <= src@.len(),
            dst@ == old(dst)@ + src@.subrange(from as int, i as int),
        decreases to - i,
    {
        let ghost pre = dst@;
        dst.push(src[i]);
        proof {
            assert(dst@ =~= old(dst)@ + src@.subrange(from as int, i + 1 as int));
        }
        i += 1;
    }
}

} // verus!
