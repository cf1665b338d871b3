//! Resolution of a directive's raw path reference against the path of the
//! file that contains the directive.
//!
//! Paths are byte strings with `/` as the separator.  An absolute reference
//! is taken as it stands; a relative one is joined onto the containing path
//! itself when that path denotes a directory, and onto its parent directory
//! when it denotes a file.  No existence check happens here: whether the
//! computed path names a file is decided later, when it is canonicalized.

use crate::append_range;
use crate::canonical_path::CanonicalPath;
use crate::SLASH;
use vstd::prelude::*;

verus! {

/// A path is absolute when it starts with the separator.
pub open spec fn is_absolute(p: Seq<u8>) -> bool {
    p.len() > 0 && p[0] == SLASH
}

/// The index of the last separator in `p`, if any.
pub open spec fn last_slash(p: Seq<u8>) -> Option<int>
    decreases p.len(),
{
    if p.len() == 0 {
        None
    } else if p[p.len() - 1] == SLASH {
        Some(p.len() - 1)
    } else {
        last_slash(p.drop_last())
    }
}

/// The parent directory of `p`: everything before the last separator, the
/// root staying `/`, and a path without separator having the empty parent.
pub open spec fn parent_of(p: Seq<u8>) -> Seq<u8> {
    match last_slash(p) {
        None => Seq::empty(),
        Some(i) => if i == 0 {
            p.take(1)
        } else {
            p.take(i)
        },
    }
}

/// `rel` joined onto the directory `base`, inserting a separator when one is
/// needed.
pub open spec fn joined(base: Seq<u8>, rel: Seq<u8>) -> Seq<u8> {
    if base.len() == 0 {
        rel
    } else if base[base.len() - 1] == SLASH {
        base + rel
    } else {
        base + seq![SLASH] + rel
    }
}

/// The path a raw reference denotes, resolved against the path of the file
/// or directory that contains it.
pub open spec fn dep_path_spec(origin: Seq<u8>, origin_is_dir: bool, reference: Seq<u8>) -> Seq<
    u8,
> {
    if is_absolute(reference) {
        reference
    } else if origin_is_dir {
        joined(origin, reference)
    } else {
        joined(parent_of(origin), reference)
    }
}

/// Finds the last separator of `p`, matching `last_slash`.
fn find_last_slash(p: &Vec<u8>) -> (r: Option<usize>)
    ensures
        match r {
            Some(i) => i < p@.len() && last_slash(p@) == Some(i as int),
            None => last_slash(p@) is None,
        },
{
    let mut j: usize = p.len();
    proof {
        assert(p@.take(j as int) =~= p@);
    }
    while j > 0
        invariant
            j <= p@.len(),
            last_slash(p@) == last_slash(p@.take(j as int)),
        decreases j,
    {
        if p[j - 1] == SLASH {
            proof {
                assert(p@.take(j as int)[j - 1] == p@[j - 1]);
            }
            return Some(j - 1);
        }
        proof {
            assert(p@.take(j as int).drop_last() =~= p@.take(j - 1));
        }
        j -= 1;
    }
    proof {
        assert(p@.take(0) =~= Seq::<u8>::empty());
    }
    None
}

/// Computes the path `reference` denotes relative to `origin`, exactly as
/// `dep_path_spec` states it.
pub fn get_dependency_path(origin: &Vec<u8>, origin_is_dir: bool, reference: &Vec<u8>) -> (r: Vec<
    u8,
>)
    ensures
        r@ == dep_path_spec(origin@, origin_is_dir, reference@),
{
    let mut out: Vec<u8> = Vec::new();
    if reference.len() > 0 && reference[0] == SLASH {
        append_range(&mut out, reference, 0, reference.len());
        proof {
            assert(out@ =~= reference@);
        }
        return out;
    }
    let ghost base: Seq<u8> = if origin_is_dir {
        origin@
    } else {
        parent_of(origin@)
    };
    if origin_is_dir {
        append_range(&mut out, origin, 0, origin.len());
        proof {
            assert(out@ =~= origin@);
        }
    } else {
        match find_last_slash(origin) {
            None => {
                proof {
                    assert(out@ =~= parent_of(origin@));
                }
            },
            Some(i) => {
                let cut: usize = if i == 0 {
                    1
                } else {
                    i
                };
                append_range(&mut out, origin, 0, cut);
                proof {
                    assert(out@ =~= parent_of(origin@));
                }
            },
        }
    }
    if out.len() == 0 {
        append_range(&mut out, reference, 0, reference.len());
        proof {
            assert(out@ =~= joined(base, reference@));
        }
    } else if out[out.len() - 1] == SLASH {
        append_range(&mut out, reference, 0, reference.len());
        proof {
            assert(out@ =~= joined(base, reference@));
        }
    } else {
        out.push(SLASH);
        append_range(&mut out, reference, 0, reference.len());
        proof {
            assert(out@ =~= joined(base, reference@));
        }
    }
    out
}

/// A value that directives can be resolved against: it names the path that
/// serves as the origin of relative references.
pub trait DependencyPath {
    /// The path relative to which raw references are resolved.
    spec fn dep_origin(&self) -> Seq<u8>;

    /// Computes the path a raw reference denotes relative to this value.
    fn get_dependency_path(&self, origin_is_dir: bool, reference: &Vec<u8>) -> (r: Vec<u8>)
        ensures
            r@ == dep_path_spec(self.dep_origin(), origin_is_dir, reference@),
    ;
}

impl DependencyPath for CanonicalPath {
    /// References found in a file are resolved against its canonical path.
    open spec fn dep_origin(&self) -> Seq<u8> {
        self.canonical@
    }

    fn get_dependency_path(&self, origin_is_dir: bool, reference: &Vec<u8>) -> (r: Vec<u8>) {
        get_dependency_path(&self.canonical, origin_is_dir, reference)
    }
}

} // verus!
