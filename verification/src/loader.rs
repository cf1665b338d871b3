//! The resolution engine, as a state machine without file-system access.
//!
//! A [`Loader`] keeps a stack of in-flight files — the resolution stack —
//! and asks its driver for every piece of outside work through an
//! [`Action`]: canonicalize this path, read this file.  The driver answers
//! with an [`Event`] and, on [`Action::Working`], calls [`Loader::step`] to
//! let the machine apply the next substitution.  The run ends with
//! [`Action::Done`] carrying the fully resolved text, or [`Action::Fail`].
//!
//! The stack never holds the same canonical path twice: a request for a
//! file already on it fails with [`Error::CyclicDependency`], naming the
//! innermost in-progress file and the newly requested spelling.  Directives
//! of one file are applied from the last match to the first, so that the
//! spans of the matches still pending stay valid while the buffer changes
//! length.

use crate::canonical_path::CanonicalPath;
use crate::dependency_path::{dep_path_spec, DependencyPath};
use crate::includes::{escaped, spliced, wf_in, Include};
use crate::parser::{find_includes, scan_from, wf_includes};
use crate::{bytes_clone, bytes_eq, Error};
use vstd::prelude::*;

verus! {

/// One in-flight file: its identity, the buffer being rewritten, the
/// directives not yet applied (leftmost first; applied from the end), and
/// the parent's directive this file was read for (`None` for the root).
#[derive(Debug)]
pub struct Frame {
    pub path: CanonicalPath,
    pub content: Vec<u8>,
    pub includes: Vec<Include>,
    pub for_include: Option<Include>,
}

/// What the machine is waiting for.
#[derive(Debug)]
pub enum Mode {
    /// No resolution has started.
    Idle,
    /// A path spelling was handed out for canonicalization; for a directive
    /// (rather than the root), the directive awaiting the referenced text.
    AwaitCanon { spelling: Vec<u8>, pending: Option<Include> },
    /// The top frame's file is being read.
    AwaitRead,
    /// Substitution work is pending; the driver calls [`Loader::step`].
    Working,
    /// The run has ended in `Done` or `Fail`.
    Finished,
}

/// A request to the driver, or the end of the run.
#[derive(Debug)]
pub enum Action {
    /// Resolve this path on the file system (following symlinks and
    /// relative components) and answer with its canonical form, or with the
    /// applicable failure.
    Canonicalize(Vec<u8>),
    /// Read the file at this canonical path and answer with its text.
    ReadFile(Vec<u8>),
    /// No outside work is needed; call [`Loader::step`].
    Working,
    /// The resolution finished with this fully substituted text.
    Done(Vec<u8>),
    /// The resolution failed; the run is over.
    Fail(Error),
}

/// The driver's answer to the most recent request.
#[derive(Debug)]
pub enum Event {
    /// Canonicalization succeeded with this canonical form.
    CanonicalizeOk(Vec<u8>),
    /// The path does not name an existing file.
    CanonicalizeNotFound,
    /// Canonicalization failed some other way.
    CanonicalizeError,
    /// The file was read; this is its full text.
    ReadOk(Vec<u8>),
    /// The file could not be read.
    ReadError,
}

/// Whether `ev` answers what mode `m` is waiting for.
pub open spec fn expects(m: Mode, ev: Event) -> bool {
    match m {
        Mode::AwaitCanon { .. } => ev is CanonicalizeOk || ev is CanonicalizeNotFound
            || ev is CanonicalizeError,
        Mode::AwaitRead => ev is ReadOk || ev is ReadError,
        _ => false,
    }
}

/// The canonical form `c` is already on the stack.
pub open spec fn cycle_hit(frames: Seq<Frame>, c: Seq<u8>) -> bool {
    exists|k: int| 0 <= k < frames.len() && #[trigger] frames[k].path.canonical@ == c
}

/// Every listed directive ends at or before position `b`.
pub open spec fn incs_left_of(incs: Seq<Include>, b: int) -> bool {
    forall|k: int| 0 <= k < incs.len() ==> #[trigger] incs[k]@.end <= b
}

/// The resolution stack's invariant: no canonical path occurs twice, each
/// frame's pending directives fit its buffer, and each non-root frame was
/// spawned for an active directive of its parent whose span is still valid
/// there and lies to the right of everything the parent has left to do.
pub open spec fn frames_wf(frames: Seq<Frame>) -> bool {
    &&& forall|k: int, l: int|
        0 <= k < l < frames.len() ==> #[trigger] frames[k].path.canonical@
            != #[trigger] frames[l].path.canonical@
    &&& forall|k: int|
        0 <= k < frames.len() ==> wf_includes(
            #[trigger] frames[k].includes@,
            frames[k].content@.len() as int,
        )
    &&& forall|k: int|
        1 <= k < frames.len() ==> (#[trigger] frames[k].for_include matches Some(inc) && wf_in(
            inc@,
            frames[k - 1].content@.len() as int,
        ) && !escaped(inc@) && incs_left_of(frames[k - 1].includes@, inc@.bs_start))
    &&& frames.len() > 0 ==> frames[0].for_include is None
}

/// How much substitution work is pending: the stack depth plus every
/// directive still to apply.  Each internal step strictly shrinks it.
pub open spec fn measure(frames: Seq<Frame>) -> nat
    decreases frames.len(),
{
    if frames.len() == 0 {
        0
    } else {
        measure(frames.drop_last()) + frames.last().includes@.len() + 1
    }
}

/// Exactly what [`Loader::on_event`] does, for each waiting mode and event.
pub open spec fn on_event_post(pre: Loader, ev: Event, post: Loader, a: Action) -> bool {
    match pre.mode {
        Mode::AwaitCanon { spelling, pending } => match ev {
            Event::CanonicalizeOk(c) => {
                if cycle_hit(pre.frames@, c@) {
                    &&& (a matches Action::Fail(Error::CyclicDependency(x, y)) && x@
                        == pre.frames@.last().path.source@ && y@ == spelling@)
                    &&& post.frames@ == pre.frames@
                    &&& post.mode is Finished
                } else {
                    &&& (a matches Action::ReadFile(p) && p@ == c@)
                    &&& post.frames@.len() == pre.frames@.len() + 1
                    &&& post.frames@.drop_last() == pre.frames@
                    &&& post.frames@.last().path.source@ == spelling@
                    &&& post.frames@.last().path.canonical@ == c@
                    &&& post.frames@.last().content@.len() == 0
                    &&& post.frames@.last().includes@.len() == 0
                    &&& post.frames@.last().for_include == pending
                    &&& post.mode is AwaitRead
                }
            },
            Event::CanonicalizeNotFound => {
                &&& (a matches Action::Fail(Error::FileNotFound(p)) && p@ == spelling@)
                &&& post.frames@ == pre.frames@
                &&& post.mode is Finished
            },
            Event::CanonicalizeError => {
                &&& (a matches Action::Fail(Error::IOError))
                &&& post.frames@ == pre.frames@
                &&& post.mode is Finished
            },
            _ => false,
        },
        Mode::AwaitRead => match ev {
            Event::ReadOk(text) => {
                &&& a is Working
                &&& post.mode is Working
                &&& post.frames@.len() == pre.frames@.len()
                &&& post.frames@.drop_last() == pre.frames@.drop_last()
                &&& post.frames@.last().path == pre.frames@.last().path
                &&& post.frames@.last().for_include == pre.frames@.last().for_include
                &&& post.frames@.last().content@ == text@
                &&& post.frames@.last().includes@.len() == scan_from(text@, 0).len()
                &&& (forall|k: int|
                    0 <= k < scan_from(text@, 0).len()
                        ==> #[trigger] post.frames@.last().includes@[k]@ == scan_from(text@, 0)[k])
            },
            Event::ReadError => {
                &&& (a matches Action::Fail(Error::IOError))
                &&& post.frames@ == pre.frames@
                &&& post.mode is Finished
            },
            _ => false,
        },
        _ => false,
    }
}

/// Exactly what [`Loader::step`] does: the rightmost pending directive of
/// the top frame is applied (escaped) or sent out for resolution (active);
/// a frame without pending directives is complete — the root yields the
/// result, any other is spliced into its parent.
pub open spec fn step_post(pre: Loader, post: Loader, a: Action) -> bool {
    let frames = pre.frames@;
    let top = frames.last();
    if top.includes@.len() > 0 {
        let inc = top.includes@.last();
        if escaped(inc@) {
            &&& a is Working
            &&& post.mode is Working
            &&& post.frames@.len() == frames.len()
            &&& post.frames@.drop_last() == frames.drop_last()
            &&& post.frames@.last().path == top.path
            &&& post.frames@.last().for_include == top.for_include
            &&& post.frames@.last().includes@ == top.includes@.drop_last()
            &&& post.frames@.last().content@ == spliced(top.content@, inc@, None)
        } else {
            &&& (a matches Action::Canonicalize(p) && p@ == dep_path_spec(
                top.path.canonical@,
                false,
                inc@.path,
            ))
            &&& (post.mode matches Mode::AwaitCanon { spelling, pending } && spelling@
                == dep_path_spec(top.path.canonical@, false, inc@.path) && pending == Some(inc))
            &&& post.frames@.len() == frames.len()
            &&& post.frames@.drop_last() == frames.drop_last()
            &&& post.frames@.last().path == top.path
            &&& post.frames@.last().for_include == top.for_include
            &&& post.frames@.last().content@ == top.content@
            &&& post.frames@.last().includes@ == top.includes@.drop_last()
        }
    } else if frames.len() == 1 {
        &&& (a matches Action::Done(t) && t@ == top.content@)
        &&& post.frames@.len() == 0
        &&& post.mode is Finished
    } else {
        match top.for_include {
            Some(inc) => {
                let parent = frames[frames.len() - 2];
                &&& a is Working
                &&& post.mode is Working
                &&& post.frames@.len() == frames.len() - 1
                &&& post.frames@.drop_last() == frames.drop_last().drop_last()
                &&& post.frames@.last().path == parent.path
                &&& post.frames@.last().for_include == parent.for_include
                &&& post.frames@.last().includes@ == parent.includes@
                &&& post.frames@.last().content@ == spliced(
                    parent.content@,
                    inc@,
                    Some(top.content@),
                )
            },
            None => false,
        }
    }
}

/// The resolution engine: the stack of in-flight files and what the machine
/// is waiting for.
#[derive(Debug)]
pub struct Loader {
    pub frames: Vec<Frame>,
    pub mode: Mode,
}

impl Loader {
    /// The machine's invariant, preserved by every transition.
    pub open spec fn inv(&self) -> bool {
        &&& frames_wf(self.frames@)
        &&& match self.mode {
            Mode::Idle => self.frames@.len() == 0,
            Mode::AwaitCanon { spelling, pending } => match pending {
                None => self.frames@.len() == 0,
                Some(inc) => self.frames@.len() > 0 && !escaped(inc@) && wf_in(
                    inc@,
                    self.frames@.last().content@.len() as int,
                ) && incs_left_of(self.frames@.last().includes@, inc@.bs_start),
            },
            Mode::AwaitRead => self.frames@.len() > 0 && self.frames@.last().content@.len() == 0
                && self.frames@.last().includes@.len() == 0,
            Mode::Working => self.frames@.len() > 0,
            Mode::Finished => true,
        }
    }

    /// A fresh engine, not yet resolving anything.
    pub fn new() -> (r: Loader)
        ensures
            r.inv(),
            r.mode is Idle,
            r.frames@.len() == 0,
    {
        Loader { frames: Vec::new(), mode: Mode::Idle }
    }

    /// Begins resolving the file at `origin`: the machine turns to
    /// canonicalizing that spelling and asks the driver to do it.
    pub fn load_file_recursively(&mut self, origin: Vec<u8>) -> (a: Action)
        requires
            old(self).inv(),
            old(self).mode is Idle,
        ensures
            final(self).inv(),
            final(self).frames@.len() == 0,
            (final(self).mode matches Mode::AwaitCanon { spelling, pending } && spelling@
                == origin@ && pending is None),
            (a matches Action::Canonicalize(p) && p@ == origin@),
    {
        let request = bytes_clone(&origin);
        self.mode = Mode::AwaitCanon { spelling: origin, pending: None };
        Action::Canonicalize(request)
    }

    /// Feeds the machine the driver's answer to its latest request.
    pub fn on_event(&mut self, ev: Event) -> (a: Action)
        requires
            old(self).inv(),
            expects(old(self).mode, ev),
        ensures
            final(self).inv(),
            on_event_post(*old(self), ev, *final(self), a),
    {
        let ghost pre = *self;
        let mut m = Mode::Finished;
        core::mem::swap(&mut m, &mut self.mode);
        match m {
            Mode::AwaitCanon { spelling, pending } => match ev {
                Event::CanonicalizeOk(c) => {
                    let ghost mid = *self;
                    let mut hit = false;
                    let mut k: usize = 0;
                    while k < self.frames.len()
                        invariant
                            k <= self.frames@.len(),
                            *self == mid,
                            hit ==> cycle_hit(self.frames@, c@),
                            !hit ==> forall|t: int|
                                0 <= t < k ==> #[trigger] self.frames@[t].path.canonical@ != c@,
                        decreases self.frames@.len() - k,
                    {
                        if bytes_eq(&self.frames[k].path.canonical, &c) {
                            hit = true;
                        }
                        k += 1;
                    }
                    proof {
                        assert(hit == cycle_hit(pre.frames@, c@));
                    }
                    if hit {
                        let n = self.frames.len();
                        let innermost = bytes_clone(&self.frames[n - 1].path.source);
                        Action::Fail(Error::CyclicDependency(innermost, spelling))
                    } else {
                        let request = bytes_clone(&c);
                        let frame = Frame {
                            path: CanonicalPath::new(spelling, c),
                            content: Vec::new(),
                            includes: Vec::new(),
                            for_include: pending,
                        };
                        self.frames.push(frame);
                        self.mode = Mode::AwaitRead;
                        proof {
                            assert(self.frames@.drop_last() =~= pre.frames@);
                            assert(self.frames@.last().includes@ =~= Seq::<Include>::empty());
                            assert(frames_wf(self.frames@));
                        }
                        Action::ReadFile(request)
                    }
                },
                Event::CanonicalizeNotFound => Action::Fail(Error::FileNotFound(spelling)),
                Event::CanonicalizeError => Action::Fail(Error::IOError),
                _ => {
                    proof {
                        assert(false);
                    }
                    Action::Fail(Error::IOError)
                },
            },
            Mode::AwaitRead => match ev {
                Event::ReadOk(text) => {
                    let includes = find_includes(&text);
                    let mut top = match self.frames.pop() {
                        Some(f) => f,
                        None => {
                            proof {
                                assert(false);
                            }
                            return Action::Fail(Error::IOError);
                        },
                    };
                    top.content = text;
                    top.includes = includes;
                    self.frames.push(top);
                    self.mode = Mode::Working;
                    proof {
                        assert(self.frames@.drop_last() =~= pre.frames@.drop_last());
                        assert(frames_wf(self.frames@));
                    }
                    Action::Working
                },
                Event::ReadError => Action::Fail(Error::IOError),
                _ => {
                    proof {
                        assert(false);
                    }
                    Action::Fail(Error::IOError)
                },
            },
            _ => {
                proof {
                    assert(false);
                }
                Action::Fail(Error::IOError)
            },
        }
    }

    /// Performs one internal step: applies the top frame's rightmost pending
    /// directive, or completes the frame.  Every `Working` answer strictly
    /// shrinks the pending work, so the driver's stepping always ends in
    /// another request, `Done`, or `Fail`.
    pub fn step(&mut self) -> (a: Action)
        requires
            old(self).inv(),
            old(self).mode is Working,
        ensures
            final(self).inv(),
            step_post(*old(self), *final(self), a),
            a is Working ==> measure(final(self).frames@) < measure(old(self).frames@),
    {
        let ghost pre = *self;
        let ghost otop = pre.frames@.last();
        let mut top = match self.frames.pop() {
            Some(f) => f,
            None => {
                proof {
                    assert(false);
                }
                return Action::Fail(Error::IOError);
            },
        };
        if top.includes.len() > 0 {
            let inc = match top.includes.pop() {
                Some(i) => i,
                None => {
                    proof {
                        assert(false);
                    }
                    return Action::Fail(Error::IOError);
                },
            };
            proof {
                assert(top.includes@ =~= otop.includes@.drop_last());
                assert(inc == otop.includes@.last());
                assert(wf_in(inc@, top.content@.len() as int));
            }
            if inc.is_escaped() {
                inc.replace(&mut top.content, None);
                self.frames.push(top);
                proof {
                    assert(self.frames@.drop_last() =~= pre.frames@.drop_last());
                    assert(frames_wf(self.frames@));
                    lemma_measure_last_shrinks(pre.frames@, self.frames@);
                }
                Action::Working
            } else {
                let spelling = top.path.get_dependency_path(false, inc.path());
                let request = bytes_clone(&spelling);
                self.frames.push(top);
                self.mode = Mode::AwaitCanon { spelling, pending: Some(inc) };
                proof {
                    assert(self.frames@.drop_last() =~= pre.frames@.drop_last());
                    assert(frames_wf(self.frames@));
                }
                Action::Canonicalize(request)
            }
        } else if self.frames.len() == 0 {
            self.mode = Mode::Finished;
            Action::Done(top.content)
        } else {
            proof {
                assert(pre.frames@.len() >= 2);
                assert(otop.for_include is Some);
            }
            let inc = match top.for_include {
                Some(i) => i,
                None => {
                    proof {
                        assert(false);
                    }
                    return Action::Fail(Error::IOError);
                },
            };
            let mut parent = match self.frames.pop() {
                Some(f) => f,
                None => {
                    proof {
                        assert(false);
                    }
                    return Action::Fail(Error::IOError);
                },
            };
            proof {
                assert(parent == pre.frames@[pre.frames@.len() - 2]);
                assert(wf_in(inc@, parent.content@.len() as int));
            }
            inc.replace(&mut parent.content, Some(&top.content));
            self.frames.push(parent);
            proof {
                assert(self.frames@.drop_last() =~= pre.frames@.drop_last().drop_last());
                assert(frames_wf(self.frames@));
                lemma_measure_pop_shrinks(pre.frames@, self.frames@);
            }
            Action::Working
        }
    }
}

/// Replacing the last frame by one with one directive fewer shrinks the
/// pending-work measure.
proof fn lemma_measure_last_shrinks(pre: Seq<Frame>, post: Seq<Frame>)
    requires
        pre.len() > 0,
        post.len() == pre.len(),
        post.drop_last() == pre.drop_last(),
        post.last().includes@.len() < pre.last().includes@.len(),
    ensures
        measure(post) < measure(pre),
{
}

/// Completing the top frame (whose directive was already taken off its
/// parent) shrinks the pending-work measure.
proof fn lemma_measure_pop_shrinks(pre: Seq<Frame>, post: Seq<Frame>)
    requires
        pre.len() >= 2,
        pre.last().includes@.len() == 0,
        post.len() == pre.len() - 1,
        post.drop_last() == pre.drop_last().drop_last(),
        post.last().includes@.len() == pre[pre.len() - 2].includes@.len(),
    ensures
        measure(post) < measure(pre),
{
    assert(pre.drop_last().last() == pre[pre.len() - 2]);
    assert(measure(pre) == measure(pre.drop_last()) + 1);
    assert(measure(pre.drop_last()) == measure(pre.drop_last().drop_last()) + pre[pre.len()
        - 2].includes@.len() + 1);
    assert(measure(post) == measure(post.drop_last()) + post.last().includes@.len() + 1);
}

/// Identity law: a file whose text holds no directive resolves to exactly
/// that text.  When the root file's text has been read and no directive was
/// found in it, the machine's next step finishes with the text unchanged.
pub proof fn lemma_identity_law(
    pre: Loader,
    text: Vec<u8>,
    mid: Loader,
    a1: Action,
    post: Loader,
    a2: Action,
)
    requires
        pre.inv(),
        pre.mode is AwaitRead,
        pre.frames@.len() == 1,
        scan_from(text@, 0).len() == 0,
        on_event_post(pre, Event::ReadOk(text), mid, a1),
        step_post(mid, post, a2),
    ensures
        a2 matches Action::Done(t) && t@ == text@,
{
}

/// Cycle law: when the file just canonicalized is already on the resolution
/// stack — however its spelling reached it — the machine fails with
/// `CyclicDependency` naming the innermost in-progress file and the newly
/// requested spelling, and the stack does not grow, so resolution never
/// descends into the cycle.
pub proof fn lemma_cycle_law(pre: Loader, c: Vec<u8>, post: Loader, a: Action)
    requires
        pre.inv(),
        pre.mode matches Mode::AwaitCanon { .. },
        cycle_hit(pre.frames@, c@),
        on_event_post(pre, Event::CanonicalizeOk(c), post, a),
    ensures
        (a matches Action::Fail(Error::CyclicDependency(x, y)) && x@
            == pre.frames@.last().path.source@ && (pre.mode matches Mode::AwaitCanon {
            spelling,
            ..
        } && y@ == spelling@)),
        post.frames@ == pre.frames@,
{
}

/// Path identity law: whether a cycle is reported depends on the canonical
/// form alone.  Two requests over the same stack whose spellings differ but
/// whose canonical forms agree are answered alike.
pub proof fn lemma_path_identity_law(
    pre1: Loader,
    pre2: Loader,
    c1: Vec<u8>,
    c2: Vec<u8>,
    post1: Loader,
    post2: Loader,
    a1: Action,
    a2: Action,
)
    requires
        pre1.frames@ == pre2.frames@,
        pre1.mode matches Mode::AwaitCanon { .. },
        pre2.mode matches Mode::AwaitCanon { .. },
        c1@ == c2@,
        on_event_post(pre1, Event::CanonicalizeOk(c1), post1, a1),
        on_event_post(pre2, Event::CanonicalizeOk(c2), post2, a2),
    ensures
        (a1 matches Action::Fail(Error::CyclicDependency(_, _))) <==> (a2 matches Action::Fail(
            Error::CyclicDependency(_, _),
        )),
{
}

} // verus!
