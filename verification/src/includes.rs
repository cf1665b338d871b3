//! One located inclusion directive and its in-place substitution.
//!
//! An [`Include`] describes one directive occurrence inside a text buffer:
//! the byte span of the directive expression, the span of the escape
//! backslashes immediately before it, the raw path it names, and the
//! indentation captured for the indentation-preserving variant.
//!
//! Substitution replaces the expression span with the produced text (after
//! optional re-indentation and the removal of at most one trailing newline)
//! when the backslash run is of even length, leaves the expression untouched
//! when it is odd, and in both cases collapses the backslash run to half its
//! length, rounded down.

use crate::{append_range, BACKSLASH, CARRIAGE, NEWLINE};
use vstd::prelude::*;

verus! {

/// The mathematical content of an [`Include`]: spans as integers, the path
/// and indentation as byte sequences.
#[verifier::ext_equal]
pub struct IncludeModel {
    /// Raw (unresolved) path the directive names.
    pub path: Seq<u8>,
    /// First index of the escape backslash run.
    pub bs_start: int,
    /// One past the last index of the backslash run.
    pub bs_end: int,
    /// First index of the directive expression.
    pub start: int,
    /// One past the last index of the directive expression.
    pub end: int,
    /// Captured leading whitespace, present only for the
    /// indentation-preserving variant.
    pub indentation: Option<Seq<u8>>,
}

/// A directive is escaped when its backslash run has odd length.
pub open spec fn escaped(m: IncludeModel) -> bool {
    (m.bs_end - m.bs_start) % 2 == 1
}

/// How many backslashes of the run remain after substitution.
pub open spec fn kept_backslashes(m: IncludeModel) -> int {
    (m.bs_end - m.bs_start) / 2
}

/// The spans are ordered and lie inside a buffer of length `len`.
pub open spec fn wf_in(m: IncludeModel, len: int) -> bool {
    0 <= m.bs_start <= m.bs_end <= m.start <= m.end <= len
}

/// Drops exactly one trailing newline, if the text ends with one.
pub open spec fn trim_trailing_newline(s: Seq<u8>) -> Seq<u8> {
    if s.len() > 0 && s[s.len() - 1] == NEWLINE {
        s.drop_last()
    } else {
        s
    }
}

/// Inserts `ind` after every line break of `s`, so that every line except
/// the first is prefixed with it.  A line break is a newline or a carriage
/// return followed by a newline (normalized to a bare newline), and a final
/// line break is dropped together with the empty line it would start.
pub open spec fn indent_applied(s: Seq<u8>, ind: Seq<u8>) -> Seq<u8>
    decreases s.len(),
{
    if s.len() == 0 {
        Seq::empty()
    } else if s[0] == NEWLINE {
        if s.len() == 1 {
            Seq::empty()
        } else {
            seq![NEWLINE] + ind + indent_applied(s.skip(1), ind)
        }
    } else if s[0] == CARRIAGE && s.len() >= 2 && s[1] == NEWLINE {
        if s.len() == 2 {
            Seq::empty()
        } else {
            seq![NEWLINE] + ind + indent_applied(s.skip(2), ind)
        }
    } else {
        seq![s[0]] + indent_applied(s.skip(1), ind)
    }
}

/// The indentation that is actually applied: only a captured, non-empty one.
pub open spec fn effective_indentation(ind: Option<Seq<u8>>) -> Option<Seq<u8>> {
    match ind {
        Some(s) => if s.len() > 0 {
            Some(s)
        } else {
            None
        },
        None => None,
    }
}

/// The text spliced in for an active directive: re-indented when an
/// indentation was captured, then stripped of at most one trailing newline.
pub open spec fn processed(text: Seq<u8>, ind: Option<Seq<u8>>) -> Seq<u8> {
    match effective_indentation(ind) {
        Some(i) => trim_trailing_newline(indent_applied(text, i)),
        None => trim_trailing_newline(text),
    }
}

/// The buffer after one directive has been handled.  An active directive
/// (`produced` present) has its expression span replaced by the processed
/// text; an escaped one keeps it.  Either way the backslash run is collapsed
/// to `kept_backslashes` of its characters.
pub open spec fn spliced(content: Seq<u8>, m: IncludeModel, produced: Option<Seq<u8>>) -> Seq<u8> {
    match produced {
        Some(text) => content.take(m.bs_start) + content.subrange(
            m.bs_end - kept_backslashes(m),
            m.start,
        ) + processed(text, m.indentation) + content.skip(m.end),
        None => content.take(m.bs_start) + content.skip(m.bs_end - kept_backslashes(m)),
    }
}

/// One located directive occurrence inside a text buffer.
#[derive(Debug)]
pub struct Include {
    path: Vec<u8>,
    bs_start: usize,
    bs_end: usize,
    start: usize,
    end: usize,
    indentation: Option<Vec<u8>>,
}

impl View for Include {
    type V = IncludeModel;

    closed spec fn view(&self) -> IncludeModel {
        IncludeModel {
            path: self.path@,
            bs_start: self.bs_start as int,
            bs_end: self.bs_end as int,
            start: self.start as int,
            end: self.end as int,
            indentation: match self.indentation {
                Some(v) => Some(v@),
                None => None,
            },
        }
    }
}

impl Include {
    /// Describes one directive occurrence: the expression span
    /// `start .. end`, the raw path it names, the escape backslash span
    /// `bs_start .. bs_end`, and the captured indentation, if any.
    pub fn new(
        start: usize,
        end: usize,
        path: Vec<u8>,
        bs_start: usize,
        bs_end: usize,
        indentation: Option<Vec<u8>>,
    ) -> (r: Include)
        ensures
            r@.start == start as int,
            r@.end == end as int,
            r@.path == path@,
            r@.bs_start == bs_start as int,
            r@.bs_end == bs_end as int,
            r@.indentation == (match indentation {
                Some(v) => Some(v@),
                None => None::<Seq<u8>>,
            }),
    {
        Include { path, bs_start, bs_end, start, end, indentation }
    }

    /// The raw path the directive names.
    pub fn path(&self) -> (r: &Vec<u8>)
        ensures
            r@ == self@.path,
    {
        &self.path
    }

    /// The byte span of the directive expression.
    pub fn range(&self) -> (r: (usize, usize))
        ensures
            r.0 as int == self@.start,
            r.1 as int == self@.end,
    {
        (self.start, self.end)
    }

    /// The byte span of the escape backslash run.
    pub fn backslashes(&self) -> (r: (usize, usize))
        ensures
            r.0 as int == self@.bs_start,
            r.1 as int == self@.bs_end,
    {
        (self.bs_start, self.bs_end)
    }

    /// The indentation that substitution will apply: the captured one, and
    /// only when it is not empty.
    pub fn indentation(&self) -> (r: Option<&Vec<u8>>)
        ensures
            match r {
                Some(v) => effective_indentation(self@.indentation) == Some(v@),
                None => effective_indentation(self@.indentation) is None,
            },
    {
        match &self.indentation {
            Some(v) => {
                if v.len() > 0 {
                    Some(v)
                } else {
                    None
                }
            },
            None => None,
        }
    }

    /// Whether the directive is escaped (odd backslash run) and will not be
    /// expanded.
    pub fn is_escaped(&self) -> (r: bool)
        requires
            self@.bs_start <= self@.bs_end,
        ensures
            r == escaped(self@),
    {
        (self.bs_end - self.bs_start) % 2 == 1
    }

    /// Performs this directive's substitution in `target`.  `produced` is
    /// the fully resolved text of the referenced file and must be given
    /// exactly when the directive is active; an escaped directive only has
    /// its backslash run collapsed.
    pub fn replace(&self, target: &mut Vec<u8>, produced: Option<&Vec<u8>>)
        requires
            wf_in(self@, old(target)@.len() as int),
            produced is Some <==> !escaped(self@),
        ensures
            final(target)@ == spliced(
                old(target)@,
                self@,
                match produced {
                    Some(t) => Some(t@),
                    None => None,
                },
            ),
    {
        let ghost orig = target@;
        match produced {
            Some(text) => {
                let insert = self.apply_processing(text);
                let mut out: Vec<u8> = Vec::new();
                append_range(&mut out, target, 0, self.start);
                append_range(&mut out, &insert, 0, insert.len());
                append_range(&mut out, target, self.end, target.len());
                *target = out;
                proof {
                    assert(insert@.subrange(0, insert@.len() as int) =~= insert@);
                    assert(target@ =~= orig.take(self@.start) + processed(
                        text@,
                        self@.indentation,
                    ) + orig.skip(self@.end));
                }
            },
            None => {},
        }
        let ghost mid = target@;
        escape_backslashes(target, self.bs_start, self.bs_end);
        proof {
            let m = self@;
            let cut = m.bs_end - kept_backslashes(m);
            match produced {
                Some(text) => {
                    assert(mid.take(m.bs_start) =~= orig.take(m.bs_start));
                    assert(mid.skip(cut) =~= orig.subrange(cut, m.start) + processed(
                        text@,
                        m.indentation,
                    ) + orig.skip(m.end));
                    assert(target@ =~= spliced(orig, m, Some(text@)));
                },
                None => {
                    assert(target@ =~= spliced(orig, m, None));
                },
            }
        }
    }

    /// Applies the captured indentation, then trims at most one trailing
    /// newline, yielding exactly the text that substitution splices in.
    fn apply_processing(&self, text: &Vec<u8>) -> (r: Vec<u8>)
        ensures
            r@ == processed(text@, self@.indentation),
    {
        let mut work: Vec<u8>;
        match self.indentation() {
            Some(ind) => {
                work = apply_indentation(text, ind);
            },
            None => {
                work = Vec::new();
                append_range(&mut work, text, 0, text.len());
                proof {
                    assert(work@ =~= text@);
                }
            },
        }
        let ghost pre_trim = work@;
        if work.len() > 0 && work[work.len() - 1] == NEWLINE {
            work.pop();
        }
        proof {
            assert(work@ =~= trim_trailing_newline(pre_trim));
        }
        work
    }
}

/// Prefixes every line of `text` except the first with `ind`, exactly as
/// `indent_applied` states it.
fn apply_indentation(text: &Vec<u8>, ind: &Vec<u8>) -> (r: Vec<u8>)
    ensures
        r@ == indent_applied(text@, ind@),
{
    let mut out: Vec<u8> = Vec::new();
    let mut i: usize = 0;
    proof {
        assert(text@.skip(0) =~= text@);
    }
    while i < text.len()
        invariant
            i <= text@.len(),
            out@ + indent_applied(text@.skip(i as int), ind@) == indent_applied(text@, ind@),
        decreases text@.len() - i,
    {
        let ghost rest = text@.skip(i as int);
        let c = text[i];
        if c == NEWLINE {
            if i + 1 == text.len() {
                proof {
                    assert(indent_applied(rest, ind@) =~= Seq::<u8>::empty());
                    assert(text@.skip(i as int + 1) =~= Seq::<u8>::empty());
                    assert(out@ + indent_applied(text@.skip(i as int + 1), ind@) =~= out@
                        + indent_applied(rest, ind@));
                }
                i += 1;
            } else {
                let ghost prev = out@;
                out.push(NEWLINE);
                append_range(&mut out, ind, 0, ind.len());
                proof {
                    assert(ind@.subrange(0, ind@.len() as int) =~= ind@);
                    assert(rest.skip(1) =~= text@.skip(i as int + 1));
                    assert(indent_applied(rest, ind@) == seq![NEWLINE] + ind@ + indent_applied(
                        text@.skip(i as int + 1),
                        ind@,
                    ));
                    assert(out@ =~= prev + seq![NEWLINE] + ind@);
                    assert(out@ + indent_applied(text@.skip(i as int + 1), ind@) =~= prev
                        + indent_applied(rest, ind@));
                }
                i += 1;
            }
        } else if c == CARRIAGE && i + 1 < text.len() && text[i + 1] == NEWLINE {
            if i + 2 == text.len() {
                proof {
                    assert(indent_applied(rest, ind@) =~= Seq::<u8>::empty());
                    assert(text@.skip(i as int + 2) =~= Seq::<u8>::empty());
                    assert(out@ + indent_applied(text@.skip(i as int + 2), ind@) =~= out@
                        + indent_applied(rest, ind@));
                }
                i += 2;
            } else {
                let ghost prev = out@;
                out.push(NEWLINE);
                append_range(&mut out, ind, 0, ind.len());
                proof {
                    assert(ind@.subrange(0, ind@.len() as int) =~= ind@);
                    assert(rest.skip(2) =~= text@.skip(i as int + 2));
                    assert(indent_applied(rest, ind@) == seq![NEWLINE] + ind@ + indent_applied(
                        text@.skip(i as int + 2),
                        ind@,
                    ));
                    assert(out@ =~= prev + seq![NEWLINE] + ind@);
                    assert(out@ + indent_applied(text@.skip(i as int + 2), ind@) =~= prev
                        + indent_applied(rest, ind@));
                }
                i += 2;
            }
        } else {
            let ghost prev = out@;
            out.push(c);
            proof {
                assert(rest.skip(1) =~= text@.skip(i as int + 1));
                assert(indent_applied(rest, ind@) == seq![c] + indent_applied(
                    text@.skip(i as int + 1),
                    ind@,
                ));
                assert(out@ =~= prev + seq![c]);
                assert(out@ + indent_applied(text@.skip(i as int + 1), ind@) =~= prev
                    + indent_applied(rest, ind@));
            }
            i += 1;
        }
    }
    proof {
        assert(text@.skip(text@.len() as int) =~= Seq::<u8>::empty());
        assert(out@ + Seq::<u8>::empty() =~= out@);
    }
    out
}

/// Substitution law: an active directive without escape backslashes and
/// without captured indentation replaces exactly its expression span with
/// the produced text, minus at most one trailing newline — and applies no
/// line prefixing at all.
pub proof fn lemma_active_substitution(content: Seq<u8>, m: IncludeModel, text: Seq<u8>)
    requires
        wf_in(m, content.len() as int),
        m.bs_start == m.bs_end,
        effective_indentation(m.indentation) is None,
    ensures
        spliced(content, m, Some(text)) == content.take(m.start) + trim_trailing_newline(text)
            + content.skip(m.end),
{
    assert(spliced(content, m, Some(text)) =~= content.take(m.start) + trim_trailing_newline(text)
        + content.skip(m.end));
}

/// Escaping law: a directive preceded by an odd run of `n` backslashes is
/// never expanded — exactly `n / 2` backslashes remain, followed by the
/// directive text unchanged, and the rest of the buffer is untouched.
pub proof fn lemma_escaping_law(content: Seq<u8>, m: IncludeModel)
    requires
        wf_in(m, content.len() as int),
        m.bs_end == m.start,
        escaped(m),
        forall|k: int| m.bs_start <= k < m.bs_end ==> content[k] == BACKSLASH,
    ensures
        ({
            let r = spliced(content, m, None);
            let kept = kept_backslashes(m);
            &&& r.len() == content.len() - (m.bs_end - m.bs_start) + kept
            &&& r.take(m.bs_start) == content.take(m.bs_start)
            &&& (forall|k: int| m.bs_start <= k < m.bs_start + kept ==> r[k] == BACKSLASH)
            &&& r.subrange(m.bs_start + kept, m.bs_start + kept + (m.end - m.start))
                == content.subrange(m.start, m.end)
            &&& r.skip(m.bs_start + kept + (m.end - m.start)) == content.skip(m.end)
        }),
{
    let r = spliced(content, m, None);
    let kept = kept_backslashes(m);
    let cut = m.bs_end - kept;
    assert(r =~= content.take(m.bs_start) + content.skip(cut));
    assert(r.take(m.bs_start) =~= content.take(m.bs_start));
    assert forall|k: int| m.bs_start <= k < m.bs_start + kept implies r[k] == BACKSLASH by {
        assert(r[k] == content[cut + (k - m.bs_start)]);
    }
    assert(r.subrange(m.bs_start + kept, m.bs_start + kept + (m.end - m.start)) =~= content.subrange(
        m.start,
        m.end,
    ));
    assert(r.skip(m.bs_start + kept + (m.end - m.start)) =~= content.skip(m.end));
}

/// Indentation law, at one line break: when the produced text consists of a
/// first line, a newline, and a non-empty remainder, the applied indentation
/// leaves the first line alone, keeps the newline, and prefixes what follows
/// the break with exactly the captured whitespace.  Repeated at every break,
/// this prefixes every line except the first.
pub proof fn lemma_indentation_law(first: Seq<u8>, rest: Seq<u8>, ind: Seq<u8>)
    requires
        forall|k: int| 0 <= k < first.len() ==> first[k] != NEWLINE,
        first.len() == 0 || first[first.len() - 1] != CARRIAGE,
        rest.len() > 0,
    ensures
        indent_applied(first + seq![NEWLINE] + rest, ind) == first + seq![NEWLINE] + ind
            + indent_applied(rest, ind),
    decreases first.len(),
{
    let s = first + seq![NEWLINE] + rest;
    if first.len() == 0 {
        assert(s =~= seq![NEWLINE] + rest);
        assert(s[0] == NEWLINE && s.len() > 1);
        assert(s.skip(1) =~= rest);
        assert(indent_applied(s, ind) =~= first + seq![NEWLINE] + ind + indent_applied(rest, ind));
    } else {
        assert(s[0] == first[0]);
        assert(first[0] != NEWLINE);
        if first[0] == CARRIAGE {
            // the break cannot merge with a carriage return: the first line
            // does not end with one, and contains no newline of its own
            assert(first.len() >= 2);
            assert(s[1] == first[1]);
            assert(s[1] != NEWLINE);
        }
        let f2 = first.skip(1);
        assert(forall|k: int| 0 <= k < f2.len() ==> f2[k] != NEWLINE);
        assert(f2.len() == 0 || f2[f2.len() - 1] != CARRIAGE);
        lemma_indentation_law(f2, rest, ind);
        assert(s.skip(1) =~= f2 + seq![NEWLINE] + rest);
        assert(indent_applied(s, ind) == seq![s[0]] + indent_applied(s.skip(1), ind));
        assert(seq![s[0]] + (f2 + seq![NEWLINE] + ind + indent_applied(rest, ind)) =~= first
            + seq![NEWLINE] + ind + indent_applied(rest, ind));
    }
}

/// Lines joined back together with a single newline between them.
pub open spec fn joined_lines(lines: Seq<Seq<u8>>) -> Seq<u8>
    decreases lines.len(),
{
    if lines.len() == 0 {
        Seq::empty()
    } else if lines.len() == 1 {
        lines[0]
    } else {
        lines[0] + seq![NEWLINE] + joined_lines(lines.skip(1))
    }
}

/// The same join, with `ind` prefixed to every line except the first.
pub open spec fn joined_indented(lines: Seq<Seq<u8>>, ind: Seq<u8>) -> Seq<u8>
    decreases lines.len(),
{
    if lines.len() == 0 {
        Seq::empty()
    } else if lines.len() == 1 {
        lines[0]
    } else {
        lines[0] + seq![NEWLINE] + ind + joined_indented(lines.skip(1), ind)
    }
}

/// Text without line breaks is left untouched by the indentation.
pub proof fn lemma_indent_applied_no_breaks(line: Seq<u8>, ind: Seq<u8>)
    requires
        forall|k: int| 0 <= k < line.len() ==> line[k] != NEWLINE,
    ensures
        indent_applied(line, ind) == line,
    decreases line.len(),
{
    if line.len() > 0 {
        assert(forall|k: int| 0 <= k < line.skip(1).len() ==> line.skip(1)[k] != NEWLINE);
        lemma_indent_applied_no_breaks(line.skip(1), ind);
        assert(seq![line[0]] + line.skip(1) =~= line);
    }
}

/// Indentation law, in full: however the produced text decomposes into
/// newline-free lines (the last one not empty, so that no trailing break is
/// involved), applying the indentation prefixes every line except the first
/// with exactly the captured whitespace and changes nothing else.
pub proof fn lemma_indentation_law_all_lines(lines: Seq<Seq<u8>>, ind: Seq<u8>)
    requires
        lines.len() > 0,
        forall|i: int, k: int|
            0 <= i < lines.len() && 0 <= k < lines[i].len() ==> #[trigger] lines[i][k] != NEWLINE,
        forall|i: int|
            0 <= i < lines.len() ==> ((#[trigger] lines[i]).len() == 0 || lines[i][lines[i].len()
                - 1] != CARRIAGE),
        lines.last().len() > 0,
    ensures
        indent_applied(joined_lines(lines), ind) == joined_indented(lines, ind),
    decreases lines.len(),
{
    if lines.len() == 1 {
        lemma_indent_applied_no_breaks(lines[0], ind);
    } else {
        let tail = lines.skip(1);
        assert(forall|i: int| 0 <= i < tail.len() ==> tail[i] == lines[i + 1]);
        assert(tail.last() == lines.last());
        if tail.len() >= 2 {
            assert(joined_lines(tail) == tail[0] + seq![NEWLINE] + joined_lines(tail.skip(1)));
            assert(joined_lines(tail).len() > 0);
        } else {
            assert(joined_lines(tail) == tail[0]);
        }
        lemma_indentation_law(lines[0], joined_lines(tail), ind);
        lemma_indentation_law_all_lines(tail, ind);
    }
}

/// Indentation law, at the final line break: a break that ends the produced
/// text starts no line, so it is dropped rather than followed by the
/// indentation.
pub proof fn lemma_trailing_break_dropped(first: Seq<u8>, ind: Seq<u8>)
    requires
        forall|k: int| 0 <= k < first.len() ==> first[k] != NEWLINE,
        first.len() == 0 || first[first.len() - 1] != CARRIAGE,
    ensures
        indent_applied(first + seq![NEWLINE], ind) == first,
    decreases first.len(),
{
    let s = first + seq![NEWLINE];
    if first.len() == 0 {
        assert(s =~= seq![NEWLINE]);
        assert(indent_applied(s, ind) =~= first);
    } else {
        assert(s[0] == first[0]);
        if first[0] == CARRIAGE {
            assert(first.len() >= 2);
            assert(s[1] == first[1]);
            assert(s[1] != NEWLINE);
        }
        let f2 = first.skip(1);
        assert(forall|k: int| 0 <= k < f2.len() ==> f2[k] != NEWLINE);
        assert(f2.len() == 0 || f2[f2.len() - 1] != CARRIAGE);
        lemma_trailing_break_dropped(f2, ind);
        assert(s.skip(1) =~= f2 + seq![NEWLINE]);
        assert(indent_applied(s, ind) == seq![s[0]] + indent_applied(s.skip(1), ind));
        assert(seq![s[0]] + f2 =~= first);
    }
}

/// Collapses the backslash run `bs_start .. bs_end` of `target` to half its
/// length (rounded down) by removing its leading characters.
pub fn escape_backslashes(target: &mut Vec<u8>, bs_start: usize, bs_end: usize)
    requires
        bs_start <= bs_end <= old(target)@.len(),
    ensures
        final(target)@ == old(target)@.take(bs_start as int) + old(target)@.skip(
            bs_end as int - (bs_end - bs_start) as int / 2,
        ),
{
    if bs_start == bs_end {
        proof {
            assert(target@ =~= target@.take(bs_start as int) + target@.skip(
                bs_end as int - (bs_end - bs_start) as int / 2,
            ));
        }
        return ;
    }
    let keep: usize = (bs_end - bs_start) / 2;
    let cut: usize = bs_end - keep;
    let mut out: Vec<u8> = Vec::new();
    append_range(&mut out, target, 0, bs_start);
    append_range(&mut out, target, cut, target.len());
    *target = out;
    proof {
        assert(target@ =~= old(target)@.take(bs_start as int) + old(target)@.skip(
            bs_end as int - (bs_end - bs_start) as int / 2,
        ));
    }
}

} // verus!
