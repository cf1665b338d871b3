//! Locating every inclusion directive inside a text buffer.
//!
//! The grammar of a directive expression is a dollar sign and an opening
//! brace, the seven-letter directive keyword, optionally the seven-character
//! indentation marker, an opening parenthesis, a double-quoted path that may
//! not itself contain a double quote, a closing parenthesis, and a closing
//! brace.  The run of backslashes immediately before the expression is its
//! escape run, and for the indentation-preserving variant the run of
//! horizontal whitespace reaching back to the start of the line is captured
//! as the indentation.
//!
//! The scan is a single left-to-right pass: at the leftmost expression
//! match, one directive is produced and the scan continues after it, so that
//! text inside a matched expression is never matched again.  All matches are
//! enumerated before any substitution happens, because substitution changes
//! buffer offsets.

use crate::includes::{wf_in, Include, IncludeModel};
use crate::{
    append_range,
    BACKSLASH,
    CLOSE_BRACE,
    CLOSE_PAREN,
    DOLLAR,
    NEWLINE,
    OPEN_BRACE,
    OPEN_PAREN,
    QUOTE,
    SPACE,
    TAB,
    UNDERSCORE,
};
use vstd::prelude::*;

verus! {

/// The directive keyword opens at `i`: a dollar, a brace, and the keyword's
/// seven letters.
pub open spec fn kw_at(s: Seq<u8>, i: int) -> bool {
    &&& 0 <= i
    &&& i + 9 <= s.len()
    &&& s[i] == DOLLAR
    &&& s[i + 1] == OPEN_BRACE
    &&& s[i + 2] == 105
    &&& s[i + 3] == 110
    &&& s[i + 4] == 99
    &&& s[i + 5] == 108
    &&& s[i + 6] == 117
    &&& s[i + 7] == 100
    &&& s[i + 8] == 101
}

/// The indentation marker (an underscore and six letters) stands at `i`.
pub open spec fn indent_marker_at(s: Seq<u8>, i: int) -> bool {
    &&& 0 <= i
    &&& i + 7 <= s.len()
    &&& s[i] == UNDERSCORE
    &&& s[i + 1] == 105
    &&& s[i + 2] == 110
    &&& s[i + 3] == 100
    &&& s[i + 4] == 101
    &&& s[i + 5] == 110
    &&& s[i + 6] == 116
}

/// An expression starting at `i` uses the indentation-preserving variant.
pub open spec fn variant_indent(s: Seq<u8>, i: int) -> bool {
    kw_at(s, i) && indent_marker_at(s, i + 9)
}

/// Where the opening parenthesis of an expression starting at `i` stands.
pub open spec fn open_pos(s: Seq<u8>, i: int) -> int {
    if variant_indent(s, i) {
        i + 16
    } else {
        i + 9
    }
}

/// The first double quote at or after `j`, if any.
pub open spec fn find_quote(s: Seq<u8>, j: int) -> Option<int>
    decreases s.len() - j,
{
    if j < 0 || j >= s.len() {
        None
    } else if s[j] == QUOTE {
        Some(j)
    } else {
        find_quote(s, j + 1)
    }
}

/// A full directive expression stands at `i`: keyword, optional marker, an
/// opening parenthesis and quote, a quote-free path, and the closing quote,
/// parenthesis and brace.
pub open spec fn is_expr_at(s: Seq<u8>, i: int) -> bool {
    &&& kw_at(s, i)
    &&& open_pos(s, i) + 2 <= s.len()
    &&& s[open_pos(s, i)] == OPEN_PAREN
    &&& s[open_pos(s, i) + 1] == QUOTE
    &&& match find_quote(s, open_pos(s, i) + 2) {
        Some(q) => q + 3 <= s.len() && s[q + 1] == CLOSE_PAREN && s[q + 2] == CLOSE_BRACE,
        None => false,
    }
}

/// The closing quote of the expression at `i` (meaningful when one is there).
pub open spec fn quote_pos(s: Seq<u8>, i: int) -> int {
    match find_quote(s, open_pos(s, i) + 2) {
        Some(q) => q,
        None => -1,
    }
}

/// The start of the run of backslashes that ends just before `i`.
pub open spec fn bs_run_start(s: Seq<u8>, i: int) -> int
    decreases i,
{
    if 0 < i <= s.len() && s[i - 1] == BACKSLASH {
        bs_run_start(s, i - 1)
    } else {
        i
    }
}

/// The start of the line that position `b` lies on.
pub open spec fn line_start(s: Seq<u8>, b: int) -> int
    decreases b,
{
    if 0 < b <= s.len() && s[b - 1] != NEWLINE {
        line_start(s, b - 1)
    } else {
        b
    }
}

/// A space or a horizontal tab.
pub open spec fn horizontal_ws(c: u8) -> bool {
    c == SPACE || c == TAB
}

/// Only horizontal whitespace stands between the start of the line and `b`.
pub open spec fn ws_from_line_start(s: Seq<u8>, b: int) -> bool {
    forall|k: int| line_start(s, b) <= k < b ==> horizontal_ws(#[trigger] s[k])
}

/// The indentation the expression at `i` captures: for the
/// indentation-preserving variant, the whitespace run from the start of the
/// line when nothing else precedes the backslash run on that line, and the
/// empty sequence otherwise; the plain variant captures none.
pub open spec fn captured_indentation(s: Seq<u8>, i: int) -> Option<Seq<u8>> {
    if variant_indent(s, i) {
        let b = bs_run_start(s, i);
        if ws_from_line_start(s, b) {
            Some(s.subrange(line_start(s, b), b))
        } else {
            Some(Seq::empty())
        }
    } else {
        None
    }
}

/// Everything a directive expression at `i` describes.
pub open spec fn match_model(s: Seq<u8>, i: int) -> IncludeModel {
    IncludeModel {
        path: s.subrange(open_pos(s, i) + 2, quote_pos(s, i)),
        bs_start: bs_run_start(s, i),
        bs_end: i,
        start: i,
        end: quote_pos(s, i) + 3,
        indentation: captured_indentation(s, i),
    }
}

/// The position of the leftmost directive expression at or after `i`.
pub open spec fn first_expr_from(s: Seq<u8>, i: int) -> Option<int>
    decreases s.len() - i,
{
    if i < 0 || i >= s.len() {
        None
    } else if is_expr_at(s, i) {
        Some(i)
    } else {
        first_expr_from(s, i + 1)
    }
}

/// All directives of `s` from position `i` on, leftmost first, each scan
/// step continuing after the matched expression.
pub open spec fn scan_from(s: Seq<u8>, i: int) -> Seq<IncludeModel>
    decreases s.len() - i,
    via scan_from_decreases
{
    match first_expr_from(s, i) {
        None => Seq::empty(),
        Some(p) => seq![match_model(s, p)] + scan_from(s, quote_pos(s, p) + 3),
    }
}

#[via_fn]
proof fn scan_from_decreases(s: Seq<u8>, i: int) {
    match first_expr_from(s, i) {
        None => {},
        Some(p) => {
            lemma_first_expr_from(s, i);
            lemma_expr_geometry(s, p);
        },
    }
}

/// What a found (or missing) quote means for the characters around it.
pub proof fn lemma_find_quote(s: Seq<u8>, j: int)
    requires
        0 <= j,
    ensures
        match find_quote(s, j) {
            Some(q) => j <= q < s.len() && s[q] == QUOTE && (forall|k: int|
                j <= k < q ==> s[k] != QUOTE),
            None => forall|k: int| j <= k < s.len() ==> s[k] != QUOTE,
        },
    decreases s.len() - j,
{
    if j < s.len() && s[j] != QUOTE {
        lemma_find_quote(s, j + 1);
    }
}

/// The scan's continuation point lies well past the match start and inside
/// the buffer, and the expression ends with the closing brace.
pub proof fn lemma_expr_geometry(s: Seq<u8>, i: int)
    requires
        is_expr_at(s, i),
    ensures
        i + 11 <= open_pos(s, i) + 2 <= quote_pos(s, i),
        quote_pos(s, i) + 3 <= s.len(),
        s[quote_pos(s, i) + 2] == CLOSE_BRACE,
{
    lemma_find_quote(s, open_pos(s, i) + 2);
}

/// The backslash run before `p` cannot reach back past a position whose
/// preceding character is no backslash.
pub proof fn lemma_bs_run_start(s: Seq<u8>, lo: int, p: int)
    requires
        0 <= lo <= p <= s.len(),
        lo == 0 || s[lo - 1] != BACKSLASH,
    ensures
        lo <= bs_run_start(s, p) <= p,
    decreases p,
{
    if p > lo && s[p - 1] == BACKSLASH {
        lemma_bs_run_start(s, lo, p - 1);
    }
}

/// What the leftmost match position means: it is a match, and nothing
/// before it is.
pub proof fn lemma_first_expr_from(s: Seq<u8>, i: int)
    requires
        0 <= i,
    ensures
        match first_expr_from(s, i) {
            Some(p) => i <= p < s.len() && is_expr_at(s, p) && (forall|k: int|
                i <= k < p ==> !is_expr_at(s, k)),
            None => forall|k: int| i <= k < s.len() ==> !is_expr_at(s, k),
        },
    decreases s.len() - i,
{
    if i < s.len() && !is_expr_at(s, i) {
        lemma_first_expr_from(s, i + 1);
    }
}

/// The scan yields well-formed, ordered, pairwise disjoint spans: each
/// match's backslash run starts at or after the scan position, its spans are
/// ordered and lie in the buffer, and every match ends before the backslash
/// run of the next begins.
pub proof fn lemma_scan_wf(s: Seq<u8>, i: int)
    requires
        0 <= i <= s.len(),
        i == 0 || s[i - 1] != BACKSLASH,
    ensures
        ({
            let r = scan_from(s, i);
            &&& forall|k: int|
                0 <= k < r.len() ==> wf_in(#[trigger] r[k], s.len() as int) && r[k].bs_end
                    == r[k].start && i <= r[k].bs_start && r[k].start < r[k].end
            &&& forall|k: int, l: int|
                0 <= k < l < r.len() ==> #[trigger] r[k].end <= #[trigger] r[l].bs_start
        }),
    decreases s.len() - i,
{
    let r = scan_from(s, i);
    lemma_first_expr_from(s, i);
    match first_expr_from(s, i) {
        None => {},
        Some(p) => {
            lemma_expr_geometry(s, p);
            lemma_bs_run_start(s, i, p);
            let m0 = match_model(s, p);
            let cont = quote_pos(s, p) + 3;
            assert(s[cont - 1] == CLOSE_BRACE);
            lemma_scan_wf(s, cont);
            let rest = scan_from(s, cont);
            assert(r == seq![m0] + rest);
            assert(r[0] == m0);
            assert(forall|k: int| 1 <= k < r.len() ==> r[k] == rest[k - 1]);
            assert(wf_in(m0, s.len() as int));
        },
    }
}

/// Well-formedness of a list of located directives with respect to a buffer
/// of length `len`: spans are inside the buffer, the backslash run of each
/// abuts its expression, and the directives are ordered left to right
/// without overlap, so that applying them from the last to the first leaves
/// every pending span valid.
pub open spec fn wf_includes(incs: Seq<Include>, len: int) -> bool {
    &&& forall|k: int|
        0 <= k < incs.len() ==> wf_in(#[trigger] incs[k]@, len) && incs[k]@.bs_end
            == incs[k]@.start && incs[k]@.start < incs[k]@.end
    &&& forall|k: int, l: int|
        0 <= k < l < incs.len() ==> #[trigger] incs[k]@.end <= #[trigger] incs[l]@.bs_start
}

/// Checks whether a directive expression starts at `i` and, when one does,
/// gathers everything it describes.
fn try_match_at(text: &Vec<u8>, i: usize) -> (r: Option<Include>)
    requires
        i < text@.len(),
    ensures
        match r {
            Some(inc) => is_expr_at(text@, i as int) && inc@ == match_model(text@, i as int),
            None => !is_expr_at(text@, i as int),
        },
{
    let ghost s = text@;
    let n = text.len();
    if n - i < 14 {
        proof {
            if is_expr_at(s, i as int) {
                lemma_expr_geometry(s, i as int);
            }
        }
        return None;
    }
    if !(text[i] == DOLLAR && text[i + 1] == OPEN_BRACE && text[i + 2] == 105 && text[i + 3] == 110
        && text[i + 4] == 99 && text[i + 5] == 108 && text[i + 6] == 117 && text[i + 7] == 100
        && text[i + 8] == 101) {
        return None;
    }
    let is_indent: bool;
    if text[i + 9] == UNDERSCORE {
        if n - i < 21 {
            proof {
                if is_expr_at(s, i as int) {
                    lemma_expr_geometry(s, i as int);
                }
            }
            return None;
        }
        if text[i + 10] == 105 && text[i + 11] == 110 && text[i + 12] == 100 && text[i + 13] == 101
            && text[i + 14] == 110 && text[i + 15] == 116 {
            is_indent = true;
        } else {
            return None;
        }
    } else {
        is_indent = false;
    }
    let op: usize = if is_indent {
        i + 16
    } else {
        i + 9
    };
    proof {
        assert(op as int == open_pos(s, i as int));
    }
    if !(text[op] == OPEN_PAREN && text[op + 1] == QUOTE) {
        return None;
    }
    let mut q: usize = op + 2;
    while q < n && text[q] != QUOTE
        invariant
            op + 2 <= q <= n,
            n == text@.len(),
            find_quote(text@, op as int + 2) == find_quote(text@, q as int),
        decreases n - q,
    {
        q += 1;
    }
    if q == n {
        return None;
    }
    proof {
        assert(find_quote(s, op as int + 2) == Some(q as int));
    }
    if n - q < 3 {
        return None;
    }
    if !(text[q + 1] == CLOSE_PAREN && text[q + 2] == CLOSE_BRACE) {
        return None;
    }
    // the expression is complete; gather the backslash run, the line start,
    // and the captured indentation
    let mut b: usize = i;
    while b > 0 && text[b - 1] == BACKSLASH
        invariant
            b <= i < text@.len(),
            bs_run_start(text@, i as int) == bs_run_start(text@, b as int),
        decreases b,
    {
        b -= 1;
    }
    proof {
        assert(bs_run_start(s, i as int) == b as int);
    }
    let indentation: Option<Vec<u8>>;
    if is_indent {
        let mut ls: usize = b;
        while ls > 0 && text[ls - 1] != NEWLINE
            invariant
                ls <= b,
                b < text@.len(),
                line_start(text@, b as int) == line_start(text@, ls as int),
            decreases ls,
        {
            ls -= 1;
        }
        proof {
            assert(line_start(s, b as int) == ls as int);
        }
        let mut ws_ok = true;
        let mut k: usize = ls;
        while k < b
            invariant
                ls <= k <= b < text@.len(),
                ws_ok ==> forall|t: int| ls <= t < k ==> horizontal_ws(#[trigger] text@[t]),
                !ws_ok ==> exists|t: int| ls <= t < k && !horizontal_ws(#[trigger] text@[t]),
            decreases b - k,
        {
            if !(text[k] == SPACE || text[k] == TAB) {
                ws_ok = false;
            }
            k += 1;
        }
        if ws_ok {
            let mut iv: Vec<u8> = Vec::new();
            append_range(&mut iv, text, ls, b);
            proof {
                assert(ws_from_line_start(s, b as int));
                assert(iv@ =~= s.subrange(ls as int, b as int));
            }
            indentation = Some(iv);
        } else {
            proof {
                assert(!ws_from_line_start(s, b as int));
            }
            indentation = Some(Vec::new());
        }
    } else {
        indentation = None;
    }
    let mut pv: Vec<u8> = Vec::new();
    append_range(&mut pv, text, op + 2, q);
    proof {
        assert(pv@ =~= s.subrange(op as int + 2, q as int));
    }
    let inc = Include::new(i, q + 3, pv, b, i, indentation);
    proof {
        assert(inc@ =~= match_model(s, i as int));
    }
    Some(inc)
}

/// Finds every directive of `text` in one left-to-right pass, exactly the
/// matches of `scan_from`, leftmost first.  Substitution must afterwards be
/// applied from the last directive to the first, so that the earlier spans
/// stay valid while the buffer changes length.
pub fn find_includes(text: &Vec<u8>) -> (r: Vec<Include>)
    ensures
        r@.len() == scan_from(text@, 0).len(),
        forall|k: int| 0 <= k < r@.len() ==> #[trigger] r@[k]@ == scan_from(text@, 0)[k],
        wf_includes(r@, text@.len() as int),
{
    let ghost s = text@;
    let mut out: Vec<Include> = Vec::new();
    let ghost mut done: Seq<IncludeModel> = Seq::empty();
    let mut i: usize = 0;
    proof {
        assert(done + scan_from(s, 0) =~= scan_from(s, 0));
    }
    while i < text.len()
        invariant
            i <= text@.len(),
            s == text@,
            done + scan_from(s, i as int) == scan_from(s, 0),
            out@.len() == done.len(),
            forall|k: int| 0 <= k < done.len() ==> #[trigger] out@[k]@ == done[k],
        decreases text@.len() - i,
    {
        match try_match_at(text, i) {
            Some(inc) => {
                let (_st, en) = inc.range();
                proof {
                    lemma_expr_geometry(s, i as int);
                    assert(first_expr_from(s, i as int) == Some(i as int));
                    assert(scan_from(s, i as int) == seq![match_model(s, i as int)] + scan_from(
                        s,
                        quote_pos(s, i as int) + 3,
                    ));
                    assert(en as int == quote_pos(s, i as int) + 3);
                    assert((done + scan_from(s, i as int)).len() == done.len() + scan_from(
                        s,
                        i as int,
                    ).len());
                }
                out.push(inc);
                proof {
                    let prev = done;
                    done = done.push(inc@);
                    assert(done + scan_from(s, en as int) =~= prev + scan_from(s, i as int));
                }
                i = en;
            },
            None => {
                proof {
                    assert(first_expr_from(s, i as int) == first_expr_from(s, i as int + 1));
                    assert(scan_from(s, i as int) == scan_from(s, i as int + 1));
                }
                i += 1;
            },
        }
    }
    proof {
        assert(first_expr_from(s, i as int) is None);
        assert(scan_from(s, i as int) =~= Seq::<IncludeModel>::empty());
        assert(done =~= done + scan_from(s, i as int));
        lemma_scan_wf(s, 0);
        assert forall|k: int|
            0 <= k < out@.len() implies wf_in(#[trigger] out@[k]@, s.len() as int) && out@[k]@.bs_end
            == out@[k]@.start && out@[k]@.start < out@[k]@.end by {
            assert(out@[k]@ == scan_from(s, 0)[k]);
        }
        assert forall|k: int, l: int|
            0 <= k < l < out@.len() implies #[trigger] out@[k]@.end
            <= #[trigger] out@[l]@.bs_start by {
            assert(out@[k]@ == scan_from(s, 0)[k]);
            assert(out@[l]@ == scan_from(s, 0)[l]);
        }
    }
    out
}

} // verus!
