//! The SQL editor's text logic: colored runs of a line, the selected text, and
//! the editing buffer with its selection.

use vstd::prelude::*;
use vstd::utf8::*;
use vstd::string::StringSliceAdditionalSpecFns;
use vstd::string::StrSliceExecFns;
use vstd::string::StringExecFns;
use unicode_segmentation::UnicodeSegmentation;
use crate::chars::{char_width, lemma_encode_take_step, lemma_encode_utf8_concat, lemma_prefix_boundary, utf8_width};
use crate::query::highlight::{HighlightSpan, build_line_starts, line_starts_of, lemma_line_starts_increasing};
use crate::text_motion::{byte_len_of_prefix, lemma_prefix_byte_len_le};

verus! {

broadcast use encode_utf8_valid_utf8, encode_utf8_decode_utf8, decode_utf8_encode_utf8;

/// A run of a line drawn in one color; `None` is the default text color.
#[derive(Debug, Clone, Copy, PartialEq, Eq)]
pub struct TextRun {
    pub len: usize,
    pub color: Option<u32>,
}

/// The larger of two integers.
pub open spec fn max_int(a: int, b: int) -> int {
    if a >= b { a } else { b }
}

/// The smaller of two integers.
pub open spec fn min_int(a: int, b: int) -> int {
    if a <= b { a } else { b }
}

/// The runs laid out by the first `k` spans on a line `[ls, ls + len)`, and the
/// line position reached; a gap before a span gets the default color.
pub open spec fn runs_state(ls: int, len: int, spans: Seq<HighlightSpan>, k: int) -> (Seq<TextRun>, int)
    decreases k,
{
    if k <= 0 {
        (Seq::empty(), 0)
    } else {
        let (runs, pos) = runs_state(ls, len, spans, k - 1);
        let sp = spans[k - 1];
        let a = max_int(sp.start as int, ls);
        let b = min_int(sp.end as int, ls + len);
        if a >= b {
            (runs, pos)
        } else {
            let la = a - ls;
            let lb = b - ls;
            let with_gap = if la > pos { runs.push(TextRun { len: (la - pos) as usize, color: None }) } else { runs };
            (with_gap.push(TextRun { len: (lb - la) as usize, color: Some(sp.color) }), lb)
        }
    }
}

/// The spans that reach the line come in order: each starts (within the line)
/// at or after the point where the previous one ended.
pub open spec fn spans_in_order(ls: int, len: int, spans: Seq<HighlightSpan>, k: int) -> bool
    decreases k,
{
    if k <= 0 {
        true
    } else {
        let sp = spans[k - 1];
        let a = max_int(sp.start as int, ls);
        let b = min_int(sp.end as int, ls + len);
        spans_in_order(ls, len, spans, k - 1) && (a < b ==> a - ls >= runs_state(ls, len, spans, k - 1).1)
    }
}

/// The runs of a line: the spans' runs, a final default run up to the line's
/// end, and a single empty run when nothing else was laid out.
pub open spec fn line_runs(ls: int, len: int, spans: Seq<HighlightSpan>) -> Seq<TextRun> {
    let (runs, pos) = runs_state(ls, len, spans, spans.len() as int);
    let all = if pos < len { runs.push(TextRun { len: (len - pos) as usize, color: None }) } else { runs };
    if all.len() == 0 { seq![TextRun { len: 0, color: None }] } else { all }
}

/// Total length of runs.
pub open spec fn runs_len(runs: Seq<TextRun>) -> int
    decreases runs.len(),
{
    if runs.len() == 0 {
        0
    } else {
        runs_len(runs.drop_last()) + runs.last().len
    }
}

proof fn lemma_runs_state(ls: int, len: int, spans: Seq<HighlightSpan>, k: int)
    requires
        0 <= k <= spans.len(),
        0 <= len <= usize::MAX,
        spans_in_order(ls, len, spans, k),
    ensures
        0 <= runs_state(ls, len, spans, k).1 <= len,
        runs_len(runs_state(ls, len, spans, k).0) == runs_state(ls, len, spans, k).1,
    decreases k,
{
    if k > 0 {
        lemma_runs_state(ls, len, spans, k - 1);
        let (runs, pos) = runs_state(ls, len, spans, k - 1);
        let sp = spans[k - 1];
        let a = max_int(sp.start as int, ls);
        let b = min_int(sp.end as int, ls + len);
        if a < b {
            let la = a - ls;
            let lb = b - ls;
            assert(0 <= la < lb <= len);
            let with_gap = if la > pos { runs.push(TextRun { len: (la - pos) as usize, color: None }) } else { runs };
            if la > pos {
                assert(with_gap.drop_last() =~= runs);
                assert(runs_len(with_gap) == runs_len(runs) + (la - pos));
            }
            assert(runs_len(with_gap) == la || la <= pos);
            let out = with_gap.push(TextRun { len: (lb - la) as usize, color: Some(sp.color) });
            assert(out.drop_last() =~= with_gap);
            assert(runs_len(out) == runs_len(with_gap) + (lb - la));
            assert(runs_state(ls, len, spans, k).0 == out);
        }
    }
}

/// The runs always cover the line exactly, when the spans that reach it come in order.
pub proof fn lemma_line_runs_cover_line(ls: int, len: int, spans: Seq<HighlightSpan>)
    requires
        0 <= len <= usize::MAX,
        spans_in_order(ls, len, spans, spans.len() as int),
    ensures
        runs_len(line_runs(ls, len, spans)) == len,
{
    lemma_runs_state(ls, len, spans, spans.len() as int);
    let (runs, pos) = runs_state(ls, len, spans, spans.len() as int);
    if pos < len {
        let all = runs.push(TextRun { len: (len - pos) as usize, color: None });
        assert(all.drop_last() =~= runs);
        assert(runs_len(all) == runs_len(runs) + (len - pos));
        assert(line_runs(ls, len, spans) == all);
    } else {
        if runs.len() == 0 {
            let one = seq![TextRun { len: 0, color: None }];
            assert(one.drop_last() =~= Seq::<TextRun>::empty());
            assert(runs_len(Seq::<TextRun>::empty()) == 0);
            assert(one.last().len == 0);
            assert(runs_len(one) == 0);
        }
        assert(runs_len(runs) == len);
    }
}

/// Splits a line into colored runs from the highlight spans of the whole text;
/// `line_start` is the byte offset of the line in the text.
pub fn build_text_runs(line_text: &str, line_start: usize, spans: &[HighlightSpan]) -> (r: Vec<TextRun>)
    requires
        line_start + line_text.spec_bytes().len() <= usize::MAX,
        spans_in_order(line_start as int, line_text.spec_bytes().len() as int, spans@, spans@.len() as int),
    ensures
        r@ == line_runs(line_start as int, line_text.spec_bytes().len() as int, spans@),
{
    let len = line_text.as_bytes().len();
    let line_end = line_start + len;
    let mut runs: Vec<TextRun> = Vec::new();
    let mut pos: usize = 0;
    let n = spans.len();
    let mut k: usize = 0;
    proof {
        lemma_runs_state(line_start as int, len as int, spans@, 0);
    }
    while k < n
        invariant
            k <= n == spans@.len(),
            len == line_text.spec_bytes().len(),
            line_end == line_start + len,
            spans_in_order(line_start as int, len as int, spans@, n as int),
            (runs@, pos as int) == runs_state(line_start as int, len as int, spans@, k as int),
            pos <= len,
        decreases n - k,
    {
        proof {
            assert forall|j: int| 0 <= j <= n implies spans_in_order(line_start as int, len as int, spans@, j) by {
                lemma_in_order_prefix(line_start as int, len as int, spans@, n as int, j);
            }
            lemma_runs_state(line_start as int, len as int, spans@, (k + 1) as int);
        }
        let sp = spans[k];
        let span_start = if sp.start >= line_start { sp.start } else { line_start };
        let span_end = if sp.end <= line_end { sp.end } else { line_end };
        if span_start < span_end {
            let local_start = span_start - line_start;
            let local_end = span_end - line_start;
            if local_start > pos {
                runs.push(TextRun { len: local_start - pos, color: None });
            }
            runs.push(TextRun { len: local_end - local_start, color: Some(sp.color) });
            pos = local_end;
        }
        k = k + 1;
    }
    if pos < len {
        runs.push(TextRun { len: len - pos, color: None });
    }
    if runs.len() == 0 {
        runs.push(TextRun { len: 0, color: None });
    }
    proof {
        assert(runs@ =~= line_runs(line_start as int, len as int, spans@));
    }
    runs
}

/// Whether the spans that reach a line come in order there, so that the line
/// can be split into runs.
pub fn spans_fit_line(line_text: &str, line_start: usize, spans: &[HighlightSpan]) -> (r: bool)
    requires
        line_start + line_text.spec_bytes().len() <= usize::MAX,
    ensures
        r == spans_in_order(line_start as int, line_text.spec_bytes().len() as int, spans@, spans@.len() as int),
{
    let len = line_text.as_bytes().len();
    let line_end = line_start + len;
    let mut pos: usize = 0;
    let n = spans.len();
    let mut k: usize = 0;
    while k < n
        invariant
            k <= n == spans@.len(),
            len == line_text.spec_bytes().len(),
            line_end == line_start + len,
            spans_in_order(line_start as int, len as int, spans@, k as int),
            pos as int == runs_state(line_start as int, len as int, spans@, k as int).1,
            pos <= len,
        decreases n - k,
    {
        proof {
            lemma_runs_state(line_start as int, len as int, spans@, k as int);
        }
        let sp = spans[k];
        let span_start = if sp.start >= line_start { sp.start } else { line_start };
        let span_end = if sp.end <= line_end { sp.end } else { line_end };
        if span_start < span_end {
            let local_start = span_start - line_start;
            if local_start < pos {
                proof {
                    assert forall|j: int| k + 1 <= j <= n implies !spans_in_order(line_start as int, len as int, spans@, j) by {
                        if spans_in_order(line_start as int, len as int, spans@, j) {
                            lemma_in_order_prefix(line_start as int, len as int, spans@, j, k + 1);
                        }
                    }
                }
                return false;
            }
            pos = span_end - line_start;
        }
        k = k + 1;
    }
    true
}

proof fn lemma_in_order_prefix(ls: int, len: int, spans: Seq<HighlightSpan>, k: int, j: int)
    requires
        0 <= j <= k,
        spans_in_order(ls, len, spans, k),
    ensures
        spans_in_order(ls, len, spans, j),
    decreases k - j,
{
    if j < k {
        lemma_in_order_prefix(ls, len, spans, k - 1, j);
    }
}

/// The text between two byte offsets, or none for an empty range.
pub open spec fn selected_text_spec(content: &str, start: int, end: int) -> Option<Seq<char>> {
    if start >= end {
        None
    } else {
        Some(decode_utf8(content.spec_bytes().subrange(start, end)))
    }
}

/// The text of a byte range of `content`, or `None` when the range is empty.
pub fn selected_text(content: &str, start: usize, end: usize) -> (r: Option<&str>)
    requires
        start >= end || (is_char_boundary(content.spec_bytes(), start as int) && is_char_boundary(content.spec_bytes(), end as int)),
    ensures
        r matches Some(s) ==> selected_text_spec(content, start as int, end as int) == Some(s@),
        r is None ==> selected_text_spec(content, start as int, end as int) is None,
{
    if start >= end {
        return None;
    }
    proof {
        let bs = content.spec_bytes();
        if end > bs.len() {
            assert(!is_char_boundary(bs, end as int));
        }
        valid_utf8_split(bs, end as int);
        let head = bs.subrange(0, end as int);
        assert(is_char_boundary(head, start as int)) by {
            lemma_boundary_in_prefix(bs, end as int, start as int);
        }
    }
    let (head, _tail) = content.split_at(end);
    let (_skip, mid) = head.split_at(start);
    proof {
        assert(mid.spec_bytes() =~= content.spec_bytes().subrange(start as int, end as int));
    }
    Some(mid)
}

/// A boundary before a split point is a boundary of the part before it.
pub proof fn lemma_boundary_in_prefix(bytes: Seq<u8>, end: int, i: int)
    requires
        valid_utf8(bytes),
        is_char_boundary(bytes, end),
        is_char_boundary(bytes, i),
        0 <= i <= end,
    ensures
        is_char_boundary(bytes.subrange(0, end), i),
{
    valid_utf8_split(bytes, end);
    let head = bytes.subrange(0, end);
    if end > bytes.len() {
        assert(!is_char_boundary(bytes, end));
    }
    if i == end {
        is_char_boundary_start_end_of_seq(head);
    } else if i == 0 {
    } else {
        is_char_boundary_iff_not_is_continuation_byte(bytes, i);
        is_char_boundary_iff_not_is_continuation_byte(head, i);
    }
}

// ── the editing buffer ───────────────────────────────────────────────────────

/// Byte offsets where the extended grapheme clusters of a text start, as
/// unicode-segmentation's `grapheme_indices(true)` reports them.
pub uninterp spec fn grapheme_offsets(text: Seq<char>) -> Seq<usize>;

/// Calls `grapheme_indices(true)` of unicode-segmentation and keeps the byte offsets.
/// The offsets are named `grapheme_offsets` of the text. The contract also states what
/// the crate's iterator shows: clusters are consecutive non-empty substrings in order,
/// so the offsets rise strictly, start at 0 for a non-empty text, stay below its
/// length and fall on character boundaries.
#[verifier::external_body]
fn grapheme_starts(s: &str) -> (r: Vec<usize>)
    ensures
        r@ == grapheme_offsets(s@),
        forall|i: int, j: int| 0 <= i < j < r@.len() ==> r@[i] < r@[j],
        forall|i: int| 0 <= i < r@.len() ==> (#[trigger] r@[i]) < s.spec_bytes().len() && is_char_boundary(s.spec_bytes(), r@[i] as int),
        s@.len() > 0 ==> r@.len() > 0 && r@[0] == 0,
{
    s.grapheme_indices(true).map(|(i, _)| i).collect()
}

/// Number of UTF-16 code units of a character.
pub open spec fn utf16_width(c: char) -> int {
    if (c as u32) < 0x10000 { 1 } else { 2 }
}

/// Number of UTF-16 code units of the first `k` characters.
pub open spec fn utf16_len_of_prefix(cs: Seq<char>, k: int) -> int
    decreases k,
{
    if k <= 0 {
        0
    } else {
        utf16_len_of_prefix(cs, k - 1) + utf16_width(cs[k - 1])
    }
}

/// The fewest characters, from index `k` on, whose UTF-16 length reaches `off`
/// (all of them when none does).
pub open spec fn chars_reaching_utf16(cs: Seq<char>, off: int, k: int) -> int
    decreases cs.len() - k,
{
    if k >= cs.len() || utf16_len_of_prefix(cs, k) >= off {
        k
    } else {
        chars_reaching_utf16(cs, off, k + 1)
    }
}

/// The fewest characters, from index `k` on, whose UTF-8 length reaches `off`
/// (all of them when none does).
pub open spec fn chars_reaching_utf8(cs: Seq<char>, off: int, k: int) -> int
    decreases cs.len() - k,
{
    if k >= cs.len() || byte_len_of_prefix(cs, k) >= off {
        k
    } else {
        chars_reaching_utf8(cs, off, k + 1)
    }
}

/// The byte offset that a UTF-16 offset names in the text.
pub open spec fn byte_of_utf16(cs: Seq<char>, off: int) -> int {
    byte_len_of_prefix(cs, chars_reaching_utf16(cs, off, 0))
}

/// The UTF-16 offset that a byte offset names in the text.
pub open spec fn utf16_of_byte(cs: Seq<char>, off: int) -> int {
    utf16_len_of_prefix(cs, chars_reaching_utf8(cs, off, 0))
}

proof fn lemma_utf16_width_le(c: char)
    ensures
        1 <= utf16_width(c) <= utf8_width(c),
{
    char_is_scalar(c);
}

/// Converts a UTF-16 offset into a byte offset of `s`: the end of the shortest
/// prefix that has at least that many UTF-16 units (the end of the text if none).
pub fn offset_from_utf16(s: &str, offset: usize) -> (r: usize)
    ensures
        r == byte_of_utf16(s@, offset as int),
        r <= s.spec_bytes().len(),
        is_char_boundary(s.spec_bytes(), r as int),
{
    let n = s.unicode_len();
    let ghost cs = s@;
    let mut utf8: usize = 0;
    let mut utf16: usize = 0;
    let mut k: usize = 0;
    let total = s.as_bytes().len();
    proof {
        lemma_prefix_byte_len_le(cs, 0);
        lemma_prefix_byte_len_le(cs, n as int);
    }
    while k < n
        invariant
            k <= n == cs.len(),
            cs == s@,
            utf8 == byte_len_of_prefix(cs, k as int),
            utf16 == utf16_len_of_prefix(cs, k as int),
            utf16 <= utf8,
            encode_utf8(cs).len() == total,
            chars_reaching_utf16(cs, offset as int, k as int) == chars_reaching_utf16(cs, offset as int, 0),
            forall|j: int| 0 <= j < k ==> utf16_len_of_prefix(cs, j) < offset,
        ensures
            chars_reaching_utf16(cs, offset as int, 0) == k,
            utf8 == byte_len_of_prefix(cs, k as int),
            k <= n,
        decreases n - k,
    {
        if utf16 >= offset {
            break;
        }
        let c = s.get_char(k);
        proof {
            lemma_encode_take_step(cs, k as int);
            lemma_prefix_byte_len_le(cs, k + 1);
            lemma_utf16_width_le(c);
        }
        utf16 = utf16 + if (c as u32) < 0x10000 { 1 } else { 2 };
        utf8 = utf8 + char_width(c);
        k = k + 1;
    }
    proof {
        lemma_prefix_byte_len_le(cs, k as int);
        lemma_prefix_boundary(cs, k as int);
    }
    utf8
}

/// Converts a byte offset of `s` into a UTF-16 offset: the UTF-16 length of the
/// shortest prefix that has at least that many bytes (of the whole text if none).
pub fn offset_to_utf16(s: &str, offset: usize) -> (r: usize)
    ensures
        r == utf16_of_byte(s@, offset as int),
{
    let n = s.unicode_len();
    let ghost cs = s@;
    let mut utf8: usize = 0;
    let mut utf16: usize = 0;
    let mut k: usize = 0;
    let total = s.as_bytes().len();
    proof {
        lemma_prefix_byte_len_le(cs, 0);
        lemma_prefix_byte_len_le(cs, n as int);
    }
    while k < n
        invariant
            k <= n == cs.len(),
            cs == s@,
            utf8 == byte_len_of_prefix(cs, k as int),
            utf16 == utf16_len_of_prefix(cs, k as int),
            utf16 <= utf8,
            encode_utf8(cs).len() == total,
            chars_reaching_utf8(cs, offset as int, k as int) == chars_reaching_utf8(cs, offset as int, 0),
        ensures
            chars_reaching_utf8(cs, offset as int, 0) == k,
            utf16 == utf16_len_of_prefix(cs, k as int),
        decreases n - k,
    {
        if utf8 >= offset {
            break;
        }
        let c = s.get_char(k);
        proof {
            lemma_encode_take_step(cs, k as int);
            lemma_prefix_byte_len_le(cs, k + 1);
            lemma_utf16_width_le(c);
        }
        utf16 = utf16 + if (c as u32) < 0x10000 { 1 } else { 2 };
        utf8 = utf8 + char_width(c);
        k = k + 1;
    }
    utf16
}

/// The last offset in `g` (in sequence order) below `off`, or 0.
pub open spec fn last_below(g: Seq<usize>, off: int) -> int
    decreases g.len(),
{
    if g.len() == 0 {
        0
    } else if g.last() < off {
        g.last() as int
    } else {
        last_below(g.drop_last(), off)
    }
}

/// The first offset in `g` above `off`, or `end`.
pub open spec fn first_above(g: Seq<usize>, off: int, end: int) -> int
    decreases g.len(),
{
    if g.len() == 0 {
        end
    } else if g[0] > off {
        g[0] as int
    } else {
        first_above(g.drop_first(), off, end)
    }
}

/// The start of the grapheme cluster before byte offset `off` (0 at the start).
pub open spec fn prev_grapheme(cs: Seq<char>, off: int) -> int {
    last_below(grapheme_offsets(cs), off)
}

/// The start of the grapheme cluster after byte offset `off` (the end of the text at the end).
pub open spec fn next_grapheme(cs: Seq<char>, off: int) -> int {
    first_above(grapheme_offsets(cs), off, encode_utf8(cs).len() as int)
}

/// Start of the grapheme cluster that ends before `offset`, or 0.
pub fn previous_boundary(s: &str, offset: usize) -> (r: usize)
    ensures
        r == prev_grapheme(s@, offset as int),
        is_char_boundary(s.spec_bytes(), r as int),
{
    let g = grapheme_starts(s);
    let mut i = g.len();
    proof {
        assert(g@.take(i as int) =~= g@);
        is_char_boundary_start_end_of_seq(s.spec_bytes());
    }
    while i > 0
        invariant
            i <= g@.len(),
            g@ == grapheme_offsets(s@),
            forall|j: int| 0 <= j < g@.len() ==> is_char_boundary(s.spec_bytes(), #[trigger] g@[j] as int),
            last_below(g@.take(i as int), offset as int) == last_below(g@, offset as int),
        decreases i,
    {
        proof {
            assert(g@.take(i as int).drop_last() =~= g@.take(i - 1));
        }
        if g[i - 1] < offset {
            return g[i - 1];
        }
        i = i - 1;
    }
    0
}

/// Start of the grapheme cluster after `offset`, or the length of `s`.
pub fn next_boundary(s: &str, offset: usize) -> (r: usize)
    ensures
        r == next_grapheme(s@, offset as int),
        is_char_boundary(s.spec_bytes(), r as int),
{
    let g = grapheme_starts(s);
    let total = s.as_bytes().len();
    let n = g.len();
    let mut i: usize = 0;
    proof {
        assert(g@.skip(0) =~= g@);
        is_char_boundary_start_end_of_seq(s.spec_bytes());
    }
    while i < n
        invariant
            i <= n == g@.len(),
            g@ == grapheme_offsets(s@),
            total == s.spec_bytes().len(),
            forall|j: int| 0 <= j < g@.len() ==> is_char_boundary(s.spec_bytes(), #[trigger] g@[j] as int),
            first_above(g@.skip(i as int), offset as int, total as int) == first_above(g@, offset as int, total as int),
        decreases n - i,
    {
        proof {
            assert(g@.skip(i as int).drop_first() =~= g@.skip(i + 1));
            assert(g@.skip(i as int)[0] == g@[i as int]);
        }
        if g[i] > offset {
            return g[i];
        }
        i = i + 1;
    }
    total
}

/// Number of line feeds among the first `c` bytes.
pub open spec fn newlines_before(bytes: Seq<u8>, c: int) -> int
    decreases c,
{
    if c <= 0 {
        0
    } else {
        newlines_before(bytes, c - 1) + if bytes[c - 1] == 10 { 1int } else { 0int }
    }
}

/// One past the last line feed among the first `c` bytes, or 0.
pub open spec fn line_start_before(bytes: Seq<u8>, c: int) -> int
    decreases c,
{
    if c <= 0 {
        0
    } else if bytes[c - 1] == 10 {
        c
    } else {
        line_start_before(bytes, c - 1)
    }
}

/// The (line index, byte column, line start) of a byte offset, the offset taken
/// no further than the end of the text.
pub open spec fn line_col_of(bytes: Seq<u8>, cursor: int) -> (int, int, int) {
    let c = if cursor <= bytes.len() { cursor } else { bytes.len() as int };
    (newlines_before(bytes, c), c - line_start_before(bytes, c), line_start_before(bytes, c))
}

proof fn lemma_line_start_before(bytes: Seq<u8>, c: int)
    requires
        0 <= c <= bytes.len(),
    ensures
        0 <= line_start_before(bytes, c) <= c,
        0 <= newlines_before(bytes, c) <= c,
        line_start_before(bytes, c) > 0 ==> bytes[line_start_before(bytes, c) - 1] == 10,
        line_starts_of(bytes.take(c)).len() == newlines_before(bytes, c) + 1,
        line_starts_of(bytes.take(c)).last() == line_start_before(bytes, c),
        forall|k: int| 0 <= k < line_starts_of(bytes.take(c)).len() ==>
            #[trigger] line_starts_of(bytes.take(c))[k] == line_starts_of(bytes)[k],
    decreases c,
{
    if c > 0 {
        lemma_line_start_before(bytes, c - 1);
        assert(bytes.take(c).drop_last() =~= bytes.take(c - 1));
    } else {
        assert(bytes.take(0) =~= Seq::<u8>::empty());
    }
    lemma_line_starts_prefix(bytes, c);
}

/// The line starts of a prefix are the first line starts of the whole.
proof fn lemma_line_starts_prefix(bytes: Seq<u8>, c: int)
    requires
        0 <= c <= bytes.len(),
    ensures
        line_starts_of(bytes.take(c)).len() <= line_starts_of(bytes).len(),
        forall|k: int| 0 <= k < line_starts_of(bytes.take(c)).len() ==>
            #[trigger] line_starts_of(bytes.take(c))[k] == line_starts_of(bytes)[k],
    decreases bytes.len() - c,
{
    if c < bytes.len() {
        lemma_line_starts_prefix(bytes, c + 1);
        assert(bytes.take(c + 1).drop_last() =~= bytes.take(c));
        let a = line_starts_of(bytes.take(c));
        let b = line_starts_of(bytes.take(c + 1));
        assert(b == a || b == a.push((c + 1) as int));
        assert forall|k: int| 0 <= k < a.len() implies #[trigger] a[k] == line_starts_of(bytes)[k] by {
            assert(a[k] == b[k]);
        }
    } else {
        assert(bytes.take(c) =~= bytes);
    }
}

/// A character boundary of a slice between two boundaries is a boundary of the whole.
proof fn lemma_boundary_in_slice(bytes: Seq<u8>, ls: int, le: int, i: int)
    requires
        valid_utf8(bytes),
        0 <= ls <= le,
        is_char_boundary(bytes, ls),
        is_char_boundary(bytes, le),
        is_char_boundary(bytes.subrange(ls, le), i),
        0 <= i <= le - ls,
    ensures
        is_char_boundary(bytes, ls + i),
{
    if le > bytes.len() {
        assert(!is_char_boundary(bytes, le));
    }
    valid_utf8_split(bytes, le);
    let head = bytes.subrange(0, le);
    lemma_boundary_in_prefix(bytes, le, ls);
    valid_utf8_split(head, ls);
    let sub = bytes.subrange(ls, le);
    assert(head.subrange(ls, head.len() as int) =~= sub);
    if i == 0 {
    } else if ls + i == le {
    } else {
        is_char_boundary_iff_not_is_continuation_byte(sub, i);
        is_char_boundary_iff_not_is_continuation_byte(bytes, ls + i);
    }
}

/// Line index, byte column and line start of a byte offset of `s`.
pub fn line_col(s: &str, cursor: usize) -> (r: (usize, usize, usize))
    ensures
        (r.0 as int, r.1 as int, r.2 as int) == line_col_of(s.spec_bytes(), cursor as int),
{
    let bytes = s.as_bytes();
    let n = bytes.len();
    let c = if cursor <= n { cursor } else { n };
    let mut lines: usize = 0;
    let mut start: usize = 0;
    let mut i: usize = 0;
    while i < c
        invariant
            i <= c <= n == bytes@.len(),
            bytes@ == s.spec_bytes(),
            lines == newlines_before(bytes@, i as int),
            start == line_start_before(bytes@, i as int),
            start <= i,
            lines <= i,
        decreases c - i,
    {
        if bytes[i] == 10 {
            lines = lines + 1;
            start = i + 1;
        }
        i = i + 1;
    }
    (lines, c - start, start)
}

/// The end of line `i` (the byte before the next line start, or the text's end).
pub open spec fn line_end_of(bytes: Seq<u8>, i: int) -> int {
    let starts = line_starts_of(bytes);
    if i + 1 < starts.len() { starts[i + 1] - 1 } else { bytes.len() as int }
}

/// The byte offset of a (line, byte column) position: the start of the line plus
/// the start of the last grapheme cluster of the line at or before the column
/// (clamped to the line's length); the text's end for lines past the last.
pub open spec fn offset_of_line_col(cs: Seq<char>, line: int, col: int) -> int {
    let bytes = encode_utf8(cs);
    let starts = line_starts_of(bytes);
    if 0 <= line < starts.len() {
        let ls = starts[line];
        let le = line_end_of(bytes, line);
        let clamped = if col <= le - ls { col } else { le - ls };
        let g = grapheme_offsets(decode_utf8(bytes.subrange(ls, le)));
        ls + last_at_most(g, clamped)
    } else {
        bytes.len() as int
    }
}

/// The last offset in `g` (in sequence order) at most `c`, or 0.
pub open spec fn last_at_most(g: Seq<usize>, c: int) -> int
    decreases g.len(),
{
    if g.len() == 0 {
        0
    } else if g.last() <= c {
        g.last() as int
    } else {
        last_at_most(g.drop_last(), c)
    }
}

/// The byte offset of a (line, byte column) position of `s`, snapped back to
/// the start of a grapheme cluster of that line.
pub fn offset_at_line_col(s: &str, line: usize, col: usize) -> (r: usize)
    ensures
        r == offset_of_line_col(s@, line as int, col as int),
        r <= s.spec_bytes().len(),
        is_char_boundary(s.spec_bytes(), r as int),
{
    let starts = build_line_starts(s);
    let total = s.as_bytes().len();
    let ghost bytes = s.spec_bytes();
    proof {
        lemma_line_starts_increasing(bytes);
        is_char_boundary_start_end_of_seq(bytes);
    }
    if line >= starts.len() {
        return total;
    }
    proof {
        assert(starts@.map_values(|x: usize| x as int)[line as int] == starts@[line as int]);
        if line + 1 < starts@.len() {
            assert(starts@.map_values(|x: usize| x as int)[line + 1] == starts@[line + 1]);
        }
    }
    let ls = starts[line];
    let le = if line + 1 < starts.len() { starts[line + 1] - 1 } else { total };
    proof {
        let st = line_starts_of(bytes);
        assert(st[line as int] == ls);
        assert(le == line_end_of(bytes, line as int));
        if line > 0 {
            lemma_boundary_after_ascii_pub(bytes, ls as int - 1);
        }
        if line + 1 < st.len() {
            assert(st[line as int] < st[line + 1]);
            assert(bytes[le as int] == 10);
            is_char_boundary_iff_not_is_continuation_byte(bytes, le as int);
        }
        assert(is_char_boundary(bytes, ls as int));
        assert(is_char_boundary(bytes, le as int));
        lemma_boundary_in_prefix(bytes, le as int, ls as int);
    }
    let (head, _tail) = s.split_at(le);
    let (_skip, line_text) = head.split_at(ls);
    proof {
        assert(line_text.spec_bytes() =~= bytes.subrange(ls as int, le as int));
    }
    let width = le - ls;
    let clamped = if col <= width { col } else { width };
    let g = grapheme_starts(line_text);
    let mut i = g.len();
    proof {
        assert(g@.take(i as int) =~= g@);
        assert(line_text@ == decode_utf8(bytes.subrange(ls as int, le as int)));
        assert(offset_of_line_col(s@, line as int, col as int) == ls + last_at_most(g@, clamped as int));
    }
    while i > 0
        invariant
            i <= g@.len(),
            ls + width <= total,
            total == s.spec_bytes().len(),
            le == ls + width,
            is_char_boundary(bytes, ls as int),
            is_char_boundary(bytes, le as int),
            bytes == s.spec_bytes(),
            line_text.spec_bytes() == bytes.subrange(ls as int, le as int),
            forall|j: int| 0 <= j < g@.len() ==> is_char_boundary(line_text.spec_bytes(), #[trigger] g@[j] as int),
            offset_of_line_col(s@, line as int, col as int) == ls + last_at_most(g@, clamped as int),
            forall|j: int| 0 <= j < g@.len() ==> (#[trigger] g@[j]) < width,
            last_at_most(g@.take(i as int), clamped as int) == last_at_most(g@, clamped as int),
        decreases i,
    {
        proof {
            assert(g@.take(i as int).drop_last() =~= g@.take(i - 1));
        }
        if g[i - 1] <= clamped {
            proof {
                lemma_boundary_in_slice(bytes, ls as int, le as int, g@[i - 1] as int);
            }
            return ls + g[i - 1];
        }
        i = i - 1;
    }
    ls
}

// ── the buffer and its selection ─────────────────────────────────────────────

/// The editor's text with its selection (byte offsets `start..end`, the cursor
/// at `start` when reversed, else at `end`) and the range marked by an input method.
pub struct SqlEditor {
    pub content: String,
    pub selected_range: (usize, usize),
    pub selection_reversed: bool,
    pub marked_range: Option<(usize, usize)>,
}

/// What an editor buffer holds.
pub struct BufferView {
    pub content: Seq<char>,
    pub selected: (usize, usize),
    pub reversed: bool,
    pub marked: Option<(usize, usize)>,
}

impl View for SqlEditor {
    type V = BufferView;

    open spec fn view(&self) -> BufferView {
        BufferView {
            content: self.content@,
            selected: self.selected_range,
            reversed: self.selection_reversed,
            marked: self.marked_range,
        }
    }
}

/// The cursor: the start of the selection when reversed, else its end.
pub open spec fn cursor_of(v: BufferView) -> usize {
    if v.reversed { v.selected.0 } else { v.selected.1 }
}

/// The buffer with the cursor at `offset` and nothing selected.
pub open spec fn moved_to(v: BufferView, offset: usize) -> BufferView {
    BufferView { selected: (offset, offset), ..v }
}

/// The buffer with the selection extended to `offset` from its anchor; when
/// the ends cross, they swap and the direction flips.
pub open spec fn selected_to(v: BufferView, offset: usize) -> BufferView {
    let (s, e) = if v.reversed { (offset, v.selected.1) } else { (v.selected.0, offset) };
    if e < s {
        BufferView { selected: (e, s), reversed: !v.reversed, ..v }
    } else {
        BufferView { selected: (s, e), ..v }
    }
}

/// The byte range a replacement acts on: the given UTF-16 range, else the marked
/// range, else the selection.
pub open spec fn target_range(v: BufferView, range_utf16: Option<(usize, usize)>) -> (int, int) {
    match range_utf16 {
        Some(r) => (byte_of_utf16(v.content, r.0 as int), byte_of_utf16(v.content, r.1 as int)),
        None => match v.marked {
            Some(m) => (m.0 as int, m.1 as int),
            None => (v.selected.0 as int, v.selected.1 as int),
        },
    }
}

/// The text with the bytes `[s, e)` replaced: the characters before `s`, the new
/// text, and the characters from `e` on.
pub open spec fn replaced(cs: Seq<char>, s: int, e: int, new_text: Seq<char>) -> Seq<char> {
    let bytes = encode_utf8(cs);
    decode_utf8(bytes.subrange(0, s)) + new_text + decode_utf8(bytes.subrange(e, bytes.len() as int))
}

/// The target range of a replacement lies on character boundaries.
pub open spec fn target_ok(v: BufferView, range_utf16: Option<(usize, usize)>) -> bool {
    let (s, e) = target_range(v, range_utf16);
    is_char_boundary(encode_utf8(v.content), s) && is_char_boundary(encode_utf8(v.content), e)
}

/// The buffer after replacing the target range: the cursor right after the new
/// text, nothing marked.
pub open spec fn after_replace(v: BufferView, range_utf16: Option<(usize, usize)>, new_text: Seq<char>) -> BufferView {
    let (s, e) = target_range(v, range_utf16);
    let c = (s + encode_utf8(new_text).len()) as usize;
    BufferView { content: replaced(v.content, s, e, new_text), selected: (c, c), reversed: v.reversed, marked: None }
}

/// The buffer after replacing the target range and marking the new text (when
/// it is not empty); the selection is the given UTF-16 range, read in the new
/// text and shifted by the start of the target, or the point after the new text.
pub open spec fn after_replace_and_mark(
    v: BufferView,
    range_utf16: Option<(usize, usize)>,
    new_text: Seq<char>,
    sel_utf16: Option<(usize, usize)>,
) -> BufferView {
    let (s, e) = target_range(v, range_utf16);
    let nl = encode_utf8(new_text).len();
    let content = replaced(v.content, s, e, new_text);
    let marked = if new_text.len() > 0 { Some((s as usize, (s + nl) as usize)) } else { None };
    let selected = match sel_utf16 {
        Some(r) => ((byte_of_utf16(content, r.0 as int) + s) as usize, (byte_of_utf16(content, r.1 as int) + s) as usize),
        None => ((s + nl) as usize, (s + nl) as usize),
    };
    BufferView { content, selected, reversed: v.reversed, marked }
}

/// The selection and the marked range lie on character boundaries of the text.
pub open spec fn buffer_wf(v: BufferView) -> bool {
    let b = encode_utf8(v.content);
    &&& is_char_boundary(b, v.selected.0 as int)
    &&& is_char_boundary(b, v.selected.1 as int)
    &&& (v.marked matches Some(m) ==> is_char_boundary(b, m.0 as int) && is_char_boundary(b, m.1 as int))
}

/// Replacing keeps the buffer well formed: the cursor lands right after the new text.
pub proof fn lemma_replace_keeps_wf(v: BufferView, range_utf16: Option<(usize, usize)>, new_text: Seq<char>)
    requires
        target_ok(v, range_utf16),
        encode_utf8(v.content).len() + encode_utf8(new_text).len() <= usize::MAX,
    ensures
        buffer_wf(after_replace(v, range_utf16, new_text)),
{
    let (s, e) = target_range(v, range_utf16);
    let bytes = encode_utf8(v.content);
    if s > bytes.len() {
        assert(!is_char_boundary(bytes, s));
    }
    if e > bytes.len() {
        assert(!is_char_boundary(bytes, e));
    }
    valid_utf8_split(bytes, s);
    valid_utf8_split(bytes, e);
    let a = decode_utf8(bytes.subrange(0, s));
    let c = decode_utf8(bytes.subrange(e, bytes.len() as int));
    let full = a + new_text + c;
    let k = (a.len() + new_text.len()) as int;
    assert(full.take(k) =~= a + new_text);
    lemma_encode_utf8_concat(a, new_text);
    lemma_prefix_boundary(full, k);
}

/// The buffer after a backspace: a selection is deleted; otherwise the grapheme
/// cluster before the cursor, if any.
pub open spec fn after_backspace(v: BufferView) -> BufferView {
    if v.selected.0 < v.selected.1 {
        after_replace(v, None, Seq::empty())
    } else {
        let c = cursor_of(v);
        let p = prev_grapheme(v.content, c as int);
        if c == p { v } else { after_replace(selected_to(v, p as usize), None, Seq::empty()) }
    }
}

/// The buffer after a forward delete: a selection is deleted; otherwise the
/// grapheme cluster after the cursor, if any.
pub open spec fn after_delete(v: BufferView) -> BufferView {
    if v.selected.0 < v.selected.1 {
        after_replace(v, None, Seq::empty())
    } else {
        let c = cursor_of(v);
        let n = next_grapheme(v.content, c as int);
        if c == n { v } else { after_replace(selected_to(v, n as usize), None, Seq::empty()) }
    }
}

/// Cursor left: to the previous grapheme cluster, or to the start of a selection.
pub open spec fn after_left(v: BufferView) -> BufferView {
    if v.selected.0 < v.selected.1 {
        moved_to(v, v.selected.0)
    } else {
        moved_to(v, prev_grapheme(v.content, cursor_of(v) as int) as usize)
    }
}

/// Cursor right: to the next grapheme cluster, or to the end of a selection.
pub open spec fn after_right(v: BufferView) -> BufferView {
    if v.selected.0 < v.selected.1 {
        moved_to(v, v.selected.1)
    } else {
        moved_to(v, next_grapheme(v.content, v.selected.1 as int) as usize)
    }
}

/// Cursor up: the same column of the previous line, or the start of the text.
pub open spec fn after_up(v: BufferView) -> BufferView {
    let (line, col, _) = line_col_of(encode_utf8(v.content), cursor_of(v) as int);
    if line == 0 {
        moved_to(v, 0)
    } else {
        moved_to(v, offset_of_line_col(v.content, line - 1, col) as usize)
    }
}

/// Cursor down: the same column of the next line, or the end of the text.
pub open spec fn after_down(v: BufferView) -> BufferView {
    let bytes = encode_utf8(v.content);
    let count = newlines_before(bytes, bytes.len() as int) + 1;
    let (line, col, _) = line_col_of(bytes, cursor_of(v) as int);
    if line >= count - 1 {
        moved_to(v, bytes.len() as usize)
    } else {
        moved_to(v, offset_of_line_col(v.content, line + 1, col) as usize)
    }
}

/// Cursor home: the start of the cursor's line.
pub open spec fn after_home(v: BufferView) -> BufferView {
    moved_to(v, line_col_of(encode_utf8(v.content), cursor_of(v) as int).2 as usize)
}

/// Cursor end: the end of the cursor's line.
pub open spec fn after_end(v: BufferView) -> BufferView {
    let bytes = encode_utf8(v.content);
    let (line, _, ls) = line_col_of(bytes, cursor_of(v) as int);
    let starts = line_starts_of(bytes);
    let len = if line < starts.len() { line_end_of(bytes, line) - starts[line] } else { 0 };
    moved_to(v, (ls + len) as usize)
}

impl SqlEditor {
    /// An empty buffer.
    pub fn new() -> (r: SqlEditor)
        ensures
            r@.content == Seq::<char>::empty(),
            r@.selected == (0usize, 0usize),
            !r@.reversed,
            r@.marked is None,
    {
        SqlEditor { content: String::new(), selected_range: (0, 0), selection_reversed: false, marked_range: None }
    }

    /// Replaces the whole text; the cursor goes to the start, nothing marked.
    pub fn set_content(&mut self, text: String)
        ensures
            final(self)@.content == text@,
            final(self)@.selected == (0usize, 0usize),
            !final(self)@.reversed,
            final(self)@.marked is None,
    {
        self.content = text;
        self.selected_range = (0, 0);
        self.selection_reversed = false;
        self.marked_range = None;
    }

    /// The selected text, or `None` when nothing is selected.
    pub fn selected_sql(&self) -> (r: Option<&str>)
        requires
            self.selected_range.0 >= self.selected_range.1 || (
                is_char_boundary(encode_utf8(self.content@), self.selected_range.0 as int)
                && is_char_boundary(encode_utf8(self.content@), self.selected_range.1 as int)),
        ensures
            r matches Some(s) ==> self.selected_range.0 < self.selected_range.1
                && s@ == decode_utf8(encode_utf8(self.content@).subrange(self.selected_range.0 as int, self.selected_range.1 as int)),
            r is None ==> self.selected_range.0 >= self.selected_range.1,
    {
        selected_text(self.content.as_str(), self.selected_range.0, self.selected_range.1)
    }

    /// The cursor offset.
    pub fn cursor_offset(&self) -> (r: usize)
        ensures
            r == cursor_of(self@),
    {
        if self.selection_reversed { self.selected_range.0 } else { self.selected_range.1 }
    }

    /// Puts the cursor at `offset`, selecting nothing.
    pub fn move_to(&mut self, offset: usize)
        ensures
            final(self)@ == moved_to(old(self)@, offset),
    {
        self.selected_range = (offset, offset);
    }

    /// Extends the selection from its anchor to `offset`.
    pub fn select_to(&mut self, offset: usize)
        ensures
            final(self)@ == selected_to(old(self)@, offset),
    {
        if self.selection_reversed {
            self.selected_range.0 = offset;
        } else {
            self.selected_range.1 = offset;
        }
        if self.selected_range.1 < self.selected_range.0 {
            self.selection_reversed = !self.selection_reversed;
            self.selected_range = (self.selected_range.1, self.selected_range.0);
        }
    }

    /// Selects the whole text.
    pub fn select_all(&mut self)
        ensures
            final(self)@.content == old(self)@.content,
            final(self)@.selected == (0usize, encode_utf8(old(self)@.content).len() as usize),
            !final(self)@.reversed,
            final(self)@.marked == old(self)@.marked,
    {
        let n = self.content.as_str().as_bytes().len();
        self.selected_range = (0, n);
        self.selection_reversed = false;
    }

    fn target(&self, range_utf16: Option<(usize, usize)>) -> (r: (usize, usize))
        ensures
            (r.0 as int, r.1 as int) == target_range(self@, range_utf16),
    {
        match range_utf16 {
            Some(r) => (offset_from_utf16(self.content.as_str(), r.0), offset_from_utf16(self.content.as_str(), r.1)),
            None => match self.marked_range {
                Some(m) => m,
                None => self.selected_range,
            },
        }
    }

    fn splice(&self, s: usize, e: usize, new_text: &str) -> (r: String)
        requires
            is_char_boundary(encode_utf8(self.content@), s as int),
            is_char_boundary(encode_utf8(self.content@), e as int),
        ensures
            r@ == replaced(self.content@, s as int, e as int, new_text@),
    {
        let text = self.content.as_str();
        let (head, _rest) = text.split_at(s);
        let (_skip, tail) = text.split_at(e);
        let mut r = String::from_str(head);
        r.append(new_text);
        r.append(tail);
        r
    }

    /// Replaces the target range (the given UTF-16 range, else the marked
    /// range, else the selection) with `new_text`; the cursor goes after it.
    pub fn replace_text_in_range(&mut self, range_utf16: Option<(usize, usize)>, new_text: &str)
        requires
            target_ok(old(self)@, range_utf16),
            encode_utf8(old(self)@.content).len() + new_text.spec_bytes().len() <= usize::MAX,
        ensures
            final(self)@ == after_replace(old(self)@, range_utf16, new_text@),
    {
        let (s, e) = self.target(range_utf16);
        let nc = self.splice(s, e, new_text);
        proof {
            if s > encode_utf8(self.content@).len() {
                assert(!is_char_boundary(encode_utf8(self.content@), s as int));
            }
        }
        let c = s + new_text.as_bytes().len();
        self.content = nc;
        self.selected_range = (c, c);
        self.marked_range = None;
    }

    /// Replaces the target range with `new_text` and marks it; the selection
    /// becomes the given UTF-16 range shifted to the target's start.
    pub fn replace_and_mark_text_in_range(
        &mut self,
        range_utf16: Option<(usize, usize)>,
        new_text: &str,
        new_selected_utf16: Option<(usize, usize)>,
    )
        requires
            target_ok(old(self)@, range_utf16),
            3 * (encode_utf8(old(self)@.content).len() + new_text.spec_bytes().len()) <= usize::MAX,
        ensures
            final(self)@ == after_replace_and_mark(old(self)@, range_utf16, new_text@, new_selected_utf16),
    {
        let (s, e) = self.target(range_utf16);
        let nc = self.splice(s, e, new_text);
        proof {
            if s > encode_utf8(self.content@).len() {
                assert(!is_char_boundary(encode_utf8(self.content@), s as int));
            }
            if e > encode_utf8(self.content@).len() {
                assert(!is_char_boundary(encode_utf8(self.content@), e as int));
            }
            let bytes = encode_utf8(self.content@);
            let a = decode_utf8(bytes.subrange(0, s as int));
            let c = decode_utf8(bytes.subrange(e as int, bytes.len() as int));
            lemma_encode_utf8_concat(a, new_text@);
            lemma_encode_utf8_concat(a + new_text@, c);
            valid_utf8_split(bytes, s as int);
            valid_utf8_split(bytes, e as int);
            assert(encode_utf8(nc@).len() == s + new_text.spec_bytes().len() + (bytes.len() - e));
        }
        let nl = new_text.as_bytes().len();
        self.content = nc;
        self.marked_range = if new_text.unicode_len() > 0 { Some((s, s + nl)) } else { None };
        self.selected_range = match new_selected_utf16 {
            Some(r) => {
                let a = offset_from_utf16(self.content.as_str(), r.0);
                let b = offset_from_utf16(self.content.as_str(), r.1);
                (a + s, b + s)
            },
            None => (s + nl, s + nl),
        };
    }
}

impl SqlEditor {
    /// Backspace: deletes the selection, or the grapheme cluster before the cursor.
    pub fn backspace(&mut self)
        requires
            buffer_wf(old(self)@),
        ensures
            final(self)@ == after_backspace(old(self)@),
            buffer_wf(final(self)@),
    {
        proof {
            lemma_buffer_len(self@);
        }
        if !(self.selected_range.0 < self.selected_range.1) {
            let c = self.cursor_offset();
            let p = previous_boundary(self.content.as_str(), c);
            if c == p {
                return;
            }
            self.select_to(p);
        }
        let _total = self.content.as_str().as_bytes().len();
        proof {
            reveal_strlit("");
            assert(""@ =~= Seq::<char>::empty());
            assert(encode_utf8(Seq::<char>::empty()) =~= Seq::<u8>::empty());
            lemma_replace_keeps_wf(self@, None, Seq::empty());
        }
        self.replace_text_in_range(None, "");
    }

    /// Delete: deletes the selection, or the grapheme cluster after the cursor.
    pub fn delete(&mut self)
        requires
            buffer_wf(old(self)@),
        ensures
            final(self)@ == after_delete(old(self)@),
            buffer_wf(final(self)@),
    {
        proof {
            lemma_buffer_len(self@);
        }
        if !(self.selected_range.0 < self.selected_range.1) {
            let c = self.cursor_offset();
            let n = next_boundary(self.content.as_str(), c);
            if c == n {
                return;
            }
            self.select_to(n);
        }
        let _total = self.content.as_str().as_bytes().len();
        proof {
            reveal_strlit("");
            assert(""@ =~= Seq::<char>::empty());
            assert(encode_utf8(Seq::<char>::empty()) =~= Seq::<u8>::empty());
            lemma_replace_keeps_wf(self@, None, Seq::empty());
        }
        self.replace_text_in_range(None, "");
    }

    /// Moves the cursor one grapheme cluster left, or to the start of the selection.
    pub fn left(&mut self)
        requires
            buffer_wf(old(self)@),
        ensures
            final(self)@ == after_left(old(self)@),
            buffer_wf(final(self)@),
    {
        if !(self.selected_range.0 < self.selected_range.1) {
            let p = previous_boundary(self.content.as_str(), self.cursor_offset());
            self.move_to(p);
        } else {
            let s = self.selected_range.0;
            self.move_to(s);
        }
    }

    /// Moves the cursor one grapheme cluster right, or to the end of the selection.
    pub fn right(&mut self)
        requires
            buffer_wf(old(self)@),
        ensures
            final(self)@ == after_right(old(self)@),
            buffer_wf(final(self)@),
    {
        if !(self.selected_range.0 < self.selected_range.1) {
            let n = next_boundary(self.content.as_str(), self.selected_range.1);
            self.move_to(n);
        } else {
            let e = self.selected_range.1;
            self.move_to(e);
        }
    }

    /// Moves the cursor to the same column of the previous line.
    pub fn up(&mut self)
        requires
            buffer_wf(old(self)@),
        ensures
            final(self)@ == after_up(old(self)@),
            buffer_wf(final(self)@),
    {
        let (line, col, _) = line_col(self.content.as_str(), self.cursor_offset());
        if line == 0 {
            proof {
                is_char_boundary_start_end_of_seq(encode_utf8(self.content@));
            }
            self.move_to(0);
            return;
        }
        let o = offset_at_line_col(self.content.as_str(), line - 1, col);
        self.move_to(o);
    }

    /// Moves the cursor to the same column of the next line.
    pub fn down(&mut self)
        requires
            buffer_wf(old(self)@),
        ensures
            final(self)@ == after_down(old(self)@),
            buffer_wf(final(self)@),
    {
        let total = self.content.as_str().as_bytes().len();
        let (lines, _, _) = line_col(self.content.as_str(), total);
        let (line, col, _) = line_col(self.content.as_str(), self.cursor_offset());
        proof {
            is_char_boundary_start_end_of_seq(encode_utf8(self.content@));
            lemma_line_start_before(encode_utf8(self.content@), total as int);
        }
        if line >= lines {
            self.move_to(total);
            return;
        }
        let o = offset_at_line_col(self.content.as_str(), line + 1, col);
        self.move_to(o);
    }

    /// Moves the cursor to the start of its line.
    pub fn home(&mut self)
        requires
            buffer_wf(old(self)@),
        ensures
            final(self)@ == after_home(old(self)@),
            buffer_wf(final(self)@),
    {
        let (_, _, ls) = line_col(self.content.as_str(), self.cursor_offset());
        proof {
            let bytes = encode_utf8(self.content@);
            let c = cursor_of(self@) as int;
            let cc = if c <= bytes.len() { c } else { bytes.len() as int };
            lemma_line_start_before(bytes, cc);
            is_char_boundary_start_end_of_seq(bytes);
            if ls > 0 {
                crate::chars::lemma_boundary_after_ascii(bytes, ls - 1);
            }
        }
        self.move_to(ls);
    }

    /// Moves the cursor to the end of its line.
    pub fn end(&mut self)
        requires
            buffer_wf(old(self)@),
        ensures
            final(self)@ == after_end(old(self)@),
            buffer_wf(final(self)@),
    {
        let (line, _, ls) = line_col(self.content.as_str(), self.cursor_offset());
        let starts = build_line_starts(self.content.as_str());
        let total = self.content.as_str().as_bytes().len();
        let ghost bytes = encode_utf8(self.content@);
        proof {
            let c = cursor_of(self@) as int;
            let cc = if c <= bytes.len() { c } else { bytes.len() as int };
            lemma_line_start_before(bytes, cc);
            lemma_line_starts_increasing(bytes);
            lemma_line_starts_prefix(bytes, cc);
            is_char_boundary_start_end_of_seq(bytes);
        }
        let len = if line < starts.len() {
            proof {
                assert(starts@.map_values(|x: usize| x as int)[line as int] == starts@[line as int]);
                if line + 1 < starts@.len() {
                    assert(starts@.map_values(|x: usize| x as int)[line + 1] == starts@[line + 1]);
                }
            }
            let le = if line + 1 < starts.len() { starts[line + 1] - 1 } else { total };
            le - starts[line]
        } else {
            0
        };
        proof {
            let st = line_starts_of(bytes);
            if line < st.len() {
                if line + 1 < st.len() {
                    assert(st[line as int] < st[line + 1]);
                    is_char_boundary_iff_not_is_continuation_byte(bytes, st[line + 1] - 1);
                }
            } else {
                assert(line as int == st.len() - 1 || line < st.len());
            }
        }
        self.move_to(ls + len);
    }

    /// Inserts a line break in place of the selection.
    pub fn enter(&mut self)
        requires
            buffer_wf(old(self)@),
            encode_utf8(old(self)@.content).len() + 1 <= usize::MAX,
        ensures
            final(self)@ == after_replace(old(self)@, None, "\n"@),
            buffer_wf(final(self)@),
    {
        proof {
            reveal_strlit("\n");
            assert(encode_utf8("\n"@).len() == 1) by {
                assert("\n"@.drop_first() =~= Seq::<char>::empty());
                assert(encode_utf8(Seq::<char>::empty()) =~= Seq::<u8>::empty());
                assert(('\n' as u32) == 10);
            }
            lemma_replace_keeps_wf(self@, None, "\n"@);
        }
        self.replace_text_in_range(None, "\n");
    }

    /// Inserts two spaces in place of the selection.
    pub fn tab(&mut self)
        requires
            buffer_wf(old(self)@),
            encode_utf8(old(self)@.content).len() + 2 <= usize::MAX,
        ensures
            final(self)@ == after_replace(old(self)@, None, "  "@),
            buffer_wf(final(self)@),
    {
        proof {
            reveal_strlit("  ");
            assert(encode_utf8("  "@).len() == 2) by {
                assert("  "@.drop_first().drop_first() =~= Seq::<char>::empty());
                assert(encode_utf8(Seq::<char>::empty()) =~= Seq::<u8>::empty());
                assert((' ' as u32) == 32);
                assert(encode_utf8("  "@.drop_first()).len() == 1);
            }
            lemma_replace_keeps_wf(self@, None, "  "@);
        }
        self.replace_text_in_range(None, "  ");
    }

    /// Inserts pasted text in place of the selection.
    pub fn paste(&mut self, text: &str)
        requires
            buffer_wf(old(self)@),
            encode_utf8(old(self)@.content).len() + text.spec_bytes().len() <= usize::MAX,
        ensures
            final(self)@ == after_replace(old(self)@, None, text@),
            buffer_wf(final(self)@),
    {
        proof {
            lemma_replace_keeps_wf(self@, None, text@);
        }
        self.replace_text_in_range(None, text);
    }

    /// Removes the selection and returns its text (for the clipboard); nothing
    /// happens without a selection.
    pub fn cut(&mut self) -> (r: Option<String>)
        requires
            buffer_wf(old(self)@),
        ensures
            old(self)@.selected.0 < old(self)@.selected.1 ==> {
                &&& r matches Some(t) && t@ == decode_utf8(encode_utf8(old(self)@.content).subrange(old(self)@.selected.0 as int, old(self)@.selected.1 as int))
                &&& final(self)@ == after_replace(old(self)@, None, Seq::empty())
            },
            !(old(self)@.selected.0 < old(self)@.selected.1) ==> r is None && final(self)@ == old(self)@,
            buffer_wf(final(self)@),
    {
        proof {
            lemma_buffer_len(self@);
        }
        let text = match self.selected_sql() {
            Some(t) => crate::strings::to_owned_string(t),
            None => return None,
        };
        let _total = self.content.as_str().as_bytes().len();
        proof {
            reveal_strlit("");
            assert(""@ =~= Seq::<char>::empty());
            assert(encode_utf8(Seq::<char>::empty()) =~= Seq::<u8>::empty());
            lemma_replace_keeps_wf(self@, None, Seq::empty());
        }
        self.replace_text_in_range(None, "");
        Some(text)
    }
}

proof fn lemma_buffer_len(v: BufferView)
    requires
        buffer_wf(v),
    ensures
        v.selected.0 <= encode_utf8(v.content).len(),
        v.selected.1 <= encode_utf8(v.content).len(),
{
    let b = encode_utf8(v.content);
    if v.selected.0 > b.len() {
        assert(!is_char_boundary(b, v.selected.0 as int));
    }
    if v.selected.1 > b.len() {
        assert(!is_char_boundary(b, v.selected.1 as int));
    }
}

/// The position right after an ASCII byte of valid UTF-8 is a character boundary.
proof fn lemma_boundary_after_ascii_pub(bytes: Seq<u8>, i: int)
    requires
        valid_utf8(bytes),
        0 <= i < bytes.len(),
        bytes[i] < 0x80,
    ensures
        is_char_boundary(bytes, i + 1),
{
    crate::chars::lemma_boundary_after_ascii(bytes, i);
}

} // verus!
