//! Cursor motions over a text buffer. Positions are byte offsets into the
//! UTF-8 encoding of the text, as the editor stores them.

use vstd::prelude::*;
use vstd::utf8::*;
use vstd::string::StringSliceAdditionalSpecFns;
use vstd::string::StrSliceExecFns;
use crate::chars::{
    char_is_whitespace, char_width, is_word, is_word_char, lemma_encode_take_step,
    lemma_encode_utf8_concat, unicode_white_space,
};

verus! {

broadcast use encode_utf8_valid_utf8, encode_utf8_decode_utf8;

/// The characters of the text before byte offset `offset`.
pub open spec fn chars_before(text: &str, offset: int) -> Seq<char> {
    decode_utf8(text.spec_bytes().subrange(0, offset))
}

/// The characters of the text from byte offset `offset` on.
pub open spec fn chars_from(text: &str, offset: int) -> Seq<char> {
    decode_utf8(text.spec_bytes().subrange(offset, text.spec_bytes().len() as int))
}

/// Number of bytes that the first `k` characters of `cs` take in UTF-8.
pub open spec fn byte_len_of_prefix(cs: Seq<char>, k: int) -> int {
    encode_utf8(cs.take(k)).len() as int
}

/// Index reached by stepping back over whitespace that ends at index `i`.
pub open spec fn skip_ws_back(cs: Seq<char>, i: int) -> int
    decreases i,
{
    if i > 0 && unicode_white_space(cs[i - 1]) {
        skip_ws_back(cs, i - 1)
    } else {
        i
    }
}

/// Whether a character belongs to a run of the class `class`: word characters
/// (alphanumeric or `_`) when `class` holds, else punctuation. Whitespace
/// belongs to neither class.
pub open spec fn in_class(c: char, class: bool) -> bool {
    if class { is_word_char(c) } else { !unicode_white_space(c) && !is_word_char(c) }
}

/// Index reached by stepping back over characters of the class `class`.
pub open spec fn skip_class_back(cs: Seq<char>, i: int, class: bool) -> int
    decreases i,
{
    if i > 0 && in_class(cs[i - 1], class) {
        skip_class_back(cs, i - 1, class)
    } else {
        i
    }
}

/// Character index where the word before the end of `cs` starts: trailing
/// whitespace is skipped, then the run of characters of the class (word or
/// punctuation) of the last character left.
pub open spec fn prev_word_index(cs: Seq<char>) -> int {
    let i = skip_ws_back(cs, cs.len() as int);
    if i <= 0 {
        0
    } else {
        skip_class_back(cs, i, is_word_char(cs[i - 1]))
    }
}

/// Index reached by stepping forward over whitespace from index `i`.
pub open spec fn skip_ws_fwd(cs: Seq<char>, i: int) -> int
    decreases cs.len() - i,
{
    if 0 <= i < cs.len() && unicode_white_space(cs[i]) {
        skip_ws_fwd(cs, i + 1)
    } else {
        i
    }
}

/// Index reached by stepping forward over characters of the class `class`.
pub open spec fn skip_class_fwd(cs: Seq<char>, i: int, class: bool) -> int
    decreases cs.len() - i,
{
    if 0 <= i < cs.len() && in_class(cs[i], class) {
        skip_class_fwd(cs, i + 1, class)
    } else {
        i
    }
}

/// Character index where the next word of `cs` ends: leading whitespace is
/// skipped, then the run of characters of the class of the first character left.
pub open spec fn next_word_index(cs: Seq<char>) -> int {
    let i = skip_ws_fwd(cs, 0);
    if i >= cs.len() {
        cs.len() as int
    } else {
        skip_class_fwd(cs, i, is_word_char(cs[i]))
    }
}

proof fn lemma_skip_ws_back_range(cs: Seq<char>, i: int)
    requires
        0 <= i <= cs.len(),
    ensures
        0 <= skip_ws_back(cs, i) <= i,
    decreases i,
{
    if i > 0 && unicode_white_space(cs[i - 1]) {
        lemma_skip_ws_back_range(cs, i - 1);
    }
}

proof fn lemma_skip_class_back_range(cs: Seq<char>, i: int, class: bool)
    requires
        0 <= i <= cs.len(),
    ensures
        0 <= skip_class_back(cs, i, class) <= i,
    decreases i,
{
    if i > 0 && in_class(cs[i - 1], class) {
        lemma_skip_class_back_range(cs, i - 1, class);
    }
}

proof fn lemma_skip_ws_fwd_range(cs: Seq<char>, i: int)
    requires
        0 <= i <= cs.len(),
    ensures
        i <= skip_ws_fwd(cs, i) <= cs.len(),
    decreases cs.len() - i,
{
    if i < cs.len() && unicode_white_space(cs[i]) {
        lemma_skip_ws_fwd_range(cs, i + 1);
    }
}

proof fn lemma_skip_class_fwd_range(cs: Seq<char>, i: int, class: bool)
    requires
        0 <= i <= cs.len(),
    ensures
        i <= skip_class_fwd(cs, i, class) <= cs.len(),
    decreases cs.len() - i,
{
    if i < cs.len() && in_class(cs[i], class) {
        lemma_skip_class_fwd_range(cs, i + 1, class);
    }
}

/// A prefix never takes more bytes than the whole sequence.
pub proof fn lemma_prefix_byte_len_le(cs: Seq<char>, k: int)
    requires
        0 <= k <= cs.len(),
    ensures
        byte_len_of_prefix(cs, k) <= encode_utf8(cs).len(),
        byte_len_of_prefix(cs, cs.len() as int) == encode_utf8(cs).len(),
{
    assert(cs =~= cs.take(k) + cs.skip(k));
    lemma_encode_utf8_concat(cs.take(k), cs.skip(k));
    assert(cs.take(cs.len() as int) =~= cs);
}

/// Byte offset of character `k` of `s`, computed by summing character widths.
fn byte_offset_of_char(s: &str, k: usize) -> (b: usize)
    requires
        k <= s@.len(),
        s.spec_bytes().len() <= usize::MAX,
    ensures
        b == byte_len_of_prefix(s@, k as int),
{
    let mut b: usize = 0;
    let mut j: usize = 0;
    while j < k
        invariant
            j <= k <= s@.len(),
            s.spec_bytes().len() <= usize::MAX,
            b == byte_len_of_prefix(s@, j as int),
        decreases k - j,
    {
        let c = s.get_char(j);
        proof {
            lemma_encode_take_step(s@, j as int);
            lemma_prefix_byte_len_le(s@, j + 1);
        }
        b = b + char_width(c);
        j = j + 1;
    }
    b
}

/// Byte offset of the start of the line that holds `offset`: just after the
/// last line feed before it, or 0.
pub fn line_start(text: &str, offset: usize) -> (r: usize)
    requires
        is_char_boundary(text.spec_bytes(), offset as int),
    ensures
        r <= offset,
        r > 0 ==> text.spec_bytes()[r - 1] == 10,
        forall|j: int| r <= j < offset ==> text.spec_bytes()[j] != 10,
{
    let bytes = text.as_bytes();
    let mut i = offset;
    while i > 0
        invariant
            i <= offset <= bytes@.len(),
            bytes@ == text.spec_bytes(),
            forall|j: int| i <= j < offset ==> bytes@[j] != 10,
        decreases i,
    {
        if bytes[i - 1] == 10 {
            return i;
        }
        i = i - 1;
    }
    0
}

/// Byte offset of the end of the line that holds `offset`: the first line
/// feed at or after it, or the end of the text.
pub fn line_end(text: &str, offset: usize) -> (r: usize)
    requires
        is_char_boundary(text.spec_bytes(), offset as int),
    ensures
        offset <= r <= text.spec_bytes().len(),
        r < text.spec_bytes().len() ==> text.spec_bytes()[r as int] == 10,
        forall|j: int| offset <= j < r ==> text.spec_bytes()[j] != 10,
{
    let bytes = text.as_bytes();
    let n = bytes.len();
    let mut i = offset;
    while i < n
        invariant
            offset <= i <= n,
            n == bytes@.len(),
            bytes@ == text.spec_bytes(),
            forall|j: int| offset <= j < i ==> bytes@[j] != 10,
        decreases n - i,
    {
        if bytes[i] == 10 {
            return i;
        }
        i = i + 1;
    }
    n
}

/// Byte offset of the start of the word before `offset` (word motion backwards).
pub fn prev_word_start(text: &str, offset: usize) -> (r: usize)
    requires
        is_char_boundary(text.spec_bytes(), offset as int),
    ensures
        r == byte_len_of_prefix(chars_before(text, offset as int), prev_word_index(chars_before(text, offset as int))),
        r <= offset,
{
    let (prefix, _rest) = text.split_at(offset);
    let ghost cs = prefix@;
    proof {
        assert(cs == chars_before(text, offset as int));
        lemma_prefix_byte_len_le(cs, 0);
    }
    let n = prefix.unicode_len();
    let mut i = n;
    loop
        invariant
            i <= n == cs.len(),
            cs == prefix@,
            skip_ws_back(cs, i as int) == skip_ws_back(cs, n as int),
        ensures
            i <= n == cs.len(),
            skip_ws_back(cs, n as int) == i,
        decreases i,
    {
        if i == 0 {
            break;
        }
        if !char_is_whitespace(prefix.get_char(i - 1)) {
            break;
        }
        i = i - 1;
    }
    if i == 0 {
        assert(prev_word_index(cs) == 0);
        return 0;
    }
    let class = is_word(prefix.get_char(i - 1));
    let ghost start = i as int;
    loop
        invariant
            i <= start <= n == cs.len(),
            cs == prefix@,
            start > 0,
            class == is_word_char(cs[start - 1]),
            skip_ws_back(cs, n as int) == start,
            skip_class_back(cs, i as int, class) == skip_class_back(cs, start, class),
        ensures
            i <= start,
            skip_class_back(cs, start, class) == i,
        decreases i,
    {
        if i == 0 {
            break;
        }
        let c = prefix.get_char(i - 1);
        let w = is_word(c);
        if w != class || (!class && char_is_whitespace(c)) {
            break;
        }
        i = i - 1;
    }
    proof {
        lemma_prefix_byte_len_le(cs, i as int);
    }
    byte_offset_of_char(prefix, i)
}

/// Byte offset of the end of the word after `offset` (word motion forwards).
pub fn next_word_end(text: &str, offset: usize) -> (r: usize)
    requires
        is_char_boundary(text.spec_bytes(), offset as int),
    ensures
        r == offset + byte_len_of_prefix(chars_from(text, offset as int), next_word_index(chars_from(text, offset as int))),
        offset <= r <= text.spec_bytes().len(),
{
    proof {
        let bs = text.spec_bytes();
        assert(valid_utf8(bs));
        if offset > bs.len() {
            assert(!is_char_boundary(bs, offset as int));
        }
    }
    let total = text.as_bytes().len();
    let (_head, suffix) = text.split_at(offset);
    let ghost cs = suffix@;
    proof {
        assert(suffix.spec_bytes().len() == text.spec_bytes().len() - offset);
        assert(cs == chars_from(text, offset as int));
        lemma_prefix_byte_len_le(cs, cs.len() as int);
    }
    let n = suffix.unicode_len();
    if n == 0 {
        proof {
            assert(cs.take(0) =~= cs);
        }
        return total;
    }
    let mut i: usize = 0;
    loop
        invariant
            i <= n == cs.len(),
            cs == suffix@,
            skip_ws_fwd(cs, i as int) == skip_ws_fwd(cs, 0),
        ensures
            i <= n == cs.len(),
            skip_ws_fwd(cs, 0) == i,
        decreases n - i,
    {
        if i == n {
            break;
        }
        if !char_is_whitespace(suffix.get_char(i)) {
            break;
        }
        i = i + 1;
    }
    if i == n {
        proof {
            assert(cs.take(n as int) =~= cs);
        }
        return total;
    }
    let class = is_word(suffix.get_char(i));
    let ghost start = i as int;
    loop
        invariant
            start <= i <= n == cs.len(),
            start < n,
            cs == suffix@,
            class == is_word_char(cs[start]),
            skip_ws_fwd(cs, 0) == start,
            skip_class_fwd(cs, i as int, class) == skip_class_fwd(cs, start, class),
        ensures
            start <= i <= n,
            skip_class_fwd(cs, start, class) == i,
        decreases n - i,
    {
        if i == n {
            break;
        }
        let c = suffix.get_char(i);
        let w = is_word(c);
        if w != class || (!class && char_is_whitespace(c)) {
            break;
        }
        i = i + 1;
    }
    if i == n {
        proof {
            assert(cs.take(n as int) =~= cs);
        }
        return total;
    }
    proof {
        lemma_prefix_byte_len_le(cs, i as int);
    }
    offset + byte_offset_of_char(suffix, i)
}

} // verus!
