//! Character classification and UTF-8 width facts used by the text logic.

use vstd::prelude::*;
use vstd::utf8::*;

verus! {

/// Whether a character has the Unicode `White_Space` property, as `char::is_whitespace`
/// reports: the 25 code points U+0009–U+000D, U+0020, U+0085, U+00A0, U+1680,
/// U+2000–U+200A, U+2028, U+2029, U+202F, U+205F and U+3000.
pub open spec fn unicode_white_space(c: char) -> bool {
    let u = c as u32;
    ||| 0x9 <= u <= 0xD
    ||| u == 0x20
    ||| u == 0x85
    ||| u == 0xA0
    ||| u == 0x1680
    ||| 0x2000 <= u <= 0x200A
    ||| u == 0x2028
    ||| u == 0x2029
    ||| u == 0x202F
    ||| u == 0x205F
    ||| u == 0x3000
}

/// Whether a character is Unicode alphabetic or numeric, as `char::is_alphanumeric` reports.
pub uninterp spec fn unicode_alphanumeric(c: char) -> bool;

/// ASCII letters and digits.
pub open spec fn is_ascii_alnum(c: char) -> bool {
    ('a' <= c && c <= 'z') || ('A' <= c && c <= 'Z') || ('0' <= c && c <= '9')
}

/// A character that belongs to a word: alphanumeric or underscore.
pub open spec fn is_word_char(c: char) -> bool {
    unicode_alphanumeric(c) || c == '_'
}

/// Calls `char::is_whitespace`, which is true exactly for the characters with the
/// Unicode `White_Space` property (`unicode_white_space`).
#[verifier::external_body]
pub(crate) fn char_is_whitespace(c: char) -> (r: bool)
    ensures
        r == unicode_white_space(c),
{
    c.is_whitespace()
}

/// Calls `char::is_alphanumeric`. Its result is named `unicode_alphanumeric`; for ASCII
/// characters the contract states the documented answer (true exactly for letters and
/// digits), and no whitespace character is alphabetic or numeric.
#[verifier::external_body]
pub(crate) fn char_is_alphanumeric(c: char) -> (r: bool)
    ensures
        r == unicode_alphanumeric(c),
        (c as u32) < 128 ==> (r <==> is_ascii_alnum(c)),
        unicode_white_space(c) ==> !r,
{
    c.is_alphanumeric()
}

/// Whether `c` belongs to a word (alphanumeric or `_`).
pub fn is_word(c: char) -> (r: bool)
    ensures
        r == is_word_char(c),
        r ==> !unicode_white_space(c),
{
    char_is_alphanumeric(c) || c == '_'
}

/// Number of bytes of the UTF-8 encoding of a character.
pub open spec fn utf8_width(c: char) -> nat {
    encode_scalar(c as u32).len()
}

/// The UTF-8 width of `c`, computed from its scalar value.
pub fn char_width(c: char) -> (w: usize)
    ensures
        w == utf8_width(c),
        1 <= w <= 4,
{
    proof {
        char_is_scalar(c);
    }
    let v = c as u32;
    if v < 0x80 {
        1
    } else if v < 0x800 {
        2
    } else if v < 0x10000 {
        3
    } else {
        4
    }
}

/// The position right after an ASCII byte of valid UTF-8 is a character boundary.
pub proof fn lemma_boundary_after_ascii(bytes: Seq<u8>, i: int)
    requires
        valid_utf8(bytes),
        0 <= i < bytes.len(),
        bytes[i] < 0x80,
    ensures
        is_char_boundary(bytes, i + 1),
{
    is_char_boundary_iff_not_is_continuation_byte(bytes, i);
    if i + 1 == bytes.len() {
        is_char_boundary_start_end_of_seq(bytes);
    } else {
        valid_utf8_split(bytes, i);
        let suf = bytes.subrange(i, bytes.len() as int);
        assert(valid_utf8(suf));
        assert(suf[0] == bytes[i]);
        let rest = pop_first_scalar(suf);
        assert(rest =~= bytes.subrange(i + 1, bytes.len() as int));
        assert(valid_utf8(rest));
        assert(rest.len() > 0);
        assert(valid_first_scalar(rest));
        assert(rest[0] == bytes[i + 1]);
        is_char_boundary_iff_not_is_continuation_byte(bytes, i + 1);
    }
}

/// The end of the encoding of a prefix of characters is a boundary of the encoding of the whole.
pub proof fn lemma_prefix_boundary(cs: Seq<char>, k: int)
    requires
        0 <= k <= cs.len(),
    ensures
        is_char_boundary(encode_utf8(cs), encode_utf8(cs.take(k)).len() as int),
    decreases k,
{
    encode_utf8_valid_utf8(cs);
    if k == 0 {
        assert(cs.take(0) =~= Seq::<char>::empty());
        assert(encode_utf8(Seq::<char>::empty()) =~= Seq::<u8>::empty());
    } else {
        let rest = cs.drop_first();
        lemma_prefix_boundary(rest, k - 1);
        encode_utf8_first_scalar(cs);
        let bytes = encode_utf8(cs);
        assert(pop_first_scalar(bytes) =~= encode_utf8(rest));
        assert(cs.take(k) =~= seq![cs[0]] + rest.take(k - 1));
        lemma_encode_utf8_concat(seq![cs[0]], rest.take(k - 1));
        assert(seq![cs[0]].drop_first() =~= Seq::<char>::empty());
        assert(encode_utf8(Seq::<char>::empty()) =~= Seq::<u8>::empty());
        assert(encode_utf8(seq![cs[0]]) =~= encode_scalar(cs[0] as u32));
        encode_utf8_valid_utf8(rest);
    }
}

/// The encoding of a concatenation is the concatenation of the encodings.
pub proof fn lemma_encode_utf8_concat(a: Seq<char>, b: Seq<char>)
    ensures
        encode_utf8(a + b) == encode_utf8(a) + encode_utf8(b),
    decreases a.len(),
{
    if a.len() == 0 {
        assert(a + b =~= b);
    } else {
        assert((a + b).drop_first() =~= a.drop_first() + b);
        lemma_encode_utf8_concat(a.drop_first(), b);
        assert(encode_utf8(a + b) =~= encode_utf8(a) + encode_utf8(b));
    }
}

/// The byte length of a prefix grows by the width of the next character.
pub proof fn lemma_encode_take_step(cs: Seq<char>, k: int)
    requires
        0 <= k < cs.len(),
    ensures
        encode_utf8(cs.take(k + 1)).len() == encode_utf8(cs.take(k)).len() + utf8_width(cs[k]),
{
    assert(cs.take(k + 1) =~= cs.take(k) + seq![cs[k]]);
    lemma_encode_utf8_concat(cs.take(k), seq![cs[k]]);
    assert(seq![cs[k]].drop_first() =~= Seq::<char>::empty());
    assert(encode_utf8(Seq::<char>::empty()) =~= Seq::<u8>::empty());
}

} // verus!
