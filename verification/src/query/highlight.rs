//! Syntax highlighting of SQL text: colored byte ranges computed from the
//! token stream of sqlparser's tokenizer.

use vstd::prelude::*;
use sqlparser::dialect::GenericDialect;
use sqlparser::keywords::Keyword::NoKeyword;
use sqlparser::tokenizer::Token;
use sqlparser::tokenizer::Tokenizer;
use sqlparser::tokenizer::Whitespace::{MultiLineComment, SingleLineComment};
use vstd::utf8::*;
use vstd::string::StringSliceAdditionalSpecFns;
use vstd::string::StrSliceExecFns;
use crate::chars::{char_width, lemma_boundary_after_ascii, lemma_encode_take_step};
use crate::text_motion::{byte_len_of_prefix, chars_from, lemma_prefix_byte_len_le};

verus! {

broadcast use encode_utf8_valid_utf8, encode_utf8_decode_utf8;

/// What highlighting needs to know of a token of sqlparser's tokenizer: which of
/// its variants it is (for a word, whether it is a keyword); every variant that
/// highlighting does not color is `Other`.
#[derive(Debug, Clone, Copy, PartialEq, Eq, Structural)]
pub enum TokenKind {
    Word { keyword: bool },
    SingleQuotedString,
    DoubleQuotedString,
    EscapedStringLiteral,
    NationalStringLiteral,
    SingleQuotedByteStringLiteral,
    DoubleQuotedByteStringLiteral,
    HexStringLiteral,
    Number,
    SingleLineComment,
    MultiLineComment,
    Eq,
    Neq,
    Lt,
    Gt,
    LtEq,
    GtEq,
    Plus,
    Minus,
    Mul,
    Div,
    Mod,
    Other,
}

/// A token: its kind and where it starts (1-based line and character column).
#[derive(Debug, Clone, Copy, PartialEq, Eq)]
pub struct SqlToken {
    pub kind: TokenKind,
    pub line: u64,
    pub column: u64,
}

#[verifier::external_type_specification]
#[verifier::external_body]
pub struct ExToken(sqlparser::tokenizer::Token);

/// The tokens that sqlparser's tokenizer (generic dialect) yields for the text,
/// or `None` when it reports an error.
pub uninterp spec fn sql_token_list(sql: Seq<char>) -> Option<Seq<SqlToken>>;

/// Calls sqlparser's `Tokenizer::tokenize_with_location` with the generic dialect and
/// keeps, per token, the start of its span and its kind (see `token_kind`). The result
/// is named `sql_token_list` of the text. The tokenizer reads the text from its start,
/// one token after the other, whitespace included, each token taking at least one
/// character, and a span starts at the line (counting line feeds) and character
/// column of the token's first character: so the first token starts at byte 0, and
/// token starts rise strictly and stay inside the text.
#[verifier::external_body]
fn tokenize_sql(sql: &str) -> (r: Option<Vec<SqlToken>>)
    ensures
        r matches Some(v) ==> sql_token_list(sql@) == Some(v@),
        r is None ==> sql_token_list(sql@) is None,
        r matches Some(v) ==> tokens_in_order(sql, v@),
{
    let toks = Tokenizer::new(&GenericDialect {}, sql).tokenize_with_location().ok()?;
    Some(toks.iter().map(|t| SqlToken {
        kind: token_kind(&t.token),
        line: t.span.start.line,
        column: t.span.start.column,
    }).collect())
}

/// Tells apart the variants of sqlparser's `Token` that `TokenKind` names, one arm
/// each; used by `tokenize_sql` only, whose contract covers its result.
#[verifier::external_body]
fn token_kind(t: &Token) -> TokenKind {
    match t {
        Token::Word(w) => TokenKind::Word { keyword: !matches!(w.keyword, NoKeyword) },
        Token::SingleQuotedString(_) => TokenKind::SingleQuotedString,
        Token::DoubleQuotedString(_) => TokenKind::DoubleQuotedString,
        Token::EscapedStringLiteral(_) => TokenKind::EscapedStringLiteral,
        Token::NationalStringLiteral(_) => TokenKind::NationalStringLiteral,
        Token::SingleQuotedByteStringLiteral(_) => TokenKind::SingleQuotedByteStringLiteral,
        Token::DoubleQuotedByteStringLiteral(_) => TokenKind::DoubleQuotedByteStringLiteral,
        Token::HexStringLiteral(_) => TokenKind::HexStringLiteral,
        Token::Number(..) => TokenKind::Number,
        Token::Whitespace(SingleLineComment { .. }) => TokenKind::SingleLineComment,
        Token::Whitespace(MultiLineComment(_)) => TokenKind::MultiLineComment,
        _ => operator_kind(t),
    }
}

/// The operator variants of sqlparser's `Token` that `TokenKind` names, one arm each;
/// every other variant is `Other`. Used by `token_kind` only.
#[verifier::external_body]
fn operator_kind(t: &Token) -> TokenKind {
    match t {
        Token::Eq => TokenKind::Eq,
        Token::Neq => TokenKind::Neq,
        Token::Lt => TokenKind::Lt,
        Token::Gt => TokenKind::Gt,
        Token::LtEq => TokenKind::LtEq,
        Token::GtEq => TokenKind::GtEq,
        Token::Plus => TokenKind::Plus,
        Token::Minus => TokenKind::Minus,
        Token::Mul => TokenKind::Mul,
        Token::Div => TokenKind::Div,
        Token::Mod => TokenKind::Mod,
        _ => TokenKind::Other,
    }
}

/// Keyword color (blue).
pub const KEYWORD_COLOR: u32 = 0x89b4faff;
/// String color (green).
pub const STRING_COLOR: u32 = 0xa6e3a1ff;
/// Number color (peach).
pub const NUMBER_COLOR: u32 = 0xfab387ff;
/// Comment color (muted).
pub const COMMENT_COLOR: u32 = 0x6c7086ff;
/// Operator color (sky).
pub const OPERATOR_COLOR: u32 = 0x89dcebff;

/// The color (RGBA) a token is drawn in: keywords blue, string literals green,
/// numbers peach, comments muted, arithmetic and comparison operators sky;
/// identifiers, punctuation and whitespace keep the default color.
pub open spec fn kind_color(k: TokenKind) -> Option<u32> {
    match k {
        TokenKind::Word { keyword } => if keyword { Some(KEYWORD_COLOR) } else { None },
        TokenKind::SingleQuotedString | TokenKind::DoubleQuotedString
        | TokenKind::EscapedStringLiteral | TokenKind::NationalStringLiteral
        | TokenKind::SingleQuotedByteStringLiteral | TokenKind::DoubleQuotedByteStringLiteral
        | TokenKind::HexStringLiteral => Some(STRING_COLOR),
        TokenKind::Number => Some(NUMBER_COLOR),
        TokenKind::SingleLineComment | TokenKind::MultiLineComment => Some(COMMENT_COLOR),
        TokenKind::Eq | TokenKind::Neq | TokenKind::Lt | TokenKind::Gt | TokenKind::LtEq
        | TokenKind::GtEq | TokenKind::Plus | TokenKind::Minus | TokenKind::Mul
        | TokenKind::Div | TokenKind::Mod => Some(OPERATOR_COLOR),
        TokenKind::Other => None,
    }
}

/// The color a token is drawn in.
pub fn token_color(k: TokenKind) -> (r: Option<u32>)
    ensures
        r == kind_color(k),
{
    match k {
        TokenKind::Word { keyword } => if keyword { Some(KEYWORD_COLOR) } else { None },
        TokenKind::SingleQuotedString | TokenKind::DoubleQuotedString
        | TokenKind::EscapedStringLiteral | TokenKind::NationalStringLiteral
        | TokenKind::SingleQuotedByteStringLiteral | TokenKind::DoubleQuotedByteStringLiteral
        | TokenKind::HexStringLiteral => Some(STRING_COLOR),
        TokenKind::Number => Some(NUMBER_COLOR),
        TokenKind::SingleLineComment | TokenKind::MultiLineComment => Some(COMMENT_COLOR),
        TokenKind::Eq | TokenKind::Neq | TokenKind::Lt | TokenKind::Gt | TokenKind::LtEq
        | TokenKind::GtEq | TokenKind::Plus | TokenKind::Minus | TokenKind::Mul
        | TokenKind::Div | TokenKind::Mod => Some(OPERATOR_COLOR),
        TokenKind::Other => None,
    }
}

/// A colored byte range `[start, end)` of the text.
#[derive(Debug, Clone, Copy, PartialEq, Eq)]
pub struct HighlightSpan {
    pub start: usize,
    pub end: usize,
    pub color: u32,
}

/// Byte offsets of the line starts: 0, then one past every line feed.
pub open spec fn line_starts_of(bytes: Seq<u8>) -> Seq<int>
    decreases bytes.len(),
{
    if bytes.len() == 0 {
        seq![0]
    } else if bytes.last() == 10 {
        line_starts_of(bytes.drop_last()).push(bytes.len() as int)
    } else {
        line_starts_of(bytes.drop_last())
    }
}

proof fn lemma_line_starts_bounds(bytes: Seq<u8>)
    ensures
        line_starts_of(bytes).len() >= 1,
        line_starts_of(bytes)[0] == 0,
        forall|k: int| 0 <= k < line_starts_of(bytes).len() ==> 0 <= #[trigger] line_starts_of(bytes)[k] <= bytes.len(),
        forall|k: int| 0 < k < line_starts_of(bytes).len() ==> 1 <= #[trigger] line_starts_of(bytes)[k] && bytes[line_starts_of(bytes)[k] - 1] == 10,
    decreases bytes.len(),
{
    if bytes.len() > 0 {
        let prev = bytes.drop_last();
        lemma_line_starts_bounds(prev);
        let ls = line_starts_of(bytes);
        let pls = line_starts_of(prev);
        assert forall|k: int| 0 < k < ls.len() implies 1 <= #[trigger] ls[k] && bytes[ls[k] - 1] == 10 by {
            if k < pls.len() {
                assert(ls[k] == pls[k]);
                assert(prev[pls[k] - 1] == bytes[pls[k] - 1]);
            }
        }
    }
}

/// Line starts rise strictly.
pub proof fn lemma_line_starts_increasing(bytes: Seq<u8>)
    ensures
        forall|i: int, j: int| 0 <= i < j < line_starts_of(bytes).len() ==> line_starts_of(bytes)[i] < line_starts_of(bytes)[j],
        forall|k: int| 0 <= k < line_starts_of(bytes).len() ==> 0 <= #[trigger] line_starts_of(bytes)[k] <= bytes.len(),
        forall|k: int| 0 < k < line_starts_of(bytes).len() ==> 1 <= #[trigger] line_starts_of(bytes)[k] && bytes[line_starts_of(bytes)[k] - 1] == 10,
        line_starts_of(bytes).len() >= 1,
        line_starts_of(bytes)[0] == 0,
    decreases bytes.len(),
{
    lemma_line_starts_bounds(bytes);
    if bytes.len() > 0 {
        let prev = bytes.drop_last();
        lemma_line_starts_increasing(prev);
        lemma_line_starts_bounds(prev);
    }
}

/// Byte offset of the first character on each line (0-indexed lines).
pub fn build_line_starts(sql: &str) -> (r: Vec<usize>)
    ensures
        r@.map_values(|x: usize| x as int) == line_starts_of(sql.spec_bytes()),
{
    let bytes = sql.as_bytes();
    let n = bytes.len();
    let mut r: Vec<usize> = Vec::new();
    r.push(0);
    let mut i: usize = 0;
    proof {
        assert(bytes@.take(0) =~= Seq::<u8>::empty());
        assert(r@.map_values(|x: usize| x as int) =~= seq![0int]);
    }
    while i < n
        invariant
            i <= n == bytes@.len(),
            bytes@ == sql.spec_bytes(),
            r@.map_values(|x: usize| x as int) == line_starts_of(bytes@.take(i as int)),
        decreases n - i,
    {
        proof {
            assert(bytes@.take(i + 1).drop_last() =~= bytes@.take(i as int));
        }
        if bytes[i] == 10 {
            let ghost old_r = r@;
            r.push(i + 1);
            proof {
                assert(r@.map_values(|x: usize| x as int) =~= old_r.map_values(|x: usize| x as int).push(i + 1));
            }
        }
        i = i + 1;
    }
    proof {
        assert(bytes@.take(n as int) =~= bytes@);
    }
    r
}

/// The byte offset of a 1-based (line, character column) location: the line's
/// start (the text's end for lines past the last), advanced by `col - 1`
/// characters, or the text's end when the line has fewer characters.
pub open spec fn location_byte(sql: &str, line: int, col: int) -> int {
    let starts = line_starts_of(sql.spec_bytes());
    let li = if line >= 1 { line - 1 } else { 0 };
    let b = if li < starts.len() { starts[li] } else { sql.spec_bytes().len() as int };
    let cs = chars_from(sql, b);
    let k = if col >= 1 { col - 1 } else { 0 };
    if k < cs.len() {
        b + byte_len_of_prefix(cs, k)
    } else {
        sql.spec_bytes().len() as int
    }
}

proof fn lemma_line_starts_are_boundaries(sql: &str)
    ensures
        forall|k: int| 0 <= k < line_starts_of(sql.spec_bytes()).len() ==> is_char_boundary(sql.spec_bytes(), #[trigger] line_starts_of(sql.spec_bytes())[k]),
{
    let bytes = sql.spec_bytes();
    lemma_line_starts_bounds(bytes);
    is_char_boundary_start_end_of_seq(bytes);
    assert forall|k: int| 0 <= k < line_starts_of(bytes).len() implies is_char_boundary(bytes, #[trigger] line_starts_of(bytes)[k]) by {
        if k > 0 {
            lemma_boundary_after_ascii(bytes, line_starts_of(bytes)[k] - 1);
        }
    }
}

/// Converts a 1-based (line, character column) location to a byte offset in `sql`.
pub fn location_to_byte(sql: &str, line: usize, col: usize, line_starts: &[usize]) -> (r: usize)
    requires
        line_starts@.map_values(|x: usize| x as int) == line_starts_of(sql.spec_bytes()),
    ensures
        r == location_byte(sql, line as int, col as int),
        r <= sql.spec_bytes().len(),
{
    proof {
        lemma_line_starts_bounds(sql.spec_bytes());
        lemma_line_starts_are_boundaries(sql);
        is_char_boundary_start_end_of_seq(sql.spec_bytes());
    }
    let total = sql.as_bytes().len();
    let li = if line >= 1 { line - 1 } else { 0 };
    let b = if li < line_starts.len() { line_starts[li] } else { total };
    proof {
        if li < line_starts@.len() {
            assert(line_starts@.map_values(|x: usize| x as int)[li as int] == b);
        }
        assert(is_char_boundary(sql.spec_bytes(), b as int));
    }
    let (_head, rest) = sql.split_at(b);
    let ghost cs = rest@;
    proof {
        assert(cs == chars_from(sql, b as int));
        lemma_prefix_byte_len_le(cs, 0);
        lemma_prefix_byte_len_le(cs, cs.len() as int);
    }
    let k = if col >= 1 { col - 1 } else { 0 };
    let n = rest.unicode_len();
    if k >= n {
        return total;
    }
    let mut off: usize = 0;
    let mut j: usize = 0;
    while j < k
        invariant
            j <= k < n == cs.len(),
            cs == rest@,
            b + encode_utf8(cs).len() == total,
            total == sql.spec_bytes().len(),
            off == byte_len_of_prefix(cs, j as int),
        decreases k - j,
    {
        proof {
            lemma_encode_take_step(cs, j as int);
            lemma_prefix_byte_len_le(cs, j + 1);
        }
        off = off + char_width(rest.get_char(j));
        j = j + 1;
    }
    proof {
        lemma_prefix_byte_len_le(cs, k as int);
    }
    b + off
}

/// The byte offset where token `i` starts.
pub open spec fn token_start(sql: &str, toks: Seq<SqlToken>, i: int) -> int {
    location_byte(sql, toks[i].line as usize as int, toks[i].column as usize as int)
}

/// The tokens start at the text's first byte and then at strictly rising
/// offsets inside the text.
pub open spec fn tokens_in_order(sql: &str, toks: Seq<SqlToken>) -> bool {
    &&& toks.len() > 0 ==> token_start(sql, toks, 0) == 0
    &&& forall|i: int| 0 <= i < toks.len() ==> #[trigger] token_start(sql, toks, i) < sql.spec_bytes().len()
    &&& forall|i: int| 0 <= i < toks.len() - 1 ==> #[trigger] token_start(sql, toks, i) < token_start(sql, toks, i + 1)
}

/// The span of token `i`: from its start to the next token's start (the text's
/// end for the last token), colored by its kind.
pub open spec fn token_span(sql: &str, toks: Seq<SqlToken>, i: int) -> Option<HighlightSpan> {
    let start = location_byte(sql, toks[i].line as usize as int, toks[i].column as usize as int);
    let end = if i + 1 < toks.len() {
        location_byte(sql, toks[i + 1].line as usize as int, toks[i + 1].column as usize as int)
    } else {
        sql.spec_bytes().len() as int
    };
    if start < end && kind_color(toks[i].kind) is Some {
        Some(HighlightSpan { start: start as usize, end: end as usize, color: kind_color(toks[i].kind)->0 })
    } else {
        None
    }
}

/// The spans of the first `k` tokens, in token order.
pub open spec fn spans_upto(sql: &str, toks: Seq<SqlToken>, k: int) -> Seq<HighlightSpan>
    decreases k,
{
    if k <= 0 {
        Seq::empty()
    } else {
        match token_span(sql, toks, k - 1) {
            Some(s) => spans_upto(sql, toks, k - 1).push(s),
            None => spans_upto(sql, toks, k - 1),
        }
    }
}

/// The highlighting of a text: nothing for empty text or when the tokenizer
/// fails, else the spans of its colored tokens.
pub open spec fn highlight_spans(sql: &str) -> Seq<HighlightSpan> {
    if sql@.len() == 0 {
        Seq::empty()
    } else {
        match sql_token_list(sql@) {
            None => Seq::empty(),
            Some(toks) => spans_upto(sql, toks, toks.len() as int),
        }
    }
}

/// The spans of tokens of the text: each colored token runs from its start to
/// the next token's start (the text's end for the last token); tokens that take
/// no bytes, or that keep the default color, give no span. When the tokens start
/// in text order, the spans come in text order too.
pub fn spans_of_tokens(sql: &str, tokens: &Vec<SqlToken>) -> (r: Vec<HighlightSpan>)
    ensures
        r@ == spans_upto(sql, tokens@, tokens@.len() as int),
        forall|i: int| 0 <= i < r@.len() ==> (#[trigger] r@[i]).start < r@[i].end <= sql.spec_bytes().len(),
        tokens_in_order(sql, tokens@) ==> forall|i: int, j: int| 0 <= i < j < r@.len() ==> r@[i].end <= r@[j].start,
{
    let line_starts = build_line_starts(sql);
    let total = sql.as_bytes().len();
    let n = tokens.len();
    let mut starts: Vec<usize> = Vec::new();
    let mut i: usize = 0;
    while i < n
        invariant
            i <= n == tokens@.len(),
            line_starts@.map_values(|x: usize| x as int) == line_starts_of(sql.spec_bytes()),
            starts@.len() == i,
            forall|j: int| 0 <= j < i ==> (#[trigger] starts@[j]) == location_byte(sql, tokens@[j].line as usize as int, tokens@[j].column as usize as int),
            forall|j: int| 0 <= j < i ==> (#[trigger] starts@[j]) <= total,
            total == sql.spec_bytes().len(),
        decreases n - i,
    {
        let t = tokens[i];
        let s = location_to_byte(sql, t.line as usize, t.column as usize, line_starts.as_slice());
        starts.push(s);
        i = i + 1;
    }
    let ghost ordered = tokens_in_order(sql, tokens@);
    let mut spans: Vec<HighlightSpan> = Vec::new();
    let mut k: usize = 0;
    while k < n
        invariant
            k <= n == tokens@.len() == starts@.len(),
            forall|j: int| 0 <= j < n ==> (#[trigger] starts@[j]) == location_byte(sql, tokens@[j].line as usize as int, tokens@[j].column as usize as int),
            forall|j: int| 0 <= j < n ==> (#[trigger] starts@[j]) <= total,
            total == sql.spec_bytes().len(),
            spans@ == spans_upto(sql, tokens@, k as int),
            forall|j: int| 0 <= j < spans@.len() ==> (#[trigger] spans@[j]).start < spans@[j].end <= total,
            ordered == tokens_in_order(sql, tokens@),
            ordered ==> forall|j1: int, j2: int| 0 <= j1 < j2 < spans@.len() ==> spans@[j1].end <= spans@[j2].start,
            ordered && k < n ==> forall|j: int| 0 <= j < spans@.len() ==> (#[trigger] spans@[j]).end <= starts@[k as int],
        decreases n - k,
    {
        proof {
            if ordered && k + 1 < n {
                assert(token_start(sql, tokens@, k as int) < token_start(sql, tokens@, k + 1));
            }
        }
        let start = starts[k];
        let end = if k + 1 < n { starts[k + 1] } else { total };
        if start < end {
            match token_color(tokens[k].kind) {
                Some(color) => {
                    spans.push(HighlightSpan { start, end, color });
                },
                None => {},
            }
        }
        k = k + 1;
    }
    spans
}

/// Computes the colored spans of a SQL text.
pub fn highlight(sql: &str) -> (r: Vec<HighlightSpan>)
    ensures
        r@ == highlight_spans(sql),
        forall|i: int| 0 <= i < r@.len() ==> (#[trigger] r@[i]).start < r@[i].end <= sql.spec_bytes().len(),
        forall|i: int, j: int| 0 <= i < j < r@.len() ==> r@[i].end <= r@[j].start,
{
    if sql.is_empty() {
        return Vec::new();
    }
    match tokenize_sql(sql) {
        Some(tokens) => spans_of_tokens(sql, &tokens),
        None => Vec::new(),
    }
}

} // verus!
