//! Verified string building blocks: trimming, escaping, joining, case-insensitive
//! comparison and decimal text for integers.

use vstd::prelude::*;
use vstd::string::StrSliceExecFns;
use vstd::string::StringExecFns;
use crate::chars::{char_is_whitespace, unicode_white_space};

verus! {

/// Appends a character: calls `String::push`, which adds `c` at the end.
#[verifier::external_body]
pub(crate) fn push_char(s: &mut String, c: char)
    ensures
        final(s)@ == old(s)@.push(c),
{
    s.push(c);
}

/// A copy of `s` as an owned string.
pub fn to_owned_string(s: &str) -> (r: String)
    ensures
        r@ == s@,
{
    String::from_str(s)
}

/// `a` followed by `b`.
pub fn concat2(a: &str, b: &str) -> (r: String)
    ensures
        r@ == a@ + b@,
{
    let mut r = String::from_str(a);
    r.append(b);
    r
}

/// `a`, `b` and `c` one after the other.
pub fn concat3(a: &str, b: &str, c: &str) -> (r: String)
    ensures
        r@ == a@ + b@ + c@,
{
    let mut r = String::from_str(a);
    r.append(b);
    r.append(c);
    r
}

// ── whitespace trimming ──────────────────────────────────────────────────────

/// Number of leading whitespace characters.
pub open spec fn leading_ws(cs: Seq<char>, i: int) -> int
    decreases cs.len() - i,
{
    if 0 <= i < cs.len() && unicode_white_space(cs[i]) {
        leading_ws(cs, i + 1)
    } else {
        i
    }
}

/// Index just after the last non-whitespace character before `i`.
pub open spec fn trailing_ws(cs: Seq<char>, i: int) -> int
    decreases i,
{
    if i > 0 && unicode_white_space(cs[i - 1]) {
        trailing_ws(cs, i - 1)
    } else {
        i
    }
}

/// `cs` without leading and trailing whitespace.
pub open spec fn trimmed(cs: Seq<char>) -> Seq<char> {
    let a = leading_ws(cs, 0);
    if a >= cs.len() {
        Seq::empty()
    } else {
        cs.subrange(a, trailing_ws(cs, cs.len() as int))
    }
}

proof fn lemma_leading_ws(cs: Seq<char>, i: int)
    requires
        0 <= i <= cs.len(),
    ensures
        i <= leading_ws(cs, i) <= cs.len(),
        forall|j: int| i <= j < leading_ws(cs, i) ==> unicode_white_space(cs[j]),
        leading_ws(cs, i) < cs.len() ==> !unicode_white_space(cs[leading_ws(cs, i)]),
    decreases cs.len() - i,
{
    if i < cs.len() && unicode_white_space(cs[i]) {
        lemma_leading_ws(cs, i + 1);
    }
}

proof fn lemma_trailing_ws(cs: Seq<char>, i: int)
    requires
        0 <= i <= cs.len(),
    ensures
        0 <= trailing_ws(cs, i) <= i,
        forall|j: int| trailing_ws(cs, i) <= j < i ==> unicode_white_space(cs[j]),
        trailing_ws(cs, i) > 0 ==> !unicode_white_space(cs[trailing_ws(cs, i) - 1]),
    decreases i,
{
    if i > 0 && unicode_white_space(cs[i - 1]) {
        lemma_trailing_ws(cs, i - 1);
    }
}

/// The trimmed text lies between the leading and the trailing whitespace.
pub proof fn lemma_trim_bounds(cs: Seq<char>)
    ensures
        leading_ws(cs, 0) < cs.len() ==> leading_ws(cs, 0) < trailing_ws(cs, cs.len() as int) <= cs.len(),
{
    lemma_leading_ws(cs, 0);
    lemma_trailing_ws(cs, cs.len() as int);
    let a = leading_ws(cs, 0);
    let b = trailing_ws(cs, cs.len() as int);
    if a < cs.len() && b <= a {
        assert(!unicode_white_space(cs[a]));
        assert(unicode_white_space(cs[a]));
    }
}

/// Calls `str::trim`-equivalent logic: the text without leading and trailing
/// Unicode whitespace.
pub fn trim(s: &str) -> (r: &str)
    ensures
        r@ == trimmed(s@),
{
    let n = s.unicode_len();
    let mut a: usize = 0;
    while a < n
        invariant
            a <= n == s@.len(),
            leading_ws(s@, a as int) == leading_ws(s@, 0),
        ensures
            a <= n,
            leading_ws(s@, 0) == a,
        decreases n - a,
    {
        if !char_is_whitespace(s.get_char(a)) {
            break;
        }
        a = a + 1;
    }
    if a == n {
        return s.substring_char(n, n);
    }
    let mut b: usize = n;
    while b > 0
        invariant
            b <= n == s@.len(),
            trailing_ws(s@, b as int) == trailing_ws(s@, n as int),
        ensures
            b <= n,
            trailing_ws(s@, n as int) == b,
        decreases b,
    {
        if !char_is_whitespace(s.get_char(b - 1)) {
            break;
        }
        b = b - 1;
    }
    proof {
        lemma_trim_bounds(s@);
    }
    s.substring_char(a, b)
}

// ── escaping by doubling a quote character ──────────────────────────────────

/// `cs` with every occurrence of `q` doubled.
pub open spec fn doubled(cs: Seq<char>, q: char) -> Seq<char>
    decreases cs.len(),
{
    if cs.len() == 0 {
        Seq::empty()
    } else if cs.last() == q {
        doubled(cs.drop_last(), q).push(q).push(q)
    } else {
        doubled(cs.drop_last(), q).push(cs.last())
    }
}

/// `s` with every `q` replaced by two `q`s, as `s.replace(q, qq)` gives.
pub fn double_char(s: &str, q: char) -> (r: String)
    ensures
        r@ == doubled(s@, q),
{
    let n = s.unicode_len();
    let mut r = String::new();
    let mut i: usize = 0;
    while i < n
        invariant
            i <= n == s@.len(),
            r@ == doubled(s@.take(i as int), q),
        decreases n - i,
    {
        let c = s.get_char(i);
        push_char(&mut r, c);
        if c == q {
            push_char(&mut r, c);
        }
        proof {
            assert(s@.take(i + 1).drop_last() =~= s@.take(i as int));
        }
        i = i + 1;
    }
    proof {
        assert(s@.take(n as int) =~= s@);
    }
    r
}

// ── joining ───────────────────────────────────────────────────────────────────

/// The pieces one after the other with `sep` between neighbours.
pub open spec fn joined(pieces: Seq<Seq<char>>, sep: Seq<char>) -> Seq<char>
    decreases pieces.len(),
{
    if pieces.len() == 0 {
        Seq::empty()
    } else if pieces.len() == 1 {
        pieces[0]
    } else {
        joined(pieces.drop_last(), sep) + sep + pieces.last()
    }
}

/// The views of a list of strings.
pub open spec fn views(list: Seq<String>) -> Seq<Seq<char>> {
    list.map_values(|s: String| s@)
}

/// Viewing a list after a push views the pushed string last.
pub proof fn lemma_views_push(list: Seq<String>, s: String)
    ensures
        views(list.push(s)) == views(list).push(s@),
{
    assert(views(list.push(s)) =~= views(list).push(s@));
}

/// Trimming each piece after a push trims the pushed piece last.
pub proof fn lemma_trim_map_push(pieces: Seq<Seq<char>>, p: Seq<char>)
    ensures
        pieces.push(p).map_values(|x: Seq<char>| trimmed(x)) == pieces.map_values(|x: Seq<char>| trimmed(x)).push(trimmed(p)),
{
    assert(pieces.push(p).map_values(|x: Seq<char>| trimmed(x)) =~= pieces.map_values(|x: Seq<char>| trimmed(x)).push(trimmed(p)));
}

/// Joins strings with a separator, as `slice::join` does.
pub fn join(list: &Vec<String>, sep: &str) -> (r: String)
    ensures
        r@ == joined(views(list@), sep@),
{
    let mut r = String::new();
    let n = list.len();
    let mut i: usize = 0;
    while i < n
        invariant
            i <= n == list@.len(),
            r@ == joined(views(list@.take(i as int)), sep@),
        decreases n - i,
    {
        if i > 0 {
            r.append(sep);
        }
        r.append(list[i].as_str());
        proof {
            assert(views(list@.take(i + 1)).drop_last() =~= views(list@.take(i as int)));
            if i == 0 {
                assert(views(list@.take(1)) =~= seq![list@[0]@]);
                assert(r@ =~= list@[0]@);
            }
        }
        i = i + 1;
    }
    proof {
        assert(list@.take(n as int) =~= list@);
    }
    r
}

// ── ASCII case-insensitive comparison ────────────────────────────────────────

/// The code of `c` after ASCII lower-casing.
pub open spec fn ascii_lower_code(c: char) -> u32 {
    if 'A' <= c && c <= 'Z' {
        (c as u32 + 32) as u32
    } else {
        c as u32
    }
}

/// Equal up to ASCII case, as `str::eq_ignore_ascii_case` compares.
pub open spec fn eq_ignore_ascii_case(a: Seq<char>, b: Seq<char>) -> bool {
    a.len() == b.len() && forall|i: int| 0 <= i < a.len() ==> ascii_lower_code(#[trigger] a[i]) == ascii_lower_code(b[i])
}

fn lower_code(c: char) -> (r: u32)
    ensures
        r == ascii_lower_code(c),
{
    let v = c as u32;
    if 'A' <= c && c <= 'Z' {
        v + 32
    } else {
        v
    }
}

/// Whether `a` and `b` are equal up to ASCII case.
pub fn str_eq_ignore_ascii_case(a: &str, b: &str) -> (r: bool)
    ensures
        r == eq_ignore_ascii_case(a@, b@),
{
    let n = a.unicode_len();
    if n != b.unicode_len() {
        return false;
    }
    let mut i: usize = 0;
    while i < n
        invariant
            i <= n == a@.len() == b@.len(),
            forall|j: int| 0 <= j < i ==> ascii_lower_code(#[trigger] a@[j]) == ascii_lower_code(b@[j]),
        decreases n - i,
    {
        if lower_code(a.get_char(i)) != lower_code(b.get_char(i)) {
            return false;
        }
        i = i + 1;
    }
    true
}

// ── decimal text of integers ──────────────────────────────────────────────────

/// The ASCII digit for `d` (0..=9).
pub open spec fn digit_char(d: nat) -> char {
    ((48 + d) as u8) as char
}

/// Decimal digits of `n`, most significant first, without leading zeros.
pub open spec fn decimal(n: nat) -> Seq<char>
    decreases n,
{
    if n < 10 {
        seq![digit_char(n)]
    } else {
        decimal(n / 10).push(digit_char(n % 10))
    }
}

/// Decimal text of a signed integer, with a leading `-` when negative.
pub open spec fn signed_decimal(n: int) -> Seq<char> {
    if n < 0 {
        seq!['-'] + decimal((-n) as nat)
    } else {
        decimal(n as nat)
    }
}

fn digit(d: u64) -> (c: char)
    requires
        d < 10,
    ensures
        c == digit_char(d as nat),
{
    let b: u8 = 48 + (d as u8);
    b as char
}

/// Decimal text of an unsigned integer, as `u64::to_string` gives.
pub fn u64_to_decimal(n: u64) -> (r: String)
    ensures
        r@ == decimal(n as nat),
    decreases n,
{
    if n < 10 {
        let mut r = String::new();
        push_char(&mut r, digit(n));
        r
    } else {
        let mut r = u64_to_decimal(n / 10);
        push_char(&mut r, digit(n % 10));
        r
    }
}

/// Decimal text of an unsigned 128-bit integer, as `u128::to_string` gives.
pub fn u128_to_decimal(n: u128) -> (r: String)
    ensures
        r@ == decimal(n as nat),
    decreases n,
{
    if n < 10 {
        let mut r = String::new();
        push_char(&mut r, digit(n as u64));
        r
    } else {
        let mut r = u128_to_decimal(n / 10);
        push_char(&mut r, digit((n % 10) as u64));
        r
    }
}

/// Decimal text of a signed integer, as `i64::to_string` gives.
pub fn i64_to_decimal(n: i64) -> (r: String)
    ensures
        r@ == signed_decimal(n as int),
{
    if n < 0 {
        let m: u64 = ((-(n + 1)) as u64) + 1;
        let digits = u64_to_decimal(m);
        let mut r = String::new();
        push_char(&mut r, '-');
        r.append(digits.as_str());
        r
    } else {
        u64_to_decimal(n as u64)
    }
}

// ── parsing decimal text ──────────────────────────────────────────────────────

/// Whether `c` is an ASCII digit.
pub open spec fn is_digit(c: char) -> bool {
    '0' <= c && c <= '9'
}

/// The value of a run of ASCII digits.
pub open spec fn digits_value(cs: Seq<char>) -> nat
    decreases cs.len(),
{
    if cs.len() == 0 {
        0
    } else {
        digits_value(cs.drop_last()) * 10 + ((cs.last() as u32 - 48) as nat)
    }
}

/// The digits of an unsigned decimal literal: the text after an optional `+`.
pub open spec fn unsigned_digits(cs: Seq<char>) -> Seq<char> {
    if cs.len() > 0 && cs[0] == '+' {
        cs.drop_first()
    } else {
        cs
    }
}

/// The value of `cs` read as an unsigned decimal number no larger than `max`,
/// the way `str::parse` reads unsigned integers: an optional `+`, then one or
/// more ASCII digits and nothing else.
pub open spec fn parse_unsigned(cs: Seq<char>, max: nat) -> Option<nat> {
    let d = unsigned_digits(cs);
    if d.len() > 0 && (forall|i: int| 0 <= i < d.len() ==> is_digit(#[trigger] d[i])) && digits_value(d) <= max {
        Some(digits_value(d))
    } else {
        None
    }
}

proof fn lemma_digits_value_step(cs: Seq<char>, i: int)
    requires
        0 <= i < cs.len(),
    ensures
        digits_value(cs.take(i + 1)) == digits_value(cs.take(i)) * 10 + ((cs[i] as u32 - 48) as nat),
{
    assert(cs.take(i + 1).drop_last() =~= cs.take(i));
}

proof fn lemma_digits_value_grows(cs: Seq<char>, i: int, j: int)
    requires
        0 <= i <= j <= cs.len(),
        forall|k: int| 0 <= k < cs.len() ==> is_digit(#[trigger] cs[k]),
    ensures
        digits_value(cs.take(i)) <= digits_value(cs.take(j)),
    decreases j - i,
{
    if i < j {
        lemma_digits_value_grows(cs, i, j - 1);
        lemma_digits_value_step(cs, j - 1);
    }
}

/// Reads an unsigned decimal number of at most `max`, or `None`.
pub fn parse_unsigned_decimal(s: &str, max: u64) -> (r: Option<u64>)
    ensures
        r matches Some(v) ==> parse_unsigned(s@, max as nat) == Some(v as nat),
        r is None ==> parse_unsigned(s@, max as nat) is None,
{
    let n = s.unicode_len();
    let mut start: usize = 0;
    if n > 0 && s.get_char(0) == '+' {
        start = 1;
    }
    let ghost d = unsigned_digits(s@);
    proof {
        assert(d =~= s@.subrange(start as int, n as int));
    }
    if start == n {
        return None;
    }
    let mut value: u64 = 0;
    let mut i: usize = start;
    while i < n
        invariant
            start <= i <= n == s@.len(),
            start < n,
            d == s@.subrange(start as int, n as int),
            d == unsigned_digits(s@),
            forall|k: int| 0 <= k < i - start ==> is_digit(#[trigger] d[k]),
            value as nat == digits_value(d.take(i - start)),
            value <= max,
        decreases n - i,
    {
        let c = s.get_char(i);
        if !('0' <= c && c <= '9') {
            proof {
                assert(d[i - start] == c);
                assert(!is_digit(d[i - start]));
            }
            return None;
        }
        let dv: u64 = ((c as u32) - 48) as u64;
        proof {
            lemma_digits_value_step(d, i - start);
        }
        let next: u128 = (value as u128) * 10 + (dv as u128);
        if next > max as u128 {
            proof {
                if forall|k: int| 0 <= k < d.len() ==> is_digit(#[trigger] d[k]) {
                    lemma_digits_value_grows(d, i - start + 1, d.len() as int);
                    assert(d.take(d.len() as int) =~= d);
                }
            }
            return None;
        }
        value = next as u64;
        i = i + 1;
    }
    proof {
        assert(d.take(d.len() as int) =~= d);
    }
    Some(value)
}

} // verus!

verus! {

// ── substring search ──────────────────────────────────────────────────────────

/// Whether `needle` occurs in `hay` as a run of consecutive characters.
pub open spec fn has_substring(hay: Seq<char>, needle: Seq<char>) -> bool {
    exists|i: int| 0 <= i && i + needle.len() <= hay.len() && #[trigger] hay.subrange(i, i + needle.len()) == needle
}

/// Whether `needle` occurs in `hay` (what `str::contains` answers for a string pattern).
pub fn str_contains(hay: &str, needle: &str) -> (r: bool)
    ensures
        r == has_substring(hay@, needle@),
{
    let n = hay.unicode_len();
    let m = needle.unicode_len();
    if m > n {
        proof {
            assert forall|i: int| 0 <= i && i + m <= n implies #[trigger] hay@.subrange(i, i + m) != needle@ by {}
        }
        return false;
    }
    let mut i: usize = 0;
    while i <= n - m
        invariant
            n == hay@.len(),
            m == needle@.len(),
            m <= n,
            i <= n - m + 1,
            forall|k: int| 0 <= k < i ==> #[trigger] hay@.subrange(k, k + m) != needle@,
        decreases n - i,
    {
        let mut j: usize = 0;
        let mut same = true;
        while j < m
            invariant
                n == hay@.len(),
                m == needle@.len(),
                i + m <= n,
                j <= m,
                same == (forall|t: int| 0 <= t < j ==> hay@[i + t] == needle@[t]),
            decreases m - j,
        {
            if hay.get_char(i + j) != needle.get_char(j) {
                same = false;
            }
            j = j + 1;
        }
        if same {
            proof {
                assert(hay@.subrange(i as int, i + m) =~= needle@);
            }
            return true;
        }
        proof {
            let t = choose|t: int| 0 <= t < m && hay@[i + t] != needle@[t];
            assert(hay@.subrange(i as int, i + m)[t] != needle@[t]);
        }
        i = i + 1;
    }
    proof {
        assert forall|k: int| 0 <= k && k + m <= n implies #[trigger] hay@.subrange(k, k + m) != needle@ by {
            assert(k < i);
        }
    }
    false
}

} // verus!

verus! {

/// Whether two strings hold the same characters.
pub fn str_equal(a: &str, b: &str) -> (r: bool)
    ensures
        r == (a@ == b@),
{
    let n = a.unicode_len();
    if n != b.unicode_len() {
        return false;
    }
    let mut i: usize = 0;
    while i < n
        invariant
            i <= n == a@.len() == b@.len(),
            forall|k: int| 0 <= k < i ==> a@[k] == b@[k],
        decreases n - i,
    {
        if a.get_char(i) != b.get_char(i) {
            return false;
        }
        i = i + 1;
    }
    proof {
        assert(a@ =~= b@);
    }
    true
}

/// Calls `String::from_utf8`, which fails exactly when the bytes are not UTF-8;
/// otherwise the string holds the characters they encode. The error's text is not stated.
#[verifier::external_body]
pub(crate) fn string_from_utf8(bytes: Vec<u8>) -> (r: Result<String, String>)
    ensures
        r is Ok <==> vstd::utf8::valid_utf8(bytes@),
        r matches Ok(s) ==> s@ == vstd::utf8::decode_utf8(bytes@),
{
    String::from_utf8(bytes).map_err(|e| e.to_string())
}

} // verus!
