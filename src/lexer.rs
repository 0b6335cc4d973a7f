use vstd::prelude::*;
use crate::token::{Span, Decimal, Token, span_text, span_ok, span_is, token_span, spans_fit};

verus! {

/// Byte classes that the token rules are written in.
#[derive(Clone, Copy, Debug, PartialEq, Eq, Structural)]
pub enum ByteClass {
    /// Skipped whitespace: space, tab, newline, form feed.
    Space,
    Letter,
    Digit,
    /// Letters, digits, `.` and `:`.
    IdentTail,
    NotNewline,
    NotQuote,
    NotGreater,
    NotAt,
    Hash,
    /// Whitespace trimmed from a comment (a comment holds no newline).
    Blank,
}

pub open spec fn in_class(c: ByteClass, b: u8) -> bool {
    match c {
        ByteClass::Space => b == 32 || b == 9 || b == 10 || b == 12,
        ByteClass::Letter => (65 <= b <= 90) || (97 <= b <= 122),
        ByteClass::Digit => 48 <= b <= 57,
        ByteClass::IdentTail => (65 <= b <= 90) || (97 <= b <= 122) || (48 <= b <= 57) || b == 46
            || b == 58,
        ByteClass::NotNewline => b != 10,
        ByteClass::NotQuote => b != 34,
        ByteClass::NotGreater => b != 62,
        ByteClass::NotAt => b != 64,
        ByteClass::Hash => b == 35,
        ByteClass::Blank => b == 32 || b == 9 || b == 11 || b == 12 || b == 13,
    }
}

fn class_has(c: ByteClass, b: u8) -> (r: bool)
    ensures
        r == in_class(c, b),
{
    match c {
        ByteClass::Space => b == 32 || b == 9 || b == 10 || b == 12,
        ByteClass::Letter => (65 <= b && b <= 90) || (97 <= b && b <= 122),
        ByteClass::Digit => 48 <= b && b <= 57,
        ByteClass::IdentTail => (65 <= b && b <= 90) || (97 <= b && b <= 122) || (48 <= b && b
            <= 57) || b == 46 || b == 58,
        ByteClass::NotNewline => b != 10,
        ByteClass::NotQuote => b != 34,
        ByteClass::NotGreater => b != 62,
        ByteClass::NotAt => b != 64,
        ByteClass::Hash => b == 35,
        ByteClass::Blank => b == 32 || b == 9 || b == 11 || b == 12 || b == 13,
    }
}

/// Length of the longest run of bytes of class `c` starting at `i`.
pub open spec fn run_len(s: Seq<u8>, i: int, c: ByteClass) -> int
    decreases s.len() - i,
{
    if 0 <= i < s.len() && in_class(c, s[i]) {
        1 + run_len(s, i + 1, c)
    } else {
        0
    }
}

/// Where a span `lo..hi` ends once trailing blanks are dropped.
pub open spec fn trim_end(s: Seq<u8>, lo: int, hi: int) -> int
    decreases hi - lo,
{
    if lo < hi && in_class(ByteClass::Blank, s[hi - 1]) {
        trim_end(s, lo, hi - 1)
    } else {
        hi
    }
}

/// The number that a run of decimal digits denotes.
pub open spec fn digits_value(d: Seq<u8>) -> int
    decreases d.len(),
{
    if d.len() == 0 {
        0
    } else {
        digits_value(d.drop_last()) * 10 + (d.last() - 48)
    }
}

pub open spec fn signed(neg: bool, v: int) -> int {
    if neg {
        -v
    } else {
        v
    }
}

pub open spec fn fits_i64(v: int) -> bool {
    i64::MIN <= v <= i64::MAX
}

/// The keyword token whose text is exactly `text`, if any.
pub open spec fn keyword_of(text: Seq<u8>) -> Option<Token> {
    if text == seq![100u8, 101, 102] {
        Some(Token::Def)
    } else if text == seq![97u8, 100, 100] {
        Some(Token::Add)
    } else if text == seq![114u8, 101, 102, 101, 114, 101, 110, 99, 101, 115] {
        Some(Token::References)
    } else if text == seq![116u8, 114, 117, 101] {
        Some(Token::True)
    } else if text == seq![102u8, 97, 108, 115, 101] {
        Some(Token::False)
    } else if text == seq![118u8, 105, 115, 105, 98, 105, 108, 105, 116, 121] {
        Some(Token::Visibility)
    } else if text == seq![118u8, 97, 114, 105, 97, 110, 116, 83, 101, 116, 115] {
        Some(Token::VariantSets)
    } else if text == seq![118u8, 97, 114, 105, 97, 110, 116, 83, 101, 116] {
        Some(Token::VariantSet)
    } else if text == seq![100u8, 101, 108, 101, 116, 101] {
        Some(Token::Delete)
    } else if text == seq![114u8, 101, 108] {
        Some(Token::Rel)
    } else if text == seq![99u8, 108, 97, 115, 115] {
        Some(Token::Class)
    } else if text == seq![111u8, 118, 101, 114] {
        Some(Token::Over)
    } else if text == seq![105u8, 110, 115, 116, 97, 110, 99, 101, 97, 98, 108, 101] {
        Some(Token::Instanceable)
    } else if text == seq![105u8, 110, 104, 101, 114, 105, 116, 115] {
        Some(Token::Inherits)
    } else if text == seq![78u8, 111, 110, 101] {
        Some(Token::NoneKeyword)
    } else if text == seq![80u8, 114, 101, 112, 101, 110, 100] {
        Some(Token::Prepend)
    } else if text == seq![107u8, 105, 110, 100] {
        Some(Token::Kind)
    } else if text == seq![115u8, 112, 101, 99, 105, 97, 108, 105, 122, 101, 115] {
        Some(Token::Specializes)
    } else {
        None
    }
}

pub open spec fn byte_at(s: Seq<u8>, i: int) -> int {
    if 0 <= i < s.len() {
        s[i] as int
    } else {
        -1
    }
}

pub open spec fn error_at(p: int) -> (Token, int) {
    (Token::Error(Span { start: p as usize, end: (p + 1) as usize }), p + 1)
}

/// A token delimited by `open` and `close` bytes whose body is a non-empty
/// run of class `c`; the payload is the body.
pub open spec fn delimited_at(s: Seq<u8>, p: int, c: ByteClass, make: spec_fn(Span) -> Token) -> (
    Token,
    int,
) {
    let n = run_len(s, p + 1, c);
    if n > 0 && p + 1 + n < s.len() {
        (make(Span { start: (p + 1) as usize, end: (p + 1 + n) as usize }), p + 2 + n)
    } else {
        error_at(p)
    }
}

pub open spec fn comment_at(s: Seq<u8>, p: int) -> (Token, int) {
    let e = p + 1 + run_len(s, p + 1, ByteClass::NotNewline);
    let lo = p + run_len(s, p, ByteClass::Hash);
    let lo2 = lo + run_len(s, lo, ByteClass::Blank);
    if e == p + 1 {
        error_at(p)
    } else {
        (Token::Comment(Span { start: lo2 as usize, end: trim_end(s, lo2, e) as usize }), e)
    }
}

pub open spec fn word_at(s: Seq<u8>, p: int) -> (Token, int) {
    let e = p + run_len(s, p, ByteClass::IdentTail);
    let sp = Span { start: p as usize, end: e as usize };
    match keyword_of(s.subrange(p, e)) {
        Some(k) => (k, e),
        None => (Token::Identifier(sp), e),
    }
}

/// A numeric literal at `p`: `-?[0-9]*\.[0-9]+(e[-+][0-9]+)?` as a float,
/// else `-?[0-9]+` as an integer. A value that does not fit gives an error
/// token over the literal.
pub open spec fn number_at(s: Seq<u8>, p: int) -> (Token, int) {
    let neg = s[p] == 45;
    let q = if neg { p + 1 } else { p };
    let di = run_len(s, q, ByteClass::Digit);
    let dot = q + di;
    let fd = run_len(s, dot + 1, ByteClass::Digit);
    if byte_at(s, dot) == 46 && fd > 0 {
        let fe = dot + 1 + fd;
        let ed = run_len(s, fe + 2, ByteClass::Digit);
        let has_exp = byte_at(s, fe) == 101 && (byte_at(s, fe + 1) == 43 || byte_at(s, fe + 1)
            == 45) && ed > 0;
        let end = if has_exp { fe + 2 + ed } else { fe };
        let mant = signed(neg, digits_value(s.subrange(q, dot) + s.subrange(dot + 1, fe)));
        let written = if has_exp {
            signed(byte_at(s, fe + 1) == 45, digits_value(s.subrange(fe + 2, end)))
        } else {
            0
        };
        if fits_i64(mant) && fits_i64(written) && fits_i64(written - fd) {
            (Token::Float(Decimal { mantissa: mant as i64, exponent: (written - fd) as i64 }), end)
        } else {
            (Token::Error(Span { start: p as usize, end: end as usize }), end)
        }
    } else if di > 0 {
        let v = signed(neg, digits_value(s.subrange(q, dot)));
        if fits_i64(v) {
            (Token::Integer(v as i64), dot)
        } else {
            (Token::Error(Span { start: p as usize, end: dot as usize }), dot)
        }
    } else {
        error_at(p)
    }
}

/// The token that starts at `p`, a byte that is not skipped whitespace, and
/// where it ends.
pub open spec fn token_at(s: Seq<u8>, p: int) -> (Token, int) {
    let c = s[p];
    if c == 35 {
        comment_at(s, p)
    } else if c == 34 {
        delimited_at(s, p, ByteClass::NotQuote, |sp: Span| Token::Name(sp))
    } else if c == 60 {
        delimited_at(s, p, ByteClass::NotGreater, |sp: Span| Token::ScenePath(sp))
    } else if c == 64 {
        delimited_at(s, p, ByteClass::NotAt, |sp: Span| Token::FilePath(sp))
    } else if c == 123 {
        (Token::OpenBrace, p + 1)
    } else if c == 125 {
        (Token::CloseBrace, p + 1)
    } else if c == 40 {
        (Token::OpenParen, p + 1)
    } else if c == 41 {
        (Token::CloseParen, p + 1)
    } else if c == 91 {
        (Token::OpenBracket, p + 1)
    } else if c == 93 {
        (Token::CloseBracket, p + 1)
    } else if c == 61 {
        (Token::Equals, p + 1)
    } else if c == 58 {
        (Token::Colon, p + 1)
    } else if c == 44 {
        (Token::Comma, p + 1)
    } else if in_class(ByteClass::Letter, c) {
        word_at(s, p)
    } else if c == 45 || c == 46 || in_class(ByteClass::Digit, c) {
        number_at(s, p)
    } else {
        error_at(p)
    }
}

/// The next token at or after `pos` once whitespace is skipped, with its end.
pub open spec fn next_token_spec(s: Seq<u8>, pos: int) -> Option<(Token, int)> {
    let p = pos + run_len(s, pos, ByteClass::Space);
    if p >= s.len() {
        None
    } else {
        Some(token_at(s, p))
    }
}

/// All tokens of `s` from `pos` on.
pub open spec fn tokens_from(s: Seq<u8>, pos: int) -> Seq<Token>
    decreases s.len() - pos,
{
    if 0 <= pos < s.len() {
        match next_token_spec(s, pos) {
            Some((t, e)) => if pos < e <= s.len() {
                seq![t] + tokens_from(s, e)
            } else {
                Seq::empty()
            },
            None => Seq::empty(),
        }
    } else {
        Seq::empty()
    }
}

/// The token sequence of a whole source text.
pub open spec fn tokens_of(s: Seq<u8>) -> Seq<Token> {
    tokens_from(s, 0)
}

pub proof fn lemma_run(s: Seq<u8>, i: int, c: ByteClass)
    requires
        0 <= i <= s.len(),
    ensures
        0 <= run_len(s, i, c),
        i + run_len(s, i, c) <= s.len(),
        forall|k: int| i <= k < i + run_len(s, i, c) ==> in_class(c, #[trigger] s[k]),
        i + run_len(s, i, c) < s.len() ==> !in_class(c, s[i + run_len(s, i, c)]),
    decreases s.len() - i,
{
    if i < s.len() && in_class(c, s[i]) {
        lemma_run(s, i + 1, c);
    }
}

/// A token ends after it starts and within the source.
pub proof fn lemma_token_at_bounds(s: Seq<u8>, p: int)
    requires
        0 <= p < s.len(),
    ensures
        p < token_at(s, p).1 <= s.len(),
{
    lemma_run(s, p + 1, ByteClass::NotNewline);
    lemma_run(s, p + 1, ByteClass::NotQuote);
    lemma_run(s, p + 1, ByteClass::NotGreater);
    lemma_run(s, p + 1, ByteClass::NotAt);
    lemma_run(s, p, ByteClass::IdentTail);
    reveal_with_fuel(run_len, 2);
    let neg = s[p] == 45;
    let q = if neg { p + 1 } else { p };
    lemma_run(s, q, ByteClass::Digit);
    let dot = q + run_len(s, q, ByteClass::Digit);
    if dot + 1 <= s.len() {
        lemma_run(s, dot + 1, ByteClass::Digit);
        let fe = dot + 1 + run_len(s, dot + 1, ByteClass::Digit);
        if fe + 2 <= s.len() {
            lemma_run(s, fe + 2, ByteClass::Digit);
        }
    }
}

proof fn lemma_trim_end(s: Seq<u8>, lo: int, hi: int)
    requires
        lo <= hi,
    ensures
        lo <= trim_end(s, lo, hi) <= hi,
    decreases hi - lo,
{
    if lo < hi && in_class(ByteClass::Blank, s[hi - 1]) {
        lemma_trim_end(s, lo, hi - 1);
    }
}

proof fn lemma_digits_grow(x: Seq<u8>, y: Seq<u8>)
    requires
        forall|k: int| 0 <= k < y.len() ==> in_class(ByteClass::Digit, #[trigger] y[k]),
        forall|k: int| 0 <= k < x.len() ==> in_class(ByteClass::Digit, #[trigger] x[k]),
    ensures
        0 <= digits_value(x) <= digits_value(x + y),
    decreases y.len(),
{
    lemma_digits_nonneg(x);
    if y.len() > 0 {
        let y2 = y.drop_last();
        lemma_digits_grow(x, y2);
        assert((x + y).drop_last() =~= x + y2);
        assert((x + y).last() == y.last());
    } else {
        assert(x + y =~= x);
    }
}

proof fn lemma_digits_nonneg(x: Seq<u8>)
    requires
        forall|k: int| 0 <= k < x.len() ==> in_class(ByteClass::Digit, #[trigger] x[k]),
    ensures
        0 <= digits_value(x),
    decreases x.len(),
{
    if x.len() > 0 {
        lemma_digits_nonneg(x.drop_last());
    }
}

/// The end of the run of class `c` that starts at `i`.
fn scan(s: &[u8], i: usize, c: ByteClass) -> (r: usize)
    requires
        i <= s@.len(),
    ensures
        r == i + run_len(s@, i as int, c),
        r <= s@.len(),
{
    proof {
        lemma_run(s@, i as int, c);
    }
    let mut j: usize = i;
    while j < s.len() && class_has(c, s[j])
        invariant
            i <= j <= s@.len(),
            run_len(s@, i as int, c) == (j - i) + run_len(s@, j as int, c),
        decreases s@.len() - j,
    {
        j = j + 1;
    }
    j
}

fn trim_back(s: &[u8], lo: usize, hi: usize) -> (r: usize)
    requires
        lo <= hi <= s@.len(),
    ensures
        r == trim_end(s@, lo as int, hi as int),
{
    let mut j: usize = hi;
    while lo < j && class_has(ByteClass::Blank, s[j - 1])
        invariant
            lo <= j <= hi <= s@.len(),
            trim_end(s@, lo as int, hi as int) == trim_end(s@, lo as int, j as int),
        decreases j,
    {
        j = j - 1;
    }
    j
}

/// Extends the digit string `pre`, whose value is `acc`, by the digits at
/// `lo..hi`; `None` when the value passes `u64::MAX`.
fn accumulate(s: &[u8], lo: usize, hi: usize, acc: u64, Ghost(pre): Ghost<Seq<u8>>) -> (r: Option<
    u64,
>)
    requires
        lo <= hi <= s@.len(),
        forall|k: int| lo <= k < hi ==> in_class(ByteClass::Digit, #[trigger] s@[k]),
        forall|k: int| 0 <= k < pre.len() ==> in_class(ByteClass::Digit, #[trigger] pre[k]),
        acc == digits_value(pre),
    ensures
        match r {
            Some(v) => v == digits_value(pre + s@.subrange(lo as int, hi as int)),
            None => digits_value(pre + s@.subrange(lo as int, hi as int)) > u64::MAX,
        },
{
    let mut a: u64 = acc;
    let mut j: usize = lo;
    assert(pre + s@.subrange(lo as int, lo as int) =~= pre);
    while j < hi
        invariant
            lo <= j <= hi <= s@.len(),
            forall|k: int| lo <= k < hi ==> in_class(ByteClass::Digit, #[trigger] s@[k]),
            forall|k: int| 0 <= k < pre.len() ==> in_class(ByteClass::Digit, #[trigger] pre[k]),
            a == digits_value(pre + s@.subrange(lo as int, j as int)),
        decreases hi - j,
    {
        let ghost cur = pre + s@.subrange(lo as int, j as int);
        let ghost next = pre + s@.subrange(lo as int, j + 1);
        assert(next.drop_last() =~= cur);
        assert(next.last() == s@[j as int]);
        let d: u64 = (s[j] - 48) as u64;
        let ghost rest = s@.subrange(j + 1, hi as int);
        assert(pre + s@.subrange(lo as int, hi as int) =~= next + rest);
        assert forall|k: int| 0 <= k < next.len() implies in_class(
            ByteClass::Digit,
            #[trigger] next[k],
        ) by {
            if k >= pre.len() {
                assert(next[k] == s@[lo + k - pre.len()]);
            }
        }
        assert forall|k: int| 0 <= k < rest.len() implies in_class(
            ByteClass::Digit,
            #[trigger] rest[k],
        ) by {
            assert(rest[k] == s@[j + 1 + k]);
        }
        proof {
            lemma_digits_grow(next, rest);
        }
        if a > 1844674407370955161 || (a == 1844674407370955161 && d > 5) {
            return None;
        }
        a = a * 10 + d;
        j = j + 1;
    }
    Some(a)
}

/// The signed value `signed(neg, v)` when it fits in `i64`.
fn to_i64(neg: bool, v: u64) -> (r: Option<i64>)
    ensures
        match r {
            Some(x) => fits_i64(signed(neg, v as int)) && x == signed(neg, v as int),
            None => !fits_i64(signed(neg, v as int)),
        },
{
    if neg {
        if v <= 9223372036854775808 {
            Some((0i128 - v as i128) as i64)
        } else {
            None
        }
    } else {
        if v <= 9223372036854775807 {
            Some(v as i64)
        } else {
            None
        }
    }
}

fn keyword_at(src: &[u8], sp: Span) -> (r: Option<Token>)
    requires
        span_ok(src@, sp),
    ensures
        r == keyword_of(span_text(src@, sp)),
{
    if span_is(src, sp, vec![100u8, 101, 102].as_slice()) {
        Some(Token::Def)
    } else if span_is(src, sp, vec![97u8, 100, 100].as_slice()) {
        Some(Token::Add)
    } else if span_is(src, sp, vec![114u8, 101, 102, 101, 114, 101, 110, 99, 101, 115].as_slice()) {
        Some(Token::References)
    } else if span_is(src, sp, vec![116u8, 114, 117, 101].as_slice()) {
        Some(Token::True)
    } else if span_is(src, sp, vec![102u8, 97, 108, 115, 101].as_slice()) {
        Some(Token::False)
    } else if span_is(src, sp, vec![118u8, 105, 115, 105, 98, 105, 108, 105, 116, 121].as_slice()) {
        Some(Token::Visibility)
    } else if span_is(src, sp, vec![118u8, 97, 114, 105, 97, 110, 116, 83, 101, 116, 115].as_slice()) {
        Some(Token::VariantSets)
    } else if span_is(src, sp, vec![118u8, 97, 114, 105, 97, 110, 116, 83, 101, 116].as_slice()) {
        Some(Token::VariantSet)
    } else if span_is(src, sp, vec![100u8, 101, 108, 101, 116, 101].as_slice()) {
        Some(Token::Delete)
    } else if span_is(src, sp, vec![114u8, 101, 108].as_slice()) {
        Some(Token::Rel)
    } else if span_is(src, sp, vec![99u8, 108, 97, 115, 115].as_slice()) {
        Some(Token::Class)
    } else if span_is(src, sp, vec![111u8, 118, 101, 114].as_slice()) {
        Some(Token::Over)
    } else if span_is(src, sp, vec![105u8, 110, 115, 116, 97, 110, 99, 101, 97, 98, 108, 101].as_slice()) {
        Some(Token::Instanceable)
    } else if span_is(src, sp, vec![105u8, 110, 104, 101, 114, 105, 116, 115].as_slice()) {
        Some(Token::Inherits)
    } else if span_is(src, sp, vec![78u8, 111, 110, 101].as_slice()) {
        Some(Token::NoneKeyword)
    } else if span_is(src, sp, vec![80u8, 114, 101, 112, 101, 110, 100].as_slice()) {
        Some(Token::Prepend)
    } else if span_is(src, sp, vec![107u8, 105, 110, 100].as_slice()) {
        Some(Token::Kind)
    } else if span_is(src, sp, vec![115u8, 112, 101, 99, 105, 97, 108, 105, 122, 101, 115].as_slice()) {
        Some(Token::Specializes)
    } else {
        None
    }
}

fn word(s: &[u8], p: usize) -> (r: (Token, usize))
    requires
        p < s@.len(),
        in_class(ByteClass::Letter, s@[p as int]),
    ensures
        (r.0, r.1 as int) == word_at(s@, p as int),
        p < r.1 <= s@.len(),
        token_span(r.0) matches Some(sp) ==> span_ok(s@, sp),
{
    let e = scan(s, p, ByteClass::IdentTail);
    proof {
        lemma_run(s@, p as int, ByteClass::IdentTail);
    }
    let sp = Span { start: p, end: e };
    proof {
        reveal_with_fuel(run_len, 2);
    }
    match keyword_at(s, sp) {
        Some(k) => (k, e),
        None => (Token::Identifier(sp), e),
    }
}

fn delimited(s: &[u8], p: usize, c: ByteClass) -> (r: Option<(Span, usize)>)
    requires
        p < s@.len(),
    ensures
        match r {
            Some((sp, e)) => {
                let n = run_len(s@, p + 1, c);
                &&& n > 0 && p + 1 + n < s@.len()
                &&& sp == (Span { start: (p + 1) as usize, end: (p + 1 + n) as usize })
                &&& e == p + 2 + n
            },
            None => !(run_len(s@, p + 1, c) > 0 && p + 1 + run_len(s@, p + 1, c) < s@.len()),
        },
{
    let len = s.len();
    let e = scan(s, p + 1, c);
    if e > p + 1 && e < s.len() {
        Some((Span { start: p + 1, end: e }, e + 1))
    } else {
        None
    }
}

fn comment(s: &[u8], p: usize) -> (r: (Token, usize))
    requires
        p < s@.len(),
        s@[p as int] == 35,
    ensures
        (r.0, r.1 as int) == comment_at(s@, p as int),
        p < r.1 <= s@.len(),
        token_span(r.0) matches Some(sp) ==> span_ok(s@, sp),
{
    let len = s.len();
    let e = scan(s, p + 1, ByteClass::NotNewline);
    if e == p + 1 {
        return (Token::Error(Span { start: p, end: p + 1 }), p + 1);
    }
    proof {
        lemma_run(s@, p as int, ByteClass::Hash);
        lemma_run(s@, p + 1, ByteClass::NotNewline);
    }
    let lo = scan(s, p, ByteClass::Hash);
    assert(lo <= e) by {
        if lo > e {
            assert(in_class(ByteClass::Hash, s@[e as int]));
        }
    }
    let lo2 = scan(s, lo, ByteClass::Blank);
    proof {
        lemma_run(s@, lo as int, ByteClass::Blank);
    }
    assert(lo2 <= e) by {
        if lo2 > e {
            assert(in_class(ByteClass::Blank, s@[e as int]));
        }
    }
    let hi = trim_back(s, lo2, e);
    proof {
        lemma_trim_end(s@, lo2 as int, e as int);
    }
    (Token::Comment(Span { start: lo2, end: hi }), e)
}

proof fn lemma_too_big(neg: bool, v: int)
    requires
        v > u64::MAX,
    ensures
        !fits_i64(signed(neg, v)),
{
}

fn number(s: &[u8], p: usize) -> (r: (Token, usize))
    requires
        p < s@.len(),
    ensures
        (r.0, r.1 as int) == number_at(s@, p as int),
        p < r.1 <= s@.len(),
        token_span(r.0) matches Some(sp) ==> span_ok(s@, sp),
{
    let neg = s[p] == 45;
    let q = if neg { p + 1 } else { p };
    let dot = scan(s, q, ByteClass::Digit);
    proof {
        lemma_run(s@, q as int, ByteClass::Digit);
    }
    let ghost ip = s@.subrange(q as int, dot as int);
    if dot < s.len() && s[dot] == 46 {
        let fe = scan(s, dot + 1, ByteClass::Digit);
        proof {
            lemma_run(s@, dot + 1, ByteClass::Digit);
        }
        if fe > dot + 1 {
            let fd = fe - dot - 1;
            let mut end = fe;
            let mut has_exp = false;
            let mut eneg = false;
            if fe < s.len() && fe + 1 < s.len() && s[fe] == 101 && (s[fe + 1] == 43 || s[fe + 1] == 45) {
                let ee = scan(s, fe + 2, ByteClass::Digit);
                if ee > fe + 2 {
                    end = ee;
                    has_exp = true;
                    eneg = s[fe + 1] == 45;
                }
            }
            proof {
                if fe + 2 <= s@.len() {
                    lemma_run(s@, fe + 2, ByteClass::Digit);
                }
            }
            assert(has_exp == (byte_at(s@, fe as int) == 101 && (byte_at(s@, fe + 1) == 43
                || byte_at(s@, fe + 1) == 45) && run_len(s@, fe + 2, ByteClass::Digit) > 0));
            let ghost whole = ip + s@.subrange(dot + 1, fe as int);
            assert(Seq::<u8>::empty() + ip =~= ip);
            let m = match accumulate(s, q, dot, 0, Ghost(Seq::<u8>::empty())) {
                Some(a) => accumulate(s, dot + 1, fe, a, Ghost(ip)),
                None => {
                    proof {
                        let fp = s@.subrange(dot + 1, fe as int);
                        assert forall|k: int| 0 <= k < fp.len() implies in_class(
                            ByteClass::Digit,
                            #[trigger] fp[k],
                        ) by {
                            assert(fp[k] == s@[dot + 1 + k]);
                        }
                        assert forall|k: int| 0 <= k < ip.len() implies in_class(
                            ByteClass::Digit,
                            #[trigger] ip[k],
                        ) by {
                            assert(ip[k] == s@[q + k]);
                        }
                        lemma_digits_grow(ip, fp);
                    }
                    None
                },
            };
            let mant = match m {
                Some(v) => to_i64(neg, v),
                None => {
                    proof {
                        lemma_too_big(neg, digits_value(whole));
                    }
                    None
                },
            };
            let written = if has_exp {
                match accumulate(s, fe + 2, end, 0, Ghost(Seq::<u8>::empty())) {
                    Some(v) => to_i64(eneg, v),
                    None => {
                        proof {
                            assert(Seq::<u8>::empty() + s@.subrange(fe + 2, end as int)
                                =~= s@.subrange(fe + 2, end as int));
                            lemma_too_big(eneg, digits_value(s@.subrange(fe + 2, end as int)));
                        }
                        None
                    },
                }
            } else {
                Some(0i64)
            };
            proof {
                if has_exp {
                    assert(Seq::<u8>::empty() + s@.subrange(fe + 2, end as int)
                        =~= s@.subrange(fe + 2, end as int));
                }
            }
            match (mant, written) {
                (Some(mv), Some(wv)) => {
                    let x: i128 = wv as i128 - fd as i128;
                    if -9223372036854775808 <= x && x <= 9223372036854775807 {
                        return (Token::Float(Decimal { mantissa: mv, exponent: x as i64 }), end);
                    }
                },
                _ => {},
            }
            return (Token::Error(Span { start: p, end: end }), end);
        }
    }
    if dot > q {
        assert(Seq::<u8>::empty() + ip =~= ip);
        let v = match accumulate(s, q, dot, 0, Ghost(Seq::<u8>::empty())) {
            Some(a) => to_i64(neg, a),
            None => {
                proof {
                    lemma_too_big(neg, digits_value(ip));
                }
                None
            },
        };
        match v {
            Some(x) => (Token::Integer(x), dot),
            None => (Token::Error(Span { start: p, end: dot }), dot),
        }
    } else {
        (Token::Error(Span { start: p, end: p + 1 }), p + 1)
    }
}

fn token_here(s: &[u8], p: usize) -> (r: (Token, usize))
    requires
        p < s@.len(),
    ensures
        (r.0, r.1 as int) == token_at(s@, p as int),
        p < r.1 <= s@.len(),
        token_span(r.0) matches Some(sp) ==> span_ok(s@, sp),
{
    let c = s[p];
    proof {
        lemma_run(s@, p + 1, ByteClass::NotNewline);
        lemma_run(s@, p + 1, ByteClass::NotQuote);
        lemma_run(s@, p + 1, ByteClass::NotGreater);
        lemma_run(s@, p + 1, ByteClass::NotAt);
        lemma_run(s@, p as int, ByteClass::IdentTail);
    }
    if c == 35 {
        comment(s, p)
    } else if c == 34 || c == 60 || c == 64 {
        let cls = if c == 34 {
            ByteClass::NotQuote
        } else if c == 60 {
            ByteClass::NotGreater
        } else {
            ByteClass::NotAt
        };
        match delimited(s, p, cls) {
            Some((sp, e)) => {
                let t = if c == 34 {
                    Token::Name(sp)
                } else if c == 60 {
                    Token::ScenePath(sp)
                } else {
                    Token::FilePath(sp)
                };
                (t, e)
            },
            None => (Token::Error(Span { start: p, end: p + 1 }), p + 1),
        }
    } else if c == 123 {
        (Token::OpenBrace, p + 1)
    } else if c == 125 {
        (Token::CloseBrace, p + 1)
    } else if c == 40 {
        (Token::OpenParen, p + 1)
    } else if c == 41 {
        (Token::CloseParen, p + 1)
    } else if c == 91 {
        (Token::OpenBracket, p + 1)
    } else if c == 93 {
        (Token::CloseBracket, p + 1)
    } else if c == 61 {
        (Token::Equals, p + 1)
    } else if c == 58 {
        (Token::Colon, p + 1)
    } else if c == 44 {
        (Token::Comma, p + 1)
    } else if class_has(ByteClass::Letter, c) {
        word(s, p)
    } else if c == 45 || c == 46 || class_has(ByteClass::Digit, c) {
        number(s, p)
    } else {
        (Token::Error(Span { start: p, end: p + 1 }), p + 1)
    }
}

/// The next token at or after byte `pos` and the position after it, or
/// `None` when only whitespace is left. Lexing is a pure function of the
/// source and a position, so any pass can restart from zero.
pub fn next_token(src: &[u8], pos: usize) -> (r: Option<(Token, usize)>)
    requires
        pos <= src@.len(),
    ensures
        match r {
            Some((t, e)) => {
                &&& next_token_spec(src@, pos as int) == Some((t, e as int))
                &&& pos < e <= src@.len()
                &&& token_span(t) matches Some(sp) ==> span_ok(src@, sp)
            },
            None => next_token_spec(src@, pos as int) is None,
        },
{
    let p = scan(src, pos, ByteClass::Space);
    proof {
        lemma_run(src@, pos as int, ByteClass::Space);
    }
    if p >= src.len() {
        None
    } else {
        let (t, e) = token_here(src, p);
        Some((t, e))
    }
}

/// All tokens of a source text, in order.
pub fn tokenize(src: &[u8]) -> (r: Vec<Token>)
    ensures
        r@ == tokens_of(src@),
        spans_fit(src@, r@),
{
    let mut out: Vec<Token> = Vec::new();
    let mut pos: usize = 0;
    loop
        invariant
            pos <= src@.len(),
            tokens_of(src@) == out@ + tokens_from(src@, pos as int),
            spans_fit(src@, out@),
        decreases src@.len() - pos,
    {
        match next_token(src, pos) {
            Some((t, e)) => {
                assert(tokens_from(src@, pos as int) == seq![t] + tokens_from(src@, e as int));
                out.push(t);
                assert(out@ + tokens_from(src@, e as int) =~= tokens_of(src@));
                pos = e;
            },
            None => {
                assert(tokens_from(src@, pos as int) =~= Seq::<Token>::empty());
                assert(out@ + tokens_from(src@, pos as int) =~= out@);
                return out;
            },
        }
    }
}

/// The byte offset of the first error token from index `j` on, if any.
pub open spec fn lex_error_from(t: Seq<Token>, j: int) -> Option<usize>
    decreases t.len() - j,
{
    if j < 0 || j >= t.len() {
        None
    } else {
        match t[j] {
            Token::Error(sp) => Some(sp.start),
            _ => lex_error_from(t, j + 1),
        }
    }
}

/// The byte offset of the first error token, if any.
pub fn find_lex_error(t: &[Token]) -> (r: Option<usize>)
    ensures
        r == lex_error_from(t@, 0),
{
    let mut j: usize = 0;
    while j < t.len()
        invariant
            j <= t@.len(),
            lex_error_from(t@, 0) == lex_error_from(t@, j as int),
        decreases t@.len() - j,
    {
        if let Token::Error(sp) = t[j] {
            return Some(sp.start);
        }
        j = j + 1;
    }
    None
}

} // verus!
