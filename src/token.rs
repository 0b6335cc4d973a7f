use vstd::prelude::*;

verus! {

/// A half-open byte range `start..end` of the source text.
#[derive(Clone, Copy, Debug, PartialEq, Eq, Structural)]
pub struct Span {
    pub start: usize,
    pub end: usize,
}

/// An exact decimal number: `mantissa * 10^exponent`.
#[derive(Clone, Copy, Debug, PartialEq, Eq, Structural)]
pub struct Decimal {
    pub mantissa: i64,
    pub exponent: i64,
}

/// One lexical token. Payload-carrying variants hold the span of their text
/// in the source, with delimiters stripped.
#[derive(Clone, Copy, Debug, PartialEq, Eq, Structural)]
pub enum Token {
    Comment(Span),
    Name(Span),
    Def,
    OpenBrace,
    CloseBrace,
    OpenParen,
    CloseParen,
    Add,
    OpenBracket,
    CloseBracket,
    Equals,
    Float(Decimal),
    Integer(i64),
    Colon,
    Comma,
    References,
    ScenePath(Span),
    FilePath(Span),
    Identifier(Span),
    True,
    False,
    Visibility,
    VariantSets,
    VariantSet,
    Delete,
    Rel,
    Class,
    Over,
    Instanceable,
    Inherits,
    NoneKeyword,
    Prepend,
    Kind,
    Specializes,
    /// A span of input that no token rule matches.
    Error(Span),
}

/// Why parsing failed.
#[derive(Clone, Copy, Debug, PartialEq, Eq, Structural)]
pub enum ParseError {
    /// The lexer found input that matches no token rule, at this byte offset.
    Lex { offset: usize },
    /// The token at this index is not one the grammar allows there.
    Unexpected { index: usize },
    /// The input ended while a block, list or tuple was still open.
    UnexpectedEnd,
    /// An integer-list element at this token index does not fit in `u32`.
    OutOfRange { index: usize },
}

/// The bytes that a span covers.
pub open spec fn span_text(src: Seq<u8>, sp: Span) -> Seq<u8> {
    src.subrange(sp.start as int, sp.end as int)
}

pub open spec fn span_ok(src: Seq<u8>, sp: Span) -> bool {
    sp.start <= sp.end <= src.len()
}

/// The span that a token carries, if any.
pub open spec fn token_span(t: Token) -> Option<Span> {
    match t {
        Token::Comment(sp) => Some(sp),
        Token::Name(sp) => Some(sp),
        Token::ScenePath(sp) => Some(sp),
        Token::FilePath(sp) => Some(sp),
        Token::Identifier(sp) => Some(sp),
        Token::Error(sp) => Some(sp),
        _ => None,
    }
}

/// Every span that the tokens carry lies within the source.
pub open spec fn spans_fit(src: Seq<u8>, t: Seq<Token>) -> bool {
    forall|k: int|
        0 <= k < t.len() ==> (#[trigger] token_span(t[k]) matches Some(sp) ==> span_ok(src, sp))
}

/// Copies the bytes under a span.
pub fn span_bytes(src: &[u8], sp: Span) -> (r: Vec<u8>)
    requires
        span_ok(src@, sp),
    ensures
        r@ == span_text(src@, sp),
{
    let mut r: Vec<u8> = Vec::new();
    let mut i: usize = sp.start;
    while i < sp.end
        invariant
            sp.start <= i <= sp.end <= src@.len(),
            r@ == src@.subrange(sp.start as int, i as int),
        decreases sp.end - i,
    {
        r.push(src[i]);
        i = i + 1;
        assert(r@ =~= src@.subrange(sp.start as int, i as int));
    }
    r
}

/// Whether the bytes under a span equal `lit`.
pub fn span_is(src: &[u8], sp: Span, lit: &[u8]) -> (r: bool)
    requires
        span_ok(src@, sp),
    ensures
        r == (span_text(src@, sp) == lit@),
{
    if sp.end - sp.start != lit.len() {
        assert(span_text(src@, sp).len() != lit@.len());
        return false;
    }
    let mut i: usize = 0;
    while i < lit.len()
        invariant
            span_ok(src@, sp),
            sp.end - sp.start == lit@.len(),
            i <= lit@.len(),
            forall|k: int| 0 <= k < i ==> src@[sp.start + k] == lit@[k],
        decreases lit.len() - i,
    {
        if src[sp.start + i] != lit[i] {
            assert(span_text(src@, sp)[i as int] != lit@[i as int]);
            return false;
        }
        i = i + 1;
    }
    assert(span_text(src@, sp) =~= lit@);
    true
}

} // verus!
