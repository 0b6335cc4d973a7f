use vstd::prelude::*;
use crate::token::{Span, Token, ParseError, span_text, span_ok, span_is, span_bytes, token_span, spans_fit};
use crate::array::{
    Vec2, Vec3, expect, expect_spec, unexpected, int_list_spec, vec3_list_spec, vec2_list_spec,
    parse_integer_list, parse_vec3_list, parse_vec2_list,
};
use crate::lexer::{tokenize, tokens_of, find_lex_error, lex_error_from};

verus! {

/// The element type that an attribute declares: `int[]`, `point3f[]` or
/// `texCoord2f[]`.
#[derive(Clone, Copy, Debug, PartialEq, Eq, Structural)]
pub enum ElementType {
    Int,
    Point3,
    Point2,
}

/// The decoded value of an array attribute, tagged with its kind.
#[derive(Debug)]
pub enum AttributeValue {
    IntList(Vec<u32>),
    Point3List(Vec<Vec3>),
    Point2List(Vec<Vec2>),
}

/// The mathematical value of an `AttributeValue`.
pub enum ValueModel {
    IntList(Seq<u32>),
    Point3List(Seq<Vec3>),
    Point2List(Seq<Vec2>),
}

impl AttributeValue {
    pub open spec fn model(&self) -> ValueModel {
        match self {
            AttributeValue::IntList(v) => ValueModel::IntList(v@),
            AttributeValue::Point3List(v) => ValueModel::Point3List(v@),
            AttributeValue::Point2List(v) => ValueModel::Point2List(v@),
        }
    }

    /// The number of elements.
    pub fn len(&self) -> (r: usize)
        ensures
            r == match self.model() {
                ValueModel::IntList(s) => s.len(),
                ValueModel::Point3List(s) => s.len(),
                ValueModel::Point2List(s) => s.len(),
            },
    {
        match self {
            AttributeValue::IntList(v) => v.len(),
            AttributeValue::Point3List(v) => v.len(),
            AttributeValue::Point2List(v) => v.len(),
        }
    }
}

/// A named array attribute.
#[derive(Debug)]
pub struct Attribute {
    pub name: Vec<u8>,
    pub value: AttributeValue,
}

/// The element type that a type name declares.
pub open spec fn element_type_named(text: Seq<u8>) -> Option<ElementType> {
    if text == seq![105u8, 110, 116] {
        Some(ElementType::Int)
    } else if text == seq![112u8, 111, 105, 110, 116, 51, 102] {
        Some(ElementType::Point3)
    } else if text == seq![116u8, 101, 120, 67, 111, 111, 114, 100, 50, 102] {
        Some(ElementType::Point2)
    } else {
        None
    }
}

/// The element type that a token declares, if any.
pub open spec fn element_type_of(src: Seq<u8>, t: Token) -> Option<ElementType> {
    match t {
        Token::Identifier(sp) => element_type_named(span_text(src, sp)),
        _ => None,
    }
}

fn element_type_at(src: &[u8], tok: Token) -> (r: Option<ElementType>)
    requires
        token_span(tok) matches Some(sp) ==> span_ok(src@, sp),
    ensures
        r == element_type_of(src@, tok),
{
    match tok {
        Token::Identifier(sp) => {
            if span_is(src, sp, vec![105u8, 110, 116].as_slice()) {
                Some(ElementType::Int)
            } else if span_is(src, sp, vec![112u8, 111, 105, 110, 116, 51, 102].as_slice()) {
                Some(ElementType::Point3)
            } else if span_is(src, sp, vec![116u8, 101, 120, 67, 111, 111, 114, 100, 50, 102].as_slice()) {
                Some(ElementType::Point2)
            } else {
                None
            }
        },
        _ => None,
    }
}

/// An array literal of element type `ty` starting at token `i`.
pub open spec fn value_spec(t: Seq<Token>, i: int, ty: ElementType) -> Result<(ValueModel, int), ParseError> {
    match ty {
        ElementType::Int => match int_list_spec(t, i) {
            Ok((v, e)) => Ok((ValueModel::IntList(v), e)),
            Err(x) => Err(x),
        },
        ElementType::Point3 => match vec3_list_spec(t, i) {
            Ok((v, e)) => Ok((ValueModel::Point3List(v), e)),
            Err(x) => Err(x),
        },
        ElementType::Point2 => match vec2_list_spec(t, i) {
            Ok((v, e)) => Ok((ValueModel::Point2List(v), e)),
            Err(x) => Err(x),
        },
    }
}

/// Parses an array literal whose element type is `ty`, starting at token
/// `i`; returns the value and the index after the closing `]`.
pub fn parse_array_value(t: &[Token], i: usize, ty: ElementType) -> (r: Result<(AttributeValue, usize), ParseError>)
    ensures
        match (r, value_spec(t@, i as int, ty)) {
            (Ok((v, e)), Ok((sv, se))) => v.model() == sv && e == se && i < e <= t@.len(),
            (Err(a), Err(b)) => a == b,
            _ => false,
        },
{
    match ty {
        ElementType::Int => match parse_integer_list(t, i) {
            Ok((v, e)) => Ok((AttributeValue::IntList(v), e)),
            Err(x) => Err(x),
        },
        ElementType::Point3 => match parse_vec3_list(t, i) {
            Ok((v, e)) => Ok((AttributeValue::Point3List(v), e)),
            Err(x) => Err(x),
        },
        ElementType::Point2 => match parse_vec2_list(t, i) {
            Ok((v, e)) => Ok((AttributeValue::Point2List(v), e)),
            Err(x) => Err(x),
        },
    }
}

/// The name of an attribute: a quoted name or a bare identifier.
pub open spec fn attr_name_span(t: Token) -> Option<Span> {
    match t {
        Token::Name(sp) => Some(sp),
        Token::Identifier(sp) => Some(sp),
        _ => None,
    }
}

/// An attribute statement `type[] name = [...]` starting at token `j`: its
/// name, value, and the index after the value.
pub open spec fn attribute_spec(src: Seq<u8>, t: Seq<Token>, j: int) -> Result<
    (Seq<u8>, ValueModel, int),
    ParseError,
> {
    if j < 0 || j >= t.len() {
        Err(ParseError::UnexpectedEnd)
    } else {
        match element_type_of(src, t[j]) {
            None => Err(unexpected(j)),
            Some(ty) => match expect_spec(t, j + 1, Token::OpenBracket) {
                Err(e) => Err(e),
                Ok(_) => match expect_spec(t, j + 2, Token::CloseBracket) {
                    Err(e) => Err(e),
                    Ok(_) => if j + 3 >= t.len() {
                        Err(ParseError::UnexpectedEnd)
                    } else {
                        match attr_name_span(t[j + 3]) {
                            None => Err(unexpected(j + 3)),
                            Some(sp) => match expect_spec(t, j + 4, Token::Equals) {
                                Err(e) => Err(e),
                                Ok(_) => match value_spec(t, j + 5, ty) {
                                    Err(e) => Err(e),
                                    Ok((v, e)) => Ok((span_text(src, sp), v, e)),
                                },
                            },
                        }
                    },
                },
            },
        }
    }
}

/// Parses an attribute statement `type[] name = [...]` starting at token
/// `j`; returns it and the index after its value.
pub fn parse_attribute(src: &[u8], t: &[Token], j: usize) -> (r: Result<(Attribute, usize), ParseError>)
    requires
        spans_fit(src@, t@),
    ensures
        match (r, attribute_spec(src@, t@, j as int)) {
            (Ok((a, e)), Ok((sn, sv, se))) => a.name@ == sn && a.value.model() == sv && e == se
                && j < e <= t@.len(),
            (Err(a), Err(b)) => a == b,
            _ => false,
        },
{
    let len = t.len();
    if j >= len {
        return Err(ParseError::UnexpectedEnd);
    }
    assert(token_span(t@[j as int]) matches Some(sp) ==> span_ok(src@, sp));
    let ty = match element_type_at(src, t[j]) {
        None => return Err(ParseError::Unexpected { index: j }),
        Some(ty) => ty,
    };
    match expect(t, j + 1, Token::OpenBracket) {
        Err(e) => return Err(e),
        Ok(_) => {},
    }
    match expect(t, j + 2, Token::CloseBracket) {
        Err(e) => return Err(e),
        Ok(_) => {},
    }
    if j + 3 >= len {
        return Err(ParseError::UnexpectedEnd);
    }
    assert(token_span(t@[j + 3]) matches Some(sp) ==> span_ok(src@, sp));
    let sp = match t[j + 3] {
        Token::Name(sp) => sp,
        Token::Identifier(sp) => sp,
        _ => return Err(ParseError::Unexpected { index: j + 3 }),
    };
    match expect(t, j + 4, Token::Equals) {
        Err(e) => return Err(e),
        Ok(_) => {},
    }
    match parse_array_value(t, j + 5, ty) {
        Err(e) => Err(e),
        Ok((value, e)) => Ok((Attribute { name: span_bytes(src, sp), value }, e)),
    }
}

/// The attribute statements from token `j` on, after those in `acc`: each
/// token that declares an element type and is followed by `[` starts one;
/// other tokens are skipped.
pub open spec fn attributes_spec(
    src: Seq<u8>,
    t: Seq<Token>,
    j: int,
    acc: Seq<(Seq<u8>, ValueModel)>,
) -> Result<Seq<(Seq<u8>, ValueModel)>, ParseError>
    decreases t.len() - j,
{
    if j < 0 || j >= t.len() {
        Ok(acc)
    } else if element_type_of(src, t[j]) is Some && j + 1 < t.len() && t[j + 1]
        == Token::OpenBracket {
        match attribute_spec(src, t, j) {
            Err(e) => Err(e),
            Ok((n, v, e)) => if j < e <= t.len() {
                attributes_spec(src, t, e, acc.push((n, v)))
            } else {
                Err(ParseError::UnexpectedEnd)
            },
        }
    } else {
        attributes_spec(src, t, j + 1, acc)
    }
}

/// The attribute statements of a whole source text, or the first error.
pub open spec fn attributes_of(src: Seq<u8>) -> Result<Seq<(Seq<u8>, ValueModel)>, ParseError> {
    match lex_error_from(tokens_of(src), 0) {
        Some(offset) => Err(ParseError::Lex { offset }),
        None => attributes_spec(src, tokens_of(src), 0, seq![]),
    }
}

/// An exec list of attributes agrees with a spec result.
pub open spec fn attributes_agree(
    r: Result<Vec<Attribute>, ParseError>,
    s: Result<Seq<(Seq<u8>, ValueModel)>, ParseError>,
) -> bool {
    match (r, s) {
        (Ok(v), Ok(ms)) => v@.len() == ms.len() && forall|i: int|
            0 <= i < ms.len() ==> (#[trigger] v@[i]).name@ == ms[i].0 && v@[i].value.model()
                == ms[i].1,
        (Err(a), Err(b)) => a == b,
        _ => false,
    }
}

/// Collects the attribute statements of a token sequence.
pub fn scan_attributes(src: &[u8], t: &[Token]) -> (r: Result<Vec<Attribute>, ParseError>)
    requires
        spans_fit(src@, t@),
    ensures
        attributes_agree(r, attributes_spec(src@, t@, 0, seq![])),
{
    let len = t.len();
    let mut out: Vec<Attribute> = Vec::new();
    let ghost mut ms: Seq<(Seq<u8>, ValueModel)> = seq![];
    let mut j: usize = 0;
    loop
        invariant
            j <= len,
            len == t@.len(),
            spans_fit(src@, t@),
            attributes_spec(src@, t@, 0, seq![]) == attributes_spec(src@, t@, j as int, ms),
            out@.len() == ms.len(),
            forall|i: int|
                0 <= i < ms.len() ==> (#[trigger] out@[i]).name@ == ms[i].0 && out@[i].value.model()
                    == ms[i].1,
        decreases len - j,
    {
        if j >= len {
            return Ok(out);
        }
        assert(token_span(t@[j as int]) matches Some(sp) ==> span_ok(src@, sp));
        if element_type_at(src, t[j]).is_some() && j + 1 < len && t[j + 1] == Token::OpenBracket {
            match parse_attribute(src, t, j) {
                Err(e) => return Err(e),
                Ok((a, e)) => {
                    proof {
                        let sr = attribute_spec(src@, t@, j as int)->Ok_0;
                        ms = ms.push((sr.0, sr.1));
                    }
                    out.push(a);
                    j = e;
                },
            }
        } else {
            j = j + 1;
        }
    }
}

/// Lexes a whole source text and collects its attribute statements.
pub fn parse_attributes(src: &[u8]) -> (r: Result<Vec<Attribute>, ParseError>)
    ensures
        attributes_agree(r, attributes_of(src@)),
{
    let t = tokenize(src);
    match find_lex_error(t.as_slice()) {
        Some(offset) => Err(ParseError::Lex { offset }),
        None => scan_attributes(src, t.as_slice()),
    }
}

/// The largest value of an integer list, `None` when it is empty.
pub fn max_value(v: &[u32]) -> (r: Option<u32>)
    ensures
        match r {
            None => v@.len() == 0,
            Some(m) => v@.contains(m) && forall|i: int| 0 <= i < v@.len() ==> v@[i] <= m,
        },
{
    if v.len() == 0 {
        return None;
    }
    let mut m: u32 = v[0];
    let mut i: usize = 1;
    while i < v.len()
        invariant
            1 <= i <= v@.len(),
            v@.contains(m),
            forall|k: int| 0 <= k < i ==> v@[k] <= m,
        decreases v@.len() - i,
    {
        if v[i] > m {
            m = v[i];
        }
        i = i + 1;
    }
    Some(m)
}

} // verus!
