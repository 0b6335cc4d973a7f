use vstd::prelude::*;
use crate::token::{Span, Token, ParseError, span_text, span_ok, span_is, span_bytes, token_span, spans_fit};
use crate::array::{expect, expect_spec, unexpected};
use crate::lexer::{tokenize, tokens_of, find_lex_error, lex_error_from};

verus! {

/// The type keyword of a definition.
#[derive(Clone, Copy, Debug, PartialEq, Eq, Structural)]
pub enum DefineType {
    Xform,
    Sphere,
    Mesh,
    Scope,
    Material,
    Shader,
}

/// One `def` block: its type, name, metadata, and nested definitions in
/// textual order. Text fields hold the bytes of the source.
#[derive(Debug)]
pub struct Define {
    pub ty: Option<DefineType>,
    pub name: Vec<u8>,
    pub kind: Option<Vec<u8>>,
    pub references: Option<Vec<u8>>,
    pub children: Vec<Define>,
}

/// The mathematical value of a `Define`.
pub struct DefineModel {
    pub ty: Option<DefineType>,
    pub name: Seq<u8>,
    pub kind: Option<Seq<u8>>,
    pub references: Option<Seq<u8>>,
    pub children: Seq<DefineModel>,
}

pub open spec fn opt_view(o: Option<Vec<u8>>) -> Option<Seq<u8>> {
    match o {
        Some(v) => Some(v@),
        None => None,
    }
}

/// `d` holds exactly the tree `m`.
pub open spec fn models(d: Define, m: DefineModel) -> bool
    decreases m,
{
    &&& d.ty == m.ty
    &&& d.name@ == m.name
    &&& opt_view(d.kind) == m.kind
    &&& opt_view(d.references) == m.references
    &&& d.children@.len() == m.children.len()
    &&& forall|i: int|
        0 <= i < m.children.len() ==> models(#[trigger] d.children@[i], m.children[i])
}

/// The definition type that a type keyword names.
pub open spec fn type_named(text: Seq<u8>) -> Option<DefineType> {
    if text == seq![88u8, 102, 111, 114, 109] {
        Some(DefineType::Xform)
    } else if text == seq![83u8, 112, 104, 101, 114, 101] {
        Some(DefineType::Sphere)
    } else if text == seq![77u8, 101, 115, 104] {
        Some(DefineType::Mesh)
    } else if text == seq![83u8, 99, 111, 112, 101] {
        Some(DefineType::Scope)
    } else if text == seq![77u8, 97, 116, 101, 114, 105, 97, 108] {
        Some(DefineType::Material)
    } else if text == seq![83u8, 104, 97, 100, 101, 114] {
        Some(DefineType::Shader)
    } else {
        None
    }
}

/// The definition type that a token names, if it is a type keyword.
pub open spec fn type_of(src: Seq<u8>, t: Token) -> Option<DefineType> {
    match t {
        Token::Identifier(sp) => type_named(span_text(src, sp)),
        _ => None,
    }
}

/// The metadata block from token `m` on, through its `)`: the last `kind`
/// and `references` entries given, and the index after the `)`. Other
/// tokens are skipped.
pub open spec fn meta_spec(
    src: Seq<u8>,
    t: Seq<Token>,
    m: int,
    kind: Option<Seq<u8>>,
    refs: Option<Seq<u8>>,
) -> Result<(Option<Seq<u8>>, Option<Seq<u8>>, int), ParseError>
    decreases t.len() - m,
{
    if m < 0 || m >= t.len() {
        Err(ParseError::UnexpectedEnd)
    } else if t[m] == Token::CloseParen {
        Ok((kind, refs, m + 1))
    } else if t[m] == Token::Kind || t[m] == Token::References {
        match expect_spec(t, m + 1, Token::Equals) {
            Err(e) => Err(e),
            Ok(_) => if m + 2 >= t.len() {
                Err(ParseError::UnexpectedEnd)
            } else {
                match (t[m], t[m + 2]) {
                    (Token::Kind, Token::Name(sp)) => meta_spec(
                        src,
                        t,
                        m + 3,
                        Some(span_text(src, sp)),
                        refs,
                    ),
                    (Token::References, Token::FilePath(sp)) => meta_spec(
                        src,
                        t,
                        m + 3,
                        kind,
                        Some(span_text(src, sp)),
                    ),
                    _ => Err(unexpected(m + 2)),
                }
            },
        }
    } else {
        meta_spec(src, t, m + 1, kind, refs)
    }
}

/// A definition whose `def` keyword stands just before token `j`, through
/// its closing `}`: its tree and the index after the `}`.
pub open spec fn define_spec(src: Seq<u8>, t: Seq<Token>, j: int) -> Result<
    (DefineModel, int),
    ParseError,
>
    decreases t.len() - j, 1nat,
{
    if j < 0 || j >= t.len() {
        Err(ParseError::UnexpectedEnd)
    } else {
        let ty = type_of(src, t[j]);
        let k = if ty is Some {
            j + 1
        } else {
            j
        };
        if k >= t.len() {
            Err(ParseError::UnexpectedEnd)
        } else {
            match t[k] {
                Token::Name(sp) => {
                    let hdr = DefineModel {
                        ty,
                        name: span_text(src, sp),
                        kind: None,
                        references: None,
                        children: seq![],
                    };
                    if k + 1 >= t.len() {
                        Err(ParseError::UnexpectedEnd)
                    } else if t[k + 1] == Token::OpenBrace {
                        body_spec(src, t, k + 2, hdr)
                    } else if t[k + 1] == Token::OpenParen {
                        match meta_spec(src, t, k + 2, None, None) {
                            Err(e) => Err(e),
                            Ok((kind, refs, b)) => match expect_spec(t, b, Token::OpenBrace) {
                                Err(e) => Err(e),
                                Ok(_) => if b > j {
                                    body_spec(
                                        src,
                                        t,
                                        b + 1,
                                        DefineModel { kind, references: refs, ..hdr },
                                    )
                                } else {
                                    Err(ParseError::UnexpectedEnd)
                                },
                            },
                        }
                    } else {
                        Err(unexpected(k + 1))
                    }
                },
                _ => Err(unexpected(k)),
            }
        }
    }
}

/// The body of the definition `acc` from token `j` on: each `def` adds a
/// child, `}` closes it, other tokens are skipped.
pub open spec fn body_spec(src: Seq<u8>, t: Seq<Token>, j: int, acc: DefineModel) -> Result<
    (DefineModel, int),
    ParseError,
>
    decreases t.len() - j, 0nat,
{
    if j < 0 || j >= t.len() {
        Err(ParseError::UnexpectedEnd)
    } else if t[j] == Token::Def {
        match define_spec(src, t, j + 1) {
            Err(e) => Err(e),
            Ok((c, e)) => if j < e <= t.len() {
                body_spec(src, t, e, DefineModel { children: acc.children.push(c), ..acc })
            } else {
                Err(ParseError::UnexpectedEnd)
            },
        }
    } else if t[j] == Token::CloseBrace {
        Ok((acc, j + 1))
    } else {
        body_spec(src, t, j + 1, acc)
    }
}

fn type_at(src: &[u8], tok: Token) -> (r: Option<DefineType>)
    requires
        token_span(tok) matches Some(sp) ==> span_ok(src@, sp),
    ensures
        r == type_of(src@, tok),
{
    match tok {
        Token::Identifier(sp) => type_named_at(src, sp),
        _ => None,
    }
}

fn type_named_at(src: &[u8], sp: Span) -> (r: Option<DefineType>)
    requires
        span_ok(src@, sp),
    ensures
        r == type_named(span_text(src@, sp)),
{
    if span_is(src, sp, vec![88u8, 102, 111, 114, 109].as_slice()) {
        Some(DefineType::Xform)
    } else if span_is(src, sp, vec![83u8, 112, 104, 101, 114, 101].as_slice()) {
        Some(DefineType::Sphere)
    } else if span_is(src, sp, vec![77u8, 101, 115, 104].as_slice()) {
        Some(DefineType::Mesh)
    } else if span_is(src, sp, vec![83u8, 99, 111, 112, 101].as_slice()) {
        Some(DefineType::Scope)
    } else if span_is(src, sp, vec![77u8, 97, 116, 101, 114, 105, 97, 108].as_slice()) {
        Some(DefineType::Material)
    } else if span_is(src, sp, vec![83u8, 104, 97, 100, 101, 114].as_slice()) {
        Some(DefineType::Shader)
    } else {
        None
    }
}

/// Parses a metadata block from token `m` on, just after its `(`, through
/// its `)`: the `kind` and `references` entries and the index after the `)`.
pub fn parse_metadata(src: &[u8], t: &[Token], m: usize) -> (r: Result<
    (Option<Vec<u8>>, Option<Vec<u8>>, usize),
    ParseError,
>)
    requires
        spans_fit(src@, t@),
    ensures
        match (r, meta_spec(src@, t@, m as int, None, None)) {
            (Ok((k, rf, e)), Ok((sk, srf, se))) => opt_view(k) == sk && opt_view(rf) == srf && e
                == se && m < e <= t@.len(),
            (Err(a), Err(b)) => a == b,
            _ => false,
        },
{
    let len = t.len();
    let mut kind: Option<Vec<u8>> = None;
    let mut refs: Option<Vec<u8>> = None;
    let mut j: usize = m;
    loop
        invariant
            m <= j,
            len == t@.len(),
            spans_fit(src@, t@),
            meta_spec(src@, t@, m as int, None, None) == meta_spec(
                src@,
                t@,
                j as int,
                opt_view(kind),
                opt_view(refs),
            ),
        decreases len - j,
    {
        if j >= len {
            return Err(ParseError::UnexpectedEnd);
        }
        let tok = t[j];
        if tok == Token::CloseParen {
            return Ok((kind, refs, j + 1));
        } else if tok == Token::Kind || tok == Token::References {
            match expect(t, j + 1, Token::Equals) {
                Err(e) => return Err(e),
                Ok(_) => {},
            }
            if j + 2 >= len {
                return Err(ParseError::UnexpectedEnd);
            }
            let val = t[j + 2];
            assert(token_span(t@[j + 2]) matches Some(sp) ==> span_ok(src@, sp));
            match (tok, val) {
                (Token::Kind, Token::Name(sp)) => {
                    kind = Some(span_bytes(src, sp));
                },
                (Token::References, Token::FilePath(sp)) => {
                    refs = Some(span_bytes(src, sp));
                },
                _ => return Err(ParseError::Unexpected { index: j + 2 }),
            }
            j = j + 3;
        } else {
            j = j + 1;
        }
    }
}

/// Parses a definition whose `def` keyword stands just before token `j`,
/// through its closing `}`, with all nested definitions; returns the tree
/// and the index after the `}`.
pub fn parse_define(src: &[u8], t: &[Token], j: usize) -> (r: Result<(Define, usize), ParseError>)
    requires
        spans_fit(src@, t@),
    ensures
        match (r, define_spec(src@, t@, j as int)) {
            (Ok((d, e)), Ok((sm, se))) => models(d, sm) && e == se && j < e <= t@.len(),
            (Err(a), Err(b)) => a == b,
            _ => false,
        },
    decreases t@.len() - j,
{
    let len = t.len();
    if j >= len {
        return Err(ParseError::UnexpectedEnd);
    }
    assert(token_span(t@[j as int]) matches Some(sp) ==> span_ok(src@, sp));
    let ty = type_at(src, t[j]);
    let k = if ty.is_some() {
        j + 1
    } else {
        j
    };
    if k >= len {
        return Err(ParseError::UnexpectedEnd);
    }
    let name_sp = match t[k] {
        Token::Name(sp) => sp,
        _ => return Err(ParseError::Unexpected { index: k }),
    };
    assert(token_span(t@[k as int]) matches Some(sp) ==> span_ok(src@, sp));
    let name = span_bytes(src, name_sp);
    let ghost hdr = DefineModel {
        ty,
        name: span_text(src@, name_sp),
        kind: None,
        references: None,
        children: seq![],
    };
    if k + 1 >= len {
        return Err(ParseError::UnexpectedEnd);
    }
    let mut kind: Option<Vec<u8>> = None;
    let mut references: Option<Vec<u8>> = None;
    let mut b: usize;
    let ghost mut acc: DefineModel;
    if t[k + 1] == Token::OpenBrace {
        b = k + 2;
        proof {
            acc = hdr;
        }
    } else if t[k + 1] == Token::OpenParen {
        match parse_metadata(src, t, k + 2) {
            Err(e) => return Err(e),
            Ok((mk, mr, e)) => {
                match expect(t, e, Token::OpenBrace) {
                    Err(x) => return Err(x),
                    Ok(_) => {},
                }
                proof {
                    acc = DefineModel { kind: opt_view(mk), references: opt_view(mr), ..hdr };
                }
                kind = mk;
                references = mr;
                b = e + 1;
            },
        }
    } else {
        return Err(ParseError::Unexpected { index: k + 1 });
    }
    let mut children: Vec<Define> = Vec::new();
    loop
        invariant
            j < b <= len,
            len == t@.len(),
            spans_fit(src@, t@),
            define_spec(src@, t@, j as int) == body_spec(src@, t@, b as int, acc),
            acc.ty == ty,
            acc.name == name@,
            acc.kind == opt_view(kind),
            acc.references == opt_view(references),
            children@.len() == acc.children.len(),
            forall|i: int|
                0 <= i < acc.children.len() ==> models(#[trigger] children@[i], acc.children[i]),
        decreases len - b,
    {
        if b >= len {
            return Err(ParseError::UnexpectedEnd);
        }
        if t[b] == Token::Def {
            match parse_define(src, t, b + 1) {
                Err(e) => return Err(e),
                Ok((c, e)) => {
                    let ghost cm = define_spec(src@, t@, b + 1)->Ok_0.0;
                    proof {
                        acc = DefineModel { children: acc.children.push(cm), ..acc };
                    }
                    children.push(c);
                    b = e;
                },
            }
        } else if t[b] == Token::CloseBrace {
            let d = Define { ty, name, kind, references, children };
            assert(models(d, acc));
            return Ok((d, b + 1));
        } else {
            b = b + 1;
        }
    }
}

/// The top-level definitions from token `j` on, after those in `acc`.
/// Tokens outside any definition are skipped, but a stray `}` is an error.
pub open spec fn document_spec(src: Seq<u8>, t: Seq<Token>, j: int, acc: Seq<DefineModel>) -> Result<
    Seq<DefineModel>,
    ParseError,
>
    decreases t.len() - j,
{
    if j < 0 || j >= t.len() {
        Ok(acc)
    } else if t[j] == Token::Def {
        match define_spec(src, t, j + 1) {
            Err(e) => Err(e),
            Ok((m, e)) => if j < e <= t.len() {
                document_spec(src, t, e, acc.push(m))
            } else {
                Err(ParseError::UnexpectedEnd)
            },
        }
    } else if t[j] == Token::CloseBrace {
        Err(unexpected(j))
    } else {
        document_spec(src, t, j + 1, acc)
    }
}

/// The definitions of a whole source text, or the first error: a lexical
/// error if any input matches no token rule, else the first grammar error.
pub open spec fn parse_spec(src: Seq<u8>) -> Result<Seq<DefineModel>, ParseError> {
    match lex_error_from(tokens_of(src), 0) {
        Some(offset) => Err(ParseError::Lex { offset }),
        None => document_spec(src, tokens_of(src), 0, seq![]),
    }
}

/// An exec list of trees agrees with a spec result.
pub open spec fn forest_agrees(r: Result<Vec<Define>, ParseError>, s: Result<Seq<DefineModel>, ParseError>) -> bool {
    match (r, s) {
        (Ok(v), Ok(ms)) => v@.len() == ms.len() && forall|i: int|
            0 <= i < ms.len() ==> models(#[trigger] v@[i], ms[i]),
        (Err(a), Err(b)) => a == b,
        _ => false,
    }
}

/// Parses the top-level definitions of a token sequence.
pub fn parse_document(src: &[u8], t: &[Token]) -> (r: Result<Vec<Define>, ParseError>)
    requires
        spans_fit(src@, t@),
    ensures
        forest_agrees(r, document_spec(src@, t@, 0, seq![])),
{
    let len = t.len();
    let mut out: Vec<Define> = Vec::new();
    let ghost mut ms: Seq<DefineModel> = seq![];
    let mut j: usize = 0;
    loop
        invariant
            j <= len,
            len == t@.len(),
            spans_fit(src@, t@),
            document_spec(src@, t@, 0, seq![]) == document_spec(src@, t@, j as int, ms),
            out@.len() == ms.len(),
            forall|i: int| 0 <= i < ms.len() ==> models(#[trigger] out@[i], ms[i]),
        decreases len - j,
    {
        if j >= len {
            return Ok(out);
        }
        if t[j] == Token::Def {
            match parse_define(src, t, j + 1) {
                Err(e) => return Err(e),
                Ok((d, e)) => {
                    proof {
                        ms = ms.push(define_spec(src@, t@, j + 1)->Ok_0.0);
                    }
                    out.push(d);
                    j = e;
                },
            }
        } else if t[j] == Token::CloseBrace {
            return Err(ParseError::Unexpected { index: j });
        } else {
            j = j + 1;
        }
    }
}

/// Lexes and parses a whole source text into its top-level definitions.
pub fn parse(src: &[u8]) -> (r: Result<Vec<Define>, ParseError>)
    ensures
        forest_agrees(r, parse_spec(src@)),
{
    let t = tokenize(src);
    match find_lex_error(t.as_slice()) {
        Some(offset) => Err(ParseError::Lex { offset }),
        None => parse_document(src, t.as_slice()),
    }
}

} // verus!
