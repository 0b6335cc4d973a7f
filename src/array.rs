use vstd::prelude::*;
use crate::token::{Decimal, Token, ParseError};

verus! {

/// A point with three coordinates.
#[derive(Clone, Copy, Debug, PartialEq, Eq, Structural)]
pub struct Vec3 {
    pub x: Decimal,
    pub y: Decimal,
    pub z: Decimal,
}

/// A point with two coordinates (a texture coordinate).
#[derive(Clone, Copy, Debug, PartialEq, Eq, Structural)]
pub struct Vec2 {
    pub x: Decimal,
    pub y: Decimal,
}

/// `Unexpected` at a token index.
pub open spec fn unexpected(j: int) -> ParseError {
    ParseError::Unexpected { index: j as usize }
}

/// `Ok` when token `j` is `tok`.
pub open spec fn expect_spec(t: Seq<Token>, j: int, tok: Token) -> Result<(), ParseError> {
    if j >= t.len() {
        Err(ParseError::UnexpectedEnd)
    } else if t[j] == tok {
        Ok(())
    } else {
        Err(unexpected(j))
    }
}

/// An integer read where a float is expected: the same value.
pub open spec fn widen(v: i64) -> Decimal {
    Decimal { mantissa: v, exponent: 0 }
}

/// A float-valued component at token `j`: a float, or an integer widened.
pub open spec fn component_spec(t: Seq<Token>, j: int) -> Result<Decimal, ParseError> {
    if j >= t.len() {
        Err(ParseError::UnexpectedEnd)
    } else {
        match t[j] {
            Token::Float(d) => Ok(d),
            Token::Integer(v) => Ok(widen(v)),
            _ => Err(unexpected(j)),
        }
    }
}

/// Elements of an integer list from token `j` on, after those in `acc`,
/// through the closing `]`, with the index after it.
pub open spec fn int_list_from(t: Seq<Token>, j: int, acc: Seq<u32>) -> Result<
    (Seq<u32>, int),
    ParseError,
>
    decreases t.len() - j,
{
    if j < 0 || j >= t.len() {
        Err(ParseError::UnexpectedEnd)
    } else {
        match t[j] {
            Token::Integer(v) => if 0 <= v <= u32::MAX {
                int_list_from(t, j + 1, acc.push(v as u32))
            } else {
                Err(ParseError::OutOfRange { index: j as usize })
            },
            Token::CloseBracket => Ok((acc, j + 1)),
            Token::Comma => int_list_from(t, j + 1, acc),
            _ => Err(unexpected(j)),
        }
    }
}

/// An integer list `[a, b, ...]` starting at token `i`.
pub open spec fn int_list_spec(t: Seq<Token>, i: int) -> Result<(Seq<u32>, int), ParseError> {
    match expect_spec(t, i, Token::OpenBracket) {
        Ok(_) => int_list_from(t, i + 1, seq![]),
        Err(e) => Err(e),
    }
}

/// The `n` components of a tuple from token `j` on, after those in `acc`:
/// components separated by `,`, the last followed by `)`. It spans `2n` tokens.
pub open spec fn tuple_spec(t: Seq<Token>, j: int, n: nat, acc: Seq<Decimal>) -> Result<
    Seq<Decimal>,
    ParseError,
>
    decreases n,
{
    if n == 0 {
        Ok(acc)
    } else {
        match component_spec(t, j) {
            Err(e) => Err(e),
            Ok(c) => {
                let sep = if n == 1 {
                    Token::CloseParen
                } else {
                    Token::Comma
                };
                match expect_spec(t, j + 1, sep) {
                    Err(e) => Err(e),
                    Ok(_) => tuple_spec(t, j + 2, (n - 1) as nat, acc.push(c)),
                }
            },
        }
    }
}

/// What follows a tuple that ends before token `k`: `]` ends the list, `,`
/// goes on.
pub open spec fn after_tuple<A>(
    t: Seq<Token>,
    k: int,
    acc: Seq<A>,
) -> Option<Result<(Seq<A>, int), ParseError>> {
    if k >= t.len() {
        Some(Err(ParseError::UnexpectedEnd))
    } else if t[k] == Token::CloseBracket {
        Some(Ok((acc, k + 1)))
    } else if t[k] == Token::Comma {
        None
    } else {
        Some(Err(unexpected(k)))
    }
}

/// Elements of a list of 3-tuples from token `j` on, through the closing `]`.
pub open spec fn vec3_list_from(t: Seq<Token>, j: int, acc: Seq<Vec3>) -> Result<
    (Seq<Vec3>, int),
    ParseError,
>
    decreases t.len() - j,
{
    if j < 0 || j >= t.len() {
        Err(ParseError::UnexpectedEnd)
    } else if t[j] == Token::CloseBracket {
        Ok((acc, j + 1))
    } else if t[j] != Token::OpenParen {
        Err(unexpected(j))
    } else {
        match tuple_spec(t, j + 1, 3, seq![]) {
            Err(e) => Err(e),
            Ok(c) => {
                let acc2 = acc.push(Vec3 { x: c[0], y: c[1], z: c[2] });
                match after_tuple(t, j + 7, acc2) {
                    Some(r) => r,
                    None => vec3_list_from(t, j + 8, acc2),
                }
            },
        }
    }
}

/// A list of 3-tuples `[(x, y, z), ...]` starting at token `i`.
pub open spec fn vec3_list_spec(t: Seq<Token>, i: int) -> Result<(Seq<Vec3>, int), ParseError> {
    match expect_spec(t, i, Token::OpenBracket) {
        Ok(_) => vec3_list_from(t, i + 1, seq![]),
        Err(e) => Err(e),
    }
}

/// Elements of a list of 2-tuples from token `j` on, through the closing `]`.
pub open spec fn vec2_list_from(t: Seq<Token>, j: int, acc: Seq<Vec2>) -> Result<
    (Seq<Vec2>, int),
    ParseError,
>
    decreases t.len() - j,
{
    if j < 0 || j >= t.len() {
        Err(ParseError::UnexpectedEnd)
    } else if t[j] == Token::CloseBracket {
        Ok((acc, j + 1))
    } else if t[j] != Token::OpenParen {
        Err(unexpected(j))
    } else {
        match tuple_spec(t, j + 1, 2, seq![]) {
            Err(e) => Err(e),
            Ok(c) => {
                let acc2 = acc.push(Vec2 { x: c[0], y: c[1] });
                match after_tuple(t, j + 5, acc2) {
                    Some(r) => r,
                    None => vec2_list_from(t, j + 6, acc2),
                }
            },
        }
    }
}

/// A list of 2-tuples `[(x, y), ...]` starting at token `i`.
pub open spec fn vec2_list_spec(t: Seq<Token>, i: int) -> Result<(Seq<Vec2>, int), ParseError> {
    match expect_spec(t, i, Token::OpenBracket) {
        Ok(_) => vec2_list_from(t, i + 1, seq![]),
        Err(e) => Err(e),
    }
}

/// An exec list result agrees with a spec one.
pub open spec fn list_agrees<A>(r: Result<(Vec<A>, usize), ParseError>, s: Result<(Seq<A>, int), ParseError>) -> bool {
    match (r, s) {
        (Ok((v, e)), Ok((sv, se))) => v@ == sv && e == se,
        (Err(a), Err(b)) => a == b,
        _ => false,
    }
}

/// Checks that token `j` is `tok`.
pub fn expect(t: &[Token], j: usize, tok: Token) -> (r: Result<(), ParseError>)
    ensures
        r == expect_spec(t@, j as int, tok),
{
    if j >= t.len() {
        Err(ParseError::UnexpectedEnd)
    } else if t[j] == tok {
        Ok(())
    } else {
        Err(ParseError::Unexpected { index: j })
    }
}

/// Reads one float-valued component at token `j`; an integer is widened.
pub fn parse_float(t: &[Token], j: usize) -> (r: Result<Decimal, ParseError>)
    ensures
        r == component_spec(t@, j as int),
{
    if j >= t.len() {
        return Err(ParseError::UnexpectedEnd);
    }
    match t[j] {
        Token::Float(d) => Ok(d),
        Token::Integer(v) => Ok(Decimal { mantissa: v, exponent: 0 }),
        _ => Err(ParseError::Unexpected { index: j }),
    }
}

/// Parses an integer list `[a, b, ...]` starting at token `i`; returns the
/// values and the index after the closing `]`.
pub fn parse_integer_list(t: &[Token], i: usize) -> (r: Result<(Vec<u32>, usize), ParseError>)
    ensures
        list_agrees(r, int_list_spec(t@, i as int)),
        r matches Ok((_, e)) ==> i < e <= t@.len(),
{
    let len = t.len();
    match expect(t, i, Token::OpenBracket) {
        Err(e) => return Err(e),
        Ok(_) => {},
    }
    let mut values: Vec<u32> = Vec::new();
    let mut j: usize = i + 1;
    loop
        invariant
            i < j <= len,
            len == t@.len(),
            int_list_spec(t@, i as int) == int_list_from(t@, j as int, values@),
        decreases t@.len() - j,
    {
        if j >= len {
            return Err(ParseError::UnexpectedEnd);
        }
        match t[j] {
            Token::Integer(v) => {
                if 0 <= v && v <= 4294967295 {
                    values.push(v as u32);
                } else {
                    return Err(ParseError::OutOfRange { index: j });
                }
            },
            Token::CloseBracket => return Ok((values, j + 1)),
            Token::Comma => {},
            _ => return Err(ParseError::Unexpected { index: j }),
        }
        j = j + 1;
    }
}

proof fn lemma_tuple(t: Seq<Token>, j: int, n: nat, acc: Seq<Decimal>)
    requires
        0 <= j,
    ensures
        tuple_spec(t, j, n, acc) matches Ok(v) ==> v.len() == acc.len() + n && (n == 0 || j + 2
            * n <= t.len()),
    decreases n,
{
    if n > 0 {
        if let Ok(c) = component_spec(t, j) {
            lemma_tuple(t, j + 2, (n - 1) as nat, acc.push(c));
        }
    }
}

/// Reads the `n` components of a tuple from token `j` on: components
/// separated by `,`, the last followed by `)`.
pub fn parse_tuple(t: &[Token], j: usize, n: usize) -> (r: Result<Vec<Decimal>, ParseError>)
    ensures
        match (r, tuple_spec(t@, j as int, n as nat, seq![])) {
            (Ok(v), Ok(sv)) => v@ == sv,
            (Err(a), Err(b)) => a == b,
            _ => false,
        },
{
    let len = t.len();
    let mut out: Vec<Decimal> = Vec::new();
    let mut k: usize = j;
    let mut left: usize = n;
    while left > 0
        invariant
            k <= len || left == 0 || k == j,
            len == t@.len(),
            tuple_spec(t@, j as int, n as nat, seq![]) == tuple_spec(t@, k as int, left as nat, out@),
        decreases left,
    {
        let c = match parse_float(t, k) {
            Ok(c) => c,
            Err(e) => return Err(e),
        };
        let sep = if left == 1 {
            Token::CloseParen
        } else {
            Token::Comma
        };
        match expect(t, k + 1, sep) {
            Ok(_) => {},
            Err(e) => return Err(e),
        }
        out.push(c);
        k = k + 2;
        left = left - 1;
    }
    Ok(out)
}

/// Parses a list of 3-tuples `[(x, y, z), ...]` starting at token `i`;
/// integer components are widened. Returns the points and the index after
/// the closing `]`.
pub fn parse_vec3_list(t: &[Token], i: usize) -> (r: Result<(Vec<Vec3>, usize), ParseError>)
    ensures
        list_agrees(r, vec3_list_spec(t@, i as int)),
        r matches Ok((_, e)) ==> i < e <= t@.len(),
{
    let len = t.len();
    match expect(t, i, Token::OpenBracket) {
        Err(e) => return Err(e),
        Ok(_) => {},
    }
    let mut values: Vec<Vec3> = Vec::new();
    let mut j: usize = i + 1;
    loop
        invariant
            i < j <= len,
            len == t@.len(),
            vec3_list_spec(t@, i as int) == vec3_list_from(t@, j as int, values@),
        decreases len - j,
    {
        if j >= len {
            return Err(ParseError::UnexpectedEnd);
        }
        if t[j] == Token::CloseBracket {
            return Ok((values, j + 1));
        }
        if t[j] != Token::OpenParen {
            return Err(ParseError::Unexpected { index: j });
        }
        proof {
            lemma_tuple(t@, j + 1, 3, seq![]);
        }
        let c = match parse_tuple(t, j + 1, 3) {
            Ok(c) => c,
            Err(e) => return Err(e),
        };
        values.push(Vec3 { x: c[0], y: c[1], z: c[2] });
        if j + 7 >= len {
            return Err(ParseError::UnexpectedEnd);
        }
        if t[j + 7] == Token::CloseBracket {
            return Ok((values, j + 8));
        }
        if t[j + 7] != Token::Comma {
            return Err(ParseError::Unexpected { index: j + 7 });
        }
        j = j + 8;
    }
}

/// Parses a list of 2-tuples `[(x, y), ...]` starting at token `i`;
/// integer components are widened. Returns the points and the index after
/// the closing `]`.
pub fn parse_vec2_list(t: &[Token], i: usize) -> (r: Result<(Vec<Vec2>, usize), ParseError>)
    ensures
        list_agrees(r, vec2_list_spec(t@, i as int)),
        r matches Ok((_, e)) ==> i < e <= t@.len(),
{
    let len = t.len();
    match expect(t, i, Token::OpenBracket) {
        Err(e) => return Err(e),
        Ok(_) => {},
    }
    let mut values: Vec<Vec2> = Vec::new();
    let mut j: usize = i + 1;
    loop
        invariant
            i < j <= len,
            len == t@.len(),
            vec2_list_spec(t@, i as int) == vec2_list_from(t@, j as int, values@),
        decreases len - j,
    {
        if j >= len {
            return Err(ParseError::UnexpectedEnd);
        }
        if t[j] == Token::CloseBracket {
            return Ok((values, j + 1));
        }
        if t[j] != Token::OpenParen {
            return Err(ParseError::Unexpected { index: j });
        }
        proof {
            lemma_tuple(t@, j + 1, 2, seq![]);
        }
        let c = match parse_tuple(t, j + 1, 2) {
            Ok(c) => c,
            Err(e) => return Err(e),
        };
        values.push(Vec2 { x: c[0], y: c[1] });
        if j + 5 >= len {
            return Err(ParseError::UnexpectedEnd);
        }
        if t[j + 5] == Token::CloseBracket {
            return Ok((values, j + 6));
        }
        if t[j + 5] != Token::Comma {
            return Err(ParseError::Unexpected { index: j + 5 });
        }
        j = j + 6;
    }
}

} // verus!
