use vstd::prelude::*;
use crate::token::{Decimal, Token, ParseError, Span, span_text};
use crate::array::{Vec3, int_list_spec, int_list_from, vec3_list_spec, vec3_list_from, tuple_spec, widen};
use crate::define::{DefineModel, define_spec, body_spec, meta_spec, type_of};
use crate::lexer::{
    ByteClass, in_class, run_len, next_token_spec, tokens_from, lemma_run, lemma_token_at_bounds,
};

verus! {

/// Token `i` of the integer list literal `[v0, v1, ...]`.
pub open spec fn int_list_token(vs: Seq<u32>, i: int) -> Token {
    if i == 0 {
        Token::OpenBracket
    } else if i % 2 == 1 && (i - 1) / 2 < vs.len() {
        Token::Integer(vs[(i - 1) / 2] as i64)
    } else if i == 2 * vs.len() || (vs.len() == 0 && i == 1) {
        Token::CloseBracket
    } else {
        Token::Comma
    }
}

/// The tokens of the integer list literal `[v0, v1, ...]`.
pub open spec fn int_list_tokens(vs: Seq<u32>) -> Seq<Token> {
    let n = if vs.len() == 0 {
        2
    } else {
        2 * vs.len() + 1
    };
    Seq::new(n as nat, |i: int| int_list_token(vs, i))
}

proof fn lemma_int_list_rest(vs: Seq<u32>, k: int)
    requires
        0 <= k < vs.len(),
    ensures
        int_list_from(int_list_tokens(vs), 1 + 2 * k, vs.take(k)) == Ok::<_, crate::token::ParseError>((vs, 2 * vs.len() + 1int)),
    decreases vs.len() - k,
{
    let t = int_list_tokens(vs);
    let j = 1 + 2 * k;
    assert(t[j] == Token::Integer(vs[k] as i64));
    assert(vs.take(k).push(vs[k]) =~= vs.take(k + 1));
    if k + 1 < vs.len() {
        assert(t[j + 1] == Token::Comma);
        lemma_int_list_rest(vs, k + 1);
        assert(int_list_from(t, j + 1, vs.take(k + 1)) == int_list_from(t, j + 2, vs.take(k + 1)));
    } else {
        assert(t[j + 1] == Token::CloseBracket);
        assert(vs.take(k + 1) =~= vs);
    }
}

/// An integer list literal of any length, written as tokens, parses back
/// to exactly its elements, in order, and is consumed to its closing `]`.
pub proof fn law_int_list_round_trip(vs: Seq<u32>)
    ensures
        int_list_spec(int_list_tokens(vs), 0) == Ok::<_, crate::token::ParseError>(
            (vs, int_list_tokens(vs).len() as int),
        ),
{
    let t = int_list_tokens(vs);
    if vs.len() == 0 {
        assert(t[1] == Token::CloseBracket);
        assert(seq![] =~= vs);
    } else {
        assert(vs.take(0) =~= seq![]);
        lemma_int_list_rest(vs, 0);
    }
}

/// Token `i` of the list literal `[(x0, y0, z0), (x1, y1, z1), ...]` whose
/// components are float literals.
pub open spec fn vec3_list_token(ps: Seq<Vec3>, i: int) -> Token {
    let k = (i - 1) / 8;
    let r = (i - 1) % 8;
    if i == 0 {
        Token::OpenBracket
    } else if ps.len() == 0 {
        Token::CloseBracket
    } else if r == 0 {
        Token::OpenParen
    } else if r == 1 {
        Token::Float(ps[k].x)
    } else if r == 3 {
        Token::Float(ps[k].y)
    } else if r == 5 {
        Token::Float(ps[k].z)
    } else if r == 6 {
        Token::CloseParen
    } else if r == 7 && k == ps.len() - 1 {
        Token::CloseBracket
    } else {
        Token::Comma
    }
}

/// The tokens of the list literal of 3-tuples `ps`.
pub open spec fn vec3_list_tokens(ps: Seq<Vec3>) -> Seq<Token> {
    let n = if ps.len() == 0 {
        2
    } else {
        8 * ps.len() + 1
    };
    Seq::new(n as nat, |i: int| vec3_list_token(ps, i))
}

proof fn lemma_vec3_list_rest(ps: Seq<Vec3>, k: int)
    requires
        0 <= k < ps.len(),
    ensures
        vec3_list_from(vec3_list_tokens(ps), 1 + 8 * k, ps.take(k)) == Ok::<_, ParseError>(
            (ps, 8 * ps.len() + 1int),
        ),
    decreases ps.len() - k,
{
    let t = vec3_list_tokens(ps);
    let j = 1 + 8 * k;
    assert(t.len() == 8 * ps.len() + 1);
    assert(t[j] == Token::OpenParen);
    assert(t[j + 1] == Token::Float(ps[k].x));
    assert(t[j + 2] == Token::Comma);
    assert(t[j + 3] == Token::Float(ps[k].y));
    assert(t[j + 4] == Token::Comma);
    assert(t[j + 5] == Token::Float(ps[k].z));
    assert(t[j + 6] == Token::CloseParen);
    reveal_with_fuel(tuple_spec, 4);
    let c = seq![ps[k].x, ps[k].y, ps[k].z];
    assert(seq![ps[k].x, ps[k].y].push(ps[k].z) =~= c);
    assert(seq![ps[k].x].push(ps[k].y) =~= seq![ps[k].x, ps[k].y]);
    assert(Seq::<Decimal>::empty().push(ps[k].x) =~= seq![ps[k].x]);
    assert(tuple_spec(t, j + 5, 1, seq![ps[k].x, ps[k].y]) == Ok::<_, ParseError>(c));
    assert(tuple_spec(t, j + 3, 2, seq![ps[k].x]) == Ok::<_, ParseError>(c));
    assert(tuple_spec(t, j + 1, 3, seq![]) == Ok::<_, ParseError>(c));
    assert(ps.take(k).push(Vec3 { x: c[0], y: c[1], z: c[2] }) =~= ps.take(k + 1));
    if k + 1 < ps.len() {
        assert(t[j + 7] == Token::Comma);
        lemma_vec3_list_rest(ps, k + 1);
    } else {
        assert(t[j + 7] == Token::CloseBracket);
        assert(ps.take(k + 1) =~= ps);
    }
}

/// A list literal of any number of 3-tuples, written as tokens, parses back
/// to exactly those tuples: as many as were written, in order; `[]` gives
/// the empty list.
pub proof fn law_vec3_list_round_trip(ps: Seq<Vec3>)
    ensures
        vec3_list_spec(vec3_list_tokens(ps), 0) == Ok::<_, ParseError>(
            (ps, vec3_list_tokens(ps).len() as int),
        ),
{
    let t = vec3_list_tokens(ps);
    if ps.len() == 0 {
        assert(t[1] == Token::CloseBracket);
        assert(seq![] =~= ps);
    } else {
        assert(ps.take(0) =~= seq![]);
        lemma_vec3_list_rest(ps, 0);
    }
}

/// In a list of 3-tuples, components written as integers become decimals
/// equal to those integers.
pub proof fn law_integer_components_widen(a: i64, b: i64, c: i64)
    ensures
        vec3_list_spec(
            seq![
                Token::OpenBracket,
                Token::OpenParen,
                Token::Integer(a),
                Token::Comma,
                Token::Integer(b),
                Token::Comma,
                Token::Integer(c),
                Token::CloseParen,
                Token::CloseBracket,
            ],
            0,
        ) == Ok::<_, ParseError>(
            (
                seq![
                    Vec3 {
                        x: Decimal { mantissa: a, exponent: 0 },
                        y: Decimal { mantissa: b, exponent: 0 },
                        z: Decimal { mantissa: c, exponent: 0 },
                    },
                ],
                9int,
            ),
        ),
{
    let t = seq![
        Token::OpenBracket,
        Token::OpenParen,
        Token::Integer(a),
        Token::Comma,
        Token::Integer(b),
        Token::Comma,
        Token::Integer(c),
        Token::CloseParen,
        Token::CloseBracket,
    ];
    reveal_with_fuel(tuple_spec, 4);
    reveal_with_fuel(vec3_list_from, 2);
    let w = seq![widen(a), widen(b), widen(c)];
    assert(seq![widen(a), widen(b)].push(widen(c)) =~= w);
    assert(seq![widen(a)].push(widen(b)) =~= seq![widen(a), widen(b)]);
    assert(Seq::<Decimal>::empty().push(widen(a)) =~= seq![widen(a)]);
    assert(tuple_spec(t, 6, 1, seq![widen(a), widen(b)]) == Ok::<_, ParseError>(w));
    assert(tuple_spec(t, 4, 2, seq![widen(a)]) == Ok::<_, ParseError>(w));
    assert(tuple_spec(t, 2, 3, seq![]) == Ok::<_, ParseError>(w));
    assert(seq![].push(Vec3 { x: w[0], y: w[1], z: w[2] }) =~= seq![
        Vec3 {
            x: Decimal { mantissa: a, exponent: 0 },
            y: Decimal { mantissa: b, exponent: 0 },
            z: Decimal { mantissa: c, exponent: 0 },
        },
    ]);
}

/// The tokens of `def "n" ( kind = "k" references = @r@ ) { }`, with the
/// two metadata entries in the given order.
pub open spec fn meta_define_tokens(n: Span, k: Span, r: Span, kind_first: bool) -> Seq<Token> {
    let kind = seq![Token::Kind, Token::Equals, Token::Name(k)];
    let refs = seq![Token::References, Token::Equals, Token::FilePath(r)];
    let entries = if kind_first {
        kind + refs
    } else {
        refs + kind
    };
    seq![Token::Name(n), Token::OpenParen] + entries + seq![Token::CloseParen, Token::OpenBrace, Token::CloseBrace]
}

/// A metadata block with a `kind` and a `references` entry sets both on the
/// definition, whichever comes first.
pub proof fn law_metadata_in_any_order(src: Seq<u8>, n: Span, k: Span, r: Span, kind_first: bool)
    ensures
        define_spec(src, meta_define_tokens(n, k, r, kind_first), 0) == Ok::<_, ParseError>(
            (
                DefineModel {
                    ty: None,
                    name: span_text(src, n),
                    kind: Some(span_text(src, k)),
                    references: Some(span_text(src, r)),
                    children: seq![],
                },
                11int,
            ),
        ),
{
    let t = meta_define_tokens(n, k, r, kind_first);
    assert(t.len() == 11);
    assert(t[0] == Token::Name(n));
    assert(t[1] == Token::OpenParen);
    assert(t[8] == Token::CloseParen);
    assert(t[9] == Token::OpenBrace);
    assert(t[10] == Token::CloseBrace);
    let ks = Some(span_text(src, k));
    let rs = Some(span_text(src, r));
    if kind_first {
        assert(t[2] == Token::Kind && t[3] == Token::Equals && t[4] == Token::Name(k));
        assert(t[5] == Token::References && t[6] == Token::Equals && t[7] == Token::FilePath(r));
        assert(meta_spec(src, t, 8, ks, rs) == Ok::<_, ParseError>((ks, rs, 9int)));
        assert(meta_spec(src, t, 5, ks, None) == Ok::<_, ParseError>((ks, rs, 9int)));
        assert(meta_spec(src, t, 2, None, None) == Ok::<_, ParseError>((ks, rs, 9int)));
    } else {
        assert(t[2] == Token::References && t[3] == Token::Equals && t[4] == Token::FilePath(r));
        assert(t[5] == Token::Kind && t[6] == Token::Equals && t[7] == Token::Name(k));
        assert(meta_spec(src, t, 8, ks, rs) == Ok::<_, ParseError>((ks, rs, 9int)));
        assert(meta_spec(src, t, 5, None, rs) == Ok::<_, ParseError>((ks, rs, 9int)));
        assert(meta_spec(src, t, 2, None, None) == Ok::<_, ParseError>((ks, rs, 9int)));
    }
    assert(type_of(src, t[0]) is None);
}

/// Whitespace between tokens carries no token: from a whitespace byte on,
/// the source lexes to the same tokens as from the byte after it.
pub proof fn law_whitespace_carries_no_token(s: Seq<u8>, pos: int)
    requires
        0 <= pos < s.len(),
        in_class(ByteClass::Space, s[pos]),
    ensures
        tokens_from(s, pos) == tokens_from(s, pos + 1),
{
    lemma_run(s, pos + 1, ByteClass::Space);
    assert(next_token_spec(s, pos) == next_token_spec(s, pos + 1));
    let p = pos + 1 + run_len(s, pos + 1, ByteClass::Space);
    if p < s.len() {
        lemma_token_at_bounds(s, p);
    }
}

/// `ms` are the definitions at the `def` keywords at positions `ps`, in
/// order: the first at or after `lo`, each ending before the next keyword,
/// the last ending by `hi`.
pub open spec fn children_at(
    src: Seq<u8>,
    t: Seq<Token>,
    ps: Seq<int>,
    ms: Seq<DefineModel>,
    lo: int,
    hi: int,
) -> bool {
    &&& ps.len() == ms.len()
    &&& ps.len() > 0 ==> lo <= ps[0]
    &&& forall|i: int|
        0 <= i < ps.len() ==> {
            &&& t[#[trigger] ps[i]] == Token::Def
            &&& define_spec(src, t, ps[i] + 1) matches Ok((c, e))
            &&& c == ms[i]
            &&& e <= if i + 1 < ps.len() {
                ps[i + 1]
            } else {
                hi
            }
        }
}

proof fn lemma_body_children(src: Seq<u8>, t: Seq<Token>, j: int, acc: DefineModel, ps: Seq<int>, lo: int)
    requires
        lo <= j,
        children_at(src, t, ps, acc.children, lo, j),
    ensures
        body_spec(src, t, j, acc) matches Ok((m, e)) ==> j < e <= t.len() && t[e - 1]
            == Token::CloseBrace && exists|qs: Seq<int>|
            #[trigger] children_at(src, t, qs, m.children, lo, e - 1),
    decreases t.len() - j,
{
    if 0 <= j < t.len() {
        if t[j] == Token::Def {
            if let Ok((c, e)) = define_spec(src, t, j + 1) {
                if j < e <= t.len() {
                    let acc2 = DefineModel { children: acc.children.push(c), ..acc };
                    let ps2 = ps.push(j);
                    assert forall|i: int| 0 <= i < ps2.len() implies {
                        &&& t[#[trigger] ps2[i]] == Token::Def
                        &&& define_spec(src, t, ps2[i] + 1) matches Ok((c2, e2))
                        &&& c2 == acc2.children[i]
                        &&& e2 <= if i + 1 < ps2.len() {
                            ps2[i + 1]
                        } else {
                            e
                        }
                    } by {
                        if i < ps.len() {
                            assert(ps2[i] == ps[i]);
                        }
                    }
                    lemma_body_children(src, t, e, acc2, ps2, lo);
                }
            }
        } else if t[j] == Token::CloseBrace {
            assert(children_at(src, t, ps, acc.children, lo, j));
        } else {
            lemma_body_children(src, t, j + 1, acc, ps, lo);
        }
    }
}

/// The tree mirrors the source: the children of a parsed definition are,
/// in order, the definitions whose `def` keywords stand directly in its
/// body, each being exactly what parsing at its keyword gives, each ending
/// before the next such keyword, the last before the closing `}`.
pub proof fn law_children_follow_def_keywords(src: Seq<u8>, t: Seq<Token>, j: int)
    ensures
        define_spec(src, t, j) matches Ok((m, e)) ==> j < e <= t.len() && t[e - 1]
            == Token::CloseBrace && exists|ps: Seq<int>|
            #[trigger] children_at(src, t, ps, m.children, j, e - 1),
{
    if 0 <= j < t.len() {
        let ty = type_of(src, t[j]);
        let k = if ty is Some {
            j + 1
        } else {
            j
        };
        if k < t.len() {
            if let Token::Name(sp) = t[k] {
                let hdr = DefineModel {
                    ty,
                    name: span_text(src, sp),
                    kind: None,
                    references: None,
                    children: seq![],
                };
                if k + 1 < t.len() {
                    if t[k + 1] == Token::OpenBrace {
                        assert(children_at(src, t, seq![], hdr.children, j, k + 2));
                        lemma_body_children(src, t, k + 2, hdr, seq![], j);
                    } else if t[k + 1] == Token::OpenParen {
                        if let Ok((kind, refs, b)) = meta_spec(src, t, k + 2, None, None) {
                            if b > j {
                                let h2 = DefineModel { kind, references: refs, ..hdr };
                                assert(children_at(src, t, seq![], h2.children, j, b + 1));
                                lemma_body_children(src, t, b + 1, h2, seq![], j);
                            }
                        }
                    }
                }
            }
        }
    }
}

/// A definition whose body is never closed does not parse: with no `}`
/// from its start on, the result is an error, never a partial tree.
pub proof fn law_unclosed_definition_fails(src: Seq<u8>, t: Seq<Token>, j: int)
    requires
        forall|k: int| j <= k < t.len() ==> t[k] != Token::CloseBrace,
    ensures
        define_spec(src, t, j) is Err,
{
    law_children_follow_def_keywords(src, t, j);
}

} // verus!
