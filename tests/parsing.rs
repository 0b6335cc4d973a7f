use usda::array::{parse_integer_list, parse_vec2_list, parse_vec3_list, Vec3};
use usda::attribute::{max_value, parse_attributes, AttributeValue};
use usda::define::{parse, DefineType};
use usda::lexer::{next_token, tokenize};
use usda::token::{Decimal, ParseError, Span, Token};

fn to_f32(d: &Decimal) -> f32 {
    (d.mantissa as f64 * 10f64.powi(d.exponent as i32)) as f32
}

fn text<'a>(src: &'a str, sp: Span) -> &'a str {
    &src[sp.start..sp.end]
}

#[test]
fn lexes_definition_header() {
    let src = "def Xform \"World\" {\n}";
    let t = tokenize(src.as_bytes());
    assert_eq!(t.len(), 5);
    assert_eq!(t[0], Token::Def);
    match t[1] {
        Token::Identifier(sp) => assert_eq!(text(src, sp), "Xform"),
        other => panic!("{:?}", other),
    }
    match t[2] {
        Token::Name(sp) => assert_eq!(text(src, sp), "World"),
        other => panic!("{:?}", other),
    }
    assert_eq!(t[3], Token::OpenBrace);
    assert_eq!(t[4], Token::CloseBrace);
}

#[test]
fn keywords_need_an_exact_match() {
    let src = "variantSets variantSet define None kind references";
    let t = tokenize(src.as_bytes());
    assert_eq!(t[0], Token::VariantSets);
    assert_eq!(t[1], Token::VariantSet);
    assert!(matches!(t[2], Token::Identifier(_)));
    assert_eq!(t[3], Token::NoneKeyword);
    assert_eq!(t[4], Token::Kind);
    assert_eq!(t[5], Token::References);
}

#[test]
fn lexes_numbers() {
    let t = tokenize(b"1.5 -3 .5 2.5e-3 -0.25 42");
    assert_eq!(t[0], Token::Float(Decimal { mantissa: 15, exponent: -1 }));
    assert_eq!(t[1], Token::Integer(-3));
    assert_eq!(t[2], Token::Float(Decimal { mantissa: 5, exponent: -1 }));
    assert_eq!(t[3], Token::Float(Decimal { mantissa: 25, exponent: -4 }));
    assert_eq!(t[4], Token::Float(Decimal { mantissa: -25, exponent: -2 }));
    assert_eq!(t[5], Token::Integer(42));
    assert_eq!(t.len(), 6);
}

#[test]
fn integer_that_overflows_is_an_error_token() {
    let t = tokenize(b"99999999999999999999");
    assert_eq!(t.len(), 1);
    assert_eq!(t[0], Token::Error(Span { start: 0, end: 20 }));
}

#[test]
fn lexes_comment_and_paths() {
    let src = "#  usda 1.0  \n</World/Mesh> @./a.usd@";
    let t = tokenize(src.as_bytes());
    assert_eq!(t.len(), 3);
    match t[0] {
        Token::Comment(sp) => assert_eq!(text(src, sp), "usda 1.0"),
        other => panic!("{:?}", other),
    }
    match t[1] {
        Token::ScenePath(sp) => assert_eq!(text(src, sp), "/World/Mesh"),
        other => panic!("{:?}", other),
    }
    match t[2] {
        Token::FilePath(sp) => assert_eq!(text(src, sp), "./a.usd"),
        other => panic!("{:?}", other),
    }
}

#[test]
fn unknown_input_is_an_error_token() {
    let t = tokenize(b"a $ b");
    assert_eq!(t[1], Token::Error(Span { start: 2, end: 3 }));
    assert_eq!(parse(b"def \"A\" { $ }").unwrap_err(), ParseError::Lex { offset: 10 });
}

#[test]
fn next_token_restarts_from_any_position() {
    let src = b"  { }";
    let (first, end) = next_token(src, 0).unwrap();
    assert_eq!(first, Token::OpenBrace);
    assert_eq!(end, 3);
    assert_eq!(next_token(src, end).unwrap().0, Token::CloseBrace);
    assert_eq!(next_token(src, 0).unwrap().0, Token::OpenBrace);
    assert!(next_token(src, 5).is_none());
}

#[test]
fn integer_list_keeps_order() {
    let t = tokenize(b"[7, 3, 9]");
    let (v, end) = parse_integer_list(&t, 0).unwrap();
    assert_eq!(v, vec![7, 3, 9]);
    assert_eq!(end, 7);
}

#[test]
fn integer_list_ignores_whitespace() {
    let t = tokenize(b"[\n  7 ,\n\t3,9\n]");
    let (v, _) = parse_integer_list(&t, 0).unwrap();
    assert_eq!(v, vec![7, 3, 9]);
}

#[test]
fn empty_lists_are_empty() {
    let t = tokenize(b"[]");
    assert_eq!(parse_integer_list(&t, 0).unwrap().0.len(), 0);
    assert_eq!(parse_vec3_list(&t, 0).unwrap().0.len(), 0);
    assert_eq!(parse_vec2_list(&t, 0).unwrap().0.len(), 0);
}

#[test]
fn negative_int_list_element_is_rejected() {
    let t = tokenize(b"[1, -2]");
    assert_eq!(parse_integer_list(&t, 0).unwrap_err(), ParseError::OutOfRange { index: 3 });
}

#[test]
fn integer_components_are_widened() {
    let t = tokenize(b"[(1, 2, 3)]");
    let (v, _) = parse_vec3_list(&t, 0).unwrap();
    assert_eq!(v.len(), 1);
    assert_eq!([to_f32(&v[0].x), to_f32(&v[0].y), to_f32(&v[0].z)], [1.0, 2.0, 3.0]);
    assert_eq!(v[0].x, Decimal { mantissa: 1, exponent: 0 });
}

#[test]
fn tuple_count_matches_input() {
    for n in 0..6usize {
        let mut s = String::from("[");
        for i in 0..n {
            if i > 0 {
                s.push_str(", ");
            }
            s.push_str(&format!("({}, {}.5)", i, i));
        }
        s.push(']');
        let t = tokenize(s.as_bytes());
        let (v, _) = parse_vec2_list(&t, 0).unwrap();
        assert_eq!(v.len(), n);
    }
}

#[test]
fn malformed_tuple_is_rejected() {
    let t = tokenize(b"[(1, 2)]");
    assert_eq!(parse_vec3_list(&t, 0).unwrap_err(), ParseError::Unexpected { index: 5 });
    let t = tokenize(b"[(1, 2, 3)");
    assert_eq!(parse_vec3_list(&t, 0).unwrap_err(), ParseError::UnexpectedEnd);
}

#[test]
fn three_siblings_in_order() {
    let defs = parse(b"def \"A\" {} def \"B\" {} def \"C\" {}").unwrap();
    assert_eq!(defs.len(), 3);
    let names: Vec<&[u8]> = defs.iter().map(|d| d.name.as_slice()).collect();
    assert_eq!(names, vec![&b"A"[..], &b"B"[..], &b"C"[..]]);
    assert!(defs.iter().all(|d| d.children.is_empty()));
}

#[test]
fn nesting_mirrors_source() {
    let src = b"def Xform \"root\" { def Mesh \"a\" { def \"a1\" {} } def Sphere \"b\" {} }";
    let defs = parse(src).unwrap();
    assert_eq!(defs.len(), 1);
    let root = &defs[0];
    assert_eq!(root.ty, Some(DefineType::Xform));
    assert_eq!(root.children.len(), 2);
    assert_eq!(root.children[0].name, b"a".to_vec());
    assert_eq!(root.children[0].ty, Some(DefineType::Mesh));
    assert_eq!(root.children[0].children.len(), 1);
    assert_eq!(root.children[0].children[0].name, b"a1".to_vec());
    assert_eq!(root.children[0].children[0].ty, None);
    assert_eq!(root.children[1].name, b"b".to_vec());
    assert_eq!(root.children[1].ty, Some(DefineType::Sphere));
}

#[test]
fn metadata_fills_kind_and_references() {
    for src in [
        "def \"A\" ( kind = \"component\" references = @foo.usd@ ) {}",
        "def \"A\" ( references = @foo.usd@ kind = \"component\" ) {}",
    ] {
        let defs = parse(src.as_bytes()).unwrap();
        assert_eq!(defs[0].kind, Some(b"component".to_vec()));
        assert_eq!(defs[0].references, Some(b"foo.usd".to_vec()));
    }
}

#[test]
fn metadata_skips_other_entries() {
    let defs = parse(b"def \"A\" ( instanceable = true ) { }").unwrap();
    assert_eq!(defs[0].kind, None);
    assert_eq!(defs[0].references, None);
}

#[test]
fn missing_inner_close_brace_is_an_error() {
    assert!(parse(b"def \"A\" { def \"B\" }").is_err());
    assert!(parse(b"def \"A\" { def \"B\" {}").is_err());
    assert_eq!(parse(b"def \"A\" { def \"B\" {}").unwrap_err(), ParseError::UnexpectedEnd);
}

#[test]
fn unknown_type_keyword_is_an_error() {
    assert_eq!(parse(b"def Light \"L\" {}").unwrap_err(), ParseError::Unexpected { index: 1 });
    assert_eq!(parse(b"}").unwrap_err(), ParseError::Unexpected { index: 0 });
}

#[test]
fn int_attribute_end_to_end() {
    let attrs = parse_attributes(b"int[] \"ids\" = [1, 2, 3]").unwrap();
    assert_eq!(attrs.len(), 1);
    assert_eq!(attrs[0].name, b"ids".to_vec());
    match &attrs[0].value {
        AttributeValue::IntList(v) => {
            assert_eq!(v, &vec![1, 2, 3]);
            assert_eq!(max_value(v), Some(3));
        },
        other => panic!("{:?}", other),
    }
}

#[test]
fn point_attribute_end_to_end() {
    let attrs = parse_attributes(b"point3f[] \"pts\" = [(0, 0, 0), (1.5, 2, -3)]").unwrap();
    assert_eq!(attrs.len(), 1);
    assert_eq!(attrs[0].name, b"pts".to_vec());
    match &attrs[0].value {
        AttributeValue::Point3List(v) => {
            assert_eq!(v.len(), 2);
            let p: &Vec3 = &v[1];
            assert_eq!([to_f32(&p.x), to_f32(&p.y), to_f32(&p.z)], [1.5, 2.0, -3.0]);
        },
        other => panic!("{:?}", other),
    }
    assert_eq!(attrs[0].value.len(), 2);
}

#[test]
fn texcoord_attribute_and_unknown_types() {
    let src = b"float[] f = [1]\ntexCoord2f[] uv = [(0, 1), (0.5, 0.25)]";
    let attrs = parse_attributes(src).unwrap();
    assert_eq!(attrs.len(), 1);
    assert_eq!(attrs[0].name, b"uv".to_vec());
    assert_eq!(attrs[0].value.len(), 2);
}

#[test]
fn max_of_empty_is_none() {
    assert_eq!(max_value(&[]), None);
    assert_eq!(max_value(&[4, 9, 2]), Some(9));
}

#[test]
fn point_list_count_matches_input() {
    for n in 0..5usize {
        let items: Vec<String> = (0..n).map(|i| format!("({}, -{}.25, 1e0)", i, i)).collect();
        let s = format!("[{}]", items.join(", "));
        let t = tokenize(s.as_bytes());
        // `1e0` is not a float literal: it lexes as an integer and an identifier.
        if n > 0 {
            assert!(parse_vec3_list(&t, 0).is_err());
        }
        let items: Vec<String> = (0..n).map(|i| format!("({}, -{}.25, 2.5e+1)", i, i)).collect();
        let s = format!("[{}]", items.join(",\n"));
        let t = tokenize(s.as_bytes());
        let (v, end) = parse_vec3_list(&t, 0).unwrap();
        assert_eq!(v.len(), n);
        assert_eq!(end, t.len());
        for p in &v {
            assert_eq!(p.z, Decimal { mantissa: 25, exponent: 0 });
        }
    }
}

#[test]
fn unclosed_body_is_an_error() {
    assert_eq!(parse(b"def Scope \"S\" { def \"T\" { }").unwrap_err(), ParseError::UnexpectedEnd);
    assert_eq!(parse(b"def \"S\" ( kind = \"group\"").unwrap_err(), ParseError::UnexpectedEnd);
}
