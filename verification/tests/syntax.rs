use mup::cursor::{token_stream_from_group, Cursor, Delimiter, Group, ParseError, Token};
use mup::dsl::{
    collect_angle_args, consume_markup_slot_call, group_looks_struct_literal,
    paren_starts_dynamic_element, parse_attr, parse_attr_value, parse_expr_like,
    parse_name_segments, parse_optional_attr_value, parse_spread_expr, parse_static_tag,
    qualify_enum_variant_pattern, Attr, EnumRenderArm, EnumRenderArms,
};

fn ident(s: &str) -> Token {
    Token::Ident(s.to_string())
}

fn punct(c: char) -> Token {
    Token::Punct(c)
}

fn lit(s: &str) -> Token {
    Token::Literal(s.to_string())
}

fn group(delimiter: Delimiter, stream: Vec<Token>) -> Token {
    Token::Group(Group { delimiter, stream })
}

fn paren(stream: Vec<Token>) -> Token {
    group(Delimiter::Parenthesis, stream)
}

fn brace(stream: Vec<Token>) -> Token {
    group(Delimiter::Brace, stream)
}

fn bracket(stream: Vec<Token>) -> Token {
    group(Delimiter::Bracket, stream)
}

fn error(message: &str, at: Option<usize>) -> ParseError {
    ParseError { message: message.to_string(), at }
}

#[test]
fn cursor_reads_tokens_in_order() {
    let mut c = Cursor::new(vec![ident("div"), punct('.'), lit("\"x\"")]);
    assert!(!c.is_empty());
    assert_eq!(c.peek(), Some(&ident("div")));
    assert_eq!(c.peek_n(2), Some(&lit("\"x\"")));
    assert_eq!(c.peek_n(3), None);
    assert!(c.peek_ident("div"));
    assert!(!c.peek_ident("span"));
    assert_eq!(c.consume_ident("span"), None);
    assert_eq!(c.consume_ident("div"), Some("div".to_string()));
    assert!(c.peek_punct('.'));
    assert!(c.peek_punct_n(0, '.'));
    assert_eq!(c.span(), Some(1));
    assert_eq!(c.consume_punct('#'), None);
    assert_eq!(c.consume_punct('.'), Some('.'));
    assert_eq!(c.next(), Some(lit("\"x\"")));
    assert!(c.is_empty());
    assert_eq!(c.next(), None);
    assert_eq!(c.span(), None);
    assert_eq!(c.unexpected("end"), error("end", None));
}

#[test]
fn cursor_reads_pairs_and_groups() {
    let body = vec![lit("\"a\"")];
    let mut c = Cursor::new(vec![punct(':'), punct(':'), brace(body.clone()), punct(',')]);
    assert!(!c.consume_double_punct(':', '>'));
    assert!(c.consume_double_punct(':', ':'));
    assert!(!c.peek_group(Delimiter::Parenthesis));
    assert!(c.peek_group(Delimiter::Brace));
    assert_eq!(c.consume_group(Delimiter::Bracket), None);
    assert_eq!(
        c.consume_group(Delimiter::Brace),
        Some(Group { delimiter: Delimiter::Brace, stream: body })
    );
    assert_eq!(c.unexpected("here"), error("here", Some(3)));
    c.skip_optional_comma();
    assert!(c.is_empty());
    c.skip_optional_comma();
    assert!(c.is_empty());
}

#[test]
fn cursor_reports_what_it_expected() {
    let mut c = Cursor::new(vec![punct('-'), ident("a")]);
    assert_eq!(c.next_ident(), Err(error("expected identifier", Some(0))));
    assert_eq!(c.next_literal(), Err(error("expected literal", Some(1))));
    assert_eq!(c.next_ident(), Err(error("expected identifier", None)));
    let mut c = Cursor::new(vec![lit("1")]);
    assert_eq!(c.next_literal(), Ok("1".to_string()));
    assert_eq!(c.next_literal(), Err(error("expected literal", None)));
}

#[test]
fn cursor_collects_up_to_a_delimiter() {
    let mut c = Cursor::new(vec![ident("x"), punct('='), lit("1"), punct(';'), ident("y")]);
    assert_eq!(c.collect_until_semicolon(), Ok(vec![ident("x"), punct('='), lit("1")]));
    assert_eq!(c.peek(), Some(&ident("y")));
    assert_eq!(
        c.collect_until_semicolon(),
        Err(error("expected `;` before end of markup input", None))
    );
    assert!(c.is_empty());

    let mut c = Cursor::new(vec![ident("x"), ident("in"), ident("xs"), brace(vec![ident("li")])]);
    assert_eq!(
        c.collect_until_brace_group(),
        Ok((
            vec![ident("x"), ident("in"), ident("xs")],
            Group { delimiter: Delimiter::Brace, stream: vec![ident("li")] }
        ))
    );
    let mut c = Cursor::new(vec![ident("x"), paren(vec![])]);
    assert_eq!(
        c.collect_until_brace_group(),
        Err(error("expected `{ ... }` before end of markup input", None))
    );

    let mut c = Cursor::new(vec![ident("A"), punct('='), punct('='), punct('>'), brace(vec![])]);
    assert_eq!(c.collect_until_arrow(), Ok(vec![ident("A"), punct('=')]));
    assert!(c.peek_group(Delimiter::Brace));
    let mut c = Cursor::new(vec![ident("A"), punct('=')]);
    assert_eq!(
        c.collect_until_arrow(),
        Err(error("expected `=>` in component enum render arm", None))
    );
}

#[test]
fn groups_become_tokens() {
    let g = Group { delimiter: Delimiter::Parenthesis, stream: vec![ident("a")] };
    assert_eq!(token_stream_from_group(&g), vec![paren(vec![ident("a")])]);
    let g = Group { delimiter: Delimiter::Invisible, stream: vec![ident("a"), ident("b")] };
    assert_eq!(token_stream_from_group(&g), vec![ident("a"), ident("b")]);
}

#[test]
fn reads_dashed_names() {
    let mut c = Cursor::new(vec![ident("my"), punct('-'), ident("block"), punct('-'), ident("item"), punct('.')]);
    assert_eq!(
        parse_name_segments(&mut c),
        Ok(vec!["my".to_string(), "block".to_string(), "item".to_string()])
    );
    assert!(c.peek_punct('.'));
    let mut c = Cursor::new(vec![ident("my"), punct('-'), ident("block")]);
    assert_eq!(parse_static_tag(&mut c), Ok("my-block".to_string()));
    let mut c = Cursor::new(vec![ident("a"), punct('-')]);
    assert_eq!(parse_name_segments(&mut c), Err(error("expected identifier", None)));
    let mut c = Cursor::new(vec![ident("a"), punct('-'), lit("1")]);
    assert_eq!(parse_static_tag(&mut c), Err(error("expected identifier", Some(2))));
    let mut c = Cursor::new(vec![lit("1")]);
    assert_eq!(parse_name_segments(&mut c), Err(error("expected identifier", Some(0))));
}

#[test]
fn reads_expressions_without_parentheses() {
    // view.title
    let mut c = Cursor::new(vec![ident("view"), punct('.'), ident("title"), brace(vec![])]);
    let e = parse_expr_like(&mut c).unwrap();
    assert_eq!(e.tokens, vec![ident("view"), punct('.'), ident("title")]);
    assert!(!e.simple_path);
    assert!(c.peek_group(Delimiter::Brace));

    // crate::Layout is a plain path
    let mut c = Cursor::new(vec![ident("crate"), punct(':'), punct(':'), ident("Layout"), brace(vec![])]);
    let e = parse_expr_like(&mut c).unwrap();
    assert_eq!(e.tokens, vec![ident("crate"), punct(':'), punct(':'), ident("Layout")]);
    assert!(e.simple_path);

    // label() and items[0].name
    let mut c = Cursor::new(vec![ident("label"), paren(vec![])]);
    let e = parse_expr_like(&mut c).unwrap();
    assert_eq!(e.tokens, vec![ident("label"), paren(vec![])]);
    assert!(!e.simple_path);
    let mut c = Cursor::new(vec![ident("items"), bracket(vec![lit("0")]), punct('.'), ident("name")]);
    let e = parse_expr_like(&mut c).unwrap();
    assert_eq!(e.tokens.len(), 4);

    // Vec::<u8>::new()
    let mut c = Cursor::new(vec![
        ident("Vec"), punct(':'), punct(':'), punct('<'), ident("u8"), punct('>'),
        punct(':'), punct(':'), ident("new"), paren(vec![]),
    ]);
    let e = parse_expr_like(&mut c).unwrap();
    assert_eq!(e.tokens.len(), 10);
    assert!(c.is_empty());

    // format!("x") and a literal
    let mut c = Cursor::new(vec![ident("format"), punct('!'), paren(vec![lit("\"x\"")]), lit("1")]);
    let e = parse_expr_like(&mut c).unwrap();
    assert_eq!(e.tokens, vec![ident("format"), punct('!'), paren(vec![lit("\"x\"")])]);
    let e = parse_expr_like(&mut c).unwrap();
    assert_eq!(e.tokens, vec![lit("1")]);

    // a parenthesized group followed by `=` is left for the next attribute
    let mut c = Cursor::new(vec![ident("title"), paren(vec![ident("a")]), punct('='), lit("1")]);
    let e = parse_expr_like(&mut c).unwrap();
    assert_eq!(e.tokens, vec![ident("title")]);
    assert!(c.peek_group(Delimiter::Parenthesis));

    // an invisible group stands for its contents
    let mut c = Cursor::new(vec![group(Delimiter::Invisible, vec![ident("a"), ident("b")])]);
    assert_eq!(parse_expr_like(&mut c).unwrap().tokens, vec![ident("a"), ident("b")]);
}

#[test]
fn reports_bad_expressions() {
    let mut c = Cursor::new(vec![punct('#')]);
    assert_eq!(parse_expr_like(&mut c), Err(error("expected Rust expression in markup", Some(0))));
    let mut c = Cursor::new(vec![]);
    assert_eq!(parse_expr_like(&mut c), Err(error("expected Rust expression in markup", None)));
    let mut c = Cursor::new(vec![ident("a"), punct('.'), punct('#')]);
    assert_eq!(parse_expr_like(&mut c), Err(error("expected field or method after `.`", Some(2))));
    let mut c = Cursor::new(vec![ident("a"), punct('!'), ident("b")]);
    assert_eq!(parse_expr_like(&mut c), Err(error("expected macro invocation body after `!`", Some(2))));
    let mut c = Cursor::new(vec![ident("a"), punct(':'), punct(':')]);
    assert_eq!(parse_expr_like(&mut c), Err(error("expected identifier", None)));
}

#[test]
fn reads_generic_arguments() {
    let mut c = Cursor::new(vec![punct('<'), ident("Vec"), punct('<'), ident("u8"), punct('>'), punct('>'), ident("x")]);
    assert_eq!(collect_angle_args(&mut c).unwrap().len(), 6);
    assert!(c.peek_ident("x"));
    let mut c = Cursor::new(vec![punct('<'), ident("T")]);
    assert_eq!(collect_angle_args(&mut c), Err(error("unterminated generic argument list", None)));
    let mut c = Cursor::new(vec![punct('>')]);
    assert_eq!(collect_angle_args(&mut c), Err(error("unexpected `>`", Some(0))));
}

#[test]
fn tells_struct_literal_groups() {
    let g = |stream: Vec<Token>| Group { delimiter: Delimiter::Brace, stream };
    assert!(group_looks_struct_literal(&g(vec![ident("a"), punct(':'), lit("1")])));
    assert!(group_looks_struct_literal(&g(vec![ident("a")])));
    assert!(group_looks_struct_literal(&g(vec![ident("a"), punct(','), ident("b")])));
    assert!(group_looks_struct_literal(&g(vec![punct('.'), punct('.'), ident("d")])));
    assert!(group_looks_struct_literal(&g(vec![ident("a"), punct('.'), punct('.')])));
    assert!(!group_looks_struct_literal(&g(vec![lit("\"x\"")])));
    assert!(!group_looks_struct_literal(&g(vec![ident("p"), brace(vec![])])));
    assert!(!group_looks_struct_literal(&g(vec![])));
}

#[test]
fn tells_dynamic_tags_and_slot_calls() {
    let c = Cursor::new(vec![paren(vec![ident("tag")]), brace(vec![])]);
    assert!(paren_starts_dynamic_element(&c));
    let c = Cursor::new(vec![paren(vec![ident("x")])]);
    assert!(!paren_starts_dynamic_element(&c));
    let c = Cursor::new(vec![paren(vec![]), group(Delimiter::Invisible, vec![])]);
    assert!(!paren_starts_dynamic_element(&c));

    let mut c = Cursor::new(vec![ident("Markup"), punct(':'), punct(':'), ident("slot"), paren(vec![]), ident("x")]);
    assert!(consume_markup_slot_call(&mut c));
    assert!(c.peek_ident("x"));
    let mut c = Cursor::new(vec![ident("Markup"), punct(':'), punct(':'), ident("slot"), paren(vec![ident("a")])]);
    assert!(!consume_markup_slot_call(&mut c));
    assert!(c.peek_ident("Markup"));
}

#[test]
fn reads_attributes() {
    // data-state="open"
    let mut c = Cursor::new(vec![ident("data"), punct('-'), ident("state"), punct('='), lit("\"open\""), punct(';')]);
    assert_eq!(
        parse_attr(&mut c),
        Ok(Attr::Static {
            prefix: None,
            segments: vec!["data".to_string(), "state".to_string()],
            value: Some(vec![lit("\"open\"")]),
        })
    );
    assert!(c.peek_punct(';'));
    // @click=handler
    let mut c = Cursor::new(vec![punct('@'), ident("click"), punct('='), ident("handler")]);
    assert_eq!(
        parse_attr(&mut c),
        Ok(Attr::Static {
            prefix: Some("@".to_string()),
            segments: vec!["click".to_string()],
            value: Some(vec![ident("handler")]),
        })
    );
    // disabled
    let mut c = Cursor::new(vec![ident("disabled"), brace(vec![])]);
    assert_eq!(
        parse_attr(&mut c),
        Ok(Attr::Static { prefix: None, segments: vec!["disabled".to_string()], value: None })
    );
    // "data-label"=label()
    let mut c = Cursor::new(vec![lit("\"data-label\""), punct('='), ident("label"), paren(vec![])]);
    assert_eq!(
        parse_attr(&mut c),
        Ok(Attr::Literal {
            name: "\"data-label\"".to_string(),
            value: Some(vec![ident("label"), paren(vec![])]),
        })
    );
    // (attr)=("v")
    let mut c = Cursor::new(vec![paren(vec![ident("attr")]), punct('='), paren(vec![lit("\"v\"")])]);
    assert_eq!(
        parse_attr(&mut c),
        Ok(Attr::Dynamic { name: vec![ident("attr")], value: Some(vec![paren(vec![lit("\"v\"")])]) })
    );
    // ..attrs and ..[("id", "x")]
    let mut c = Cursor::new(vec![punct('.'), punct('.'), ident("attrs")]);
    assert_eq!(parse_attr(&mut c), Ok(Attr::Spread(vec![ident("attrs")])));
    let mut c = Cursor::new(vec![punct('.'), punct('.'), bracket(vec![paren(vec![lit("\"id\"")])])]);
    assert_eq!(parse_attr(&mut c), Ok(Attr::Spread(vec![bracket(vec![paren(vec![lit("\"id\"")])])])));
    // nothing that starts an attribute
    let mut c = Cursor::new(vec![punct('#')]);
    assert_eq!(parse_attr(&mut c), Err(error("unexpected token in attributes", Some(0))));
    let mut c = Cursor::new(vec![ident("a"), punct('='), punct('#')]);
    assert_eq!(parse_attr(&mut c), Err(error("expected Rust expression in markup", Some(2))));
}

#[test]
fn reads_attribute_values() {
    let mut c = Cursor::new(vec![paren(vec![ident("x")])]);
    assert_eq!(parse_attr_value(&mut c), Ok(vec![paren(vec![ident("x")])]));
    let mut c = Cursor::new(vec![lit("1")]);
    assert_eq!(parse_attr_value(&mut c), Ok(vec![lit("1")]));
    let mut c = Cursor::new(vec![ident("view"), punct('.'), ident("title")]);
    assert_eq!(parse_attr_value(&mut c).unwrap().len(), 3);
    let mut c = Cursor::new(vec![paren(vec![ident("m")])]);
    assert_eq!(parse_spread_expr(&mut c), Ok(vec![paren(vec![ident("m")])]));
    let mut c = Cursor::new(vec![ident("x")]);
    assert_eq!(parse_optional_attr_value(&mut c), Ok(None));
    assert!(c.peek_ident("x"));
    let mut c = Cursor::new(vec![punct('='), lit("2")]);
    assert_eq!(parse_optional_attr_value(&mut c), Ok(Some(vec![lit("2")])));
}

#[test]
fn qualifies_enum_arm_patterns() {
    assert_eq!(
        qualify_enum_variant_pattern(vec![ident("Open"), paren(vec![ident("x")])]),
        vec![ident("Self"), punct(':'), punct(':'), ident("Open"), paren(vec![ident("x")])]
    );
    let p = vec![ident("Self"), punct(':'), punct(':'), ident("Open")];
    assert_eq!(qualify_enum_variant_pattern(p.clone()), p);
    assert_eq!(qualify_enum_variant_pattern(vec![ident("_")]), vec![ident("_")]);
    assert_eq!(qualify_enum_variant_pattern(vec![lit("1")]), vec![lit("1")]);
    assert_eq!(qualify_enum_variant_pattern(vec![]), vec![]);
}

#[test]
fn reads_enum_render_arms() {
    let input = vec![
        ident("Open"), punct('='), punct('>'), brace(vec![lit("\"open\"")]), punct(','),
        ident("_"), punct('='), punct('>'), brace(vec![]),
    ];
    assert_eq!(
        EnumRenderArms::parse(input),
        Ok(EnumRenderArms {
            arms: vec![
                EnumRenderArm {
                    pattern: vec![ident("Self"), punct(':'), punct(':'), ident("Open")],
                    body: vec![lit("\"open\"")],
                },
                EnumRenderArm { pattern: vec![ident("_")], body: vec![] },
            ],
        })
    );
    assert_eq!(EnumRenderArms::parse(vec![]), Ok(EnumRenderArms { arms: vec![] }));
    assert_eq!(
        EnumRenderArms::parse(vec![ident("A"), brace(vec![])]),
        Err(error("expected `=>` in component enum render arm", None))
    );
    assert_eq!(
        EnumRenderArms::parse(vec![ident("A"), punct('='), punct('>'), lit("1")]),
        Err(error("expected `{ ... }` after enum render arm", Some(3)))
    );
}

#[test]
fn an_expression_stops_where_nothing_continues_it() {
    // a literal takes no call: `1 (x)` stops after `1`
    let mut c = Cursor::new(vec![lit("1"), paren(vec![ident("x")])]);
    let e = parse_expr_like(&mut c).unwrap();
    assert_eq!(e.tokens, vec![lit("1")]);
    assert!(c.peek_group(Delimiter::Parenthesis));

    // a tuple field takes a call: `t.0 (x)`
    let mut c = Cursor::new(vec![ident("t"), punct('.'), lit("0"), paren(vec![ident("x")])]);
    let e = parse_expr_like(&mut c).unwrap();
    assert_eq!(e.tokens.len(), 4);
    assert!(c.is_empty());

    // errors come only from a bad start or a malformed continuation
    let mut c = Cursor::new(vec![punct('#')]);
    assert_eq!(parse_expr_like(&mut c).unwrap_err().message, "expected Rust expression in markup");
    let mut c = Cursor::new(vec![ident("a"), punct('.'), punct('#')]);
    assert_eq!(parse_expr_like(&mut c).unwrap_err().message, "expected field or method after `.`");
    let mut c = Cursor::new(vec![ident("m"), punct('!'), ident("x")]);
    assert_eq!(parse_expr_like(&mut c).unwrap_err().message, "expected macro invocation body after `!`");
    let mut c = Cursor::new(vec![ident("a"), punct(':'), punct(':'), lit("1")]);
    assert_eq!(parse_expr_like(&mut c).unwrap_err().message, "expected identifier");
}
