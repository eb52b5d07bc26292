use mup::cursor::{Delimiter, Group, ParseError, Token};
use mup::dsl::Attr;
use mup::nodes::{ElseBranch, Element, IfNode, MarkupParser, MatchArm, Node, Selector, Tag};

fn ident(s: &str) -> Token {
    Token::Ident(s.to_string())
}

fn punct(c: char) -> Token {
    Token::Punct(c)
}

fn lit(s: &str) -> Token {
    Token::Literal(s.to_string())
}

fn group(delimiter: Delimiter, stream: Vec<Token>) -> Token {
    Token::Group(Group { delimiter, stream })
}

fn paren(stream: Vec<Token>) -> Token {
    group(Delimiter::Parenthesis, stream)
}

fn brace(stream: Vec<Token>) -> Token {
    group(Delimiter::Brace, stream)
}

fn error(message: &str, at: Option<usize>) -> ParseError {
    ParseError { message: message.to_string(), at }
}

fn parse(tokens: Vec<Token>) -> Result<Vec<Node>, ParseError> {
    MarkupParser { children: false }.parse(tokens)
}

fn element(tag: &str, body: Option<Vec<Node>>) -> Node {
    Node::Element(Element {
        tag: Tag::Static(tag.to_string()),
        classes: vec![],
        id: None,
        attrs: vec![],
        body,
    })
}

#[test]
fn reads_elements_with_selectors_and_attributes() {
    // div.foo #main data-state="open" { "x" }
    let nodes = parse(vec![
        ident("div"), punct('.'), ident("foo"), punct('#'), ident("main"),
        ident("data"), punct('-'), ident("state"), punct('='), lit("\"open\""),
        brace(vec![lit("\"x\"")]),
    ]);
    assert_eq!(
        nodes,
        Ok(vec![Node::Element(Element {
            tag: Tag::Static("div".to_string()),
            classes: vec![Selector::Name("foo".to_string())],
            id: Some(Selector::Name("main".to_string())),
            attrs: vec![Attr::Static {
                prefix: None,
                segments: vec!["data".to_string(), "state".to_string()],
                value: Some(vec![lit("\"open\"")]),
            }],
            body: Some(vec![Node::Render(vec![lit("\"x\"")])]),
        })])
    );
}

#[test]
fn reads_void_custom_and_dynamic_elements() {
    // br; my-block { } (tag) .x { }
    let nodes = parse(vec![
        ident("br"), punct(';'),
        ident("my"), punct('-'), ident("block"), brace(vec![]),
        paren(vec![ident("tag")]), punct('.'), paren(vec![ident("class")]), brace(vec![]),
    ])
    .unwrap();
    assert_eq!(nodes[0], element("br", None));
    assert_eq!(nodes[1], element("my-block", Some(vec![])));
    assert_eq!(
        nodes[2],
        Node::Element(Element {
            tag: Tag::Dynamic(vec![ident("tag")]),
            classes: vec![Selector::Expr(vec![paren(vec![ident("class")])])],
            id: None,
            attrs: vec![],
            body: Some(vec![]),
        })
    );
}

#[test]
fn starts_a_div_with_a_class_or_an_id() {
    // .panel { } #main { }
    let nodes = parse(vec![punct('.'), ident("panel"), brace(vec![]), punct('#'), ident("main"), brace(vec![])])
        .unwrap();
    assert_eq!(
        nodes[0],
        Node::Element(Element {
            tag: Tag::Static("div".to_string()),
            classes: vec![Selector::Name("panel".to_string())],
            id: None,
            attrs: vec![],
            body: Some(vec![]),
        })
    );
    assert_eq!(
        nodes[1],
        Node::Element(Element {
            tag: Tag::Static("div".to_string()),
            classes: vec![],
            id: Some(Selector::Name("main".to_string())),
            attrs: vec![],
            body: Some(vec![]),
        })
    );
}

#[test]
fn reads_control_flow() {
    // @let x = 1; @if a { "a" } @else if b { "b" } @else { "c" }
    let nodes = parse(vec![
        punct('@'), ident("let"), ident("x"), punct('='), lit("1"), punct(';'),
        punct('@'), ident("if"), ident("a"), brace(vec![lit("\"a\"")]),
        punct('@'), ident("else"), ident("if"), ident("b"), brace(vec![lit("\"b\"")]),
        punct('@'), ident("else"), brace(vec![lit("\"c\"")]),
    ])
    .unwrap();
    assert_eq!(nodes[0], Node::Let(vec![ident("x"), punct('='), lit("1")]));
    assert_eq!(
        nodes[1],
        Node::If(IfNode {
            condition: vec![ident("a")],
            then_body: vec![Node::Render(vec![lit("\"a\"")])],
            else_branch: ElseBranch::If(Box::new(IfNode {
                condition: vec![ident("b")],
                then_body: vec![Node::Render(vec![lit("\"b\"")])],
                else_branch: ElseBranch::Block(vec![Node::Render(vec![lit("\"c\"")])]),
            })),
        })
    );
    assert_eq!(nodes.len(), 2);
}

#[test]
fn reads_loops_and_matches() {
    // @for x in xs { li { (x) } } @match v { A => { "a" }, _ => { } }
    let nodes = parse(vec![
        punct('@'), ident("for"), ident("x"), ident("in"), ident("xs"),
        brace(vec![ident("li"), brace(vec![paren(vec![ident("x")])])]),
        punct('@'), ident("match"), ident("v"),
        brace(vec![
            ident("A"), punct('='), punct('>'), brace(vec![lit("\"a\"")]), punct(','),
            ident("_"), punct('='), punct('>'), brace(vec![]),
        ]),
    ])
    .unwrap();
    assert_eq!(
        nodes[0],
        Node::For(
            vec![ident("x"), ident("in"), ident("xs")],
            vec![element("li", Some(vec![Node::Render(vec![paren(vec![ident("x")])])]))],
        )
    );
    assert_eq!(
        nodes[1],
        Node::Match(
            vec![ident("v")],
            vec![
                MatchArm { pattern: vec![ident("A")], body: vec![Node::Render(vec![lit("\"a\"")])] },
                MatchArm { pattern: vec![ident("_")], body: vec![] },
            ],
        )
    );
}

#[test]
fn reads_children_slots_only_in_components() {
    let children = vec![punct('@'), ident("children")];
    assert_eq!(MarkupParser { children: true }.parse(children.clone()), Ok(vec![Node::ChildrenSlot]));
    assert_eq!(
        MarkupParser { children: false }.parse(children),
        Ok(vec![Node::Render(vec![ident("children")])])
    );
    // @children.len() is a value, not the slot
    let call = vec![punct('@'), ident("children"), punct('.'), ident("len"), paren(vec![])];
    assert_eq!(
        MarkupParser { children: true }.parse(call),
        Ok(vec![Node::Render(vec![ident("children"), punct('.'), ident("len"), paren(vec![])])])
    );
    let slot = vec![punct('@'), ident("Markup"), punct(':'), punct(':'), ident("slot"), paren(vec![])];
    assert_eq!(MarkupParser { children: true }.parse(slot), Ok(vec![Node::ChildrenSlot]));
}

#[test]
fn reads_components_with_children_and_props() {
    // @layout { p { } }
    let nodes = parse(vec![punct('@'), ident("layout"), brace(vec![ident("p"), brace(vec![])])]).unwrap();
    assert_eq!(
        nodes[0],
        Node::RenderWithChildren(vec![ident("layout")], Ok(vec![element("p", Some(vec![]))]))
    );
    // @Card { title: t } { "body" }
    let nodes = parse(vec![
        punct('@'), ident("Card"),
        brace(vec![ident("title"), punct(':'), ident("t")]),
        brace(vec![lit("\"body\"")]),
    ])
    .unwrap();
    assert_eq!(
        nodes[0],
        Node::RenderWithChildren(
            vec![ident("Card"), brace(vec![ident("title"), punct(':'), ident("t")])],
            Ok(vec![Node::Render(vec![lit("\"body\"")])]),
        )
    );
    // an error in the children is kept in their place
    let nodes = parse(vec![punct('@'), ident("layout"), brace(vec![punct(',')])]).unwrap();
    assert_eq!(
        nodes[0],
        Node::RenderWithChildren(
            vec![ident("layout")],
            Err(error("unexpected token in markup: `,`", Some(0))),
        )
    );
}

#[test]
fn reports_what_cannot_be_read() {
    assert_eq!(parse(vec![punct(',')]), Err(error("unexpected token in markup: `,`", Some(0))));
    assert_eq!(
        parse(vec![lit("\"a\""), brace(vec![ident("a"), ident("b")])]),
        Err(error("unexpected token in markup: `{a b}`", Some(1)))
    );
    assert_eq!(parse(vec![ident("div")]), Err(error("expected element body `{ ... }` or `;`", None)));
    assert_eq!(
        parse(vec![punct('@'), ident("if"), ident("x")]),
        Err(error("expected `{ ... }` before end of markup input", None))
    );
    assert_eq!(
        parse(vec![punct('@'), ident("if"), ident("x"), brace(vec![]), punct('@'), ident("else"), ident("y")]),
        Err(error("expected `{ ... }` after `@else`", Some(6)))
    );
    assert_eq!(
        parse(vec![punct('@'), ident("match"), ident("v"), brace(vec![ident("A"), punct('='), punct('>'), lit("1")])]),
        Err(error("expected `{ ... }` in match arm", Some(3)))
    );
    assert_eq!(
        parse(vec![punct('@'), ident("let"), ident("x")]),
        Err(error("expected `;` before end of markup input", None))
    );
    assert_eq!(parse(vec![]), Ok(vec![]));
}
