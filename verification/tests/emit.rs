use mup::cursor::{Delimiter, Group, Token};
use mup::dsl::Attr;
use mup::emit::{expand_markup, string_literal_text, Emitter};
use mup::nodes::Selector;

/// Reads Rust-like source into tokens: identifiers, string and number
/// literals, single punctuation characters, and bracketed groups.
fn lex(src: &str) -> Vec<Token> {
    fn read(chars: &[char], i: &mut usize, close: Option<char>) -> Vec<Token> {
        let mut out = Vec::new();
        while *i < chars.len() {
            let c = chars[*i];
            if Some(c) == close {
                *i += 1;
                return out;
            }
            if c.is_whitespace() {
                *i += 1;
            } else if c.is_alphabetic() || c == '_' {
                let start = *i;
                while *i < chars.len() && (chars[*i].is_alphanumeric() || chars[*i] == '_') {
                    *i += 1;
                }
                out.push(Token::Ident(chars[start..*i].iter().collect()));
            } else if c.is_ascii_digit() {
                let start = *i;
                while *i < chars.len() && chars[*i].is_ascii_alphanumeric() {
                    *i += 1;
                }
                out.push(Token::Literal(chars[start..*i].iter().collect()));
            } else if c == '"' {
                let start = *i;
                *i += 1;
                while chars[*i] != '"' {
                    *i += 1;
                }
                *i += 1;
                out.push(Token::Literal(chars[start..*i].iter().collect()));
            } else if c == '(' || c == '{' || c == '[' {
                let (delimiter, end) = match c {
                    '(' => (Delimiter::Parenthesis, ')'),
                    '{' => (Delimiter::Brace, '}'),
                    _ => (Delimiter::Bracket, ']'),
                };
                *i += 1;
                let stream = read(chars, i, Some(end));
                out.push(Token::Group(Group { delimiter, stream }));
            } else {
                out.push(Token::Punct(c));
                *i += 1;
            }
        }
        out
    }
    let chars: Vec<char> = src.chars().collect();
    let mut i = 0;
    read(&chars, &mut i, None)
}

/// Writes tokens back as text, one space between tokens.
fn show(tokens: &[Token]) -> String {
    let parts: Vec<String> = tokens
        .iter()
        .map(|t| match t {
            Token::Ident(s) | Token::Literal(s) => s.clone(),
            Token::Punct(c) => c.to_string(),
            Token::Group(g) => {
                let inner = show(&g.stream);
                let (open, close) = match g.delimiter {
                    Delimiter::Parenthesis => ("(", ")"),
                    Delimiter::Brace => ("{", "}"),
                    Delimiter::Bracket => ("[", "]"),
                    Delimiter::Invisible => ("", ""),
                };
                if inner.is_empty() {
                    format!("{open}{close}")
                } else {
                    format!("{open} {inner} {close}")
                }
            }
        })
        .collect();
    parts.join(" ")
}

/// `show` of what `lex` reads from `src`: the expected code, spaced the
/// same way.
fn code(src: &str) -> String {
    show(&lex(src))
}

fn emitter(children: Option<&str>) -> Emitter {
    Emitter {
        crate_path: lex("::mup"),
        builder: "b".to_string(),
        children: children.map(str::to_string),
    }
}

fn body(src: &str) -> String {
    show(&emitter(None).expand_body(lex(src)).unwrap())
}

#[test]
fn string_literals_escape_quotes_and_backslashes() {
    assert_eq!(string_literal_text("a\"b\\c"), r#""a\"b\\c""#);
    assert_eq!(string_literal_text(""), r#""""#);
    assert_eq!(string_literal_text(" class=\""), r#"" class=\"""#);
}

#[test]
fn expands_a_whole_markup() {
    let out = expand_markup(lex("::mup"), lex(r#"p { "hi" }"#)).unwrap();
    assert_eq!(
        show(&out),
        code(
            r#"{ let mut __markup_template = ::mup::template::TemplateBuilder::new();
               { ::mup::template::push_start_tag_static(&mut __markup_template.current, "p");
                 ::mup::template::finish_start_tag(&mut __markup_template.current);
                 __markup_template.push_render(&("hi"));
                 ::mup::template::push_end_tag_static(&mut __markup_template.current, "p"); }
               __markup_template.finish() }"#
        )
    );
}

#[test]
fn a_reading_error_is_the_result() {
    let err = expand_markup(lex("::mup"), lex("div")).unwrap_err();
    assert_eq!(err.message, "expected element body `{ ... }` or `;`");
}

#[test]
fn void_elements_have_no_body_or_end_tag() {
    assert_eq!(
        body("br;"),
        code(
            r#"{ ::mup::template::push_start_tag_static(&mut b.current, "br");
                 ::mup::template::finish_void_tag_static(&mut b.current, "br"); }"#
        )
    );
}

#[test]
fn an_empty_body_still_closes_the_element() {
    assert_eq!(
        body("div {}"),
        code(
            r#"{ ::mup::template::push_start_tag_static(&mut b.current, "div");
                 ::mup::template::finish_start_tag(&mut b.current);
                 ::mup::template::push_end_tag_static(&mut b.current, "div"); }"#
        )
    );
}

#[test]
fn dynamic_tags_are_bound_once() {
    assert_eq!(
        body("(tag) {}"),
        code(
            r#"{ let __markup_tag = &(tag);
                 ::mup::template::push_start_tag(&mut b.current, __markup_tag);
                 ::mup::template::finish_start_tag(&mut b.current);
                 ::mup::template::push_end_tag(&mut b.current, __markup_tag); }"#
        )
    );
}

#[test]
fn static_classes_and_id_are_joined() {
    assert_eq!(
        body("span.a.b-c #main {}"),
        code(
            r#"{ ::mup::template::push_start_tag_static(&mut b.current, "span");
                 ::mup::template::push_class_attr(&mut b.current, "a b-c");
                 ::mup::template::push_static_attr(&mut b.current, "id", &("main"));
                 ::mup::template::finish_start_tag(&mut b.current);
                 ::mup::template::push_end_tag_static(&mut b.current, "span"); }"#
        )
    );
}

#[test]
fn no_classes_write_nothing() {
    let e = emitter(None);
    let mut out = Vec::new();
    e.emit_classes(&mut out, &Vec::new());
    assert!(out.is_empty());
}

#[test]
fn dynamic_classes_alone_are_written_as_they_render() {
    let e = emitter(None);
    let mut out = Vec::new();
    e.emit_classes(&mut out, &vec![Selector::Expr(lex("(x)"))]);
    assert_eq!(
        show(&out),
        [
            r#"{ let __class_attr_start = b . current . len () ; "#,
            r#"b . current . push_str ( " class=\"" ) ; "#,
            r#"let mut __class_sep_needed = false ; "#,
            r#"{ let __sep = b . current . len () ; "#,
            r#"if __class_sep_needed { b . current . push ( ' ' ) ; } "#,
            r#"if : : mup : : template : : push_class_direct ( & mut b . current , & ( ( x ) ) ) "#,
            r#"{ __class_sep_needed = true ; } "#,
            r#"else if __class_sep_needed { b . current . truncate ( __sep ) ; } } "#,
            r#"if __class_sep_needed { b . current . push ( '"' ) ; } "#,
            r#"else { b . current . truncate ( __class_attr_start ) ; } }"#,
        ]
        .join("")
    );
}

#[test]
fn names_before_dynamic_classes_are_written_at_once() {
    let e = emitter(None);
    let mut out = Vec::new();
    e.emit_classes(&mut out, &vec![Selector::Name("a".to_string()), Selector::Expr(lex("(x)"))]);
    let text = show(&out);
    assert!(text.starts_with(r#"{ b . current . push_str ( " class=\"a" ) ;"#));
    assert!(text.contains("if ! : : mup : : template : : push_class_direct"));
    assert!(text.ends_with(r#"b . current . push ( '"' ) ; }"#));
}

#[test]
fn mixed_classes_are_gathered_first() {
    let e = emitter(None);
    let mut out = Vec::new();
    e.emit_classes(
        &mut out,
        &vec![Selector::Expr(lex("(x)")), Selector::Name("a".to_string())],
    );
    assert_eq!(
        show(&out),
        code(
            r#"{ let mut __markup_classes = ::std::string::String::new();
                 ::mup::template::push_class_value(&mut __markup_classes, &((x)));
                 ::mup::template::push_class_value(&mut __markup_classes, &("a"));
                 ::mup::template::push_class_attr(&mut b.current, &__markup_classes); }"#
        )
    );
}

#[test]
fn prefixed_and_literal_attribute_names() {
    let e = emitter(None);
    let mut out = Vec::new();
    e.emit_attr(
        &mut out,
        &Attr::Static { prefix: Some("@".to_string()), segments: vec!["click".to_string()], value: Some(lex("\"go\"")) },
    );
    e.emit_attr(
        &mut out,
        &Attr::Static { prefix: Some(":".to_string()), segments: vec!["x".to_string(), "y".to_string()], value: None },
    );
    e.emit_attr(&mut out, &Attr::Literal { name: "\"data-x\"".to_string(), value: Some(lex("v")) });
    e.emit_attr(&mut out, &Attr::Dynamic { name: lex("n"), value: None });
    e.emit_attr(&mut out, &Attr::Spread(lex("attrs")));
    assert_eq!(
        show(&out),
        code(
            r#"::mup::template::push_static_attr(&mut b.current, "@click", &("go"));
               ::mup::template::push_static_bool_attr(&mut b.current, ":x-y");
               ::mup::template::push_attr(&mut b.current, &"data-x", &(v));
               ::mup::template::push_bool_attr(&mut b.current, &(n));
               ::mup::template::push_attrs(&mut b.current, &(attrs));"#
        )
    );
}

#[test]
fn prefixed_attributes_are_read_and_written() {
    assert_eq!(
        body(r#"button @click="go()" :class="c" {}"#),
        code(
            r#"{ ::mup::template::push_start_tag_static(&mut b.current, "button");
                 ::mup::template::push_static_attr(&mut b.current, "@click", &("go()"));
                 ::mup::template::push_static_attr(&mut b.current, ":class", &("c"));
                 ::mup::template::finish_start_tag(&mut b.current);
                 ::mup::template::push_end_tag_static(&mut b.current, "button"); }"#
        )
    );
}

#[test]
fn control_flow_keeps_its_rust() {
    assert_eq!(
        body("@let x = 1; @if x > 0 { \"a\" } @else { \"b\" } @for i in v { (i) }"),
        code(
            r#"let x = 1;
               if x > 0 { b.push_render(&("a")); } else { b.push_render(&("b")); }
               for i in v { b.push_render(&((i))); }"#
        )
    );
}

#[test]
fn match_arms_keep_their_patterns() {
    assert_eq!(
        body("@match v { Some(x) => { (x) } None => { \"none\" } }"),
        code(
            r#"match v { Some(x) => { b.push_render(&((x))); }, None => { b.push_render(&("none")); }, }"#
        )
    );
}

#[test]
fn values_with_children_render_the_children_first() {
    assert_eq!(
        body("@layout { \"x\" }"),
        code(
            r#"{ let __markup_children = { let mut __markup_children_template = ::mup::template::TemplateBuilder::new();
                   __markup_children_template.push_render(&("x"));
                   __markup_children_template.finish() };
                 let __markup_markup = ::mup::template::render(&(layout), ::std::option::Option::Some(__markup_children));
                 b.push_markup(&__markup_markup); }"#
        )
    );
}

#[test]
fn an_error_in_children_stays_in_place() {
    let text = body("@layout { div.x }");
    assert!(text.contains(r#": : core : : compile_error ! { "expected element body `{ ... }` or `;`" }"#));
}

#[test]
fn children_slots_render_the_components_children() {
    let e = emitter(Some("children"));
    let out = e.expand_body(lex("@children")).unwrap();
    assert_eq!(
        show(&out),
        code(
            r#"{ if let ::std::option::Option::Some(__markup_children) = children.as_ref() {
                   b.push_markup(__markup_children); } }"#
        )
    );
    let none = emitter(None).expand_body(lex("@children")).unwrap();
    assert_eq!(show(&none), code("b.push_render(&(children));"));
}

#[test]
fn writes_the_render_impl_of_a_component_struct() {
    let writer = mup::component::ComponentWriter::new(lex("::mup"));
    let out = writer
        .expand_struct(&lex("<T>"), &lex("Card"), &lex("<T>"), &lex("where T: Clone"), &vec!["title".to_string()], lex("h1 { (title) }"))
        .unwrap();
    assert_eq!(
        show(&out),
        code(
            r#"impl<T> ::mup::Render for Card<T> where T: Clone {
                 fn render(&self, __markup_children: ::std::option::Option<::mup::Markup>) -> ::mup::Markup {
                   #[allow(unused_variables)] let Self { title, .. } = self;
                   let mut __markup_template = ::mup::template::TemplateBuilder::new();
                   { ::mup::template::push_start_tag_static(&mut __markup_template.current, "h1");
                     ::mup::template::finish_start_tag(&mut __markup_template.current);
                     __markup_template.push_render(&((title)));
                     ::mup::template::push_end_tag_static(&mut __markup_template.current, "h1"); }
                   __markup_template.finish()
                 }
                 fn render_into_builder(&self, __markup_template: &mut ::mup::template::TemplateBuilder) {
                   let __markup_children: ::std::option::Option<::mup::Markup> = ::std::option::Option::None;
                   #[allow(unused_variables)] let Self { title, .. } = self;
                   { ::mup::template::push_start_tag_static(&mut __markup_template.current, "h1");
                     ::mup::template::finish_start_tag(&mut __markup_template.current);
                     __markup_template.push_render(&((title)));
                     ::mup::template::push_end_tag_static(&mut __markup_template.current, "h1"); }
                 }
               }"#
        )
    );
}

#[test]
fn a_component_body_error_is_the_result() {
    let writer = mup::component::ComponentWriter::new(lex("::mup"));
    let err = writer.expand_struct(&vec![], &lex("Card"), &vec![], &vec![], &vec![], lex("div")).unwrap_err();
    assert_eq!(err.message, "expected element body `{ ... }` or `;`");
}

#[test]
fn writes_the_render_impl_of_a_component_enum() {
    let writer = mup::component::ComponentWriter::new(lex("::mup"));
    let arms = mup::dsl::EnumRenderArms::parse(lex(r#"A => { "a" } Self::B(x) => { @children }"#)).unwrap();
    let out = writer.expand_enum(&vec![], &lex("Kind"), &vec![], &vec![], &arms).unwrap();
    assert_eq!(
        show(&out),
        code(
            r#"impl ::mup::Render for Kind {
                 fn render(&self, __markup_children: ::std::option::Option<::mup::Markup>) -> ::mup::Markup {
                   match self {
                     Self::A => { let mut __markup_template = ::mup::template::TemplateBuilder::new();
                                  __markup_template.push_render(&("a"));
                                  __markup_template.finish() },
                     Self::B(x) => { let mut __markup_template = ::mup::template::TemplateBuilder::new();
                                  { if let ::std::option::Option::Some(__markup_children) = __markup_children.as_ref() {
                                      __markup_template.push_markup(__markup_children); } }
                                  __markup_template.finish() },
                   }
                 }
               }"#
        )
    );
}
