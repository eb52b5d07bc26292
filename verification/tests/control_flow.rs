use mup::template::{
    finish_start_tag, push_class_attr, push_end_tag_static, push_start_tag_static, TemplateBuilder,
};
use mup::{Markup, Render};

#[test]
fn renders_macro_invocation_nodes() {
    let mut b = TemplateBuilder::new();
    push_start_tag_static(&mut b.current, "p");
    finish_start_tag(&mut b.current);
    b.push_render(&(format!("{} {}", "foo", "bar")));
    push_end_tag_static(&mut b.current, "p");
    let actual = b.finish();

    assert_eq!(actual.as_str(), "<p>foo bar</p>");
}

#[test]
fn renders_function_call_nodes() {
    fn foo() -> String {
        "foo".to_owned()
    }

    let mut b = TemplateBuilder::new();
    push_start_tag_static(&mut b.current, "p");
    finish_start_tag(&mut b.current);
    b.push_render(&(foo()));
    push_end_tag_static(&mut b.current, "p");
    let actual = b.finish();

    assert_eq!(actual.as_str(), "<p>foo</p>");
}

#[test]
fn supports_markup_function_declarations() {
    let mut b = TemplateBuilder::new();
    fn double(x: i32) -> i32 {
        x * 2
    }
    push_start_tag_static(&mut b.current, "p");
    finish_start_tag(&mut b.current);
    b.push_render(&(double(21)));
    push_end_tag_static(&mut b.current, "p");
    let actual = b.finish();

    assert_eq!(actual.as_str(), "<p>42</p>");
}

#[test]
fn supports_parenthesized_block_expressions() {
    let mut b = TemplateBuilder::new();
    push_start_tag_static(&mut b.current, "p");
    finish_start_tag(&mut b.current);
    b.push_render(&({
        let a = 2;
        let b = 3;
        a + b
    }));
    push_end_tag_static(&mut b.current, "p");
    push_start_tag_static(&mut b.current, "p");
    finish_start_tag(&mut b.current);
    b.push_render(&({
        let name = "John".to_string();
        name + " Snow"
    }));
    push_end_tag_static(&mut b.current, "p");
    let actual = b.finish();

    assert_eq!(actual.as_str(), "<p>5</p><p>John Snow</p>");
}

#[test]
fn supports_markup_control_flow_and_expr_nodes() {
    struct Item {
        name: String,
    }

    let items = vec![
        Item {
            name: "one".to_owned(),
        },
        Item {
            name: "two".to_owned(),
        },
    ];
    let user = Some("Ada");

    let mut b = TemplateBuilder::new();
    let foo = "bar";
    let cond = true;
    if cond {
        b.push_render(&(foo));
    } else {
        b.push_render(&("fallback"));
    }
    for item in &items {
        push_start_tag_static(&mut b.current, "div");
        finish_start_tag(&mut b.current);
        b.push_render(&(format!("item_{}", item.name)));
        push_end_tag_static(&mut b.current, "div");
    }
    match user {
        Some(name) if name.starts_with('A') => {
            push_start_tag_static(&mut b.current, "span");
            finish_start_tag(&mut b.current);
            b.push_render(&(name));
            push_end_tag_static(&mut b.current, "span");
        }
        _ => {
            b.push_render(&("matched"));
        }
    }
    let actual = b.finish();

    assert_eq!(
        actual.as_str(),
        "bar<div>item_one</div><div>item_two</div><span>Ada</span>"
    );
}

#[test]
fn supports_if_let_else_if_and_match_patterns() {
    let maybe = Some("hit");
    let score = 2;

    let mut b = TemplateBuilder::new();
    if let Some(value) = maybe {
        b.push_render(&(value));
    }
    if score == 1 {
        b.push_render(&("one"));
    } else if score == 2 {
        b.push_render(&("two"));
    } else {
        b.push_render(&("other"));
    }
    match score {
        0 | 1 => {
            b.push_render(&("small"));
        }
        value if value > 1 => {
            b.push_render(&(format!("big{value}")));
        }
        _ => {
            b.push_render(&("fallback"));
        }
    }
    let actual = b.finish();

    assert_eq!(actual.as_str(), "hittwobig2");
}

#[test]
fn component_macro_supports_control_flow_nodes() {
    struct List {
        pub items: Vec<&'static str>,
    }

    impl Render for List {
        fn render(&self, _children: Option<Markup>) -> Markup {
            let Self { items } = self;
            let mut b = TemplateBuilder::new();
            let show = true;
            if show {
                for item in items {
                    match *item {
                        "primary" => {
                            push_start_tag_static(&mut b.current, "span");
                            push_class_attr(&mut b.current, "primary");
                            finish_start_tag(&mut b.current);
                            b.push_render(&(item));
                            push_end_tag_static(&mut b.current, "span");
                        }
                        _ => {
                            push_start_tag_static(&mut b.current, "span");
                            finish_start_tag(&mut b.current);
                            b.push_render(&(item));
                            push_end_tag_static(&mut b.current, "span");
                        }
                    }
                }
            }
            b.finish()
        }
    }

    let mut b = TemplateBuilder::new();
    b.push_render(&(List {
        items: vec!["primary", "secondary"],
    }));
    let actual = b.finish();

    assert_eq!(
        actual.as_str(),
        r#"<span class="primary">primary</span><span>secondary</span>"#
    );
}
