use mup::template::{
    finish_start_tag, push_attr, push_attrs, push_class_attr, push_end_tag, push_end_tag_static,
    push_start_tag, push_start_tag_static, push_static_attr, TemplateBuilder,
};

#[test]
fn escapes_text_and_attribute_values() {
    struct View {
        title: Title,
    }
    struct Title {
        inner: String,
    }

    let view = View {
        title: Title {
            inner: "<Title & \"quote\">".to_owned(),
        },
    };

    let mut b = TemplateBuilder::new();
    push_start_tag_static(&mut b.current, "div");
    push_static_attr(&mut b.current, "title", &(view.title.inner));
    finish_start_tag(&mut b.current);
    b.push_render(&({
        let inner = &view.title.inner;
        inner.to_string()
    }));
    push_end_tag_static(&mut b.current, "div");
    let actual = b.finish();

    assert_eq!(
        actual.as_str(),
        r#"<div title="&lt;Title &amp; &quot;quote&quot;&gt;">&lt;Title &amp; "quote"&gt;</div>"#
    );
}

#[test]
fn supports_dynamic_attributes() {
    let id = "foo";
    let attr = "hx-get";
    let url = "/home";

    let mut b = TemplateBuilder::new();
    push_start_tag_static(&mut b.current, "div");
    push_static_attr(&mut b.current, "id", &(id));
    push_attr(&mut b.current, &(attr), &(url));
    finish_start_tag(&mut b.current);
    push_end_tag_static(&mut b.current, "div");
    let actual = b.finish();

    assert_eq!(actual.as_str(), r#"<div id="foo" hx-get="/home"></div>"#);
}

#[test]
fn supports_function_call_attribute_values_without_outer_parentheses() {
    fn foo() -> String {
        "foo".to_owned()
    }

    fn bar(value: &str) -> String {
        format!("bar-{value}")
    }

    let attr = "data-dynamic";

    let mut b = TemplateBuilder::new();
    push_start_tag_static(&mut b.current, "div");
    push_static_attr(&mut b.current, "foo", &(foo()));
    push_static_attr(&mut b.current, "data-bar", &(bar("baz")));
    push_static_attr(&mut b.current, "data-path", &(String::from("path")));
    push_attr(&mut b.current, &(attr), &(foo()));
    finish_start_tag(&mut b.current);
    push_end_tag_static(&mut b.current, "div");
    let actual = b.finish();

    assert_eq!(
        actual.as_str(),
        r#"<div foo="foo" data-bar="bar-baz" data-path="path" data-dynamic="foo"></div>"#
    );
}

#[test]
fn supports_literal_attribute_names() {
    let expr = String::from("expr");

    let mut b = TemplateBuilder::new();
    push_start_tag_static(&mut b.current, "div");
    push_attr(&mut b.current, &"data-call", &(String::from("call")));
    push_attr(&mut b.current, &"data-expr", &(expr));
    push_attr(&mut b.current, &"data-value", &("value"));
    finish_start_tag(&mut b.current);
    push_end_tag_static(&mut b.current, "div");
    let actual = b.finish();

    assert_eq!(
        actual.as_str(),
        r#"<div data-call="call" data-expr="expr" data-value="value"></div>"#
    );
}

#[test]
fn supports_field_chain_attribute_values_without_outer_parentheses() {
    struct View {
        title: Title,
    }
    struct Title {
        inner: String,
    }

    let view = View {
        title: Title {
            inner: "field".to_owned(),
        },
    };
    let attr = "data-dynamic-field";

    let mut b = TemplateBuilder::new();
    push_start_tag_static(&mut b.current, "div");
    push_class_attr(&mut b.current, "featured");
    push_static_attr(&mut b.current, "title", &(view.title.inner));
    push_attr(&mut b.current, &"data-literal-field", &(view.title.inner));
    push_attr(&mut b.current, &(attr), &(view.title.inner));
    push_static_attr(&mut b.current, "data-next", &("next"));
    finish_start_tag(&mut b.current);
    push_end_tag_static(&mut b.current, "div");
    let actual = b.finish();

    assert_eq!(
        actual.as_str(),
        r#"<div class="featured" title="field" data-literal-field="field" data-dynamic-field="field" data-next="next"></div>"#
    );
}

#[test]
fn supports_method_chain_attribute_values_without_outer_parentheses() {
    struct View {
        title: String,
    }

    impl View {
        fn slug(&self, suffix: &str) -> String {
            format!("{}-{suffix}", self.title.to_lowercase())
        }
    }

    let view = View {
        title: "Profile".to_owned(),
    };
    let attr = "data-dynamic-slug";
    let label = "method attr";

    let mut b = TemplateBuilder::new();
    push_start_tag_static(&mut b.current, "div");
    push_static_attr(&mut b.current, "title", &(label));
    push_static_attr(&mut b.current, "data-title", &(view.title));
    push_static_attr(&mut b.current, "data-slug", &(view.slug("card").to_uppercase()));
    push_attr(&mut b.current, &"data-literal-slug", &(view.slug("literal")));
    push_attr(&mut b.current, &(attr), &(view.slug("dynamic")));
    finish_start_tag(&mut b.current);
    push_end_tag_static(&mut b.current, "div");
    let actual = b.finish();

    assert_eq!(
        actual.as_str(),
        r#"<div title="method attr" data-title="Profile" data-slug="PROFILE-CARD" data-literal-slug="profile-literal" data-dynamic-slug="profile-dynamic"></div>"#
    );
}

#[test]
fn supports_block_expression_attribute_values() {
    let attr = "data-dynamic-block";

    let mut b = TemplateBuilder::new();
    push_start_tag_static(&mut b.current, "div");
    push_static_attr(&mut b.current, "title", &({
        let value = "block";
        format!("{value}-title")
    }));
    push_attr(&mut b.current, &"data-literal-block", &({
        let value = "literal";
        format!("{value}-block")
    }));
    push_attr(&mut b.current, &(attr), &({
        let value = "dynamic";
        format!("{value}-block")
    }));
    finish_start_tag(&mut b.current);
    push_end_tag_static(&mut b.current, "div");
    let actual = b.finish();

    assert_eq!(
        actual.as_str(),
        r#"<div title="block-title" data-literal-block="literal-block" data-dynamic-block="dynamic-block"></div>"#
    );
}

#[test]
fn supports_explicit_attribute_spread() {
    let map = std::collections::HashMap::from([("id", "foo"), ("hx-get", "/home")]);

    let mut b = TemplateBuilder::new();
    push_start_tag_static(&mut b.current, "div");
    push_attrs(&mut b.current, &map);
    finish_start_tag(&mut b.current);
    push_end_tag_static(&mut b.current, "div");
    let actual = b.finish().into_string();

    assert!(actual.starts_with("<div "));
    assert!(actual.ends_with("></div>"));
    assert!(actual.contains(r#" id="foo""#));
    assert!(actual.contains(r#" hx-get="/home""#));
}

#[test]
fn spreads_btree_map_attributes_in_key_order() {
    let map = std::collections::BTreeMap::from([("title", "a<b"), ("data-x", "1"), ("id", "main")]);

    let mut b = TemplateBuilder::new();
    push_start_tag_static(&mut b.current, "div");
    push_attrs(&mut b.current, &map);
    finish_start_tag(&mut b.current);
    push_end_tag_static(&mut b.current, "div");

    assert_eq!(
        b.finish().as_str(),
        r#"<div data-x="1" id="main" title="a&lt;b"></div>"#
    );
}

#[test]
fn spreads_an_empty_map_as_nothing() {
    let map: std::collections::HashMap<&str, &str> = std::collections::HashMap::new();

    let mut b = TemplateBuilder::new();
    push_start_tag_static(&mut b.current, "p");
    push_attrs(&mut b.current, &map);
    finish_start_tag(&mut b.current);

    assert_eq!(b.finish().as_str(), "<p>");
}

#[test]
fn supports_tuple_pair_attribute_spread() {
    let attr = ("data-value", "hello");

    let mut b = TemplateBuilder::new();
    push_start_tag_static(&mut b.current, "div");
    push_attrs(&mut b.current, &(attr));
    finish_start_tag(&mut b.current);
    push_end_tag_static(&mut b.current, "div");
    let actual = b.finish();

    assert_eq!(actual.as_str(), r#"<div data-value="hello"></div>"#);
}

#[test]
fn supports_array_pair_attribute_spread() {
    let attrs = [("id", "foo"), ("data-kind", "array")];

    let mut b = TemplateBuilder::new();
    push_start_tag_static(&mut b.current, "div");
    push_attrs(&mut b.current, &(attrs));
    finish_start_tag(&mut b.current);
    push_end_tag_static(&mut b.current, "div");
    let actual = b.finish();

    assert_eq!(actual.as_str(), r#"<div id="foo" data-kind="array"></div>"#);
}

#[test]
fn supports_array_boolean_attribute_spread() {
    let attrs = ["a", "b"];

    let mut b = TemplateBuilder::new();
    push_start_tag_static(&mut b.current, "div");
    push_attrs(&mut b.current, &(attrs));
    finish_start_tag(&mut b.current);
    push_end_tag_static(&mut b.current, "div");
    let actual = b.finish();

    assert_eq!(actual.as_str(), "<div a b></div>");
}

#[test]
fn supports_array_literal_boolean_attribute_spread() {
    let mut b = TemplateBuilder::new();
    push_start_tag_static(&mut b.current, "div");
    push_attrs(&mut b.current, &(["a", "b"]));
    finish_start_tag(&mut b.current);
    push_end_tag_static(&mut b.current, "div");
    let actual = b.finish();

    assert_eq!(actual.as_str(), "<div a b></div>");
}

#[test]
fn supports_parenthesized_attribute_spread_expression() {
    let mut b = TemplateBuilder::new();
    push_start_tag_static(&mut b.current, "div");
    push_attrs(&mut b.current, &([("id", "foo"), ("data-kind", "expr")]));
    finish_start_tag(&mut b.current);
    push_end_tag_static(&mut b.current, "div");
    let actual = b.finish();

    assert_eq!(actual.as_str(), r#"<div id="foo" data-kind="expr"></div>"#);
}

#[test]
fn supports_dynamic_tag_attribute_spread() {
    let tag = "section";
    let attrs = [("id", "hero"), ("data-kind", "dynamic")];

    let mut b = TemplateBuilder::new();
    {
        let tag = &(tag);
        push_start_tag(&mut b.current, tag);
        push_attrs(&mut b.current, &(attrs));
        finish_start_tag(&mut b.current);
        push_end_tag(&mut b.current, tag);
    }
    let actual = b.finish();

    assert_eq!(
        actual.as_str(),
        r#"<section id="hero" data-kind="dynamic"></section>"#
    );
}

#[test]
fn skips_none_attributes_and_renders_bool_attributes() {
    let none = None::<String>;
    let missing_name = None::<String>;
    let enabled = true;
    let disabled = false;

    let mut b = TemplateBuilder::new();
    push_start_tag_static(&mut b.current, "div");
    push_static_attr(&mut b.current, "data-value", &(none));
    push_attr(&mut b.current, &(missing_name), &("x"));
    push_static_attr(&mut b.current, "hidden", &(enabled));
    push_static_attr(&mut b.current, "inert", &(disabled));
    finish_start_tag(&mut b.current);
    push_end_tag_static(&mut b.current, "div");
    let actual = b.finish();

    assert_eq!(actual.as_str(), "<div hidden></div>");
}

#[test]
fn supports_colon_prefixed_attribute_names() {
    let is_disabled = true;

    let mut b = TemplateBuilder::new();
    push_start_tag_static(&mut b.current, "input");
    push_static_attr(&mut b.current, ":type", &("password"));
    push_static_attr(&mut b.current, ":disabled", &(is_disabled));
    finish_start_tag(&mut b.current);
    push_end_tag_static(&mut b.current, "input");
    let actual = b.finish();

    assert_eq!(
        actual.as_str(),
        r#"<input :type="password" :disabled></input>"#
    );
}

#[test]
fn supports_at_prefixed_attribute_names() {
    let mut b = TemplateBuilder::new();
    push_start_tag_static(&mut b.current, "button");
    push_static_attr(&mut b.current, "@click", &("handler"));
    push_static_attr(&mut b.current, "@focus", &("true"));
    finish_start_tag(&mut b.current);
    push_end_tag_static(&mut b.current, "button");
    let actual = b.finish();

    assert_eq!(
        actual.as_str(),
        r#"<button @click="handler" @focus="true"></button>"#
    );
}

#[test]
fn supports_dashed_colon_and_at_prefixed_attribute_names() {
    let mut b = TemplateBuilder::new();
    push_start_tag_static(&mut b.current, "div");
    push_static_attr(&mut b.current, ":data-value", &("foo"));
    push_static_attr(&mut b.current, "@event-name", &("bar"));
    finish_start_tag(&mut b.current);
    push_end_tag_static(&mut b.current, "div");
    let actual = b.finish();

    assert_eq!(
        actual.as_str(),
        r#"<div :data-value="foo" @event-name="bar"></div>"#
    );
}

#[test]
fn map_entries_with_invalid_names_are_left_out() {
    let map = std::collections::BTreeMap::from([("bad name", "x"), ("ok", "y")]);

    let mut b = TemplateBuilder::new();
    push_attrs(&mut b.current, &map);

    assert_eq!(b.current, r#" ok="y""#);
}
