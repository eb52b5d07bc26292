use mup::template::{
    finish_start_tag, finish_void_tag, finish_void_tag_static, push_attr, push_class_attr,
    push_class_direct, push_end_tag, push_end_tag_static, push_start_tag, push_start_tag_static,
    push_static_attr, push_static_bool_attr, TemplateBuilder,
};

#[test]
fn renders_tags_text_and_selectors() {
    let mut b = TemplateBuilder::new();
    push_start_tag_static(&mut b.current, "div");
    push_class_attr(&mut b.current, "foo bar");
    push_static_attr(&mut b.current, "id", &("main"));
    finish_start_tag(&mut b.current);
    b.push_render(&("hello"));
    push_start_tag_static(&mut b.current, "span");
    finish_start_tag(&mut b.current);
    b.push_render(&("world"));
    push_end_tag_static(&mut b.current, "span");
    push_end_tag_static(&mut b.current, "div");
    let actual = b.finish();

    assert_eq!(
        actual.as_str(),
        r#"<div class="foo bar" id="main">hello<span>world</span></div>"#
    );
}

#[test]
fn renders_div_shorthand_selectors() {
    let mut b = TemplateBuilder::new();
    push_start_tag_static(&mut b.current, "div");
    push_class_attr(&mut b.current, "panel");
    finish_start_tag(&mut b.current);
    b.push_render(&("class shorthand"));
    push_end_tag_static(&mut b.current, "div");

    push_start_tag_static(&mut b.current, "div");
    push_static_attr(&mut b.current, "id", &("main"));
    finish_start_tag(&mut b.current);
    b.push_render(&("id shorthand"));
    push_end_tag_static(&mut b.current, "div");

    push_start_tag_static(&mut b.current, "div");
    push_class_attr(&mut b.current, "panel");
    push_static_attr(&mut b.current, "id", &("main"));
    push_static_attr(&mut b.current, "data-state", &("open"));
    finish_start_tag(&mut b.current);
    b.push_render(&("combined shorthand"));
    push_end_tag_static(&mut b.current, "div");
    let actual = b.finish();

    assert_eq!(
        actual.as_str(),
        r#"<div class="panel">class shorthand</div><div id="main">id shorthand</div><div class="panel" id="main" data-state="open">combined shorthand</div>"#
    );
}

#[test]
fn renders_hyphenated_custom_tags() {
    let mut b = TemplateBuilder::new();
    push_start_tag_static(&mut b.current, "my-block");
    push_class_attr(&mut b.current, "foo");
    finish_start_tag(&mut b.current);
    push_start_tag_static(&mut b.current, "my-block-item");
    finish_start_tag(&mut b.current);
    b.push_render(&("content"));
    push_end_tag_static(&mut b.current, "my-block-item");
    push_end_tag_static(&mut b.current, "my-block");
    let actual = b.finish();

    assert_eq!(
        actual.as_str(),
        r#"<my-block class="foo"><my-block-item>content</my-block-item></my-block>"#
    );
}

#[test]
fn renders_dynamic_tags() {
    let tag = format!("my-{}", "block");
    let child_tag = "my-child";

    let mut b = TemplateBuilder::new();
    {
        let tag = &(tag);
        push_start_tag(&mut b.current, tag);
        push_class_attr(&mut b.current, "dynamic");
        push_static_attr(&mut b.current, "data-id", &("root"));
        finish_start_tag(&mut b.current);
        {
            let child = &(child_tag);
            push_start_tag(&mut b.current, child);
            finish_start_tag(&mut b.current);
            b.push_render(&("content"));
            push_end_tag(&mut b.current, child);
        }
        push_end_tag(&mut b.current, tag);
    }
    let actual = b.finish();

    assert_eq!(
        actual.as_str(),
        r#"<my-block class="dynamic" data-id="root"><my-child>content</my-child></my-block>"#
    );
}

#[test]
fn renders_semicolon_terminated_void_elements() {
    let mut b = TemplateBuilder::new();
    push_start_tag_static(&mut b.current, "div");
    finish_start_tag(&mut b.current);
    push_start_tag_static(&mut b.current, "br");
    finish_void_tag_static(&mut b.current, "br");
    push_start_tag_static(&mut b.current, "input");
    push_static_attr(&mut b.current, "type", &("text"));
    push_static_bool_attr(&mut b.current, "disabled");
    finish_void_tag_static(&mut b.current, "input");
    push_start_tag_static(&mut b.current, "img");
    push_class_attr(&mut b.current, "logo");
    push_static_attr(&mut b.current, "src", &("/logo.svg"));
    push_static_attr(&mut b.current, "alt", &(""));
    finish_void_tag_static(&mut b.current, "img");
    push_end_tag_static(&mut b.current, "div");
    let actual = b.finish();

    assert_eq!(
        actual.as_str(),
        r#"<div><br><input type="text" disabled><img class="logo" src="/logo.svg" alt=""></div>"#
    );
}

#[test]
fn renders_dynamic_semicolon_terminated_elements() {
    let tag = "meta";

    let mut b = TemplateBuilder::new();
    {
        let tag = &(tag);
        push_start_tag(&mut b.current, tag);
        push_static_attr(&mut b.current, "charset", &("utf-8"));
        finish_void_tag(&mut b.current, tag);
    }
    let actual = b.finish();

    assert_eq!(actual.as_str(), r#"<meta charset="utf-8">"#);
}

#[test]
fn renders_dynamic_class_and_id_selectors() {
    let class_value = "primary";
    let extra = Some("wide");
    let none = None::<String>;
    let id_value = "hero";

    let mut b = TemplateBuilder::new();
    push_start_tag_static(&mut b.current, "div");
    {
        b.current.push_str(" class=\"foo");
        {
            let sep = b.current.len();
            b.current.push(' ');
            if !push_class_direct(&mut b.current, &(class_value)) {
                b.current.truncate(sep);
            }
        }
        {
            let sep = b.current.len();
            b.current.push(' ');
            if !push_class_direct(&mut b.current, &(extra)) {
                b.current.truncate(sep);
            }
        }
        {
            let sep = b.current.len();
            b.current.push(' ');
            if !push_class_direct(&mut b.current, &(none)) {
                b.current.truncate(sep);
            }
        }
        b.current.push('"');
    }
    push_static_attr(&mut b.current, "id", &(id_value));
    finish_start_tag(&mut b.current);
    push_end_tag_static(&mut b.current, "div");
    let actual = b.finish();

    assert_eq!(
        actual.as_str(),
        r#"<div class="foo primary wide" id="hero"></div>"#
    );
}

#[test]
fn escapes_dynamic_class_and_id_selectors() {
    let class_value = r#"a"b&c<d"#;
    let id_value = r#"x"y&z<q"#;

    let mut b = TemplateBuilder::new();
    push_start_tag_static(&mut b.current, "div");
    {
        let start = b.current.len();
        b.current.push_str(" class=\"");
        let mut sep_needed = false;
        {
            let sep = b.current.len();
            if sep_needed {
                b.current.push(' ');
            }
            if push_class_direct(&mut b.current, &(class_value)) {
                sep_needed = true;
            } else if sep_needed {
                b.current.truncate(sep);
            }
        }
        if sep_needed {
            b.current.push('"');
        } else {
            b.current.truncate(start);
        }
    }
    push_static_attr(&mut b.current, "id", &(id_value));
    finish_start_tag(&mut b.current);
    push_end_tag_static(&mut b.current, "div");
    let actual = b.finish();

    assert_eq!(
        actual.as_str(),
        r#"<div class="a&quot;b&amp;c&lt;d" id="x&quot;y&amp;z&lt;q"></div>"#
    );
}

#[test]
fn supports_dashed_class_and_id_shorthand() {
    let mut b = TemplateBuilder::new();
    push_start_tag_static(&mut b.current, "div");
    push_class_attr(&mut b.current, "foo-bar");
    push_static_attr(&mut b.current, "id", &("main-nav"));
    finish_start_tag(&mut b.current);
    push_start_tag_static(&mut b.current, "span");
    push_class_attr(&mut b.current, "badge-foo_bar");
    finish_start_tag(&mut b.current);
    b.push_render(&("content"));
    push_end_tag_static(&mut b.current, "span");
    push_end_tag_static(&mut b.current, "div");
    let actual = b.finish();

    assert_eq!(
        actual.as_str(),
        r#"<div class="foo-bar" id="main-nav"><span class="badge-foo_bar">content</span></div>"#
    );
}

#[test]
fn renders_doctype_from_path_call() {
    let mut b = TemplateBuilder::new();
    b.push_render(&(mup::Markup::doctype()));
    push_start_tag_static(&mut b.current, "html");
    finish_start_tag(&mut b.current);
    push_start_tag_static(&mut b.current, "body");
    finish_start_tag(&mut b.current);
    push_end_tag_static(&mut b.current, "body");
    push_end_tag_static(&mut b.current, "html");
    let actual = b.finish();

    assert_eq!(actual.as_str(), "<!DOCTYPE html><html><body></body></html>");
}

#[test]
fn renders_raw_markup_without_escaping() {
    let child = mup::Markup::raw("<span>raw</span>");

    let mut b = TemplateBuilder::new();
    push_start_tag_static(&mut b.current, "div");
    finish_start_tag(&mut b.current);
    b.push_render(&(child));
    push_end_tag_static(&mut b.current, "div");
    let actual = b.finish();

    assert_eq!(actual.as_str(), "<div><span>raw</span></div>");
}

#[test]
fn dynamic_attribute_pushes_are_checked_names() {
    let mut out = String::new();
    push_attr(&mut out, &"data-x", &("1"));
    assert_eq!(out, r#" data-x="1""#);
}
