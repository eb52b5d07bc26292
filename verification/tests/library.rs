use mup::html::{
    escape_attr_value_into, escape_text_into, is_valid_attr_name, is_valid_tag_name, is_void_tag,
    push_signed, push_unsigned,
};
use mup::template::{
    push_attr, push_attrs, push_bool_attr, push_class_attr, push_class_direct, push_class_value,
    push_end_tag, push_start_tag, push_static_attr, push_static_bool_attr, render,
    TemplateBuilder,
};
use mup::{AttributeValue, ClassValue, Markup, Render};
use std::borrow::Cow;

#[test]
fn escapes_text_and_attribute_characters() {
    let mut out = String::from("x");
    escape_text_into(r#"a<b>&"c'"#, &mut out);
    assert_eq!(out, r#"xa&lt;b&gt;&amp;"c'"#);

    let mut out = String::new();
    escape_attr_value_into(r#"a<b>&"c'"#, &mut out);
    assert_eq!(out, "a&lt;b&gt;&amp;&quot;c'");

    let mut out = String::new();
    escape_text_into("", &mut out);
    assert_eq!(out, "");

    let mut out = String::new();
    escape_text_into("ü€😀", &mut out);
    assert_eq!(out, "ü€😀");
}

#[test]
fn plain_text_is_left_as_it_is() {
    let mut out = String::new();
    escape_text_into("plain 'text' \"quoted\" 123", &mut out);
    assert_eq!(out, "plain 'text' \"quoted\" 123");
    let mut out = String::new();
    escape_attr_value_into("plain 'text' 123", &mut out);
    assert_eq!(out, "plain 'text' 123");
}

#[test]
fn escaped_output_has_no_markup_characters() {
    let inputs = ["<script>", "\"><img>", "&&<<>>\"\"", "plain"];
    for input in inputs {
        let mut text = String::new();
        escape_text_into(input, &mut text);
        assert!(!text.contains('<') && !text.contains('>'));

        let mut attr = String::new();
        escape_attr_value_into(input, &mut attr);
        assert!(!attr.contains('<') && !attr.contains('>') && !attr.contains('"'));
    }
}

#[test]
fn escaping_a_concatenation_escapes_each_part() {
    let mut whole = String::new();
    escape_text_into("a<b&c>", &mut whole);
    let mut parts = String::new();
    escape_text_into("a<b", &mut parts);
    escape_text_into("&c>", &mut parts);
    assert_eq!(whole, parts);
}

#[test]
fn writes_integers_in_decimal() {
    let mut out = String::new();
    push_unsigned(&mut out, 0);
    push_unsigned(&mut out, 1234567890);
    assert_eq!(out, "01234567890");

    let mut out = String::new();
    push_signed(&mut out, i128::MIN);
    assert_eq!(out, i128::MIN.to_string());

    let mut out = String::new();
    push_unsigned(&mut out, u128::MAX);
    assert_eq!(out, u128::MAX.to_string());

    assert_eq!(i8::MIN.render(None).as_str(), "-128");
    assert_eq!(usize::MAX.render(None).as_str(), usize::MAX.to_string());
    assert_eq!((-7i64).render(None).as_str(), "-7");
    assert_eq!(true.render(None).as_str(), "true");
    assert_eq!(false.render(None).as_str(), "false");
}

#[test]
fn renders_characters_escaped() {
    assert_eq!('<'.render(None).as_str(), "&lt;");
    assert_eq!('x'.render(None).as_str(), "x");

    let mut out = String::new();
    '"'.render_attr_into(&mut out, "q");
    assert_eq!(out, r#" q="&quot;""#);

    let mut out = String::new();
    '&'.render_class_attr_into(&mut out);
    assert_eq!(out, "&amp;");
}

#[test]
fn checks_tag_names() {
    assert!(is_valid_tag_name("div"));
    assert!(is_valid_tag_name("my-block_2"));
    assert!(!is_valid_tag_name(""));
    assert!(!is_valid_tag_name("bad tag"));
    assert!(!is_valid_tag_name("héllo"));
    assert!(!is_valid_tag_name("a>b"));
}

#[test]
fn checks_attribute_names() {
    assert!(is_valid_attr_name("data-x"));
    assert!(is_valid_attr_name(":type"));
    assert!(is_valid_attr_name("@click"));
    assert!(is_valid_attr_name("ünïcode"));
    assert!(!is_valid_attr_name(""));
    assert!(!is_valid_attr_name("bad attr"));
    assert!(!is_valid_attr_name("a\u{a0}b"));
    assert!(!is_valid_attr_name("a\u{3000}b"));
    for bad in ["a\"b", "a'b", "a>b", "a<b", "a=b", "a/b", "a`b", "a\tb"] {
        assert!(!is_valid_attr_name(bad), "{bad:?}");
    }
}

#[test]
fn checks_void_element_names_in_any_case() {
    for name in [
        "area", "base", "br", "col", "embed", "hr", "img", "input", "link", "meta", "param",
        "source", "track", "wbr",
    ] {
        assert!(is_void_tag(name));
        assert!(is_void_tag(&name.to_uppercase()));
    }
    assert!(is_void_tag("Img"));
    assert!(!is_void_tag("div"));
    assert!(!is_void_tag("brr"));
    assert!(!is_void_tag(""));
}

#[test]
fn builds_tags() {
    let mut out = String::new();
    push_start_tag(&mut out, "section");
    push_end_tag(&mut out, "section");
    assert_eq!(out, "<section</section>");
}

#[test]
fn markup_constructors() {
    assert!(Markup::new().is_empty());
    assert_eq!(Markup::new().as_str(), "");
    assert!(Markup::default().is_empty());
    assert_eq!(Markup::raw("<b>").as_str(), "<b>");
    assert!(!Markup::raw("<b>").is_empty());
    assert!(!Markup::slot().is_empty());
    assert_eq!(Markup::slot().as_str(), "");
    assert!(Markup::slot().accepts_children());
    assert!(Markup::fragment("x").accepts_children());
    assert!(!Markup::raw("x").accepts_children());
    assert_eq!(Markup::doctype().as_str(), "<!DOCTYPE html>");
    assert_eq!(Markup::raw("a").into_string(), "a");
    assert_eq!(Markup::raw("a").to_string(), "a");
    let page = Markup::fragment("f").with_children(Markup::raw("c"));
    assert_eq!(page.clone(), page);
}

#[test]
fn children_fill_every_slot() {
    let mut b = TemplateBuilder::new();
    b.push_render("[");
    b.push_markup(&Markup::slot());
    b.push_render("|");
    b.push_markup(&Markup::slot());
    b.push_render("]");
    let twice = b.finish();
    assert_eq!(twice.as_str(), "[|]");
    let filled = twice.with_children(Markup::raw("<x>"));
    assert_eq!(filled.as_str(), "[<x>|<x>]");
    assert!(!filled.accepts_children());
}

#[test]
fn children_with_a_slot_keep_the_slot() {
    let outer = Markup::slot();
    let filled = outer.with_children(Markup::slot());
    assert!(filled.accepts_children());
    assert_eq!(filled.with_children(Markup::raw("z")).as_str(), "z");
}

#[test]
fn nested_layouts_compose() {
    let layout = |open: &str, close: &str| {
        let mut b = TemplateBuilder::new();
        b.push_markup(&Markup::raw(open));
        b.push_markup(&Markup::slot());
        b.push_markup(&Markup::raw(close));
        b.finish()
    };
    let page = layout("<main>", "</main>");
    let section = layout("<section>", "</section>");
    let children = Markup::raw("nested");
    let wrapped = page.with_children(section.clone());
    assert!(wrapped.accepts_children());
    assert!(!page.with_children(children.clone()).accepts_children());
    let step_by_step = wrapped.with_children(children.clone());
    let at_once = page.with_children(section.with_children(children));
    assert_eq!(step_by_step.as_str(), "<main><section>nested</section></main>");
    assert_eq!(step_by_step.as_str(), at_once.as_str());
}

#[test]
fn fragment_of_a_page_with_children_holds_the_children() {
    let mut b = TemplateBuilder::new();
    b.push_markup(&Markup::raw("<section>"));
    b.push_markup(&Markup::fragment("body").with_children(Markup::slot()));
    b.push_markup(&Markup::raw("</section>"));
    let shell = b.finish();
    assert!(shell.accepts_children());
    assert_eq!(shell.render_fragment("body").as_str(), "");
    let page = shell.with_children(Markup::raw("<div>content</div>"));
    assert_eq!(page.as_str(), "<section><div>content</div></section>");
    assert_eq!(page.render_fragment("body").as_str(), "<div>content</div>");
}

#[test]
fn fragment_renders_its_content() {
    let content = Markup::raw("<p>x</p>");
    let page = Markup::fragment("main").with_children(content.clone());
    assert_eq!(page.render_fragment("main").as_str(), content.as_str());
    assert!(page.try_render_fragment("other").is_none());
    assert!(Markup::raw("no template").try_render_fragment("main").is_none());
}

#[test]
fn fragment_is_part_of_its_page() {
    let mut b = TemplateBuilder::new();
    b.push_render("<before>");
    let fragment = render(&Markup::fragment("mid"), Some(Markup::raw("<mid/>")));
    b.push_markup(&fragment);
    b.push_render("after");
    let page = b.finish();
    let part = page.render_fragment("mid");
    assert!(page.as_str().contains(part.as_str()));
    assert_eq!(page.as_str(), "&lt;before&gt;<mid/>after");
}

#[test]
fn first_fragment_of_a_name_wins() {
    let mut b = TemplateBuilder::new();
    b.push_markup(&Markup::fragment("x").with_children(Markup::raw("one")));
    b.push_markup(&Markup::fragment("x").with_children(Markup::raw("two")));
    let page = b.finish();
    assert_eq!(page.as_str(), "onetwo");
    assert_eq!(page.render_fragment("x").as_str(), "one");
}

#[test]
fn pushing_markup_appends_its_html() {
    let mut b = TemplateBuilder::new();
    b.push_markup(&Markup::raw("a"));
    b.push_markup(&Markup::slot());
    b.push_markup(&Markup::raw("b"));
    b.push_markup(&Markup::fragment("f"));
    b.push_markup(&Markup::raw("c"));
    assert_eq!(b.current, "c");
    let m = b.finish();
    assert_eq!(m.as_str(), "abc");
    assert!(m.accepts_children());
    assert_eq!(m.with_children(Markup::raw("-")).as_str(), "a-b-c");
}

#[test]
fn empty_builder_finishes_empty() {
    let m = TemplateBuilder::new().finish();
    assert!(m.is_empty());
    let m = TemplateBuilder::default().finish();
    assert!(m.is_empty());
}

#[test]
fn renders_optional_and_borrowed_values() {
    let none: Option<&str> = None;
    assert!(none.render(None).is_empty());
    assert_eq!(Some("<").render(None).as_str(), "&lt;");
    let cow: Cow<str> = Cow::Borrowed("a&b");
    assert_eq!(cow.render(None).as_str(), "a&amp;b");
    let owned: Cow<str> = Cow::Owned("c>d".to_string());
    assert_eq!(owned.render(None).as_str(), "c&gt;d");
    let nested = &&"x<";
    assert_eq!(render(nested, None).as_str(), "x&lt;");
    assert_eq!(String::from("<").render(None).as_str(), "&lt;");
    assert_eq!(Markup::raw("<r>").render(None).as_str(), "<r>");
}

#[test]
fn class_values_join_with_spaces_and_skip_empty() {
    let mut classes = String::new();
    push_class_value(&mut classes, &"");
    push_class_value(&mut classes, &"a");
    push_class_value(&mut classes, &None::<String>);
    push_class_value(&mut classes, &Some("b"));
    push_class_value(&mut classes, &7u8);
    push_class_value(&mut classes, &true);
    push_class_value(&mut classes, &'c');
    assert_eq!(classes, "a b 7 true c");

    let mut out = String::new();
    push_class_attr(&mut out, "");
    assert_eq!(out, "");
    push_class_attr(&mut out, "a \"b\"");
    assert_eq!(out, r#" class="a &quot;b&quot;""#);

    let mut out = String::new();
    assert!(!push_class_direct(&mut out, &""));
    assert!(!push_class_direct(&mut out, &None::<&str>));
    assert!(push_class_direct(&mut out, &"x<"));
    assert_eq!(out, "x&lt;");

    let mut out = String::new();
    Markup::raw("m&").render_class_into(&mut out);
    (-3i16).render_class_attr_into(&mut out);
    assert_eq!(out, "m&-3");
}

#[test]
fn attribute_values_by_type() {
    let mut out = String::new();
    push_attr(&mut out, &"n", &5u32);
    push_attr(&mut out, &"m", &(-5i32));
    push_attr(&mut out, &"o", &Markup::raw("<"));
    push_attr(&mut out, &"p", &false);
    push_attr(&mut out, &"q", &true);
    push_attr(&mut out, &"r", &None::<&str>);
    push_attr(&mut out, &None::<&str>, &"ignored");
    push_attr(&mut out, &String::from("s"), &Cow::Borrowed("t"));
    assert_eq!(out, r#" n="5" m="-5" o="&lt;" q s="t""#);

    let mut out = String::new();
    push_static_attr(&mut out, "u", &12usize);
    push_static_attr(&mut out, "v", &String::from("\""));
    push_static_bool_attr(&mut out, "w");
    push_bool_attr(&mut out, &"x");
    push_bool_attr(&mut out, &None::<String>);
    assert_eq!(out, r#" u="12" v="&quot;" w x"#);
}

#[test]
fn attribute_collections() {
    let mut out = String::new();
    push_attrs(&mut out, &vec![("a", "1"), ("b", "2")]);
    push_attrs(&mut out, &vec![String::from("c")]);
    push_attrs(&mut out, &[Cow::Borrowed("d")]);
    push_attrs(&mut out, &(Some("e"), 3i8));
    push_attrs(&mut out, &[(None::<&str>, "skipped")]);
    let pairs: &[(&str, bool)] = &[("f", true), ("g", false)];
    push_attrs(&mut out, &pairs);
    assert_eq!(out, r#" a="1" b="2" c d e="3" f"#);
}

#[test]
fn escaped_entities_are_escaped_again() {
    // Decoding from the front gives the text back, so an entity already in
    // the text must itself be escaped.
    let mut out = String::new();
    escape_text_into("&lt;&quot;", &mut out);
    assert_eq!(out, "&amp;lt;&amp;quot;");
    let mut out = String::new();
    escape_attr_value_into("\"&amp;\"", &mut out);
    assert_eq!(out, "&quot;&amp;amp;&quot;");
}

#[test]
fn fragment_names_survive_children() {
    let mut b = TemplateBuilder::new();
    b.push_markup(&Markup::slot());
    b.push_markup(&Markup::fragment("x").with_children(Markup::raw("a")));
    let layout = b.finish();
    assert_eq!(layout.render_fragment("x").as_str(), "a");

    let children = Markup::fragment("x").with_children(Markup::raw("c"));
    let page = layout.with_children(children);
    assert_eq!(page.as_str(), "ca");
    assert!(page.try_render_fragment("x").is_some());
    assert_eq!(page.render_fragment("x").as_str(), "c");

    let page = layout.with_children(Markup::raw("plain"));
    assert_eq!(page.render_fragment("x").as_str(), "a");
}

#[test]
fn pushing_markup_adds_its_slots_and_fragments() {
    let mut b = TemplateBuilder::new();
    b.push_markup(&Markup::raw("<p>"));
    assert!(!b.finish().accepts_children());

    let mut b = TemplateBuilder::new();
    b.push_markup(&Markup::fragment("f").with_children(Markup::raw("one")));
    b.push_markup(&Markup::raw("|"));
    b.push_markup(&Markup::slot());
    b.push_markup(&Markup::fragment("g").with_children(Markup::raw("two")));
    let m = b.finish();
    assert!(m.accepts_children());
    assert_eq!(m.as_str(), "one|two");
    assert_eq!(m.render_fragment("f").as_str(), "one");
    assert_eq!(m.render_fragment("g").as_str(), "two");
    assert!(m.try_render_fragment("h").is_none());
}

#[test]
fn a_slot_renders_just_its_children() {
    let slot = Markup::slot();
    assert_eq!(slot.as_str(), "");
    assert!(slot.accepts_children());
    let filled = slot.with_children(Markup::raw("<b>x</b>"));
    assert_eq!(filled.as_str(), "<b>x</b>");
    assert!(!filled.accepts_children());
}

#[test]
fn builder_text_joins_into_one_piece() {
    let mut b = TemplateBuilder::new();
    b.push_render("a");
    b.push_markup(&Markup::raw(""));
    b.push_render("b");
    b.push_markup(&Markup::slot());
    b.push_render("");
    b.push_render("c");
    let m = b.finish();
    assert_eq!(m.as_str(), "abc");
    assert_eq!(m.with_children(Markup::raw("-")).as_str(), "ab-c");
}
