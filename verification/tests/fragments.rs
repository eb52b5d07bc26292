use mup::template::{
    finish_start_tag, push_end_tag_static, push_start_tag_static, render, TemplateBuilder,
};
use mup::{Markup, Render};

fn div_content(b: &mut TemplateBuilder) {
    push_start_tag_static(&mut b.current, "div");
    finish_start_tag(&mut b.current);
    b.push_render(&("content"));
    push_end_tag_static(&mut b.current, "div");
}

#[test]
fn renders_named_fragment() {
    let mut b = TemplateBuilder::new();
    push_start_tag_static(&mut b.current, "div");
    finish_start_tag(&mut b.current);
    b.push_render(&("header"));
    {
        let inner = {
            let mut c = TemplateBuilder::new();
            div_content(&mut c);
            c.finish()
        };
        let markup = render(&(Markup::fragment("name")), Some(inner));
        b.push_markup(&markup);
    }
    push_end_tag_static(&mut b.current, "div");
    let page = b.finish();

    assert_eq!(page.as_str(), "<div>header<div>content</div></div>");
    assert_eq!(page.render_fragment("name").as_str(), "<div>content</div>");
    assert_eq!(
        page.try_render_fragment("name")
            .as_ref()
            .map(Markup::as_str),
        Some("<div>content</div>")
    );
    assert!(page.try_render_fragment("missing").is_none());
}

#[test]
fn renders_nested_fragment_as_part_of_parent_fragment() {
    let mut b = TemplateBuilder::new();
    push_start_tag_static(&mut b.current, "div");
    finish_start_tag(&mut b.current);
    b.push_render(&("outer"));
    {
        let outer = {
            let mut c = TemplateBuilder::new();
            c.push_render(&("inner"));
            {
                let inner = {
                    let mut d = TemplateBuilder::new();
                    div_content(&mut d);
                    d.finish()
                };
                let markup = render(&(Markup::fragment("inner")), Some(inner));
                c.push_markup(&markup);
            }
            c.finish()
        };
        let markup = render(&(Markup::fragment("outer")), Some(outer));
        b.push_markup(&markup);
    }
    push_end_tag_static(&mut b.current, "div");
    let page = b.finish();

    assert_eq!(page.as_str(), "<div>outerinner<div>content</div></div>");
    assert_eq!(
        page.render_fragment("outer").as_str(),
        "inner<div>content</div>"
    );
    assert_eq!(page.render_fragment("inner").as_str(), "<div>content</div>");
}

#[test]
fn renders_fragment_with_slot_children() {
    let mut b = TemplateBuilder::new();
    push_start_tag_static(&mut b.current, "section");
    finish_start_tag(&mut b.current);
    {
        let inner = {
            let mut c = TemplateBuilder::new();
            c.push_render(&(Markup::slot()));
            c.finish()
        };
        let markup = render(&(Markup::fragment("body")), Some(inner));
        b.push_markup(&markup);
    }
    push_end_tag_static(&mut b.current, "section");
    let shell = b.finish();

    let mut b = TemplateBuilder::new();
    {
        let inner = {
            let mut c = TemplateBuilder::new();
            div_content(&mut c);
            c.finish()
        };
        let markup = render(&(shell), Some(inner));
        b.push_markup(&markup);
    }
    let page = b.finish();

    assert!(shell.accepts_children());
    assert_eq!(shell.as_str(), "<section></section>");
    assert_eq!(page.as_str(), "<section><div>content</div></section>");
    assert_eq!(page.render_fragment("body").as_str(), "<div>content</div>");
}

fn main_body_fragment(children: &Option<Markup>) -> Markup {
    let mut b = TemplateBuilder::new();
    push_start_tag_static(&mut b.current, "main");
    finish_start_tag(&mut b.current);
    {
        let inner = {
            let mut c = TemplateBuilder::new();
            if let Some(children) = children.as_ref() {
                c.push_markup(children);
            }
            c.finish()
        };
        let markup = render(&(Markup::fragment("body")), Some(inner));
        b.push_markup(&markup);
    }
    push_end_tag_static(&mut b.current, "main");
    b.finish()
}

fn p_body() -> Markup {
    let mut c = TemplateBuilder::new();
    push_start_tag_static(&mut c.current, "p");
    finish_start_tag(&mut c.current);
    c.push_render(&("Body"));
    push_end_tag_static(&mut c.current, "p");
    c.finish()
}

#[test]
fn renders_component_children_inside_fragment() {
    struct Layout {}

    impl Render for Layout {
        fn render(&self, children: Option<Markup>) -> Markup {
            main_body_fragment(&children)
        }
    }

    let layout = Layout {};
    let mut b = TemplateBuilder::new();
    {
        let markup = render(&(layout), Some(p_body()));
        b.push_markup(&markup);
    }
    let page = b.finish();

    assert_eq!(page.as_str(), "<main><p>Body</p></main>");
    assert_eq!(page.render_fragment("body").as_str(), "<p>Body</p>");
}

#[test]
fn renders_option_children_inside_fragment() {
    struct Layout;

    impl Render for Layout {
        fn render(&self, children: Option<Markup>) -> Markup {
            let mut b = TemplateBuilder::new();
            push_start_tag_static(&mut b.current, "main");
            finish_start_tag(&mut b.current);
            {
                let inner = {
                    let mut c = TemplateBuilder::new();
                    c.push_render(&(children));
                    c.finish()
                };
                let markup = render(&(Markup::fragment("body")), Some(inner));
                b.push_markup(&markup);
            }
            push_end_tag_static(&mut b.current, "main");
            b.finish()
        }
    }

    let mut b = TemplateBuilder::new();
    {
        let markup = render(&(Layout), Some(p_body()));
        b.push_markup(&markup);
    }
    let page = b.finish();

    assert_eq!(page.as_str(), "<main><p>Body</p></main>");
    assert_eq!(page.render_fragment("body").as_str(), "<p>Body</p>");
}
