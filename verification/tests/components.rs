use mup::template::{
    finish_start_tag, push_attr, push_class_attr, push_class_direct, push_end_tag_static,
    push_start_tag_static, push_static_attr, render, TemplateBuilder,
};
use mup::{Markup, Render};

#[test]
fn renders_components_with_children_slot() {
    let children = Markup::slot();
    let mut b = TemplateBuilder::new();
    push_start_tag_static(&mut b.current, "html");
    finish_start_tag(&mut b.current);
    push_start_tag_static(&mut b.current, "head");
    finish_start_tag(&mut b.current);
    push_end_tag_static(&mut b.current, "head");
    push_start_tag_static(&mut b.current, "body");
    finish_start_tag(&mut b.current);
    b.push_render(&(children));
    push_end_tag_static(&mut b.current, "body");
    push_end_tag_static(&mut b.current, "html");
    let layout: Markup = b.finish();
    let title = "title";

    assert!(layout.accepts_children());
    assert_eq!(layout.as_str(), "<html><head></head><body></body></html>");

    let mut b = TemplateBuilder::new();
    {
        let children = {
            let mut c = TemplateBuilder::new();
            push_start_tag_static(&mut c.current, "span");
            finish_start_tag(&mut c.current);
            c.push_render(&("foo"));
            push_end_tag_static(&mut c.current, "span");
            c.push_render(&(title));
            c.finish()
        };
        let markup = render(&(layout), Some(children));
        b.push_markup(&markup);
    }
    let actual = b.finish();

    assert_eq!(
        actual.as_str(),
        "<html><head></head><body><span>foo</span>title</body></html>"
    );
}

#[test]
fn preserves_nested_children_slots() {
    let children = Markup::slot();
    let mut b = TemplateBuilder::new();
    push_start_tag_static(&mut b.current, "main");
    finish_start_tag(&mut b.current);
    b.push_render(&(children));
    push_end_tag_static(&mut b.current, "main");
    let layout: Markup = b.finish();

    let children = Markup::slot();
    let mut b = TemplateBuilder::new();
    {
        let inner = {
            let mut c = TemplateBuilder::new();
            push_start_tag_static(&mut c.current, "section");
            finish_start_tag(&mut c.current);
            c.push_render(&(children));
            push_end_tag_static(&mut c.current, "section");
            c.finish()
        };
        let markup = render(&(layout), Some(inner));
        b.push_markup(&markup);
    }
    let wrapped: Markup = b.finish();

    let mut b = TemplateBuilder::new();
    {
        let inner = {
            let mut c = TemplateBuilder::new();
            c.push_render(&("nested"));
            c.finish()
        };
        let markup = render(&(wrapped), Some(inner));
        b.push_markup(&markup);
    }
    let actual = b.finish();

    assert_eq!(actual.as_str(), "<main><section>nested</section></main>");
}

#[test]
fn inserts_slot_from_path_call() {
    let mut b = TemplateBuilder::new();
    push_start_tag_static(&mut b.current, "main");
    finish_start_tag(&mut b.current);
    b.push_render(&(Markup::slot()));
    push_end_tag_static(&mut b.current, "main");
    let layout: Markup = b.finish();

    assert!(layout.accepts_children());

    let mut b = TemplateBuilder::new();
    {
        let inner = {
            let mut c = TemplateBuilder::new();
            c.push_render(&("content"));
            c.finish()
        };
        let markup = render(&(layout), Some(inner));
        b.push_markup(&markup);
    }
    let actual = b.finish();

    assert_eq!(actual.as_str(), "<main>content</main>");
}

#[test]
fn renders_custom_struct_with_optional_children_render() {
    struct Card {
        title: String,
    }

    impl Render for Card {
        fn render(&self, _children: Option<Markup>) -> Markup {
            let title = &self.title;

            let mut b = TemplateBuilder::new();
            push_start_tag_static(&mut b.current, "article");
            push_class_attr(&mut b.current, "card");
            finish_start_tag(&mut b.current);
            push_start_tag_static(&mut b.current, "h2");
            finish_start_tag(&mut b.current);
            b.push_render(&(title));
            push_end_tag_static(&mut b.current, "h2");
            push_end_tag_static(&mut b.current, "article");
            b.finish()
        }
    }

    let card = Card {
        title: "Hello <world>".to_owned(),
    };
    let mut b = TemplateBuilder::new();
    push_start_tag_static(&mut b.current, "main");
    finish_start_tag(&mut b.current);
    b.push_render(&(card));
    push_end_tag_static(&mut b.current, "main");
    let actual = b.finish();

    assert_eq!(
        actual.as_str(),
        r#"<main><article class="card"><h2>Hello &lt;world&gt;</h2></article></main>"#
    );
}

#[test]
fn renders_custom_component_with_optional_children_render() {
    struct Layout {
        title: String,
    }

    impl Render for Layout {
        fn render(&self, children: Option<Markup>) -> Markup {
            let title = &self.title;

            let mut b = TemplateBuilder::new();
            push_start_tag_static(&mut b.current, "section");
            push_class_attr(&mut b.current, "layout");
            finish_start_tag(&mut b.current);
            push_start_tag_static(&mut b.current, "h1");
            finish_start_tag(&mut b.current);
            b.push_render(&(title));
            push_end_tag_static(&mut b.current, "h1");
            b.push_render(&(children));
            push_end_tag_static(&mut b.current, "section");
            b.finish()
        }
    }

    let layout = Layout {
        title: "Title".to_owned(),
    };
    let mut b = TemplateBuilder::new();
    {
        let inner = {
            let mut c = TemplateBuilder::new();
            push_start_tag_static(&mut c.current, "p");
            finish_start_tag(&mut c.current);
            c.push_render(&("Body"));
            push_end_tag_static(&mut c.current, "p");
            c.finish()
        };
        let markup = render(&(layout), Some(inner));
        b.push_markup(&markup);
    }
    let actual = b.finish();

    assert_eq!(
        actual.as_str(),
        r#"<section class="layout"><h1>Title</h1><p>Body</p></section>"#
    );
}

#[test]
fn component_macro_declares_struct_and_render_impl() {
    struct Layout {
        pub title: String,
    }

    impl Render for Layout {
        fn render(&self, children: Option<Markup>) -> Markup {
            let Self { title } = self;
            let mut b = TemplateBuilder::new();
            push_start_tag_static(&mut b.current, "section");
            push_class_attr(&mut b.current, "layout");
            finish_start_tag(&mut b.current);
            push_start_tag_static(&mut b.current, "h1");
            finish_start_tag(&mut b.current);
            b.push_render(&(title));
            push_end_tag_static(&mut b.current, "h1");
            if let Some(children) = children.as_ref() {
                b.push_markup(children);
            }
            push_end_tag_static(&mut b.current, "section");
            b.finish()
        }
    }

    struct Badge {
        pub text: String,
    }

    impl Render for Badge {
        fn render(&self, _children: Option<Markup>) -> Markup {
            let Self { text } = self;
            let mut b = TemplateBuilder::new();
            push_start_tag_static(&mut b.current, "span");
            push_class_attr(&mut b.current, "badge");
            finish_start_tag(&mut b.current);
            b.push_render(&(text));
            push_end_tag_static(&mut b.current, "span");
            b.finish()
        }
    }

    let mut b = TemplateBuilder::new();
    {
        let inner = {
            let mut c = TemplateBuilder::new();
            c.push_render(&(Badge {
                text: "New".to_owned(),
            }));
            push_start_tag_static(&mut c.current, "p");
            finish_start_tag(&mut c.current);
            c.push_render(&("Body"));
            push_end_tag_static(&mut c.current, "p");
            c.finish()
        };
        let markup = render(
            &(Layout {
                title: "Macro".to_owned(),
            }),
            Some(inner),
        );
        b.push_markup(&markup);
    }
    let actual = b.finish();

    assert_eq!(
        actual.as_str(),
        r#"<section class="layout"><h1>Macro</h1><span class="badge">New</span><p>Body</p></section>"#
    );
}

#[test]
fn component_macro_supports_lifetimes_and_generics() {
    struct Field<'a, T: Render + Clone = String, const N: usize = 1>
    where
        T: Render + Clone,
    {
        pub label: &'a str,
        pub value: T,
        pub _slots: [(); N],
    }

    impl<'a, T: Render + Clone, const N: usize> Render for Field<'a, T, N>
    where
        T: Render + Clone,
    {
        fn render(&self, _children: Option<Markup>) -> Markup {
            let Self { label, value, .. } = self;
            let mut b = TemplateBuilder::new();
            push_start_tag_static(&mut b.current, "span");
            push_class_attr(&mut b.current, "field");
            finish_start_tag(&mut b.current);
            b.push_render(&(label));
            b.push_render(&(": "));
            b.push_render(&(value));
            b.push_render(&(" / "));
            b.push_render(&(N));
            push_end_tag_static(&mut b.current, "span");
            b.finish()
        }
    }

    impl<'a, T: Render + Clone, const N: usize> Field<'a, T, N>
    where
        T: Render + Clone,
    {
        fn new(label: &'a str, value: T, _slots: [(); N]) -> Self {
            Self {
                label,
                value,
                _slots,
            }
        }
    }

    impl<'a, T> Field<'a, Option<T>, 1>
    where
        Option<T>: Render + Clone,
    {
        fn from_option(label: &'a str, value: Option<T>) -> Self {
            Self {
                label,
                value,
                _slots: [(); 1],
            }
        }
    }

    let mut b = TemplateBuilder::new();
    b.push_render(&(Field::new("name", "Mup".to_owned(), [(); 2])));
    b.push_render(&(Field::from_option("maybe", Some("optional".to_owned()))));
    let actual = b.finish();

    assert_eq!(
        actual.as_str(),
        r#"<span class="field">name: Mup / 2</span><span class="field">maybe: optional / 1</span>"#
    );
}

#[test]
fn component_macro_supports_struct_self_method_calls() {
    struct Profile {
        first: String,
        last: String,
    }

    impl Render for Profile {
        fn render(&self, _children: Option<Markup>) -> Markup {
            let mut b = TemplateBuilder::new();
            push_start_tag_static(&mut b.current, "article");
            finish_start_tag(&mut b.current);
            push_start_tag_static(&mut b.current, "h1");
            finish_start_tag(&mut b.current);
            b.push_render(&(self.display_name(" / ")));
            push_end_tag_static(&mut b.current, "h1");
            push_start_tag_static(&mut b.current, "p");
            finish_start_tag(&mut b.current);
            b.push_render(&(self.initials().to_uppercase()));
            push_end_tag_static(&mut b.current, "p");
            push_end_tag_static(&mut b.current, "article");
            b.finish()
        }
    }

    impl Profile {
        fn new(first: impl Into<String>, last: impl Into<String>) -> Self {
            Self {
                first: first.into(),
                last: last.into(),
            }
        }

        fn display_name(&self, separator: &str) -> String {
            format!("{}{}{}", self.last, separator, self.first)
        }

        fn initials(&self) -> String {
            format!(
                "{}{}",
                self.first.chars().next().unwrap_or_default(),
                self.last.chars().next().unwrap_or_default()
            )
        }
    }

    let mut b = TemplateBuilder::new();
    b.push_render(&(Profile::new("Ada", "Lovelace")));
    let actual = b.finish();

    assert_eq!(
        actual.as_str(),
        "<article><h1>Lovelace / Ada</h1><p>AL</p></article>"
    );
}

#[test]
fn component_macro_supports_struct_self_attribute_values() {
    struct Link {
        label: String,
        route: String,
    }

    impl Render for Link {
        fn render(&self, _children: Option<Markup>) -> Markup {
            let Self { label, .. } = self;
            let mut b = TemplateBuilder::new();
            let tracking_attr = "data-track";
            push_start_tag_static(&mut b.current, "a");
            push_static_attr(&mut b.current, "href", &(self.href()));
            push_static_attr(&mut b.current, "title", &(self.title("Open").to_uppercase()));
            push_static_attr(&mut b.current, "data-route", &(self.route));
            push_static_attr(&mut b.current, "data-kind", &(Self::kind()));
            push_attr(&mut b.current, &"data-label", &(label));
            push_attr(&mut b.current, &(tracking_attr), &(self.tracking_id()));
            finish_start_tag(&mut b.current);
            b.push_render(&(label));
            push_end_tag_static(&mut b.current, "a");
            b.finish()
        }
    }

    impl Link {
        fn new(label: impl Into<String>, route: impl Into<String>) -> Self {
            Self {
                label: label.into(),
                route: route.into(),
            }
        }

        fn href(&self) -> String {
            format!("/{}", self.route.trim_start_matches('/'))
        }

        fn title(&self, prefix: &str) -> String {
            format!("{prefix} {}", self.label)
        }

        fn tracking_id(&self) -> String {
            format!("link-{}", self.route.trim_matches('/'))
        }

        fn kind() -> &'static str {
            "nav"
        }
    }

    let mut b = TemplateBuilder::new();
    b.push_render(&(Link::new("Docs", "/docs")));
    let actual = b.finish();

    assert_eq!(
        actual.as_str(),
        r#"<a href="/docs" title="OPEN DOCS" data-route="/docs" data-kind="nav" data-label="Docs" data-track="link-docs">Docs</a>"#
    );
}

#[test]
fn component_macro_supports_struct_associated_function_calls() {
    struct Meter {
        value: i32,
    }

    impl Render for Meter {
        fn render(&self, _children: Option<Markup>) -> Markup {
            let Self { value } = self;
            let mut b = TemplateBuilder::new();
            push_start_tag_static(&mut b.current, "div");
            finish_start_tag(&mut b.current);
            push_start_tag_static(&mut b.current, "span");
            finish_start_tag(&mut b.current);
            b.push_render(&(Self::format_value(*value)));
            push_end_tag_static(&mut b.current, "span");
            push_start_tag_static(&mut b.current, "small");
            finish_start_tag(&mut b.current);
            b.push_render(&(Meter::unit_label()));
            push_end_tag_static(&mut b.current, "small");
            push_end_tag_static(&mut b.current, "div");
            b.finish()
        }
    }

    impl Meter {
        fn new(value: i32) -> Self {
            Self { value }
        }

        fn format_value(value: i32) -> String {
            format!("{value:03}")
        }

        fn unit_label() -> &'static str {
            "rpm"
        }
    }

    let mut b = TemplateBuilder::new();
    b.push_render(&(Meter::new(7)));
    let actual = b.finish();

    assert_eq!(
        actual.as_str(),
        "<div><span>007</span><small>rpm</small></div>"
    );
}

#[test]
fn component_macro_supports_generic_enums() {
    enum Marker<'a, T: Render> {
        Borrowed(&'a T),
        Owned { value: T },
    }

    impl<'a, T: Render> Render for Marker<'a, T> {
        fn render(&self, _children: Option<Markup>) -> Markup {
            match self {
                Marker::Borrowed(value) => {
                    let mut b = TemplateBuilder::new();
                    push_start_tag_static(&mut b.current, "span");
                    push_class_attr(&mut b.current, "borrowed");
                    finish_start_tag(&mut b.current);
                    b.push_render(&(value));
                    push_end_tag_static(&mut b.current, "span");
                    b.finish()
                }
                Marker::Owned { value } => {
                    let mut b = TemplateBuilder::new();
                    push_start_tag_static(&mut b.current, "span");
                    push_class_attr(&mut b.current, "owned");
                    finish_start_tag(&mut b.current);
                    b.push_render(&(value));
                    push_end_tag_static(&mut b.current, "span");
                    b.finish()
                }
            }
        }
    }

    let borrowed_text = "borrowed".to_owned();
    let borrowed = Marker::Borrowed(&borrowed_text);
    let owned = Marker::Owned {
        value: "owned".to_owned(),
    };
    let mut b = TemplateBuilder::new();
    b.push_render(&(borrowed));
    b.push_render(&(owned));
    let actual = b.finish();

    assert_eq!(
        actual.as_str(),
        r#"<span class="borrowed">borrowed</span><span class="owned">owned</span>"#
    );
}

#[test]
fn component_macro_supports_enum_self_method_call_nodes() {
    enum Status {
        Ready,
    }

    impl Render for Status {
        fn render(&self, _children: Option<Markup>) -> Markup {
            match self {
                Status::Ready => {
                    let mut b = TemplateBuilder::new();
                    push_start_tag_static(&mut b.current, "span");
                    finish_start_tag(&mut b.current);
                    b.push_render(&(self.label()));
                    push_end_tag_static(&mut b.current, "span");
                    b.finish()
                }
            }
        }
    }

    impl Status {
        fn label(&self) -> &'static str {
            "ready"
        }
    }

    let status = Status::Ready;
    let mut b = TemplateBuilder::new();
    b.push_render(&(status));
    let actual = b.finish();

    assert_eq!(actual.as_str(), "<span>ready</span>");
}

#[test]
fn component_macro_slot_alias_does_not_conflict_with_children_field() {
    struct Panel {
        pub children: String,
    }

    impl Render for Panel {
        fn render(&self, slot_children: Option<Markup>) -> Markup {
            let Self { children } = self;
            let mut b = TemplateBuilder::new();
            push_start_tag_static(&mut b.current, "section");
            finish_start_tag(&mut b.current);
            push_start_tag_static(&mut b.current, "h1");
            finish_start_tag(&mut b.current);
            b.push_render(&(children));
            push_end_tag_static(&mut b.current, "h1");
            if let Some(slot) = slot_children.as_ref() {
                b.push_markup(slot);
            }
            push_end_tag_static(&mut b.current, "section");
            b.finish()
        }
    }

    let mut b = TemplateBuilder::new();
    {
        let inner = {
            let mut c = TemplateBuilder::new();
            push_start_tag_static(&mut c.current, "p");
            finish_start_tag(&mut c.current);
            c.push_render(&("Slot"));
            push_end_tag_static(&mut c.current, "p");
            c.finish()
        };
        let markup = render(
            &(Panel {
                children: "Field".to_owned(),
            }),
            Some(inner),
        );
        b.push_markup(&markup);
    }
    let actual = b.finish();

    assert_eq!(
        actual.as_str(),
        "<section><h1>Field</h1><p>Slot</p></section>"
    );
}

#[test]
fn component_macro_supports_dynamic_class_and_id_selectors() {
    struct Pill {
        pub class_name: String,
        pub id: String,
    }

    impl Render for Pill {
        fn render(&self, _children: Option<Markup>) -> Markup {
            let Self { class_name, id } = self;
            let mut b = TemplateBuilder::new();
            push_start_tag_static(&mut b.current, "span");
            {
                b.current.push_str(" class=\"badge");
                {
                    let sep = b.current.len();
                    b.current.push(' ');
                    if !push_class_direct(&mut b.current, &(class_name)) {
                        b.current.truncate(sep);
                    }
                }
                b.current.push('"');
            }
            push_static_attr(&mut b.current, "id", &(id));
            finish_start_tag(&mut b.current);
            b.push_render(&("New"));
            push_end_tag_static(&mut b.current, "span");
            b.finish()
        }
    }

    let mut b = TemplateBuilder::new();
    b.push_render(&(Pill {
        class_name: "active".to_owned(),
        id: "pill".to_owned(),
    }));
    let actual = b.finish();

    assert_eq!(
        actual.as_str(),
        r#"<span class="badge active" id="pill">New</span>"#
    );
}

#[test]
fn renders_struct_literal_props() {
    struct Layout {
        title: String,
    }

    impl Render for Layout {
        fn render(&self, _children: Option<Markup>) -> Markup {
            let title = &self.title;

            let mut b = TemplateBuilder::new();
            push_start_tag_static(&mut b.current, "section");
            finish_start_tag(&mut b.current);
            push_start_tag_static(&mut b.current, "h1");
            finish_start_tag(&mut b.current);
            b.push_render(&(title));
            push_end_tag_static(&mut b.current, "h1");
            push_end_tag_static(&mut b.current, "section");
            b.finish()
        }
    }

    let mut b = TemplateBuilder::new();
    b.push_render(&(Layout {
        title: "Props".to_owned(),
    }));
    let actual = b.finish();

    assert_eq!(actual.as_str(), "<section><h1>Props</h1></section>");
}

#[test]
fn renders_struct_literal_props_with_children() {
    struct Layout {
        title: String,
    }

    impl Render for Layout {
        fn render(&self, children: Option<Markup>) -> Markup {
            let title = &self.title;

            let mut b = TemplateBuilder::new();
            push_start_tag_static(&mut b.current, "section");
            finish_start_tag(&mut b.current);
            push_start_tag_static(&mut b.current, "h1");
            finish_start_tag(&mut b.current);
            b.push_render(&(title));
            push_end_tag_static(&mut b.current, "h1");
            b.push_render(&(children));
            push_end_tag_static(&mut b.current, "section");
            b.finish()
        }
    }

    let mut b = TemplateBuilder::new();
    {
        let inner = {
            let mut c = TemplateBuilder::new();
            push_start_tag_static(&mut c.current, "p");
            finish_start_tag(&mut c.current);
            c.push_render(&("Child"));
            push_end_tag_static(&mut c.current, "p");
            c.finish()
        };
        let markup = render(
            &(Layout {
                title: "Props".to_owned(),
            }),
            Some(inner),
        );
        b.push_markup(&markup);
    }
    let actual = b.finish();

    assert_eq!(
        actual.as_str(),
        "<section><h1>Props</h1><p>Child</p></section>"
    );
}
