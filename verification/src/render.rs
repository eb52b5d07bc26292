use vstd::prelude::*;
use std::borrow::Cow;
use crate::html::{bool_text, decimal, numeral_value, law_decimal_reads_back, unescape, law_unescape_escape, escape_text, escape_text_into, push_bool, push_char, push_signed, push_unsigned};
use crate::markup::Markup;
use crate::model::MarkupModel;
use crate::template::TemplateBuilder;

verus! {

/// The models of optional children.
pub open spec fn children_model(children: Option<Markup>) -> Option<MarkupModel> {
    match children {
        Some(c) => Some(c@),
        None => None,
    }
}

/// Markup of html alone.
pub open spec fn html_model(html: Seq<char>) -> MarkupModel {
    MarkupModel { html, template: None }
}

/// Converts Rust values into [`Markup`].
///
/// Implement this trait for application types that should be renderable with
/// `@value` inside `markup!` or as components with children.
pub trait Render {
    /// Whether this value can be rendered with these children.
    ///
    /// By default every value can; impls that panic on some children say
    /// on which.
    open spec fn render_ok(&self, children: Option<MarkupModel>) -> bool {
        true
    }

    /// What this value renders to with these children.
    ///
    /// Nothing is known of it by default: an impl states it by defining
    /// this function.
    closed spec fn rendered(&self, children: Option<MarkupModel>) -> MarkupModel {
        arbitrary()
    }

    /// Renders this value.
    ///
    /// `children` is `Some` when the value is rendered as `@value { ... }`.
    fn render(&self, children: Option<Markup>) -> (m: Markup)
        requires
            self.render_ok(children_model(children)),
        ensures
            m@ == self.rendered(children_model(children)),
    ;

    /// Renders this value, without children, straight into a builder.
    fn render_into_builder(&self, builder: &mut TemplateBuilder)
        requires
            self.render_ok(None),
        ensures
            final(builder).pushed(*old(builder), self.rendered(None)),
    {
        let markup = self.render(None);
        builder.push_markup(&markup);
    }
}

impl<T: Render + ?Sized> Render for &T {
    open spec fn render_ok(&self, children: Option<MarkupModel>) -> bool {
        (**self).render_ok(children)
    }

    open spec fn rendered(&self, children: Option<MarkupModel>) -> MarkupModel {
        (**self).rendered(children)
    }

    fn render(&self, children: Option<Markup>) -> (m: Markup) {
        (**self).render(children)
    }

    fn render_into_builder(&self, builder: &mut TemplateBuilder) {
        (**self).render_into_builder(builder);
    }
}

impl Render for Markup {
    open spec fn render_ok(&self, children: Option<MarkupModel>) -> bool {
        children is None || self@.accepts_children()
    }

    open spec fn rendered(&self, children: Option<MarkupModel>) -> MarkupModel {
        match children {
            Some(c) => self@.with_children(c),
            None => self@,
        }
    }

    fn render(&self, children: Option<Markup>) -> (m: Markup) {
        if let Some(children) = children {
            self.with_children(children)
        } else {
            self.clone()
        }
    }

    fn render_into_builder(&self, builder: &mut TemplateBuilder) {
        builder.push_markup(self);
    }
}

impl Render for str {
    open spec fn render_ok(&self, children: Option<MarkupModel>) -> bool {
        true
    }

    open spec fn rendered(&self, children: Option<MarkupModel>) -> MarkupModel {
        html_model(escape_text(self@))
    }

    fn render(&self, _children: Option<Markup>) -> (m: Markup) {
        render_escaped(self)
    }

    fn render_into_builder(&self, builder: &mut TemplateBuilder) {
        builder.push_escaped(self);
    }
}

impl Render for String {
    open spec fn render_ok(&self, children: Option<MarkupModel>) -> bool {
        true
    }

    open spec fn rendered(&self, children: Option<MarkupModel>) -> MarkupModel {
        html_model(escape_text(self@))
    }

    fn render(&self, children: Option<Markup>) -> (m: Markup) {
        self.as_str().render(children)
    }

    fn render_into_builder(&self, builder: &mut TemplateBuilder) {
        builder.push_escaped(self.as_str());
    }
}

impl Render for Cow<'_, str> {
    open spec fn render_ok(&self, children: Option<MarkupModel>) -> bool {
        true
    }

    open spec fn rendered(&self, children: Option<MarkupModel>) -> MarkupModel {
        html_model(escape_text(self@))
    }

    fn render(&self, children: Option<Markup>) -> (m: Markup) {
        match self {
            Cow::Borrowed(s) => s.render(children),
            Cow::Owned(s) => s.as_str().render(children),
        }
    }

    fn render_into_builder(&self, builder: &mut TemplateBuilder) {
        match self {
            Cow::Borrowed(s) => builder.push_escaped(s),
            Cow::Owned(s) => builder.push_escaped(s.as_str()),
        }
    }
}

impl<T: Render> Render for Option<T> {
    open spec fn render_ok(&self, children: Option<MarkupModel>) -> bool {
        match self {
            Some(v) => v.render_ok(children),
            None => true,
        }
    }

    open spec fn rendered(&self, children: Option<MarkupModel>) -> MarkupModel {
        match self {
            Some(v) => v.rendered(children),
            None => html_model(Seq::empty()),
        }
    }

    fn render(&self, children: Option<Markup>) -> (m: Markup) {
        match self {
            Some(value) => value.render(children),
            None => Markup::new(),
        }
    }

    fn render_into_builder(&self, builder: &mut TemplateBuilder) {
        if let Some(value) = self {
            value.render_into_builder(builder);
        } else {
            assert(builder.text() + Seq::<char>::empty() == builder.text());
        }
    }
}

impl Render for char {
    open spec fn render_ok(&self, children: Option<MarkupModel>) -> bool {
        true
    }

    open spec fn rendered(&self, children: Option<MarkupModel>) -> MarkupModel {
        html_model(escape_text(seq![*self]))
    }

    fn render(&self, _children: Option<Markup>) -> (m: Markup) {
        let mut buffer = String::new();
        push_char(&mut buffer, *self);
        assert(buffer@ == seq![*self]);
        render_escaped(buffer.as_str())
    }

    fn render_into_builder(&self, builder: &mut TemplateBuilder) {
        let mut buffer = String::new();
        push_char(&mut buffer, *self);
        assert(buffer@ == seq![*self]);
        builder.push_escaped(buffer.as_str());
    }
}

impl Render for bool {
    open spec fn render_ok(&self, children: Option<MarkupModel>) -> bool {
        true
    }

    open spec fn rendered(&self, children: Option<MarkupModel>) -> MarkupModel {
        html_model(bool_text(*self))
    }

    fn render(&self, _children: Option<Markup>) -> (m: Markup) {
        let mut out = String::new();
        push_bool(&mut out, *self);
        assert(out@ == bool_text(*self));
        Markup::from_html(out)
    }

    fn render_into_builder(&self, builder: &mut TemplateBuilder) {
        builder.push_bool(*self);
    }
}

impl Render for i8 {
    open spec fn render_ok(&self, children: Option<MarkupModel>) -> bool {
        true
    }

    open spec fn rendered(&self, children: Option<MarkupModel>) -> MarkupModel {
        html_model(decimal(*self as int))
    }

    fn render(&self, _children: Option<Markup>) -> (m: Markup) {
        let mut out = String::new();
        push_signed(&mut out, *self as i128);
        assert(out@ == decimal(*self as int));
        Markup::from_html(out)
    }

    fn render_into_builder(&self, builder: &mut TemplateBuilder) {
        builder.push_signed(*self as i128);
    }
}

impl Render for i16 {
    open spec fn render_ok(&self, children: Option<MarkupModel>) -> bool {
        true
    }

    open spec fn rendered(&self, children: Option<MarkupModel>) -> MarkupModel {
        html_model(decimal(*self as int))
    }

    fn render(&self, _children: Option<Markup>) -> (m: Markup) {
        let mut out = String::new();
        push_signed(&mut out, *self as i128);
        assert(out@ == decimal(*self as int));
        Markup::from_html(out)
    }

    fn render_into_builder(&self, builder: &mut TemplateBuilder) {
        builder.push_signed(*self as i128);
    }
}

impl Render for i32 {
    open spec fn render_ok(&self, children: Option<MarkupModel>) -> bool {
        true
    }

    open spec fn rendered(&self, children: Option<MarkupModel>) -> MarkupModel {
        html_model(decimal(*self as int))
    }

    fn render(&self, _children: Option<Markup>) -> (m: Markup) {
        let mut out = String::new();
        push_signed(&mut out, *self as i128);
        assert(out@ == decimal(*self as int));
        Markup::from_html(out)
    }

    fn render_into_builder(&self, builder: &mut TemplateBuilder) {
        builder.push_signed(*self as i128);
    }
}

impl Render for i64 {
    open spec fn render_ok(&self, children: Option<MarkupModel>) -> bool {
        true
    }

    open spec fn rendered(&self, children: Option<MarkupModel>) -> MarkupModel {
        html_model(decimal(*self as int))
    }

    fn render(&self, _children: Option<Markup>) -> (m: Markup) {
        let mut out = String::new();
        push_signed(&mut out, *self as i128);
        assert(out@ == decimal(*self as int));
        Markup::from_html(out)
    }

    fn render_into_builder(&self, builder: &mut TemplateBuilder) {
        builder.push_signed(*self as i128);
    }
}

impl Render for i128 {
    open spec fn render_ok(&self, children: Option<MarkupModel>) -> bool {
        true
    }

    open spec fn rendered(&self, children: Option<MarkupModel>) -> MarkupModel {
        html_model(decimal(*self as int))
    }

    fn render(&self, _children: Option<Markup>) -> (m: Markup) {
        let mut out = String::new();
        push_signed(&mut out, *self as i128);
        assert(out@ == decimal(*self as int));
        Markup::from_html(out)
    }

    fn render_into_builder(&self, builder: &mut TemplateBuilder) {
        builder.push_signed(*self as i128);
    }
}

impl Render for isize {
    open spec fn render_ok(&self, children: Option<MarkupModel>) -> bool {
        true
    }

    open spec fn rendered(&self, children: Option<MarkupModel>) -> MarkupModel {
        html_model(decimal(*self as int))
    }

    fn render(&self, _children: Option<Markup>) -> (m: Markup) {
        let mut out = String::new();
        push_signed(&mut out, *self as i128);
        assert(out@ == decimal(*self as int));
        Markup::from_html(out)
    }

    fn render_into_builder(&self, builder: &mut TemplateBuilder) {
        builder.push_signed(*self as i128);
    }
}

impl Render for u8 {
    open spec fn render_ok(&self, children: Option<MarkupModel>) -> bool {
        true
    }

    open spec fn rendered(&self, children: Option<MarkupModel>) -> MarkupModel {
        html_model(decimal(*self as int))
    }

    fn render(&self, _children: Option<Markup>) -> (m: Markup) {
        let mut out = String::new();
        push_unsigned(&mut out, *self as u128);
        assert(out@ == decimal(*self as int));
        Markup::from_html(out)
    }

    fn render_into_builder(&self, builder: &mut TemplateBuilder) {
        builder.push_unsigned(*self as u128);
    }
}

impl Render for u16 {
    open spec fn render_ok(&self, children: Option<MarkupModel>) -> bool {
        true
    }

    open spec fn rendered(&self, children: Option<MarkupModel>) -> MarkupModel {
        html_model(decimal(*self as int))
    }

    fn render(&self, _children: Option<Markup>) -> (m: Markup) {
        let mut out = String::new();
        push_unsigned(&mut out, *self as u128);
        assert(out@ == decimal(*self as int));
        Markup::from_html(out)
    }

    fn render_into_builder(&self, builder: &mut TemplateBuilder) {
        builder.push_unsigned(*self as u128);
    }
}

impl Render for u32 {
    open spec fn render_ok(&self, children: Option<MarkupModel>) -> bool {
        true
    }

    open spec fn rendered(&self, children: Option<MarkupModel>) -> MarkupModel {
        html_model(decimal(*self as int))
    }

    fn render(&self, _children: Option<Markup>) -> (m: Markup) {
        let mut out = String::new();
        push_unsigned(&mut out, *self as u128);
        assert(out@ == decimal(*self as int));
        Markup::from_html(out)
    }

    fn render_into_builder(&self, builder: &mut TemplateBuilder) {
        builder.push_unsigned(*self as u128);
    }
}

impl Render for u64 {
    open spec fn render_ok(&self, children: Option<MarkupModel>) -> bool {
        true
    }

    open spec fn rendered(&self, children: Option<MarkupModel>) -> MarkupModel {
        html_model(decimal(*self as int))
    }

    fn render(&self, _children: Option<Markup>) -> (m: Markup) {
        let mut out = String::new();
        push_unsigned(&mut out, *self as u128);
        assert(out@ == decimal(*self as int));
        Markup::from_html(out)
    }

    fn render_into_builder(&self, builder: &mut TemplateBuilder) {
        builder.push_unsigned(*self as u128);
    }
}

impl Render for u128 {
    open spec fn render_ok(&self, children: Option<MarkupModel>) -> bool {
        true
    }

    open spec fn rendered(&self, children: Option<MarkupModel>) -> MarkupModel {
        html_model(decimal(*self as int))
    }

    fn render(&self, _children: Option<Markup>) -> (m: Markup) {
        let mut out = String::new();
        push_unsigned(&mut out, *self as u128);
        assert(out@ == decimal(*self as int));
        Markup::from_html(out)
    }

    fn render_into_builder(&self, builder: &mut TemplateBuilder) {
        builder.push_unsigned(*self as u128);
    }
}

impl Render for usize {
    open spec fn render_ok(&self, children: Option<MarkupModel>) -> bool {
        true
    }

    open spec fn rendered(&self, children: Option<MarkupModel>) -> MarkupModel {
        html_model(decimal(*self as int))
    }

    fn render(&self, _children: Option<Markup>) -> (m: Markup) {
        let mut out = String::new();
        push_unsigned(&mut out, *self as u128);
        assert(out@ == decimal(*self as int));
        Markup::from_html(out)
    }

    fn render_into_builder(&self, builder: &mut TemplateBuilder) {
        builder.push_unsigned(*self as u128);
    }
}

/// Markup of `text` escaped for the body of an element.
fn render_escaped(text: &str) -> (m: Markup)
    ensures
        m@ == html_model(escape_text(text@)),
{
    let mut out = String::new();
    escape_text_into(text, &mut out);
    assert(out@ == escape_text(text@));
    Markup::from_html(out)
}

/// Every integer, of every width and sign, renders as the decimal numeral of
/// its value and nothing else, whatever children it is given: reading the
/// html back gives the value again, so no value is cut to a narrower type.
pub proof fn law_integers_render(a: i8, b: i16, c: i32, d: i64, e: i128, f: isize, g: u8, h: u16, i: u32, j: u64, k: u128, l: usize, children: Option<MarkupModel>)
    ensures
        a.render_ok(children) && a.rendered(children) == html_model(decimal(a as int)),
        b.render_ok(children) && b.rendered(children) == html_model(decimal(b as int)),
        c.render_ok(children) && c.rendered(children) == html_model(decimal(c as int)),
        d.render_ok(children) && d.rendered(children) == html_model(decimal(d as int)),
        e.render_ok(children) && e.rendered(children) == html_model(decimal(e as int)),
        f.render_ok(children) && f.rendered(children) == html_model(decimal(f as int)),
        g.render_ok(children) && g.rendered(children) == html_model(decimal(g as int)),
        h.render_ok(children) && h.rendered(children) == html_model(decimal(h as int)),
        i.render_ok(children) && i.rendered(children) == html_model(decimal(i as int)),
        j.render_ok(children) && j.rendered(children) == html_model(decimal(j as int)),
        k.render_ok(children) && k.rendered(children) == html_model(decimal(k as int)),
        l.render_ok(children) && l.rendered(children) == html_model(decimal(l as int)),
        numeral_value(a.rendered(children).html) == a as int,
        numeral_value(b.rendered(children).html) == b as int,
        numeral_value(c.rendered(children).html) == c as int,
        numeral_value(d.rendered(children).html) == d as int,
        numeral_value(e.rendered(children).html) == e as int,
        numeral_value(f.rendered(children).html) == f as int,
        numeral_value(g.rendered(children).html) == g as int,
        numeral_value(h.rendered(children).html) == h as int,
        numeral_value(i.rendered(children).html) == i as int,
        numeral_value(j.rendered(children).html) == j as int,
        numeral_value(k.rendered(children).html) == k as int,
        numeral_value(l.rendered(children).html) == l as int,
{
    law_decimal_reads_back(a as int);
    law_decimal_reads_back(b as int);
    law_decimal_reads_back(c as int);
    law_decimal_reads_back(d as int);
    law_decimal_reads_back(e as int);
    law_decimal_reads_back(f as int);
    law_decimal_reads_back(g as int);
    law_decimal_reads_back(h as int);
    law_decimal_reads_back(i as int);
    law_decimal_reads_back(j as int);
    law_decimal_reads_back(k as int);
    law_decimal_reads_back(l as int);
}

/// Text renders escaped, and reading the html back gives the text again:
/// a string, an owned string or a character renders as its text escaped
/// for an element's body, whatever children it is given; `true` and
/// `false` render as those words; `None` renders nothing and `Some(v)`
/// renders as `v` does.
pub proof fn law_text_render<T: Render>(s: &str, t: String, c: char, b: bool, v: T, children: Option<MarkupModel>)
    ensures
        s.render_ok(children) && s.rendered(children) == html_model(escape_text(s@)),
        unescape(s.rendered(children).html) == s@,
        t.render_ok(children) && t.rendered(children) == html_model(escape_text(t@)),
        unescape(t.rendered(children).html) == t@,
        c.render_ok(children) && c.rendered(children) == html_model(escape_text(seq![c])),
        unescape(c.rendered(children).html) == seq![c],
        b.render_ok(children) && b.rendered(children).template is None,
        b.rendered(children).html == (if b { "true"@ } else { "false"@ }),
        None::<T>.render_ok(children) && None::<T>.rendered(children) == html_model(Seq::empty()),
        Some(v).render_ok(children) == v.render_ok(children) && Some(v).rendered(children) == v.rendered(children),
{
    law_unescape_escape(s@, false);
    law_unescape_escape(t@, false);
    law_unescape_escape(seq![c], false);
    reveal_strlit("true");
    reveal_strlit("false");
    assert(bool_text(true) == "true"@);
    assert(bool_text(false) == "false"@);
}

} // verus!
