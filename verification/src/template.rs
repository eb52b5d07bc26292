use vstd::prelude::*;
use vstd::string::StringExecFns;
use crate::attrs::{
    AttributeName, AttributeValue, Attributes, ClassValue, attr_text, bool_attr_text,
    push_boolean_attr,
};
use crate::html::{
    escape_attr, escape_attr_value_into, is_void_tag_name, push_char, valid_attr_name,
    valid_tag_name, lemma_escape_empty, escape_text, escape_text_into, decimal, bool_text,
    push_signed, push_unsigned, push_bool,
};
use crate::markup::{Markup, MarkupPart, parts_model, push_markup_part, lemma_wf};
use crate::model::{MarkupModel, Piece, from_pieces, push_all, push_piece, lemma_single, render_pieces, has_template, law_push_appends_html, lemma_render_push_piece, has_slot, find_fragment, lemma_has_slot_push_piece, lemma_has_slot_push_all, lemma_find_fragment_push_piece, lemma_find_fragment_push_all, law_from_pieces_slots_and_fragments, lemma_has_template_push_piece, lemma_has_template_push_all, is_normal, law_from_pieces_normal};
use crate::render::{Render, html_model};

verus! {

/// Gathers rendered html, and the slots and fragments of the markups pushed
/// into it, into one markup.
pub struct TemplateBuilder {
    /// The html written since the last template part.
    pub current: String,
    pub(crate) parts: Vec<MarkupPart>,
}



impl TemplateBuilder {
    /// The html written since the last template part.
    pub closed spec fn text(&self) -> Seq<char> {
        self.current@
    }

    /// The template parts gathered before `current`.
    pub closed spec fn pieces(&self) -> Seq<Piece> {
        parts_model(self.parts@)
    }

    /// Everything gathered so far: the template parts, then `current`.
    pub open spec fn content(&self) -> Seq<Piece> {
        push_piece(self.pieces(), Piece::Text(self.text()))
    }

    /// This builder is `before` with markup `m` pushed into it.
    pub open spec fn pushed(self, before: TemplateBuilder, m: MarkupModel) -> bool {
        match m.template {
            None => self.text() == before.text() + m.html && self.pieces() == before.pieces(),
            Some(t) => self.text() == Seq::<char>::empty() && self.pieces() == push_all(
                push_piece(before.pieces(), Piece::Text(before.text())),
                t,
            ),
        }
    }

    /// The text of a builder is what its field `current` holds, and its
    /// pieces are those of its parts, so that writing into `current` leaves
    /// the pieces as they were. (Outside this crate the fields cannot be read
    /// in specifications: the private `parts` makes the struct opaque there.)
    pub(crate) proof fn lemma_fields(b: TemplateBuilder)
        ensures
            b.text() == b.current@,
            b.pieces() == parts_model(b.parts@),
    {
    }

    /// An empty builder.
    pub fn new() -> (b: Self)
        ensures
            b.text() == Seq::<char>::empty(),
            b.pieces() == Seq::<Piece>::empty(),
    {
        let parts: Vec<MarkupPart> = Vec::new();
        TemplateBuilder { current: String::new(), parts }
    }

    /// Renders `value` into this builder.
    pub fn push_render<T: Render + ?Sized>(&mut self, value: &T)
        requires
            value.render_ok(None),
        ensures
            final(self).pushed(*old(self), value.rendered(None)),
    {
        value.render_into_builder(self);
    }

    /// Appends `markup`, keeping its slots and fragments: the content
    /// renders to what it rendered before followed by the markup's html,
    /// gains the markup's slots, and finds each fragment where it found it
    /// before, or else in the markup.
    pub fn push_markup(&mut self, markup: &Markup)
        ensures
            final(self).pushed(*old(self), markup@),
            render_pieces(final(self).content()) == render_pieces(old(self).content()) + markup@.html,
            has_slot(final(self).content()) == (has_slot(old(self).content()) || markup@.accepts_children()),
            has_template(final(self).pieces()) == (has_template(old(self).pieces()) || markup@.template is Some),
            forall|name: Seq<char>| #[trigger] find_fragment(final(self).content(), name) == match find_fragment(old(self).content(), name) {
                Some(body) => Some(body),
                None => match markup@.template {
                    Some(t) => find_fragment(t, name),
                    None => None,
                },
            },
    {
        let templated = markup.has_template();
        if !templated {
            self.current.append(markup.as_str());
        } else {
            self.flush_current();
            markup.append_parts_to(&mut self.parts);
        }
        proof {
            if let Some(t) = markup@.template {
                let before = old(self).pieces();
                lemma_has_template_push_piece(before, Piece::Text(old(self).text()));
                lemma_has_template_push_all(push_piece(before, Piece::Text(old(self).text())), t);
            }
            lemma_wf(*markup);
            law_push_markup_appends(*old(self), *self, markup@);
            law_push_keeps_slots_and_fragments(*old(self), *self, markup@);
        }
    }

    /// The markup gathered.
    pub fn finish(self) -> (m: Markup)
        ensures
            m@ == from_pieces(self.content()),
            m@.html == render_pieces(self.pieces()) + self.text(),
            self.pieces().len() == 0 ==> m@ == (MarkupModel { html: self.text(), template: None }),
            (m@.template is Some) == has_template(self.pieces()),
            m@.template matches Some(t) ==> is_normal(t),
            m@.accepts_children() == has_slot(self.content()),
            forall|name: Seq<char>| #![trigger m@.fragment(name)]
                (m@.fragment(name) is Some) == (find_fragment(self.content(), name) is Some)
                && (find_fragment(self.content(), name) matches Some(body) ==> m@.fragment(name).unwrap().html
                    == render_pieces(body)),
    {
        proof {
            lemma_render_push_piece(self.pieces(), Piece::Text(self.text()));
            assert forall|name: Seq<char>| #![trigger from_pieces(self.content()).fragment(name)]
                (from_pieces(self.content()).fragment(name) is Some) == (find_fragment(self.content(), name) is Some)
                && (find_fragment(self.content(), name) matches Some(body) ==> from_pieces(self.content()).fragment(name).unwrap().html
                    == render_pieces(body)) by {
                law_from_pieces_slots_and_fragments(self.content(), name);
            }
            law_from_pieces_slots_and_fragments(self.content(), Seq::empty());
            lemma_has_template_push_piece(self.pieces(), Piece::Text(self.text()));
            law_from_pieces_normal(self.content());
        }
        let mut this = self;
        if this.parts.len() == 0 {
            proof {
                assert(this.parts@ == Seq::<MarkupPart>::empty());
                assert(this.pieces() == Seq::<Piece>::empty());
                assert(render_pieces(Seq::<Piece>::empty()) == Seq::<char>::empty());
                assert(!has_template(Seq::<Piece>::empty()));
                if this.current@.len() > 0 {
                    lemma_single(Piece::Text(this.current@));
                    assert(Seq::<Piece>::empty().push(Piece::Text(this.current@)) == seq![Piece::Text(this.current@)]);
                } else {
                    assert(this.current@ == Seq::<char>::empty());
                }
                assert(this.content() == push_piece(Seq::<Piece>::empty(), Piece::Text(this.current@)));
            }
            return Markup::from_html(this.current);
        }
        this.flush_current();
        Markup::from_parts(this.parts)
    }

    /// Appends `text` escaped for the body of an element.
    pub(crate) fn push_escaped(&mut self, text: &str)
        ensures
            final(self).pushed(*old(self), html_model(escape_text(text@))),
    {
        escape_text_into(text, &mut self.current);
    }

    /// Appends the decimal form of a signed integer.
    pub(crate) fn push_signed(&mut self, n: i128)
        ensures
            final(self).pushed(*old(self), html_model(decimal(n as int))),
    {
        push_signed(&mut self.current, n);
    }

    /// Appends the decimal form of an unsigned integer.
    pub(crate) fn push_unsigned(&mut self, n: u128)
        ensures
            final(self).pushed(*old(self), html_model(decimal(n as int))),
    {
        push_unsigned(&mut self.current, n);
    }

    /// Appends `true` or `false`.
    pub(crate) fn push_bool(&mut self, b: bool)
        ensures
            final(self).pushed(*old(self), html_model(bool_text(b))),
    {
        push_bool(&mut self.current, b);
    }

    fn flush_current(&mut self)
        ensures
            final(self).text() == Seq::<char>::empty(),
            final(self).pieces() == push_piece(old(self).pieces(), Piece::Text(old(self).text())),
    {
        let mut current = String::new();
        std::mem::swap(&mut current, &mut self.current);
        push_markup_part(&mut self.parts, MarkupPart::Html(current));
    }
}

/// Pushing markup into a builder adds its slots, and finds each fragment
/// where the builder found it before, or else in the markup.
pub proof fn law_push_keeps_slots_and_fragments(before: TemplateBuilder, after: TemplateBuilder, m: MarkupModel)
    requires
        after.pushed(before, m),
    ensures
        has_slot(after.content()) == (has_slot(before.content()) || m.accepts_children()),
        forall|name: Seq<char>| #[trigger] find_fragment(after.content(), name) == match find_fragment(before.content(), name) {
            Some(body) => Some(body),
            None => match m.template {
                Some(t) => find_fragment(t, name),
                None => None,
            },
        },
{
    let pb = before.pieces();
    lemma_has_slot_push_piece(pb, Piece::Text(before.text()));
    lemma_has_slot_push_piece(after.pieces(), Piece::Text(after.text()));
    match m.template {
        None => {
            assert forall|name: Seq<char>| #[trigger] find_fragment(after.content(), name) == find_fragment(before.content(), name) by {
                lemma_find_fragment_push_piece(pb, Piece::Text(before.text()), name);
                lemma_find_fragment_push_piece(pb, Piece::Text(after.text()), name);
            }
        },
        Some(t) => {
            assert(after.content() == after.pieces());
            assert(after.pieces() == push_all(before.content(), t));
            lemma_has_slot_push_all(before.content(), t);
            assert forall|name: Seq<char>| #[trigger] find_fragment(after.content(), name) == match find_fragment(before.content(), name) {
                Some(body) => Some(body),
                None => find_fragment(t, name),
            } by {
                lemma_find_fragment_push_all(before.content(), t, name);
            }
        },
    }
}

/// Pushing markup into a builder appends its html: the builder's content
/// renders to what it rendered before, followed by the markup's html.
pub proof fn law_push_markup_appends(before: TemplateBuilder, after: TemplateBuilder, m: MarkupModel)
    requires
        m.wf(),
        after.pushed(before, m),
    ensures
        render_pieces(after.content()) == render_pieces(before.content()) + m.html,
{
    law_push_appends_html(before.pieces(), before.text(), after.pieces(), after.text(), m);
}

impl Default for TemplateBuilder {
    fn default() -> (b: Self)
        ensures
            b.text() == Seq::<char>::empty(),
            b.pieces() == Seq::<Piece>::empty(),
    {
        Self::new()
    }
}

/// What `value` renders to.
pub fn render<T: Render + ?Sized>(value: &T, children: Option<Markup>) -> (m: Markup)
    requires
        value.render_ok(crate::render::children_model(children)),
    ensures
        m@ == value.rendered(crate::render::children_model(children)),
{
    value.render(children)
}

/// `<` then the tag name.
pub open spec fn start_tag_text(tag: Seq<char>) -> Seq<char> {
    seq!['<'] + tag
}

/// `</`, the tag name, then `>`.
pub open spec fn end_tag_text(tag: Seq<char>) -> Seq<char> {
    seq!['<', '/'] + tag + seq!['>']
}

/// Appends the start of a start tag, `<` and the name, for a name checked
/// to be a valid tag name.
pub fn push_start_tag(out: &mut String, tag: &str)
    requires
        valid_tag_name(tag@),
    ensures
        final(out)@ == old(out)@ + start_tag_text(tag@),
{
    push_start_tag_static(out, tag);
}

/// Appends the start of a start tag, for a name known to be valid.
pub fn push_start_tag_static(out: &mut String, tag: &str)
    ensures
        final(out)@ == old(out)@ + start_tag_text(tag@),
{
    push_char(out, '<');
    out.append(tag);
    assert(old(out)@.push('<') + tag@ == old(out)@ + start_tag_text(tag@));
}

/// Closes a start tag with `>`.
pub fn finish_start_tag(out: &mut String)
    ensures
        final(out)@ == old(out)@.push('>'),
{
    push_char(out, '>');
}

/// Closes the start tag of a void element, which must be one.
pub fn finish_void_tag(out: &mut String, tag: &str)
    requires
        is_void_tag_name(tag@),
    ensures
        final(out)@ == old(out)@.push('>'),
{
    push_char(out, '>');
}

/// Closes the start tag of a void element, which must be one; the tag name
/// is known to be valid.
pub fn finish_void_tag_static(out: &mut String, tag: &str)
    requires
        is_void_tag_name(tag@),
    ensures
        final(out)@ == old(out)@.push('>'),
{
    push_char(out, '>');
}

/// Appends an end tag, for a name checked to be a valid tag name.
pub fn push_end_tag(out: &mut String, tag: &str)
    requires
        valid_tag_name(tag@),
    ensures
        final(out)@ == old(out)@ + end_tag_text(tag@),
{
    push_end_tag_static(out, tag);
}

/// Appends an end tag, for a name known to be valid.
pub fn push_end_tag_static(out: &mut String, tag: &str)
    ensures
        final(out)@ == old(out)@ + end_tag_text(tag@),
{
    push_char(out, '<');
    push_char(out, '/');
    out.append(tag);
    push_char(out, '>');
    assert((old(out)@.push('<').push('/') + tag@).push('>') == old(out)@ + end_tag_text(tag@));
}

/// Whether an attribute with a name from `name` and this value can be
/// rendered: where a name is given and something is rendered, the name must
/// be valid.
pub open spec fn attr_ok<V: AttributeValue + ?Sized>(name: Option<Seq<char>>, value: &V) -> bool {
    match name {
        Some(n) => value.renders_attr() ==> valid_attr_name(n),
        None => true,
    }
}

/// What an attribute with a name from `name` and this value renders to.
pub open spec fn attr_out<V: AttributeValue + ?Sized>(name: Option<Seq<char>>, value: &V) -> Seq<char> {
    match name {
        Some(n) => value.attr_out(n),
        None => Seq::empty(),
    }
}

/// Appends the attribute `name`=`value`; nothing when there is no name.
pub fn push_attr<N: AttributeName + ?Sized, V: AttributeValue + ?Sized>(
    out: &mut String,
    name: &N,
    value: &V,
)
    requires
        attr_ok(name.name_view(), value),
    ensures
        final(out)@ == old(out)@ + attr_out(name.name_view(), value),
{
    match name.attr_name() {
        Some(n) => value.render_attr_into(out, n),
        None => {
            assert(old(out)@ + Seq::<char>::empty() == old(out)@);
        },
    }
}

/// Appends attribute `name`=`value` for a name known to be valid.
pub fn push_static_attr<V: AttributeValue + ?Sized>(out: &mut String, name: &str, value: &V)
    requires
        value.renders_attr() ==> valid_attr_name(name@),
    ensures
        final(out)@ == old(out)@ + value.attr_out(name@),
{
    value.render_static_attr_into(out, name);
}

/// What a boolean attribute with a name from `name` renders to.
pub open spec fn bool_attr_out(name: Option<Seq<char>>) -> Seq<char> {
    match name {
        Some(n) => bool_attr_text(n),
        None => Seq::empty(),
    }
}

/// Appends the boolean attribute `name`; nothing when there is no name.
pub fn push_bool_attr<N: AttributeName + ?Sized>(out: &mut String, name: &N)
    requires
        name.name_view() matches Some(n) ==> valid_attr_name(n),
    ensures
        final(out)@ == old(out)@ + bool_attr_out(name.name_view()),
{
    match name.attr_name() {
        Some(n) => push_boolean_attr(out, n),
        None => {
            assert(old(out)@ + Seq::<char>::empty() == old(out)@);
        },
    }
}

/// Appends the boolean attribute `name`, a name known to be valid.
pub fn push_static_bool_attr(out: &mut String, name: &str)
    ensures
        final(out)@ == old(out)@ + bool_attr_text(name@),
{
    push_char(out, ' ');
    out.append(name);
    assert(old(out)@.push(' ') + name@ == old(out)@ + bool_attr_text(name@));
}

/// Appends a collection of attributes.
pub fn push_attrs<A: Attributes + ?Sized>(out: &mut String, attrs: &A)
    requires
        attrs.attrs_ok(),
    ensures
        attrs.renders_to(old(out)@, final(out)@),
{
    attrs.render_attrs_into(out);
}

/// The class list `classes` with `class` added, separated by a space;
/// empty classes are left out.
pub open spec fn add_class(classes: Seq<char>, class: Seq<char>) -> Seq<char> {
    if class.len() == 0 {
        classes
    } else if classes.len() == 0 {
        class
    } else {
        classes + seq![' '] + class
    }
}

/// Adds the class text of `value` to a space separated class list.
pub fn push_class_value<V: ClassValue + ?Sized>(classes: &mut String, value: &V)
    ensures
        final(classes)@ == add_class(old(classes)@, value.class_text()),
{
    let mut class = String::new();
    value.render_class_into(&mut class);
    assert(class@ == Seq::<char>::empty() + value.class_text());
    if !class.as_str().is_empty() {
        if !classes.as_str().is_empty() {
            push_char(classes, ' ');
        }
        classes.append(class.as_str());
        assert(old(classes)@.push(' ') + class@ == old(classes)@ + seq![' '] + class@);
    }
}

/// What a class list renders to: nothing when empty, else ` class="…"`.
pub open spec fn class_attr_text(classes: Seq<char>) -> Seq<char> {
    if classes.len() == 0 {
        Seq::empty()
    } else {
        attr_text(seq!['c', 'l', 'a', 's', 's'], escape_attr(classes))
    }
}

/// Appends the `class` attribute for a class list, unless it is empty.
pub fn push_class_attr(out: &mut String, classes: &str)
    ensures
        final(out)@ == old(out)@ + class_attr_text(classes@),
{
    if !classes.is_empty() {
        proof {
            reveal_strlit(" class=\"");
        }
        out.append(" class=\"");
        escape_attr_value_into(classes, out);
        push_char(out, '"');
        assert((old(out)@ + " class=\""@ + escape_attr(classes@)).push('"') == old(out)@ + class_attr_text(classes@));
    } else {
        assert(old(out)@ + Seq::<char>::empty() == old(out)@);
    }
}

/// Writes one class value, escaped for an attribute, into `out`; returns
/// whether anything was written.
pub fn push_class_direct<V: ClassValue + ?Sized>(out: &mut String, value: &V) -> (wrote: bool)
    ensures
        final(out)@ == old(out)@ + escape_attr(value.class_text()),
        wrote == (value.class_text().len() > 0),
{
    let mut class = String::new();
    value.render_class_attr_into(&mut class);
    assert(class@ == Seq::<char>::empty() + escape_attr(value.class_text()));
    proof {
        lemma_escape_empty(value.class_text(), true);
    }
    out.append(class.as_str());
    !class.as_str().is_empty()
}

/// Where the last space in a text is, if there is one.
pub open spec fn last_space(s: Seq<char>) -> Option<int>
    decreases s.len(),
{
    if s.len() == 0 {
        None
    } else if s.last() == ' ' {
        Some(s.len() - 1)
    } else {
        last_space(s.drop_last())
    }
}

/// The words of a text: its runs of characters other than a space, in
/// order, with no empty word.
pub open spec fn words(s: Seq<char>) -> Seq<Seq<char>>
    decreases s.len(),
{
    match last_space(s) {
        None => if s.len() == 0 {
            Seq::empty()
        } else {
            seq![s]
        },
        Some(i) => if 0 <= i < s.len() {
            let rest = s.subrange(i + 1, s.len() as int);
            words(s.subrange(0, i)) + if rest.len() == 0 {
                Seq::<Seq<char>>::empty()
            } else {
                seq![rest]
            }
        } else {
            Seq::empty()
        },
    }
}

/// A text with no space in it.
pub open spec fn spaceless(s: Seq<char>) -> bool {
    forall|i: int| 0 <= i < s.len() ==> s[i] != ' '
}

proof fn lemma_last_space_after(l: Seq<char>, c: Seq<char>)
    requires
        spaceless(c),
    ensures
        last_space(l + seq![' '] + c) == Some(l.len() as int),
        last_space(c) is None,
    decreases c.len(),
{
    let t = l + seq![' '] + c;
    if c.len() == 0 {
        assert(t.last() == ' ');
    } else {
        assert(t.last() == c.last());
        assert(t.drop_last() == l + seq![' '] + c.drop_last());
        lemma_last_space_after(l, c.drop_last());
    }
}

/// Adding a class to a class list adds it as the list's last word and
/// changes nothing before it; an empty class adds nothing. So a list built
/// from spaceless classes reads back, word by word, as the classes that
/// were not empty, in the order they were added.
pub proof fn law_add_class_words(classes: Seq<char>, class: Seq<char>)
    requires
        spaceless(class),
    ensures
        words(add_class(classes, class)) == words(classes) + if class.len() == 0 {
            Seq::<Seq<char>>::empty()
        } else {
            seq![class]
        },
{
    lemma_last_space_after(classes, class);
    if class.len() == 0 {
        assert(words(classes) + Seq::<Seq<char>>::empty() == words(classes));
    } else if classes.len() == 0 {
        assert(Seq::<Seq<char>>::empty() + seq![class] == seq![class]);
        assert(words(Seq::<char>::empty()) == Seq::<Seq<char>>::empty());
    } else {
        let t = classes + seq![' '] + class;
        assert(t.subrange(0, classes.len() as int) == classes);
        assert(t.subrange(classes.len() + 1int, t.len() as int) == class);
    }
}

} // verus!
