use vstd::prelude::*;
use vstd::string::StringExecFns;
use std::borrow::Cow;
use std::collections::BTreeMap;
use std::collections::HashMap;
use vstd::std_specs::btree::{key_obeys_cmp_spec, increasing_seq};
use vstd::std_specs::hash::{obeys_key_model, builds_valid_hashers};
use vstd::std_specs::iter::{IteratorSpec, VerusForLoopWrapper};
use crate::html::{numeral_value, law_decimal_reads_back, unescape, law_unescape_escape, escape_attr, valid_attr_name, is_valid_attr_name, escape_attr_value_into, decimal, bool_text, push_signed, push_unsigned, push_bool, push_char};
use crate::markup::Markup;
use crate::template::{push_attr, push_bool_attr, attr_ok, attr_out, bool_attr_out};


verus! {

/// ` name="value"`: an attribute with a value that is already escaped.
pub open spec fn attr_text(name: Seq<char>, value: Seq<char>) -> Seq<char> {
    seq![' '] + name + seq!['=', '"'] + value + seq!['"']
}

/// ` name`: a boolean attribute.
pub open spec fn bool_attr_text(name: Seq<char>) -> Seq<char> {
    seq![' '] + name
}

/// Provides at most one HTML attribute name.
///
/// `Option<T>` provides no name when it is `None`.
pub trait AttributeName {
    /// The name provided, if any; nothing is known of it by default.
    closed spec fn name_view(&self) -> Option<Seq<char>> {
        arbitrary()
    }

    /// The attribute name represented by this value, if any.
    fn attr_name(&self) -> (r: Option<&str>)
        ensures
            match r {
                Some(n) => self.name_view() == Some(n@),
                None => self.name_view() is None,
            },
    ;
}

impl<T: AttributeName + ?Sized> AttributeName for &T {
    open spec fn name_view(&self) -> Option<Seq<char>> {
        (**self).name_view()
    }

    fn attr_name(&self) -> (r: Option<&str>) {
        (**self).attr_name()
    }
}

impl AttributeName for str {
    open spec fn name_view(&self) -> Option<Seq<char>> {
        Some(self@)
    }

    fn attr_name(&self) -> (r: Option<&str>) {
        Some(self)
    }
}

impl AttributeName for String {
    open spec fn name_view(&self) -> Option<Seq<char>> {
        Some(self@)
    }

    fn attr_name(&self) -> (r: Option<&str>) {
        Some(self.as_str())
    }
}

impl AttributeName for Cow<'_, str> {
    open spec fn name_view(&self) -> Option<Seq<char>> {
        Some(self@)
    }

    fn attr_name(&self) -> (r: Option<&str>) {
        match self {
            Cow::Borrowed(name) => Some(name),
            Cow::Owned(name) => Some(name.as_str()),
        }
    }
}

impl<T: AttributeName> AttributeName for Option<T> {
    open spec fn name_view(&self) -> Option<Seq<char>> {
        match self {
            Some(v) => v.name_view(),
            None => None,
        }
    }

    fn attr_name(&self) -> (r: Option<&str>) {
        match self {
            Some(v) => v.attr_name(),
            None => None,
        }
    }
}

/// Renders a Rust value as an HTML attribute value.
///
/// Strings and `Markup` are escaped for attribute context, booleans render as
/// boolean attributes, and `Option<T>` skips the attribute when it is `None`.
pub trait AttributeValue {
    /// Whether anything is rendered; the name is checked just then.
    open spec fn renders_attr(&self) -> bool {
        true
    }

    /// What is appended for attribute `name`; nothing is known of it by
    /// default.
    closed spec fn attr_out(&self, name: Seq<char>) -> Seq<char> {
        arbitrary()
    }

    /// Appends this value as attribute `name` into `out`; the name must be
    /// valid when something is rendered.
    fn render_attr_into(&self, out: &mut String, name: &str)
        requires
            self.renders_attr() ==> valid_attr_name(name@),
        ensures
            final(out)@ == old(out)@ + self.attr_out(name@),
    ;

    /// Appends this value as attribute `name`, a name known to be valid.
    fn render_static_attr_into(&self, out: &mut String, name: &str)
        requires
            self.renders_attr() ==> valid_attr_name(name@),
        ensures
            final(out)@ == old(out)@ + self.attr_out(name@),
    {
        self.render_attr_into(out, name);
    }
}

impl<T: AttributeValue + ?Sized> AttributeValue for &T {
    open spec fn renders_attr(&self) -> bool {
        (**self).renders_attr()
    }

    open spec fn attr_out(&self, name: Seq<char>) -> Seq<char> {
        (**self).attr_out(name)
    }

    fn render_attr_into(&self, out: &mut String, name: &str) {
        (**self).render_attr_into(out, name);
    }

    fn render_static_attr_into(&self, out: &mut String, name: &str) {
        (**self).render_static_attr_into(out, name);
    }
}

impl AttributeValue for bool {
    open spec fn renders_attr(&self) -> bool {
        *self
    }

    open spec fn attr_out(&self, name: Seq<char>) -> Seq<char> {
        if *self {
            bool_attr_text(name)
        } else {
            Seq::empty()
        }
    }

    fn render_attr_into(&self, out: &mut String, name: &str) {
        if *self {
            push_boolean_attr(out, name);
        } else {
            assert(old(out)@ + Seq::<char>::empty() == old(out)@);
        }
    }

    fn render_static_attr_into(&self, out: &mut String, name: &str) {
        if *self {
            push_char(out, ' ');
            out.append(name);
            assert(old(out)@.push(' ') + name@ == old(out)@ + bool_attr_text(name@));
        } else {
            assert(old(out)@ + Seq::<char>::empty() == old(out)@);
        }
    }
}

impl<T: AttributeValue> AttributeValue for Option<T> {
    open spec fn renders_attr(&self) -> bool {
        match self {
            Some(v) => v.renders_attr(),
            None => false,
        }
    }

    open spec fn attr_out(&self, name: Seq<char>) -> Seq<char> {
        match self {
            Some(v) => v.attr_out(name),
            None => Seq::empty(),
        }
    }

    fn render_attr_into(&self, out: &mut String, name: &str) {
        match self {
            Some(v) => v.render_attr_into(out, name),
            None => {
                assert(old(out)@ + Seq::<char>::empty() == old(out)@);
            },
        }
    }

    fn render_static_attr_into(&self, out: &mut String, name: &str) {
        match self {
            Some(v) => v.render_static_attr_into(out, name),
            None => {
                assert(old(out)@ + Seq::<char>::empty() == old(out)@);
            },
        }
    }
}

impl AttributeValue for Markup {
    open spec fn renders_attr(&self) -> bool {
        true
    }

    open spec fn attr_out(&self, name: Seq<char>) -> Seq<char> {
        attr_text(name, escape_attr(self@.html))
    }

    fn render_attr_into(&self, out: &mut String, name: &str) {
        push_str_attr(out, name, self.as_str());
    }

    fn render_static_attr_into(&self, out: &mut String, name: &str) {
        push_str_attr_unchecked(out, name, self.as_str());
    }
}

impl AttributeValue for str {
    open spec fn renders_attr(&self) -> bool {
        true
    }

    open spec fn attr_out(&self, name: Seq<char>) -> Seq<char> {
        attr_text(name, escape_attr(self@))
    }

    fn render_attr_into(&self, out: &mut String, name: &str) {
        push_str_attr(out, name, self);
    }

    fn render_static_attr_into(&self, out: &mut String, name: &str) {
        push_str_attr_unchecked(out, name, self);
    }
}

impl AttributeValue for String {
    open spec fn renders_attr(&self) -> bool {
        true
    }

    open spec fn attr_out(&self, name: Seq<char>) -> Seq<char> {
        attr_text(name, escape_attr(self@))
    }

    fn render_attr_into(&self, out: &mut String, name: &str) {
        self.as_str().render_attr_into(out, name);
    }

    fn render_static_attr_into(&self, out: &mut String, name: &str) {
        push_str_attr_unchecked(out, name, self.as_str());
    }
}

impl AttributeValue for Cow<'_, str> {
    open spec fn renders_attr(&self) -> bool {
        true
    }

    open spec fn attr_out(&self, name: Seq<char>) -> Seq<char> {
        attr_text(name, escape_attr(self@))
    }

    fn render_attr_into(&self, out: &mut String, name: &str) {
        push_str_attr(out, name, cow_str(self));
    }

    fn render_static_attr_into(&self, out: &mut String, name: &str) {
        push_str_attr_unchecked(out, name, cow_str(self));
    }
}

impl AttributeValue for char {
    open spec fn renders_attr(&self) -> bool {
        true
    }

    open spec fn attr_out(&self, name: Seq<char>) -> Seq<char> {
        attr_text(name, escape_attr(seq![*self]))
    }

    fn render_attr_into(&self, out: &mut String, name: &str) {
        let mut buffer = String::new();
        push_char(&mut buffer, *self);
        push_str_attr(out, name, buffer.as_str());
    }

    fn render_static_attr_into(&self, out: &mut String, name: &str) {
        let mut buffer = String::new();
        push_char(&mut buffer, *self);
        push_str_attr_unchecked(out, name, buffer.as_str());
    }
}

impl AttributeValue for i8 {
    open spec fn renders_attr(&self) -> bool {
        true
    }

    open spec fn attr_out(&self, name: Seq<char>) -> Seq<char> {
        attr_text(name, decimal(*self as int))
    }

    fn render_attr_into(&self, out: &mut String, name: &str) {
        push_attr_prefix(out, name);
        push_signed(out, *self as i128);
        close_attr(out);
    }

    fn render_static_attr_into(&self, out: &mut String, name: &str) {
        push_attr_prefix_unchecked(out, name);
        push_signed(out, *self as i128);
        close_attr(out);
    }
}

impl AttributeValue for i16 {
    open spec fn renders_attr(&self) -> bool {
        true
    }

    open spec fn attr_out(&self, name: Seq<char>) -> Seq<char> {
        attr_text(name, decimal(*self as int))
    }

    fn render_attr_into(&self, out: &mut String, name: &str) {
        push_attr_prefix(out, name);
        push_signed(out, *self as i128);
        close_attr(out);
    }

    fn render_static_attr_into(&self, out: &mut String, name: &str) {
        push_attr_prefix_unchecked(out, name);
        push_signed(out, *self as i128);
        close_attr(out);
    }
}

impl AttributeValue for i32 {
    open spec fn renders_attr(&self) -> bool {
        true
    }

    open spec fn attr_out(&self, name: Seq<char>) -> Seq<char> {
        attr_text(name, decimal(*self as int))
    }

    fn render_attr_into(&self, out: &mut String, name: &str) {
        push_attr_prefix(out, name);
        push_signed(out, *self as i128);
        close_attr(out);
    }

    fn render_static_attr_into(&self, out: &mut String, name: &str) {
        push_attr_prefix_unchecked(out, name);
        push_signed(out, *self as i128);
        close_attr(out);
    }
}

impl AttributeValue for i64 {
    open spec fn renders_attr(&self) -> bool {
        true
    }

    open spec fn attr_out(&self, name: Seq<char>) -> Seq<char> {
        attr_text(name, decimal(*self as int))
    }

    fn render_attr_into(&self, out: &mut String, name: &str) {
        push_attr_prefix(out, name);
        push_signed(out, *self as i128);
        close_attr(out);
    }

    fn render_static_attr_into(&self, out: &mut String, name: &str) {
        push_attr_prefix_unchecked(out, name);
        push_signed(out, *self as i128);
        close_attr(out);
    }
}

impl AttributeValue for i128 {
    open spec fn renders_attr(&self) -> bool {
        true
    }

    open spec fn attr_out(&self, name: Seq<char>) -> Seq<char> {
        attr_text(name, decimal(*self as int))
    }

    fn render_attr_into(&self, out: &mut String, name: &str) {
        push_attr_prefix(out, name);
        push_signed(out, *self as i128);
        close_attr(out);
    }

    fn render_static_attr_into(&self, out: &mut String, name: &str) {
        push_attr_prefix_unchecked(out, name);
        push_signed(out, *self as i128);
        close_attr(out);
    }
}

impl AttributeValue for isize {
    open spec fn renders_attr(&self) -> bool {
        true
    }

    open spec fn attr_out(&self, name: Seq<char>) -> Seq<char> {
        attr_text(name, decimal(*self as int))
    }

    fn render_attr_into(&self, out: &mut String, name: &str) {
        push_attr_prefix(out, name);
        push_signed(out, *self as i128);
        close_attr(out);
    }

    fn render_static_attr_into(&self, out: &mut String, name: &str) {
        push_attr_prefix_unchecked(out, name);
        push_signed(out, *self as i128);
        close_attr(out);
    }
}

impl AttributeValue for u8 {
    open spec fn renders_attr(&self) -> bool {
        true
    }

    open spec fn attr_out(&self, name: Seq<char>) -> Seq<char> {
        attr_text(name, decimal(*self as int))
    }

    fn render_attr_into(&self, out: &mut String, name: &str) {
        push_attr_prefix(out, name);
        push_unsigned(out, *self as u128);
        close_attr(out);
    }

    fn render_static_attr_into(&self, out: &mut String, name: &str) {
        push_attr_prefix_unchecked(out, name);
        push_unsigned(out, *self as u128);
        close_attr(out);
    }
}

impl AttributeValue for u16 {
    open spec fn renders_attr(&self) -> bool {
        true
    }

    open spec fn attr_out(&self, name: Seq<char>) -> Seq<char> {
        attr_text(name, decimal(*self as int))
    }

    fn render_attr_into(&self, out: &mut String, name: &str) {
        push_attr_prefix(out, name);
        push_unsigned(out, *self as u128);
        close_attr(out);
    }

    fn render_static_attr_into(&self, out: &mut String, name: &str) {
        push_attr_prefix_unchecked(out, name);
        push_unsigned(out, *self as u128);
        close_attr(out);
    }
}

impl AttributeValue for u32 {
    open spec fn renders_attr(&self) -> bool {
        true
    }

    open spec fn attr_out(&self, name: Seq<char>) -> Seq<char> {
        attr_text(name, decimal(*self as int))
    }

    fn render_attr_into(&self, out: &mut String, name: &str) {
        push_attr_prefix(out, name);
        push_unsigned(out, *self as u128);
        close_attr(out);
    }

    fn render_static_attr_into(&self, out: &mut String, name: &str) {
        push_attr_prefix_unchecked(out, name);
        push_unsigned(out, *self as u128);
        close_attr(out);
    }
}

impl AttributeValue for u64 {
    open spec fn renders_attr(&self) -> bool {
        true
    }

    open spec fn attr_out(&self, name: Seq<char>) -> Seq<char> {
        attr_text(name, decimal(*self as int))
    }

    fn render_attr_into(&self, out: &mut String, name: &str) {
        push_attr_prefix(out, name);
        push_unsigned(out, *self as u128);
        close_attr(out);
    }

    fn render_static_attr_into(&self, out: &mut String, name: &str) {
        push_attr_prefix_unchecked(out, name);
        push_unsigned(out, *self as u128);
        close_attr(out);
    }
}

impl AttributeValue for u128 {
    open spec fn renders_attr(&self) -> bool {
        true
    }

    open spec fn attr_out(&self, name: Seq<char>) -> Seq<char> {
        attr_text(name, decimal(*self as int))
    }

    fn render_attr_into(&self, out: &mut String, name: &str) {
        push_attr_prefix(out, name);
        push_unsigned(out, *self as u128);
        close_attr(out);
    }

    fn render_static_attr_into(&self, out: &mut String, name: &str) {
        push_attr_prefix_unchecked(out, name);
        push_unsigned(out, *self as u128);
        close_attr(out);
    }
}

impl AttributeValue for usize {
    open spec fn renders_attr(&self) -> bool {
        true
    }

    open spec fn attr_out(&self, name: Seq<char>) -> Seq<char> {
        attr_text(name, decimal(*self as int))
    }

    fn render_attr_into(&self, out: &mut String, name: &str) {
        push_attr_prefix(out, name);
        push_unsigned(out, *self as u128);
        close_attr(out);
    }

    fn render_static_attr_into(&self, out: &mut String, name: &str) {
        push_attr_prefix_unchecked(out, name);
        push_unsigned(out, *self as u128);
        close_attr(out);
    }
}

/// Renders a Rust value into a `class` attribute segment.
///
/// `Option<T>` skips missing classes. Empty rendered segments are omitted.
pub trait ClassValue {
    /// The class text, before escaping; nothing is known of it by default.
    closed spec fn class_text(&self) -> Seq<char> {
        arbitrary()
    }

    /// Appends this class segment into `out`.
    fn render_class_into(&self, out: &mut String)
        ensures
            final(out)@ == old(out)@ + self.class_text(),
    ;

    /// Appends this class segment into `out` with HTML attribute escaping.
    fn render_class_attr_into(&self, out: &mut String)
        ensures
            final(out)@ == old(out)@ + escape_attr(self.class_text()),
    {
        let mut buf = String::new();
        self.render_class_into(&mut buf);
        assert(buf@ == Seq::<char>::empty() + self.class_text());
        escape_attr_value_into(buf.as_str(), out);
    }
}

impl<T: ClassValue + ?Sized> ClassValue for &T {
    open spec fn class_text(&self) -> Seq<char> {
        (**self).class_text()
    }

    fn render_class_into(&self, out: &mut String) {
        (**self).render_class_into(out);
    }

    fn render_class_attr_into(&self, out: &mut String) {
        (**self).render_class_attr_into(out);
    }
}

impl<T: ClassValue> ClassValue for Option<T> {
    open spec fn class_text(&self) -> Seq<char> {
        match self {
            Some(v) => v.class_text(),
            None => Seq::empty(),
        }
    }

    fn render_class_into(&self, out: &mut String) {
        match self {
            Some(v) => v.render_class_into(out),
            None => {
                assert(old(out)@ + Seq::<char>::empty() == old(out)@);
            },
        }
    }

    fn render_class_attr_into(&self, out: &mut String) {
        match self {
            Some(v) => v.render_class_attr_into(out),
            None => {
                assert(escape_attr(Seq::<char>::empty()) == Seq::<char>::empty());
                assert(old(out)@ + Seq::<char>::empty() == old(out)@);
            },
        }
    }
}

impl ClassValue for Markup {
    open spec fn class_text(&self) -> Seq<char> {
        self@.html
    }

    fn render_class_into(&self, out: &mut String) {
        out.append(self.as_str());
    }

    fn render_class_attr_into(&self, out: &mut String) {
        escape_attr_value_into(self.as_str(), out);
    }
}

impl ClassValue for str {
    open spec fn class_text(&self) -> Seq<char> {
        self@
    }

    fn render_class_into(&self, out: &mut String) {
        out.append(self);
    }

    fn render_class_attr_into(&self, out: &mut String) {
        escape_attr_value_into(self, out);
    }
}

impl ClassValue for String {
    open spec fn class_text(&self) -> Seq<char> {
        self@
    }

    fn render_class_into(&self, out: &mut String) {
        out.append(self.as_str());
    }

    fn render_class_attr_into(&self, out: &mut String) {
        escape_attr_value_into(self.as_str(), out);
    }
}

impl ClassValue for Cow<'_, str> {
    open spec fn class_text(&self) -> Seq<char> {
        self@
    }

    fn render_class_into(&self, out: &mut String) {
        out.append(cow_str(self));
    }

    fn render_class_attr_into(&self, out: &mut String) {
        escape_attr_value_into(cow_str(self), out);
    }
}

impl ClassValue for char {
    open spec fn class_text(&self) -> Seq<char> {
        seq![*self]
    }

    fn render_class_into(&self, out: &mut String) {
        push_char(out, *self);
        assert(old(out)@.push(*self) == old(out)@ + seq![*self]);
    }

    fn render_class_attr_into(&self, out: &mut String) {
        let mut buffer = String::new();
        push_char(&mut buffer, *self);
        assert(buffer@ == seq![*self]);
        escape_attr_value_into(buffer.as_str(), out);
    }
}

impl ClassValue for bool {
    open spec fn class_text(&self) -> Seq<char> {
        bool_text(*self)
    }

    fn render_class_into(&self, out: &mut String) {
        push_bool(out, *self);
    }
}

impl ClassValue for i8 {
    open spec fn class_text(&self) -> Seq<char> {
        decimal(*self as int)
    }

    fn render_class_into(&self, out: &mut String) {
        push_signed(out, *self as i128);
    }
}

impl ClassValue for i16 {
    open spec fn class_text(&self) -> Seq<char> {
        decimal(*self as int)
    }

    fn render_class_into(&self, out: &mut String) {
        push_signed(out, *self as i128);
    }
}

impl ClassValue for i32 {
    open spec fn class_text(&self) -> Seq<char> {
        decimal(*self as int)
    }

    fn render_class_into(&self, out: &mut String) {
        push_signed(out, *self as i128);
    }
}

impl ClassValue for i64 {
    open spec fn class_text(&self) -> Seq<char> {
        decimal(*self as int)
    }

    fn render_class_into(&self, out: &mut String) {
        push_signed(out, *self as i128);
    }
}

impl ClassValue for i128 {
    open spec fn class_text(&self) -> Seq<char> {
        decimal(*self as int)
    }

    fn render_class_into(&self, out: &mut String) {
        push_signed(out, *self as i128);
    }
}

impl ClassValue for isize {
    open spec fn class_text(&self) -> Seq<char> {
        decimal(*self as int)
    }

    fn render_class_into(&self, out: &mut String) {
        push_signed(out, *self as i128);
    }
}

impl ClassValue for u8 {
    open spec fn class_text(&self) -> Seq<char> {
        decimal(*self as int)
    }

    fn render_class_into(&self, out: &mut String) {
        push_unsigned(out, *self as u128);
    }
}

impl ClassValue for u16 {
    open spec fn class_text(&self) -> Seq<char> {
        decimal(*self as int)
    }

    fn render_class_into(&self, out: &mut String) {
        push_unsigned(out, *self as u128);
    }
}

impl ClassValue for u32 {
    open spec fn class_text(&self) -> Seq<char> {
        decimal(*self as int)
    }

    fn render_class_into(&self, out: &mut String) {
        push_unsigned(out, *self as u128);
    }
}

impl ClassValue for u64 {
    open spec fn class_text(&self) -> Seq<char> {
        decimal(*self as int)
    }

    fn render_class_into(&self, out: &mut String) {
        push_unsigned(out, *self as u128);
    }
}

impl ClassValue for u128 {
    open spec fn class_text(&self) -> Seq<char> {
        decimal(*self as int)
    }

    fn render_class_into(&self, out: &mut String) {
        push_unsigned(out, *self as u128);
    }
}

impl ClassValue for usize {
    open spec fn class_text(&self) -> Seq<char> {
        decimal(*self as int)
    }

    fn render_class_into(&self, out: &mut String) {
        push_unsigned(out, *self as u128);
    }
}

/// Renders a collection of HTML attributes.
///
/// Implemented for `BTreeMap` and `HashMap`, single pairs, arrays, slices
/// and vectors of pairs, and arrays, slices and vectors of boolean attribute
/// names.
pub trait Attributes {
    /// Whether every attribute of the collection can be rendered.
    open spec fn attrs_ok(&self) -> bool {
        true
    }

    /// What the collection renders to; nothing is known of it by default.
    closed spec fn attrs_out(&self) -> Seq<char> {
        arbitrary()
    }

    /// Whether `after` is `before` with the collection's attributes
    /// appended: by default, with `attrs_out` appended. A collection without
    /// a fixed order says which orders it may render in.
    open spec fn renders_to(&self, before: Seq<char>, after: Seq<char>) -> bool {
        after == before + self.attrs_out()
    }

    /// Appends all represented attributes into `out`.
    fn render_attrs_into(&self, out: &mut String)
        requires
            self.attrs_ok(),
        ensures
            self.renders_to(old(out)@, final(out)@),
    ;
}

impl<T: Attributes + ?Sized> Attributes for &T {
    open spec fn attrs_ok(&self) -> bool {
        (**self).attrs_ok()
    }

    open spec fn attrs_out(&self) -> Seq<char> {
        (**self).attrs_out()
    }

    open spec fn renders_to(&self, before: Seq<char>, after: Seq<char>) -> bool {
        (**self).renders_to(before, after)
    }

    fn render_attrs_into(&self, out: &mut String) {
        (**self).render_attrs_into(out);
    }
}

/// Whether each name, where there is one, is a valid attribute name.
pub open spec fn bool_names_ok<N: AttributeName>(names: Seq<N>) -> bool {
    forall|i: int| 0 <= i < names.len() ==> (#[trigger] names[i].name_view() matches Some(n) ==> valid_attr_name(n))
}

/// What a sequence of boolean attribute names renders to.
pub open spec fn bool_names_out<N: AttributeName>(names: Seq<N>) -> Seq<char>
    decreases names.len(),
{
    if names.len() == 0 {
        Seq::empty()
    } else {
        bool_names_out(names.drop_last()) + bool_attr_out(names.last().name_view())
    }
}

/// Whether each pair can be rendered.
pub open spec fn pairs_ok<K: AttributeName, V: AttributeValue>(pairs: Seq<(K, V)>) -> bool {
    forall|i: int| 0 <= i < pairs.len() ==> #[trigger] attr_ok(pairs[i].0.name_view(), &pairs[i].1)
}

/// What a sequence of name and value pairs renders to.
pub open spec fn pairs_out<K: AttributeName, V: AttributeValue>(pairs: Seq<(K, V)>) -> Seq<char>
    decreases pairs.len(),
{
    if pairs.len() == 0 {
        Seq::empty()
    } else {
        pairs_out(pairs.drop_last()) + attr_out(pairs.last().0.name_view(), &pairs.last().1)
    }
}

fn render_boolean_attrs<N: AttributeName>(out: &mut String, names: &[N])
    requires
        bool_names_ok(names@),
    ensures
        final(out)@ == old(out)@ + bool_names_out(names@),
{
    let mut i: usize = 0;
    while i < names.len()
        invariant
            i <= names@.len(),
            bool_names_ok(names@),
            out@ == old(out)@ + bool_names_out(names@.take(i as int)),
        decreases names@.len() - i,
    {
        proof {
            assert(names@.take(i + 1).drop_last() == names@.take(i as int));
            assert(names@.take(i + 1).last() == names@[i as int]);
        }
        let ghost before = out@;
        push_bool_attr(out, &names[i]);
        assert(out@ == old(out)@ + bool_names_out(names@.take(i as int)) + bool_attr_out(names@[i as int].name_view()));
        i = i + 1;
    }
    assert(names@.take(names@.len() as int) == names@);
}

fn render_attr_pairs<K: AttributeName, V: AttributeValue>(out: &mut String, pairs: &[(K, V)])
    requires
        pairs_ok(pairs@),
    ensures
        final(out)@ == old(out)@ + pairs_out(pairs@),
{
    let mut i: usize = 0;
    while i < pairs.len()
        invariant
            i <= pairs@.len(),
            pairs_ok(pairs@),
            out@ == old(out)@ + pairs_out(pairs@.take(i as int)),
        decreases pairs@.len() - i,
    {
        proof {
            assert(pairs@.take(i + 1).drop_last() == pairs@.take(i as int));
            assert(pairs@.take(i + 1).last() == pairs@[i as int]);
        }
        let pair = &pairs[i];
        assert(attr_ok(pair.0.name_view(), &pair.1));
        push_attr(out, &pair.0, &pair.1);
        assert(out@ == old(out)@ + pairs_out(pairs@.take(i as int)) + attr_out(pairs@[i as int].0.name_view(), &pairs@[i as int].1));
        i = i + 1;
    }
    assert(pairs@.take(pairs@.len() as int) == pairs@);
}

impl<K: AttributeName, V: AttributeValue> Attributes for (K, V) {
    open spec fn attrs_ok(&self) -> bool {
        attr_ok(self.0.name_view(), &self.1)
    }

    open spec fn attrs_out(&self) -> Seq<char> {
        attr_out(self.0.name_view(), &self.1)
    }

    fn render_attrs_into(&self, out: &mut String) {
        push_attr(out, &self.0, &self.1);
    }
}

impl<K: AttributeName, V: AttributeValue> Attributes for [(K, V)] {
    open spec fn attrs_ok(&self) -> bool {
        pairs_ok(self@)
    }

    open spec fn attrs_out(&self) -> Seq<char> {
        pairs_out(self@)
    }

    fn render_attrs_into(&self, out: &mut String) {
        render_attr_pairs(out, self);
    }
}

impl<K: AttributeName, V: AttributeValue, const N: usize> Attributes for [(K, V); N] {
    open spec fn attrs_ok(&self) -> bool {
        pairs_ok(self@)
    }

    open spec fn attrs_out(&self) -> Seq<char> {
        pairs_out(self@)
    }

    fn render_attrs_into(&self, out: &mut String) {
        render_attr_pairs(out, self.as_slice());
    }
}

impl<K: AttributeName, V: AttributeValue> Attributes for Vec<(K, V)> {
    open spec fn attrs_ok(&self) -> bool {
        pairs_ok(self@)
    }

    open spec fn attrs_out(&self) -> Seq<char> {
        pairs_out(self@)
    }

    fn render_attrs_into(&self, out: &mut String) {
        render_attr_pairs(out, self.as_slice());
    }
}

impl Attributes for [&str] {
    open spec fn attrs_ok(&self) -> bool {
        bool_names_ok(self@)
    }

    open spec fn attrs_out(&self) -> Seq<char> {
        bool_names_out(self@)
    }

    fn render_attrs_into(&self, out: &mut String) {
        render_boolean_attrs(out, self);
    }
}

impl<const N: usize> Attributes for [&str; N] {
    open spec fn attrs_ok(&self) -> bool {
        bool_names_ok(self@)
    }

    open spec fn attrs_out(&self) -> Seq<char> {
        bool_names_out(self@)
    }

    fn render_attrs_into(&self, out: &mut String) {
        render_boolean_attrs(out, self.as_slice());
    }
}

impl Attributes for Vec<&str> {
    open spec fn attrs_ok(&self) -> bool {
        bool_names_ok(self@)
    }

    open spec fn attrs_out(&self) -> Seq<char> {
        bool_names_out(self@)
    }

    fn render_attrs_into(&self, out: &mut String) {
        render_boolean_attrs(out, self.as_slice());
    }
}

impl Attributes for [String] {
    open spec fn attrs_ok(&self) -> bool {
        bool_names_ok(self@)
    }

    open spec fn attrs_out(&self) -> Seq<char> {
        bool_names_out(self@)
    }

    fn render_attrs_into(&self, out: &mut String) {
        render_boolean_attrs(out, self);
    }
}

impl<const N: usize> Attributes for [String; N] {
    open spec fn attrs_ok(&self) -> bool {
        bool_names_ok(self@)
    }

    open spec fn attrs_out(&self) -> Seq<char> {
        bool_names_out(self@)
    }

    fn render_attrs_into(&self, out: &mut String) {
        render_boolean_attrs(out, self.as_slice());
    }
}

impl Attributes for Vec<String> {
    open spec fn attrs_ok(&self) -> bool {
        bool_names_ok(self@)
    }

    open spec fn attrs_out(&self) -> Seq<char> {
        bool_names_out(self@)
    }

    fn render_attrs_into(&self, out: &mut String) {
        render_boolean_attrs(out, self.as_slice());
    }
}

impl Attributes for [Cow<'_, str>] {
    open spec fn attrs_ok(&self) -> bool {
        bool_names_ok(self@)
    }

    open spec fn attrs_out(&self) -> Seq<char> {
        bool_names_out(self@)
    }

    fn render_attrs_into(&self, out: &mut String) {
        render_boolean_attrs(out, self);
    }
}

impl<const N: usize> Attributes for [Cow<'_, str>; N] {
    open spec fn attrs_ok(&self) -> bool {
        bool_names_ok(self@)
    }

    open spec fn attrs_out(&self) -> Seq<char> {
        bool_names_out(self@)
    }

    fn render_attrs_into(&self, out: &mut String) {
        render_boolean_attrs(out, self.as_slice());
    }
}

impl Attributes for Vec<Cow<'_, str>> {
    open spec fn attrs_ok(&self) -> bool {
        bool_names_ok(self@)
    }

    open spec fn attrs_out(&self) -> Seq<char> {
        bool_names_out(self@)
    }

    fn render_attrs_into(&self, out: &mut String) {
        render_boolean_attrs(out, self.as_slice());
    }
}

/// The text of a `Cow<str>`.
fn cow_str<'a>(value: &'a Cow<'_, str>) -> (r: &'a str)
    ensures
        r@ == value@,
{
    match value {
        Cow::Borrowed(s) => s,
        Cow::Owned(s) => s.as_str(),
    }
}

/// Appends ` name="`, for a name known to be valid.
fn push_attr_prefix_unchecked(out: &mut String, name: &str)
    ensures
        final(out)@ == old(out)@ + seq![' '] + name@ + seq!['=', '"'],
{
    push_char(out, ' ');
    out.append(name);
    push_char(out, '=');
    push_char(out, '"');
    assert(old(out)@.push(' ') + name@ == old(out)@ + seq![' '] + name@);
    assert((old(out)@ + seq![' '] + name@).push('=').push('"') == old(out)@ + seq![' '] + name@ + seq!['=', '"']);
}

/// Appends ` name="` after checking the name.
fn push_attr_prefix(out: &mut String, name: &str)
    requires
        valid_attr_name(name@),
    ensures
        final(out)@ == old(out)@ + seq![' '] + name@ + seq!['=', '"'],
{
    push_attr_prefix_unchecked(out, name);
}

/// Appends the closing quote of an attribute value.
fn close_attr(out: &mut String)
    ensures
        final(out)@ == old(out)@.push('"'),
{
    push_char(out, '"');
}

proof fn lemma_attr_text(before: Seq<char>, name: Seq<char>, value: Seq<char>)
    ensures
        (before + seq![' '] + name + seq!['=', '"'] + value).push('"') == before + attr_text(name, value),
{
    assert((before + seq![' '] + name + seq!['=', '"'] + value).push('"') == before + attr_text(name, value));
}

/// Appends ` name="value"` with the value escaped, checking the name.
pub(crate) fn push_str_attr(out: &mut String, name: &str, value: &str)
    requires
        valid_attr_name(name@),
    ensures
        final(out)@ == old(out)@ + attr_text(name@, escape_attr(value@)),
{
    push_attr_prefix(out, name);
    escape_attr_value_into(value, out);
    close_attr(out);
    proof {
        lemma_attr_text(old(out)@, name@, escape_attr(value@));
    }
}

/// Appends ` name="value"` with the value escaped, for a name known to be
/// valid.
pub(crate) fn push_str_attr_unchecked(out: &mut String, name: &str, value: &str)
    ensures
        final(out)@ == old(out)@ + attr_text(name@, escape_attr(value@)),
{
    push_attr_prefix_unchecked(out, name);
    escape_attr_value_into(value, out);
    close_attr(out);
    proof {
        lemma_attr_text(old(out)@, name@, escape_attr(value@));
    }
}

/// Appends ` name`, checking the name.
pub(crate) fn push_boolean_attr(out: &mut String, name: &str)
    requires
        valid_attr_name(name@),
    ensures
        final(out)@ == old(out)@ + bool_attr_text(name@),
{
    push_char(out, ' ');
    out.append(name);
    assert(old(out)@.push(' ') + name@ == old(out)@ + bool_attr_text(name@));
}

/// `entries` lists each entry of `m` once: every pair is an entry of `m`,
/// no key occurs twice, and every key of `m` occurs.
pub open spec fn lists_entries<K, V>(entries: Seq<(K, V)>, m: Map<K, V>) -> bool {
    &&& forall|i: int| 0 <= i < entries.len() ==> #[trigger] m.contains_key(entries[i].0) && m[entries[i].0] == entries[i].1
    &&& forall|i: int, j: int| 0 <= i < j < entries.len() ==> #[trigger] entries[i].0 != #[trigger] entries[j].0
    &&& forall|k: K| #[trigger] m.contains_key(k) ==> exists|i: int| 0 <= i < entries.len() && #[trigger] entries[i].0 == k
}

/// The keys of a sequence of entries, in order.
pub open spec fn entry_keys<K, V>(entries: Seq<(K, V)>) -> Seq<K> {
    entries.map_values(|kv: (K, V)| kv.0)
}

/// What one map entry renders to: the attribute, where its name is valid;
/// nothing where it has no name or an invalid one.
pub open spec fn entry_out<K: AttributeName, V: AttributeValue>(k: K, v: V) -> Seq<char> {
    match k.name_view() {
        Some(n) => if valid_attr_name(n) {
            v.attr_out(n)
        } else {
            Seq::empty()
        },
        None => Seq::empty(),
    }
}

/// What entries render to, in turn.
pub open spec fn entries_out<K: AttributeName, V: AttributeValue>(entries: Seq<(K, V)>) -> Seq<char>
    decreases entries.len(),
{
    if entries.len() == 0 {
        Seq::empty()
    } else {
        entries_out(entries.drop_last()) + entry_out(entries.last().0, entries.last().1)
    }
}

/// Appends one map entry as an attribute; an entry whose name is invalid
/// is left out (callers that must fail on it test the name first).
fn push_entry<K: AttributeName, V: AttributeValue>(out: &mut String, k: &K, v: &V)
    ensures
        final(out)@ == old(out)@ + entry_out(*k, *v),
{
    match k.attr_name() {
        Some(n) => {
            if is_valid_attr_name(n) {
                v.render_attr_into(out, n);
            } else {
                assert(old(out)@ + Seq::<char>::empty() == old(out)@);
            }
        },
        None => {
            assert(old(out)@ + Seq::<char>::empty() == old(out)@);
        },
    }
}

/// Renders a map's entries in the order in which `iter` gives them.
impl<K: AttributeName + 'static, V: AttributeValue + 'static> Attributes for BTreeMap<K, V> {
    /// Some entries are rendered in turn; where the keys obey their order,
    /// as vstd asks of a `BTreeMap` key, they are the map's entries, once
    /// each, in ascending order of their keys.
    open spec fn renders_to(&self, before: Seq<char>, after: Seq<char>) -> bool {
        exists|entries: Seq<(K, V)>|
            #![trigger entries_out(entries)]
            after == before + entries_out(entries) && (key_obeys_cmp_spec::<K>() ==> lists_entries(entries, self@)
                && increasing_seq(entry_keys(entries)))
    }

    fn render_attrs_into(&self, out: &mut String) {
        spread_btree(self, out);
    }
}

/// Spreads a `BTreeMap`'s entries, in the order in which its iterator
/// gives them. (The keys and values are `'static`: vstd declares the
/// `BTreeMap` iterator without the bounds `K: 'a, V: 'a`, and Verus's
/// lifetime check of the loop asks for `'static` in their place.)
fn spread_btree<'a, K: AttributeName + 'static, V: AttributeValue + 'static>(m: &'a BTreeMap<K, V>, out: &mut String)
ensures
    m.renders_to(old(out)@, final(out)@),
{
    let ghost start = out@;
    let n = m.len();
    let it0 = m.iter();
    let ghost first = it0;
    let mut w: VerusForLoopWrapper<'a, std::collections::btree_map::Iter<'a, K, V>> = VerusForLoopWrapper::new(it0, Ghost(None));
    let ghost all = w.seq();
    let mut i: usize = 0;
    let mut more = true;
    while more && i < n
        invariant
            w.wf(),
            w.seq() == all,
            all == first.remaining(),
            w.index() == i,
            i <= n,
            !more ==> i == all.len(),
            out@ == start + entries_out(all.unref().take(i as int)),
        decreases n - i + if more { 1int } else { 0int },
    {
        match w.next() {
            Some(kv) => {
                proof {
                    assert(kv == all[i as int]);
                    let e = all.unref();
                    assert(e.take(i + 1).drop_last() == e.take(i as int));
                    assert(e.take(i + 1).last() == e[i as int]);
                }
                let (k, v) = kv;
                push_entry(out, k, v);
                i = i + 1;
            },
            None => {
                more = false;
            },
        }
    }
    proof {
        lemma_btree_spread(m, first, n, i as int, start, out@);
    }
}

/// What a `BTreeMap` spread wrote is some entries in turn; where the keys
/// obey their order, it read all of the iterator, which lists the map's
/// entries once each, in ascending order of their keys.
proof fn lemma_btree_spread<'a, K: AttributeName, V: AttributeValue>(
    m: &'a BTreeMap<K, V>,
    iter: std::collections::btree_map::Iter<'a, K, V>,
    n: usize,
    i: int,
    before: Seq<char>,
    after: Seq<char>,
)
    requires
        key_obeys_cmp_spec::<K>() ==> {
            &&& iter == vstd::std_specs::btree::spec_btree_map_iter(m)
            &&& iter.remaining().no_duplicates()
            &&& increasing_seq(iter.remaining().map_values(|kv: (&K, &V)| *kv.0))
        },
        n == vstd::std_specs::btree::spec_btree_map_len(m),
        0 <= i <= iter.remaining().len(),
        i == n || i == iter.remaining().len(),
        after == before + entries_out(iter.remaining().unref().take(i)),
    ensures
        m.renders_to(before, after),
{
    broadcast use vstd::std_specs::btree::group_btree_axioms;

    let all = iter.remaining();
    if key_obeys_cmp_spec::<K>() {
        assert(all.len() == m@.dom().len());
        assert(n == m@.len());
        assert(all.unref().take(i) == all.unref());
        lemma_lists_iter_entries(m@, all);
        assert(entry_keys(all.unref()) == all.map_values(|kv: (&K, &V)| *kv.0));
        let w = all.unref();
        assert(after == before + entries_out(w) && (key_obeys_cmp_spec::<K>() ==> lists_entries(w, m@)
            && increasing_seq(entry_keys(w))));
    } else {
        let w = all.unref().take(i);
        assert(after == before + entries_out(w) && (key_obeys_cmp_spec::<K>() ==> lists_entries(w, m@)
            && increasing_seq(entry_keys(w))));
    }
}

/// What a `HashMap` spread wrote is some entries in turn; where the keys
/// and the hasher obey vstd's model, it read all of the iterator, which
/// lists the map's entries once each.
proof fn lemma_hash_spread<'a, K: AttributeName, V: AttributeValue, S>(
    m: &'a HashMap<K, V, S>,
    iter: std::collections::hash_map::Iter<'a, K, V>,
    n: usize,
    i: int,
    before: Seq<char>,
    after: Seq<char>,
)
    requires
        obeys_key_model::<K>() && builds_valid_hashers::<S>() ==> {
            &&& iter == vstd::std_specs::hash::spec_hash_map_iter(m)
            &&& iter.remaining().no_duplicates()
        },
        n == vstd::std_specs::hash::spec_hash_map_len(m),
        0 <= i <= iter.remaining().len(),
        i == n || i == iter.remaining().len(),
        after == before + entries_out(iter.remaining().unref().take(i)),
    ensures
        m.renders_to(before, after),
{
    broadcast use vstd::std_specs::hash::group_hash_axioms;

    let all = iter.remaining();
    if obeys_key_model::<K>() && builds_valid_hashers::<S>() {
        assert(all.len() == m@.dom().len());
        assert(n == m@.len());
        assert(all.unref().take(i) == all.unref());
        lemma_lists_iter_entries(m@, all);
        let w = all.unref();
        assert(after == before + entries_out(w) && (obeys_key_model::<K>() && builds_valid_hashers::<S>()
            ==> lists_entries(w, m@)));
    } else {
        let w = all.unref().take(i);
        assert(after == before + entries_out(w) && (obeys_key_model::<K>() && builds_valid_hashers::<S>()
            ==> lists_entries(w, m@)));
    }
}

/// Renders a map's entries in the order in which `iter` gives them, which
/// depends on the hasher.
impl<K: AttributeName, V: AttributeValue, S> Attributes for HashMap<K, V, S> {
    /// Some entries are rendered in turn; where the keys and the hasher
    /// obey vstd's model of a `HashMap`, they are the map's entries, once
    /// each, in some order.
    open spec fn renders_to(&self, before: Seq<char>, after: Seq<char>) -> bool {
        exists|entries: Seq<(K, V)>|
            #![trigger entries_out(entries)]
            after == before + entries_out(entries) && (obeys_key_model::<K>() && builds_valid_hashers::<S>()
                ==> lists_entries(entries, self@))
    }

    fn render_attrs_into(&self, out: &mut String) {
        let ghost start = out@;
        let n = self.len();
        let it0 = self.iter();
        let ghost first = it0;
        let mut w: VerusForLoopWrapper<'_, std::collections::hash_map::Iter<'_, K, V>> = VerusForLoopWrapper::new(it0, Ghost(None));
        let ghost all = w.seq();
        let mut i: usize = 0;
        let mut more = true;
        while more && i < n
            invariant
                w.wf(),
                w.seq() == all,
                all == first.remaining(),
                w.index() == i,
                i <= n,
                !more ==> i == all.len(),
                out@ == start + entries_out(all.unref().take(i as int)),
            decreases n - i + if more { 1int } else { 0int },
        {
            match w.next() {
                Some(kv) => {
                    proof {
                        assert(kv == all[i as int]);
                        let e = all.unref();
                        assert(e.take(i + 1).drop_last() == e.take(i as int));
                        assert(e.take(i + 1).last() == e[i as int]);
                    }
                    let (k, v) = kv;
                    push_entry(out, k, v);
                    i = i + 1;
                },
                None => {
                    more = false;
                },
            }
        }
        proof {
            lemma_hash_spread(self, first, n, i as int, start, out@);
        }
    }
}

/// The entries that a map's iterator yields, each once, list the map.
proof fn lemma_lists_iter_entries<K, V>(m: Map<K, V>, v: Seq<(&K, &V)>)
    requires
        v.no_duplicates(),
        forall|i: int| 0 <= i < v.len() ==> #[trigger] m.contains_key(*v[i].0) && m[*v[i].0] == *v[i].1,
        forall|k: K| #[trigger] m.contains_key(k) ==> v.contains((&k, &m[k])),
    ensures
        lists_entries(v.unref(), m),
{
    let e = v.unref();
    assert forall|i: int| 0 <= i < e.len() implies #[trigger] m.contains_key(e[i].0) && m[e[i].0] == e[i].1 by {
        assert(m.contains_key(*v[i].0));
    }
    assert forall|i: int, j: int| 0 <= i < j < e.len() implies #[trigger] e[i].0 != #[trigger] e[j].0 by {
        assert(m.contains_key(*v[i].0));
        assert(m.contains_key(*v[j].0));
        if e[i].0 == e[j].0 {
            assert(v[i] == v[j]);
        }
    }
    assert forall|k: K| #[trigger] m.contains_key(k) implies exists|i: int| 0 <= i < e.len() && #[trigger] e[i].0 == k by {
        assert(v.contains((&k, &m[k])));
        let i = choose|i: int| 0 <= i < v.len() && v[i] == (&k, &m[k]);
        assert(e[i].0 == k);
    }
}

/// The value part of ` name="value"`, as `attr_text` lays it out.
pub open spec fn attr_value_of(text: Seq<char>, name: Seq<char>) -> Seq<char> {
    text.subrange(name.len() + 3int, text.len() - 1int)
}

/// Every integer, of every width and sign, is written as attribute `name`
/// as ` name="…"` around the decimal numeral of its value: reading the
/// value part back gives the integer again, `-` included for a negative one.
pub proof fn law_integer_attributes(a: i8, b: i16, c: i32, d: i64, e: i128, f: isize, g: u8, h: u16, i: u32, j: u64, k: u128, l: usize, name: Seq<char>)
    ensures
        a.renders_attr() && a.attr_out(name) == attr_text(name, decimal(a as int)),
        b.renders_attr() && b.attr_out(name) == attr_text(name, decimal(b as int)),
        c.renders_attr() && c.attr_out(name) == attr_text(name, decimal(c as int)),
        d.renders_attr() && d.attr_out(name) == attr_text(name, decimal(d as int)),
        e.renders_attr() && e.attr_out(name) == attr_text(name, decimal(e as int)),
        f.renders_attr() && f.attr_out(name) == attr_text(name, decimal(f as int)),
        g.renders_attr() && g.attr_out(name) == attr_text(name, decimal(g as int)),
        h.renders_attr() && h.attr_out(name) == attr_text(name, decimal(h as int)),
        i.renders_attr() && i.attr_out(name) == attr_text(name, decimal(i as int)),
        j.renders_attr() && j.attr_out(name) == attr_text(name, decimal(j as int)),
        k.renders_attr() && k.attr_out(name) == attr_text(name, decimal(k as int)),
        l.renders_attr() && l.attr_out(name) == attr_text(name, decimal(l as int)),
        numeral_value(attr_value_of(a.attr_out(name), name)) == a as int,
        numeral_value(attr_value_of(b.attr_out(name), name)) == b as int,
        numeral_value(attr_value_of(c.attr_out(name), name)) == c as int,
        numeral_value(attr_value_of(d.attr_out(name), name)) == d as int,
        numeral_value(attr_value_of(e.attr_out(name), name)) == e as int,
        numeral_value(attr_value_of(f.attr_out(name), name)) == f as int,
        numeral_value(attr_value_of(g.attr_out(name), name)) == g as int,
        numeral_value(attr_value_of(h.attr_out(name), name)) == h as int,
        numeral_value(attr_value_of(i.attr_out(name), name)) == i as int,
        numeral_value(attr_value_of(j.attr_out(name), name)) == j as int,
        numeral_value(attr_value_of(k.attr_out(name), name)) == k as int,
        numeral_value(attr_value_of(l.attr_out(name), name)) == l as int,
{
    law_decimal_reads_back(a as int);
    law_decimal_reads_back(b as int);
    law_decimal_reads_back(c as int);
    law_decimal_reads_back(d as int);
    law_decimal_reads_back(e as int);
    law_decimal_reads_back(f as int);
    law_decimal_reads_back(g as int);
    law_decimal_reads_back(h as int);
    law_decimal_reads_back(i as int);
    law_decimal_reads_back(j as int);
    law_decimal_reads_back(k as int);
    law_decimal_reads_back(l as int);
    assert(attr_value_of(attr_text(name, decimal(a as int)), name) == decimal(a as int));
    assert(attr_value_of(attr_text(name, decimal(b as int)), name) == decimal(b as int));
    assert(attr_value_of(attr_text(name, decimal(c as int)), name) == decimal(c as int));
    assert(attr_value_of(attr_text(name, decimal(d as int)), name) == decimal(d as int));
    assert(attr_value_of(attr_text(name, decimal(e as int)), name) == decimal(e as int));
    assert(attr_value_of(attr_text(name, decimal(f as int)), name) == decimal(f as int));
    assert(attr_value_of(attr_text(name, decimal(g as int)), name) == decimal(g as int));
    assert(attr_value_of(attr_text(name, decimal(h as int)), name) == decimal(h as int));
    assert(attr_value_of(attr_text(name, decimal(i as int)), name) == decimal(i as int));
    assert(attr_value_of(attr_text(name, decimal(j as int)), name) == decimal(j as int));
    assert(attr_value_of(attr_text(name, decimal(k as int)), name) == decimal(k as int));
    assert(attr_value_of(attr_text(name, decimal(l as int)), name) == decimal(l as int));
}

/// Every integer, of every width and sign, adds the decimal numeral of its
/// value to a class list: reading the class text back gives the integer.
pub proof fn law_integer_classes(a: i8, b: i16, c: i32, d: i64, e: i128, f: isize, g: u8, h: u16, i: u32, j: u64, k: u128, l: usize)
    ensures
        a.class_text() == decimal(a as int),
        b.class_text() == decimal(b as int),
        c.class_text() == decimal(c as int),
        d.class_text() == decimal(d as int),
        e.class_text() == decimal(e as int),
        f.class_text() == decimal(f as int),
        g.class_text() == decimal(g as int),
        h.class_text() == decimal(h as int),
        i.class_text() == decimal(i as int),
        j.class_text() == decimal(j as int),
        k.class_text() == decimal(k as int),
        l.class_text() == decimal(l as int),
        numeral_value(a.class_text()) == a as int,
        numeral_value(b.class_text()) == b as int,
        numeral_value(c.class_text()) == c as int,
        numeral_value(d.class_text()) == d as int,
        numeral_value(e.class_text()) == e as int,
        numeral_value(f.class_text()) == f as int,
        numeral_value(g.class_text()) == g as int,
        numeral_value(h.class_text()) == h as int,
        numeral_value(i.class_text()) == i as int,
        numeral_value(j.class_text()) == j as int,
        numeral_value(k.class_text()) == k as int,
        numeral_value(l.class_text()) == l as int,
{
    law_decimal_reads_back(a as int);
    law_decimal_reads_back(b as int);
    law_decimal_reads_back(c as int);
    law_decimal_reads_back(d as int);
    law_decimal_reads_back(e as int);
    law_decimal_reads_back(f as int);
    law_decimal_reads_back(g as int);
    law_decimal_reads_back(h as int);
    law_decimal_reads_back(i as int);
    law_decimal_reads_back(j as int);
    law_decimal_reads_back(k as int);
    law_decimal_reads_back(l as int);
}

/// Text is written as attribute `name` escaped for a quoted value, and
/// reading the value part back gives the text again: a string, an owned
/// string or a character gives ` name="…"`; `true` gives the bare name and
/// `false` nothing; `None` gives nothing and `Some(v)` what `v` gives.
pub proof fn law_text_attributes<T: AttributeValue>(s: &str, t: String, c: char, b: bool, v: T, name: Seq<char>)
    ensures
        s.renders_attr() && s.attr_out(name) == attr_text(name, escape_attr(s@)),
        unescape(attr_value_of(s.attr_out(name), name)) == s@,
        t.renders_attr() && t.attr_out(name) == attr_text(name, escape_attr(t@)),
        unescape(attr_value_of(t.attr_out(name), name)) == t@,
        c.renders_attr() && c.attr_out(name) == attr_text(name, escape_attr(seq![c])),
        unescape(attr_value_of(c.attr_out(name), name)) == seq![c],
        b.renders_attr() == b,
        b.attr_out(name) == (if b { seq![' '] + name } else { Seq::empty() }),
        !None::<T>.renders_attr() && None::<T>.attr_out(name) == Seq::<char>::empty(),
        Some(v).renders_attr() == v.renders_attr() && Some(v).attr_out(name) == v.attr_out(name),
{
    law_unescape_escape(s@, true);
    law_unescape_escape(t@, true);
    law_unescape_escape(seq![c], true);
    assert(attr_value_of(attr_text(name, escape_attr(s@)), name) == escape_attr(s@));
    assert(attr_value_of(attr_text(name, escape_attr(t@)), name) == escape_attr(t@));
    assert(attr_value_of(attr_text(name, escape_attr(seq![c])), name) == escape_attr(seq![c]));
}

/// Text is added to a class list as it is: a string or a character as its
/// text, `true` and `false` as those words; `None` adds nothing and
/// `Some(v)` what `v` adds.
pub proof fn law_text_classes<T: ClassValue>(s: &str, t: String, c: char, b: bool, v: T)
    ensures
        s.class_text() == s@,
        t.class_text() == t@,
        c.class_text() == seq![c],
        b.class_text() == (if b { "true"@ } else { "false"@ }),
        None::<T>.class_text() == Seq::<char>::empty(),
        Some(v).class_text() == v.class_text(),
{
    reveal_strlit("true");
    reveal_strlit("false");
    assert(bool_text(true) == "true"@);
    assert(bool_text(false) == "false"@);
}

} // verus!
