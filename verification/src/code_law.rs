use vstd::prelude::*;
use crate::cursor::{Delimiter, TokenModel};
use crate::emit::{
    EmitModel, ident, punct, paren, brace, literal_char, literal_body, string_literal, str_token,
    current, helper, call, call_current, by_ref, render_code, node_code, nodes_code, element_code,
    classes_code, id_code, attrs_code, attr_code, if_code, arms_code, fold_names, is_name, leading_names,
    static_attr_name, selector_expr, lemma_leading_names,
};
use crate::nodes::{
    NodeModel, SelectorModel, TagModel, IfModel, ElseModel, NodesScan, first_brace, lemma_first_brace, markup_nodes,
    chain_tokens, chain_model, chain_ok, law_if_chain_nodes, arm_tokens, arms_read, arms_ok, law_match_nodes,
};
use crate::cursor::{is_group, no_group, no_arrow, arrow_at};
use crate::dsl::{AttrModel, first_arrow, lemma_first_arrow};
use crate::html::{escape_text, escape_attr};
use crate::attrs::{attr_text, bool_attr_text};
use crate::template::{start_tag_text, end_tag_text, class_attr_text};

verus! {

// What the code written for static markup does: each statement is a call
// of a template helper, whose contract says what it appends to the html.

/// Reads the body of a string literal as `literal_body` writes it.
pub open spec fn literal_decode(s: Seq<char>) -> Seq<char>
    decreases s.len(),
{
    if s.len() == 0 {
        Seq::empty()
    } else if s.len() >= 2 && s[0] == '\\' && s[1] == '"' {
        seq!['"'] + literal_decode(s.subrange(2, s.len() as int))
    } else if s.len() >= 2 && s[0] == '\\' && s[1] == '\\' {
        seq!['\\'] + literal_decode(s.subrange(2, s.len() as int))
    } else if s.len() >= 2 && s[0] == '\\' && s[1] == 'r' {
        seq!['\r'] + literal_decode(s.subrange(2, s.len() as int))
    } else {
        seq![s[0]] + literal_decode(s.subrange(1, s.len() as int))
    }
}

/// The value of a string literal token's text.
pub open spec fn literal_value(text: Seq<char>) -> Option<Seq<char>> {
    if text.len() >= 2 && text[0] == '"' && text[text.len() - 1] == '"' {
        Some(literal_decode(text.subrange(1, text.len() - 1)))
    } else {
        None
    }
}

proof fn lemma_literal_body_concat(a: Seq<char>, b: Seq<char>)
    ensures
        literal_body(a + b) == literal_body(a) + literal_body(b),
    decreases b.len(),
{
    if b.len() == 0 {
        assert(a + b == a);
        assert(literal_body(a) + Seq::<char>::empty() == literal_body(a));
    } else {
        lemma_literal_body_concat(a, b.drop_last());
        assert((a + b).drop_last() == a + b.drop_last());
        assert((a + b).last() == b.last());
        assert(literal_body(a) + literal_body(b.drop_last()) + literal_char(b.last())
            == literal_body(a) + (literal_body(b.drop_last()) + literal_char(b.last())));
    }
}

proof fn lemma_decode_char(c: char, rest: Seq<char>)
    ensures
        literal_decode(literal_char(c) + rest) == seq![c] + literal_decode(rest),
{
    let e = literal_char(c);
    let s = e + rest;
    assert(s.subrange(e.len() as int, s.len() as int) == rest);
    if c == '"' || c == '\\' || c == '\r' {
        assert(s[0] == '\\');
        assert(s[1] == e[1]);
    } else {
        assert(s[0] == c);
    }
}

/// A string literal reads back as the value it was written for.
pub proof fn lemma_literal_value(v: Seq<char>)
    ensures
        literal_value(string_literal(v)) == Some(v),
    decreases v.len(),
{
    let t = string_literal(v);
    assert(t.subrange(1, t.len() - 1) == literal_body(v));
    lemma_decode_body(v);
}

proof fn lemma_decode_body(v: Seq<char>)
    ensures
        literal_decode(literal_body(v)) == v,
    decreases v.len(),
{
    if v.len() > 0 {
        let rest = v.subrange(1, v.len() as int);
        let one = seq![v[0]];
        assert(v == one + rest);
        lemma_literal_body_concat(one, rest);
        assert(one.drop_last() == Seq::<char>::empty());
        assert(one.last() == v[0]);
        assert(literal_body(Seq::<char>::empty()) == Seq::<char>::empty());
        assert(literal_body(one) == literal_body(one.drop_last()) + literal_char(one.last()));
        assert(Seq::<char>::empty() + literal_char(v[0]) == literal_char(v[0]));
        lemma_decode_body(rest);
        lemma_decode_char(v[0], literal_body(rest));
    }
}

/// Both results, joined, when both are known.
pub open spec fn join(a: Option<Seq<char>>, b: Option<Seq<char>>) -> Option<Seq<char>> {
    match (a, b) {
        (Some(x), Some(y)) => Some(x + y),
        _ => None,
    }
}

/// What a template helper appends, called with `&mut builder.current` and
/// string literals: the text its contract states.
pub open spec fn helper_effect(c: EmitModel, f: Seq<char>, args: Seq<TokenModel>) -> Option<Seq<char>> {
    let head = current(c) + seq![punct(',')];
    if args == current(c) {
        if f == "finish_start_tag"@ {
            Some(seq!['>'])
        } else {
            None
        }
    } else if args.len() == 7 && args.take(6) == head && args[6] is Literal
        && literal_value(args[6]->Literal_0) is Some {
        let v = literal_value(args[6]->Literal_0).unwrap();
        if f == "push_start_tag_static"@ {
            Some(start_tag_text(v))
        } else if f == "push_end_tag_static"@ {
            Some(end_tag_text(v))
        } else if f == "finish_void_tag_static"@ {
            Some(seq!['>'])
        } else if f == "push_static_bool_attr"@ {
            Some(bool_attr_text(v))
        } else if f == "push_class_attr"@ {
            Some(class_attr_text(v))
        } else {
            None
        }
    } else if args.len() == 10 && args.take(6) == head && args[6] is Literal && args[7] == punct(',')
        && args[8] == punct('&') && args[9] is Group && args[9]->Group_0 == Delimiter::Parenthesis
        && args[9]->Group_1.len() == 1 && args[9]->Group_1[0] is Literal
        && literal_value(args[6]->Literal_0) is Some
        && literal_value(args[9]->Group_1[0]->Literal_0) is Some && f == "push_static_attr"@ {
        Some(attr_text(
            literal_value(args[6]->Literal_0).unwrap(),
            escape_attr(literal_value(args[9]->Group_1[0]->Literal_0).unwrap()),
        ))
    } else {
        None
    }
}

/// The path tokens of a helper call, up to the helper's name.
pub open spec fn helper_prefix(c: EmitModel) -> Seq<TokenModel> {
    c.crate_path + seq![punct(':'), punct(':'), ident("template"@), punct(':'), punct(':')]
}

/// The html that code written for static markup appends: blocks run
/// their statements, a helper call appends what its contract states, and
/// `builder.push_render(&("text"))` appends the text escaped. `None` for
/// code of any other form.
pub open spec fn run(c: EmitModel, code: Seq<TokenModel>) -> Option<Seq<char>>
    decreases code,
{
    let n = c.crate_path.len() as int;
    if code.len() == 0 {
        Some(Seq::empty())
    } else if code[0] is Group && code[0]->Group_0 == Delimiter::Brace {
        join(run(c, code[0]->Group_1), run(c, code.subrange(1, code.len() as int)))
    } else if code.len() >= n + 8 && code.take(n + 5) == helper_prefix(c) && code[n + 5] is Ident
        && code[n + 6] is Group && code[n + 6]->Group_0 == Delimiter::Parenthesis && code[n + 7] == punct(';') {
        join(
            helper_effect(c, code[n + 5]->Ident_0, code[n + 6]->Group_1),
            run(c, code.subrange(n + 8, code.len() as int)),
        )
    } else if code.len() >= 5 && code[0] == ident(c.builder) && code[1] == punct('.') && code[2] == ident("push_render"@)
        && code[4] == punct(';') && code[3] is Group && code[3]->Group_0 == Delimiter::Parenthesis
        && code[3]->Group_1.len() == 2 && code[3]->Group_1[0] == punct('&') && code[3]->Group_1[1] is Group
        && code[3]->Group_1[1]->Group_0 == Delimiter::Parenthesis && code[3]->Group_1[1]->Group_1.len() == 1
        && code[3]->Group_1[1]->Group_1[0] is Literal
        && literal_value(code[3]->Group_1[1]->Group_1[0]->Literal_0) is Some {
        join(
            Some(escape_text(literal_value(code[3]->Group_1[1]->Group_1[0]->Literal_0).unwrap())),
            run(c, code.subrange(5, code.len() as int)),
        )
    } else {
        None
    }
}

/// A crate path made of identifiers and `:` alone, such as `::mup`.
pub open spec fn plain_path(c: EmitModel) -> bool {
    forall|i: int| 0 <= i < c.crate_path.len() ==> (#[trigger] c.crate_path[i] is Ident || c.crate_path[i] == punct(':'))
}

proof fn lemma_join_assoc(a: Option<Seq<char>>, b: Option<Seq<char>>, d: Option<Seq<char>>)
    ensures
        join(join(a, b), d) == join(a, join(b, d)),
{
    if a is Some && b is Some && d is Some {
        assert(a.unwrap() + b.unwrap() + d.unwrap() == a.unwrap() + (b.unwrap() + d.unwrap()));
    }
}

/// Code that runs can be followed by more code: the two run in turn.
pub proof fn lemma_run_concat(c: EmitModel, a: Seq<TokenModel>, b: Seq<TokenModel>)
    requires
        plain_path(c),
        run(c, a) is Some,
    ensures
        run(c, a + b) == join(run(c, a), run(c, b)),
    decreases a,
{
    let n = c.crate_path.len() as int;
    let ab = a + b;
    if a.len() == 0 {
        assert(ab == b);
        assert(Seq::<char>::empty() + run(c, b).unwrap_or(Seq::empty()) == run(c, b).unwrap_or(Seq::empty()));
    } else {
        assert(ab[0] == a[0]);
        if a[0] is Group && a[0]->Group_0 == Delimiter::Brace {
            let rest = a.subrange(1, a.len() as int);
            assert(ab.subrange(1, ab.len() as int) == rest + b);
            lemma_run_concat(c, rest, b);
            lemma_join_assoc(run(c, a[0]->Group_1), run(c, rest), run(c, b));
        } else if a.len() >= n + 8 && a.take(n + 5) == helper_prefix(c) && a[n + 5] is Ident
            && a[n + 6] is Group && a[n + 6]->Group_0 == Delimiter::Parenthesis && a[n + 7] == punct(';') {
            assert(ab.take(n + 5) == a.take(n + 5));
            assert(ab[n + 5] == a[n + 5] && ab[n + 6] == a[n + 6] && ab[n + 7] == a[n + 7]);
            let rest = a.subrange(n + 8, a.len() as int);
            assert(ab.subrange(n + 8, ab.len() as int) == rest + b);
            lemma_run_concat(c, rest, b);
            lemma_join_assoc(helper_effect(c, a[n + 5]->Ident_0, a[n + 6]->Group_1), run(c, rest), run(c, b));
        } else {
            // The render statement: the helper form cannot start it.
            assert(a.len() >= 5);
            assert(ab[1] == a[1] && ab[2] == a[2] && ab[3] == a[3] && ab[4] == a[4]);
            if ab.len() >= n + 8 && ab.take(n + 5) == helper_prefix(c) {
                assert(ab.take(n + 5)[0] == ab[0]);
                assert(ab.take(n + 5)[1] == ab[1]);
                if n >= 2 {
                    assert(helper_prefix(c)[1] == c.crate_path[1]);
                } else if n == 1 {
                    assert(helper_prefix(c)[0] == c.crate_path[0]);
                    assert(helper_prefix(c)[1] == punct(':'));
                } else {
                    assert(helper_prefix(c)[0] == punct(':'));
                }
            }
            let rest = a.subrange(5, a.len() as int);
            assert(ab.subrange(5, ab.len() as int) == rest + b);
            lemma_run_concat(c, rest, b);
            lemma_join_assoc(
                Some(escape_text(literal_value(a[3]->Group_1[1]->Group_1[0]->Literal_0).unwrap())),
                run(c, rest),
                run(c, b),
            );
        }
    }
}

/// A helper call, alone, appends what the helper's contract states.
pub proof fn lemma_run_call(c: EmitModel, f: Seq<char>, args: Seq<TokenModel>)
    requires
        plain_path(c),
    ensures
        run(c, call(c, f, args)) == join(helper_effect(c, f, args), Some(Seq::empty())),
{
    let n = c.crate_path.len() as int;
    let code = call(c, f, args);
    assert(code.take(n + 5) == helper_prefix(c));
    assert(code[n + 5] == ident(f));
    assert(code[n + 6] == paren(args));
    assert(code[n + 7] == punct(';'));
    assert(code.len() == n + 8);
    assert(code.subrange(n + 8, code.len() as int) == Seq::<TokenModel>::empty());
    assert(run(c, Seq::<TokenModel>::empty()) == Some(Seq::<char>::empty()));
    if n > 0 {
        assert(code[0] == c.crate_path[0]);
        assert(c.crate_path[0] is Ident || c.crate_path[0] == punct(':'));
    } else {
        assert(code[0] == punct(':'));
    }
    assert(!(code[0] is Group));
}

// Static markup and its html.

/// A value that is one string literal.
pub open spec fn static_text(e: Seq<TokenModel>) -> bool {
    e.len() == 1 && e[0] is Literal && literal_value(e[0]->Literal_0) is Some
}

/// The value of such a literal.
pub open spec fn text_value(e: Seq<TokenModel>) -> Seq<char> {
    literal_value(e[0]->Literal_0).unwrap()
}

/// An attribute written out with no value or a string literal value.
pub open spec fn static_attr(a: AttrModel) -> bool {
    match a {
        AttrModel::Static { prefix, segments, value } => match value {
            None => true,
            Some(v) => static_text(v),
        },
        _ => false,
    }
}

/// Markup whose html is known when it is written: elements with written
/// tags, class names, id names and static attributes, and string literals.
pub open spec fn static_node(n: NodeModel) -> bool
    decreases n,
{
    match n {
        NodeModel::Render(e) => static_text(e),
        NodeModel::Element(tag, classes, id, attrs, body) => {
            &&& tag is Static
            &&& forall|i: int| 0 <= i < classes.len() ==> is_name(#[trigger] classes[i])
            &&& id matches Some(s) ==> is_name(s)
            &&& forall|i: int| 0 <= i < attrs.len() ==> static_attr(#[trigger] attrs[i])
            &&& match body {
                None => true,
                Some(ns) => static_nodes(ns),
            }
        },
        _ => false,
    }
}

pub open spec fn static_nodes(ns: Seq<NodeModel>) -> bool
    decreases ns,
{
    ns.len() == 0 || (static_nodes(ns.drop_last()) && static_node(ns.last()))
}

/// The html of one attribute.
pub open spec fn attr_html(a: AttrModel) -> Seq<char> {
    match a {
        AttrModel::Static { prefix, segments, value } => match value {
            None => bool_attr_text(static_attr_name(prefix, segments)),
            Some(v) => attr_text(static_attr_name(prefix, segments), escape_attr(text_value(v))),
        },
        _ => Seq::empty(),
    }
}

pub open spec fn attrs_html(attrs: Seq<AttrModel>) -> Seq<char>
    decreases attrs.len(),
{
    if attrs.len() == 0 {
        Seq::empty()
    } else {
        attrs_html(attrs.drop_last()) + attr_html(attrs.last())
    }
}

/// The class attribute of class names: none without names.
pub open spec fn classes_html(cs: Seq<SelectorModel>) -> Seq<char> {
    if cs.len() == 0 {
        Seq::empty()
    } else {
        class_attr_text(fold_names(cs))
    }
}

pub open spec fn id_html(id: Option<SelectorModel>) -> Seq<char> {
    match id {
        Some(s) => attr_text("id"@, escape_attr(s->Name_0)),
        None => Seq::empty(),
    }
}

/// The html of static markup: a string literal's text escaped; an element
/// as its start tag with its classes, id and attributes, then its
/// content and end tag, or `>` alone for a void element.
pub open spec fn static_html(n: NodeModel) -> Seq<char>
    decreases n,
{
    match n {
        NodeModel::Render(e) => escape_text(text_value(e)),
        NodeModel::Element(tag, classes, id, attrs, body) => {
            let t = tag->Static_0;
            start_tag_text(t) + classes_html(classes) + id_html(id) + attrs_html(attrs) + match body {
                None => seq!['>'],
                Some(ns) => seq!['>'] + static_nodes_html(ns) + end_tag_text(t),
            }
        },
        _ => Seq::empty(),
    }
}

pub open spec fn static_nodes_html(ns: Seq<NodeModel>) -> Seq<char>
    decreases ns,
{
    if ns.len() == 0 {
        Seq::empty()
    } else {
        static_nodes_html(ns.drop_last()) + static_html(ns.last())
    }
}

proof fn lemma_run_empty(c: EmitModel)
    ensures
        run(c, Seq::empty()) == Some(Seq::<char>::empty()),
{
}

/// What a helper called with `&mut builder.current` and the literal `v`
/// appends.
pub open spec fn one_literal_effect(f: Seq<char>, v: Seq<char>) -> Option<Seq<char>> {
    if f == "push_start_tag_static"@ {
        Some(start_tag_text(v))
    } else if f == "push_end_tag_static"@ {
        Some(end_tag_text(v))
    } else if f == "finish_void_tag_static"@ {
        Some(seq!['>'])
    } else if f == "push_static_bool_attr"@ {
        Some(bool_attr_text(v))
    } else if f == "push_class_attr"@ {
        Some(class_attr_text(v))
    } else {
        None
    }
}

/// A helper called with `&mut builder.current` and one string literal.
proof fn lemma_run_call_one(c: EmitModel, f: Seq<char>, v: Seq<char>)
    requires
        plain_path(c),
    ensures
        run(c, call_current(c, f, seq![str_token(v)])) == join(one_literal_effect(f, v), Some(Seq::empty())),
{
    let args = current(c) + seq![punct(',')] + seq![str_token(v)];
    lemma_run_call(c, f, args);
    lemma_literal_value(v);
    assert(args.len() == 7);
    assert(args.take(6) == current(c) + seq![punct(',')]);
    assert(args[6] == str_token(v));
    assert(args != current(c));
    assert(helper_effect(c, f, args) == one_literal_effect(f, v));
}

/// A helper called with `&mut builder.current`, a literal name and a
/// literal value.
proof fn lemma_run_static_attr(c: EmitModel, name: Seq<char>, v: Seq<TokenModel>)
    requires
        plain_path(c),
        static_text(v),
    ensures
        run(c, call_current(c, "push_static_attr"@, seq![str_token(name), punct(',')] + by_ref(v)))
            == Some(attr_text(name, escape_attr(text_value(v)))),
{
    let args = current(c) + seq![punct(',')] + (seq![str_token(name), punct(',')] + by_ref(v));
    lemma_run_call(c, "push_static_attr"@, args);
    lemma_literal_value(name);
    assert(args.len() == 10);
    assert(args.take(6) == current(c) + seq![punct(',')]);
    assert(args[6] == str_token(name));
    assert(args[7] == punct(','));
    assert(args[8] == punct('&'));
    assert(args[9] == paren(v));
    assert(args != current(c));
    let r = attr_text(name, escape_attr(text_value(v)));
    assert(r + Seq::<char>::empty() == r);
}

proof fn lemma_some_empty(x: Seq<char>)
    ensures
        join(Some(x), Some(Seq::empty())) == Some(x),
{
    assert(x + Seq::<char>::empty() == x);
}

/// The attributes run to their html.
proof fn lemma_names_differ()
    ensures
        "push_start_tag_static"@ != "push_end_tag_static"@,
        "push_start_tag_static"@ != "finish_void_tag_static"@,
        "push_start_tag_static"@ != "push_static_bool_attr"@,
        "push_start_tag_static"@ != "push_class_attr"@,
        "push_end_tag_static"@ != "finish_void_tag_static"@,
        "push_end_tag_static"@ != "push_static_bool_attr"@,
        "push_end_tag_static"@ != "push_class_attr"@,
        "finish_void_tag_static"@ != "push_static_bool_attr"@,
        "finish_void_tag_static"@ != "push_class_attr"@,
        "push_static_bool_attr"@ != "push_class_attr"@,
{
    reveal_strlit("push_start_tag_static");
    reveal_strlit("push_end_tag_static");
    reveal_strlit("finish_void_tag_static");
    reveal_strlit("push_static_bool_attr");
    reveal_strlit("push_class_attr");
    assert("push_start_tag_static"@[5] != "push_end_tag_static"@[5]);
    assert("push_start_tag_static"@[0] != "finish_void_tag_static"@[0]);
    assert("push_start_tag_static"@[8] != "push_static_bool_attr"@[8]);
    assert("push_start_tag_static"@[5] != "push_class_attr"@[5]);
    assert("push_end_tag_static"@[0] != "finish_void_tag_static"@[0]);
    assert("push_end_tag_static"@[5] != "push_static_bool_attr"@[5]);
    assert("push_end_tag_static"@[5] != "push_class_attr"@[5]);
    assert("finish_void_tag_static"@[0] != "push_static_bool_attr"@[0]);
    assert("finish_void_tag_static"@[0] != "push_class_attr"@[0]);
    assert("push_static_bool_attr"@[5] != "push_class_attr"@[5]);
}

proof fn lemma_run_attrs(c: EmitModel, attrs: Seq<AttrModel>)
    requires
        plain_path(c),
        forall|i: int| 0 <= i < attrs.len() ==> static_attr(#[trigger] attrs[i]),
    ensures
        run(c, attrs_code(c, attrs)) == Some(attrs_html(attrs)),
    decreases attrs.len(),
{
    if attrs.len() > 0 {
        let init = attrs.drop_last();
        let a = attrs.last();
        assert(static_attr(attrs[attrs.len() - 1]));
        assert forall|i: int| 0 <= i < init.len() implies static_attr(#[trigger] init[i]) by {
            assert(init[i] == attrs[i]);
        }
        lemma_run_attrs(c, init);
        if let AttrModel::Static { prefix, segments, value } = a {
            let name = static_attr_name(prefix, segments);
            match value {
                None => {
                    lemma_run_call_one(c, "push_static_bool_attr"@, name);
                    lemma_names_differ();
                    lemma_some_empty(bool_attr_text(name));
                },
                Some(v) => {
                    lemma_run_static_attr(c, name, v);
                },
            }
        }
        lemma_run_concat(c, attrs_code(c, init), attr_code(c, a));
    } else {
        lemma_run_empty(c);
    }
}

/// Class names run to their class attribute.
proof fn lemma_run_classes(c: EmitModel, cs: Seq<SelectorModel>)
    requires
        plain_path(c),
        forall|i: int| 0 <= i < cs.len() ==> is_name(#[trigger] cs[i]),
    ensures
        run(c, classes_code(c, cs)) == Some(classes_html(cs)),
{
    if cs.len() == 0 {
        lemma_run_empty(c);
    } else {
        lemma_leading_names(cs, cs.len() as int);
        lemma_run_call_one(c, "push_class_attr"@, fold_names(cs));
        lemma_names_differ();
        lemma_some_empty(class_attr_text(fold_names(cs)));
    }
}

/// The start of a static element runs to its start tag, classes, id and
/// attributes.
proof fn lemma_run_opened(
    c: EmitModel,
    t: Seq<char>,
    classes: Seq<SelectorModel>,
    id: Option<SelectorModel>,
    attrs: Seq<AttrModel>,
)
    requires
        plain_path(c),
        forall|i: int| 0 <= i < classes.len() ==> is_name(#[trigger] classes[i]),
        id matches Some(s) ==> is_name(s),
        forall|i: int| 0 <= i < attrs.len() ==> static_attr(#[trigger] attrs[i]),
    ensures
        run(
            c,
            call_current(c, "push_start_tag_static"@, seq![str_token(t)]) + classes_code(c, classes) + id_code(c, id)
                + attrs_code(c, attrs),
        ) == Some(start_tag_text(t) + classes_html(classes) + id_html(id) + attrs_html(attrs)),
{
    let start = call_current(c, "push_start_tag_static"@, seq![str_token(t)]);
    lemma_run_call_one(c, "push_start_tag_static"@, t);
    lemma_names_differ();
    lemma_some_empty(start_tag_text(t));
    lemma_run_classes(c, classes);
    match id {
        Some(s) => {
            assert(selector_expr(s) == seq![str_token(s->Name_0)]);
            lemma_literal_value(s->Name_0);
            lemma_run_static_attr(c, "id"@, seq![str_token(s->Name_0)]);
        },
        None => {
            lemma_run_empty(c);
        },
    }
    lemma_run_attrs(c, attrs);
    lemma_run_concat(c, start, classes_code(c, classes));
    lemma_run_concat(c, start + classes_code(c, classes), id_code(c, id));
    lemma_run_concat(c, start + classes_code(c, classes) + id_code(c, id), attrs_code(c, attrs));
}

/// A static element runs to its html, given that its content does.
#[verifier::rlimit(40)]
proof fn lemma_run_element(
    c: EmitModel,
    t: Seq<char>,
    classes: Seq<SelectorModel>,
    id: Option<SelectorModel>,
    attrs: Seq<AttrModel>,
    body: Option<Seq<NodeModel>>,
)
    requires
        plain_path(c),
        forall|i: int| 0 <= i < classes.len() ==> is_name(#[trigger] classes[i]),
        id matches Some(s) ==> is_name(s),
        forall|i: int| 0 <= i < attrs.len() ==> static_attr(#[trigger] attrs[i]),
        body matches Some(ns) ==> run(c, nodes_code(c, ns)) == Some(static_nodes_html(ns)),
    ensures
        run(
            c,
            element_code(
                c,
                TagModel::Static(t),
                classes,
                id,
                attrs,
                match body {
                    Some(ns) => Some(nodes_code(c, ns)),
                    None => None,
                },
            ),
        ) == Some(static_html(NodeModel::Element(TagModel::Static(t), classes, id, attrs, body))),
{
    let start = call_current(c, "push_start_tag_static"@, seq![str_token(t)]);
    let inside = classes_code(c, classes) + id_code(c, id) + attrs_code(c, attrs);
    let opened = start + classes_code(c, classes) + id_code(c, id) + attrs_code(c, attrs);
    lemma_run_opened(c, t, classes, id, attrs);
    assert(opened == start + inside);
    let html_open = start_tag_text(t) + classes_html(classes) + id_html(id) + attrs_html(attrs);
    assert(run(c, opened) == Some(html_open));
    let tail_html = match body {
        None => seq!['>'],
        Some(ns) => seq!['>'] + static_nodes_html(ns) + end_tag_text(t),
    };
    match body {
        None => {
            let tail = call_current(c, "finish_void_tag_static"@, seq![str_token(t)]);
            lemma_run_call_one(c, "finish_void_tag_static"@, t);
            lemma_names_differ();
            lemma_some_empty(seq!['>']);
            lemma_run_concat(c, opened, tail);
            assert(element_code(c, TagModel::Static(t), classes, id, attrs, None) == seq![brace(opened + tail)]);
        },
        Some(ns) => {
            let fin = call(c, "finish_start_tag"@, current(c));
            lemma_run_call(c, "finish_start_tag"@, current(c));
            lemma_some_empty(seq!['>']);
            let end = call_current(c, "push_end_tag_static"@, seq![str_token(t)]);
            lemma_run_call_one(c, "push_end_tag_static"@, t);
            lemma_names_differ();
            lemma_some_empty(end_tag_text(t));
            lemma_run_concat(c, fin, nodes_code(c, ns));
            lemma_run_concat(c, fin + nodes_code(c, ns), end);
            let tail = fin + nodes_code(c, ns) + end;
            lemma_run_concat(c, opened, tail);
            assert(element_code(c, TagModel::Static(t), classes, id, attrs, Some(nodes_code(c, ns))) == seq![brace(opened + tail)]);
        },
    }
    let body_code = match body {
        None => call_current(c, "finish_void_tag_static"@, seq![str_token(t)]),
        Some(ns) => call(c, "finish_start_tag"@, current(c)) + nodes_code(c, ns) + call_current(
            c,
            "push_end_tag_static"@,
            seq![str_token(t)],
        ),
    };
    let whole = opened + body_code;
    assert(run(c, whole) == Some(html_open + tail_html));
    let code = seq![brace(whole)];
    assert(code.subrange(1, 1) == Seq::<TokenModel>::empty());
    lemma_run_empty(c);
    lemma_some_empty(html_open + tail_html);

}

/// Code written for static markup runs to the markup's html: each helper
/// call it makes appends what that helper's contract states, in order.
pub proof fn law_static_markup_html(c: EmitModel, n: NodeModel)
    requires
        plain_path(c),
        static_node(n),
    ensures
        run(c, node_code(c, n)) == Some(static_html(n)),
    decreases n,
{
    match n {
        NodeModel::Render(e) => {
            let code = render_code(c, e);
            let nn = c.crate_path.len() as int;
            assert(code.len() == 5);
            assert(code[3] == paren(by_ref(e)));
            assert(by_ref(e)[1] == paren(e));
            assert(code.subrange(5, 5) == Seq::<TokenModel>::empty());
            lemma_run_empty(c);
            lemma_some_empty(escape_text(text_value(e)));
        },
        NodeModel::Element(tag, classes, id, attrs, body) => {
            if let Some(ns) = body {
                law_static_nodes_html(c, ns);
            }
            lemma_run_element(c, tag->Static_0, classes, id, attrs, body);
            assert(tag == TagModel::Static(tag->Static_0));
        },
        _ => {},
    }
}

/// The same for a sequence of static nodes.
pub proof fn law_static_nodes_html(c: EmitModel, ns: Seq<NodeModel>)
    requires
        plain_path(c),
        static_nodes(ns),
    ensures
        run(c, nodes_code(c, ns)) == Some(static_nodes_html(ns)),
    decreases ns,
{
    if ns.len() == 0 {
        lemma_run_empty(c);
    } else {
        law_static_nodes_html(c, ns.drop_last());
        law_static_markup_html(c, ns.last());
        lemma_run_concat(c, nodes_code(c, ns.drop_last()), node_code(c, ns.last()));
    }
}

// Code that branches: an `if` chain runs one branch, chosen by its
// conditions.

/// The html that code appends when `holds` says which conditions are true:
/// as `run`, and also `if condition { .. }` with an optional `else { .. }`
/// or `else if ..`, where a true condition runs its block and skips the
/// rest of the chain, and a false one goes on to what follows `else`.
/// `None` for code of any other form.
pub open spec fn run_in(c: EmitModel, holds: spec_fn(Seq<TokenModel>) -> bool, code: Seq<TokenModel>) -> Option<Seq<char>>
    decreases code, code.len() + 1,
{
    let n = c.crate_path.len() as int;
    if code.len() == 0 {
        Some(Seq::empty())
    } else if code[0] is Group && code[0]->Group_0 == Delimiter::Brace {
        join(run_in(c, holds, code[0]->Group_1), run_in(c, holds, code.subrange(1, code.len() as int)))
    } else if code.len() >= n + 8 && code.take(n + 5) == helper_prefix(c) && code[n + 5] is Ident
        && code[n + 6] is Group && code[n + 6]->Group_0 == Delimiter::Parenthesis && code[n + 7] == punct(';') {
        join(
            helper_effect(c, code[n + 5]->Ident_0, code[n + 6]->Group_1),
            run_in(c, holds, code.subrange(n + 8, code.len() as int)),
        )
    } else if code.len() >= 5 && code[0] == ident(c.builder) && code[1] == punct('.') && code[2] == ident("push_render"@)
        && code[4] == punct(';') && code[3] is Group && code[3]->Group_0 == Delimiter::Parenthesis
        && code[3]->Group_1.len() == 2 && code[3]->Group_1[0] == punct('&') && code[3]->Group_1[1] is Group
        && code[3]->Group_1[1]->Group_0 == Delimiter::Parenthesis && code[3]->Group_1[1]->Group_1.len() == 1
        && code[3]->Group_1[1]->Group_1[0] is Literal
        && literal_value(code[3]->Group_1[1]->Group_1[0]->Literal_0) is Some {
        join(
            Some(escape_text(literal_value(code[3]->Group_1[1]->Group_1[0]->Literal_0).unwrap())),
            run_in(c, holds, code.subrange(5, code.len() as int)),
        )
    } else if code[0] == ident("if"@) {
        match run_chain(c, holds, code, 0) {
            Some((h, e)) => if 0 < e <= code.len() {
                join(Some(h), run_in(c, holds, code.subrange(e, code.len() as int)))
            } else {
                None
            },
            None => None,
        }
    } else if code[0] == ident("match"@) {
        match first_brace(code, 1) {
            Some(k) => if 1 <= k < code.len() && code[k] is Group {
                join(run_arms(c, holds, code[k]->Group_1, 0), run_in(c, holds, code.subrange(k + 1, code.len() as int)))
            } else {
                None
            },
            None => None,
        }
    } else {
        None
    }
}

/// The html of the `match` arms from `m`: the first arm whose pattern
/// `holds` runs its `{ .. }` block, and no later arm runs; `None` when no
/// arm's pattern holds.
pub open spec fn run_arms(
    c: EmitModel,
    holds: spec_fn(Seq<TokenModel>) -> bool,
    arms: Seq<TokenModel>,
    m: int,
) -> Option<Seq<char>>
    decreases arms, arms.len() - m,
{
    if !(0 <= m < arms.len()) {
        None
    } else {
        match first_arrow(arms, m) {
            None => None,
            Some(p) => if !(m <= p && p + 2 < arms.len() && arms[p + 2] is Group && arms[p + 2]->Group_0
                == Delimiter::Brace) {
                None
            } else {
                let next = if p + 3 < arms.len() && arms[p + 3] == punct(',') {
                    p + 4
                } else {
                    p + 3
                };
                if holds(arms.subrange(m, p)) {
                    run_in(c, holds, arms[p + 2]->Group_1)
                } else {
                    run_arms(c, holds, arms, next)
                }
            },
        }
    }
}

/// The html of the `if` chain at `j`, and where the chain ends: the
/// condition runs up to the first `{ .. }` block; after the block, `else if`
/// goes on with the next link of the chain and `else { .. }` ends it.
pub open spec fn run_chain(
    c: EmitModel,
    holds: spec_fn(Seq<TokenModel>) -> bool,
    code: Seq<TokenModel>,
    j: int,
) -> Option<(Seq<char>, int)>
    decreases code, code.len() - j,
{
    if !(0 <= j < code.len()) {
        None
    } else {
        match first_brace(code, j + 1) {
            None => None,
            Some(k) => if !(j < k < code.len() && code[k] is Group) {
                None
            } else {
                let condition = code.subrange(j + 1, k);
                let then_part = code[k]->Group_1;
                if k + 1 < code.len() && code[k + 1] == ident("else"@) {
                    if k + 2 < code.len() && code[k + 2] == ident("if"@) {
                        match run_chain(c, holds, code, k + 2) {
                            Some((rest_html, e)) => if holds(condition) {
                                match run_in(c, holds, then_part) {
                                    Some(h) => Some((h, e)),
                                    None => None,
                                }
                            } else {
                                Some((rest_html, e))
                            },
                            None => None,
                        }
                    } else if k + 2 < code.len() && code[k + 2] is Group && code[k + 2]->Group_0 == Delimiter::Brace {
                        let else_part = code[k + 2]->Group_1;
                        match if holds(condition) {
                            run_in(c, holds, then_part)
                        } else {
                            run_in(c, holds, else_part)
                        } {
                            Some(h) => Some((h, k + 3)),
                            None => None,
                        }
                    } else {
                        None
                    }
                } else {
                    match if holds(condition) {
                        run_in(c, holds, then_part)
                    } else {
                        Some(Seq::empty())
                    } {
                        Some(h) => Some((h, k + 1)),
                        None => None,
                    }
                }
            },
        }
    }
}

/// Code that runs without branching runs the same whatever the conditions.
proof fn lemma_run_in_run(c: EmitModel, holds: spec_fn(Seq<TokenModel>) -> bool, code: Seq<TokenModel>)
    requires
        run(c, code) is Some,
    ensures
        run_in(c, holds, code) == run(c, code),
    decreases code,
{
    let n = c.crate_path.len() as int;
    if code.len() == 0 {
    } else if code[0] is Group && code[0]->Group_0 == Delimiter::Brace {
        lemma_run_in_run(c, holds, code[0]->Group_1);
        lemma_run_in_run(c, holds, code.subrange(1, code.len() as int));
    } else if code.len() >= n + 8 && code.take(n + 5) == helper_prefix(c) && code[n + 5] is Ident
        && code[n + 6] is Group && code[n + 6]->Group_0 == Delimiter::Parenthesis && code[n + 7] == punct(';') {
        lemma_run_in_run(c, holds, code.subrange(n + 8, code.len() as int));
    } else {
        lemma_run_in_run(c, holds, code.subrange(5, code.len() as int));
    }
}

proof fn lemma_run_empty_in(c: EmitModel, holds: spec_fn(Seq<TokenModel>) -> bool)
    ensures
        run_in(c, holds, Seq::empty()) == Some(Seq::<char>::empty()),
{
}

/// Names that are not Rust keywords where the code names a path or the
/// builder: the crate path does not start with `if` or `match`, and the
/// builder is called neither.
pub open spec fn keyword_free(c: EmitModel) -> bool {
    &&& c.builder != "if"@ && c.builder != "match"@
    &&& c.crate_path.len() > 0 ==> c.crate_path[0] != ident("if"@) && c.crate_path[0] != ident("match"@)
}

/// An `if` chain whose conditions hold no `{ .. }` block and whose
/// branches are static markup.
pub open spec fn static_if(i: IfModel) -> bool
    decreases i,
{
    &&& no_group(i.condition, 0, i.condition.len() as int, Delimiter::Brace)
    &&& static_nodes(i.then_body)
    &&& match i.else_branch {
        ElseModel::Nothing => true,
        ElseModel::If(b) => static_if(*b),
        ElseModel::Block(ns) => static_nodes(ns),
    }
}

/// The html of the one branch of an `if` chain that runs: the first whose
/// condition holds, else the final `else` block, else nothing.
pub open spec fn chosen_html(holds: spec_fn(Seq<TokenModel>) -> bool, i: IfModel) -> Seq<char>
    decreases i,
{
    if holds(i.condition) {
        static_nodes_html(i.then_body)
    } else {
        match i.else_branch {
            ElseModel::Nothing => Seq::empty(),
            ElseModel::If(b) => chosen_html(holds, *b),
            ElseModel::Block(ns) => static_nodes_html(ns),
        }
    }
}

proof fn lemma_run_chain(c: EmitModel, holds: spec_fn(Seq<TokenModel>) -> bool, code: Seq<TokenModel>, j: int, i: IfModel)
    requires
        plain_path(c),
        0 <= j <= code.len(),
        code.subrange(j, code.len() as int) == if_code(c, i),
        static_if(i),
    ensures
        run_chain(c, holds, code, j) == Some((chosen_html(holds, i), code.len() as int)),
    decreases i,
{
    let tail = if_code(c, i);
    let k = j + 1 + i.condition.len();
    assert(tail.len() >= i.condition.len() + 2);
    assert(tail.len() == code.len() - j);
    assert(tail[0] == ident("if"@));
    assert(code[j] == tail[0]);
    assert forall|p: int| j + 1 <= p < k implies !is_group(#[trigger] code[p], Delimiter::Brace) by {
        assert(code[p] == tail[p - j]);
        assert(tail[p - j] == i.condition[p - j - 1]);
    }
    assert(code[k] == tail[k - j]);
    assert(tail[k - j] == brace(nodes_code(c, i.then_body)));
    lemma_first_brace(code, j + 1, k);
    assert forall|q: int| 0 <= q < i.condition.len() implies #[trigger] code.subrange(j + 1, k)[q] == i.condition[q] by {
        assert(code[j + 1 + q] == tail[1 + q]);
    }
    assert(code.subrange(j + 1, k) =~= i.condition);
    law_static_nodes_html(c, i.then_body);
    lemma_run_in_run(c, holds, nodes_code(c, i.then_body));
    match i.else_branch {
        ElseModel::Nothing => {
            assert(tail.len() == k + 1 - j);
        },
        ElseModel::If(b) => {
            assert(code[k + 1] == tail[k + 1 - j]);
            let nested = if_code(c, *b);
            assert(tail == seq![ident("if"@)] + i.condition + seq![brace(nodes_code(c, i.then_body))] + (seq![ident("else"@)] + nested));
            assert(tail.len() == k - j + 2 + nested.len());
            assert forall|q: int| 0 <= q < nested.len() implies #[trigger] code.subrange(k + 2, code.len() as int)[q] == nested[q] by {
                assert(code[k + 2 + q] == tail[k + 2 - j + q]);
            }
            assert(code.subrange(k + 2, code.len() as int) =~= nested);
            assert(if_code(c, *b)[0] == ident("if"@));
            assert(code[k + 2] == if_code(c, *b)[0]);
            lemma_run_chain(c, holds, code, k + 2, *b);
        },
        ElseModel::Block(ns) => {
            assert(tail.len() == k + 3 - j);
            assert(code[k + 1] == tail[k + 1 - j]);
            assert(code[k + 2] == tail[k + 2 - j]);
            assert(tail[k + 2 - j] == brace(nodes_code(c, ns)));
            law_static_nodes_html(c, ns);
            lemma_run_in_run(c, holds, nodes_code(c, ns));
        },
    }
}

/// The code written for an `if` node runs exactly one branch of its chain:
/// for every way the conditions can come out, it appends the html of the
/// first branch whose condition holds, or of the final `else`, or nothing;
/// each `@else if` is written behind `else`, so no later branch runs after
/// an earlier one has.
pub proof fn law_if_chain_html(c: EmitModel, holds: spec_fn(Seq<TokenModel>) -> bool, i: IfModel)
    requires
        plain_path(c),
        keyword_free(c),
        static_if(i),
    ensures
        run_in(c, holds, node_code(c, NodeModel::If(i))) == Some(chosen_html(holds, i)),
{
    let code = if_code(c, i);
    let n = c.crate_path.len() as int;
    assert(code.subrange(0, code.len() as int) == code);
    lemma_run_chain(c, holds, code, 0, i);
    assert(code[0] == ident("if"@));
    if code.len() >= n + 8 && code.take(n + 5) == helper_prefix(c) {
        assert(code.take(n + 5)[0] == helper_prefix(c)[0]);
        if n > 0 {
            assert(helper_prefix(c)[0] == c.crate_path[0]);
        } else {
            assert(helper_prefix(c)[0] == punct(':'));
        }
    }
    assert(code[0] != ident(c.builder));
    assert(!(code[0] is Group));
    assert(code.subrange(code.len() as int, code.len() as int) == Seq::<TokenModel>::empty());
    lemma_run_empty_in(c, holds);
    lemma_some_empty(chosen_html(holds, i));
    assert(run_in(c, holds, code) == Some(chosen_html(holds, i)));
    assert(node_code(c, NodeModel::If(i)) == code);
}

/// What `markup!` writes for `@if c1 { b1 } @else if c2 { b2 } .. @else { last }`
/// runs the one branch that the conditions choose, for chains of static
/// branches: reading the chain and writing its code compose to the first
/// branch whose condition holds, or the final block, or nothing.
pub proof fn law_if_chain_expansion(
    c: EmitModel,
    holds: spec_fn(Seq<TokenModel>) -> bool,
    links: Seq<(Seq<TokenModel>, Seq<TokenModel>)>,
    last: Option<Seq<TokenModel>>,
    children: bool,
)
    requires
        plain_path(c),
        keyword_free(c),
        chain_ok(links, last, children),
        static_if(chain_model(links, last, children)),
    ensures
        markup_nodes(seq![TokenModel::Punct('@')] + chain_tokens(links, last), children) matches NodesScan::Done(ns)
            && run_in(c, holds, nodes_code(c, ns)) == Some(chosen_html(holds, chain_model(links, last, children))),
{
    let m = chain_model(links, last, children);
    law_if_chain_nodes(links, last, children);
    law_if_chain_html(c, holds, m);
    let ns = seq![NodeModel::If(m)];
    assert(ns.drop_last() == Seq::<NodeModel>::empty());
    assert(nodes_code(c, Seq::<NodeModel>::empty()) == Seq::<TokenModel>::empty());
    assert(Seq::<TokenModel>::empty() + node_code(c, NodeModel::If(m)) == node_code(c, NodeModel::If(m)));
    assert(nodes_code(c, ns) == node_code(c, NodeModel::If(m)));
}

/// The code of one `match` arm.
pub open spec fn arm_code(c: EmitModel, arm: (Seq<TokenModel>, Seq<NodeModel>)) -> Seq<TokenModel> {
    arm.0 + seq![punct('='), punct('>'), brace(nodes_code(c, arm.1)), punct(',')]
}

proof fn lemma_arms_code_first(c: EmitModel, arms: Seq<(Seq<TokenModel>, Seq<NodeModel>)>)
    requires
        arms.len() > 0,
    ensures
        arms_code(c, arms) == arm_code(c, arms[0]) + arms_code(c, arms.drop_first()),
    decreases arms.len(),
{
    if arms.len() == 1 {
        assert(arms.drop_last() == Seq::<(Seq<TokenModel>, Seq<NodeModel>)>::empty());
        assert(arms.drop_first() == Seq::<(Seq<TokenModel>, Seq<NodeModel>)>::empty());
        assert(arms_code(c, Seq::<(Seq<TokenModel>, Seq<NodeModel>)>::empty()) == Seq::<TokenModel>::empty());
        assert(Seq::<TokenModel>::empty() + arm_code(c, arms[0]) == arm_code(c, arms[0]));
        assert(arm_code(c, arms[0]) + Seq::<TokenModel>::empty() == arm_code(c, arms[0]));
    } else {
        let init = arms.drop_last();
        let tail = arms.drop_first();
        lemma_arms_code_first(c, init);
        assert(init.drop_first() == tail.drop_last());
        assert(init[0] == arms[0]);
        assert(tail.last() == arms.last());
        assert(arms_code(c, arms) == arms_code(c, init) + arm_code(c, arms.last()));
        assert(arms_code(c, tail) == arms_code(c, tail.drop_last()) + arm_code(c, tail.last()));
        assert(arm_code(c, arms[0]) + arms_code(c, tail.drop_last()) + arm_code(c, arms.last()) == arm_code(
            c,
            arms[0],
        ) + (arms_code(c, tail.drop_last()) + arm_code(c, arms.last())));
    }
}

/// `match` arms whose patterns hold no `=>` and whose bodies are static
/// markup.
pub open spec fn static_arms(arms: Seq<(Seq<TokenModel>, Seq<NodeModel>)>) -> bool {
    forall|i: int| 0 <= i < arms.len() ==> no_arrow(#[trigger] arms[i].0, 0, arms[i].0.len() as int) && static_nodes(
        arms[i].1,
    )
}

/// The html of the one arm that runs: the first whose pattern holds;
/// `None` when none does.
pub open spec fn chosen_arm_html(holds: spec_fn(Seq<TokenModel>) -> bool, arms: Seq<(Seq<TokenModel>, Seq<NodeModel>)>) -> Option<Seq<char>>
    decreases arms.len(),
{
    if arms.len() == 0 {
        None
    } else if holds(arms[0].0) {
        Some(static_nodes_html(arms[0].1))
    } else {
        chosen_arm_html(holds, arms.drop_first())
    }
}

proof fn lemma_run_arms(
    c: EmitModel,
    holds: spec_fn(Seq<TokenModel>) -> bool,
    ts: Seq<TokenModel>,
    m: int,
    arms: Seq<(Seq<TokenModel>, Seq<NodeModel>)>,
)
    requires
        plain_path(c),
        0 <= m <= ts.len(),
        ts.subrange(m, ts.len() as int) == arms_code(c, arms),
        static_arms(arms),
    ensures
        run_arms(c, holds, ts, m) == chosen_arm_html(holds, arms),
    decreases arms.len(),
{
    let tail = arms_code(c, arms);
    assert(tail.len() == ts.len() - m);
    if arms.len() == 0 {
        assert(m == ts.len());
    } else {
        lemma_arms_code_first(c, arms);
        let pat = arms[0].0;
        let body = arms[0].1;
        let more = arms.drop_first();
        let p = m + pat.len();
        assert(no_arrow(pat, 0, pat.len() as int) && static_nodes(body));
        assert(tail == pat + seq![punct('='), punct('>'), brace(nodes_code(c, body)), punct(',')] + arms_code(c, more));
        assert(ts[p] == tail[p - m]);
        assert(ts[p + 1] == tail[p + 1 - m]);
        assert(ts[p + 2] == tail[p + 2 - m]);
        assert(ts[p + 3] == tail[p + 3 - m]);
        assert forall|i: int| m <= i < p implies !#[trigger] arrow_at(ts, i) by {
            assert(ts[i] == tail[i - m]);
            assert(tail[i - m] == pat[i - m]);
            if i + 1 < p {
                assert(ts[i + 1] == tail[i + 1 - m]);
                assert(tail[i + 1 - m] == pat[i + 1 - m]);
                assert(!arrow_at(pat, i - m));
            }
        }
        lemma_first_arrow(ts, m, p);
        assert forall|q: int| 0 <= q < pat.len() implies #[trigger] ts.subrange(m, p)[q] == pat[q] by {
            assert(ts[m + q] == tail[q]);
        }
        assert(ts.subrange(m, p) =~= pat);
        if holds(pat) {
            law_static_nodes_html(c, body);
            lemma_run_in_run(c, holds, nodes_code(c, body));
        } else {
            let nested = arms_code(c, more);
            assert forall|q: int| 0 <= q < nested.len() implies #[trigger] ts.subrange(p + 4, ts.len() as int)[q]
                == nested[q] by {
                assert(ts[p + 4 + q] == tail[p + 4 - m + q]);
            }
            assert(ts.subrange(p + 4, ts.len() as int) =~= nested);
            assert forall|i: int| 0 <= i < more.len() implies no_arrow(#[trigger] more[i].0, 0, more[i].0.len() as int)
                && static_nodes(more[i].1) by {
                assert(more[i] == arms[i + 1]);
            }
            lemma_run_arms(c, holds, ts, p + 4, more);
        }
    }
}

/// The code written for a `match` node runs exactly one arm: for every way
/// the patterns can come out, it appends the html of the first arm whose
/// pattern holds, and of no other arm.
pub proof fn law_match_html(
    c: EmitModel,
    holds: spec_fn(Seq<TokenModel>) -> bool,
    scrutinee: Seq<TokenModel>,
    arms: Seq<(Seq<TokenModel>, Seq<NodeModel>)>,
)
    requires
        plain_path(c),
        keyword_free(c),
        no_group(scrutinee, 0, scrutinee.len() as int, Delimiter::Brace),
        static_arms(arms),
    ensures
        run_in(c, holds, node_code(c, NodeModel::Match(scrutinee, arms))) == chosen_arm_html(holds, arms),
{
    let code = node_code(c, NodeModel::Match(scrutinee, arms));
    let n = c.crate_path.len() as int;
    let k: int = 1int + scrutinee.len();
    let inner = arms_code(c, arms);
    assert(code == seq![ident("match"@)] + scrutinee + seq![brace(inner)]);
    assert(code.len() == k + 1);
    assert(code[0] == ident("match"@));
    assert forall|p: int| 1 <= p < k implies !is_group(#[trigger] code[p], Delimiter::Brace) by {
        assert(code[p] == scrutinee[p - 1]);
    }
    assert(code[k] == brace(inner));
    lemma_first_brace(code, 1, k);
    assert(inner.subrange(0, inner.len() as int) == inner);
    lemma_run_arms(c, holds, inner, 0, arms);
    if code.len() >= n + 8 && code.take(n + 5) == helper_prefix(c) {
        assert(code.take(n + 5)[0] == helper_prefix(c)[0]);
        if n > 0 {
            assert(helper_prefix(c)[0] == c.crate_path[0]);
        } else {
            assert(helper_prefix(c)[0] == punct(':'));
        }
    }
    assert(code[0] != ident(c.builder));
    assert(!(code[0] is Group));
    reveal_strlit("if");
    reveal_strlit("match");
    assert("if"@.len() != "match"@.len());
    assert(code.subrange(k + 1, code.len() as int) == Seq::<TokenModel>::empty());
    lemma_run_empty_in(c, holds);
    match chosen_arm_html(holds, arms) {
        Some(h) => lemma_some_empty(h),
        None => {},
    }
}

/// What `markup!` writes for `@match scrutinee { p1 => { b1 }, .. }` runs
/// the one arm that the patterns choose, for arms of static markup:
/// reading the arms and writing their code compose to the first arm whose
/// pattern holds.
pub proof fn law_match_expansion(
    c: EmitModel,
    holds: spec_fn(Seq<TokenModel>) -> bool,
    scrutinee: Seq<TokenModel>,
    arms: Seq<(Seq<TokenModel>, Seq<TokenModel>)>,
    children: bool,
)
    requires
        plain_path(c),
        keyword_free(c),
        no_group(scrutinee, 0, scrutinee.len() as int, Delimiter::Brace),
        arms_ok(arms, children),
        static_arms(arms_read(arms, children)),
    ensures
        markup_nodes(
            seq![TokenModel::Punct('@'), TokenModel::Ident("match"@)] + scrutinee + seq![
                TokenModel::Group(Delimiter::Brace, arm_tokens(arms)),
            ],
            children,
        ) matches NodesScan::Done(ns) && run_in(c, holds, nodes_code(c, ns)) == chosen_arm_html(
            holds,
            arms_read(arms, children),
        ),
{
    let read = arms_read(arms, children);
    law_match_nodes(scrutinee, arms, children);
    law_match_html(c, holds, scrutinee, read);
    let n = NodeModel::Match(scrutinee, read);
    let ns = seq![n];
    assert(ns.drop_last() == Seq::<NodeModel>::empty());
    assert(nodes_code(c, Seq::<NodeModel>::empty()) == Seq::<TokenModel>::empty());
    assert(Seq::<TokenModel>::empty() + node_code(c, n) == node_code(c, n));
    assert(nodes_code(c, ns) == node_code(c, n));
}

} // verus!
