use vstd::prelude::*;
use vstd::string::StringExecFns;
use crate::cursor::{
    Delimiter, Group, Token, TokenModel, clone_stream, stream_model, lemma_stream_model_push,
    lemma_stream_model_concat,
};
use crate::html::push_char;
use crate::dsl::{Attr, AttrModel, attr_model, join_dashed, join_with_dash, strings_model};
use crate::nodes::{
    Selector, SelectorModel, selector_model, selectors_model, Tag, TagModel, Element, Node, NodeModel,
    IfModel, ElseModel, ChildrenModel, IfNode, ElseBranch, MatchArm, node_model, nodes_model, if_model,
    arms_nodes_model, tag_model, opt_selector_model, attrs_model, MarkupParser, NodesScan, markup_nodes,
    loop_tokens, law_loop_nodes, statement_tokens, statement_node, statement_keyword, law_statement_nodes,
};
use crate::cursor::{ParseError, no_group, no_punct};
use crate::dsl::error_at;

verus! {

// Writing Rust code as tokens.

pub open spec fn ident(s: Seq<char>) -> TokenModel {
    TokenModel::Ident(s)
}

pub open spec fn punct(c: char) -> TokenModel {
    TokenModel::Punct(c)
}

pub open spec fn paren(ts: Seq<TokenModel>) -> TokenModel {
    TokenModel::Group(Delimiter::Parenthesis, ts)
}

pub open spec fn brace(ts: Seq<TokenModel>) -> TokenModel {
    TokenModel::Group(Delimiter::Brace, ts)
}

/// How a character is written inside a Rust string literal.
pub open spec fn literal_char(c: char) -> Seq<char> {
    if c == '"' {
        seq!['\\', '"']
    } else if c == '\\' {
        seq!['\\', '\\']
    } else if c == '\r' {
        seq!['\\', 'r']
    } else {
        seq![c]
    }
}

pub open spec fn literal_body(s: Seq<char>) -> Seq<char>
    decreases s.len(),
{
    if s.len() == 0 {
        Seq::empty()
    } else {
        literal_body(s.drop_last()) + literal_char(s.last())
    }
}

/// The Rust string literal whose value is `s`.
pub open spec fn string_literal(s: Seq<char>) -> Seq<char> {
    seq!['"'] + literal_body(s) + seq!['"']
}

/// A string literal token holding `s`.
pub open spec fn str_token(s: Seq<char>) -> TokenModel {
    TokenModel::Literal(string_literal(s))
}

/// Appends one token.
fn push_token(out: &mut Vec<Token>, t: Token)
    ensures
        stream_model(final(out)@) == stream_model(old(out)@).push(crate::cursor::token_model(t)),
{
    proof {
        lemma_stream_model_push(out@, t);
    }
    out.push(t);
}

/// Appends an identifier.
fn push_ident(out: &mut Vec<Token>, s: &str)
    ensures
        stream_model(final(out)@) == stream_model(old(out)@).push(ident(s@)),
{
    push_token(out, Token::Ident(String::from_str(s)));
}

/// Appends an identifier held in a string.
fn push_ident_string(out: &mut Vec<Token>, s: &String)
    ensures
        stream_model(final(out)@) == stream_model(old(out)@).push(ident(s@)),
{
    push_token(out, Token::Ident(s.clone()));
}

/// Appends a punctuation character.
fn push_punct(out: &mut Vec<Token>, c: char)
    ensures
        stream_model(final(out)@) == stream_model(old(out)@).push(punct(c)),
{
    push_token(out, Token::Punct(c));
}

/// Appends a group around `inner`.
fn push_group(out: &mut Vec<Token>, delimiter: Delimiter, inner: Vec<Token>)
    ensures
        stream_model(final(out)@) == stream_model(old(out)@).push(
            TokenModel::Group(delimiter, stream_model(inner@)),
        ),
{
    push_token(out, Token::Group(Group { delimiter, stream: inner }));
}

/// Appends a copy of a stream.
fn push_stream(out: &mut Vec<Token>, ts: &Vec<Token>)
    ensures
        stream_model(final(out)@) == stream_model(old(out)@) + stream_model(ts@),
{
    let mut copy = clone_stream(ts);
    proof {
        lemma_stream_model_concat(out@, copy@);
    }
    out.append(&mut copy);
}

/// Appends tokens, moving them.
fn push_all(out: &mut Vec<Token>, ts: Vec<Token>)
    ensures
        stream_model(final(out)@) == stream_model(old(out)@) + stream_model(ts@),
{
    let mut ts = ts;
    proof {
        lemma_stream_model_concat(out@, ts@);
    }
    out.append(&mut ts);
}

/// The text of a Rust string literal holding `value`.
pub fn string_literal_text(value: &str) -> (r: String)
    ensures
        r@ == string_literal(value@),
{
    broadcast use vstd::string::group_string_axioms;

    let mut out = String::new();
    push_char(&mut out, '"');
    let ghost start = out@;
    for ch in it: value.chars()
        invariant
            it.seq() == value@,
            start == seq!['"'],
            out@ == start + literal_body(value@.take(it.index() as int)),
    {
        proof {
            let i = it.index() as int;
            assert(value@.take(i + 1).drop_last() == value@.take(i));
        }
        if ch == '"' {
            push_char(&mut out, '\\');
            push_char(&mut out, '"');
        } else if ch == '\\' {
            push_char(&mut out, '\\');
            push_char(&mut out, '\\');
        } else if ch == '\r' {
            push_char(&mut out, '\\');
            push_char(&mut out, 'r');
        } else {
            push_char(&mut out, ch);
        }
    }
    assert(value@.take(value@.len() as int) == value@);
    push_char(&mut out, '"');
    out
}

/// Appends a string literal token holding `value`.
fn push_str_token(out: &mut Vec<Token>, value: &str)
    ensures
        stream_model(final(out)@) == stream_model(old(out)@).push(str_token(value@)),
{
    let text = string_literal_text(value);
    push_token(out, Token::Literal(text));
}

// The context of generated code.

/// What generated code refers to: the path of this library, the builder
/// that it writes into, and the variable holding a component's children,
/// where there is one.
pub struct Emitter {
    pub crate_path: Vec<Token>,
    pub builder: String,
    pub children: Option<String>,
}

/// The meaning of an [`Emitter`].
pub struct EmitModel {
    pub crate_path: Seq<TokenModel>,
    pub builder: Seq<char>,
    pub children: Option<Seq<char>>,
}

pub open spec fn emitter_model(e: &Emitter) -> EmitModel {
    EmitModel {
        crate_path: stream_model(e.crate_path@),
        builder: e.builder@,
        children: match e.children {
            Some(c) => Some(c@),
            None => None,
        },
    }
}

/// `crate::template::f`.
pub open spec fn helper(c: EmitModel, f: Seq<char>) -> Seq<TokenModel> {
    c.crate_path + seq![punct(':'), punct(':'), ident("template"@), punct(':'), punct(':'), ident(f)]
}

/// `&mut builder.current`.
pub open spec fn current(c: EmitModel) -> Seq<TokenModel> {
    seq![punct('&'), ident("mut"@), ident(c.builder), punct('.'), ident("current"@)]
}

/// `crate::template::f(args);`.
pub open spec fn call(c: EmitModel, f: Seq<char>, args: Seq<TokenModel>) -> Seq<TokenModel> {
    helper(c, f) + seq![paren(args), punct(';')]
}

/// `crate::template::f(&mut builder.current, rest);`.
pub open spec fn call_current(c: EmitModel, f: Seq<char>, rest: Seq<TokenModel>) -> Seq<TokenModel> {
    call(c, f, current(c) + seq![punct(',')] + rest)
}

/// `&(e)`.
pub open spec fn by_ref(e: Seq<TokenModel>) -> Seq<TokenModel> {
    seq![punct('&'), paren(e)]
}

/// `builder.push_render(&(e));`: renders a value in place.
pub open spec fn render_code(c: EmitModel, e: Seq<TokenModel>) -> Seq<TokenModel> {
    seq![ident(c.builder), punct('.'), ident("push_render"@), paren(by_ref(e)), punct(';')]
}

/// `keyword tokens;`.
pub open spec fn keyword_code(keyword: Seq<char>, ts: Seq<TokenModel>) -> Seq<TokenModel> {
    seq![ident(keyword)] + ts + seq![punct(';')]
}

impl Emitter {
    /// Appends `crate::template::f`.
    fn push_helper(&self, out: &mut Vec<Token>, f: &str)
        ensures
            stream_model(final(out)@) == stream_model(old(out)@) + helper(emitter_model(self), f@),
    {
        let ghost start = stream_model(out@);
        push_stream(out, &self.crate_path);
        push_punct(out, ':');
        push_punct(out, ':');
        push_ident(out, "template");
        push_punct(out, ':');
        push_punct(out, ':');
        push_ident(out, f);
        assert(stream_model(out@) == start + helper(emitter_model(self), f@));
    }

    /// Appends `&mut builder.current`.
    fn push_current(&self, out: &mut Vec<Token>)
        ensures
            stream_model(final(out)@) == stream_model(old(out)@) + current(emitter_model(self)),
    {
        let ghost start = stream_model(out@);
        push_punct(out, '&');
        push_ident(out, "mut");
        push_ident_string(out, &self.builder);
        push_punct(out, '.');
        push_ident(out, "current");
        assert(stream_model(out@) == start + current(emitter_model(self)));
    }

    /// Appends `crate::template::f(args);`.
    fn push_call(&self, out: &mut Vec<Token>, f: &str, args: Vec<Token>)
        ensures
            stream_model(final(out)@) == stream_model(old(out)@) + call(emitter_model(self), f@, stream_model(args@)),
    {
        let ghost start = stream_model(out@);
        self.push_helper(out, f);
        push_group(out, Delimiter::Parenthesis, args);
        push_punct(out, ';');
        assert(stream_model(out@) == start + call(emitter_model(self), f@, stream_model(args@)));
    }

    /// Appends `crate::template::f(&mut builder.current, rest);`.
    fn push_call_current(&self, out: &mut Vec<Token>, f: &str, rest: Vec<Token>)
        ensures
            stream_model(final(out)@) == stream_model(old(out)@) + call_current(emitter_model(self), f@, stream_model(rest@)),
    {
        let mut args: Vec<Token> = Vec::new();
        assert(stream_model(args@) == Seq::<TokenModel>::empty());
        self.push_current(&mut args);
        push_punct(&mut args, ',');
        push_all(&mut args, rest);
        assert(stream_model(args@) == current(emitter_model(self)) + seq![punct(',')] + stream_model(rest@));
        self.push_call(out, f, args);
    }

    /// Appends `builder.push_render(&(e));`.
    fn push_render_code(&self, out: &mut Vec<Token>, e: &Vec<Token>)
        ensures
            stream_model(final(out)@) == stream_model(old(out)@) + render_code(emitter_model(self), stream_model(e@)),
    {
        let ghost start = stream_model(out@);
        let mut args: Vec<Token> = Vec::new();
        assert(stream_model(args@) == Seq::<TokenModel>::empty());
        push_punct(&mut args, '&');
        push_group(&mut args, Delimiter::Parenthesis, clone_stream(e));
        assert(stream_model(args@) == by_ref(stream_model(e@)));
        push_ident_string(out, &self.builder);
        push_punct(out, '.');
        push_ident(out, "push_render");
        push_group(out, Delimiter::Parenthesis, args);
        push_punct(out, ';');
        assert(stream_model(out@) == start + render_code(emitter_model(self), stream_model(e@)));
    }
}

/// Appends `keyword tokens;`.
fn push_keyword_code(out: &mut Vec<Token>, keyword: &str, ts: &Vec<Token>)
    ensures
        stream_model(final(out)@) == stream_model(old(out)@) + keyword_code(keyword@, stream_model(ts@)),
{
    let ghost start = stream_model(out@);
    push_ident(out, keyword);
    push_stream(out, ts);
    push_punct(out, ';');
    assert(stream_model(out@) == start + keyword_code(keyword@, stream_model(ts@)));
}

// Attributes.

/// The name of an attribute written out: its prefix, then its segments
/// joined by `-`.
pub open spec fn static_attr_name(prefix: Option<Seq<char>>, segments: Seq<Seq<char>>) -> Seq<char> {
    match prefix {
        Some(p) => p + join_dashed(segments),
        None => join_dashed(segments),
    }
}

/// The code that writes one attribute into the start tag.
pub open spec fn attr_code(c: EmitModel, a: AttrModel) -> Seq<TokenModel> {
    match a {
        AttrModel::Spread(e) => call_current(c, "push_attrs"@, by_ref(e)),
        AttrModel::Static { prefix, segments, value } => match value {
            Some(v) => call_current(
                c,
                "push_static_attr"@,
                seq![str_token(static_attr_name(prefix, segments)), punct(',')] + by_ref(v),
            ),
            None => call_current(c, "push_static_bool_attr"@, seq![str_token(static_attr_name(prefix, segments))]),
        },
        AttrModel::Literal { name, value } => match value {
            Some(v) => call_current(c, "push_attr"@, seq![punct('&'), TokenModel::Literal(name), punct(',')] + by_ref(v)),
            None => call_current(c, "push_bool_attr"@, seq![punct('&'), TokenModel::Literal(name)]),
        },
        AttrModel::Dynamic { name, value } => match value {
            Some(v) => call_current(c, "push_attr"@, by_ref(name) + seq![punct(',')] + by_ref(v)),
            None => call_current(c, "push_bool_attr"@, by_ref(name)),
        },
    }
}

/// The code of each attribute in turn.
pub open spec fn attrs_code(c: EmitModel, attrs: Seq<AttrModel>) -> Seq<TokenModel>
    decreases attrs.len(),
{
    if attrs.len() == 0 {
        Seq::empty()
    } else {
        attrs_code(c, attrs.drop_last()) + attr_code(c, attrs.last())
    }
}

/// `&(e)` as tokens.
fn by_ref_tokens(e: &Vec<Token>) -> (r: Vec<Token>)
    ensures
        stream_model(r@) == by_ref(stream_model(e@)),
{
    let mut r: Vec<Token> = Vec::new();
    assert(stream_model(r@) == Seq::<TokenModel>::empty());
    push_punct(&mut r, '&');
    push_group(&mut r, Delimiter::Parenthesis, clone_stream(e));
    assert(stream_model(r@) == by_ref(stream_model(e@)));
    r
}

impl Emitter {
    /// Writes the code of one attribute.
    pub fn emit_attr(&self, out: &mut Vec<Token>, attr: &Attr)
        ensures
            stream_model(final(out)@) == stream_model(old(out)@) + attr_code(emitter_model(self), attr_model(*attr)),
    {
        let code = self.attr_tokens(attr);
        push_all(out, code);
    }

    fn attr_tokens(&self, attr: &Attr) -> (code: Vec<Token>)
        ensures
            stream_model(code@) == attr_code(emitter_model(self), attr_model(*attr)),
    {
        let mut code: Vec<Token> = Vec::new();
        assert(stream_model(code@) == Seq::<TokenModel>::empty());
        match attr {
            Attr::Spread(e) => {
                self.push_call_current(&mut code, "push_attrs", by_ref_tokens(e));
                assert(stream_model(code@) == attr_code(emitter_model(self), attr_model(*attr)));
            },
            Attr::Static { prefix, segments, value } => {
                let mut name = match prefix {
                    Some(p) => p.clone(),
                    None => String::new(),
                };
                let joined = join_with_dash(segments);
                name.append(joined.as_str());
                assert(name@ == static_attr_name(attr_model(*attr)->Static_prefix, strings_model(segments@)));
                let mut rest: Vec<Token> = Vec::new();
                assert(stream_model(rest@) == Seq::<TokenModel>::empty());
                push_str_token(&mut rest, name.as_str());
                match value {
                    Some(v) => {
                        push_punct(&mut rest, ',');
                        push_all(&mut rest, by_ref_tokens(v));
                        assert(stream_model(rest@) == seq![str_token(name@), punct(',')] + by_ref(stream_model(v@)));
                        self.push_call_current(&mut code, "push_static_attr", rest);
                assert(stream_model(code@) == attr_code(emitter_model(self), attr_model(*attr)));
                    },
                    None => {
                        self.push_call_current(&mut code, "push_static_bool_attr", rest);
                assert(stream_model(code@) == attr_code(emitter_model(self), attr_model(*attr)));
                    },
                }
            },
            Attr::Literal { name, value } => {
                let mut rest: Vec<Token> = Vec::new();
                assert(stream_model(rest@) == Seq::<TokenModel>::empty());
                push_punct(&mut rest, '&');
                push_token(&mut rest, Token::Literal(name.clone()));
                assert(stream_model(rest@) == seq![punct('&'), TokenModel::Literal(name@)]);
                match value {
                    Some(v) => {
                        push_punct(&mut rest, ',');
                        push_all(&mut rest, by_ref_tokens(v));
                        assert(stream_model(rest@) == seq![punct('&'), TokenModel::Literal(name@), punct(',')] + by_ref(stream_model(v@)));
                        self.push_call_current(&mut code, "push_attr", rest);
                assert(stream_model(code@) == attr_code(emitter_model(self), attr_model(*attr)));
                    },
                    None => {
                        self.push_call_current(&mut code, "push_bool_attr", rest);
                assert(stream_model(code@) == attr_code(emitter_model(self), attr_model(*attr)));
                    },
                }
            },
            Attr::Dynamic { name, value } => {
                let mut rest = by_ref_tokens(name);
                match value {
                    Some(v) => {
                        push_punct(&mut rest, ',');
                        push_all(&mut rest, by_ref_tokens(v));
                        assert(stream_model(rest@) == by_ref(stream_model(name@)) + seq![punct(',')] + by_ref(stream_model(v@)));
                        self.push_call_current(&mut code, "push_attr", rest);
                assert(stream_model(code@) == attr_code(emitter_model(self), attr_model(*attr)));
                    },
                    None => {
                        self.push_call_current(&mut code, "push_bool_attr", rest);
                assert(stream_model(code@) == attr_code(emitter_model(self), attr_model(*attr)));
                    },
                }
            },
        }
        code
    }

    /// Writes the code of each attribute in turn.
    pub fn emit_attrs(&self, out: &mut Vec<Token>, attrs: &Vec<Attr>)
        ensures
            stream_model(final(out)@) == stream_model(old(out)@) + attrs_code(
                emitter_model(self),
                crate::nodes::attrs_model(attrs@),
            ),
    {
        let ghost start = stream_model(out@);
        let ghost c = emitter_model(self);
        let mut i: usize = 0;
        while i < attrs.len()
            invariant
                i <= attrs@.len(),
                c == emitter_model(self),
                stream_model(out@) == start + attrs_code(c, crate::nodes::attrs_model(attrs@.take(i as int))),
            decreases attrs@.len() - i,
        {
            proof {
                let m = crate::nodes::attrs_model(attrs@.take(i + 1));
                assert(m.drop_last() =~= crate::nodes::attrs_model(attrs@.take(i as int)));
                assert(m.last() == attr_model(attrs@[i as int]));
            }
            self.emit_attr(out, &attrs[i]);
            i = i + 1;
        }
        assert(attrs@.take(attrs@.len() as int) == attrs@);
    }
}

// Classes.

/// A character literal token.
pub open spec fn char_token(c: char) -> TokenModel {
    TokenModel::Literal(seq!['\'', c, '\''])
}

/// `builder.current.method(args)`.
pub open spec fn on_current(c: EmitModel, method: Seq<char>, args: Seq<TokenModel>) -> Seq<TokenModel> {
    seq![ident(c.builder), punct('.'), ident("current"@), punct('.'), ident(method), paren(args)]
}

/// `builder.current.method(args);`.
pub open spec fn on_current_stmt(c: EmitModel, method: Seq<char>, args: Seq<TokenModel>) -> Seq<TokenModel> {
    on_current(c, method, args) + seq![punct(';')]
}

/// `let name = value;`, with `mut` when asked.
pub open spec fn let_stmt(mutable: bool, name: Seq<char>, value: Seq<TokenModel>) -> Seq<TokenModel> {
    (if mutable { seq![ident("let"@), ident("mut"@)] } else { seq![ident("let"@)] }) + seq![ident(name), punct('=')] + value
        + seq![punct(';')]
}

/// The value of a class or id as an expression: a name becomes a string
/// literal, an expression stays as written.
pub open spec fn selector_expr(s: SelectorModel) -> Seq<TokenModel> {
    match s {
        SelectorModel::Name(n) => seq![str_token(n)],
        SelectorModel::Expr(e) => e,
    }
}

pub open spec fn is_name(s: SelectorModel) -> bool {
    s is Name
}

/// Names joined by spaces, skipping the space while nothing is joined yet.
pub open spec fn fold_names(cs: Seq<SelectorModel>) -> Seq<char>
    decreases cs.len(),
{
    if cs.len() == 0 {
        Seq::empty()
    } else {
        let acc = fold_names(cs.drop_last());
        if acc.len() > 0 {
            acc + seq![' '] + cs.last()->Name_0
        } else {
            acc + cs.last()->Name_0
        }
    }
}

/// Names joined by spaces.
pub open spec fn join_names(cs: Seq<SelectorModel>) -> Seq<char>
    decreases cs.len(),
{
    if cs.len() <= 1 {
        if cs.len() == 1 {
            cs[0]->Name_0
        } else {
            Seq::empty()
        }
    } else {
        join_names(cs.drop_last()) + seq![' '] + cs.last()->Name_0
    }
}

/// How many names come first.
pub open spec fn leading_names(cs: Seq<SelectorModel>) -> nat
    decreases cs.len(),
{
    if cs.len() == 0 {
        0
    } else if is_name(cs[0]) {
        1 + leading_names(cs.subrange(1, cs.len() as int))
    } else {
        0
    }
}

/// `let __sep = builder.current.len();`.
pub open spec fn mark_sep(c: EmitModel) -> Seq<TokenModel> {
    let_stmt(false, "__sep"@, on_current(c, "len"@, Seq::empty()))
}

/// `builder.current.truncate(__sep);`.
pub open spec fn truncate_sep(c: EmitModel) -> Seq<TokenModel> {
    on_current_stmt(c, "truncate"@, seq![ident("__sep"@)])
}

/// `crate::template::push_class_direct(&mut builder.current, &(d))`.
pub open spec fn class_direct(c: EmitModel, d: Seq<TokenModel>) -> Seq<TokenModel> {
    helper(c, "push_class_direct"@) + seq![paren(current(c) + seq![punct(',')] + by_ref(d))]
}

/// One dynamic class after others that may have been left out: a space
/// before it once a class was written, dropped again when it renders
/// nothing.
pub open spec fn dynamic_class_block(c: EmitModel, d: Seq<TokenModel>) -> TokenModel {
    brace(
        mark_sep(c) + seq![ident("if"@), ident("__class_sep_needed"@), brace(on_current_stmt(c, "push"@, seq![char_token(' ')]))]
            + seq![ident("if"@)] + class_direct(c, d) + seq![
            brace(seq![ident("__class_sep_needed"@), punct('='), ident("true"@), punct(';')]),
            ident("else"@),
            ident("if"@),
            ident("__class_sep_needed"@),
            brace(truncate_sep(c)),
        ],
    )
}

/// One dynamic class after a written prefix: a space before it, dropped
/// again when it renders nothing.
pub open spec fn prefixed_class_block(c: EmitModel, d: Seq<TokenModel>) -> TokenModel {
    brace(
        mark_sep(c) + on_current_stmt(c, "push"@, seq![char_token(' ')]) + seq![ident("if"@), punct('!')]
            + class_direct(c, d) + seq![brace(truncate_sep(c))],
    )
}

pub open spec fn dynamic_class_blocks(c: EmitModel, cs: Seq<SelectorModel>) -> Seq<TokenModel>
    decreases cs.len(),
{
    if cs.len() == 0 {
        Seq::empty()
    } else {
        dynamic_class_blocks(c, cs.drop_last()).push(dynamic_class_block(c, selector_expr(cs.last())))
    }
}

pub open spec fn prefixed_class_blocks(c: EmitModel, cs: Seq<SelectorModel>) -> Seq<TokenModel>
    decreases cs.len(),
{
    if cs.len() == 0 {
        Seq::empty()
    } else {
        prefixed_class_blocks(c, cs.drop_last()).push(prefixed_class_block(c, selector_expr(cs.last())))
    }
}

/// `crate::template::push_class_value(&mut __markup_classes, &(v));` for
/// each class.
pub open spec fn class_value_calls(c: EmitModel, cs: Seq<SelectorModel>) -> Seq<TokenModel>
    decreases cs.len(),
{
    if cs.len() == 0 {
        Seq::empty()
    } else {
        class_value_calls(c, cs.drop_last()) + call(
            c,
            "push_class_value"@,
            seq![punct('&'), ident("mut"@), ident("__markup_classes"@), punct(',')] + by_ref(selector_expr(cs.last())),
        )
    }
}

/// `" class=\""`, the start of a class attribute.
pub open spec fn class_attr_start() -> Seq<char> {
    seq![' ', 'c', 'l', 'a', 's', 's', '=', '"']
}

/// Only dynamic classes: the attribute is opened, and removed again when
/// no class rendered anything.
pub open spec fn all_dynamic_code(c: EmitModel, cs: Seq<SelectorModel>) -> Seq<TokenModel> {
    seq![brace(
        let_stmt(false, "__class_attr_start"@, on_current(c, "len"@, Seq::empty()))
            + on_current_stmt(c, "push_str"@, seq![str_token(class_attr_start())])
            + let_stmt(true, "__class_sep_needed"@, seq![ident("false"@)])
            + dynamic_class_blocks(c, cs)
            + seq![
            ident("if"@),
            ident("__class_sep_needed"@),
            brace(on_current_stmt(c, "push"@, seq![char_token('"')])),
            ident("else"@),
            brace(on_current_stmt(c, "truncate"@, seq![ident("__class_attr_start"@)])),
        ],
    )]
}

/// Names first, then only dynamic classes: the names are written at once.
pub open spec fn prefixed_code(c: EmitModel, prefix: Seq<char>, cs: Seq<SelectorModel>) -> Seq<TokenModel> {
    seq![brace(
        on_current_stmt(c, "push_str"@, seq![str_token(class_attr_start() + prefix)])
            + prefixed_class_blocks(c, cs)
            + on_current_stmt(c, "push"@, seq![char_token('"')]),
    )]
}

/// Names and dynamic classes mixed: the classes are gathered first.
pub open spec fn gathered_code(c: EmitModel, cs: Seq<SelectorModel>) -> Seq<TokenModel> {
    seq![brace(
        seq![
            ident("let"@),
            ident("mut"@),
            ident("__markup_classes"@),
            punct('='),
            punct(':'),
            punct(':'),
            ident("std"@),
            punct(':'),
            punct(':'),
            ident("string"@),
            punct(':'),
            punct(':'),
            ident("String"@),
            punct(':'),
            punct(':'),
            ident("new"@),
            paren(Seq::empty()),
            punct(';'),
        ] + class_value_calls(c, cs) + call_current(c, "push_class_attr"@, seq![punct('&'), ident("__markup_classes"@)]),
    )]
}

/// The code that writes an element's classes. No classes write nothing;
/// names alone become one class attribute written at once; names followed
/// by dynamic classes write the names at once; dynamic classes alone, or
/// mixed with names, are written as they render.
pub open spec fn classes_code(c: EmitModel, cs: Seq<SelectorModel>) -> Seq<TokenModel> {
    let k = leading_names(cs) as int;
    if cs.len() == 0 {
        Seq::empty()
    } else if k == cs.len() {
        call_current(c, "push_class_attr"@, seq![str_token(fold_names(cs))])
    } else if forall|i: int| k <= i < cs.len() ==> !is_name(#[trigger] cs[i]) {
        if join_names(cs.take(k)).len() == 0 {
            all_dynamic_code(c, cs.skip(k))
        } else {
            prefixed_code(c, join_names(cs.take(k)), cs.skip(k))
        }
    } else {
        gathered_code(c, cs)
    }
}

/// A token stream with nothing in it.
fn no_tokens() -> (r: Vec<Token>)
    ensures
        stream_model(r@) == Seq::<TokenModel>::empty(),
{
    Vec::new()
}

/// The value of a class or id as an expression.
fn selector_expr_tokens(sel: &Selector) -> (r: Vec<Token>)
    ensures
        stream_model(r@) == selector_expr(selector_model(*sel)),
{
    match sel {
        Selector::Name(n) => {
            let mut r = no_tokens();
            push_str_token(&mut r, n.as_str());
            assert(stream_model(r@) == seq![str_token(n@)]);
            r
        },
        Selector::Expr(e) => clone_stream(e),
    }
}

/// `let name = value;`, with `mut` when asked.
fn let_tokens(mutable: bool, name: &str, value: Vec<Token>) -> (r: Vec<Token>)
    ensures
        stream_model(r@) == let_stmt(mutable, name@, stream_model(value@)),
{
    let mut r = no_tokens();
    push_ident(&mut r, "let");
    if mutable {
        push_ident(&mut r, "mut");
    }
    let ghost head = stream_model(r@);
    assert(head == (if mutable { seq![ident("let"@), ident("mut"@)] } else { seq![ident("let"@)] }));
    push_ident(&mut r, name);
    push_punct(&mut r, '=');
    push_all(&mut r, value);
    push_punct(&mut r, ';');
    assert(stream_model(r@) == let_stmt(mutable, name@, stream_model(value@)));
    r
}

/// A character literal token.
fn char_literal(c: char) -> (t: Token)
    ensures
        crate::cursor::token_model(t) == char_token(c),
{
    let mut text = String::new();
    push_char(&mut text, '\'');
    push_char(&mut text, c);
    push_char(&mut text, '\'');
    assert(text@ == seq!['\'', c, '\'']);
    Token::Literal(text)
}

/// Whether a class is a name.
fn is_name_selector(sel: &Selector) -> (b: bool)
    ensures
        b == is_name(selector_model(*sel)),
{
    match sel {
        Selector::Name(_) => true,
        Selector::Expr(_) => false,
    }
}

proof fn lemma_selectors_index(v: Seq<Selector>, i: int)
    requires
        0 <= i < v.len(),
    ensures
        selectors_model(v).len() == v.len(),
        selectors_model(v)[i] == selector_model(v[i]),
{
}

proof fn lemma_selectors_take(v: Seq<Selector>, i: int)
    requires
        0 <= i <= v.len(),
    ensures
        selectors_model(v.take(i)) == selectors_model(v).take(i),
{
    assert(selectors_model(v.take(i)) =~= selectors_model(v).take(i));
}

/// The number of names first, when the first `k` are names and the next is
/// not (or there is none).
pub proof fn lemma_leading_names(cs: Seq<SelectorModel>, k: int)
    requires
        0 <= k <= cs.len(),
        forall|i: int| 0 <= i < k ==> is_name(#[trigger] cs[i]),
        k < cs.len() ==> !is_name(cs[k]),
    ensures
        leading_names(cs) == k,
    decreases k,
{
    if k > 0 {
        let rest = cs.subrange(1, cs.len() as int);
        assert forall|i: int| 0 <= i < k - 1 implies is_name(#[trigger] rest[i]) by {
            assert(rest[i] == cs[i + 1]);
        }
        if k - 1 < rest.len() {
            assert(rest[k - 1] == cs[k]);
        }
        lemma_leading_names(rest, k - 1);
    }
}

impl Emitter {
    /// `builder.current.method(args)`.
    fn on_current_tokens(&self, method: &str, args: Vec<Token>) -> (r: Vec<Token>)
        ensures
            stream_model(r@) == on_current(emitter_model(self), method@, stream_model(args@)),
    {
        let mut r = no_tokens();
        push_ident_string(&mut r, &self.builder);
        push_punct(&mut r, '.');
        push_ident(&mut r, "current");
        push_punct(&mut r, '.');
        push_ident(&mut r, method);
        push_group(&mut r, Delimiter::Parenthesis, args);
        assert(stream_model(r@) == on_current(emitter_model(self), method@, stream_model(args@)));
        r
    }

    /// `builder.current.method(args);`.
    fn on_current_stmt_tokens(&self, method: &str, args: Vec<Token>) -> (r: Vec<Token>)
        ensures
            stream_model(r@) == on_current_stmt(emitter_model(self), method@, stream_model(args@)),
    {
        let mut r = self.on_current_tokens(method, args);
        push_punct(&mut r, ';');
        r
    }

    /// `builder.current.push(c);`.
    fn push_char_stmt(&self, c: char) -> (r: Vec<Token>)
        ensures
            stream_model(r@) == on_current_stmt(emitter_model(self), "push"@, seq![char_token(c)]),
    {
        let mut args = no_tokens();
        push_token(&mut args, char_literal(c));
        assert(stream_model(args@) == seq![char_token(c)]);
        self.on_current_stmt_tokens("push", args)
    }

    /// `builder.current.truncate(__sep);`.
    fn truncate_sep_tokens(&self) -> (r: Vec<Token>)
        ensures
            stream_model(r@) == truncate_sep(emitter_model(self)),
    {
        let mut args = no_tokens();
        push_ident(&mut args, "__sep");
        assert(stream_model(args@) == seq![ident("__sep"@)]);
        self.on_current_stmt_tokens("truncate", args)
    }

    /// `let __sep = builder.current.len();`.
    fn mark_sep_tokens(&self) -> (r: Vec<Token>)
        ensures
            stream_model(r@) == mark_sep(emitter_model(self)),
    {
        let len = self.on_current_tokens("len", no_tokens());
        let_tokens(false, "__sep", len)
    }

    /// `crate::template::push_class_direct(&mut builder.current, &(d))`.
    fn class_direct_tokens(&self, d: &Selector) -> (r: Vec<Token>)
        ensures
            stream_model(r@) == class_direct(emitter_model(self), selector_expr(selector_model(*d))),
    {
        let mut args = no_tokens();
        self.push_current(&mut args);
        push_punct(&mut args, ',');
        let e = selector_expr_tokens(d);
        push_all(&mut args, by_ref_tokens(&e));
        assert(stream_model(args@) == current(emitter_model(self)) + seq![punct(',')] + by_ref(stream_model(e@)));
        let mut r = no_tokens();
        self.push_helper(&mut r, "push_class_direct");
        assert(stream_model(r@) == helper(emitter_model(self), "push_class_direct"@));
        push_group(&mut r, Delimiter::Parenthesis, args);
        assert(stream_model(r@) == class_direct(emitter_model(self), selector_expr(selector_model(*d))));
        r
    }

    /// One dynamic class among classes that may all render nothing.
    fn dynamic_class_block_token(&self, d: &Selector) -> (t: Token)
        ensures
            crate::cursor::token_model(t) == dynamic_class_block(emitter_model(self), selector_expr(selector_model(*d))),
    {
        let ghost c = emitter_model(self);
        let ghost e = selector_expr(selector_model(*d));
        let mut body = self.mark_sep_tokens();
        push_ident(&mut body, "if");
        push_ident(&mut body, "__class_sep_needed");
        push_group(&mut body, Delimiter::Brace, self.push_char_stmt(' '));
        push_ident(&mut body, "if");
        let ghost part1 = mark_sep(c) + seq![ident("if"@), ident("__class_sep_needed"@), brace(on_current_stmt(c, "push"@, seq![char_token(' ')]))]
            + seq![ident("if"@)];
        assert(stream_model(body@) == part1);
        push_all(&mut body, self.class_direct_tokens(d));
        let ghost part2 = part1 + class_direct(c, e);
        assert(stream_model(body@) == part2);
        let mut set = no_tokens();
        push_ident(&mut set, "__class_sep_needed");
        push_punct(&mut set, '=');
        push_ident(&mut set, "true");
        push_punct(&mut set, ';');
        push_group(&mut body, Delimiter::Brace, set);
        push_ident(&mut body, "else");
        push_ident(&mut body, "if");
        push_ident(&mut body, "__class_sep_needed");
        push_group(&mut body, Delimiter::Brace, self.truncate_sep_tokens());
        assert(stream_model(set@) == seq![ident("__class_sep_needed"@), punct('='), ident("true"@), punct(';')]);
        assert(stream_model(body@) == part2 + seq![
            brace(seq![ident("__class_sep_needed"@), punct('='), ident("true"@), punct(';')]),
            ident("else"@),
            ident("if"@),
            ident("__class_sep_needed"@),
            brace(truncate_sep(c)),
        ]);
        Token::Group(Group { delimiter: Delimiter::Brace, stream: body })
    }

    /// One dynamic class after a written prefix.
    fn prefixed_class_block_token(&self, d: &Selector) -> (t: Token)
        ensures
            crate::cursor::token_model(t) == prefixed_class_block(emitter_model(self), selector_expr(selector_model(*d))),
    {
        let ghost c = emitter_model(self);
        let ghost e = selector_expr(selector_model(*d));
        let mut body = self.mark_sep_tokens();
        push_all(&mut body, self.push_char_stmt(' '));
        push_ident(&mut body, "if");
        push_punct(&mut body, '!');
        push_all(&mut body, self.class_direct_tokens(d));
        push_group(&mut body, Delimiter::Brace, self.truncate_sep_tokens());
        assert(stream_model(body@) == mark_sep(c) + on_current_stmt(c, "push"@, seq![char_token(' ')]) + seq![ident("if"@), punct('!')]
            + class_direct(c, e) + seq![brace(truncate_sep(c))]);
        Token::Group(Group { delimiter: Delimiter::Brace, stream: body })
    }
}

impl Emitter {
    /// Writes the code of an element's classes.
    pub fn emit_classes(&self, out: &mut Vec<Token>, classes: &Vec<Selector>)
        ensures
            stream_model(final(out)@) == stream_model(old(out)@) + classes_code(
                emitter_model(self),
                selectors_model(classes@),
            ),
    {
        let code = self.classes_tokens(classes);
        push_all(out, code);
    }

    fn classes_tokens(&self, classes: &Vec<Selector>) -> (r: Vec<Token>)
        ensures
            stream_model(r@) == classes_code(emitter_model(self), selectors_model(classes@)),
    {
        let ghost c = emitter_model(self);
        let ghost cs = selectors_model(classes@);
        assert(cs.len() == classes@.len());
        if classes.len() == 0 {
            return no_tokens();
        }
        let mut k: usize = 0;
        while k < classes.len() && is_name_selector(&classes[k])
            invariant
                k <= classes@.len(),
                cs == selectors_model(classes@),
                cs.len() == classes@.len(),
                forall|i: int| 0 <= i < k ==> is_name(#[trigger] cs[i]),
            decreases classes@.len() - k,
        {
            proof {
                lemma_selectors_index(classes@, k as int);
            }
            k = k + 1;
        }
        proof {
            if k < classes.len() {
                lemma_selectors_index(classes@, k as int);
            }
            lemma_leading_names(cs, k as int);
        }
        if k == classes.len() {
            let mut folded = String::new();
            let mut i: usize = 0;
            while i < classes.len()
                invariant
                    i <= classes@.len(),
                    k == classes@.len(),
                    cs == selectors_model(classes@),
                    cs.len() == classes@.len(),
                    forall|j: int| 0 <= j < k ==> is_name(#[trigger] cs[j]),
                    folded@ == fold_names(cs.take(i as int)),
                decreases classes@.len() - i,
            {
                proof {
                    lemma_selectors_index(classes@, i as int);
                    assert(cs.take(i + 1).drop_last() == cs.take(i as int));
                    assert(cs.take(i + 1).last() == cs[i as int]);
                    assert(is_name(cs[i as int]));
                }
                match &classes[i] {
                    Selector::Name(n) => {
                        if !folded.as_str().is_empty() {
                            push_char(&mut folded, ' ');
                        }
                        folded.append(n.as_str());
                    },
                    Selector::Expr(_) => {},
                }
                i = i + 1;
            }
            assert(cs.take(cs.len() as int) == cs);
            let mut args = no_tokens();
            push_str_token(&mut args, folded.as_str());
            let mut r = no_tokens();
            self.push_call_current(&mut r, "push_class_attr", args);
            assert(stream_model(r@) == classes_code(c, cs));
            return r;
        }
        let mut rest_dynamic = true;
        let mut j: usize = k;
        while j < classes.len()
            invariant
                k <= j <= classes@.len(),
                cs == selectors_model(classes@),
                cs.len() == classes@.len(),
                rest_dynamic == (forall|i: int| k <= i < j ==> !is_name(#[trigger] cs[i])),
            decreases classes@.len() - j,
        {
            proof {
                lemma_selectors_index(classes@, j as int);
            }
            if is_name_selector(&classes[j]) {
                rest_dynamic = false;
            }
            j = j + 1;
        }
        if rest_dynamic {
            let mut prefix = String::new();
            let mut i: usize = 0;
            while i < k
                invariant
                    i <= k,
                    k < classes@.len(),
                    cs == selectors_model(classes@),
                    cs.len() == classes@.len(),
                    forall|j: int| 0 <= j < k ==> is_name(#[trigger] cs[j]),
                    prefix@ == join_names(cs.take(i as int)),
                decreases k - i,
            {
                proof {
                    lemma_selectors_index(classes@, i as int);
                    assert(cs.take(i + 1).drop_last() == cs.take(i as int));
                    assert(cs.take(i + 1).last() == cs[i as int]);
                    assert(is_name(cs[i as int]));
                    if i == 0 {
                        assert(cs.take(1)[0] == cs[0]);
                    }
                }
                match &classes[i] {
                    Selector::Name(n) => {
                        if i > 0 {
                            push_char(&mut prefix, ' ');
                        }
                        prefix.append(n.as_str());
                    },
                    Selector::Expr(_) => {},
                }
                i = i + 1;
            }
            assert(cs.take(k as int).take(k as int) == cs.take(k as int));
            if prefix.as_str().is_empty() {
                let r = self.all_dynamic_tokens(classes, k);
                assert(stream_model(r@) == classes_code(c, cs));
                r
            } else {
                let r = self.prefixed_tokens(classes, k, prefix);
                assert(stream_model(r@) == classes_code(c, cs));
                r
            }
        } else {
            let r = self.gathered_tokens(classes);
            assert(stream_model(r@) == classes_code(c, cs));
            r
        }
    }

    /// The blocks of the classes from `k` on, each as a dynamic class.
    fn dynamic_blocks(&self, classes: &Vec<Selector>, k: usize, prefixed: bool) -> (r: Vec<Token>)
        requires
            k <= classes@.len(),
        ensures
            stream_model(r@) == if prefixed {
                prefixed_class_blocks(emitter_model(self), selectors_model(classes@).skip(k as int))
            } else {
                dynamic_class_blocks(emitter_model(self), selectors_model(classes@).skip(k as int))
            },
    {
        let ghost c = emitter_model(self);
        let ghost cs = selectors_model(classes@);
        let mut r = no_tokens();
        let mut i: usize = k;
        while i < classes.len()
            invariant
                k <= i <= classes@.len(),
                c == emitter_model(self),
                cs == selectors_model(classes@),
                cs.len() == classes@.len(),
                stream_model(r@) == if prefixed {
                    prefixed_class_blocks(c, cs.subrange(k as int, i as int))
                } else {
                    dynamic_class_blocks(c, cs.subrange(k as int, i as int))
                },
            decreases classes@.len() - i,
        {
            proof {
                lemma_selectors_index(classes@, i as int);
                assert(cs.subrange(k as int, i + 1).drop_last() == cs.subrange(k as int, i as int));
                assert(cs.subrange(k as int, i + 1).last() == cs[i as int]);
            }
            if prefixed {
                push_token(&mut r, self.prefixed_class_block_token(&classes[i]));
            } else {
                push_token(&mut r, self.dynamic_class_block_token(&classes[i]));
            }
            i = i + 1;
        }
        assert(cs.subrange(k as int, cs.len() as int) == cs.skip(k as int));
        r
    }

    fn all_dynamic_tokens(&self, classes: &Vec<Selector>, k: usize) -> (r: Vec<Token>)
        requires
            k <= classes@.len(),
        ensures
            stream_model(r@) == all_dynamic_code(emitter_model(self), selectors_model(classes@).skip(k as int)),
    {
        let ghost c = emitter_model(self);
        let ghost ds = selectors_model(classes@).skip(k as int);
        let len = self.on_current_tokens("len", no_tokens());
        let mut body = let_tokens(false, "__class_attr_start", len);
        let mut start = no_tokens();
        push_str_token(&mut start, " class=\"");
        proof {
            reveal_strlit(" class=\"");
            assert(" class=\""@ == class_attr_start());
        }
        push_all(&mut body, self.on_current_stmt_tokens("push_str", start));
        let mut no = no_tokens();
        push_ident(&mut no, "false");
        push_all(&mut body, let_tokens(true, "__class_sep_needed", no));
        let ghost part1 = let_stmt(false, "__class_attr_start"@, on_current(c, "len"@, Seq::empty()))
            + on_current_stmt(c, "push_str"@, seq![str_token(class_attr_start())])
            + let_stmt(true, "__class_sep_needed"@, seq![ident("false"@)]);
        assert(stream_model(body@) == part1);
        push_all(&mut body, self.dynamic_blocks(classes, k, false));
        let ghost part2 = part1 + dynamic_class_blocks(c, ds);
        assert(stream_model(body@) == part2);
        push_ident(&mut body, "if");
        push_ident(&mut body, "__class_sep_needed");
        push_group(&mut body, Delimiter::Brace, self.push_char_stmt('"'));
        push_ident(&mut body, "else");
        let mut at = no_tokens();
        push_ident(&mut at, "__class_attr_start");
        push_group(&mut body, Delimiter::Brace, self.on_current_stmt_tokens("truncate", at));
        assert(stream_model(body@) == part2 + seq![
            ident("if"@),
            ident("__class_sep_needed"@),
            brace(on_current_stmt(c, "push"@, seq![char_token('"')])),
            ident("else"@),
            brace(on_current_stmt(c, "truncate"@, seq![ident("__class_attr_start"@)])),
        ]);
        let mut r = no_tokens();
        push_group(&mut r, Delimiter::Brace, body);
        assert(stream_model(r@) == all_dynamic_code(c, ds));
        r
    }

    fn prefixed_tokens(&self, classes: &Vec<Selector>, k: usize, prefix: String) -> (r: Vec<Token>)
        requires
            k <= classes@.len(),
        ensures
            stream_model(r@) == prefixed_code(emitter_model(self), prefix@, selectors_model(classes@).skip(k as int)),
    {
        let ghost c = emitter_model(self);
        let ghost ds = selectors_model(classes@).skip(k as int);
        let mut text = String::from_str(" class=\"");
        proof {
            reveal_strlit(" class=\"");
        }
        text.append(prefix.as_str());
        assert(text@ == class_attr_start() + prefix@);
        let mut start = no_tokens();
        push_str_token(&mut start, text.as_str());
        let mut body = self.on_current_stmt_tokens("push_str", start);
        push_all(&mut body, self.dynamic_blocks(classes, k, true));
        push_all(&mut body, self.push_char_stmt('"'));
        let mut r = no_tokens();
        push_group(&mut r, Delimiter::Brace, body);
        assert(stream_model(r@) == prefixed_code(c, prefix@, ds));
        r
    }

    fn gathered_tokens(&self, classes: &Vec<Selector>) -> (r: Vec<Token>)
        ensures
            stream_model(r@) == gathered_code(emitter_model(self), selectors_model(classes@)),
    {
        let ghost c = emitter_model(self);
        let ghost cs = selectors_model(classes@);
        let mut body = no_tokens();
        push_ident(&mut body, "let");
        push_ident(&mut body, "mut");
        push_ident(&mut body, "__markup_classes");
        push_punct(&mut body, '=');
        push_punct(&mut body, ':');
        push_punct(&mut body, ':');
        push_ident(&mut body, "std");
        push_punct(&mut body, ':');
        push_punct(&mut body, ':');
        push_ident(&mut body, "string");
        push_punct(&mut body, ':');
        push_punct(&mut body, ':');
        push_ident(&mut body, "String");
        push_punct(&mut body, ':');
        push_punct(&mut body, ':');
        push_ident(&mut body, "new");
        push_group(&mut body, Delimiter::Parenthesis, no_tokens());
        push_punct(&mut body, ';');
        let ghost head = stream_model(body@);
        assert(head == seq![
            ident("let"@),
            ident("mut"@),
            ident("__markup_classes"@),
            punct('='),
            punct(':'),
            punct(':'),
            ident("std"@),
            punct(':'),
            punct(':'),
            ident("string"@),
            punct(':'),
            punct(':'),
            ident("String"@),
            punct(':'),
            punct(':'),
            ident("new"@),
            paren(Seq::empty()),
            punct(';'),
        ]);
        let mut calls = no_tokens();
        let mut i: usize = 0;
        while i < classes.len()
            invariant
                i <= classes@.len(),
                c == emitter_model(self),
                cs == selectors_model(classes@),
                cs.len() == classes@.len(),
                stream_model(calls@) == class_value_calls(c, cs.take(i as int)),
            decreases classes@.len() - i,
        {
            proof {
                lemma_selectors_index(classes@, i as int);
                assert(cs.take(i + 1).drop_last() == cs.take(i as int));
                assert(cs.take(i + 1).last() == cs[i as int]);
            }
            let mut args = no_tokens();
            push_punct(&mut args, '&');
            push_ident(&mut args, "mut");
            push_ident(&mut args, "__markup_classes");
            push_punct(&mut args, ',');
            let e = selector_expr_tokens(&classes[i]);
            push_all(&mut args, by_ref_tokens(&e));
            assert(stream_model(args@) == seq![punct('&'), ident("mut"@), ident("__markup_classes"@), punct(',')]
                + by_ref(selector_expr(cs[i as int])));
            self.push_call(&mut calls, "push_class_value", args);
            i = i + 1;
        }
        assert(cs.take(cs.len() as int) == cs);
        push_all(&mut body, calls);
        assert(stream_model(body@) == head + class_value_calls(c, cs));
        let mut rest = no_tokens();
        push_punct(&mut rest, '&');
        push_ident(&mut rest, "__markup_classes");
        assert(stream_model(rest@) == seq![punct('&'), ident("__markup_classes"@)]);
        self.push_call_current(&mut body, "push_class_attr", rest);
        assert(stream_model(body@) == head + class_value_calls(c, cs) + call_current(c, "push_class_attr"@, seq![punct('&'), ident("__markup_classes"@)]));
        let mut r = no_tokens();
        push_group(&mut r, Delimiter::Brace, body);
        assert(stream_model(r@) == gathered_code(c, cs));
        r
    }
}

// Elements and nodes.

/// `::std::option::Option::Some`.
pub open spec fn some_path() -> Seq<TokenModel> {
    seq![
        punct(':'),
        punct(':'),
        ident("std"@),
        punct(':'),
        punct(':'),
        ident("option"@),
        punct(':'),
        punct(':'),
        ident("Option"@),
        punct(':'),
        punct(':'),
        ident("Some"@),
    ]
}

/// `::core::compile_error! { "message" }`: an error reported where the
/// code stands.
pub open spec fn compile_error_code(message: Seq<char>) -> Seq<TokenModel> {
    seq![
        punct(':'),
        punct(':'),
        ident("core"@),
        punct(':'),
        punct(':'),
        ident("compile_error"@),
        punct('!'),
        brace(seq![str_token(message)]),
    ]
}

/// The code that writes an element's id.
pub open spec fn id_code(c: EmitModel, id: Option<SelectorModel>) -> Seq<TokenModel> {
    match id {
        Some(s) => call_current(c, "push_static_attr"@, seq![str_token("id"@), punct(',')] + by_ref(selector_expr(s))),
        None => Seq::empty(),
    }
}

/// The code that writes an element: its start tag with classes, id and
/// attributes, then, unless it is void, its body and end tag.
pub open spec fn element_code(
    c: EmitModel,
    tag: TagModel,
    classes: Seq<SelectorModel>,
    id: Option<SelectorModel>,
    attrs: Seq<AttrModel>,
    body: Option<Seq<TokenModel>>,
) -> Seq<TokenModel> {
    let inside = classes_code(c, classes) + id_code(c, id) + attrs_code(c, attrs);
    let finish = call(c, "finish_start_tag"@, current(c));
    match tag {
        TagModel::Static(t) => seq![brace(
            call_current(c, "push_start_tag_static"@, seq![str_token(t)]) + inside + match body {
                None => call_current(c, "finish_void_tag_static"@, seq![str_token(t)]),
                Some(b) => finish + b + call_current(c, "push_end_tag_static"@, seq![str_token(t)]),
            },
        )],
        TagModel::Dynamic(e) => seq![brace(
            let_stmt(false, "__markup_tag"@, by_ref(e)) + call_current(c, "push_start_tag"@, seq![ident("__markup_tag"@)])
                + inside + match body {
                None => call_current(c, "finish_void_tag"@, seq![ident("__markup_tag"@)]),
                Some(b) => finish + b + call_current(c, "push_end_tag"@, seq![ident("__markup_tag"@)]),
            },
        )],
    }
}

/// The context of a component's children: the same, with its own builder.
pub open spec fn children_context(c: EmitModel) -> EmitModel {
    EmitModel { builder: "__markup_children_template"@, ..c }
}

/// `builder.push_markup(arg);`.
pub open spec fn push_markup_code(builder: Seq<char>, arg: Seq<TokenModel>) -> Seq<TokenModel> {
    seq![ident(builder), punct('.'), ident("push_markup"@), paren(arg), punct(';')]
}

/// `{ let mut builder = crate::template::TemplateBuilder::new(); body builder.finish() }`.
pub open spec fn builder_block(c: EmitModel, builder: Seq<char>, body: Seq<TokenModel>) -> TokenModel {
    brace(builder_stmts(c, builder, body))
}

/// `let mut builder = crate::template::TemplateBuilder::new(); body builder.finish()`.
pub open spec fn builder_stmts(c: EmitModel, builder: Seq<char>, body: Seq<TokenModel>) -> Seq<TokenModel> {
    let_stmt(true, builder, helper(c, "TemplateBuilder"@) + seq![punct(':'), punct(':'), ident("new"@), paren(Seq::empty())])
        + body + seq![ident(builder), punct('.'), ident("finish"@), paren(Seq::empty())]
}

/// The code of a value rendered with children: the children are rendered
/// into markup of their own, then handed to the value.
pub open spec fn with_children_code(c: EmitModel, e: Seq<TokenModel>, children: Seq<TokenModel>) -> Seq<TokenModel> {
    seq![brace(
        let_stmt(false, "__markup_children"@, children) + let_stmt(
            false,
            "__markup_markup"@,
            helper(c, "render"@) + seq![paren(by_ref(e) + seq![punct(',')] + some_path() + seq![paren(seq![ident("__markup_children"@)])])],
        ) + push_markup_code(c.builder, seq![punct('&'), ident("__markup_markup"@)]),
    )]
}

/// The code of `@children`: the component's children, where it has some.
pub open spec fn slot_code(c: EmitModel) -> Seq<TokenModel> {
    match c.children {
        Some(ch) => seq![brace(
            seq![ident("if"@), ident("let"@)] + some_path() + seq![
                paren(seq![ident("__markup_children"@)]),
                punct('='),
                ident(ch),
                punct('.'),
                ident("as_ref"@),
                paren(Seq::empty()),
                brace(push_markup_code(c.builder, seq![ident("__markup_children"@)])),
            ],
        )],
        None => Seq::empty(),
    }
}

/// The code of each node in turn.
pub open spec fn nodes_code(c: EmitModel, ns: Seq<NodeModel>) -> Seq<TokenModel>
    decreases ns,
{
    if ns.len() == 0 {
        Seq::empty()
    } else {
        nodes_code(c, ns.drop_last()) + node_code(c, ns.last())
    }
}

/// The code of one node.
pub open spec fn node_code(c: EmitModel, n: NodeModel) -> Seq<TokenModel>
    decreases n,
{
    match n {
        NodeModel::Render(e) => render_code(c, e),
        NodeModel::RenderWithChildren(e, ch) => with_children_code(
            c,
            e,
            seq![builder_block(
                c,
                "__markup_children_template"@,
                match ch {
                    ChildrenModel::Nodes(ns) => nodes_code(children_context(c), ns),
                    ChildrenModel::Error(m, _) => compile_error_code(m),
                },
            )],
        ),
        NodeModel::ChildrenSlot => slot_code(c),
        NodeModel::Let(ts) => keyword_code("let"@, ts),
        NodeModel::Const(ts) => keyword_code("const"@, ts),
        NodeModel::Fn(h, b) => seq![ident("fn"@)] + h + b,
        NodeModel::If(i) => if_code(c, i),
        NodeModel::For(h, b) => seq![ident("for"@)] + h + seq![brace(nodes_code(c, b))],
        NodeModel::While(h, b) => seq![ident("while"@)] + h + seq![brace(nodes_code(c, b))],
        NodeModel::Match(s, arms) => seq![ident("match"@)] + s + seq![brace(arms_code(c, arms))],
        NodeModel::Break(ts) => keyword_code("break"@, ts),
        NodeModel::Continue(ts) => keyword_code("continue"@, ts),
        NodeModel::Element(tag, classes, id, attrs, body) => element_code(
            c,
            tag,
            classes,
            id,
            attrs,
            match body {
                Some(b) => Some(nodes_code(c, b)),
                None => None,
            },
        ),
    }
}

/// `if cond { then } else ...`.
pub open spec fn if_code(c: EmitModel, i: IfModel) -> Seq<TokenModel>
    decreases i,
{
    seq![ident("if"@)] + i.condition + seq![brace(nodes_code(c, i.then_body))] + match i.else_branch {
        ElseModel::Nothing => Seq::empty(),
        ElseModel::If(b) => seq![ident("else"@)] + if_code(c, *b),
        ElseModel::Block(ns) => seq![ident("else"@), brace(nodes_code(c, ns))],
    }
}

/// `pattern => { body },` for each arm.
pub open spec fn arms_code(c: EmitModel, arms: Seq<(Seq<TokenModel>, Seq<NodeModel>)>) -> Seq<TokenModel>
    decreases arms,
{
    if arms.len() == 0 {
        Seq::empty()
    } else {
        arms_code(c, arms.drop_last()) + arms.last().0 + seq![punct('='), punct('>'), brace(nodes_code(c, arms.last().1)), punct(',')]
    }
}

/// The code of a whole `markup!`: a block that builds the markup and
/// gives it.
pub open spec fn markup_code(c: EmitModel, ns: Seq<NodeModel>) -> Seq<TokenModel> {
    seq![builder_block(c, c.builder, nodes_code(c, ns))]
}

/// `::std::option::Option::Some` as tokens.
fn some_path_tokens() -> (r: Vec<Token>)
    ensures
        stream_model(r@) == some_path(),
{
    let mut r = no_tokens();
    push_punct(&mut r, ':');
    push_punct(&mut r, ':');
    push_ident(&mut r, "std");
    push_punct(&mut r, ':');
    push_punct(&mut r, ':');
    push_ident(&mut r, "option");
    push_punct(&mut r, ':');
    push_punct(&mut r, ':');
    push_ident(&mut r, "Option");
    push_punct(&mut r, ':');
    push_punct(&mut r, ':');
    push_ident(&mut r, "Some");
    assert(stream_model(r@) == some_path());
    r
}

/// `::core::compile_error! { "message" }` as tokens.
pub fn compile_error_tokens(message: &str) -> (r: Vec<Token>)
    ensures
        stream_model(r@) == compile_error_code(message@),
{
    let mut r = no_tokens();
    push_punct(&mut r, ':');
    push_punct(&mut r, ':');
    push_ident(&mut r, "core");
    push_punct(&mut r, ':');
    push_punct(&mut r, ':');
    push_ident(&mut r, "compile_error");
    push_punct(&mut r, '!');
    let mut inner = no_tokens();
    push_str_token(&mut inner, message);
    assert(stream_model(inner@) == seq![str_token(message@)]);
    push_group(&mut r, Delimiter::Brace, inner);
    assert(stream_model(r@) == compile_error_code(message@));
    r
}

/// `builder.push_markup(arg);` as tokens.
fn push_markup_tokens(builder: &String, arg: Vec<Token>) -> (r: Vec<Token>)
    ensures
        stream_model(r@) == push_markup_code(builder@, stream_model(arg@)),
{
    let mut r = no_tokens();
    push_ident_string(&mut r, builder);
    push_punct(&mut r, '.');
    push_ident(&mut r, "push_markup");
    push_group(&mut r, Delimiter::Parenthesis, arg);
    push_punct(&mut r, ';');
    assert(stream_model(r@) == push_markup_code(builder@, stream_model(arg@)));
    r
}

impl Emitter {
    /// The context of a component's children.
    fn children_emitter(&self) -> (e: Emitter)
        ensures
            emitter_model(&e) == children_context(emitter_model(self)),
    {
        let children = match &self.children {
            Some(c) => Some(c.clone()),
            None => None,
        };
        let e = Emitter {
            crate_path: clone_stream(&self.crate_path),
            builder: String::from_str("__markup_children_template"),
            children,
        };
        assert(emitter_model(&e) == children_context(emitter_model(self)));
        e
    }

    /// A block that builds markup with `body` into `builder` and gives it.
    pub(crate) fn builder_block_token(&self, builder: &String, body: Vec<Token>) -> (t: Token)
        ensures
            crate::cursor::token_model(t) == builder_block(emitter_model(self), builder@, stream_model(body@)),
    {
        Token::Group(Group { delimiter: Delimiter::Brace, stream: self.builder_stmts_tokens(builder, body) })
    }

    /// The statements that build markup with `body` into `builder` and
    /// give it.
    pub(crate) fn builder_stmts_tokens(&self, builder: &String, body: Vec<Token>) -> (inner: Vec<Token>)
        ensures
            stream_model(inner@) == builder_stmts(emitter_model(self), builder@, stream_model(body@)),
    {
        let ghost c = emitter_model(self);
        let mut init = no_tokens();
        self.push_helper(&mut init, "TemplateBuilder");
        push_punct(&mut init, ':');
        push_punct(&mut init, ':');
        push_ident(&mut init, "new");
        push_group(&mut init, Delimiter::Parenthesis, no_tokens());
        assert(stream_model(init@) == helper(c, "TemplateBuilder"@) + seq![punct(':'), punct(':'), ident("new"@), paren(Seq::empty())]);
        let ghost init_m = stream_model(init@);
        let mut inner = let_tokens(true, builder.as_str(), init);
        let ghost part1 = let_stmt(true, builder@, init_m);
        push_all(&mut inner, body);
        assert(stream_model(inner@) == part1 + stream_model(body@));
        push_ident_string(&mut inner, builder);
        push_punct(&mut inner, '.');
        push_ident(&mut inner, "finish");
        push_group(&mut inner, Delimiter::Parenthesis, no_tokens());
        assert(stream_model(inner@) == part1 + stream_model(body@)
            + seq![ident(builder@), punct('.'), ident("finish"@), paren(Seq::empty())]);
        inner
    }

    /// The code of a value rendered with children.
    fn with_children_tokens(&self, e: &Vec<Token>, children: Vec<Token>) -> (r: Vec<Token>)
        ensures
            stream_model(r@) == with_children_code(emitter_model(self), stream_model(e@), stream_model(children@)),
    {
        let ghost c = emitter_model(self);
        let ghost em = stream_model(e@);
        let ghost chm = stream_model(children@);
        let mut body = let_tokens(false, "__markup_children", children);
        let mut args = by_ref_tokens(e);
        push_punct(&mut args, ',');
        push_all(&mut args, some_path_tokens());
        let mut inner = no_tokens();
        push_ident(&mut inner, "__markup_children");
        assert(stream_model(inner@) == seq![ident("__markup_children"@)]);
        push_group(&mut args, Delimiter::Parenthesis, inner);
        assert(stream_model(args@) == by_ref(em) + seq![punct(',')] + some_path() + seq![paren(seq![ident("__markup_children"@)])]);
        let mut value = no_tokens();
        self.push_helper(&mut value, "render");
        push_group(&mut value, Delimiter::Parenthesis, args);
        assert(stream_model(value@) == helper(c, "render"@) + seq![paren(by_ref(em) + seq![punct(',')] + some_path() + seq![paren(seq![ident("__markup_children"@)])])]);
        let ghost vm = stream_model(value@);
        push_all(&mut body, let_tokens(false, "__markup_markup", value));
        let mut arg = no_tokens();
        push_punct(&mut arg, '&');
        push_ident(&mut arg, "__markup_markup");
        assert(stream_model(arg@) == seq![punct('&'), ident("__markup_markup"@)]);
        push_all(&mut body, push_markup_tokens(&self.builder, arg));
        assert(stream_model(body@) == let_stmt(false, "__markup_children"@, chm) + let_stmt(false, "__markup_markup"@, vm)
            + push_markup_code(c.builder, seq![punct('&'), ident("__markup_markup"@)]));
        let mut r = no_tokens();
        push_group(&mut r, Delimiter::Brace, body);
        assert(stream_model(r@) == with_children_code(c, em, chm));
        r
    }

    /// The code of `@children`.
    fn slot_tokens(&self) -> (r: Vec<Token>)
        ensures
            stream_model(r@) == slot_code(emitter_model(self)),
    {
        let ghost c = emitter_model(self);
        match &self.children {
            None => no_tokens(),
            Some(ch) => {
                let mut body = no_tokens();
                push_ident(&mut body, "if");
                push_ident(&mut body, "let");
                push_all(&mut body, some_path_tokens());
                let mut bound = no_tokens();
                push_ident(&mut bound, "__markup_children");
                assert(stream_model(bound@) == seq![ident("__markup_children"@)]);
                push_group(&mut body, Delimiter::Parenthesis, bound);
                push_punct(&mut body, '=');
                push_ident_string(&mut body, ch);
                push_punct(&mut body, '.');
                push_ident(&mut body, "as_ref");
                push_group(&mut body, Delimiter::Parenthesis, no_tokens());
                let mut arg = no_tokens();
                push_ident(&mut arg, "__markup_children");
                assert(stream_model(arg@) == seq![ident("__markup_children"@)]);
                push_group(&mut body, Delimiter::Brace, push_markup_tokens(&self.builder, arg));
                assert(stream_model(body@) == seq![ident("if"@), ident("let"@)] + some_path() + seq![
                    paren(seq![ident("__markup_children"@)]),
                    punct('='),
                    ident(ch@),
                    punct('.'),
                    ident("as_ref"@),
                    paren(Seq::empty()),
                    brace(push_markup_code(c.builder, seq![ident("__markup_children"@)])),
                ]);
                let mut r = no_tokens();
                push_group(&mut r, Delimiter::Brace, body);
                assert(stream_model(r@) == slot_code(c));
                r
            },
        }
    }

    /// The code that writes an element's id.
    fn id_tokens(&self, id: &Option<Selector>) -> (r: Vec<Token>)
        ensures
            stream_model(r@) == id_code(emitter_model(self), opt_selector_model(*id)),
    {
        match id {
            None => no_tokens(),
            Some(sel) => {
                let mut rest = no_tokens();
                push_str_token(&mut rest, "id");
                push_punct(&mut rest, ',');
                let e = selector_expr_tokens(sel);
                push_all(&mut rest, by_ref_tokens(&e));
                assert(stream_model(rest@) == seq![str_token("id"@), punct(',')] + by_ref(selector_expr(selector_model(*sel))));
                let mut r = no_tokens();
                self.push_call_current(&mut r, "push_static_attr", rest);
                assert(stream_model(r@) == id_code(emitter_model(self), opt_selector_model(*id)));
                r
            },
        }
    }

    /// `crate::template::f(&mut builder.current, tag);` for a static or
    /// bound tag.
    fn tag_call(&self, f: &str, tag: &Tag) -> (r: Vec<Token>)
        ensures
            stream_model(r@) == call_current(
                emitter_model(self),
                f@,
                match tag_model(*tag) {
                    TagModel::Static(t) => seq![str_token(t)],
                    TagModel::Dynamic(_) => seq![ident("__markup_tag"@)],
                },
            ),
    {
        let mut rest = no_tokens();
        match tag {
            Tag::Static(t) => push_str_token(&mut rest, t.as_str()),
            Tag::Dynamic(_) => push_ident(&mut rest, "__markup_tag"),
        }
        let mut r = no_tokens();
        self.push_call_current(&mut r, f, rest);
        assert(stream_model(r@) == call_current(
            emitter_model(self),
            f@,
            match tag_model(*tag) {
                TagModel::Static(t) => seq![str_token(t)],
                TagModel::Dynamic(_) => seq![ident("__markup_tag"@)],
            },
        ));
        r
    }
}

proof fn lemma_nodes_code_step(c: EmitModel, ns: Seq<Node>, i: int)
    requires
        0 <= i < ns.len(),
    ensures
        nodes_code(c, nodes_model(ns.take(i + 1))) == nodes_code(c, nodes_model(ns.take(i))) + node_code(c, node_model(ns[i])),
{
    let t = ns.take(i + 1);
    assert(t.drop_last() == ns.take(i));
    assert(t.last() == ns[i]);
    let m = nodes_model(t);
    assert(m.drop_last() == nodes_model(ns.take(i)));
}

proof fn lemma_arms_code_step(c: EmitModel, arms: Seq<MatchArm>, i: int)
    requires
        0 <= i < arms.len(),
    ensures
        arms_code(c, arms_nodes_model(arms.take(i + 1))) == arms_code(c, arms_nodes_model(arms.take(i)))
            + stream_model(arms[i].pattern@) + seq![
            punct('='),
            punct('>'),
            brace(nodes_code(c, nodes_model(arms[i].body@))),
            punct(','),
        ],
{
    let t = arms.take(i + 1);
    assert(t.drop_last() == arms.take(i));
    assert(t.last() == arms[i]);
    let m = arms_nodes_model(t);
    assert(m.drop_last() == arms_nodes_model(arms.take(i)));
}

impl Emitter {
    /// Writes the code of each node in turn.
    pub fn emit_nodes(&self, out: &mut Vec<Token>, nodes: &Vec<Node>)
        ensures
            stream_model(final(out)@) == stream_model(old(out)@) + nodes_code(emitter_model(self), nodes_model(nodes@)),
    {
        let code = self.nodes_tokens(nodes);
        push_all(out, code);
    }

    /// The code of each node in turn.
    pub fn nodes_tokens(&self, nodes: &Vec<Node>) -> (r: Vec<Token>)
        ensures
            stream_model(r@) == nodes_code(emitter_model(self), nodes_model(nodes@)),
        decreases nodes, 0nat,
    {
        let ghost c = emitter_model(self);
        let mut r = no_tokens();
        let mut i: usize = 0;
        while i < nodes.len()
            invariant
                i <= nodes@.len(),
                c == emitter_model(self),
                stream_model(r@) == nodes_code(c, nodes_model(nodes@.take(i as int))),
            decreases nodes@.len() - i,
        {
            proof {
                assert(decreases_to!(*nodes => nodes@));
                assert(decreases_to!(nodes@ => nodes@[i as int]));
                lemma_nodes_code_step(c, nodes@, i as int);
            }
            let code = self.node_tokens(&nodes[i]);
            push_all(&mut r, code);
            i = i + 1;
        }
        assert(nodes@.take(nodes@.len() as int) == nodes@);
        r
    }

    /// The code of one node.
    pub fn node_tokens(&self, node: &Node) -> (r: Vec<Token>)
        ensures
            stream_model(r@) == node_code(emitter_model(self), node_model(*node)),
        decreases node, 0nat,
    {
        let ghost c = emitter_model(self);
        match node {
            Node::Render(e) => {
                let mut r = no_tokens();
                self.push_render_code(&mut r, e);
                r
            },
            Node::RenderWithChildren(e, children) => {
                let child = self.children_emitter();
                let body = match children {
                    Ok(ns) => {
                        proof {
                            assert(decreases_to!(*node => *children));
                        }
                        child.nodes_tokens(ns)
                    },
                    Err(err) => compile_error_tokens(err.message.as_str()),
                };
                let name = String::from_str("__markup_children_template");
                let block = self.builder_block_token(&name, body);
                let mut inner = no_tokens();
                push_token(&mut inner, block);
                let r = self.with_children_tokens(e, inner);
                r
            },
            Node::ChildrenSlot => self.slot_tokens(),
            Node::Let(ts) => {
                let mut r = no_tokens();
                push_keyword_code(&mut r, "let", ts);
                r
            },
            Node::Const(ts) => {
                let mut r = no_tokens();
                push_keyword_code(&mut r, "const", ts);
                r
            },
            Node::Break(ts) => {
                let mut r = no_tokens();
                push_keyword_code(&mut r, "break", ts);
                r
            },
            Node::Continue(ts) => {
                let mut r = no_tokens();
                push_keyword_code(&mut r, "continue", ts);
                r
            },
            Node::Fn(head, body) => {
                let mut r = no_tokens();
                push_ident(&mut r, "fn");
                push_stream(&mut r, head);
                push_stream(&mut r, body);
                assert(stream_model(r@) == seq![ident("fn"@)] + stream_model(head@) + stream_model(body@));
                r
            },
            Node::If(i) => self.if_tokens(i),
            Node::For(head, body) => {
                let mut r = no_tokens();
                push_ident(&mut r, "for");
                push_stream(&mut r, head);
                push_group(&mut r, Delimiter::Brace, self.nodes_tokens(body));
                assert(stream_model(r@) == seq![ident("for"@)] + stream_model(head@) + seq![brace(nodes_code(c, nodes_model(body@)))]);
                r
            },
            Node::While(head, body) => {
                let mut r = no_tokens();
                push_ident(&mut r, "while");
                push_stream(&mut r, head);
                push_group(&mut r, Delimiter::Brace, self.nodes_tokens(body));
                assert(stream_model(r@) == seq![ident("while"@)] + stream_model(head@) + seq![brace(nodes_code(c, nodes_model(body@)))]);
                r
            },
            Node::Match(scrutinee, arms) => {
                let mut r = no_tokens();
                push_ident(&mut r, "match");
                push_stream(&mut r, scrutinee);
                push_group(&mut r, Delimiter::Brace, self.arms_tokens(arms));
                assert(stream_model(r@) == seq![ident("match"@)] + stream_model(scrutinee@) + seq![brace(arms_code(c, arms_nodes_model(arms@)))]);
                r
            },
            Node::Element(el) => self.element_tokens(el),
        }
    }

    /// `if cond { then } else ...`.
    fn if_tokens(&self, i: &IfNode) -> (r: Vec<Token>)
        ensures
            stream_model(r@) == if_code(emitter_model(self), if_model(*i)),
        decreases i, 0nat,
    {
        let ghost c = emitter_model(self);
        let mut r = no_tokens();
        push_ident(&mut r, "if");
        push_stream(&mut r, &i.condition);
        push_group(&mut r, Delimiter::Brace, self.nodes_tokens(&i.then_body));
        let ghost head = seq![ident("if"@)] + stream_model(i.condition@) + seq![brace(nodes_code(c, nodes_model(i.then_body@)))];
        assert(stream_model(r@) == head);
        match &i.else_branch {
            ElseBranch::Nothing => {},
            ElseBranch::If(b) => {
                push_ident(&mut r, "else");
                proof {
                    assert(decreases_to!(*i => i.else_branch));
                }
                let rest = self.if_tokens(b);
                push_all(&mut r, rest);
                assert(stream_model(r@) == head + (seq![ident("else"@)] + if_code(c, if_model(**b))));
            },
            ElseBranch::Block(ns) => {
                push_ident(&mut r, "else");
                push_group(&mut r, Delimiter::Brace, self.nodes_tokens(ns));
                assert(stream_model(r@) == head + seq![ident("else"@), brace(nodes_code(c, nodes_model(ns@)))]);
            },
        }
        r
    }

    /// `pattern => { body },` for each arm.
    fn arms_tokens(&self, arms: &Vec<MatchArm>) -> (r: Vec<Token>)
        ensures
            stream_model(r@) == arms_code(emitter_model(self), arms_nodes_model(arms@)),
        decreases arms, 0nat,
    {
        let ghost c = emitter_model(self);
        let mut r = no_tokens();
        let mut i: usize = 0;
        while i < arms.len()
            invariant
                i <= arms@.len(),
                c == emitter_model(self),
                stream_model(r@) == arms_code(c, arms_nodes_model(arms@.take(i as int))),
            decreases arms@.len() - i,
        {
            proof {
                assert(decreases_to!(*arms => arms@));
                assert(decreases_to!(arms@ => arms@[i as int]));
                lemma_arms_code_step(c, arms@, i as int);
            }
            let ghost before = stream_model(r@);
            push_stream(&mut r, &arms[i].pattern);
            push_punct(&mut r, '=');
            push_punct(&mut r, '>');
            push_group(&mut r, Delimiter::Brace, self.nodes_tokens(&arms[i].body));
            push_punct(&mut r, ',');
            assert(stream_model(r@) == before + stream_model(arms@[i as int].pattern@) + seq![
                punct('='),
                punct('>'),
                brace(nodes_code(c, nodes_model(arms@[i as int].body@))),
                punct(','),
            ]);
            i = i + 1;
        }
        assert(arms@.take(arms@.len() as int) == arms@);
        r
    }

    /// Writes the code of an element.
    pub fn emit_element(&self, out: &mut Vec<Token>, el: &Element)
        ensures
            stream_model(final(out)@) == stream_model(old(out)@) + element_code(
                emitter_model(self),
                tag_model(el.tag),
                selectors_model(el.classes@),
                opt_selector_model(el.id),
                attrs_model(el.attrs@),
                match el.body {
                    Some(b) => Some(nodes_code(emitter_model(self), nodes_model(b@))),
                    None => None,
                },
            ),
    {
        let code = self.element_tokens(el);
        push_all(out, code);
    }

    /// The code that writes an element.
    fn element_tokens(&self, el: &Element) -> (r: Vec<Token>)
        ensures
            stream_model(r@) == element_code(
                emitter_model(self),
                tag_model(el.tag),
                selectors_model(el.classes@),
                opt_selector_model(el.id),
                attrs_model(el.attrs@),
                match el.body {
                    Some(b) => Some(nodes_code(emitter_model(self), nodes_model(b@))),
                    None => None,
                },
            ),
        decreases el, 0nat,
    {
        let ghost c = emitter_model(self);
        let ghost inside = classes_code(c, selectors_model(el.classes@)) + id_code(c, opt_selector_model(el.id))
            + attrs_code(c, attrs_model(el.attrs@));
        let ghost bm = match &el.body {
            Some(b) => Some(nodes_code(c, nodes_model(b@))),
            None => None,
        };
        let is_static = matches!(el.tag, Tag::Static(_));
        let mut body = no_tokens();
        match &el.tag {
            Tag::Static(_) => {},
            Tag::Dynamic(e) => {
                body = let_tokens(false, "__markup_tag", by_ref_tokens(e));
            },
        }
        let ghost lead = stream_model(body@);
        let ghost arg = match tag_model(el.tag) {
            TagModel::Static(t) => seq![str_token(t)],
            TagModel::Dynamic(_) => seq![ident("__markup_tag"@)],
        };
        if is_static {
            push_all(&mut body, self.tag_call("push_start_tag_static", &el.tag));
        } else {
            push_all(&mut body, self.tag_call("push_start_tag", &el.tag));
        }
        let ghost start = stream_model(body@);
        self.emit_classes(&mut body, &el.classes);
        push_all(&mut body, self.id_tokens(&el.id));
        self.emit_attrs(&mut body, &el.attrs);
        assert(stream_model(body@) == start + inside);
        let ghost opened = stream_model(body@);
        let ghost tail = match bm {
            None => call_current(c, if is_static { "finish_void_tag_static"@ } else { "finish_void_tag"@ }, arg),
            Some(b) => call(c, "finish_start_tag"@, current(c)) + b + call_current(
                c,
                if is_static { "push_end_tag_static"@ } else { "push_end_tag"@ },
                arg,
            ),
        };
        match &el.body {
            None => {
                if is_static {
                    push_all(&mut body, self.tag_call("finish_void_tag_static", &el.tag));
                } else {
                    push_all(&mut body, self.tag_call("finish_void_tag", &el.tag));
                }
            },
            Some(b) => {
                let mut cur = no_tokens();
                self.push_current(&mut cur);
                assert(stream_model(cur@) == current(c));
                self.push_call(&mut body, "finish_start_tag", cur);
                push_all(&mut body, self.nodes_tokens(b));
                if is_static {
                    push_all(&mut body, self.tag_call("push_end_tag_static", &el.tag));
                } else {
                    push_all(&mut body, self.tag_call("push_end_tag", &el.tag));
                }
            },
        }
        assert(stream_model(body@) == opened + tail);
        assert(stream_model(body@) == lead + call_current(
            c,
            if is_static { "push_start_tag_static"@ } else { "push_start_tag"@ },
            arg,
        ) + inside + tail);
        let mut r = no_tokens();
        push_group(&mut r, Delimiter::Brace, body);
        r
    }
}

/// The code of a markup body, or the error met reading it.
pub open spec fn body_result(r: Result<Vec<Token>, ParseError>, c: EmitModel, scan: NodesScan) -> bool {
    match scan {
        NodesScan::Done(ns) => r matches Ok(v) && stream_model(v@) == nodes_code(c, ns),
        NodesScan::Fail(m, at) => r matches Err(e) && e.message@ == m && e.at == error_at(at),
    }
}

/// The context of the code of a `markup!`.
pub open spec fn markup_context(crate_path: Seq<TokenModel>) -> EmitModel {
    EmitModel { crate_path, builder: "__markup_template"@, children: None }
}

impl Emitter {
    /// Reads a markup body and gives the code that writes it into the
    /// builder, or the error met reading it. Within a component's body
    /// (`children` is set), `@children` stands for the children.
    pub fn expand_body(&self, input: Vec<Token>) -> (r: Result<Vec<Token>, ParseError>)
        ensures
            body_result(r, emitter_model(self), markup_nodes(stream_model(input@), self.children is Some)),
    {
        let parser = MarkupParser { children: self.children.is_some() };
        match parser.parse(input) {
            Ok(nodes) => Ok(self.nodes_tokens(&nodes)),
            Err(e) => Err(e),
        }
    }
}

/// Expands `markup!`: reads the DSL and gives a block that builds the
/// markup and gives it, or the error met reading the DSL. `crate_path`
/// is the path by which the generated code names this library.
pub fn expand_markup(crate_path: Vec<Token>, input: Vec<Token>) -> (r: Result<Vec<Token>, ParseError>)
    ensures
        match markup_nodes(stream_model(input@), false) {
            NodesScan::Done(ns) => r matches Ok(v) && stream_model(v@) == markup_code(markup_context(stream_model(crate_path@)), ns),
            NodesScan::Fail(m, at) => r matches Err(e) && e.message@ == m && e.at == error_at(at),
        },
{
    let emitter = Emitter { crate_path, builder: String::from_str("__markup_template"), children: None };
    assert(emitter_model(&emitter) == markup_context(emitter_model(&emitter).crate_path));
    match emitter.expand_body(input) {
        Ok(body) => {
            let block = emitter.builder_block_token(&emitter.builder, body);
            let mut r = no_tokens();
            push_token(&mut r, block);
            Ok(r)
        },
        Err(e) => Err(e),
    }
}

/// `@for head { body }` expands to `for head { .. }` and `@while head { body }`
/// to `while head { .. }`, around the code of the body, for every head that
/// holds no `{ .. }` group and every body that reads as markup: the loop
/// keeps its keyword and its head.
pub proof fn law_loop_expansion(c: EmitModel, head: Seq<TokenModel>, body: Seq<TokenModel>, children: bool)
    requires
        no_group(head, 0, head.len() as int, Delimiter::Brace),
        markup_nodes(body, children) is Done,
    ensures
        markup_nodes(loop_tokens("for"@, head, body), children) matches NodesScan::Done(ns) && nodes_code(c, ns)
            == seq![ident("for"@)] + head + seq![brace(nodes_code(c, markup_nodes(body, children)->Done_0))],
        markup_nodes(loop_tokens("while"@, head, body), children) matches NodesScan::Done(ns) && nodes_code(c, ns)
            == seq![ident("while"@)] + head + seq![brace(nodes_code(c, markup_nodes(body, children)->Done_0))],
{
    law_loop_nodes(head, body, children);
    let inner = markup_nodes(body, children)->Done_0;
    let f = seq![NodeModel::For(head, inner)];
    let w = seq![NodeModel::While(head, inner)];
    assert(f.drop_last() == Seq::<NodeModel>::empty());
    assert(w.drop_last() == Seq::<NodeModel>::empty());
    assert(nodes_code(c, Seq::<NodeModel>::empty()) == Seq::<TokenModel>::empty());
    assert(nodes_code(c, f) == Seq::<TokenModel>::empty() + node_code(c, NodeModel::For(head, inner)));
    assert(nodes_code(c, w) == Seq::<TokenModel>::empty() + node_code(c, NodeModel::While(head, inner)));
    assert(Seq::<TokenModel>::empty() + node_code(c, NodeModel::For(head, inner)) == node_code(c, NodeModel::For(head, inner)));
    assert(Seq::<TokenModel>::empty() + node_code(c, NodeModel::While(head, inner)) == node_code(c, NodeModel::While(head, inner)));
}

/// `@let rest;`, `@const rest;`, `@break rest;` and `@continue rest;` expand
/// to the same statement without its `@`, for every `rest` that holds no
/// `;`: the keyword and the tokens after it are written as they were read.
pub proof fn law_statement_expansion(c: EmitModel, keyword: Seq<char>, rest: Seq<TokenModel>, children: bool)
    requires
        statement_keyword(keyword),
        no_punct(rest, 0, rest.len() as int, ';'),
    ensures
        markup_nodes(statement_tokens(keyword, rest), children) matches NodesScan::Done(ns) && nodes_code(c, ns)
            == seq![ident(keyword)] + rest + seq![punct(';')],
{
    law_statement_nodes(keyword, rest, children);
    let n = statement_node(keyword, rest);
    let ns = seq![n];
    assert(ns.drop_last() == Seq::<NodeModel>::empty());
    assert(nodes_code(c, Seq::<NodeModel>::empty()) == Seq::<TokenModel>::empty());
    assert(Seq::<TokenModel>::empty() + node_code(c, n) == node_code(c, n));
    assert(nodes_code(c, ns) == node_code(c, n));
}

} // verus!
