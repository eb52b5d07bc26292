use vstd::prelude::*;
use vstd::string::StringExecFns;
use crate::cursor::{Delimiter, Group, ParseError, Token, TokenModel, clone_stream, stream_model, lemma_stream_model_push,
    lemma_stream_model_concat};
use crate::dsl::{EnumRenderArm, EnumRenderArms, arms_model, error_at};
use crate::emit::{
    EmitModel, Emitter, emitter_model, ident, punct, paren, brace, builder_stmts, builder_block, nodes_code,
    body_result,
};
use crate::nodes::{NodesScan, markup_nodes};

verus! {

// The `Render` impl that `component!` writes for a struct or an enum. The
// item itself, its name and its generics split for the impl are read by
// the macro's shell; what is written from them is stated here.

pub open spec fn bracket(ts: Seq<TokenModel>) -> TokenModel {
    TokenModel::Group(Delimiter::Bracket, ts)
}

/// The context of a component's code: `__markup_template` as builder and
/// `__markup_children` for its children.
pub open spec fn component_context(crate_path: Seq<TokenModel>) -> EmitModel {
    EmitModel { crate_path, builder: "__markup_template"@, children: Some("__markup_children"@) }
}

/// `crate::name`.
pub open spec fn crate_item(c: EmitModel, name: Seq<char>) -> Seq<TokenModel> {
    c.crate_path + seq![punct(':'), punct(':'), ident(name)]
}

/// `::std::option::Option<crate::Markup>`.
pub open spec fn option_markup(c: EmitModel) -> Seq<TokenModel> {
    seq![
        punct(':'),
        punct(':'),
        ident("std"@),
        punct(':'),
        punct(':'),
        ident("option"@),
        punct(':'),
        punct(':'),
        ident("Option"@),
        punct('<'),
    ] + crate_item(c, "Markup"@) + seq![punct('>')]
}

/// `impl<..> crate::Render for Name<..> where ..`.
pub open spec fn impl_head(
    c: EmitModel,
    impl_generics: Seq<TokenModel>,
    name: Seq<TokenModel>,
    ty_generics: Seq<TokenModel>,
    where_clause: Seq<TokenModel>,
) -> Seq<TokenModel> {
    seq![ident("impl"@)] + impl_generics + crate_item(c, "Render"@) + seq![ident("for"@)] + name + ty_generics
        + where_clause
}

/// `fn render(&self, children: Option<Markup>) -> Markup`.
pub open spec fn render_signature(c: EmitModel) -> Seq<TokenModel> {
    seq![
        ident("fn"@),
        ident("render"@),
        paren(seq![punct('&'), ident("self"@), punct(','), ident(c.children.unwrap()), punct(':')] + option_markup(c)),
        punct('-'),
        punct('>'),
    ] + crate_item(c, "Markup"@)
}

/// `name,` for each field.
pub open spec fn field_list(fields: Seq<Seq<char>>) -> Seq<TokenModel>
    decreases fields.len(),
{
    if fields.len() == 0 {
        Seq::empty()
    } else {
        field_list(fields.drop_last()) + seq![ident(fields.last()), punct(',')]
    }
}

/// `#[allow(unused_variables)] let Self { fields.., .. } = self;`.
pub open spec fn bind_fields(fields: Seq<Seq<char>>) -> Seq<TokenModel> {
    seq![
        punct('#'),
        bracket(seq![ident("allow"@), paren(seq![ident("unused_variables"@)])]),
        ident("let"@),
        ident("Self"@),
        brace(field_list(fields) + seq![punct('.'), punct('.')]),
        punct('='),
        ident("self"@),
        punct(';'),
    ]
}

/// `= ::std::option::Option::None;`.
pub open spec fn none_binding_tail() -> Seq<TokenModel> {
    seq![
        punct('='),
        punct(':'),
        punct(':'),
        ident("std"@),
        punct(':'),
        punct(':'),
        ident("option"@),
        punct(':'),
        punct(':'),
        ident("Option"@),
        punct(':'),
        punct(':'),
        ident("None"@),
        punct(';'),
    ]
}

/// `fn render_into_builder(&self, builder: &mut TemplateBuilder) { .. }`:
/// no children, the fields bound, then the body.
pub open spec fn into_fn(c: EmitModel, fields: Seq<Seq<char>>, body: Seq<TokenModel>) -> Seq<TokenModel> {
    seq![
        ident("fn"@),
        ident("render_into_builder"@),
        paren(seq![punct('&'), ident("self"@), punct(','), ident(c.builder), punct(':'), punct('&'), ident("mut"@)]
            + c.crate_path + seq![
            punct(':'),
            punct(':'),
            ident("template"@),
            punct(':'),
            punct(':'),
            ident("TemplateBuilder"@),
        ]),
        brace(
            seq![ident("let"@), ident(c.children.unwrap()), punct(':')] + option_markup(c) + none_binding_tail()
                + bind_fields(fields) + body,
        ),
    ]
}

/// The `Render` impl of a component struct: `render` builds the body into
/// a builder of its own, `render_into_builder` writes it into the
/// caller's builder with no children.
pub open spec fn struct_impl_code(
    c: EmitModel,
    impl_generics: Seq<TokenModel>,
    name: Seq<TokenModel>,
    ty_generics: Seq<TokenModel>,
    where_clause: Seq<TokenModel>,
    fields: Seq<Seq<char>>,
    body: Seq<TokenModel>,
) -> Seq<TokenModel> {
    impl_head(c, impl_generics, name, ty_generics, where_clause) + seq![brace(
        render_signature(c) + seq![brace(bind_fields(fields) + builder_stmts(c, c.builder, body))]
            + into_fn(c, fields, body),
    )]
}

/// `pattern => { builds the arm's body and gives it },` for each arm.
pub open spec fn enum_arms_code(c: EmitModel, arms: Seq<(Seq<TokenModel>, Seq<TokenModel>)>) -> Seq<TokenModel>
    decreases arms.len(),
{
    if arms.len() == 0 {
        Seq::empty()
    } else {
        enum_arms_code(c, arms.drop_last()) + arms.last().0 + seq![
            punct('='),
            punct('>'),
            builder_block(c, c.builder, arms.last().1),
            punct(','),
        ]
    }
}

/// The `Render` impl of a component enum: `render` matches `self`.
pub open spec fn enum_impl_code(
    c: EmitModel,
    impl_generics: Seq<TokenModel>,
    name: Seq<TokenModel>,
    ty_generics: Seq<TokenModel>,
    where_clause: Seq<TokenModel>,
    arms: Seq<TokenModel>,
) -> Seq<TokenModel> {
    impl_head(c, impl_generics, name, ty_generics, where_clause) + seq![brace(
        render_signature(c) + seq![brace(seq![ident("match"@), ident("self"@), brace(arms)])],
    )]
}

/// The code of each arm's body, once every body reads.
pub enum ArmsCode {
    Done(Seq<(Seq<TokenModel>, Seq<TokenModel>)>),
    Fail(Seq<char>, Option<int>),
}

/// Reads each arm's body as markup, in order, stopping at the first error.
pub open spec fn arms_bodies(c: EmitModel, arms: Seq<(Seq<TokenModel>, Seq<TokenModel>)>) -> ArmsCode
    decreases arms.len(),
{
    if arms.len() == 0 {
        ArmsCode::Done(Seq::empty())
    } else {
        match arms_bodies(c, arms.drop_last()) {
            ArmsCode::Fail(m, at) => ArmsCode::Fail(m, at),
            ArmsCode::Done(done) => match markup_nodes(arms.last().1, true) {
                NodesScan::Done(ns) => ArmsCode::Done(done.push((arms.last().0, nodes_code(c, ns)))),
                NodesScan::Fail(m, at) => ArmsCode::Fail(m, at),
            },
        }
    }
}

fn no_tokens() -> (r: Vec<Token>)
    ensures
        stream_model(r@) == Seq::<TokenModel>::empty(),
{
    Vec::new()
}

fn push_token(out: &mut Vec<Token>, t: Token)
    ensures
        stream_model(final(out)@) == stream_model(old(out)@).push(crate::cursor::token_model(t)),
{
    proof {
        lemma_stream_model_push(out@, t);
    }
    out.push(t);
}

fn push_ident(out: &mut Vec<Token>, s: &str)
    ensures
        stream_model(final(out)@) == stream_model(old(out)@).push(ident(s@)),
{
    push_token(out, Token::Ident(String::from_str(s)));
}

fn push_punct(out: &mut Vec<Token>, c: char)
    ensures
        stream_model(final(out)@) == stream_model(old(out)@).push(punct(c)),
{
    push_token(out, Token::Punct(c));
}

fn push_group(out: &mut Vec<Token>, delimiter: Delimiter, inner: Vec<Token>)
    ensures
        stream_model(final(out)@) == stream_model(old(out)@).push(TokenModel::Group(delimiter, stream_model(inner@))),
{
    push_token(out, Token::Group(Group { delimiter, stream: inner }));
}

fn push_all(out: &mut Vec<Token>, ts: Vec<Token>)
    ensures
        stream_model(final(out)@) == stream_model(old(out)@) + stream_model(ts@),
{
    let mut ts = ts;
    proof {
        lemma_stream_model_concat(out@, ts@);
    }
    out.append(&mut ts);
}

fn push_stream(out: &mut Vec<Token>, ts: &Vec<Token>)
    ensures
        stream_model(final(out)@) == stream_model(old(out)@) + stream_model(ts@),
{
    push_all(out, clone_stream(ts));
}

pub open spec fn strings_view(v: Seq<String>) -> Seq<Seq<char>> {
    v.map_values(|s: String| s@)
}

/// How the code of a component is written: from the library's path, and
/// the pieces of the item that the macro's shell split off.
pub struct ComponentWriter {
    pub emitter: Emitter,
}

impl ComponentWriter {
    /// A writer for a component's code; `crate_path` names this library.
    pub fn new(crate_path: Vec<Token>) -> (w: Self)
        ensures
            emitter_model(&w.emitter) == component_context(stream_model(crate_path@)),
    {
        let w = ComponentWriter {
            emitter: Emitter {
                crate_path,
                builder: String::from_str("__markup_template"),
                children: Some(String::from_str("__markup_children")),
            },
        };
        w
    }

    /// `crate::name`.
    fn crate_item_tokens(&self, name: &str) -> (r: Vec<Token>)
        ensures
            stream_model(r@) == crate_item(emitter_model(&self.emitter), name@),
    {
        let mut r = clone_stream(&self.emitter.crate_path);
        push_punct(&mut r, ':');
        push_punct(&mut r, ':');
        push_ident(&mut r, name);
        r
    }

    /// `::std::option::Option<crate::Markup>`.
    fn option_markup_tokens(&self) -> (r: Vec<Token>)
        ensures
            stream_model(r@) == option_markup(emitter_model(&self.emitter)),
    {
        let mut r = no_tokens();
        push_punct(&mut r, ':');
        push_punct(&mut r, ':');
        push_ident(&mut r, "std");
        push_punct(&mut r, ':');
        push_punct(&mut r, ':');
        push_ident(&mut r, "option");
        push_punct(&mut r, ':');
        push_punct(&mut r, ':');
        push_ident(&mut r, "Option");
        push_punct(&mut r, '<');
        let ghost head = stream_model(r@);
        push_all(&mut r, self.crate_item_tokens("Markup"));
        push_punct(&mut r, '>');
        assert(stream_model(r@) == head + crate_item(emitter_model(&self.emitter), "Markup"@) + seq![punct('>')]);
        r
    }

    fn impl_head_tokens(
        &self,
        impl_generics: &Vec<Token>,
        name: &Vec<Token>,
        ty_generics: &Vec<Token>,
        where_clause: &Vec<Token>,
    ) -> (r: Vec<Token>)
        ensures
            stream_model(r@) == impl_head(
                emitter_model(&self.emitter),
                stream_model(impl_generics@),
                stream_model(name@),
                stream_model(ty_generics@),
                stream_model(where_clause@),
            ),
    {
        let mut r = no_tokens();
        push_ident(&mut r, "impl");
        push_stream(&mut r, impl_generics);
        push_all(&mut r, self.crate_item_tokens("Render"));
        push_ident(&mut r, "for");
        push_stream(&mut r, name);
        push_stream(&mut r, ty_generics);
        push_stream(&mut r, where_clause);
        r
    }

    fn render_signature_tokens(&self) -> (r: Vec<Token>)
        requires
            self.emitter.children is Some,
        ensures
            stream_model(r@) == render_signature(emitter_model(&self.emitter)),
    {
        let ghost c = emitter_model(&self.emitter);
        let children = match &self.emitter.children {
            Some(ch) => ch.clone(),
            None => String::new(),
        };
        let mut params = no_tokens();
        push_punct(&mut params, '&');
        push_ident(&mut params, "self");
        push_punct(&mut params, ',');
        push_token(&mut params, Token::Ident(children));
        push_punct(&mut params, ':');
        push_all(&mut params, self.option_markup_tokens());
        assert(stream_model(params@) == seq![punct('&'), ident("self"@), punct(','), ident(c.children.unwrap()), punct(':')]
            + option_markup(c));
        let mut r = no_tokens();
        push_ident(&mut r, "fn");
        push_ident(&mut r, "render");
        push_group(&mut r, Delimiter::Parenthesis, params);
        push_punct(&mut r, '-');
        push_punct(&mut r, '>');
        let ghost head = stream_model(r@);
        push_all(&mut r, self.crate_item_tokens("Markup"));
        assert(stream_model(r@) == render_signature(c));
        r
    }

    fn bind_fields_tokens(&self, fields: &Vec<String>) -> (r: Vec<Token>)
        ensures
            stream_model(r@) == bind_fields(strings_view(fields@)),
    {
        let ghost fs = strings_view(fields@);
        let mut list = no_tokens();
        let mut i: usize = 0;
        while i < fields.len()
            invariant
                i <= fields@.len(),
                fs == strings_view(fields@),
                stream_model(list@) == field_list(fs.take(i as int)),
            decreases fields@.len() - i,
        {
            proof {
                assert(fs.take(i + 1).drop_last() == fs.take(i as int));
                assert(fs.take(i + 1).last() == fields@[i as int]@);
            }
            push_token(&mut list, Token::Ident(fields[i].clone()));
            push_punct(&mut list, ',');
            i = i + 1;
        }
        assert(fs.take(fs.len() as int) == fs);
        push_punct(&mut list, '.');
        push_punct(&mut list, '.');
        assert(stream_model(list@) == field_list(fs) + seq![punct('.'), punct('.')]);
        let mut args = no_tokens();
        push_ident(&mut args, "unused_variables");
        assert(stream_model(args@) == seq![ident("unused_variables"@)]);
        let mut attr = no_tokens();
        push_ident(&mut attr, "allow");
        push_group(&mut attr, Delimiter::Parenthesis, args);
        assert(stream_model(attr@) == seq![ident("allow"@), paren(seq![ident("unused_variables"@)])]);
        let mut r = no_tokens();
        push_punct(&mut r, '#');
        push_group(&mut r, Delimiter::Bracket, attr);
        push_ident(&mut r, "let");
        push_ident(&mut r, "Self");
        push_group(&mut r, Delimiter::Brace, list);
        push_punct(&mut r, '=');
        push_ident(&mut r, "self");
        push_punct(&mut r, ';');
        assert(stream_model(r@) == bind_fields(fs));
        r
    }

    /// Writes the `Render` impl of a component struct from its body, its
    /// name, its generics split for an impl and its field names; or gives
    /// the error met reading the body.
    pub fn expand_struct(
        &self,
        impl_generics: &Vec<Token>,
        name: &Vec<Token>,
        ty_generics: &Vec<Token>,
        where_clause: &Vec<Token>,
        fields: &Vec<String>,
        body: Vec<Token>,
    ) -> (r: Result<Vec<Token>, ParseError>)
        requires
            self.emitter.children is Some,
        ensures
            match markup_nodes(stream_model(body@), true) {
                NodesScan::Done(ns) => r matches Ok(v) && stream_model(v@) == struct_impl_code(
                    emitter_model(&self.emitter),
                    stream_model(impl_generics@),
                    stream_model(name@),
                    stream_model(ty_generics@),
                    stream_model(where_clause@),
                    strings_view(fields@),
                    nodes_code(emitter_model(&self.emitter), ns),
                ),
                NodesScan::Fail(m, at) => r matches Err(e) && e.message@ == m && e.at == error_at(at),
            },
    {
        let ghost c = emitter_model(&self.emitter);
        let code = match self.emitter.expand_body(body) {
            Ok(code) => code,
            Err(e) => return Err(e),
        };
        let ghost bm = stream_model(code@);
        let render_fn = self.render_fn_tokens(fields, clone_stream(&code));
        let mut fns = render_fn;
        push_all(&mut fns, self.into_fn_tokens(fields, code));
        let ghost fm = stream_model(fns@);
        let mut r = self.impl_head_tokens(impl_generics, name, ty_generics, where_clause);
        push_group(&mut r, Delimiter::Brace, fns);
        assert(fm == render_signature(c) + seq![brace(bind_fields(strings_view(fields@)) + builder_stmts(c, c.builder, bm))]
            + into_fn(c, strings_view(fields@), bm));
        Ok(r)
    }

    /// `fn render(..) -> Markup { binds the fields, builds the body }`.
    fn render_fn_tokens(&self, fields: &Vec<String>, code: Vec<Token>) -> (r: Vec<Token>)
        requires
            self.emitter.children is Some,
        ensures
            stream_model(r@) == render_signature(emitter_model(&self.emitter)) + seq![brace(
                bind_fields(strings_view(fields@)) + builder_stmts(emitter_model(&self.emitter), self.emitter.builder@, stream_model(code@)),
            )],
    {
        let mut render_body = self.bind_fields_tokens(fields);
        push_all(&mut render_body, self.emitter.builder_stmts_tokens(&self.emitter.builder, code));
        let mut fns = self.render_signature_tokens();
        push_group(&mut fns, Delimiter::Brace, render_body);
        fns
    }

    /// `fn render_into_builder(..) { no children, binds the fields, the body }`.
    fn into_fn_tokens(&self, fields: &Vec<String>, code: Vec<Token>) -> (r: Vec<Token>)
        requires
            self.emitter.children is Some,
        ensures
            stream_model(r@) == into_fn(emitter_model(&self.emitter), strings_view(fields@), stream_model(code@)),
    {
        let ghost c = emitter_model(&self.emitter);
        let ghost bm = stream_model(code@);
        let children = match &self.emitter.children {
            Some(ch) => ch.clone(),
            None => String::new(),
        };
        let mut fns = no_tokens();
        push_ident(&mut fns, "fn");
        push_ident(&mut fns, "render_into_builder");
        let mut params = no_tokens();
        push_punct(&mut params, '&');
        push_ident(&mut params, "self");
        push_punct(&mut params, ',');
        push_token(&mut params, Token::Ident(self.emitter.builder.clone()));
        push_punct(&mut params, ':');
        push_punct(&mut params, '&');
        push_ident(&mut params, "mut");
        push_stream(&mut params, &self.emitter.crate_path);
        push_punct(&mut params, ':');
        push_punct(&mut params, ':');
        push_ident(&mut params, "template");
        push_punct(&mut params, ':');
        push_punct(&mut params, ':');
        push_ident(&mut params, "TemplateBuilder");
        assert(stream_model(params@) == seq![punct('&'), ident("self"@), punct(','), ident(c.builder), punct(':'), punct('&'), ident("mut"@)]
            + c.crate_path + seq![
            punct(':'),
            punct(':'),
            ident("template"@),
            punct(':'),
            punct(':'),
            ident("TemplateBuilder"@),
        ]);
        push_group(&mut fns, Delimiter::Parenthesis, params);
        let mut into = no_tokens();
        push_ident(&mut into, "let");
        push_token(&mut into, Token::Ident(children));
        push_punct(&mut into, ':');
        push_all(&mut into, self.option_markup_tokens());
        let ghost into_head = stream_model(into@);
        assert(into_head == seq![ident("let"@), ident(c.children.unwrap()), punct(':')] + option_markup(c));
        push_punct(&mut into, '=');
        push_punct(&mut into, ':');
        push_punct(&mut into, ':');
        push_ident(&mut into, "std");
        push_punct(&mut into, ':');
        push_punct(&mut into, ':');
        push_ident(&mut into, "option");
        push_punct(&mut into, ':');
        push_punct(&mut into, ':');
        push_ident(&mut into, "Option");
        push_punct(&mut into, ':');
        push_punct(&mut into, ':');
        push_ident(&mut into, "None");
        push_punct(&mut into, ';');
        let ghost into_none = stream_model(into@);
        assert(into_none == into_head + none_binding_tail());
        push_all(&mut into, self.bind_fields_tokens(fields));
        push_all(&mut into, code);
        assert(stream_model(into@) == into_head + none_binding_tail() + bind_fields(strings_view(fields@)) + bm);
        push_group(&mut fns, Delimiter::Brace, into);
        fns
    }

    /// Writes the `Render` impl of a component enum from its render arms,
    /// its name and its generics split for an impl; or gives the first
    /// error met reading an arm's body.
    pub fn expand_enum(
        &self,
        impl_generics: &Vec<Token>,
        name: &Vec<Token>,
        ty_generics: &Vec<Token>,
        where_clause: &Vec<Token>,
        arms: &EnumRenderArms,
    ) -> (r: Result<Vec<Token>, ParseError>)
        requires
            self.emitter.children is Some,
        ensures
            match arms_bodies(emitter_model(&self.emitter), arms_model(arms.arms@)) {
                ArmsCode::Done(done) => r matches Ok(v) && stream_model(v@) == enum_impl_code(
                    emitter_model(&self.emitter),
                    stream_model(impl_generics@),
                    stream_model(name@),
                    stream_model(ty_generics@),
                    stream_model(where_clause@),
                    enum_arms_code(emitter_model(&self.emitter), done),
                ),
                ArmsCode::Fail(m, at) => r matches Err(e) && e.message@ == m && e.at == error_at(at),
            },
    {
        let ghost c = emitter_model(&self.emitter);
        let ghost am = arms_model(arms.arms@);
        let mut code = no_tokens();
        let mut i: usize = 0;
        while i < arms.arms.len()
            invariant
                i <= arms.arms@.len(),
                c == emitter_model(&self.emitter),
                self.emitter.children is Some,
                am == arms_model(arms.arms@),
                arms_bodies(c, am.take(i as int)) matches ArmsCode::Done(done)
                    && stream_model(code@) == enum_arms_code(c, done),
            decreases arms.arms@.len() - i,
        {
            let ghost before = arms_bodies(c, am.take(i as int));
            proof {
                assert(am.take(i + 1).drop_last() == am.take(i as int));
                assert(am.take(i + 1).last() == am[i as int]);
            }
            let arm = &arms.arms[i];
            assert(am[i as int] == (stream_model(arm.pattern@), stream_model(arm.body@)));
            let input = clone_stream(&arm.body);
            let body = match self.emitter.expand_body(input) {
                Ok(body) => body,
                Err(e) => {
                    proof {
                        let scan = markup_nodes(am[i as int].1, true);
                        assert(scan is Fail);
                        assert(arms_bodies(c, am.take(i + 1)) == ArmsCode::Fail(scan->Fail_0, scan->Fail_1));
                        lemma_arms_fail_stays(c, am, i as int + 1);
                    }
                    return Err(e);
                },
            };
            let ghost done = before->Done_0;
            let ghost pair = (stream_model(arm.pattern@), stream_model(body@));
            push_stream(&mut code, &arm.pattern);
            push_punct(&mut code, '=');
            push_punct(&mut code, '>');
            push_token(&mut code, self.emitter.builder_block_token(&self.emitter.builder, body));
            push_punct(&mut code, ',');
            proof {
                let d2 = done.push(pair);
                assert(d2.drop_last() == done);
                assert(d2.last() == pair);
            }
            i = i + 1;
        }
        assert(am.take(am.len() as int) == am);
        assert(am.len() == arms.arms@.len());
        let ghost done = arms_bodies(c, am)->Done_0;
        assert(arms_bodies(c, am) is Done);
        let ghost cm = stream_model(code@);
        assert(cm == enum_arms_code(c, done));
        let mut inner = no_tokens();
        push_ident(&mut inner, "match");
        push_ident(&mut inner, "self");
        push_group(&mut inner, Delimiter::Brace, code);
        assert(stream_model(inner@) == seq![ident("match"@), ident("self"@), brace(cm)]);
        let mut fns = self.render_signature_tokens();
        push_group(&mut fns, Delimiter::Brace, inner);
        assert(stream_model(fns@) == render_signature(c) + seq![brace(seq![ident("match"@), ident("self"@), brace(cm)])]);
        let mut r = self.impl_head_tokens(impl_generics, name, ty_generics, where_clause);
        push_group(&mut r, Delimiter::Brace, fns);
        assert(stream_model(r@) == enum_impl_code(c, stream_model(impl_generics@), stream_model(name@), stream_model(ty_generics@), stream_model(where_clause@), cm));
        Ok(r)
    }
}

/// Once an arm's body fails to read, the arms read so far fail with it.
proof fn lemma_arms_fail_stays(c: EmitModel, arms: Seq<(Seq<TokenModel>, Seq<TokenModel>)>, k: int)
    requires
        1 <= k <= arms.len(),
        arms_bodies(c, arms.take(k)) is Fail,
    ensures
        arms_bodies(c, arms) == arms_bodies(c, arms.take(k)),
    decreases arms.len() - k,
{
    if k < arms.len() {
        assert(arms.take(k + 1).drop_last() == arms.take(k));
        lemma_arms_fail_stays(c, arms, k + 1);
    } else {
        assert(arms.take(k) == arms);
    }
}

} // verus!
