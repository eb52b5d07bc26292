use vstd::prelude::*;
use vstd::string::StringExecFns;
use crate::cursor::{
    Cursor, Delimiter, Group, ParseError, Token, TokenModel, is_group, lemma_stream_model_all,
    lemma_stream_model_concat, lemma_stream_model_push, no_group, no_punct, no_arrow, arrow_at, stream_model, token_model,
    token_stream_from_group,
};
use crate::html::push_char;
use crate::dsl::{
    Attr, AttrModel, AttrScan, ExprScan, NameScan, TokensScan, attr, attr_model, dashed_name, dashed_rest, error_at,
    expr_like, first_arrow, join_dashed, join_with_dash, lemma_attr_end, lemma_dashed_name_end,
    lemma_expr_like_end, lemma_first_arrow, lemma_first_arrow_after, lemma_no_first_arrow, looks_struct_literal,
    slot_call_at, tok, consume_markup_slot_call, group_looks_struct_literal, parse_attr, parse_expr_like,
    parse_name_segments, parse_static_tag, paren_starts_dynamic_element,
};

verus! {

/// The size of a token: one, plus the size of what a group holds.
pub open spec fn token_weight(t: TokenModel) -> nat
    decreases t,
{
    match t {
        TokenModel::Group(_, s) => 1 + stream_weight(s),
        _ => 1,
    }
}

/// The size of a token stream, nested groups included.
pub open spec fn stream_weight(s: Seq<TokenModel>) -> nat
    decreases s,
{
    if s.len() == 0 {
        0
    } else {
        token_weight(s[0]) + stream_weight(s.drop_first())
    }
}

/// The size of the tokens from `i` on.
pub open spec fn weight_from(ts: Seq<TokenModel>, i: int) -> nat {
    if 0 <= i <= ts.len() {
        stream_weight(ts.subrange(i, ts.len() as int))
    } else {
        0
    }
}

pub proof fn lemma_weight_step(ts: Seq<TokenModel>, i: int)
    requires
        0 <= i < ts.len(),
    ensures
        weight_from(ts, i) == token_weight(ts[i]) + weight_from(ts, i + 1),
{
    let s = ts.subrange(i, ts.len() as int);
    assert(s.drop_first() =~= ts.subrange(i + 1, ts.len() as int));
    assert(s[0] == ts[i]);
}

pub proof fn lemma_weight_start(s: Seq<TokenModel>)
    ensures
        weight_from(s, 0) == stream_weight(s),
{
    assert(s.subrange(0, s.len() as int) =~= s);
}

/// Reading further leaves less to read.
pub proof fn lemma_weight_less(ts: Seq<TokenModel>, i: int, j: int)
    requires
        0 <= i <= j <= ts.len(),
    ensures
        weight_from(ts, j) <= weight_from(ts, i),
        i < j ==> weight_from(ts, j) < weight_from(ts, i),
    decreases j - i,
{
    if i < j {
        lemma_weight_step(ts, i);
        lemma_weight_less(ts, i + 1, j);
    }
}

/// A group at or after `i` holds less than the tokens from `i` on.
pub proof fn lemma_weight_group(ts: Seq<TokenModel>, i: int, k: int, s: Seq<TokenModel>)
    requires
        0 <= i <= k < ts.len(),
        ts[k] matches TokenModel::Group(_, g) && g == s,
    ensures
        weight_from(s, 0) < weight_from(ts, i),
{
    lemma_weight_less(ts, i, k);
    lemma_weight_step(ts, k);
    lemma_weight_start(s);
}

/// Where the first `ch` at or after `j` is, if there is one.
pub open spec fn first_punct(ts: Seq<TokenModel>, j: int, ch: char) -> Option<int>
    decreases ts.len() - j,
{
    if !(0 <= j < ts.len()) {
        None
    } else if ts[j] == TokenModel::Punct(ch) {
        Some(j)
    } else {
        first_punct(ts, j + 1, ch)
    }
}

/// Where the first `{ ... }` group at or after `j` is, if there is one.
pub open spec fn first_brace(ts: Seq<TokenModel>, j: int) -> Option<int>
    decreases ts.len() - j,
{
    if !(0 <= j < ts.len()) {
        None
    } else if is_group(ts[j], Delimiter::Brace) {
        Some(j)
    } else {
        first_brace(ts, j + 1)
    }
}

pub proof fn lemma_first_punct(ts: Seq<TokenModel>, j: int, k: int, ch: char)
    requires
        0 <= j <= k < ts.len(),
        no_punct(ts, j, k, ch),
        ts[k] == TokenModel::Punct(ch),
    ensures
        first_punct(ts, j, ch) == Some(k),
    decreases k - j,
{
    if j < k {
        lemma_first_punct(ts, j + 1, k, ch);
    }
}

pub proof fn lemma_no_first_punct(ts: Seq<TokenModel>, j: int, ch: char)
    requires
        0 <= j,
        no_punct(ts, j, ts.len() as int, ch),
    ensures
        first_punct(ts, j, ch) is None,
    decreases ts.len() - j,
{
    if j < ts.len() {
        lemma_no_first_punct(ts, j + 1, ch);
    }
}

pub proof fn lemma_first_brace(ts: Seq<TokenModel>, j: int, k: int)
    requires
        0 <= j <= k < ts.len(),
        no_group(ts, j, k, Delimiter::Brace),
        is_group(ts[k], Delimiter::Brace),
    ensures
        first_brace(ts, j) == Some(k),
    decreases k - j,
{
    if j < k {
        lemma_first_brace(ts, j + 1, k);
    }
}

pub proof fn lemma_no_first_brace(ts: Seq<TokenModel>, j: int)
    requires
        0 <= j,
        no_group(ts, j, ts.len() as int, Delimiter::Brace),
    ensures
        first_brace(ts, j) is None,
    decreases ts.len() - j,
{
    if j < ts.len() {
        lemma_no_first_brace(ts, j + 1);
    }
}

pub proof fn lemma_first_punct_at(ts: Seq<TokenModel>, j: int, ch: char)
    requires
        0 <= j,
    ensures
        first_punct(ts, j, ch) matches Some(k) ==> j <= k < ts.len() && ts[k] == TokenModel::Punct(ch),
    decreases ts.len() - j,
{
    if j < ts.len() && ts[j] != TokenModel::Punct(ch) {
        lemma_first_punct_at(ts, j + 1, ch);
    }
}

pub proof fn lemma_first_brace_at(ts: Seq<TokenModel>, j: int)
    requires
        0 <= j,
    ensures
        first_brace(ts, j) matches Some(k) ==> j <= k < ts.len() && is_group(ts[k], Delimiter::Brace),
    decreases ts.len() - j,
{
    if j < ts.len() && !is_group(ts[j], Delimiter::Brace) {
        lemma_first_brace_at(ts, j + 1);
    }
}

/// A class or id: a name, or a parenthesized expression.
#[derive(Debug, PartialEq, Eq)]
pub enum Selector {
    Name(String),
    Expr(Vec<Token>),
}

/// An element's tag: a name, or a parenthesized expression.
#[derive(Debug, PartialEq, Eq)]
pub enum Tag {
    Static(String),
    Dynamic(Vec<Token>),
}

/// An element: its tag, classes, id and attributes, and its body, or none
/// for a void element closed with `;`.
#[derive(Debug, PartialEq, Eq)]
pub struct Element {
    pub tag: Tag,
    pub classes: Vec<Selector>,
    pub id: Option<Selector>,
    pub attrs: Vec<Attr>,
    pub body: Option<Vec<Node>>,
}

/// `@if`, with its condition, body and what follows it.
#[derive(Debug, PartialEq, Eq)]
pub struct IfNode {
    pub condition: Vec<Token>,
    pub then_body: Vec<Node>,
    pub else_branch: ElseBranch,
}

/// What follows an `@if`: nothing, `@else if`, or `@else`.
#[derive(Debug, PartialEq, Eq)]
pub enum ElseBranch {
    Nothing,
    If(Box<IfNode>),
    Block(Vec<Node>),
}

/// One arm of `@match`.
#[derive(Debug, PartialEq, Eq)]
pub struct MatchArm {
    pub pattern: Vec<Token>,
    pub body: Vec<Node>,
}

/// One node of the markup DSL.
#[derive(Debug, PartialEq, Eq)]
pub enum Node {
    /// A value rendered in place.
    Render(Vec<Token>),
    /// A value rendered with children; an error in the children is kept in
    /// place of them.
    RenderWithChildren(Vec<Token>, Result<Vec<Node>, ParseError>),
    /// Where a component's children go.
    ChildrenSlot,
    Let(Vec<Token>),
    Const(Vec<Token>),
    Fn(Vec<Token>, Vec<Token>),
    If(IfNode),
    For(Vec<Token>, Vec<Node>),
    While(Vec<Token>, Vec<Node>),
    Match(Vec<Token>, Vec<MatchArm>),
    Break(Vec<Token>),
    Continue(Vec<Token>),
    Element(Element),
}

pub enum SelectorModel {
    Name(Seq<char>),
    Expr(Seq<TokenModel>),
}

pub enum TagModel {
    Static(Seq<char>),
    Dynamic(Seq<TokenModel>),
}

pub struct IfModel {
    pub condition: Seq<TokenModel>,
    pub then_body: Seq<NodeModel>,
    pub else_branch: ElseModel,
}

pub enum ElseModel {
    Nothing,
    If(Box<IfModel>),
    Block(Seq<NodeModel>),
}

/// Children as read: their nodes, or the error met in them.
pub enum ChildrenModel {
    Nodes(Seq<NodeModel>),
    Error(Seq<char>, Option<usize>),
}

/// The meaning of a [`Node`].
pub enum NodeModel {
    Render(Seq<TokenModel>),
    RenderWithChildren(Seq<TokenModel>, ChildrenModel),
    ChildrenSlot,
    Let(Seq<TokenModel>),
    Const(Seq<TokenModel>),
    Fn(Seq<TokenModel>, Seq<TokenModel>),
    If(IfModel),
    For(Seq<TokenModel>, Seq<NodeModel>),
    While(Seq<TokenModel>, Seq<NodeModel>),
    Match(Seq<TokenModel>, Seq<(Seq<TokenModel>, Seq<NodeModel>)>),
    Break(Seq<TokenModel>),
    Continue(Seq<TokenModel>),
    Element(TagModel, Seq<SelectorModel>, Option<SelectorModel>, Seq<AttrModel>, Option<Seq<NodeModel>>),
}

pub open spec fn selector_model(s: Selector) -> SelectorModel {
    match s {
        Selector::Name(n) => SelectorModel::Name(n@),
        Selector::Expr(v) => SelectorModel::Expr(stream_model(v@)),
    }
}

pub open spec fn selectors_model(v: Seq<Selector>) -> Seq<SelectorModel> {
    v.map_values(|s: Selector| selector_model(s))
}

pub open spec fn opt_selector_model(s: Option<Selector>) -> Option<SelectorModel> {
    match s {
        Some(s) => Some(selector_model(s)),
        None => None,
    }
}

pub open spec fn tag_model(t: Tag) -> TagModel {
    match t {
        Tag::Static(n) => TagModel::Static(n@),
        Tag::Dynamic(v) => TagModel::Dynamic(stream_model(v@)),
    }
}

pub open spec fn attrs_model(v: Seq<Attr>) -> Seq<AttrModel> {
    v.map_values(|a: Attr| attr_model(a))
}

pub open spec fn node_model(n: Node) -> NodeModel
    decreases n,
{
    match n {
        Node::Render(v) => NodeModel::Render(stream_model(v@)),
        Node::RenderWithChildren(v, c) => NodeModel::RenderWithChildren(
            stream_model(v@),
            match c {
                Ok(ns) => ChildrenModel::Nodes(nodes_model(ns@)),
                Err(e) => ChildrenModel::Error(e.message@, e.at),
            },
        ),
        Node::ChildrenSlot => NodeModel::ChildrenSlot,
        Node::Let(v) => NodeModel::Let(stream_model(v@)),
        Node::Const(v) => NodeModel::Const(stream_model(v@)),
        Node::Fn(h, b) => NodeModel::Fn(stream_model(h@), stream_model(b@)),
        Node::If(i) => NodeModel::If(if_model(i)),
        Node::For(h, b) => NodeModel::For(stream_model(h@), nodes_model(b@)),
        Node::While(h, b) => NodeModel::While(stream_model(h@), nodes_model(b@)),
        Node::Match(s, arms) => NodeModel::Match(stream_model(s@), arms_nodes_model(arms@)),
        Node::Break(v) => NodeModel::Break(stream_model(v@)),
        Node::Continue(v) => NodeModel::Continue(stream_model(v@)),
        Node::Element(e) => NodeModel::Element(
            tag_model(e.tag),
            selectors_model(e.classes@),
            opt_selector_model(e.id),
            attrs_model(e.attrs@),
            match e.body {
                Some(b) => Some(nodes_model(b@)),
                None => None,
            },
        ),
    }
}

pub open spec fn if_model(i: IfNode) -> IfModel
    decreases i,
{
    IfModel {
        condition: stream_model(i.condition@),
        then_body: nodes_model(i.then_body@),
        else_branch: match i.else_branch {
            ElseBranch::Nothing => ElseModel::Nothing,
            ElseBranch::If(b) => ElseModel::If(Box::new(if_model(*b))),
            ElseBranch::Block(ns) => ElseModel::Block(nodes_model(ns@)),
        },
    }
}

pub open spec fn nodes_model(ns: Seq<Node>) -> Seq<NodeModel>
    decreases ns,
{
    if ns.len() == 0 {
        Seq::empty()
    } else {
        nodes_model(ns.drop_last()).push(node_model(ns.last()))
    }
}

pub open spec fn arms_nodes_model(arms: Seq<MatchArm>) -> Seq<(Seq<TokenModel>, Seq<NodeModel>)>
    decreases arms,
{
    if arms.len() == 0 {
        Seq::empty()
    } else {
        arms_nodes_model(arms.drop_last()).push(
            (stream_model(arms.last().pattern@), nodes_model(arms.last().body@)),
        )
    }
}

/// The tokens before the next `;`, and the position after it.
pub open spec fn until_semicolon(ts: Seq<TokenModel>, j: int) -> TokensScan {
    match first_punct(ts, j, ';') {
        Some(k) => TokensScan::Done(ts.subrange(j, k), k + 1),
        None => TokensScan::Fail("expected `;` before end of markup input"@, None, ts.len() as int),
    }
}

/// How reading up to a `{ ... }` group ends: the tokens before it, what
/// it holds, and the position after it; or an error.
pub enum BraceScan {
    Done(Seq<TokenModel>, Seq<TokenModel>, int),
    Fail(Seq<char>, Option<int>, int),
}

/// The tokens before the next `{ ... }` group, and what it holds.
pub open spec fn until_brace(ts: Seq<TokenModel>, j: int) -> BraceScan {
    match first_brace(ts, j) {
        Some(k) => match ts[k] {
            TokenModel::Group(_, s) => BraceScan::Done(ts.subrange(j, k), s, k + 1),
            _ => BraceScan::Done(ts.subrange(j, k), Seq::empty(), k + 1),
        },
        None => BraceScan::Fail("expected `{ ... }` before end of markup input"@, None, ts.len() as int),
    }
}

pub proof fn lemma_until_brace(ts: Seq<TokenModel>, j: int)
    requires
        0 <= j,
    ensures
        until_brace(ts, j) matches BraceScan::Done(_, s, e) ==> j < e <= ts.len() && ts[e - 1]
            == TokenModel::Group(Delimiter::Brace, s),
{
    lemma_first_brace_at(ts, j);
}

/// How reading a class or id ends.
pub enum SelectorScan {
    Done(SelectorModel, int),
    Fail(Seq<char>, Option<int>, int),
}

/// A class or id after `.` or `#`: a parenthesized expression, or a name
/// of identifiers joined by `-`.
pub open spec fn selector_value(ts: Seq<TokenModel>, j: int) -> SelectorScan {
    if tok(ts, j) matches Some(t) && is_group(t, Delimiter::Parenthesis) {
        SelectorScan::Done(SelectorModel::Expr(seq![ts[j]]), j + 1)
    } else {
        match dashed_name(ts, j) {
            NameScan::Done(segs, e) => SelectorScan::Done(SelectorModel::Name(join_dashed(segs)), e),
            NameScan::Fail(at, e) => SelectorScan::Fail("expected identifier"@, at, e),
        }
    }
}

/// The text of a token in an error message: names, literals and marks as
/// written, groups in their brackets with their tokens spaced.
pub open spec fn token_text(t: TokenModel) -> Seq<char>
    decreases t,
{
    match t {
        TokenModel::Ident(s) => s,
        TokenModel::Literal(s) => s,
        TokenModel::Punct(c) => seq![c],
        TokenModel::Group(d, s) => match d {
            Delimiter::Parenthesis => seq!['('] + stream_text(s) + seq![')'],
            Delimiter::Brace => seq!['{'] + stream_text(s) + seq!['}'],
            Delimiter::Bracket => seq!['['] + stream_text(s) + seq![']'],
            Delimiter::Invisible => stream_text(s),
        },
    }
}

/// The texts of tokens, separated by spaces.
pub open spec fn stream_text(s: Seq<TokenModel>) -> Seq<char>
    decreases s,
{
    if s.len() == 0 {
        Seq::empty()
    } else if s.len() == 1 {
        token_text(s[0])
    } else {
        stream_text(s.drop_last()) + seq![' '] + token_text(s.last())
    }
}

/// The error for a token that cannot start a node.
pub open spec fn unexpected_token_message(t: TokenModel) -> Seq<char> {
    "unexpected token in markup: `"@ + token_text(t) + "`"@
}

/// How reading a whole stream of nodes ends.
pub enum NodesScan {
    Done(Seq<NodeModel>),
    Fail(Seq<char>, Option<int>),
}

/// How reading one node ends: the node and the position after it, or an
/// error, where it points and the position after it.
pub enum NodeScan {
    Done(NodeModel, int),
    Fail(Seq<char>, Option<int>, int),
}

/// How reading an `@if` ends.
pub enum IfScan {
    Done(IfModel, int),
    Fail(Seq<char>, Option<int>, int),
}

/// How reading what follows an `@if` ends.
pub enum ElseScan {
    Done(ElseModel, int),
    Fail(Seq<char>, Option<int>, int),
}

/// How reading the arms of `@match` ends.
pub enum MatchArmsScan {
    Done(Seq<(Seq<TokenModel>, Seq<NodeModel>)>),
    Fail(Seq<char>, Option<int>),
}

/// Children as read, or the error met in them.
pub open spec fn children_result(r: NodesScan) -> ChildrenModel {
    match r {
        NodesScan::Done(ns) => ChildrenModel::Nodes(ns),
        NodesScan::Fail(m, at) => ChildrenModel::Error(m, error_at(at)),
    }
}

/// The nodes of a stream from `i`, after the nodes `acc`. `children` says
/// whether the markup is a component's body, where `@children` is its
/// children.
pub open spec fn nodes_from(ts: Seq<TokenModel>, i: int, acc: Seq<NodeModel>, children: bool) -> NodesScan
    decreases weight_from(ts, i), 3nat,
{
    if !(0 <= i < ts.len()) {
        NodesScan::Done(acc)
    } else {
        match node(ts, i, children) {
            NodeScan::Done(n, end) => if i < end <= ts.len() {
                proof {
                    lemma_weight_less(ts, i, end);
                }
                nodes_from(ts, end, acc.push(n), children)
            } else {
                NodesScan::Done(acc.push(n))
            },
            NodeScan::Fail(m, at, _) => NodesScan::Fail(m, at),
        }
    }
}

/// One node: a literal, `@` and what follows, an element (a name, or `.`
/// or `#` for a `div`, or a parenthesized tag followed by more), or a
/// parenthesized expression.
pub open spec fn node(ts: Seq<TokenModel>, i: int, children: bool) -> NodeScan
    decreases weight_from(ts, i), 2nat,
{
    if !(0 <= i < ts.len()) {
        NodeScan::Fail("unexpected end of input"@, None, i)
    } else {
        proof {
            lemma_weight_less(ts, i, i + 1);
        }
        match ts[i] {
            TokenModel::Literal(_) => NodeScan::Done(NodeModel::Render(seq![ts[i]]), i + 1),
            TokenModel::Punct('@') => at_node(ts, i + 1, children),
            TokenModel::Punct('.') => element_after_selector(ts, i + 1, true, children),
            TokenModel::Punct('#') => element_after_selector(ts, i + 1, false, children),
            TokenModel::Group(Delimiter::Parenthesis, s) => if tok(ts, i + 1) matches Some(t) && !is_group(
                t,
                Delimiter::Invisible,
            ) {
                element_rest(ts, i + 1, TagModel::Dynamic(s), Seq::empty(), None, Seq::empty(), children)
            } else {
                NodeScan::Done(NodeModel::Render(seq![ts[i]]), i + 1)
            },
            TokenModel::Ident(_) => {
                proof {
                    lemma_dashed_name_end(ts, i);
                }
                match dashed_name(ts, i) {
                    NameScan::Done(segs, e) => {
                        proof {
                            lemma_weight_less(ts, i, e);
                        }
                        element_rest(
                            ts,
                            e,
                            TagModel::Static(join_dashed(segs)),
                            Seq::empty(),
                            None,
                            Seq::empty(),
                            children,
                        )
                    },
                    NameScan::Fail(at, e) => NodeScan::Fail("expected identifier"@, at, e),
                }
            },
            _ => NodeScan::Fail(unexpected_token_message(ts[i]), Some(i), i),
        }
    }
}

/// A `div` that starts with a class (`class` holds) or an id at `j`.
pub open spec fn element_after_selector(ts: Seq<TokenModel>, j: int, class: bool, children: bool) -> NodeScan
    decreases weight_from(ts, j), 2nat,
{
    if j < 0 {
        NodeScan::Fail("expected identifier"@, None, j)
    } else {
        proof {
            lemma_selector_value_end(ts, j);
        }
        match selector_value(ts, j) {
            SelectorScan::Done(sel, e) => {
                proof {
                    lemma_weight_less(ts, j, e);
                }
                element_rest(
                    ts,
                    e,
                    TagModel::Static("div"@),
                    if class { seq![sel] } else { Seq::empty() },
                    if class { None } else { Some(sel) },
                    Seq::empty(),
                    children,
                )
            },
            SelectorScan::Fail(m, at, e) => NodeScan::Fail(m, at, e),
        }
    }
}

/// The rest of an element from `j`: attributes, `.` classes and `#` ids,
/// then `;` for a void element or a `{ ... }` body.
#[verifier::opaque]
pub open spec fn element_rest(
    ts: Seq<TokenModel>,
    j: int,
    tag: TagModel,
    classes: Seq<SelectorModel>,
    id: Option<SelectorModel>,
    attrs: Seq<AttrModel>,
    children: bool,
) -> NodeScan
    decreases weight_from(ts, j), 2nat,
{
    if !(0 <= j) {
        NodeScan::Fail("expected element body `{ ... }` or `;`"@, None, j)
    } else if tok(ts, j) == Some(TokenModel::Punct('.')) && tok(ts, j + 1) == Some(TokenModel::Punct('.')) {
        proof {
            lemma_attr_end(ts, j);
        }
        match attr(ts, j) {
            AttrScan::Done(a, e) => {
                proof {
                    lemma_weight_less(ts, j, e);
                }
                element_rest(ts, e, tag, classes, id, attrs.push(a), children)
            },
            AttrScan::Fail(m, at, e) => NodeScan::Fail(m, at, e),
        }
    } else if tok(ts, j) == Some(TokenModel::Punct('.')) || tok(ts, j) == Some(TokenModel::Punct('#')) {
        proof {
            lemma_selector_value_end(ts, j + 1);
        }
        match selector_value(ts, j + 1) {
            SelectorScan::Done(sel, e) => {
                proof {
                    lemma_weight_less(ts, j, e);
                }
                if tok(ts, j) == Some(TokenModel::Punct('.')) {
                    element_rest(ts, e, tag, classes.push(sel), id, attrs, children)
                } else {
                    element_rest(ts, e, tag, classes, Some(sel), attrs, children)
                }
            },
            SelectorScan::Fail(m, at, e) => NodeScan::Fail(m, at, e),
        }
    } else if tok(ts, j) == Some(TokenModel::Punct(';')) {
        NodeScan::Done(NodeModel::Element(tag, classes, id, attrs, None), j + 1)
    } else if tok(ts, j) matches Some(TokenModel::Group(Delimiter::Brace, _)) {
        let s = ts[j]->Group_1;
        proof {
            lemma_weight_group(ts, j, j, s);
        }
        match nodes_from(s, 0, Seq::empty(), children) {
            NodesScan::Done(body) => NodeScan::Done(NodeModel::Element(tag, classes, id, attrs, Some(body)), j + 1),
            NodesScan::Fail(m, at) => NodeScan::Fail(m, at, j + 1),
        }
    } else if j >= ts.len() {
        NodeScan::Fail("expected element body `{ ... }` or `;`"@, None, j)
    } else {
        proof {
            lemma_attr_end(ts, j);
        }
        match attr(ts, j) {
            AttrScan::Done(a, e) => {
                proof {
                    lemma_weight_less(ts, j, e);
                }
                element_rest(ts, e, tag, classes, id, attrs.push(a), children)
            },
            AttrScan::Fail(m, at, e) => NodeScan::Fail(m, at, e),
        }
    }
}

/// What follows `@` at `j`: `let`, `const`, `fn`, `if`, `for`, `while`,
/// `match`, `break` or `continue`; in a component's body `children` or
/// `Markup::slot()` for its children; else a value to render.
pub open spec fn at_node(ts: Seq<TokenModel>, j: int, children: bool) -> NodeScan
    decreases weight_from(ts, j), 2nat,
{
    if !(0 <= j <= ts.len()) {
        NodeScan::Fail("expected Rust expression in markup"@, None, j)
    } else if tok(ts, j) == Some(TokenModel::Ident("let"@)) || tok(ts, j) == Some(TokenModel::Ident("const"@))
        || tok(ts, j) == Some(TokenModel::Ident("break"@)) || tok(ts, j) == Some(TokenModel::Ident("continue"@)) {
        match until_semicolon(ts, j + 1) {
            TokensScan::Done(out, e) => NodeScan::Done(
                if tok(ts, j) == Some(TokenModel::Ident("let"@)) {
                    NodeModel::Let(out)
                } else if tok(ts, j) == Some(TokenModel::Ident("const"@)) {
                    NodeModel::Const(out)
                } else if tok(ts, j) == Some(TokenModel::Ident("break"@)) {
                    NodeModel::Break(out)
                } else {
                    NodeModel::Continue(out)
                },
                e,
            ),
            TokensScan::Fail(m, at, e) => NodeScan::Fail(m, at, e),
        }
    } else if tok(ts, j) == Some(TokenModel::Ident("fn"@)) {
        match until_brace(ts, j + 1) {
            BraceScan::Done(head, s, e) => NodeScan::Done(
                NodeModel::Fn(head, seq![TokenModel::Group(Delimiter::Brace, s)]),
                e,
            ),
            BraceScan::Fail(m, at, e) => NodeScan::Fail(m, at, e),
        }
    } else if tok(ts, j) == Some(TokenModel::Ident("if"@)) {
        proof {
            lemma_weight_less(ts, j, j + 1);
        }
        match if_node(ts, j + 1, children) {
            IfScan::Done(m, e) => NodeScan::Done(NodeModel::If(m), e),
            IfScan::Fail(m, at, e) => NodeScan::Fail(m, at, e),
        }
    } else if tok(ts, j) == Some(TokenModel::Ident("for"@)) || tok(ts, j) == Some(TokenModel::Ident("while"@)) {
        proof {
            lemma_until_brace(ts, j + 1);
        }
        match until_brace(ts, j + 1) {
            BraceScan::Done(head, s, e) => {
                proof {
                    lemma_weight_group(ts, j, e - 1, s);
                }
                match nodes_from(s, 0, Seq::empty(), children) {
                    NodesScan::Done(body) => NodeScan::Done(
                        if tok(ts, j) == Some(TokenModel::Ident("for"@)) {
                            NodeModel::For(head, body)
                        } else {
                            NodeModel::While(head, body)
                        },
                        e,
                    ),
                    NodesScan::Fail(m, at) => NodeScan::Fail(m, at, e),
                }
            },
            BraceScan::Fail(m, at, e) => NodeScan::Fail(m, at, e),
        }
    } else if tok(ts, j) == Some(TokenModel::Ident("match"@)) {
        proof {
            lemma_until_brace(ts, j + 1);
        }
        match until_brace(ts, j + 1) {
            BraceScan::Done(scrutinee, s, e) => {
                proof {
                    lemma_weight_group(ts, j, e - 1, s);
                }
                match match_arms(s, 0, Seq::empty(), children) {
                    MatchArmsScan::Done(arms) => NodeScan::Done(NodeModel::Match(scrutinee, arms), e),
                    MatchArmsScan::Fail(m, at) => NodeScan::Fail(m, at, e),
                }
            },
            BraceScan::Fail(m, at, e) => NodeScan::Fail(m, at, e),
        }
    } else if children && tok(ts, j) == Some(TokenModel::Ident("children"@)) && !(tok(ts, j + 1) matches Some(
        TokenModel::Punct(c),
    ) && (c == '.' || c == ':' || c == '!' || c == '<')) && !(tok(ts, j + 1) matches Some(t) && (is_group(
        t,
        Delimiter::Parenthesis,
    ) || is_group(t, Delimiter::Bracket))) {
        NodeScan::Done(NodeModel::ChildrenSlot, j + 1)
    } else if children && slot_call_at(ts, j) {
        NodeScan::Done(NodeModel::ChildrenSlot, j + 5)
    } else {
        rendered_value(ts, j, children)
    }
}

/// `@if` from `j`: a condition up to a `{ ... }` body, then what follows.
pub open spec fn if_node(ts: Seq<TokenModel>, j: int, children: bool) -> IfScan
    decreases weight_from(ts, j), 2nat,
{
    if !(0 <= j <= ts.len()) {
        IfScan::Fail("expected `{ ... }` before end of markup input"@, None, j)
    } else {
        proof {
            lemma_until_brace(ts, j);
        }
        match until_brace(ts, j) {
            BraceScan::Done(condition, s, e) => {
                proof {
                    lemma_weight_group(ts, j, e - 1, s);
                    lemma_weight_less(ts, j, e);
                }
                match nodes_from(s, 0, Seq::empty(), children) {
                    NodesScan::Done(then_body) => match else_node(ts, e, children) {
                        ElseScan::Done(else_branch, end) => IfScan::Done(
                            IfModel { condition, then_body, else_branch },
                            end,
                        ),
                        ElseScan::Fail(m, at, end) => IfScan::Fail(m, at, end),
                    },
                    NodesScan::Fail(m, at) => IfScan::Fail(m, at, e),
                }
            },
            BraceScan::Fail(m, at, e) => IfScan::Fail(m, at, e),
        }
    }
}

/// What follows an `@if` body at `e`: `@else if`, `@else { ... }`, or
/// nothing.
pub open spec fn else_node(ts: Seq<TokenModel>, e: int, children: bool) -> ElseScan
    decreases weight_from(ts, e), 2nat,
{
    if !(0 <= e && tok(ts, e) == Some(TokenModel::Punct('@')) && tok(ts, e + 1) == Some(
        TokenModel::Ident("else"@),
    )) {
        ElseScan::Done(ElseModel::Nothing, e)
    } else if tok(ts, e + 2) == Some(TokenModel::Ident("if"@)) {
        proof {
            lemma_weight_less(ts, e, e + 3);
        }
        match if_node(ts, e + 3, children) {
            IfScan::Done(m, end) => ElseScan::Done(ElseModel::If(Box::new(m)), end),
            IfScan::Fail(m, at, end) => ElseScan::Fail(m, at, end),
        }
    } else if tok(ts, e + 2) matches Some(TokenModel::Group(Delimiter::Brace, _)) {
        let s = ts[e + 2]->Group_1;
        proof {
            lemma_weight_group(ts, e, e + 2, s);
        }
        match nodes_from(s, 0, Seq::empty(), children) {
            NodesScan::Done(body) => ElseScan::Done(ElseModel::Block(body), e + 3),
            NodesScan::Fail(m, at) => ElseScan::Fail(m, at, e + 3),
        }
    } else {
        ElseScan::Fail(
            "expected `{ ... }` after `@else`"@,
            if e + 2 < ts.len() { Some(e + 2) } else { None },
            e + 2,
        )
    }
}

/// The arms of `@match` from `m`, after the arms `acc`: each a pattern up
/// to `=>`, a `{ ... }` body and an optional `,`.
pub open spec fn match_arms(
    s: Seq<TokenModel>,
    m: int,
    acc: Seq<(Seq<TokenModel>, Seq<NodeModel>)>,
    children: bool,
) -> MatchArmsScan
    decreases weight_from(s, m), 2nat,
{
    if !(0 <= m < s.len()) {
        MatchArmsScan::Done(acc)
    } else {
        proof {
            lemma_first_arrow_after(s, m);
        }
        match first_arrow(s, m) {
            None => MatchArmsScan::Fail("expected `=>` in component enum render arm"@, None),
            Some(k) => if tok(s, k + 2) matches Some(TokenModel::Group(Delimiter::Brace, _)) {
                let b = s[k + 2]->Group_1;
                proof {
                    lemma_weight_group(s, m, k + 2, b);
                }
                match nodes_from(b, 0, Seq::empty(), children) {
                    NodesScan::Done(body) => {
                        let e = if tok(s, k + 3) == Some(TokenModel::Punct(',')) {
                            k + 4
                        } else {
                            k + 3
                        };
                        proof {
                            lemma_weight_less(s, m, e);
                        }
                        match_arms(s, e, acc.push((s.subrange(m, k), body)), children)
                    },
                    NodesScan::Fail(msg, at) => MatchArmsScan::Fail(msg, at),
                }
            } else {
                MatchArmsScan::Fail(
                    "expected `{ ... }` in match arm"@,
                    if k + 2 < s.len() { Some(k + 2) } else { None },
                )
            },
        }
    }
}

/// A value to render from `j`: an expression, then, where it is a plain
/// path followed by a group that reads as struct fields, that group too;
/// then an optional `{ ... }` group of children.
pub open spec fn rendered_value(ts: Seq<TokenModel>, j: int, children: bool) -> NodeScan
    decreases weight_from(ts, j), 1nat,
{
    if j < 0 {
        NodeScan::Fail("expected Rust expression in markup"@, None, j)
    } else {
        proof {
            lemma_expr_like_end(ts, j);
        }
        match expr_like(ts, j) {
            ExprScan::Fail(m, at, e) => NodeScan::Fail(m, at, e),
            ExprScan::Done(out, simple, e) => if simple && (tok(ts, e) matches Some(
                TokenModel::Group(Delimiter::Brace, _),
            )) {
                let props = ts[e]->Group_1;
                if looks_struct_literal(props) {
                    if tok(ts, e + 1) matches Some(TokenModel::Group(Delimiter::Brace, _)) {
                        let c = ts[e + 1]->Group_1;
                        proof {
                            lemma_weight_group(ts, j, e + 1, c);
                        }
                        NodeScan::Done(
                            NodeModel::RenderWithChildren(
                                out.push(ts[e]),
                                children_result(nodes_from(c, 0, Seq::empty(), children)),
                            ),
                            e + 2,
                        )
                    } else {
                        NodeScan::Done(NodeModel::Render(out.push(ts[e])), e + 1)
                    }
                } else {
                    proof {
                        lemma_weight_group(ts, j, e, props);
                    }
                    NodeScan::Done(
                        NodeModel::RenderWithChildren(
                            out,
                            children_result(nodes_from(props, 0, Seq::empty(), children)),
                        ),
                        e + 1,
                    )
                }
            } else if tok(ts, e) matches Some(TokenModel::Group(Delimiter::Brace, _)) {
                let c = ts[e]->Group_1;
                proof {
                    lemma_weight_group(ts, j, e, c);
                }
                NodeScan::Done(
                    NodeModel::RenderWithChildren(out, children_result(nodes_from(c, 0, Seq::empty(), children))),
                    e + 1,
                )
            } else {
                NodeScan::Done(NodeModel::Render(out), e)
            },
        }
    }
}

/// The nodes of a whole stream.
pub open spec fn markup_nodes(ts: Seq<TokenModel>, children: bool) -> NodesScan {
    nodes_from(ts, 0, Seq::empty(), children)
}

/// A class or id read ends after where it starts.
pub proof fn lemma_selector_value_end(ts: Seq<TokenModel>, j: int)
    requires
        0 <= j,
    ensures
        selector_value(ts, j) matches SelectorScan::Done(_, e) ==> j < e <= ts.len(),
{
    lemma_dashed_name_end(ts, j);
}

pub proof fn lemma_nodes_model_push(ns: Seq<Node>, n: Node)
    ensures
        nodes_model(ns.push(n)) == nodes_model(ns).push(node_model(n)),
{
    assert(ns.push(n).drop_last() == ns);
}

pub proof fn lemma_arms_model_push(arms: Seq<MatchArm>, a: MatchArm)
    ensures
        arms_nodes_model(arms.push(a)) == arms_nodes_model(arms).push(
            (stream_model(a.pattern@), nodes_model(a.body@)),
        ),
{
    assert(arms.push(a).drop_last() == arms);
}

/// The text of a token in an error message.
#[verifier::loop_isolation(false)]
fn describe_token(t: &Token) -> (r: String)
    ensures
        r@ == token_text(token_model(*t)),
    decreases t,
{
    match t {
        Token::Ident(s) => s.clone(),
        Token::Literal(s) => s.clone(),
        Token::Punct(c) => {
            let mut r = String::new();
            push_char(&mut r, *c);
            r
        },
        Token::Group(g) => {
            let ghost sm = stream_model(g.stream@);
            proof {
                lemma_stream_model_all(g.stream@);
            }
            let mut r = String::new();
            match g.delimiter {
                Delimiter::Parenthesis => push_char(&mut r, '('),
                Delimiter::Brace => push_char(&mut r, '{'),
                Delimiter::Bracket => push_char(&mut r, '['),
                Delimiter::Invisible => {},
            }
            let ghost open = r@;
            assert(stream_text(sm.take(0)) =~= Seq::<char>::empty());
            let mut k: usize = 0;
            while k < g.stream.len()
                invariant
                    k <= g.stream@.len(),
                    sm.len() == g.stream@.len(),
                    forall|i: int| 0 <= i < g.stream@.len() ==> sm[i] == token_model(#[trigger] g.stream@[i]),
                    r@ == open + stream_text(sm.take(k as int)),
                decreases g.stream@.len() - k,
            {
                proof {
                    assert(decreases_to!(*t => *g));
                    assert(decreases_to!(*g => g.stream));
                    assert(decreases_to!(g.stream => g.stream@));
                    assert(decreases_to!(g.stream@ => g.stream@[k as int]));
                    let next = sm.take(k + 1);
                    assert(next.drop_last() =~= sm.take(k as int));
                    assert(next.last() == sm[k as int]);
                    if k == 0 {
                        assert(next.len() == 1);
                        assert(stream_text(next) == token_text(next[0]));
                    }
                }
                let text = describe_token(&g.stream[k]);
                if k > 0 {
                    push_char(&mut r, ' ');
                }
                r.append(text.as_str());
                k = k + 1;
            }
            assert(sm.take(sm.len() as int) =~= sm);
            match g.delimiter {
                Delimiter::Parenthesis => push_char(&mut r, ')'),
                Delimiter::Brace => push_char(&mut r, '}'),
                Delimiter::Bracket => push_char(&mut r, ']'),
                Delimiter::Invisible => {},
            }
            r
        },
    }
}

/// The error for a token that cannot start a node.
fn unexpected_token(t: &Token, at: Option<usize>) -> (e: ParseError)
    ensures
        e.message@ == unexpected_token_message(token_model(*t)),
        e.at == at,
{
    let mut message = String::from_str("unexpected token in markup: `");
    let text = describe_token(t);
    message.append(text.as_str());
    message.append("`");
    ParseError { message, at }
}

/// One token as a stream.
fn single(t: Token) -> (r: Vec<Token>)
    ensures
        stream_model(r@) == seq![token_model(t)],
{
    let mut r: Vec<Token> = Vec::new();
    proof {
        lemma_stream_model_push(r@, t);
        assert(Seq::<TokenModel>::empty().push(token_model(t)) == seq![token_model(t)]);
    }
    r.push(t);
    r
}

/// Whether reading nodes gave `scan`.
pub open spec fn nodes_result(r: Result<Vec<Node>, ParseError>, scan: NodesScan) -> bool {
    match scan {
        NodesScan::Done(ns) => r matches Ok(v) && nodes_model(v@) == ns,
        NodesScan::Fail(m, at) => r matches Err(e) && e.message@ == m && e.at == error_at(at),
    }
}

/// Whether reading one node gave `scan`, ending at `end`.
pub open spec fn node_result(r: Result<Node, ParseError>, scan: NodeScan, end: int) -> bool {
    match scan {
        NodeScan::Done(n, e) => r matches Ok(x) && node_model(x) == n && end == e,
        NodeScan::Fail(m, at, e) => r matches Err(x) && x.message@ == m && x.at == error_at(at) && end == e,
    }
}

pub open spec fn if_result(r: Result<IfNode, ParseError>, scan: IfScan, end: int) -> bool {
    match scan {
        IfScan::Done(n, e) => r matches Ok(x) && if_model(x) == n && end == e,
        IfScan::Fail(m, at, e) => r matches Err(x) && x.message@ == m && x.at == error_at(at) && end == e,
    }
}

pub open spec fn else_result(r: Result<ElseBranch, ParseError>, scan: ElseScan, end: int) -> bool {
    match scan {
        ElseScan::Done(n, e) => r matches Ok(x) && else_model(x) == n && end == e,
        ElseScan::Fail(m, at, e) => r matches Err(x) && x.message@ == m && x.at == error_at(at) && end == e,
    }
}

pub open spec fn else_model(b: ElseBranch) -> ElseModel {
    match b {
        ElseBranch::Nothing => ElseModel::Nothing,
        ElseBranch::If(i) => ElseModel::If(Box::new(if_model(*i))),
        ElseBranch::Block(ns) => ElseModel::Block(nodes_model(ns@)),
    }
}

/// How a `div` starts: with a class or with an id.
pub enum SelectorStart {
    Class,
    Id,
}

/// Reads the markup DSL into nodes.
pub struct MarkupParser {
    /// Whether the markup is a component's body, where `@children` stands
    /// for the component's children.
    pub children: bool,
}

impl MarkupParser {
    /// Reads a whole token stream into nodes.
    pub fn parse(&self, input: Vec<Token>) -> (r: Result<Vec<Node>, ParseError>)
        ensures
            nodes_result(r, markup_nodes(stream_model(input@), self.children)),
        decreases stream_weight(stream_model(input@)), 5nat,
    {
        let mut cursor = Cursor::new(input);
        proof {
            lemma_weight_start(cursor.tokens());
        }
        self.parse_nodes(&mut cursor)
    }

    /// Reads what a group holds into nodes.
    pub fn parse_group_body(&self, group: Group) -> (r: Result<Vec<Node>, ParseError>)
        ensures
            nodes_result(r, markup_nodes(stream_model(group.stream@), self.children)),
        decreases stream_weight(stream_model(group.stream@)), 6nat,
    {
        self.parse(group.stream)
    }

    /// Reads nodes up to the end of the stream.
    pub fn parse_nodes(&self, cursor: &mut Cursor) -> (r: Result<Vec<Node>, ParseError>)
        ensures
            final(cursor).tokens() == old(cursor).tokens(),
            nodes_result(r, nodes_from(old(cursor).tokens(), old(cursor).pos(), Seq::empty(), self.children)),
        decreases weight_from(old(cursor).tokens(), old(cursor).pos()), 4nat,
    {
        let ghost ts = cursor.tokens();
        let ghost start = cursor.pos();
        proof {
            cursor.lemma_bounds();
        }
        let mut out: Vec<Node> = Vec::new();
        while !cursor.is_empty()
            invariant
                ts == old(cursor).tokens(),
                start == old(cursor).pos(),
                cursor.tokens() == ts,
                0 <= start <= cursor.pos() <= ts.len(),
                nodes_from(ts, start, Seq::empty(), self.children) == nodes_from(
                    ts,
                    cursor.pos(),
                    nodes_model(out@),
                    self.children,
                ),
            decreases ts.len() - cursor.pos(),
        {
            proof {
                lemma_weight_less(ts, start, cursor.pos());
            }
            match self.parse_node(cursor) {
                Ok(node) => {
                    proof {
                        lemma_nodes_model_push(out@, node);
                    }
                    out.push(node);
                },
                Err(e) => return Err(e),
            }
        }
        Ok(out)
    }

    /// Reads one node.
    pub fn parse_node(&self, cursor: &mut Cursor) -> (r: Result<Node, ParseError>)
        ensures
            final(cursor).tokens() == old(cursor).tokens(),
            node_result(r, node(old(cursor).tokens(), old(cursor).pos(), self.children), final(cursor).pos()),
            r is Ok ==> old(cursor).pos() < final(cursor).pos() <= old(cursor).tokens().len(),
        decreases weight_from(old(cursor).tokens(), old(cursor).pos()), 3nat,
    {
        let ghost ts = cursor.tokens();
        let ghost i = cursor.pos();
        proof {
            cursor.lemma_bounds();
            if i < ts.len() {
                lemma_weight_less(ts, i, i + 1);
            }
        }
        let at = cursor.span();
        match cursor.peek() {
            Some(Token::Literal(_)) => {
                match cursor.next_literal() {
                    Ok(literal) => Ok(Node::Render(single(Token::Literal(literal)))),
                    Err(e) => Err(e),
                }
            },
            Some(Token::Punct(p)) if *p == '@' => self.parse_at(cursor),
            Some(Token::Punct(p)) if *p == '.' => {
                cursor.next();
                self.parse_element_after_selector(Tag::Static(String::from_str("div")), SelectorStart::Class, cursor)
            },
            Some(Token::Punct(p)) if *p == '#' => {
                cursor.next();
                self.parse_element_after_selector(Tag::Static(String::from_str("div")), SelectorStart::Id, cursor)
            },
            Some(Token::Group(g)) if g.delimiter == Delimiter::Parenthesis => {
                if paren_starts_dynamic_element(cursor) {
                    match cursor.consume_group(Delimiter::Parenthesis) {
                        Some(group) => {
                            proof {
                                assert(node(ts, i, self.children) == element_rest(
                                    ts,
                                    i + 1,
                                    TagModel::Dynamic(stream_model(group.stream@)),
                                    Seq::empty(),
                                    None,
                                    Seq::empty(),
                                    self.children,
                                )) by {
                                    reveal(element_rest);
                                }
                            }
                            self.parse_element(Tag::Dynamic(group.stream), cursor)
                        },
                        None => {
                            proof {
                                assert(false);
                            }
                            Err(cursor.unexpected("unexpected end of input"))
                        },
                    }
                } else {
                    match cursor.consume_group(Delimiter::Parenthesis) {
                        Some(group) => Ok(Node::Render(token_stream_from_group(&group))),
                        None => {
                            proof {
                                assert(false);
                            }
                            Err(cursor.unexpected("unexpected end of input"))
                        },
                    }
                }
            },
            Some(Token::Ident(_)) => {
                proof {
                    lemma_dashed_name_end(ts, i);
                }
                match parse_static_tag(cursor) {
                    Ok(tag) => {
                        proof {
                            lemma_weight_less(ts, i, cursor.pos());
                            assert(node(ts, i, self.children) == element_rest(
                                ts,
                                cursor.pos(),
                                TagModel::Static(tag@),
                                Seq::empty(),
                                None,
                                Seq::empty(),
                                self.children,
                            )) by {
                                reveal(element_rest);
                            }
                        }
                        self.parse_element(Tag::Static(tag), cursor)
                    },
                    Err(e) => Err(e),
                }
            },
            Some(token) => Err(unexpected_token(token, at)),
            None => Err(ParseError { message: String::from_str("unexpected end of input"), at: None }),
        }
    }


    /// Reads `@` and what follows it.
    fn parse_at(&self, cursor: &mut Cursor) -> (r: Result<Node, ParseError>)
        requires
            old(cursor).at(0) == Some(TokenModel::Punct('@')),
        ensures
            final(cursor).tokens() == old(cursor).tokens(),
            node_result(r, at_node(old(cursor).tokens(), old(cursor).pos() + 1, self.children), final(cursor).pos()),
            r is Ok ==> old(cursor).pos() < final(cursor).pos() <= old(cursor).tokens().len(),
        decreases weight_from(old(cursor).tokens(), old(cursor).pos()), 2nat,
    {
        let ghost ts = cursor.tokens();
        let ghost i = cursor.pos();
        proof {
            cursor.lemma_bounds();
            lemma_weight_less(ts, i, i + 1);
        }
        cursor.consume_punct('@');
        let ghost j = cursor.pos();
        proof {
            reveal_strlit("let");
            reveal_strlit("const");
            reveal_strlit("break");
            reveal_strlit("continue");
            reveal_strlit("fn");
            reveal_strlit("if");
            reveal_strlit("for");
            reveal_strlit("while");
            reveal_strlit("match");
            reveal_strlit("children");
        }
        let is_let = cursor.peek_ident("let");
        let is_const = cursor.peek_ident("const");
        let is_break = cursor.peek_ident("break");
        let is_continue = cursor.peek_ident("continue");
        if is_let || is_const || is_break || is_continue {
            cursor.next();
            let tokens = match cursor.collect_until_semicolon() {
                Ok(tokens) => {
                    proof {
                        lemma_first_punct(ts, j + 1, cursor.pos() - 1, ';');
                    }
                    tokens
                },
                Err(e) => {
                    proof {
                        lemma_no_first_punct(ts, j + 1, ';');
                    }
                    return Err(e);
                },
            };
            return Ok(
                if is_let {
                    Node::Let(tokens)
                } else if is_const {
                    Node::Const(tokens)
                } else if is_break {
                    Node::Break(tokens)
                } else {
                    Node::Continue(tokens)
                },
            );
        }
        if cursor.consume_ident("fn").is_some() {
            return match cursor.collect_until_brace_group() {
                Ok((head, body)) => {
                    proof {
                        lemma_first_brace(ts, j + 1, cursor.pos() - 1);
                    }
                    Ok(Node::Fn(head, token_stream_from_group(&body)))
                },
                Err(e) => {
                    proof {
                        lemma_no_first_brace(ts, j + 1);
                    }
                    Err(e)
                },
            };
        }
        if cursor.consume_ident("if").is_some() {
            proof {
                lemma_weight_less(ts, i, j + 1);
            }
            return match self.parse_if(cursor) {
                Ok(node) => Ok(Node::If(node)),
                Err(e) => Err(e),
            };
        }
        let is_for = cursor.peek_ident("for");
        if is_for || cursor.peek_ident("while") {
            cursor.next();
            let (head, body) = match cursor.collect_until_brace_group() {
                Ok((head, body)) => {
                    proof {
                        lemma_first_brace(ts, j + 1, cursor.pos() - 1);
                    }
                    (head, body)
                },
                Err(e) => {
                    proof {
                        lemma_no_first_brace(ts, j + 1);
                    }
                    return Err(e);
                },
            };
            proof {
                lemma_weight_group(ts, i, cursor.pos() - 1, stream_model(body.stream@));
                lemma_weight_start(stream_model(body.stream@));
            }
            let body = match self.parse_group_body(body) {
                Ok(body) => body,
                Err(e) => return Err(e),
            };
            return Ok(if is_for { Node::For(head, body) } else { Node::While(head, body) });
        }
        if cursor.consume_ident("match").is_some() {
            proof {
                lemma_weight_less(ts, i, j + 1);
            }
            return self.parse_match(cursor);
        }
        if self.children && cursor.peek_ident("children") {
            let mut lookahead = cursor.clone();
            let _ = lookahead.next();
            let follows_path = match lookahead.peek() {
                Some(Token::Punct(p)) => *p == '.' || *p == ':' || *p == '!' || *p == '<',
                _ => false,
            };
            if !follows_path && !lookahead.peek_group(Delimiter::Parenthesis) && !lookahead.peek_group(
                Delimiter::Bracket,
            ) {
                let _ = cursor.next();
                return Ok(Node::ChildrenSlot);
            }
        }
        if self.children && consume_markup_slot_call(cursor) {
            return Ok(Node::ChildrenSlot);
        }
        proof {
            lemma_weight_less(ts, i, j);
        }
        self.parse_rendered_value(cursor)
    }

    /// Reads `@if` after `if`: a condition, a body and what follows.
    fn parse_if(&self, cursor: &mut Cursor) -> (r: Result<IfNode, ParseError>)
        ensures
            final(cursor).tokens() == old(cursor).tokens(),
            if_result(r, if_node(old(cursor).tokens(), old(cursor).pos(), self.children), final(cursor).pos()),
            r is Ok ==> old(cursor).pos() < final(cursor).pos() <= old(cursor).tokens().len(),
        decreases weight_from(old(cursor).tokens(), old(cursor).pos()), 2nat,
    {
        let ghost ts = cursor.tokens();
        let ghost j = cursor.pos();
        proof {
            cursor.lemma_bounds();
        }
        let (condition, then_group) = match cursor.collect_until_brace_group() {
            Ok((condition, group)) => {
                proof {
                    lemma_first_brace(ts, j, cursor.pos() - 1);
                }
                (condition, group)
            },
            Err(e) => {
                proof {
                    lemma_no_first_brace(ts, j);
                }
                return Err(e);
            },
        };
        let ghost e = cursor.pos();
        proof {
            lemma_weight_group(ts, j, e - 1, stream_model(then_group.stream@));
            lemma_weight_start(stream_model(then_group.stream@));
            lemma_weight_less(ts, j, e);
        }
        let then_body = match self.parse_group_body(then_group) {
            Ok(body) => body,
            Err(err) => return Err(err),
        };
        let else_branch = match self.parse_else(cursor) {
            Ok(b) => b,
            Err(err) => return Err(err),
        };
        Ok(IfNode { condition, then_body, else_branch })
    }

    /// Reads what follows an `@if` body.
    fn parse_else(&self, cursor: &mut Cursor) -> (r: Result<ElseBranch, ParseError>)
        ensures
            final(cursor).tokens() == old(cursor).tokens(),
            else_result(r, else_node(old(cursor).tokens(), old(cursor).pos(), self.children), final(cursor).pos()),
            r is Ok ==> old(cursor).pos() <= final(cursor).pos() <= old(cursor).tokens().len(),
        decreases weight_from(old(cursor).tokens(), old(cursor).pos()), 2nat,
    {
        let ghost ts = cursor.tokens();
        let ghost e = cursor.pos();
        proof {
            cursor.lemma_bounds();
            reveal_strlit("else");
            reveal_strlit("if");
        }
        let mut lookahead = cursor.clone();
        if lookahead.consume_punct('@').is_none() || !lookahead.peek_ident("else") {
            return Ok(ElseBranch::Nothing);
        }
        cursor.consume_punct('@');
        cursor.consume_ident("else");
        if cursor.consume_ident("if").is_some() {
            proof {
                lemma_weight_less(ts, e, e + 3);
            }
            return match self.parse_if(cursor) {
                Ok(nested) => Ok(ElseBranch::If(Box::new(nested))),
                Err(err) => Err(err),
            };
        }
        let group = match cursor.consume_group(Delimiter::Brace) {
            Some(group) => group,
            None => {
                proof {
                    cursor.lemma_bounds();
                }
                return Err(cursor.unexpected("expected `{ ... }` after `@else`"));
            },
        };
        proof {
            lemma_weight_group(ts, e, e + 2, stream_model(group.stream@));
            lemma_weight_start(stream_model(group.stream@));
        }
        match self.parse_group_body(group) {
            Ok(body) => Ok(ElseBranch::Block(body)),
            Err(err) => Err(err),
        }
    }

    /// Reads `@match` after `match`: a scrutinee and a `{ ... }` group of
    /// arms.
    fn parse_match(&self, cursor: &mut Cursor) -> (r: Result<Node, ParseError>)
        ensures
            final(cursor).tokens() == old(cursor).tokens(),
            node_result(
                r,
                match until_brace(old(cursor).tokens(), old(cursor).pos()) {
                    BraceScan::Done(scrutinee, s, e) => match match_arms(s, 0, Seq::empty(), self.children) {
                        MatchArmsScan::Done(arms) => NodeScan::Done(NodeModel::Match(scrutinee, arms), e),
                        MatchArmsScan::Fail(m, at) => NodeScan::Fail(m, at, e),
                    },
                    BraceScan::Fail(m, at, e) => NodeScan::Fail(m, at, e),
                },
                final(cursor).pos(),
            ),
            r is Ok ==> old(cursor).pos() < final(cursor).pos() <= old(cursor).tokens().len(),
        decreases weight_from(old(cursor).tokens(), old(cursor).pos()), 2nat,
    {
        let ghost ts = cursor.tokens();
        let ghost j = cursor.pos();
        proof {
            cursor.lemma_bounds();
        }
        let (scrutinee, arms_group) = match cursor.collect_until_brace_group() {
            Ok((scrutinee, group)) => {
                proof {
                    lemma_first_brace(ts, j, cursor.pos() - 1);
                }
                (scrutinee, group)
            },
            Err(e) => {
                proof {
                    lemma_no_first_brace(ts, j);
                }
                return Err(e);
            },
        };
        let ghost s = stream_model(arms_group.stream@);
        proof {
            lemma_weight_group(ts, j, cursor.pos() - 1, s);
        }
        let ghost e = cursor.pos();
        let ghost sc = stream_model(scrutinee@);
        assert(until_brace(ts, j) == BraceScan::Done(sc, s, e));
        let mut arms = Cursor::new(arms_group.stream);
        let mut rendered_arms: Vec<MatchArm> = Vec::new();
        assert(arms_nodes_model(rendered_arms@) =~= Seq::<(Seq<TokenModel>, Seq<NodeModel>)>::empty());
        while !arms.is_empty()
            invariant
                ts == old(cursor).tokens(),
                j == old(cursor).pos(),
                cursor.tokens() == ts,
                cursor.pos() == e,
                j < e <= ts.len(),
                until_brace(ts, j) == BraceScan::Done(sc, s, e),
                sc == stream_model(scrutinee@),
                arms.tokens() == s,
                0 <= arms.pos() <= s.len(),
                weight_from(s, 0) < weight_from(ts, j),
                match_arms(s, 0, Seq::empty(), self.children) == match_arms(
                    s,
                    arms.pos(),
                    arms_nodes_model(rendered_arms@),
                    self.children,
                ),
            decreases s.len() - arms.pos(),
        {
            let ghost m = arms.pos();
            let pattern = match arms.collect_until_arrow() {
                Ok(pattern) => {
                    proof {
                        lemma_first_arrow(s, m, arms.pos() - 2);
                    }
                    pattern
                },
                Err(e) => {
                    proof {
                        lemma_no_first_arrow(s, m);
                    }
                    return Err(e);
                },
            };
            let ghost k = arms.pos() - 2;
            let body_group = match arms.consume_group(Delimiter::Brace) {
                Some(group) => group,
                None => {
                    proof {
                        arms.lemma_bounds();
                    }
                    return Err(arms.unexpected("expected `{ ... }` in match arm"));
                },
            };
            proof {
                lemma_weight_group(s, m, k + 2, stream_model(body_group.stream@));
                lemma_weight_less(s, 0, m);
                lemma_weight_start(stream_model(body_group.stream@));
            }
            let body = match self.parse_group_body(body_group) {
                Ok(body) => body,
                Err(e) => return Err(e),
            };
            arms.skip_optional_comma();
            let arm = MatchArm { pattern, body };
            proof {
                lemma_arms_model_push(rendered_arms@, arm);
            }
            rendered_arms.push(arm);
        }
        Ok(Node::Match(scrutinee, rendered_arms))
    }

    /// Reads a value to render, with a struct literal's fields and children
    /// where they follow.
    fn parse_rendered_value(&self, cursor: &mut Cursor) -> (r: Result<Node, ParseError>)
        ensures
            final(cursor).tokens() == old(cursor).tokens(),
            node_result(r, rendered_value(old(cursor).tokens(), old(cursor).pos(), self.children), final(cursor).pos()),
            r is Ok ==> old(cursor).pos() < final(cursor).pos() <= old(cursor).tokens().len(),
        decreases weight_from(old(cursor).tokens(), old(cursor).pos()), 1nat,
    {
        let ghost ts = cursor.tokens();
        let ghost j = cursor.pos();
        proof {
            cursor.lemma_bounds();
            lemma_expr_like_end(ts, j);
        }
        let expr = match parse_expr_like(cursor) {
            Ok(expr) => expr,
            Err(e) => return Err(e),
        };
        let ghost e = cursor.pos();
        if expr.simple_path && cursor.peek_group(Delimiter::Brace) {
            let props = match cursor.consume_group(Delimiter::Brace) {
                Some(props) => props,
                None => {
                    proof {
                        assert(false);
                    }
                    return Err(cursor.unexpected("expected Rust expression in markup"));
                },
            };
            if group_looks_struct_literal(&props) {
                let mut value = expr.tokens;
                let ghost v0 = stream_model(value@);
                let props_tokens = token_stream_from_group(&props);
                let mut more = props_tokens;
                proof {
                    lemma_stream_model_concat(value@, more@);
                }
                value.append(&mut more);
                assert(stream_model(value@) =~= v0.push(ts[e]));
                return match cursor.consume_group(Delimiter::Brace) {
                    Some(children) => {
                        proof {
                            lemma_weight_group(ts, j, e + 1, stream_model(children.stream@));
                            lemma_weight_start(stream_model(children.stream@));
                        }
                        Ok(Node::RenderWithChildren(value, self.parse_group_body(children)))
                    },
                    None => Ok(Node::Render(value)),
                };
            }
            proof {
                lemma_weight_group(ts, j, e, stream_model(props.stream@));
                lemma_weight_start(stream_model(props.stream@));
            }
            return Ok(Node::RenderWithChildren(expr.tokens, self.parse_group_body(props)));
        }
        match cursor.consume_group(Delimiter::Brace) {
            Some(children) => {
                proof {
                    lemma_weight_group(ts, j, e, stream_model(children.stream@));
                    lemma_weight_start(stream_model(children.stream@));
                }
                Ok(Node::RenderWithChildren(expr.tokens, self.parse_group_body(children)))
            },
            None => Ok(Node::Render(expr.tokens)),
        }
    }

    /// Reads a `div` that starts with a class or an id.
    fn parse_element_after_selector(&self, tag: Tag, selector: SelectorStart, cursor: &mut Cursor) -> (r: Result<
        Node,
        ParseError,
    >)
        requires
            tag_model(tag) == TagModel::Static("div"@),
        ensures
            final(cursor).tokens() == old(cursor).tokens(),
            node_result(
                r,
                element_after_selector(old(cursor).tokens(), old(cursor).pos(), selector is Class, self.children),
                final(cursor).pos(),
            ),
            r is Ok ==> old(cursor).pos() < final(cursor).pos() <= old(cursor).tokens().len(),
        decreases weight_from(old(cursor).tokens(), old(cursor).pos()), 1nat,
    {
        let ghost ts = cursor.tokens();
        let ghost j = cursor.pos();
        proof {
            cursor.lemma_bounds();
            lemma_selector_value_end(ts, j);
        }
        let value = match parse_selector_value(cursor) {
            Ok(value) => value,
            Err(e) => return Err(e),
        };
        proof {
            lemma_weight_less(ts, j, cursor.pos());
        }
        let mut classes: Vec<Selector> = Vec::new();
        let mut id: Option<Selector> = None;
        match selector {
            SelectorStart::Class => {
                classes.push(value);
                assert(selectors_model(classes@) =~= seq![selector_model(classes@[0])]);
            },
            SelectorStart::Id => {
                id = Some(value);
            },
        }
        assert(selectors_model(classes@) =~= (if selector is Class { seq![selector_model(value)] } else { Seq::empty() }));
        assert(opt_selector_model(id) == (if selector is Class { None } else { Some(selector_model(value)) }));
        assert(selector_value(ts, j) == SelectorScan::Done(selector_model(value), cursor.pos()));
        assert(element_after_selector(ts, j, selector is Class, self.children) == element_rest(
            ts,
            cursor.pos(),
            TagModel::Static("div"@),
            selectors_model(classes@),
            opt_selector_model(id),
            Seq::empty(),
            self.children,
        )) by {
            reveal(element_rest);
        }
        self.parse_element_rest(tag, classes, id, cursor)
    }

    /// Reads an element after its tag.
    fn parse_element(&self, tag: Tag, cursor: &mut Cursor) -> (r: Result<Node, ParseError>)
        ensures
            final(cursor).tokens() == old(cursor).tokens(),
            node_result(
                r,
                element_rest(old(cursor).tokens(), old(cursor).pos(), tag_model(tag), Seq::empty(), None, Seq::empty(), self.children),
                final(cursor).pos(),
            ),
            r is Ok ==> old(cursor).pos() < final(cursor).pos() <= old(cursor).tokens().len(),
        decreases weight_from(old(cursor).tokens(), old(cursor).pos()), 1nat,
    {
        let classes: Vec<Selector> = Vec::new();
        assert(selectors_model(classes@) =~= Seq::<SelectorModel>::empty());
        self.parse_element_rest(tag, classes, None, cursor)
    }

    /// Reads the rest of an element: attributes, classes and ids, then `;`
    /// or a body.
    #[verifier::loop_isolation(false)]
    fn parse_element_rest(&self, tag: Tag, classes: Vec<Selector>, id: Option<Selector>, cursor: &mut Cursor) -> (r: Result<
        Node,
        ParseError,
    >)
        ensures
            final(cursor).tokens() == old(cursor).tokens(),
            node_result(
                r,
                element_rest(
                    old(cursor).tokens(),
                    old(cursor).pos(),
                    tag_model(tag),
                    selectors_model(classes@),
                    opt_selector_model(id),
                    Seq::empty(),
                    self.children,
                ),
                final(cursor).pos(),
            ),
            r is Ok ==> old(cursor).pos() < final(cursor).pos() <= old(cursor).tokens().len(),
        decreases weight_from(old(cursor).tokens(), old(cursor).pos()), 0nat,
    {
        let ghost ts = cursor.tokens();
        let ghost start = cursor.pos();
        let ghost t = tag_model(tag);
        proof {
            cursor.lemma_bounds();
        }
        let mut classes = classes;
        let mut id = id;
        let mut attrs: Vec<Attr> = Vec::new();
        assert(attrs_model(attrs@) =~= Seq::<AttrModel>::empty());
        let ghost c0 = selectors_model(classes@);
        let ghost i0 = opt_selector_model(id);
        loop
            invariant
                ts == old(cursor).tokens(),
                start == old(cursor).pos(),
                cursor.tokens() == ts,
                0 <= start <= cursor.pos() <= ts.len(),
                t == tag_model(tag),
                element_rest(ts, start, t, c0, i0, Seq::empty(), self.children) == element_rest(
                    ts,
                    cursor.pos(),
                    t,
                    selectors_model(classes@),
                    opt_selector_model(id),
                    attrs_model(attrs@),
                    self.children,
                ),
            decreases ts.len() - cursor.pos(),
        {
            let ghost j = cursor.pos();
            let ghost cm = selectors_model(classes@);
            let ghost im = opt_selector_model(id);
            let ghost am = attrs_model(attrs@);
            proof {
                lemma_weight_less(ts, start, j);
            }
            if cursor.peek_punct('.') && cursor.peek_punct_n(1, '.') {
                proof {
                    lemma_attr_end(ts, j);
                }
                match parse_attr(cursor) {
                    Ok(a) => {
                        proof {
                            assert(element_rest(ts, j, t, cm, im, am, self.children) == element_rest(
                                ts,
                                cursor.pos(),
                                t,
                                cm,
                                im,
                                am.push(attr_model(a)),
                                self.children,
                            )) by {
                                reveal(element_rest);
                            }
                            assert(attrs_model(attrs@.push(a)) =~= am.push(attr_model(a)));
                        }
                        attrs.push(a);
                    },
                    Err(e) => {
                        proof {
                            assert(element_rest(ts, j, t, cm, im, am, self.children) == match attr(ts, j) {
                                AttrScan::Done(_, _) => NodeScan::Fail(Seq::empty(), None, 0),
                                AttrScan::Fail(m, at, e) => NodeScan::Fail(m, at, e),
                            }) by {
                                reveal(element_rest);
                            }
                        }
                        return Err(e);
                    },
                }
                continue;
            }
            if cursor.peek_punct('.') || cursor.peek_punct('#') {
                let is_class = cursor.peek_punct('.');
                cursor.next();
                proof {
                    lemma_selector_value_end(ts, j + 1);
                }
                match parse_selector_value(cursor) {
                    Ok(value) => {
                        proof {
                            let sel = selector_model(value);
                            assert(element_rest(ts, j, t, cm, im, am, self.children) == (if is_class {
                                element_rest(ts, cursor.pos(), t, cm.push(sel), im, am, self.children)
                            } else {
                                element_rest(ts, cursor.pos(), t, cm, Some(sel), am, self.children)
                            })) by {
                                reveal(element_rest);
                            }
                        }
                        if is_class {
                            proof {
                                assert(selectors_model(classes@.push(value)) =~= cm.push(selector_model(value)));
                            }
                            classes.push(value);
                        } else {
                            id = Some(value);
                        }
                    },
                    Err(e) => {
                        proof {
                            assert(element_rest(ts, j, t, cm, im, am, self.children) == match selector_value(ts, j + 1) {
                                SelectorScan::Done(_, _) => NodeScan::Fail(Seq::empty(), None, 0),
                                SelectorScan::Fail(m, at, e) => NodeScan::Fail(m, at, e),
                            }) by {
                                reveal(element_rest);
                            }
                        }
                        return Err(e);
                    },
                }
                continue;
            }
            if cursor.consume_punct(';').is_some() {
                proof {
                    assert(element_rest(ts, j, t, cm, im, am, self.children) == NodeScan::Done(
                        NodeModel::Element(t, cm, im, am, None),
                        j + 1,
                    )) by {
                        reveal(element_rest);
                    }
                }
                return Ok(Node::Element(Element { tag, classes, id, attrs, body: None }));
            }
            if let Some(body) = cursor.consume_group(Delimiter::Brace) {
                let ghost b = stream_model(body.stream@);
                proof {
                    lemma_weight_group(ts, start, j, b);
                    lemma_weight_start(b);
                    assert(element_rest(ts, j, t, cm, im, am, self.children) == match nodes_from(
                        b,
                        0,
                        Seq::empty(),
                        self.children,
                    ) {
                        NodesScan::Done(body) => NodeScan::Done(NodeModel::Element(t, cm, im, am, Some(body)), j + 1),
                        NodesScan::Fail(m, at) => NodeScan::Fail(m, at, j + 1),
                    }) by {
                        reveal(element_rest);
                    }
                }
                return match self.parse_group_body(body) {
                    Ok(body) => Ok(Node::Element(Element { tag, classes, id, attrs, body: Some(body) })),
                    Err(e) => Err(e),
                };
            }
            if cursor.is_empty() {
                proof {
                    assert(element_rest(ts, j, t, cm, im, am, self.children) == NodeScan::Fail(
                        "expected element body `{ ... }` or `;`"@,
                        None,
                        j,
                    )) by {
                        reveal(element_rest);
                    }
                }
                return Err(cursor.unexpected("expected element body `{ ... }` or `;`"));
            }
            proof {
                lemma_attr_end(ts, j);
            }
            match parse_attr(cursor) {
                Ok(a) => {
                    proof {
                        assert(element_rest(ts, j, t, cm, im, am, self.children) == element_rest(
                            ts,
                            cursor.pos(),
                            t,
                            cm,
                            im,
                            am.push(attr_model(a)),
                            self.children,
                        )) by {
                            reveal(element_rest);
                        }
                        assert(attrs_model(attrs@.push(a)) =~= am.push(attr_model(a)));
                    }
                    attrs.push(a);
                },
                Err(e) => {
                    proof {
                        assert(element_rest(ts, j, t, cm, im, am, self.children) == match attr(ts, j) {
                            AttrScan::Done(_, _) => NodeScan::Fail(Seq::empty(), None, 0),
                            AttrScan::Fail(m, at, e) => NodeScan::Fail(m, at, e),
                        }) by {
                            reveal(element_rest);
                        }
                    }
                    return Err(e);
                },
            }
        }
    }
}

/// Reads a class or id: a parenthesized expression, or a dashed name.
pub fn parse_selector_value(cursor: &mut Cursor) -> (r: Result<Selector, ParseError>)
    ensures
        final(cursor).tokens() == old(cursor).tokens(),
        match selector_value(old(cursor).tokens(), old(cursor).pos()) {
            SelectorScan::Done(sel, e) => r matches Ok(x) && selector_model(x) == sel && final(cursor).pos() == e,
            SelectorScan::Fail(m, at, e) => r matches Err(x) && x.message@ == m && x.at == error_at(at)
                && final(cursor).pos() == e,
        },
{
    if let Some(group) = cursor.consume_group(Delimiter::Parenthesis) {
        return Ok(Selector::Expr(token_stream_from_group(&group)));
    }
    match parse_name_segments(cursor) {
        Ok(segments) => Ok(Selector::Name(join_with_dash(&segments))),
        Err(e) => Err(e),
    }
}

/// The tokens of `@keyword head { body }`.
pub open spec fn loop_tokens(keyword: Seq<char>, head: Seq<TokenModel>, body: Seq<TokenModel>) -> Seq<TokenModel> {
    seq![TokenModel::Punct('@'), TokenModel::Ident(keyword)] + head + seq![TokenModel::Group(Delimiter::Brace, body)]
}

/// What reading `@for head { body }` (`is_for`) or `@while head { body }`
/// gives, for a body that reads as `inner`: one loop node of that kind with
/// the head and the body's nodes, or the body's error.
pub open spec fn loop_scan(inner: NodesScan, head: Seq<TokenModel>, is_for: bool) -> NodesScan {
    match inner {
        NodesScan::Done(ns) => NodesScan::Done(
            seq![
                if is_for {
                    NodeModel::For(head, ns)
                } else {
                    NodeModel::While(head, ns)
                },
            ],
        ),
        NodesScan::Fail(m, at) => NodesScan::Fail(m, at),
    }
}

proof fn lemma_loop_keywords()
    ensures
        "for"@ != "let"@ && "for"@ != "const"@ && "for"@ != "break"@ && "for"@ != "continue"@,
        "for"@ != "fn"@ && "for"@ != "if"@ && "for"@ != "while"@,
        "while"@ != "let"@ && "while"@ != "const"@ && "while"@ != "break"@ && "while"@ != "continue"@,
        "while"@ != "fn"@ && "while"@ != "if"@,
{
    reveal_strlit("for");
    reveal_strlit("while");
    reveal_strlit("let");
    reveal_strlit("const");
    reveal_strlit("break");
    reveal_strlit("continue");
    reveal_strlit("fn");
    reveal_strlit("if");
    assert("for"@[0] != "let"@[0] && "for"@[0] != "const"@[0] && "for"@[0] != "break"@[0]);
    assert("for"@[0] != "continue"@[0] && "for"@.len() != "fn"@.len() && "for"@.len() != "if"@.len());
    assert("for"@.len() != "while"@.len());
    assert("while"@[0] != "let"@[0] && "while"@[0] != "const"@[0] && "while"@[0] != "break"@[0]);
    assert("while"@[0] != "continue"@[0] && "while"@.len() != "fn"@.len() && "while"@.len() != "if"@.len());
}

#[verifier::rlimit(40)]
proof fn lemma_at_loop(ts: Seq<TokenModel>, keyword: Seq<char>, head: Seq<TokenModel>, body: Seq<TokenModel>, children: bool)
    requires
        keyword == "for"@ || keyword == "while"@,
        2 <= ts.len(),
        tok(ts, 1) == Some(TokenModel::Ident(keyword)),
        until_brace(ts, 2) == BraceScan::Done(head, body, ts.len() as int),
        ts[ts.len() - 1] == TokenModel::Group(Delimiter::Brace, body),
    ensures
        at_node(ts, 1, children) == (match nodes_from(body, 0, Seq::empty(), children) {
            NodesScan::Done(ns) => NodeScan::Done(
                if keyword == "for"@ {
                    NodeModel::For(head, ns)
                } else {
                    NodeModel::While(head, ns)
                },
                ts.len() as int,
            ),
            NodesScan::Fail(m, at) => NodeScan::Fail(m, at, ts.len() as int),
        }),
{
    lemma_loop_keywords();
}

proof fn lemma_loop_nodes(keyword: Seq<char>, head: Seq<TokenModel>, body: Seq<TokenModel>, children: bool)
    requires
        keyword == "for"@ || keyword == "while"@,
        no_group(head, 0, head.len() as int, Delimiter::Brace),
    ensures
        markup_nodes(loop_tokens(keyword, head, body), children) == loop_scan(
            markup_nodes(body, children),
            head,
            keyword == "for"@,
        ),
{
    let ts = loop_tokens(keyword, head, body);
    let k: int = head.len() + 2int;
    assert(ts.len() == k + 1);
    assert(ts[0] == TokenModel::Punct('@'));
    assert(ts[1] == TokenModel::Ident(keyword));
    assert(ts[k] == TokenModel::Group(Delimiter::Brace, body));
    assert forall|i: int| 2 <= i < k implies !is_group(#[trigger] ts[i], Delimiter::Brace) by {
        assert(ts[i] == head[i - 2]);
    }
    lemma_first_brace(ts, 2, k);
    assert(ts.subrange(2, k) == head);
    assert(until_brace(ts, 2) == BraceScan::Done(head, body, k + 1));
    lemma_at_loop(ts, keyword, head, body, children);
    let inner = nodes_from(body, 0, Seq::empty(), children);
    let expected = at_node(ts, 1, children);
    assert(node(ts, 0, children) == expected);
    match inner {
        NodesScan::Done(ns) => {
            assert(nodes_from(ts, 0, Seq::empty(), children) == nodes_from(
                ts,
                k + 1,
                Seq::<NodeModel>::empty().push(expected->Done_0),
                children,
            ));
        },
        NodesScan::Fail(m, at) => {},
    }
}

/// Reading `@for head { body }` gives one `for` node, and reading
/// `@while head { body }` one `while` node, with that head and the nodes
/// of that body (or the body's error), for every head that holds no
/// `{ ... }` group: the keyword decides the kind of loop.
pub proof fn law_loop_nodes(head: Seq<TokenModel>, body: Seq<TokenModel>, children: bool)
    requires
        no_group(head, 0, head.len() as int, Delimiter::Brace),
    ensures
        markup_nodes(loop_tokens("for"@, head, body), children) == loop_scan(markup_nodes(body, children), head, true),
        markup_nodes(loop_tokens("while"@, head, body), children) == loop_scan(
            markup_nodes(body, children),
            head,
            false,
        ),
{
    lemma_loop_keywords();
    lemma_loop_nodes("for"@, head, body, children);
    lemma_loop_nodes("while"@, head, body, children);
}

/// The tokens of an `if` chain after its first `@`: `if condition { body }`
/// for each link, joined by `@else`, then `@else { last }` when there is a
/// final block.
pub open spec fn chain_tokens(links: Seq<(Seq<TokenModel>, Seq<TokenModel>)>, last: Option<Seq<TokenModel>>) -> Seq<TokenModel>
    decreases links.len(),
{
    if links.len() == 0 {
        Seq::empty()
    } else {
        seq![TokenModel::Ident("if"@)] + links[0].0 + seq![TokenModel::Group(Delimiter::Brace, links[0].1)] + if links.len()
            == 1 {
            match last {
                None => Seq::empty(),
                Some(b) => seq![
                    TokenModel::Punct('@'),
                    TokenModel::Ident("else"@),
                    TokenModel::Group(Delimiter::Brace, b),
                ],
            }
        } else {
            seq![TokenModel::Punct('@'), TokenModel::Ident("else"@)] + chain_tokens(links.drop_first(), last)
        }
    }
}

/// The `if` node such a chain stands for: each link's condition with the
/// nodes of its body, each later link as the `else` of the one before, and
/// the final block as the last `else`.
pub open spec fn chain_model(
    links: Seq<(Seq<TokenModel>, Seq<TokenModel>)>,
    last: Option<Seq<TokenModel>>,
    children: bool,
) -> IfModel
    decreases links.len(),
{
    IfModel {
        condition: links[0].0,
        then_body: markup_nodes(links[0].1, children)->Done_0,
        else_branch: if links.len() <= 1 {
            match last {
                None => ElseModel::Nothing,
                Some(b) => ElseModel::Block(markup_nodes(b, children)->Done_0),
            }
        } else {
            ElseModel::If(Box::new(chain_model(links.drop_first(), last, children)))
        },
    }
}

/// An `if` chain that reads well: at least one link, conditions with no
/// `{ .. }` group, and bodies that read as markup.
pub open spec fn chain_ok(links: Seq<(Seq<TokenModel>, Seq<TokenModel>)>, last: Option<Seq<TokenModel>>, children: bool) -> bool {
    &&& links.len() > 0
    &&& forall|l: int| 0 <= l < links.len() ==> no_group(#[trigger] links[l].0, 0, links[l].0.len() as int, Delimiter::Brace)
    &&& forall|l: int| 0 <= l < links.len() ==> #[trigger] markup_nodes(links[l].1, children) is Done
    &&& last matches Some(b) ==> markup_nodes(b, children) is Done
}

#[verifier::rlimit(40)]
proof fn lemma_else_node_at(ts: Seq<TokenModel>, e: int, children: bool)
    requires
        0 <= e <= ts.len(),
    ensures
        e == ts.len() ==> else_node(ts, e, children) == ElseScan::Done(ElseModel::Nothing, e),
        e + 3 == ts.len() && ts[e] == TokenModel::Punct('@') && ts[e + 1] == TokenModel::Ident("else"@)
            && ts[e + 2] is Group && ts[e + 2]->Group_0 == Delimiter::Brace && markup_nodes(ts[e + 2]->Group_1, children) is Done
            ==> else_node(ts, e, children) == ElseScan::Done(
            ElseModel::Block(markup_nodes(ts[e + 2]->Group_1, children)->Done_0),
            e + 3,
        ),
        e + 3 <= ts.len() && ts[e] == TokenModel::Punct('@') && ts[e + 1] == TokenModel::Ident("else"@) && ts[e + 2]
            == TokenModel::Ident("if"@) ==> else_node(ts, e, children) == match if_node(ts, e + 3, children) {
            IfScan::Done(m, end) => ElseScan::Done(ElseModel::If(Box::new(m)), end),
            IfScan::Fail(m, at, end) => ElseScan::Fail(m, at, end),
        },
{
}

proof fn lemma_if_node_chain(
    ts: Seq<TokenModel>,
    j: int,
    links: Seq<(Seq<TokenModel>, Seq<TokenModel>)>,
    last: Option<Seq<TokenModel>>,
    children: bool,
)
    requires
        0 <= j <= ts.len(),
        ts.subrange(j, ts.len() as int) == chain_tokens(links, last),
        chain_ok(links, last, children),
    ensures
        j < ts.len(),
        ts[j] == TokenModel::Ident("if"@),
        if_node(ts, j + 1, children) == IfScan::Done(chain_model(links, last, children), ts.len() as int),
    decreases links.len(),
{
    let tail = chain_tokens(links, last);
    let cond = links[0].0;
    let body = links[0].1;
    let k = j + 1 + cond.len();
    let rest = if links.len() == 1 {
        match last {
            None => Seq::<TokenModel>::empty(),
            Some(b) => seq![TokenModel::Punct('@'), TokenModel::Ident("else"@), TokenModel::Group(Delimiter::Brace, b)],
        }
    } else {
        seq![TokenModel::Punct('@'), TokenModel::Ident("else"@)] + chain_tokens(links.drop_first(), last)
    };
    assert(tail == seq![TokenModel::Ident("if"@)] + cond + seq![TokenModel::Group(Delimiter::Brace, body)] + rest);
    assert(tail.len() == cond.len() + rest.len() + 2);
    assert(ts.len() == j + tail.len());
    assert(ts[j] == tail[0]);
    assert(no_group(links[0].0, 0, links[0].0.len() as int, Delimiter::Brace));
    assert forall|p: int| j + 1 <= p < k implies !is_group(#[trigger] ts[p], Delimiter::Brace) by {
        assert(ts[p] == tail[p - j]);
        assert(tail[p - j] == cond[p - j - 1]);
    }
    assert(ts[k] == tail[k - j]);
    lemma_first_brace(ts, j + 1, k);
    assert forall|q: int| 0 <= q < cond.len() implies #[trigger] ts.subrange(j + 1, k)[q] == cond[q] by {
        assert(ts[j + 1 + q] == tail[1 + q]);
    }
    assert(ts.subrange(j + 1, k) =~= cond);
    assert(until_brace(ts, j + 1) == BraceScan::Done(cond, body, k + 1));
    assert(markup_nodes(links[0].1, children) is Done);
    lemma_else_node_at(ts, k + 1, children);
    if links.len() == 1 {
        match last {
            None => {},
            Some(b) => {
                assert(ts[k + 1] == tail[k + 1 - j]);
                assert(ts[k + 2] == tail[k + 2 - j]);
                assert(ts[k + 3] == tail[k + 3 - j]);
            },
        }
    } else {
        let more = links.drop_first();
        let nested = chain_tokens(more, last);
        assert(ts[k + 1] == tail[k + 1 - j]);
        assert(ts[k + 2] == tail[k + 2 - j]);
        assert forall|q: int| 0 <= q < nested.len() implies #[trigger] ts.subrange(k + 3, ts.len() as int)[q] == nested[q] by {
            assert(ts[k + 3 + q] == tail[k + 3 - j + q]);
        }
        assert(ts.subrange(k + 3, ts.len() as int) =~= nested);
        assert forall|l: int| 0 <= l < more.len() implies no_group(#[trigger] more[l].0, 0, more[l].0.len() as int, Delimiter::Brace) by {
            assert(more[l] == links[l + 1]);
        }
        assert forall|l: int| 0 <= l < more.len() implies #[trigger] markup_nodes(more[l].1, children) is Done by {
            assert(more[l] == links[l + 1]);
        }
        lemma_if_node_chain(ts, k + 3, more, last, children);
    }
    lemma_if_node_step(ts, j + 1, cond, body, k + 1, children);
}

#[verifier::rlimit(40)]
proof fn lemma_if_node_step(ts: Seq<TokenModel>, j: int, cond: Seq<TokenModel>, body: Seq<TokenModel>, e: int, children: bool)
    requires
        0 <= j < e <= ts.len(),
        until_brace(ts, j) == BraceScan::Done(cond, body, e),
        ts[e - 1] == TokenModel::Group(Delimiter::Brace, body),
        markup_nodes(body, children) is Done,
    ensures
        if_node(ts, j, children) == match else_node(ts, e, children) {
            ElseScan::Done(else_branch, end) => IfScan::Done(
                IfModel { condition: cond, then_body: markup_nodes(body, children)->Done_0, else_branch },
                end,
            ),
            ElseScan::Fail(m, at, end) => IfScan::Fail(m, at, end),
        },
{
}

proof fn lemma_if_keyword()
    ensures
        "if"@ != "let"@ && "if"@ != "const"@ && "if"@ != "break"@ && "if"@ != "continue"@ && "if"@ != "fn"@,
{
    reveal_strlit("if");
    reveal_strlit("let");
    reveal_strlit("const");
    reveal_strlit("break");
    reveal_strlit("continue");
    reveal_strlit("fn");
    assert("if"@[0] != "let"@[0] && "if"@[0] != "const"@[0] && "if"@[0] != "break"@[0]);
    assert("if"@[0] != "continue"@[0] && "if"@[0] != "fn"@[0]);
}

#[verifier::rlimit(40)]
proof fn lemma_at_if(ts: Seq<TokenModel>, children: bool)
    requires
        2 <= ts.len(),
        tok(ts, 1) == Some(TokenModel::Ident("if"@)),
    ensures
        at_node(ts, 1, children) == match if_node(ts, 2, children) {
            IfScan::Done(m, e) => NodeScan::Done(NodeModel::If(m), e),
            IfScan::Fail(m, at, e) => NodeScan::Fail(m, at, e),
        },
{
    lemma_if_keyword();
}

/// Reading `@if c1 { b1 } @else if c2 { b2 } .. @else { last }` gives one
/// `if` node whose links are those of the chain, in order, each later one
/// as the `else` of the one before and the final block as the last `else`:
/// `@else if` is read as a nested `if`, not as a block or a new node.
pub proof fn law_if_chain_nodes(
    links: Seq<(Seq<TokenModel>, Seq<TokenModel>)>,
    last: Option<Seq<TokenModel>>,
    children: bool,
)
    requires
        chain_ok(links, last, children),
    ensures
        markup_nodes(seq![TokenModel::Punct('@')] + chain_tokens(links, last), children) == NodesScan::Done(
            seq![NodeModel::If(chain_model(links, last, children))],
        ),
{
    let chain = chain_tokens(links, last);
    let ts = seq![TokenModel::Punct('@')] + chain;
    assert(ts.subrange(1, ts.len() as int) =~= chain);
    lemma_if_node_chain(ts, 1, links, last, children);
    lemma_at_if(ts, children);
    let n = NodeModel::If(chain_model(links, last, children));
    assert(node(ts, 0, children) == NodeScan::Done(n, ts.len() as int));
    assert(nodes_from(ts, 0, Seq::empty(), children) == nodes_from(
        ts,
        ts.len() as int,
        Seq::<NodeModel>::empty().push(n),
        children,
    ));
    assert(Seq::<NodeModel>::empty().push(n) == seq![n]);
}

/// The tokens of `@keyword rest;`.
pub open spec fn statement_tokens(keyword: Seq<char>, rest: Seq<TokenModel>) -> Seq<TokenModel> {
    seq![TokenModel::Punct('@'), TokenModel::Ident(keyword)] + rest + seq![TokenModel::Punct(';')]
}

/// The node that `@keyword rest;` stands for.
pub open spec fn statement_node(keyword: Seq<char>, rest: Seq<TokenModel>) -> NodeModel {
    if keyword == "let"@ {
        NodeModel::Let(rest)
    } else if keyword == "const"@ {
        NodeModel::Const(rest)
    } else if keyword == "break"@ {
        NodeModel::Break(rest)
    } else {
        NodeModel::Continue(rest)
    }
}

/// The keywords of statements that markup holds as they are written.
pub open spec fn statement_keyword(keyword: Seq<char>) -> bool {
    keyword == "let"@ || keyword == "const"@ || keyword == "break"@ || keyword == "continue"@
}

#[verifier::rlimit(40)]
proof fn lemma_at_statement(ts: Seq<TokenModel>, keyword: Seq<char>, rest: Seq<TokenModel>, children: bool)
    requires
        statement_keyword(keyword),
        2 <= ts.len(),
        tok(ts, 1) == Some(TokenModel::Ident(keyword)),
        until_semicolon(ts, 2) == TokensScan::Done(rest, ts.len() as int),
    ensures
        at_node(ts, 1, children) == NodeScan::Done(statement_node(keyword, rest), ts.len() as int),
{
}

/// Reading `@let rest;`, `@const rest;`, `@break rest;` or `@continue rest;`,
/// where `rest` holds no `;`, gives one node of the keyword's kind that
/// holds `rest`.
pub proof fn law_statement_nodes(keyword: Seq<char>, rest: Seq<TokenModel>, children: bool)
    requires
        statement_keyword(keyword),
        no_punct(rest, 0, rest.len() as int, ';'),
    ensures
        markup_nodes(statement_tokens(keyword, rest), children) == NodesScan::Done(seq![statement_node(keyword, rest)]),
{
    let ts = statement_tokens(keyword, rest);
    let k: int = rest.len() + 2int;
    assert(ts.len() == k + 1);
    assert(ts[0] == TokenModel::Punct('@'));
    assert(ts[1] == TokenModel::Ident(keyword));
    assert(ts[k] == TokenModel::Punct(';'));
    assert forall|i: int| 2 <= i < k implies #[trigger] ts[i] != TokenModel::Punct(';') by {
        assert(ts[i] == rest[i - 2]);
    }
    lemma_first_punct(ts, 2, k, ';');
    assert(ts.subrange(2, k) == rest);
    assert(until_semicolon(ts, 2) == TokensScan::Done(rest, k + 1));
    lemma_at_statement(ts, keyword, rest, children);
    let n = statement_node(keyword, rest);
    assert(node(ts, 0, children) == NodeScan::Done(n, k + 1));
    assert(nodes_from(ts, 0, Seq::empty(), children) == nodes_from(ts, k + 1, Seq::<NodeModel>::empty().push(n), children));
    assert(Seq::<NodeModel>::empty().push(n) == seq![n]);
}

/// The tokens of `match` arms: `pattern => { body },` for each.
pub open spec fn arm_tokens(arms: Seq<(Seq<TokenModel>, Seq<TokenModel>)>) -> Seq<TokenModel>
    decreases arms.len(),
{
    if arms.len() == 0 {
        Seq::empty()
    } else {
        arms[0].0 + seq![
            TokenModel::Punct('='),
            TokenModel::Punct('>'),
            TokenModel::Group(Delimiter::Brace, arms[0].1),
            TokenModel::Punct(','),
        ] + arm_tokens(arms.drop_first())
    }
}

/// Each arm's pattern with the nodes of its body.
pub open spec fn arms_read(arms: Seq<(Seq<TokenModel>, Seq<TokenModel>)>, children: bool) -> Seq<(Seq<TokenModel>, Seq<NodeModel>)> {
    arms.map_values(|a: (Seq<TokenModel>, Seq<TokenModel>)| (a.0, markup_nodes(a.1, children)->Done_0))
}

/// Arms that read well: patterns with no `=>`, bodies that read as markup.
pub open spec fn arms_ok(arms: Seq<(Seq<TokenModel>, Seq<TokenModel>)>, children: bool) -> bool {
    forall|i: int| 0 <= i < arms.len() ==> no_arrow(#[trigger] arms[i].0, 0, arms[i].0.len() as int) && markup_nodes(
        arms[i].1,
        children,
    ) is Done
}

proof fn lemma_match_arms_read(
    s: Seq<TokenModel>,
    m: int,
    acc: Seq<(Seq<TokenModel>, Seq<NodeModel>)>,
    arms: Seq<(Seq<TokenModel>, Seq<TokenModel>)>,
    children: bool,
)
    requires
        0 <= m <= s.len(),
        s.subrange(m, s.len() as int) == arm_tokens(arms),
        arms_ok(arms, children),
    ensures
        match_arms(s, m, acc, children) == MatchArmsScan::Done(acc + arms_read(arms, children)),
    decreases arms.len(),
{
    let tail = arm_tokens(arms);
    assert(tail.len() == s.len() - m);
    if arms.len() == 0 {
        assert(m == s.len());
        assert(acc + arms_read(arms, children) == acc);
    } else {
        let pat = arms[0].0;
        let body = arms[0].1;
        let more = arms.drop_first();
        let p = m + pat.len();
        assert(no_arrow(pat, 0, pat.len() as int) && markup_nodes(body, children) is Done);
        assert(tail == pat + seq![
            TokenModel::Punct('='),
            TokenModel::Punct('>'),
            TokenModel::Group(Delimiter::Brace, body),
            TokenModel::Punct(','),
        ] + arm_tokens(more));
        assert(s[p] == tail[p - m]);
        assert(s[p + 1] == tail[p + 1 - m]);
        assert(s[p + 2] == tail[p + 2 - m]);
        assert(s[p + 3] == tail[p + 3 - m]);
        assert forall|i: int| m <= i < p implies !#[trigger] arrow_at(s, i) by {
            assert(s[i] == tail[i - m]);
            assert(tail[i - m] == pat[i - m]);
            if i + 1 < p {
                assert(s[i + 1] == tail[i + 1 - m]);
                assert(tail[i + 1 - m] == pat[i + 1 - m]);
                assert(!arrow_at(pat, i - m));
            }
        }
        lemma_first_arrow(s, m, p);
        lemma_first_arrow_after(s, m);
        assert forall|q: int| 0 <= q < pat.len() implies #[trigger] s.subrange(m, p)[q] == pat[q] by {
            assert(s[m + q] == tail[q]);
        }
        assert(s.subrange(m, p) =~= pat);
        let nested = arm_tokens(more);
        assert forall|q: int| 0 <= q < nested.len() implies #[trigger] s.subrange(p + 4, s.len() as int)[q] == nested[q] by {
            assert(s[p + 4 + q] == tail[p + 4 - m + q]);
        }
        assert(s.subrange(p + 4, s.len() as int) =~= nested);
        assert forall|i: int| 0 <= i < more.len() implies no_arrow(#[trigger] more[i].0, 0, more[i].0.len() as int)
            && markup_nodes(more[i].1, children) is Done by {
            assert(more[i] == arms[i + 1]);
        }
        let item = (pat, markup_nodes(body, children)->Done_0);
        lemma_match_arms_step(s, m, p, acc, body, children);
        lemma_match_arms_read(s, p + 4, acc.push(item), more, children);
        assert(arms_read(arms, children) =~= seq![item] + arms_read(more, children));
        assert(acc.push(item) + arms_read(more, children) =~= acc + arms_read(arms, children));
    }
}

#[verifier::rlimit(40)]
proof fn lemma_match_arms_step(
    s: Seq<TokenModel>,
    m: int,
    p: int,
    acc: Seq<(Seq<TokenModel>, Seq<NodeModel>)>,
    body: Seq<TokenModel>,
    children: bool,
)
    requires
        0 <= m <= p,
        p + 3 < s.len(),
        first_arrow(s, m) == Some(p),
        s[p + 2] == TokenModel::Group(Delimiter::Brace, body),
        s[p + 3] == TokenModel::Punct(','),
        markup_nodes(body, children) is Done,
    ensures
        match_arms(s, m, acc, children) == match_arms(
            s,
            p + 4,
            acc.push((s.subrange(m, p), markup_nodes(body, children)->Done_0)),
            children,
        ),
{
    lemma_first_arrow_after(s, m);
}

#[verifier::rlimit(40)]
proof fn lemma_at_match(ts: Seq<TokenModel>, scrutinee: Seq<TokenModel>, inner: Seq<TokenModel>, children: bool)
    requires
        2 <= ts.len(),
        tok(ts, 1) == Some(TokenModel::Ident("match"@)),
        until_brace(ts, 2) == BraceScan::Done(scrutinee, inner, ts.len() as int),
        ts[ts.len() - 1] == TokenModel::Group(Delimiter::Brace, inner),
    ensures
        at_node(ts, 1, children) == match match_arms(inner, 0, Seq::empty(), children) {
            MatchArmsScan::Done(arms) => NodeScan::Done(NodeModel::Match(scrutinee, arms), ts.len() as int),
            MatchArmsScan::Fail(m, at) => NodeScan::Fail(m, at, ts.len() as int),
        },
{
    lemma_match_keyword();
}

proof fn lemma_match_keyword()
    ensures
        "match"@ != "let"@ && "match"@ != "const"@ && "match"@ != "break"@ && "match"@ != "continue"@,
        "match"@ != "fn"@ && "match"@ != "if"@ && "match"@ != "for"@ && "match"@ != "while"@,
{
    reveal_strlit("match");
    reveal_strlit("let");
    reveal_strlit("const");
    reveal_strlit("break");
    reveal_strlit("continue");
    reveal_strlit("fn");
    reveal_strlit("if");
    reveal_strlit("for");
    reveal_strlit("while");
    assert("match"@[0] != "let"@[0] && "match"@[0] != "const"@[0] && "match"@[0] != "break"@[0]);
    assert("match"@[0] != "continue"@[0] && "match"@[0] != "fn"@[0] && "match"@[0] != "if"@[0]);
    assert("match"@[0] != "for"@[0] && "match"@[0] != "while"@[0]);
}

/// Reading `@match scrutinee { p1 => { b1 }, p2 => { b2 }, .. }` gives one
/// `match` node with that scrutinee and every arm, in order, each with its
/// pattern and the nodes of its body, for a scrutinee that holds no
/// `{ .. }` group and patterns that hold no `=>`.
pub proof fn law_match_nodes(scrutinee: Seq<TokenModel>, arms: Seq<(Seq<TokenModel>, Seq<TokenModel>)>, children: bool)
    requires
        no_group(scrutinee, 0, scrutinee.len() as int, Delimiter::Brace),
        arms_ok(arms, children),
    ensures
        markup_nodes(
            seq![TokenModel::Punct('@'), TokenModel::Ident("match"@)] + scrutinee + seq![
                TokenModel::Group(Delimiter::Brace, arm_tokens(arms)),
            ],
            children,
        ) == NodesScan::Done(seq![NodeModel::Match(scrutinee, arms_read(arms, children))]),
{
    let inner = arm_tokens(arms);
    let ts = seq![TokenModel::Punct('@'), TokenModel::Ident("match"@)] + scrutinee + seq![
        TokenModel::Group(Delimiter::Brace, inner),
    ];
    let k: int = scrutinee.len() + 2int;
    assert(ts.len() == k + 1);
    assert(ts[0] == TokenModel::Punct('@'));
    assert(ts[1] == TokenModel::Ident("match"@));
    assert(ts[k] == TokenModel::Group(Delimiter::Brace, inner));
    assert forall|i: int| 2 <= i < k implies !is_group(#[trigger] ts[i], Delimiter::Brace) by {
        assert(ts[i] == scrutinee[i - 2]);
    }
    lemma_first_brace(ts, 2, k);
    assert(ts.subrange(2, k) == scrutinee);
    assert(until_brace(ts, 2) == BraceScan::Done(scrutinee, inner, k + 1));
    assert(inner.subrange(0, inner.len() as int) == inner);
    lemma_match_arms_read(inner, 0, Seq::empty(), arms, children);
    assert(Seq::<(Seq<TokenModel>, Seq<NodeModel>)>::empty() + arms_read(arms, children) == arms_read(arms, children));
    lemma_at_match(ts, scrutinee, inner, children);
    let n = NodeModel::Match(scrutinee, arms_read(arms, children));
    assert(node(ts, 0, children) == NodeScan::Done(n, k + 1));
    assert(nodes_from(ts, 0, Seq::empty(), children) == nodes_from(ts, k + 1, Seq::<NodeModel>::empty().push(n), children));
    assert(Seq::<NodeModel>::empty().push(n) == seq![n]);
}

/// The tokens `.c` for each class name `c`.
pub open spec fn class_tokens(classes: Seq<Seq<char>>) -> Seq<TokenModel>
    decreases classes.len(),
{
    if classes.len() == 0 {
        Seq::empty()
    } else {
        seq![TokenModel::Punct('.'), TokenModel::Ident(classes[0])] + class_tokens(classes.drop_first())
    }
}

/// The tokens that end an element: `{ body }`, or `;` for a void element.
pub open spec fn element_end_tokens(body: Option<Seq<TokenModel>>) -> Seq<TokenModel> {
    match body {
        Some(b) => seq![TokenModel::Group(Delimiter::Brace, b)],
        None => seq![TokenModel::Punct(';')],
    }
}

/// The tokens of `name.c1.c2#id { body }`, with any number of classes, an
/// optional id, and a body or `;`.
pub open spec fn element_tokens(
    name: Seq<char>,
    classes: Seq<Seq<char>>,
    id: Option<Seq<char>>,
    body: Option<Seq<TokenModel>>,
) -> Seq<TokenModel> {
    seq![TokenModel::Ident(name)] + class_tokens(classes) + match id {
        Some(i) => seq![TokenModel::Punct('#'), TokenModel::Ident(i)],
        None => Seq::empty(),
    } + element_end_tokens(body)
}

/// Class names as selectors.
pub open spec fn class_selectors(classes: Seq<Seq<char>>) -> Seq<SelectorModel> {
    classes.map_values(|c: Seq<char>| SelectorModel::Name(c))
}

/// What reading such an element gives: one element node with that tag,
/// those classes in order, that id and no attributes, holding the nodes of
/// the body (or none for `;`); or the body's error.
pub open spec fn element_read(
    name: Seq<char>,
    classes: Seq<Seq<char>>,
    id: Option<Seq<char>>,
    body: Option<Seq<TokenModel>>,
    children: bool,
) -> NodesScan {
    let sel_id = match id {
        Some(i) => Some(SelectorModel::Name(i)),
        None => None,
    };
    match body {
        None => NodesScan::Done(
            seq![NodeModel::Element(TagModel::Static(name), class_selectors(classes), sel_id, Seq::empty(), None)],
        ),
        Some(b) => match markup_nodes(b, children) {
            NodesScan::Done(ns) => NodesScan::Done(
                seq![NodeModel::Element(TagModel::Static(name), class_selectors(classes), sel_id, Seq::empty(), Some(ns))],
            ),
            NodesScan::Fail(m, at) => NodesScan::Fail(m, at),
        },
    }
}

#[verifier::rlimit(40)]
proof fn lemma_element_selector_step(
    ts: Seq<TokenModel>,
    j: int,
    tag: TagModel,
    classes: Seq<SelectorModel>,
    id: Option<SelectorModel>,
    c: Seq<char>,
    children: bool,
)
    requires
        0 <= j,
        j + 2 < ts.len(),
        ts[j] == TokenModel::Punct('.') || ts[j] == TokenModel::Punct('#'),
        ts[j + 1] == TokenModel::Ident(c),
        ts[j + 2] != TokenModel::Punct('-'),
    ensures
        element_rest(ts, j, tag, classes, id, Seq::empty(), children) == if ts[j] == TokenModel::Punct('.') {
            element_rest(ts, j + 2, tag, classes.push(SelectorModel::Name(c)), id, Seq::empty(), children)
        } else {
            element_rest(ts, j + 2, tag, classes, Some(SelectorModel::Name(c)), Seq::empty(), children)
        },
{
    reveal(element_rest);
    assert(dashed_rest(ts, j + 2, seq![c]) == NameScan::Done(seq![c], j + 2));
    assert(join_dashed(seq![c]) == c);
    assert(selector_value(ts, j + 1) == SelectorScan::Done(SelectorModel::Name(c), j + 2));
}

#[verifier::rlimit(40)]
proof fn lemma_element_end(
    ts: Seq<TokenModel>,
    j: int,
    tag: TagModel,
    classes: Seq<SelectorModel>,
    id: Option<SelectorModel>,
    body: Option<Seq<TokenModel>>,
    children: bool,
)
    requires
        0 <= j <= ts.len(),
        ts.subrange(j, ts.len() as int) == element_end_tokens(body),
    ensures
        element_rest(ts, j, tag, classes, id, Seq::empty(), children) == match body {
            None => NodeScan::Done(NodeModel::Element(tag, classes, id, Seq::empty(), None), j + 1),
            Some(b) => match markup_nodes(b, children) {
                NodesScan::Done(ns) => NodeScan::Done(NodeModel::Element(tag, classes, id, Seq::empty(), Some(ns)), j + 1),
                NodesScan::Fail(m, at) => NodeScan::Fail(m, at, j + 1),
            },
        },
{
    reveal(element_rest);
    assert(element_end_tokens(body).len() == 1);
    assert(ts.len() == j + 1);
    assert(ts[j] == ts.subrange(j, ts.len() as int)[0]);
}

proof fn lemma_element_classes(
    ts: Seq<TokenModel>,
    j: int,
    tag: TagModel,
    acc: Seq<SelectorModel>,
    classes: Seq<Seq<char>>,
    id: Option<Seq<char>>,
    body: Option<Seq<TokenModel>>,
    children: bool,
)
    requires
        0 <= j <= ts.len(),
        ts.subrange(j, ts.len() as int) == class_tokens(classes) + match id {
            Some(i) => seq![TokenModel::Punct('#'), TokenModel::Ident(i)],
            None => Seq::empty(),
        } + element_end_tokens(body),
    ensures
        element_rest(ts, j, tag, acc, None, Seq::empty(), children) == match body {
            None => NodeScan::Done(
                NodeModel::Element(
                    tag,
                    acc + class_selectors(classes),
                    match id {
                        Some(i) => Some(SelectorModel::Name(i)),
                        None => None,
                    },
                    Seq::empty(),
                    None,
                ),
                ts.len() as int,
            ),
            Some(b) => match markup_nodes(b, children) {
                NodesScan::Done(ns) => NodeScan::Done(
                    NodeModel::Element(
                        tag,
                        acc + class_selectors(classes),
                        match id {
                            Some(i) => Some(SelectorModel::Name(i)),
                            None => None,
                        },
                        Seq::empty(),
                        Some(ns),
                    ),
                    ts.len() as int,
                ),
                NodesScan::Fail(m, at) => NodeScan::Fail(m, at, ts.len() as int),
            },
        },
    decreases classes.len(),
{
    let idt = match id {
        Some(i) => seq![TokenModel::Punct('#'), TokenModel::Ident(i)],
        None => Seq::<TokenModel>::empty(),
    };
    let end = element_end_tokens(body);
    let tail = class_tokens(classes) + idt + end;
    assert(tail.len() == ts.len() - j);
    assert(end.len() == 1);
    if classes.len() > 0 {
        let more = classes.drop_first();
        assert(class_tokens(classes) == seq![TokenModel::Punct('.'), TokenModel::Ident(classes[0])] + class_tokens(more));
        assert(ts[j] == tail[0]);
        assert(ts[j + 1] == tail[1]);
        assert(ts[j + 2] == tail[2]);
        if more.len() > 0 {
            assert(class_tokens(more)[0] == TokenModel::Punct('.'));
            assert(tail[2] == class_tokens(more)[0]);
        } else if id is Some {
            assert(tail[2] == idt[0]);
        } else {
            assert(tail[2] == end[0]);
        }
        lemma_element_selector_step(ts, j, tag, acc, None, classes[0], children);
        assert forall|q: int| 0 <= q < tail.len() - 2 implies #[trigger] ts.subrange(j + 2, ts.len() as int)[q]
            == (class_tokens(more) + idt + end)[q] by {
            assert(ts[j + 2 + q] == tail[2 + q]);
        }
        assert(ts.subrange(j + 2, ts.len() as int) =~= class_tokens(more) + idt + end);
        lemma_element_classes(ts, j + 2, tag, acc.push(SelectorModel::Name(classes[0])), more, id, body, children);
        assert(acc.push(SelectorModel::Name(classes[0])) + class_selectors(more) =~= acc + class_selectors(classes));
    } else {
        assert(class_selectors(classes) =~= Seq::<SelectorModel>::empty());
        assert(acc + class_selectors(classes) == acc);
        assert(tail == idt + end);
        match id {
            Some(i) => {
                assert(ts[j] == tail[0]);
                assert(ts[j + 1] == tail[1]);
                assert(ts[j + 2] == tail[2]);
                assert(tail[2] == end[0]);
                lemma_element_selector_step(ts, j, tag, acc, None, i, children);
                assert(ts.subrange(j + 2, ts.len() as int) =~= end);
                lemma_element_end(ts, j + 2, tag, acc, Some(SelectorModel::Name(i)), body, children);
            },
            None => {
                assert(ts.subrange(j, ts.len() as int) =~= end);
                lemma_element_end(ts, j, tag, acc, None, body, children);
            },
        }
    }
}

#[verifier::rlimit(40)]
proof fn lemma_node_element(ts: Seq<TokenModel>, name: Seq<char>, children: bool)
    requires
        2 <= ts.len(),
        ts[0] == TokenModel::Ident(name),
        ts[1] != TokenModel::Punct('-'),
    ensures
        node(ts, 0, children) == element_rest(ts, 1, TagModel::Static(name), Seq::empty(), None, Seq::empty(), children),
{
    reveal(element_rest);
    lemma_dashed_name_end(ts, 0);
    lemma_weight_less(ts, 0, 1);
    assert(dashed_rest(ts, 1, seq![name]) == NameScan::Done(seq![name], 1));
    assert(dashed_name(ts, 0) == NameScan::Done(seq![name], 1));
    assert(join_dashed(seq![name]) == name);
}

/// Reading `name.c1.c2#id { body }` (any number of classes, an optional
/// id, a body or `;`) gives one element node with that tag, every class in
/// order, that id and the nodes of that body, or `None` for `;`.
pub proof fn law_element_nodes(
    name: Seq<char>,
    classes: Seq<Seq<char>>,
    id: Option<Seq<char>>,
    body: Option<Seq<TokenModel>>,
    children: bool,
)
    ensures
        markup_nodes(element_tokens(name, classes, id, body), children) == element_read(name, classes, id, body, children),
{
    let ts = element_tokens(name, classes, id, body);
    let rest = class_tokens(classes) + match id {
        Some(i) => seq![TokenModel::Punct('#'), TokenModel::Ident(i)],
        None => Seq::<TokenModel>::empty(),
    } + element_end_tokens(body);
    assert(ts == seq![TokenModel::Ident(name)] + rest);
    assert(ts.subrange(1, ts.len() as int) =~= rest);
    assert(ts[0] == TokenModel::Ident(name));
    assert(ts[1] == rest[0]);
    if classes.len() > 0 {
        assert(rest[0] == class_tokens(classes)[0]);
    } else if id is Some {
        assert(rest[0] == TokenModel::Punct('#'));
    } else {
        assert(rest[0] == element_end_tokens(body)[0]);
    }
    lemma_node_element(ts, name, children);
    lemma_element_classes(ts, 1, TagModel::Static(name), Seq::empty(), classes, id, body, children);
    assert(Seq::<SelectorModel>::empty() + class_selectors(classes) == class_selectors(classes));
    let scan = node(ts, 0, children);
    match scan {
        NodeScan::Done(n, e) => {
            assert(e == ts.len());
            assert(nodes_from(ts, 0, Seq::empty(), children) == nodes_from(ts, e, Seq::<NodeModel>::empty().push(n), children));
            assert(Seq::<NodeModel>::empty().push(n) == seq![n]);
        },
        NodeScan::Fail(m, at, e) => {},
    }
}

} // verus!
