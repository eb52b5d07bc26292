use vstd::prelude::*;
use vstd::string::StringExecFns;
use crate::cursor::{
    Cursor, Delimiter, Group, ParseError, Token, TokenModel, arrow_at, clone_stream, is_group, no_arrow,
    lemma_stream_model_all, lemma_stream_model_concat, lemma_stream_model_push, stream_model,
    token_stream_from_group,
};
use crate::html::push_char;

verus! {

/// The token at `i`, if there is one.
pub open spec fn tok(ts: Seq<TokenModel>, i: int) -> Option<TokenModel> {
    if 0 <= i < ts.len() {
        Some(ts[i])
    } else {
        None
    }
}

/// An error position in a parse error.
pub open spec fn error_at(at: Option<int>) -> Option<usize> {
    match at {
        Some(i) => Some(i as usize),
        None => None,
    }
}

/// The texts of some strings.
pub open spec fn strings_model(v: Seq<String>) -> Seq<Seq<char>> {
    v.map_values(|s: String| s@)
}

/// How reading a dashed name ends: the names read and the position after
/// them, or an error at a token (or at the end) and the position after it.
pub enum NameScan {
    Done(Seq<Seq<char>>, int),
    Fail(Option<int>, int),
}

/// Reads further `-` name pairs from `j`, after the names `acc`.
pub open spec fn dashed_rest(ts: Seq<TokenModel>, j: int, acc: Seq<Seq<char>>) -> NameScan
    decreases ts.len() - j,
{
    if 0 <= j && j + 1 < ts.len() && ts[j] == TokenModel::Punct('-') {
        match ts[j + 1] {
            TokenModel::Ident(s) => dashed_rest(ts, j + 2, acc.push(s)),
            _ => NameScan::Fail(Some(j + 1), j + 2),
        }
    } else if 0 <= j && j + 1 == ts.len() && ts[j] == TokenModel::Punct('-') {
        NameScan::Fail(None, j + 1)
    } else {
        NameScan::Done(acc, j)
    }
}

/// A name made of identifiers joined by `-`, read from `i`: as many
/// `-` name pairs as follow the first name.
pub open spec fn dashed_name(ts: Seq<TokenModel>, i: int) -> NameScan {
    if 0 <= i < ts.len() {
        match ts[i] {
            TokenModel::Ident(s) => dashed_rest(ts, i + 1, seq![s]),
            _ => NameScan::Fail(Some(i), i + 1),
        }
    } else {
        NameScan::Fail(None, i)
    }
}

/// Names joined with `-`.
pub open spec fn join_dashed(segs: Seq<Seq<char>>) -> Seq<char>
    decreases segs.len(),
{
    if segs.len() <= 1 {
        if segs.len() == 1 {
            segs[0]
        } else {
            Seq::empty()
        }
    } else {
        join_dashed(segs.drop_last()) + seq!['-'] + segs.last()
    }
}

/// Reads a name made of identifiers joined by `-`, and gives back its parts.
pub fn parse_name_segments(cursor: &mut Cursor) -> (r: Result<Vec<String>, ParseError>)
    ensures
        final(cursor).tokens() == old(cursor).tokens(),
        match dashed_name(old(cursor).tokens(), old(cursor).pos()) {
            NameScan::Done(segs, end) => r matches Ok(v) && strings_model(v@) == segs
                && final(cursor).pos() == end,
            NameScan::Fail(at, end) => r matches Err(e) && e.message@ == "expected identifier"@
                && e.at == error_at(at) && final(cursor).pos() == end,
        },
{
    let ghost ts = cursor.tokens();
    let ghost start = cursor.pos();
    let first = match cursor.next_ident() {
        Ok(first) => first,
        Err(e) => return Err(e),
    };
    let mut segments: Vec<String> = Vec::new();
    segments.push(first);
    assert(strings_model(segments@) =~= seq![first@]);
    loop
        invariant
            ts == old(cursor).tokens(),
            start == old(cursor).pos(),
            cursor.tokens() == ts,
            0 <= cursor.pos() <= ts.len(),
            dashed_name(ts, start) == dashed_rest(ts, cursor.pos(), strings_model(segments@)),
        decreases ts.len() - cursor.pos(),
    {
        let ghost here = cursor.pos();
        if cursor.consume_punct('-').is_none() {
            return Ok(segments);
        }
        match cursor.next_ident() {
            Ok(s) => {
                proof {
                    assert(strings_model(segments@.push(s)) =~= strings_model(segments@).push(s@));
                }
                segments.push(s);
            },
            Err(e) => return Err(e),
        }
    }
}

/// Joins names with `-`.
pub(crate) fn join_with_dash(segments: &Vec<String>) -> (r: String)
    ensures
        r@ == join_dashed(strings_model(segments@)),
{
    let mut out = String::new();
    let mut i: usize = 0;
    while i < segments.len()
        invariant
            i <= segments@.len(),
            out@ == join_dashed(strings_model(segments@.take(i as int))),
        decreases segments@.len() - i,
    {
        let ghost before = out@;
        proof {
            let m = strings_model(segments@.take(i + 1));
            assert(m.drop_last() =~= strings_model(segments@.take(i as int)));
            assert(m.last() == segments@[i as int]@);
        }
        if i > 0 {
            push_char(&mut out, '-');
        }
        out.append(segments[i].as_str());
        i = i + 1;
    }
    assert(segments@.take(segments@.len() as int) == segments@);
    out
}

/// Reads a tag name: identifiers joined by `-`.
pub fn parse_static_tag(cursor: &mut Cursor) -> (r: Result<String, ParseError>)
    ensures
        final(cursor).tokens() == old(cursor).tokens(),
        match dashed_name(old(cursor).tokens(), old(cursor).pos()) {
            NameScan::Done(segs, end) => r matches Ok(s) && s@ == join_dashed(segs)
                && final(cursor).pos() == end,
            NameScan::Fail(at, end) => r matches Err(e) && e.message@ == "expected identifier"@
                && e.at == error_at(at) && final(cursor).pos() == end,
        },
{
    match parse_name_segments(cursor) {
        Ok(segments) => Ok(join_with_dash(&segments)),
        Err(e) => Err(e),
    }
}

/// Whether a `{ ... }` group after a path reads as the fields of a struct
/// literal: `..`, or a name alone or followed by `:`, `,` or `..`.
pub open spec fn looks_struct_literal(s: Seq<TokenModel>) -> bool {
    ||| tok(s, 0) == Some(TokenModel::Punct('.')) && tok(s, 1) == Some(TokenModel::Punct('.'))
    ||| (tok(s, 0) matches Some(TokenModel::Ident(_))) && (s.len() == 1 || tok(s, 1) == Some(
        TokenModel::Punct(':'),
    ) || tok(s, 1) == Some(TokenModel::Punct(',')) || (tok(s, 1) == Some(TokenModel::Punct('.'))
        && tok(s, 2) == Some(TokenModel::Punct('.'))))
}

/// Whether `group` reads as the fields of a struct literal.
pub fn group_looks_struct_literal(group: &Group) -> (b: bool)
    ensures
        b == looks_struct_literal(stream_model(group.stream@)),
{
    let mut cursor = Cursor::new(clone_stream(&group.stream));
    if cursor.consume_double_punct('.', '.') {
        return true;
    }
    match cursor.next() {
        Some(Token::Ident(_)) => {},
        _ => return false,
    }
    cursor.is_empty() || cursor.peek_punct(':') || cursor.peek_punct(',') || (cursor.peek_punct('.')
        && cursor.peek_punct_n(1, '.'))
}

/// Whether a parenthesized group at the cursor names a dynamic tag: some
/// token other than an invisible group follows it.
pub fn paren_starts_dynamic_element(cursor: &Cursor) -> (b: bool)
    ensures
        b == (cursor.at(1) matches Some(t) && !is_group(t, Delimiter::Invisible)),
{
    match cursor.peek_n(1) {
        Some(Token::Group(group)) => match group.delimiter {
            Delimiter::Brace | Delimiter::Parenthesis | Delimiter::Bracket => true,
            Delimiter::Invisible => false,
        },
        Some(_) => true,
        None => false,
    }
}

/// Whether `Markup::slot()` starts at `i`.
pub open spec fn slot_call_at(ts: Seq<TokenModel>, i: int) -> bool {
    &&& tok(ts, i) == Some(TokenModel::Ident("Markup"@))
    &&& tok(ts, i + 1) == Some(TokenModel::Punct(':'))
    &&& tok(ts, i + 2) == Some(TokenModel::Punct(':'))
    &&& tok(ts, i + 3) == Some(TokenModel::Ident("slot"@))
    &&& tok(ts, i + 4) == Some(TokenModel::Group(Delimiter::Parenthesis, Seq::empty()))
}

/// Reads `Markup::slot()` when it comes next.
pub fn consume_markup_slot_call(cursor: &mut Cursor) -> (b: bool)
    ensures
        b == slot_call_at(old(cursor).tokens(), old(cursor).pos()),
        final(cursor).advanced(*old(cursor), if b { 5 } else { 0 }),
{
    let ghost ts = cursor.tokens();
    let ghost i = cursor.pos();
    proof {
        cursor.lemma_bounds();
    }
    let mut lookahead = cursor.clone();
    if lookahead.consume_ident("Markup").is_none() {
        return false;
    }
    if !lookahead.consume_double_punct(':', ':') {
        return false;
    }
    if lookahead.consume_ident("slot").is_none() {
        return false;
    }
    let group = match lookahead.consume_group(Delimiter::Parenthesis) {
        Some(group) => group,
        None => return false,
    };
    proof {
        lemma_stream_model_all(group.stream@);
        assert(tok(ts, i + 4) == Some(TokenModel::Group(Delimiter::Parenthesis, stream_model(group.stream@))));
    }
    if group.stream.len() != 0 {
        return false;
    }
    assert(stream_model(group.stream@) =~= Seq::<TokenModel>::empty());
    *cursor = lookahead;
    true
}

/// How reading a run of tokens ends: at a position, or with an error
/// message, the position it points at (`None` for the end) and the
/// position after it.
pub enum EndScan {
    Done(int),
    Fail(Seq<char>, Option<int>, int),
}

/// Reads generic arguments from `j`, `depth` angle brackets deep, up to the
/// `>` that closes the first `<`.
pub open spec fn angle_args(ts: Seq<TokenModel>, j: int, depth: nat) -> EndScan
    decreases ts.len() - j,
{
    if !(0 <= j < ts.len()) {
        EndScan::Fail("unterminated generic argument list"@, None, j)
    } else if ts[j] == TokenModel::Punct('<') {
        angle_args(ts, j + 1, depth + 1)
    } else if ts[j] == TokenModel::Punct('>') {
        if depth == 0 {
            EndScan::Fail("unexpected `>`"@, Some(j), j + 1)
        } else if depth == 1 {
            EndScan::Done(j + 1)
        } else {
            angle_args(ts, j + 1, (depth - 1) as nat)
        }
    } else {
        angle_args(ts, j + 1, depth)
    }
}

/// Generic arguments end after where they start.
pub proof fn lemma_angle_args_end(ts: Seq<TokenModel>, j: int, depth: nat)
    requires
        0 <= j,
    ensures
        match angle_args(ts, j, depth) {
            EndScan::Done(end) => j < end <= ts.len(),
            EndScan::Fail(_, _, end) => j <= end <= ts.len() || (j >= ts.len() && end == j),
        },
    decreases ts.len() - j,
{
    if j < ts.len() {
        if ts[j] == TokenModel::Punct('<') {
            lemma_angle_args_end(ts, j + 1, depth + 1);
        } else if ts[j] == TokenModel::Punct('>') {
            if depth > 1 {
                lemma_angle_args_end(ts, j + 1, (depth - 1) as nat);
            }
        } else {
            lemma_angle_args_end(ts, j + 1, depth);
        }
    }
}

/// Reads generic arguments, from their `<` up to the `>` that closes it,
/// and gives back the tokens read.
pub fn collect_angle_args(cursor: &mut Cursor) -> (r: Result<Vec<Token>, ParseError>)
    ensures
        final(cursor).tokens() == old(cursor).tokens(),
        match angle_args(old(cursor).tokens(), old(cursor).pos(), 0) {
            EndScan::Done(end) => r matches Ok(v) && stream_model(v@) == old(cursor).tokens().subrange(
                old(cursor).pos(),
                end,
            ) && final(cursor).pos() == end,
            EndScan::Fail(msg, at, end) => r matches Err(e) && e.message@ == msg && e.at == error_at(at)
                && final(cursor).pos() == end,
        },
{
    let ghost ts = cursor.tokens();
    let ghost start = cursor.pos();
    proof {
        cursor.lemma_bounds();
    }
    let mut depth: usize = 0;
    let mut out: Vec<Token> = Vec::new();
    loop
        invariant
            ts == old(cursor).tokens(),
            start == old(cursor).pos(),
            cursor.tokens() == ts,
            0 <= start <= cursor.pos() <= ts.len(),
            depth <= cursor.pos() - start,
            angle_args(ts, start, 0) == angle_args(ts, cursor.pos(), depth as nat),
            stream_model(out@) == ts.subrange(start, cursor.pos()),
        decreases ts.len() - cursor.pos(),
    {
        let ghost here = cursor.pos();
        let at = cursor.span();
        match cursor.next() {
            Some(token) => {
                proof {
                    cursor.lemma_bounds();
                    lemma_stream_model_push(out@, token);
                    assert(ts.subrange(start, here + 1) == ts.subrange(start, here).push(ts[here]));
                }
                let is_open = match &token {
                    Token::Punct(ch) => *ch == '<',
                    _ => false,
                };
                let is_close = match &token {
                    Token::Punct(ch) => *ch == '>',
                    _ => false,
                };
                if is_open {
                    depth = depth + 1;
                    out.push(token);
                } else if is_close {
                    if depth == 0 {
                        return Err(ParseError { message: String::from_str("unexpected `>`"), at });
                    }
                    depth = depth - 1;
                    out.push(token);
                    if depth == 0 {
                        return Ok(out);
                    }
                } else {
                    out.push(token);
                }
            },
            None => {
                return Err(ParseError {
                    message: String::from_str("unterminated generic argument list"),
                    at: None,
                });
            },
        }
    }
}

/// A group as the tokens it stands for: its contents when it is
/// invisible, else the group itself.
pub open spec fn flat(t: TokenModel) -> Seq<TokenModel> {
    match t {
        TokenModel::Group(Delimiter::Invisible, s) => s,
        _ => seq![t],
    }
}

/// How reading an expression ends: its tokens, whether it is a plain
/// path, and the position after it; or an error message, where it points
/// and the position after it.
pub enum ExprScan {
    Done(Seq<TokenModel>, bool, int),
    Fail(Seq<char>, Option<int>, int),
}

/// Reads the rest of an expression from `j`, after the tokens `out`:
/// `::` path segments and generic arguments, calls (where a call may
/// follow), indexing, fields and methods after `.`, and macro bodies
/// after `!`. A parenthesized group followed by `=` is left for an
/// attribute.
pub open spec fn expr_rest(ts: Seq<TokenModel>, j: int, out: Seq<TokenModel>, simple: bool, can_call: bool) -> ExprScan
    decreases ts.len() - j,
{
    if j < 0 {
        ExprScan::Done(out, simple, j)
    } else if tok(ts, j) == Some(TokenModel::Punct(':')) && tok(ts, j + 1) == Some(TokenModel::Punct(':')) {
        let out2 = out + seq![TokenModel::Punct(':'), TokenModel::Punct(':')];
        if tok(ts, j + 2) == Some(TokenModel::Punct('<')) {
            proof {
                lemma_angle_args_end(ts, j + 2, 0);
            }
            match angle_args(ts, j + 2, 0) {
                EndScan::Done(end) => expr_rest(ts, end, out2 + ts.subrange(j + 2, end), simple, true),
                EndScan::Fail(m, at, end) => ExprScan::Fail(m, at, end),
            }
        } else {
            match tok(ts, j + 2) {
                Some(TokenModel::Ident(_)) => expr_rest(ts, j + 3, out2.push(ts[j + 2]), simple, true),
                Some(_) => ExprScan::Fail("expected identifier"@, Some(j + 2), j + 3),
                None => ExprScan::Fail("expected identifier"@, None, j + 2),
            }
        }
    } else if can_call && (tok(ts, j) matches Some(t) && is_group(t, Delimiter::Parenthesis)) && tok(ts, j + 1)
        == Some(TokenModel::Punct('=')) {
        ExprScan::Done(out, simple, j)
    } else if can_call && (tok(ts, j) matches Some(t) && is_group(t, Delimiter::Parenthesis)) {
        expr_rest(ts, j + 1, out.push(ts[j]), false, false)
    } else if tok(ts, j) matches Some(t) && is_group(t, Delimiter::Bracket) {
        expr_rest(ts, j + 1, out.push(ts[j]), false, false)
    } else if tok(ts, j) == Some(TokenModel::Punct('.')) {
        match tok(ts, j + 1) {
            Some(TokenModel::Ident(_)) | Some(TokenModel::Literal(_)) => expr_rest(
                ts,
                j + 2,
                out + seq![TokenModel::Punct('.'), ts[j + 1]],
                false,
                true,
            ),
            Some(_) => ExprScan::Fail("expected field or method after `.`"@, Some(j + 1), j + 2),
            None => ExprScan::Fail("expected field or method after `.`"@, None, j + 1),
        }
    } else if tok(ts, j) == Some(TokenModel::Punct('!')) {
        match tok(ts, j + 1) {
            Some(TokenModel::Group(_, _)) => expr_rest(
                ts,
                j + 2,
                out + seq![TokenModel::Punct('!')] + flat(ts[j + 1]),
                false,
                false,
            ),
            Some(_) => ExprScan::Fail("expected macro invocation body after `!`"@, Some(j + 1), j + 2),
            None => ExprScan::Fail("expected macro invocation body after `!`"@, None, j + 1),
        }
    } else {
        ExprScan::Done(out, simple, j)
    }
}

/// Reads an expression that stands without parentheses: a name, literal
/// or group, and what follows it (see [`expr_rest`]). Only a name followed
/// by `::` segments alone is a plain path.
pub open spec fn expr_like(ts: Seq<TokenModel>, i: int) -> ExprScan {
    match tok(ts, i) {
        Some(TokenModel::Ident(_)) => expr_rest(ts, i + 1, seq![ts[i]], true, true),
        Some(TokenModel::Literal(_)) => expr_rest(ts, i + 1, seq![ts[i]], false, false),
        Some(TokenModel::Group(_, _)) => expr_rest(ts, i + 1, flat(ts[i]), false, false),
        Some(TokenModel::Punct(_)) => ExprScan::Fail("expected Rust expression in markup"@, Some(i), i + 1),
        None => ExprScan::Fail("expected Rust expression in markup"@, None, i),
    }
}

/// No token at the top level is an invisible group.
pub open spec fn no_invisible(ts: Seq<TokenModel>) -> bool {
    forall|k: int| 0 <= k < ts.len() ==> !is_group(#[trigger] ts[k], Delimiter::Invisible)
}

proof fn lemma_expr_rest_tokens(ts: Seq<TokenModel>, j: int, out: Seq<TokenModel>, simple: bool, can_call: bool)
    requires
        no_invisible(ts),
        0 <= j <= ts.len(),
    ensures
        expr_rest(ts, j, out, simple, can_call) matches ExprScan::Done(o, _, end) ==> j <= end <= ts.len()
            && o == out + ts.subrange(j, end),
    decreases ts.len() - j,
{
    let r = expr_rest(ts, j, out, simple, can_call);
    if tok(ts, j) == Some(TokenModel::Punct(':')) && tok(ts, j + 1) == Some(TokenModel::Punct(':')) {
        let out2 = out + seq![TokenModel::Punct(':'), TokenModel::Punct(':')];
        assert(out2 == out + ts.subrange(j, j + 2));
        if tok(ts, j + 2) == Some(TokenModel::Punct('<')) {
            lemma_angle_args_end(ts, j + 2, 0);
            if let EndScan::Done(end) = angle_args(ts, j + 2, 0) {
                let out3 = out2 + ts.subrange(j + 2, end);
                lemma_expr_rest_tokens(ts, end, out3, simple, true);
                assert(out3 == out + ts.subrange(j, end));
                if let ExprScan::Done(o, _, e) = r {
                    assert(out3 + ts.subrange(end, e) == out + ts.subrange(j, e));
                }
            }
        } else if tok(ts, j + 2) matches Some(TokenModel::Ident(_)) {
            let out3 = out2.push(ts[j + 2]);
            assert(out3 == out + ts.subrange(j, j + 3));
            lemma_expr_rest_tokens(ts, j + 3, out3, simple, true);
            if let ExprScan::Done(o, _, e) = r {
                assert(out3 + ts.subrange(j + 3, e) == out + ts.subrange(j, e));
            }
        }
    } else if can_call && (tok(ts, j) matches Some(t) && is_group(t, Delimiter::Parenthesis)) && tok(ts, j + 1)
        == Some(TokenModel::Punct('=')) {
        assert(out + ts.subrange(j, j) == out);
    } else if (can_call && (tok(ts, j) matches Some(t) && is_group(t, Delimiter::Parenthesis))) || (tok(ts, j) matches Some(t)
        && is_group(t, Delimiter::Bracket)) {
        let out3 = out.push(ts[j]);
        assert(out3 == out + ts.subrange(j, j + 1));
        lemma_expr_rest_tokens(ts, j + 1, out3, false, false);
        if let ExprScan::Done(o, _, e) = r {
            assert(out3 + ts.subrange(j + 1, e) == out + ts.subrange(j, e));
        }
    } else if tok(ts, j) == Some(TokenModel::Punct('.')) {
        if tok(ts, j + 1) matches Some(TokenModel::Ident(_)) || tok(ts, j + 1) matches Some(TokenModel::Literal(_)) {
            let out3 = out + seq![TokenModel::Punct('.'), ts[j + 1]];
            assert(out3 == out + ts.subrange(j, j + 2));
            lemma_expr_rest_tokens(ts, j + 2, out3, false, true);
            if let ExprScan::Done(o, _, e) = r {
                assert(out3 + ts.subrange(j + 2, e) == out + ts.subrange(j, e));
            }
        }
    } else if tok(ts, j) == Some(TokenModel::Punct('!')) {
        if tok(ts, j + 1) matches Some(TokenModel::Group(_, _)) {
            assert(!is_group(ts[j + 1], Delimiter::Invisible));
            let out3 = out + seq![TokenModel::Punct('!')] + flat(ts[j + 1]);
            assert(out3 == out + ts.subrange(j, j + 2));
            lemma_expr_rest_tokens(ts, j + 2, out3, false, false);
            if let ExprScan::Done(o, _, e) = r {
                assert(out3 + ts.subrange(j + 2, e) == out + ts.subrange(j, e));
            }
        }
    } else {
        assert(out + ts.subrange(j, j) == out);
    }
}

/// An error that a malformed `::`, `.` or `!` continuation gives.
pub open spec fn continuation_error(m: Seq<char>) -> bool {
    ||| m == "expected identifier"@
    ||| m == "expected field or method after `.`"@
    ||| m == "expected macro invocation body after `!`"@
    ||| m == "unexpected `>`"@
    ||| m == "unterminated generic argument list"@
}

/// Whether an expression that started at `i` and has read up to `e` can
/// take a call next: after a name, a `::<..>`, or a tuple field.
pub open spec fn call_allowed(ts: Seq<TokenModel>, i: int, e: int) -> bool {
    ||| tok(ts, e - 1) matches Some(TokenModel::Ident(_))
    ||| tok(ts, e - 1) == Some(TokenModel::Punct('>'))
    ||| e - 1 > i && (tok(ts, e - 1) matches Some(TokenModel::Literal(_))) && tok(ts, e - 2) == Some(TokenModel::Punct('.'))
}

/// Nothing at `e` continues the expression: no `::`, `[..]`, `.` or `!`,
/// and no `(..)` that it could take as a call (one followed by `=` starts
/// an attribute).
pub open spec fn stops_at(ts: Seq<TokenModel>, i: int, e: int) -> bool {
    &&& !(tok(ts, e) == Some(TokenModel::Punct(':')) && tok(ts, e + 1) == Some(TokenModel::Punct(':')))
    &&& !(tok(ts, e) matches Some(t) && is_group(t, Delimiter::Bracket))
    &&& tok(ts, e) != Some(TokenModel::Punct('.'))
    &&& tok(ts, e) != Some(TokenModel::Punct('!'))
    &&& (tok(ts, e) matches Some(t) && is_group(t, Delimiter::Parenthesis)) && tok(ts, e + 1) != Some(
        TokenModel::Punct('='),
    ) ==> !call_allowed(ts, i, e)
}

proof fn lemma_angle_args_close(ts: Seq<TokenModel>, j: int, depth: nat)
    requires
        0 <= j,
    ensures
        angle_args(ts, j, depth) matches EndScan::Done(end) ==> tok(ts, end - 1) == Some(TokenModel::Punct('>')),
        angle_args(ts, j, depth) matches EndScan::Fail(m, _, _) ==> continuation_error(m),
    decreases ts.len() - j,
{
    if 0 <= j < ts.len() {
        if ts[j] == TokenModel::Punct('<') {
            lemma_angle_args_close(ts, j + 1, depth + 1);
        } else if ts[j] == TokenModel::Punct('>') {
            if depth > 1 {
                lemma_angle_args_close(ts, j + 1, (depth - 1) as nat);
            }
        } else {
            lemma_angle_args_close(ts, j + 1, depth);
        }
    }
}

proof fn lemma_expr_rest_stops(ts: Seq<TokenModel>, i: int, j: int, out: Seq<TokenModel>, simple: bool, can_call: bool)
    requires
        0 <= i < j,
        can_call == call_allowed(ts, i, j),
    ensures
        match expr_rest(ts, j, out, simple, can_call) {
            ExprScan::Done(_, s2, e) => e >= j && stops_at(ts, i, e) && (s2 ==> simple),
            ExprScan::Fail(m, _, _) => continuation_error(m),
        },
    decreases ts.len() - j,
{
    if tok(ts, j) == Some(TokenModel::Punct(':')) && tok(ts, j + 1) == Some(TokenModel::Punct(':')) {
        let out2 = out + seq![TokenModel::Punct(':'), TokenModel::Punct(':')];
        if tok(ts, j + 2) == Some(TokenModel::Punct('<')) {
            lemma_angle_args_end(ts, j + 2, 0);
            lemma_angle_args_close(ts, j + 2, 0);
            if let EndScan::Done(end) = angle_args(ts, j + 2, 0) {
                lemma_expr_rest_stops(ts, i, end, out2 + ts.subrange(j + 2, end), simple, true);
            }
        } else if tok(ts, j + 2) matches Some(TokenModel::Ident(_)) {
            lemma_expr_rest_stops(ts, i, j + 3, out2.push(ts[j + 2]), simple, true);
        }
    } else if can_call && (tok(ts, j) matches Some(t) && is_group(t, Delimiter::Parenthesis)) && tok(ts, j + 1)
        == Some(TokenModel::Punct('=')) {
    } else if can_call && (tok(ts, j) matches Some(t) && is_group(t, Delimiter::Parenthesis)) {
        lemma_expr_rest_stops(ts, i, j + 1, out.push(ts[j]), false, false);
    } else if tok(ts, j) matches Some(t) && is_group(t, Delimiter::Bracket) {
        lemma_expr_rest_stops(ts, i, j + 1, out.push(ts[j]), false, false);
    } else if tok(ts, j) == Some(TokenModel::Punct('.')) {
        if tok(ts, j + 1) matches Some(TokenModel::Ident(_)) || tok(ts, j + 1) matches Some(TokenModel::Literal(_)) {
            lemma_expr_rest_stops(ts, i, j + 2, out + seq![TokenModel::Punct('.'), ts[j + 1]], false, true);
        }
    } else if tok(ts, j) == Some(TokenModel::Punct('!')) {
        if tok(ts, j + 1) matches Some(TokenModel::Group(_, _)) {
            lemma_expr_rest_stops(ts, i, j + 2, out + seq![TokenModel::Punct('!')] + flat(ts[j + 1]), false, false);
        }
    }
}

/// How reading an expression ends, stated in its own words: it fails at
/// the start just when there is no token there or a punctuation mark, and
/// otherwise only on a malformed `::`, `.` or `!` continuation; when it
/// succeeds, it has read the longest run of continuations, so that the
/// token after it continues nothing, and it is a simple path only when it
/// starts with a name.
pub proof fn law_expr_like_ends(ts: Seq<TokenModel>, i: int)
    requires
        0 <= i,
    ensures
        (expr_like(ts, i) matches ExprScan::Fail(m, _, _) && m == "expected Rust expression in markup"@) <==> (
        tok(ts, i) is None || tok(ts, i) matches Some(TokenModel::Punct(_))),
        expr_like(ts, i) matches ExprScan::Fail(m, _, _) ==> m == "expected Rust expression in markup"@
            || continuation_error(m),
        expr_like(ts, i) matches ExprScan::Done(_, _, e) ==> e > i && stops_at(ts, i, e),
        expr_like(ts, i) matches ExprScan::Done(_, simple, _) && simple ==> tok(ts, i) matches Some(
            TokenModel::Ident(_),
        ),
{
    reveal_strlit("expected Rust expression in markup");
    reveal_strlit("expected identifier");
    reveal_strlit("expected field or method after `.`");
    reveal_strlit("expected macro invocation body after `!`");
    reveal_strlit("unexpected `>`");
    reveal_strlit("unterminated generic argument list");
    let start = "expected Rust expression in markup"@;
    assert(start[9] == 'R');
    assert("expected identifier"@[9] == 'i');
    assert("expected field or method after `.`"@[9] == 'f');
    assert("expected macro invocation body after `!`"@[9] == 'm');
    assert("unexpected `>`"@[0] == 'u');
    assert("unterminated generic argument list"@[0] == 'u');
    assert(!continuation_error(start));
    match tok(ts, i) {
        Some(TokenModel::Ident(_)) => {
            lemma_expr_rest_stops(ts, i, i + 1, seq![ts[i]], true, true);
        },
        Some(TokenModel::Literal(_)) => {
            lemma_expr_rest_stops(ts, i, i + 1, seq![ts[i]], false, false);
        },
        Some(TokenModel::Group(_, _)) => {
            lemma_expr_rest_stops(ts, i, i + 1, flat(ts[i]), false, false);
        },
        _ => {},
    }
}

/// An expression is read without change: where no token is an invisible
/// group, the tokens given back are just those read, and at least one.
pub proof fn law_expr_like_keeps_its_tokens(ts: Seq<TokenModel>, i: int)
    requires
        no_invisible(ts),
        0 <= i <= ts.len(),
    ensures
        expr_like(ts, i) matches ExprScan::Done(out, _, end) ==> i < end <= ts.len() && out == ts.subrange(i, end),
{
    if 0 <= i < ts.len() && !(ts[i] is Punct) {
        let first = flat(ts[i]);
        assert(!is_group(ts[i], Delimiter::Invisible));
        assert(first == ts.subrange(i, i + 1));
        let (s, c) = if ts[i] is Ident { (true, true) } else { (false, false) };
        lemma_expr_rest_tokens(ts, i + 1, first, s, c);
        if let ExprScan::Done(o, _, e) = expr_like(ts, i) {
            assert(first + ts.subrange(i + 1, e) == ts.subrange(i, e));
        }
    }
}

/// An expression read from the markup, and whether it is a plain path.
#[derive(Debug, PartialEq, Eq)]
pub struct ExprLike {
    pub tokens: Vec<Token>,
    pub simple_path: bool,
}

/// Appends `more` to `out`.
fn append_tokens(out: &mut Vec<Token>, more: Vec<Token>)
    ensures
        stream_model(final(out)@) == stream_model(old(out)@) + stream_model(more@),
{
    let mut more = more;
    proof {
        lemma_stream_model_concat(out@, more@);
    }
    out.append(&mut more);
}

/// Reads an expression that stands without parentheses.
pub fn parse_expr_like(cursor: &mut Cursor) -> (r: Result<ExprLike, ParseError>)
    ensures
        final(cursor).tokens() == old(cursor).tokens(),
        match expr_like(old(cursor).tokens(), old(cursor).pos()) {
            ExprScan::Done(out, simple, end) => r matches Ok(e) && stream_model(e.tokens@) == out
                && e.simple_path == simple && final(cursor).pos() == end,
            ExprScan::Fail(msg, at, end) => r matches Err(e) && e.message@ == msg && e.at == error_at(at)
                && final(cursor).pos() == end,
        },
{
    let ghost ts = cursor.tokens();
    let ghost start = cursor.pos();
    proof {
        cursor.lemma_bounds();
    }
    let mut out: Vec<Token> = Vec::new();
    let mut simple_path = false;
    let mut can_consume_call = false;
    let at = cursor.span();
    match cursor.next() {
        Some(Token::Ident(ident)) => {
            simple_path = true;
            can_consume_call = true;
            let t = Token::Ident(ident);
            proof {
                lemma_stream_model_push(out@, t);
            }
            out.push(t);
        },
        Some(Token::Literal(literal)) => {
            let t = Token::Literal(literal);
            proof {
                lemma_stream_model_push(out@, t);
            }
            out.push(t);
        },
        Some(Token::Group(group)) => {
            append_tokens(&mut out, token_stream_from_group(&group));
        },
        Some(Token::Punct(_)) => {
            return Err(ParseError { message: String::from_str("expected Rust expression in markup"), at });
        },
        None => {
            return Err(ParseError { message: String::from_str("expected Rust expression in markup"), at: None });
        },
    }
    loop
        invariant
            ts == old(cursor).tokens(),
            start == old(cursor).pos(),
            cursor.tokens() == ts,
            0 <= cursor.pos() <= ts.len(),
            expr_like(ts, start) == expr_rest(ts, cursor.pos(), stream_model(out@), simple_path, can_consume_call),
        decreases ts.len() - cursor.pos(),
    {
        let ghost j = cursor.pos();
        let ghost out0 = stream_model(out@);
        if cursor.consume_double_punct(':', ':') {
            let c1 = Token::Punct(':');
            proof {
                lemma_stream_model_push(out@, c1);
            }
            out.push(c1);
            let c2 = Token::Punct(':');
            proof {
                lemma_stream_model_push(out@, c2);
            }
            out.push(c2);
            assert(stream_model(out@) =~= out0 + seq![TokenModel::Punct(':'), TokenModel::Punct(':')]);
            if cursor.peek_punct('<') {
                proof {
                    lemma_angle_args_end(ts, j + 2, 0);
                }
                match collect_angle_args(cursor) {
                    Ok(args) => {
                        let ghost a = stream_model(args@);
                        append_tokens(&mut out, args);
                        assert(stream_model(out@) == out0 + seq![TokenModel::Punct(':'), TokenModel::Punct(':')] + a);
                    },
                    Err(e) => return Err(e),
                }
            } else {
                let at = cursor.span();
                match cursor.next_ident() {
                    Ok(ident) => {
                        let t = Token::Ident(ident);
                        proof {
                            lemma_stream_model_push(out@, t);
                        }
                        out.push(t);
                    },
                    Err(e) => return Err(e),
                }
            }
            can_consume_call = true;
            continue;
        }
        if can_consume_call {
            if cursor.peek_group(Delimiter::Parenthesis) && cursor.peek_punct_n(1, '=') {
                return Ok(ExprLike { tokens: out, simple_path });
            }
            if let Some(group) = cursor.consume_group(Delimiter::Parenthesis) {
                simple_path = false;
                can_consume_call = false;
                append_tokens(&mut out, token_stream_from_group(&group));
                assert(stream_model(out@) =~= out0.push(ts[j]));
                continue;
            }
        }
        if let Some(group) = cursor.consume_group(Delimiter::Bracket) {
            simple_path = false;
            can_consume_call = false;
            append_tokens(&mut out, token_stream_from_group(&group));
            assert(stream_model(out@) =~= out0.push(ts[j]));
            continue;
        }
        if cursor.consume_punct('.').is_some() {
            simple_path = false;
            can_consume_call = true;
            let d = Token::Punct('.');
            proof {
                lemma_stream_model_push(out@, d);
            }
            out.push(d);
            let at = cursor.span();
            match cursor.next() {
                Some(Token::Ident(ident)) => {
                    let t = Token::Ident(ident);
                    proof {
                        lemma_stream_model_push(out@, t);
                    }
                    out.push(t);
                    assert(stream_model(out@) =~= out0 + seq![TokenModel::Punct('.'), ts[j + 1]]);
                },
                Some(Token::Literal(literal)) => {
                    let t = Token::Literal(literal);
                    proof {
                        lemma_stream_model_push(out@, t);
                    }
                    out.push(t);
                    assert(stream_model(out@) =~= out0 + seq![TokenModel::Punct('.'), ts[j + 1]]);
                },
                Some(_) => {
                    return Err(ParseError {
                        message: String::from_str("expected field or method after `.`"),
                        at,
                    });
                },
                None => {
                    return Err(ParseError {
                        message: String::from_str("expected field or method after `.`"),
                        at: None,
                    });
                },
            }
            continue;
        }
        if cursor.consume_punct('!').is_some() {
            simple_path = false;
            can_consume_call = false;
            let b = Token::Punct('!');
            proof {
                lemma_stream_model_push(out@, b);
            }
            out.push(b);
            let at = cursor.span();
            match cursor.next() {
                Some(Token::Group(group)) => {
                    let ghost o1 = stream_model(out@);
                    append_tokens(&mut out, token_stream_from_group(&group));
                    assert(o1 == out0.push(TokenModel::Punct('!')));
                    assert(stream_model(out@) =~= out0 + seq![TokenModel::Punct('!')] + flat(ts[j + 1]));
                },
                Some(_) => {
                    return Err(ParseError {
                        message: String::from_str("expected macro invocation body after `!`"),
                        at,
                    });
                },
                None => {
                    return Err(ParseError {
                        message: String::from_str("expected macro invocation body after `!`"),
                        at: None,
                    });
                },
            }
            continue;
        }
        return Ok(ExprLike { tokens: out, simple_path });
    }
}

/// How reading a run of tokens ends: the tokens given back and the
/// position after them, or an error message, where it points and the
/// position after it.
pub enum TokensScan {
    Done(Seq<TokenModel>, int),
    Fail(Seq<char>, Option<int>, int),
}

/// An attribute value: a parenthesized expression, a literal, or an
/// expression without parentheses.
pub open spec fn attr_value(ts: Seq<TokenModel>, i: int) -> TokensScan {
    if tok(ts, i) matches Some(t) && is_group(t, Delimiter::Parenthesis) {
        TokensScan::Done(seq![ts[i]], i + 1)
    } else if tok(ts, i) matches Some(TokenModel::Literal(_)) {
        TokensScan::Done(seq![ts[i]], i + 1)
    } else {
        match expr_like(ts, i) {
            ExprScan::Done(out, _, end) => TokensScan::Done(out, end),
            ExprScan::Fail(m, at, end) => TokensScan::Fail(m, at, end),
        }
    }
}

/// The attributes spread after `..`: a bracketed or parenthesized group, or
/// an expression without parentheses.
pub open spec fn spread_expr(ts: Seq<TokenModel>, i: int) -> TokensScan {
    if tok(ts, i) matches Some(t) && (is_group(t, Delimiter::Bracket) || is_group(t, Delimiter::Parenthesis)) {
        TokensScan::Done(seq![ts[i]], i + 1)
    } else {
        match expr_like(ts, i) {
            ExprScan::Done(out, _, end) => TokensScan::Done(out, end),
            ExprScan::Fail(m, at, end) => TokensScan::Fail(m, at, end),
        }
    }
}

/// How reading an optional attribute value ends.
pub enum ValueScan {
    Done(Option<Seq<TokenModel>>, int),
    Fail(Seq<char>, Option<int>, int),
}

/// `=` and a value, or nothing.
pub open spec fn optional_attr_value(ts: Seq<TokenModel>, i: int) -> ValueScan {
    if tok(ts, i) == Some(TokenModel::Punct('=')) {
        match attr_value(ts, i + 1) {
            TokensScan::Done(v, end) => ValueScan::Done(Some(v), end),
            TokensScan::Fail(m, at, end) => ValueScan::Fail(m, at, end),
        }
    } else {
        ValueScan::Done(None, i)
    }
}

/// Reads an attribute value.
pub fn parse_attr_value(cursor: &mut Cursor) -> (r: Result<Vec<Token>, ParseError>)
    ensures
        final(cursor).tokens() == old(cursor).tokens(),
        match attr_value(old(cursor).tokens(), old(cursor).pos()) {
            TokensScan::Done(out, end) => r matches Ok(v) && stream_model(v@) == out && final(cursor).pos() == end,
            TokensScan::Fail(msg, at, end) => r matches Err(e) && e.message@ == msg && e.at == error_at(at)
                && final(cursor).pos() == end,
        },
{
    let ghost ts = cursor.tokens();
    let ghost i = cursor.pos();
    if let Some(group) = cursor.consume_group(Delimiter::Parenthesis) {
        return Ok(token_stream_from_group(&group));
    }
    if let Some(Token::Literal(_)) = cursor.peek() {
        return match cursor.next_literal() {
            Ok(literal) => {
                let mut out: Vec<Token> = Vec::new();
                let t = Token::Literal(literal);
                proof {
                    lemma_stream_model_push(out@, t);
                    assert(Seq::<TokenModel>::empty().push(ts[i]) == seq![ts[i]]);
                }
                out.push(t);
                Ok(out)
            },
            Err(e) => Err(e),
        };
    }
    match parse_expr_like(cursor) {
        Ok(expr) => Ok(expr.tokens),
        Err(e) => Err(e),
    }
}

/// Reads what follows `..` in a spread of attributes.
pub fn parse_spread_expr(cursor: &mut Cursor) -> (r: Result<Vec<Token>, ParseError>)
    ensures
        final(cursor).tokens() == old(cursor).tokens(),
        match spread_expr(old(cursor).tokens(), old(cursor).pos()) {
            TokensScan::Done(out, end) => r matches Ok(v) && stream_model(v@) == out && final(cursor).pos() == end,
            TokensScan::Fail(msg, at, end) => r matches Err(e) && e.message@ == msg && e.at == error_at(at)
                && final(cursor).pos() == end,
        },
{
    if let Some(group) = cursor.consume_group(Delimiter::Bracket) {
        return Ok(token_stream_from_group(&group));
    }
    if let Some(group) = cursor.consume_group(Delimiter::Parenthesis) {
        return Ok(token_stream_from_group(&group));
    }
    match parse_expr_like(cursor) {
        Ok(expr) => Ok(expr.tokens),
        Err(e) => Err(e),
    }
}

pub open spec fn opt_stream_model(v: Option<Vec<Token>>) -> Option<Seq<TokenModel>> {
    match v {
        Some(v) => Some(stream_model(v@)),
        None => None,
    }
}

/// Reads `=` and an attribute value when `=` comes next.
pub fn parse_optional_attr_value(cursor: &mut Cursor) -> (r: Result<Option<Vec<Token>>, ParseError>)
    ensures
        final(cursor).tokens() == old(cursor).tokens(),
        match optional_attr_value(old(cursor).tokens(), old(cursor).pos()) {
            ValueScan::Done(v, end) => r matches Ok(x) && opt_stream_model(x) == v && final(cursor).pos() == end,
            ValueScan::Fail(msg, at, end) => r matches Err(e) && e.message@ == msg && e.at == error_at(at)
                && final(cursor).pos() == end,
        },
{
    proof {
        cursor.lemma_bounds();
    }
    if cursor.consume_punct('=').is_some() {
        match parse_attr_value(cursor) {
            Ok(value) => Ok(Some(value)),
            Err(e) => Err(e),
        }
    } else {
        Ok(None)
    }
}

/// An attribute of an element, as written in the markup.
#[allow(inconsistent_fields)]
#[derive(Debug, PartialEq, Eq)]
pub enum Attr {
    /// `..attrs`: a collection of attributes.
    Spread(Vec<Token>),
    /// A name written out, with `:` or `@` before it or not.
    Static { prefix: Option<String>, segments: Vec<String>, value: Option<Vec<Token>> },
    /// A name given as a literal.
    Literal { name: String, value: Option<Vec<Token>> },
    /// A name given by a parenthesized expression.
    Dynamic { name: Vec<Token>, value: Option<Vec<Token>> },
}

/// The meaning of an [`Attr`].
#[allow(inconsistent_fields)]
pub enum AttrModel {
    Spread(Seq<TokenModel>),
    Static { prefix: Option<Seq<char>>, segments: Seq<Seq<char>>, value: Option<Seq<TokenModel>> },
    Literal { name: Seq<char>, value: Option<Seq<TokenModel>> },
    Dynamic { name: Seq<TokenModel>, value: Option<Seq<TokenModel>> },
}

pub open spec fn attr_model(a: Attr) -> AttrModel {
    match a {
        Attr::Spread(v) => AttrModel::Spread(stream_model(v@)),
        Attr::Static { prefix, segments, value } => AttrModel::Static {
            prefix: match prefix {
                Some(p) => Some(p@),
                None => None,
            },
            segments: strings_model(segments@),
            value: opt_stream_model(value),
        },
        Attr::Literal { name, value } => AttrModel::Literal { name: name@, value: opt_stream_model(value) },
        Attr::Dynamic { name, value } => AttrModel::Dynamic { name: stream_model(name@), value: opt_stream_model(value) },
    }
}

/// How reading an attribute ends.
pub enum AttrScan {
    Done(AttrModel, int),
    Fail(Seq<char>, Option<int>, int),
}

/// A dashed name from `i` and an optional value after it, with `prefix`.
pub open spec fn static_attr(ts: Seq<TokenModel>, i: int, prefix: Option<Seq<char>>) -> AttrScan {
    match dashed_name(ts, i) {
        NameScan::Done(segs, e) => match optional_attr_value(ts, e) {
            ValueScan::Done(v, end) => AttrScan::Done(AttrModel::Static { prefix, segments: segs, value: v }, end),
            ValueScan::Fail(m, at, end) => AttrScan::Fail(m, at, end),
        },
        NameScan::Fail(at, end) => AttrScan::Fail("expected identifier"@, at, end),
    }
}

/// One attribute: a spread `..`, a parenthesized name, a literal name, a
/// name after `:` or `@`, or a name; each name with an optional value.
pub open spec fn attr(ts: Seq<TokenModel>, i: int) -> AttrScan {
    if tok(ts, i) == Some(TokenModel::Punct('.')) && tok(ts, i + 1) == Some(TokenModel::Punct('.')) {
        match spread_expr(ts, i + 2) {
            TokensScan::Done(out, end) => AttrScan::Done(AttrModel::Spread(out), end),
            TokensScan::Fail(m, at, end) => AttrScan::Fail(m, at, end),
        }
    } else {
        match tok(ts, i) {
            Some(TokenModel::Group(Delimiter::Parenthesis, name)) => match optional_attr_value(ts, i + 1) {
                ValueScan::Done(v, end) => AttrScan::Done(AttrModel::Dynamic { name, value: v }, end),
                ValueScan::Fail(m, at, end) => AttrScan::Fail(m, at, end),
            },
            Some(TokenModel::Literal(name)) => match optional_attr_value(ts, i + 1) {
                ValueScan::Done(v, end) => AttrScan::Done(AttrModel::Literal { name, value: v }, end),
                ValueScan::Fail(m, at, end) => AttrScan::Fail(m, at, end),
            },
            Some(TokenModel::Punct(':')) => static_attr(ts, i + 1, Some(seq![':'])),
            Some(TokenModel::Punct('@')) => static_attr(ts, i + 1, Some(seq!['@'])),
            Some(TokenModel::Ident(_)) => static_attr(ts, i, None),
            _ => AttrScan::Fail("unexpected token in attributes"@, if 0 <= i < ts.len() { Some(i) } else { None }, i),
        }
    }
}

/// Reads one attribute of an element.
pub fn parse_attr(cursor: &mut Cursor) -> (r: Result<Attr, ParseError>)
    ensures
        final(cursor).tokens() == old(cursor).tokens(),
        match attr(old(cursor).tokens(), old(cursor).pos()) {
            AttrScan::Done(a, end) => r matches Ok(x) && attr_model(x) == a && final(cursor).pos() == end,
            AttrScan::Fail(msg, at, end) => r matches Err(e) && e.message@ == msg && e.at == error_at(at)
                && final(cursor).pos() == end,
        },
{
    let ghost ts = cursor.tokens();
    let ghost i = cursor.pos();
    proof {
        cursor.lemma_bounds();
    }
    if cursor.consume_double_punct('.', '.') {
        return match parse_spread_expr(cursor) {
            Ok(expr) => Ok(Attr::Spread(expr)),
            Err(e) => Err(e),
        };
    }
    if let Some(group) = cursor.consume_group(Delimiter::Parenthesis) {
        let name = group.stream;
        return match parse_optional_attr_value(cursor) {
            Ok(value) => Ok(Attr::Dynamic { name, value }),
            Err(e) => Err(e),
        };
    }
    if let Some(Token::Literal(_)) = cursor.peek() {
        let name = match cursor.next_literal() {
            Ok(name) => name,
            Err(e) => return Err(e),
        };
        return match parse_optional_attr_value(cursor) {
            Ok(value) => Ok(Attr::Literal { name, value }),
            Err(e) => Err(e),
        };
    }
    if cursor.peek_punct(':') || cursor.peek_punct('@') {
        let prefix = match cursor.next() {
            Some(Token::Punct(ch)) => {
                let mut p = String::new();
                push_char(&mut p, ch);
                p
            },
            _ => {
                proof {
                    assert(false);
                }
                String::new()
            },
        };
        let segments = match parse_name_segments(cursor) {
            Ok(segments) => segments,
            Err(e) => return Err(e),
        };
        return match parse_optional_attr_value(cursor) {
            Ok(value) => Ok(Attr::Static { prefix: Some(prefix), segments, value }),
            Err(e) => Err(e),
        };
    }
    if let Some(Token::Ident(_)) = cursor.peek() {
        let segments = match parse_name_segments(cursor) {
            Ok(segments) => segments,
            Err(e) => return Err(e),
        };
        return match parse_optional_attr_value(cursor) {
            Ok(value) => Ok(Attr::Static { prefix: None, segments, value }),
            Err(e) => Err(e),
        };
    }
    Err(cursor.unexpected("unexpected token in attributes"))
}

/// A match arm pattern written with `Self::` before its variant: a pattern
/// that starts with a name other than `Self` or `_` gets it.
pub open spec fn qualified_pattern(p: Seq<TokenModel>) -> Seq<TokenModel> {
    match tok(p, 0) {
        Some(TokenModel::Ident(s)) => if s == "Self"@ || s == "_"@ {
            p
        } else {
            seq![TokenModel::Ident("Self"@), TokenModel::Punct(':'), TokenModel::Punct(':')] + p
        },
        _ => p,
    }
}

/// Puts `Self::` before the variant of a match arm pattern.
pub fn qualify_enum_variant_pattern(pattern: Vec<Token>) -> (r: Vec<Token>)
    ensures
        stream_model(r@) == qualified_pattern(stream_model(pattern@)),
{
    proof {
        lemma_stream_model_all(pattern@);
    }
    let qualify = if pattern.len() > 0 {
        match &pattern[0] {
            Token::Ident(first) => !(crate::html::str_eq(first.as_str(), "Self") || crate::html::str_eq(first.as_str(), "_")),
            _ => false,
        }
    } else {
        false
    };
    if !qualify {
        return pattern;
    }
    let mut out: Vec<Token> = Vec::new();
    let s = Token::Ident(String::from_str("Self"));
    proof {
        lemma_stream_model_push(out@, s);
    }
    out.push(s);
    let c1 = Token::Punct(':');
    proof {
        lemma_stream_model_push(out@, c1);
    }
    out.push(c1);
    let c2 = Token::Punct(':');
    proof {
        lemma_stream_model_push(out@, c2);
    }
    out.push(c2);
    assert(stream_model(out@) =~= seq![TokenModel::Ident("Self"@), TokenModel::Punct(':'), TokenModel::Punct(':')]);
    append_tokens(&mut out, pattern);
    out
}

/// Where the first `=>` at or after `j` starts, if there is one.
pub open spec fn first_arrow(ts: Seq<TokenModel>, j: int) -> Option<int>
    decreases ts.len() - j,
{
    if !(0 <= j < ts.len()) {
        None
    } else if arrow_at(ts, j) {
        Some(j)
    } else {
        first_arrow(ts, j + 1)
    }
}

pub proof fn lemma_first_arrow(ts: Seq<TokenModel>, j: int, k: int)
    requires
        0 <= j <= k,
        no_arrow(ts, j, k),
        arrow_at(ts, k),
    ensures
        first_arrow(ts, j) == Some(k),
    decreases k - j,
{
    if j < k {
        assert(!arrow_at(ts, j));
        lemma_first_arrow(ts, j + 1, k);
    }
}

pub proof fn lemma_no_first_arrow(ts: Seq<TokenModel>, j: int)
    requires
        0 <= j,
        no_arrow(ts, j, ts.len() as int),
    ensures
        first_arrow(ts, j) is None,
    decreases ts.len() - j,
{
    if j < ts.len() {
        assert(!arrow_at(ts, j));
        lemma_no_first_arrow(ts, j + 1);
    }
}

pub proof fn lemma_first_arrow_after(ts: Seq<TokenModel>, j: int)
    requires
        0 <= j,
    ensures
        first_arrow(ts, j) matches Some(k) ==> j <= k && k + 1 < ts.len(),
    decreases ts.len() - j,
{
    if j < ts.len() && !arrow_at(ts, j) {
        lemma_first_arrow_after(ts, j + 1);
    }
}

/// How reading the arms of a component enum ends: each arm's pattern and
/// body, or an error message and where it points.
pub enum ArmsScan {
    Done(Seq<(Seq<TokenModel>, Seq<TokenModel>)>),
    Fail(Seq<char>, Option<int>),
}

/// The arms of a component enum from `j`, after the arms `acc`: each a
/// pattern up to `=>`, with `Self::` put before its variant, then a
/// `{ ... }` body and an optional `,`.
pub open spec fn render_arms(ts: Seq<TokenModel>, j: int, acc: Seq<(Seq<TokenModel>, Seq<TokenModel>)>) -> ArmsScan
    decreases ts.len() - j,
{
    if !(0 <= j < ts.len()) {
        ArmsScan::Done(acc)
    } else {
        proof {
            lemma_first_arrow_after(ts, j);
        }
        match first_arrow(ts, j) {
            None => ArmsScan::Fail("expected `=>` in component enum render arm"@, None),
            Some(k) => {
                let pattern = qualified_pattern(ts.subrange(j, k));
                match tok(ts, k + 2) {
                    Some(TokenModel::Group(Delimiter::Brace, body)) => {
                        let e = if tok(ts, k + 3) == Some(TokenModel::Punct(',')) {
                            k + 4
                        } else {
                            k + 3
                        };
                        render_arms(ts, e, acc.push((pattern, body)))
                    },
                    _ => ArmsScan::Fail(
                        "expected `{ ... }` after enum render arm"@,
                        if k + 2 < ts.len() { Some(k + 2) } else { None },
                    ),
                }
            },
        }
    }
}

/// One arm of a component enum's render body.
#[derive(Debug, PartialEq, Eq)]
pub struct EnumRenderArm {
    pub pattern: Vec<Token>,
    pub body: Vec<Token>,
}

/// The arms of a component enum's render body.
#[derive(Debug, PartialEq, Eq)]
pub struct EnumRenderArms {
    pub arms: Vec<EnumRenderArm>,
}

pub open spec fn arms_model(v: Seq<EnumRenderArm>) -> Seq<(Seq<TokenModel>, Seq<TokenModel>)> {
    v.map_values(|a: EnumRenderArm| (stream_model(a.pattern@), stream_model(a.body@)))
}

impl EnumRenderArms {
    /// Reads the arms of a component enum's render body.
    pub fn parse(input: Vec<Token>) -> (r: Result<Self, ParseError>)
        ensures
            match render_arms(stream_model(input@), 0, Seq::empty()) {
                ArmsScan::Done(arms) => r matches Ok(x) && arms_model(x.arms@) == arms,
                ArmsScan::Fail(msg, at) => r matches Err(e) && e.message@ == msg && e.at == error_at(at),
            },
    {
        let ghost ts = stream_model(input@);
        let mut cursor = Cursor::new(input);
        let mut arms: Vec<EnumRenderArm> = Vec::new();
        assert(arms_model(arms@) =~= Seq::<(Seq<TokenModel>, Seq<TokenModel>)>::empty());
        while !cursor.is_empty()
            invariant
                ts == stream_model(input@),
                cursor.tokens() == ts,
                0 <= cursor.pos() <= ts.len(),
                render_arms(ts, 0, Seq::empty()) == render_arms(ts, cursor.pos(), arms_model(arms@)),
            decreases ts.len() - cursor.pos(),
        {
            let ghost j = cursor.pos();
            let pattern = match cursor.collect_until_arrow() {
                Ok(pattern) => {
                    proof {
                        lemma_first_arrow(ts, j, cursor.pos() - 2);
                    }
                    qualify_enum_variant_pattern(pattern)
                },
                Err(e) => {
                    proof {
                        lemma_no_first_arrow(ts, j);
                        assert(render_arms(ts, j, arms_model(arms@)) == ArmsScan::Fail(
                            "expected `=>` in component enum render arm"@,
                            None,
                        ));
                    }
                    return Err(e);
                },
            };
            let ghost k = cursor.pos() - 2;
            let body = match cursor.consume_group(Delimiter::Brace) {
                Some(body) => body,
                None => {
                    proof {
        cursor.lemma_bounds();
    }
                    proof {
                        lemma_first_arrow_after(ts, j);
                        assert(!(tok(ts, k + 2) matches Some(TokenModel::Group(Delimiter::Brace, _))));
                        assert(render_arms(ts, j, arms_model(arms@)) == ArmsScan::Fail(
                            "expected `{ ... }` after enum render arm"@,
                            if k + 2 < ts.len() { Some(k + 2) } else { None },
                        ));
                    }
                    return Err(cursor.unexpected("expected `{ ... }` after enum render arm"));
                },
            };
            cursor.skip_optional_comma();
            let arm = EnumRenderArm { pattern, body: body.stream };
            proof {
                assert(arms_model(arms@.push(arm)) =~= arms_model(arms@).push(
                    (stream_model(arm.pattern@), stream_model(arm.body@)),
                ));
            }
            arms.push(arm);
        }
        Ok(EnumRenderArms { arms })
    }
}

proof fn lemma_dashed_rest_end(ts: Seq<TokenModel>, j: int, acc: Seq<Seq<char>>)
    requires
        0 <= j <= ts.len(),
    ensures
        dashed_rest(ts, j, acc) matches NameScan::Done(_, e) ==> j <= e <= ts.len(),
    decreases ts.len() - j,
{
    if j + 1 < ts.len() && ts[j] == TokenModel::Punct('-') {
        if let TokenModel::Ident(s) = ts[j + 1] {
            lemma_dashed_rest_end(ts, j + 2, acc.push(s));
        }
    }
}

/// A dashed name read ends after where it starts.
pub proof fn lemma_dashed_name_end(ts: Seq<TokenModel>, i: int)
    requires
        0 <= i,
    ensures
        dashed_name(ts, i) matches NameScan::Done(_, e) ==> i < e <= ts.len(),
{
    if i < ts.len() {
        if let TokenModel::Ident(s) = ts[i] {
            lemma_dashed_rest_end(ts, i + 1, seq![s]);
        }
    }
}

proof fn lemma_expr_rest_end(ts: Seq<TokenModel>, j: int, out: Seq<TokenModel>, simple: bool, can_call: bool)
    requires
        0 <= j <= ts.len(),
    ensures
        expr_rest(ts, j, out, simple, can_call) matches ExprScan::Done(_, _, e) ==> j <= e <= ts.len(),
    decreases ts.len() - j,
{
    if tok(ts, j) == Some(TokenModel::Punct(':')) && tok(ts, j + 1) == Some(TokenModel::Punct(':')) {
        let out2 = out + seq![TokenModel::Punct(':'), TokenModel::Punct(':')];
        if tok(ts, j + 2) == Some(TokenModel::Punct('<')) {
            lemma_angle_args_end(ts, j + 2, 0);
            if let EndScan::Done(end) = angle_args(ts, j + 2, 0) {
                lemma_expr_rest_end(ts, end, out2 + ts.subrange(j + 2, end), simple, true);
            }
        } else if tok(ts, j + 2) matches Some(TokenModel::Ident(_)) {
            lemma_expr_rest_end(ts, j + 3, out2.push(ts[j + 2]), simple, true);
        }
    } else if can_call && (tok(ts, j) matches Some(t) && is_group(t, Delimiter::Parenthesis)) && tok(ts, j + 1)
        == Some(TokenModel::Punct('=')) {
    } else if (can_call && (tok(ts, j) matches Some(t) && is_group(t, Delimiter::Parenthesis))) || (tok(ts, j) matches Some(t)
        && is_group(t, Delimiter::Bracket)) {
        lemma_expr_rest_end(ts, j + 1, out.push(ts[j]), false, false);
    } else if tok(ts, j) == Some(TokenModel::Punct('.')) {
        if tok(ts, j + 1) matches Some(TokenModel::Ident(_)) || tok(ts, j + 1) matches Some(TokenModel::Literal(_)) {
            lemma_expr_rest_end(ts, j + 2, out + seq![TokenModel::Punct('.'), ts[j + 1]], false, true);
        }
    } else if tok(ts, j) == Some(TokenModel::Punct('!')) {
        if tok(ts, j + 1) matches Some(TokenModel::Group(_, _)) {
            lemma_expr_rest_end(ts, j + 2, out + seq![TokenModel::Punct('!')] + flat(ts[j + 1]), false, false);
        }
    }
}

/// An expression read ends after where it starts.
pub proof fn lemma_expr_like_end(ts: Seq<TokenModel>, i: int)
    requires
        0 <= i,
    ensures
        expr_like(ts, i) matches ExprScan::Done(_, _, e) ==> i < e <= ts.len(),
{
    if i < ts.len() {
        match ts[i] {
            TokenModel::Ident(_) => lemma_expr_rest_end(ts, i + 1, seq![ts[i]], true, true),
            TokenModel::Literal(_) => lemma_expr_rest_end(ts, i + 1, seq![ts[i]], false, false),
            TokenModel::Group(_, _) => lemma_expr_rest_end(ts, i + 1, flat(ts[i]), false, false),
            _ => {},
        }
    }
}

/// An attribute read ends after where it starts.
pub proof fn lemma_attr_end(ts: Seq<TokenModel>, i: int)
    requires
        0 <= i,
    ensures
        attr(ts, i) matches AttrScan::Done(_, e) ==> i < e <= ts.len(),
{
    lemma_expr_like_end(ts, i + 2);
    lemma_expr_like_end(ts, i + 1);
    lemma_expr_like_end(ts, i);
    lemma_dashed_name_end(ts, i);
    lemma_dashed_name_end(ts, i + 1);
    if let NameScan::Done(_, e) = dashed_name(ts, i) {
        lemma_expr_like_end(ts, e + 1);
    }
    if let NameScan::Done(_, e) = dashed_name(ts, i + 1) {
        lemma_expr_like_end(ts, e + 1);
    }
    lemma_expr_like_end(ts, i + 2);
}

} // verus!
