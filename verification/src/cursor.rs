use vstd::prelude::*;
use crate::html::str_eq;

verus! {

/// The bracket around a group of tokens; `Invisible` is a group without visible brackets.
#[derive(Clone, Copy, Debug, PartialEq, Eq, Structural)]
pub enum Delimiter {
    Parenthesis,
    Brace,
    Bracket,
    Invisible,
}

/// A delimited group of tokens.
#[derive(Debug, PartialEq, Eq)]
pub struct Group {
    pub delimiter: Delimiter,
    pub stream: Vec<Token>,
}

/// One token tree of the markup DSL, as the parser reads it.
#[derive(Debug, PartialEq, Eq)]
pub enum Token {
    Ident(String),
    Punct(char),
    Literal(String),
    Group(Group),
}

/// The meaning of a token: its text, its character or its contents.
pub enum TokenModel {
    Ident(Seq<char>),
    Punct(char),
    Literal(Seq<char>),
    Group(Delimiter, Seq<TokenModel>),
}

/// A parse error: a message, and the position of the token it points at,
/// or `None` for the whole input.
#[derive(Debug, PartialEq, Eq)]
pub struct ParseError {
    pub message: String,
    pub at: Option<usize>,
}

pub open spec fn token_model(t: Token) -> TokenModel
    decreases t,
{
    match t {
        Token::Ident(s) => TokenModel::Ident(s@),
        Token::Punct(c) => TokenModel::Punct(c),
        Token::Literal(s) => TokenModel::Literal(s@),
        Token::Group(g) => TokenModel::Group(g.delimiter, stream_model(g.stream@)),
    }
}

pub open spec fn stream_model(ts: Seq<Token>) -> Seq<TokenModel>
    decreases ts,
{
    if ts.len() == 0 {
        Seq::empty()
    } else {
        stream_model(ts.drop_last()).push(token_model(ts.last()))
    }
}

pub open spec fn group_model(g: Group) -> TokenModel {
    TokenModel::Group(g.delimiter, stream_model(g.stream@))
}

pub open spec fn opt_model(t: Option<&Token>) -> Option<TokenModel> {
    match t {
        Some(t) => Some(token_model(*t)),
        None => None,
    }
}

pub open spec fn is_punct(t: TokenModel, ch: char) -> bool {
    t == TokenModel::Punct(ch)
}

pub open spec fn is_group(t: TokenModel, d: Delimiter) -> bool {
    t matches TokenModel::Group(e, _) && e == d
}

/// No `ch` among the tokens from `from` up to `to`.
pub open spec fn no_punct(ts: Seq<TokenModel>, from: int, to: int, ch: char) -> bool {
    forall|i: int| from <= i < to ==> #[trigger] ts[i] != TokenModel::Punct(ch)
}

/// No group in `d` among the tokens from `from` up to `to`.
pub open spec fn no_group(ts: Seq<TokenModel>, from: int, to: int, d: Delimiter) -> bool {
    forall|i: int| from <= i < to ==> !is_group(#[trigger] ts[i], d)
}

/// `=>` starts at `i`.
pub open spec fn arrow_at(ts: Seq<TokenModel>, i: int) -> bool {
    0 <= i && i + 1 < ts.len() && ts[i] == TokenModel::Punct('=') && ts[i + 1] == TokenModel::Punct('>')
}

/// No `=>` starts from `from` up to `to`.
pub open spec fn no_arrow(ts: Seq<TokenModel>, from: int, to: int) -> bool {
    forall|i: int| from <= i < to ==> !#[trigger] arrow_at(ts, i)
}

pub proof fn lemma_stream_model_push(ts: Seq<Token>, t: Token)
    ensures
        stream_model(ts.push(t)) == stream_model(ts).push(token_model(t)),
{
    assert(ts.push(t).drop_last() == ts);
}

pub proof fn lemma_stream_model_len(ts: Seq<Token>)
    ensures
        stream_model(ts).len() == ts.len(),
    decreases ts.len(),
{
    if ts.len() > 0 {
        lemma_stream_model_len(ts.drop_last());
    }
}

pub proof fn lemma_stream_model_index(ts: Seq<Token>, i: int)
    requires
        0 <= i < ts.len(),
    ensures
        stream_model(ts).len() == ts.len(),
        stream_model(ts)[i] == token_model(ts[i]),
    decreases ts.len(),
{
    lemma_stream_model_len(ts);
    if i < ts.len() - 1 {
        lemma_stream_model_index(ts.drop_last(), i);
    }
}

/// The meaning of joined streams is the joined meanings.
pub proof fn lemma_stream_model_concat(a: Seq<Token>, b: Seq<Token>)
    ensures
        stream_model(a + b) == stream_model(a) + stream_model(b),
    decreases b.len(),
{
    if b.len() == 0 {
        assert(a + b == a);
        assert(stream_model(a) + Seq::<TokenModel>::empty() == stream_model(a));
    } else {
        lemma_stream_model_concat(a, b.drop_last());
        assert((a + b).drop_last() == a + b.drop_last());
        assert((a + b).last() == b.last());
        assert(stream_model(a) + stream_model(b.drop_last()).push(token_model(b.last()))
            == (stream_model(a) + stream_model(b.drop_last())).push(token_model(b.last())));
    }
}

/// The meaning of a stream, token by token.
pub proof fn lemma_stream_model_all(ts: Seq<Token>)
    ensures
        stream_model(ts).len() == ts.len(),
        forall|i: int| 0 <= i < ts.len() ==> stream_model(ts)[i] == token_model(#[trigger] ts[i]),
{
    lemma_stream_model_len(ts);
    assert forall|i: int| 0 <= i < ts.len() implies stream_model(ts)[i] == token_model(#[trigger] ts[i]) by {
        lemma_stream_model_index(ts, i);
    }
}

impl Token {
    /// A copy of this token, equal to it in meaning.
    #[verifier::loop_isolation(false)]
    pub fn clone_token(&self) -> (r: Token)
        ensures
            token_model(r) == token_model(*self),
        decreases self,
    {
        match self {
            Token::Ident(s) => Token::Ident(s.clone()),
            Token::Punct(c) => Token::Punct(*c),
            Token::Literal(s) => Token::Literal(s.clone()),
            Token::Group(g) => {
                let mut copy: Vec<Token> = Vec::new();
                let mut i: usize = 0;
                while i < g.stream.len()
                    invariant
                        i <= g.stream@.len(),
                        stream_model(copy@) == stream_model(g.stream@.take(i as int)),
                    decreases g.stream@.len() - i,
                {
                    proof {
                        assert(decreases_to!(*self => *g));
                        assert(decreases_to!(*g => g.stream));
                        assert(decreases_to!(g.stream => g.stream@));
                        assert(decreases_to!(g.stream@ => g.stream@[i as int]));
                    }
                    let t = g.stream[i].clone_token();
                    proof {
                        lemma_stream_model_push(copy@, t);
                        assert(g.stream@.take(i + 1) == g.stream@.take(i as int).push(g.stream@[i as int]));
                        lemma_stream_model_push(g.stream@.take(i as int), g.stream@[i as int]);
                    }
                    copy.push(t);
                    i = i + 1;
                }
                assert(g.stream@.take(g.stream@.len() as int) == g.stream@);
                Token::Group(Group { delimiter: g.delimiter, stream: copy })
            },
        }
    }
}

impl Clone for Token {
    fn clone(&self) -> (r: Self)
        ensures
            token_model(r) == token_model(*self),
    {
        self.clone_token()
    }
}

impl Group {
    /// A copy of this group, equal to it in meaning.
    pub fn clone_group(&self) -> (r: Group)
        ensures
            group_model(r) == group_model(*self),
    {
        let t = Token::Group(Group { delimiter: self.delimiter, stream: clone_stream(&self.stream) });
        match t {
            Token::Group(g) => g,
            _ => {
                proof {
                    assert(false);
                }
                Group { delimiter: Delimiter::Invisible, stream: Vec::new() }
            },
        }
    }
}

/// A copy of a token stream, equal to it in meaning.
pub fn clone_stream(tokens: &Vec<Token>) -> (r: Vec<Token>)
    ensures
        stream_model(r@) == stream_model(tokens@),
{
    let mut copy: Vec<Token> = Vec::new();
    let mut i: usize = 0;
    while i < tokens.len()
        invariant
            i <= tokens@.len(),
            stream_model(copy@) == stream_model(tokens@.take(i as int)),
        decreases tokens@.len() - i,
    {
        let t = tokens[i].clone_token();
        proof {
            lemma_stream_model_push(copy@, t);
            assert(tokens@.take(i + 1) == tokens@.take(i as int).push(tokens@[i as int]));
            lemma_stream_model_push(tokens@.take(i as int), tokens@[i as int]);
        }
        copy.push(t);
        i = i + 1;
    }
    assert(tokens@.take(tokens@.len() as int) == tokens@);
    copy
}

/// Reads a token stream front to back.
pub struct Cursor {
    tokens: Vec<Token>,
    pos: usize,
}

impl Cursor {
    #[verifier::type_invariant]
    closed spec fn inv(self) -> bool {
        self.pos <= self.tokens.len()
    }

    /// The tokens read.
    pub closed spec fn tokens(&self) -> Seq<TokenModel> {
        stream_model(self.tokens@)
    }

    /// How many tokens have been read.
    pub closed spec fn pos(&self) -> int {
        if self.pos <= self.tokens@.len() {
            self.pos as int
        } else {
            self.tokens@.len() as int
        }
    }

    /// The position lies within the tokens.
    pub proof fn lemma_bounds(&self)
        ensures
            0 <= self.pos() <= self.tokens().len(),
            self.pos() <= usize::MAX,
    {
        lemma_stream_model_len(self.tokens@);
    }

    /// The token `n` places ahead of the next one, if there is one.
    pub open spec fn at(&self, n: int) -> Option<TokenModel> {
        if 0 <= self.pos() + n < self.tokens().len() {
            Some(self.tokens()[self.pos() + n])
        } else {
            None
        }
    }

    /// The tokens not read yet.
    pub open spec fn rest(&self) -> Seq<TokenModel> {
        self.tokens().subrange(self.pos(), self.tokens().len() as int)
    }

    /// This cursor has read `n` tokens more than `before`, over the same
    /// tokens.
    pub open spec fn advanced(&self, before: Cursor, n: int) -> bool {
        &&& self.tokens() == before.tokens()
        &&& self.pos() == before.pos() + n
        &&& 0 <= self.pos() <= self.tokens().len()
    }

    proof fn lemma_at(&self, n: int)
        requires
            0 <= n,
            0 <= self.pos + n < self.tokens@.len(),
        ensures
            self.at(n) == Some(token_model(self.tokens@[self.pos + n])),
    {
        lemma_stream_model_len(self.tokens@);
        lemma_stream_model_index(self.tokens@, self.pos + n);
    }

    proof fn lemma_no_at(&self, n: int)
        requires
            n >= 0,
            self.pos + n >= self.tokens@.len(),
        ensures
            self.at(n) is None,
    {
        lemma_stream_model_len(self.tokens@);
    }

    /// A cursor at the start of `tokens`.
    pub fn new(tokens: Vec<Token>) -> (c: Cursor)
        ensures
            c.tokens() == stream_model(tokens@),
            c.pos() == 0,
    {
        Cursor { tokens, pos: 0 }
    }

    /// Whether every token has been read.
    pub fn is_empty(&self) -> (b: bool)
        ensures
            b == (self.at(0) is None),
            b == (self.pos() >= self.tokens().len()),
            0 <= self.pos() <= self.tokens().len(),
            self.tokens().len() <= usize::MAX,
    {
        proof {
            use_type_invariant(self);
            lemma_stream_model_len(self.tokens@);
        }
        self.pos >= self.tokens.len()
    }

    /// The next token, left unread.
    pub fn peek(&self) -> (r: Option<&Token>)
        ensures
            opt_model(r) == self.at(0),
    {
        self.peek_n(0)
    }

    /// The token `n` places ahead of the next one, left unread.
    pub fn peek_n(&self, n: usize) -> (r: Option<&Token>)
        ensures
            opt_model(r) == self.at(n as int),
    {
        proof {
            use_type_invariant(self);
        }
        if n < self.tokens.len() - self.pos {
            proof {
                self.lemma_at(n as int);
            }
            Some(&self.tokens[self.pos + n])
        } else {
            proof {
                self.lemma_no_at(n as int);
            }
            None
        }
    }

    /// Reads the next token.
    pub fn next(&mut self) -> (r: Option<Token>)
        ensures
            match old(self).at(0) {
                Some(t) => r matches Some(x) && token_model(x) == t && final(self).advanced(*old(self), 1),
                None => r is None && final(self).advanced(*old(self), 0),
            },
    {
        proof {
            use_type_invariant(&*self);
        }
        if self.pos < self.tokens.len() {
            proof {
                self.lemma_at(0);
            }
            let token = self.tokens[self.pos].clone_token();
            self.pos = self.pos + 1;
            proof {
                lemma_stream_model_len(self.tokens@);
            }
            Some(token)
        } else {
            proof {
                self.lemma_no_at(0);
                lemma_stream_model_len(self.tokens@);
            }
            None
        }
    }

    /// Where an error about the next token points: its position, or the
    /// whole input at the end.
    pub fn span(&self) -> (r: Option<usize>)
        ensures
            match r {
                Some(i) => i == self.pos() && self.at(0) is Some,
                None => self.at(0) is None,
            },
    {
        proof {
            use_type_invariant(self);
            lemma_stream_model_len(self.tokens@);
        }
        if self.pos < self.tokens.len() {
            Some(self.pos)
        } else {
            None
        }
    }

    /// Whether the next token is the identifier `value`.
    pub fn peek_ident(&self, value: &str) -> (b: bool)
        ensures
            b == (self.at(0) == Some(TokenModel::Ident(value@))),
    {
        match self.peek() {
            Some(Token::Ident(ident)) => str_eq(ident.as_str(), value),
            _ => false,
        }
    }

    /// Reads the identifier `value` when it comes next.
    pub fn consume_ident(&mut self, value: &str) -> (r: Option<String>)
        ensures
            old(self).at(0) == Some(TokenModel::Ident(value@)) ==> (r matches Some(s) && s@ == value@
                && final(self).advanced(*old(self), 1)),
            old(self).at(0) != Some(TokenModel::Ident(value@)) ==> r is None && final(self).advanced(
                *old(self),
                0,
            ),
    {
        proof {
            use_type_invariant(&*self);
            lemma_stream_model_len(self.tokens@);
        }
        if self.peek_ident(value) {
            match self.next() {
                Some(Token::Ident(ident)) => Some(ident),
                _ => {
                    proof {
                        assert(false);
                    }
                    None
                },
            }
        } else {
            None
        }
    }

    /// Whether the next token is the punctuation `value`.
    pub fn peek_punct(&self, value: char) -> (b: bool)
        ensures
            b == (self.at(0) == Some(TokenModel::Punct(value))),
    {
        self.peek_punct_n(0, value)
    }

    /// Whether the token `n` places ahead is the punctuation `value`.
    pub fn peek_punct_n(&self, n: usize, value: char) -> (b: bool)
        ensures
            b == (self.at(n as int) == Some(TokenModel::Punct(value))),
    {
        match self.peek_n(n) {
            Some(Token::Punct(ch)) => *ch == value,
            _ => false,
        }
    }

    /// Reads the punctuation `value` when it comes next.
    pub fn consume_punct(&mut self, value: char) -> (r: Option<char>)
        ensures
            old(self).at(0) == Some(TokenModel::Punct(value)) ==> r == Some(value)
                && final(self).advanced(*old(self), 1),
            old(self).at(0) != Some(TokenModel::Punct(value)) ==> r is None && final(self).advanced(
                *old(self),
                0,
            ),
    {
        proof {
            use_type_invariant(&*self);
            lemma_stream_model_len(self.tokens@);
        }
        if self.peek_punct(value) {
            match self.next() {
                Some(Token::Punct(ch)) => Some(ch),
                _ => {
                    proof {
                        assert(false);
                    }
                    None
                },
            }
        } else {
            None
        }
    }

    /// Reads the two punctuation marks `first` and `second` when they come
    /// next.
    pub fn consume_double_punct(&mut self, first: char, second: char) -> (b: bool)
        ensures
            b == (old(self).at(0) == Some(TokenModel::Punct(first)) && old(self).at(1) == Some(
                TokenModel::Punct(second),
            )),
            final(self).advanced(*old(self), if b { 2 } else { 0 }),
    {
        proof {
            use_type_invariant(&*self);
            lemma_stream_model_len(self.tokens@);
        }
        if self.peek_punct(first) && self.peek_punct_n(1, second) {
            self.next();
            self.next();
            true
        } else {
            false
        }
    }

    /// Whether the next token is a group in `delimiter`.
    pub fn peek_group(&self, delimiter: Delimiter) -> (b: bool)
        ensures
            b == (self.at(0) matches Some(t) && is_group(t, delimiter)),
    {
        match self.peek() {
            Some(Token::Group(group)) => group.delimiter == delimiter,
            _ => false,
        }
    }

    /// Reads a group in `delimiter` when it comes next.
    pub fn consume_group(&mut self, delimiter: Delimiter) -> (r: Option<Group>)
        ensures
            (old(self).at(0) matches Some(t) && is_group(t, delimiter)) ==> (r matches Some(g)
                && old(self).at(0) == Some(group_model(g)) && final(self).advanced(*old(self), 1)),
            !(old(self).at(0) matches Some(t) && is_group(t, delimiter)) ==> r is None
                && final(self).advanced(*old(self), 0),
    {
        proof {
            use_type_invariant(&*self);
            lemma_stream_model_len(self.tokens@);
        }
        if self.peek_group(delimiter) {
            match self.next() {
                Some(Token::Group(group)) => Some(group),
                _ => {
                    proof {
                        assert(false);
                    }
                    None
                },
            }
        } else {
            None
        }
    }

    /// Reads an identifier, which must come next.
    pub fn next_ident(&mut self) -> (r: Result<String, ParseError>)
        ensures
            match old(self).at(0) {
                Some(TokenModel::Ident(s)) => r matches Ok(x) && x@ == s,
                Some(_) => r matches Err(e) && e.message@ == "expected identifier"@ && e.at == Some(
                    old(self).pos() as usize,
                ),
                None => r matches Err(e) && e.message@ == "expected identifier"@ && e.at is None,
            },
            final(self).advanced(*old(self), if old(self).at(0) is Some { 1 } else { 0 }),
    {
        proof {
            use_type_invariant(&*self);
            lemma_stream_model_len(self.tokens@);
        }
        let start = self.pos;
        match self.next() {
            Some(Token::Ident(ident)) => Ok(ident),
            Some(_) => Err(ParseError { message: String::from_str("expected identifier"), at: Some(start) }),
            None => Err(ParseError { message: String::from_str("expected identifier"), at: None }),
        }
    }

    /// Reads a literal, which must come next.
    pub fn next_literal(&mut self) -> (r: Result<String, ParseError>)
        ensures
            match old(self).at(0) {
                Some(TokenModel::Literal(s)) => r matches Ok(x) && x@ == s,
                Some(_) => r matches Err(e) && e.message@ == "expected literal"@ && e.at == Some(
                    old(self).pos() as usize,
                ),
                None => r matches Err(e) && e.message@ == "expected literal"@ && e.at is None,
            },
            final(self).advanced(*old(self), if old(self).at(0) is Some { 1 } else { 0 }),
    {
        proof {
            use_type_invariant(&*self);
            lemma_stream_model_len(self.tokens@);
        }
        let start = self.pos;
        match self.next() {
            Some(Token::Literal(lit)) => Ok(lit),
            Some(_) => Err(ParseError { message: String::from_str("expected literal"), at: Some(start) }),
            None => Err(ParseError { message: String::from_str("expected literal"), at: None }),
        }
    }

    /// Reads up to and including the next `;`, and gives back the tokens
    /// before it.
    pub fn collect_until_semicolon(&mut self) -> (r: Result<Vec<Token>, ParseError>)
        ensures
            final(self).tokens() == old(self).tokens(),
            match r {
                Ok(out) => {
                    &&& old(self).pos() < final(self).pos() <= old(self).tokens().len()
                    &&& old(self).tokens()[final(self).pos() - 1] == TokenModel::Punct(';')
                    &&& no_punct(old(self).tokens(), old(self).pos(), final(self).pos() - 1, ';')
                    &&& stream_model(out@) == old(self).tokens().subrange(old(self).pos(), final(self).pos() - 1)
                },
                Err(e) => {
                    &&& final(self).pos() == old(self).tokens().len()
                    &&& no_punct(old(self).tokens(), old(self).pos(), old(self).tokens().len() as int, ';')
                    &&& e.message@ == "expected `;` before end of markup input"@
                    &&& e.at is None
                },
            },
    {
        proof {
            use_type_invariant(&*self);
            lemma_stream_model_len(self.tokens@);
        }
        let ghost before = self.tokens();
        let ghost start = self.pos();
        let mut out: Vec<Token> = Vec::new();
        loop
            invariant
                before == old(self).tokens(),
                start == old(self).pos(),
                self.tokens() == before,
                start <= self.pos() <= before.len(),
                no_punct(before, start, self.pos(), ';'),
                stream_model(out@) == before.subrange(start, self.pos()),
            decreases before.len() - self.pos(),
        {
            let ghost here = self.pos();
            match self.next() {
                Some(token) => {
                    if let Token::Punct(';') = token {
                        return Ok(out);
                    }
                    proof {
                        assert(here < before.len());
                        assert(token_model(token) == before[here]);
                        lemma_stream_model_push(out@, token);
                        assert(before.subrange(start, here + 1) == before.subrange(start, here).push(before[here]));
                    }
                    out.push(token);
                },
                None => {
                    return Err(ParseError {
                        message: String::from_str("expected `;` before end of markup input"),
                        at: None,
                    });
                },
            }
        }
    }

    /// Reads up to and including the next `{ ... }` group, and gives back
    /// the tokens before it and the group.
    pub fn collect_until_brace_group(&mut self) -> (r: Result<(Vec<Token>, Group), ParseError>)
        ensures
            final(self).tokens() == old(self).tokens(),
            match r {
                Ok((out, group)) => {
                    &&& old(self).pos() < final(self).pos() <= old(self).tokens().len()
                    &&& old(self).tokens()[final(self).pos() - 1] == group_model(group)
                    &&& group.delimiter == Delimiter::Brace
                    &&& no_group(old(self).tokens(), old(self).pos(), final(self).pos() - 1, Delimiter::Brace)
                    &&& stream_model(out@) == old(self).tokens().subrange(old(self).pos(), final(self).pos() - 1)
                },
                Err(e) => {
                    &&& final(self).pos() == old(self).tokens().len()
                    &&& no_group(old(self).tokens(), old(self).pos(), old(self).tokens().len() as int, Delimiter::Brace)
                    &&& e.message@ == "expected `{ ... }` before end of markup input"@
                    &&& e.at is None
                },
            },
    {
        proof {
            use_type_invariant(&*self);
            lemma_stream_model_len(self.tokens@);
        }
        let ghost before = self.tokens();
        let ghost start = self.pos();
        let mut out: Vec<Token> = Vec::new();
        loop
            invariant
                before == old(self).tokens(),
                start == old(self).pos(),
                self.tokens() == before,
                start <= self.pos() <= before.len(),
                no_group(before, start, self.pos(), Delimiter::Brace),
                stream_model(out@) == before.subrange(start, self.pos()),
            decreases before.len() - self.pos(),
        {
            let ghost here = self.pos();
            match self.next() {
                Some(Token::Group(group)) if group.delimiter == Delimiter::Brace => {
                    return Ok((out, group));
                },
                Some(token) => {
                    proof {
                        assert(here < before.len());
                        assert(token_model(token) == before[here]);
                        lemma_stream_model_push(out@, token);
                        assert(before.subrange(start, here + 1) == before.subrange(start, here).push(before[here]));
                    }
                    out.push(token);
                },
                None => {
                    return Err(ParseError {
                        message: String::from_str("expected `{ ... }` before end of markup input"),
                        at: None,
                    });
                },
            }
        }
    }

    /// Reads up to and including the next `=>`, and gives back the tokens
    /// before it.
    pub fn collect_until_arrow(&mut self) -> (r: Result<Vec<Token>, ParseError>)
        ensures
            final(self).tokens() == old(self).tokens(),
            match r {
                Ok(out) => {
                    &&& old(self).pos() + 2 <= final(self).pos() <= old(self).tokens().len()
                    &&& arrow_at(old(self).tokens(), final(self).pos() - 2)
                    &&& no_arrow(old(self).tokens(), old(self).pos(), final(self).pos() - 2)
                    &&& stream_model(out@) == old(self).tokens().subrange(old(self).pos(), final(self).pos() - 2)
                },
                Err(e) => {
                    &&& final(self).pos() == old(self).tokens().len()
                    &&& no_arrow(old(self).tokens(), old(self).pos(), old(self).tokens().len() as int)
                    &&& e.message@ == "expected `=>` in component enum render arm"@
                    &&& e.at is None
                },
            },
    {
        proof {
            use_type_invariant(&*self);
            lemma_stream_model_len(self.tokens@);
        }
        let ghost before = self.tokens();
        let ghost start = self.pos();
        let mut out: Vec<Token> = Vec::new();
        while !self.is_empty()
            invariant
                before == old(self).tokens(),
                start == old(self).pos(),
                self.tokens() == before,
                start <= self.pos() <= before.len(),
                no_arrow(before, start, self.pos()),
                stream_model(out@) == before.subrange(start, self.pos()),
            decreases before.len() - self.pos(),
        {
            let ghost here = self.pos();
            if self.consume_double_punct('=', '>') {
                return Ok(out);
            }
            if let Some(token) = self.next() {
                proof {
                    assert(here < before.len());
                    assert(token_model(token) == before[here]);
                    lemma_stream_model_push(out@, token);
                    assert(before.subrange(start, here + 1) == before.subrange(start, here).push(before[here]));
                }
                out.push(token);
            }
        }
        Err(ParseError { message: String::from_str("expected `=>` in component enum render arm"), at: None })
    }

    /// Skips a `,` when it comes next.
    pub fn skip_optional_comma(&mut self)
        ensures
            final(self).advanced(
                *old(self),
                if old(self).at(0) == Some(TokenModel::Punct(',')) { 1 } else { 0 },
            ),
    {
        proof {
            use_type_invariant(&*self);
            lemma_stream_model_len(self.tokens@);
        }
        let _ = self.consume_punct(',');
    }

    /// An error with `message` about the next token.
    pub fn unexpected(&self, message: &str) -> (e: ParseError)
        ensures
            e.message@ == message@,
            e.at == (if self.at(0) is Some { Some(self.pos() as usize) } else { None }),
    {
        ParseError { message: String::from_str(message), at: self.span() }
    }
}

impl Clone for Cursor {
    fn clone(&self) -> (r: Self)
        ensures
            r.tokens() == self.tokens(),
            r.pos() == self.pos(),
    {
        proof {
            use_type_invariant(self);
        }
        let tokens = clone_stream(&self.tokens);
        proof {
            lemma_stream_model_len(tokens@);
            lemma_stream_model_len(self.tokens@);
        }
        Cursor { tokens, pos: self.pos }
    }
}

/// A group as tokens: the group itself, or its contents when it is
/// invisible.
pub fn token_stream_from_group(group: &Group) -> (r: Vec<Token>)
    ensures
        stream_model(r@) == (match group.delimiter {
            Delimiter::Invisible => stream_model(group.stream@),
            _ => seq![group_model(*group)],
        }),
{
    match group.delimiter {
        Delimiter::Invisible => clone_stream(&group.stream),
        _ => {
            let mut out: Vec<Token> = Vec::new();
            let g = group.clone_group();
            let t = Token::Group(g);
            proof {
                lemma_stream_model_push(out@, t);
                assert(Seq::<TokenModel>::empty().push(group_model(*group)) == seq![group_model(*group)]);
            }
            out.push(t);
            out
        },
    }
}

} // verus!
