//! The parser's cursor over the tokens of a source text.
//!
//! The cursor reads, compares and reports; the grammar that drives it is
//! not part of this module.

use vstd::prelude::*;
use vstd::string::StringExecFns;
use crate::ast::Token;
use crate::source::{Source, Span, SyntaxError, SyntaxErrorView};

verus! {

/// A token and its place in the source.
#[derive(Debug)]
pub struct SpannedToken {
    pub token: Token,
    pub span: Span,
}

/// The diagnostic for a token that the grammar does not allow where it
/// stands.
pub open spec fn unexpected_token_error(span: Span) -> SyntaxErrorView {
    SyntaxErrorView { message: "Unexpected token"@, span, help: None }
}

/// A cursor over the tokens that the lexer found in a source text.
pub struct Parser {
    /// Cached token for peeking.
    current_token: Token,
    /// The tokens of the source, in order.
    tokens: Vec<SpannedToken>,
    /// How many of the tokens have been read.
    position: usize,
    /// The place of the token read last, or the end of the source once the
    /// tokens have run out.
    span: Span,
    /// The length of the source.
    end: usize,
    /// Source code
    source: Source,
}

/// The mathematical content of a [`Parser`].
pub struct ParserView {
    pub current_token: Token,
    pub tokens: Seq<SpannedToken>,
    pub position: nat,
    pub span: Span,
    pub end: usize,
    pub content: Seq<char>,
    pub errors: Seq<SyntaxErrorView>,
}

impl ParserView {
    /// The invariant of a parser: it has not read more tokens than there
    /// are.
    pub open spec fn wf(self) -> bool {
        self.position <= self.tokens.len()
    }

    /// The token that reading yields: the next token, or `Eof` when the
    /// tokens have run out.
    pub open spec fn next_token(self) -> Token {
        if self.position < self.tokens.len() {
            self.tokens[self.position as int].token
        } else {
            Token::Eof
        }
    }

    /// The parser after reading a token.
    pub open spec fn advance(self) -> ParserView {
        if self.position < self.tokens.len() {
            ParserView {
                current_token: self.next_token(),
                position: self.position + 1,
                span: self.tokens[self.position as int].span,
                ..self
            }
        } else {
            ParserView {
                current_token: Token::Eof,
                span: Span { start: self.end, end: self.end },
                ..self
            }
        }
    }

    /// The parser after reporting that the token read last was not
    /// expected.
    pub open spec fn unexpected(self) -> ParserView {
        ParserView { errors: self.errors.push(unexpected_token_error(self.span)), ..self }
    }

    /// The parser after eating a token of the variant of `tok`, if the
    /// current token is one.
    pub open spec fn eat(self, tok: Token) -> ParserView {
        if self.current_token.same_variant(tok) {
            self.advance()
        } else {
            self
        }
    }

    /// The parser after expecting a token of the variant of `tok`.
    pub open spec fn expect(self, tok: Token) -> ParserView {
        if self.current_token.same_variant(tok) {
            self.advance()
        } else {
            self.unexpected()
        }
    }
}

impl View for Parser {
    type V = ParserView;

    closed spec fn view(&self) -> ParserView {
        ParserView {
            current_token: self.current_token,
            tokens: self.tokens@,
            position: self.position as nat,
            span: self.span,
            end: self.end,
            content: self.source.content@,
            errors: self.source.errors@,
        }
    }
}

impl Parser {
    /// A parser over the tokens of `source`, with the first token as the
    /// current one. `end` is the length of the source text.
    pub fn new(source: Source, tokens: Vec<SpannedToken>, end: usize) -> (parser: Self)
        requires
            tokens@.len() > 0,
        ensures
            parser@ == (ParserView {
                current_token: tokens@[0].token,
                tokens: tokens@,
                position: 1,
                span: tokens@[0].span,
                end,
                content: source.content@,
                errors: source.errors@,
            }),
            parser@.wf(),
    {
        let current_token = tokens[0].token.clone();
        let span = tokens[0].span;
        Self { current_token, tokens, position: 1, span, end, source }
    }

    /// The current token.
    pub fn current_token(&self) -> (token: &Token)
        ensures
            *token == self@.current_token,
    {
        &self.current_token
    }

    /// The source, with the diagnostics reported so far.
    pub fn source(&self) -> (source: &Source)
        ensures
            source.content@ == self@.content,
            source.errors@ == self@.errors,
    {
        &self.source
    }

    /// Reads a token and makes it the current one.
    pub fn next(&mut self) -> (token: Token)
        requires
            old(self)@.wf(),
        ensures
            final(self)@ == old(self)@.advance(),
            token == old(self)@.next_token(),
            final(self)@.wf(),
    {
        let token = if self.position < self.tokens.len() {
            let token = self.tokens[self.position].token.clone();
            self.span = self.tokens[self.position].span;
            self.position = self.position + 1;
            token
        } else {
            self.span = Span { start: self.end, end: self.end };
            Token::Eof
        };
        self.current_token = token.clone();
        token
    }

    /// Predicate that tests whether the current token has the same variant
    /// as `tok` and eats it if yes as a side effect.
    #[must_use]
    pub fn eat(&mut self, tok: Token) -> (eaten: bool)
        requires
            old(self)@.wf(),
        ensures
            eaten == old(self)@.current_token.same_variant(tok),
            final(self)@ == old(self)@.eat(tok),
            final(self)@.wf(),
    {
        if self.current_token.is_same_variant(&tok) {
            self.next();  // eat token
            true
        } else {
            false
        }
    }

    /// Eats a token of the variant of `tok`, or reports the current token
    /// as unexpected.
    pub fn expect(&mut self, tok: Token)
        requires
            old(self)@.wf(),
        ensures
            final(self)@ == old(self)@.expect(tok),
            final(self)@.wf(),
    {
        if !self.eat(tok) {
            self.unexpected()
        }
    }

    /// Raises an unexpected token error.
    pub fn unexpected(&mut self)
        ensures
            final(self)@ == old(self)@.unexpected(),
    {
        self.source.errors.add_error(SyntaxError::new(String::from_str("Unexpected token"), self.span))
    }
}

} // verus!
