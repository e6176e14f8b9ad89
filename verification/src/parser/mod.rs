//! Statements and expressions from tokens.
pub mod laws;
pub mod ops;
pub mod rules;
pub mod show;
pub mod spec;
pub mod types;

use vstd::prelude::*;

use crate::lexer::types::{tokens_view, Token};
pub use rules::ParseError;

use spec::{lemma_parse_stmts_maximal, parse_stmts, stmt, ws0, PRes};
pub use types::{stmts_view, BinOp, Expr, Stmt, StringPart, UnaryOp, Value};

verus! {

/// The parser's state. The grammar needs none yet.
#[derive(Debug)]
pub struct State {}

impl Default for State {
    fn default() -> (s: Self) {
        State {}
    }
}

/// Tokens being parsed, and the position reached.
pub struct Stream {
    pub tokens: Vec<Token>,
    pub pos: usize,
}

impl Stream {
    /// Whether no token is left.
    pub fn is_empty(&self) -> (r: bool)
        ensures
            r == (self.pos >= self.tokens@.len()),
    {
        self.pos >= self.tokens.len()
    }
}

/// A copy of a token.
pub fn copy_token(t: &Token) -> (r: Token)
    ensures
        r@ == t@,
{
    match t {
        Token::Identifier(s) => Token::Identifier(s.clone()),
        Token::Type(s) => Token::Type(s.clone()),
        Token::StringStart => Token::StringStart,
        Token::StringFragment(s) => Token::StringFragment(s.clone()),
        Token::ExprStart => Token::ExprStart,
        Token::ExprEnd => Token::ExprEnd,
        Token::StringEnd => Token::StringEnd,
        Token::Character(c) => Token::Character(*c),
        Token::Integer(n) => Token::Integer(*n),
        Token::Float(s) => Token::Float(s.clone()),
        Token::Boolean(b) => Token::Boolean(*b),
        Token::NewLine => Token::NewLine,
        Token::Comma => Token::Comma,
        Token::Period => Token::Period,
        Token::Colon => Token::Colon,
        Token::Unknown(c) => Token::Unknown(*c),
        Token::Keyword(s) => Token::Keyword(s.clone()),
        Token::Operation(s) => Token::Operation(s.clone()),
        Token::BlockDelimeter(c, b) => Token::BlockDelimeter(*c, *b),
    }
}

/// A stream at the start of the tokens.
pub fn new_stream(input: &[Token]) -> (st: Stream)
    ensures
        tokens_view(st.tokens@) == tokens_view(input@),
        st.pos == 0,
{
    let mut tokens: Vec<Token> = Vec::new();
    let mut i: usize = 0;
    while i < input.len()
        invariant
            i <= input@.len(),
            tokens@.len() == i,
            forall|j: int| 0 <= j < i ==> (#[trigger] tokens@[j])@ == input@[j]@,
        decreases input@.len() - i,
    {
        tokens.push(copy_token(&input[i]));
        i = i + 1;
    }
    assert(tokens_view(tokens@) =~= tokens_view(input@));
    Stream { tokens, pos: 0 }
}

/// Reads statements from the stream's position for as long as one can be
/// read: the statements of `parse_stmts`, with the stream moved past them, or
/// the position where the input is malformed. It never backtracks.
pub fn parse(input: &mut Stream) -> (r: Result<Vec<Stmt>, ParseError>)
    requires
        old(input).pos <= old(input).tokens@.len(),
    ensures
        final(input).tokens == old(input).tokens,
        match parse_stmts(tokens_view(old(input).tokens@), old(input).pos as int) {
            PRes::Parsed(ss, n) => r matches Ok(v) && stmts_view(v@) == ss && final(input).pos
                == old(input).pos + n,
            PRes::Cut(c) => r matches Err(ParseError::Cut(c2)) && c2 == c && final(input).pos
                == old(input).pos,
            PRes::Back => false,
        },
        r is Ok ==> stmt(tokens_view(final(input).tokens@), ws0(
            tokens_view(final(input).tokens@),
            final(input).pos as int,
        )) is Back,
{
    match rules::parse_stmts(&input.tokens, input.pos) {
        Ok((v, n)) => {
            proof {
                lemma_parse_stmts_maximal(tokens_view(input.tokens@), input.pos as int);
            }
            input.pos = input.pos + n;
            Ok(v)
        },
        Err(e) => Err(e),
    }
}

} // verus!
