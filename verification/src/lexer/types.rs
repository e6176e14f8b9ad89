use vstd::prelude::*;

verus! {

/// A token of the source text.
///
/// Texts are owned; a number that is not an integer keeps the text that the
/// lexer recognised as a float, which a caller may read as an `f64`.
#[derive(Clone, Debug)]
pub enum Token {
    Identifier(String),
    Type(String),
    StringStart,
    StringFragment(String),
    ExprStart,
    ExprEnd,
    StringEnd,
    Character(char),
    Integer(i64),
    Float(String),
    Boolean(bool),
    NewLine,
    Comma,
    Period,
    Colon,
    Unknown(char),
    Keyword(String),
    Operation(String),
    // the "fim" block delimeter is a keyword
    BlockDelimeter(char, bool),
}

/// The mathematical value of a [`Token`]: its texts as character sequences.
pub enum SpecToken {
    Identifier(Seq<char>),
    Type(Seq<char>),
    StringStart,
    StringFragment(Seq<char>),
    ExprStart,
    ExprEnd,
    StringEnd,
    Character(char),
    Integer(i64),
    Float(Seq<char>),
    Boolean(bool),
    NewLine,
    Comma,
    Period,
    Colon,
    Unknown(char),
    Keyword(Seq<char>),
    Operation(Seq<char>),
    BlockDelimeter(char, bool),
}

impl View for Token {
    type V = SpecToken;

    open spec fn view(&self) -> SpecToken {
        match self {
            Token::Identifier(s) => SpecToken::Identifier(s@),
            Token::Type(s) => SpecToken::Type(s@),
            Token::StringStart => SpecToken::StringStart,
            Token::StringFragment(s) => SpecToken::StringFragment(s@),
            Token::ExprStart => SpecToken::ExprStart,
            Token::ExprEnd => SpecToken::ExprEnd,
            Token::StringEnd => SpecToken::StringEnd,
            Token::Character(c) => SpecToken::Character(*c),
            Token::Integer(n) => SpecToken::Integer(*n),
            Token::Float(s) => SpecToken::Float(s@),
            Token::Boolean(b) => SpecToken::Boolean(*b),
            Token::NewLine => SpecToken::NewLine,
            Token::Comma => SpecToken::Comma,
            Token::Period => SpecToken::Period,
            Token::Colon => SpecToken::Colon,
            Token::Unknown(c) => SpecToken::Unknown(*c),
            Token::Keyword(s) => SpecToken::Keyword(s@),
            Token::Operation(s) => SpecToken::Operation(s@),
            Token::BlockDelimeter(c, b) => SpecToken::BlockDelimeter(*c, *b),
        }
    }
}

/// The values of a sequence of tokens.
pub open spec fn tokens_view(ts: Seq<Token>) -> Seq<SpecToken> {
    ts.map_values(|t: Token| t@)
}

impl Token {
    /// Whether `token` is this very token.
    pub fn contains_token(&self, token: &Token) -> (r: bool)
        ensures
            r == (self@ == token@),
    {
        match (self, token) {
            (Token::Identifier(a), Token::Identifier(b)) => *a == *b,
            (Token::Type(a), Token::Type(b)) => *a == *b,
            (Token::StringStart, Token::StringStart) => true,
            (Token::StringFragment(a), Token::StringFragment(b)) => *a == *b,
            (Token::ExprStart, Token::ExprStart) => true,
            (Token::ExprEnd, Token::ExprEnd) => true,
            (Token::StringEnd, Token::StringEnd) => true,
            (Token::Character(a), Token::Character(b)) => *a == *b,
            (Token::Integer(a), Token::Integer(b)) => *a == *b,
            (Token::Float(a), Token::Float(b)) => *a == *b,
            (Token::Boolean(a), Token::Boolean(b)) => *a == *b,
            (Token::NewLine, Token::NewLine) => true,
            (Token::Comma, Token::Comma) => true,
            (Token::Period, Token::Period) => true,
            (Token::Colon, Token::Colon) => true,
            (Token::Unknown(a), Token::Unknown(b)) => *a == *b,
            (Token::Keyword(a), Token::Keyword(b)) => *a == *b,
            (Token::Operation(a), Token::Operation(b)) => *a == *b,
            (Token::BlockDelimeter(c, o), Token::BlockDelimeter(d, p)) => *c == *d && *o == *p,
            _ => false,
        }
    }
}

impl PartialEq for Token {
    fn eq(&self, other: &Self) -> (r: bool) {
        self.contains_token(other)
    }
}

impl vstd::std_specs::cmp::PartialEqSpecImpl for Token {
    open spec fn obeys_eq_spec() -> bool {
        true
    }

    open spec fn eq_spec(&self, other: &Self) -> bool {
        self@ == other@
    }
}

} // verus!
