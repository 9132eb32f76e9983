//! Tokens produced by the lexer, and their ghost models.
use vstd::prelude::*;

verus! {

/// A token whose textual form is drawn from a closed set of punctuation
/// and keywords, matched by prefix in a fixed priority order.
#[derive(Clone, Copy, Debug, PartialEq, Eq, Structural)]
pub enum FixedToken {
    LeftParenthesis,
    RightParenthesis,
    LeftBrace,
    RightBrace,
    Plus,
    Minus,
    Asterisk,
    ForwardSlash,
    Bang,
    BangEqual,
    Equal,
    EqualEqual,
    Greater,
    GreaterEqual,
    Less,
    LessEqual,
    Comma,
    Dot,
    Semicolon,
    True,
    False,
    Nil,
    Var,
    If,
    Else,
    For,
    While,
    Fun,
    Return,
    Class,
    This,
    Super,
    And,
    Or,
    Print,
    Newline,
}

/// An error found during lexing, recorded inline as a token so that
/// tokenization never aborts.
#[derive(Clone, Copy, Debug, PartialEq, Eq, Structural)]
pub enum LexError {
    /// No token rule matched; the run of non-whitespace characters was
    /// consumed as one error token.
    NoTokenKind,
    /// A numeric-literal span that does not denote a number, such as one
    /// with two dots or with no digits.
    NumericContainsAlpha,
    /// A string literal not closed before the end of the line or input.
    UnclosedString,
}

#[derive(Clone, Debug)]
pub struct Identifier {
    pub name: String,
}

#[derive(Clone, Debug)]
pub struct StringLiteral {
    pub value: String,
}

/// A numeric literal; the value is the IEEE-754 binary64 bit pattern of
/// the number the literal denotes.
#[derive(Clone, Copy, Debug, PartialEq, Eq, Structural)]
pub struct NumericLiteral {
    pub bits: u64,
}

impl NumericLiteral {
    pub fn new(bits: u64) -> (r: NumericLiteral)
        ensures
            r.bits == bits,
    {
        NumericLiteral { bits }
    }
}

#[derive(Clone, Debug)]
pub enum Token {
    FixedToken(FixedToken),
    Identifier(Identifier),
    StringLiteral(StringLiteral),
    NumericLiteral(NumericLiteral),
    Error(LexError),
}

/// The ghost model of a token: text is a sequence of characters.
pub enum TokenM {
    Fixed(FixedToken),
    Ident(Seq<char>),
    StrLit(Seq<char>),
    Num(u64),
    Error(LexError),
}

impl View for Token {
    type V = TokenM;

    open spec fn view(&self) -> TokenM {
        match self {
            Token::FixedToken(t) => TokenM::Fixed(*t),
            Token::Identifier(i) => TokenM::Ident(i.name@),
            Token::StringLiteral(s) => TokenM::StrLit(s.value@),
            Token::NumericLiteral(n) => TokenM::Num(n.bits),
            Token::Error(e) => TokenM::Error(*e),
        }
    }
}

impl DeepView for Token {
    type V = TokenM;

    open spec fn deep_view(&self) -> TokenM {
        self.view()
    }
}

impl Token {
    /// Whether this token records a lexical error.
    pub fn is_error(&self) -> (r: bool)
        ensures
            r == self@ is Error,
    {
        match self {
            Token::Error(_) => true,
            _ => false,
        }
    }
}

pub open spec fn is_newline_token(t: TokenM) -> bool {
    t == TokenM::Fixed(FixedToken::Newline)
}

} // verus!
