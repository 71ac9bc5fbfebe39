use vstd::prelude::*;

verus! {

/// The payload a token carries besides its raw text.
#[derive(Debug, PartialEq, Eq)]
pub enum WTSType {
    /// The text between the quotes of a quoted string.
    String(String),
    NONE,
}

/// The kinds of token the scanner produces.
#[derive(Debug, Clone, Copy, PartialEq, Eq, Structural)]
pub enum TokenType {
    LeftParen,
    RightParen,
    Semicolon,
    Pound,
    ShortFlag,
    LongFlag,
    RedirLeft,
    RedirRight,
    DoubleRedirRight,
    DoubleRedirLeft,
    Pipe,
    Word,
    String,
    EOF,
}

/// One token: its kind, its literal payload, the raw text and the line it ends on.
#[derive(Debug)]
pub struct Token {
    pub t_type: TokenType,
    pub literal: WTSType,
    pub lexeme: String,
    pub line: usize,
}

/// What a token is, with its strings seen as character sequences.
pub struct TokenV {
    pub t_type: TokenType,
    pub literal: Option<Seq<char>>,
    pub lexeme: Seq<char>,
    pub line: nat,
}

impl WTSType {
    pub open spec fn view(&self) -> Option<Seq<char>> {
        match self {
            WTSType::String(s) => Some(s@),
            WTSType::NONE => None,
        }
    }
}

impl Token {
    pub open spec fn view(&self) -> TokenV {
        TokenV {
            t_type: self.t_type,
            literal: self.literal.view(),
            lexeme: self.lexeme@,
            line: self.line as nat,
        }
    }

    pub fn new(t_type: TokenType, literal: WTSType, lexeme: String, line: usize) -> (r: Self)
        ensures
            r.t_type == t_type,
            r.literal == literal,
            r.lexeme == lexeme,
            r.line == line,
    {
        Token { t_type, literal, lexeme, line }
    }
}

} // verus!
