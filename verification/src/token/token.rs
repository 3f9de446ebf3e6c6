use vstd::prelude::*;

verus! {

/// The lexical category of a token.
///
/// Command keywords are recognized only as whole words (`ls`, `cd`, `grep`,
/// `cat`); everything else falls into one of the option, number, literal,
/// symbol or quote categories below.  `Eof` marks the end of the input and is
/// emitted exactly once, as the last token of every scan.
#[derive(Debug, Clone, Copy, PartialEq, Eq, Structural)]
pub enum TokenType {
    // Command keywords
    Ls,
    Cd,
    Grep,
    Cat,
    // Options: `-x` and `--xxx`
    ShortParam,
    LongParam,
    // Digits, with `_` accepted as a group separator
    Num,
    // Any other word: identifiers, path fragments, unrecognized characters
    Literal,
    // Single-character symbols
    Pipe,
    Comma,
    Dot,
    Colon,
    Assignment,
    Semicolon,
    GreaterThan,
    LessThan,
    Slash,
    Star,
    Tilde,
    Background,
    // Two-character symbols: `&&` and `||`
    And,
    Or,
    // Quote markers: `"` and `'`
    Quote,
    SingleQuote,
    // End of input
    Eof,
}

/// Mathematical model of a token: its category and the characters of its
/// literal text.
pub ghost struct Tok {
    pub kind: TokenType,
    pub lit: Seq<char>,
}

/// A token: the smallest lexical unit, a category paired with the literal
/// text it was scanned from.
#[derive(Debug, PartialEq, Eq)]
pub struct Token {
    pub token_type: TokenType,
    pub literal: String,
}

impl View for Token {
    type V = Tok;

    open spec fn view(&self) -> Tok {
        Tok { kind: self.token_type, lit: self.literal@ }
    }
}

impl Clone for Token {
    fn clone(&self) -> (res: Token)
        ensures
            res@ == self@,
    {
        Token { token_type: self.token_type, literal: self.literal.clone() }
    }
}

impl Token {
    /// Build a token from a category and its literal text.
    pub fn new(token_type: TokenType, literal: &str) -> (t: Token)
        ensures
            t@ == (Tok { kind: token_type, lit: literal@ }),
    {
        Token { token_type, literal: literal.to_owned() }
    }

    /// The literal text of the token.
    pub fn literal(&self) -> (r: String)
        ensures
            r@ == self@.lit,
    {
        self.literal.clone()
    }

    /// The category of the token.
    pub fn token_type(&self) -> (r: &TokenType)
        ensures
            *r == self@.kind,
    {
        &self.token_type
    }
}

} // verus!
