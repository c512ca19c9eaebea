//! Tokens: the kind of a lexeme and its text.
use vstd::prelude::*;

verus! {

/// The kind of a token.
#[derive(Debug, PartialEq, Eq, Clone, Copy, Structural)]
pub enum TokenType {
    /// `+`
    Plus,
    /// `-`
    Minus,
    /// `*`
    Star,
    /// `/`
    Slash,
    /// `>=`
    GE,
    /// `>`
    GT,
    /// `==`
    EQ,
    /// `<=`
    LE,
    /// `<`
    LT,
    /// `;`
    SemiColon,
    /// `(`
    LeftParen,
    /// `)`
    RightParen,
    /// `=`
    Assignment,
    /// The keyword `if`.
    If,
    /// The keyword `else`.
    Else,
    /// The keyword `int`.
    Int,
    /// A name.
    Identifier,
    /// A run of decimal digits.
    IntLiteral,
    /// A quoted string.
    StringLiteral,
}

/// What a token is to the specifications: its kind, if it has one yet, and
/// the characters of its lexeme.
pub struct TokenView {
    pub kind: Option<TokenType>,
    pub text: Seq<char>,
}

/// A token as the parser reads it.
pub trait Token: View<V = TokenView> {
    /// The kind of the token. A token that has not been given a kind has none
    /// to return.
    fn get_type(&self) -> (kind: TokenType)
        requires
            self@.kind is Some,
        ensures
            self@.kind == Some(kind),
    ;

    /// The text of the token.
    fn get_text(&self) -> (text: &str)
        ensures
            text@ == self@.text,
    ;
}

/// A token that owns its text.
pub struct SimpleToken {
    token_type: Option<TokenType>,
    text: String,
}

impl View for SimpleToken {
    type V = TokenView;

    closed spec fn view(&self) -> TokenView {
        TokenView { kind: self.token_type, text: self.text@ }
    }
}

impl SimpleToken {
    /// A token with no kind and no text.
    pub fn new() -> (token: Self)
        ensures
            token@ == (TokenView { kind: None, text: Seq::empty() }),
    {
        SimpleToken { token_type: None, text: String::new() }
    }

    /// A token of kind `tt` with the text `txt`.
    pub fn new2(tt: TokenType, txt: String) -> (token: Self)
        ensures
            token@ == (TokenView { kind: Some(tt), text: txt@ }),
    {
        SimpleToken { token_type: Some(tt), text: txt }
    }
}

impl Token for SimpleToken {
    fn get_type(&self) -> (kind: TokenType) {
        self.token_type.unwrap()
    }

    fn get_text(&self) -> (text: &str) {
        self.text.as_str()
    }
}

} // verus!
