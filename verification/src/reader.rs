//! Token streams: a cursor over a sequence of tokens that can be moved back.
use vstd::prelude::*;
use crate::token::{SimpleToken, Token, TokenView};

verus! {

/// A sequence of tokens with a position in it.
///
/// `tokens` never changes; `position` is the index of the next token to be
/// read. The methods keep `position <= tokens.len()` and ask for it;
/// [`in_bounds`] is that condition.
pub trait TokenReader {
    /// The type of the tokens held.
    type Item: Token;

    /// The tokens of the stream, read or not.
    spec fn tokens(&self) -> Seq<TokenView>;

    /// The index of the next token to be read.
    spec fn position(&self) -> nat;

    /// Returns the next token and steps over it, or returns `None` at the end
    /// of the stream and stays.
    fn read(&mut self) -> (token: Option<&Self::Item>)
        requires
            old(self).position() <= old(self).tokens().len(),
        ensures
            final(self).position() <= final(self).tokens().len(),
            final(self).tokens() == old(self).tokens(),
            old(self).position() < old(self).tokens().len() ==> {
                &&& token matches Some(t)
                &&& t@ == old(self).tokens()[old(self).position() as int]
                &&& final(self).position() == old(self).position() + 1
            },
            old(self).position() == old(self).tokens().len() ==> {
                &&& token is None
                &&& final(self).position() == old(self).position()
            },
    ;

    /// Returns the next token without stepping over it, or `None` at the end
    /// of the stream.
    fn peek(&self) -> (token: Option<&Self::Item>)
        requires
            self.position() <= self.tokens().len(),
        ensures
            self.position() < self.tokens().len() ==> {
                &&& token matches Some(t)
                &&& t@ == self.tokens()[self.position() as int]
            },
            self.position() == self.tokens().len() ==> token is None,
    ;

    /// Steps back over one token; at the start of the stream it stays.
    fn unread(&mut self)
        requires
            old(self).position() <= old(self).tokens().len(),
        ensures
            final(self).position() <= final(self).tokens().len(),
            final(self).tokens() == old(self).tokens(),
            final(self).position() == if old(self).position() > 0 {
                old(self).position() - 1
            } else {
                0
            },
    ;

    /// The index of the next token to be read.
    fn get_position(&self) -> (position: usize)
        requires
            self.position() <= self.tokens().len(),
        ensures
            position == self.position(),
    ;

    /// Moves to `position` if a token stands there; otherwise stays. The end
    /// of the stream is no such position.
    fn set_position(&mut self, position: usize)
        requires
            old(self).position() <= old(self).tokens().len(),
        ensures
            final(self).position() <= final(self).tokens().len(),
            final(self).tokens() == old(self).tokens(),
            final(self).position() == if position < old(self).tokens().len() {
                position as nat
            } else {
                old(self).position()
            },
    ;
}

/// The position of a stream lies within its tokens or just behind them.
pub open spec fn in_bounds<R: TokenReader + ?Sized>(reader: &R) -> bool {
    reader.position() <= reader.tokens().len()
}

/// The views of tokens, in order.
pub open spec fn token_views(tokens: Seq<SimpleToken>) -> Seq<TokenView> {
    tokens.map_values(|t: SimpleToken| t@)
}

/// A token stream over a vector of tokens.
pub struct SimpleTokenReader {
    tokens: Vec<SimpleToken>,
    pos: usize,
}

impl SimpleTokenReader {
    /// A stream over `tokens`, positioned at the first of them.
    pub fn new(tokens: Vec<SimpleToken>) -> (reader: SimpleTokenReader)
        ensures
            reader.tokens() == token_views(tokens@),
            reader.position() == 0,
    {
        SimpleTokenReader { tokens, pos: 0 }
    }
}

impl TokenReader for SimpleTokenReader {
    type Item = SimpleToken;

    closed spec fn tokens(&self) -> Seq<TokenView> {
        token_views(self.tokens@)
    }

    closed spec fn position(&self) -> nat {
        self.pos as nat
    }

    fn read(&mut self) -> (token: Option<&SimpleToken>) {
        if self.pos < self.tokens.len() {
            self.pos += 1;
            Some(&self.tokens[self.pos - 1])
        } else {
            None
        }
    }

    fn peek(&self) -> (token: Option<&SimpleToken>) {
        if self.pos < self.tokens.len() {
            Some(&self.tokens[self.pos])
        } else {
            None
        }
    }

    fn unread(&mut self) {
        if self.pos > 0 {
            self.pos -= 1;
        }
    }

    fn get_position(&self) -> (position: usize) {
        self.pos
    }

    fn set_position(&mut self, position: usize) {
        if position < self.tokens.len() {
            self.pos = position;
        }
    }
}

} // verus!
