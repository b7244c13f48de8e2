//! Tokens, and the cursor by which the parser reads them.
//!
//! The tokens are those of the source text after layout has been made
//! explicit: blocks stand in braces and their items are parted by semicolons.
use crate::module::{seq_view, Location};
use vstd::prelude::*;

verus! {

/// The kinds of tokens.
#[derive(Clone, Copy, Debug, PartialEq, Eq, Structural)]
pub enum TokenEnum {
    EOF,
    NAME,
    OPERATOR,
    NUMBER,
    FLOAT,
    STRING,
    CHAR,
    LPARENS,
    RPARENS,
    LBRACKET,
    RBRACKET,
    LBRACE,
    RBRACE,
    COMMA,
    EQUALSSIGN,
    SEMICOLON,
    MODULE,
    CLASS,
    INSTANCE,
    WHERE,
    LET,
    IN,
    CASE,
    OF,
    ARROW,
    TYPEDECL,
    DATA,
}

/// A token: its kind, its text, and its place. A token of the kind `FLOAT`
/// carries in `bits` the binary64 representation of the number that its text
/// denotes.
#[derive(Debug)]
pub struct Token {
    pub token: TokenEnum,
    pub value: String,
    pub location: Location,
    pub bits: u64,
}

pub struct TokenModel {
    pub token: TokenEnum,
    pub value: Seq<char>,
    pub location: Location,
    pub bits: u64,
}

impl View for Token {
    type V = TokenModel;

    open spec fn view(&self) -> TokenModel {
        TokenModel {
            token: self.token,
            value: self.value@,
            location: self.location,
            bits: self.bits,
        }
    }
}

impl Clone for Token {
    fn clone(&self) -> (res: Token)
        ensures
            res@ == self@,
    {
        Token {
            token: self.token,
            value: self.value.clone(),
            location: self.location,
            bits: self.bits,
        }
    }
}

/// The token that stands for the end of the text.
pub open spec fn eof_token() -> TokenModel {
    TokenModel {
        token: TokenEnum::EOF,
        value: Seq::empty(),
        location: Location { column: -1i64, row: -1i64, absolute: -1i64 },
        bits: 0,
    }
}

/// The token that was read last when `position` tokens have been read: the
/// end of the text where none has been read yet, or more than there are.
pub open spec fn token_at(tokens: Seq<TokenModel>, position: nat) -> TokenModel {
    if 1 <= position <= tokens.len() {
        tokens[position - 1]
    } else {
        eof_token()
    }
}

/// The position after one more token has been read. Behind the last token
/// the end of the text is read once, and then again and again.
pub open spec fn advance(tokens: Seq<TokenModel>, position: nat) -> nat {
    if position <= tokens.len() && position < usize::MAX {
        position + 1
    } else {
        position
    }
}

/// The position after the token that was read last has been given back.
pub open spec fn retreat(position: nat) -> nat {
    if position > 0 {
        (position - 1) as nat
    } else {
        0
    }
}

/// The tokens of a text and the number of them that have been read.
#[derive(Debug)]
pub struct Lexer {
    pub tokens: Vec<Token>,
    pub position: usize,
}

impl Lexer {
    /// A cursor before the first of `tokens`.
    pub fn new(tokens: Vec<Token>) -> (res: Lexer)
        ensures
            res.tokens == tokens,
            res.position == 0,
    {
        Lexer { tokens, position: 0 }
    }

    /// The tokens as the contracts speak of them.
    pub open spec fn model(&self) -> Seq<TokenModel> {
        seq_view(self.tokens@)
    }

    /// The kind of the token that was read last.
    pub fn kind(&self) -> (res: TokenEnum)
        ensures
            res == token_at(self.model(), self.position as nat).token,
    {
        if 1 <= self.position && self.position <= self.tokens.len() {
            self.tokens[self.position - 1].token
        } else {
            TokenEnum::EOF
        }
    }

    /// The token that was read last.
    pub fn current(&self) -> (res: Token)
        ensures
            res@ == token_at(self.model(), self.position as nat),
    {
        if 1 <= self.position && self.position <= self.tokens.len() {
            self.tokens[self.position - 1].clone()
        } else {
            Token { token: TokenEnum::EOF, value: String::new(), location: Location::eof(), bits: 0 }
        }
    }

    /// The text of the token that was read last.
    pub fn value(&self) -> (res: String)
        ensures
            res@ == token_at(self.model(), self.position as nat).value,
    {
        if 1 <= self.position && self.position <= self.tokens.len() {
            self.tokens[self.position - 1].value.clone()
        } else {
            String::new()
        }
    }

    /// The place of the token that was read last.
    pub fn location(&self) -> (res: Location)
        ensures
            res == token_at(self.model(), self.position as nat).location,
    {
        if 1 <= self.position && self.position <= self.tokens.len() {
            self.tokens[self.position - 1].location
        } else {
            Location::eof()
        }
    }

    /// The kind of the token that would be read next.
    pub fn peek(&self) -> (res: TokenEnum)
        ensures
            res == token_at(self.model(), advance(self.model(), self.position as nat)).token,
    {
        if self.position < self.tokens.len() {
            self.tokens[self.position].token
        } else if self.position == self.tokens.len() && self.position < usize::MAX {
            TokenEnum::EOF
        } else {
            self.kind()
        }
    }

    /// Reads the next token and returns its kind.
    pub fn next_(&mut self) -> (res: TokenEnum)
        ensures
            final(self).tokens == old(self).tokens,
            final(self).position as nat == advance(old(self).model(), old(self).position as nat),
            res == token_at(final(self).model(), final(self).position as nat).token,
    {
        if self.position <= self.tokens.len() && self.position < usize::MAX {
            self.position = self.position + 1;
        }
        self.kind()
    }

    /// Gives the token that was read last back, to be read again.
    pub fn backtrack(&mut self)
        ensures
            final(self).tokens == old(self).tokens,
            final(self).position as nat == retreat(old(self).position as nat),
    {
        if self.position > 0 {
            self.position = self.position - 1;
        }
    }
}

} // verus!
