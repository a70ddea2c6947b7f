//! Tokens, and the cursor through which the parser consumes them.

use vstd::prelude::*;
use crate::scalar::Scalar;

verus! {

/// One lexical unit of an expression.
#[derive(Debug, PartialEq)]
pub enum Token {
    Plus,
    Minus,
    Star,
    Slash,
    Caret,
    LParen,
    RParen,
    Comma,
    Sin,
    Number(Scalar),
    Ident(String),
    EOF,
}

/// A [`Token`] as contracts see it: an identifier is its characters.
pub enum TokenView {
    Plus,
    Minus,
    Star,
    Slash,
    Caret,
    LParen,
    RParen,
    Comma,
    Sin,
    Number(Scalar),
    Ident(Seq<char>),
    EOF,
}

impl View for Token {
    type V = TokenView;

    open spec fn view(&self) -> TokenView {
        match *self {
            Token::Plus => TokenView::Plus,
            Token::Minus => TokenView::Minus,
            Token::Star => TokenView::Star,
            Token::Slash => TokenView::Slash,
            Token::Caret => TokenView::Caret,
            Token::LParen => TokenView::LParen,
            Token::RParen => TokenView::RParen,
            Token::Comma => TokenView::Comma,
            Token::Sin => TokenView::Sin,
            Token::Number(value) => TokenView::Number(value),
            Token::Ident(name) => TokenView::Ident(name@),
            Token::EOF => TokenView::EOF,
        }
    }
}

/// The views of a sequence of tokens, in order.
pub open spec fn token_views(tokens: Seq<Token>) -> Seq<TokenView> {
    tokens.map_values(|t: Token| t@)
}

impl Token {
    /// A token equal to this one.
    pub fn duplicate(&self) -> (r: Token)
        ensures
            r == *self,
    {
        match self {
            Token::Plus => Token::Plus,
            Token::Minus => Token::Minus,
            Token::Star => Token::Star,
            Token::Slash => Token::Slash,
            Token::Caret => Token::Caret,
            Token::LParen => Token::LParen,
            Token::RParen => Token::RParen,
            Token::Comma => Token::Comma,
            Token::Sin => Token::Sin,
            Token::Number(value) => Token::Number(*value),
            Token::Ident(name) => Token::Ident(name.clone()),
            Token::EOF => Token::EOF,
        }
    }
}

/// A single-pass cursor over tokens: the next one can be looked at, and
/// taken.
pub struct TokenIter {
    tokens: Vec<Token>,
    pos: usize,
}

impl View for TokenIter {
    type V = Seq<TokenView>;

    /// The tokens not yet taken.
    closed spec fn view(&self) -> Seq<TokenView> {
        token_views(self.tokens@.skip(self.pos as int))
    }
}

impl TokenIter {
    #[verifier::type_invariant]
    spec fn inv(self) -> bool {
        self.pos <= self.tokens.len()
    }

    /// A cursor in front of the first of `tokens`.
    pub fn new(tokens: Vec<Token>) -> (r: TokenIter)
        ensures
            r@ == token_views(tokens@),
    {
        assert(tokens@.skip(0) == tokens@);
        TokenIter { tokens, pos: 0 }
    }

    /// The next token, if there is one. Nothing is taken.
    pub fn peek(&self) -> (r: Option<&Token>)
        ensures
            match r {
                Some(token) => self@.len() > 0 && token@ == self@[0],
                None => self@.len() == 0,
            },
    {
        proof {
            use_type_invariant(self);
        }
        if self.pos < self.tokens.len() {
            Some(&self.tokens[self.pos])
        } else {
            None
        }
    }

    /// Takes the next token, if there is one.
    pub fn next(&mut self) -> (r: Option<Token>)
        ensures
            match r {
                Some(token) => {
                    &&& old(self)@.len() > 0
                    &&& token@ == old(self)@[0]
                    &&& final(self)@ == old(self)@.drop_first()
                },
                None => old(self)@.len() == 0 && final(self)@ == old(self)@,
            },
    {
        proof {
            use_type_invariant(&*self);
        }
        if self.pos < self.tokens.len() {
            let token = self.tokens[self.pos].duplicate();
            self.pos += 1;
            assert(self.tokens@.skip(self.pos as int) == self.tokens@.skip(
                self.pos - 1,
            ).drop_first());
            Some(token)
        } else {
            None
        }
    }
}

} // verus!
