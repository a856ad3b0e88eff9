//! Tokens of the configuration language.

use vstd::prelude::*;

verus! {

/// What a token is.
///
/// A `Float` keeps the literal as it was written: the library never computes
/// with it.
#[derive(Debug, Clone, PartialEq)]
pub enum TokenKind {
    /// A word that is nothing else: `world`, `mineral`, `(5,5)`, `0F0`.
    Ident(String),
    /// A decimal integer that fits in 32 bits.
    Number(i32),
    /// A decimal literal with a point, as written.
    Float(String),
    /// One of `<`, `>`, `:`.
    Symbol(String),
    /// The end of a line that held at least one word.
    Eol,
}

/// A token and the 1-based number of the line it was read from.
#[derive(Debug, Clone)]
pub struct Token {
    pub kind: TokenKind,
    pub line: usize,
}

/// The mathematical value of a [`TokenKind`].
pub enum TokenKindView {
    Ident(Seq<char>),
    Number(i32),
    Float(Seq<char>),
    Symbol(Seq<char>),
    Eol,
}

/// The mathematical value of a [`Token`].
pub struct TokenView {
    pub kind: TokenKindView,
    pub line: nat,
}

impl View for TokenKind {
    type V = TokenKindView;

    open spec fn view(&self) -> TokenKindView {
        match self {
            TokenKind::Ident(s) => TokenKindView::Ident(s@),
            TokenKind::Number(n) => TokenKindView::Number(*n),
            TokenKind::Float(s) => TokenKindView::Float(s@),
            TokenKind::Symbol(s) => TokenKindView::Symbol(s@),
            TokenKind::Eol => TokenKindView::Eol,
        }
    }
}

impl DeepView for TokenKind {
    type V = TokenKindView;

    open spec fn deep_view(&self) -> TokenKindView {
        self@
    }
}

impl View for Token {
    type V = TokenView;

    open spec fn view(&self) -> TokenView {
        TokenView { kind: self.kind@, line: self.line as nat }
    }
}

impl DeepView for Token {
    type V = TokenView;

    open spec fn deep_view(&self) -> TokenView {
        self@
    }
}

} // verus!
