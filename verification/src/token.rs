//! The tokens of the grammar language.

use crate::span::Span;
use vstd::prelude::*;

verus! {

#[derive(Clone, Debug, Copy, Eq, PartialEq, Structural)]
pub enum Token {
    Question,
    Plus,
    Asterisk,
    Colon,
    Semicolon,
    NumSign,
    Alt,
    Assign,
    Ident,
    Attr,
    Whitespace(Whitespace),
    LitString,
}

#[derive(Copy, Clone, Debug, PartialEq, Eq, Structural)]
pub enum Whitespace {
    Space,
    Newline,
    CarriageReturn,
    HorizontalTab,
}

/// A token together with the place in the source where it was found.
#[derive(Copy, Clone, Debug, PartialEq, Eq, Structural)]
pub struct S {
    pub tok: Token,
    pub span: Span,
}

impl Token {
    /// Whether the token is white space, which the parser never sees.
    pub open spec fn is_junk(self) -> bool {
        self is Whitespace
    }
}

} // verus!
