//! Source positions and the tokens of the surface syntax.

use vstd::prelude::*;

verus! {

/// The kinds of token, with the text of those that carry one.
#[derive(Debug, PartialEq)]
pub enum TokenType {
    OpenParen,
    CloseParen,
    Symbol(String),
    Dot,
    Text(String),
    Quote,
}

/// A line and a column in a source text, both counted from one.
#[derive(Copy, Clone, Debug, PartialEq, Eq, Structural)]
pub struct SourcePos {
    pub line: u32,
    pub column: u32,
}

impl SourcePos {
    pub fn new(line: u32, column: u32) -> (pos: SourcePos)
        ensures
            pos.line == line,
            pos.column == column,
    {
        SourcePos { line, column }
    }
}

/// A token and the place where it starts.
#[derive(Debug, PartialEq)]
pub struct Token {
    pub pos: SourcePos,
    pub token: TokenType,
}

} // verus!
