//! Positions and spans in a document, counted in characters.

use vstd::prelude::*;

verus! {

/// A place in a document: a line and a character offset within it, both from zero.
#[derive(Clone, Copy, Debug, PartialEq, Eq, Structural)]
pub struct Position {
    pub line: usize,
    pub character: usize,
}

/// A half-open range of text between two positions.
#[derive(Clone, Copy, Debug, PartialEq, Eq, Structural)]
pub struct Span {
    pub start: Position,
    pub end: Position,
}

/// The span on line `line` from character `from` up to, not including, `to`.
pub open spec fn span_on_line(line: int, from: int, to: int) -> Span {
    Span {
        start: Position { line: line as usize, character: from as usize },
        end: Position { line: line as usize, character: to as usize },
    }
}

/// `a` is met before `b` when reading from the top, each line from the left.
pub open spec fn reads_before(a: Position, b: Position) -> bool {
    a.line < b.line || (a.line == b.line && a.character < b.character)
}

impl Position {
    pub fn new(line: usize, character: usize) -> (p: Position)
        ensures
            p == (Position { line, character }),
    {
        Position { line, character }
    }
}

impl Span {
    pub fn new(start: Position, end: Position) -> (s: Span)
        ensures
            s == (Span { start, end }),
    {
        Span { start, end }
    }

    /// The span on one line from character `from` up to, not including, `to`.
    pub fn on_line(line: usize, from: usize, to: usize) -> (s: Span)
        ensures
            s == span_on_line(line as int, from as int, to as int),
    {
        Span { start: Position { line, character: from }, end: Position { line, character: to } }
    }
}

} // verus!
