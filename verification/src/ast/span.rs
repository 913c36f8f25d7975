//! Source positions and spans of syntax nodes.

use vstd::prelude::*;

verus! {

#[derive(Debug, Clone, Copy, PartialEq, Eq, Default, Structural)]
pub struct Position {
    pub offset: usize,
    pub line: usize,
    pub column: usize,
}

impl Position {
    pub fn new(offset: usize, line: usize, column: usize) -> (p: Self)
        ensures
            p == (Position { offset, line, column }),
    {
        Position { offset, line, column }
    }
}

#[derive(Debug, Clone, Copy, PartialEq, Eq, Default, Structural)]
pub struct Span {
    pub start: Position,
    pub end: Position,
}

impl Span {
    pub fn new(start: Position, end: Position) -> (s: Self)
        ensures
            s == (Span { start, end }),
    {
        Span { start, end }
    }

    pub fn empty(position: Position) -> (s: Self)
        ensures
            s == (Span { start: position, end: position }),
    {
        Span { start: position, end: position }
    }

    /// The span from the start of `self` to the end of `other`.
    pub fn join(self, other: Span) -> (s: Self)
        ensures
            s == (Span { start: self.start, end: other.end }),
    {
        Span { start: self.start, end: other.end }
    }
}

/// Joining is associative: the span runs from the first start to the last end however
/// the joins are grouped.
pub proof fn lemma_join_associative(a: Span, b: Span, c: Span)
    ensures
        (Span { start: (Span { start: a.start, end: b.end }).start, end: c.end }) == (Span {
            start: a.start,
            end: (Span { start: b.start, end: c.end }).end,
        }),
{
}

/// Syntax nodes that know their source span.
pub trait Spanned {
    fn span(&self) -> Span;
}

} // verus!
