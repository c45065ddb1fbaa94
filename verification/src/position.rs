//! Positions: either a single character offset or a span, used by the
//! low-level tokenizer primitives.

use vstd::prelude::*;

verus! {

/// Either a single position in the line or a character range.
#[derive(Clone, Copy, Debug, PartialEq, Eq, Structural)]
pub enum Position {
    Pos(usize),
    Span(usize, usize),
}

/// A value paired with the position it was read from.
#[derive(Clone, Copy, Debug)]
pub struct Positioned<T> {
    pub content: T,
    pub pos: Position,
}

impl<T> Positioned<T> {
    pub fn new(content: T, pos: Position) -> (r: Self)
        ensures
            r.content == content,
            r.pos == pos,
    {
        Self { content, pos }
    }

    pub fn as_inner(&self) -> (r: &T)
        ensures
            r == &self.content,
    {
        &self.content
    }

    pub fn into_inner(self) -> (r: T)
        ensures
            r == self.content,
    {
        self.content
    }

    pub fn span(&self) -> (r: Position)
        ensures
            r == self.pos,
    {
        self.pos
    }

    /// The same position carrying new content.
    pub fn map<C>(&self, new_content: C) -> (r: Positioned<C>)
        ensures
            r.content == new_content,
            r.pos == self.pos,
    {
        Positioned { content: new_content, pos: self.pos }
    }
}

} // verus!
