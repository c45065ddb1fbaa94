//! Source spans: half-open character ranges in one input line, used to
//! attach positions to tokens, atoms and diagnostics.

use vstd::prelude::*;

verus! {

/// A half-open character range in the input line.
#[derive(Clone, Copy, Debug, PartialEq, Eq, Structural)]
pub struct Span(pub usize, pub usize);

impl Span {
    /// The span of the single character at `position`.
    pub fn position(position: usize) -> (r: Self)
        requires
            position < usize::MAX,
        ensures
            r == Span(position, (position + 1) as usize),
    {
        Self(position, position + 1)
    }
}

/// A value paired with the source span it was read from.
#[derive(Clone, Copy, Debug)]
pub struct Spanned<T> {
    pub content: T,
    pub span: Span,
}

impl<T> Spanned<T> {
    pub fn new(content: T, span: Span) -> (r: Self)
        ensures
            r.content == content,
            r.span == span,
    {
        Self { content, span }
    }

    pub fn as_inner(&self) -> (r: &T)
        ensures
            r == &self.content,
    {
        &self.content
    }

    pub fn into_inner(self) -> (r: T)
        ensures
            r == self.content,
    {
        self.content
    }

    pub fn span(&self) -> (r: Span)
        ensures
            r == self.span,
    {
        self.span
    }

    /// The same span carrying new content.
    pub fn map<C>(&self, new_content: C) -> (r: Spanned<C>)
        ensures
            r.content == new_content,
            r.span == self.span,
    {
        Spanned { content: new_content, span: self.span }
    }
}

} // verus!
