//! Warnings: non-fatal findings about a line, attached to source spans.

use vstd::prelude::*;
use crate::span::Span;

verus! {

/// A non-fatal finding about one line of input.
#[derive(Debug, Clone, Copy, PartialEq, Eq, Structural)]
pub enum Warning {
    /// The same identifier was freed twice in one scope header.
    DuplicateScopedVariable { first_declaration: Span, second_declaration: Span },
    /// A `true` conjoined with other atoms carries no information.
    RedundantTrue { span: Span },
    /// A `false` conjoined with other atoms makes the whole and-chain
    /// false, preventing any conclusion about the other atoms.
    NullifyingFalse { span: Span },
    /// A `false` as a non-final block can imply anything.
    RedundantFalse { span: Span },
    /// A clause built from boolean literals alone decides nothing.
    PurelyLiteralClause { span: Span },
}

} // verus!
