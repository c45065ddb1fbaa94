//! Atomic syntactical units of the surface language.

use vstd::prelude::*;

verus! {

/// Atomic syntactical units.
#[derive(Debug, PartialEq, Eq, Structural, Clone, Copy)]
pub enum Token {
    /// An identifier: a run of ascii letters, digits and underscores.
    Ident,
    /// Indentation: any run of spaces or tabs at the beginning of a line
    /// counts as one level of indentation.
    Indent,
    /// An opening parenthesis.
    OpeningParen,
    /// A closing parenthesis.
    ClosingParen,
    /// The implication arrow between and-chains.
    Implication,
    /// The question marker that turns an identifier into an unknown.
    Questionmark,
    /// The comma between predicate arguments and freed identifiers.
    Comma,
    /// The keyword opening a free-variable scope block.
    Forall,
    /// The conjunction keyword inside an and-chain.
    And,
    /// The boolean literal true.
    True,
    /// The boolean literal false.
    False,
    /// A line comment; the rest of the line carries no tokens.
    Comment,
    /// A single whitespace character separating tokens.
    Space,
    /// The end of the input line.
    End,
}

} // verus!
