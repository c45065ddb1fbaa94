//! Higher-level symbols produced by the parser and consumed by the
//! interpreter.

use vstd::prelude::*;
use crate::atom::Ident;
use crate::span::Spanned;

verus! {

/// One parsed line of input.
#[derive(Debug)]
pub enum Line {
    /// A free-variable scope header, naming the freed identifiers.
    Forall(Vec<Spanned<Ident>>),
    /// A rule line: whether it was indented, whether it is a question
    /// (contains an unknown), and its and-chains.
    Rule(bool, bool, Vec<Vec<Spanned<Atom>>>),
}

/// A parsed atom, with argument identifiers already hashed.
#[derive(Debug)]
pub enum Atom {
    True,
    False,
    Predicate(Ident, Vec<Spanned<Ident>>),
    Unknown(Ident),
}

/// The mathematical value of a parsed atom: argument vectors become
/// sequences; argument spans are kept for diagnostics.
pub enum SymAtomModel {
    True,
    False,
    Predicate(Ident, Seq<Spanned<Ident>>),
    Unknown(Ident),
}

impl View for Atom {
    type V = SymAtomModel;

    open spec fn view(&self) -> SymAtomModel {
        match self {
            Atom::True => SymAtomModel::True,
            Atom::False => SymAtomModel::False,
            Atom::Predicate(n, args) => SymAtomModel::Predicate(*n, args@),
            Atom::Unknown(i) => SymAtomModel::Unknown(*i),
        }
    }
}

/// The atom values of one parsed and-chain.
pub open spec fn sym_block_model(b: Seq<Spanned<Atom>>) -> Seq<SymAtomModel> {
    b.map_values(|sa: Spanned<Atom>| sa.content@)
}

/// The atom values of a whole parsed chain list.
pub open spec fn sym_chains_model(chains: Seq<Vec<Spanned<Atom>>>) -> Seq<Seq<SymAtomModel>> {
    chains.map_values(|b: Vec<Spanned<Atom>>| sym_block_model(b@))
}

impl Atom {
    /// Whether the atom is a boolean literal.
    pub fn is_literal(&self) -> (r: bool)
        ensures
            r == (self is True || self is False),
    {
        match self {
            Atom::True | Atom::False => true,
            _ => false,
        }
    }
}

} // verus!
