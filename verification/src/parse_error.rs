//! Parse errors: the farthest position at which an expected token was not
//! found, with the set of tokens that would have been accepted there.

use vstd::prelude::*;
use crate::token::Token;

verus! {

/// A token was expected, but not found. Joining two such errors keeps the
/// one that got farthest into the line; at equal positions the expected
/// token sets merge.
#[derive(Debug)]
pub struct TokenNotFound {
    pub position: usize,
    pub expected: Vec<Token>,
}

impl TokenNotFound {
    /// The error for a single expected token.
    pub fn new(position: usize, expected: Token) -> (r: Self)
        ensures
            r.position == position,
            r.expected@ == seq![expected],
    {
        let mut expected_tokens: Vec<Token> = Vec::new();
        expected_tokens.push(expected);
        proof {
            assert(expected_tokens@ =~= seq![expected]);
        }
        Self { position, expected: expected_tokens }
    }

    /// Merge a raw (position, token) failure into this error.
    pub fn join_raw(&mut self, other: (usize, Token))
        requires
            old(self).expected@.len() >= 1,
        ensures
            old(self).position < other.0 ==> (final(self).position == other.0
                && final(self).expected@ == seq![other.1]),
            old(self).position == other.0 ==> (final(self).position == old(self).position
                && final(self).expected@ == old(self).expected@.push(other.1)),
            old(self).position > other.0 ==> *final(self) == *old(self),
    {
        if self.position < other.0 {
            self.position = other.0;
            self.expected.truncate(1);
            self.expected.set(0, other.1);
            proof {
                assert(self.expected@ =~= seq![other.1]);
            }
        } else if self.position == other.0 {
            self.expected.push(other.1);
        }
    }

    /// Merge another error into this one.
    pub fn join(&mut self, other: Self)
        ensures
            old(self).position < other.position ==> (final(self).position == other.position
                && final(self).expected@ == other.expected@),
            old(self).position == other.position ==> (final(self).position == old(self).position
                && final(self).expected@ == old(self).expected@ + other.expected@),
            old(self).position > other.position ==> *final(self) == *old(self),
    {
        let mut other = other;
        if self.position < other.position {
            self.position = other.position;
            self.expected = other.expected;
        } else if self.position == other.position {
            self.expected.append(&mut other.expected);
        }
    }
}

} // verus!
