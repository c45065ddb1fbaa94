//! Hashing of identifier text.
//!
//! Internally, identifiers are represented by a fixed-width hash of their
//! raw text, since hashes can be compared much faster than strings. The
//! hash is a pure function of the text, so equal identifier strings always
//! yield the same value within (and across) runs. Distinct strings that
//! collide are silently treated as the same symbol; this is an accepted
//! limitation of the design.

use vstd::prelude::*;

verus! {

/// Fold one character into a running hash value (an FNV-1a style round:
/// xor the character in, then multiply by a large prime, wrapping).
pub open spec fn hash_step(h: u64, c: char) -> u64 {
    (h ^ (c as u64)).wrapping_mul(0x100000001b3)
}

/// The hash of a whole character sequence, folding left to right from a
/// fixed offset basis.
pub open spec fn hash_chars(s: Seq<char>) -> u64
    decreases s.len(),
{
    if s.len() == 0 {
        0xcbf29ce484222325u64
    } else {
        hash_step(hash_chars(s.drop_last()), s.last())
    }
}

/// Hash an identifier's raw text down to a fixed-width value.
pub fn calculate_hash(s: &str) -> (r: u64)
    ensures
        r == hash_chars(s@),
{
    let n = s.unicode_len();
    let mut h: u64 = 0xcbf29ce484222325u64;
    let mut i: usize = 0;
    while i < n
        invariant
            n == s@.len(),
            i <= n,
            h == hash_chars(s@.subrange(0, i as int)),
        decreases n - i,
    {
        let c = s.get_char(i);
        h = (h ^ (c as u64)).wrapping_mul(0x100000001b3);
        i = i + 1;
        proof {
            assert(s@.subrange(0, i as int).drop_last() =~= s@.subrange(0, i - 1));
        }
    }
    proof {
        assert(s@.subrange(0, n as int) =~= s@);
    }
    h
}

} // verus!
