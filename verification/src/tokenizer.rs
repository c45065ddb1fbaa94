//! The tokenizer: reads single tokens out of an input line at a caller
//! -supplied position, without consuming anything on failure.

use vstd::prelude::*;
use crate::position::{Position, Positioned};
use crate::span::{Span, Spanned};
use crate::token::Token;

verus! {

/// Identifier characters: ascii letters, digits, and the underscore.
pub open spec fn is_ident_char(c: char) -> bool {
    ||| (97 <= c as u32 && c as u32 <= 122)
    ||| (65 <= c as u32 && c as u32 <= 90)
    ||| (48 <= c as u32 && c as u32 <= 57)
    ||| c == '_'
}

/// Inline whitespace: a space or a tab.
pub open spec fn is_space_char(c: char) -> bool {
    c == ' ' || c == '\t'
}

/// The length of the maximal run of identifier characters from `pos`.
pub open spec fn ident_run_len(s: Seq<char>, pos: int) -> int
    decreases s.len() - pos
        when 0 <= pos <= s.len()
{
    if pos >= s.len() || !is_ident_char(s[pos]) {
        0
    } else {
        1 + ident_run_len(s, pos + 1)
    }
}

/// The length of the maximal run of whitespace characters from `pos`.
pub open spec fn space_run_len(s: Seq<char>, pos: int) -> int
    decreases s.len() - pos
        when 0 <= pos <= s.len()
{
    if pos >= s.len() || !is_space_char(s[pos]) {
        0
    } else {
        1 + space_run_len(s, pos + 1)
    }
}

/// Whether the literal `lit` occurs in `s` starting at `pos`.
pub open spec fn match_at(s: Seq<char>, pos: int, lit: Seq<char>) -> bool {
    0 <= pos && pos + lit.len() <= s.len() && s.subrange(pos, pos + lit.len()) == lit
}

pub open spec fn lit_end(s: Seq<char>, pos: int, lit: Seq<char>) -> Option<int> {
    if match_at(s, pos, lit) {
        Some(pos + lit.len())
    } else {
        None
    }
}

/// Where reading one token at `pos` would end, if it can be read there.
/// The token's span is `(pos, end)`; failure consumes nothing.
pub open spec fn spec_try_read(s: Seq<char>, pos: int, token: Token) -> Option<int> {
    match token {
        Token::Ident => if ident_run_len(s, pos) > 0 {
            Some(pos + ident_run_len(s, pos))
        } else {
            None
        },
        Token::Indent => if space_run_len(s, pos) > 0 {
            Some(pos + space_run_len(s, pos))
        } else {
            None
        },
        Token::Space => if pos < s.len() && is_space_char(s[pos]) {
            Some(pos + 1)
        } else {
            None
        },
        Token::End => if pos == s.len() {
            Some(pos)
        } else {
            None
        },
        Token::OpeningParen => lit_end(s, pos, "("@),
        Token::ClosingParen => lit_end(s, pos, ")"@),
        Token::Implication => lit_end(s, pos, "=>"@),
        Token::Questionmark => lit_end(s, pos, "?"@),
        Token::Comma => lit_end(s, pos, ","@),
        Token::Forall => lit_end(s, pos, "forall"@),
        Token::And => lit_end(s, pos, "and"@),
        Token::True => lit_end(s, pos, "true"@),
        Token::False => lit_end(s, pos, "false"@),
        Token::Comment => lit_end(s, pos, "//"@),
    }
}

/// Whether an executable character is an identifier character.
fn ident_char(c: char) -> (r: bool)
    ensures
        r == is_ident_char(c),
{
    let v = c as u32;
    (97 <= v && v <= 122) || (65 <= v && v <= 90) || (48 <= v && v <= 57) || c == '_'
}

/// Whether an executable character is inline whitespace.
fn space_char(c: char) -> (r: bool)
    ensures
        r == is_space_char(c),
{
    c == ' ' || c == '\t'
}

/// A tokenizer over one line of input. The reading position is always
/// supplied by the caller, so failed reads never consume anything.
pub struct Tokenizer<'a> {
    pub buffer: &'a str,
}

impl<'a> Tokenizer<'a> {
    /// A tokenizer over the given line.
    pub fn new(buffer: &'a str) -> (r: Self)
        ensures
            r.buffer@ == buffer@,
    {
        Self { buffer }
    }

    /// Read the literal `expected` at `pos`, advancing past it; on a
    /// mismatch the position is left untouched.
    fn take(&self, pos: &mut usize, expected: &str) -> (r: Option<Positioned<()>>)
        requires
            *old(pos) <= self.buffer@.len(),
        ensures
            match lit_end(self.buffer@, *old(pos) as int, expected@) {
                Some(end) => r matches Some(p) && *final(pos) == end && p.pos == Position::Span(
                    *old(pos),
                    *final(pos),
                ),
                None => r is None && *final(pos) == *old(pos),
            },
            *final(pos) <= self.buffer@.len(),
    {
        let n = self.buffer.unicode_len();
        let m = expected.unicode_len();
        if m > n - *pos || *pos > n {
            proof {
                assert(!match_at(self.buffer@, *pos as int, expected@));
            }
            return None;
        }
        let start = *pos;
        let mut j: usize = 0;
        while j < m
            invariant
                n == self.buffer@.len(),
                m == expected@.len(),
                start + m <= n,
                j <= m,
                *pos == start,
                start == *old(pos),
                forall|k: int| 0 <= k < j ==> self.buffer@[start + k] == expected@[k],
            decreases m - j,
        {
            if self.buffer.get_char(start + j) != expected.get_char(j) {
                proof {
                    let sub = self.buffer@.subrange(start as int, start + m);
                    assert(sub[j as int] != expected@[j as int]);
                    assert(!match_at(self.buffer@, start as int, expected@));
                }
                return None;
            }
            j = j + 1;
        }
        proof {
            assert(self.buffer@.subrange(start as int, start + m) =~= expected@);
            assert(match_at(self.buffer@, start as int, expected@));
        }
        *pos = start + m;
        Some(Positioned::new((), Position::Span(start, *pos)))
    }

    /// Advance past the maximal run of identifier characters, if nonempty.
    fn consume_ident_run(&self, pos: &mut usize) -> (r: Option<Positioned<()>>)
        requires
            *old(pos) <= self.buffer@.len(),
        ensures
            ({
                let run = ident_run_len(self.buffer@, *old(pos) as int);
                if run > 0 {
                    r matches Some(p) && *final(pos) == *old(pos) + run && p.pos == Position::Span(
                        *old(pos),
                        *final(pos),
                    )
                } else {
                    r is None && *final(pos) == *old(pos)
                }
            }),
            *final(pos) <= self.buffer@.len(),
    {
        let n = self.buffer.unicode_len();
        let start = *pos;
        while *pos < n && ident_char(self.buffer.get_char(*pos))
            invariant
                n == self.buffer@.len(),
                start <= *pos <= n,
                ident_run_len(self.buffer@, start as int) == (*pos - start) + ident_run_len(
                    self.buffer@,
                    *pos as int,
                ),
            decreases n - *pos,
        {
            *pos = *pos + 1;
        }
        proof {
            assert(ident_run_len(self.buffer@, *pos as int) == 0);
        }
        if *pos == start {
            None
        } else {
            Some(Positioned::new((), Position::Span(start, *pos)))
        }
    }

    /// Advance past the maximal run of whitespace characters, if nonempty.
    fn consume_space_run(&self, pos: &mut usize) -> (r: Option<Positioned<()>>)
        requires
            *old(pos) <= self.buffer@.len(),
        ensures
            ({
                let run = space_run_len(self.buffer@, *old(pos) as int);
                if run > 0 {
                    r matches Some(p) && *final(pos) == *old(pos) + run && p.pos == Position::Span(
                        *old(pos),
                        *final(pos),
                    )
                } else {
                    r is None && *final(pos) == *old(pos)
                }
            }),
            *final(pos) <= self.buffer@.len(),
    {
        let n = self.buffer.unicode_len();
        let start = *pos;
        while *pos < n && space_char(self.buffer.get_char(*pos))
            invariant
                n == self.buffer@.len(),
                start <= *pos <= n,
                space_run_len(self.buffer@, start as int) == (*pos - start) + space_run_len(
                    self.buffer@,
                    *pos as int,
                ),
            decreases n - *pos,
        {
            *pos = *pos + 1;
        }
        proof {
            assert(space_run_len(self.buffer@, *pos as int) == 0);
        }
        if *pos == start {
            None
        } else {
            Some(Positioned::new((), Position::Span(start, *pos)))
        }
    }

    /// Consume a single whitespace character, if one is next.
    fn consume_if_space(&self, pos: &mut usize) -> (r: Option<Positioned<char>>)
        requires
            *old(pos) <= self.buffer@.len(),
        ensures
            ({
                if *old(pos) < self.buffer@.len() && is_space_char(
                    self.buffer@[*old(pos) as int],
                ) {
                    r is Some && *final(pos) == *old(pos) + 1
                } else {
                    r is None && *final(pos) == *old(pos)
                }
            }),
            *final(pos) <= self.buffer@.len(),
    {
        let n = self.buffer.unicode_len();
        if *pos < n {
            let c = self.buffer.get_char(*pos);
            if space_char(c) {
                let r = Positioned::new(c, Position::Pos(*pos));
                *pos = *pos + 1;
                return Some(r);
            }
        }
        None
    }

    /// Try to read one token of the requested kind at `pos`. On success
    /// the position advances past the token and the token comes back with
    /// its span; on failure the position is untouched.
    pub fn try_read(&self, pos: &mut usize, token: Token) -> (r: Option<Spanned<Token>>)
        requires
            *old(pos) <= self.buffer@.len(),
        ensures
            match spec_try_read(self.buffer@, *old(pos) as int, token) {
                Some(end) => r matches Some(sp) && sp.content == token && sp.span.0 == *old(pos)
                    && sp.span.1 == *final(pos) && *final(pos) == end,
                None => r is None && *final(pos) == *old(pos),
            },
            *final(pos) <= self.buffer@.len(),
            (r is Some && token != Token::End) ==> *final(pos) > *old(pos),
    {
        proof {
            reveal_strlit("(");
            reveal_strlit(")");
            reveal_strlit("=>");
            reveal_strlit("?");
            reveal_strlit(",");
            reveal_strlit("forall");
            reveal_strlit("and");
            reveal_strlit("true");
            reveal_strlit("false");
            reveal_strlit("//");
        }
        let start = *pos;
        let read: Option<Position> = match token {
            Token::Ident => match self.consume_ident_run(pos) {
                Some(p) => Some(p.span()),
                None => None,
            },
            Token::Indent => match self.consume_space_run(pos) {
                Some(p) => Some(p.span()),
                None => None,
            },
            Token::Space => match self.consume_if_space(pos) {
                Some(p) => Some(p.span()),
                None => None,
            },
            Token::End => {
                if *pos == self.buffer.unicode_len() {
                    Some(Position::Pos(*pos))
                } else {
                    None
                }
            },
            Token::OpeningParen => {
                proof {
                    reveal_strlit("(");
                }
                match self.take(pos, "(") {
                    Some(p) => Some(p.span()),
                    None => None,
                }
            },
            Token::ClosingParen => {
                proof {
                    reveal_strlit(")");
                }
                match self.take(pos, ")") {
                    Some(p) => Some(p.span()),
                    None => None,
                }
            },
            Token::Implication => {
                proof {
                    reveal_strlit("=>");
                }
                match self.take(pos, "=>") {
                    Some(p) => Some(p.span()),
                    None => None,
                }
            },
            Token::Questionmark => {
                proof {
                    reveal_strlit("?");
                }
                match self.take(pos, "?") {
                    Some(p) => Some(p.span()),
                    None => None,
                }
            },
            Token::Comma => {
                proof {
                    reveal_strlit(",");
                }
                match self.take(pos, ",") {
                    Some(p) => Some(p.span()),
                    None => None,
                }
            },
            Token::Forall => {
                proof {
                    reveal_strlit("forall");
                }
                match self.take(pos, "forall") {
                    Some(p) => Some(p.span()),
                    None => None,
                }
            },
            Token::And => {
                proof {
                    reveal_strlit("and");
                }
                match self.take(pos, "and") {
                    Some(p) => Some(p.span()),
                    None => None,
                }
            },
            Token::True => {
                proof {
                    reveal_strlit("true");
                }
                match self.take(pos, "true") {
                    Some(p) => Some(p.span()),
                    None => None,
                }
            },
            Token::False => {
                proof {
                    reveal_strlit("false");
                }
                match self.take(pos, "false") {
                    Some(p) => Some(p.span()),
                    None => None,
                }
            },
            Token::Comment => {
                proof {
                    reveal_strlit("//");
                }
                match self.take(pos, "//") {
                    Some(p) => Some(p.span()),
                    None => None,
                }
            },
        };
        match read {
            Some(_) => Some(Spanned::new(token, Span(start, *pos))),
            None => None,
        }
    }
}

} // verus!
