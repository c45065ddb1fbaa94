//! The recursive-descent parser: turns one line of input into a parsed
//! `Line` (a free-variable scope header, or a rule), reporting the
//! farthest failure position otherwise.

use vstd::prelude::*;
use crate::atom::Ident;
use crate::parse_error::TokenNotFound;
use crate::span::{Span, Spanned};
use crate::symbol::{Atom, Line};
use crate::token::Token;
use crate::tokenizer::{Tokenizer, space_run_len, spec_try_read};
use crate::util::{calculate_hash, hash_chars};
use crate::warning::Warning;

verus! {

/// Whether any atom anywhere in the and-chains is an unknown.
pub open spec fn spec_has_unknown(chains: Seq<Vec<Spanned<Atom>>>) -> bool {
    exists|bi: int, ai: int|
        0 <= bi < chains.len() && 0 <= ai < chains[bi]@.len() && (#[trigger] chains[bi]@[ai]).content
            is Unknown
}

/// Whether any atom anywhere in the and-chains is an unknown.
fn contains_unknown(chains: &Vec<Vec<Spanned<Atom>>>) -> (r: bool)
    ensures
        r == spec_has_unknown(chains@),
{
    let nb = chains.len();
    let mut bi: usize = 0;
    while bi < nb
        invariant
            nb == chains@.len(),
            bi <= nb,
            forall|b: int, a: int|
                0 <= b < bi && 0 <= a < chains@[b]@.len() ==> !((#[trigger] chains@[b]@[a]).content
                    is Unknown),
        decreases nb - bi,
    {
        let na = chains[bi].len();
        let mut ai: usize = 0;
        while ai < na
            invariant
                nb == chains@.len(),
                bi < nb,
                na == chains@[bi as int]@.len(),
                ai <= na,
                forall|a: int|
                    0 <= a < ai ==> !((#[trigger] chains@[bi as int]@[a]).content is Unknown),
        decreases na - ai,
        {
            match &chains[bi][ai].content {
                Atom::Unknown(_) => {
                    proof {
                        assert(spec_has_unknown(chains@));
                    }
                    return true;
                },
                _ => {},
            }
            ai = ai + 1;
        }
        bi = bi + 1;
    }
    false
}

/// What ties a parsed atom to the text it was read from at `start`: a
/// literal token for the booleans, and for a predicate or unknown a name
/// that is the hash of the identifier text there.
pub open spec fn atom_read_at(s: Seq<char>, start: int, a: Atom) -> bool {
    &&& (a is True ==> spec_try_read(s, start, Token::True) is Some)
    &&& (a is False ==> spec_try_read(s, start, Token::False) is Some)
    &&& (a matches Atom::Unknown(i) ==> (spec_try_read(s, start, Token::Ident) matches Some(idend)
        && i == Ident(hash_chars(s.subrange(start, idend)))))
    &&& (a matches Atom::Predicate(n, args) ==> (spec_try_read(s, start, Token::Ident) matches Some(
        idend,
    ) && n == Ident(hash_chars(s.subrange(start, idend)))))
}

/// A parser over one line of input.
pub struct Parser<'a> {
    pub buffer: &'a str,
    pub tokenizer: Tokenizer<'a>,
}

impl<'a> Parser<'a> {
    /// The tokenizer reads from the same line the parser slices spans
    /// from.
    pub open spec fn wf(&self) -> bool {
        self.tokenizer.buffer@ == self.buffer@
    }

    pub fn new(buffer: &'a str) -> (r: Self)
        ensures
            r.wf(),
            r.buffer@ == buffer@,
    {
        Self { buffer, tokenizer: Tokenizer::new(buffer) }
    }

    /// The line's text inside a span.
    fn read_span(&self, span: Span) -> (r: &str)
        requires
            span.0 <= span.1 <= self.buffer@.len(),
        ensures
            r@ == self.buffer@.subrange(span.0 as int, span.1 as int),
    {
        self.buffer.substring_char(span.0, span.1)
    }

    /// Skip any whitespace that can always appear between tokens.
    fn skip_filler(&self, position: &mut usize)
        requires
            self.wf(),
            *old(position) <= self.buffer@.len(),
        ensures
            *final(position) as int == *old(position) + space_run_len(
                self.buffer@,
                *old(position) as int,
            ),
            *old(position) <= *final(position) <= self.buffer@.len(),
    {
        let ghost s = self.buffer@;
        let ghost start = *position;
        let mut go = true;
        while go
            invariant
                self.wf(),
                start <= *position <= s.len(),
                s == self.buffer@,
                space_run_len(s, start as int) == (*position - start) + space_run_len(
                    s,
                    *position as int,
                ),
                !go ==> space_run_len(s, *position as int) == 0,
            decreases s.len() - *position + (if go {
                1int
            } else {
                0int
            }),
        {
            match self.tokenizer.try_read(position, Token::Space) {
                Some(_) => {},
                None => {
                    go = false;
                },
            }
        }
    }

    /// Expect the next token to be of a specific kind; whitespace after it
    /// is skipped. On failure nothing is consumed.
    fn expect(&self, position: &mut usize, expected: Token) -> (r: Result<
        Spanned<Token>,
        (usize, Token),
    >)
        requires
            self.wf(),
            *old(position) <= self.buffer@.len(),
        ensures
            *final(position) <= self.buffer@.len(),
            *final(position) >= *old(position),
            match r {
                Ok(sp) => {
                    &&& spec_try_read(self.buffer@, *old(position) as int, expected) == Some(
                        sp.span.1 as int,
                    )
                    &&& sp.content == expected
                    &&& sp.span.0 == *old(position)
                    &&& sp.span.0 <= sp.span.1 <= self.buffer@.len()
                    &&& *final(position) as int == sp.span.1 + space_run_len(
                        self.buffer@,
                        sp.span.1 as int,
                    )
                    &&& *final(position) >= sp.span.1
                    &&& (expected != Token::End ==> sp.span.1 > sp.span.0)
                },
                Err(e) => {
                    &&& e == (*old(position), expected)
                    &&& *final(position) == *old(position)
                    &&& spec_try_read(self.buffer@, *old(position) as int, expected) is None
                },
            },
    {
        match self.tokenizer.try_read(position, expected) {
            Some(positioned) => {
                self.skip_filler(position);
                Ok(positioned)
            },
            None => Err((*position, expected)),
        }
    }

    /// Read the next token if it matches any of the expected kinds, tried
    /// in order; otherwise report them all as expected at this position.
    fn expect_either(&self, position: &mut usize, expected: Vec<Token>) -> (r: Result<
        Spanned<Token>,
        TokenNotFound,
    >)
        requires
            self.wf(),
            *old(position) <= self.buffer@.len(),
            expected@.len() >= 1,
        ensures
            *final(position) <= self.buffer@.len(),
            *final(position) >= *old(position),
            match r {
                Ok(sp) => exists|i: int|
                    {
                        &&& 0 <= i < expected@.len()
                        &&& sp.content == #[trigger] expected@[i]
                        &&& (forall|j: int|
                            0 <= j < i ==> spec_try_read(
                                self.buffer@,
                                *old(position) as int,
                                #[trigger] expected@[j],
                            ) is None)
                        &&& spec_try_read(self.buffer@, *old(position) as int, expected@[i])
                            == Some(sp.span.1 as int)
                        &&& sp.span.0 == *old(position)
                        &&& sp.span.0 <= sp.span.1 <= self.buffer@.len()
                        &&& *final(position) >= sp.span.1
                        &&& (expected@[i] != Token::End ==> sp.span.1 > sp.span.0)
                    },
                Err(e) => {
                    &&& (forall|j: int|
                        0 <= j < expected@.len() ==> spec_try_read(
                            self.buffer@,
                            *old(position) as int,
                            #[trigger] expected@[j],
                        ) is None)
                    &&& *final(position) == *old(position)
                    &&& e.position == *old(position)
                    &&& e.expected@ == expected@
                },
            },
    {
        let n = expected.len();
        let mut err: TokenNotFound = TokenNotFound::new(*position, expected[0]);
        match self.expect(position, expected[0]) {
            Ok(found) => {
                proof {
                    assert(spec_try_read(self.buffer@, *old(position) as int, expected@[0])
                        == Some(found.span.1 as int));
                }
                return Ok(found);
            },
            Err(_) => {},
        }
        let mut i: usize = 1;
        while i < n
            invariant
                self.wf(),
                n == expected@.len(),
                1 <= i <= n,
                *position == *old(position),
                *position <= self.buffer@.len(),
                err.position == *old(position),
                err.expected@ == expected@.take(i as int),
                forall|j: int|
                    0 <= j < i ==> spec_try_read(
                        self.buffer@,
                        *old(position) as int,
                        #[trigger] expected@[j],
                    ) is None,
            decreases n - i,
        {
            match self.expect(position, expected[i]) {
                Ok(found) => {
                    proof {
                        let ii = i as int;
                        assert(spec_try_read(self.buffer@, *old(position) as int, expected@[ii])
                            == Some(found.span.1 as int));
                    }
                    return Ok(found);
                },
                Err(e) => {
                    err.join_raw(e);
                    proof {
                        assert(err.expected@ =~= expected@.take(i + 1));
                    }
                },
            }
            i = i + 1;
        }
        proof {
            assert(expected@.take(n as int) =~= expected@);
        }
        Err(err)
    }

    /// Check that the line ends here: either a comment runs to the end of
    /// the line, or the line's characters are exhausted.
    fn line_end(&self, position: &mut usize) -> (r: Result<(), TokenNotFound>)
        requires
            self.wf(),
            *old(position) <= self.buffer@.len(),
        ensures
            *final(position) <= self.buffer@.len(),
            *final(position) >= *old(position),
            match r {
                Ok(_) => spec_try_read(self.buffer@, *old(position) as int, Token::Comment)
                    is Some || spec_try_read(self.buffer@, *old(position) as int, Token::End)
                    is Some,
                Err(e) => {
                    &&& *final(position) == *old(position)
                    &&& spec_try_read(self.buffer@, *old(position) as int, Token::Comment) is None
                    &&& spec_try_read(self.buffer@, *old(position) as int, Token::End) is None
                },
            },
    {
        match self.expect(position, Token::Comment) {
            Ok(_) => Ok(()),
            Err(_) => {
                match self.expect(position, Token::End) {
                    Ok(_) => Ok(()),
                    Err((p, t)) => Err(TokenNotFound::new(p, t)),
                }
            },
        }
    }

    /// Parse a free-variable scope header: the forall keyword and one or
    /// more comma-separated identifiers to free.
    fn forall_line(&self, pos: usize, warnings: &mut Vec<Warning>) -> (r: Result<
        Spanned<Line>,
        TokenNotFound,
    >)
        requires
            self.wf(),
            pos <= self.buffer@.len(),
        ensures
            old(warnings)@.is_prefix_of(final(warnings)@),
            match r {
                Ok(sp) => sp.content matches Line::Forall(ids) && ids@.len() >= 1 && ({
                    let s = self.buffer@;
                    &&& spec_try_read(s, pos as int, Token::Forall) matches Some(ke)
                    &&& ({
                        let id_start = ke + space_run_len(s, ke);
                        spec_try_read(s, id_start, Token::Ident) matches Some(ie)
                            && ids@[0].content == Ident(hash_chars(s.subrange(id_start, ie)))
                    })
                }),
                Err(_) => true,
            },
    {
        proof {
            assert(old(warnings)@.is_prefix_of(warnings@)) by {
                assert(warnings@.subrange(0, old(warnings)@.len() as int) =~= old(warnings)@);
            }
        }
        let mut position = pos;
        match self.expect(&mut position, Token::Forall) {
            Ok(_) => {},
            Err((p, t)) => {
                return Err(TokenNotFound::new(p, t));
            },
        }
        let initial_token = match self.expect(&mut position, Token::Ident) {
            Ok(sp) => sp,
            Err((p, t)) => {
                return Err(TokenNotFound::new(p, t));
            },
        };
        let start_pos = initial_token.span.0;
        let mut end_pos = initial_token.span.1;
        let initial_ident = Ident(calculate_hash(self.read_span(initial_token.span)));
        let mut idents: Vec<Spanned<Ident>> = Vec::new();
        idents.push(initial_token.map(initial_ident));
        let ghost first_spanned_ident = idents@[0];

        let ghost s = self.buffer@;
        let n = self.buffer.unicode_len();
        let mut go = true;
        while go
            invariant
                self.wf(),
                n == s.len(),
                s == self.buffer@,
                position <= n,
                idents@.len() >= 1,
                idents@[0] == first_spanned_ident,
                old(warnings)@.is_prefix_of(warnings@),
            decreases n - position + (if go {
                1int
            } else {
                0int
            }),
        {
            match self.expect(&mut position, Token::Comma) {
                Ok(_) => {
                    let token = match self.expect(&mut position, Token::Ident) {
                        Ok(sp) => sp,
                        Err((p, t)) => {
                            return Err(TokenNotFound::new(p, t));
                        },
                    };
                    let token_ident = Ident(calculate_hash(self.read_span(token.span)));
                    end_pos = token.span.1;
                    // warn when an identifier is freed a second time
                    let m = idents.len();
                    let mut k: usize = 0;
                    let mut first_decl: Option<Span> = None;
                    while k < m
                        invariant
                            m == idents@.len(),
                            k <= m,
                        decreases m - k,
                    {
                        if first_decl.is_none() && idents[k].content == token_ident {
                            first_decl = Some(idents[k].span);
                        }
                        k = k + 1;
                    }
                    match first_decl {
                        Some(first_declaration) => {
                            warnings.push(
                                Warning::DuplicateScopedVariable {
                                    first_declaration,
                                    second_declaration: token.span,
                                },
                            );
                            proof {
                                assert(old(warnings)@.is_prefix_of(warnings@)) by {
                                    assert(warnings@.subrange(0, old(warnings)@.len() as int)
                                        =~= old(warnings)@);
                                }
                            }
                        },
                        None => {},
                    }
                    idents.push(token.map(token_ident));
                },
                Err(_) => {
                    go = false;
                },
            }
        }
        match self.line_end(&mut position) {
            Ok(_) => {},
            Err(e) => {
                return Err(e);
            },
        }
        Ok(Spanned::new(Line::Forall(idents), Span(start_pos, end_pos)))
    }

    /// Parse one atom: a boolean literal, a predicate application, or an
    /// unknown marked by a trailing question mark. The name of a predicate
    /// or unknown is the hash of the identifier text read at the starting
    /// position.
    fn read_atom(&self, position: &mut usize) -> (r: Result<Spanned<Atom>, TokenNotFound>)
        requires
            self.wf(),
            *old(position) <= self.buffer@.len(),
        ensures
            *final(position) <= self.buffer@.len(),
            r is Ok ==> *final(position) > *old(position),
            r matches Ok(a) ==> atom_read_at(self.buffer@, *old(position) as int, a.content),
    {
        let kinds = vec![Token::True, Token::False, Token::Ident];
        proof {
            assert(kinds@ =~= seq![Token::True, Token::False, Token::Ident]);
        }
        let found = match self.expect_either(position, kinds) {
            Ok(sp) => sp,
            Err(e) => {
                return Err(e);
            },
        };
        match found.content {
            Token::True => Ok(found.map(Atom::True)),
            Token::False => Ok(found.map(Atom::False)),
            Token::Ident => {
                let ident = Ident(calculate_hash(self.read_span(found.span)));
                let after_kinds = vec![Token::OpeningParen, Token::Questionmark];
                proof {
                    assert(after_kinds@ =~= seq![Token::OpeningParen, Token::Questionmark]);
                }
                let after_ident = match self.expect_either(position, after_kinds) {
                    Ok(sp) => sp,
                    Err(e) => {
                        return Err(e);
                    },
                };
                match after_ident.content {
                    Token::Questionmark => Ok(
                        Spanned::new(
                            Atom::Unknown(ident),
                            Span(found.span.0, after_ident.span.1),
                        ),
                    ),
                    Token::OpeningParen => {
                        // read the predicate's arguments
                        let mut args: Vec<Spanned<Ident>> = Vec::new();
                        let arg_kinds = vec![Token::Ident, Token::ClosingParen];
                        proof {
                            assert(arg_kinds@ =~= seq![Token::Ident, Token::ClosingParen]);
                        }
                        let first = match self.expect_either(position, arg_kinds) {
                            Ok(sp) => sp,
                            Err(e) => {
                                return Err(e);
                            },
                        };
                        let mut symbol_end = first.span.1;
                        match first.content {
                            Token::Ident => {
                                args.push(
                                    first.map(Ident(calculate_hash(self.read_span(first.span)))),
                                );
                                let ghost s = self.buffer@;
                                let n = self.buffer.unicode_len();
                                let mut closed = false;
                                while !closed
                                    invariant
                                        self.wf(),
                                        n == s.len(),
                                        s == self.buffer@,
                                        *position <= n,
                                        *position > *old(position),
                                    decreases n - *position + (if closed {
                                        0int
                                    } else {
                                        1int
                                    }),
                                {
                                    let sep_kinds = vec![Token::Comma, Token::ClosingParen];
                                    proof {
                                        assert(sep_kinds@ =~= seq![
                                            Token::Comma,
                                            Token::ClosingParen,
                                        ]);
                                    }
                                    let next = match self.expect_either(position, sep_kinds) {
                                        Ok(sp) => sp,
                                        Err(e) => {
                                            return Err(e);
                                        },
                                    };
                                    match next.content {
                                        Token::Comma => {
                                            let arg = match self.expect(position, Token::Ident) {
                                                Ok(sp) => sp,
                                                Err((p, t)) => {
                                                    return Err(TokenNotFound::new(p, t));
                                                },
                                            };
                                            args.push(
                                                arg.map(
                                                    Ident(
                                                        calculate_hash(self.read_span(arg.span)),
                                                    ),
                                                ),
                                            );
                                        },
                                        Token::ClosingParen => {
                                            symbol_end = next.span.1;
                                            closed = true;
                                        },
                                        _ => {
                                            proof {
                                                assert(false);
                                            }
                                        },
                                    }
                                }
                            },
                            Token::ClosingParen => {},
                            _ => {
                                proof {
                                    assert(false);
                                }
                            },
                        }
                        Ok(
                            Spanned::new(
                                Atom::Predicate(ident, args),
                                Span(found.span.0, symbol_end),
                            ),
                        )
                    },
                    _ => {
                        proof {
                            assert(false);
                        }
                        Err(TokenNotFound::new(*position, Token::OpeningParen))
                    },
                }
            },
            _ => {
                proof {
                    assert(false);
                }
                Err(TokenNotFound::new(*position, Token::Ident))
            },
        }
    }

    /// Parse a rule line: and-chains of atoms joined by implications,
    /// optionally indented, ending at a comment or the end of the line.
    fn rule(&self, pos: usize) -> (r: Result<Spanned<Line>, TokenNotFound>)
        requires
            self.wf(),
            pos <= self.buffer@.len(),
        ensures
            match r {
                Ok(sp) => sp.content matches Line::Rule(ind, isq, chains) && chains@.len() >= 1 && (
                forall|bi: int| 0 <= bi < chains@.len() ==> (#[trigger] chains@[bi])@.len() >= 1)
                    && isq == spec_has_unknown(chains@) && ({
                    let s = self.buffer@;
                    let body_start = match spec_try_read(s, pos as int, Token::Indent) {
                        Some(e) => e + space_run_len(s, e),
                        None => pos as int,
                    };
                    &&& ind == (spec_try_read(s, pos as int, Token::Indent) is Some)
                    &&& atom_read_at(s, body_start, chains@[0]@[0].content)
                }),
                Err(_) => true,
            },
    {
        let mut position = pos;
        let is_indented = match self.expect(&mut position, Token::Indent) {
            Ok(_) => true,
            Err(_) => false,
        };
        let ghost body_start = position as int;

        let first_atom = match self.read_atom(&mut position) {
            Ok(a) => a,
            Err(e) => {
                return Err(e);
            },
        };
        let start = first_atom.span.0;

        let mut blocks: Vec<Vec<Spanned<Atom>>> = Vec::new();
        let mut current: Vec<Spanned<Atom>> = Vec::new();
        current.push(first_atom);

        // every rule can only end after an implication was found
        let mut found_implication = false;
        let ghost s = self.buffer@;
        let n = self.buffer.unicode_len();
        let mut ending: Option<usize> = None;
        while ending.is_none()
            invariant
                self.wf(),
                n == s.len(),
                s == self.buffer@,
                position <= n,
                current@.len() >= 1,
                forall|bi: int| 0 <= bi < blocks@.len() ==> (#[trigger] blocks@[bi])@.len() >= 1,
                atom_read_at(
                    s,
                    body_start,
                    (if blocks@.len() > 0 {
                        blocks@[0]@[0]
                    } else {
                        current@[0]
                    }).content,
                ),
            decreases n - position + (if ending is Some {
                0int
            } else {
                1int
            }),
        {
            let expected = if found_implication {
                let e = vec![Token::And, Token::Implication, Token::End, Token::Comment];
                proof {
                    assert(e@ =~= seq![Token::And, Token::Implication, Token::End, Token::Comment]);
                }
                e
            } else {
                let e = vec![Token::And, Token::Implication];
                proof {
                    assert(e@ =~= seq![Token::And, Token::Implication]);
                }
                e
            };
            let connector = match self.expect_either(&mut position, expected) {
                Ok(sp) => sp,
                Err(e) => {
                    return Err(e);
                },
            };
            match connector.content {
                Token::Implication => {
                    blocks.push(current);
                    current = Vec::new();
                    found_implication = true;
                    let atom = match self.read_atom(&mut position) {
                        Ok(a) => a,
                        Err(e) => {
                            return Err(e);
                        },
                    };
                    current.push(atom);
                },
                Token::And => {
                    let atom = match self.read_atom(&mut position) {
                        Ok(a) => a,
                        Err(e) => {
                            return Err(e);
                        },
                    };
                    current.push(atom);
                },
                Token::End | Token::Comment => {
                    ending = Some(connector.span.0);
                },
                _ => {
                    proof {
                        assert(false);
                    }
                },
            }
        }
        blocks.push(current);
        let end = match ending {
            Some(e) => e,
            None => n,
        };

        let is_question = contains_unknown(&blocks);
        Ok(Spanned::new(Line::Rule(is_indented, is_question, blocks), Span(start, end)))
    }

    /// Try to parse an empty line: whitespace, then a comment or nothing.
    fn empty(&self, pos: usize) -> (r: Result<(), TokenNotFound>)
        requires
            self.wf(),
            pos <= self.buffer@.len(),
        ensures
            r is Ok ==> ({
                let rest = pos + space_run_len(self.buffer@, pos as int);
                spec_try_read(self.buffer@, rest, Token::Comment) is Some || rest
                    == self.buffer@.len()
            }),
    {
        let mut position = pos;
        self.skip_filler(&mut position);
        self.line_end(&mut position)
    }

    /// Try to parse the line. `Ok(None)` is an empty line; a failure
    /// reports the farthest position reached by any of the alternatives.
    pub fn line(&self, warnings: &mut Vec<Warning>) -> (r: Result<
        Option<Spanned<Line>>,
        TokenNotFound,
    >)
        requires
            self.wf(),
        ensures
            old(warnings)@.is_prefix_of(final(warnings)@),
            match r {
                Ok(parsed) => match parsed {
                    Some(sp) => {
                        &&& (sp.content matches Line::Forall(ids) ==> ids@.len() >= 1)
                        &&& (sp.content matches Line::Rule(ind, isq, chains) ==> chains@.len() >= 1
                            && (forall|bi: int|
                            0 <= bi < chains@.len() ==> (#[trigger] chains@[bi])@.len() >= 1)
                            && isq == spec_has_unknown(chains@))
                    },
                    None => {
                        let rest = space_run_len(self.buffer@, 0);
                        spec_try_read(self.buffer@, rest, Token::Comment) is Some || rest
                            == self.buffer@.len()
                    },
                },
                Err(_) => true,
            },
    {
        let mut expected = match self.forall_line(0, warnings) {
            Ok(forall_stmt) => {
                return Ok(Some(forall_stmt));
            },
            Err(e) => e,
        };

        match self.rule(0) {
            Ok(rule) => {
                return Ok(Some(rule));
            },
            Err(e) => {
                expected.join(e);
            },
        }

        match self.empty(0) {
            Ok(_) => {
                return Ok(None);
            },
            Err(e) => {
                expected.join(e);
            },
        }

        Err(expected)
    }
}

} // verus!
