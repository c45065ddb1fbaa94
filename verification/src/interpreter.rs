//! The interpreter: parses one line at a time, tracks the free-variable
//! scope state, and drives the logic engine with the resulting clauses.

use vstd::prelude::*;
use crate::atom::{Atom, AtomModel, Ident, Var};
use crate::clause::{Clause, ClauseModel, contains_ident};
use crate::diagnostic::Diagnostic;
use crate::error::Error;
use crate::logic_engine::{LogicEngine, UnknownValue, spec_resolve};
use crate::parser::Parser;
use crate::span::{Span, Spanned};
use crate::symbol::{Atom as SymAtom, Line, SymAtomModel, sym_block_model, sym_chains_model};
use crate::util::{calculate_hash, hash_chars};
use crate::warning::Warning;

verus! {

broadcast use {vstd::seq::Seq::lemma_push_map_commute, vstd::seq::Seq::lemma_take_succ_push};

/// Hash an identifier's raw text into the ident it denotes.
pub fn str_to_ident(ident_str: &str) -> (r: Ident)
    ensures
        r == Ident(hash_chars(ident_str@)),
{
    Ident(calculate_hash(ident_str))
}

/// The var an argument becomes: free if its ident was freed by the
/// enclosing scope block, fixed otherwise.
pub open spec fn spec_var_of(sp: Spanned<Ident>, free: Seq<Ident>) -> Var {
    if free.contains(sp.content) {
        Var::Free(sp.content)
    } else {
        Var::Fixed(sp.content)
    }
}

/// One parsed atom, resolved against the freed identifiers.
pub open spec fn spec_atom_to_var(a: SymAtomModel, free: Seq<Ident>) -> AtomModel<Var> {
    match a {
        SymAtomModel::True => AtomModel::Boolean(true),
        SymAtomModel::False => AtomModel::Boolean(false),
        SymAtomModel::Unknown(i) => AtomModel::Unknown(i),
        SymAtomModel::Predicate(n, args) => AtomModel::Predicate(
            n,
            args.map_values(|sp: Spanned<Ident>| spec_var_of(sp, free)),
        ),
    }
}

pub open spec fn var_block(b: Seq<SymAtomModel>, free: Seq<Ident>) -> Seq<AtomModel<Var>> {
    b.map_values(|a: SymAtomModel| spec_atom_to_var(a, free))
}

/// A whole parsed chain list as an engine clause, with freed identifiers
/// rewritten to free vars.
pub open spec fn spec_to_var_clause(chains: Seq<Seq<SymAtomModel>>, free: Seq<Ident>) -> ClauseModel {
    chains.map_values(|b: Seq<SymAtomModel>| var_block(b, free))
}

/// One parsed atom as a fully ground atom (argument spans dropped).
pub open spec fn spec_atom_to_ground(a: SymAtomModel) -> AtomModel<Ident> {
    match a {
        SymAtomModel::True => AtomModel::Boolean(true),
        SymAtomModel::False => AtomModel::Boolean(false),
        SymAtomModel::Unknown(i) => AtomModel::Unknown(i),
        SymAtomModel::Predicate(n, args) => AtomModel::Predicate(
            n,
            args.map_values(|sp: Spanned<Ident>| sp.content),
        ),
    }
}

pub open spec fn ground_block(b: Seq<SymAtomModel>) -> Seq<AtomModel<Ident>> {
    b.map_values(|a: SymAtomModel| spec_atom_to_ground(a))
}

/// A whole parsed chain list as a ground query clause.
pub open spec fn spec_to_ground_clause(chains: Seq<Seq<SymAtomModel>>) -> Seq<
    Seq<AtomModel<Ident>>,
> {
    chains.map_values(|b: Seq<SymAtomModel>| ground_block(b))
}

/// Whether an atom applies a freed identifier as an argument.
pub open spec fn atom_has_free(a: SymAtomModel, free: Seq<Ident>) -> bool {
    a matches SymAtomModel::Predicate(n, args) && exists|k: int|
        0 <= k < args.len() && free.contains((#[trigger] args[k]).content)
}

/// Whether an atom applies a freed identifier as the argument at `span`.
pub open spec fn atom_free_at_span(a: SymAtomModel, free: Seq<Ident>, span: Span) -> bool {
    a matches SymAtomModel::Predicate(n, args) && exists|k: int|
        0 <= k < args.len() && free.contains((#[trigger] args[k]).content) && args[k].span == span
}

/// Whether some atom of the chains applies a freed identifier as the
/// argument at `span`.
pub open spec fn free_arg_with_span(
    chains: Seq<Seq<SymAtomModel>>,
    free: Seq<Ident>,
    span: Span,
) -> bool {
    exists|bi: int, ai: int|
        0 <= bi < chains.len() && 0 <= ai < chains[bi].len() && atom_free_at_span(
            #[trigger] chains[bi][ai],
            free,
            span,
        )
}

/// Whether any atom of the chains applies a freed identifier.
pub open spec fn spec_chains_have_free(chains: Seq<Seq<SymAtomModel>>, free: Seq<Ident>) -> bool {
    exists|bi: int, ai: int|
        0 <= bi < chains.len() && 0 <= ai < chains[bi].len() && atom_has_free(
            #[trigger] chains[bi][ai],
            free,
        )
}

/// The interpreter's state: the scope-block flag, the identifiers freed by
/// the innermost scope header, and the knowledge base.
pub struct Interpreter {
    inside_scopeblock: bool,
    free_vars: Vec<Ident>,
    logic_engine: LogicEngine,
}

/// The mathematical value of the interpreter's state.
pub struct InterpreterModel {
    pub inside_scopeblock: bool,
    pub free_vars: Seq<Ident>,
    pub engine: Seq<ClauseModel>,
}

impl View for Interpreter {
    type V = InterpreterModel;

    closed spec fn view(&self) -> InterpreterModel {
        InterpreterModel {
            inside_scopeblock: self.inside_scopeblock,
            free_vars: self.free_vars@,
            engine: self.logic_engine@,
        }
    }
}

impl Interpreter {
    /// A fresh interpreter: no scope block, no freed variables, an empty
    /// knowledge base.
    pub fn new() -> (r: Self)
        ensures
            !r@.inside_scopeblock,
            r@.free_vars == Seq::<Ident>::empty(),
            r@.engine == Seq::<ClauseModel>::empty(),
    {
        Self { inside_scopeblock: false, free_vars: Vec::new(), logic_engine: LogicEngine::default() }
    }

    /// Resolve the parsed and-chains into an engine clause, rewriting
    /// every argument freed by the current scope block into a free var.
    fn symbol_to_clause(&self, and_chains: &Vec<Vec<Spanned<SymAtom>>>) -> (r: Clause<Var>)
        ensures
            r@ == spec_to_var_clause(sym_chains_model(and_chains@), self@.free_vars),
    {
        let ghost target = spec_to_var_clause(sym_chains_model(and_chains@), self@.free_vars);
        let mut blocks: Vec<Vec<Atom<Var>>> = Vec::new();
        let nb = and_chains.len();
        let mut bi: usize = 0;
        while bi < nb
            invariant
                nb == and_chains@.len(),
                target == spec_to_var_clause(sym_chains_model(and_chains@), self@.free_vars),
                bi <= nb,
                crate::clause::blocks_model(blocks@) == target.take(bi as int),
            decreases nb - bi,
        {
            let mut blk: Vec<Atom<Var>> = Vec::new();
            let na = and_chains[bi].len();
            let mut ai: usize = 0;
            while ai < na
                invariant
                    nb == and_chains@.len(),
                    target == spec_to_var_clause(sym_chains_model(and_chains@), self@.free_vars),
                    bi < nb,
                    na == and_chains@[bi as int]@.len(),
                    ai <= na,
                    crate::clause::block_model(blk@) == var_block(
                        sym_block_model(and_chains@[bi as int]@),
                        self@.free_vars,
                    ).take(ai as int),
                decreases na - ai,
            {
                let converted: Atom<Var> = match &and_chains[bi][ai].content {
                    SymAtom::True => Atom::Boolean(true),
                    SymAtom::False => Atom::Boolean(false),
                    SymAtom::Unknown(i) => Atom::Unknown(*i),
                    SymAtom::Predicate(n, args) => {
                        let m = args.len();
                        let mut vargs: Vec<Var> = Vec::new();
                        let mut k: usize = 0;
                        while k < m
                            invariant
                                m == args@.len(),
                                k <= m,
                                vargs@ == args@.map_values(
                                    |sp: Spanned<Ident>| spec_var_of(sp, self@.free_vars),
                                ).take(k as int),
                            decreases m - k,
                        {
                            let sp = args[k];
                            let v = if contains_ident(&self.free_vars, sp.content) {
                                Var::Free(sp.content)
                            } else {
                                Var::Fixed(sp.content)
                            };
                            vargs.push(v);
                            proof {
                                assert(vargs@ =~= args@.map_values(
                                    |sp: Spanned<Ident>| spec_var_of(sp, self@.free_vars),
                                ).take(k + 1));
                            }
                            k = k + 1;
                        }
                        proof {
                            assert(vargs@ =~= args@.map_values(
                                |sp: Spanned<Ident>| spec_var_of(sp, self@.free_vars),
                            ));
                        }
                        Atom::Predicate(*n, vargs)
                    },
                };
                proof {
                    assert(converted@ == spec_atom_to_var(
                        sym_block_model(and_chains@[bi as int]@)[ai as int],
                        self@.free_vars,
                    ));
                }
                blk.push(converted);
                proof {
                    assert(crate::clause::block_model(blk@) =~= var_block(
                        sym_block_model(and_chains@[bi as int]@),
                        self@.free_vars,
                    ).take(ai + 1));
                }
                ai = ai + 1;
            }
            proof {
                assert(crate::clause::block_model(blk@) =~= var_block(
                    sym_block_model(and_chains@[bi as int]@),
                    self@.free_vars,
                ));
            }
            blocks.push(blk);
            proof {
                assert(crate::clause::blocks_model(blocks@) =~= target.take(bi + 1));
            }
            bi = bi + 1;
        }
        let r = Clause(blocks);
        proof {
            assert(r@ =~= target);
        }
        r
    }

    /// Resolve the parsed and-chains into a fully ground query clause;
    /// a freed variable inside a question is an error, reported with the
    /// offending argument's span.
    fn symbol_to_ground_clause(&self, and_chains: &Vec<Vec<Spanned<SymAtom>>>) -> (r: Result<
        Clause<Ident>,
        Error,
    >)
        ensures
            match r {
                Ok(c) => c@ == spec_to_ground_clause(sym_chains_model(and_chains@))
                    && !spec_chains_have_free(sym_chains_model(and_chains@), self@.free_vars),
                Err(e) => spec_chains_have_free(sym_chains_model(and_chains@), self@.free_vars) && (
                e matches Error::FreedVarInQuestion { span } && free_arg_with_span(
                    sym_chains_model(and_chains@),
                    self@.free_vars,
                    span,
                )),
            },
    {
        let ghost chains = sym_chains_model(and_chains@);
        let ghost target = spec_to_ground_clause(chains);
        let mut blocks: Vec<Vec<Atom<Ident>>> = Vec::new();
        let nb = and_chains.len();
        let mut bi: usize = 0;
        while bi < nb
            invariant
                nb == and_chains@.len(),
                chains == sym_chains_model(and_chains@),
                target == spec_to_ground_clause(chains),
                bi <= nb,
                crate::clause::blocks_model(blocks@) == target.take(bi as int),
                forall|b: int, a: int|
                    0 <= b < bi && 0 <= a < chains[b].len() ==> !atom_has_free(
                        #[trigger] chains[b][a],
                        self@.free_vars,
                    ),
            decreases nb - bi,
        {
            let mut blk: Vec<Atom<Ident>> = Vec::new();
            let na = and_chains[bi].len();
            let mut ai: usize = 0;
            while ai < na
                invariant
                    nb == and_chains@.len(),
                    chains == sym_chains_model(and_chains@),
                    target == spec_to_ground_clause(chains),
                    bi < nb,
                    na == and_chains@[bi as int]@.len(),
                    ai <= na,
                    crate::clause::blocks_model(blocks@) == target.take(bi as int),
                    crate::clause::block_model(blk@) == ground_block(chains[bi as int]).take(
                        ai as int,
                    ),
                    forall|b: int, a: int|
                        0 <= b < bi && 0 <= a < chains[b].len() ==> !atom_has_free(
                            #[trigger] chains[b][a],
                            self@.free_vars,
                        ),
                    forall|a: int|
                        0 <= a < ai ==> !atom_has_free(
                            #[trigger] chains[bi as int][a],
                            self@.free_vars,
                        ),
                decreases na - ai,
            {
                let converted: Atom<Ident> = match &and_chains[bi][ai].content {
                    SymAtom::True => Atom::Boolean(true),
                    SymAtom::False => Atom::Boolean(false),
                    SymAtom::Unknown(i) => Atom::Unknown(*i),
                    SymAtom::Predicate(n, args) => {
                        let m = args.len();
                        let mut gargs: Vec<Ident> = Vec::new();
                        let mut k: usize = 0;
                        while k < m
                            invariant
                                nb == and_chains@.len(),
                                chains == sym_chains_model(and_chains@),
                                bi < nb,
                                na == and_chains@[bi as int]@.len(),
                                ai < na,
                                and_chains@[bi as int]@[ai as int].content@ matches
                                    SymAtomModel::Predicate(nn, aa) && aa == args@,
                                m == args@.len(),
                                k <= m,
                                gargs@ == args@.map_values(|sp: Spanned<Ident>| sp.content).take(
                                    k as int,
                                ),
                                forall|j: int|
                                    0 <= j < k ==> !self@.free_vars.contains(
                                        (#[trigger] args@[j]).content,
                                    ),
                            decreases m - k,
                        {
                            let sp = args[k];
                            if contains_ident(&self.free_vars, sp.content) {
                                proof {
                                    assert(chains[bi as int][ai as int] matches
                                        SymAtomModel::Predicate(nn, aa) && aa == args@);
                                    assert(atom_has_free(
                                        chains[bi as int][ai as int],
                                        self@.free_vars,
                                    ));
                                    assert(spec_chains_have_free(chains, self@.free_vars));
                                    assert(atom_free_at_span(
                                        chains[bi as int][ai as int],
                                        self@.free_vars,
                                        sp.span,
                                    ));
                                    assert(free_arg_with_span(chains, self@.free_vars, sp.span));
                                }
                                return Err(Error::FreedVarInQuestion { span: sp.span });
                            }
                            gargs.push(sp.content);
                            proof {
                                assert(gargs@ =~= args@.map_values(
                                    |sp: Spanned<Ident>| sp.content,
                                ).take(k + 1));
                            }
                            k = k + 1;
                        }
                        proof {
                            assert(gargs@ =~= args@.map_values(|sp: Spanned<Ident>| sp.content));
                        }
                        Atom::Predicate(*n, gargs)
                    },
                };
                proof {
                    assert(converted@ == spec_atom_to_ground(chains[bi as int][ai as int]));
                    assert(!atom_has_free(chains[bi as int][ai as int], self@.free_vars));
                }
                blk.push(converted);
                proof {
                    assert(crate::clause::block_model(blk@) =~= ground_block(
                        chains[bi as int],
                    ).take(ai + 1));
                }
                ai = ai + 1;
            }
            proof {
                assert(crate::clause::block_model(blk@) =~= ground_block(chains[bi as int]));
            }
            blocks.push(blk);
            proof {
                assert(crate::clause::blocks_model(blocks@) =~= target.take(bi + 1));
            }
            bi = bi + 1;
        }
        let r = Clause(blocks);
        proof {
            assert(r@ =~= target);
            assert(!spec_chains_have_free(chains, self@.free_vars));
        }
        Ok(r)
    }

    /// Apply one parsed line to the interpreter's state: a scope header
    /// frees its identifiers for the following indented rules; a rule is
    /// either asserted into the knowledge base or, if it is a question,
    /// resolved against it.
    pub fn execute_line(&mut self, parsed_line: Spanned<Line>, warnings: &mut Vec<Warning>) -> (r:
        Result<Option<Vec<UnknownValue>>, Diagnostic>)
        ensures
            old(warnings)@.is_prefix_of(final(warnings)@),
            parsed_line.content matches Line::Forall(ids) ==> {
                &&& r matches Ok(v) && v is None
                &&& final(self)@.inside_scopeblock
                &&& final(self)@.free_vars == ids@.map_values(|sp: Spanned<Ident>| sp.content)
                &&& final(self)@.engine == old(self)@.engine
            },
            parsed_line.content matches Line::Rule(ind, isq, chains) ==> {
                let was_inside = old(self)@.inside_scopeblock;
                let freed = if was_inside && !ind {
                    Seq::<Ident>::empty()
                } else {
                    old(self)@.free_vars
                };
                let model = sym_chains_model(chains@);
                &&& (!was_inside && ind) ==> (r is Err && final(self)@.engine == old(self)@.engine)
                &&& !(!was_inside && ind) ==> {
                    &&& final(self)@.free_vars == freed
                    &&& (isq ==> match r {
                        Ok(v) => v matches Some(vals) && !spec_chains_have_free(model, freed)
                            && vals@ == spec_resolve(old(self)@.engine, spec_to_ground_clause(model))
                            && final(self)@.engine == old(self)@.engine,
                        Err(_) => spec_chains_have_free(model, freed) && final(self)@.engine
                            == old(self)@.engine,
                    })
                    &&& (!isq ==> (r matches Ok(v) && v is None && final(self)@.engine == old(
                        self,
                    )@.engine.push(spec_to_var_clause(model, freed))))
                }
            },
    {
        proof {
            assert(old(warnings)@.is_prefix_of(warnings@)) by {
                assert(warnings@.subrange(0, old(warnings)@.len() as int) =~= old(warnings)@);
            }
        }
        let line_span = parsed_line.span;
        match parsed_line.content {
            Line::Forall(free_vars) => {
                self.inside_scopeblock = true;
                let m = free_vars.len();
                let mut freed: Vec<Ident> = Vec::new();
                let mut k: usize = 0;
                while k < m
                    invariant
                        m == free_vars@.len(),
                        k <= m,
                        freed@ == free_vars@.map_values(|sp: Spanned<Ident>| sp.content).take(
                            k as int,
                        ),
                    decreases m - k,
                {
                    freed.push(free_vars[k].content);
                    proof {
                        assert(freed@ =~= free_vars@.map_values(
                            |sp: Spanned<Ident>| sp.content,
                        ).take(k + 1));
                    }
                    k = k + 1;
                }
                proof {
                    assert(freed@ =~= free_vars@.map_values(|sp: Spanned<Ident>| sp.content));
                }
                self.free_vars = freed;
                Ok(None)
            },
            Line::Rule(is_indented, is_question, and_chains) => {
                // check the indentation level against the scope state
                if self.inside_scopeblock && !is_indented {
                    // the scope block ends with the first unindented rule
                    self.inside_scopeblock = false;
                    self.free_vars = Vec::new();
                    proof {
                        assert(self@.free_vars =~= Seq::<Ident>::empty());
                    }
                } else if !self.inside_scopeblock && is_indented {
                    return Err(Diagnostic::from_error(&Error::UnexpectedIndent));
                }

                // context-free checks that only raise warnings
                sanity_check_clause(&and_chains, line_span, warnings);

                if is_question {
                    let question: Clause<Ident> = match self.symbol_to_ground_clause(
                        &and_chains,
                    ) {
                        Ok(c) => c,
                        Err(e) => {
                            return Err(Diagnostic::from_error(&e));
                        },
                    };
                    let values = self.logic_engine.resolve(question);
                    Ok(Some(values))
                } else {
                    let clause: Clause<Var> = self.symbol_to_clause(&and_chains);
                    self.logic_engine.add(clause);
                    Ok(None)
                }
            },
        }
    }

    /// Parse one line of input and apply it: assert a rule, resolve a
    /// question (returning one truth value per unknown, in first-occurrence
    /// order), or open a free-variable scope. Warnings about the line are
    /// appended to `warnings`.
    pub fn execute(&mut self, line: &str, warnings: &mut Vec<Warning>) -> (r: Result<
        Option<Vec<UnknownValue>>,
        Diagnostic,
    >)
        ensures
            old(warnings)@.is_prefix_of(final(warnings)@),
            r is Err ==> final(self)@.engine == old(self)@.engine,
            r matches Ok(v) ==> (v matches Some(vals) ==> (final(self)@.engine == old(
                self,
            )@.engine && exists|q: Seq<Seq<AtomModel<Ident>>>|
                vals@ == spec_resolve(old(self)@.engine, q))),
            r matches Ok(v) ==> (v is None ==> (final(self)@.engine == old(self)@.engine || exists|
                c: ClauseModel,
            | final(self)@.engine == old(self)@.engine.push(c))),
    {
        let parser = Parser::new(line);
        let line_content = match parser.line(warnings) {
            Ok(content) => content,
            Err(err) => {
                proof {
                    assert(old(warnings)@.is_prefix_of(warnings@)) by {
                        assert(warnings@.subrange(0, old(warnings)@.len() as int) =~= old(
                            warnings,
                        )@);
                    }
                }
                return Err(Diagnostic::from_parse_error(&err));
            },
        };
        match line_content {
            Some(parsed_line) => self.execute_line(parsed_line, warnings),
            None => Ok(None),
        }
    }
}

/// The span of the first boolean `true` literal in a block, if any.
pub open spec fn first_true_span(block: Seq<Spanned<SymAtom>>) -> Option<Span>
    decreases block.len(),
{
    if block.len() == 0 {
        None
    } else if block[0].content@ is True {
        Some(block[0].span)
    } else {
        first_true_span(block.drop_first())
    }
}

/// The span of the first boolean `false` literal in a block, if any.
pub open spec fn first_false_span(block: Seq<Spanned<SymAtom>>) -> Option<Span>
    decreases block.len(),
{
    if block.len() == 0 {
        None
    } else if block[0].content@ is False {
        Some(block[0].span)
    } else {
        first_false_span(block.drop_first())
    }
}

/// Whether the block holds anything besides boolean literals.
pub open spec fn block_nonliteral(block: Seq<Spanned<SymAtom>>) -> bool {
    exists|i: int|
        0 <= i < block.len() && !((#[trigger] block[i]).content@ is True) && !(block[i].content@
            is False)
}

/// The warnings one block raises: a redundant `true` conjoined with other
/// atoms, then a `false` that either nullifies a larger and-chain or, as a
/// lone non-final block, implies anything.
pub open spec fn spec_block_warnings(block: Seq<Spanned<SymAtom>>, is_last: bool) -> Seq<
    Warning,
> {
    let true_warnings = match first_true_span(block) {
        Some(span) => if block.len() != 1 {
            seq![Warning::RedundantTrue { span }]
        } else {
            Seq::empty()
        },
        None => Seq::empty(),
    };
    let false_warnings = match first_false_span(block) {
        Some(span) => if block.len() != 1 {
            seq![Warning::NullifyingFalse { span }]
        } else if !is_last {
            seq![Warning::RedundantFalse { span }]
        } else {
            Seq::empty()
        },
        None => Seq::empty(),
    };
    true_warnings + false_warnings
}

pub open spec fn spec_sanity_acc(blocks: Seq<Vec<Spanned<SymAtom>>>, acc: Seq<Warning>) -> Seq<
    Warning,
>
    decreases blocks.len(),
{
    if blocks.len() == 0 {
        acc
    } else {
        spec_sanity_acc(
            blocks.drop_first(),
            acc + spec_block_warnings(blocks[0]@, blocks.len() == 1),
        )
    }
}

pub open spec fn spec_any_nonliteral(blocks: Seq<Vec<Spanned<SymAtom>>>) -> bool {
    exists|bi: int| 0 <= bi < blocks.len() && block_nonliteral((#[trigger] blocks[bi])@)
}

/// All warnings a parsed clause raises, in block order, with a final
/// warning when the whole clause is built from literals alone.
pub open spec fn spec_sanity_warnings(
    blocks: Seq<Vec<Spanned<SymAtom>>>,
    clause_span: Span,
) -> Seq<Warning> {
    let from_blocks = spec_sanity_acc(blocks, Seq::empty());
    if spec_any_nonliteral(blocks) {
        from_blocks
    } else {
        from_blocks.push(Warning::PurelyLiteralClause { span: clause_span })
    }
}

/// The span of the first `true` (or, with `want_true` unset, `false`)
/// literal in a block.
fn find_first_literal(block: &Vec<Spanned<SymAtom>>, want_true: bool) -> (r: Option<Span>)
    ensures
        want_true ==> r == first_true_span(block@),
        !want_true ==> r == first_false_span(block@),
{
    let n = block.len();
    let mut k: usize = 0;
    proof {
        assert(block@.skip(0) =~= block@);
    }
    while k < n
        invariant
            n == block@.len(),
            k <= n,
            want_true ==> first_true_span(block@) == first_true_span(block@.skip(k as int)),
            !want_true ==> first_false_span(block@) == first_false_span(block@.skip(k as int)),
        decreases n - k,
    {
        let ghost pre = block@.skip(k as int);
        proof {
            assert(pre[0] == block@[k as int]);
            assert(pre.drop_first() =~= block@.skip(k + 1));
        }
        let hit = match &block[k].content {
            SymAtom::True => want_true,
            SymAtom::False => !want_true,
            _ => false,
        };
        if hit {
            return Some(block[k].span);
        }
        k = k + 1;
    }
    proof {
        assert(block@.skip(n as int).len() == 0);
    }
    None
}

/// Whether the block holds anything besides boolean literals.
fn has_nonliteral(block: &Vec<Spanned<SymAtom>>) -> (r: bool)
    ensures
        r == block_nonliteral(block@),
{
    let n = block.len();
    let mut k: usize = 0;
    while k < n
        invariant
            n == block@.len(),
            k <= n,
            forall|i: int|
                0 <= i < k ==> ((#[trigger] block@[i]).content@ is True || block@[i].content@
                    is False),
        decreases n - k,
    {
        let literal = match &block[k].content {
            SymAtom::True | SymAtom::False => true,
            _ => false,
        };
        if !literal {
            proof {
                assert(block_nonliteral(block@));
            }
            return true;
        }
        k = k + 1;
    }
    false
}

/// Context-free checks on a parsed clause that only raise warnings: a
/// redundant `true` inside a larger and-chain, a nullifying or meaningless
/// `false`, and clauses built from literals alone.
pub fn sanity_check_clause(
    atoms: &Vec<Vec<Spanned<SymAtom>>>,
    clause_span: Span,
    warnings: &mut Vec<Warning>,
)
    ensures
        final(warnings)@ == old(warnings)@ + spec_sanity_warnings(atoms@, clause_span),
        old(warnings)@.is_prefix_of(final(warnings)@),
{
    let nb = atoms.len();
    let mut contains_non_literal = false;
    let mut bi: usize = 0;
    proof {
        assert(atoms@.skip(0) =~= atoms@);
        assert(warnings@ =~= old(warnings)@ + Seq::<Warning>::empty());
    }
    while bi < nb
        invariant
            nb == atoms@.len(),
            bi <= nb,
            contains_non_literal == (exists|b: int|
                0 <= b < bi && block_nonliteral((#[trigger] atoms@[b])@)),
            warnings@.len() >= old(warnings)@.len(),
            ({
                let added = warnings@.skip(old(warnings)@.len() as int);
                &&& warnings@ == old(warnings)@ + added
                &&& spec_sanity_acc(atoms@.skip(bi as int), added) == spec_sanity_acc(
                    atoms@,
                    Seq::empty(),
                )
            }),
        decreases nb - bi,
    {
        let ghost pre = atoms@.skip(bi as int);
        let ghost added0 = warnings@.skip(old(warnings)@.len() as int);
        proof {
            assert(pre[0] == atoms@[bi as int]);
            assert(pre.drop_first() =~= atoms@.skip(bi + 1));
            assert(pre.len() == nb - bi);
        }
        let na = atoms[bi].len();
        let block = &atoms[bi];
        let ghost bw = spec_block_warnings(atoms@[bi as int]@, bi + 1 == nb);

        let first_true = find_first_literal(block, true);
        match first_true {
            Some(span) => {
                if na != 1 {
                    warnings.push(Warning::RedundantTrue { span });
                }
            },
            None => {},
        }
        let first_false = find_first_literal(block, false);
        match first_false {
            Some(span) => {
                if na != 1 {
                    warnings.push(Warning::NullifyingFalse { span });
                } else if bi + 1 != nb {
                    warnings.push(Warning::RedundantFalse { span });
                }
            },
            None => {},
        }
        proof {
            assert(warnings@ =~= old(warnings)@ + (added0 + bw));
            assert(warnings@.skip(old(warnings)@.len() as int) =~= added0 + bw);
        }
        if has_nonliteral(block) {
            contains_non_literal = true;
        }
        bi = bi + 1;
    }
    proof {
        assert(atoms@.skip(nb as int).len() == 0);
        assert(contains_non_literal == spec_any_nonliteral(atoms@));
    }
    if !contains_non_literal {
        warnings.push(Warning::PurelyLiteralClause { span: clause_span });
    }
    proof {
        assert(warnings@ =~= old(warnings)@ + spec_sanity_warnings(atoms@, clause_span));
        assert(old(warnings)@.is_prefix_of(warnings@)) by {
            assert(warnings@.subrange(0, old(warnings)@.len() as int) =~= old(warnings)@);
        }
    }
}

} // verus!
