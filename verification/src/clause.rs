//! The clause model: ordered implication chains of conjunctive blocks,
//! free-variable pinning, and unification of stored clauses against
//! ground predicate instances.

use vstd::prelude::*;
use crate::atom::{Atom, AtomModel, Ident, Var, spec_pin_var, spec_match_predicate};

verus! {

broadcast use {vstd::seq::Seq::lemma_push_map_commute, vstd::seq::Seq::lemma_take_succ_push};

/// The mathematical value of a clause over `Var` arguments.
pub type ClauseModel = Seq<Seq<AtomModel<Var>>>;

/// An ordered sequence of conjunctive blocks ("and-chains"). Semantically
/// block 0 implies block 1 implies block 2 and so on; a clause with a
/// single block is a bare conjunction (a fact), with no implication.
#[derive(Debug)]
pub struct Clause<T>(pub Vec<Vec<Atom<T>>>);

/// The mathematical value of one block of atoms.
pub open spec fn block_model<T>(block: Seq<Atom<T>>) -> Seq<AtomModel<T>> {
    block.map_values(|a: Atom<T>| a@)
}

/// The mathematical value of a vector of blocks.
pub open spec fn blocks_model<T>(blocks: Seq<Vec<Atom<T>>>) -> Seq<Seq<AtomModel<T>>> {
    blocks.map_values(|block: Vec<Atom<T>>| block_model(block@))
}

impl<T> View for Clause<T> {
    type V = Seq<Seq<AtomModel<T>>>;

    open spec fn view(&self) -> Seq<Seq<AtomModel<T>>> {
        blocks_model(self.0@)
    }
}

/// The distinct unknown idents of one block, appended to `acc` in
/// first-occurrence order.
pub open spec fn spec_unknowns_in_block<T>(
    block: Seq<AtomModel<T>>,
    acc: Seq<Ident>,
) -> Seq<Ident>
    decreases block.len(),
{
    if block.len() == 0 {
        acc
    } else {
        let acc2 = match block[0] {
            AtomModel::Unknown(i) => if acc.contains(i) {
                acc
            } else {
                acc.push(i)
            },
            _ => acc,
        };
        spec_unknowns_in_block(block.drop_first(), acc2)
    }
}

pub open spec fn spec_unknowns_acc<T>(
    blocks: Seq<Seq<AtomModel<T>>>,
    acc: Seq<Ident>,
) -> Seq<Ident>
    decreases blocks.len(),
{
    if blocks.len() == 0 {
        acc
    } else {
        spec_unknowns_acc(blocks.drop_first(), spec_unknowns_in_block(blocks[0], acc))
    }
}

/// The distinct unknown idents of a clause, in first-occurrence order.
/// This order is the contract for the order of truth values that
/// resolution returns.
pub open spec fn spec_unknowns<T>(c: Seq<Seq<AtomModel<T>>>) -> Seq<Ident> {
    spec_unknowns_acc(c, Seq::empty())
}

/// Lift a ground atom into the free/fixed representation used inside the
/// engine: every argument ident becomes a fixed var.
pub open spec fn spec_lift_atom(a: AtomModel<Ident>) -> AtomModel<Var> {
    match a {
        AtomModel::Boolean(b) => AtomModel::Boolean(b),
        AtomModel::Unknown(i) => AtomModel::Unknown(i),
        AtomModel::Predicate(n, args) => AtomModel::Predicate(
            n,
            args.map_values(|i: Ident| Var::Fixed(i)),
        ),
    }
}

/// Lift one block of ground atoms into the var representation.
pub open spec fn lift_block(b: Seq<AtomModel<Ident>>) -> Seq<AtomModel<Var>> {
    b.map_values(|a: AtomModel<Ident>| spec_lift_atom(a))
}

pub open spec fn spec_lift_clause(c: Seq<Seq<AtomModel<Ident>>>) -> ClauseModel {
    c.map_values(|b: Seq<AtomModel<Ident>>| lift_block(b))
}

/// Pin every occurrence of a free variable throughout one block.
pub open spec fn pin_block(b: Seq<AtomModel<Var>>, to_pin: Ident, pin_to: Ident) -> Seq<
    AtomModel<Var>,
> {
    b.map_values(|a: AtomModel<Var>| spec_pin_var(a, to_pin, pin_to))
}

/// Pin every occurrence of a free variable throughout a clause.
pub open spec fn spec_pin_clause(c: ClauseModel, to_pin: Ident, pin_to: Ident) -> ClauseModel {
    c.map_values(|b: Seq<AtomModel<Var>>| pin_block(b, to_pin, pin_to))
}

/// Apply a whole pin map to a clause, binding for binding.
pub open spec fn spec_apply_pins(c: ClauseModel, pins: Seq<(Ident, Ident)>) -> ClauseModel
    decreases pins.len(),
{
    if pins.len() == 0 {
        c
    } else {
        spec_apply_pins(spec_pin_clause(c, pins[0].0, pins[0].1), pins.drop_first())
    }
}

/// One unification round of clause `c` against the atoms of one block:
/// for each atom that unifies with the ground predicate, the fully pinned
/// copy of `c` joins `acc` unless an identical copy is already present.
pub open spec fn spec_matches_block(
    c: ClauseModel,
    block: Seq<AtomModel<Var>>,
    name: Ident,
    args: Seq<Ident>,
    acc: Seq<ClauseModel>,
) -> Seq<ClauseModel>
    decreases block.len(),
{
    if block.len() == 0 {
        acc
    } else {
        let acc2 = match spec_match_predicate(block[0], name, args) {
            Some(pins) => {
                let pc = spec_apply_pins(c, pins);
                if acc.contains(pc) {
                    acc
                } else {
                    acc.push(pc)
                }
            },
            None => acc,
        };
        spec_matches_block(c, block.drop_first(), name, args, acc2)
    }
}

pub open spec fn spec_matches_acc(
    c: ClauseModel,
    blocks: Seq<Seq<AtomModel<Var>>>,
    name: Ident,
    args: Seq<Ident>,
    acc: Seq<ClauseModel>,
) -> Seq<ClauseModel>
    decreases blocks.len(),
{
    if blocks.len() == 0 {
        acc
    } else {
        spec_matches_acc(
            c,
            blocks.drop_first(),
            name,
            args,
            spec_matches_block(c, blocks[0], name, args, acc),
        )
    }
}

/// All distinct pinned instances of clause `c` obtained by unifying each
/// of its atoms in turn with the ground predicate `name(args)`, appended
/// to `acc` without duplicates.
pub open spec fn spec_matches(
    c: ClauseModel,
    name: Ident,
    args: Seq<Ident>,
    acc: Seq<ClauseModel>,
) -> Seq<ClauseModel> {
    spec_matches_acc(c, c, name, args, acc)
}

/// The clause values held by a vector of clauses.
pub open spec fn clause_views(s: Seq<Clause<Var>>) -> Seq<ClauseModel> {
    s.map_values(|c: Clause<Var>| c@)
}

/// Whether a vector of idents holds a given ident.
pub(crate) fn contains_ident(v: &Vec<Ident>, x: Ident) -> (r: bool)
    ensures
        r == v@.contains(x),
{
    let n = v.len();
    let mut i: usize = 0;
    while i < n
        invariant
            n == v@.len(),
            i <= n,
            forall|j: int| 0 <= j < i ==> v@[j] != x,
        decreases n - i,
    {
        if v[i] == x {
            proof {
                assert(v@.contains(x));
            }
            return true;
        }
        i = i + 1;
    }
    false
}

impl<T> Clause<T> {
    pub fn new(and_chains: Vec<Vec<Atom<T>>>) -> (r: Self)
        ensures
            r.0 == and_chains,
    {
        Self(and_chains)
    }

    /// Collect, in first-occurrence order, the distinct idents used as
    /// unknowns inside the clause.
    pub fn unknowns(&self) -> (r: Vec<Ident>)
        ensures
            r@ == spec_unknowns(self@),
    {
        let mut unknowns: Vec<Ident> = Vec::new();
        let nb = self.0.len();
        let mut bi: usize = 0;
        proof {
            assert(self@.skip(0) =~= self@);
        }
        while bi < nb
            invariant
                nb == self@.len(),
                self@.len() == self.0@.len(),
                bi <= nb,
                spec_unknowns_acc(self@.skip(bi as int), unknowns@) == spec_unknowns(self@),
            decreases nb - bi,
        {
            let na = self.0[bi].len();
            let mut ai: usize = 0;
            proof {
                assert(self@[bi as int] =~= self@[bi as int].skip(0));
                assert(self@.skip(bi as int).drop_first() =~= self@.skip(bi + 1));
                assert(self@.skip(bi as int)[0] == self@[bi as int]);
            }
            while ai < na
                invariant
                    nb == self@.len(),
                    self@.len() == self.0@.len(),
                    bi < nb,
                    na == self@[bi as int].len(),
                    self@[bi as int].len() == self.0@[bi as int]@.len(),
                    ai <= na,
                    spec_unknowns_acc(
                        self@.skip(bi + 1),
                        spec_unknowns_in_block(self@[bi as int].skip(ai as int), unknowns@),
                    ) == spec_unknowns(self@),
                decreases na - ai,
            {
                let ghost pre = self@[bi as int].skip(ai as int);
                proof {
                    assert(pre[0] == self@[bi as int][ai as int]);
                    assert(pre.drop_first() =~= self@[bi as int].skip(ai + 1));
                }
                match &self.0[bi][ai] {
                    Atom::Unknown(id) => {
                        if !contains_ident(&unknowns, *id) {
                            unknowns.push(*id);
                        }
                    },
                    _ => {},
                }
                ai = ai + 1;
            }
            proof {
                assert(self@[bi as int].skip(na as int).len() == 0);
            }
            bi = bi + 1;
        }
        proof {
            assert(self@.skip(nb as int).len() == 0);
        }
        unknowns
    }
}

impl Clause<Ident> {
    /// Lift a ground clause into the var representation used internally:
    /// every argument becomes a fixed var.
    pub fn into_varclause(self) -> (r: Clause<Var>)
        ensures
            r@ == spec_lift_clause(self@),
    {
        let mut blocks: Vec<Vec<Atom<Var>>> = Vec::new();
        let nb = self.0.len();
        let mut bi: usize = 0;
        while bi < nb
            invariant
                nb == self@.len(),
                self@.len() == self.0@.len(),
                bi <= nb,
                blocks_model(blocks@) == spec_lift_clause(self@).take(bi as int),
            decreases nb - bi,
        {
            let mut blk: Vec<Atom<Var>> = Vec::new();
            let na = self.0[bi].len();
            let mut ai: usize = 0;
            while ai < na
                invariant
                    nb == self@.len(),
                    self@.len() == self.0@.len(),
                    bi < nb,
                    na == self@[bi as int].len(),
                    self@[bi as int].len() == self.0@[bi as int]@.len(),
                    ai <= na,
                    block_model(blk@) == lift_block(self@[bi as int]).take(ai as int),
                decreases na - ai,
            {
                let lifted: Atom<Var> = match &self.0[bi][ai] {
                    Atom::Boolean(b) => Atom::Boolean(*b),
                    Atom::Unknown(i) => Atom::Unknown(*i),
                    Atom::Predicate(name, args) => {
                        let mut new_args: Vec<Var> = Vec::new();
                        let m = args.len();
                        let mut k: usize = 0;
                        while k < m
                            invariant
                                m == args@.len(),
                                k <= m,
                                new_args@ == args@.map_values(|i: Ident| Var::Fixed(i)).take(
                                    k as int,
                                ),
                            decreases m - k,
                        {
                            new_args.push(Var::Fixed(args[k]));
                            proof {
                                assert(new_args@ =~= args@.map_values(|i: Ident| Var::Fixed(i)).take(
                                    k + 1,
                                ));
                            }
                            k = k + 1;
                        }
                        proof {
                            assert(new_args@ =~= args@.map_values(|i: Ident| Var::Fixed(i)));
                        }
                        Atom::Predicate(*name, new_args)
                    },
                };
                proof {
                    assert(lifted@ == spec_lift_atom(self@[bi as int][ai as int]));
                }
                blk.push(lifted);
                proof {
                    assert(block_model(blk@) =~= lift_block(self@[bi as int]).take(ai + 1));
                }
                ai = ai + 1;
            }
            proof {
                assert(block_model(blk@) =~= lift_block(self@[bi as int]));
            }
            blocks.push(blk);
            proof {
                assert(blocks_model(blocks@) =~= spec_lift_clause(self@).take(bi + 1));
            }
            bi = bi + 1;
        }
        let r = Clause(blocks);
        proof {
            assert(r@ =~= spec_lift_clause(self@));
        }
        r
    }
}

impl Clause<Var> {
    /// A structurally equal copy of this clause.
    pub fn deep_clone(&self) -> (r: Clause<Var>)
        ensures
            r@ == self@,
    {
        let mut blocks: Vec<Vec<Atom<Var>>> = Vec::new();
        let nb = self.0.len();
        let mut bi: usize = 0;
        while bi < nb
            invariant
                nb == self@.len(),
                self@.len() == self.0@.len(),
                bi <= nb,
                blocks_model(blocks@) == self@.take(bi as int),
            decreases nb - bi,
        {
            let mut blk: Vec<Atom<Var>> = Vec::new();
            let na = self.0[bi].len();
            let mut ai: usize = 0;
            while ai < na
                invariant
                    nb == self@.len(),
                    self@.len() == self.0@.len(),
                    bi < nb,
                    na == self@[bi as int].len(),
                    self@[bi as int].len() == self.0@[bi as int]@.len(),
                    ai <= na,
                    block_model(blk@) == self@[bi as int].take(ai as int),
                decreases na - ai,
            {
                blk.push(self.0[bi][ai].deep_clone());
                proof {
                    assert(block_model(blk@) =~= self@[bi as int].take(ai + 1));
                }
                ai = ai + 1;
            }
            proof {
                assert(block_model(blk@) =~= self@[bi as int]);
            }
            blocks.push(blk);
            proof {
                assert(blocks_model(blocks@) =~= self@.take(bi + 1));
            }
            bi = bi + 1;
        }
        let r = Clause(blocks);
        proof {
            assert(r@ =~= self@);
        }
        r
    }

    /// Structural equality of two clauses.
    pub fn same_as(&self, other: &Clause<Var>) -> (r: bool)
        ensures
            r == (self@ == other@),
    {
        if self.0.len() != other.0.len() {
            return false;
        }
        let nb = self.0.len();
        let mut bi: usize = 0;
        while bi < nb
            invariant
                nb == self@.len(),
                self@.len() == self.0@.len(),
                other@.len() == nb,
                other@.len() == other.0@.len(),
                bi <= nb,
                forall|j: int| 0 <= j < bi ==> self@[j] == other@[j],
            decreases nb - bi,
        {
            if self.0[bi].len() != other.0[bi].len() {
                proof {
                    assert(self@[bi as int].len() != other@[bi as int].len());
                }
                return false;
            }
            let na = self.0[bi].len();
            let mut ai: usize = 0;
            while ai < na
                invariant
                    nb == self@.len(),
                    self@.len() == self.0@.len(),
                    other@.len() == nb,
                    other@.len() == other.0@.len(),
                    bi < nb,
                    na == self@[bi as int].len(),
                    self@[bi as int].len() == self.0@[bi as int]@.len(),
                    other@[bi as int].len() == na,
                    other@[bi as int].len() == other.0@[bi as int]@.len(),
                    ai <= na,
                    forall|j: int| 0 <= j < bi ==> self@[j] == other@[j],
                    forall|j: int| 0 <= j < ai ==> self@[bi as int][j] == other@[bi as int][j],
                decreases na - ai,
            {
                if !self.0[bi][ai].same_as(&other.0[bi][ai]) {
                    proof {
                        assert(self@[bi as int][ai as int] != other@[bi as int][ai as int]);
                    }
                    return false;
                }
                ai = ai + 1;
            }
            proof {
                assert(self@[bi as int] =~= other@[bi as int]);
            }
            bi = bi + 1;
        }
        proof {
            assert(self@ =~= other@);
        }
        true
    }

    /// Pin all occurrences of a free variable to a fixed value throughout
    /// the clause, producing the specialized form in place.
    pub fn pin(&mut self, to_pin: Ident, pin_to: Ident)
        ensures
            final(self)@ == spec_pin_clause(old(self)@, to_pin, pin_to),
    {
        let mut blocks: Vec<Vec<Atom<Var>>> = Vec::new();
        let nb = self.0.len();
        let mut bi: usize = 0;
        while bi < nb
            invariant
                nb == self@.len(),
                self@.len() == self.0@.len(),
                self@ == old(self)@,
                self.0@ == old(self).0@,
                bi <= nb,
                blocks_model(blocks@) == spec_pin_clause(self@, to_pin, pin_to).take(bi as int),
            decreases nb - bi,
        {
            let mut blk: Vec<Atom<Var>> = Vec::new();
            let na = self.0[bi].len();
            let mut ai: usize = 0;
            while ai < na
                invariant
                    nb == self@.len(),
                    self@.len() == self.0@.len(),
                    self@ == old(self)@,
                    self.0@ == old(self).0@,
                    bi < nb,
                    na == self@[bi as int].len(),
                    self@[bi as int].len() == self.0@[bi as int]@.len(),
                    ai <= na,
                    block_model(blk@) == pin_block(self@[bi as int], to_pin, pin_to).take(
                        ai as int,
                    ),
                decreases na - ai,
            {
                let mut a = self.0[bi][ai].deep_clone();
                a.pin_var(to_pin, pin_to);
                blk.push(a);
                proof {
                    assert(block_model(blk@) =~= pin_block(self@[bi as int], to_pin, pin_to).take(
                        ai + 1,
                    ));
                }
                ai = ai + 1;
            }
            proof {
                assert(block_model(blk@) =~= pin_block(self@[bi as int], to_pin, pin_to));
            }
            blocks.push(blk);
            proof {
                assert(blocks_model(blocks@) =~= spec_pin_clause(self@, to_pin, pin_to).take(
                    bi + 1,
                ));
            }
            bi = bi + 1;
        }
        proof {
            assert(blocks_model(blocks@) =~= spec_pin_clause(self@, to_pin, pin_to));
        }
        self.0 = blocks;
    }

    /// The copy of this clause specialized by a whole pin map.
    fn pinned_instance(&self, pins: &Vec<(Ident, Ident)>) -> (r: Clause<Var>)
        ensures
            r@ == spec_apply_pins(self@, pins@),
    {
        let mut c = self.deep_clone();
        let m = pins.len();
        let mut k: usize = 0;
        proof {
            assert(pins@.skip(0) =~= pins@);
        }
        while k < m
            invariant
                m == pins@.len(),
                k <= m,
                spec_apply_pins(self@, pins@) == spec_apply_pins(c@, pins@.skip(k as int)),
            decreases m - k,
        {
            let ghost pre = pins@.skip(k as int);
            proof {
                assert(pre[0] == pins@[k as int]);
                assert(pre.drop_first() =~= pins@.skip(k + 1));
            }
            let (to_pin, pin_to) = pins[k];
            c.pin(to_pin, pin_to);
            k = k + 1;
        }
        proof {
            assert(pins@.skip(m as int).len() == 0);
        }
        c
    }

    /// Whether an accumulator already holds a structurally identical
    /// clause.
    fn already_present(accumulator: &Vec<Clause<Var>>, c: &Clause<Var>) -> (r: bool)
        ensures
            r == clause_views(accumulator@).contains(c@),
    {
        let n = accumulator.len();
        let mut i: usize = 0;
        while i < n
            invariant
                n == accumulator@.len(),
                i <= n,
                forall|j: int| 0 <= j < i ==> clause_views(accumulator@)[j] != c@,
            decreases n - i,
        {
            if accumulator[i].same_as(c) {
                proof {
                    assert(clause_views(accumulator@)[i as int] == c@);
                    assert(clause_views(accumulator@).contains(c@));
                }
                return true;
            }
            i = i + 1;
        }
        false
    }

    /// Unify the ground predicate `name(args)` against every atom of this
    /// clause; for each success, append the fully pinned copy of the
    /// clause to the accumulator unless an identical pinned clause is
    /// already present.
    pub fn matches(&self, predicate: (&Ident, &Vec<Ident>), accumulator: &mut Vec<Clause<Var>>)
        ensures
            clause_views(final(accumulator)@) == spec_matches(
                self@,
                *predicate.0,
                predicate.1@,
                clause_views(old(accumulator)@),
            ),
    {
        let (name, args) = predicate;
        let nb = self.0.len();
        let mut bi: usize = 0;
        proof {
            assert(self@.skip(0) =~= self@);
        }
        while bi < nb
            invariant
                nb == self@.len(),
                self@.len() == self.0@.len(),
                bi <= nb,
                name == predicate.0,
                args == predicate.1,
                spec_matches_acc(
                    self@,
                    self@.skip(bi as int),
                    *name,
                    args@,
                    clause_views(accumulator@),
                ) == spec_matches(self@, *predicate.0, predicate.1@, clause_views(old(
                    accumulator,
                )@)),
            decreases nb - bi,
        {
            let na = self.0[bi].len();
            let mut ai: usize = 0;
            proof {
                assert(self@[bi as int] =~= self@[bi as int].skip(0));
                assert(self@.skip(bi as int)[0] == self@[bi as int]);
                assert(self@.skip(bi as int).drop_first() =~= self@.skip(bi + 1));
            }
            while ai < na
                invariant
                    nb == self@.len(),
                    self@.len() == self.0@.len(),
                    bi < nb,
                    na == self@[bi as int].len(),
                    self@[bi as int].len() == self.0@[bi as int]@.len(),
                    ai <= na,
                    name == predicate.0,
                    args == predicate.1,
                    spec_matches_acc(
                        self@,
                        self@.skip(bi + 1),
                        *name,
                        args@,
                        spec_matches_block(
                            self@,
                            self@[bi as int].skip(ai as int),
                            *name,
                            args@,
                            clause_views(accumulator@),
                        ),
                    ) == spec_matches(self@, *predicate.0, predicate.1@, clause_views(old(
                        accumulator,
                    )@)),
                decreases na - ai,
            {
                let ghost pre = self@[bi as int].skip(ai as int);
                proof {
                    assert(pre[0] == self@[bi as int][ai as int]);
                    assert(pre.drop_first() =~= self@[bi as int].skip(ai + 1));
                }
                match self.0[bi][ai].match_predicate((name, args)) {
                    Some(pins) => {
                        let pinned = self.pinned_instance(&pins);
                        if !Self::already_present(accumulator, &pinned) {
                            let ghost before = clause_views(accumulator@);
                            accumulator.push(pinned);
                            proof {
                                assert(clause_views(accumulator@) =~= before.push(
                                    spec_apply_pins(self@, pins@),
                                ));
                            }
                        }
                    },
                    None => {},
                }
                ai = ai + 1;
            }
            proof {
                assert(self@[bi as int].skip(na as int).len() == 0);
            }
            bi = bi + 1;
        }
        proof {
            assert(self@.skip(nb as int).len() == 0);
        }
    }
}

} // verus!
