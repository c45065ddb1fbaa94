//! The knowledge-base facade: it owns the asserted clauses, and resolves
//! queries by building a per-query implication graph, expanding it by
//! matching predicates against the knowledge base, and propagating
//! constraints to a fixpoint.

use vstd::prelude::*;
use crate::atom::{Atom, AtomModel, Ident, Var};
use crate::clause::{Clause, ClauseModel, clause_views, spec_lift_clause, spec_unknowns, spec_matches};
use crate::graph::{
    GraphModel, ImplicationGraph, spec_add_clause, spec_find_or_insert_atom, wf_graph,
};

verus! {

/// The truth value determined for one query unknown.
#[derive(Debug, Clone, Copy, PartialEq, Eq, Structural)]
pub enum UnknownValue {
    True,
    False,
    /// Both truth assignments remain consistent with current knowledge.
    Either,
    /// A logical contradiction: the unknown would have to be true and
    /// false at once.
    Neither,
}

/// Possible results after pruning the implication graph once.
#[derive(Debug, Clone, Copy, PartialEq, Eq, Structural)]
pub enum Resolution {
    /// Resolution is finished: the unknown's value has been determined.
    Done(UnknownValue),
    /// A logical contradiction was encountered; resolution cannot
    /// continue.
    Contradiction,
    /// Progress has been made but the unknown's value is not determined
    /// yet.
    Progressed,
    /// No further propagation rule fired.
    Halted,
}

/// The knowledge base: the exclusively owned list of asserted clauses.
pub struct LogicEngine {
    known_clauses: Vec<Clause<Var>>,
}

impl View for LogicEngine {
    type V = Seq<ClauseModel>;

    closed spec fn view(&self) -> Seq<ClauseModel> {
        clause_views(self.known_clauses@)
    }
}

impl Default for LogicEngine {
    /// An empty knowledge base.
    fn default() -> (r: Self)
        ensures
            r@ == Seq::<ClauseModel>::empty(),
    {
        let r = Self { known_clauses: Vec::new() };
        proof {
            assert(r@ =~= Seq::<ClauseModel>::empty());
        }
        r
    }
}

impl LogicEngine {
    /// Assert a clause: append it to the owned clause list. Purely
    /// additive; duplicates are legal and harmless.
    pub fn add(&mut self, clause: Clause<Var>)
        ensures
            final(self)@ == old(self)@.push(clause@),
    {
        let ghost pre = self@;
        self.known_clauses.push(clause);
        proof {
            assert(self@ =~= pre.push(clause@));
        }
    }
}


/// Iteration cap on closure expansion. The pin-only-to-existing-idents
/// invariant bounds real expansions far below this; the explicit cap makes
/// termination unconditional.
pub const EXPANSION_CAP: usize = 100000;

/// Iteration cap on constraint propagation. Every productive pass strictly
/// reduces the graph's remaining slack, so real runs stop long before it.
pub const PROPAGATION_CAP: usize = 100000;

/// A bare fact (a single-block clause) carries no implication of its own;
/// it is read as implied by truth itself, so that propagation can mark its
/// atoms true.
pub open spec fn spec_with_true_premise(c: ClauseModel) -> ClauseModel {
    if c.len() == 1 {
        seq![seq![AtomModel::<Var>::Boolean(true)]] + c
    } else {
        c
    }
}

/// The ground idents of an argument list, if every slot is fixed.
pub open spec fn spec_ground_args_acc(args: Seq<Var>, acc: Seq<Ident>) -> Option<Seq<Ident>>
    decreases args.len(),
{
    if args.len() == 0 {
        Some(acc)
    } else {
        match args[0] {
            Var::Fixed(i) => spec_ground_args_acc(args.drop_first(), acc.push(i)),
            Var::Free(_) => None,
        }
    }
}

/// The name and ground arguments of a fully ground predicate atom.
pub open spec fn spec_ground_of(a: AtomModel<Var>) -> Option<(Ident, Seq<Ident>)> {
    match a {
        AtomModel::Predicate(n, args) => match spec_ground_args_acc(args, Seq::empty()) {
            Some(ids) => Some((n, ids)),
            None => None,
        },
        _ => None,
    }
}

/// All pinned instances produced by matching one ground predicate against
/// the whole knowledge base, deduplicated across clauses.
pub open spec fn spec_collect_matches(
    kb: Seq<ClauseModel>,
    name: Ident,
    args: Seq<Ident>,
    acc: Seq<ClauseModel>,
) -> Seq<ClauseModel>
    decreases kb.len(),
{
    if kb.len() == 0 {
        acc
    } else {
        spec_collect_matches(kb.drop_first(), name, args, spec_matches(kb[0], name, args, acc))
    }
}

/// Add every discovered clause to the graph, facts lifted onto a true
/// premise.
pub open spec fn spec_add_all(g: GraphModel, cs: Seq<ClauseModel>) -> GraphModel
    decreases cs.len(),
{
    if cs.len() == 0 {
        g
    } else {
        spec_add_all(spec_add_clause(g, spec_with_true_premise(cs[0])), cs.drop_first())
    }
}

/// One closure-expansion step: if pool atom `i` is a fully ground
/// predicate, every knowledge-base clause it matches joins the graph.
pub open spec fn spec_expand_atom(g: GraphModel, kb: Seq<ClauseModel>, i: int) -> GraphModel {
    match spec_ground_of(g.atoms[i]) {
        Some(p) => spec_add_all(g, spec_collect_matches(kb, p.0, p.1, Seq::empty())),
        None => g,
    }
}

/// Closure expansion: walk the growing atom pool, matching each ground
/// predicate atom against the knowledge base, until the pool is exhausted
/// or the iteration cap runs out.
pub open spec fn spec_expand(g: GraphModel, kb: Seq<ClauseModel>, i: int, fuel: nat) -> GraphModel
    decreases fuel,
{
    if fuel == 0 || i < 0 || i >= g.atoms.len() {
        g
    } else {
        spec_expand(spec_expand_atom(g, kb, i), kb, i + 1, (fuel - 1) as nat)
    }
}

/// Run resolution steps for one target atom until a terminal outcome (or
/// the cap, which reads as indeterminate).
pub open spec fn spec_propagate(g: GraphModel, target: int, fuel: nat) -> (
    GraphModel,
    UnknownValue,
)
    decreases fuel,
{
    if fuel == 0 {
        (g, UnknownValue::Either)
    } else {
        let r = crate::graph::spec_resolution_step(g, target);
        match r.1 {
            Resolution::Done(v) => (r.0, v),
            Resolution::Contradiction => (r.0, UnknownValue::Neither),
            Resolution::Halted => (r.0, UnknownValue::Either),
            Resolution::Progressed => spec_propagate(r.0, target, (fuel - 1) as nat),
        }
    }
}

/// Resolve each unknown in declaration order, threading the mutated graph
/// from one unknown to the next.
pub open spec fn spec_resolve_unknowns(
    g: GraphModel,
    unknowns: Seq<Ident>,
    acc: Seq<UnknownValue>,
) -> Seq<UnknownValue>
    decreases unknowns.len(),
{
    if unknowns.len() == 0 {
        acc
    } else {
        let r0 = spec_find_or_insert_atom(g, AtomModel::Unknown(unknowns[0]));
        let r1 = spec_propagate(r0.0, r0.1, PROPAGATION_CAP as nat);
        spec_resolve_unknowns(r1.0, unknowns.drop_first(), acc.push(r1.1))
    }
}

/// The empty per-query arena.
pub open spec fn empty_graph() -> GraphModel {
    GraphModel {
        atoms: Seq::empty(),
        nodes: Seq::empty(),
        edges: Seq::empty(),
    }
}

/// The full resolution pipeline for one query against one knowledge base:
/// seed a fresh graph with the query, expand it to closure against the
/// knowledge base, then propagate constraints for each unknown in
/// first-occurrence order.
pub open spec fn spec_resolve(
    kb: Seq<ClauseModel>,
    query: Seq<Seq<AtomModel<Ident>>>,
) -> Seq<UnknownValue> {
    let g0 = spec_add_clause(empty_graph(), spec_lift_clause(query));
    let g1 = spec_expand(g0, kb, 0, EXPANSION_CAP as nat);
    spec_resolve_unknowns(g1, spec_unknowns(query), Seq::empty())
}

/// The name and ground arguments of an atom, when it is a predicate
/// applied to fixed values only.
fn ground_predicate(a: &Atom<Var>) -> (r: Option<(Ident, Vec<Ident>)>)
    ensures
        match r {
            Some(p) => spec_ground_of(a@) == Some((p.0, p.1@)),
            None => spec_ground_of(a@) is None,
        },
{
    match a {
        Atom::Predicate(name, args) => {
            let n = args.len();
            let mut ids: Vec<Ident> = Vec::new();
            let mut k: usize = 0;
            proof {
                assert(args@.skip(0) =~= args@);
                assert(ids@ =~= Seq::<Ident>::empty());
            }
            while k < n
                invariant
                    n == args@.len(),
                    k <= n,
                    a@ == AtomModel::Predicate(*name, args@),
                    spec_ground_args_acc(args@, Seq::empty()) == spec_ground_args_acc(
                        args@.skip(k as int),
                        ids@,
                    ),
                decreases n - k,
            {
                let ghost pre = args@.skip(k as int);
                proof {
                    assert(pre[0] == args@[k as int]);
                    assert(pre.drop_first() =~= args@.skip(k + 1));
                }
                match args[k] {
                    Var::Fixed(i) => {
                        ids.push(i);
                    },
                    Var::Free(_) => {
                        return None;
                    },
                }
                k = k + 1;
            }
            proof {
                assert(args@.skip(n as int).len() == 0);
            }
            Some((*name, ids))
        },
        _ => None,
    }
}

/// Prefix a bare fact with the literal true, so that the implication
/// graph's forward propagation can establish it.
fn with_true_premise(c: Clause<Var>) -> (r: Clause<Var>)
    ensures
        r@ == spec_with_true_premise(c@),
{
    if c.0.len() != 1 {
        return c;
    }
    let mut source = c;
    let block = match source.0.pop() {
        Some(b) => b,
        None => Vec::new(),
    };
    let mut truth: Vec<Atom<Var>> = Vec::new();
    truth.push(Atom::Boolean(true));
    let mut blocks: Vec<Vec<Atom<Var>>> = Vec::new();
    blocks.push(truth);
    blocks.push(block);
    let r = Clause(blocks);
    proof {
        assert(r@ =~~= spec_with_true_premise(c@));
    }
    r
}

impl LogicEngine {
    /// Resolve a query clause against the knowledge base: build a fresh
    /// implication graph from the query, expand it to closure by matching
    /// its ground predicates against the asserted clauses, then propagate
    /// constraints to a fixpoint for each unknown. Returns one truth value
    /// per unknown, in the unknowns' first-occurrence order. Read-only
    /// over the knowledge base: all mutation is confined to the transient
    /// graph.
    pub fn resolve(&self, clause: Clause<Ident>) -> (r: Vec<UnknownValue>)
        ensures
            r@ == spec_resolve(self@, clause@),
    {
        let mut implication_graph = ImplicationGraph::new();
        let unknowns = clause.unknowns();
        let ghost query_model = clause@;
        implication_graph.add_clause(clause.into_varclause());
        proof {
            assert(implication_graph@ == spec_add_clause(
                empty_graph(),
                spec_lift_clause(query_model),
            ));
        }
        let ghost kb = self@;
        let ghost g0 = implication_graph@;

        // closure expansion: each pass over a pool atom may pull in new
        // clauses (and so new atoms); matching only binds free idents to
        // idents already present, which keeps the pool finite, and the
        // explicit cap makes that unconditional
        let mut resolved_atoms: usize = 0;
        let mut fuel: usize = EXPANSION_CAP;
        while resolved_atoms < implication_graph.atoms.len() && fuel > 0
            invariant
                wf_graph(implication_graph@),
                kb == self@,
                fuel <= EXPANSION_CAP,
                resolved_atoms <= implication_graph@.atoms.len(),
                implication_graph@.atoms.len() == implication_graph.atoms@.len(),
                spec_expand(implication_graph@, kb, resolved_atoms as int, fuel as nat)
                    == spec_expand(g0, kb, 0, EXPANSION_CAP as nat),
            decreases fuel,
        {
            let ghost g_it = implication_graph@;
            let ground = ground_predicate(&implication_graph.atoms[resolved_atoms]);
            match ground {
                Some((name, args)) => {
                    // find all clauses related to that specific predicate
                    let mut to_add: Vec<Clause<Var>> = Vec::new();
                    let nc = self.known_clauses.len();
                    let mut ci: usize = 0;
                    proof {
                        assert(kb.skip(0) =~= kb);
                        assert(clause_views(to_add@) =~= Seq::<ClauseModel>::empty());
                    }
                    while ci < nc
                        invariant
                            kb == self@,
                            nc == kb.len(),
                            kb.len() == self.known_clauses@.len(),
                            ci <= nc,
                            spec_collect_matches(
                                kb.skip(ci as int),
                                name,
                                args@,
                                clause_views(to_add@),
                            ) == spec_collect_matches(kb, name, args@, Seq::empty()),
                        decreases nc - ci,
                    {
                        let ghost pre = kb.skip(ci as int);
                        proof {
                            assert(pre[0] == kb[ci as int]);
                            assert(pre.drop_first() =~= kb.skip(ci + 1));
                            assert(kb[ci as int] == self.known_clauses@[ci as int]@);
                        }
                        self.known_clauses[ci].matches((&name, &args), &mut to_add);
                        ci = ci + 1;
                    }
                    proof {
                        assert(kb.skip(nc as int).len() == 0);
                    }
                    // add every newly discovered clause to the graph
                    let ghost cviews = clause_views(to_add@);
                    let nj = to_add.len();
                    let mut j: usize = 0;
                    proof {
                        assert(cviews.skip(0) =~= cviews);
                    }
                    while j < nj
                        invariant
                            wf_graph(implication_graph@),
                            nj == cviews.len(),
                            cviews.len() == to_add@.len(),
                            cviews == clause_views(to_add@),
                            j <= nj,
                            g_it.atoms.len() <= implication_graph@.atoms.len(),
                            implication_graph@.atoms.len() == implication_graph.atoms@.len(),
                            spec_add_all(implication_graph@, cviews.skip(j as int))
                                == spec_add_all(g_it, cviews),
                        decreases nj - j,
                    {
                        let ghost pre = cviews.skip(j as int);
                        proof {
                            assert(pre[0] == cviews[j as int]);
                            assert(pre.drop_first() =~= cviews.skip(j + 1));
                            assert(cviews[j as int] == to_add@[j as int]@);
                        }
                        let instance = with_true_premise(to_add[j].deep_clone());
                        implication_graph.add_clause(instance);
                        j = j + 1;
                    }
                    proof {
                        assert(cviews.skip(nj as int).len() == 0);
                        assert(implication_graph@ == spec_expand_atom(
                            g_it,
                            kb,
                            resolved_atoms as int,
                        ));
                    }
                },
                None => {
                    proof {
                        assert(implication_graph@ == spec_expand_atom(
                            g_it,
                            kb,
                            resolved_atoms as int,
                        ));
                    }
                },
            }
            resolved_atoms = resolved_atoms + 1;
            fuel = fuel - 1;
        }
        proof {
            assert(spec_expand(implication_graph@, kb, resolved_atoms as int, fuel as nat)
                == implication_graph@);
        }
        let ghost g_exp = implication_graph@;

        // constraint propagation, one unknown at a time, in declaration
        // order
        let mut resolvents: Vec<UnknownValue> = Vec::new();
        let nu = unknowns.len();
        let mut ui: usize = 0;
        proof {
            assert(unknowns@.skip(0) =~= unknowns@);
            assert(resolvents@ =~= Seq::<UnknownValue>::empty());
        }
        while ui < nu
            invariant
                wf_graph(implication_graph@),
                nu == unknowns@.len(),
                unknowns@.len() == unknowns.len(),
                ui <= nu,
                spec_resolve_unknowns(implication_graph@, unknowns@.skip(ui as int), resolvents@)
                    == spec_resolve_unknowns(g_exp, unknowns@, Seq::empty()),
            decreases nu - ui,
        {
            let ghost pre = unknowns@.skip(ui as int);
            proof {
                assert(pre[0] == unknowns@[ui as int]);
                assert(pre.drop_first() =~= unknowns@.skip(ui + 1));
            }
            let unknown_index = implication_graph.find_or_insert_atom(
                Atom::Unknown(unknowns[ui]),
            );
            let ghost g_p = implication_graph@;
            let mut pfuel: usize = PROPAGATION_CAP;
            let mut done: Option<UnknownValue> = None;
            while done.is_none()
                invariant
                    wf_graph(implication_graph@),
                    (unknown_index as int) < implication_graph@.atoms.len(),
                    pfuel <= PROPAGATION_CAP,
                    match done {
                        None => spec_propagate(
                            implication_graph@,
                            unknown_index as int,
                            pfuel as nat,
                        ) == spec_propagate(g_p, unknown_index as int, PROPAGATION_CAP as nat),
                        Some(v) => (implication_graph@, v) == spec_propagate(
                            g_p,
                            unknown_index as int,
                            PROPAGATION_CAP as nat,
                        ),
                    },
                decreases pfuel, (if done is Some {
                    0int
                } else {
                    1int
                }),
            {
                if pfuel == 0 {
                    done = Some(UnknownValue::Either);
                } else {
                    match implication_graph.resolution_step(unknown_index) {
                        Resolution::Done(v) => {
                            done = Some(v);
                        },
                        Resolution::Contradiction => {
                            done = Some(UnknownValue::Neither);
                        },
                        Resolution::Halted => {
                            done = Some(UnknownValue::Either);
                        },
                        Resolution::Progressed => {
                            pfuel = pfuel - 1;
                        },
                    }
                }
            }
            let value = match done {
                Some(v) => v,
                None => UnknownValue::Either,
            };
            let ghost acc0 = resolvents@;
            resolvents.push(value);
            proof {
                assert(resolvents@ =~= acc0.push(value));
            }
            ui = ui + 1;
        }
        proof {
            assert(unknowns@.skip(nu as int).len() == 0);
            assert(unknowns@ == spec_unknowns(query_model));
        }
        resolvents
    }
}

} // verus!
