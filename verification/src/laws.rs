//! Engine-level laws: properties of resolution that hold for every
//! knowledge base and query, proved against the same model functions that
//! the executable engine's contracts use.

use vstd::prelude::*;
use crate::atom::{AtomModel, Ident, Var, spec_match_args, spec_match_predicate};
use crate::clause::{
    ClauseModel, spec_lift_atom, spec_lift_clause, spec_matches, spec_matches_acc,
    spec_matches_block, spec_unknowns, spec_unknowns_acc, spec_unknowns_in_block,
};
use crate::graph::{
    EdgeModel, GraphModel, NodeModel, spec_add_blocks, spec_add_clause, spec_find_or_insert_atom,
    spec_find_or_insert_node, spec_insert_atoms, spec_resolution_step, spec_successors, wf_edges,
};
use crate::graph::{
    spec_force_true_list, spec_force_succs, spec_keep_non_true, spec_pass, spec_pass_node,
    spec_set_all_true, spec_set_single_false, spec_is_trivial_false, spec_any_successor_false,
    spec_is_trivial_true, update_atom, update_node, spec_successors_from, first_pos, wf_graph,
    wf_node,
};
use crate::logic_engine::{
    EXPANSION_CAP, PROPAGATION_CAP, Resolution, UnknownValue, empty_graph, spec_collect_matches,
    spec_expand, spec_expand_atom, spec_ground_args_acc, spec_ground_of, spec_propagate,
    spec_resolve, spec_resolve_unknowns, spec_add_all,
};

verus! {

/// The truth value that constraint propagation determines for one unknown
/// against a given graph state.
pub open spec fn spec_unknown_value(g: GraphModel, u: Ident) -> UnknownValue {
    let r0 = spec_find_or_insert_atom(g, AtomModel::Unknown(u));
    spec_propagate(r0.0, r0.1, PROPAGATION_CAP as nat).1
}

/// The graph state after one unknown has been propagated; later unknowns
/// of the same query are resolved against it.
pub open spec fn spec_graph_after_unknown(g: GraphModel, u: Ident) -> GraphModel {
    let r0 = spec_find_or_insert_atom(g, AtomModel::Unknown(u));
    spec_propagate(r0.0, r0.1, PROPAGATION_CAP as nat).0
}

/// The per-query graph after closure expansion, from which the unknowns
/// are resolved in order.
pub open spec fn spec_expanded_graph(
    kb: Seq<ClauseModel>,
    query: Seq<Seq<AtomModel<Ident>>>,
) -> GraphModel {
    spec_expand(
        spec_add_clause(empty_graph(), spec_lift_clause(query)),
        kb,
        0,
        EXPANSION_CAP as nat,
    )
}

/// Resolution is a pure function of the asserted clauses and the query:
/// resolving the same query twice against an unmodified knowledge base
/// yields identical results both times. The executable `resolve` takes the
/// engine read-only and its result is pinned to `spec_resolve`, so no
/// hidden mutation of the knowledge base can show up between two calls.
pub proof fn lemma_resolve_idempotent(
    kb: Seq<ClauseModel>,
    query: Seq<Seq<AtomModel<Ident>>>,
    r1: Seq<UnknownValue>,
    r2: Seq<UnknownValue>,
)
    requires
        r1 == spec_resolve(kb, query),
        r2 == spec_resolve(kb, query),
    ensures
        r1 == r2,
{
}

proof fn lemma_resolve_unknowns_len(
    g: GraphModel,
    unknowns: Seq<Ident>,
    acc: Seq<UnknownValue>,
)
    ensures
        spec_resolve_unknowns(g, unknowns, acc).len() == acc.len() + unknowns.len(),
    decreases unknowns.len(),
{
    if unknowns.len() > 0 {
        let r0 = spec_find_or_insert_atom(g, AtomModel::Unknown(unknowns[0]));
        let r1 = spec_propagate(r0.0, r0.1, PROPAGATION_CAP as nat);
        lemma_resolve_unknowns_len(r1.0, unknowns.drop_first(), acc.push(r1.1));
    }
}

/// Resolution returns exactly one truth value per distinct unknown of the
/// query, whatever the knowledge base holds.
pub proof fn lemma_resolve_len(kb: Seq<ClauseModel>, query: Seq<Seq<AtomModel<Ident>>>)
    ensures
        spec_resolve(kb, query).len() == spec_unknowns(query).len(),
{
    lemma_resolve_unknowns_len(
        spec_expanded_graph(kb, query),
        spec_unknowns(query),
        Seq::empty(),
    );
}

/// Ordering law: for a query whose unknowns, in textual (first-occurrence)
/// order, are `y` then `x`, the returned vector's first element is `y`'s
/// value and its second is `x`'s, regardless of the knowledge base's size
/// or content; `x` is resolved against the graph state left behind by
/// `y`'s propagation.
pub proof fn lemma_resolve_ordering(
    kb: Seq<ClauseModel>,
    query: Seq<Seq<AtomModel<Ident>>>,
    y: Ident,
    x: Ident,
)
    requires
        spec_unknowns(query) == seq![y, x],
    ensures
        spec_resolve(kb, query).len() == 2,
        spec_resolve(kb, query)[0] == spec_unknown_value(spec_expanded_graph(kb, query), y),
        spec_resolve(kb, query)[1] == spec_unknown_value(
            spec_graph_after_unknown(spec_expanded_graph(kb, query), y),
            x,
        ),
{
    let g1 = spec_expanded_graph(kb, query);
    let uns = seq![y, x];
    assert(uns[0] == y);
    assert(uns.drop_first() =~= seq![x]);
    assert(seq![x][0] == x);
    assert(seq![x].drop_first() =~= Seq::<Ident>::empty());
    let ry = spec_find_or_insert_atom(g1, AtomModel::Unknown(y));
    let py = spec_propagate(ry.0, ry.1, PROPAGATION_CAP as nat);
    let g2 = py.0;
    let rx = spec_find_or_insert_atom(g2, AtomModel::Unknown(x));
    let px = spec_propagate(rx.0, rx.1, PROPAGATION_CAP as nat);
    let acc0 = Seq::<UnknownValue>::empty();
    assert(spec_resolve_unknowns(g1, uns, acc0) == spec_resolve_unknowns(
        g2,
        seq![x],
        acc0.push(py.1),
    ));
    assert(spec_resolve_unknowns(g2, seq![x], acc0.push(py.1)) == spec_resolve_unknowns(
        px.0,
        Seq::empty(),
        acc0.push(py.1).push(px.1),
    ));
    assert(spec_resolve(kb, query) =~= seq![py.1, px.1]);
}


proof fn lemma_match_args_binds(
    stored: Seq<Var>,
    query: Seq<Ident>,
    acc: Seq<(Ident, Ident)>,
    pins: Seq<(Ident, Ident)>,
)
    requires
        spec_match_args(stored, query, acc) == Some(pins),
        stored.len() == query.len(),
    ensures
        forall|j: int|
            0 <= j < pins.len() ==> (acc.contains(#[trigger] pins[j]) || query.contains(
                pins[j].1,
            )),
    decreases stored.len(),
{
    if stored.len() > 0 {
        let st = stored.drop_first();
        let qt = query.drop_first();
        assert(forall|x: Ident| qt.contains(x) ==> query.contains(x)) by {
            assert forall|x: Ident| qt.contains(x) implies query.contains(x) by {
                let j = choose|j: int| 0 <= j < qt.len() && qt[j] == x;
                assert(query[j + 1] == x);
            }
        }
        match stored[0] {
            Var::Fixed(id) => {
                lemma_match_args_binds(st, qt, acc, pins);
            },
            Var::Free(f) => {
                let acc2 = acc.push((f, query[0]));
                lemma_match_args_binds(st, qt, acc2, pins);
                assert(query.contains(query[0]));
                assert forall|j: int|
                    0 <= j < pins.len() implies (acc.contains(#[trigger] pins[j])
                    || query.contains(pins[j].1)) by {
                    if acc2.contains(pins[j]) {
                        let k = choose|k: int| 0 <= k < acc2.len() && acc2[k] == pins[j];
                        if k < acc.len() {
                            assert(acc[k] == pins[j]);
                            assert(acc.contains(pins[j]));
                        } else {
                            assert(pins[j] == (f, query[0]));
                        }
                    }
                }
            },
        }
    }
}

/// The unification step never introduces new identifiers: every pin it
/// returns binds a free variable to one of the query's own ground idents.
/// This is the invariant that keeps the set of distinct clause
/// instantiations -- and so closure expansion -- finite.
pub proof fn lemma_match_binds_existing_idents(
    a: AtomModel<Var>,
    name: Ident,
    args: Seq<Ident>,
    pins: Seq<(Ident, Ident)>,
)
    requires
        spec_match_predicate(a, name, args) == Some(pins),
    ensures
        forall|j: int| 0 <= j < pins.len() ==> args.contains((#[trigger] pins[j]).1),
{
    match a {
        AtomModel::Predicate(n, stored) => {
            lemma_match_args_binds(stored, args, Seq::empty(), pins);
        },
        _ => {},
    }
}

/// Whether a stored clause applies the predicate `name` anywhere.
pub open spec fn clause_mentions(c: ClauseModel, name: Ident) -> bool {
    exists|bi: int, ai: int|
        0 <= bi < c.len() && 0 <= ai < c[bi].len() && ((#[trigger] c[bi][ai]) matches
            AtomModel::Predicate(n, a) && n == name)
}

proof fn lemma_matches_block_unmentioned(
    c: ClauseModel,
    block: Seq<AtomModel<Var>>,
    name: Ident,
    args: Seq<Ident>,
    acc: Seq<ClauseModel>,
)
    requires
        forall|ai: int|
            0 <= ai < block.len() ==> !((#[trigger] block[ai]) matches AtomModel::Predicate(n, a)
                && n == name),
    ensures
        spec_matches_block(c, block, name, args, acc) == acc,
    decreases block.len(),
{
    if block.len() > 0 {
        assert(spec_match_predicate(block[0], name, args) is None);
        lemma_matches_block_unmentioned(c, block.drop_first(), name, args, acc);
    }
}

proof fn lemma_matches_acc_unmentioned(
    c: ClauseModel,
    blocks: Seq<Seq<AtomModel<Var>>>,
    name: Ident,
    args: Seq<Ident>,
    acc: Seq<ClauseModel>,
)
    requires
        forall|bi: int, ai: int|
            0 <= bi < blocks.len() && 0 <= ai < blocks[bi].len() ==> !((
            #[trigger] blocks[bi][ai]) matches AtomModel::Predicate(n, a) && n == name),
    ensures
        spec_matches_acc(c, blocks, name, args, acc) == acc,
    decreases blocks.len(),
{
    if blocks.len() > 0 {
        assert(forall|ai: int|
            0 <= ai < blocks[0].len() ==> !((#[trigger] blocks[0][ai]) matches
                AtomModel::Predicate(n, a) && n == name));
        lemma_matches_block_unmentioned(c, blocks[0], name, args, acc);
        assert(forall|bi: int, ai: int|
            0 <= bi < blocks.drop_first().len() && 0 <= ai < blocks.drop_first()[bi].len()
                ==> blocks.drop_first()[bi][ai] == blocks[bi + 1][ai]);
        lemma_matches_acc_unmentioned(c, blocks.drop_first(), name, args, acc);
    }
}

/// A clause that never applies the predicate contributes no pinned
/// instance when that predicate is matched against it.
pub proof fn lemma_matches_unmentioned(
    c: ClauseModel,
    name: Ident,
    args: Seq<Ident>,
    acc: Seq<ClauseModel>,
)
    requires
        !clause_mentions(c, name),
    ensures
        spec_matches(c, name, args, acc) == acc,
{
    assert(forall|bi: int, ai: int|
        0 <= bi < c.len() && 0 <= ai < c[bi].len() ==> !((#[trigger] c[bi][ai]) matches
            AtomModel::Predicate(n, a) && n == name));
    lemma_matches_acc_unmentioned(c, c, name, args, acc);
}

proof fn lemma_collect_matches_unmentioned(
    kb: Seq<ClauseModel>,
    name: Ident,
    args: Seq<Ident>,
    acc: Seq<ClauseModel>,
)
    requires
        forall|ci: int| 0 <= ci < kb.len() ==> !clause_mentions(#[trigger] kb[ci], name),
    ensures
        spec_collect_matches(kb, name, args, acc) == acc,
    decreases kb.len(),
{
    if kb.len() > 0 {
        lemma_matches_unmentioned(kb[0], name, args, acc);
        lemma_collect_matches_unmentioned(kb.drop_first(), name, args, acc);
    }
}

proof fn lemma_ground_args_fixed(vargs: Seq<Var>, ids: Seq<Ident>, acc: Seq<Ident>)
    requires
        vargs.len() == ids.len(),
        forall|k: int| 0 <= k < vargs.len() ==> vargs[k] == Var::Fixed(#[trigger] ids[k]),
    ensures
        spec_ground_args_acc(vargs, acc) == Some(acc + ids),
    decreases vargs.len(),
{
    if vargs.len() == 0 {
        assert(acc + ids =~= acc);
    } else {
        assert(vargs[0] == Var::Fixed(ids[0]));
        assert(forall|k: int|
            0 <= k < vargs.drop_first().len() ==> vargs.drop_first()[k] == Var::Fixed(
                #[trigger] ids.drop_first()[k],
            ));
        lemma_ground_args_fixed(vargs.drop_first(), ids.drop_first(), acc.push(ids[0]));
        assert(acc.push(ids[0]) + ids.drop_first() =~= acc + ids);
    }
}

/// Indeterminacy: a query about a predicate that no asserted clause even
/// mentions by name resolves to `Either` -- both truth assignments remain
/// consistent with current knowledge. The query here is the canonical
/// single-predicate question, one ground predicate atom implying one
/// unknown.
pub proof fn lemma_unmentioned_predicate_indeterminate(
    kb: Seq<ClauseModel>,
    name: Ident,
    args: Seq<Ident>,
    u: Ident,
)
    requires
        forall|ci: int| 0 <= ci < kb.len() ==> !clause_mentions(#[trigger] kb[ci], name),
    ensures
        spec_resolve(
            kb,
            seq![seq![AtomModel::<Ident>::Predicate(name, args)], seq![AtomModel::<Ident>::Unknown(u)]],
        ) == seq![UnknownValue::Either],
{
    reveal_with_fuel(crate::clause::spec_unknowns_in_block, 3);
    reveal_with_fuel(crate::clause::spec_unknowns_acc, 4);
    reveal_with_fuel(crate::graph::first_pos, 4);
    reveal_with_fuel(crate::graph::node_pos, 3);
    reveal_with_fuel(crate::graph::spec_insert_atoms, 3);
    reveal_with_fuel(crate::graph::spec_add_blocks, 4);
    reveal_with_fuel(crate::graph::spec_successors_from, 3);
    reveal_with_fuel(crate::graph::spec_pass, 4);
    reveal_with_fuel(crate::logic_engine::spec_expand, 4);
    reveal_with_fuel(crate::logic_engine::spec_propagate, 2);
    reveal_with_fuel(crate::logic_engine::spec_resolve_unknowns, 3);
    let qa = AtomModel::<Ident>::Predicate(name, args);
    let qu = AtomModel::<Ident>::Unknown(u);
    let query = seq![seq![qa], seq![qu]];
    let p = spec_lift_atom(qa);
    let uv = spec_lift_atom(qu);
    assert(uv == AtomModel::<Var>::Unknown(u));
    let qv = spec_lift_clause(query);
    assert(qv.len() == 2);
    assert(qv[0] =~= seq![p]);
    assert(qv[1] =~= seq![uv]);
    assert(qv =~= seq![seq![p], seq![uv]]);

    // the unknowns of the query, in first-occurrence order, are [u]
    let no_ids = Seq::<Ident>::empty();
    assert(seq![qa].drop_first() =~= Seq::<AtomModel<Ident>>::empty());
    assert(seq![qu].drop_first() =~= Seq::<AtomModel<Ident>>::empty());
    assert(spec_unknowns_in_block(seq![qa], no_ids) == no_ids);
    assert(!no_ids.contains(u));
    assert(spec_unknowns_in_block(seq![qu], no_ids) =~= seq![u]);
    assert(query.drop_first() =~= seq![seq![qu]]);
    assert(seq![seq![qu]].drop_first() =~= Seq::<Seq<AtomModel<Ident>>>::empty());
    assert(spec_unknowns_acc(query, no_ids) =~= seq![u]);
    assert(spec_unknowns(query) =~= seq![u]);

    // seeding the graph with the query gives two nodes and one edge
    let eg = empty_graph();
    let f1 = spec_find_or_insert_atom(eg, p);
    assert(eg.atoms.len() == 0);
    assert(f1.0.atoms =~= seq![p]);
    assert(f1.1 == 0);
    let g_a = f1.0;
    assert(g_a.nodes =~= Seq::<NodeModel>::empty());
    assert(g_a.edges =~= Seq::<EdgeModel>::empty());
    assert(seq![p].drop_first() =~= Seq::<AtomModel<Var>>::empty());
    let no_idx = Seq::<int>::empty();
    assert(spec_insert_atoms(g_a, seq![p], no_idx) == (g_a, no_idx.push(0)));
    assert(no_idx.push(0) =~= seq![0int]);
    let n1 = spec_find_or_insert_node(g_a, seq![0int]);
    let g_b = n1.0;
    assert(g_b.nodes =~= seq![NodeModel { atoms: seq![0int], first_outgoing_edge: None }]);
    assert(n1.1 == 0);
    // second block
    assert(p != uv);
    assert(g_b.atoms =~= seq![p]);
    let f2 = spec_find_or_insert_atom(g_b, uv);
    assert(seq![p].drop_first() =~= Seq::<AtomModel<Var>>::empty());
    assert(f2.1 == 1);
    let g_c = f2.0;
    assert(g_c.atoms =~= seq![p, uv]);
    assert(seq![uv].drop_first() =~= Seq::<AtomModel<Var>>::empty());
    assert(spec_insert_atoms(g_c, seq![uv], no_idx) == (g_c, no_idx.push(1)));
    assert(no_idx.push(1) =~= seq![1int]);
    assert(seq![0int] != seq![1int]) by {
        assert(seq![0int][0] == 0);
        assert(seq![1int][0] == 1);
    }
    let n2 = spec_find_or_insert_node(g_c, seq![1int]);
    let g_d = n2.0;
    assert(n2.1 == 1);
    assert(g_d.nodes =~= seq![
        NodeModel { atoms: seq![0int], first_outgoing_edge: None },
        NodeModel { atoms: seq![1int], first_outgoing_edge: None },
    ]);
    // the implication edge from the predicate's node to the unknown's node
    let g_e = crate::graph::spec_add_edge(g_d, 0, 1);
    assert(g_e.edges =~= seq![EdgeModel { implies: 1, next_outgoing_edge: None }]);
    assert(g_e.nodes =~= seq![
        NodeModel { atoms: seq![0int], first_outgoing_edge: Some(0) },
        NodeModel { atoms: seq![1int], first_outgoing_edge: None },
    ]);
    assert(g_e.atoms =~= seq![p, uv]);
    assert(qv.drop_first() =~= seq![seq![uv]]);
    assert(seq![seq![uv]].drop_first() =~= Seq::<Seq<AtomModel<Var>>>::empty());
    assert(spec_add_blocks(g_e, Seq::empty(), Some(1)) == g_e);
    assert(spec_add_blocks(g_d, seq![seq![uv]], Some(0)) == g_e);
    assert(spec_add_blocks(eg, qv, None) == g_e);
    let g0 = spec_add_clause(eg, qv);
    assert(g0 == g_e);

    // closure expansion adds nothing: the predicate matches no clause and
    // the unknown is never matched
    let margs = match p {
        AtomModel::Predicate(n2_, a2) => a2,
        _ => Seq::empty(),
    };
    assert(margs.len() == args.len());
    assert(forall|k: int| 0 <= k < margs.len() ==> margs[k] == Var::Fixed(#[trigger] args[k]));
    lemma_ground_args_fixed(margs, args, no_ids);
    assert(no_ids + args =~= args);
    assert(spec_ground_of(p) == Some((name, args)));
    lemma_collect_matches_unmentioned(kb, name, args, Seq::empty());
    assert(spec_add_all(g0, Seq::empty()) == g0);
    assert(spec_expand_atom(g0, kb, 0) == g0);
    assert(spec_ground_of(uv) is None);
    assert(spec_expand_atom(g0, kb, 1) == g0);
    let cap = EXPANSION_CAP as nat;
    assert(spec_expand(g0, kb, 0, cap) == spec_expand(g0, kb, 1, (cap - 1) as nat));
    assert(spec_expand(g0, kb, 1, (cap - 1) as nat) == spec_expand(
        g0,
        kb,
        2,
        (cap - 2) as nat,
    ));
    assert(g0.atoms.len() == 2);
    assert(spec_expand(g0, kb, 2, (cap - 2) as nat) == g0);

    // propagation: no rule fires on the two-node graph, so the unknown
    // stays indeterminate
    let fu = spec_find_or_insert_atom(g0, uv);
    assert(g0.atoms[0] == p);
    assert(g0.atoms[1] == uv);
    assert(g0.atoms.drop_first() =~= seq![uv]);
    assert(seq![uv].drop_first() =~= Seq::<AtomModel<Var>>::empty());
    assert(fu == (g0, 1int));
    // one resolution step: the canonical false atom joins the pool
    let fb = AtomModel::<Var>::Boolean(false);
    assert(!(g0.atoms[1] is Boolean));
    let ff = spec_find_or_insert_atom(g0, fb);
    assert(p != fb && uv != fb);
    assert(ff.1 == 2);
    let g1 = ff.0;
    assert(g1.atoms =~= seq![p, uv, fb]);
    assert(g1.nodes == g0.nodes);
    assert(g1.edges == g0.edges);

    // neither node is trivially false or trivially true
    assert(crate::graph::g_atom_at(g1, 0, 0) == p);
    assert(crate::graph::g_atom_at(g1, 1, 0) == uv);
    assert(!crate::graph::spec_is_trivial_false(g1, 0)) by {
        assert(forall|k: int|
            0 <= k < g1.nodes[0].atoms.len() ==> #[trigger] crate::graph::g_atom_at(g1, 0, k)
                == p);
    }
    assert(!crate::graph::spec_is_trivial_true(g1, 0)) by {
        assert(crate::graph::g_atom_at(g1, 0, 0) != AtomModel::<Var>::Boolean(true));
    }
    assert(!crate::graph::spec_is_trivial_false(g1, 1)) by {
        assert(forall|k: int|
            0 <= k < g1.nodes[1].atoms.len() ==> #[trigger] crate::graph::g_atom_at(g1, 1, k)
                == uv);
    }
    assert(!crate::graph::spec_is_trivial_true(g1, 1)) by {
        assert(crate::graph::g_atom_at(g1, 1, 0) != AtomModel::<Var>::Boolean(true));
    }
    // successors: node 0 implies node 1; node 1 implies nothing
    assert(wf_edges(g1.edges, 2));
    assert(g1.nodes[0].first_outgoing_edge == Some(0int));
    assert(g1.edges[0].implies == 1);
    assert(g1.edges[0].next_outgoing_edge == None::<int>);
    assert(crate::graph::spec_successors_from(g1, None) =~= Seq::<int>::empty());
    assert(spec_successors(g1, 0) =~= seq![1int]);
    assert(spec_successors(g1, 1) =~= Seq::<int>::empty());
    assert(!crate::graph::spec_any_successor_false(g1, 0)) by {
        assert(spec_successors(g1, 0)[0] == 1);
        assert(!crate::graph::spec_is_trivial_false(g1, 1));
    }
    assert(!crate::graph::spec_any_successor_false(g1, 1));
    assert(g1.nodes[0].atoms.len() == 1);
    assert(g1.nodes[1].atoms.len() == 1);
    assert(crate::graph::spec_pass_node(g1, 2, 0) == (g1, false, true));
    assert(crate::graph::spec_pass_node(g1, 2, 1) == (g1, false, true));
    assert(crate::graph::spec_pass(g1, 2, 2) == (g1, Some(false)));
    assert(crate::graph::spec_pass(g1, 2, 1) == (g1, Some(false)));
    assert(crate::graph::spec_pass(g1, 2, 0) == (g1, Some(false)));
    assert(spec_resolution_step(g0, 1) == (g1, Resolution::Halted));
    let pcap = PROPAGATION_CAP as nat;
    assert(spec_propagate(g0, 1, pcap) == (g1, UnknownValue::Either));

    // assembling the result vector
    let no_vals = Seq::<UnknownValue>::empty();
    assert(seq![u].drop_first() =~= Seq::<Ident>::empty());
    assert(spec_resolve_unknowns(g1, Seq::empty(), no_vals.push(UnknownValue::Either))
        == no_vals.push(UnknownValue::Either));
    assert(spec_resolve_unknowns(g0, seq![u], no_vals) == no_vals.push(UnknownValue::Either));
    assert(no_vals.push(UnknownValue::Either) =~= seq![UnknownValue::Either]);
    assert(spec_resolve(kb, query) == seq![UnknownValue::Either]);
}


/// How many pooled atoms are not yet boolean literals.
pub open spec fn unset_count(atoms: Seq<AtomModel<Var>>) -> int
    decreases atoms.len(),
{
    if atoms.len() == 0 {
        0
    } else {
        (if atoms[0] is Boolean {
            0int
        } else {
            1int
        }) + unset_count(atoms.drop_first())
    }
}

/// The total number of atom positions across all nodes.
pub open spec fn nodes_size(nodes: Seq<NodeModel>) -> int
    decreases nodes.len(),
{
    if nodes.len() == 0 {
        0
    } else {
        nodes[0].atoms.len() + nodes_size(nodes.drop_first())
    }
}

/// The graph's remaining slack: how much could still change during
/// propagation. Every rule that reports progress strictly shrinks it, so
/// propagation reaches a fixpoint.
pub open spec fn slack(g: GraphModel) -> int {
    unset_count(g.atoms) + nodes_size(g.nodes)
}

proof fn lemma_unset_count_nonneg(atoms: Seq<AtomModel<Var>>)
    ensures
        unset_count(atoms) >= 0,
    decreases atoms.len(),
{
    if atoms.len() > 0 {
        lemma_unset_count_nonneg(atoms.drop_first());
    }
}

proof fn lemma_unset_count_update(atoms: Seq<AtomModel<Var>>, i: int, a: AtomModel<Var>)
    requires
        0 <= i < atoms.len(),
        a is Boolean,
    ensures
        unset_count(atoms.update(i, a)) == unset_count(atoms) - (if atoms[i] is Boolean {
            0int
        } else {
            1int
        }),
    decreases atoms.len(),
{
    let up = atoms.update(i, a);
    assert(up.len() == atoms.len());
    if i == 0 {
        assert(up.drop_first() =~= atoms.drop_first());
    } else {
        assert(up[0] == atoms[0]);
        assert(up.drop_first() =~= atoms.drop_first().update(i - 1, a));
        lemma_unset_count_update(atoms.drop_first(), i - 1, a);
    }
}

proof fn lemma_nodes_size_nonneg(nodes: Seq<NodeModel>)
    ensures
        nodes_size(nodes) >= 0,
    decreases nodes.len(),
{
    if nodes.len() > 0 {
        lemma_nodes_size_nonneg(nodes.drop_first());
    }
}

proof fn lemma_nodes_size_update(nodes: Seq<NodeModel>, i: int, nd: NodeModel)
    requires
        0 <= i < nodes.len(),
    ensures
        nodes_size(nodes.update(i, nd)) == nodes_size(nodes) - nodes[i].atoms.len()
            + nd.atoms.len(),
    decreases nodes.len(),
{
    let up = nodes.update(i, nd);
    if i == 0 {
        assert(up.drop_first() =~= nodes.drop_first());
    } else {
        assert(up[0] == nodes[0]);
        assert(up.drop_first() =~= nodes.drop_first().update(i - 1, nd));
        lemma_nodes_size_update(nodes.drop_first(), i - 1, nd);
    }
}


proof fn lemma_unset_count_push(atoms: Seq<AtomModel<Var>>, a: AtomModel<Var>)
    requires
        a is Boolean,
    ensures
        unset_count(atoms.push(a)) == unset_count(atoms),
    decreases atoms.len(),
{
    let up = atoms.push(a);
    if atoms.len() == 0 {
        assert(up[0] == a);
        assert(up.drop_first() =~= Seq::<AtomModel<Var>>::empty());
        assert(unset_count(Seq::<AtomModel<Var>>::empty()) == 0);
    } else {
        assert(up[0] == atoms[0]);
        assert(up.drop_first() =~= atoms.drop_first().push(a));
        lemma_unset_count_push(atoms.drop_first(), a);
    }
}

proof fn lemma_first_pos_in_bounds<A>(s: Seq<A>, x: A, i: int)
    requires
        first_pos(s, x) == Some(i),
    ensures
        0 <= i < s.len(),
    decreases s.len(),
{
    if s.len() > 0 && !(s[0] == x) {
        match first_pos(s.drop_first(), x) {
            Some(j) => {
                lemma_first_pos_in_bounds(s.drop_first(), x, j);
            },
            None => {},
        }
    }
}

proof fn lemma_force_true_slack(g: GraphModel, idxs: Seq<int>, modified: bool)
    requires
        forall|k: int| 0 <= k < idxs.len() ==> 0 <= #[trigger] idxs[k] < g.atoms.len(),
    ensures
        ({
            let r = spec_force_true_list(g, idxs, modified);
            &&& r.0.nodes == g.nodes
            &&& r.0.edges == g.edges
            &&& r.0.atoms.len() == g.atoms.len()
            &&& unset_count(r.0.atoms) <= unset_count(g.atoms) - (if r.1 && !modified {
                1int
            } else {
                0int
            })
        }),
    decreases idxs.len(),
{
    if idxs.len() > 0 {
        match g.atoms[idxs[0]] {
            AtomModel::Boolean(bv) => {
                if bv {
                    lemma_force_true_slack(g, idxs.drop_first(), modified);
                }
            },
            _ => {
                let g1 = update_atom(g, idxs[0], AtomModel::Boolean(true));
                lemma_unset_count_update(g.atoms, idxs[0], AtomModel::Boolean(true));
                lemma_force_true_slack(g1, idxs.drop_first(), true);
            },
        }
    }
}

proof fn lemma_set_all_true_slack(g: GraphModel, ni: int)
    requires
        wf_graph(g),
        0 <= ni < g.nodes.len(),
    ensures
        ({
            let r = spec_set_all_true(g, ni);
            &&& r.0.nodes == g.nodes
            &&& r.0.edges == g.edges
            &&& r.0.atoms.len() == g.atoms.len()
            &&& unset_count(r.0.atoms) <= unset_count(g.atoms) - (if r.1 {
                1int
            } else {
                0int
            })
        }),
{
    assert(wf_node(g, g.nodes[ni]));
    lemma_force_true_slack(g, g.nodes[ni].atoms, false);
}

proof fn lemma_set_single_false_slack(g: GraphModel, ni: int)
    requires
        wf_graph(g),
        0 <= ni < g.nodes.len(),
    ensures
        ({
            let r = spec_set_single_false(g, ni);
            &&& r.0.nodes == g.nodes
            &&& r.0.edges == g.edges
            &&& r.0.atoms.len() == g.atoms.len()
            &&& unset_count(r.0.atoms) <= unset_count(g.atoms) - (if r.1 {
                1int
            } else {
                0int
            })
        }),
{
    if g.nodes[ni].atoms.len() == 1 {
        assert(wf_node(g, g.nodes[ni]));
        let ix = g.nodes[ni].atoms[0];
        match g.atoms[ix] {
            AtomModel::Boolean(bv) => {},
            _ => {
                lemma_unset_count_update(g.atoms, ix, AtomModel::Boolean(false));
            },
        }
    }
}

proof fn lemma_successors_from_bounds(g: GraphModel, e: Option<int>)
    requires
        crate::graph::wf_edges(g.edges, g.nodes.len() as int),
        (e matches Some(i) ==> 0 <= i < g.edges.len()),
    ensures
        forall|k: int|
            0 <= k < spec_successors_from(g, e).len() ==> 0 <= #[trigger] spec_successors_from(
                g,
                e,
            )[k] < g.nodes.len(),
    decreases (match e {
        Some(i) => i + 1,
        None => 0,
    }),
{
    match e {
        None => {},
        Some(i) => {
            lemma_successors_from_bounds(g, g.edges[i].next_outgoing_edge);
            let rest = spec_successors_from(g, g.edges[i].next_outgoing_edge);
            assert forall|k: int|
                0 <= k < spec_successors_from(g, e).len() implies 0 <= #[trigger] spec_successors_from(
                g,
                e,
            )[k] < g.nodes.len() by {
                if k > 0 {
                    assert(spec_successors_from(g, e)[k] == rest[k - 1]);
                }
            }
        },
    }
}

proof fn lemma_force_succs_slack(g: GraphModel, succs: Seq<int>, modified: bool)
    requires
        wf_graph(g),
        forall|k: int| 0 <= k < succs.len() ==> 0 <= #[trigger] succs[k] < g.nodes.len(),
    ensures
        ({
            let r = spec_force_succs(g, succs, modified);
            &&& r.0.nodes == g.nodes
            &&& r.0.edges == g.edges
            &&& r.0.atoms.len() == g.atoms.len()
            &&& unset_count(r.0.atoms) <= unset_count(g.atoms) - (if r.1 && !modified {
                1int
            } else {
                0int
            })
        }),
    decreases succs.len(),
{
    if succs.len() > 0 {
        let r0 = spec_set_all_true(g, succs[0]);
        lemma_set_all_true_slack(g, succs[0]);
        if r0.2 {
            assert(wf_graph(r0.0)) by {
                assert forall|ni: int| 0 <= ni < r0.0.nodes.len() implies wf_node(
                    r0.0,
                    #[trigger] r0.0.nodes[ni],
                ) by {
                    assert(wf_node(g, g.nodes[ni]));
                }
            }
            lemma_force_succs_slack(r0.0, succs.drop_first(), modified || r0.1);
        }
    }
}

proof fn lemma_keep_non_true_len(g: GraphModel, idxs: Seq<int>, acc: Seq<int>)
    ensures
        spec_keep_non_true(g, idxs, acc).len() <= acc.len() + idxs.len(),
    decreases idxs.len(),
{
    if idxs.len() > 0 {
        if g.atoms[idxs[0]] == AtomModel::<Var>::Boolean(true) {
            lemma_keep_non_true_len(g, idxs.drop_first(), acc);
        } else {
            lemma_keep_non_true_len(g, idxs.drop_first(), acc.push(idxs[0]));
        }
    }
}

proof fn lemma_keep_non_true_bounds(g: GraphModel, idxs: Seq<int>, acc: Seq<int>, bound: int)
    requires
        forall|k: int| 0 <= k < idxs.len() ==> 0 <= #[trigger] idxs[k] < bound,
        forall|k: int| 0 <= k < acc.len() ==> 0 <= #[trigger] acc[k] < bound,
    ensures
        forall|k: int|
            0 <= k < spec_keep_non_true(g, idxs, acc).len() ==> 0 <= #[trigger] spec_keep_non_true(
                g,
                idxs,
                acc,
            )[k] < bound,
    decreases idxs.len(),
{
    if idxs.len() > 0 {
        if g.atoms[idxs[0]] == AtomModel::<Var>::Boolean(true) {
            assert(spec_keep_non_true(g, idxs, acc) == spec_keep_non_true(
                g,
                idxs.drop_first(),
                acc,
            ));
            lemma_keep_non_true_bounds(g, idxs.drop_first(), acc, bound);
        } else {
            let acc2 = acc.push(idxs[0]);
            assert forall|k: int| 0 <= k < acc2.len() implies 0 <= #[trigger] acc2[k]
                < bound by {
                if k < acc.len() {
                    assert(acc2[k] == acc[k]);
                }
            }
            assert(spec_keep_non_true(g, idxs, acc) == spec_keep_non_true(
                g,
                idxs.drop_first(),
                acc2,
            ));
            lemma_keep_non_true_bounds(g, idxs.drop_first(), acc2, bound);
        }
    }
}

proof fn lemma_pass_node_slack(g: GraphModel, fi: int, ni: int)
    requires
        wf_graph(g),
        0 <= ni < g.nodes.len(),
        0 <= fi < g.atoms.len(),
    ensures
        ({
            let r = spec_pass_node(g, fi, ni);
            &&& r.0.nodes.len() == g.nodes.len()
            &&& r.0.edges == g.edges
            &&& r.0.atoms.len() == g.atoms.len()
            &&& wf_graph(r.0)
            &&& slack(r.0) <= slack(g)
            &&& (r.2 && r.1 ==> slack(r.0) < slack(g))
        }),
{
    let pa = spec_is_trivial_false(g, ni) && g.nodes[ni].atoms.len() != 1;
    // trivial-false collapse
    let ga = if spec_is_trivial_false(g, ni) {
        update_node(g, ni, seq![fi])
    } else {
        g
    };
    if spec_is_trivial_false(g, ni) {
        assert(g.nodes[ni].atoms.len() >= 1);
        lemma_nodes_size_update(
            g.nodes,
            ni,
            NodeModel { atoms: seq![fi], first_outgoing_edge: g.nodes[ni].first_outgoing_edge },
        );
    }
    assert(wf_graph(ga)) by {
        assert forall|nj: int| 0 <= nj < ga.nodes.len() implies wf_node(
            ga,
            #[trigger] ga.nodes[nj],
        ) by {
            assert(wf_node(g, g.nodes[nj]));
        }
    }
    assert(nodes_size(ga.nodes) <= nodes_size(g.nodes) - (if pa {
        1int
    } else {
        0int
    }));
    // true-literal elimination
    let gb = if ga.nodes[ni].atoms.len() != 1 {
        update_node(ga, ni, spec_keep_non_true(ga, ga.nodes[ni].atoms, Seq::empty()))
    } else {
        ga
    };
    if ga.nodes[ni].atoms.len() != 1 {
        let kept = spec_keep_non_true(ga, ga.nodes[ni].atoms, Seq::empty());
        lemma_keep_non_true_len(ga, ga.nodes[ni].atoms, Seq::empty());
        assert(wf_node(ga, ga.nodes[ni]));
        lemma_keep_non_true_bounds(
            ga,
            ga.nodes[ni].atoms,
            Seq::empty(),
            ga.atoms.len() as int,
        );
        lemma_nodes_size_update(
            ga.nodes,
            ni,
            NodeModel { atoms: kept, first_outgoing_edge: ga.nodes[ni].first_outgoing_edge },
        );
    }
    assert(wf_graph(gb)) by {
        assert forall|nj: int| 0 <= nj < gb.nodes.len() implies wf_node(
            gb,
            #[trigger] gb.nodes[nj],
        ) by {
            assert(wf_node(ga, ga.nodes[nj]));
        }
    }
    assert(nodes_size(gb.nodes) <= nodes_size(ga.nodes));
    // forward truth propagation
    let rc = if spec_is_trivial_true(gb, ni) {
        spec_force_succs(gb, crate::graph::spec_successors(gb, ni), false)
    } else {
        (gb, false, true)
    };
    if spec_is_trivial_true(gb, ni) {
        assert(wf_node(gb, gb.nodes[ni]));
        lemma_successors_from_bounds(gb, gb.nodes[ni].first_outgoing_edge);
        lemma_force_succs_slack(gb, crate::graph::spec_successors(gb, ni), false);
    }
    let gc = rc.0;
    assert(wf_graph(gc)) by {
        assert forall|nj: int| 0 <= nj < gc.nodes.len() implies wf_node(
            gc,
            #[trigger] gc.nodes[nj],
        ) by {
            assert(wf_node(gb, gb.nodes[nj]));
        }
    }
    if !rc.2 {
    } else {
        // backward falsity inference
        if spec_any_successor_false(gc, ni) {
            lemma_set_single_false_slack(gc, ni);
        }
        let rd = if spec_any_successor_false(gc, ni) {
            spec_set_single_false(gc, ni)
        } else {
            (gc, false, true)
        };
        assert(wf_graph(rd.0)) by {
            assert forall|nj: int| 0 <= nj < rd.0.nodes.len() implies wf_node(
                rd.0,
                #[trigger] rd.0.nodes[nj],
            ) by {
                assert(wf_node(gc, gc.nodes[nj]));
            }
        }
    }
}

proof fn lemma_pass_slack(g: GraphModel, fi: int, ni: int)
    requires
        wf_graph(g),
        0 <= fi < g.atoms.len(),
    ensures
        ({
            let r = spec_pass(g, fi, ni);
            &&& slack(r.0) <= slack(g)
            &&& (r.1 matches Some(p) && p ==> slack(r.0) < slack(g))
        }),
    decreases g.nodes.len() - ni,
{
    if 0 <= ni < g.nodes.len() {
        let r0 = spec_pass_node(g, fi, ni);
        lemma_pass_node_slack(g, fi, ni);
        if r0.2 {
            lemma_pass_slack(r0.0, fi, ni + 1);
        }
    }
}

/// Every resolution step that reports progress strictly shrinks the
/// graph's slack: the count of still-unset pooled atoms plus the total
/// size of the nodes' atom lists. The slack is finite and never negative,
/// so constraint propagation always reaches a fixpoint; the explicit
/// iteration cap is a guard, not the termination argument.
pub proof fn lemma_progress_shrinks_slack(g: GraphModel, target: int)
    requires
        wf_graph(g),
        0 <= target < g.atoms.len(),
        spec_resolution_step(g, target).1 == Resolution::Progressed,
    ensures
        0 <= slack(spec_resolution_step(g, target).0) < slack(g),
{
    let fb = AtomModel::<Var>::Boolean(false);
    match g.atoms[target] {
        AtomModel::Boolean(bv) => {
            assert(false);
        },
        _ => {
            let r0 = spec_find_or_insert_atom(g, fb);
            let g1 = r0.0;
            let fi = r0.1;
            match first_pos(g.atoms, fb) {
                Some(i) => {
                    lemma_first_pos_in_bounds(g.atoms, fb, i);
                    assert(g1 == g);
                },
                None => {
                    lemma_unset_count_push(g.atoms, fb);
                    assert(slack(g1) == slack(g));
                },
            }
            assert(wf_graph(g1)) by {
                assert forall|nj: int| 0 <= nj < g1.nodes.len() implies wf_node(
                    g1,
                    #[trigger] g1.nodes[nj],
                ) by {
                    assert(wf_node(g, g.nodes[nj]));
                }
            }
            lemma_pass_slack(g1, fi, 0);
            let rr = spec_resolution_step(g, target);
            lemma_unset_count_nonneg(rr.0.atoms);
            lemma_nodes_size_nonneg(rr.0.nodes);
        },
    }
}

} // verus!
