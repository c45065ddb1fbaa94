//! Scenario tests for the logic engine: facts, chained inference,
//! unification, contradictions, and result ordering.

use leuchtkraft::atom::{Atom, Ident, Var};
use leuchtkraft::clause::Clause;
use leuchtkraft::graph::ImplicationGraph;
use leuchtkraft::logic_engine::{LogicEngine, Resolution, UnknownValue};
use leuchtkraft::util::calculate_hash;

fn ident(s: &str) -> Ident {
    Ident(calculate_hash(s))
}

fn pred(name: &str, args: &[&str]) -> Atom<Var> {
    Atom::Predicate(
        ident(name),
        args.iter().map(|a| Var::Fixed(ident(a))).collect(),
    )
}

fn pred_free(name: &str, args: &[(&str, bool)]) -> Atom<Var> {
    Atom::Predicate(
        ident(name),
        args.iter()
            .map(|(a, free)| {
                if *free {
                    Var::Free(ident(a))
                } else {
                    Var::Fixed(ident(a))
                }
            })
            .collect(),
    )
}

fn ground_pred(name: &str, args: &[&str]) -> Atom<Ident> {
    Atom::Predicate(ident(name), args.iter().map(|a| ident(a)).collect())
}

/// A query of the canonical shape: one ground predicate implying one
/// unknown.
fn question(name: &str, args: &[&str], unknown: &str) -> Clause<Ident> {
    Clause::new(vec![
        vec![ground_pred(name, args)],
        vec![Atom::Unknown(ident(unknown))],
    ])
}

#[test]
fn fact_retrieval() {
    let mut engine = LogicEngine::default();
    engine.add(Clause::new(vec![vec![pred("mortal", &["socrates"])]]));
    let values = engine.resolve(question("mortal", &["socrates"], "q"));
    assert_eq!(values, vec![UnknownValue::True]);
}

#[test]
fn chained_inference() {
    let mut engine = LogicEngine::default();
    // mortal(X) => alive(X), X free
    engine.add(Clause::new(vec![
        vec![pred_free("mortal", &[("x", true)])],
        vec![pred_free("alive", &[("x", true)])],
    ]));
    // mortal(socrates)
    engine.add(Clause::new(vec![vec![pred("mortal", &["socrates"])]]));
    let values = engine.resolve(question("alive", &["socrates"], "q"));
    assert_eq!(values, vec![UnknownValue::True]);
}

#[test]
fn transitivity() {
    let mut engine = LogicEngine::default();
    // a => b, b => c, and the bare fact a
    engine.add(Clause::new(vec![
        vec![pred("a", &[])],
        vec![pred("b", &[])],
    ]));
    engine.add(Clause::new(vec![
        vec![pred("b", &[])],
        vec![pred("c", &[])],
    ]));
    engine.add(Clause::new(vec![vec![pred("a", &[])]]));
    let values = engine.resolve(question("c", &[], "q"));
    assert_eq!(values, vec![UnknownValue::True]);
}

#[test]
fn indeterminacy() {
    let mut engine = LogicEngine::default();
    engine.add(Clause::new(vec![vec![pred("mortal", &["socrates"])]]));
    // nothing ever mentions "ghost_predicate"
    let values = engine.resolve(question("ghost_predicate", &["socrates"], "q"));
    assert_eq!(values, vec![UnknownValue::Either]);
}

#[test]
fn indeterminacy_on_empty_knowledge_base() {
    let engine = LogicEngine::default();
    let values = engine.resolve(question("anything", &[], "q"));
    assert_eq!(values, vec![UnknownValue::Either]);
}

#[test]
fn contradiction() {
    let mut engine = LogicEngine::default();
    // p, and p => false
    engine.add(Clause::new(vec![vec![pred("p", &[])]]));
    engine.add(Clause::new(vec![
        vec![pred("p", &[])],
        vec![Atom::Boolean(false)],
    ]));
    let values = engine.resolve(question("p", &[], "q"));
    assert_eq!(values, vec![UnknownValue::Neither]);
}

#[test]
fn unification_selects_the_right_instance() {
    let mut engine = LogicEngine::default();
    // likes(a, X) => friend(X), X free
    engine.add(Clause::new(vec![
        vec![pred_free("likes", &[("a", false), ("x", true)])],
        vec![pred_free("friend", &[("x", true)])],
    ]));
    // likes(a, b)
    engine.add(Clause::new(vec![vec![pred("likes", &["a", "b"])]]));

    let values = engine.resolve(question("friend", &["b"], "q"));
    assert_eq!(values, vec![UnknownValue::True]);

    // no ground fact ever binds X to c
    let values = engine.resolve(question("friend", &["c"], "q"));
    assert_eq!(values, vec![UnknownValue::Either]);
}

#[test]
fn contradictory_binding_fails_the_match() {
    // likes(X, X) unifies with likes(a, a) but not with likes(a, b)
    let atom = pred_free("likes", &[("x", true), ("x", true)]);
    let name = ident("likes");
    let same = vec![ident("a"), ident("a")];
    let diff = vec![ident("a"), ident("b")];
    assert!(atom.match_predicate((&name, &same)).is_some());
    assert!(atom.match_predicate((&name, &diff)).is_none());
}

#[test]
fn match_requires_name_and_arity() {
    let atom = pred("likes", &["a", "b"]);
    let likes = ident("likes");
    let hates = ident("hates");
    let two = vec![ident("a"), ident("b")];
    let one = vec![ident("a")];
    assert!(atom.match_predicate((&likes, &two)).is_some());
    assert!(atom.match_predicate((&hates, &two)).is_none());
    assert!(atom.match_predicate((&likes, &one)).is_none());
}

#[test]
fn idempotence() {
    let mut engine = LogicEngine::default();
    engine.add(Clause::new(vec![
        vec![pred("a", &[])],
        vec![pred("b", &[])],
    ]));
    engine.add(Clause::new(vec![vec![pred("a", &[])]]));
    let first = engine.resolve(question("b", &[], "q"));
    let second = engine.resolve(question("b", &[], "q"));
    assert_eq!(first, second);
    assert_eq!(first, vec![UnknownValue::True]);
}

#[test]
fn ordering_of_unknowns() {
    let mut engine = LogicEngine::default();
    engine.add(Clause::new(vec![vec![pred("p", &["s"])]]));
    // p(s) => y? => false => x?, with the fact p(s) asserted: backward
    // falsity forces y to false before the fact's truth reaches it, and
    // the clash then surfaces while x is resolved. The result's first
    // element belongs to y and the second to x, in their textual order.
    let query: Clause<Ident> = Clause::new(vec![
        vec![ground_pred("p", &["s"])],
        vec![Atom::Unknown(ident("y"))],
        vec![Atom::Boolean(false)],
        vec![Atom::Unknown(ident("x"))],
    ]);
    let values = engine.resolve(query);
    assert_eq!(values, vec![UnknownValue::False, UnknownValue::Neither]);
}

#[test]
fn unknowns_in_first_occurrence_order() {
    let clause: Clause<Ident> = Clause::new(vec![
        vec![Atom::Unknown(ident("y")), Atom::Unknown(ident("x"))],
        vec![Atom::Unknown(ident("y")), Atom::Unknown(ident("z"))],
    ]);
    assert_eq!(clause.unknowns(), vec![ident("y"), ident("x"), ident("z")]);
}

#[test]
fn resolve_returns_one_value_per_unknown() {
    let engine = LogicEngine::default();
    let query: Clause<Ident> = Clause::new(vec![
        vec![Atom::Unknown(ident("a"))],
        vec![Atom::Unknown(ident("b"))],
        vec![Atom::Unknown(ident("c"))],
    ]);
    let values = engine.resolve(query);
    assert_eq!(values.len(), 3);
}

#[test]
fn explicit_truth_premise_also_asserts_a_fact() {
    let mut engine = LogicEngine::default();
    // true => sunny()
    engine.add(Clause::new(vec![
        vec![Atom::Boolean(true)],
        vec![pred("sunny", &[])],
    ]));
    let values = engine.resolve(question("sunny", &[], "q"));
    assert_eq!(values, vec![UnknownValue::True]);
}

#[test]
fn clause_pinning_specializes_free_variables() {
    let mut clause = Clause::new(vec![
        vec![pred_free("likes", &[("a", false), ("x", true)])],
        vec![pred_free("friend", &[("x", true)])],
    ]);
    clause.pin(ident("x"), ident("b"));
    let expected = Clause::new(vec![
        vec![pred("likes", &["a", "b"])],
        vec![pred("friend", &["b"])],
    ]);
    assert!(clause.same_as(&expected));
}

#[test]
fn into_varclause_fixes_every_argument() {
    let ground: Clause<Ident> = Clause::new(vec![vec![ground_pred("likes", &["a", "b"])]]);
    let lifted = ground.into_varclause();
    let expected = Clause::new(vec![vec![pred("likes", &["a", "b"])]]);
    assert!(lifted.same_as(&expected));
}

#[test]
fn matches_accumulates_pinned_instances_without_duplicates() {
    let clause = Clause::new(vec![
        vec![pred_free("likes", &[("a", false), ("x", true)])],
        vec![pred_free("friend", &[("x", true)])],
    ]);
    let name = ident("likes");
    let args = vec![ident("a"), ident("b")];
    let mut acc: Vec<Clause<Var>> = Vec::new();
    clause.matches((&name, &args), &mut acc);
    clause.matches((&name, &args), &mut acc);
    assert_eq!(acc.len(), 1);
    let expected = Clause::new(vec![
        vec![pred("likes", &["a", "b"])],
        vec![pred("friend", &["b"])],
    ]);
    assert!(acc[0].same_as(&expected));
}

#[test]
fn graph_deduplicates_atoms_and_nodes() {
    let mut graph = ImplicationGraph::new();
    let first = graph.find_or_insert_atom(pred("p", &["a"]));
    let second = graph.find_or_insert_atom(pred("p", &["a"]));
    let third = graph.find_or_insert_atom(pred("p", &["b"]));
    assert_eq!(first, second);
    assert_ne!(first, third);

    let n1 = graph.find_or_insert_node(vec![first]);
    let n2 = graph.find_or_insert_node(vec![first]);
    let n3 = graph.find_or_insert_node(vec![third]);
    assert_eq!(n1, n2);
    assert_ne!(n1, n3);
}

#[test]
fn successors_follow_the_edge_chain() {
    let mut graph = ImplicationGraph::new();
    let a = graph.find_or_insert_atom(pred("a", &[]));
    let b = graph.find_or_insert_atom(pred("b", &[]));
    let c = graph.find_or_insert_atom(pred("c", &[]));
    let na = graph.find_or_insert_node(vec![a]);
    let nb = graph.find_or_insert_node(vec![b]);
    let nc = graph.find_or_insert_node(vec![c]);
    graph.add_edge(na, nb);
    graph.add_edge(na, nc);
    // the freshest edge heads the chain
    assert_eq!(graph.successors(na), vec![nc, nb]);
    assert_eq!(graph.successors(nb), Vec::<usize>::new());
}

#[test]
fn resolution_step_halts_on_an_inert_graph() {
    let mut graph = ImplicationGraph::new();
    graph.add_clause(Clause::new(vec![
        vec![pred("p", &[])],
        vec![Atom::Unknown(ident("q"))],
    ]));
    let target = graph.find_or_insert_atom(Atom::Unknown(ident("q")));
    assert_eq!(graph.resolution_step(target), Resolution::Halted);
}

#[test]
fn hashing_is_deterministic() {
    assert_eq!(calculate_hash("socrates"), calculate_hash("socrates"));
    assert_ne!(calculate_hash("socrates"), calculate_hash("plato"));
    assert_eq!(ident("x"), ident("x"));
}
