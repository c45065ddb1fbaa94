//! The per-query implication graph: a deduplicated atom pool, deduplicated
//! conjunctive-block nodes, and directed implication edges chained as
//! index-based singly linked adjacency lists. Index arenas are used instead
//! of owning references because the implication structure is cyclic/shared.

use vstd::prelude::*;
use crate::atom::{Atom, AtomModel, Var};
use crate::clause::{Clause, ClauseModel, block_model};
use crate::logic_engine::{Resolution, UnknownValue};

verus! {

broadcast use {vstd::seq::Seq::lemma_push_map_commute, vstd::seq::Seq::lemma_take_succ_push};

/// A conjunctive-block node: the index set of pooled atoms composing one
/// and-chain block, plus the head of its outgoing edge chain.
#[derive(Debug)]
pub struct NodeData {
    pub atoms: Vec<usize>,
    pub first_outgoing_edge: Option<usize>,
}

/// A directed implication edge: the implied node, and the next outgoing
/// edge of the same source node.
#[derive(Debug, Clone, Copy)]
pub struct EdgeData {
    pub implies: usize,
    pub next_outgoing_edge: Option<usize>,
}

/// The transient, per-query arena.
#[derive(Debug)]
pub struct ImplicationGraph {
    /// Non-divisible units in the graph.
    pub atoms: Vec<Atom<Var>>,
    /// Connected atoms (conjunctive blocks).
    pub nodes: Vec<NodeData>,
    /// Implications between nodes.
    pub edges: Vec<EdgeData>,
}

/// The mathematical value of a node.
pub struct NodeModel {
    pub atoms: Seq<int>,
    pub first_outgoing_edge: Option<int>,
}

/// The mathematical value of an edge.
pub struct EdgeModel {
    pub implies: int,
    pub next_outgoing_edge: Option<int>,
}

/// The mathematical value of the whole graph.
pub struct GraphModel {
    pub atoms: Seq<AtomModel<Var>>,
    pub nodes: Seq<NodeModel>,
    pub edges: Seq<EdgeModel>,
}

pub open spec fn opt_int(o: Option<usize>) -> Option<int> {
    match o {
        Some(u) => Some(u as int),
        None => None,
    }
}

pub open spec fn idx_model(s: Seq<usize>) -> Seq<int> {
    s.map_values(|u: usize| u as int)
}

impl View for NodeData {
    type V = NodeModel;

    open spec fn view(&self) -> NodeModel {
        NodeModel {
            atoms: idx_model(self.atoms@),
            first_outgoing_edge: opt_int(self.first_outgoing_edge),
        }
    }
}

impl View for EdgeData {
    type V = EdgeModel;

    open spec fn view(&self) -> EdgeModel {
        EdgeModel {
            implies: self.implies as int,
            next_outgoing_edge: opt_int(self.next_outgoing_edge),
        }
    }
}

pub open spec fn nodes_model(s: Seq<NodeData>) -> Seq<NodeModel> {
    s.map_values(|n: NodeData| n@)
}

pub open spec fn edges_model(s: Seq<EdgeData>) -> Seq<EdgeModel> {
    s.map_values(|e: EdgeData| e@)
}

impl View for ImplicationGraph {
    type V = GraphModel;

    open spec fn view(&self) -> GraphModel {
        GraphModel {
            atoms: block_model(self.atoms@),
            nodes: nodes_model(self.nodes@),
            edges: edges_model(self.edges@),
        }
    }
}

/// Every atom index of the node points into the atom pool, and its edge
/// chain head points into the edge arena.
pub open spec fn wf_node(g: GraphModel, n: NodeModel) -> bool {
    &&& forall|k: int| 0 <= k < n.atoms.len() ==> 0 <= #[trigger] n.atoms[k] < g.atoms.len()
    &&& (n.first_outgoing_edge matches Some(e) ==> 0 <= e < g.edges.len())
}

/// Each edge implies an existing node, and edge chains always link to
/// strictly earlier edges, so every chain walk terminates.
pub open spec fn wf_edges(edges: Seq<EdgeModel>, n_nodes: int) -> bool {
    forall|ei: int|
        0 <= ei < edges.len() ==> {
            &&& 0 <= (#[trigger] edges[ei]).implies < n_nodes
            &&& (edges[ei].next_outgoing_edge matches Some(x) ==> 0 <= x < ei)
        }
}

/// Well-formedness of the whole arena: all indices in bounds, and edge
/// chains strictly decreasing.
pub open spec fn wf_graph(g: GraphModel) -> bool {
    &&& forall|ni: int| 0 <= ni < g.nodes.len() ==> wf_node(g, #[trigger] g.nodes[ni])
    &&& wf_edges(g.edges, g.nodes.len() as int)
}

/// The first position of `x` in `s`, if any.
pub open spec fn first_pos<A>(s: Seq<A>, x: A) -> Option<int>
    decreases s.len(),
{
    if s.len() == 0 {
        None
    } else if s[0] == x {
        Some(0)
    } else {
        match first_pos(s.drop_first(), x) {
            Some(j) => Some(j + 1),
            None => None,
        }
    }
}

proof fn lemma_first_pos_none<A>(s: Seq<A>, x: A)
    requires
        forall|j: int| 0 <= j < s.len() ==> s[j] != x,
    ensures
        first_pos(s, x) is None,
    decreases s.len(),
{
    if s.len() > 0 {
        lemma_first_pos_none(s.drop_first(), x);
    }
}

proof fn lemma_first_pos_found<A>(s: Seq<A>, x: A, i: int)
    requires
        0 <= i < s.len(),
        s[i] == x,
        forall|j: int| 0 <= j < i ==> s[j] != x,
    ensures
        first_pos(s, x) == Some(i),
    decreases i,
{
    if i > 0 {
        lemma_first_pos_found(s.drop_first(), x, i - 1);
    }
}

/// Dedup lookup-or-insert into the atom pool.
pub open spec fn spec_find_or_insert_atom(g: GraphModel, a: AtomModel<Var>) -> (GraphModel, int) {
    match first_pos(g.atoms, a) {
        Some(i) => (g, i),
        None => (GraphModel { atoms: g.atoms.push(a), ..g }, g.atoms.len() as int),
    }
}

/// The first node whose atom index set equals `idxs`, if any.
pub open spec fn node_pos(nodes: Seq<NodeModel>, idxs: Seq<int>) -> Option<int>
    decreases nodes.len(),
{
    if nodes.len() == 0 {
        None
    } else if nodes[0].atoms == idxs {
        Some(0)
    } else {
        match node_pos(nodes.drop_first(), idxs) {
            Some(j) => Some(j + 1),
            None => None,
        }
    }
}

proof fn lemma_node_pos_none(nodes: Seq<NodeModel>, idxs: Seq<int>)
    requires
        forall|j: int| 0 <= j < nodes.len() ==> (#[trigger] nodes[j]).atoms != idxs,
    ensures
        node_pos(nodes, idxs) is None,
    decreases nodes.len(),
{
    if nodes.len() > 0 {
        lemma_node_pos_none(nodes.drop_first(), idxs);
    }
}

proof fn lemma_node_pos_found(nodes: Seq<NodeModel>, idxs: Seq<int>, i: int)
    requires
        0 <= i < nodes.len(),
        nodes[i].atoms == idxs,
        forall|j: int| 0 <= j < i ==> (#[trigger] nodes[j]).atoms != idxs,
    ensures
        node_pos(nodes, idxs) == Some(i),
    decreases i,
{
    if i > 0 {
        lemma_node_pos_found(nodes.drop_first(), idxs, i - 1);
    }
}

/// Dedup lookup-or-insert of a conjunctive-block node. Nodes are
/// deduplicated by equal atom index sequences; a fresh node starts with no
/// outgoing edges.
pub open spec fn spec_find_or_insert_node(g: GraphModel, idxs: Seq<int>) -> (GraphModel, int) {
    match node_pos(g.nodes, idxs) {
        Some(i) => (g, i),
        None => (
            GraphModel {
                nodes: g.nodes.push(NodeModel { atoms: idxs, first_outgoing_edge: None }),
                ..g
            },
            g.nodes.len() as int,
        ),
    }
}

/// Record that `source` implies `target`: a fresh edge takes over the head
/// of the source's edge chain.
pub open spec fn spec_add_edge(g: GraphModel, source: int, target: int) -> GraphModel {
    let e = EdgeModel {
        implies: target,
        next_outgoing_edge: g.nodes[source].first_outgoing_edge,
    };
    GraphModel {
        edges: g.edges.push(e),
        nodes: g.nodes.update(
            source,
            NodeModel {
                atoms: g.nodes[source].atoms,
                first_outgoing_edge: Some(g.edges.len() as int),
            },
        ),
        ..g
    }
}

/// Insert every atom of one block into the pool, collecting their indices
/// in order after `acc`.
pub open spec fn spec_insert_atoms(g: GraphModel, block: Seq<AtomModel<Var>>, acc: Seq<int>) -> (
    GraphModel,
    Seq<int>,
)
    decreases block.len(),
{
    if block.len() == 0 {
        (g, acc)
    } else {
        let (g1, ix) = spec_find_or_insert_atom(g, block[0]);
        spec_insert_atoms(g1, block.drop_first(), acc.push(ix))
    }
}

/// Walk a clause's blocks in order, inserting (or reusing) atoms and
/// nodes, and adding an implication edge from each block's node to the
/// next block's node.
pub open spec fn spec_add_blocks(
    g: GraphModel,
    blocks: Seq<Seq<AtomModel<Var>>>,
    prev: Option<int>,
) -> GraphModel
    decreases blocks.len(),
{
    if blocks.len() == 0 {
        g
    } else {
        let (g1, idxs) = spec_insert_atoms(g, blocks[0], Seq::empty());
        let (g2, ni) = spec_find_or_insert_node(g1, idxs);
        let g3 = match prev {
            Some(p) => spec_add_edge(g2, p, ni),
            None => g2,
        };
        spec_add_blocks(g3, blocks.drop_first(), Some(ni))
    }
}

pub open spec fn spec_add_clause(g: GraphModel, c: ClauseModel) -> GraphModel {
    spec_add_blocks(g, c, None)
}

/// The nodes implied by the edge chain starting at `e`.
pub open spec fn spec_successors_from(g: GraphModel, e: Option<int>) -> Seq<int>
    decreases (match e {
        Some(i) => i + 1,
        None => 0,
    })
    when (e matches Some(i) ==> 0 <= i < g.edges.len()) && wf_edges(g.edges, g.nodes.len() as int)
{
    match e {
        None => Seq::empty(),
        Some(i) => seq![g.edges[i].implies] + spec_successors_from(
            g,
            g.edges[i].next_outgoing_edge,
        ),
    }
}

/// The nodes implied by a node, in edge-chain order.
pub open spec fn spec_successors(g: GraphModel, ni: int) -> Seq<int> {
    spec_successors_from(g, g.nodes[ni].first_outgoing_edge)
}

/// Copy a vector of indices.
fn copy_indices(v: &Vec<usize>) -> (r: Vec<usize>)
    ensures
        r@ == v@,
{
    let n = v.len();
    let mut r: Vec<usize> = Vec::new();
    let mut i: usize = 0;
    while i < n
        invariant
            n == v@.len(),
            i <= n,
            r@ == v@.take(i as int),
        decreases n - i,
    {
        r.push(v[i]);
        i = i + 1;
    }
    proof {
        assert(v@.take(n as int) =~= v@);
    }
    r
}

/// Whether two index vectors are equal.
fn same_indices(a: &Vec<usize>, b: &Vec<usize>) -> (r: bool)
    ensures
        r == (idx_model(a@) == idx_model(b@)),
{
    if a.len() != b.len() {
        proof {
            assert(idx_model(a@).len() != idx_model(b@).len());
        }
        return false;
    }
    let n = a.len();
    let mut i: usize = 0;
    while i < n
        invariant
            n == a@.len() == b@.len(),
            i <= n,
            forall|j: int| 0 <= j < i ==> a@[j] == b@[j],
        decreases n - i,
    {
        if a[i] != b[i] {
            proof {
                assert(idx_model(a@)[i as int] != idx_model(b@)[i as int]);
            }
            return false;
        }
        i = i + 1;
    }
    proof {
        assert(a@ =~= b@);
    }
    true
}

impl ImplicationGraph {
    /// A fresh, empty arena.
    pub fn new() -> (r: Self)
        ensures
            r@.atoms == Seq::<AtomModel<Var>>::empty(),
            r@.nodes == Seq::<NodeModel>::empty(),
            r@.edges == Seq::<EdgeModel>::empty(),
            wf_graph(r@),
    {
        let r = Self { atoms: Vec::new(), nodes: Vec::new(), edges: Vec::new() };
        proof {
            assert(r@.atoms =~= Seq::<AtomModel<Var>>::empty());
            assert(r@.nodes =~= Seq::<NodeModel>::empty());
            assert(r@.edges =~= Seq::<EdgeModel>::empty());
        }
        r
    }

    /// Look an atom up in the pool by structural equality, inserting it if
    /// absent; either way, the returned index points at it.
    pub fn find_or_insert_atom(&mut self, atom: Atom<Var>) -> (ix: usize)
        ensures
            (final(self)@, ix as int) == spec_find_or_insert_atom(old(self)@, atom@),
            ix < final(self)@.atoms.len(),
            final(self)@.atoms[ix as int] == atom@,
            final(self)@.nodes == old(self)@.nodes,
            final(self)@.edges == old(self)@.edges,
            old(self)@.atoms.len() <= final(self)@.atoms.len(),
            wf_graph(old(self)@) ==> wf_graph(final(self)@),
    {
        let n = self.atoms.len();
        let mut i: usize = 0;
        while i < n
            invariant
                n == self@.atoms.len(),
                self@.atoms.len() == self.atoms@.len(),
                i <= n,
                forall|j: int| 0 <= j < i ==> self@.atoms[j] != atom@,
                self == old(self),
            decreases n - i,
        {
            if self.atoms[i].same_as(&atom) {
                proof {
                    lemma_first_pos_found(self@.atoms, atom@, i as int);
                }
                return i;
            }
            i = i + 1;
        }
        proof {
            lemma_first_pos_none(self@.atoms, atom@);
        }
        let ghost pre = self@;
        self.atoms.push(atom);
        proof {
            assert(self@.atoms =~= pre.atoms.push(atom@));
            assert(self@.nodes =~= pre.nodes);
            assert(self@.edges =~= pre.edges);
            if wf_graph(pre) {
                assert forall|ni: int| 0 <= ni < self@.nodes.len() implies wf_node(
                    self@,
                    #[trigger] self@.nodes[ni],
                ) by {
                    assert(wf_node(pre, pre.nodes[ni]));
                }
                assert(wf_graph(self@));
            }
        }
        n
    }

    /// Look a conjunctive block up among the nodes by its atom index set,
    /// inserting a fresh edge-less node if absent.
    pub fn find_or_insert_node(&mut self, atoms: Vec<usize>) -> (ix: usize)
        ensures
            (final(self)@, ix as int) == spec_find_or_insert_node(old(self)@, idx_model(atoms@)),
            ix < final(self)@.nodes.len(),
            final(self)@.atoms == old(self)@.atoms,
            final(self)@.edges == old(self)@.edges,
            old(self)@.nodes.len() <= final(self)@.nodes.len(),
            (wf_graph(old(self)@) && (forall|k: int|
                0 <= k < atoms@.len() ==> (#[trigger] atoms@[k]) < old(self)@.atoms.len()))
                ==> wf_graph(final(self)@),
    {
        let n = self.nodes.len();
        let mut i: usize = 0;
        while i < n
            invariant
                n == self@.nodes.len(),
                self@.nodes.len() == self.nodes@.len(),
                i <= n,
                forall|j: int| 0 <= j < i ==> (#[trigger] self@.nodes[j]).atoms != idx_model(
                    atoms@,
                ),
                self == old(self),
            decreases n - i,
        {
            if same_indices(&self.nodes[i].atoms, &atoms) {
                proof {
                    assert(self@.nodes[i as int].atoms == idx_model(self.nodes@[i as int].atoms@));
                    lemma_node_pos_found(self@.nodes, idx_model(atoms@), i as int);
                }
                return i;
            }
            proof {
                assert(self@.nodes[i as int].atoms == idx_model(self.nodes@[i as int].atoms@));
            }
            i = i + 1;
        }
        proof {
            lemma_node_pos_none(self@.nodes, idx_model(atoms@));
        }
        let ghost pre = self@;
        let nd = NodeData { atoms: atoms, first_outgoing_edge: None };
        proof {
            assert(nd@ == NodeModel { atoms: idx_model(atoms@), first_outgoing_edge: None });
        }
        self.nodes.push(nd);
        proof {
            assert(self@.atoms =~= pre.atoms);
            assert(self@.edges =~= pre.edges);
            assert(self@.nodes =~= pre.nodes.push(
                NodeModel { atoms: idx_model(atoms@), first_outgoing_edge: None },
            ));
            if wf_graph(pre) && (forall|k: int|
                0 <= k < atoms@.len() ==> (#[trigger] atoms@[k]) < pre.atoms.len()) {
                assert forall|ni: int| 0 <= ni < self@.nodes.len() implies wf_node(
                    self@,
                    #[trigger] self@.nodes[ni],
                ) by {
                    if ni < pre.nodes.len() {
                        assert(wf_node(pre, pre.nodes[ni]));
                    } else {
                        assert(self@.nodes[ni].atoms == idx_model(atoms@));
                        assert forall|k: int|
                            0 <= k < self@.nodes[ni].atoms.len() implies 0 <= #[trigger] self@.nodes[ni].atoms[k]
                            < self@.atoms.len() by {
                            assert(self@.nodes[ni].atoms[k] == atoms@[k] as int);
                        }
                    }
                }
                assert(wf_graph(self@));
            }
        }
        n
    }

    /// Add a directed implication edge from `source` to `target`, chaining
    /// it in front of `source`'s existing outgoing edges.
    pub fn add_edge(&mut self, source: usize, target: usize)
        requires
            source < old(self)@.nodes.len(),
            target < old(self)@.nodes.len(),
            wf_graph(old(self)@),
        ensures
            final(self)@ == spec_add_edge(old(self)@, source as int, target as int),
            final(self)@.atoms == old(self)@.atoms,
            final(self)@.nodes.len() == old(self)@.nodes.len(),
            wf_graph(final(self)@),
    {
        let index = self.edges.len();
        let first = self.nodes[source].first_outgoing_edge;
        let atoms_copy = copy_indices(&self.nodes[source].atoms);
        let ghost pre = self@;
        self.edges.push(EdgeData { implies: target, next_outgoing_edge: first });
        self.nodes.set(
            source,
            NodeData { atoms: atoms_copy, first_outgoing_edge: Some(index) },
        );
        proof {
            let target_model = spec_add_edge(pre, source as int, target as int);
            assert(self@.edges =~= target_model.edges);
            assert(self@.nodes =~= target_model.nodes);
            assert(self@.atoms =~= pre.atoms);
            // well-formedness: the new edge points at `target` and links to
            // the old chain head, which lies strictly before it
            assert(wf_node(pre, pre.nodes[source as int]));
            assert forall|ni: int| 0 <= ni < self@.nodes.len() implies wf_node(
                self@,
                #[trigger] self@.nodes[ni],
            ) by {
                assert(wf_node(pre, pre.nodes[ni]));
            }
            assert(wf_edges(self@.edges, self@.nodes.len() as int));
        }
    }

    /// Walk one clause's and-chains in order: each block's atoms join the
    /// pool, the block joins the nodes, and each block's node gains an
    /// implication edge to the following block's node.
    pub fn add_clause(&mut self, clause: Clause<Var>)
        requires
            wf_graph(old(self)@),
        ensures
            final(self)@ == spec_add_clause(old(self)@, clause@),
            wf_graph(final(self)@),
            old(self)@.atoms.len() <= final(self)@.atoms.len(),
            old(self)@.nodes.len() <= final(self)@.nodes.len(),
    {
        let nb = clause.0.len();
        let mut bi: usize = 0;
        let mut previous_index: Option<usize> = None;
        proof {
            assert(clause@.skip(0) =~= clause@);
        }
        while bi < nb
            invariant
                nb == clause@.len(),
                clause@.len() == clause.0@.len(),
                bi <= nb,
                wf_graph(self@),
                old(self)@.atoms.len() <= self@.atoms.len(),
                old(self)@.nodes.len() <= self@.nodes.len(),
                (previous_index matches Some(p) ==> (p as int) < self@.nodes.len()),
                spec_add_blocks(self@, clause@.skip(bi as int), opt_int(previous_index))
                    == spec_add_clause(old(self)@, clause@),
            decreases nb - bi,
        {
            let ghost pre_blocks = clause@.skip(bi as int);
            let ghost g_block = self@;
            proof {
                assert(pre_blocks[0] == clause@[bi as int]);
                assert(pre_blocks.drop_first() =~= clause@.skip(bi + 1));
            }
            // insert (or reuse) each atom of this block
            let na = clause.0[bi].len();
            let mut ai: usize = 0;
            let mut atom_indices: Vec<usize> = Vec::new();
            proof {
                assert(clause@[bi as int].skip(0) =~= clause@[bi as int]);
                assert(idx_model(atom_indices@) =~= Seq::<int>::empty());
            }
            while ai < na
                invariant
                    nb == clause@.len(),
                    clause@.len() == clause.0@.len(),
                    bi < nb,
                    na == clause@[bi as int].len(),
                    clause@[bi as int].len() == clause.0@[bi as int]@.len(),
                    ai <= na,
                    wf_graph(self@),
                    g_block.atoms.len() <= self@.atoms.len(),
                    self@.nodes == g_block.nodes,
                    self@.edges == g_block.edges,
                    forall|k: int|
                        0 <= k < atom_indices@.len() ==> ((#[trigger] atom_indices@[k]) as int)
                            < self@.atoms.len(),
                    spec_insert_atoms(g_block, clause@[bi as int], Seq::empty())
                        == spec_insert_atoms(
                        self@,
                        clause@[bi as int].skip(ai as int),
                        idx_model(atom_indices@),
                    ),
                decreases na - ai,
            {
                let ghost pre_atoms = clause@[bi as int].skip(ai as int);
                proof {
                    assert(pre_atoms[0] == clause@[bi as int][ai as int]);
                    assert(pre_atoms.drop_first() =~= clause@[bi as int].skip(ai + 1));
                }
                let a = clause.0[bi][ai].deep_clone();
                let ix = self.find_or_insert_atom(a);
                atom_indices.push(ix);
                ai = ai + 1;
            }
            proof {
                assert(clause@[bi as int].skip(na as int).len() == 0);
            }
            // insert (or reuse) the block's node
            let node_index = self.find_or_insert_node(atom_indices);
            // chain an implication edge from the previous block, if any
            match previous_index {
                Some(p) => {
                    self.add_edge(p, node_index);
                },
                None => {},
            }
            previous_index = Some(node_index);
            bi = bi + 1;
        }
        proof {
            assert(clause@.skip(nb as int).len() == 0);
        }
    }
}


/// Replace one node's atom list, keeping its edge chain head.
pub open spec fn update_node(g: GraphModel, ni: int, atoms: Seq<int>) -> GraphModel {
    if 0 <= ni < g.nodes.len() {
        GraphModel {
            nodes: g.nodes.update(
                ni,
                NodeModel { atoms: atoms, first_outgoing_edge: g.nodes[ni].first_outgoing_edge },
            ),
            ..g
        }
    } else {
        g
    }
}

/// Overwrite one pooled atom. Every node whose index set mentions it sees
/// the new value.
pub open spec fn update_atom(g: GraphModel, ix: int, a: AtomModel<Var>) -> GraphModel {
    if 0 <= ix < g.atoms.len() {
        GraphModel { atoms: g.atoms.update(ix, a), ..g }
    } else {
        g
    }
}

/// The pooled atom that position `k` of node `ni` refers to.
pub open spec fn g_atom_at(g: GraphModel, ni: int, k: int) -> AtomModel<Var> {
    g.atoms[g.nodes[ni].atoms[k]]
}

/// A node evaluates to false trivially when one of its atoms is the
/// literal false.
pub open spec fn spec_is_trivial_false(g: GraphModel, ni: int) -> bool {
    exists|k: int|
        0 <= k < g.nodes[ni].atoms.len() && #[trigger] g_atom_at(g, ni, k) == AtomModel::<
            Var,
        >::Boolean(false)
}

/// A node evaluates to true trivially when all of its atoms are the
/// literal true.
pub open spec fn spec_is_trivial_true(g: GraphModel, ni: int) -> bool {
    forall|k: int|
        0 <= k < g.nodes[ni].atoms.len() ==> #[trigger] g_atom_at(g, ni, k) == AtomModel::<
            Var,
        >::Boolean(true)
}

/// Force every listed atom to the literal true, left to right. Meeting the
/// literal false is a contradiction: the walk stops there and the third
/// component comes back false.
pub open spec fn spec_force_true_list(g: GraphModel, idxs: Seq<int>, modified: bool) -> (
    GraphModel,
    bool,
    bool,
)
    decreases idxs.len(),
{
    if idxs.len() == 0 {
        (g, modified, true)
    } else {
        match g.atoms[idxs[0]] {
            AtomModel::Boolean(bv) => if bv {
                spec_force_true_list(g, idxs.drop_first(), modified)
            } else {
                (g, modified, false)
            },
            _ => spec_force_true_list(
                update_atom(g, idxs[0], AtomModel::Boolean(true)),
                idxs.drop_first(),
                true,
            ),
        }
    }
}

/// Force all atoms of one node to true (forward truth propagation into an
/// implied node).
pub open spec fn spec_set_all_true(g: GraphModel, ni: int) -> (GraphModel, bool, bool) {
    spec_force_true_list(g, g.nodes[ni].atoms, false)
}

/// Backward falsity inference: only a single-atom node can be forced
/// false, since falsity of a conjunction does not determine which conjunct
/// is false. Forcing a true literal false is a contradiction.
pub open spec fn spec_set_single_false(g: GraphModel, ni: int) -> (GraphModel, bool, bool) {
    if g.nodes[ni].atoms.len() != 1 {
        (g, false, true)
    } else {
        let ix = g.nodes[ni].atoms[0];
        match g.atoms[ix] {
            AtomModel::Boolean(bv) => if bv {
                (g, false, false)
            } else {
                (g, false, true)
            },
            _ => (update_atom(g, ix, AtomModel::Boolean(false)), true, true),
        }
    }
}

/// The listed atom indices whose atoms are not the literal true, in order
/// after `acc`.
pub open spec fn spec_keep_non_true(g: GraphModel, idxs: Seq<int>, acc: Seq<int>) -> Seq<int>
    decreases idxs.len(),
{
    if idxs.len() == 0 {
        acc
    } else {
        let acc2 = if g.atoms[idxs[0]] == AtomModel::<Var>::Boolean(true) {
            acc
        } else {
            acc.push(idxs[0])
        };
        spec_keep_non_true(g, idxs.drop_first(), acc2)
    }
}

/// Force every node in the successor list trivially true, stopping at a
/// contradiction.
pub open spec fn spec_force_succs(g: GraphModel, succs: Seq<int>, modified: bool) -> (
    GraphModel,
    bool,
    bool,
)
    decreases succs.len(),
{
    if succs.len() == 0 {
        (g, modified, true)
    } else {
        let r0 = spec_set_all_true(g, succs[0]);
        if !r0.2 {
            (r0.0, modified || r0.1, false)
        } else {
            spec_force_succs(r0.0, succs.drop_first(), modified || r0.1)
        }
    }
}

/// Whether some node implied by node `ni` is trivially false.
pub open spec fn spec_any_successor_false(g: GraphModel, ni: int) -> bool {
    exists|k: int|
        0 <= k < spec_successors(g, ni).len() && spec_is_trivial_false(
            g,
            #[trigger] spec_successors(g, ni)[k],
        )
}

/// One propagation pass over a single node, applying, in this order:
/// trivial-false collapse, true-literal elimination, forward truth
/// propagation, and backward falsity inference. Yields the new graph,
/// whether progress was made, and whether the graph stayed consistent.
pub open spec fn spec_pass_node(g: GraphModel, fi: int, ni: int) -> (GraphModel, bool, bool) {
    let pa = spec_is_trivial_false(g, ni) && g.nodes[ni].atoms.len() != 1;
    let ga = if spec_is_trivial_false(g, ni) {
        update_node(g, ni, seq![fi])
    } else {
        g
    };
    let gb = if ga.nodes[ni].atoms.len() != 1 {
        update_node(ga, ni, spec_keep_non_true(ga, ga.nodes[ni].atoms, Seq::empty()))
    } else {
        ga
    };
    let rc = if spec_is_trivial_true(gb, ni) {
        spec_force_succs(gb, spec_successors(gb, ni), false)
    } else {
        (gb, false, true)
    };
    if !rc.2 {
        (rc.0, pa || rc.1, false)
    } else {
        let gc = rc.0;
        let rd = if spec_any_successor_false(gc, ni) {
            spec_set_single_false(gc, ni)
        } else {
            (gc, false, true)
        };
        (rd.0, pa || rc.1 || rd.1, rd.2)
    }
}

proof fn lemma_force_true_shape(g: GraphModel, idxs: Seq<int>, modified: bool)
    ensures
        ({
            let r = spec_force_true_list(g, idxs, modified);
            r.0.nodes == g.nodes && r.0.edges == g.edges && r.0.atoms.len() == g.atoms.len()
        }),
    decreases idxs.len(),
{
    if idxs.len() > 0 {
        match g.atoms[idxs[0]] {
            AtomModel::Boolean(bv) => {
                if bv {
                    lemma_force_true_shape(g, idxs.drop_first(), modified);
                }
            },
            _ => {
                lemma_force_true_shape(
                    update_atom(g, idxs[0], AtomModel::Boolean(true)),
                    idxs.drop_first(),
                    true,
                );
            },
        }
    }
}

proof fn lemma_force_succs_shape(g: GraphModel, succs: Seq<int>, modified: bool)
    ensures
        ({
            let r = spec_force_succs(g, succs, modified);
            r.0.nodes == g.nodes && r.0.edges == g.edges && r.0.atoms.len() == g.atoms.len()
        }),
    decreases succs.len(),
{
    if succs.len() > 0 {
        let r0 = spec_set_all_true(g, succs[0]);
        lemma_force_true_shape(g, g.nodes[succs[0]].atoms, false);
        if r0.2 {
            lemma_force_succs_shape(r0.0, succs.drop_first(), modified || r0.1);
        }
    }
}

proof fn lemma_pass_node_shape(g: GraphModel, fi: int, ni: int)
    ensures
        ({
            let r = spec_pass_node(g, fi, ni);
            r.0.nodes.len() == g.nodes.len() && r.0.edges == g.edges && r.0.atoms.len()
                == g.atoms.len()
        }),
{
    let ga = if spec_is_trivial_false(g, ni) {
        update_node(g, ni, seq![fi])
    } else {
        g
    };
    let gb = if ga.nodes[ni].atoms.len() != 1 {
        update_node(ga, ni, spec_keep_non_true(ga, ga.nodes[ni].atoms, Seq::empty()))
    } else {
        ga
    };
    if spec_is_trivial_true(gb, ni) {
        lemma_force_succs_shape(gb, spec_successors(gb, ni), false);
    }
}

/// A whole propagation pass from node `ni` to the end: `None` means a
/// contradiction was met; `Some(p)` whether any rule made progress.
pub open spec fn spec_pass(g: GraphModel, fi: int, ni: int) -> (GraphModel, Option<bool>)
    decreases g.nodes.len() - ni
        via spec_pass_decreases
{
    if ni < 0 || ni >= g.nodes.len() {
        (g, Some(false))
    } else {
        let r = spec_pass_node(g, fi, ni);
        if !r.2 {
            (r.0, None)
        } else {
            let rest = spec_pass(r.0, fi, ni + 1);
            match rest.1 {
                None => rest,
                Some(p) => (rest.0, Some(r.1 || p)),
            }
        }
    }
}

#[via_fn]
proof fn spec_pass_decreases(g: GraphModel, fi: int, ni: int) {
    if 0 <= ni < g.nodes.len() {
        lemma_pass_node_shape(g, fi, ni);
    }
}

/// Fold an already-accumulated progress flag into a pass result.
pub open spec fn pass_join(cur: (GraphModel, Option<bool>), progressed: bool) -> (
    GraphModel,
    Option<bool>,
) {
    match cur.1 {
        None => cur,
        Some(p) => (cur.0, Some(progressed || p)),
    }
}

/// One resolution step for a target atom: if the target has already become
/// a boolean literal the step is done; otherwise one propagation pass runs
/// over every node.
pub open spec fn spec_resolution_step(g: GraphModel, target: int) -> (GraphModel, Resolution) {
    match g.atoms[target] {
        AtomModel::Boolean(bv) => (
            g,
            Resolution::Done(
                if bv {
                    UnknownValue::True
                } else {
                    UnknownValue::False
                },
            ),
        ),
        _ => {
            let r0 = spec_find_or_insert_atom(g, AtomModel::Boolean(false));
            let rp = spec_pass(r0.0, r0.1, 0);
            match rp.1 {
                None => (rp.0, Resolution::Contradiction),
                Some(p) => (
                    rp.0,
                    if p {
                        Resolution::Progressed
                    } else {
                        Resolution::Halted
                    },
                ),
            }
        },
    }
}

proof fn lemma_nodes_model_update(s: Seq<NodeData>, i: int, nd: NodeData)
    requires
        0 <= i < s.len(),
    ensures
        nodes_model(s.update(i, nd)) == nodes_model(s).update(i, nd@),
{
    assert(nodes_model(s.update(i, nd)) =~= nodes_model(s).update(i, nd@));
}

proof fn lemma_block_model_update(s: Seq<Atom<Var>>, i: int, a: Atom<Var>)
    requires
        0 <= i < s.len(),
    ensures
        block_model(s.update(i, a)) == block_model(s).update(i, a@),
{
    assert(block_model(s.update(i, a)) =~= block_model(s).update(i, a@));
}

impl ImplicationGraph {
    /// Check whether one of the node's atoms is the literal false.
    fn is_trivial_false(&self, node_index: usize) -> (r: bool)
        requires
            wf_graph(self@),
            node_index < self@.nodes.len(),
        ensures
            r == spec_is_trivial_false(self@, node_index as int),
    {
        let n = self.nodes[node_index].atoms.len();
        let mut k: usize = 0;
        while k < n
            invariant
                wf_graph(self@),
                node_index < self@.nodes.len(),
                n == self@.nodes[node_index as int].atoms.len(),
                self@.nodes[node_index as int].atoms.len() == self.nodes@[node_index as int].atoms@.len(),
                k <= n,
                forall|j: int|
                    0 <= j < k ==> g_atom_at(self@, node_index as int, j) != AtomModel::<
                        Var,
                    >::Boolean(false),
            decreases n - k,
        {
            let aix = self.nodes[node_index].atoms[k];
            proof {
                assert(wf_node(self@, self@.nodes[node_index as int]));
                assert(self@.nodes[node_index as int].atoms[k as int] == aix as int);
            }
            match &self.atoms[aix] {
                Atom::Boolean(b) => {
                    if !*b {
                        proof {
                            assert(g_atom_at(self@, node_index as int, k as int) == AtomModel::<
                                Var,
                            >::Boolean(false));
                        }
                        return true;
                    }
                },
                _ => {},
            }
            k = k + 1;
        }
        false
    }

    /// Check whether every atom of the node is the literal true.
    fn is_trivial_true(&self, node_index: usize) -> (r: bool)
        requires
            wf_graph(self@),
            node_index < self@.nodes.len(),
        ensures
            r == spec_is_trivial_true(self@, node_index as int),
    {
        let n = self.nodes[node_index].atoms.len();
        let mut k: usize = 0;
        while k < n
            invariant
                wf_graph(self@),
                node_index < self@.nodes.len(),
                n == self@.nodes[node_index as int].atoms.len(),
                self@.nodes[node_index as int].atoms.len() == self.nodes@[node_index as int].atoms@.len(),
                k <= n,
                forall|j: int|
                    0 <= j < k ==> g_atom_at(self@, node_index as int, j) == AtomModel::<
                        Var,
                    >::Boolean(true),
            decreases n - k,
        {
            let aix = self.nodes[node_index].atoms[k];
            proof {
                assert(wf_node(self@, self@.nodes[node_index as int]));
                assert(self@.nodes[node_index as int].atoms[k as int] == aix as int);
            }
            let is_true = match &self.atoms[aix] {
                Atom::Boolean(b) => *b,
                _ => false,
            };
            if !is_true {
                proof {
                    assert(g_atom_at(self@, node_index as int, k as int) != AtomModel::<
                        Var,
                    >::Boolean(true));
                }
                return false;
            }
            k = k + 1;
        }
        true
    }

    /// Force every atom of the node to the literal true; a false literal
    /// among them is a contradiction. Partial mutations stay in place, as
    /// the graph is discarded after a contradiction is surfaced.
    fn set_all_true(&mut self, node_index: usize) -> (r: Result<bool, ()>)
        requires
            wf_graph(old(self)@),
            node_index < old(self)@.nodes.len(),
        ensures
            ({
                let t = spec_set_all_true(old(self)@, node_index as int);
                &&& final(self)@ == t.0
                &&& (r matches Ok(m) ==> t.2 && m == t.1)
                &&& (r is Err ==> !t.2)
            }),
            wf_graph(final(self)@),
            final(self)@.nodes == old(self)@.nodes,
            final(self)@.edges == old(self)@.edges,
            final(self)@.atoms.len() == old(self)@.atoms.len(),
    {
        let ghost idxs = old(self)@.nodes[node_index as int].atoms;
        let mut modified = false;
        let n = self.nodes[node_index].atoms.len();
        let mut k: usize = 0;
        proof {
            assert(idxs.skip(0) =~= idxs);
        }
        while k < n
            invariant
                wf_graph(self@),
                node_index < self@.nodes.len(),
                self@.nodes == old(self)@.nodes,
                self@.edges == old(self)@.edges,
                self@.atoms.len() == old(self)@.atoms.len(),
                idxs == old(self)@.nodes[node_index as int].atoms,
                n == idxs.len(),
                idxs.len() == self.nodes@[node_index as int].atoms@.len(),
                k <= n,
                spec_force_true_list(old(self)@, idxs, false) == spec_force_true_list(
                    self@,
                    idxs.skip(k as int),
                    modified,
                ),
            decreases n - k,
        {
            let ghost pre = idxs.skip(k as int);
            proof {
                assert(pre[0] == idxs[k as int]);
                assert(pre.drop_first() =~= idxs.skip(k + 1));
                assert(wf_node(self@, self@.nodes[node_index as int]));
            }
            let aix = self.nodes[node_index].atoms[k];
            proof {
                assert(self@.nodes[node_index as int].atoms[k as int] == aix as int);
            }
            let force = match &self.atoms[aix] {
                Atom::Boolean(b) => {
                    if !*b {
                        proof {
                            assert(!spec_force_true_list(self@, pre, modified).2);
                        }
                        return Err(());
                    }
                    false
                },
                _ => true,
            };
            if force {
                let ghost gpre = self@;
                let ghost av = self.atoms@;
                self.atoms.set(aix, Atom::Boolean(true));
                proof {
                    lemma_block_model_update(av, aix as int, Atom::Boolean(true));
                    assert(self@.atoms == gpre.atoms.update(
                        aix as int,
                        AtomModel::<Var>::Boolean(true),
                    ));
                    assert(self@ == update_atom(gpre, aix as int, AtomModel::Boolean(true)));
                }
                modified = true;
            }
            k = k + 1;
        }
        proof {
            assert(idxs.skip(n as int).len() == 0);
        }
        Ok(modified)
    }

    /// If the node holds exactly one atom, force it to the literal false;
    /// forcing a true literal is a contradiction. Multi-atom nodes are
    /// left untouched: no value can be inferred for them.
    fn set_single_false(&mut self, node_index: usize) -> (r: Result<bool, ()>)
        requires
            wf_graph(old(self)@),
            node_index < old(self)@.nodes.len(),
        ensures
            ({
                let t = spec_set_single_false(old(self)@, node_index as int);
                &&& final(self)@ == t.0
                &&& (r matches Ok(m) ==> t.2 && m == t.1)
                &&& (r is Err ==> !t.2)
            }),
            wf_graph(final(self)@),
            final(self)@.nodes == old(self)@.nodes,
            final(self)@.edges == old(self)@.edges,
            final(self)@.atoms.len() == old(self)@.atoms.len(),
    {
        if self.nodes[node_index].atoms.len() != 1 {
            return Ok(false);
        }
        proof {
            assert(wf_node(self@, self@.nodes[node_index as int]));
        }
        let aix = self.nodes[node_index].atoms[0];
        proof {
            assert(self@.nodes[node_index as int].atoms[0] == aix as int);
        }
        match &self.atoms[aix] {
            Atom::Boolean(b) => {
                if *b {
                    Err(())
                } else {
                    Ok(false)
                }
            },
            _ => {
                let ghost gpre = self@;
                let ghost av = self.atoms@;
                self.atoms.set(aix, Atom::Boolean(false));
                proof {
                    lemma_block_model_update(av, aix as int, Atom::Boolean(false));
                    assert(self@.atoms == gpre.atoms.update(
                        aix as int,
                        AtomModel::<Var>::Boolean(false),
                    ));
                    assert(self@ == update_atom(gpre, aix as int, AtomModel::Boolean(false)));
                }
                Ok(true)
            },
        }
    }
}

impl ImplicationGraph {
    /// The nodes this node implies, in edge-chain order.
    pub fn successors(&self, node_index: usize) -> (r: Vec<usize>)
        requires
            wf_graph(self@),
            node_index < self@.nodes.len(),
        ensures
            idx_model(r@) == spec_successors(self@, node_index as int),
            forall|k: int| 0 <= k < r@.len() ==> (#[trigger] r@[k]) < self@.nodes.len(),
    {
        let mut r: Vec<usize> = Vec::new();
        let mut cur: Option<usize> = self.nodes[node_index].first_outgoing_edge;
        proof {
            assert(wf_node(self@, self@.nodes[node_index as int]));
            assert(opt_int(cur) == self@.nodes[node_index as int].first_outgoing_edge);
            assert(idx_model(r@) =~= Seq::<int>::empty());
            assert(Seq::<int>::empty() + spec_successors_from(self@, opt_int(cur))
                =~= spec_successors_from(self@, opt_int(cur)));
        }
        while cur.is_some()
            invariant
                wf_graph(self@),
                node_index < self@.nodes.len(),
                (cur matches Some(e) ==> (e as int) < self@.edges.len()),
                idx_model(r@) + spec_successors_from(self@, opt_int(cur)) == spec_successors(
                    self@,
                    node_index as int,
                ),
                forall|k: int| 0 <= k < r@.len() ==> (#[trigger] r@[k]) < self@.nodes.len(),
            decreases (match cur {
                Some(i) => i as int + 1,
                None => 0int,
            }),
        {
            let edge_index = match cur {
                Some(e) => e,
                None => {
                    proof {
                        assert(false);
                    }
                    0
                },
            };
            let edge = self.edges[edge_index];
            let ghost r0 = idx_model(r@);
            r.push(edge.implies);
            cur = edge.next_outgoing_edge;
            proof {
                assert(self@.edges[edge_index as int].implies == edge.implies as int);
                assert(self@.edges[edge_index as int].next_outgoing_edge == opt_int(cur));
                assert(idx_model(r@) == r0.push(edge.implies as int));
                assert(spec_successors_from(self@, Some(edge_index as int)) == seq![
                    edge.implies as int,
                ] + spec_successors_from(self@, opt_int(cur)));
                assert(r0 + (seq![edge.implies as int] + spec_successors_from(
                    self@,
                    opt_int(cur),
                )) =~= r0.push(edge.implies as int) + spec_successors_from(self@, opt_int(cur)));
            }
        }
        proof {
            assert(spec_successors_from(self@, opt_int(cur)) =~= Seq::<int>::empty());
            assert(idx_model(r@) + Seq::<int>::empty() =~= idx_model(r@));
        }
        r
    }

    /// Drop every redundant true literal from a node with more than one
    /// atom (a block is true iff all its conjuncts are; true conjuncts
    /// carry no information). One atom always remains untouched.
    fn retain_non_true(&mut self, node_index: usize)
        requires
            wf_graph(old(self)@),
            node_index < old(self)@.nodes.len(),
        ensures
            final(self)@ == (if old(self)@.nodes[node_index as int].atoms.len() != 1 {
                update_node(
                    old(self)@,
                    node_index as int,
                    spec_keep_non_true(
                        old(self)@,
                        old(self)@.nodes[node_index as int].atoms,
                        Seq::empty(),
                    ),
                )
            } else {
                old(self)@
            }),
            wf_graph(final(self)@),
            final(self)@.atoms == old(self)@.atoms,
            final(self)@.edges == old(self)@.edges,
            final(self)@.nodes.len() == old(self)@.nodes.len(),
    {
        if self.nodes[node_index].atoms.len() == 1 {
            return ;
        }
        let ghost idxs = old(self)@.nodes[node_index as int].atoms;
        let n = self.nodes[node_index].atoms.len();
        let mut kept: Vec<usize> = Vec::new();
        let mut k: usize = 0;
        proof {
            assert(idxs.skip(0) =~= idxs);
            assert(idx_model(kept@) =~= Seq::<int>::empty());
        }
        while k < n
            invariant
                wf_graph(self@),
                self == old(self),
                node_index < self@.nodes.len(),
                idxs == self@.nodes[node_index as int].atoms,
                n == idxs.len(),
                idxs.len() == self.nodes@[node_index as int].atoms@.len(),
                k <= n,
                forall|j: int| 0 <= j < kept@.len() ==> (#[trigger] kept@[j]) < self.atoms@.len(),
                spec_keep_non_true(self@, idxs, Seq::empty()) == spec_keep_non_true(
                    self@,
                    idxs.skip(k as int),
                    idx_model(kept@),
                ),
            decreases n - k,
        {
            let ghost pre = idxs.skip(k as int);
            proof {
                assert(pre[0] == idxs[k as int]);
                assert(pre.drop_first() =~= idxs.skip(k + 1));
                assert(wf_node(self@, self@.nodes[node_index as int]));
            }
            let aix = self.nodes[node_index].atoms[k];
            proof {
                assert(self@.nodes[node_index as int].atoms[k as int] == aix as int);
            }
            let is_true = match &self.atoms[aix] {
                Atom::Boolean(b) => *b,
                _ => false,
            };
            if !is_true {
                kept.push(aix);
            }
            k = k + 1;
        }
        proof {
            assert(idxs.skip(n as int).len() == 0);
        }
        let fe = self.nodes[node_index].first_outgoing_edge;
        let ghost gpre = self@;
        let ghost nv = self.nodes@;
        let nd = NodeData { atoms: kept, first_outgoing_edge: fe };
        self.nodes.set(node_index, nd);
        proof {
            lemma_nodes_model_update(nv, node_index as int, nd);
            assert(self@ == update_node(
                gpre,
                node_index as int,
                spec_keep_non_true(gpre, idxs, Seq::empty()),
            ));
            assert forall|ni: int| 0 <= ni < self@.nodes.len() implies wf_node(
                self@,
                #[trigger] self@.nodes[ni],
            ) by {
                assert(wf_node(gpre, gpre.nodes[ni]));
            }
        }
    }

    /// Force every successor of a trivially true node to be trivially
    /// true as well; a contradiction among them surfaces as an error.
    fn force_successors(&mut self, node_index: usize) -> (r: Result<bool, ()>)
        requires
            wf_graph(old(self)@),
            node_index < old(self)@.nodes.len(),
        ensures
            ({
                let t = spec_force_succs(
                    old(self)@,
                    spec_successors(old(self)@, node_index as int),
                    false,
                );
                &&& final(self)@ == t.0
                &&& (r matches Ok(m) ==> t.2 && m == t.1)
                &&& (r is Err ==> !t.2)
            }),
            wf_graph(final(self)@),
            final(self)@.nodes == old(self)@.nodes,
            final(self)@.edges == old(self)@.edges,
            final(self)@.atoms.len() == old(self)@.atoms.len(),
    {
        let succs = self.successors(node_index);
        let ghost sm = idx_model(succs@);
        let n = succs.len();
        let mut modified = false;
        let mut k: usize = 0;
        proof {
            assert(sm.skip(0) =~= sm);
        }
        while k < n
            invariant
                wf_graph(self@),
                self@.nodes == old(self)@.nodes,
                self@.edges == old(self)@.edges,
                self@.atoms.len() == old(self)@.atoms.len(),
                n == succs@.len(),
                sm == idx_model(succs@),
                sm == spec_successors(old(self)@, node_index as int),
                forall|j: int| 0 <= j < succs@.len() ==> (#[trigger] succs@[j]) < self@.nodes.len(),
                k <= n,
                spec_force_succs(old(self)@, sm, false) == spec_force_succs(
                    self@,
                    sm.skip(k as int),
                    modified,
                ),
            decreases n - k,
        {
            let ghost pre = sm.skip(k as int);
            proof {
                assert(pre[0] == sm[k as int]);
                assert(sm[k as int] == succs@[k as int] as int);
                assert(pre.drop_first() =~= sm.skip(k + 1));
            }
            let target = succs[k];
            let ghost gpre = self@;
            match self.set_all_true(target) {
                Ok(m) => {
                    modified = modified || m;
                },
                Err(()) => {
                    proof {
                        let r0 = spec_set_all_true(gpre, pre[0]);
                        assert(self@ == r0.0);
                        assert(!r0.2);
                        assert(spec_force_succs(gpre, pre, modified) == (
                            self@,
                            modified || r0.1,
                            false,
                        ));
                        assert(!spec_force_succs(old(self)@, sm, false).2);
                        assert(spec_force_succs(old(self)@, sm, false).0 == self@);
                    }
                    return Err(());
                },
            }
            k = k + 1;
        }
        proof {
            assert(sm.skip(n as int).len() == 0);
        }
        Ok(modified)
    }

    /// Whether some node implied by this node is trivially false.
    fn any_successor_false(&self, node_index: usize) -> (r: bool)
        requires
            wf_graph(self@),
            node_index < self@.nodes.len(),
        ensures
            r == spec_any_successor_false(self@, node_index as int),
    {
        let succs = self.successors(node_index);
        let ghost sm = idx_model(succs@);
        let n = succs.len();
        let mut k: usize = 0;
        while k < n
            invariant
                wf_graph(self@),
                node_index < self@.nodes.len(),
                n == succs@.len(),
                sm == idx_model(succs@),
                sm == spec_successors(self@, node_index as int),
                forall|j: int| 0 <= j < succs@.len() ==> (#[trigger] succs@[j]) < self@.nodes.len(),
                k <= n,
                forall|j: int| 0 <= j < k ==> !spec_is_trivial_false(self@, #[trigger] sm[j]),
            decreases n - k,
        {
            proof {
                assert(sm[k as int] == succs@[k as int] as int);
            }
            if self.is_trivial_false(succs[k]) {
                proof {
                    assert(spec_is_trivial_false(self@, sm[k as int]));
                    assert(spec_any_successor_false(self@, node_index as int));
                }
                return true;
            }
            k = k + 1;
        }
        proof {
            assert(!spec_any_successor_false(self@, node_index as int));
        }
        false
    }

    /// One resolution step for the target atom. If the target has become a
    /// boolean literal, resolution is done; otherwise one propagation pass
    /// runs over every node, applying the four rules in order, and reports
    /// whether it progressed, halted, or met a contradiction.
    pub fn resolution_step(&mut self, resolve_for: usize) -> (r: Resolution)
        requires
            wf_graph(old(self)@),
            resolve_for < old(self)@.atoms.len(),
        ensures
            ({
                let t = spec_resolution_step(old(self)@, resolve_for as int);
                &&& final(self)@ == t.0
                &&& r == t.1
            }),
            wf_graph(final(self)@),
            final(self)@.nodes.len() == old(self)@.nodes.len(),
            old(self)@.atoms.len() <= final(self)@.atoms.len(),
            resolve_for < final(self)@.atoms.len(),
    {
        // check if we are done
        let done = match &self.atoms[resolve_for] {
            Atom::Boolean(b) => Some(*b),
            _ => None,
        };
        match done {
            Some(b) => {
                return Resolution::Done(
                    if b {
                        UnknownValue::True
                    } else {
                        UnknownValue::False
                    },
                );
            },
            None => {},
        }
        let false_index = self.find_or_insert_atom(Atom::Boolean(false));
        let ghost g1 = self@;
        let ghost fi = false_index as int;
        let mut progressed = false;
        let n_nodes = self.nodes.len();
        let mut node_index: usize = 0;
        while node_index < n_nodes
            invariant
                wf_graph(self@),
                n_nodes == self@.nodes.len(),
                self@.nodes.len() == g1.nodes.len(),
                self@.atoms.len() == g1.atoms.len(),
                fi == false_index as int,
                (false_index as int) < self@.atoms.len(),
                node_index <= n_nodes,
                !(old(self)@.atoms[resolve_for as int] is Boolean),
                (g1, fi) == spec_find_or_insert_atom(old(self)@, AtomModel::Boolean(false)),
                g1.atoms.len() <= self@.atoms.len(),
                old(self)@.atoms.len() <= self@.atoms.len(),
                resolve_for < old(self)@.atoms.len(),
                pass_join(spec_pass(self@, fi, node_index as int), progressed) == spec_pass(
                    g1,
                    fi,
                    0,
                ),
            decreases n_nodes - node_index,
        {
            let ghost g_node = self@;
            let ghost p0 = progressed;
            // trivial-false collapse: replace the node's contents with the
            // single canonical false atom
            let trivially_false = self.is_trivial_false(node_index);
            if trivially_false {
                progressed = progressed || self.nodes[node_index].atoms.len() != 1;
                let fe = self.nodes[node_index].first_outgoing_edge;
                let mut v: Vec<usize> = Vec::new();
                v.push(false_index);
                let ghost nv = self.nodes@;
                let nd = NodeData { atoms: v, first_outgoing_edge: fe };
                proof {
                    assert(idx_model(nd.atoms@) =~= seq![fi]);
                }
                self.nodes.set(node_index, nd);
                proof {
                    lemma_nodes_model_update(nv, node_index as int, nd);
                    assert(self@ == update_node(g_node, node_index as int, seq![fi]));
                    assert forall|ni: int| 0 <= ni < self@.nodes.len() implies wf_node(
                        self@,
                        #[trigger] self@.nodes[ni],
                    ) by {
                        assert(wf_node(g_node, g_node.nodes[ni]));
                    }
                }
            }
            let ghost ga = self@;
            let ghost pa = spec_is_trivial_false(g_node, node_index as int)
                && g_node.nodes[node_index as int].atoms.len() != 1;
            proof {
                assert(progressed == (p0 || pa));
                assert(ga == (if spec_is_trivial_false(g_node, node_index as int) {
                    update_node(g_node, node_index as int, seq![fi])
                } else {
                    g_node
                }));
            }
            // true-literal elimination
            self.retain_non_true(node_index);
            let ghost gb = self@;
            // forward truth propagation: a trivially true node forces all
            // atoms of every node it implies
            let mut pc = false;
            let trivially_true = self.is_trivial_true(node_index);
            if trivially_true {
                match self.force_successors(node_index) {
                    Ok(m) => {
                        pc = m;
                    },
                    Err(()) => {
                        proof {
                            let nii = node_index as int;
                            let pa_s = spec_is_trivial_false(g_node, nii)
                                && g_node.nodes[nii].atoms.len() != 1;
                            let ga_s = if spec_is_trivial_false(g_node, nii) {
                                update_node(g_node, nii, seq![fi])
                            } else {
                                g_node
                            };
                            assert(ga == ga_s);
                            let gb_s = if ga_s.nodes[nii].atoms.len() != 1 {
                                update_node(
                                    ga_s,
                                    nii,
                                    spec_keep_non_true(ga_s, ga_s.nodes[nii].atoms, Seq::empty()),
                                )
                            } else {
                                ga_s
                            };
                            assert(gb == gb_s);
                            let rc_s = spec_force_succs(
                                gb_s,
                                spec_successors(gb_s, nii),
                                false,
                            );
                            assert(self@ == rc_s.0);
                            assert(!rc_s.2);
                            let pn = spec_pass_node(g_node, fi, nii);
                            assert(pn == (rc_s.0, pa_s || rc_s.1, false));
                            assert(spec_pass(g_node, fi, nii) == (self@, None::<bool>));
                            assert(pass_join(spec_pass(g_node, fi, nii), p0) == (
                                self@,
                                None::<bool>,
                            ));
                            let t = spec_resolution_step(old(self)@, resolve_for as int);
                            assert(t.0 == self@);
                            assert(t.1 == Resolution::Contradiction);
                        }
                        return Resolution::Contradiction;
                    },
                }
            }
            let ghost gc = self@;
            proof {
                let rc = if spec_is_trivial_true(gb, node_index as int) {
                    spec_force_succs(gb, spec_successors(gb, node_index as int), false)
                } else {
                    (gb, false, true)
                };
                assert(gc == rc.0);
                assert(pc == rc.1);
                assert(rc.2);
            }
            // backward falsity inference: a node with a trivially false
            // successor must itself be false, if it is a single atom
            let mut pd = false;
            let successor_is_false = self.any_successor_false(node_index);
            if successor_is_false {
                match self.set_single_false(node_index) {
                    Ok(m) => {
                        pd = m;
                    },
                    Err(()) => {
                        proof {
                            let nii = node_index as int;
                            let pa_s = spec_is_trivial_false(g_node, nii)
                                && g_node.nodes[nii].atoms.len() != 1;
                            let ga_s = if spec_is_trivial_false(g_node, nii) {
                                update_node(g_node, nii, seq![fi])
                            } else {
                                g_node
                            };
                            assert(ga == ga_s);
                            let gb_s = if ga_s.nodes[nii].atoms.len() != 1 {
                                update_node(
                                    ga_s,
                                    nii,
                                    spec_keep_non_true(ga_s, ga_s.nodes[nii].atoms, Seq::empty()),
                                )
                            } else {
                                ga_s
                            };
                            assert(gb == gb_s);
                            let rc_s = if spec_is_trivial_true(gb_s, nii) {
                                spec_force_succs(gb_s, spec_successors(gb_s, nii), false)
                            } else {
                                (gb_s, false, true)
                            };
                            assert(gc == rc_s.0);
                            assert(rc_s.2);
                            let af = spec_any_successor_false(gc, nii);
                            assert(af);
                            let rd_s = spec_set_single_false(gc, nii);
                            assert(self@ == rd_s.0);
                            assert(!rd_s.2);
                            let pn = spec_pass_node(g_node, fi, nii);
                            assert(pn == (rd_s.0, pa_s || rc_s.1 || rd_s.1, false));
                            assert(spec_pass(g_node, fi, nii) == (self@, None::<bool>));
                            assert(pass_join(spec_pass(g_node, fi, nii), p0) == (
                                self@,
                                None::<bool>,
                            ));
                            let t = spec_resolution_step(old(self)@, resolve_for as int);
                            assert(t.0 == self@);
                            assert(t.1 == Resolution::Contradiction);
                        }
                        return Resolution::Contradiction;
                    },
                }
            }
            progressed = progressed || pc || pd;
            proof {
                let nii = node_index as int;
                let pa_s = spec_is_trivial_false(g_node, nii) && g_node.nodes[nii].atoms.len()
                    != 1;
                let ga_s = if spec_is_trivial_false(g_node, nii) {
                    update_node(g_node, nii, seq![fi])
                } else {
                    g_node
                };
                assert(ga == ga_s);
                let gb_s = if ga_s.nodes[nii].atoms.len() != 1 {
                    update_node(
                        ga_s,
                        nii,
                        spec_keep_non_true(ga_s, ga_s.nodes[nii].atoms, Seq::empty()),
                    )
                } else {
                    ga_s
                };
                assert(gb == gb_s);
                let rc_s = if spec_is_trivial_true(gb_s, nii) {
                    spec_force_succs(gb_s, spec_successors(gb_s, nii), false)
                } else {
                    (gb_s, false, true)
                };
                assert(gc == rc_s.0);
                assert(pc == rc_s.1);
                assert(rc_s.2);
                let af = spec_any_successor_false(gc, nii);
                assert(successor_is_false == af);
                let rd_s = if af {
                    spec_set_single_false(gc, nii)
                } else {
                    (gc, false, true)
                };
                assert(self@ == rd_s.0);
                assert(pd == rd_s.1);
                assert(rd_s.2);
                let pn = spec_pass_node(g_node, fi, nii);
                assert(pn == (rd_s.0, pa_s || rc_s.1 || rd_s.1, rd_s.2));
                assert(pn.0 == self@);
                assert(pn.2);
                assert(progressed == (p0 || pn.1));
                lemma_pass_node_shape(g_node, fi, nii);
                assert(pass_join(spec_pass(self@, fi, nii + 1), progressed) == pass_join(
                    spec_pass(g_node, fi, nii),
                    p0,
                ));
            }
            node_index = node_index + 1;
        }
        proof {
            assert(spec_pass(self@, fi, node_index as int) == (self@, Some(false)));
            assert(spec_pass(g1, fi, 0) == (self@, Some(progressed)));
        }
        if progressed {
            Resolution::Progressed
        } else {
            Resolution::Halted
        }
    }
}

} // verus!

