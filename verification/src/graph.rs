//! The master graph of mathematical entities: operators, constants, algebraic properties and
//! tactics, joined by typed edges, and the part of it that a proof state activates.
use vstd::prelude::*;
use vstd::pervasive::VecAdditionalExecFns;
use crate::strings::{str_eq, owned, strings_view};
use crate::fol::{Term, STerm, lemma_view, lemma_decreases_arg};
use crate::kernel::{ProofState, Tactic, STactic, SProofState};
use std::collections::HashSet;

verus! {

/// What a node of the master graph stands for.
#[derive(Debug, Clone, Hash)]
pub enum NodeType {
    Operator(String),
    Constant(String),
    AxiomProperty(String),
    TacticPrimitive(String),
    Variable,
}

pub enum SNodeType {
    Operator(Seq<char>),
    Constant(Seq<char>),
    AxiomProperty(Seq<char>),
    TacticPrimitive(Seq<char>),
    Variable,
}

impl View for NodeType {
    type V = SNodeType;

    open spec fn view(&self) -> SNodeType {
        match self {
            NodeType::Operator(s) => SNodeType::Operator(s@),
            NodeType::Constant(s) => SNodeType::Constant(s@),
            NodeType::AxiomProperty(s) => SNodeType::AxiomProperty(s@),
            NodeType::TacticPrimitive(s) => SNodeType::TacticPrimitive(s@),
            NodeType::Variable => SNodeType::Variable,
        }
    }
}

impl PartialEq for NodeType {
    fn eq(&self, other: &Self) -> (r: bool) {
        match (self, other) {
            (NodeType::Operator(a), NodeType::Operator(b)) => str_eq(a.as_str(), b.as_str()),
            (NodeType::Constant(a), NodeType::Constant(b)) => str_eq(a.as_str(), b.as_str()),
            (NodeType::AxiomProperty(a), NodeType::AxiomProperty(b)) => str_eq(a.as_str(), b.as_str()),
            (NodeType::TacticPrimitive(a), NodeType::TacticPrimitive(b)) => str_eq(a.as_str(), b.as_str()),
            (NodeType::Variable, NodeType::Variable) => true,
            _ => false,
        }
    }
}

impl vstd::std_specs::cmp::PartialEqSpecImpl for NodeType {
    open spec fn obeys_eq_spec() -> bool {
        true
    }

    open spec fn eq_spec(&self, other: &Self) -> bool {
        self@ == other@
    }
}

impl Eq for NodeType {}

/// How two entities of the master graph are related.
#[derive(Debug, Clone, Copy, PartialEq, Eq, Hash, Structural)]
pub enum EdgeType {
    Isomorphism,
    SubOperation,
    AppliesTactic,
    Dual,
    IdentityPair,
}

/// A node of the master graph.
#[derive(Debug, Clone)]
pub struct MathGraphNode {
    pub id: usize,
    pub node_type: NodeType,
    pub name: String,
    pub domain_tags: Vec<String>,
}

/// The mathematical value of a node.
pub struct SGraphNode {
    pub id: usize,
    pub node_type: SNodeType,
    pub name: Seq<char>,
    pub domain_tags: Seq<Seq<char>>,
}

impl View for MathGraphNode {
    type V = SGraphNode;

    open spec fn view(&self) -> SGraphNode {
        SGraphNode {
            id: self.id,
            node_type: self.node_type@,
            name: self.name@,
            domain_tags: strings_view(self.domain_tags@),
        }
    }
}

/// An edge of the master graph, from one node to another.
#[derive(Debug, Clone, Copy, PartialEq, Eq, Structural)]
pub struct MathGraphEdge {
    pub from: usize,
    pub to: usize,
    pub edge_type: EdgeType,
}

/// The neighbours of node `v` as the edges list them: each edge adds its far end to the
/// neighbours of each of its ends, the edge's start first.
pub open spec fn adj_list(edges: Seq<MathGraphEdge>, v: int) -> Seq<(usize, EdgeType)>
    decreases edges.len(),
{
    if edges.len() == 0 {
        Seq::empty()
    } else {
        let prev = adj_list(edges.drop_last(), v);
        let e = edges.last();
        let p1 = if e.from == v { prev.push((e.to, e.edge_type)) } else { prev };
        if e.to == v { p1.push((e.from, e.edge_type)) } else { p1 }
    }
}

/// The unified graph of operators, constants, properties and tactics, with the neighbours of
/// each node listed by its number.
pub struct MasterMathGraph {
    pub nodes: Vec<MathGraphNode>,
    pub edges: Vec<MathGraphEdge>,
    pub adjacency: Vec<Vec<(usize, EdgeType)>>,
}

/// The views of the nodes, by number.
pub open spec fn node_views(nodes: Seq<MathGraphNode>) -> Seq<SGraphNode> {
    Seq::new(nodes.len(), |i: int| nodes[i]@)
}

/// The tags as character sequences.
pub open spec fn tags_of(s: Seq<&str>) -> Seq<Seq<char>> {
    Seq::new(s.len(), |i: int| s[i]@)
}

/// The types of the nodes, by number.
pub open spec fn node_types(nodes: Seq<MathGraphNode>) -> Seq<SNodeType> {
    Seq::new(nodes.len(), |i: int| nodes[i].node_type@)
}

/// The number of the first node of type `t`.
pub open spec fn first_node(types: Seq<SNodeType>, t: SNodeType) -> Option<usize>
    decreases types.len(),
{
    if types.len() == 0 {
        None
    } else {
        match first_node(types.drop_last(), t) {
            Some(i) => Some(i),
            None => if types.last() == t { Some((types.len() - 1) as usize) } else { None },
        }
    }
}

impl MasterMathGraph {
    /// Each node carries its own number, the adjacency lists are those the edges make, and
    /// every edge joins two existing nodes.
    pub open spec fn wf(&self) -> bool {
        &&& self.adjacency@.len() == self.nodes@.len()
        &&& forall|i: int| 0 <= i < self.nodes@.len() ==> #[trigger] self.nodes@[i].id == i
        &&& forall|j: int| 0 <= j < self.edges@.len() ==>
                #[trigger] self.edges@[j].from < self.nodes@.len() && self.edges@[j].to < self.nodes@.len()
        &&& forall|v: int| 0 <= v < self.nodes@.len() ==> #[trigger] self.adjacency@[v]@ == adj_list(self.edges@, v)
    }

    pub open spec fn types(&self) -> Seq<SNodeType> {
        node_types(self.nodes@)
    }

    /// An empty graph.
    pub fn new() -> (r: MasterMathGraph)
        ensures r.wf(), r.nodes@.len() == 0, r.edges@.len() == 0,
    {
        MasterMathGraph { nodes: Vec::new(), edges: Vec::new(), adjacency: Vec::new() }
    }

    /// Adds a node and returns its number, the number of nodes before.
    pub fn add_node(&mut self, node_type: NodeType, name: &str, domains: &[&str]) -> (r: usize)
        requires old(self).wf(), old(self).nodes@.len() < usize::MAX,
        ensures
            final(self).wf(),
            r == old(self).nodes@.len(),
            final(self).nodes@.drop_last() == old(self).nodes@,
            final(self).nodes@.len() == r + 1,
            node_views(final(self).nodes@) == node_views(old(self).nodes@).push(SGraphNode {
                id: r,
                node_type: node_type@,
                name: name@,
                domain_tags: tags_of(domains@),
            }),
            final(self).edges@ == old(self).edges@,
    {
        let id = self.nodes.len();
        let mut tags: Vec<String> = Vec::new();
        let mut i: usize = 0;
        while i < domains.len()
            invariant
                i <= domains@.len(),
                tags@.len() == i,
                strings_view(tags@) == Seq::new(i as nat, |k: int| domains@[k]@),
            decreases domains@.len() - i,
        {
            let t = owned(domains[i]);
            proof {
                assert(t@ == domains@[i as int]@);
                assert forall|k: int| 0 <= k < i implies #[trigger] strings_view(tags@)[k] == domains@[k]@ by {
                    assert(strings_view(tags@)[k] == Seq::new(i as nat, |k: int| domains@[k]@)[k]);
                }
                assert forall|k: int| 0 <= k <= i implies #[trigger] strings_view(tags@.push(t))[k] == domains@[k]@ by {
                    if k < i {
                        assert(tags@.push(t)[k] == tags@[k]);
                        assert(strings_view(tags@)[k] == tags@[k]@);
                    } else {
                        assert(tags@.push(t)[k] == t);
                    }
                    assert(strings_view(tags@.push(t))[k] == tags@.push(t)[k]@);
                }
                assert(strings_view(tags@.push(t)) =~= Seq::new((i + 1) as nat, |k: int| domains@[k]@));
            }
            tags.push(t);
            i += 1;
        }
        let node = MathGraphNode { id, node_type, name: owned(name), domain_tags: tags };
        let ghost nv = node@;
        self.nodes.push(node);
        self.adjacency.push(Vec::new());
        proof {
            assert(nv.domain_tags =~= tags_of(domains@));
            assert(node_views(self.nodes@) =~= node_views(old(self).nodes@).push(nv));
            assert(self.nodes@.drop_last() =~= old(self).nodes@);
            assert forall|j: int| 0 <= j < self.edges@.len() implies
                #[trigger] self.edges@[j].from < self.nodes@.len() && self.edges@[j].to < self.nodes@.len() by {
                assert(old(self).edges@[j].from < old(self).nodes@.len());
            }
            assert(adj_list(self.edges@, id as int) =~= Seq::<(usize, EdgeType)>::empty()) by {
                lemma_adj_list_absent(self.edges@, id as int);
            }
            assert forall|v: int| 0 <= v < self.nodes@.len() implies #[trigger] self.adjacency@[v]@ == adj_list(self.edges@, v) by {
                if v < id {
                    assert(self.adjacency@[v] == old(self).adjacency@[v]);
                }
            }
            assert forall|k: int| 0 <= k < self.nodes@.len() implies #[trigger] self.nodes@[k].id == k by {
                if k < id {
                    assert(self.nodes@[k] == old(self).nodes@[k]);
                }
            }
        }
        id
    }

    /// Adds an edge between two existing nodes, listing each end among the other's neighbours.
    pub fn add_edge(&mut self, from: usize, to: usize, edge_type: EdgeType)
        requires old(self).wf(), from < old(self).nodes@.len(), to < old(self).nodes@.len(),
        ensures
            final(self).wf(),
            final(self).nodes@ == old(self).nodes@,
            final(self).edges@ == old(self).edges@.push(MathGraphEdge { from, to, edge_type }),
    {
        let e = MathGraphEdge { from, to, edge_type };
        self.edges.push(e);
        let mut l: Vec<(usize, EdgeType)> = Vec::new();
        self.adjacency.set_and_swap(from, &mut l);
        l.push((to, edge_type));
        self.adjacency.set_and_swap(from, &mut l);
        let mut m: Vec<(usize, EdgeType)> = Vec::new();
        self.adjacency.set_and_swap(to, &mut m);
        m.push((from, edge_type));
        self.adjacency.set_and_swap(to, &mut m);
        proof {
            let es = self.edges@;
            assert(es.drop_last() =~= old(self).edges@);
            assert(es.last() == e);
            assert forall|j: int| 0 <= j < es.len() implies
                #[trigger] es[j].from < self.nodes@.len() && es[j].to < self.nodes@.len() by {
                if j < old(self).edges@.len() {
                    assert(es[j] == old(self).edges@[j]);
                }
            }
            assert forall|v: int| 0 <= v < self.nodes@.len() implies #[trigger] self.adjacency@[v]@ == adj_list(es, v) by {
                assert(old(self).adjacency@[v]@ == adj_list(old(self).edges@, v));
            }
        }
    }

    /// The number of the first node of the given type.
    pub fn find_node(&self, node_type: &NodeType) -> (r: Option<usize>)
        ensures r == first_node(self.types(), node_type@),
    {
        let ghost ts = self.types();
        let mut i: usize = 0;
        while i < self.nodes.len()
            invariant
                i <= self.nodes@.len(),
                ts == self.types(),
                first_node(ts.take(i as int), node_type@) is None,
            decreases self.nodes@.len() - i,
        {
            proof {
                assert(ts.take(i + 1).drop_last() =~= ts.take(i as int));
                assert(ts.take(i + 1).last() == self.nodes@[i as int].node_type@);
            }
            if self.nodes[i].node_type == *node_type {
                proof { lemma_first_node_prefix(ts, node_type@, i + 1); }
                return Some(i);
            }
            i += 1;
        }
        proof { assert(ts.take(i as int) =~= ts); }
        None
    }
}

/// Whether a term activates node `id`: a variable the variable node; a constant its own node, or
/// the node of 0 when it has none; an application the node of its operator, and whatever its
/// arguments activate.
pub open spec fn term_hits(ts: Seq<SNodeType>, t: STerm, id: usize) -> bool
    decreases t,
{
    match t {
        STerm::Var(_) => first_node(ts, SNodeType::Variable) == Some(id),
        STerm::Const(c) => match first_node(ts, SNodeType::Constant(c)) {
            Some(x) => x == id,
            None => first_node(ts, SNodeType::Constant("0"@)) == Some(id),
        },
        STerm::Func(n, args) => first_node(ts, SNodeType::Operator(n)) == Some(id)
            || exists|i: int| #![trigger args[i]] 0 <= i < args.len() && term_hits(ts, args[i], id),
    }
}

/// The nodes a term activates.
pub open spec fn term_nodes(ts: Seq<SNodeType>, t: STerm) -> Set<usize> {
    Set::new(|id: usize| term_hits(ts, t, id))
}

impl MasterMathGraph {
    /// Adds to `out` the nodes that `term` activates.
    #[verifier::loop_isolation(false)]
    pub fn extract_term_node_types(&self, term: &Term, out: &mut HashSet<usize>)
        ensures final(out)@ == old(out)@.union(term_nodes(self.types(), term@)),
        decreases term,
    {
        broadcast use vstd::std_specs::hash::group_hash_axioms;
        let ghost ts = self.types();
        proof { lemma_view(*term); }
        match term {
            Term::Var(_) => {
                if let Some(id) = self.find_node(&NodeType::Variable) {
                    out.insert(id);
                }
                assert(final(out)@ =~= old(out)@.union(term_nodes(ts, term@)));
            },
            Term::Const(c) => {
                if let Some(id) = self.find_node(&NodeType::Constant(c.clone())) {
                    out.insert(id);
                } else if let Some(id) = self.find_node(&NodeType::Constant(owned("0"))) {
                    out.insert(id);
                }
                assert(final(out)@ =~= old(out)@.union(term_nodes(ts, term@)));
            },
            Term::Func(name, args) => {
                let ghost sargs = term@->Func_1;
                let ghost op = first_node(ts, SNodeType::Operator(name@));
                if let Some(id) = self.find_node(&NodeType::Operator(name.clone())) {
                    out.insert(id);
                }
                let mut i: usize = 0;
                while i < args.len()
                    invariant
                        i <= args@.len(),
                        sargs.len() == args@.len(),
                        forall|j: int| 0 <= j < args@.len() ==> #[trigger] sargs[j] == args@[j]@,
                        ts == self.types(),
                        out@ == old(out)@.union(Set::new(|id: usize|
                            op == Some(id) || exists|j: int| #![trigger sargs[j]] 0 <= j < i && term_hits(ts, sargs[j], id))),
                    decreases args@.len() - i,
                {
                    proof { lemma_decreases_arg(*term, i as int); }
                    let ghost before = out@;
                    self.extract_term_node_types(&args[i], out);
                    proof {
                        assert(sargs[i as int] == args@[i as int]@);
                        let target = old(out)@.union(Set::new(|id: usize|
                            op == Some(id) || exists|j: int| #![trigger sargs[j]] 0 <= j < i + 1 && term_hits(ts, sargs[j], id)));
                        assert forall|id: usize| out@.contains(id) <==> target.contains(id) by {
                            if term_hits(ts, sargs[i as int], id) {
                                assert(0 <= i < i + 1 && term_hits(ts, sargs[i as int], id));
                            }
                            if exists|j: int| #![trigger sargs[j]] 0 <= j < i + 1 && term_hits(ts, sargs[j], id) {
                                let j = choose|j: int| #![trigger sargs[j]] 0 <= j < i + 1 && term_hits(ts, sargs[j], id);
                                if j < i {
                                    assert(before.contains(id));
                                }
                            }
                        }
                        assert(out@ =~= target);
                    }
                    i += 1;
                }
                assert(final(out)@ =~= old(out)@.union(term_nodes(ts, term@)));
            },
        }
    }
}

/// The tactic node that a step of the history activates, if any.
pub open spec fn tactic_hit(ts: Seq<SNodeType>, t: STactic) -> Option<usize> {
    match t {
        STactic::RewriteLhs(_) => first_node(ts, SNodeType::TacticPrimitive("RewriteLhs"@)),
        STactic::RewriteRhs(_) => first_node(ts, SNodeType::TacticPrimitive("RewriteRhs"@)),
        STactic::Symmetry => first_node(ts, SNodeType::TacticPrimitive("Symmetry"@)),
        STactic::Reflexivity => first_node(ts, SNodeType::TacticPrimitive("Reflexivity"@)),
        _ => None,
    }
}

/// The nodes a proof state activates directly: those of the two sides of its first goal and
/// those of the tactics in its history.
pub open spec fn direct_seeds(ts: Seq<SNodeType>, s: SProofState) -> Set<usize> {
    Set::new(|id: usize|
        (s.goals.len() > 0 && (term_hits(ts, s.goals[0].eq.lhs, id) || term_hits(ts, s.goals[0].eq.rhs, id)))
        || exists|i: int| 0 <= i < s.history.len() && #[trigger] tactic_hit(ts, s.history[i].0) == Some(id))
}

/// The seeds of the activation: the direct ones, or the variable node when there are none.
pub open spec fn seeds(ts: Seq<SNodeType>, s: SProofState) -> Set<usize> {
    if direct_seeds(ts, s).is_empty() {
        Set::new(|id: usize| first_node(ts, SNodeType::Variable) == Some(id))
    } else {
        direct_seeds(ts, s)
    }
}

/// Whether some edge joins `u` and `w`, in either direction.
pub open spec fn adjacent(edges: Seq<MathGraphEdge>, u: usize, w: usize) -> bool {
    exists|j: int| 0 <= j < edges.len() && #[trigger] edges[j].from == u && edges[j].to == w
        || 0 <= j < edges.len() && edges[j].to == u && edges[j].from == w
}

/// The nodes one edge away from a node of `p`.
pub open spec fn neighbours(edges: Seq<MathGraphEdge>, p: Set<usize>) -> Set<usize> {
    Set::new(|w: usize| exists|u: usize| p.contains(u) && #[trigger] adjacent(edges, u, w))
}

/// The nodes at most `k` edges away from a node of `seeds`.
pub open spec fn within(edges: Seq<MathGraphEdge>, seeds: Set<usize>, k: nat) -> Set<usize>
    decreases k,
{
    if k == 0 {
        seeds
    } else {
        let p = within(edges, seeds, (k - 1) as nat);
        p.union(neighbours(edges, p))
    }
}

impl MasterMathGraph {
    fn tactic_node(&self, t: &Tactic) -> (r: Option<usize>)
        ensures r == tactic_hit(self.types(), t@),
    {
        match t {
            Tactic::RewriteLhs(_) => self.find_node(&NodeType::TacticPrimitive(owned("RewriteLhs"))),
            Tactic::RewriteRhs(_) => self.find_node(&NodeType::TacticPrimitive(owned("RewriteRhs"))),
            Tactic::Symmetry => self.find_node(&NodeType::TacticPrimitive(owned("Symmetry"))),
            Tactic::Reflexivity => self.find_node(&NodeType::TacticPrimitive(owned("Reflexivity"))),
            _ => None,
        }
    }

    /// The nodes at most `k_hops` edges away from the nodes of `start`, found level by level.
    #[verifier::loop_isolation(false)]
    fn expand(&self, start: HashSet<usize>, k_hops: usize) -> (r: HashSet<usize>)
        requires self.wf(), forall|x: usize| start@.contains(x) ==> x < self.nodes@.len(),
        ensures r@ == within(self.edges@, start@, k_hops as nat),
    {
        broadcast use vstd::std_specs::hash::group_hash_axioms;
        let ghost es = self.edges@;
        let ghost sd = start@;
        let n = self.nodes.len();
        let mut visited = start;
        let mut frontier: Vec<usize> = Vec::new();
        let mut v: usize = 0;
        while v < n
            invariant
                v <= n,
                visited@ == sd,
                forall|x: usize| frontier@.contains(x) ==> sd.contains(x) && x < n,
                forall|x: usize| x < v && sd.contains(x) ==> frontier@.contains(x),
            decreases n - v,
        {
            let ghost before = frontier@;
            if visited.contains(&v) {
                frontier.push(v);
                proof {
                    assert(frontier@[before.len() as int] == v);
                    assert forall|x: usize| before.contains(x) implies frontier@.contains(x) by {
                        let k = choose|k: int| 0 <= k < before.len() && before[k] == x;
                        assert(frontier@[k] == x);
                    }
                    assert forall|x: usize| frontier@.contains(x) implies sd.contains(x) && x < n by {
                        let k = choose|k: int| 0 <= k < frontier@.len() && frontier@[k] == x;
                        if k < before.len() {
                            assert(before[k] == x);
                        }
                    }
                }
            }
            v += 1;
        }
        let mut level: usize = 0;
        while level < k_hops && frontier.len() > 0
            invariant
                level <= k_hops,
                visited@ == within(es, sd, level as nat),
                forall|x: usize| visited@.contains(x) ==> x < n,
                forall|x: usize| frontier@.contains(x) ==> visited@.contains(x) && x < n,
                forall|x: usize| visited@.contains(x) && !before_level(es, sd, level as nat).contains(x) ==> frontier@.contains(x),
            decreases k_hops - level,
        {
            let ghost w0 = visited@;
            let ghost fs = frontier@;
            let mut next: Vec<usize> = Vec::new();
            let mut a: usize = 0;
            proof {
                assert forall|k: int| 0 <= k < fs.len() implies #[trigger] fs[k] < n by {
                    assert(fs.contains(fs[k]));
                }
            }
            while a < frontier.len()
                invariant
                    a <= frontier@.len(),
                    forall|k: int| 0 <= k < fs.len() ==> #[trigger] fs[k] < n,
                    fs == frontier@,
                    visited@ == w0.union(reached(es, fs, a as int)),
                    forall|x: usize| visited@.contains(x) ==> x < n,
                    forall|x: usize| next@.contains(x) ==> visited@.contains(x) && !w0.contains(x),
                    forall|x: usize| visited@.contains(x) && !w0.contains(x) ==> next@.contains(x),
                decreases frontier@.len() - a,
            {
                let u = frontier[a];
                let ghost list = self.adjacency@[u as int]@;
                let ghost v0 = visited@;
                assert(list == adj_list(es, u as int));
                let mut b: usize = 0;
                while b < self.adjacency[u].len()
                    invariant
                        b <= list.len(),
                        list == self.adjacency@[u as int]@,
                        visited@ == v0.union(Set::new(|x: usize| exists|b2: int| 0 <= b2 < b && #[trigger] list[b2].0 == x)),
                        forall|x: usize| visited@.contains(x) ==> x < n,
                        forall|x: usize| next@.contains(x) ==> visited@.contains(x) && !w0.contains(x),
                        forall|x: usize| visited@.contains(x) && !w0.contains(x) ==> next@.contains(x),
                    decreases list.len() - b,
                {
                    let x = self.adjacency[u][b].0;
                    proof {
                        lemma_adj_list_iff(es, u, x);
                        assert(is_endpoint(es, list[b as int].0));
                        let j = choose|j: int| 0 <= j < es.len() && (#[trigger] es[j].from == x || es[j].to == x);
                        assert(es[j].from < n && es[j].to < n);
                    }
                    let ghost vb = visited@;
                    let ghost nb = next@;
                    if visited.insert(x) {
                        next.push(x);
                        proof {
                            assert(next@[nb.len() as int] == x);
                            assert forall|y: usize| nb.contains(y) implies next@.contains(y) by {
                                let k = choose|k: int| 0 <= k < nb.len() && nb[k] == y;
                                assert(next@[k] == y);
                            }
                            assert forall|y: usize| next@.contains(y) implies visited@.contains(y) && !w0.contains(y) by {
                                let k = choose|k: int| 0 <= k < next@.len() && next@[k] == y;
                                if k < nb.len() {
                                    assert(nb[k] == y);
                                }
                            }
                        }
                    }
                    proof {
                        let target = v0.union(Set::new(|y: usize| exists|b2: int| 0 <= b2 < b + 1 && #[trigger] list[b2].0 == y));
                        assert forall|y: usize| visited@.contains(y) <==> target.contains(y) by {
                            if y == x {
                                assert(list[b as int].0 == y);
                            }
                            if target.contains(y) && !v0.contains(y) {
                                let b2 = choose|b2: int| 0 <= b2 < b + 1 && #[trigger] list[b2].0 == y;
                                if b2 < b {
                                    assert(exists|b3: int| 0 <= b3 < b && #[trigger] list[b3].0 == y);
                                }
                            }
                        }
                        assert(visited@ =~= target);
                    }
                    b += 1;
                }
                proof {
                    let listed = Set::new(|x: usize| exists|b2: int| 0 <= b2 < list.len() && #[trigger] list[b2].0 == x);
                    assert forall|x: usize| reached(es, fs, a + 1).contains(x) <==> (reached(es, fs, a as int).contains(x)
                        || listed.contains(x)) by {
                        lemma_adj_list_iff(es, u, x);
                        if reached(es, fs, a + 1).contains(x) && !reached(es, fs, a as int).contains(x) {
                            let a2 = choose|a2: int| 0 <= a2 < a + 1 && #[trigger] adjacent(es, fs[a2], x);
                            assert(a2 == a);
                        }
                        if listed.contains(x) {
                            assert(adjacent(es, fs[a as int], x));
                        }
                        if reached(es, fs, a as int).contains(x) {
                            let a2 = choose|a2: int| 0 <= a2 < a && #[trigger] adjacent(es, fs[a2], x);
                            assert(0 <= a2 < a + 1);
                        }
                    }
                    assert(reached(es, fs, a + 1) =~= reached(es, fs, a as int).union(listed));
                    assert(visited@ =~= w0.union(reached(es, fs, a + 1)));
                }
                a += 1;
            }
            proof {
                let f = fs.to_set();
                assert(reached(es, fs, fs.len() as int) =~= neighbours(es, f)) by {
                    assert forall|x: usize| reached(es, fs, fs.len() as int).contains(x) <==> neighbours(es, f).contains(x) by {
                        if neighbours(es, f).contains(x) {
                            let u = choose|u: usize| f.contains(u) && #[trigger] adjacent(es, u, x);
                            let a2 = choose|a2: int| 0 <= a2 < fs.len() && fs[a2] == u;
                            assert(adjacent(es, fs[a2], x));
                        }
                        if reached(es, fs, fs.len() as int).contains(x) {
                            let a2 = choose|a2: int| 0 <= a2 < fs.len() && #[trigger] adjacent(es, fs[a2], x);
                            assert(f.contains(fs[a2]));
                        }
                    }
                }
                assert forall|x: usize| within(es, sd, level as nat).contains(x) && !before_level(es, sd, level as nat).contains(x)
                    implies f.contains(x) by {
                    assert(fs.contains(x));
                }
                lemma_level_step(es, sd, level as nat, f);
            }
            frontier = next;
            level += 1;
        }
        proof {
            if level < k_hops {
                assert forall|x: usize| !within(es, sd, level as nat).contains(x) || before_level(es, sd, level as nat).contains(x) by {
                    if within(es, sd, level as nat).contains(x) && !before_level(es, sd, level as nat).contains(x) {
                        assert(frontier@.contains(x));
                    }
                }
                if level == 0 {
                    assert(sd =~= Set::<usize>::empty());
                    lemma_within_empty(es, k_hops as nat);
                    lemma_within_empty(es, 0);
                } else {
                    let l1 = (level - 1) as nat;
                    assert(within(es, sd, level as nat) =~= within(es, sd, l1));
                    lemma_within_stable(es, sd, l1, k_hops as nat);
                }
            }
        }
        visited
    }

    /// The nodes within `k_hops` edges of those that a proof state activates: the nodes of the
    /// sides of its first goal and of the tactics in its history, or the variable node when
    /// there are none.
    pub fn active_subgraph_nodes(&self, state: &ProofState, k_hops: usize) -> (r: HashSet<usize>)
        requires self.wf(),
        ensures r@ == within(self.edges@, seeds(self.types(), state@), k_hops as nat),
    {
        broadcast use vstd::std_specs::hash::group_hash_axioms;
        let ghost ts = self.types();
        let ghost s = state@;
        let mut active: HashSet<usize> = HashSet::new();
        if state.open_goals.len() > 0 {
            self.extract_term_node_types(&state.open_goals[0].equality.lhs, &mut active);
            self.extract_term_node_types(&state.open_goals[0].equality.rhs, &mut active);
        }
        let ghost goal_part = active@;
        let mut i: usize = 0;
        while i < state.proof_history.len()
            invariant
                i <= state.proof_history@.len(),
                ts == self.types(),
                s == state@,
                active@ == goal_part.union(Set::new(|id: usize|
                    exists|j: int| 0 <= j < i && #[trigger] tactic_hit(ts, s.history[j].0) == Some(id))),
            decreases state.proof_history@.len() - i,
        {
            let hit = self.tactic_node(&state.proof_history[i].0);
            let ghost before = active@;
            if let Some(id) = hit {
                active.insert(id);
            }
            proof {
                assert(s.history[i as int].0 == state.proof_history@[i as int].0@);
                assert(active@ =~= goal_part.union(Set::new(|id: usize|
                    exists|j: int| 0 <= j < i + 1 && #[trigger] tactic_hit(ts, s.history[j].0) == Some(id)))) by {
                    assert forall|id: usize| #![auto] (exists|j: int| 0 <= j < i + 1 && #[trigger] tactic_hit(ts, s.history[j].0) == Some(id))
                        <==> ((exists|j: int| 0 <= j < i && #[trigger] tactic_hit(ts, s.history[j].0) == Some(id)) || hit == Some(id)) by {
                        if hit == Some(id) {
                            assert(tactic_hit(ts, s.history[i as int].0) == Some(id));
                        }
                    }
                }
            }
            i += 1;
        }
        proof {
            assert(active@ =~= direct_seeds(ts, s)) by {
                if s.goals.len() > 0 {
                    assert(s.goals[0].eq.lhs == state.open_goals@[0].equality.lhs@);
                }
            }
        }
        if active.is_empty() {
            if let Some(id) = self.find_node(&NodeType::Variable) {
                active.insert(id);
            }
        }
        proof {
            assert(active@ =~= seeds(ts, s));
            assert(ts.len() == self.nodes.len());
            lemma_first_node_bound(ts, SNodeType::Variable);
            assert forall|x: usize| active@.contains(x) implies x < self.nodes@.len() by {
                if direct_seeds(ts, s).contains(x) {
                    if s.goals.len() > 0 && term_hits(ts, s.goals[0].eq.lhs, x) {
                        lemma_term_hits_bound(ts, s.goals[0].eq.lhs, x);
                    } else if s.goals.len() > 0 && term_hits(ts, s.goals[0].eq.rhs, x) {
                        lemma_term_hits_bound(ts, s.goals[0].eq.rhs, x);
                    } else {
                        let j = choose|j: int| 0 <= j < s.history.len() && #[trigger] tactic_hit(ts, s.history[j].0) == Some(x);
                        lemma_first_node_bound(ts, SNodeType::TacticPrimitive("RewriteLhs"@));
                        lemma_first_node_bound(ts, SNodeType::TacticPrimitive("RewriteRhs"@));
                        lemma_first_node_bound(ts, SNodeType::TacticPrimitive("Symmetry"@));
                        lemma_first_node_bound(ts, SNodeType::TacticPrimitive("Reflexivity"@));
                    }
                }
            }
        }
        self.expand(active, k_hops)
    }
}

proof fn lemma_adj_list_absent(edges: Seq<MathGraphEdge>, v: int)
    requires forall|j: int| 0 <= j < edges.len() ==> #[trigger] edges[j].from != v && edges[j].to != v,
    ensures adj_list(edges, v) == Seq::<(usize, EdgeType)>::empty(),
    decreases edges.len(),
{
    if edges.len() > 0 {
        assert(edges[edges.len() - 1].from != v);
        lemma_adj_list_absent(edges.drop_last(), v);
    }
}

proof fn lemma_first_node_bound(ts: Seq<SNodeType>, t: SNodeType)
    requires ts.len() <= usize::MAX,
    ensures first_node(ts, t) matches Some(i) ==> i < ts.len() && ts[i as int] == t,
    decreases ts.len(),
{
    if ts.len() > 0 {
        lemma_first_node_bound(ts.drop_last(), t);
        if let Some(i) = first_node(ts.drop_last(), t) {
            assert(ts.drop_last()[i as int] == ts[i as int]);
        }
    }
}

proof fn lemma_term_hits_bound(ts: Seq<SNodeType>, t: STerm, id: usize)
    requires term_hits(ts, t, id), ts.len() <= usize::MAX,
    ensures id < ts.len(),
    decreases t,
{
    lemma_first_node_bound(ts, SNodeType::Variable);
    match t {
        STerm::Const(c) => {
            lemma_first_node_bound(ts, SNodeType::Constant(c));
            lemma_first_node_bound(ts, SNodeType::Constant("0"@));
        },
        STerm::Func(n, args) => {
            lemma_first_node_bound(ts, SNodeType::Operator(n));
            if first_node(ts, SNodeType::Operator(n)) != Some(id) {
                let i = choose|i: int| #![trigger args[i]] 0 <= i < args.len() && term_hits(ts, args[i], id);
                lemma_term_hits_bound(ts, args[i], id);
            }
        },
        _ => {},
    }
}

/// The nodes reached from the first `a` nodes of `f`.
pub open spec fn reached(edges: Seq<MathGraphEdge>, f: Seq<usize>, a: int) -> Set<usize> {
    Set::new(|w: usize| exists|a2: int| 0 <= a2 < a && #[trigger] adjacent(edges, f[a2], w))
}

/// What the search had before level `l`: nothing before the seeds.
pub open spec fn before_level(edges: Seq<MathGraphEdge>, sd: Set<usize>, l: nat) -> Set<usize> {
    if l == 0 { Set::empty() } else { within(edges, sd, (l - 1) as nat) }
}

proof fn lemma_within_empty(edges: Seq<MathGraphEdge>, m: nat)
    ensures within(edges, Set::empty(), m) == Set::<usize>::empty(),
    decreases m,
{
    if m > 0 {
        lemma_within_empty(edges, (m - 1) as nat);
        assert(neighbours(edges, Set::<usize>::empty()) =~= Set::<usize>::empty());
        assert(within(edges, Set::empty(), m) =~= Set::<usize>::empty());
    }
}

proof fn lemma_within_stable(edges: Seq<MathGraphEdge>, sd: Set<usize>, l: nat, m: nat)
    requires l <= m, within(edges, sd, l + 1) == within(edges, sd, l),
    ensures within(edges, sd, m) == within(edges, sd, l),
    decreases m - l,
{
    if m > l {
        lemma_within_stable(edges, sd, l, (m - 1) as nat);
    }
}

/// One level of the search: from the whole of level `l` or only from its new nodes, the nodes
/// reached are the same.
proof fn lemma_level_step(edges: Seq<MathGraphEdge>, sd: Set<usize>, l: nat, f: Set<usize>)
    requires
        f.subset_of(within(edges, sd, l)),
        forall|x: usize| within(edges, sd, l).contains(x) && !before_level(edges, sd, l).contains(x) ==> f.contains(x),
    ensures within(edges, sd, l + 1) == within(edges, sd, l).union(neighbours(edges, f)),
{
    let w = within(edges, sd, l);
    assert forall|x: usize| within(edges, sd, l + 1).contains(x) <==> w.union(neighbours(edges, f)).contains(x) by {
        if neighbours(edges, w).contains(x) && !w.contains(x) {
            let u = choose|u: usize| w.contains(u) && #[trigger] adjacent(edges, u, x);
            if !f.contains(u) {
                assert(l > 0);
                let p = within(edges, sd, (l - 1) as nat);
                assert(p.contains(u));
                assert(neighbours(edges, p).contains(x));
            }
        }
        if neighbours(edges, f).contains(x) {
            let u = choose|u: usize| f.contains(u) && #[trigger] adjacent(edges, u, x);
            assert(w.contains(u));
        }
    }
    assert(within(edges, sd, l + 1) =~= w.union(neighbours(edges, f)));
}

/// Whether `x` is an end of some edge.
pub open spec fn is_endpoint(edges: Seq<MathGraphEdge>, x: usize) -> bool {
    exists|j: int| 0 <= j < edges.len() && (#[trigger] edges[j].from == x || edges[j].to == x)
}

/// The neighbours listed for `u` are exactly the nodes an edge joins to it, and all are ends of edges.
proof fn lemma_adj_list_iff(edges: Seq<MathGraphEdge>, u: usize, w: usize)
    ensures
        (exists|b: int| 0 <= b < adj_list(edges, u as int).len() && #[trigger] adj_list(edges, u as int)[b].0 == w)
            <==> adjacent(edges, u, w),
        forall|b: int| 0 <= b < adj_list(edges, u as int).len() ==>
            is_endpoint(edges, (#[trigger] adj_list(edges, u as int)[b]).0),
    decreases edges.len(),
{
    lemma_adj_list_adjacent(edges, u, w);
    lemma_adj_list_endpoints(edges, u);
}

proof fn lemma_adj_list_endpoints(edges: Seq<MathGraphEdge>, u: usize)
    ensures
        forall|b: int| 0 <= b < adj_list(edges, u as int).len() ==>
            is_endpoint(edges, (#[trigger] adj_list(edges, u as int)[b]).0),
    decreases edges.len(),
{
    if edges.len() > 0 {
        let d = edges.drop_last();
        lemma_adj_list_endpoints(d, u);
        let prev = adj_list(d, u as int);
        let e = edges.last();
        let l = adj_list(edges, u as int);
        assert forall|b: int| 0 <= b < prev.len() implies #[trigger] l[b] == prev[b] by {}
        assert forall|b: int| 0 <= b < l.len() implies is_endpoint(edges, (#[trigger] l[b]).0) by {
            if b < prev.len() {
                assert(is_endpoint(d, prev[b].0));
                let j = choose|j: int| 0 <= j < d.len() && (#[trigger] d[j].from == prev[b].0 || d[j].to == prev[b].0);
                assert(d[j] == edges[j]);
            } else {
                assert(edges[edges.len() - 1] == e);
            }
        }
    }
}

proof fn lemma_adj_list_adjacent(edges: Seq<MathGraphEdge>, u: usize, w: usize)
    ensures
        (exists|b: int| 0 <= b < adj_list(edges, u as int).len() && #[trigger] adj_list(edges, u as int)[b].0 == w)
            <==> adjacent(edges, u, w),
    decreases edges.len(),
{
    if edges.len() > 0 {
        let d = edges.drop_last();
        lemma_adj_list_adjacent(d, u, w);
        let prev = adj_list(d, u as int);
        let e = edges.last();
        let l = adj_list(edges, u as int);
        assert forall|b: int| 0 <= b < prev.len() implies #[trigger] l[b] == prev[b] by {}
        assert(forall|j: int| 0 <= j < d.len() ==> #[trigger] d[j] == edges[j]);
        if adjacent(edges, u, w) {
            let j = choose|j: int| 0 <= j < edges.len() && #[trigger] edges[j].from == u && edges[j].to == w
                || 0 <= j < edges.len() && edges[j].to == u && edges[j].from == w;
            if j < d.len() {
                assert(d[j] == edges[j]);
                assert(adjacent(d, u, w));
                let b = choose|b: int| 0 <= b < prev.len() && #[trigger] prev[b].0 == w;
                assert(l[b].0 == w);
            } else {
                assert(edges[j] == e);
                if e.from == u && e.to == w {
                    assert(l[prev.len() as int].0 == w);
                } else {
                    if e.from == u {
                        assert(l[prev.len() + 1int].0 == w);
                    } else {
                        assert(l[prev.len() as int].0 == w);
                    }
                }
            }
        }
        if exists|b: int| 0 <= b < l.len() && #[trigger] l[b].0 == w {
            let b = choose|b: int| 0 <= b < l.len() && #[trigger] l[b].0 == w;
            if b < prev.len() {
                assert(prev[b].0 == w);
                let j = choose|j: int| 0 <= j < d.len() && #[trigger] d[j].from == u && d[j].to == w
                    || 0 <= j < d.len() && d[j].to == u && d[j].from == w;
                assert(d[j] == edges[j]);
            } else {
                assert(edges[edges.len() - 1] == e);
            }
        }
    }
}

/// A first match inside a prefix is the first match overall.
proof fn lemma_first_node_prefix(ts: Seq<SNodeType>, t: SNodeType, k: int)
    requires 0 <= k <= ts.len(), first_node(ts.take(k), t) is Some,
    ensures first_node(ts, t) == first_node(ts.take(k), t),
    decreases ts.len() - k,
{
    if k < ts.len() {
        assert(ts.take(k + 1).drop_last() =~= ts.take(k));
        lemma_first_node_prefix(ts, t, k + 1);
    } else {
        assert(ts.take(k) =~= ts);
    }
}

} // verus!
