//! The standard universe of the master graph.
use vstd::prelude::*;
use crate::strings::owned;
use crate::graph::{MasterMathGraph, MathGraphEdge, EdgeType, NodeType, SNodeType, SGraphNode, node_views, tags_of};

verus! {

/// The nodes of the standard universe, in the order they are added.
pub open spec fn universe_nodes() -> Seq<SGraphNode> {
    seq![
        SGraphNode { id: 0, node_type: SNodeType::AxiomProperty("Commutativity"@), name: "Commutativity"@, domain_tags: tags_of(seq!["universal", "algebra", "boolean", "sets"]) },
        SGraphNode { id: 1, node_type: SNodeType::AxiomProperty("Associativity"@), name: "Associativity"@, domain_tags: tags_of(seq!["universal", "algebra", "boolean", "sets"]) },
        SGraphNode { id: 2, node_type: SNodeType::AxiomProperty("Distributivity"@), name: "Distributivity"@, domain_tags: tags_of(seq!["universal", "algebra", "boolean", "sets"]) },
        SGraphNode { id: 3, node_type: SNodeType::AxiomProperty("Identity"@), name: "Identity"@, domain_tags: tags_of(seq!["universal", "algebra", "boolean", "sets"]) },
        SGraphNode { id: 4, node_type: SNodeType::AxiomProperty("Annihilation"@), name: "Annihilation"@, domain_tags: tags_of(seq!["universal", "algebra", "boolean", "sets"]) },
        SGraphNode { id: 5, node_type: SNodeType::AxiomProperty("Inversion"@), name: "Inversion"@, domain_tags: tags_of(seq!["universal", "algebra", "boolean", "sets"]) },
        SGraphNode { id: 6, node_type: SNodeType::AxiomProperty("DeMorgan"@), name: "DeMorgan"@, domain_tags: tags_of(seq!["universal", "boolean", "sets"]) },
        SGraphNode { id: 7, node_type: SNodeType::AxiomProperty("Linearity"@), name: "Linearity"@, domain_tags: tags_of(seq!["universal", "calculus"]) },
        SGraphNode { id: 8, node_type: SNodeType::Constant("0"@), name: "0 / Empty / False"@, domain_tags: tags_of(seq!["algebra", "calculus", "sets", "peano"]) },
        SGraphNode { id: 9, node_type: SNodeType::Constant("1"@), name: "1 / Universe / True"@, domain_tags: tags_of(seq!["algebra", "calculus", "boolean"]) },
        SGraphNode { id: 10, node_type: SNodeType::Constant("U"@), name: "Universal Set"@, domain_tags: tags_of(seq!["sets"]) },
        SGraphNode { id: 11, node_type: SNodeType::Variable, name: "Variable"@, domain_tags: tags_of(seq!["universal"]) },
        SGraphNode { id: 12, node_type: SNodeType::Operator("+"@), name: "Addition (+)"@, domain_tags: tags_of(seq!["algebra", "calculus"]) },
        SGraphNode { id: 13, node_type: SNodeType::Operator("*"@), name: "Multiplication (*)"@, domain_tags: tags_of(seq!["algebra", "calculus"]) },
        SGraphNode { id: 14, node_type: SNodeType::Operator("-"@), name: "Additive Negation (-)"@, domain_tags: tags_of(seq!["algebra"]) },
        SGraphNode { id: 15, node_type: SNodeType::Operator("&"@), name: "Conjunction (&)"@, domain_tags: tags_of(seq!["boolean"]) },
        SGraphNode { id: 16, node_type: SNodeType::Operator("|"@), name: "Disjunction (|)"@, domain_tags: tags_of(seq!["boolean"]) },
        SGraphNode { id: 17, node_type: SNodeType::Operator("!"@), name: "Negation (!)"@, domain_tags: tags_of(seq!["boolean"]) },
        SGraphNode { id: 18, node_type: SNodeType::Operator("inter"@), name: "Intersection"@, domain_tags: tags_of(seq!["sets"]) },
        SGraphNode { id: 19, node_type: SNodeType::Operator("union"@), name: "Union"@, domain_tags: tags_of(seq!["sets"]) },
        SGraphNode { id: 20, node_type: SNodeType::Operator("comp"@), name: "Complement"@, domain_tags: tags_of(seq!["sets"]) },
        SGraphNode { id: 21, node_type: SNodeType::Operator("D"@), name: "Derivative (D)"@, domain_tags: tags_of(seq!["calculus"]) },
        SGraphNode { id: 22, node_type: SNodeType::Operator("S"@), name: "Successor (S)"@, domain_tags: tags_of(seq!["peano"]) },
        SGraphNode { id: 23, node_type: SNodeType::TacticPrimitive("RewriteLhs"@), name: "Rewrite LHS"@, domain_tags: tags_of(seq!["universal"]) },
        SGraphNode { id: 24, node_type: SNodeType::TacticPrimitive("RewriteRhs"@), name: "Rewrite RHS"@, domain_tags: tags_of(seq!["universal"]) },
        SGraphNode { id: 25, node_type: SNodeType::TacticPrimitive("Symmetry"@), name: "Symmetry"@, domain_tags: tags_of(seq!["universal"]) },
        SGraphNode { id: 26, node_type: SNodeType::TacticPrimitive("Reflexivity"@), name: "Reflexivity"@, domain_tags: tags_of(seq!["universal"]) },
        SGraphNode { id: 27, node_type: SNodeType::TacticPrimitive("Induction"@), name: "Peano Induction"@, domain_tags: tags_of(seq!["peano"]) },
    ]
}

/// The edges of the standard universe, in the order they are added.
pub open spec fn universe_edges() -> Seq<MathGraphEdge> {
    seq![
        MathGraphEdge { from: 12, to: 0, edge_type: EdgeType::Isomorphism },
        MathGraphEdge { from: 12, to: 1, edge_type: EdgeType::Isomorphism },
        MathGraphEdge { from: 12, to: 3, edge_type: EdgeType::IdentityPair },
        MathGraphEdge { from: 12, to: 8, edge_type: EdgeType::IdentityPair },
        MathGraphEdge { from: 12, to: 14, edge_type: EdgeType::Dual },
        MathGraphEdge { from: 14, to: 5, edge_type: EdgeType::Isomorphism },
        MathGraphEdge { from: 13, to: 0, edge_type: EdgeType::Isomorphism },
        MathGraphEdge { from: 13, to: 1, edge_type: EdgeType::Isomorphism },
        MathGraphEdge { from: 13, to: 3, edge_type: EdgeType::IdentityPair },
        MathGraphEdge { from: 13, to: 9, edge_type: EdgeType::IdentityPair },
        MathGraphEdge { from: 13, to: 4, edge_type: EdgeType::Isomorphism },
        MathGraphEdge { from: 13, to: 8, edge_type: EdgeType::SubOperation },
        MathGraphEdge { from: 13, to: 2, edge_type: EdgeType::Isomorphism },
        MathGraphEdge { from: 12, to: 2, edge_type: EdgeType::SubOperation },
        MathGraphEdge { from: 15, to: 2, edge_type: EdgeType::Isomorphism },
        MathGraphEdge { from: 16, to: 2, edge_type: EdgeType::SubOperation },
        MathGraphEdge { from: 18, to: 2, edge_type: EdgeType::Isomorphism },
        MathGraphEdge { from: 19, to: 2, edge_type: EdgeType::SubOperation },
        MathGraphEdge { from: 15, to: 0, edge_type: EdgeType::Isomorphism },
        MathGraphEdge { from: 15, to: 1, edge_type: EdgeType::Isomorphism },
        MathGraphEdge { from: 16, to: 0, edge_type: EdgeType::Isomorphism },
        MathGraphEdge { from: 16, to: 1, edge_type: EdgeType::Isomorphism },
        MathGraphEdge { from: 15, to: 16, edge_type: EdgeType::Dual },
        MathGraphEdge { from: 17, to: 6, edge_type: EdgeType::Isomorphism },
        MathGraphEdge { from: 15, to: 6, edge_type: EdgeType::SubOperation },
        MathGraphEdge { from: 16, to: 6, edge_type: EdgeType::SubOperation },
        MathGraphEdge { from: 18, to: 0, edge_type: EdgeType::Isomorphism },
        MathGraphEdge { from: 19, to: 0, edge_type: EdgeType::Isomorphism },
        MathGraphEdge { from: 18, to: 19, edge_type: EdgeType::Dual },
        MathGraphEdge { from: 20, to: 6, edge_type: EdgeType::Isomorphism },
        MathGraphEdge { from: 18, to: 8, edge_type: EdgeType::IdentityPair },
        MathGraphEdge { from: 19, to: 10, edge_type: EdgeType::IdentityPair },
        MathGraphEdge { from: 21, to: 7, edge_type: EdgeType::Isomorphism },
        MathGraphEdge { from: 21, to: 12, edge_type: EdgeType::SubOperation },
        MathGraphEdge { from: 21, to: 13, edge_type: EdgeType::SubOperation },
        MathGraphEdge { from: 21, to: 8, edge_type: EdgeType::SubOperation },
        MathGraphEdge { from: 21, to: 9, edge_type: EdgeType::SubOperation },
        MathGraphEdge { from: 22, to: 8, edge_type: EdgeType::SubOperation },
        MathGraphEdge { from: 22, to: 27, edge_type: EdgeType::AppliesTactic },
        MathGraphEdge { from: 23, to: 11, edge_type: EdgeType::AppliesTactic },
        MathGraphEdge { from: 24, to: 11, edge_type: EdgeType::AppliesTactic },
        MathGraphEdge { from: 25, to: 11, edge_type: EdgeType::AppliesTactic },
        MathGraphEdge { from: 26, to: 11, edge_type: EdgeType::AppliesTactic },
    ]
}

impl MasterMathGraph {
    /// The standard universe: the shared property hubs, the constants, the operators of
    /// algebra, logic, sets, calculus and arithmetic, the tactics, and the edges between them.
    #[verifier::rlimit(50)]
    pub fn default_universe() -> (g: MasterMathGraph)
        ensures
            g.wf(),
            node_views(g.nodes@) == universe_nodes(),
            g.edges@ == universe_edges(),
    {
        let mut g = MasterMathGraph::new();
        proof { assert(node_views(g.nodes@) =~= Seq::<SGraphNode>::empty()); }
        let tags: &[&str] = &["universal", "algebra", "boolean", "sets"];
        proof { assert(tags@ == seq!["universal", "algebra", "boolean", "sets"]); }
        let prop_comm = g.add_node(NodeType::AxiomProperty(owned("Commutativity")), "Commutativity", tags);
        let tags: &[&str] = &["universal", "algebra", "boolean", "sets"];
        proof { assert(tags@ == seq!["universal", "algebra", "boolean", "sets"]); }
        let prop_assoc = g.add_node(NodeType::AxiomProperty(owned("Associativity")), "Associativity", tags);
        let tags: &[&str] = &["universal", "algebra", "boolean", "sets"];
        proof { assert(tags@ == seq!["universal", "algebra", "boolean", "sets"]); }
        let prop_dist = g.add_node(NodeType::AxiomProperty(owned("Distributivity")), "Distributivity", tags);
        let tags: &[&str] = &["universal", "algebra", "boolean", "sets"];
        proof { assert(tags@ == seq!["universal", "algebra", "boolean", "sets"]); }
        let prop_ident = g.add_node(NodeType::AxiomProperty(owned("Identity")), "Identity", tags);
        let tags: &[&str] = &["universal", "algebra", "boolean", "sets"];
        proof { assert(tags@ == seq!["universal", "algebra", "boolean", "sets"]); }
        let prop_absorb = g.add_node(NodeType::AxiomProperty(owned("Annihilation")), "Annihilation", tags);
        let tags: &[&str] = &["universal", "algebra", "boolean", "sets"];
        proof { assert(tags@ == seq!["universal", "algebra", "boolean", "sets"]); }
        let prop_inv = g.add_node(NodeType::AxiomProperty(owned("Inversion")), "Inversion", tags);
        let tags: &[&str] = &["universal", "boolean", "sets"];
        proof { assert(tags@ == seq!["universal", "boolean", "sets"]); }
        let prop_demorgan = g.add_node(NodeType::AxiomProperty(owned("DeMorgan")), "DeMorgan", tags);
        let tags: &[&str] = &["universal", "calculus"];
        proof { assert(tags@ == seq!["universal", "calculus"]); }
        let prop_linear = g.add_node(NodeType::AxiomProperty(owned("Linearity")), "Linearity", tags);
        let tags: &[&str] = &["algebra", "calculus", "sets", "peano"];
        proof { assert(tags@ == seq!["algebra", "calculus", "sets", "peano"]); }
        let c_zero = g.add_node(NodeType::Constant(owned("0")), "0 / Empty / False", tags);
        let tags: &[&str] = &["algebra", "calculus", "boolean"];
        proof { assert(tags@ == seq!["algebra", "calculus", "boolean"]); }
        let c_one = g.add_node(NodeType::Constant(owned("1")), "1 / Universe / True", tags);
        let tags: &[&str] = &["sets"];
        proof { assert(tags@ == seq!["sets"]); }
        let c_univ = g.add_node(NodeType::Constant(owned("U")), "Universal Set", tags);
        let tags: &[&str] = &["universal"];
        proof { assert(tags@ == seq!["universal"]); }
        let var_node = g.add_node(NodeType::Variable, "Variable", tags);
        let tags: &[&str] = &["algebra", "calculus"];
        proof { assert(tags@ == seq!["algebra", "calculus"]); }
        let op_add = g.add_node(NodeType::Operator(owned("+")), "Addition (+)", tags);
        let tags: &[&str] = &["algebra", "calculus"];
        proof { assert(tags@ == seq!["algebra", "calculus"]); }
        let op_mul = g.add_node(NodeType::Operator(owned("*")), "Multiplication (*)", tags);
        let tags: &[&str] = &["algebra"];
        proof { assert(tags@ == seq!["algebra"]); }
        let op_neg = g.add_node(NodeType::Operator(owned("-")), "Additive Negation (-)", tags);
        let tags: &[&str] = &["boolean"];
        proof { assert(tags@ == seq!["boolean"]); }
        let op_and = g.add_node(NodeType::Operator(owned("&")), "Conjunction (&)", tags);
        let tags: &[&str] = &["boolean"];
        proof { assert(tags@ == seq!["boolean"]); }
        let op_or = g.add_node(NodeType::Operator(owned("|")), "Disjunction (|)", tags);
        let tags: &[&str] = &["boolean"];
        proof { assert(tags@ == seq!["boolean"]); }
        let op_not = g.add_node(NodeType::Operator(owned("!")), "Negation (!)", tags);
        let tags: &[&str] = &["sets"];
        proof { assert(tags@ == seq!["sets"]); }
        let op_inter = g.add_node(NodeType::Operator(owned("inter")), "Intersection", tags);
        let tags: &[&str] = &["sets"];
        proof { assert(tags@ == seq!["sets"]); }
        let op_union = g.add_node(NodeType::Operator(owned("union")), "Union", tags);
        let tags: &[&str] = &["sets"];
        proof { assert(tags@ == seq!["sets"]); }
        let op_comp = g.add_node(NodeType::Operator(owned("comp")), "Complement", tags);
        let tags: &[&str] = &["calculus"];
        proof { assert(tags@ == seq!["calculus"]); }
        let op_diff = g.add_node(NodeType::Operator(owned("D")), "Derivative (D)", tags);
        let tags: &[&str] = &["peano"];
        proof { assert(tags@ == seq!["peano"]); }
        let op_succ = g.add_node(NodeType::Operator(owned("S")), "Successor (S)", tags);
        let tags: &[&str] = &["universal"];
        proof { assert(tags@ == seq!["universal"]); }
        let tac_rw_lhs = g.add_node(NodeType::TacticPrimitive(owned("RewriteLhs")), "Rewrite LHS", tags);
        let tags: &[&str] = &["universal"];
        proof { assert(tags@ == seq!["universal"]); }
        let tac_rw_rhs = g.add_node(NodeType::TacticPrimitive(owned("RewriteRhs")), "Rewrite RHS", tags);
        let tags: &[&str] = &["universal"];
        proof { assert(tags@ == seq!["universal"]); }
        let tac_symm = g.add_node(NodeType::TacticPrimitive(owned("Symmetry")), "Symmetry", tags);
        let tags: &[&str] = &["universal"];
        proof { assert(tags@ == seq!["universal"]); }
        let tac_rfl = g.add_node(NodeType::TacticPrimitive(owned("Reflexivity")), "Reflexivity", tags);
        let tags: &[&str] = &["peano"];
        proof { assert(tags@ == seq!["peano"]); }
        let tac_ind = g.add_node(NodeType::TacticPrimitive(owned("Induction")), "Peano Induction", tags);

        g.add_edge(op_add, prop_comm, EdgeType::Isomorphism);
        g.add_edge(op_add, prop_assoc, EdgeType::Isomorphism);
        g.add_edge(op_add, prop_ident, EdgeType::IdentityPair);
        g.add_edge(op_add, c_zero, EdgeType::IdentityPair);
        g.add_edge(op_add, op_neg, EdgeType::Dual);
        g.add_edge(op_neg, prop_inv, EdgeType::Isomorphism);
        g.add_edge(op_mul, prop_comm, EdgeType::Isomorphism);
        g.add_edge(op_mul, prop_assoc, EdgeType::Isomorphism);
        g.add_edge(op_mul, prop_ident, EdgeType::IdentityPair);
        g.add_edge(op_mul, c_one, EdgeType::IdentityPair);
        g.add_edge(op_mul, prop_absorb, EdgeType::Isomorphism);
        g.add_edge(op_mul, c_zero, EdgeType::SubOperation);
        g.add_edge(op_mul, prop_dist, EdgeType::Isomorphism);
        g.add_edge(op_add, prop_dist, EdgeType::SubOperation);
        g.add_edge(op_and, prop_dist, EdgeType::Isomorphism);
        g.add_edge(op_or, prop_dist, EdgeType::SubOperation);
        g.add_edge(op_inter, prop_dist, EdgeType::Isomorphism);
        g.add_edge(op_union, prop_dist, EdgeType::SubOperation);
        g.add_edge(op_and, prop_comm, EdgeType::Isomorphism);
        g.add_edge(op_and, prop_assoc, EdgeType::Isomorphism);
        g.add_edge(op_or, prop_comm, EdgeType::Isomorphism);
        g.add_edge(op_or, prop_assoc, EdgeType::Isomorphism);
        g.add_edge(op_and, op_or, EdgeType::Dual);
        g.add_edge(op_not, prop_demorgan, EdgeType::Isomorphism);
        g.add_edge(op_and, prop_demorgan, EdgeType::SubOperation);
        g.add_edge(op_or, prop_demorgan, EdgeType::SubOperation);
        g.add_edge(op_inter, prop_comm, EdgeType::Isomorphism);
        g.add_edge(op_union, prop_comm, EdgeType::Isomorphism);
        g.add_edge(op_inter, op_union, EdgeType::Dual);
        g.add_edge(op_comp, prop_demorgan, EdgeType::Isomorphism);
        g.add_edge(op_inter, c_zero, EdgeType::IdentityPair);
        g.add_edge(op_union, c_univ, EdgeType::IdentityPair);
        g.add_edge(op_diff, prop_linear, EdgeType::Isomorphism);
        g.add_edge(op_diff, op_add, EdgeType::SubOperation);
        g.add_edge(op_diff, op_mul, EdgeType::SubOperation);
        g.add_edge(op_diff, c_zero, EdgeType::SubOperation);
        g.add_edge(op_diff, c_one, EdgeType::SubOperation);
        g.add_edge(op_succ, c_zero, EdgeType::SubOperation);
        g.add_edge(op_succ, tac_ind, EdgeType::AppliesTactic);
        g.add_edge(tac_rw_lhs, var_node, EdgeType::AppliesTactic);
        g.add_edge(tac_rw_rhs, var_node, EdgeType::AppliesTactic);
        g.add_edge(tac_symm, var_node, EdgeType::AppliesTactic);
        g.add_edge(tac_rfl, var_node, EdgeType::AppliesTactic);
        g
    }
}

} // verus!
