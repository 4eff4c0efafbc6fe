use axiomatic::fol::{Equality, Term};
use axiomatic::graph::{EdgeType, MasterMathGraph, NodeType};
use axiomatic::kernel::{ProofState, Tactic};

#[test]
fn test_master_graph_universe_creation() -> Result<(), Box<dyn std::error::Error>> {
    let g = MasterMathGraph::default_universe();
    assert!(g.nodes.len() >= 18);
    assert!(g.edges.len() >= 20);

    let dist_id = g
        .find_node(&NodeType::AxiomProperty("Distributivity".into()))
        .ok_or("Distributivity node not found")?;
    let mul_id = g
        .find_node(&NodeType::Operator("*".into()))
        .ok_or("Mul node not found")?;
    let and_id = g
        .find_node(&NodeType::Operator("&".into()))
        .ok_or("And node not found")?;

    let mul_neighbors: Vec<usize> = g.adjacency[mul_id].iter().map(|(id, _)| *id).collect();
    let and_neighbors: Vec<usize> = g.adjacency[and_id].iter().map(|(id, _)| *id).collect();

    assert!(mul_neighbors.contains(&dist_id));
    assert!(and_neighbors.contains(&dist_id));
    Ok(())
}

#[test]
fn test_sparse_subgraph_activation_calculus() -> Result<(), Box<dyn std::error::Error>> {
    let g = MasterMathGraph::default_universe();
    let u = Term::var("u");
    let v = Term::var("v");
    let lhs = Term::func("D", vec![Term::func("*", vec![u.clone(), v.clone()])]);
    let rhs = Term::func(
        "+",
        vec![
            Term::func("*", vec![Term::func("D", vec![u]), v.clone()]),
            Term::func("*", vec![Term::var("u"), Term::func("D", vec![v])]),
        ],
    );
    let state = ProofState::new(Equality::new(lhs, rhs));

    let active = g.active_subgraph_nodes(&state, 1);

    let diff_id = g
        .find_node(&NodeType::Operator("D".into()))
        .ok_or("Diff node not found")?;
    let mul_id = g
        .find_node(&NodeType::Operator("*".into()))
        .ok_or("Mul node not found")?;
    let add_id = g
        .find_node(&NodeType::Operator("+".into()))
        .ok_or("Add node not found")?;
    let not_id = g
        .find_node(&NodeType::Operator("!".into()))
        .ok_or("Not node not found")?;

    assert!(active.contains(&diff_id));
    assert!(active.contains(&mul_id));
    assert!(active.contains(&add_id));
    assert!(!active.contains(&not_id));
    Ok(())
}

#[test]
fn test_universe_counts_and_numbering() {
    let g = MasterMathGraph::default_universe();
    assert_eq!(g.nodes.len(), 28);
    assert_eq!(g.edges.len(), 43);
    assert_eq!(g.adjacency.len(), 28);
    for (i, n) in g.nodes.iter().enumerate() {
        assert_eq!(n.id, i);
    }
    assert_eq!(g.nodes[0].name, "Commutativity");
    assert_eq!(g.nodes[0].domain_tags, vec!["universal", "algebra", "boolean", "sets"]);
    let total: usize = g.adjacency.iter().map(|l| l.len()).sum();
    assert_eq!(total, 2 * 43);
}

#[test]
fn test_find_node_missing_and_first() {
    let mut g = MasterMathGraph::new();
    assert_eq!(g.find_node(&NodeType::Variable), None);
    let a = g.add_node(NodeType::Variable, "first", &[]);
    let b = g.add_node(NodeType::Variable, "second", &["x"]);
    assert_eq!((a, b), (0, 1));
    assert_eq!(g.find_node(&NodeType::Variable), Some(0));
    assert_eq!(g.find_node(&NodeType::Constant("0".into())), None);
}

#[test]
fn test_add_edge_lists_both_ends() {
    let mut g = MasterMathGraph::new();
    let a = g.add_node(NodeType::Operator("+".into()), "plus", &[]);
    let b = g.add_node(NodeType::Constant("0".into()), "zero", &[]);
    g.add_edge(a, b, EdgeType::IdentityPair);
    assert_eq!(g.adjacency[a], vec![(b, EdgeType::IdentityPair)]);
    assert_eq!(g.adjacency[b], vec![(a, EdgeType::IdentityPair)]);
    assert_eq!(g.edges.len(), 1);
}

#[test]
fn test_activation_hops() {
    let g = MasterMathGraph::default_universe();
    let eq = Equality::new(Term::func("!", vec![Term::constant("p")]), Term::constant("p"));
    let state = ProofState::new(eq);
    let not_id = g.find_node(&NodeType::Operator("!".into())).unwrap();
    let zero_id = g.find_node(&NodeType::Constant("0".into())).unwrap();
    let demorgan = g.find_node(&NodeType::AxiomProperty("DeMorgan".into())).unwrap();
    let seeds = g.active_subgraph_nodes(&state, 0);
    assert_eq!(seeds.len(), 2);
    assert!(seeds.contains(&not_id) && seeds.contains(&zero_id));
    let one_hop = g.active_subgraph_nodes(&state, 1);
    assert!(one_hop.contains(&demorgan));
    for id in seeds.iter() {
        assert!(one_hop.contains(id));
    }
    let two_hops = g.active_subgraph_nodes(&state, 2);
    for id in one_hop.iter() {
        assert!(two_hops.contains(id));
    }
}

#[test]
fn test_activation_defaults_to_variable_node() {
    let g = MasterMathGraph::default_universe();
    let mut state = ProofState::new(Equality::new(Term::var("x"), Term::var("x")));
    state.open_goals.clear();
    let var_id = g.find_node(&NodeType::Variable).unwrap();
    let active = g.active_subgraph_nodes(&state, 0);
    assert_eq!(active.len(), 1);
    assert!(active.contains(&var_id));
    state.proof_history.push((Tactic::Symmetry, "Applied symm".to_string()));
    let symm_id = g.find_node(&NodeType::TacticPrimitive("Symmetry".into())).unwrap();
    let active = g.active_subgraph_nodes(&state, 0);
    assert_eq!(active.len(), 1);
    assert!(active.contains(&symm_id));
}
