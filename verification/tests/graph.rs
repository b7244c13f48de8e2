use haskell_compiler::graph::{strongly_connected_components, Graph};
use haskell_compiler::inference::build_graph;
use haskell_compiler::module::{Binding, Type, TypeDeclaration, TypedExpr};
use haskell_compiler::typecheck::{apply, identifier, lambda, let_, number};

fn graph(n: usize, edges: &[(usize, usize)]) -> Graph<usize> {
    let mut g = Graph::new();
    for i in 0..n {
        assert_eq!(g.new_vertex(i), i);
    }
    for (from, to) in edges {
        g.connect(*from, *to);
    }
    g
}

/// The index of the component that holds the vertex.
fn component_of(groups: &Vec<Vec<usize>>, v: usize) -> usize {
    let found: Vec<usize> =
        (0..groups.len()).filter(|i| groups[*i].contains(&v)).collect();
    assert_eq!(found.len(), 1, "the vertex {} is in exactly one component", v);
    found[0]
}

fn binding(name: &str, expression: TypedExpr) -> Binding {
    Binding {
        name: name.to_string(),
        expression,
        typeDecl: TypeDeclaration { context: vec![], typ: Type::new_var(-1), name: String::new() },
        arity: 0,
    }
}

fn id(name: &str) -> TypedExpr {
    identifier(name.to_string())
}

#[test]
fn a_graph_without_edges_has_one_component_for_each_vertex() {
    let groups = strongly_connected_components(&graph(3, &[]));
    assert_eq!(groups, vec![vec![0], vec![1], vec![2]]);
    let none: Vec<Vec<usize>> = vec![];
    assert_eq!(strongly_connected_components(&graph(0, &[])), none);
}

#[test]
fn a_cycle_is_one_component() {
    let groups = strongly_connected_components(&graph(3, &[(0, 1), (1, 2), (2, 0)]));
    assert_eq!(groups, vec![vec![0, 1, 2]]);
    // A vertex with an edge to itself is a component by itself.
    assert_eq!(strongly_connected_components(&graph(1, &[(0, 0)])), vec![vec![0]]);
}

#[test]
fn components_come_after_what_they_lead_to() {
    // 0 -> 1 -> 2 -> 1, 3 -> 0, 4 alone
    let edges = [(0, 1), (1, 2), (2, 1), (3, 0)];
    let groups = strongly_connected_components(&graph(5, &edges));
    assert_eq!(groups, vec![vec![1, 2], vec![0], vec![3], vec![4]]);
    for (from, to) in edges {
        assert!(component_of(&groups, to) <= component_of(&groups, from));
    }
}

#[test]
fn reachability() {
    let g = graph(4, &[(0, 1), (1, 2), (3, 3)]);
    assert_eq!(g.reachable_from(0), vec![true, true, true, false]);
    assert_eq!(g.reachable_from(2), vec![false, false, true, false]);
    assert_eq!(g.reachable_from(3), vec![false, false, false, true]);
    assert_eq!(g.get_vertex(1).edges, vec![2]);
    assert_eq!(g.get_vertex(1).value, 1);
}

#[test]
fn edges_to_vertices_that_are_none_are_ignored() {
    let mut g = graph(2, &[(0, 7), (0, 1)]);
    g.connect(9, 0);
    assert_eq!(g.vertices.len(), 2);
    assert_eq!(strongly_connected_components(&g), vec![vec![1], vec![0]]);
}

#[test]
fn the_graph_of_bindings_finds_a_recursion_cycle() {
    // a = 1; test = test2 a; test2 = \x -> test; b = let c = a in test
    let bindings = vec![
        binding("a", number(1)),
        binding("test", apply(id("test2"), id("a"))),
        binding("test2", lambda("x".to_string(), id("test"))),
        binding("b", let_(vec![binding("c", id("a"))], id("test"))),
    ];
    let graph = build_graph(&bindings).unwrap();
    assert_eq!(graph.vertices.len(), 4);
    for i in 0..4 {
        assert_eq!(graph.get_vertex(i).value, i);
    }
    assert_eq!(graph.get_vertex(0).edges, Vec::<usize>::new());
    assert_eq!(graph.get_vertex(1).edges, vec![2, 0]);
    assert_eq!(graph.get_vertex(2).edges, vec![1]);
    assert_eq!(graph.get_vertex(3).edges, vec![1, 0]);
    let groups = strongly_connected_components(&graph);
    assert_eq!(groups, vec![vec![0], vec![1, 2], vec![3]]);
}

#[test]
fn a_repeated_name_stands_for_its_last_binding() {
    let bindings =
        vec![binding("f", id("g")), binding("g", number(1)), binding("f", id("f"))];
    let graph = build_graph(&bindings).unwrap();
    // The edges of both bindings named f start at the last one.
    assert_eq!(graph.get_vertex(0).edges, Vec::<usize>::new());
    assert_eq!(graph.get_vertex(2).edges, vec![1, 2]);
}
