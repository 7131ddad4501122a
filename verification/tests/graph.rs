use jfu::graph::{topo_sort, Graph, Node};
use jfu::tree::{tree_lines, TreeLine};

fn node(name: &str, deps: &[&str]) -> Node {
    Node {
        name: name.to_string(),
        path: format!("src/{}", name),
        deps: deps.iter().map(|d| d.to_string()).collect(),
        implicit_deps: Vec::new(),
    }
}

fn graph(nodes: &[(&str, &[&str])]) -> Graph {
    let mut g = Graph::new();
    for (name, deps) in nodes {
        g.insert(name.to_string(), node(name, deps));
    }
    g
}

fn position(order: &[String], name: &str) -> usize {
    order.iter().position(|n| n == name).unwrap()
}

#[test]
fn graph_keeps_keys_once() {
    let mut g = graph(&[("A.java", &["B.java"]), ("B.java", &[])]);
    assert_eq!(g.len(), 2);
    g.insert("A.java".to_string(), node("A.java", &[]));
    assert_eq!(g.len(), 2);
    assert_eq!(g.names, vec!["A.java", "B.java"]);
    assert!(g.contains_key("B.java"));
    assert!(!g.contains_key("C.java"));
    assert_eq!(g.get("A.java").unwrap().deps.len(), 0);
    assert!(g.get("C.java").is_none());
}

#[test]
fn node_duplicate_is_equal() {
    let n = Node {
        name: "A.java".to_string(),
        path: "x/A.java".to_string(),
        deps: vec!["B.java".to_string()],
        implicit_deps: vec!["C".to_string()],
    };
    let d = n.duplicate();
    assert_eq!(d.name, n.name);
    assert_eq!(d.path, n.path);
    assert_eq!(d.deps, n.deps);
    assert_eq!(d.implicit_deps, n.implicit_deps);
}

#[test]
fn empty_graph_has_empty_order() {
    assert_eq!(topo_sort(&Graph::new()), Ok(Vec::new()));
}

#[test]
fn single_node_is_ordered_alone() {
    let g = graph(&[("Main.java", &[])]);
    assert_eq!(topo_sort(&g), Ok(vec!["Main.java".to_string()]));
}

#[test]
fn dependencies_come_first() {
    let g = graph(&[
        ("A.java", &["B.java", "C.java"]),
        ("B.java", &["D.java"]),
        ("C.java", &["D.java"]),
        ("D.java", &[]),
    ]);
    let order = topo_sort(&g).unwrap();
    assert_eq!(order, vec!["D.java", "B.java", "C.java", "A.java"]);
    for (n, d) in [("A.java", "B.java"), ("A.java", "C.java"), ("B.java", "D.java"), ("C.java", "D.java")] {
        assert!(position(&order, d) < position(&order, n));
    }
}

#[test]
fn order_does_not_depend_on_insertion() {
    let g = graph(&[("D.java", &[]), ("C.java", &["D.java"]), ("A.java", &["C.java"])]);
    let order = topo_sort(&g).unwrap();
    assert_eq!(order.len(), 3);
    assert!(position(&order, "D.java") < position(&order, "C.java"));
    assert!(position(&order, "C.java") < position(&order, "A.java"));
}

#[test]
fn dangling_dependencies_have_no_place_in_the_order() {
    let g = graph(&[("Main.java", &["Missing.java"])]);
    assert_eq!(topo_sort(&g), Ok(vec!["Main.java".to_string()]));
    let g = graph(&[("A.java", &["Gone.java", "B.java"]), ("B.java", &["Gone.java"])]);
    assert_eq!(topo_sort(&g), Ok(vec!["B.java".to_string(), "A.java".to_string()]));
}

#[test]
fn two_node_cycle_is_reported() {
    let g = graph(&[("A.java", &["B.java"]), ("B.java", &["A.java"])]);
    assert_eq!(
        topo_sort(&g),
        Err("Circular dependency detected involving: A.java".to_string())
    );
}

#[test]
fn self_dependency_is_a_cycle() {
    let g = graph(&[("A.java", &["A.java"])]);
    assert_eq!(
        topo_sort(&g),
        Err("Circular dependency detected involving: A.java".to_string())
    );
}

#[test]
fn cycle_below_the_entry_is_reported() {
    let g = graph(&[
        ("Main.java", &["A.java"]),
        ("A.java", &["B.java"]),
        ("B.java", &["C.java"]),
        ("C.java", &["A.java"]),
    ]);
    assert_eq!(
        topo_sort(&g),
        Err("Circular dependency detected involving: A.java".to_string())
    );
}

#[test]
fn shared_dependency_is_no_cycle() {
    let g = graph(&[("A.java", &["B.java", "B.java"]), ("B.java", &[])]);
    assert_eq!(topo_sort(&g), Ok(vec!["B.java".to_string(), "A.java".to_string()]));
}

fn dependency(depth: usize, name: &str) -> TreeLine {
    TreeLine::Dependency { depth, name: name.to_string() }
}

#[test]
fn tree_shows_every_node_once() {
    let g = graph(&[
        ("A.java", &["B.java", "C.java"]),
        ("B.java", &["C.java", "Missing.java"]),
        ("C.java", &[]),
    ]);
    let want = vec![
        TreeLine::Root { name: "A.java".to_string() },
        dependency(1, "B.java"),
        dependency(2, "C.java"),
        TreeLine::Repeated { depth: 1, name: "C.java".to_string() },
    ];
    assert_eq!(tree_lines(&g, "A.java"), want);
}

#[test]
fn tree_of_a_cycle_ends() {
    let g = graph(&[("A.java", &["B.java"]), ("B.java", &["A.java"])]);
    let want = vec![
        TreeLine::Root { name: "A.java".to_string() },
        dependency(1, "B.java"),
        TreeLine::Repeated { depth: 2, name: "A.java".to_string() },
    ];
    assert_eq!(tree_lines(&g, "A.java"), want);
}

#[test]
fn tree_of_an_unknown_root_is_empty() {
    let g = graph(&[("A.java", &[])]);
    assert_eq!(tree_lines(&g, "src/A.java"), Vec::new());
    assert_eq!(tree_lines(&Graph::new(), "A.java"), Vec::new());
}

#[test]
fn tree_shows_implicit_dependencies_that_are_not_declared() {
    let mut g = Graph::new();
    g.insert(
        "Main.java".to_string(),
        Node {
            name: "Main.java".to_string(),
            path: "Main.java".to_string(),
            deps: vec!["Util.java".to_string()],
            implicit_deps: vec!["Util".to_string(), "Helper".to_string(), "Gone".to_string()],
        },
    );
    g.insert("Util.java".to_string(), node("Util.java", &[]));
    g.insert("Helper.java".to_string(), node("Helper.java", &["Util.java"]));
    let want = vec![
        TreeLine::Root { name: "Main.java".to_string() },
        dependency(1, "Util.java"),
        TreeLine::Implicit { depth: 1, file: "Helper.java".to_string() },
        dependency(2, "Helper.java"),
        TreeLine::Repeated { depth: 3, name: "Util.java".to_string() },
        TreeLine::Implicit { depth: 1, file: "Gone.java".to_string() },
    ];
    assert_eq!(tree_lines(&g, "Main.java"), want);
}
