use sa::visualize::DependencyVisualizer;

fn deps() -> Vec<(String, Vec<String>)> {
    vec![
        ("app".to_string(), vec!["requests".to_string(), "numpy".to_string()]),
        ("requests".to_string(), vec!["urllib3".to_string(), "certifi".to_string()]),
    ]
}

fn names(g: &petgraph::Graph<String, ()>) -> Vec<String> {
    g.node_indices().map(|i| g[i].clone()).collect()
}

fn edges(g: &petgraph::Graph<String, ()>) -> Vec<(usize, usize)> {
    g.raw_edges().iter().map(|e| (e.source().index(), e.target().index())).collect()
}

#[test]
fn direct_dependencies_only() {
    let g = DependencyVisualizer::create_dependency_graph("app", &deps(), false);
    assert_eq!(names(&g), vec!["app", "requests", "numpy"]);
    assert_eq!(edges(&g), vec![(0, 1), (0, 2)]);
}

#[test]
fn transitive_dependencies() {
    let g = DependencyVisualizer::create_dependency_graph("app", &deps(), true);
    assert_eq!(names(&g), vec!["app", "requests", "urllib3", "certifi", "numpy"]);
    assert_eq!(edges(&g), vec![(0, 1), (1, 2), (1, 3), (0, 4)]);
}

#[test]
fn unknown_package_is_a_lone_node() {
    let g = DependencyVisualizer::create_dependency_graph("solo", &deps(), true);
    assert_eq!(names(&g), vec!["solo"]);
    assert!(edges(&g).is_empty());
}

#[test]
fn cycles_are_followed_once() {
    let d = vec![
        ("a".to_string(), vec!["b".to_string()]),
        ("b".to_string(), vec!["a".to_string()]),
    ];
    let g = DependencyVisualizer::create_dependency_graph("a", &d, true);
    assert_eq!(names(&g), vec!["a", "b"]);
    assert_eq!(edges(&g), vec![(0, 1), (1, 0)]);
}

#[test]
fn dot_export_lists_nodes_and_edges() {
    let g = DependencyVisualizer::create_dependency_graph("app", &deps(), false);
    let dot = DependencyVisualizer::export_dot(&g);
    assert!(dot.starts_with("digraph {"));
    assert!(dot.contains("label = \"\\\"requests\\\"\""));
    assert!(dot.contains("0 -> 1"));
    assert!(dot.contains("0 -> 2"));
    assert!(!dot.contains("label = \"()\""));
}
