use rust_semverx::error::ErrorKind;
use rust_semverx::pathfinder::GraphResolver;
use rust_semverx::types::{Component, ComponentNode};
use rust_semverx::version::SemverX;

fn component(name: &str) -> ComponentNode {
    Component::new(name.to_string(), SemverX::parse("1.0.0").unwrap()).into_node()
}

#[test]
fn test_graph_resolver() {
    let mut resolver = GraphResolver::new();

    let comp_a = component("a");
    let comp_b = component("b");

    resolver.add_component(comp_a).unwrap();
    resolver.add_component(comp_b).unwrap();
    resolver.add_dependency("a", "b", 1_000);

    let path = resolver.resolve_path("a", "b");
    assert!(path.is_ok());
}

#[test]
fn shortest_paths_count_edges() {
    let mut resolver = GraphResolver::new();
    for name in ["a", "b", "c", "d", "e", "lonely"] {
        resolver.add_component(component(name)).unwrap();
    }
    // a -> b -> c -> d -> e, with a shortcut a -> d that weighs a lot
    resolver.add_dependency("a", "b", 1);
    resolver.add_dependency("b", "c", 1);
    resolver.add_dependency("c", "d", 1);
    resolver.add_dependency("d", "e", 1);
    resolver.add_dependency("a", "d", 9_000);
    resolver.add_dependency("e", "a", 1);
    resolver.add_dependency("a", "ghost", 1);
    assert_eq!(resolver.graph.edge_count(), 6);
    assert_eq!(resolver.resolve_path("a", "e").unwrap(), vec!["a", "d", "e"]);
    assert_eq!(resolver.resolve_path("a", "c").unwrap(), vec!["a", "b", "c"]);
    assert_eq!(resolver.resolve_path("c", "b").unwrap(), vec!["c", "d", "e", "a", "b"]);
    assert_eq!(resolver.resolve_path("d", "d").unwrap(), vec!["d"]);
    let e = resolver.resolve_path("a", "lonely").unwrap_err();
    assert_eq!(e.kind(), ErrorKind::Resolving);
    assert_eq!(e.message(), "No path found from a to lonely");
    assert_eq!(e.context, vec!["DependencyGraph::resolve_path".to_string()]);
    assert_eq!(e.stress_level, 6_000);
    assert!(e.can_recover);
    let e = resolver.resolve_path("ghost", "a").unwrap_err();
    assert_eq!(e.message(), "Component not found: ghost");
    assert_eq!(e.stress_level, 3_000);
    assert!(!e.can_recover);
    let e = resolver.resolve_path("a", "nowhere").unwrap_err();
    assert_eq!(e.message(), "Component not found: nowhere");
    assert!(resolver.add_component(component("a")).is_err());
}
