use rust_semverx::astar::{pop_lowest, AStarNode};
use rust_semverx::error::{BubblingError, ErrorKind, ResolutionError};
use rust_semverx::graph::DependencyGraph;
use rust_semverx::resolver::{ResolutionResult, ResolutionStrategy, SemverXResolver};
use rust_semverx::types::{Component, ComponentNode, Dependency, DependencyEdge};
use rust_semverx::version::{Classifier, SemverX};

fn node(id: &str, version: &str) -> ComponentNode {
    Component::new(id.to_string(), SemverX::parse(version).unwrap()).into_node()
}

fn chain() -> SemverXResolver {
    let mut resolver = SemverXResolver::new();
    let a = resolver.add_component(node("A", "1.0.0")).unwrap();
    let b = resolver.add_component(node("B", "1.1.0")).unwrap();
    let c = resolver.add_component(node("C", "1.2.0")).unwrap();
    resolver.add_dependency(a, b, ">=1.0.0".to_string(), 1_000).unwrap();
    resolver.add_dependency(b, c, ">=1.0.0 <2.0.0".to_string(), 2_500).unwrap();
    resolver
}

fn expect_ok(r: Result<ResolutionResult, BubblingError>) -> ResolutionResult {
    match r {
        Ok(result) => result,
        Err(e) => panic!("resolution failed: {:?}", e),
    }
}

fn expect_err(r: Result<ResolutionResult, BubblingError>) -> BubblingError {
    match r {
        Ok(_) => panic!("resolution succeeded"),
        Err(e) => e,
    }
}

fn path(result: &ResolutionResult) -> Vec<&str> {
    result.resolution_path.iter().map(|s| s.as_str()).collect()
}

#[test]
fn test_strategy_selection() {
    let resolver = SemverXResolver::new();
    let strategy = resolver.determine_strategy_from_stress();
    assert_eq!(strategy, ResolutionStrategy::Hamiltonian);
}

#[test]
fn stress_picks_the_strategy() {
    let mut resolver = SemverXResolver::new();
    assert_eq!(resolver.max_iterations, 1000);
    assert_eq!(resolver.strategy, ResolutionStrategy::Hybrid);
    resolver.add_stress_sample(2_999);
    assert_eq!(resolver.determine_strategy_from_stress(), ResolutionStrategy::Hamiltonian);
    resolver.add_stress_sample(3_001);
    assert_eq!(resolver.determine_strategy_from_stress(), ResolutionStrategy::AStar);
    resolver.add_stress_sample(12_000);
    assert_eq!(resolver.determine_strategy_from_stress(), ResolutionStrategy::Eulerian);
    resolver.add_stress_sample(18_000);
    assert_eq!(resolver.determine_strategy_from_stress(), ResolutionStrategy::Hybrid);
}

#[test]
fn calm_resolver_covers_the_nodes_of_a_chain() {
    let resolver = chain();
    let result = expect_ok(resolver.resolve("A", None));
    assert_eq!(result.strategy_used, ResolutionStrategy::Hamiltonian);
    assert_eq!(path(&result), vec!["A", "B", "C"]);
    assert!(result.iterations <= 3);
    assert_eq!(result.iterations, 3);
    assert_eq!(result.stress_impact, 150);
    assert_eq!(result.resolved_versions.len(), 3);
    assert_eq!(result.resolved_versions.get("A").unwrap().to_string(), "1.0.0");
    assert_eq!(result.resolved_versions.get("B").unwrap().to_string(), "1.1.0");
    assert_eq!(result.resolved_versions.get("C").unwrap().to_string(), "1.2.0");
}

#[test]
fn stressed_resolver_covers_the_edges_of_a_chain() {
    let mut resolver = chain();
    resolver.add_stress_sample(7_000);
    let result = expect_ok(resolver.resolve("A", None));
    assert_eq!(result.strategy_used, ResolutionStrategy::Eulerian);
    assert_eq!(path(&result), vec!["A", "B", "C"]);
    assert!(result.stress_impact > 0);
    assert_eq!(result.stress_impact, 200);
    assert_eq!(result.iterations, 5);
    assert_eq!(result.resolved_versions.len(), 3);
    assert!(result.resolved_versions.contains_key("A"));
    assert!(result.resolved_versions.contains_key("B"));
    assert!(result.resolved_versions.contains_key("C"));
}

#[test]
fn two_cycle_loses_its_heavier_edge() {
    let mut resolver = SemverXResolver::new();
    let a = resolver.add_component(node("A", "1.0.0")).unwrap();
    let b = resolver.add_component(node("B", "1.0.0")).unwrap();
    resolver.add_dependency(a, b, ">=1.0.0".to_string(), 2_000).unwrap();
    resolver.add_dependency(b, a, ">=1.0.0".to_string(), 7_000).unwrap();
    assert!(resolver.prevent_diamond_dependency().is_ok());
    assert_eq!(resolver.graph.edge_count(), 1);
    let left = resolver.graph.edge(0).unwrap();
    assert_eq!((left.source, left.target), (a, b));
    assert_eq!(left.weight.weight, 2_000);
    assert_eq!(resolver.graph.node(a).unwrap().version.classifier, Some(Classifier::Stable));
    assert_eq!(resolver.graph.node(b).unwrap().version.classifier, None);
    for component in resolver.graph.strongly_connected_components() {
        assert_eq!(component.len(), 1);
    }
}

#[test]
fn every_cycle_is_broken() {
    let mut resolver = SemverXResolver::new();
    let ids = ["n0", "n1", "n2", "n3", "n4"];
    for id in ids {
        resolver.add_component(node(id, "1.0.0")).unwrap();
    }
    let edges = [(0, 1, 5), (1, 2, 9), (2, 0, 3), (1, 0, 4), (2, 3, 8), (3, 4, 1), (4, 3, 1), (3, 3, 6)];
    for (from, to, weight) in edges {
        resolver.add_dependency(from, to, "1.0.0".to_string(), weight).unwrap();
    }
    assert!(resolver.prevent_diamond_dependency().is_ok());
    let components = resolver.graph.strongly_connected_components();
    assert_eq!(components.len(), 5);
    for component in components {
        assert_eq!(component.len(), 1);
    }
    assert_eq!(resolver.graph.node_count(), 5);
    assert!(resolver.graph.edge_count() < edges.len());
    // a graph without cycles is left alone
    let mut calm = chain();
    assert!(calm.prevent_diamond_dependency().is_ok());
    assert_eq!(calm.graph.edge_count(), 2);
    assert_eq!(calm.graph.node(1).unwrap().version.classifier, None);
    // taking an edge out moves the last edge into its place
    let mut three = chain();
    three.add_dependency(0, 2, "x".to_string(), 0).unwrap();
    assert!(three.break_cycle_with_version_pinning(&vec![0, 1]).is_ok());
    assert_eq!(three.graph.edge_count(), 2);
    let moved = three.graph.edge(0).unwrap();
    assert_eq!((moved.source, moved.target), (0, 2));
    assert_eq!(moved.weight.constraint, "x");
    assert_eq!(three.graph.node(1).unwrap().version.classifier, Some(Classifier::Stable));
}

#[test]
fn missing_components_are_not_recoverable() {
    let resolver = chain();
    for (strategy, stress, origin) in [
        (ResolutionStrategy::Eulerian, 3_000, "DependencyGraph::get_by_name"),
        (ResolutionStrategy::Hamiltonian, 4_000, "resolve_hamiltonian"),
        (ResolutionStrategy::AStar, 4_000, "resolve_a_star"),
        (ResolutionStrategy::Hybrid, 4_000, "resolve_hamiltonian"),
    ] {
        let e = expect_err(resolver.resolve("Z", Some(strategy)));
        assert_eq!(e.kind(), ErrorKind::Resolving);
        assert_eq!(e.message(), "Component not found: Z");
        assert_eq!(e.stress_level, stress);
        assert_eq!(e.context, vec![origin.to_string()]);
        assert!(!e.can_recover);
    }
    let e = resolver.graph.get_by_name("Z").unwrap_err();
    assert_eq!(e.stress_level, 3_000);
    assert_eq!(resolver.graph.get_by_name("B").unwrap(), 1);
    assert!(resolver.graph.contains("C"));
    assert!(!resolver.graph.contains("c"));
}

#[test]
fn best_first_stops_at_a_complete_root() {
    let resolver = chain();
    let result = expect_ok(resolver.resolve("B", Some(ResolutionStrategy::AStar)));
    assert_eq!(result.strategy_used, ResolutionStrategy::AStar);
    assert_eq!(path(&result), vec!["B"]);
    assert_eq!(result.iterations, 1);
    assert_eq!(result.stress_impact, 0);
    assert_eq!(result.resolved_versions.len(), 1);
}

fn with_missing_dependency(optional: bool, dev: bool) -> SemverXResolver {
    let mut resolver = SemverXResolver::new();
    let mut root = Component::new("root".to_string(), SemverX::new(1, 0, 0));
    let mut dep = Dependency::new("ghost".to_string(), SemverX::new(1, 0, 0), "1.0.0".to_string());
    if optional {
        dep = dep.optional();
    }
    if dev {
        dep = dep.dev();
    }
    root.add_dependency(dep);
    root.add_dependency(Dependency::new("leaf".to_string(), SemverX::new(1, 0, 0), "1.0.0".to_string()));
    let r = resolver.add_component(root.into_node()).unwrap();
    let l = resolver.add_component(node("leaf", "1.0.0")).unwrap();
    resolver.add_dependency(r, l, "1.0.0".to_string(), 4_000).unwrap();
    resolver
}

#[test]
fn best_first_fails_where_a_required_dependency_is_missing() {
    let resolver = with_missing_dependency(false, false);
    let e = expect_err(resolver.resolve("root", Some(ResolutionStrategy::AStar)));
    assert_eq!(e.kind(), ErrorKind::Resolving);
    assert_eq!(e.message(), "A* resolution failed to find path");
    assert_eq!(e.stress_level, 6_000);
    assert_eq!(e.context, vec!["resolve_a_star".to_string()]);
    assert!(e.can_recover);
    assert!(!resolver.is_node_complete(0));
    assert!(resolver.is_node_complete(1));
    assert!(resolver.is_node_complete(99));
    assert!(!resolver.is_resolution_complete(&vec![true, true]));
    assert!(resolver.is_resolution_complete(&vec![false, true]));
    assert!(resolver.is_resolution_complete(&vec![]));
    for (optional, dev) in [(true, false), (false, true), (true, true)] {
        let lenient = with_missing_dependency(optional, dev);
        let result = expect_ok(lenient.resolve("root", Some(ResolutionStrategy::AStar)));
        assert_eq!(path(&result), vec!["root"]);
    }
}

#[test]
fn heuristic_adds_half_a_point_for_each_dependency() {
    let mut resolver = SemverXResolver::new();
    let mut root = Component::new("root".to_string(), SemverX::new(1, 0, 0));
    root.add_dependency(Dependency::new("x".to_string(), SemverX::new(1, 0, 0), "1.0.0".to_string()));
    root.add_dependency(Dependency::new("y".to_string(), SemverX::new(1, 0, 0), "1.0.0".to_string()));
    root.add_dependency(Dependency::new("z".to_string(), SemverX::new(1, 0, 0), "1.0.0".to_string()));
    root.health.update(2_250);
    resolver.add_component(root.into_node()).unwrap();
    assert_eq!(resolver.heuristic_cost(0), 3_750);
    assert_eq!(resolver.heuristic_cost(1), 100_000);
}

#[test]
fn lowest_total_cost_leaves_first() {
    let mut open = vec![
        AStarNode::new(0, 5, 5),
        AStarNode::new(1, 2, 3),
        AStarNode::new(2, 4, 1),
        AStarNode::new(3, u64::MAX, 9),
    ];
    assert_eq!(open[3].total_cost(), u64::MAX);
    assert_eq!(pop_lowest(&mut open).index, 1);
    assert_eq!(pop_lowest(&mut open).index, 2);
    assert_eq!(pop_lowest(&mut open).index, 0);
    assert_eq!(pop_lowest(&mut open).index, 3);
    assert!(open.is_empty());
    let resolver = SemverXResolver::new();
    assert_eq!(resolver.reconstruct_path(&vec![None, Some(0), Some(1), Some(1)], 3), vec![0, 1, 3]);
    assert_eq!(resolver.reconstruct_path(&vec![Some(1), Some(0)], 0), vec![0, 1, 0]);
    assert_eq!(resolver.reconstruct_path(&vec![None], 7), vec![7]);
}

#[test]
fn node_covering_backtracks_and_falls_back() {
    // A -> B, A -> C -> B: the edge that was added last is tried first
    let mut resolver = SemverXResolver::new();
    let a = resolver.add_component(node("A", "1.0.0")).unwrap();
    let b = resolver.add_component(node("B", "1.0.0")).unwrap();
    let c = resolver.add_component(node("C", "1.0.0")).unwrap();
    resolver.add_dependency(a, b, "1.0.0".to_string(), 1).unwrap();
    resolver.add_dependency(a, c, "1.0.0".to_string(), 1).unwrap();
    resolver.add_dependency(c, b, "1.0.0".to_string(), 1).unwrap();
    let result = expect_ok(resolver.resolve("A", Some(ResolutionStrategy::Hamiltonian)));
    assert_eq!(result.strategy_used, ResolutionStrategy::Hamiltonian);
    assert_eq!(path(&result), vec!["A", "C", "B"]);
    assert_eq!(result.iterations, 3);
    assert_eq!(result.stress_impact, 150);
    // from B nothing else is reached: best first takes over
    let result = expect_ok(resolver.resolve("B", Some(ResolutionStrategy::Hamiltonian)));
    assert_eq!(result.strategy_used, ResolutionStrategy::AStar);
    assert_eq!(path(&result), vec!["B"]);
    // a cap of three is just enough; with a cap of two the search is stopped,
    // and that is an error although the root alone would do for best first
    let exact = resolver.with_max_iterations(3);
    let result = expect_ok(exact.resolve("A", Some(ResolutionStrategy::Hamiltonian)));
    assert_eq!(result.strategy_used, ResolutionStrategy::Hamiltonian);
    assert_eq!(result.iterations, 3);
    for cap in [2, 1, 0] {
        let capped = SemverXResolver { max_iterations: cap, ..chain() };
        let e = expect_err(capped.resolve("A", Some(ResolutionStrategy::Hamiltonian)));
        assert_eq!(e.kind(), ErrorKind::Resolving);
        assert_eq!(e.message(), "Hamiltonian resolution exceeded the iteration cap");
        assert_eq!(e.context, vec!["resolve_hamiltonian".to_string()]);
        assert_eq!(e.stress_level, 6_000);
        assert!(e.can_recover);
    }
    // the adaptive strategy recovers from the stopped search with best first
    let capped = SemverXResolver { max_iterations: 1, ..chain() };
    let result = expect_ok(capped.resolve("A", Some(ResolutionStrategy::Hybrid)));
    assert_eq!(result.strategy_used, ResolutionStrategy::AStar);
    assert_eq!(path(&result), vec!["A"]);
    assert_eq!(result.iterations, 1);
}

#[test]
fn edge_covering_checks_every_edge() {
    let mut resolver = SemverXResolver::new();
    let a = resolver.add_component(node("A", "1.0.0")).unwrap();
    let b = resolver.add_component(node("B", "3.4.5")).unwrap();
    resolver.add_dependency(a, b, "<2.0.0".to_string(), 1_000).unwrap();
    let e = expect_err(resolver.resolve("A", Some(ResolutionStrategy::Eulerian)));
    assert_eq!(e.kind(), ErrorKind::Resolving);
    assert_eq!(e.message(), "Version 3 does not satisfy constraint <2.0.0");
    assert_eq!(e.stress_level, 5_000);
    assert_eq!(e.context, vec!["validate_edge_compatibility".to_string()]);
    assert!(e.can_recover);

    let mut broken = SemverXResolver::new();
    let a = broken.add_component(node("A", "1.0.0")).unwrap();
    let b = broken.add_component(node("B", "1.0.0")).unwrap();
    broken.add_dependency(a, b, "latest".to_string(), 1_000).unwrap();
    let e = expect_err(broken.resolve("A", Some(ResolutionStrategy::Eulerian)));
    assert_eq!(e.kind(), ErrorKind::Parsing);
    assert_eq!(e.stress_level, 3_000);
    assert!(!e.can_recover);
    let edge = broken.graph.edge(0).unwrap();
    assert!(broken.validate_edge_compatibility(a, &edge).is_err());
    assert_eq!(
        broken.validate_edge_compatibility(9, &edge).unwrap_err().message(),
        "Source node not found"
    );
}

#[test]
fn edge_covering_walks_a_diamond_and_honours_the_cap() {
    let mut resolver = SemverXResolver::new();
    let a = resolver.add_component(node("A", "1.0.0")).unwrap();
    let b = resolver.add_component(node("B", "1.0.0")).unwrap();
    let c = resolver.add_component(node("C", "1.0.0")).unwrap();
    let d = resolver.add_component(node("D", "1.0.0")).unwrap();
    resolver.add_dependency(a, b, "1.0.0".to_string(), 1).unwrap();
    resolver.add_dependency(a, c, "1.0.0".to_string(), 1).unwrap();
    resolver.add_dependency(b, d, "1.0.0".to_string(), 1).unwrap();
    resolver.add_dependency(c, d, "1.0.0".to_string(), 1).unwrap();
    let result = expect_ok(resolver.resolve("A", Some(ResolutionStrategy::Eulerian)));
    assert_eq!(path(&result), vec!["A", "B", "D", "C", "D"]);
    assert_eq!(result.stress_impact, 400);
    assert_eq!(result.iterations, 9);
    assert_eq!(result.resolved_versions.len(), 4);
    let exact = resolver.with_max_iterations(9);
    assert!(exact.resolve("A", Some(ResolutionStrategy::Eulerian)).is_ok());
    let capped = exact.with_max_iterations(8);
    let e = expect_err(capped.resolve("A", Some(ResolutionStrategy::Eulerian)));
    assert_eq!(e.kind(), ErrorKind::Resolving);
    assert_eq!(e.message(), "Eulerian resolution exceeded the iteration cap");
    assert_eq!(e.stress_level, 6_000);
    assert_eq!(e.context, vec!["resolve_eulerian".to_string()]);
    assert!(e.can_recover);
}

#[test]
fn adaptive_resolution_takes_the_first_success() {
    // node covering fails (C is not reached from B), best first fails (ghost is
    // missing), edge covering succeeds
    let mut resolver = SemverXResolver::new();
    let mut root = Component::new("B".to_string(), SemverX::new(1, 0, 0));
    root.add_dependency(Dependency::new("ghost".to_string(), SemverX::new(1, 0, 0), "1.0.0".to_string()));
    let b = resolver.add_component(root.into_node()).unwrap();
    let a = resolver.add_component(node("A", "1.0.0")).unwrap();
    resolver.add_component(node("C", "1.0.0")).unwrap();
    resolver.add_dependency(b, a, "1.0.0".to_string(), 1).unwrap();
    let result = expect_ok(resolver.resolve("B", Some(ResolutionStrategy::Hybrid)));
    assert_eq!(result.strategy_used, ResolutionStrategy::Eulerian);
    assert_eq!(path(&result), vec!["B", "A"]);
    // under stress the order is best first, edge covering, node covering
    resolver.add_stress_sample(9_500);
    let result = expect_ok(resolver.resolve("B", None));
    assert_eq!(result.strategy_used, ResolutionStrategy::Eulerian);
    let calm = chain();
    let result = expect_ok(calm.resolve("A", Some(ResolutionStrategy::Hybrid)));
    assert_eq!(result.strategy_used, ResolutionStrategy::Hamiltonian);
    let mut stressed = chain();
    stressed.add_stress_sample(6_000);
    let result = expect_ok(stressed.resolve("A", Some(ResolutionStrategy::Hybrid)));
    assert_eq!(result.strategy_used, ResolutionStrategy::AStar);
    assert_eq!(path(&result), vec!["A"]);
}

#[test]
fn adaptive_resolution_stops_at_a_failure_for_good() {
    // best first fails and may be recovered from; edge covering meets a range
    // that cannot be read, which ends the trying although node covering alone
    // succeeds
    let mut resolver = SemverXResolver::new();
    let mut root = Component::new("A".to_string(), SemverX::new(1, 0, 0));
    root.add_dependency(Dependency::new("ghost".to_string(), SemverX::new(1, 0, 0), "1.0.0".to_string()));
    let a = resolver.add_component(root.into_node()).unwrap();
    let b = resolver.add_component(node("B", "1.0.0")).unwrap();
    resolver.add_dependency(a, b, "garbage".to_string(), 1).unwrap();
    resolver.add_stress_sample(9_000);
    assert!(resolver.resolve("A", Some(ResolutionStrategy::Hamiltonian)).is_ok());
    let e = expect_err(resolver.resolve("A", None));
    assert_eq!(e.kind(), ErrorKind::Parsing);
    assert!(!e.can_recover);
    // where all three fail and may be recovered from, the last failure is told
    let mut failing = SemverXResolver::new();
    let mut root = Component::new("A".to_string(), SemverX::new(1, 0, 0));
    root.add_dependency(Dependency::new("ghost".to_string(), SemverX::new(1, 0, 0), "1.0.0".to_string()));
    let a = failing.add_component(root.into_node()).unwrap();
    let b = failing.add_component(node("B", "1.0.0")).unwrap();
    failing.add_component(node("C", "1.0.0")).unwrap();
    failing.add_dependency(a, b, ">2.0.0".to_string(), 1).unwrap();
    let e = expect_err(failing.resolve("A", Some(ResolutionStrategy::Hybrid)));
    assert_eq!(e.stress_level, 5_000);
    assert!(e.can_recover);
    failing.add_stress_sample(9_000);
    let e = expect_err(failing.resolve("A", Some(ResolutionStrategy::Hybrid)));
    assert_eq!(e.stress_level, 6_000);
    assert_eq!(e.context, vec!["resolve_a_star".to_string()]);
}

#[test]
fn the_graph_turns_away_what_does_not_fit() {
    let mut graph = DependencyGraph::new();
    assert_eq!(graph.add_component(node("A", "1.0.0")).unwrap(), 0);
    assert_eq!(graph.add_component(node("B", "1.0.0")).unwrap(), 1);
    let e = graph.add_component(node("A", "2.0.0")).unwrap_err();
    assert_eq!(e.kind(), ErrorKind::Resolving);
    assert_eq!(e.message(), "Component is in the graph already: A");
    assert_eq!(e.stress_level, 4_000);
    assert!(!e.can_recover);
    assert_eq!(graph.node_count(), 2);
    assert_eq!(graph.node(0).unwrap().version.to_string(), "1.0.0");
    assert!(graph.node(2).is_none());
    let e = graph.add_dependency(0, 2, "1.0.0".to_string(), 1).unwrap_err();
    assert_eq!(e.message(), "Edge joins no node");
    assert_eq!(graph.edge_count(), 0);
    assert_eq!(graph.add_dependency(0, 1, "1.0.0".to_string(), 5_000).unwrap(), 0);
    assert_eq!(graph.add_dependency(0, 1, "^1".to_string(), 5_001).unwrap(), 1);
    assert_eq!(graph.add_dependency(1, 0, "x".to_string(), 0).unwrap(), 2);
    // the edge that was added last comes first
    let out = graph.outgoing_edges(0);
    assert_eq!(out.len(), 2);
    assert_eq!((out[0].index, out[0].source, out[0].target), (1, 0, 1));
    assert!(out[0].weight.is_critical);
    assert_eq!(out[0].weight.constraint, "^1");
    assert_eq!((out[1].index, out[1].source, out[1].target), (0, 0, 1));
    assert!(!out[1].weight.is_critical);
    assert_eq!(graph.outgoing_edges(1).len(), 1);
    assert_eq!(graph.outgoing_edges(5).len(), 0);
    assert!(graph.edge(3).is_none());
    graph.add_stress_sample(4_000);
    graph.add_stress_sample(5_000);
    assert_eq!(graph.current_stress(), 4_500);
    assert!(DependencyEdge::new("1.0.0".to_string(), 5_001).is_critical);
}

#[test]
fn breaking_a_group_without_edges_is_an_error() {
    let mut resolver = chain();
    let e = resolver.break_cycle_with_version_pinning(&vec![0, 2]).unwrap_err();
    assert_eq!(e.kind(), ErrorKind::Resolving);
    assert_eq!(e.message(), "Cycle has no edge to remove");
    assert_eq!(e.stress_level, 9_000);
    assert!(!e.can_recover);
    assert_eq!(resolver.graph.edge_count(), 2);
    assert!(resolver.break_cycle_with_version_pinning(&vec![1, 2, 77]).is_ok());
    assert_eq!(resolver.graph.edge_count(), 1);
    assert_eq!(resolver.graph.node(2).unwrap().version.classifier, Some(Classifier::Stable));
    assert_eq!(resolver.graph.node(1).unwrap().version.classifier, None);
}

#[test]
fn results_are_built_step_by_step() {
    let mut result = ResolutionResult::new(ResolutionStrategy::AStar);
    assert!(result.resolution_path.is_empty());
    assert_eq!(result.resolved_versions.len(), 0);
    assert_eq!((result.iterations, result.stress_impact, result.conflicts_resolved), (0, 0, 0));
    result.add_component(Component::new("A".to_string(), SemverX::new(1, 2, 3)));
    result.add_component(Component::new("B".to_string(), SemverX::new(2, 0, 0)));
    result.increment_iterations();
    result.increment_iterations();
    result.record_conflict_resolution();
    result.set_stress_level(1_250);
    assert_eq!(path(&result), vec!["A", "B"]);
    assert_eq!(result.resolved_versions.get("A").unwrap().to_string(), "1.2.3");
    assert_eq!((result.iterations, result.stress_impact, result.conflicts_resolved), (2, 1_250, 1));
    assert_eq!(result.strategy_used, ResolutionStrategy::AStar);
}

#[test]
fn resolution_errors_become_bubbling_errors() {
    let cases = [
        (ResolutionError::ComponentNotFound("x".to_string()), "Component not found: x", 404, 4_000, false),
        (ResolutionError::VersionConflict("a vs b".to_string()), "Version conflict: a vs b", 409, 5_000, true),
        (ResolutionError::CyclicDependency("a -> a".to_string()), "Cyclic dependency detected: a -> a", 508, 9_000, false),
        (ResolutionError::MaxIterationsExceeded, "Maximum resolution iterations exceeded", 503, 6_000, true),
        (ResolutionError::GraphValidationFailed("edge".to_string()), "Graph validation failed: edge", 422, 4_000, false),
    ];
    for (error, text, code, stress, can_recover) in cases {
        assert_eq!(error.to_string(), text);
        assert_eq!(error.status_code(), code);
        let e = error.into_bubbling();
        assert_eq!(e.kind(), ErrorKind::Resolving);
        assert_eq!(e.message(), text);
        assert_eq!(e.stress_level, stress);
        assert_eq!(e.can_recover, can_recover);
        assert!(e.context.is_empty());
    }
}
