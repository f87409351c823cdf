use rust_semverx::dependency::{DependencyResolver, PackageNode, ResolverError};

fn package(name: &str, dependencies: &[&str]) -> PackageNode {
    PackageNode {
        name: name.to_string(),
        version: "1.0.0".to_string(),
        dependencies: dependencies.iter().map(|d| d.to_string()).collect(),
    }
}

#[test]
fn test_basic_resolution() {
    let mut resolver = DependencyResolver::new();

    resolver.add_package(PackageNode {
        name: "a".to_string(),
        version: "1.0.0".to_string(),
        dependencies: vec!["b".to_string()],
    });

    resolver.add_package(PackageNode {
        name: "b".to_string(),
        version: "1.0.0".to_string(),
        dependencies: vec![],
    });

    let order = resolver.resolve().unwrap();
    assert_eq!(order, vec!["b", "a"]);
}

#[test]
fn test_circular_dependency_detection() {
    let mut resolver = DependencyResolver::new();

    resolver.add_package(PackageNode {
        name: "a".to_string(),
        version: "1.0.0".to_string(),
        dependencies: vec!["b".to_string()],
    });

    resolver.add_package(PackageNode {
        name: "b".to_string(),
        version: "1.0.0".to_string(),
        dependencies: vec!["a".to_string()],
    });

    assert!(resolver.resolve().is_err());
}

#[test]
fn dependencies_come_first() {
    let mut resolver = DependencyResolver::default();
    assert_eq!(resolver.resolve().unwrap(), Vec::<String>::new());
    resolver.add_package(package("app", &["web", "db"]));
    resolver.add_package(package("web", &["log", "net"]));
    resolver.add_package(package("db", &["log"]));
    resolver.add_package(package("log", &[]));
    resolver.add_package(package("net", &["log"]));
    assert_eq!(resolver.len(), 5);
    let order = resolver.resolve().unwrap();
    assert_eq!(order, vec!["log", "net", "web", "db", "app"]);
    for p in ["app", "web", "db", "log", "net"] {
        assert_eq!(order.iter().filter(|n| n.as_str() == p).count(), 1);
    }
}

#[test]
fn what_cannot_be_ordered_says_why() {
    let mut resolver = DependencyResolver::new();
    resolver.add_package(package("a", &["b"]));
    resolver.add_package(package("b", &["ghost"]));
    match resolver.resolve() {
        Err(ResolverError::MissingDependency(name)) => assert_eq!(name, "ghost"),
        other => panic!("unexpected: {:?}", other),
    }
    // a package of a known name takes the place of the old one
    resolver.add_package(package("b", &["c"]));
    resolver.add_package(package("c", &["a"]));
    assert_eq!(resolver.len(), 3);
    match resolver.resolve() {
        Err(ResolverError::CircularDependency(message)) => {
            assert_eq!(message, "Circular dependency detected in package graph")
        }
        other => panic!("unexpected: {:?}", other),
    }
    let mut own = DependencyResolver::new();
    own.add_package(package("self", &["self"]));
    assert!(matches!(own.resolve(), Err(ResolverError::CircularDependency(_))));
}

#[test]
fn even_numbers_of_dependencies() {
    let mut resolver = DependencyResolver::new();
    assert!(resolver.has_eulerian_cycle());
    resolver.add_package(package("a", &["b", "c"]));
    resolver.add_package(package("b", &[]));
    assert!(resolver.has_eulerian_cycle());
    resolver.add_package(package("c", &["a"]));
    assert!(!resolver.has_eulerian_cycle());
}

#[test]
fn rounds_through_all_packages() {
    let mut resolver = DependencyResolver::new();
    assert!(!resolver.has_hamiltonian_cycle());
    resolver.add_package(package("a", &["b"]));
    assert!(!resolver.has_hamiltonian_cycle());
    resolver.add_package(package("b", &["c", "a"]));
    resolver.add_package(package("c", &["a"]));
    assert!(resolver.has_hamiltonian_cycle());
    resolver.add_package(package("d", &["a"]));
    assert!(!resolver.has_hamiltonian_cycle());
    resolver.add_package(package("c", &["d", "ghost"]));
    assert!(resolver.has_hamiltonian_cycle());
    let mut own = DependencyResolver::new();
    own.add_package(package("self", &["self"]));
    assert!(own.has_hamiltonian_cycle());
    // the search has to leave a dead end again
    let mut maze = DependencyResolver::new();
    maze.add_package(package("a", &["c", "b"]));
    maze.add_package(package("b", &["c"]));
    maze.add_package(package("c", &["a"]));
    assert!(maze.has_hamiltonian_cycle());
}

#[test]
fn hot_swap_renames_dependencies() {
    let mut resolver = DependencyResolver::new();
    resolver.add_package(package("app", &["old", "log"]));
    resolver.add_package(package("old", &["log"]));
    resolver.add_package(package("log", &[]));
    match resolver.hot_swap("nope", package("new", &[])) {
        Err(ResolverError::MissingDependency(message)) => {
            assert_eq!(message, "Package nope not found for hot-swap")
        }
        other => panic!("unexpected: {:?}", other),
    }
    assert_eq!(resolver.len(), 3);
    assert!(resolver.hot_swap("old", package("new", &["log", "old"])).is_ok());
    assert_eq!(resolver.len(), 3);
    // the new package keeps the dependencies it came with
    match resolver.resolve() {
        Err(ResolverError::MissingDependency(name)) => assert_eq!(name, "old"),
        other => panic!("unexpected: {:?}", other),
    }
    assert!(resolver.hot_swap("new", package("new", &["log"])).is_ok());
    assert_eq!(resolver.resolve().unwrap(), vec!["log", "new", "app"]);
    // a package that bore the new name leaves
    assert!(resolver.hot_swap("app", package("log", &[])).is_ok());
    assert_eq!(resolver.len(), 2);
    assert_eq!(resolver.resolve().unwrap(), vec!["log", "new"]);
}

#[test]
fn resolver_errors_are_written_out() {
    assert_eq!(
        ResolverError::CircularDependency("a -> a".to_string()).to_string(),
        "Circular dependency: a -> a"
    );
    assert_eq!(ResolverError::MissingDependency("x".to_string()).to_string(), "Missing dependency: x");
    assert_eq!(ResolverError::VersionConflict("y".to_string()).to_string(), "Version conflict: y");
}
