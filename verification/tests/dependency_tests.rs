use phira_mp_plugin::dependency::{
    circular_message, DependencyGraph, DependencyResolution, DependencyResolver,
};
use phira_mp_plugin::error::Error;

fn names(list: &[&str]) -> Vec<String> {
    list.iter().map(|s| s.to_string()).collect()
}

fn sorted(mut v: Vec<String>) -> Vec<String> {
    v.sort();
    v
}

fn position(order: &[String], name: &str) -> usize {
    order.iter().position(|n| n == name).expect("name is in the order")
}

fn dependency_text(r: Result<Vec<String>, Error>) -> String {
    match r {
        Err(Error::Dependency(m)) => m,
        other => panic!("expected a dependency error, got {:?}", other),
    }
}

#[test]
fn test_dependency_graph() {
    let mut graph = DependencyGraph::new();

    // Add plugins with dependencies
    graph.add_plugin("plugin_a".to_string(), vec![]).unwrap();
    graph.add_plugin("plugin_b".to_string(), vec!["plugin_a".to_string()]).unwrap();
    graph
        .add_plugin(
            "plugin_c".to_string(),
            vec!["plugin_a".to_string(), "plugin_b".to_string()],
        )
        .unwrap();

    // Check dependencies
    let deps = graph.get_all_dependencies("plugin_c");
    assert!(deps.contains(&"plugin_a".to_string()));
    assert!(deps.contains(&"plugin_b".to_string()));

    // Check load order
    let load_order = graph.get_load_order().unwrap();
    assert_eq!(load_order[0], "plugin_a");
    assert_eq!(load_order[1], "plugin_b");
    assert_eq!(load_order[2], "plugin_c");
}

#[test]
fn test_circular_dependency() {
    let mut graph = DependencyGraph::new();

    graph.add_plugin("plugin_a".to_string(), vec!["plugin_b".to_string()]).unwrap();
    graph.add_plugin("plugin_b".to_string(), vec!["plugin_a".to_string()]).unwrap();

    assert!(graph.check_circular_dependencies().is_err());
}

#[test]
fn test_missing_dependencies() {
    let mut graph = DependencyGraph::new();

    graph.add_plugin("plugin_a".to_string(), vec!["missing_plugin".to_string()]).unwrap();

    let missing = graph.check_missing_dependencies("plugin_a");
    assert_eq!(missing, vec!["missing_plugin".to_string()]);
}

#[test]
fn load_order_puts_every_dependency_first_and_unload_order_is_its_reverse() {
    let mut graph = DependencyGraph::new();
    graph.add_plugin("web".to_string(), names(&["http", "log"])).unwrap();
    graph.add_plugin("http".to_string(), names(&["net", "log"])).unwrap();
    graph.add_plugin("net".to_string(), names(&[])).unwrap();
    graph.add_plugin("log".to_string(), names(&[])).unwrap();
    graph.add_plugin("alone".to_string(), names(&[])).unwrap();

    let load = graph.get_load_order().unwrap();
    assert_eq!(sorted(load.clone()), names(&["alone", "http", "log", "net", "web"]));
    for (dependent, dependency) in
        [("web", "http"), ("web", "log"), ("http", "net"), ("http", "log")]
    {
        assert!(position(&load, dependency) < position(&load, dependent));
    }
    let mut unload = graph.get_unload_order().unwrap();
    unload.reverse();
    assert_eq!(unload, load);
    assert!(graph.check_circular_dependencies().is_ok());
}

#[test]
fn a_cycle_fails_both_the_check_and_the_load_order() {
    let mut graph = DependencyGraph::new();
    graph.add_plugin("a".to_string(), names(&["b"])).unwrap();
    graph.add_plugin("b".to_string(), names(&["c"])).unwrap();
    graph.add_plugin("c".to_string(), names(&["a"])).unwrap();
    graph.add_plugin("d".to_string(), names(&["a"])).unwrap();

    let groups = graph.find_cycles();
    assert_eq!(groups.len(), 1);
    assert_eq!(sorted(groups[0].clone()), names(&["a", "b", "c"]));
    let expected = circular_message(&groups);
    assert!(expected.starts_with("Circular dependencies detected: ["));
    assert!(expected.ends_with("]"));

    match graph.check_circular_dependencies() {
        Err(Error::Dependency(m)) => assert_eq!(m, expected),
        other => panic!("expected a dependency error, got {:?}", other),
    }
    assert_eq!(dependency_text(graph.get_load_order()), expected);
    assert_eq!(dependency_text(graph.get_unload_order()), expected);
}

#[test]
fn circular_groups_are_written_between_brackets() {
    let groups = vec![names(&["a", "b"]), names(&["x", "y", "z"])];
    assert_eq!(circular_message(&groups), "Circular dependencies detected: [a, b]; [x, y, z]");
    assert_eq!(circular_message(&vec![names(&["p", "q"])]), "Circular dependencies detected: [p, q]");
}

#[test]
fn a_plugin_that_depends_on_itself_passes_the_check_but_has_no_load_order() {
    let mut graph = DependencyGraph::new();
    graph.add_plugin("selfish".to_string(), names(&["selfish"])).unwrap();
    assert!(graph.check_circular_dependencies().is_ok());
    assert!(graph.find_cycles().is_empty());
    assert_eq!(
        dependency_text(graph.get_load_order()),
        "Cycle detected involving plugin: selfish"
    );
    assert!(graph.get_unload_order().is_err());
    assert!(graph.get_all_dependents("selfish").is_empty());
    assert!(graph.can_unload_safely("selfish"));
}

#[test]
fn missing_dependencies_are_the_unregistered_ones() {
    let mut graph = DependencyGraph::new();
    graph.add_plugin("a".to_string(), names(&["x", "b", "y"])).unwrap();
    assert_eq!(sorted(graph.check_missing_dependencies("a")), names(&["b", "x", "y"]));
    graph.add_plugin("b".to_string(), names(&[])).unwrap();
    assert_eq!(sorted(graph.check_missing_dependencies("a")), names(&["x", "y"]));
    graph.add_plugin("x".to_string(), names(&["z"])).unwrap();
    assert_eq!(graph.check_missing_dependencies("a"), names(&["y"]));
    assert_eq!(graph.check_missing_dependencies("x"), names(&["z"]));
    assert!(graph.check_missing_dependencies("b").is_empty());
    assert!(graph.check_missing_dependencies("unknown").is_empty());
    // A name that was only given as a dependency is a node without dependencies of its own.
    assert!(graph.check_missing_dependencies("y").is_empty());
}

#[test]
fn dependents_and_dependencies_are_transitive_and_leave_the_plugin_out() {
    let mut graph = DependencyGraph::new();
    graph.add_plugin("base".to_string(), names(&[])).unwrap();
    graph.add_plugin("mid".to_string(), names(&["base"])).unwrap();
    graph.add_plugin("top".to_string(), names(&["mid"])).unwrap();
    graph.add_plugin("side".to_string(), names(&["base"])).unwrap();

    assert_eq!(sorted(graph.get_all_dependents("base")), names(&["mid", "side", "top"]));
    assert_eq!(graph.get_all_dependents("mid"), names(&["top"]));
    assert!(graph.get_all_dependents("top").is_empty());
    assert!(graph.get_all_dependents("nobody").is_empty());
    assert_eq!(sorted(graph.get_all_dependencies("top")), names(&["base", "mid"]));
    assert!(graph.get_all_dependencies("base").is_empty());
    assert!(graph.get_all_dependencies("nobody").is_empty());

    assert!(!graph.can_unload_safely("base"));
    assert!(!graph.can_unload_safely("mid"));
    assert!(graph.can_unload_safely("top"));
    assert!(graph.can_unload_safely("side"));
    assert!(graph.can_unload_safely("nobody"));

    assert_eq!(graph.get_optional_dependencies("top", &names(&["mid"])), names(&["base"]));
    assert!(graph.get_optional_dependencies("top", &names(&["mid", "base"])).is_empty());
    assert_eq!(sorted(graph.get_optional_dependencies("top", &[])), names(&["base", "mid"]));
}

#[test]
fn removing_a_plugin_removes_its_node_and_its_edges() {
    let mut graph = DependencyGraph::new();
    graph.add_plugin("a".to_string(), names(&[])).unwrap();
    graph.add_plugin("b".to_string(), names(&["a"])).unwrap();
    graph.add_plugin("c".to_string(), names(&["b"])).unwrap();
    graph.add_plugin("d".to_string(), names(&["c", "a"])).unwrap();
    assert_eq!(graph.stats().total_plugins, 4);
    assert_eq!(graph.stats().total_dependencies, 4);

    // The first node goes: the last one takes its place and keeps its edges.
    graph.remove_plugin("a");
    assert_eq!(sorted(graph.plugin_names()), names(&["b", "c", "d"]));
    assert_eq!(graph.stats().total_plugins, 3);
    assert_eq!(graph.stats().total_dependencies, 2);
    assert!(graph.check_missing_dependencies("b").is_empty());
    assert!(graph.check_missing_dependencies("d").is_empty());
    assert_eq!(sorted(graph.get_all_dependencies("d")), names(&["b", "c"]));
    assert_eq!(sorted(graph.get_all_dependents("b")), names(&["c", "d"]));
    assert_eq!(graph.get_load_order().unwrap(), names(&["b", "c", "d"]));

    graph.remove_plugin("unknown");
    assert_eq!(graph.stats().total_plugins, 3);

    graph.remove_plugin("c");
    assert_eq!(sorted(graph.plugin_names()), names(&["b", "d"]));
    assert!(graph.get_all_dependencies("d").is_empty());
    assert!(graph.get_all_dependents("b").is_empty());
    assert_eq!(graph.stats().total_dependencies, 0);

    // A removed name can come back, and is then missing until it is added again.
    graph.add_plugin("e".to_string(), names(&["c"])).unwrap();
    assert_eq!(graph.check_missing_dependencies("e"), names(&["c"]));
    graph.add_plugin("c".to_string(), names(&[])).unwrap();
    assert!(graph.check_missing_dependencies("e").is_empty());
    graph.remove_plugin("b");
    graph.remove_plugin("d");
    graph.remove_plugin("e");
    graph.remove_plugin("c");
    assert!(graph.plugin_names().is_empty());
    assert!(graph.get_load_order().unwrap().is_empty());
}

#[test]
fn adding_a_plugin_again_keeps_one_node_and_counts_the_dependency_twice() {
    let mut graph = DependencyGraph::new();
    graph.add_plugin("a".to_string(), names(&["b"])).unwrap();
    graph.add_plugin("a".to_string(), names(&["b"])).unwrap();
    let stats = graph.stats();
    assert_eq!(stats.total_plugins, 2);
    assert_eq!(stats.total_dependencies, 2);
    assert_eq!(graph.get_all_dependencies("a"), names(&["b"]));
    assert_eq!(graph.get_load_order().unwrap(), names(&["b", "a"]));
}

#[test]
fn resolution_lists_what_is_missing_and_what_is_circular() {
    let resolution = DependencyResolution::new();
    assert!(resolution.is_successful());
    assert!(resolution.load_order.is_empty());

    let mut resolver = DependencyResolver::new();
    resolver.add_plugin_manifest("a".to_string(), names(&[])).unwrap();
    resolver.add_plugin_manifest("b".to_string(), names(&["a"])).unwrap();
    let ok = resolver.resolve();
    assert!(ok.is_successful());
    assert_eq!(ok.load_order, names(&["a", "b"]));
    assert!(resolver.has_all_dependencies("b"));
    assert_eq!(resolver.get_dependents("a"), names(&["b"]));
    assert_eq!(resolver.get_dependencies("b"), names(&["a"]));

    resolver.add_plugin_manifest("c".to_string(), names(&["ghost", "a"])).unwrap();
    let missing = resolver.resolve();
    assert!(!missing.is_successful());
    assert_eq!(missing.missing_dependencies, vec![("c".to_string(), names(&["ghost"]))]);
    assert!(missing.circular_dependencies.is_empty());
    assert!(missing.load_order.is_empty());
    assert!(!resolver.has_all_dependencies("c"));

    let mut circular = DependencyResolver::new();
    circular.add_plugin_manifest("x".to_string(), names(&["y"])).unwrap();
    circular.add_plugin_manifest("y".to_string(), names(&["x"])).unwrap();
    let found = circular.resolve();
    assert!(!found.is_successful());
    assert!(found.missing_dependencies.is_empty());
    assert_eq!(found.circular_dependencies.len(), 1);
    assert_eq!(sorted(found.circular_dependencies[0].clone()), names(&["x", "y"]));
    assert!(found.load_order.is_empty());
}

#[test]
fn removal_copes_with_self_dependencies_and_repeated_dependencies() {
    let mut graph = DependencyGraph::new();
    graph.add_plugin("a".to_string(), names(&["a", "b", "b"])).unwrap();
    graph.add_plugin("b".to_string(), names(&["c"])).unwrap();
    graph.add_plugin("c".to_string(), names(&[])).unwrap();
    graph.add_plugin("d".to_string(), names(&["a", "c", "d"])).unwrap();
    assert_eq!(graph.stats().total_dependencies, 7);
    assert_eq!(sorted(graph.get_all_dependencies("d")), names(&["a", "b", "c"]));

    // The last node goes: nothing moves.
    graph.remove_plugin("d");
    assert_eq!(graph.plugin_names(), names(&["a", "b", "c"]));
    assert_eq!(graph.stats().total_dependencies, 4);
    assert_eq!(sorted(graph.get_all_dependents("c")), names(&["a", "b"]));

    // A node in the middle goes: the last node takes its place.
    graph.remove_plugin("b");
    assert_eq!(sorted(graph.plugin_names()), names(&["a", "c"]));
    assert_eq!(graph.stats().total_dependencies, 1);
    assert!(graph.get_all_dependents("c").is_empty());
    assert!(graph.get_all_dependencies("a").is_empty());
    assert!(graph.get_load_order().is_err());
    graph.remove_plugin("a");
    assert_eq!(graph.get_load_order().unwrap(), names(&["c"]));
    assert_eq!(graph.stats().total_dependencies, 0);
}

#[test]
fn two_cycles_are_two_groups() {
    let mut graph = DependencyGraph::new();
    graph.add_plugin("a".to_string(), names(&["b"])).unwrap();
    graph.add_plugin("b".to_string(), names(&["a"])).unwrap();
    graph.add_plugin("x".to_string(), names(&["y", "a"])).unwrap();
    graph.add_plugin("y".to_string(), names(&["x"])).unwrap();
    graph.add_plugin("free".to_string(), names(&[])).unwrap();
    let mut groups: Vec<Vec<String>> = graph.find_cycles().into_iter().map(sorted).collect();
    groups.sort();
    assert_eq!(groups, vec![names(&["a", "b"]), names(&["x", "y"])]);
    assert!(graph.check_circular_dependencies().is_err());
    assert!(!graph.can_unload_safely("a"));
    assert_eq!(sorted(graph.get_all_dependents("a")), names(&["b", "x", "y"]));
    assert_eq!(sorted(graph.get_all_dependencies("a")), names(&["b"]));
}

#[test]
fn a_dependency_that_is_declared_twice_is_missing_once() {
    let mut graph = DependencyGraph::new();
    graph.add_plugin("a".to_string(), names(&["x", "x", "y"])).unwrap();
    graph.add_plugin("a".to_string(), names(&["y"])).unwrap();
    assert_eq!(sorted(graph.check_missing_dependencies("a")), names(&["x", "y"]));
    assert_eq!(graph.stats().total_dependencies, 4);
    assert_eq!(graph.stats().total_plugins, 3);
}
