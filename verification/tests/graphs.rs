use deloxide::graph::WaitForGraph as SearchGraph;
use deloxide::graph::lock_order_graph::LockOrderGraph;
use deloxide::graph::wait_for_graph::WaitForGraph;

#[test]
fn test_no_cycle() {
    let mut graph = SearchGraph::new();
    graph.add_edge(1, 2);
    graph.add_edge(2, 3);
    assert_eq!(graph.detect_cycle(), None);
}

#[test]
fn test_simple_cycle() {
    let mut graph = SearchGraph::new();
    graph.add_edge(1, 2);
    graph.add_edge(2, 3);
    graph.add_edge(3, 1);
    assert!(graph.detect_cycle().is_some());
}

#[test]
fn test_remove_thread_breaks_cycle() {
    let mut graph = SearchGraph::new();
    graph.add_edge(1, 2);
    graph.add_edge(2, 3);
    graph.add_edge(3, 1);
    assert!(graph.detect_cycle().is_some());

    graph.remove_thread(2);
    assert_eq!(graph.detect_cycle(), None);
}

#[test]
fn detect_cycle_from_finds_the_cycle_reached() {
    let mut graph = SearchGraph::new();
    graph.add_edge(1, 2);
    graph.add_edge(2, 3);
    graph.add_edge(3, 2);
    assert!(graph.detect_cycle_from(1).is_some());
    assert!(graph.detect_cycle_from(4).is_none());
}

#[test]
fn test_simple_cycle_detection() {
    let mut graph = LockOrderGraph::new();

    assert!(graph.add_edge(1, 2).is_none());

    if let Some(cycle) = graph.add_edge(2, 1) {
        assert!(cycle.len() >= 2);
        assert!(cycle.contains(&1));
        assert!(cycle.contains(&2));
    } else {
        panic!("Should have detected cycle");
    }
}

#[test]
fn test_direct_cycle() {
    let mut graph = LockOrderGraph::new();

    assert!(graph.add_edge(1, 2).is_none());
    assert!(graph.add_edge(2, 1).is_some());
}

#[test]
fn test_no_false_cycles() {
    let mut graph = LockOrderGraph::new();

    assert!(graph.add_edge(1, 2).is_none());
    assert!(graph.add_edge(2, 3).is_none());
    assert!(graph.add_edge(1, 3).is_none());
}

#[test]
fn test_cache_behavior() {
    let mut graph = LockOrderGraph::new();

    assert!(graph.add_edge(1, 2).is_none());

    assert!(graph.add_edge(1, 2).is_none());

    assert!(graph.add_edge(3, 4).is_none());

    assert!(graph.add_edge(3, 4).is_none());
}

#[test]
fn lock_order_graph_ignores_self_edges_and_forgets_removed_locks() {
    let mut graph = LockOrderGraph::new();
    assert!(graph.add_edge(5, 5).is_none());
    assert!(!graph.has_edge(5, 5));
    assert!(graph.add_edge(1, 2).is_none());
    assert!(graph.has_edge(1, 2));
    graph.remove_lock(2);
    assert!(!graph.has_edge(1, 2));
    assert!(graph.add_edge(2, 1).is_none());
    assert_eq!(graph.get_all_edges().len(), 1);
    graph.clear();
    assert!(graph.get_all_edges().is_empty());
}

#[test]
fn wait_for_graph_reports_the_path_back() {
    let mut graph = WaitForGraph::new();
    assert!(graph.add_edge(1, 2).is_none());
    assert!(graph.add_edge(2, 3).is_none());
    assert_eq!(graph.add_edge(3, 1), Some(vec![1, 2, 3]));
    assert!(graph.outgoing(3).is_empty());
    assert_eq!(graph.add_edge(4, 4), Some(vec![4]));
    graph.remove_edge(1, 2);
    assert!(graph.add_edge(3, 1).is_none());
    assert_eq!(graph.outgoing(3), vec![1]);
    graph.remove_thread(1);
    assert!(graph.outgoing(3).is_empty());
}

#[test]
fn outgoing_is_sorted() {
    let mut graph = WaitForGraph::new();
    for target in [9, 3, 7, 1] {
        graph.add_edge(5, target);
    }
    assert_eq!(graph.outgoing(5), vec![1, 3, 7, 9]);
    graph.clear_wait_edges(5);
    assert!(graph.outgoing(5).is_empty());
}

#[test]
fn refused_order_edge_leaves_the_graph_acyclic() {
    let mut graph = LockOrderGraph::new();
    assert!(graph.add_edge(1, 2).is_none());
    assert!(graph.add_edge(2, 3).is_none());

    let cycle = graph.add_edge(3, 1).expect("closing edge is reported");
    assert_eq!(cycle, vec![1, 2, 3, 1]);
    assert!(!graph.has_edge(3, 1));
    assert!(graph.has_edge(1, 2));
    assert!(graph.has_edge(2, 3));
}

#[test]
fn removing_a_lock_forgets_cached_refusals() {
    let mut graph = LockOrderGraph::new();
    assert_eq!(graph.add_edge(1, 2), None);
    assert!(graph.add_edge(2, 1).is_some());
    graph.remove_lock(1);
    assert_eq!(graph.add_edge(2, 1), None);
    assert!(graph.has_edge(2, 1));
}

#[test]
fn wait_for_graph_reports_a_shortest_path_back() {
    let mut graph = WaitForGraph::new();
    assert!(graph.add_edge(2, 4).is_none());
    assert!(graph.add_edge(4, 5).is_none());
    assert!(graph.add_edge(5, 1).is_none());
    assert!(graph.add_edge(2, 3).is_none());
    assert!(graph.add_edge(3, 1).is_none());
    assert_eq!(graph.add_edge(1, 2), Some(vec![2, 3, 1]));
}
