use stack_diagnostics::depth::{compute_depth, max_depth};
use stack_diagnostics::graph::{
    betweenness_divisor, build_adjacency, count_edges, dangling_nodes, incoming_sources, max_edges, DependencyGraph,
};
use stack_diagnostics::health::StackLayer;
use stack_diagnostics::paths::shortest_paths;
use stack_diagnostics::registry::{ComponentNode, StackDiagnostics};

fn engine(names: &[&str], edges: &[(&str, &[&str])]) -> StackDiagnostics {
    let mut diag = StackDiagnostics::new();
    for name in names {
        diag.add_component(ComponentNode::new(name, "1.0", StackLayer::Compute));
    }
    let mut graph = DependencyGraph::new();
    for (from, deps) in edges {
        graph.add_crate(from, deps.iter().map(|d| d.to_string()).collect());
    }
    diag.set_graph(graph);
    diag
}

fn depth_of(diag: &StackDiagnostics, name: &str) -> Option<usize> {
    diag.metrics().depth_map.iter().find(|d| d.name == name).map(|d| d.depth)
}

#[test]
fn test_compute_metrics_empty() {
    let mut diag = StackDiagnostics::new();
    let metrics = diag.compute_metrics();

    assert_eq!(metrics.total_nodes, 0);
    assert_eq!(metrics.total_edges, 0);
    assert_eq!(f64::from_bits(metrics.density.to_bits()), 0.0);
}

#[test]
fn test_compute_metrics_single_node() {
    let mut diag = StackDiagnostics::new();
    diag.add_component(ComponentNode::new("trueno", "0.7.4", StackLayer::Compute));

    let metrics = diag.compute_metrics();

    assert_eq!(metrics.total_nodes, 1);
    assert_eq!(metrics.total_edges, 0);
    assert_eq!(metrics.depth_map.len(), 1);
    assert_eq!(metrics.depth_map[0].name, "trueno");
    assert_eq!(metrics.depth_map[0].depth, 0);
    assert_eq!(max_edges(1), 0);
}

#[test]
fn test_compute_metrics_betweenness() {
    let mut diag = StackDiagnostics::new();
    diag.add_component(ComponentNode::new("hub", "1.0", StackLayer::Compute));
    diag.add_component(ComponentNode::new("leaf1", "1.0", StackLayer::Ml));
    diag.add_component(ComponentNode::new("leaf2", "1.0", StackLayer::DataMlops));
    diag.add_component(ComponentNode::new("leaf3", "1.0", StackLayer::Orchestration));

    let metrics = diag.compute_metrics();
    assert_eq!(metrics.total_edges, 0);
    assert_eq!(metrics.total_nodes, 4);

    // Without edges a search from any node reaches only that node and
    // records no predecessor, so nothing can lie between two nodes.
    let adjacency = diag.adjacency();
    for source in 0..4 {
        let paths = shortest_paths(&adjacency, source);
        assert_eq!(paths.order, vec![source]);
        assert!(paths.predecessors.iter().all(|p| p.is_empty()));
    }
    assert_eq!(betweenness_divisor(4), 6);
}

#[test]
fn test_compute_metrics_depth() {
    let mut diag = StackDiagnostics::new();
    diag.add_component(ComponentNode::new("root1", "1.0", StackLayer::Compute));
    diag.add_component(ComponentNode::new("root2", "1.0", StackLayer::Ml));
    diag.add_component(ComponentNode::new("root3", "1.0", StackLayer::DataMlops));

    diag.compute_metrics();

    assert_eq!(depth_of(&diag, "root1"), Some(0));
    assert_eq!(depth_of(&diag, "root2"), Some(0));
    assert_eq!(depth_of(&diag, "root3"), Some(0));
    assert_eq!(diag.metrics().max_depth, 0);
}

#[test]
fn test_compute_metrics_graph_density() {
    let mut diag = StackDiagnostics::new();
    diag.add_component(ComponentNode::new("A", "1.0", StackLayer::Compute));
    diag.add_component(ComponentNode::new("B", "1.0", StackLayer::Ml));
    diag.add_component(ComponentNode::new("C", "1.0", StackLayer::DataMlops));

    let metrics = diag.compute_metrics();

    assert_eq!(metrics.total_nodes, 3);
    assert_eq!(metrics.total_edges, 0);
    assert_eq!(max_edges(3), 6);
}

#[test]
fn test_compute_metrics_avg_degree() {
    let mut diag = StackDiagnostics::new();
    diag.add_component(ComponentNode::new("node1", "1.0", StackLayer::Compute));
    diag.add_component(ComponentNode::new("node2", "1.0", StackLayer::Ml));

    let metrics = diag.compute_metrics();

    assert_eq!(metrics.total_nodes, 2);
    assert_eq!(metrics.total_edges, 0);
}

#[test]
fn test_build_adjacency_no_graph() {
    let mut diag = StackDiagnostics::new();
    diag.add_component(ComponentNode::new("A", "1.0", StackLayer::Compute));
    diag.add_component(ComponentNode::new("B", "1.0", StackLayer::Ml));

    let metrics = diag.compute_metrics();
    assert_eq!(metrics.total_edges, 0);
    assert_eq!(diag.adjacency(), vec![Vec::<usize>::new(), Vec::new()]);
}

#[test]
fn test_compute_metrics_multiple_calls() {
    let mut diag = StackDiagnostics::new();
    diag.add_component(ComponentNode::new("X", "1.0", StackLayer::Compute));

    let _ = diag.compute_metrics();
    let metrics = diag.compute_metrics();

    assert_eq!(metrics.total_nodes, 1);
    assert_eq!(metrics.depth_map.len(), 1);
}

#[test]
fn metrics_are_stale_until_recomputed() {
    let mut diag = engine(&["a", "b"], &[("a", &["b"])]);
    diag.compute_metrics();
    assert_eq!(diag.metrics().total_nodes, 2);
    diag.add_component(ComponentNode::new("c", "1.0", StackLayer::Ml));
    assert_eq!(diag.metrics().total_nodes, 2);
    diag.compute_metrics();
    assert_eq!(diag.metrics().total_nodes, 3);
}

#[test]
fn adjacency_keeps_only_registered_ends() {
    let diag = engine(
        &["a", "b", "c"],
        &[("a", &["b", "ghost", "c", "b"]), ("stranger", &["a"]), ("c", &["a"]), ("a", &["a"])],
    );
    let adjacency = diag.adjacency();
    assert_eq!(adjacency, vec![vec![1, 2, 1, 0], vec![], vec![0]]);
    assert_eq!(count_edges(&adjacency), 5);
    assert_eq!(dangling_nodes(&adjacency), vec![1]);
    assert_eq!(incoming_sources(&adjacency, 0), vec![0, 2]);
    assert_eq!(incoming_sources(&adjacency, 1), vec![0]);
    let nodes: Vec<ComponentNode> = diag.components().iter().cloned().collect();
    assert_eq!(build_adjacency(&nodes, None), vec![Vec::<usize>::new(), vec![], vec![]]);
}

#[test]
fn depth_of_a_chain_counts_hops() {
    let mut diag = engine(&["a", "b", "c", "d"], &[("a", &["b"]), ("b", &["c"]), ("c", &["d"])]);
    diag.compute_metrics();
    assert_eq!(depth_of(&diag, "a"), Some(0));
    assert_eq!(depth_of(&diag, "b"), Some(1));
    assert_eq!(depth_of(&diag, "c"), Some(2));
    assert_eq!(depth_of(&diag, "d"), Some(3));
    assert_eq!(diag.metrics().max_depth, 3);
    assert_eq!(diag.metrics().total_edges, 3);
}

#[test]
fn depth_of_a_diamond() {
    // a -> b, a -> c, b -> d, c -> d: the visit pushed last is taken first,
    // so c is expanded before b; d is two hops from the root either way.
    let adjacency = vec![vec![1, 2], vec![3], vec![3], vec![]];
    assert_eq!(compute_depth(&adjacency), vec![0, 1, 1, 2]);
}

#[test]
fn depth_is_the_first_visit_not_the_shortest_path() {
    // a -> b, a -> c, c -> b, b -> d. The stack takes c before b, and c
    // pushes b at two hops, which is taken before the visit of b at one hop.
    let adjacency = vec![vec![1, 2], vec![3], vec![1], vec![]];
    assert_eq!(compute_depth(&adjacency), vec![0, 2, 1, 3]);
    assert_eq!(max_depth(&compute_depth(&adjacency)), 3);
}

#[test]
fn depth_in_a_cycle_without_root_is_zero() {
    let adjacency = vec![vec![1], vec![2], vec![0]];
    assert_eq!(compute_depth(&adjacency), vec![0, 0, 0]);
    // A cycle below a root is entered once.
    let adjacency = vec![vec![1], vec![2], vec![1]];
    assert_eq!(compute_depth(&adjacency), vec![0, 1, 2]);
    assert_eq!(max_depth(&Vec::new()), 0);
}

#[test]
fn search_records_order_distance_and_predecessors() {
    // 0 -> 1, 0 -> 2, 1 -> 3, 2 -> 3, 3 -> 4, and 5 apart.
    let adjacency = vec![vec![1, 2], vec![3], vec![3], vec![4], vec![], vec![]];
    let paths = shortest_paths(&adjacency, 0);
    assert_eq!(paths.order, vec![0, 1, 2, 3, 4]);
    assert_eq!(paths.distance, vec![Some(0), Some(1), Some(1), Some(2), Some(3), None]);
    assert_eq!(paths.predecessors, vec![vec![], vec![0], vec![0], vec![1, 2], vec![3], vec![]]);
    let paths = shortest_paths(&adjacency, 3);
    assert_eq!(paths.order, vec![3, 4]);
    assert_eq!(paths.distance, vec![None, None, None, Some(0), Some(1), None]);
}

#[test]
fn search_counts_parallel_edges_and_ignores_longer_ways() {
    // Two edges 0 -> 1, and 0 -> 2 -> 1 is longer; 1 -> 0 closes a cycle.
    let adjacency = vec![vec![1, 1, 2], vec![0], vec![1]];
    let paths = shortest_paths(&adjacency, 0);
    assert_eq!(paths.order, vec![0, 1, 2]);
    assert_eq!(paths.predecessors, vec![vec![], vec![0, 0], vec![0]]);
}

#[test]
fn two_nodes_have_no_node_between_them() {
    for adjacency in [vec![vec![1], vec![0]], vec![vec![1], vec![]], vec![vec![0, 1], vec![1, 0]]] {
        for source in 0..2 {
            let paths = shortest_paths(&adjacency, source);
            for preds in &paths.predecessors {
                assert!(preds.iter().all(|&p| p == source));
            }
        }
    }
    assert_eq!(betweenness_divisor(0), 1);
    assert_eq!(betweenness_divisor(1), 1);
    assert_eq!(betweenness_divisor(2), 1);
    assert_eq!(betweenness_divisor(3), 2);
    assert_eq!(betweenness_divisor(10), 72);
    assert_eq!(max_edges(0), 0);
    assert_eq!(max_edges(10), 90);
}

fn random_graph(seed: u64, n: usize, edges: usize) -> Vec<Vec<usize>> {
    let mut rng = stack_diagnostics::rng::SimpleRng::seed_from_u64(seed);
    let mut adjacency = vec![Vec::new(); n];
    if n > 0 {
        for _ in 0..edges {
            let from = (rng.next_u64() >> 33) as usize % n;
            let to = (rng.next_u64() >> 33) as usize % n;
            adjacency[from].push(to);
        }
    }
    adjacency
}

/// The depth traversal with a stack, as a plain loop.
fn reference_depth(adjacency: &Vec<Vec<usize>>) -> Vec<usize> {
    let n = adjacency.len();
    let mut has_incoming = vec![false; n];
    for targets in adjacency {
        for &t in targets {
            has_incoming[t] = true;
        }
    }
    let mut depth: Vec<Option<usize>> = vec![None; n];
    let mut stack: Vec<(usize, usize)> = (0..n).filter(|&i| !has_incoming[i]).map(|r| (r, 0)).collect();
    while let Some((node, d)) = stack.pop() {
        if depth[node].is_none() {
            depth[node] = Some(d);
            for &neighbor in &adjacency[node] {
                if depth[neighbor].is_none() {
                    stack.push((neighbor, d + 1));
                }
            }
        }
    }
    depth.into_iter().map(|d| d.unwrap_or(0)).collect()
}

/// The breadth-first search with a queue, as a plain loop.
fn reference_search(adjacency: &Vec<Vec<usize>>, source: usize) -> (Vec<usize>, Vec<Option<usize>>, Vec<Vec<usize>>) {
    let n = adjacency.len();
    let mut dist: Vec<i64> = vec![-1; n];
    let mut preds: Vec<Vec<usize>> = vec![Vec::new(); n];
    dist[source] = 0;
    let mut queue = vec![source];
    let mut order = Vec::new();
    while !queue.is_empty() {
        let v = queue.remove(0);
        order.push(v);
        for &w in &adjacency[v] {
            if dist[w] < 0 {
                dist[w] = dist[v] + 1;
                queue.push(w);
            }
            if dist[w] == dist[v] + 1 {
                preds[w].push(v);
            }
        }
    }
    (order, dist.into_iter().map(|d| if d < 0 { None } else { Some(d as usize) }).collect(), preds)
}

#[test]
fn traversals_agree_with_plain_loops_on_many_graphs() {
    for seed in 0..60u64 {
        let n = (seed % 9) as usize;
        let edges = (seed % 23) as usize;
        let adjacency = random_graph(seed, n, edges);
        assert_eq!(compute_depth(&adjacency), reference_depth(&adjacency), "{:?}", adjacency);
        for source in 0..n {
            let paths = shortest_paths(&adjacency, source);
            let (order, dist, preds) = reference_search(&adjacency, source);
            assert_eq!(paths.order, order, "{:?} from {}", adjacency, source);
            assert_eq!(paths.distance, dist);
            assert_eq!(paths.predecessors, preds);
        }
        let total: usize = adjacency.iter().map(|r| r.len()).sum();
        assert_eq!(count_edges(&adjacency), total);
    }
}

#[test]
fn roots_have_depth_zero_and_depths_follow_edges() {
    for seed in 100..140u64 {
        let adjacency = random_graph(seed, 8, 12);
        let depth = compute_depth(&adjacency);
        for v in 0..8 {
            let entered = adjacency.iter().any(|row| row.contains(&v));
            if !entered {
                assert_eq!(depth[v], 0);
            }
            if depth[v] > 0 {
                assert!((0..8).any(|s| adjacency[s].contains(&v) && depth[s] + 1 == depth[v]));
            }
        }
    }
}
