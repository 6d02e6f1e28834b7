use stack_diagnostics::anomaly::{Anomaly, AnomalyCategory};
use stack_diagnostics::graph::{DependencyGraph, GraphMetrics, NamedScore};
use stack_diagnostics::health::{AndonStatus, HealthStatus, QualityGrade, StackLayer};
use stack_diagnostics::measure::Measure;
use stack_diagnostics::registry::{ComponentMetrics, ComponentNode, HealthSummary, StackDiagnostics};

fn m(x: f64) -> Measure {
    Measure::from_bits(x.to_bits())
}

fn value(x: Measure) -> f64 {
    f64::from_bits(x.to_bits())
}

#[test]
fn test_component_node_creation() {
    let node = ComponentNode::new("trueno", "0.7.4", StackLayer::Compute);
    assert_eq!(node.name, "trueno");
    assert_eq!(node.version, "0.7.4");
    assert_eq!(node.layer, StackLayer::Compute);
    assert_eq!(node.health, HealthStatus::Unknown);
}

#[test]
fn test_component_node_update_health() {
    let mut node = ComponentNode::new("trueno", "0.7.4", StackLayer::Compute);
    node.metrics = ComponentMetrics::with_demo_score(m(95.0), QualityGrade::APlus);
    node.update_health();
    assert_eq!(node.health, HealthStatus::Green);
}

#[test]
fn test_component_node_update_health_yellow() {
    let mut node = ComponentNode::new("test", "1.0.0", StackLayer::Ml);
    node.metrics = ComponentMetrics::with_demo_score(m(85.0), QualityGrade::AMinus);
    node.update_health();
    assert_eq!(node.health, HealthStatus::Yellow);
}

#[test]
fn test_component_node_update_health_red() {
    let mut node = ComponentNode::new("test", "1.0.0", StackLayer::Ml);
    node.metrics = ComponentMetrics::with_demo_score(m(65.0), QualityGrade::C);
    node.update_health();
    assert_eq!(node.health, HealthStatus::Red);
}

#[test]
fn health_follows_metrics_only_on_update() {
    let mut node = ComponentNode::new("test", "1.0.0", StackLayer::Ml);
    node.metrics = ComponentMetrics::with_demo_score(m(95.0), QualityGrade::A);
    assert_eq!(node.health, HealthStatus::Unknown);
    node.update_health();
    assert_eq!(node.health, HealthStatus::Green);
    node.metrics.grade = QualityGrade::F;
    assert_eq!(node.health, HealthStatus::Green);
}

#[test]
fn test_component_metrics_default() {
    let metrics = ComponentMetrics::default();
    assert_eq!(value(metrics.demo_score), 0.0);
    assert_eq!(value(metrics.coverage), 0.0);
    assert_eq!(metrics.satd_count, 0);
    assert_eq!(metrics.grade, QualityGrade::F);
    assert!(!metrics.meets_threshold());
}

#[test]
fn test_component_metrics_with_demo_score() {
    let metrics = ComponentMetrics::with_demo_score(m(90.0), QualityGrade::A);
    assert_eq!(value(metrics.demo_score), 90.0);
    assert!(metrics.meets_threshold());
}

#[test]
fn test_component_metrics_threshold() {
    assert!(ComponentMetrics::with_demo_score(m(85.0), QualityGrade::AMinus).meets_threshold());
    assert!(ComponentMetrics::with_demo_score(m(100.0), QualityGrade::APlus).meets_threshold());
    assert!(!ComponentMetrics::with_demo_score(m(84.9), QualityGrade::BPlus).meets_threshold());
    assert!(!ComponentMetrics::with_demo_score(m(f64::NAN), QualityGrade::F).meets_threshold());
    assert!(!ComponentMetrics::with_demo_score(m(-90.0), QualityGrade::F).meets_threshold());
}

fn scored(name: &str, score: f64) -> NamedScore {
    NamedScore { name: name.to_string(), score: m(score) }
}

#[test]
fn test_graph_metrics_top_by_pagerank() {
    let mut metrics = GraphMetrics::new();
    metrics.pagerank.push(scored("aprender", 0.15));
    metrics.pagerank.push(scored("trueno", 0.25));
    metrics.pagerank.push(scored("batuta", 0.10));

    let top = metrics.top_by_pagerank(2);
    assert_eq!(top.len(), 2);
    assert_eq!(top[0].name, "trueno");
    assert_eq!(top[1].name, "aprender");
    assert_eq!(value(top[0].score), 0.25);
}

#[test]
fn top_by_pagerank_keeps_order_of_equal_scores() {
    let mut metrics = GraphMetrics::new();
    metrics.pagerank.push(scored("a", 0.2));
    metrics.pagerank.push(scored("b", 0.5));
    metrics.pagerank.push(scored("c", 0.2));
    metrics.pagerank.push(scored("d", 0.5));
    let top = metrics.top_by_pagerank(10);
    let names: Vec<&str> = top.iter().map(|e| e.name.as_str()).collect();
    assert_eq!(names, vec!["b", "d", "a", "c"]);
}

#[test]
fn test_graph_metrics_bottlenecks() {
    let mut metrics = GraphMetrics::new();
    metrics.betweenness.push(scored("trueno", 0.8));
    metrics.betweenness.push(scored("aprender", 0.3));
    metrics.betweenness.push(scored("batuta", 0.1));

    let bottlenecks = metrics.bottlenecks(m(0.5));
    assert_eq!(bottlenecks.len(), 1);
    assert!(bottlenecks.contains(&"trueno".to_string()));
}

#[test]
fn test_graph_metrics_top_by_pagerank_empty() {
    let metrics = GraphMetrics::new();
    let top = metrics.top_by_pagerank(5);
    assert!(top.is_empty());
}

#[test]
fn test_graph_metrics_bottlenecks_empty() {
    let metrics = GraphMetrics::new();
    let bottlenecks = metrics.bottlenecks(m(0.5));
    assert!(bottlenecks.is_empty());
}

#[test]
fn test_stack_diagnostics_new() {
    let diag = StackDiagnostics::new();
    assert_eq!(diag.component_count(), 0);
    assert!(diag.graph().is_none());
    assert!(diag.anomalies().is_empty());
}

#[test]
fn test_stack_diagnostics_add_component() {
    let mut diag = StackDiagnostics::new();
    let node = ComponentNode::new("trueno", "0.7.4", StackLayer::Compute);
    diag.add_component(node);

    assert_eq!(diag.component_count(), 1);
    assert!(diag.get_component("trueno").is_some());
    assert!(diag.get_component("missing").is_none());
}

#[test]
fn add_component_replaces_by_name() {
    let mut diag = StackDiagnostics::new();
    diag.add_component(ComponentNode::new("a", "1.0", StackLayer::Compute));
    diag.add_component(ComponentNode::new("b", "1.0", StackLayer::Ml));
    diag.add_component(ComponentNode::new("a", "2.0", StackLayer::Quality));
    assert_eq!(diag.component_count(), 2);
    let a = diag.get_component("a").unwrap();
    assert_eq!(a.version, "2.0");
    assert_eq!(a.layer, StackLayer::Quality);
    let names: Vec<&str> = diag.components().iter().map(|c| c.name.as_str()).collect();
    assert_eq!(names, vec!["a", "b"]);
}

#[test]
fn set_graph_replaces_the_graph() {
    let mut diag = StackDiagnostics::new();
    let mut graph = DependencyGraph::new();
    graph.add_crate("a", vec!["b".to_string()]);
    diag.set_graph(graph);
    assert_eq!(diag.graph().unwrap().all_crates().len(), 1);
    diag.set_graph(DependencyGraph::new());
    assert_eq!(diag.graph().unwrap().all_crates().len(), 0);
}

#[test]
fn test_stack_diagnostics_health_summary_empty() {
    let diag = StackDiagnostics::new();
    let summary = diag.health_summary();

    assert_eq!(summary.total_components, 0);
    assert_eq!(summary.green_count, 0);
    assert_eq!(summary.andon_status, AndonStatus::Unknown);
}

#[test]
fn test_stack_diagnostics_health_summary_all_green() {
    let mut diag = StackDiagnostics::new();

    let mut node1 = ComponentNode::new("trueno", "0.7.4", StackLayer::Compute);
    node1.health = HealthStatus::Green;
    node1.metrics = ComponentMetrics::with_demo_score(m(95.0), QualityGrade::APlus);
    diag.add_component(node1);

    let mut node2 = ComponentNode::new("aprender", "0.9.0", StackLayer::Ml);
    node2.health = HealthStatus::Green;
    node2.metrics = ComponentMetrics::with_demo_score(m(92.0), QualityGrade::A);
    diag.add_component(node2);

    let summary = diag.health_summary();

    assert_eq!(summary.total_components, 2);
    assert_eq!(summary.green_count, 2);
    assert_eq!(summary.yellow_count, 0);
    assert_eq!(summary.red_count, 0);
    assert!(summary.all_healthy());
    assert_eq!(summary.andon_status, AndonStatus::Green);
}

#[test]
fn test_stack_diagnostics_health_summary_mixed() {
    let mut diag = StackDiagnostics::new();

    let mut node1 = ComponentNode::new("trueno", "0.7.4", StackLayer::Compute);
    node1.health = HealthStatus::Green;
    diag.add_component(node1);

    let mut node2 = ComponentNode::new("weak", "1.0.0", StackLayer::Ml);
    node2.health = HealthStatus::Red;
    diag.add_component(node2);

    let summary = diag.health_summary();

    assert_eq!(summary.green_count, 1);
    assert_eq!(summary.red_count, 1);
    assert!(!summary.all_healthy());
    assert_eq!(summary.andon_status, AndonStatus::Red);
}

#[test]
fn two_green_and_one_red_stop_the_line() {
    let mut diag = StackDiagnostics::new();
    for (name, health) in [("a", HealthStatus::Green), ("b", HealthStatus::Green), ("c", HealthStatus::Red)] {
        let mut node = ComponentNode::new(name, "1.0", StackLayer::Compute);
        node.health = health;
        diag.add_component(node);
    }
    let summary = diag.health_summary();
    assert_eq!(summary.andon_status, AndonStatus::Red);
    assert!(!summary.all_healthy());
    assert_eq!(summary.green_count, 2);
    assert_eq!(summary.red_count, 1);
    assert_eq!(summary.unknown_count, 0);
}

#[test]
fn yellow_without_red_is_yellow_and_unknown_is_unknown() {
    assert_eq!(AndonStatus::from_counts(3, 1, 0, 4), AndonStatus::Yellow);
    assert_eq!(AndonStatus::from_counts(3, 1, 1, 5), AndonStatus::Red);
    assert_eq!(AndonStatus::from_counts(3, 0, 0, 4), AndonStatus::Unknown);
    assert_eq!(AndonStatus::from_counts(0, 0, 0, 0), AndonStatus::Unknown);
    assert_eq!(AndonStatus::from_counts(4, 0, 0, 4), AndonStatus::Green);

    let mut diag = StackDiagnostics::new();
    let mut green = ComponentNode::new("g", "1", StackLayer::Ml);
    green.health = HealthStatus::Green;
    diag.add_component(green);
    diag.add_component(ComponentNode::new("u", "1", StackLayer::Ml));
    let summary = diag.health_summary();
    assert_eq!(summary.unknown_count, 1);
    assert_eq!(summary.andon_status, AndonStatus::Unknown);
}

#[test]
fn test_stack_diagnostics_add_anomaly() {
    let mut diag = StackDiagnostics::new();

    let anomaly = Anomaly::new("trueno-graph", m(0.75), AnomalyCategory::CoverageDrop, "Coverage dropped 5.2%")
        .with_evidence("lcov.info shows missing tests")
        .with_recommendation("Add tests for GPU BFS");

    diag.add_anomaly(anomaly);

    assert_eq!(diag.anomalies().len(), 1);
    assert_eq!(diag.anomalies()[0].component, "trueno-graph");
    assert!(!diag.anomalies()[0].is_critical());
}

#[test]
fn test_health_summary_percentage() {
    let summary = HealthSummary {
        total_components: 20,
        green_count: 17,
        yellow_count: 3,
        red_count: 0,
        unknown_count: 0,
        andon_status: AndonStatus::Yellow,
    };
    assert!(!summary.all_healthy());
}

#[test]
fn test_anomaly_creation() {
    let anomaly = Anomaly::new("test", m(0.65), AnomalyCategory::QualityRegression, "Score dropped");

    assert_eq!(anomaly.component, "test");
    assert_eq!(value(anomaly.score), 0.65);
    assert!(!anomaly.is_critical());
    assert!(anomaly.evidence.is_empty());
    assert!(anomaly.recommendation.is_none());
}

#[test]
fn test_anomaly_critical() {
    let critical = Anomaly::new("test", m(0.85), AnomalyCategory::DependencyRisk, "High risk");
    assert!(critical.is_critical());

    let non_critical = Anomaly::new("test", m(0.79), AnomalyCategory::Other, "Low risk");
    assert!(!non_critical.is_critical());

    let at_limit = Anomaly::new("test", m(0.8), AnomalyCategory::Other, "At the limit");
    assert!(!at_limit.is_critical());
}

#[test]
fn test_anomaly_with_details() {
    let anomaly = Anomaly::new("test", m(0.7), AnomalyCategory::BuildTimeSpike, "Build slow")
        .with_evidence("Time increased 40%")
        .with_evidence("New macro expansion")
        .with_recommendation("Enable incremental compilation");

    assert_eq!(anomaly.evidence.len(), 2);
    assert_eq!(anomaly.evidence[0], "Time increased 40%");
    assert_eq!(anomaly.evidence[1], "New macro expansion");
    assert!(anomaly.recommendation.is_some());
    assert_eq!(anomaly.recommendation.unwrap(), "Enable incremental compilation");
}
