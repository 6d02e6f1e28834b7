use stack_diagnostics::anomaly::{
    categorize_anomaly, describe_anomaly, detect_anomalies, recommend_action, AnomalyCategory, Observation,
};
use stack_diagnostics::forecast::{ErrorForecaster, ForecastMetrics};
use stack_diagnostics::forest::{
    depth_limit, draw_sample, leaf_without_split, split_rows, IsolationForest, IsolationTree,
};
use stack_diagnostics::health::StackLayer;
use stack_diagnostics::measure::Measure;
use stack_diagnostics::registry::{ComponentNode, StackDiagnostics};
use stack_diagnostics::rng::SimpleRng;

fn m(x: f64) -> Measure {
    Measure::from_bits(x.to_bits())
}

fn value(x: Measure) -> f64 {
    f64::from_bits(x.to_bits())
}

fn features(values: &[f64]) -> Vec<Measure> {
    values.iter().map(|&v| m(v)).collect()
}

fn observation(values: [f64; 6], score: f64) -> Observation {
    Observation {
        features: features(&values),
        feature_texts: values.iter().map(|v| format!("{:.1}", v)).collect(),
        score: m(score),
        score_text: format!("{:.3}", score),
    }
}

#[test]
fn test_isolation_forest_new() {
    let forest = IsolationForest::new(10, 32, 42);
    assert_eq!(forest.n_trees(), 10);
    assert_eq!(forest.sample_size(), 32);
    assert_eq!(forest.seed(), 42);
    assert!(forest.trees().is_empty());
}

#[test]
fn test_isolation_forest_default() {
    let forest = IsolationForest::default_forest();
    assert_eq!(forest.n_trees(), 100);
    assert_eq!(forest.sample_size(), 256);
    assert_eq!(forest.seed(), 42);
}

#[test]
fn test_isolation_forest_with_feature_names() {
    let forest = IsolationForest::new(10, 32, 42).with_feature_names(vec!["demo_score".into(), "coverage".into()]);
    assert_eq!(forest.feature_names().len(), 2);
    assert_eq!(forest.n_trees(), 10);
}

#[test]
fn test_isolation_forest_score_empty() {
    let forest = IsolationForest::new(10, 32, 42);
    let scores = forest.trivial_scores(1).unwrap();
    assert_eq!(scores.iter().map(|s| value(*s)).collect::<Vec<f64>>(), vec![0.0]);
}

#[test]
fn scores_are_zero_without_trees_or_points() {
    let mut forest = IsolationForest::new(10, 32, 42);
    assert_eq!(forest.trivial_scores(0).unwrap().len(), 0);
    assert_eq!(forest.trivial_scores(7).unwrap().len(), 7);
    assert!(forest.trivial_scores(7).unwrap().iter().all(|s| s.to_bits() == 0));
    forest.set_trees(vec![IsolationTree::leaf(3)]);
    assert_eq!(forest.trees().len(), 1);
    assert_eq!(forest.trivial_scores(0).unwrap().len(), 0);
    assert!(forest.trivial_scores(7).is_none());
}

#[test]
fn test_isolation_forest_predict() {
    let forest = IsolationForest::new(10, 32, 42);
    let scores = vec![m(0.4), m(0.6), m(0.5)];
    let predictions = forest.predict(&scores, m(0.5));
    assert_eq!(predictions.len(), 3);
    assert_eq!(predictions, vec![false, true, false]);
    assert_eq!(forest.predict(&scores, m(0.0)), vec![true, true, true]);
    assert_eq!(forest.predict(&scores, m(1.0)), vec![false, false, false]);
}

#[test]
fn depth_limit_is_the_ceiling_of_the_binary_logarithm() {
    let wanted = [(0, 0), (1, 0), (2, 1), (3, 2), (4, 2), (5, 3), (8, 3), (9, 4), (32, 5), (64, 6), (256, 8), (257, 9)];
    for (n, d) in wanted {
        assert_eq!(depth_limit(n), d, "depth limit of {}", n);
    }
    assert_eq!(depth_limit(usize::MAX), usize::BITS as usize);
    for n in 0..5000usize {
        assert_eq!(depth_limit(n), (n as f64).log2().ceil() as usize, "depth limit of {}", n);
    }
}

#[test]
fn samples_are_drawn_with_replacement_from_the_seed() {
    let forest = IsolationForest::new(3, 4, 42);
    let mut a = forest.start_rng();
    let mut b = SimpleRng::seed_from_u64(42);
    let first = draw_sample(&mut a, 10, 4);
    let wanted: Vec<usize> = (0..4).map(|_| b.gen_range(0, 10)).collect();
    assert_eq!(first, wanted);
    assert_eq!(a.state, b.state);
    assert_eq!(draw_sample(&mut a, 3, 8).len(), 3);
    assert_eq!(draw_sample(&mut a, 3, 0).len(), 0);
    let mut c = forest.start_rng();
    assert_eq!(draw_sample(&mut c, 10, 4), first);
}

#[test]
fn rows_part_at_the_split_value() {
    let rows = vec![features(&[1.0, 9.0]), features(&[5.0]), features(&[3.0, 2.0]), features(&[f64::NAN, 1.0]), features(&[])];
    assert_eq!(split_rows(&rows, 0, m(4.0)), (vec![0, 2], vec![1, 3, 4]));
    assert_eq!(split_rows(&rows, 1, m(5.0)), (vec![2, 3], vec![0, 1, 4]));
    assert_eq!(split_rows(&rows, 7, m(5.0)), (vec![], vec![0, 1, 2, 3, 4]));
}

#[test]
fn a_point_is_followed_to_its_leaf() {
    let tree = IsolationTree::node(
        0,
        m(50.0),
        IsolationTree::leaf(1),
        IsolationTree::node(1, m(10.0), IsolationTree::leaf(4), IsolationTree::leaf(2)),
    );
    assert_eq!(tree.locate(&features(&[10.0, 5.0]), 0), (1, 1));
    assert_eq!(tree.locate(&features(&[90.0, 5.0]), 0), (2, 4));
    assert_eq!(tree.locate(&features(&[90.0, 10.0]), 0), (2, 2));
    assert_eq!(tree.locate(&features(&[50.0]), 3), (5, 4));
    assert_eq!(tree.locate(&features(&[]), 0), (1, 1));
    assert_eq!(IsolationTree::leaf(9).locate(&features(&[1.0]), 4), (4, 9));
}

#[test]
fn test_isolation_forest_detect_anomalies_empty() {
    let anomalies = detect_anomalies(&Vec::new(), &Vec::new(), m(0.5));
    assert!(anomalies.is_empty());
}

#[test]
fn test_isolation_forest_detect_anomalies() {
    let mut components = Vec::new();
    let mut observations = Vec::new();
    for i in 0..5 {
        components.push(ComponentNode::new(&format!("healthy{}", i), "1.0", StackLayer::Compute));
        observations.push(observation([90.0 + i as f64, 85.0 + i as f64, 80.0, 5.0, 2.0, 1.0], 0.2 + 0.04 * i as f64));
    }
    components.push(ComponentNode::new("anomalous", "1.0", StackLayer::Ml));
    observations.push(observation([30.0, 20.0, 10.0, 25.0, 50.0, 30.0], 0.9));

    let anomalies = detect_anomalies(&components, &observations, m(0.3));
    assert!(anomalies.len() <= 6);
    let names: Vec<&str> = anomalies.iter().map(|a| a.component.as_str()).collect();
    assert_eq!(names, vec!["anomalous", "healthy4", "healthy3"]);

    let worst = &anomalies[0];
    assert_eq!(value(worst.score), 0.9);
    assert!(worst.is_critical());
    assert_eq!(worst.category, AnomalyCategory::QualityRegression);
    assert_eq!(worst.description, "Quality score 30.0 is significantly below healthy threshold");
    assert_eq!(worst.evidence, vec!["Isolation score: 0.900", "Demo score: 30.0", "Coverage: 20.0%"]);
    assert_eq!(worst.recommendation.as_deref(), Some("Add tests to improve coverage above 80%"));

    let mild = &anomalies[1];
    assert_eq!(mild.category, AnomalyCategory::Other);
    assert_eq!(mild.description, "Unusual metric combination detected");
    assert_eq!(mild.recommendation.as_deref(), Some("Review component metrics for unusual patterns"));
    assert_eq!(mild.evidence[1], "Demo score: 94.0");
}

#[test]
fn detection_orders_by_score_and_keeps_ties_in_place() {
    let names = ["a", "b", "c", "d", "e"];
    let scores = [0.7, 0.9, 0.7, f64::NAN, 0.1];
    let components: Vec<ComponentNode> = names.iter().map(|n| ComponentNode::new(n, "1", StackLayer::Ml)).collect();
    let observations: Vec<Observation> = scores.iter().map(|&s| observation([90.0, 90.0, 85.0, 5.0, 2.0, 1.0], s)).collect();
    let found: Vec<String> =
        detect_anomalies(&components, &observations, m(0.5)).into_iter().map(|a| a.component).collect();
    assert_eq!(found, vec!["b", "a", "c"]);
    assert!(detect_anomalies(&components, &observations, m(f64::NAN)).is_empty());
    assert!(detect_anomalies(&components, &observations, m(0.9)).is_empty());
}

#[test]
fn test_isolation_forest_categorize_anomaly() {
    let cat1 = categorize_anomaly(&features(&[50.0, 80.0, 75.0, 5.0, 2.0, 1.0]));
    assert_eq!(cat1, AnomalyCategory::QualityRegression);

    let cat2 = categorize_anomaly(&features(&[80.0, 40.0, 75.0, 5.0, 2.0, 1.0]));
    assert_eq!(cat2, AnomalyCategory::CoverageDrop);

    let cat3 = categorize_anomaly(&features(&[80.0, 80.0, 75.0, 20.0, 2.0, 1.0]));
    assert_eq!(cat3, AnomalyCategory::ComplexityIncrease);

    let cat4 = categorize_anomaly(&features(&[80.0, 80.0, 75.0, 5.0, 2.0, 15.0]));
    assert_eq!(cat4, AnomalyCategory::DependencyRisk);

    let cat5 = categorize_anomaly(&features(&[90.0, 90.0, 85.0, 5.0, 2.0, 1.0]));
    assert_eq!(cat5, AnomalyCategory::Other);
}

#[test]
fn classification_tries_its_rules_in_order() {
    assert_eq!(categorize_anomaly(&features(&[10.0, 10.0, 0.0, 99.0, 0.0, 99.0])), AnomalyCategory::QualityRegression);
    assert_eq!(categorize_anomaly(&features(&[70.0, 10.0, 0.0, 99.0, 0.0, 99.0])), AnomalyCategory::CoverageDrop);
    assert_eq!(categorize_anomaly(&features(&[70.0, 50.0, 0.0, 99.0, 0.0, 99.0])), AnomalyCategory::ComplexityIncrease);
    assert_eq!(categorize_anomaly(&features(&[70.0, 50.0, 0.0, 15.0, 0.0, 99.0])), AnomalyCategory::DependencyRisk);
    assert_eq!(categorize_anomaly(&features(&[70.0, 50.0, 0.0, 15.0, 0.0, 10.0])), AnomalyCategory::Other);
    assert_eq!(categorize_anomaly(&features(&[10.0, 10.0, 0.0, 99.0, 0.0])), AnomalyCategory::Other);
    assert_eq!(categorize_anomaly(&features(&[])), AnomalyCategory::Other);
}

#[test]
fn descriptions_and_recommendations_follow_the_category() {
    assert_eq!(describe_anomaly(AnomalyCategory::CoverageDrop, "41.5"), "Test coverage 41.5% is dangerously low");
    assert_eq!(
        describe_anomaly(AnomalyCategory::ComplexityIncrease, "20.0"),
        "Average complexity 20.0 indicates maintainability risk"
    );
    assert_eq!(
        describe_anomaly(AnomalyCategory::DependencyRisk, "15.0"),
        "Dead code 15.0% suggests technical debt accumulation"
    );
    assert_eq!(describe_anomaly(AnomalyCategory::BuildTimeSpike, "1.0"), "Unusual metric combination detected");
    let low = features(&[50.0, 79.9]);
    let high = features(&[50.0, 80.0]);
    assert_eq!(recommend_action(AnomalyCategory::QualityRegression, &low), "Add tests to improve coverage above 80%");
    assert_eq!(
        recommend_action(AnomalyCategory::QualityRegression, &high),
        "Review recent changes for quality regressions"
    );
    assert_eq!(
        recommend_action(AnomalyCategory::CoverageDrop, &low),
        "Run `cargo tarpaulin` and add tests for uncovered paths"
    );
    assert_eq!(
        recommend_action(AnomalyCategory::ComplexityIncrease, &low),
        "Consider refactoring complex functions (>10 cyclomatic complexity)"
    );
    assert_eq!(
        recommend_action(AnomalyCategory::DependencyRisk, &low),
        "Run `cargo udeps` to identify and remove dead code"
    );
    assert_eq!(recommend_action(AnomalyCategory::Other, &Vec::new()), "Review component metrics for unusual patterns");
}

#[test]
fn test_error_forecaster_new() {
    let forecaster = ErrorForecaster::new(m(0.5));
    assert_eq!(value(forecaster.alpha()), 0.5);
    assert!(forecaster.history().is_empty());
}

#[test]
fn test_error_forecaster_alpha_clamp() {
    let f1 = ErrorForecaster::new(m(-0.5));
    assert_eq!(value(f1.alpha()), 0.0);

    let f2 = ErrorForecaster::new(m(1.5));
    assert_eq!(value(f2.alpha()), 1.0);

    assert_eq!(value(ErrorForecaster::new(m(0.0)).alpha()), 0.0);
    assert_eq!(value(ErrorForecaster::new(m(1.0)).alpha()), 1.0);
    assert_eq!(value(ErrorForecaster::new(m(f64::INFINITY)).alpha()), 1.0);
    assert_eq!(value(ErrorForecaster::new(m(f64::NEG_INFINITY)).alpha()), 0.0);
    assert!(value(ErrorForecaster::new(m(f64::NAN)).alpha()).is_nan());
}

#[test]
fn test_error_forecaster_default() {
    let forecaster = ErrorForecaster::default_forecaster();
    assert_eq!(value(forecaster.alpha()), 0.3);
}

fn observe(forecaster: &mut ErrorForecaster, v: f64) {
    let alpha = value(forecaster.alpha());
    let level = value(forecaster.current_level());
    forecaster.observe(m(v), m(alpha * v + (1.0 - alpha) * level));
}

#[test]
fn test_error_forecaster_observe() {
    let mut forecaster = ErrorForecaster::new(m(0.5));
    observe(&mut forecaster, 100.0);
    assert_eq!(value(forecaster.current_level()), 100.0);
    assert_eq!(forecaster.history().len(), 1);

    observe(&mut forecaster, 80.0);
    assert_eq!(value(forecaster.current_level()), 90.0);
    assert_eq!(forecaster.history().len(), 2);
}

#[test]
fn the_first_observation_is_the_level_whatever_was_smoothed() {
    let mut forecaster = ErrorForecaster::new(m(0.5));
    forecaster.observe(m(100.0), m(-7.0));
    assert_eq!(value(forecaster.current_level()), 100.0);
    forecaster.observe(m(80.0), m(90.0));
    assert_eq!(value(forecaster.current_level()), 90.0);
    let history: Vec<f64> = forecaster.history().iter().map(|v| value(*v)).collect();
    assert_eq!(history, vec![100.0, 80.0]);
}

#[test]
fn test_error_forecaster_forecast() {
    let mut forecaster = ErrorForecaster::new(m(0.3));
    observe(&mut forecaster, 100.0);
    observe(&mut forecaster, 90.0);
    observe(&mut forecaster, 85.0);

    let forecast = forecaster.forecast(5);
    assert_eq!(forecast.len(), 5);
    let level = forecaster.current_level();
    for f in &forecast {
        assert_eq!(f.to_bits(), level.to_bits());
    }
    assert!(forecaster.forecast(0).is_empty());
}

#[test]
fn test_error_forecaster_error_metrics_empty() {
    let forecaster = ErrorForecaster::new(m(0.3));
    let metrics = forecaster.trivial_metrics().unwrap();
    assert_eq!(value(metrics.mae), 0.0);
    assert_eq!(value(metrics.mse), 0.0);
    assert_eq!(value(metrics.rmse), 0.0);
}

#[test]
fn test_error_forecaster_error_metrics_single() {
    let mut forecaster = ErrorForecaster::new(m(0.3));
    observe(&mut forecaster, 100.0);
    let metrics = forecaster.trivial_metrics().unwrap();
    assert_eq!(value(metrics.mae), 0.0);
    observe(&mut forecaster, 110.0);
    assert!(forecaster.trivial_metrics().is_none());
}

#[test]
fn percentage_error_needs_observations_clear_of_zero() {
    let mut forecaster = ErrorForecaster::new(m(0.5));
    assert!(forecaster.percentage_defined());
    observe(&mut forecaster, 0.0);
    assert!(forecaster.percentage_defined());
    observe(&mut forecaster, 110.0);
    observe(&mut forecaster, -3.0);
    assert!(forecaster.percentage_defined());
    observe(&mut forecaster, f64::EPSILON);
    assert!(!forecaster.percentage_defined());

    for &bad in &[0.0, -0.0, 1e-17, -1e-17, f64::NAN] {
        let mut f = ErrorForecaster::new(m(0.5));
        observe(&mut f, 5.0);
        observe(&mut f, bad);
        assert!(!f.percentage_defined(), "{}", bad);
    }
    let mut f = ErrorForecaster::new(m(0.5));
    observe(&mut f, 5.0);
    observe(&mut f, 2.0 * f64::EPSILON);
    observe(&mut f, f64::NEG_INFINITY);
    assert!(f.percentage_defined());
}

#[test]
fn test_forecast_metrics_default() {
    let metrics = ForecastMetrics::default();
    assert_eq!(value(metrics.mae), 0.0);
    assert_eq!(value(metrics.mse), 0.0);
    assert_eq!(value(metrics.rmse), 0.0);
    assert_eq!(value(metrics.mape), 0.0);
}

#[test]
fn test_error_forecaster_exponential_smoothing() {
    let mut forecaster = ErrorForecaster::new(m(0.3));
    observe(&mut forecaster, 100.0);
    observe(&mut forecaster, 130.0);
    observe(&mut forecaster, 100.0);

    let level = value(forecaster.current_level());
    assert!((level - 106.3).abs() < 0.01);
}

#[test]
fn the_forest_reports_the_components_of_the_engine() {
    let forest = IsolationForest::default_forest();
    let mut diag = StackDiagnostics::new();
    assert!(forest.detect_anomalies(&diag, &Vec::new(), m(0.5)).is_empty());
    diag.add_component(ComponentNode::new("calm", "1.0", StackLayer::Compute));
    diag.add_component(ComponentNode::new("odd", "1.0", StackLayer::Ml));
    let observations =
        vec![observation([90.0, 90.0, 85.0, 5.0, 2.0, 1.0], 0.4), observation([80.0, 30.0, 85.0, 5.0, 2.0, 1.0], 0.7)];
    let found = forest.detect_anomalies(&diag, &observations, m(0.5));
    assert_eq!(found.len(), 1);
    assert_eq!(found[0].component, "odd");
    assert_eq!(found[0].category, AnomalyCategory::CoverageDrop);
    assert_eq!(found[0].description, "Test coverage 30.0% is dangerously low");
    assert!(!found[0].is_critical());
}

#[test]
fn leaves_are_decided_before_values_are_read() {
    let rows = vec![features(&[1.0, 2.0]), features(&[3.0, 4.0]), features(&[5.0, 6.0])];
    assert_eq!(leaf_without_split(&rows, 3), None);
    assert_eq!(leaf_without_split(&rows, 0), Some(3));
    assert_eq!(leaf_without_split(&rows[..1].to_vec(), 3), Some(1));
    assert_eq!(leaf_without_split(&Vec::new(), 3), Some(0));
    assert_eq!(leaf_without_split(&Vec::new(), 0), Some(0));
    let bare = vec![features(&[]), features(&[1.0])];
    assert_eq!(leaf_without_split(&bare, 3), Some(2));
    let tree = IsolationTree::node(0, m(1.0), IsolationTree::leaf(1), IsolationTree::node(0, m(2.0), IsolationTree::leaf(1), IsolationTree::leaf(1)));
    assert!(tree.fits(2) && tree.fits(usize::MAX));
    assert!(!tree.fits(1) && !tree.fits(0));
    assert!(IsolationTree::leaf(5).fits(0));
}
