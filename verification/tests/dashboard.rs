use stack_diagnostics::anomaly::{Anomaly, AnomalyCategory};
use stack_diagnostics::dashboard::{render_board, render_dashboard, DashboardFigures};
use stack_diagnostics::health::{AndonStatus, HealthStatus, QualityGrade, StackLayer};
use stack_diagnostics::measure::Measure;
use stack_diagnostics::registry::{ComponentMetrics, ComponentNode, HealthSummary, StackDiagnostics};
use stack_diagnostics::text::{blank, decimal, join_spaced, pad_end, pad_start, repeat_text, same_text};

fn m(x: f64) -> Measure {
    Measure::from_bits(x.to_bits())
}

fn figures(healthy: f64, warning: f64, critical: f64, demo: f64, coverage: f64) -> DashboardFigures {
    DashboardFigures {
        healthy_pct: format!("{:.0}", healthy),
        warning_pct: format!("{:.0}", warning),
        critical_pct: format!("{:.0}", critical),
        avg_demo_score: format!("{:.1}", demo),
        avg_coverage: format!("{:.1}", coverage),
    }
}

#[test]
fn test_render_dashboard_empty() {
    let diag = StackDiagnostics::new();
    let output = render_dashboard(&diag, &figures(0.0, 0.0, 0.0, 0.0, 0.0));

    assert!(output.contains("SOVEREIGN AI STACK"));
    assert!(output.contains("ANDON STATUS"));
    assert!(output.contains("Total Components"));
    assert!(!output.contains("ANOMALIES DETECTED"));
}

#[test]
fn test_render_dashboard_with_components() {
    let mut diag = StackDiagnostics::new();

    let mut node = ComponentNode::new("trueno", "0.7.4", StackLayer::Compute);
    node.health = HealthStatus::Green;
    node.metrics = ComponentMetrics::with_demo_score(m(92.0), QualityGrade::A);
    diag.add_component(node);

    let output = render_dashboard(&diag, &figures(100.0, 0.0, 0.0, 92.0, 0.0));

    assert!(output.contains("Total Components:      1"));
    assert!(output.contains("Healthy:               1"));
    assert!(output.contains("Healthy:               1 (100%)"));
    assert!(output.contains("Average Demo Score:  92.0/100"));
    assert!(output.contains("All systems healthy"));
}

#[test]
fn test_render_dashboard_with_anomalies() {
    let mut diag = StackDiagnostics::new();

    diag.add_anomaly(Anomaly::new("trueno-graph", m(0.75), AnomalyCategory::CoverageDrop, "Coverage dropped"));

    let output = render_dashboard(&diag, &figures(0.0, 0.0, 0.0, 0.0, 0.0));
    assert!(output.contains("ANOMALIES DETECTED"));
    assert!(output.contains("trueno-graph"));
}

fn reference_board(summary: &HealthSummary, stamp: &str, f: &DashboardFigures, anomalies: &[Anomaly]) -> String {
    let mut output = String::new();
    output.push_str("┌─────────────────────────────────────────────────────────────────────────┐\n");
    output.push_str("│                  SOVEREIGN AI STACK HEALTH DASHBOARD                    │\n");
    output.push_str(&format!("│                  Timestamp: {:40} │\n", stamp));
    output.push_str("├─────────────────────────────────────────────────────────────────────────┤\n");
    output.push_str("│                                                                         │\n");
    output.push_str(&format!("│  ANDON STATUS: {} {:55}│\n", summary.andon_status.display(), ""));
    output.push_str("│                                                                         │\n");
    output.push_str("│  ═══════════════════════════════════════════════════════════════════   │\n");
    output.push_str("│  STACK SUMMARY                                                          │\n");
    output.push_str("│  ═══════════════════════════════════════════════════════════════════   │\n");
    output.push_str("│                                                                         │\n");
    output.push_str(&format!("│  Total Components:    {:3}                                              │\n", summary.total_components));
    output.push_str(&format!("│  Healthy:             {:3} ({}%)                                         │\n", summary.green_count, f.healthy_pct));
    output.push_str(&format!("│  Warnings:            {:3} ({}%)                                         │\n", summary.yellow_count, f.warning_pct));
    output.push_str(&format!("│  Critical:            {:3} ({}%)                                         │\n", summary.red_count, f.critical_pct));
    output.push_str(&format!("│  Average Demo Score:  {}/100                                          │\n", f.avg_demo_score));
    output.push_str(&format!("│  Average Coverage:    {}%                                             │\n", f.avg_coverage));
    output.push_str("│                                                                         │\n");
    if !anomalies.is_empty() {
        output.push_str("│  ═══════════════════════════════════════════════════════════════════   │\n");
        output.push_str("│  ANOMALIES DETECTED                                                     │\n");
        output.push_str("│  ═══════════════════════════════════════════════════════════════════   │\n");
        output.push_str("│                                                                         │\n");
        for anomaly in anomalies.iter().take(5) {
            let icon = if anomaly.is_critical() { "🔴" } else { "⚠️" };
            output.push_str(&format!("│  {}  {}: {}                               │\n", icon, anomaly.component, anomaly.description));
        }
        output.push_str("│                                                                         │\n");
    }
    output.push_str("└─────────────────────────────────────────────────────────────────────────┘\n");
    output
}

#[test]
fn the_board_is_laid_out_line_by_line() {
    let f = figures(85.4, 14.6, 0.5, 85.04, 90.96);
    let anomalies: Vec<Anomaly> = (0..7)
        .map(|i| Anomaly::new(&format!("comp{}", i), m(0.75 + 0.02 * i as f64), AnomalyCategory::Other, &format!("desc {}", i)))
        .collect();
    for status in [AndonStatus::Green, AndonStatus::Yellow, AndonStatus::Red, AndonStatus::Unknown] {
        for count in [0usize, 1, 4, 5, 7] {
            let summary = HealthSummary {
                total_components: 1234,
                green_count: 17,
                yellow_count: 3,
                red_count: 0,
                unknown_count: 1214,
                andon_status: status,
            };
            let stamp = "2026-01-02 03:04:05";
            let board = render_board(&summary, stamp, &f, &anomalies[..count].to_vec());
            assert_eq!(board, reference_board(&summary, stamp, &f, &anomalies[..count]));
            assert_eq!(board.matches("comp").count(), count.min(5));
        }
    }
    let long_stamp = "a stamp that is wider than the forty columns it is given";
    let summary = HealthSummary {
        total_components: 0,
        green_count: 0,
        yellow_count: 0,
        red_count: 0,
        unknown_count: 0,
        andon_status: AndonStatus::Unknown,
    };
    assert_eq!(render_board(&summary, long_stamp, &f, &Vec::new()), reference_board(&summary, long_stamp, &f, &[]));
}

#[test]
fn the_dashboard_carries_the_current_time() {
    let diag = StackDiagnostics::new();
    let output = render_dashboard(&diag, &figures(0.0, 0.0, 0.0, 0.0, 0.0));
    let line = output.lines().find(|l| l.contains("Timestamp: ")).unwrap();
    let stamp = line.split("Timestamp: ").nth(1).unwrap();
    let digits = stamp.chars().filter(|c| c.is_ascii_digit()).count();
    assert!(digits >= 14, "{}", line);
    assert!(stamp.contains('-') && stamp.contains(':'));
    let summary = diag.health_summary();
    let stamp_text: String = stamp.chars().take(19).collect();
    assert_eq!(output, render_board(&summary, &stamp_text, &figures(0.0, 0.0, 0.0, 0.0, 0.0), &Vec::new()));
}

#[test]
fn numerals_and_padding() {
    for n in [0u64, 1, 9, 10, 11, 99, 100, 101, 12345, 1_000_000_007, u64::MAX] {
        assert_eq!(decimal(n), n.to_string());
    }
    for text in ["", "a", "abc", "abcd", "✓✓", "🎉"] {
        for width in [0usize, 1, 2, 3, 4, 10] {
            assert_eq!(pad_start(text, width), format!("{:>w$}", text, w = width));
            assert_eq!(pad_end(text, width), format!("{:<w$}", text, w = width));
        }
    }
    assert_eq!(blank(0), "");
    assert_eq!(blank(3), "   ");
    assert_eq!(repeat_text("ab", 3), "ababab");
    assert_eq!(repeat_text("ab", 0), "");
    assert_eq!(join_spaced(&Vec::new()), "");
    assert_eq!(join_spaced(&vec!["a".to_string()]), "a");
    assert_eq!(join_spaced(&vec!["a".to_string(), "".to_string(), "c".to_string()]), "a  c");
    assert!(same_text("héllo", "héllo"));
    assert!(!same_text("héllo", "hello"));
    assert!(!same_text("a", "ab"));
    assert!(same_text("", ""));
}
