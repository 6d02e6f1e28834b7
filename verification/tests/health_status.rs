use stack_diagnostics::anomaly::AnomalyCategory;
use stack_diagnostics::health::{AndonStatus, HealthStatus, QualityGrade};

#[test]
fn test_health_status_from_grade_green() {
    assert_eq!(HealthStatus::from_grade(QualityGrade::APlus), HealthStatus::Green);
    assert_eq!(HealthStatus::from_grade(QualityGrade::A), HealthStatus::Green);
}

#[test]
fn test_health_status_from_grade_yellow() {
    assert_eq!(HealthStatus::from_grade(QualityGrade::AMinus), HealthStatus::Yellow);
    assert_eq!(HealthStatus::from_grade(QualityGrade::BPlus), HealthStatus::Yellow);
}

#[test]
fn test_health_status_from_grade_red() {
    assert_eq!(HealthStatus::from_grade(QualityGrade::B), HealthStatus::Red);
    assert_eq!(HealthStatus::from_grade(QualityGrade::C), HealthStatus::Red);
    assert_eq!(HealthStatus::from_grade(QualityGrade::F), HealthStatus::Red);
}

#[test]
fn test_health_status_icons() {
    assert_eq!(HealthStatus::Green.icon(), "🟢");
    assert_eq!(HealthStatus::Yellow.icon(), "🟡");
    assert_eq!(HealthStatus::Red.icon(), "🔴");
    assert_eq!(HealthStatus::Unknown.icon(), "⚪");
}

#[test]
fn test_health_status_symbols() {
    assert_eq!(HealthStatus::Green.symbol(), "●");
    assert_eq!(HealthStatus::Yellow.symbol(), "◐");
    assert_eq!(HealthStatus::Red.symbol(), "○");
    assert_eq!(HealthStatus::Unknown.symbol(), "◌");
}

#[test]
fn test_anomaly_category_display() {
    assert_eq!(format!("{}", AnomalyCategory::QualityRegression.label()), "Quality Regression");
    assert_eq!(format!("{}", AnomalyCategory::CoverageDrop.label()), "Coverage Drop");
    assert_eq!(format!("{}", AnomalyCategory::BuildTimeSpike.label()), "Build Time Spike");
}

#[test]
fn test_andon_status_messages() {
    assert_eq!(AndonStatus::Green.message(), "All systems healthy");
    assert_eq!(AndonStatus::Yellow.message(), "Attention needed");
    assert_eq!(AndonStatus::Red.message(), "Stop-the-line");
    assert_eq!(AndonStatus::Unknown.message(), "Analysis pending");
}

#[test]
fn test_andon_status_display() {
    let green = AndonStatus::Green.display();
    assert!(green.contains("🟢"));
    assert!(green.contains("healthy"));
}
