use stack_diagnostics::numpy_converter::{NumPyConverter, NumPyOp, OpComplexity};

#[test]
fn test_converter_creation() {
    let converter = NumPyConverter::new();
    assert!(!converter.available_ops().is_empty());
}

#[test]
fn test_operation_complexity() {
    assert_eq!(NumPyOp::Add.complexity(), OpComplexity::Low);
    assert_eq!(NumPyOp::Sum.complexity(), OpComplexity::Medium);
    assert_eq!(NumPyOp::Dot.complexity(), OpComplexity::High);
}

#[test]
fn every_operation_has_its_complexity() {
    for op in [NumPyOp::Add, NumPyOp::Subtract, NumPyOp::Multiply, NumPyOp::Divide] {
        assert_eq!(op.complexity(), OpComplexity::Low);
    }
    for op in [NumPyOp::Sum, NumPyOp::Mean, NumPyOp::Max, NumPyOp::Min] {
        assert_eq!(op.complexity(), OpComplexity::Medium);
    }
    for op in [NumPyOp::Array, NumPyOp::Reshape, NumPyOp::Transpose] {
        assert_eq!(op.complexity(), OpComplexity::Low);
    }
}

#[test]
fn test_add_conversion() {
    let converter = NumPyConverter::new();
    let trueno_op = converter.convert(&NumPyOp::Add).unwrap();
    assert!(trueno_op.code_template.contains("add"));
    assert!(trueno_op.imports.iter().any(|i| i.contains("Vector")));
}

#[test]
fn the_table_converts_six_operations() {
    let converter = NumPyConverter::default();
    assert_eq!(
        converter.available_ops(),
        vec![NumPyOp::Array, NumPyOp::Add, NumPyOp::Subtract, NumPyOp::Multiply, NumPyOp::Sum, NumPyOp::Dot]
    );
    let wanted = [
        (NumPyOp::Array, "Vector::from_slice(&[{values}])", OpComplexity::Low),
        (NumPyOp::Add, "{lhs}.add(&{rhs}).unwrap()", OpComplexity::Low),
        (NumPyOp::Subtract, "{lhs}.sub(&{rhs}).unwrap()", OpComplexity::Low),
        (NumPyOp::Multiply, "{lhs}.mul(&{rhs}).unwrap()", OpComplexity::Low),
        (NumPyOp::Sum, "{array}.sum()", OpComplexity::Medium),
        (NumPyOp::Dot, "{lhs}.dot(&{rhs}).unwrap()", OpComplexity::High),
    ];
    for (op, template, complexity) in wanted {
        let target = converter.convert(&op).unwrap();
        assert_eq!(target.code_template, template);
        assert_eq!(target.imports, vec!["use trueno::Vector;"]);
        assert_eq!(target.complexity, complexity);
    }
    for op in [NumPyOp::Divide, NumPyOp::Mean, NumPyOp::Max, NumPyOp::Min, NumPyOp::Reshape, NumPyOp::Transpose] {
        assert!(converter.convert(&op).is_none());
    }
}

#[test]
fn test_conversion_report() {
    let converter = NumPyConverter::new();
    let report = converter.conversion_report();
    assert!(report.contains("NumPy → Trueno"));
    assert!(report.contains("Add"));
    assert!(report.contains("Complexity"));
}

#[test]
fn the_report_lists_each_conversion() {
    let report = NumPyConverter::new().conversion_report();
    assert!(report.starts_with("NumPy → Trueno Conversion Map\n================================\n\n"));
    assert!(report.contains(
        "Add:\n  Complexity: Low\n  Template: {lhs}.add(&{rhs}).unwrap()\n  Imports: use trueno::Vector;\n\n"
    ));
    assert!(report.ends_with(
        "Dot:\n  Complexity: High\n  Template: {lhs}.dot(&{rhs}).unwrap()\n  Imports: use trueno::Vector;\n\n"
    ));
    assert_eq!(report.matches("  Template: ").count(), 6);
    assert_eq!(NumPyOp::Transpose.name(), "Transpose");
    assert_eq!(OpComplexity::Medium.name(), "Medium");
}
