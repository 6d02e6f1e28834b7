use stack_diagnostics::config::{
    BashrsConfig, BatutaConfig, BuildConfig, DecyConfig, DepylerConfig, OptimizationConfig, ProjectAnalysis,
    ProjectConfig, RenacerConfig, SourceConfig, TranspilationConfig, TruenoConfig, ValidationConfig,
};

#[test]
fn defaults_are_as_documented() {
    let config = BatutaConfig::default();
    assert_eq!(config.version, "1.0");

    let project = ProjectConfig::default();
    assert_eq!(project.name, "untitled");
    assert_eq!(project.description, None);
    assert_eq!(project.primary_language, None);
    assert!(project.authors.is_empty());
    assert_eq!(project.license.as_deref(), Some("MIT"));

    let source = SourceConfig::default();
    assert_eq!(source.path, ".");
    assert_eq!(
        source.exclude,
        vec![".git", "target", "build", "dist", "node_modules", "__pycache__", "*.pyc", ".venv", "venv"]
    );
    assert!(source.include_paths.is_empty());

    let transpilation = TranspilationConfig::default();
    assert_eq!(transpilation.output_dir, "./rust-output");
    assert!(transpilation.incremental && transpilation.cache && !transpilation.use_ruchy);
    assert_eq!(transpilation.ruchy_strictness.as_deref(), Some("gradual"));
    assert!(transpilation.modules.is_empty());

    let decy = DecyConfig::default();
    assert!(decy.ownership_inference && decy.actionable_diagnostics && decy.use_static_fixer);
    let depyler = DepylerConfig::default();
    assert!(depyler.type_inference && depyler.numpy_to_trueno && depyler.sklearn_to_aprender && depyler.pytorch_to_realizar);
    let bashrs = BashrsConfig::default();
    assert_eq!(bashrs.target_shell, "bash");
    assert!(bashrs.use_clap);

    let optimization = OptimizationConfig::default();
    assert_eq!(optimization.profile, "balanced");
    assert!(optimization.enable_simd && !optimization.enable_gpu && !optimization.use_moe_routing);
    assert_eq!(optimization.gpu_threshold, 500);
    let trueno = TruenoConfig::default();
    assert_eq!(trueno.backends, vec!["simd", "cpu"]);
    assert!(!trueno.adaptive_thresholds);
    assert_eq!(trueno.cpu_threshold, 500);

    let validation = ValidationConfig::default();
    assert!(validation.trace_syscalls && validation.run_original_tests && validation.diff_output);
    assert!(!validation.benchmark);
    let renacer = RenacerConfig::default();
    assert!(renacer.trace_syscalls.is_empty());
    assert_eq!(renacer.output_format, "json");

    let build = BuildConfig::default();
    assert!(build.release && !build.wasm);
    assert_eq!(build.target, None);
    assert!(build.cargo_flags.is_empty());
}

#[test]
fn analysis_sets_name_and_language() {
    let analysis = ProjectAnalysis {
        root_name: Some("my-project".to_string()),
        primary_language: Some("Python".to_string()),
        has_ml_dependencies: true,
    };
    let config = BatutaConfig::from_analysis(&analysis);
    assert_eq!(config.project.name, "my-project");
    assert_eq!(config.project.primary_language.as_deref(), Some("Python"));
    assert_eq!(config.project.license.as_deref(), Some("MIT"));
    assert!(config.transpilation.depyler.numpy_to_trueno);
    assert!(config.transpilation.depyler.sklearn_to_aprender);
    assert!(config.transpilation.depyler.pytorch_to_realizar);
    assert_eq!(config.version, "1.0");
    assert_eq!(config.optimization.gpu_threshold, 500);

    let bare = ProjectAnalysis { root_name: None, primary_language: None, has_ml_dependencies: false };
    let config = BatutaConfig::from_analysis(&bare);
    assert_eq!(config.project.name, "untitled");
    assert_eq!(config.project.primary_language, None);
    assert!(config.transpilation.depyler.numpy_to_trueno);
}
