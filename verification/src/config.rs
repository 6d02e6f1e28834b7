//! Project configuration: the settings of a conversion project and their
//! defaults.

use vstd::prelude::*;
use vstd::string::*;
use crate::text::texts;

verus! {

/// The text of an optional string.
pub open spec fn optional_text(text: Option<String>) -> Option<Seq<char>> {
    match text {
        Some(t) => Some(t@),
        None => None,
    }
}

/// Project metadata.
#[derive(Debug, Clone)]
pub struct ProjectConfig {
    /// Name of the project.
    pub name: String,
    /// Description.
    pub description: Option<String>,
    /// Primary language of the source project.
    pub primary_language: Option<String>,
    /// Authors.
    pub authors: Vec<String>,
    /// License.
    pub license: Option<String>,
}

impl ProjectConfig {
    /// Whether these are the defaults: an untitled project under the MIT
    /// license, nothing else known.
    pub open spec fn is_default(self) -> bool {
        &&& self.name@ == "untitled"@
        &&& self.description is None
        &&& self.primary_language is None
        &&& self.authors@.len() == 0
        &&& optional_text(self.license) == Some("MIT"@)
    }
}

impl Default for ProjectConfig {
    fn default() -> (config: Self)
        ensures
            config.is_default(),
    {
        ProjectConfig {
            name: String::from_str("untitled"),
            description: None,
            primary_language: None,
            authors: Vec::new(),
            license: Some(String::from_str("MIT")),
        }
    }
}

/// Where the source lies and what of it counts.
#[derive(Debug, Clone)]
pub struct SourceConfig {
    /// Source directory, relative to the configuration file.
    pub path: String,
    /// Files and directories to leave out.
    pub exclude: Vec<String>,
    /// Files and directories to take in, whatever is left out.
    pub include_paths: Vec<String>,
}

/// What is left out of the source by default.
pub open spec fn default_excludes() -> Seq<Seq<char>> {
    seq![
        ".git"@,
        "target"@,
        "build"@,
        "dist"@,
        "node_modules"@,
        "__pycache__"@,
        "*.pyc"@,
        ".venv"@,
        "venv"@,
    ]
}

impl SourceConfig {
    /// Whether these are the defaults: the current directory, without the
    /// usual build and cache directories.
    pub open spec fn is_default(self) -> bool {
        &&& self.path@ == "."@
        &&& texts(self.exclude@) == default_excludes()
        &&& self.include_paths@.len() == 0
    }
}

impl Default for SourceConfig {
    fn default() -> (config: Self)
        ensures
            config.is_default(),
    {
        let mut exclude: Vec<String> = Vec::new();
        exclude.push(String::from_str(".git"));
        exclude.push(String::from_str("target"));
        exclude.push(String::from_str("build"));
        exclude.push(String::from_str("dist"));
        exclude.push(String::from_str("node_modules"));
        exclude.push(String::from_str("__pycache__"));
        exclude.push(String::from_str("*.pyc"));
        exclude.push(String::from_str(".venv"));
        exclude.push(String::from_str("venv"));
        assert(texts(exclude@) =~= default_excludes());
        SourceConfig { path: String::from_str("."), exclude, include_paths: Vec::new() }
    }
}

/// Settings of the C transpiler.
#[derive(Debug, Clone, Copy)]
pub struct DecyConfig {
    /// Infer ownership.
    pub ownership_inference: bool,
    /// Produce actionable diagnostics.
    pub actionable_diagnostics: bool,
    /// Use the static fixer.
    pub use_static_fixer: bool,
}

impl Default for DecyConfig {
    /// Everything switched on.
    fn default() -> (config: Self)
        ensures
            config.ownership_inference,
            config.actionable_diagnostics,
            config.use_static_fixer,
    {
        DecyConfig { ownership_inference: true, actionable_diagnostics: true, use_static_fixer: true }
    }
}

/// Settings of the Python transpiler.
#[derive(Debug, Clone, Copy)]
pub struct DepylerConfig {
    /// Infer types.
    pub type_inference: bool,
    /// Convert NumPy to Trueno.
    pub numpy_to_trueno: bool,
    /// Convert sklearn to Aprender.
    pub sklearn_to_aprender: bool,
    /// Convert PyTorch to Realizar.
    pub pytorch_to_realizar: bool,
}

impl Default for DepylerConfig {
    /// Everything switched on.
    fn default() -> (config: Self)
        ensures
            config.type_inference,
            config.numpy_to_trueno,
            config.sklearn_to_aprender,
            config.pytorch_to_realizar,
    {
        DepylerConfig {
            type_inference: true,
            numpy_to_trueno: true,
            sklearn_to_aprender: true,
            pytorch_to_realizar: true,
        }
    }
}

/// Settings of the shell transpiler.
#[derive(Debug, Clone)]
pub struct BashrsConfig {
    /// Shell to stay compatible with.
    pub target_shell: String,
    /// Generate the command line with clap.
    pub use_clap: bool,
}

impl Default for BashrsConfig {
    /// Bash, with clap.
    fn default() -> (config: Self)
        ensures
            config.target_shell@ == "bash"@,
            config.use_clap,
    {
        BashrsConfig { target_shell: String::from_str("bash"), use_clap: true }
    }
}

/// Transpilation settings.
#[derive(Debug, Clone)]
pub struct TranspilationConfig {
    /// Output directory of the generated code.
    pub output_dir: String,
    /// Compile incrementally.
    pub incremental: bool,
    /// Cache results.
    pub cache: bool,
    /// Generate Ruchy instead of Rust.
    pub use_ruchy: bool,
    /// Strictness of Ruchy.
    pub ruchy_strictness: Option<String>,
    /// Modules to transpile; all when empty.
    pub modules: Vec<String>,
    /// Settings of the C transpiler.
    pub decy: DecyConfig,
    /// Settings of the Python transpiler.
    pub depyler: DepylerConfig,
    /// Settings of the shell transpiler.
    pub bashrs: BashrsConfig,
}

impl TranspilationConfig {
    /// Whether these are the defaults.
    pub open spec fn is_default(self) -> bool {
        &&& self.output_dir@ == "./rust-output"@
        &&& self.incremental
        &&& self.cache
        &&& !self.use_ruchy
        &&& optional_text(self.ruchy_strictness) == Some("gradual"@)
        &&& self.modules@.len() == 0
        &&& self.decy.ownership_inference && self.decy.actionable_diagnostics && self.decy.use_static_fixer
        &&& self.depyler.type_inference && self.depyler.numpy_to_trueno && self.depyler.sklearn_to_aprender
            && self.depyler.pytorch_to_realizar
        &&& self.bashrs.target_shell@ == "bash"@ && self.bashrs.use_clap
    }
}

impl Default for TranspilationConfig {
    fn default() -> (config: Self)
        ensures
            config.is_default(),
    {
        TranspilationConfig {
            output_dir: String::from_str("./rust-output"),
            incremental: true,
            cache: true,
            use_ruchy: false,
            ruchy_strictness: Some(String::from_str("gradual")),
            modules: Vec::new(),
            decy: DecyConfig::default(),
            depyler: DepylerConfig::default(),
            bashrs: BashrsConfig::default(),
        }
    }
}

/// Backend preferences.
#[derive(Debug, Clone)]
pub struct TruenoConfig {
    /// Preferred backends, the first preferred most.
    pub backends: Vec<String>,
    /// Learn thresholds adaptively.
    pub adaptive_thresholds: bool,
    /// Initial threshold of the CPU backend.
    pub cpu_threshold: usize,
}

impl TruenoConfig {
    /// Whether these are the defaults: SIMD before CPU, fixed thresholds,
    /// 500 for the CPU.
    pub open spec fn is_default(self) -> bool {
        &&& texts(self.backends@) == seq!["simd"@, "cpu"@]
        &&& !self.adaptive_thresholds
        &&& self.cpu_threshold == 500
    }
}

impl Default for TruenoConfig {
    fn default() -> (config: Self)
        ensures
            config.is_default(),
    {
        let mut backends: Vec<String> = Vec::new();
        backends.push(String::from_str("simd"));
        backends.push(String::from_str("cpu"));
        assert(texts(backends@) =~= seq!["simd"@, "cpu"@]);
        TruenoConfig { backends, adaptive_thresholds: false, cpu_threshold: 500 }
    }
}

/// Optimization settings.
#[derive(Debug, Clone)]
pub struct OptimizationConfig {
    /// Profile: fast, balanced or aggressive.
    pub profile: String,
    /// Vectorize with SIMD.
    pub enable_simd: bool,
    /// Use the GPU.
    pub enable_gpu: bool,
    /// Matrix size from which the GPU is used.
    pub gpu_threshold: usize,
    /// Route by a mixture of experts.
    pub use_moe_routing: bool,
    /// Backend preferences.
    pub trueno: TruenoConfig,
}

impl OptimizationConfig {
    /// Whether these are the defaults: balanced, SIMD without GPU.
    pub open spec fn is_default(self) -> bool {
        &&& self.profile@ == "balanced"@
        &&& self.enable_simd
        &&& !self.enable_gpu
        &&& self.gpu_threshold == 500
        &&& !self.use_moe_routing
        &&& self.trueno.is_default()
    }
}

impl Default for OptimizationConfig {
    fn default() -> (config: Self)
        ensures
            config.is_default(),
    {
        OptimizationConfig {
            profile: String::from_str("balanced"),
            enable_simd: true,
            enable_gpu: false,
            gpu_threshold: 500,
            use_moe_routing: false,
            trueno: TruenoConfig::default(),
        }
    }
}

/// Settings of the system call tracer.
#[derive(Debug, Clone)]
pub struct RenacerConfig {
    /// System calls to trace; all when empty.
    pub trace_syscalls: Vec<String>,
    /// Output format.
    pub output_format: String,
}

impl Default for RenacerConfig {
    /// Every system call, as JSON.
    fn default() -> (config: Self)
        ensures
            config.trace_syscalls@.len() == 0,
            config.output_format@ == "json"@,
    {
        RenacerConfig { trace_syscalls: Vec::new(), output_format: String::from_str("json") }
    }
}

/// Validation settings.
#[derive(Debug, Clone)]
pub struct ValidationConfig {
    /// Trace system calls.
    pub trace_syscalls: bool,
    /// Run the test suite that the source project brings along.
    pub run_original_tests: bool,
    /// Show differences.
    pub diff_output: bool,
    /// Run benchmarks.
    pub benchmark: bool,
    /// Settings of the tracer.
    pub renacer: RenacerConfig,
}

impl ValidationConfig {
    /// Whether these are the defaults: everything but benchmarks.
    pub open spec fn is_default(self) -> bool {
        &&& self.trace_syscalls
        &&& self.run_original_tests
        &&& self.diff_output
        &&& !self.benchmark
        &&& self.renacer.trace_syscalls@.len() == 0
        &&& self.renacer.output_format@ == "json"@
    }
}

impl Default for ValidationConfig {
    fn default() -> (config: Self)
        ensures
            config.is_default(),
    {
        ValidationConfig {
            trace_syscalls: true,
            run_original_tests: true,
            diff_output: true,
            benchmark: false,
            renacer: RenacerConfig::default(),
        }
    }
}

/// Build settings.
#[derive(Debug, Clone)]
pub struct BuildConfig {
    /// Build in release mode.
    pub release: bool,
    /// Target platform; native when absent.
    pub target: Option<String>,
    /// Build for WebAssembly.
    pub wasm: bool,
    /// More flags for cargo.
    pub cargo_flags: Vec<String>,
}

impl BuildConfig {
    /// Whether these are the defaults: a native release build.
    pub open spec fn is_default(self) -> bool {
        &&& self.release
        &&& self.target is None
        &&& !self.wasm
        &&& self.cargo_flags@.len() == 0
    }
}

impl Default for BuildConfig {
    fn default() -> (config: Self)
        ensures
            config.is_default(),
    {
        BuildConfig { release: true, target: None, wasm: false, cargo_flags: Vec::new() }
    }
}

/// What an analysis found of a project, as far as the configuration reads
/// it.
#[derive(Debug, Clone)]
pub struct ProjectAnalysis {
    /// Last component of the root path, if it has one.
    pub root_name: Option<String>,
    /// Primary language, by name.
    pub primary_language: Option<String>,
    /// Whether the project depends on machine-learning libraries.
    pub has_ml_dependencies: bool,
}

/// Configuration of a project.
#[derive(Debug, Clone)]
pub struct BatutaConfig {
    /// Version of the configuration format.
    pub version: String,
    /// Project metadata.
    pub project: ProjectConfig,
    /// Source settings.
    pub source: SourceConfig,
    /// Transpilation settings.
    pub transpilation: TranspilationConfig,
    /// Optimization settings.
    pub optimization: OptimizationConfig,
    /// Validation settings.
    pub validation: ValidationConfig,
    /// Build settings.
    pub build: BuildConfig,
}

impl BatutaConfig {
    /// Whether everything but the project metadata is at its default.
    pub open spec fn rest_is_default(self) -> bool {
        &&& self.version@ == "1.0"@
        &&& self.source.is_default()
        &&& self.transpilation.is_default()
        &&& self.optimization.is_default()
        &&& self.validation.is_default()
        &&& self.build.is_default()
    }

    /// Whether this is the default configuration.
    pub open spec fn is_default(self) -> bool {
        self.rest_is_default() && self.project.is_default()
    }

    /// The name of a project whose analysis gave `root_name`.
    pub open spec fn name_for(root_name: Option<String>) -> Seq<char> {
        match root_name {
            Some(name) => name@,
            None => "untitled"@,
        }
    }

    /// The configuration of an analysed project: the defaults, with the
    /// name of the root directory as the project name, if it has one, and
    /// with the primary language that was found.
    pub fn from_analysis(analysis: &ProjectAnalysis) -> (config: Self)
        ensures
            config.rest_is_default(),
            config.project.name@ == Self::name_for(analysis.root_name),
            optional_text(config.project.primary_language) == optional_text(analysis.primary_language),
            config.project.description is None,
            config.project.authors@.len() == 0,
            optional_text(config.project.license) == Some("MIT"@),
    {
        let mut config = BatutaConfig::default();
        match &analysis.root_name {
            Some(name) => {
                config.project.name = name.clone();
            },
            None => {},
        }
        match &analysis.primary_language {
            Some(language) => {
                config.project.primary_language = Some(language.clone());
            },
            None => {},
        }
        if analysis.has_ml_dependencies {
            config.transpilation.depyler.numpy_to_trueno = true;
            config.transpilation.depyler.sklearn_to_aprender = true;
            config.transpilation.depyler.pytorch_to_realizar = true;
        }
        config
    }
}

impl Default for BatutaConfig {
    fn default() -> (config: Self)
        ensures
            config.is_default(),
    {
        BatutaConfig {
            version: String::from_str("1.0"),
            project: ProjectConfig::default(),
            source: SourceConfig::default(),
            transpilation: TranspilationConfig::default(),
            optimization: OptimizationConfig::default(),
            validation: ValidationConfig::default(),
            build: BuildConfig::default(),
        }
    }
}

} // verus!
