//! Diagnostics for a stack of interdependent software components: a component
//! registry with Andon-style health, dependency-graph structure, anomaly
//! classification and report layout, together with the tooling that surrounds
//! it (operation conversion tables, text chunking, publish status).
//!
//! Measurements are carried as the encodings of doubles and are only ever
//! compared here; see [`measure`]. Whatever needs arithmetic on them is left
//! to the caller, who hands the results in.

pub mod anomaly;
pub mod chunker;
pub mod config;
pub mod dashboard;
pub mod depth;
pub mod forecast;
pub mod forest;
pub mod graph;
pub mod health;
pub mod measure;
pub mod numpy_converter;
pub mod paths;
pub mod publish_status;
pub mod ranking;
pub mod registry;
pub mod repo_text;
pub mod rng;
pub mod shortest;
pub mod text;
