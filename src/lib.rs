//! Ranks the files of a source tree by how much knowledge they hold: how much
//! other code depends on them and how costly they are to understand.
//!
//! The pipeline: `exports` reads exported names and import references out of
//! each file's text; `dependencies` links them by name into a file graph and
//! scores files and directories by importance; `metrics` classifies lines and
//! counts the ingredients of cyclomatic, cognitive and Halstead complexity.
//! `config`, `traversal` and `filter` describe which files take part.
pub mod text;
pub mod numbers;
pub mod paths;
pub mod patterns;
pub mod config;
pub mod traversal;
pub mod filter;
pub mod exports;
pub mod dependencies;
pub mod metrics;
