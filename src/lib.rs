//! Lints `.env` files and reconciles their keys against other env files and against keys
//! found in infrastructure manifests.
//!
//! - `parser`: the `.env` parser, and the keys that infrastructure sources name.
//! - `rules`: the single-file rule engine.
//! - `reconcile`: env-to-env comparison and env-to-infrastructure reconciliation.
//! - `fix`: the canonical rewrite of a `.env` text.
//! - `output`, `config`, `error`: output formats, settings and errors.
pub mod config;
pub mod error;
pub mod fix;
pub mod output;
pub mod parser;
pub mod reconcile;
pub mod rules;
pub mod text;
