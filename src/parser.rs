//! Parsers for `.env` files, and the keys that infrastructure sources name.
pub mod ansible;
pub mod argocd;
pub mod env;
pub mod github_actions;
pub mod helm;
pub mod k8s;
pub mod terraform;
pub mod yaml;

pub use env::{EnvFile, EnvVar};
pub use k8s::{K8sEnvRef, K8sManifest, K8sRefSource};
