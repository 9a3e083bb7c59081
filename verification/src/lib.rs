//! Verified core of a Buildkite-to-Kubernetes job spawner.
//!
//! The library holds the decisions: how Buildkite's answers become builds and
//! jobs, which agent configuration runs a job, how the Kubernetes job
//! description is prepared, which jobs are retired, and how the configuration
//! of the program and of the Kubernetes client is resolved.

pub mod headers;
pub mod jobifier;
pub mod k8s;
pub mod monitor;
pub mod outside;
pub mod scheduler;
pub mod settings;
pub mod text;
