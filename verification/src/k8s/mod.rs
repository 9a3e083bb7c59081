//! The Kubernetes side: the errors of the API and the client's configuration.
pub mod client;
pub mod config;
