//! Challenge instance orchestrator for a capture-the-flag platform.
//!
//! Users request short-lived, per-challenge container environments, reach
//! them over generated subdomains, and submit a flag to prove completion.
//! The crate covers the provisioning provider (turning a container
//! specification into a coherent set of correlated cluster resources with
//! idempotent creation and compensating cleanup), the instance lifecycle
//! controller (deploy / submit / delete against the relational store, the
//! key-value index and the provider, with partial-failure rollback), and the
//! shared resource-naming and link-generation rules.

#![verifier::loop_isolation(false)]

pub mod cluster;
pub mod controllers;
pub mod errors;
pub mod forms;
pub mod jwt;
pub mod kubernetes;
pub mod lifecycle;
pub mod managements;
pub mod models;
pub mod providers;
pub mod utils;
