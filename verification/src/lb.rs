//! Balancing over endpoints that are discovered in batches.

pub mod balancer;
pub mod discover;
pub mod service;
