//! Balancing over endpoints that are connected to as they are discovered.

pub mod errors;
pub mod loadbalancer;
pub mod p2c;
