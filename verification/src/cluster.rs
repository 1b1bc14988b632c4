//! Picking, balancing and outlier detection inside one cluster.

pub mod classify;
pub mod client;
pub mod ejection;
pub mod loadbalance;
pub mod outlier;
pub mod picker;
