//! Client-side building blocks of an xDS gRPC channel: picking endpoints, balancing requests over
//! them, ejecting those that fail, retrying what could not be delivered, and tracking whether a
//! channel is connected.

pub mod channel_state;
pub mod cluster;
pub mod endpoint;
pub mod ext;
pub mod greeter;
pub mod key;
pub mod lb;
pub mod loadbalance;
pub mod metric;
pub mod number;
pub mod retry;
pub mod sampling;
mod sequences;
pub mod status;
