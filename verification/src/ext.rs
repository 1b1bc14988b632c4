//! What the library takes from outside crates, and what it takes them to do.

pub mod headers;
pub mod maps;
pub mod queue;
pub mod random;
pub mod watch;
