//! The shared state of a line-oriented, multi-room chat server: the registry of
//! display names, the registry of rooms, and the per-connection session that
//! reacts to client lines and room broadcasts.
//!
//! Every operation is a plain, sequential step on a value the caller owns. A
//! server shares the registries between connections by putting them behind
//! locks of its own; each method here is then one critical section.

pub mod channel;
pub mod command;
pub mod names;
pub mod naming;
pub mod notices;
pub mod rooms;
pub mod session;
pub mod summary;
pub mod text;

pub use crate::naming::random_name;
