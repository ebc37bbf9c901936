//! Identity and capability-composition layer for a cluster of nodes.
//!
//! The crate declares the capability contract that a pluggable node
//! identifier type must satisfy, composes that contract out of an essential
//! core and optional serialization fragments selected when the crate is
//! built, and defines a node metadata record with a canonical, deterministic
//! textual rendering.

pub mod config;
pub mod node;
pub mod testing;

pub use config::TypeConfig;
pub use node::Node;
pub use node::NodeId;
pub use node::NodeIdEssential;
