//! Routing of samples through a forest of binary decision trees stored in one
//! flat array of nodes.
//!
//! The forest is a sequence of [`node::Node`]s cut into trees by an ascending
//! table of offsets. Every workload is built from one primitive, the walk of a
//! sample from the root of a tree to a leaf ([`resolve::find_leaf`]). The
//! library works on integers only: a real number enters as its ordinal
//! ([`ordinal`]), and the caller, who keeps the real payloads of the nodes,
//! finds them again by the positions that the library returns.

pub mod attribution;
pub mod conservation;
pub mod error;
pub mod forest;
pub mod laws;
pub mod layout;
pub mod matrix;
pub mod node;
pub mod ordinal;
pub mod pool;
pub mod resolve;
pub mod scoring;
pub mod transpose;
