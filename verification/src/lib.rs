//! Execution core of an aggregate-computing runtime.
//!
//! Each device of a collective runs the same program once per round against
//! a snapshot of what its neighbours emitted last round.  This crate holds
//! the virtual machine that makes such a program well-defined: alignment
//! paths that give every dynamic invocation a stable coordinate, fields of
//! neighbour values, a typed per-path store that survives across rounds,
//! the message views that enter and leave a round, and the aggregate
//! primitives themselves.

pub mod aggregate;
pub mod alignment;
pub mod field;
pub mod inbound;
pub mod json;
pub mod kv;
pub mod laws;
pub mod le;
pub mod network;
pub mod outbound;
pub mod path;
pub mod serializer;
pub mod state;
pub mod text;
pub mod valuetree;
