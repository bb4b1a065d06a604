//! A minimal blockchain virtual machine: a linear chain of timestamped,
//! opaque-payload blocks, managed on behalf of an external consensus engine
//! that decides block finality.
//!
//! The crate holds the block lifecycle logic: building candidate blocks from
//! pending payloads, validating structural chain consistency, and committing
//! or discarding blocks once the engine decides their finality. Transport and
//! process plumbing live outside the library.

pub mod api;
pub mod block;
pub mod errors;
pub mod ids;
pub mod state;
pub mod vm;
