//! Quilt on Subleq, and Subleq on Quilt.
//!
//! - `subleq`: the one-instruction machine and its step/run semantics.
//! - `quilt_as_subleq`: Quilt opcodes emitted as Subleq programs.
//! - `block`, `scaling`: typed pointers (memory, cell, port) and their resolution.
//! - `cell`, `port`: cells that run Subleq, sheets of cells, remote port registries.
//! - `store`: a keyed table used for cells, ports, tick counts and the port registry.
//! - `text`: decimal rendering of integers used in messages.

pub mod text;
pub mod subleq;
pub mod quilt_as_subleq;
pub mod store;
pub mod block;
pub mod scaling;
pub mod cell;
pub mod port;
