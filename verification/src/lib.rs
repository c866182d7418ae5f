//! A worker node for a sharded inference-serving fleet.
//!
//! The node owns a set of slices of a shared hash space, assigned to it by a
//! central partitioner. It serves only the client requests whose subject falls
//! into an owned slice, rejecting the rest, and it supervises one local
//! inference subprocess per owned subject category.
//!
//! This crate holds the verified core: the slice-assignment store, the
//! session-lifecycle decisions, the routing of client requests, and the
//! newline-delimited JSON wire codecs. The sockets, subprocesses and threads
//! that surround that core live in the accompanying binary, which drives the
//! functions here with plain values.

pub mod control;
pub mod face;
pub mod hashspace;
pub mod json;
pub mod manager;
pub mod message;
pub mod route;
pub mod shared;
pub mod slices;
pub mod translate;
