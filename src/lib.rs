//! Picks, for each domain of an optimization target, the fastest reachable
//! address among those that DNS-over-HTTPS resolvers return, and rewrites the
//! target's block in the hosts override file.
//!
//! The network and file work is done by the caller; this crate holds the
//! decisions: which resolver to ask next, how latencies are averaged and the
//! winner chosen, when a run counts as a success, and how the file's lines
//! are rewritten.

pub mod models;
pub mod catalog;
pub mod hosts_file;
pub mod resolve;
pub mod probe;
pub mod governor;
