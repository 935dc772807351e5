//! Verified core of a monitor for oracle reports.
//!
//! The monitor polls a node over JSON-RPC: it fetches the members of an oracle set, searches the chain for the latest
//! report of each, and serves what it found as metrics. This crate decides what to ask the node, reads its replies, keeps
//! the state, and writes what the endpoints answer. Requests are sent, and endpoints are served, by the program around it.
//!
//! The modules whose names end in `laws` state what the functions mean: in terms of what goes in and what comes out, and
//! for whole searches and polls.
pub mod abi;
pub mod abi_laws;
pub mod clock;
pub mod clock_laws;
pub mod config;
pub mod config_laws;
pub mod endpoint_laws;
pub mod endpoints;
pub mod hex;
pub mod hex_laws;
pub mod json;
pub mod poll;
pub mod poll_laws;
pub mod rpc;
pub mod rpc_laws;
pub mod scan;
pub mod scan_laws;
pub mod scan_step_laws;
pub mod state;
pub mod state_laws;
pub mod table;
pub mod text;
pub mod text_laws;
