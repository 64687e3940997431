//! Host-agent session protocol engine.
//!
//! The library models the duplex session between a host agent and a remote
//! collector: the wire codec for telemetry snapshots and command envelopes,
//! the per-command status state machine with its kind/target validity table,
//! the outbound multiplexer that serializes two frame streams onto one
//! transport, and the session controller that owns the connection lifecycle
//! and the local fallback mode. Everything here is pure decision logic;
//! the surrounding process performs the I/O and feeds events in.

pub mod command;
pub mod codec;
pub mod telemetry;
pub mod session;
pub mod mux;
pub mod render;
pub mod docker;

use vstd::prelude::*;

verus! {

/// The model of a string list: each string by its view.
pub open spec fn strings_view(v: Seq<String>) -> Seq<Seq<char>> {
    Seq::new(v.len(), |i: int| v[i]@)
}

/// Whether a string list holds a given string.
pub open spec fn contains_id(ids: Seq<Seq<char>>, id: Seq<char>) -> bool {
    exists|i: int| 0 <= i < ids.len() && ids[i] == id
}

} // verus!
