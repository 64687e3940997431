//! The telemetry snapshot: what the publisher puts on the wire each tick.
//!
//! The session engine never looks inside the metric blobs; they are opaque
//! strings produced by the external collector. Only the identity and the
//! capture timestamp matter to the protocol.

use vstd::prelude::*;

use crate::strings_view;

verus! {

/// One point-in-time report: agent identity, capture time, an opaque host
/// metrics blob, and an ordered list of opaque per-unit metric blobs.
#[derive(Debug, Clone)]
pub struct TelemetrySnapshot {
    pub agent_id: String,
    pub captured_at: u64,
    pub system: String,
    pub units: Vec<String>,
}

/// Mathematical model of a `TelemetrySnapshot`.
pub struct TelemetrySnapshotView {
    pub agent_id: Seq<char>,
    pub captured_at: u64,
    pub system: Seq<char>,
    pub units: Seq<Seq<char>>,
}

impl View for TelemetrySnapshot {
    type V = TelemetrySnapshotView;

    open spec fn view(&self) -> TelemetrySnapshotView {
        TelemetrySnapshotView {
            agent_id: self.agent_id@,
            captured_at: self.captured_at,
            system: self.system@,
            units: strings_view(self.units@),
        }
    }
}

/// The byte count read from a decimal kilobyte field: the value scaled by
/// 1024, or zero where the field is not a number or the product does not
/// fit.
pub open spec fn spec_kb_field_bytes(s: Seq<char>) -> u64 {
    if s.len() > 0 && crate::codec::all_digits(s) && crate::codec::dec_val(s) * 1024
        <= u64::MAX {
        (crate::codec::dec_val(s) * 1024) as u64
    } else {
        0
    }
}

/// Reads one kilobyte count as reported by the disk-usage query and scales
/// it to bytes; a missing or malformed field counts as zero.
pub fn kb_field_bytes(field: &str) -> (r: u64)
    ensures
        r == spec_kb_field_bytes(field@),
{
    match crate::codec::parse_u64_dec(field) {
        Some(k) => {
            if k <= u64::MAX / 1024 {
                k * 1024
            } else {
                0
            }
        },
        None => 0,
    }
}

} // verus!
