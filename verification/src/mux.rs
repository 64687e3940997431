//! The outbound multiplexer: the sole writer of the transport.
//!
//! Two bounded queues feed it, one per outbound stream (telemetry frames,
//! command-response frames). Offering to a full queue is refused, so
//! producers wait instead of growing memory without bound. Within one
//! stream frames leave in arrival order; across the two streams there is no
//! priority: when both hold a frame the writer alternates.

use vstd::prelude::*;

verus! {

/// The two bounded input queues of the single transport writer.
#[derive(Debug)]
pub struct OutboundMux {
    pub telemetry_queue: Vec<String>,
    pub response_queue: Vec<String>,
    pub capacity: usize,
    pub prefer_response: bool,
}

/// Whether the next pop takes from the response queue.
pub open spec fn takes_response(m: OutboundMux) -> bool {
    m.response_queue@.len() > 0 && (m.telemetry_queue@.len() == 0 || m.prefer_response)
}

impl OutboundMux {
    /// Both queues stay within the configured bound.
    pub open spec fn wf(self) -> bool {
        &&& self.capacity >= 1
        &&& self.telemetry_queue@.len() <= self.capacity
        &&& self.response_queue@.len() <= self.capacity
    }

    /// An empty multiplexer with the given queue bound.
    pub fn new(capacity: usize) -> (m: OutboundMux)
        requires
            capacity >= 1,
        ensures
            m.wf(),
            m.telemetry_queue@.len() == 0,
            m.response_queue@.len() == 0,
            m.capacity == capacity,
    {
        OutboundMux {
            telemetry_queue: Vec::new(),
            response_queue: Vec::new(),
            capacity,
            prefer_response: false,
        }
    }

    /// Offers a telemetry frame. Refused exactly when that stream's queue is
    /// full; an accepted frame goes to the back of its queue.
    pub fn offer_telemetry(&mut self, frame: String) -> (accepted: bool)
        requires
            old(self).wf(),
        ensures
            final (self).wf(),
            accepted == (old(self).telemetry_queue@.len() < old(self).capacity),
            accepted ==> final (self).telemetry_queue@ == old(self).telemetry_queue@.push(
                frame,
            ),
            !accepted ==> final (self).telemetry_queue@ == old(self).telemetry_queue@,
            final (self).response_queue@ == old(self).response_queue@,
            final (self).capacity == old(self).capacity,
            final (self).prefer_response == old(self).prefer_response,
    {
        if self.telemetry_queue.len() < self.capacity {
            self.telemetry_queue.push(frame);
            true
        } else {
            false
        }
    }

    /// Offers a command-response frame. Refused exactly when that stream's
    /// queue is full; an accepted frame goes to the back of its queue.
    pub fn offer_response(&mut self, frame: String) -> (accepted: bool)
        requires
            old(self).wf(),
        ensures
            final (self).wf(),
            accepted == (old(self).response_queue@.len() < old(self).capacity),
            accepted ==> final (self).response_queue@ == old(self).response_queue@.push(frame),
            !accepted ==> final (self).response_queue@ == old(self).response_queue@,
            final (self).telemetry_queue@ == old(self).telemetry_queue@,
            final (self).capacity == old(self).capacity,
            final (self).prefer_response == old(self).prefer_response,
    {
        if self.response_queue.len() < self.capacity {
            self.response_queue.push(frame);
            true
        } else {
            false
        }
    }

    /// Takes the next frame to write: the head of a nonempty queue, in
    /// arrival order within each stream, alternating between the streams
    /// when both are ready. `None` exactly when both queues are empty.
    pub fn pop_next(&mut self) -> (r: Option<String>)
        requires
            old(self).wf(),
        ensures
            final (self).wf(),
            final (self).capacity == old(self).capacity,
            (r is None) == (old(self).telemetry_queue@.len() == 0 && old(
                self,
            ).response_queue@.len() == 0),
            r is None ==> *final (self) == *old(self),
            takes_response(*old(self)) ==> (r matches Some(f) && f == old(
                self,
            ).response_queue@[0] && final (self).response_queue@ == old(
                self,
            ).response_queue@.skip(1) && final (self).telemetry_queue@ == old(
                self,
            ).telemetry_queue@),
            !takes_response(*old(self)) && old(self).telemetry_queue@.len() > 0 ==> (r matches Some(
                f,
            ) && f == old(self).telemetry_queue@[0] && final (self).telemetry_queue@ == old(
                self,
            ).telemetry_queue@.skip(1) && final (self).response_queue@ == old(
                self,
            ).response_queue@),
            r is Some ==> final (self).prefer_response == (if old(self).telemetry_queue@.len() > 0
                && old(self).response_queue@.len() > 0 {
                !old(self).prefer_response
            } else {
                old(self).prefer_response
            }),
    {
        let has_t = self.telemetry_queue.len() > 0;
        let has_r = self.response_queue.len() > 0;
        if !has_t && !has_r {
            return None;
        }
        let take_r = if has_r && has_t {
            self.prefer_response
        } else {
            has_r
        };
        if has_t && has_r {
            self.prefer_response = !self.prefer_response;
        }
        if take_r {
            proof {
                assert(old(self).response_queue@.remove(0) =~= old(self).response_queue@.skip(
                    1,
                ));
            }
            let f = self.response_queue.remove(0);
            Some(f)
        } else {
            proof {
                assert(old(self).telemetry_queue@.remove(0) =~= old(self).telemetry_queue@.skip(
                    1,
                ));
            }
            let f = self.telemetry_queue.remove(0);
            Some(f)
        }
    }
}

} // verus!
