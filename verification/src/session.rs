//! The session protocol engine: connection lifecycle, inbound dispatch, the
//! per-command response discipline, telemetry publication, and the local
//! fallback mode.
//!
//! The engine is a state machine driven by events. The surrounding process
//! owns the transport, the timer, the collector and the executor; it feeds
//! each occurrence in as a [`SessionEvent`] and performs the returned
//! [`SessionAction`]s (write a frame, start an executor run, render locally).
//! The reference semantics is the pure function [`spec_step`];
//! [`Session::handle_event`] is proved to follow it exactly, and the
//! protocol laws at the end of this module are proved about it.

use vstd::prelude::*;

use crate::codec::{spec_decode_message, spec_encode_message, spec_encode_telemetry};
use crate::codec::{decode_message, encode_message, encode_telemetry};
use crate::command::{
    Command, CommandHandler, CommandMessage, CommandMessageView, CommandResponseView,
    CommandStatus, CommandView, custom_allowed, rejection_message, spec_admitted,
    spec_rejection_message, target_valid,
};
use crate::{contains_id, strings_view};
use crate::telemetry::{TelemetrySnapshot, TelemetrySnapshotView};

verus! {

/// Lifecycle of one session: `Connecting` until the transport is settled,
/// then `Connected`; `Closed` after a connected transport ends, `Failed`
/// when the initial connect never succeeded (local fallback mode).
#[derive(Debug, Clone, Copy, PartialEq, Eq, Structural)]
pub enum SessionMode {
    Connecting,
    Connected,
    Closed,
    Failed,
}

/// An occurrence the surrounding process reports to the engine.
#[derive(Debug)]
pub enum SessionEvent {
    ConnectSucceeded,
    ConnectFailed,
    TelemetryTick(TelemetrySnapshot),
    FrameReceived(String),
    ExecutorReturned(String, Result<String, String>),
    TransportClosed,
    TransportWriteFailed,
}

/// What the surrounding process must do next, in order.
#[derive(Debug, Clone)]
pub enum SessionAction {
    WriteFrame(String),
    InvokeExecutor(Command),
    RenderLocal(TelemetrySnapshot),
}

/// Mathematical model of a `SessionEvent`.
pub enum SessionEventView {
    ConnectSucceeded,
    ConnectFailed,
    TelemetryTick(TelemetrySnapshotView),
    FrameReceived(Seq<char>),
    ExecutorReturned(Seq<char>, Result<Seq<char>, Seq<char>>),
    TransportClosed,
    TransportWriteFailed,
}

/// Mathematical model of a `SessionAction`.
pub enum SessionActionView {
    WriteFrame(Seq<char>),
    InvokeExecutor(CommandView),
    RenderLocal(TelemetrySnapshotView),
}

impl View for SessionEvent {
    type V = SessionEventView;

    open spec fn view(&self) -> SessionEventView {
        match self {
            SessionEvent::ConnectSucceeded => SessionEventView::ConnectSucceeded,
            SessionEvent::ConnectFailed => SessionEventView::ConnectFailed,
            SessionEvent::TelemetryTick(t) => SessionEventView::TelemetryTick(t@),
            SessionEvent::FrameReceived(f) => SessionEventView::FrameReceived(f@),
            SessionEvent::ExecutorReturned(id, outcome) => SessionEventView::ExecutorReturned(
                id@,
                match outcome {
                    Ok(out) => Ok(out@),
                    Err(msg) => Err(msg@),
                },
            ),
            SessionEvent::TransportClosed => SessionEventView::TransportClosed,
            SessionEvent::TransportWriteFailed => SessionEventView::TransportWriteFailed,
        }
    }
}

impl View for SessionAction {
    type V = SessionActionView;

    open spec fn view(&self) -> SessionActionView {
        match self {
            SessionAction::WriteFrame(f) => SessionActionView::WriteFrame(f@),
            SessionAction::InvokeExecutor(c) => SessionActionView::InvokeExecutor(c@),
            SessionAction::RenderLocal(t) => SessionActionView::RenderLocal(t@),
        }
    }
}

/// The model of an action list: each action by its view.
pub open spec fn acts_view(a: Seq<SessionAction>) -> Seq<SessionActionView> {
    Seq::new(a.len(), |i: int| a[i]@)
}

/// Mathematical model of a `Session`.
pub struct SessionView {
    pub mode: SessionMode,
    pub last_captured_at: u64,
    pub pending: Seq<Seq<char>>,
    pub received: Seq<Seq<char>>,
    pub custom_allow: Seq<Seq<char>>,
}

/// The engine state. `pending` holds the ids of commands handed to the
/// executor whose terminal response has not been emitted yet; `received`
/// records every command id the session ever accepted; `custom_allow` is
/// the externally supplied allow-list for custom instructions, immutable
/// for the session's lifetime.
pub struct Session {
    pub mode: SessionMode,
    pub last_captured_at: u64,
    pub pending: Vec<String>,
    pub received: Ghost<Seq<Seq<char>>>,
    pub custom_allow: Vec<String>,
}

impl View for Session {
    type V = SessionView;

    open spec fn view(&self) -> SessionView {
        SessionView {
            mode: self.mode,
            last_captured_at: self.last_captured_at,
            pending: strings_view(self.pending@),
            received: self.received@,
            custom_allow: strings_view(self.custom_allow@),
        }
    }
}

/// The list with the first occurrence of `id` removed.
pub open spec fn remove_first(ids: Seq<Seq<char>>, id: Seq<char>) -> Seq<Seq<char>>
    decreases ids.len(),
{
    if ids.len() == 0 {
        ids
    } else if ids[0] == id {
        ids.skip(1)
    } else {
        seq![ids[0]] + remove_first(ids.skip(1), id)
    }
}

/// The acknowledgement response emitted once per received command.
pub open spec fn received_resp(id: Seq<char>, now: u64) -> CommandResponseView {
    CommandResponseView {
        command_id: id,
        status: CommandStatus::Received,
        result: None,
        error: None,
        timestamp: now,
    }
}

/// The terminal response for an executor outcome: the output on success,
/// the message on failure.
pub open spec fn terminal_resp(id: Seq<char>, outcome: Result<Seq<char>, Seq<char>>, now: u64) -> CommandResponseView {
    match outcome {
        Ok(out) => CommandResponseView {
            command_id: id,
            status: CommandStatus::Completed,
            result: Some(out),
            error: None,
            timestamp: now,
        },
        Err(msg) => CommandResponseView {
            command_id: id,
            status: CommandStatus::Failed,
            result: None,
            error: Some(msg),
            timestamp: now,
        },
    }
}

/// The frame carrying a response.
pub open spec fn resp_frame(r: CommandResponseView) -> Seq<char> {
    spec_encode_message(CommandMessageView::Response(r))
}

/// A telemetry snapshot with its capture time clamped so that the wire never
/// shows time moving backwards within a session.
pub open spec fn clamp_snapshot(t: TelemetrySnapshotView, last: u64) -> TelemetrySnapshotView {
    TelemetrySnapshotView {
        captured_at: if t.captured_at >= last {
            t.captured_at
        } else {
            last
        },
        ..t
    }
}

/// The reference semantics of the engine: one event in, the next state and
/// the actions out.
pub open spec fn spec_step(s: SessionView, ev: SessionEventView, now: u64) -> (
    SessionView,
    Seq<SessionActionView>,
) {
    match ev {
        SessionEventView::ConnectSucceeded => if s.mode is Connecting {
            (SessionView { mode: SessionMode::Connected, ..s }, Seq::empty())
        } else {
            (s, Seq::empty())
        },
        SessionEventView::ConnectFailed => if s.mode is Connecting {
            (SessionView { mode: SessionMode::Failed, ..s }, Seq::empty())
        } else {
            (s, Seq::empty())
        },
        SessionEventView::TransportClosed => if s.mode is Connected {
            (SessionView { mode: SessionMode::Closed, ..s }, Seq::empty())
        } else {
            (s, Seq::empty())
        },
        SessionEventView::TransportWriteFailed => if s.mode is Connected {
            (SessionView { mode: SessionMode::Closed, ..s }, Seq::empty())
        } else {
            (s, Seq::empty())
        },
        SessionEventView::TelemetryTick(t) => {
            let t2 = clamp_snapshot(t, s.last_captured_at);
            let s2 = SessionView { last_captured_at: t2.captured_at, ..s };
            if s.mode is Connected {
                (s2, seq![SessionActionView::WriteFrame(spec_encode_telemetry(t2))])
            } else if s.mode is Failed {
                (s2, seq![SessionActionView::RenderLocal(t2)])
            } else {
                (s, Seq::empty())
            }
        },
        SessionEventView::FrameReceived(f) => if s.mode is Connected {
            match spec_decode_message(f) {
                None => (s, Seq::empty()),
                Some(CommandMessageView::Response(_)) => (s, Seq::empty()),
                Some(CommandMessageView::Command(c)) => {
                    let ack = SessionActionView::WriteFrame(resp_frame(received_resp(c.id, now)));
                    if spec_admitted(c.command_type, c.target, s.custom_allow) {
                        (
                            SessionView {
                                pending: s.pending.push(c.id),
                                received: s.received.push(c.id),
                                ..s
                            },
                            seq![ack, SessionActionView::InvokeExecutor(c)],
                        )
                    } else {
                        (
                            SessionView { received: s.received.push(c.id), ..s },
                            seq![
                                ack,
                                SessionActionView::WriteFrame(
                                    resp_frame(
                                        terminal_resp(
                                            c.id,
                                            Err(spec_rejection_message(c.command_type)),
                                            now,
                                        ),
                                    ),
                                ),
                            ],
                        )
                    }
                },
            }
        } else {
            (s, Seq::empty())
        },
        SessionEventView::ExecutorReturned(id, outcome) => if contains_id(s.pending, id) {
            let s2 = SessionView { pending: remove_first(s.pending, id), ..s };
            if s.mode is Connected {
                (s2, seq![SessionActionView::WriteFrame(resp_frame(terminal_resp(id, outcome, now)))])
            } else {
                (s2, Seq::empty())
            }
        } else {
            (s, Seq::empty())
        },
    }
}

/// Every pending command was received.
pub open spec fn session_wf(s: SessionView) -> bool {
    forall|i: int| 0 <= i < s.pending.len() ==> contains_id(s.received, #[trigger] s.pending[i])
}

proof fn lemma_contains_push(ids: Seq<Seq<char>>, id: Seq<char>, x: Seq<char>)
    requires
        contains_id(ids, id),
    ensures
        contains_id(ids.push(x), id),
{
    let i = choose|i: int| 0 <= i < ids.len() && ids[i] == id;
    assert(ids.push(x)[i] == id);
}

proof fn lemma_remove_first_index(ids: Seq<Seq<char>>, id: Seq<char>, i: int)
    requires
        0 <= i < ids.len(),
        ids[i] == id,
        forall|j: int| 0 <= j < i ==> ids[j] != id,
    ensures
        remove_first(ids, id) == ids.subrange(0, i) + ids.subrange(i + 1, ids.len() as int),
    decreases i,
{
    if i == 0 {
        assert(ids.skip(1) =~= ids.subrange(0, 0) + ids.subrange(1, ids.len() as int));
    } else {
        assert(forall|j: int| 0 <= j < i - 1 ==> ids.skip(1)[j] == ids[j + 1]);
        lemma_remove_first_index(ids.skip(1), id, i - 1);
        assert(seq![ids[0]] + (ids.skip(1).subrange(0, i - 1) + ids.skip(1).subrange(
            i,
            ids.skip(1).len() as int,
        )) =~= ids.subrange(0, i) + ids.subrange(i + 1, ids.len() as int));
    }
}

impl Session {
    /// A fresh session, not yet connected, with nothing pending, over the
    /// externally supplied allow-list for custom instructions.
    pub fn new(custom_allow: Vec<String>) -> (s: Session)
        ensures
            s@.mode == SessionMode::Connecting,
            s@.last_captured_at == 0,
            s@.pending == Seq::<Seq<char>>::empty(),
            s@.received == Seq::<Seq<char>>::empty(),
            s@.custom_allow == strings_view(custom_allow@),
            session_wf(s@),
    {
        let s = Session {
            mode: SessionMode::Connecting,
            last_captured_at: 0,
            pending: Vec::new(),
            received: Ghost(Seq::empty()),
            custom_allow,
        };
        proof {
            assert(strings_view(s.pending@) =~= Seq::<Seq<char>>::empty());
        }
        s
    }

    /// Feeds one event through the engine. The new state and the returned
    /// actions are exactly those of the reference semantics, and
    /// well-formedness is preserved.
    pub fn handle_event(&mut self, ev: SessionEvent, now: u64) -> (acts: Vec<SessionAction>)
        requires
            session_wf(old(self)@),
        ensures
            final (self)@ == spec_step(old(self)@, ev@, now).0,
            acts_view(acts@) == spec_step(old(self)@, ev@, now).1,
            session_wf(final (self)@),
    {
        let ghost s0 = self@;
        match ev {
            SessionEvent::ConnectSucceeded => {
                if matches!(self.mode, SessionMode::Connecting) {
                    self.mode = SessionMode::Connected;
                }
                let acts: Vec<SessionAction> = Vec::new();
                proof {
                    assert(acts_view(acts@) =~= spec_step(s0, ev@, now).1);
                }
                acts
            },
            SessionEvent::ConnectFailed => {
                if matches!(self.mode, SessionMode::Connecting) {
                    self.mode = SessionMode::Failed;
                }
                let acts: Vec<SessionAction> = Vec::new();
                proof {
                    assert(acts_view(acts@) =~= spec_step(s0, ev@, now).1);
                }
                acts
            },
            SessionEvent::TransportClosed => {
                if matches!(self.mode, SessionMode::Connected) {
                    self.mode = SessionMode::Closed;
                }
                let acts: Vec<SessionAction> = Vec::new();
                proof {
                    assert(acts_view(acts@) =~= spec_step(s0, ev@, now).1);
                }
                acts
            },
            SessionEvent::TransportWriteFailed => {
                if matches!(self.mode, SessionMode::Connected) {
                    self.mode = SessionMode::Closed;
                }
                let acts: Vec<SessionAction> = Vec::new();
                proof {
                    assert(acts_view(acts@) =~= spec_step(s0, ev@, now).1);
                }
                acts
            },
            SessionEvent::TelemetryTick(t) => self.handle_tick(Ghost(s0), Ghost(ev@), t, now),
            SessionEvent::FrameReceived(f) => self.handle_frame(Ghost(s0), Ghost(ev@), f, now),
            SessionEvent::ExecutorReturned(id, outcome) => self.handle_executor_returned(
                Ghost(s0),
                Ghost(ev@),
                id,
                outcome,
                now,
            ),
        }
    }

    fn handle_tick(&mut self, Ghost(s0): Ghost<SessionView>, Ghost(evv): Ghost<SessionEventView>, t:
        TelemetrySnapshot, now: u64) -> (acts: Vec<SessionAction>)
        requires
            session_wf(old(self)@),
            old(self)@ == s0,
            evv == SessionEventView::TelemetryTick(t@),
        ensures
            final (self)@ == spec_step(s0, evv, now).0,
            acts_view(acts@) == spec_step(s0, evv, now).1,
            session_wf(final (self)@),
    {
        let mut acts: Vec<SessionAction> = Vec::new();
        let is_connected = matches!(self.mode, SessionMode::Connected);
        let is_failed = matches!(self.mode, SessionMode::Failed);
        if is_connected || is_failed {
            let ts = if t.captured_at >= self.last_captured_at {
                t.captured_at
            } else {
                self.last_captured_at
            };
            let t2 = TelemetrySnapshot {
                agent_id: t.agent_id,
                captured_at: ts,
                system: t.system,
                units: t.units,
            };
            self.last_captured_at = ts;
            if is_connected {
                let frame = encode_telemetry(&t2);
                acts.push(SessionAction::WriteFrame(frame));
            } else {
                acts.push(SessionAction::RenderLocal(t2));
            }
        }
        proof {
            assert(acts_view(acts@) =~= spec_step(s0, evv, now).1);
        }
        acts
    }

    fn handle_frame(&mut self, Ghost(s0): Ghost<SessionView>, Ghost(evv): Ghost<SessionEventView>, f:
        String, now: u64) -> (acts: Vec<SessionAction>)
        requires
            session_wf(old(self)@),
            old(self)@ == s0,
            evv == SessionEventView::FrameReceived(f@),
        ensures
            final (self)@ == spec_step(s0, evv, now).0,
            acts_view(acts@) == spec_step(s0, evv, now).1,
            session_wf(final (self)@),
    {
        let mut acts: Vec<SessionAction> = Vec::new();
        if !matches!(self.mode, SessionMode::Connected) {
            proof {
                assert(acts_view(acts@) =~= spec_step(s0, evv, now).1);
            }
            return acts;
        }
        let decoded = decode_message(f.as_str());
        match decoded {
            Err(_) => {
                proof {
                    assert(acts_view(acts@) =~= spec_step(s0, evv, now).1);
                }
                acts
            },
            Ok(CommandMessage::Response(_)) => {
                proof {
                    assert(acts_view(acts@) =~= spec_step(s0, evv, now).1);
                }
                acts
            },
            Ok(CommandMessage::Command(c)) => {
                let ghost cv = c@;
                let ack = CommandHandler::received_response(&c.id, now);
                let ack_frame = encode_message(&CommandMessage::Response(ack));
                acts.push(SessionAction::WriteFrame(ack_frame));
                let admitted = target_valid(&c.command_type, &c.target) && custom_allowed(
                    &c.command_type,
                    &self.custom_allow,
                );
                if admitted {
                    self.pending.push(c.id.clone());
                    proof {
                        self.received@ = s0.received.push(cv.id);
                        assert(strings_view(self.pending@) =~= s0.pending.push(cv.id));
                    }
                    acts.push(SessionAction::InvokeExecutor(c));
                    proof {
                        assert(acts_view(acts@) =~= spec_step(s0, evv, now).1);
                        let p2 = final (self)@.pending;
                        let r2 = final (self)@.received;
                        assert forall|i: int| 0 <= i < p2.len() implies contains_id(
                            r2,
                            p2[i],
                        ) by {
                            if i < s0.pending.len() {
                                assert(p2[i] == s0.pending[i]);
                                lemma_contains_push(s0.received, s0.pending[i], cv.id);
                            } else {
                                assert(p2[i] == cv.id);
                                assert(r2[r2.len() - 1] == cv.id);
                            }
                        }
                        assert(session_wf(final (self)@));
                    }
                    acts
                } else {
                    let msg = rejection_message(&c.command_type);
                    let fail = CommandHandler::terminal_response(&c.id, Err(msg), now);
                    let fail_frame = encode_message(&CommandMessage::Response(fail));
                    acts.push(SessionAction::WriteFrame(fail_frame));
                    proof {
                        self.received@ = s0.received.push(cv.id);
                        assert(acts_view(acts@) =~= spec_step(s0, evv, now).1);
                        let p2 = final (self)@.pending;
                        assert forall|i: int| 0 <= i < p2.len() implies contains_id(
                            final (self)@.received,
                            p2[i],
                        ) by {
                            assert(p2[i] == s0.pending[i]);
                            lemma_contains_push(s0.received, s0.pending[i], cv.id);
                        }
                        assert(session_wf(final (self)@));
                    }
                    acts
                }
            },
        }
    }

    fn handle_executor_returned(
        &mut self,
        Ghost(s0): Ghost<SessionView>,
        Ghost(evv): Ghost<SessionEventView>,
        id: String,
        outcome: Result<String, String>,
        now: u64,
    ) -> (acts: Vec<SessionAction>)
        requires
            session_wf(old(self)@),
            old(self)@ == s0,
            evv == SessionEventView::ExecutorReturned(
                id@,
                match outcome {
                    Ok(out) => Ok(out@),
                    Err(msg) => Err(msg@),
                },
            ),
        ensures
            final (self)@ == spec_step(s0, evv, now).0,
            acts_view(acts@) == spec_step(s0, evv, now).1,
            session_wf(final (self)@),
    {
        let mut acts: Vec<SessionAction> = Vec::new();
        let mut idx: usize = 0;
        let mut found = false;
        while idx < self.pending.len() && !found
            invariant
                self == old(self),
                idx <= self.pending.len(),
                forall|j: int| 0 <= j < idx ==> strings_view(self.pending@)[j] != id@,
                found ==> idx < self.pending.len() && strings_view(self.pending@)[idx as int]
                    == id@,
            decreases self.pending.len() - idx + (if found { 0int } else { 1int }),
        {
            if self.pending[idx] == id {
                found = true;
            } else {
                idx = idx + 1;
            }
        }
        if !found {
            proof {
                assert(!contains_id(s0.pending, id@));
                assert(acts_view(acts@) =~= spec_step(s0, evv, now).1);
            }
            return acts;
        }
        proof {
            assert(contains_id(s0.pending, id@));
            lemma_remove_first_index(s0.pending, id@, idx as int);
        }
        self.pending.remove(idx);
        proof {
            assert(strings_view(self.pending@) =~= s0.pending.subrange(0, idx as int)
                + s0.pending.subrange(idx + 1, s0.pending.len() as int));
        }
        if matches!(self.mode, SessionMode::Connected) {
            let resp = CommandHandler::terminal_response(&id, outcome, now);
            let frame = encode_message(&CommandMessage::Response(resp));
            acts.push(SessionAction::WriteFrame(frame));
        }
        proof {
            assert(acts_view(acts@) =~= spec_step(s0, evv, now).1);
            assert(session_wf(final (self)@));
        }
        acts
    }
}

// ---------------------------------------------------------------------------
// Protocol laws
// ---------------------------------------------------------------------------

/// `f` is a response frame whose id stands in `received`.
pub open spec fn response_frame_id_received(f: Seq<char>, received: Seq<Seq<char>>) -> bool {
    exists|r: CommandResponseView|
        f == resp_frame(r) && contains_id(received, #[trigger] r.command_id)
}

/// One step keeps the session well-formed: pending ids stay received ids.
pub proof fn lemma_step_preserves_wf(s: SessionView, ev: SessionEventView, now: u64)
    requires
        session_wf(s),
    ensures
        session_wf(spec_step(s, ev, now).0),
{
    let s2 = spec_step(s, ev, now).0;
    match ev {
        SessionEventView::FrameReceived(f) => {
            if s.mode is Connected {
                match spec_decode_message(f) {
                    Some(CommandMessageView::Command(c)) => {
                        assert forall|i: int| 0 <= i < s2.pending.len() implies contains_id(
                            s2.received,
                            s2.pending[i],
                        ) by {
                            if i < s.pending.len() {
                                assert(s2.pending[i] == s.pending[i]);
                                lemma_contains_push(s.received, s.pending[i], c.id);
                            } else {
                                assert(s2.pending[i] == c.id);
                                assert(s2.received[s2.received.len() - 1] == c.id);
                            }
                        }
                    },
                    _ => {},
                }
            }
        },
        SessionEventView::ExecutorReturned(id, _) => {
            if contains_id(s.pending, id) {
                lemma_remove_first_subset(s.pending, id);
            }
        },
        _ => {},
    }
}

proof fn lemma_remove_first_subset(ids: Seq<Seq<char>>, id: Seq<char>)
    ensures
        forall|i: int|
            0 <= i < remove_first(ids, id).len() ==> contains_id(
                ids,
                #[trigger] remove_first(ids, id)[i],
            ),
    decreases ids.len(),
{
    if ids.len() > 0 {
        if ids[0] == id {
            assert forall|i: int| 0 <= i < ids.skip(1).len() implies contains_id(
                ids,
                #[trigger] ids.skip(1)[i],
            ) by {
                assert(ids[i + 1] == ids.skip(1)[i]);
            }
        } else {
            lemma_remove_first_subset(ids.skip(1), id);
            let rem = seq![ids[0]] + remove_first(ids.skip(1), id);
            assert forall|i: int| 0 <= i < rem.len() implies contains_id(
                ids,
                #[trigger] rem[i],
            ) by {
                if i == 0 {
                    assert(rem[0] == ids[0]);
                } else {
                    assert(rem[i] == remove_first(ids.skip(1), id)[i - 1]);
                    let j = choose|j: int|
                        0 <= j < ids.skip(1).len() && ids.skip(1)[j] == rem[i];
                    assert(ids[j + 1] == rem[i]);
                }
            }
        }
    }
}

/// Every response frame the engine ever emits references a command this
/// session itself received: the engine manufactures no response for an
/// unknown id. Each emitted frame is either the tick's telemetry frame or a
/// response frame whose id stands in the received set.
pub proof fn lemma_responses_reference_received(s: SessionView, ev: SessionEventView, now: u64)
    requires
        session_wf(s),
    ensures
        forall|i: int|
            0 <= i < spec_step(s, ev, now).1.len() ==> match #[trigger] spec_step(
                s,
                ev,
                now,
            ).1[i] {
                SessionActionView::WriteFrame(f) => (ev matches SessionEventView::TelemetryTick(
                    t,
                ) && f == spec_encode_telemetry(clamp_snapshot(t, s.last_captured_at)))
                    || response_frame_id_received(f, spec_step(s, ev, now).0.received),
                _ => true,
            },
{
    let s2 = spec_step(s, ev, now).0;
    match ev {
        SessionEventView::FrameReceived(f) => {
            if s.mode is Connected {
                match spec_decode_message(f) {
                    Some(CommandMessageView::Command(c)) => {
                        let ack = received_resp(c.id, now);
                        assert(s2.received[s2.received.len() - 1] == c.id);
                        assert(contains_id(s2.received, ack.command_id));
                        assert(response_frame_id_received(resp_frame(ack), s2.received));
                        if !spec_admitted(c.command_type, c.target, s.custom_allow) {
                            let fail = terminal_resp(
                                c.id,
                                Err(spec_rejection_message(c.command_type)),
                                now,
                            );
                            assert(contains_id(s2.received, fail.command_id));
                            assert(response_frame_id_received(resp_frame(fail), s2.received));
                        }
                    },
                    _ => {},
                }
            }
        },
        SessionEventView::ExecutorReturned(id, outcome) => {
            if contains_id(s.pending, id) && s.mode is Connected {
                let term = terminal_resp(id, outcome, now);
                let j = choose|j: int| 0 <= j < s.pending.len() && s.pending[j] == id;
                assert(contains_id(s.received, s.pending[j]));
                assert(contains_id(s2.received, term.command_id));
                assert(response_frame_id_received(resp_frame(term), s2.received));
            }
        },
        _ => {},
    }
}

/// Position of a mode in the forward-only session lifecycle; the two
/// terminal modes share the last position.
pub open spec fn mode_rank(m: SessionMode) -> int {
    match m {
        SessionMode::Connecting => 0,
        SessionMode::Connected => 1,
        SessionMode::Closed => 2,
        SessionMode::Failed => 2,
    }
}

/// The session lifecycle only moves forward, and a terminal mode is
/// absorbing: no event revisits an earlier mode.
pub proof fn lemma_mode_forward(s: SessionView, ev: SessionEventView, now: u64)
    ensures
        mode_rank(spec_step(s, ev, now).0.mode) >= mode_rank(s.mode),
        s.mode is Closed ==> spec_step(s, ev, now).0.mode is Closed,
        s.mode is Failed ==> spec_step(s, ev, now).0.mode is Failed,
{
}

proof fn lemma_remove_first_push(ids: Seq<Seq<char>>, id: Seq<char>)
    requires
        !contains_id(ids, id),
    ensures
        remove_first(ids.push(id), id) == ids,
    decreases ids.len(),
{
    if ids.len() == 0 {
        assert(ids.push(id)[0] == id);
        assert(ids.push(id).skip(1) =~= ids);
    } else {
        assert(ids[0] != id);
        assert(ids.push(id)[0] == ids[0]);
        assert(ids.push(id).skip(1) =~= ids.skip(1).push(id));
        assert(!contains_id(ids.skip(1), id)) by {
            if contains_id(ids.skip(1), id) {
                let j = choose|j: int| 0 <= j < ids.skip(1).len() && ids.skip(1)[j] == id;
                assert(ids[j + 1] == id);
            }
        }
        lemma_remove_first_push(ids.skip(1), id);
        assert(seq![ids[0]] + ids.skip(1) =~= ids);
    }
}

proof fn lemma_remove_first_other(ids: Seq<Seq<char>>, id: Seq<char>, other: Seq<char>)
    requires
        contains_id(ids, other),
        other != id,
    ensures
        contains_id(remove_first(ids, id), other),
    decreases ids.len(),
{
    let j = choose|j: int| 0 <= j < ids.len() && ids[j] == other;
    if ids[0] == id {
        assert(ids.skip(1)[j - 1] == other);
    } else if j == 0 {
        assert((seq![ids[0]] + remove_first(ids.skip(1), id))[0] == other);
    } else {
        assert(ids.skip(1)[j - 1] == other);
        lemma_remove_first_other(ids.skip(1), id, other);
        let k = choose|k: int|
            0 <= k < remove_first(ids.skip(1), id).len() && remove_first(ids.skip(1), id)[k]
                == other;
        assert((seq![ids[0]] + remove_first(ids.skip(1), id))[k + 1] == other);
    }
}

/// One command, one lifecycle: a fresh valid command is acknowledged with
/// `Received` and handed to the executor, its single outcome yields the one
/// terminal response, and a later duplicate outcome report for the same id
/// is ignored. No other response for that id is ever produced.
pub proof fn lemma_command_lifecycle(
    s0: SessionView,
    f: Seq<char>,
    c: CommandView,
    now1: u64,
    outcome: Result<Seq<char>, Seq<char>>,
    now2: u64,
    outcome2: Result<Seq<char>, Seq<char>>,
    now3: u64,
)
    requires
        s0.mode is Connected,
        spec_decode_message(f) == Some(CommandMessageView::Command(c)),
        spec_admitted(c.command_type, c.target, s0.custom_allow),
        !contains_id(s0.pending, c.id),
    ensures
        spec_step(s0, SessionEventView::FrameReceived(f), now1).1 == seq![
            SessionActionView::WriteFrame(resp_frame(received_resp(c.id, now1))),
            SessionActionView::InvokeExecutor(c),
        ],
        spec_step(s0, SessionEventView::FrameReceived(f), now1).0.mode is Connected,
        contains_id(spec_step(s0, SessionEventView::FrameReceived(f), now1).0.pending, c.id),
        spec_step(
            spec_step(s0, SessionEventView::FrameReceived(f), now1).0,
            SessionEventView::ExecutorReturned(c.id, outcome),
            now2,
        ).1 == seq![
            SessionActionView::WriteFrame(resp_frame(terminal_resp(c.id, outcome, now2))),
        ],
        spec_step(
            spec_step(s0, SessionEventView::FrameReceived(f), now1).0,
            SessionEventView::ExecutorReturned(c.id, outcome),
            now2,
        ).0.pending == s0.pending,
        spec_step(
            spec_step(
                spec_step(s0, SessionEventView::FrameReceived(f), now1).0,
                SessionEventView::ExecutorReturned(c.id, outcome),
                now2,
            ).0,
            SessionEventView::ExecutorReturned(c.id, outcome2),
            now3,
        ).1 == Seq::<SessionActionView>::empty(),
{
    let s1 = spec_step(s0, SessionEventView::FrameReceived(f), now1).0;
    assert(s1.pending[s1.pending.len() - 1] == c.id);
    assert(contains_id(s1.pending, c.id));
    lemma_remove_first_push(s0.pending, c.id);
    let s2 = spec_step(s1, SessionEventView::ExecutorReturned(c.id, outcome), now2).0;
    assert(s2.pending == s0.pending);
    assert(!contains_id(s2.pending, c.id));
}

/// Telemetry capture times on the wire never decrease within a session:
/// every tick raises the watermark, the emitted frame carries exactly the
/// watermark, and two successive ticks are written in non-decreasing order
/// whatever timestamps the collector reports.
pub proof fn lemma_telemetry_monotone(
    s0: SessionView,
    t1: TelemetrySnapshotView,
    now1: u64,
    t2: TelemetrySnapshotView,
    now2: u64,
)
    requires
        s0.mode is Connected,
    ensures
        spec_step(s0, SessionEventView::TelemetryTick(t1), now1).0.last_captured_at
            >= s0.last_captured_at,
        spec_step(s0, SessionEventView::TelemetryTick(t1), now1).1 == seq![
            SessionActionView::WriteFrame(
                spec_encode_telemetry(clamp_snapshot(t1, s0.last_captured_at)),
            ),
        ],
        clamp_snapshot(t1, s0.last_captured_at).captured_at == spec_step(
            s0,
            SessionEventView::TelemetryTick(t1),
            now1,
        ).0.last_captured_at,
        clamp_snapshot(
            t2,
            spec_step(s0, SessionEventView::TelemetryTick(t1), now1).0.last_captured_at,
        ).captured_at >= clamp_snapshot(t1, s0.last_captured_at).captured_at,
{
    assert(spec_step(s0, SessionEventView::TelemetryTick(t1), now1).1 =~= seq![
        SessionActionView::WriteFrame(
            spec_encode_telemetry(clamp_snapshot(t1, s0.last_captured_at)),
        ),
    ]);
}

/// A malformed frame is dropped without any effect: the state is unchanged
/// and nothing is emitted, so the session goes on and later frames are
/// handled exactly as they would have been.
pub proof fn lemma_malformed_frame_ignored(s0: SessionView, bad: Seq<char>, now: u64)
    requires
        s0.mode is Connected,
        spec_decode_message(bad) is None,
    ensures
        spec_step(s0, SessionEventView::FrameReceived(bad), now).0 == s0,
        spec_step(s0, SessionEventView::FrameReceived(bad), now).1 == Seq::<
            SessionActionView,
        >::empty(),
{
}

/// An inbound response envelope is unexpected (this agent never originates
/// requests) and is dropped without any effect.
pub proof fn lemma_inbound_response_ignored(s0: SessionView, f: Seq<char>, r: CommandResponseView, now: u64)
    requires
        s0.mode is Connected,
        spec_decode_message(f) == Some(CommandMessageView::Response(r)),
    ensures
        spec_step(s0, SessionEventView::FrameReceived(f), now).0 == s0,
        spec_step(s0, SessionEventView::FrameReceived(f), now).1 == Seq::<
            SessionActionView,
        >::empty(),
{
}

/// Runs the engine over a whole event sequence, collecting every action.
pub open spec fn spec_run(s: SessionView, evs: Seq<(SessionEventView, u64)>) -> (
    SessionView,
    Seq<SessionActionView>,
)
    decreases evs.len(),
{
    if evs.len() == 0 {
        (s, Seq::empty())
    } else {
        let first = spec_step(s, evs[0].0, evs[0].1);
        let rest = spec_run(first.0, evs.skip(1));
        (rest.0, first.1 + rest.1)
    }
}

proof fn lemma_fallback_step(s: SessionView, ev: SessionEventView, now: u64)
    requires
        s.mode is Failed,
    ensures
        spec_step(s, ev, now).0.mode is Failed,
        forall|i: int|
            0 <= i < spec_step(s, ev, now).1.len() ==> !(#[trigger] spec_step(s, ev, now).1[i]
                is WriteFrame),
        ev matches SessionEventView::TelemetryTick(t) ==> spec_step(s, ev, now).1 == seq![
            SessionActionView::RenderLocal(clamp_snapshot(t, s.last_captured_at)),
        ],
{
}

/// After a failed initial connect, no frame is ever written to any
/// transport for the rest of the run, while every telemetry tick still
/// drives the local presentation path.
pub proof fn lemma_fallback_never_writes(s: SessionView, evs: Seq<(SessionEventView, u64)>)
    requires
        s.mode is Failed,
    ensures
        spec_run(s, evs).0.mode is Failed,
        forall|i: int|
            0 <= i < spec_run(s, evs).1.len() ==> !(#[trigger] spec_run(s, evs).1[i]
                is WriteFrame),
    decreases evs.len(),
{
    if evs.len() > 0 {
        lemma_fallback_step(s, evs[0].0, evs[0].1);
        let s1 = spec_step(s, evs[0].0, evs[0].1).0;
        lemma_fallback_never_writes(s1, evs.skip(1));
    }
}

/// The first failed connect attempt switches a fresh session into fallback
/// mode with nothing emitted.
pub proof fn lemma_connect_failure_enters_fallback(s0: SessionView, now: u64)
    requires
        s0.mode is Connecting,
    ensures
        spec_step(s0, SessionEventView::ConnectFailed, now).0.mode is Failed,
        spec_step(s0, SessionEventView::ConnectFailed, now).1 == Seq::<
            SessionActionView,
        >::empty(),
{
}

/// In fallback mode every tick renders locally.
pub proof fn lemma_fallback_tick_renders(s: SessionView, t: TelemetrySnapshotView, now: u64)
    requires
        s.mode is Failed,
    ensures
        spec_step(s, SessionEventView::TelemetryTick(t), now).1 == seq![
            SessionActionView::RenderLocal(clamp_snapshot(t, s.last_captured_at)),
        ],
{
}

/// Two in-flight commands with distinct ids complete independently and in
/// either order: each outcome yields exactly its own terminal response.
pub proof fn lemma_distinct_commands_either_order(
    s0: SessionView,
    id1: Seq<char>,
    id2: Seq<char>,
    o1: Result<Seq<char>, Seq<char>>,
    o2: Result<Seq<char>, Seq<char>>,
    nowa: u64,
    nowb: u64,
)
    requires
        s0.mode is Connected,
        contains_id(s0.pending, id1),
        contains_id(s0.pending, id2),
        id1 != id2,
    ensures
        spec_step(s0, SessionEventView::ExecutorReturned(id1, o1), nowa).1 == seq![
            SessionActionView::WriteFrame(resp_frame(terminal_resp(id1, o1, nowa))),
        ],
        spec_step(
            spec_step(s0, SessionEventView::ExecutorReturned(id1, o1), nowa).0,
            SessionEventView::ExecutorReturned(id2, o2),
            nowb,
        ).1 == seq![SessionActionView::WriteFrame(resp_frame(terminal_resp(id2, o2, nowb)))],
        spec_step(s0, SessionEventView::ExecutorReturned(id2, o2), nowa).1 == seq![
            SessionActionView::WriteFrame(resp_frame(terminal_resp(id2, o2, nowa))),
        ],
        spec_step(
            spec_step(s0, SessionEventView::ExecutorReturned(id2, o2), nowa).0,
            SessionEventView::ExecutorReturned(id1, o1),
            nowb,
        ).1 == seq![SessionActionView::WriteFrame(resp_frame(terminal_resp(id1, o1, nowb)))],
{
    lemma_remove_first_other(s0.pending, id1, id2);
    lemma_remove_first_other(s0.pending, id2, id1);
}

/// A pending command never delays telemetry: while connected, a tick is
/// written immediately whatever is in flight, and the in-flight set is
/// untouched.
pub proof fn lemma_tick_independent_of_pending(s: SessionView, t: TelemetrySnapshotView, now: u64)
    requires
        s.mode is Connected,
    ensures
        spec_step(s, SessionEventView::TelemetryTick(t), now).1 == seq![
            SessionActionView::WriteFrame(
                spec_encode_telemetry(clamp_snapshot(t, s.last_captured_at)),
            ),
        ],
        spec_step(s, SessionEventView::TelemetryTick(t), now).0.pending == s.pending,
{
}

/// A command that is not admitted — its target falls outside the validity
/// table, or its custom instruction is not on the allow-list — is
/// acknowledged and immediately failed with its kind's reason, with no
/// executor start and no change to the in-flight set.
pub proof fn lemma_inadmissible_command_rejected(s0: SessionView, f: Seq<char>, c: CommandView, now: u64)
    requires
        s0.mode is Connected,
        spec_decode_message(f) == Some(CommandMessageView::Command(c)),
        !spec_admitted(c.command_type, c.target, s0.custom_allow),
    ensures
        spec_step(s0, SessionEventView::FrameReceived(f), now).1 == seq![
            SessionActionView::WriteFrame(resp_frame(received_resp(c.id, now))),
            SessionActionView::WriteFrame(
                resp_frame(terminal_resp(c.id, Err(spec_rejection_message(c.command_type)), now)),
            ),
        ],
        forall|i: int|
            0 <= i < spec_step(s0, SessionEventView::FrameReceived(f), now).1.len() ==> !(
            #[trigger] spec_step(s0, SessionEventView::FrameReceived(f), now).1[i]
                is InvokeExecutor),
        spec_step(s0, SessionEventView::FrameReceived(f), now).0.pending == s0.pending,
{
}

} // verus!
