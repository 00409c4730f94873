//! The decisions of the task that serves one browser connection.
//!
//! A gateway listens to four things at once: the session's shutdown signal,
//! new lists of open shells, chunks from the shells that its client follows,
//! and frames from the client. Whatever comes first is an event. For each
//! event the gateway says what is to be done: frames to send to the client,
//! commands to queue for the agent, a chunk subscription to start, the
//! connection to close. The task that owns the connection waits for events
//! and carries the actions out; what it does in between is decided here.

use crate::clock::now;
use crate::error::SessionError;
use crate::layout::Placement;
use crate::protocol::{Chunk, ServerMessage, WsClient, WsServer};
use crate::session::{Session, SessionView};
use std::collections::HashSet;
use tokio::time::Instant;
use vstd::prelude::*;

verus! {

broadcast use vstd::std_specs::hash::group_hash_axioms;

/// Where a gateway stands in its life.
#[derive(Debug, Clone, Copy, PartialEq, Eq, Structural)]
pub enum GatewayPhase {
    /// Serving the client.
    Running,
    /// The session has shut down or the client has left: the connection is
    /// being closed and the chunk subscriptions are being cancelled.
    Draining,
    /// The connection is closed.
    Terminal,
}

/// Something that a gateway was waiting for.
#[derive(Debug, Clone, PartialEq, Eq)]
pub enum GatewayEvent {
    /// The session's shutdown signal has fired.
    Shutdown,
    /// The list of open shells has changed.
    Shells(Vec<Placement>),
    /// A shell that the client follows has new chunks.
    Chunks(u32, Vec<Chunk>),
    /// The client has sent a frame.
    Frame(WsClient),
    /// The client has closed the connection.
    Disconnected,
}

/// Something that a gateway wants done.
#[derive(Debug, Clone, PartialEq, Eq)]
pub enum GatewayAction {
    /// Send a frame to the client.
    Send(WsServer),
    /// Put a command for the agent on the session's queue, waiting for
    /// room if the queue is full.
    Enqueue(ServerMessage),
    /// Start a task that follows a shell from the given fragment on and
    /// reports its chunks as events.
    Subscribe { id: u32, start: u64 },
    /// Close the connection.
    Close,
}

/// What becomes of a request for a connection.
#[derive(Debug, Clone, PartialEq, Eq)]
pub enum Admission {
    /// The session exists: a gateway serves the connection.
    Serve,
    /// The session is unknown: the connection is accepted and closed at
    /// once, with this code and reason.
    Refuse { code: u16, reason: String },
}

/// The close code that tells a client that its session is unknown.
pub const MISSING_SESSION: u16 = 4404;

/// Decides what becomes of a request for a connection to a session, given
/// whether the session was found.
pub fn admission(found: bool) -> (admission: Admission)
    ensures
        found ==> admission == Admission::Serve,
        !found ==> (admission matches Admission::Refuse { code, reason } && code == 4404
            && reason@ == "could not find the requested session"@),
{
    if found {
        Admission::Serve
    } else {
        Admission::Refuse {
            code: MISSING_SESSION,
            reason: "could not find the requested session".to_owned(),
        }
    }
}

/// The model of a gateway.
pub ghost struct GatewayView {
    /// The shells that the client follows.
    pub subscribed: Set<u32>,
    /// Where the gateway stands in its life.
    pub phase: GatewayPhase,
}

/// Whether `text` is the message of the error `e`.
pub open spec fn says(text: String, e: SessionError) -> bool {
    text@ == e.message_spec()
}

/// What a client's frame leads to: how gateway and session stand after it
/// and what is to be done.
pub open spec fn dispatched(
    gateway: GatewayView,
    session: SessionView,
    frame: WsClient,
    after: GatewayView,
    session_after: SessionView,
    actions: Seq<GatewayAction>,
) -> bool {
    match frame {
        WsClient::Create() => {
            &&& after == gateway
            &&& session_after == session.next_id()
            &&& actions == seq![
                GatewayAction::Enqueue(ServerMessage::CreateShell(session.counter)),
            ]
        },
        WsClient::Close(id) => {
            &&& after == gateway
            &&& session_after == session
            &&& actions == seq![GatewayAction::Enqueue(ServerMessage::CloseShell(id))]
        },
        WsClient::Move(id, size) => {
            &&& after == gateway
            &&& match session.move_shell(id, size) {
                Err(e) => {
                    &&& session_after == session
                    &&& actions.len() == 1
                    &&& actions[0] matches GatewayAction::Send(WsServer::Error(text))
                    &&& says(text, e)
                },
                Ok(moved) => {
                    &&& session_after == moved
                    &&& actions == match size {
                        Some(size) => seq![
                            GatewayAction::Enqueue(
                                ServerMessage::Resize {
                                    id,
                                    rows: size.rows as u32,
                                    cols: size.cols as u32,
                                },
                            ),
                        ],
                        None => Seq::<GatewayAction>::empty(),
                    }
                },
            }
        },
        WsClient::Data(id, data) => {
            &&& after == gateway
            &&& session_after == session
            &&& actions == seq![GatewayAction::Enqueue(ServerMessage::Input { id, data })]
        },
        WsClient::Subscribe(id, start) => {
            &&& session_after == session
            &&& after.phase == gateway.phase
            &&& after.subscribed == gateway.subscribed.insert(id)
            &&& actions == if gateway.subscribed.contains(id) {
                Seq::<GatewayAction>::empty()
            } else {
                seq![GatewayAction::Subscribe { id, start }]
            }
        },
    }
}

/// What an event leads to: how gateway and session stand after it and what
/// is to be done. A gateway that is no longer running does nothing.
pub open spec fn reacted(
    gateway: GatewayView,
    session: SessionView,
    event: GatewayEvent,
    after: GatewayView,
    session_after: SessionView,
    actions: Seq<GatewayAction>,
) -> bool {
    if gateway.phase != GatewayPhase::Running {
        after == gateway && session_after == session && actions == Seq::<GatewayAction>::empty()
    } else {
        match event {
            GatewayEvent::Shutdown => {
                &&& after == GatewayView { phase: GatewayPhase::Draining, ..gateway }
                &&& session_after == session
                &&& actions == seq![
                    GatewayAction::Send(WsServer::Terminated()),
                    GatewayAction::Close,
                ]
            },
            GatewayEvent::Shells(shells) => {
                &&& after == gateway
                &&& session_after == session
                &&& actions == seq![GatewayAction::Send(WsServer::Shells(shells))]
            },
            GatewayEvent::Chunks(id, chunks) => {
                &&& after == gateway
                &&& session_after == session
                &&& actions == seq![GatewayAction::Send(WsServer::Chunks(id, chunks))]
            },
            GatewayEvent::Frame(frame) => dispatched(
                gateway,
                session,
                frame,
                after,
                session_after,
                actions,
            ),
            GatewayEvent::Disconnected => {
                &&& after == GatewayView { phase: GatewayPhase::Draining, ..gateway }
                &&& session_after == session
                &&& actions == Seq::<GatewayAction>::empty()
            },
        }
    }
}

/// Whether an event makes the session note that a client is alive: a frame
/// that reaches a running gateway does.
pub open spec fn refreshes(gateway: GatewayView, event: GatewayEvent) -> bool {
    gateway.phase == GatewayPhase::Running && event is Frame
}

/// The state of the task that serves one browser connection.
pub struct Gateway {
    /// The shells that the client follows, to prevent duplicate subscriptions.
    subscribed: HashSet<u32>,
    /// Where the gateway stands in its life.
    phase: GatewayPhase,
}

impl View for Gateway {
    type V = GatewayView;

    closed spec fn view(&self) -> GatewayView {
        GatewayView { subscribed: self.subscribed@, phase: self.phase }
    }
}

impl Gateway {
    /// A gateway for a connection that has just been accepted.
    pub fn new() -> (gateway: Gateway)
        ensures
            gateway@ == (GatewayView { subscribed: Set::empty(), phase: GatewayPhase::Running }),
    {
        Gateway { subscribed: HashSet::new(), phase: GatewayPhase::Running }
    }

    /// Where the gateway stands in its life.
    pub fn phase(&self) -> (phase: GatewayPhase)
        ensures
            phase == self@.phase,
    {
        self.phase
    }

    /// Whether the gateway is still serving its client.
    pub fn is_running(&self) -> (running: bool)
        ensures
            running == (self@.phase == GatewayPhase::Running),
    {
        match self.phase {
            GatewayPhase::Running => true,
            _ => false,
        }
    }

    /// Whether the client follows the shell `id`.
    pub fn is_subscribed(&self, id: u32) -> (subscribed: bool)
        ensures
            subscribed == self@.subscribed.contains(id),
    {
        self.subscribed.contains(&id)
    }

    /// Notes that the connection is closed and the subscriptions are
    /// cancelled. A running gateway is not touched: it has to drain first.
    pub fn finish(&mut self)
        ensures
            final(self)@.subscribed == old(self)@.subscribed,
            final(self)@.phase == if old(self)@.phase == GatewayPhase::Running {
                GatewayPhase::Running
            } else {
                GatewayPhase::Terminal
            },
    {
        match self.phase {
            GatewayPhase::Running => {},
            _ => {
                self.phase = GatewayPhase::Terminal;
            },
        }
    }

    /// Decides what a client's frame leads to.
    fn dispatch(&mut self, session: &mut Session, frame: WsClient) -> (actions: Vec<GatewayAction>)
        requires
            old(session).wf(),
        ensures
            final(session).wf(),
            final(session).last_access() == old(session).last_access(),
            final(session).same_fixtures(*old(session)),
            dispatched(old(self)@, old(session)@, frame, final(self)@, final(session)@, actions@),
    {
        let mut actions: Vec<GatewayAction> = Vec::new();
        match frame {
            WsClient::Create() => {
                let id = session.next_id();
                actions.push(GatewayAction::Enqueue(ServerMessage::CreateShell(id)));
                assert(actions@ =~= seq![GatewayAction::Enqueue(ServerMessage::CreateShell(id))]);
            },
            WsClient::Close(id) => {
                actions.push(GatewayAction::Enqueue(ServerMessage::CloseShell(id)));
                assert(actions@ =~= seq![GatewayAction::Enqueue(ServerMessage::CloseShell(id))]);
            },
            WsClient::Move(id, size) => {
                match session.move_shell(id, size) {
                    Err(e) => {
                        actions.push(GatewayAction::Send(WsServer::Error(e.message())));
                    },
                    Ok(()) => {
                        match size {
                            Some(size) => {
                                let resize = ServerMessage::Resize {
                                    id,
                                    rows: size.rows as u32,
                                    cols: size.cols as u32,
                                };
                                actions.push(GatewayAction::Enqueue(resize));
                                assert(actions@ =~= seq![GatewayAction::Enqueue(resize)]);
                            },
                            None => {
                                assert(actions@ =~= Seq::<GatewayAction>::empty());
                            },
                        }
                    },
                }
            },
            WsClient::Data(id, data) => {
                let input = ServerMessage::Input { id, data };
                actions.push(GatewayAction::Enqueue(input));
                assert(actions@ =~= seq![GatewayAction::Enqueue(input)]);
            },
            WsClient::Subscribe(id, start) => {
                if self.subscribed.contains(&id) {
                    assert(self@.subscribed =~= old(self)@.subscribed.insert(id));
                    assert(actions@ =~= Seq::<GatewayAction>::empty());
                } else {
                    self.subscribed.insert(id);
                    actions.push(GatewayAction::Subscribe { id, start });
                    assert(actions@ =~= seq![GatewayAction::Subscribe { id, start }]);
                }
            },
        }
        actions
    }

    /// Decides what an event leads to, given the instant `at` at which it
    /// came.
    pub fn handle_at(&mut self, session: &mut Session, event: GatewayEvent, at: Instant) -> (actions:
        Vec<GatewayAction>)
        requires
            old(session).wf(),
        ensures
            final(session).wf(),
            final(session).same_fixtures(*old(session)),
            reacted(old(self)@, old(session)@, event, final(self)@, final(session)@, actions@),
            final(session).last_access() == if refreshes(old(self)@, event) {
                at
            } else {
                old(session).last_access()
            },
    {
        let mut actions: Vec<GatewayAction> = Vec::new();
        if !self.is_running() {
            assert(actions@ =~= Seq::<GatewayAction>::empty());
            return actions;
        }
        match event {
            GatewayEvent::Shutdown => {
                self.phase = GatewayPhase::Draining;
                actions.push(GatewayAction::Send(WsServer::Terminated()));
                actions.push(GatewayAction::Close);
                assert(actions@ =~= seq![
                    GatewayAction::Send(WsServer::Terminated()),
                    GatewayAction::Close,
                ]);
            },
            GatewayEvent::Shells(shells) => {
                let frame = WsServer::Shells(shells);
                actions.push(GatewayAction::Send(frame));
                assert(actions@ =~= seq![GatewayAction::Send(frame)]);
            },
            GatewayEvent::Chunks(id, chunks) => {
                let frame = WsServer::Chunks(id, chunks);
                actions.push(GatewayAction::Send(frame));
                assert(actions@ =~= seq![GatewayAction::Send(frame)]);
            },
            GatewayEvent::Frame(frame) => {
                session.access_at(at);
                actions = self.dispatch(session, frame);
            },
            GatewayEvent::Disconnected => {
                self.phase = GatewayPhase::Draining;
                assert(actions@ =~= Seq::<GatewayAction>::empty());
            },
        }
        actions
    }

    /// Decides what an event leads to. A frame from the client refreshes
    /// the session's record of when a client was last heard of.
    pub fn handle(&mut self, session: &mut Session, event: GatewayEvent) -> (actions: Vec<
        GatewayAction,
    >)
        requires
            old(session).wf(),
        ensures
            final(session).wf(),
            final(session).same_fixtures(*old(session)),
            reacted(old(self)@, old(session)@, event, final(self)@, final(session)@, actions@),
            !refreshes(old(self)@, event) ==> final(session).last_access() == old(
                session,
            ).last_access(),
    {
        let at = now();
        self.handle_at(session, event, at)
    }
}

} // verus!
