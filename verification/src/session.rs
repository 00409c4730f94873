//! The state of one session: its shells, their order on screen, the id
//! counter and the shutdown signal.

use crate::clock::{elapsed_ms, now};
use crate::error::{SessionError, ShellAction};
use crate::layout::{
    distinct, lemma_close, lemma_focus, lemma_open, shows, LayoutEdit, Placement,
};
use crate::protocol::{ServerMessage, WsWinsize};
use crate::queue::{bounded_queue, queue_limit};
use crate::chunks::ChunkCursor;
use crate::shell::{accepts, ingest, peek, ShellPeek, ShellState, ShellView};
use crate::shell_map::{
    shell_entries, shells_contains, shells_ids, shells_insert, shells_new, shells_peek,
    shells_remove,
};
use crate::shutdown::Shutdown;
use crate::source::{latest, new_source, publish, published, subscribe, watched};
use async_channel::{Receiver, Sender};
use dashmap::DashMap;
use std::collections::HashMap;
use std::sync::Arc;
use tokio::sync::watch;
use tokio::sync::Notify;
use tokio::time::Instant;
use vstd::prelude::*;
use vstd::string::StringSliceAdditionalSpecFns;

verus! {

/// How many commands for the agent can wait in the queue.
pub const OUTBOUND_LIMIT: usize = 256;

/// The model of a session.
pub ghost struct SessionView {
    /// Every shell that was ever added, open or closed, by its id.
    pub shells: Map<u32, ShellView>,
    /// The open shells in the order in which clients are shown them.
    pub order: Seq<Placement>,
    /// The id that will be handed out next.
    pub counter: u32,
    /// Whether the session has been shut down.
    pub terminated: bool,
}

/// The counter after one more id has been handed out.
pub open spec fn next_counter(counter: u32) -> u32 {
    if counter == u32::MAX {
        0
    } else {
        (counter + 1) as u32
    }
}

impl SessionView {
    /// A session that has just been made.
    pub open spec fn initial() -> SessionView {
        SessionView { shells: Map::empty(), order: Seq::empty(), counter: 1, terminated: false }
    }

    /// Whether `id` names a shell that has been added and not closed.
    pub open spec fn is_open(self, id: u32) -> bool {
        self.shells.contains_key(id) && !self.shells[id].closed
    }

    /// Every shell counts its bytes rightly, and the list shows each open
    /// shell once and no other.
    pub open spec fn wf(self) -> bool {
        &&& forall|id: u32| self.shells.contains_key(id) ==> (#[trigger] self.shells[id]).wf()
        &&& distinct(self.order)
        &&& forall|id: u32| #[trigger] shows(self.order, id) <==> self.is_open(id)
    }

    /// The sequence number of each open shell.
    pub open spec fn sequence_numbers(self) -> Map<u32, u64> {
        Map::new(|id: u32| self.is_open(id), |id: u32| self.shells[id].seqnum)
    }

    /// Whether shell `id` is open and a fragment of `len` bytes that starts
    /// at offset `seq` reaches across the end of its stream.
    pub open spec fn takes(self, id: u32, seq: u64, len: nat) -> bool {
        self.is_open(id) && accepts(self.shells[id].seqnum, seq, len)
    }

    /// Why a shell cannot be updated, if it cannot.
    pub open spec fn refusal(self, id: u32) -> Option<SessionError> {
        if !self.shells.contains_key(id) {
            Some(SessionError::NotFound { id, action: ShellAction::Update })
        } else if self.shells[id].closed {
            Some(SessionError::Closed(id))
        } else {
            None
        }
    }

    /// Adding a shell that is given the notifier `notify`: refused if the id
    /// was ever used, else the shell is open and empty and stands last in
    /// the list.
    pub open spec fn add_shell(self, id: u32, notify: Arc<Notify>) -> Result<
        SessionView,
        SessionError,
    > {
        if self.shells.contains_key(id) {
            Err(SessionError::AlreadyExists(id))
        } else {
            Ok(
                SessionView {
                    shells: self.shells.insert(id, ShellView::fresh(notify)),
                    order: LayoutEdit::Open(id).apply(self.order),
                    ..self
                },
            )
        }
    }

    /// Closing a shell: refused if it was never added, nothing if it is
    /// closed already, else it is marked closed and leaves the list.
    pub open spec fn close_shell(self, id: u32) -> Result<SessionView, SessionError> {
        if !self.shells.contains_key(id) {
            Err(SessionError::NotFound { id, action: ShellAction::Close })
        } else if self.shells[id].closed {
            Ok(self)
        } else {
            Ok(
                SessionView {
                    shells: self.shells.insert(id, self.shells[id].close()),
                    order: LayoutEdit::Close(id).apply(self.order),
                    ..self
                },
            )
        }
    }

    /// Moving a shell: refused if it is missing or closed, else it comes to
    /// the end of the list, with the new size if one is given.
    pub open spec fn move_shell(self, id: u32, size: Option<WsWinsize>) -> Result<
        SessionView,
        SessionError,
    > {
        match self.refusal(id) {
            Some(e) => Err(e),
            None => Ok(SessionView { order: LayoutEdit::Focus(id, size).apply(self.order), ..self }),
        }
    }

    /// Receiving a fragment: refused if the shell is missing or closed, else
    /// the shell's log follows the ingestion rule.
    pub open spec fn add_data(self, id: u32, text: Seq<char>, seq: u64, ts: u64) -> Result<
        SessionView,
        SessionError,
    > {
        match self.refusal(id) {
            Some(e) => Err(e),
            None => match ingest(self.shells[id], text, seq, ts) {
                Ok(shell) => Ok(SessionView { shells: self.shells.insert(id, shell), ..self }),
                Err(e) => Err(e),
            },
        }
    }

    /// Handing out an id moves the counter on.
    pub open spec fn next_id(self) -> SessionView {
        SessionView { counter: next_counter(self.counter), ..self }
    }

    /// Shutting down sets the flag and nothing else.
    pub open spec fn shutdown(self) -> SessionView {
        SessionView { terminated: true, ..self }
    }
}

/// Whether an operation did what its model says: on success the session is
/// the one the model gives, on refusal the error is the model's and the
/// session is as before.
pub open spec fn follows(
    before: SessionView,
    after: SessionView,
    result: Result<(), SessionError>,
    model: Result<SessionView, SessionError>,
) -> bool {
    match model {
        Ok(session) => result is Ok && after == session,
        Err(e) => result == Err::<(), SessionError>(e) && after == before,
    }
}

/// In-memory state for a single session.
pub struct Session {
    /// In-memory state for the session.
    shells: DashMap<u32, ShellState>,
    /// Counter to get new, unique IDs.
    counter: u32,
    /// Read-only timestamp when the session was started.
    created: Instant,
    /// Timestamp of the last client message from an active connection.
    updated: Instant,
    /// Watch channel source for the ordered list of open shells and sizes.
    source: watch::Sender<Vec<Placement>>,
    /// Sender end of the queue that buffers commands for the agent.
    update_tx: Sender<ServerMessage>,
    /// Receiver end of the queue that buffers commands for the agent.
    update_rx: Receiver<ServerMessage>,
    /// Set when this session has been closed and removed.
    shutdown: Shutdown,
}

impl View for Session {
    type V = SessionView;

    closed spec fn view(&self) -> SessionView {
        SessionView {
            shells: shell_entries(self.shells),
            order: published(self.source),
            counter: self.counter,
            terminated: self.shutdown@,
        }
    }
}

impl Session {
    /// The session's model is well formed and its queue has the room it was
    /// made with.
    pub closed spec fn wf(&self) -> bool {
        &&& self@.wf()
        &&& queue_limit(self.update_tx) == OUTBOUND_LIMIT
    }

    /// When a client was last heard of.
    pub closed spec fn last_access(&self) -> Instant {
        self.updated
    }

    /// When the session was made.
    pub closed spec fn created_at(&self) -> Instant {
        self.created
    }

    /// The notifier that is woken when the session is shut down.
    pub closed spec fn bell(&self) -> Arc<Notify> {
        self.shutdown.bell()
    }

    /// The sending end of the queue for the agent.
    pub closed spec fn outbound(&self) -> Sender<ServerMessage> {
        self.update_tx
    }

    /// The receiving end of the queue for the agent.
    pub closed spec fn inbound(&self) -> Receiver<ServerMessage> {
        self.update_rx
    }

    /// Whether the session has what `before` was made with: the instant of
    /// its creation, the two ends of the queue and the notifier of the
    /// shutdown signal. No operation changes them.
    pub open spec fn same_fixtures(&self, before: Session) -> bool {
        &&& self.created_at() == before.created_at()
        &&& self.outbound() == before.outbound()
        &&& self.inbound() == before.inbound()
        &&& self.bell() == before.bell()
    }

    /// A well-formed session has a well-formed model, and its queue holds
    /// up to 256 commands.
    pub proof fn lemma_wf(&self)
        requires
            self.wf(),
        ensures
            self@.wf(),
            queue_limit(self.outbound()) == 256,
    {
    }

    /// Construct a new session.
    pub fn new() -> (session: Session)
        ensures
            session.wf(),
            session@ == SessionView::initial(),
            queue_limit(session.outbound()) == 256,
            session.last_access() == session.created_at(),
    {
        let created = now();
        let (update_tx, update_rx) = bounded_queue(OUTBOUND_LIMIT);
        let session = Session {
            shells: shells_new(),
            counter: 1,
            created,
            updated: created,
            source: new_source(),
            update_tx,
            update_rx,
            shutdown: Shutdown::new(),
        };
        assert(session@.shells =~= Map::empty());
        session
    }

    /// Returns the next unique ID (used for shells and users). The counter
    /// has 32 bits and starts again at zero once they are used up.
    pub fn next_id(&mut self) -> (id: u32)
        ensures
            id == old(self)@.counter,
            final(self)@ == old(self)@.next_id(),
            old(self).wf() ==> final(self).wf(),
            final(self).last_access() == old(self).last_access(),
            final(self).same_fixtures(*old(self)),
    {
        let id = self.counter;
        self.counter = id.wrapping_add(1);
        id
    }

    /// Return the sequence numbers for current shells.
    pub fn sequence_numbers(&self) -> (seqnums: HashMap<u32, u64>)
        ensures
            seqnums@ == self@.sequence_numbers(),
    {
        broadcast use vstd::std_specs::hash::group_hash_axioms;

        let ids = shells_ids(&self.shells);
        let mut seqnums: HashMap<u32, u64> = HashMap::with_capacity(ids.len());
        let mut i: usize = 0;
        while i < ids.len()
            invariant
                i <= ids.len(),
                ids@.no_duplicates(),
                ids@.to_set() == self@.shells.dom(),
                forall|id: u32| #[trigger]
                    seqnums@.contains_key(id) <==> self@.is_open(id) && ids@.subrange(
                        0,
                        i as int,
                    ).contains(id),
                forall|id: u32| #[trigger]
                    seqnums@.contains_key(id) ==> seqnums@[id] == self@.shells[id].seqnum,
            decreases ids.len() - i,
        {
            let id = ids[i];
            let ghost done = ids@.subrange(0, i as int);
            let ghost next = ids@.subrange(0, i + 1);
            proof {
                assert(ids@.contains(id));
                assert(ids@.to_set().contains(id));
                assert(next =~= done.push(id));
                assert forall|x: u32| next.contains(x) <==> done.contains(x) || x == id by {
                    if done.contains(x) {
                        let k = choose|k: int| 0 <= k < done.len() && done[k] == x;
                        assert(next[k] == x);
                    }
                    if x == id {
                        assert(next[i as int] == x);
                    }
                }
            }
            match shells_peek(&self.shells, id, u64::MAX) {
                Some(seen) => {
                    if !seen.closed {
                        seqnums.insert(id, seen.seqnum);
                    }
                },
                None => {},
            }
            i = i + 1;
        }
        proof {
            assert(ids@.subrange(0, i as int) =~= ids@);
            assert forall|id: u32| self@.is_open(id) implies ids@.contains(id) by {
                assert(ids@.to_set().contains(id));
            }
            assert(seqnums@ =~= self@.sequence_numbers());
        }
        seqnums
    }

    /// Takes a look at a shell for a reader who has seen its first `from`
    /// fragments. There is nothing to see of a shell that was never added.
    pub fn peek_shell(&self, id: u32, from: u64) -> (seen: Option<ShellPeek>)
        ensures
            match seen {
                Some(seen) => self@.shells.contains_key(id) && seen@ == peek(
                    self@.shells[id],
                    from,
                ),
                None => !self@.shells.contains_key(id),
            },
    {
        shells_peek(&self.shells, id, from)
    }

    /// Subscribe for chunks from a shell, until it is closed, starting at
    /// the fragment with the index `chunknum`.
    pub fn subscribe_chunks(&self, id: u32, chunknum: u64) -> (cursor: ChunkCursor)
        ensures
            cursor.id() == id,
            cursor.position() == chunknum,
    {
        ChunkCursor::new(id, chunknum)
    }

    /// The list of open shells as it stands now.
    pub fn shells(&self) -> (order: Vec<Placement>)
        ensures
            order@ == self@.order,
    {
        latest(&self.source)
    }

    /// Receive a notification every time the set of shells is changed. The
    /// receiver belongs to this session's list and has seen it as it stands
    /// now; it is told of every later change, though changes that follow
    /// closely may reach it as one.
    pub fn subscribe_shells(&self) -> (receiver: watch::Receiver<Vec<Placement>>)
        ensures
            watched(receiver) == self@.order,
    {
        subscribe(&self.source)
    }

    /// Add a new shell to the session.
    pub fn add_shell(&mut self, id: u32) -> (result: Result<(), SessionError>)
        requires
            old(self).wf(),
        ensures
            final(self).wf(),
            follows(
                old(self)@,
                final(self)@,
                result,
                old(self)@.add_shell(id, final(self)@.shells[id].notify),
            ),
            final(self).last_access() == old(self).last_access(),
            final(self).same_fixtures(*old(self)),
    {
        if shells_contains(&self.shells, id) {
            return Err(SessionError::AlreadyExists(id));
        }
        shells_insert(&mut self.shells, id, ShellState::new());
        publish(&mut self.source, LayoutEdit::Open(id));
        proof {
            lemma_open(old(self)@.order, id);
        }
        Ok(())
    }

    /// Terminates an existing shell.
    pub fn close_shell(&mut self, id: u32) -> (result: Result<(), SessionError>)
        requires
            old(self).wf(),
        ensures
            final(self).wf(),
            follows(old(self)@, final(self)@, result, old(self)@.close_shell(id)),
            final(self).last_access() == old(self).last_access(),
            final(self).same_fixtures(*old(self)),
    {
        match shells_remove(&mut self.shells, id) {
            Some(mut shell) => {
                if shell.is_closed() {
                    shells_insert(&mut self.shells, id, shell);
                    assert(self@.shells =~= old(self)@.shells);
                } else {
                    shell.close();
                    shells_insert(&mut self.shells, id, shell);
                    publish(&mut self.source, LayoutEdit::Close(id));
                    proof {
                        lemma_close(old(self)@.order, id);
                        assert(self@.shells =~= old(self)@.shells.insert(
                            id,
                            old(self)@.shells[id].close(),
                        ));
                    }
                }
                Ok(())
            },
            None => Err(SessionError::NotFound { id, action: ShellAction::Close }),
        }
    }

    /// Takes an open shell out of the map, to be changed and put back.
    fn take_open(&mut self, id: u32) -> (result: Result<ShellState, SessionError>)
        ensures
            match old(self)@.refusal(id) {
                Some(e) => result == Err::<ShellState, SessionError>(e) && final(self)@ == old(
                    self,
                )@,
                None => result is Ok && result->Ok_0@ == old(self)@.shells[id] && final(self)@ == (
                SessionView { shells: old(self)@.shells.remove(id), ..old(self)@ }),
            },
            final(self).last_access() == old(self).last_access(),
            final(self).same_fixtures(*old(self)),
    {
        match shells_remove(&mut self.shells, id) {
            Some(shell) => {
                if shell.is_closed() {
                    shells_insert(&mut self.shells, id, shell);
                    assert(self@.shells =~= old(self)@.shells);
                    Err(SessionError::Closed(id))
                } else {
                    Ok(shell)
                }
            },
            None => Err(SessionError::NotFound { id, action: ShellAction::Update }),
        }
    }

    /// Change the size of a terminal, notifying clients if necessary.
    pub fn move_shell(&mut self, id: u32, winsize: Option<WsWinsize>) -> (result: Result<
        (),
        SessionError,
    >)
        requires
            old(self).wf(),
        ensures
            final(self).wf(),
            follows(old(self)@, final(self)@, result, old(self)@.move_shell(id, winsize)),
            final(self).last_access() == old(self).last_access(),
            final(self).same_fixtures(*old(self)),
    {
        match self.take_open(id) {
            Ok(shell) => {
                shells_insert(&mut self.shells, id, shell);
                publish(&mut self.source, LayoutEdit::Focus(id, winsize));
                proof {
                    lemma_focus(old(self)@.order, id, winsize);
                    assert(self@.shells =~= old(self)@.shells);
                }
                Ok(())
            },
            Err(e) => Err(e),
        }
    }

    /// Receive new data into the session, stamping it with `now_ms`, the
    /// milliseconds that have gone by since the session was made.
    pub fn add_data_at(&mut self, id: u32, data: &str, seq: u64, now_ms: u64) -> (result: Result<
        (),
        SessionError,
    >)
        requires
            old(self).wf(),
            old(self)@.takes(id, seq, data.spec_bytes().len()) ==> seq + data.spec_bytes().len()
                <= u64::MAX,
        ensures
            final(self).wf(),
            follows(old(self)@, final(self)@, result, old(self)@.add_data(id, data@, seq, now_ms)),
            final(self).last_access() == old(self).last_access(),
            final(self).same_fixtures(*old(self)),
    {
        match self.take_open(id) {
            Ok(mut shell) => {
                let result = shell.ingest(data, seq, now_ms);
                shells_insert(&mut self.shells, id, shell);
                proof {
                    match ingest(old(self)@.shells[id], data@, seq, now_ms) {
                        Ok(after) => {
                            assert(self@.shells =~= old(self)@.shells.insert(id, after));
                        },
                        Err(_) => {
                            assert(self@.shells =~= old(self)@.shells);
                        },
                    }
                }
                result
            },
            Err(e) => Err(e),
        }
    }

    /// Receive new data into the session. The new entry, if there is one,
    /// is stamped with the time that has gone by since the session was made.
    pub fn add_data(&mut self, id: u32, data: &str, seq: u64) -> (result: Result<
        (),
        SessionError,
    >)
        requires
            old(self).wf(),
            old(self)@.takes(id, seq, data.spec_bytes().len()) ==> seq + data.spec_bytes().len()
                <= u64::MAX,
        ensures
            final(self).wf(),
            exists|now_ms: u64|
                follows(
                    old(self)@,
                    final(self)@,
                    result,
                    #[trigger] old(self)@.add_data(id, data@, seq, now_ms),
                ),
            final(self).last_access() == old(self).last_access(),
            final(self).same_fixtures(*old(self)),
    {
        let now_ms = elapsed_ms(&self.created);
        self.add_data_at(id, data, seq, now_ms)
    }

    /// Register a client message that arrived at the instant `at`.
    pub fn access_at(&mut self, at: Instant)
        ensures
            final(self).last_access() == at,
            final(self)@ == old(self)@,
            old(self).wf() ==> final(self).wf(),
            final(self).same_fixtures(*old(self)),
    {
        self.updated = at;
    }

    /// Register a client message, refreshing the last update timestamp.
    pub fn access(&mut self)
        ensures
            final(self)@ == old(self)@,
            old(self).wf() ==> final(self).wf(),
            final(self).same_fixtures(*old(self)),
    {
        let at = now();
        self.access_at(at);
    }

    /// When the session was made.
    pub fn created(&self) -> (at: Instant)
        ensures
            at == self.created_at(),
    {
        self.created
    }

    /// When a client was last heard of.
    pub fn updated(&self) -> (at: Instant)
        ensures
            at == self.last_access(),
    {
        self.updated
    }

    /// Access the sender of the command queue for this session.
    pub fn update_tx(&self) -> (sender: &Sender<ServerMessage>)
        ensures
            *sender == self.outbound(),
    {
        &self.update_tx
    }

    /// Access the receiver of the command queue for this session.
    pub fn update_rx(&self) -> (receiver: &Receiver<ServerMessage>)
        ensures
            *receiver == self.inbound(),
    {
        &self.update_rx
    }

    /// Send a termination signal to exit this session.
    pub fn shutdown(&mut self)
        ensures
            final(self)@ == old(self)@.shutdown(),
            old(self).wf() ==> final(self).wf(),
            final(self).last_access() == old(self).last_access(),
            final(self).same_fixtures(*old(self)),
    {
        self.shutdown.shutdown();
        assert(forall|id: u32| self@.is_open(id) == old(self)@.is_open(id));
    }

    /// Whether the session has received a shutdown signal.
    pub fn is_terminated(&self) -> (terminated: bool)
        ensures
            terminated == self@.terminated,
    {
        self.shutdown.is_terminated()
    }

    /// The notifier that is woken when the session is shut down. A task
    /// that waits for the end of the session registers on it first and
    /// looks at [`Session::is_terminated`] after.
    pub fn terminated(&self) -> (notifier: Arc<Notify>)
        ensures
            notifier == self.bell(),
    {
        self.shutdown.notifier()
    }
}

impl Default for Session {
    fn default() -> (session: Session)
        ensures
            session.wf(),
            session@ == SessionView::initial(),
    {
        Session::new()
    }
}

} // verus!
