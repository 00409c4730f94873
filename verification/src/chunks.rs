//! Tailing a shell's log.
//!
//! A subscriber keeps a cursor: the number of fragments it has seen. Each
//! time it is woken it polls. A poll ends the subscription if the session
//! has shut down or the shell is gone or closed, hands over every fragment
//! from the cursor on if there are any, and otherwise tells the subscriber
//! to park until the shell's notifier or the shutdown signal wakes it.
//!
//! A subscriber must register with the shell's notifier before it polls.
//! A fragment that arrives between the poll and the park then still wakes
//! it; registered after the poll, the subscriber would sleep through it.

use crate::protocol::{chunks_view, Chunk, ChunkView};
use crate::schedule::extends;
use crate::session::{Session, SessionView};
use vstd::prelude::*;

verus! {

/// The model of what a poll hands back.
pub ghost enum PollView {
    /// The subscription is over.
    Ended,
    /// Nothing new: park until woken.
    Pending,
    /// The fragments that the subscriber had not seen.
    Batch(Seq<ChunkView>),
}

/// What a poll of shell `id` gives to a subscriber that has seen `cursor`
/// fragments, and the number it has seen after.
pub open spec fn poll(session: SessionView, id: u32, cursor: u64) -> (PollView, u64) {
    if session.terminated || !session.is_open(id) {
        (PollView::Ended, cursor)
    } else {
        let data = session.shells[id].data;
        if cursor < data.len() {
            (PollView::Batch(data.subrange(cursor as int, data.len() as int)), data.len() as u64)
        } else {
            (PollView::Pending, cursor)
        }
    }
}

/// What a subscriber that starts at `start` has collected, and where its
/// cursor stands, after it has polled shell `id` once in each of `states`.
pub open spec fn collect(states: Seq<SessionView>, id: u32, start: u64) -> (Seq<ChunkView>, u64)
    decreases states.len(),
{
    if states.len() == 0 {
        (Seq::empty(), start)
    } else {
        let (got, cursor) = collect(states.drop_last(), id, start);
        let (outcome, next) = poll(states.last(), id, cursor);
        match outcome {
            PollView::Batch(batch) => (got + batch, next),
            _ => (got, next),
        }
    }
}

/// Whether the log of shell `id` only grows from each of `states` to the
/// next, as it does whatever is done to a session.
pub open spec fn log_grows(states: Seq<SessionView>, id: u32) -> bool {
    &&& forall|i: int|
        0 <= i < states.len() ==> {
            &&& (#[trigger] states[i]).shells.contains_key(id)
            &&& states[i].shells[id].data.len() <= u64::MAX
        }
    &&& forall|i: int, j: int|
        0 <= i <= j < states.len() ==> extends(
            (#[trigger] states[j]).shells[id].data,
            (#[trigger] states[i]).shells[id].data,
        )
}

/// No-gap delivery. However often a subscriber polls, and whatever is
/// appended in between, the batches that it is handed are, put together,
/// the stretch of the log from where it started to where its cursor
/// stands: every fragment in between once, in order, none left out.
pub proof fn lemma_no_gaps(states: Seq<SessionView>, id: u32, start: u64)
    requires
        states.len() > 0,
        log_grows(states, id),
    ensures
        ({
            let (got, cursor) = collect(states, id, start);
            let log = states.last().shells[id].data;
            &&& cursor == start + got.len()
            &&& got.len() > 0 ==> cursor <= log.len()
            &&& forall|k: int| 0 <= k < got.len() ==> #[trigger] got[k] == log[start + k]
        }),
    decreases states.len(),
{
    let rest = states.drop_last();
    let last = states.last();
    let log = last.shells[id].data;
    let (got, cursor) = collect(rest, id, start);
    assert(last == states[states.len() - 1]);
    if rest.len() > 0 {
        assert(log_grows(rest, id)) by {
            assert forall|i: int| 0 <= i < rest.len() implies {
                &&& (#[trigger] rest[i]).shells.contains_key(id)
                &&& rest[i].shells[id].data.len() <= u64::MAX
            } by {
                assert(states[i].shells.contains_key(id));
            }
            assert forall|i: int, j: int| 0 <= i <= j < rest.len() implies extends(
                (#[trigger] rest[j]).shells[id].data,
                (#[trigger] rest[i]).shells[id].data,
            ) by {
                assert(extends(states[j].shells[id].data, states[i].shells[id].data));
            }
        }
        lemma_no_gaps(rest, id, start);
        let earlier = rest.last().shells[id].data;
        assert(rest.last() == states[states.len() - 2]);
        assert(extends(states[states.len() - 1].shells[id].data, states[states.len() - 2].shells[id].data));
        assert forall|k: int| 0 <= k < got.len() implies #[trigger] got[k] == log[start + k] by {
            assert(got[k] == earlier[start + k]);
            assert(log.subrange(0, earlier.len() as int)[start + k] == log[start + k]);
        }
    }
}

/// What a poll hands back.
#[derive(Debug, Clone, PartialEq, Eq)]
pub enum ChunkPoll {
    /// The subscription is over: the session has shut down, or the shell
    /// is closed or was never there.
    Ended,
    /// Nothing new: park until the shell's notifier or the shutdown signal
    /// fires, then poll again.
    Pending,
    /// The fragments that the subscriber had not seen, in the order in
    /// which they were appended.
    Batch(Vec<Chunk>),
}

impl View for ChunkPoll {
    type V = PollView;

    open spec fn view(&self) -> PollView {
        match self {
            ChunkPoll::Ended => PollView::Ended,
            ChunkPoll::Pending => PollView::Pending,
            ChunkPoll::Batch(chunks) => PollView::Batch(chunks_view(chunks@)),
        }
    }
}

/// A subscriber's place in a shell's log.
#[derive(Debug, Clone, Copy, PartialEq, Eq)]
pub struct ChunkCursor {
    id: u32,
    next: u64,
}

impl ChunkCursor {
    /// The shell that the subscriber follows.
    pub closed spec fn id(&self) -> u32 {
        self.id
    }

    /// The number of fragments that the subscriber has seen.
    pub closed spec fn position(&self) -> u64 {
        self.next
    }

    /// A cursor on shell `id` that stands before the fragment `start`.
    pub fn new(id: u32, start: u64) -> (cursor: ChunkCursor)
        ensures
            cursor.id() == id,
            cursor.position() == start,
    {
        ChunkCursor { id, next: start }
    }

    /// The shell that the subscriber follows.
    pub fn shell(&self) -> (id: u32)
        ensures
            id == self.id(),
    {
        self.id
    }

    /// The number of fragments that the subscriber has seen.
    pub fn seen(&self) -> (next: u64)
        ensures
            next == self.position(),
    {
        self.next
    }

    /// Looks for fragments that the subscriber has not seen, and moves the
    /// cursor past those it hands over.
    pub fn poll(&mut self, session: &Session) -> (outcome: ChunkPoll)
        ensures
            final(self).id() == old(self).id(),
            (outcome@, final(self).position()) == poll(
                session@,
                old(self).id(),
                old(self).position(),
            ),
    {
        if session.is_terminated() {
            return ChunkPoll::Ended;
        }
        match session.peek_shell(self.id, self.next) {
            Some(seen) => {
                if seen.closed {
                    ChunkPoll::Ended
                } else if self.next < seen.len as u64 {
                    self.next = seen.len as u64;
                    ChunkPoll::Batch(seen.tail)
                } else {
                    ChunkPoll::Pending
                }
            },
            None => ChunkPoll::Ended,
        }
    }
}

} // verus!
