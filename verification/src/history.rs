//! What holds of a session over a whole run of operations.
//!
//! Each operation of a session has a model in [`SessionView`]. Here the
//! operations are taken together: whatever is done to a session, and in
//! whatever order, its model stays well formed, no shell loses a byte, a
//! closed shell is never touched again, ids are not handed out twice, and a
//! session that has shut down stays shut down.

use crate::chunks::{poll, PollView};
use crate::layout::{lemma_close, lemma_focus, lemma_open, shows};
use crate::protocol::WsWinsize;
use crate::schedule::{extends, lemma_receive, lemma_receive_grows, receive, Fragment};
use crate::session::{next_counter, SessionView};
use crate::shell::{stream_bytes, ShellView};
use std::sync::Arc;
use tokio::sync::Notify;
use vstd::prelude::*;

verus! {

/// One operation on a session.
pub ghost enum Operation {
    /// Hand out an id.
    NextId,
    /// Add a shell, which is given a notifier.
    AddShell(u32, Arc<Notify>),
    /// Close a shell.
    CloseShell(u32),
    /// Move or resize a shell.
    MoveShell(u32, Option<WsWinsize>),
    /// Hand a fragment to a shell.
    AddData(u32, Fragment),
    /// Note that a client is alive.
    Access,
    /// Shut the session down.
    Shutdown,
}

impl Operation {
    /// Whether the operation can be asked of the session. A fragment that
    /// an open shell would take must end at an offset that 64 bits can
    /// hold; everything else can always be asked for.
    pub open spec fn fits_in(self, session: SessionView) -> bool {
        match self {
            Operation::AddData(id, call) => session.is_open(id) ==> call.fits_in(
                session.shells[id],
            ),
            _ => true,
        }
    }
}

/// What a result leaves of the session: the new one on success, the old
/// one on refusal.
pub open spec fn settle<E>(session: SessionView, outcome: Result<SessionView, E>) -> SessionView {
    match outcome {
        Ok(after) => after,
        Err(_) => session,
    }
}

/// The session after one operation.
pub open spec fn step(session: SessionView, op: Operation) -> SessionView {
    match op {
        Operation::NextId => session.next_id(),
        Operation::AddShell(id, notify) => settle(session, session.add_shell(id, notify)),
        Operation::CloseShell(id) => settle(session, session.close_shell(id)),
        Operation::MoveShell(id, size) => settle(session, session.move_shell(id, size)),
        Operation::AddData(id, call) => settle(
            session,
            session.add_data(id, call.text, call.seq, call.ts),
        ),
        Operation::Access => session,
        Operation::Shutdown => session.shutdown(),
    }
}

/// The session after a run of operations.
pub open spec fn run(session: SessionView, ops: Seq<Operation>) -> SessionView
    decreases ops.len(),
{
    if ops.len() == 0 {
        session
    } else {
        step(run(session, ops.drop_last()), ops.last())
    }
}

/// Whether the run can be asked of the session: each operation, when its
/// turn comes, can be asked of the session as it is by then.
pub open spec fn admitted(session: SessionView, ops: Seq<Operation>) -> bool
    decreases ops.len(),
{
    ops.len() == 0 || (admitted(session, ops.drop_last()) && ops.last().fits_in(
        run(session, ops.drop_last()),
    ))
}

/// How a session may differ from an earlier one: every shell is still
/// there, with its notifier and with no byte and no entry lost; a shell
/// that was closed is as it was; a session that was shut down still is.
pub open spec fn succeeds(later: SessionView, earlier: SessionView) -> bool {
    &&& forall|id: u32| #[trigger]
        earlier.shells.contains_key(id) ==> {
            &&& later.shells.contains_key(id)
            &&& later.shells[id].notify == earlier.shells[id].notify
            &&& later.shells[id].seqnum >= earlier.shells[id].seqnum
            &&& extends(later.shells[id].data, earlier.shells[id].data)
            &&& earlier.shells[id].closed ==> later.shells[id] == earlier.shells[id]
        }
    &&& earlier.terminated ==> later.terminated
}

/// A receiving shell's data fed through the session is the shell's own
/// ingestion.
proof fn lemma_add_data(session: SessionView, id: u32, call: Fragment)
    requires
        session.is_open(id),
    ensures
        step(session, Operation::AddData(id, call)).shells == session.shells.insert(
            id,
            receive(session.shells[id], call),
        ),
        step(session, Operation::AddData(id, call)).order == session.order,
{
    let after = step(session, Operation::AddData(id, call));
    assert(after.shells =~= session.shells.insert(id, receive(session.shells[id], call)));
}

/// One operation keeps the model well formed.
pub proof fn lemma_step_wf(session: SessionView, op: Operation)
    requires
        session.wf(),
        op.fits_in(session),
    ensures
        step(session, op).wf(),
{
    let after = step(session, op);
    match op {
        Operation::NextId => {
            assert(forall|id: u32| after.is_open(id) == session.is_open(id));
        },
        Operation::AddShell(id, notify) => {
            if !session.shells.contains_key(id) {
                lemma_open(session.order, id);
                assert(stream_bytes(ShellView::fresh(notify).data) =~= Seq::empty());
                assert(!shows(session.order, id));
                assert forall|x: u32| #[trigger] shows(after.order, x) <==> after.is_open(x) by {
                    assert(shows(session.order, x) <==> session.is_open(x));
                }
            }
        },
        Operation::CloseShell(id) => {
            if session.is_open(id) {
                lemma_close(session.order, id);
                assert forall|x: u32| #[trigger] shows(after.order, x) <==> after.is_open(x) by {
                    assert(shows(session.order, x) <==> session.is_open(x));
                }
                assert forall|x: u32| after.shells.contains_key(x) implies (
                #[trigger] after.shells[x]).wf() by {
                    assert(session.shells[x].wf());
                }
            }
        },
        Operation::MoveShell(id, size) => {
            if session.is_open(id) {
                lemma_focus(session.order, id, size);
                assert forall|x: u32| #[trigger] shows(after.order, x) <==> after.is_open(x) by {
                    assert(shows(session.order, x) <==> session.is_open(x));
                }
            }
        },
        Operation::AddData(id, call) => {
            if session.is_open(id) {
                lemma_add_data(session, id, call);
                assert(session.shells[id].wf());
                lemma_receive(session.shells[id], call);
                assert forall|x: u32| #[trigger] shows(after.order, x) <==> after.is_open(x) by {
                    assert(shows(session.order, x) <==> session.is_open(x));
                }
                assert forall|x: u32| after.shells.contains_key(x) implies (
                #[trigger] after.shells[x]).wf() by {
                    if x != id {
                        assert(session.shells[x].wf());
                    }
                }
            }
        },
        Operation::Access => {},
        Operation::Shutdown => {
            assert(forall|id: u32| after.is_open(id) == session.is_open(id));
        },
    }
}

/// One operation loses nothing: see [`succeeds`].
pub proof fn lemma_step_succeeds(session: SessionView, op: Operation)
    requires
        session.wf(),
        op.fits_in(session),
    ensures
        succeeds(step(session, op), session),
{
    let after = step(session, op);
    assert forall|id: u32| #[trigger] session.shells.contains_key(id) implies {
        &&& after.shells.contains_key(id)
        &&& after.shells[id].notify == session.shells[id].notify
        &&& after.shells[id].seqnum >= session.shells[id].seqnum
        &&& extends(after.shells[id].data, session.shells[id].data)
        &&& session.shells[id].closed ==> after.shells[id] == session.shells[id]
    } by {
        let shell = session.shells[id];
        assert(shell.data.subrange(0, shell.data.len() as int) =~= shell.data);
        match op {
            Operation::AddData(target, call) => {
                if session.is_open(target) {
                    lemma_add_data(session, target, call);
                    assert(session.shells[target].wf());
                    lemma_receive_grows(session.shells[target], call);
                }
            },
            _ => {},
        }
    }
}

/// Nothing is lost over two stretches if nothing is lost over each.
pub proof fn lemma_succeeds_trans(last: SessionView, middle: SessionView, first: SessionView)
    requires
        succeeds(last, middle),
        succeeds(middle, first),
    ensures
        succeeds(last, first),
{
    assert forall|id: u32| #[trigger] first.shells.contains_key(id) implies {
        &&& last.shells.contains_key(id)
        &&& last.shells[id].notify == first.shells[id].notify
        &&& last.shells[id].seqnum >= first.shells[id].seqnum
        &&& extends(last.shells[id].data, first.shells[id].data)
        &&& first.shells[id].closed ==> last.shells[id] == first.shells[id]
    } by {
        assert(middle.shells.contains_key(id));
        let a = first.shells[id].data;
        let b = middle.shells[id].data;
        let c = last.shells[id].data;
        assert(c.subrange(0, a.len() as int) =~= b.subrange(0, a.len() as int));
    }
}

/// Whatever is done to a session, its model stays well formed, the
/// sequence number of a shell never goes back, no entry of a log is
/// changed or lost, a closed shell is never touched again, and a session
/// that was shut down stays shut down.
pub proof fn lemma_run(session: SessionView, ops: Seq<Operation>)
    requires
        session.wf(),
        admitted(session, ops),
    ensures
        run(session, ops).wf(),
        succeeds(run(session, ops), session),
    decreases ops.len(),
{
    if ops.len() == 0 {
        assert forall|id: u32| #[trigger] session.shells.contains_key(id) implies extends(
            session.shells[id].data,
            session.shells[id].data,
        ) by {
            let data = session.shells[id].data;
            assert(data.subrange(0, data.len() as int) =~= data);
        }
    } else {
        let rest = ops.drop_last();
        lemma_run(session, rest);
        lemma_step_wf(run(session, rest), ops.last());
        lemma_step_succeeds(run(session, rest), ops.last());
        lemma_succeeds_trans(run(session, ops), run(session, rest), session);
    }
}

/// Closed-shell finality. Once a shell has been closed, whatever is done
/// to the session after, the shell is exactly as it was when it was
/// closed, the list of open shells does not show it, and a subscriber
/// that polls it is told that the subscription is over.
pub proof fn lemma_closed_for_good(
    session: SessionView,
    id: u32,
    ops: Seq<Operation>,
    cursor: u64,
)
    requires
        session.wf(),
        session.shells.contains_key(id),
        admitted(step(session, Operation::CloseShell(id)), ops),
    ensures
        session.close_shell(id) is Ok,
        ({
            let closed = session.close_shell(id)->Ok_0;
            let later = run(closed, ops);
            &&& closed.shells[id].closed
            &&& later.shells.contains_key(id)
            &&& later.shells[id] == closed.shells[id]
            &&& !shows(later.order, id)
            &&& poll(later, id, cursor) == (PollView::Ended, cursor)
        }),
{
    let closed = step(session, Operation::CloseShell(id));
    lemma_step_wf(session, Operation::CloseShell(id));
    lemma_run(closed, ops);
    let later = run(closed, ops);
    assert(closed.shells.contains_key(id));
    assert(shows(later.order, id) <==> later.is_open(id));
}

/// The ids that a run of operations hands out, in the order in which it
/// does.
pub open spec fn issued(session: SessionView, ops: Seq<Operation>) -> Seq<u32>
    decreases ops.len(),
{
    if ops.len() == 0 {
        Seq::empty()
    } else {
        let before = issued(session, ops.drop_last());
        if ops.last() is NextId {
            before.push(run(session, ops.drop_last()).counter)
        } else {
            before
        }
    }
}

/// The counter moves when an id is handed out and at no other time.
pub proof fn lemma_counter(session: SessionView, ops: Seq<Operation>)
    requires
        session.counter + issued(session, ops).len() <= u32::MAX + 1,
    ensures
        run(session, ops).counter as int == (session.counter + issued(session, ops).len()) % (
        u32::MAX + 1),
        forall|i: int|
            0 <= i < issued(session, ops).len() ==> (#[trigger] issued(session, ops)[i])
                == session.counter + i,
    decreases ops.len(),
{
    if ops.len() > 0 {
        let rest = ops.drop_last();
        lemma_counter(session, rest);
        let before = run(session, rest);
        assert(step(before, ops.last()).counter == if ops.last() is NextId {
            next_counter(before.counter)
        } else {
            before.counter
        });
    }
}

/// Id uniqueness. As long as the 32 bits of the counter are not used up,
/// the ids that a session hands out grow strictly, whatever else is done
/// to the session in between; so none comes twice, and none is zero if
/// the counter was not.
pub proof fn lemma_ids_unique(session: SessionView, ops: Seq<Operation>)
    requires
        session.counter >= 1,
        session.counter + issued(session, ops).len() <= u32::MAX + 1,
    ensures
        forall|i: int, j: int|
            0 <= i < j < issued(session, ops).len() ==> (#[trigger] issued(session, ops)[i]) < (
            #[trigger] issued(session, ops)[j]),
        forall|i: int|
            0 <= i < issued(session, ops).len() ==> (#[trigger] issued(session, ops)[i]) != 0,
        issued(session, ops).no_duplicates(),
{
    lemma_counter(session, ops);
}

/// A session that has shut down ends every subscription at its next poll,
/// whatever was done to the session since.
pub proof fn lemma_shutdown_ends_polls(
    session: SessionView,
    ops: Seq<Operation>,
    id: u32,
    cursor: u64,
)
    requires
        session.wf(),
        admitted(session.shutdown(), ops),
    ensures
        run(session.shutdown(), ops).terminated,
        poll(run(session.shutdown(), ops), id, cursor) == (PollView::Ended, cursor),
{
    lemma_step_wf(session, Operation::Shutdown);
    lemma_run(session.shutdown(), ops);
}

} // verus!
