//! The bounded queue of commands for the upstream agent.
//!
//! The queue is an `async_channel` channel. The session makes it and hands
//! out its two ends; sending and receiving wait for room or for a message,
//! and are left to the tasks that hold the ends.

use crate::protocol::ServerMessage;
use async_channel::{Receiver, Sender};
use vstd::prelude::*;

verus! {

#[verifier::external_type_specification]
#[verifier::external_body]
#[verifier::reject_recursive_types(T)]
pub struct ExQueueSender<T>(Sender<T>);

#[verifier::external_type_specification]
#[verifier::external_body]
#[verifier::reject_recursive_types(T)]
pub struct ExQueueReceiver<T>(Receiver<T>);

/// The number of messages that the queue behind a sending end can hold at a
/// time.
pub uninterp spec fn queue_limit(sender: Sender<ServerMessage>) -> nat;

/// Calls `async_channel::bounded`, which makes a queue with room for `limit`
/// messages. It panics on a limit of zero and sets up a slot for every
/// message at once, so the limits admitted here are those from one to
/// 65536, for which it neither panics nor asks for much memory.
#[verifier::external_body]
pub(crate) fn bounded_queue(limit: usize) -> (ends: (
    Sender<ServerMessage>,
    Receiver<ServerMessage>,
))
    requires
        0 < limit <= 65536,
    ensures
        queue_limit(ends.0) == limit,
{
    async_channel::bounded(limit)
}

} // verus!
