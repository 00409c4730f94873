//! The channel that broadcasts the latest list of open shells.
//!
//! The channel is a `tokio::sync::watch` channel. The value it holds goes by
//! the name [`published`], and the value that a receiver has seen by the
//! name [`watched`]; the functions below state over these names what the
//! calls do, as read off the channel's source, and none of it is proved. An
//! edit is made in place, by the verified [`apply_edit`], and every receiver
//! is told that the value has changed. The sending side never leaves the
//! session: a copy of it could change the list behind the contracts' back.

use crate::layout::{apply_edit, LayoutEdit, Placement};
use tokio::sync::watch;
use vstd::prelude::*;

verus! {

#[verifier::external_type_specification]
#[verifier::external_body]
#[verifier::reject_recursive_types(T)]
pub struct ExWatchSender<T>(watch::Sender<T>);

#[verifier::external_type_specification]
#[verifier::external_body]
#[verifier::reject_recursive_types(T)]
pub struct ExWatchReceiver<T>(watch::Receiver<T>);

/// The list that the channel holds at present.
pub uninterp spec fn published(source: watch::Sender<Vec<Placement>>) -> Seq<Placement>;

/// The list that the channel held at the version which the receiver has
/// seen last. A receiver remembers a version of its channel, not a value;
/// this is the value that belongs to that version.
pub uninterp spec fn watched(receiver: watch::Receiver<Vec<Placement>>) -> Seq<Placement>;

/// Calls `watch::channel` with an empty list and keeps the sending side.
#[verifier::external_body]
pub(crate) fn new_source() -> (source: watch::Sender<Vec<Placement>>)
    ensures
        published(source) == Seq::<Placement>::empty(),
{
    watch::channel(Vec::new()).0
}

/// Calls `Sender::send_modify`, which runs the closure on the value in the
/// channel and then notifies the receivers. The closure makes the edit.
#[verifier::external_body]
pub(crate) fn publish(source: &mut watch::Sender<Vec<Placement>>, edit: LayoutEdit)
    ensures
        published(*final(source)) == edit.apply(published(*old(source))),
{
    source.send_modify(|order| apply_edit(order, edit));
}

/// Calls `Sender::borrow`, which gives access to the value in the channel,
/// and copies it.
#[verifier::external_body]
pub(crate) fn latest(source: &watch::Sender<Vec<Placement>>) -> (order: Vec<Placement>)
    ensures
        order@ == published(*source),
{
    source.borrow().clone()
}

/// Calls `Sender::subscribe`, which makes a new receiver for the channel
/// and marks the channel's present version as seen by it: the list that the
/// receiver has seen is the one that the channel holds now.
#[verifier::external_body]
pub(crate) fn subscribe(source: &watch::Sender<Vec<Placement>>) -> (receiver: watch::Receiver<
    Vec<Placement>,
>)
    ensures
        watched(receiver) == published(*source),
{
    source.subscribe()
}

} // verus!
