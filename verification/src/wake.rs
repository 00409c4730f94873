//! The wake primitive on which tailing subscribers park.
//!
//! Nothing here is proved: the functions hand a call to `tokio::sync::Notify`
//! and promise nothing about it. A wake releases the tasks that are parked at
//! that moment and leaves no trace for those that come later, so there is no
//! state for a contract to speak of.

use std::sync::Arc;
use tokio::sync::Notify;
use vstd::prelude::*;

verus! {

#[verifier::external_type_specification]
#[verifier::external_body]
pub struct ExNotify(Notify);

/// Calls `Notify::new`. Nothing is claimed of the notifier that comes back.
#[verifier::external_body]
pub(crate) fn new_notifier() -> (notifier: Notify) {
    Notify::new()
}

/// Calls `Arc::clone`: the result points to the same notifier as the argument.
#[verifier::external_body]
pub(crate) fn share_notifier(notifier: &Arc<Notify>) -> (shared: Arc<Notify>)
    ensures
        shared == *notifier,
{
    Arc::clone(notifier)
}

/// Calls `Notify::notify_waiters`, which releases every task parked on the
/// notifier right now. It returns nothing and nothing is claimed of it.
#[verifier::external_body]
pub(crate) fn wake_waiters(notifier: &Arc<Notify>) {
    notifier.notify_waiters();
}

} // verus!
