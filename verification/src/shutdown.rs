//! A signal that is fired once and stays fired.

use crate::wake::{new_notifier, share_notifier, wake_waiters};
use std::sync::Arc;
use tokio::sync::Notify;
use vstd::prelude::*;

verus! {

/// A one-shot signal. Firing it twice is the same as firing it once.
pub struct Shutdown {
    fired: bool,
    notify: Arc<Notify>,
}

impl View for Shutdown {
    type V = bool;

    /// Whether the signal has been fired.
    closed spec fn view(&self) -> bool {
        self.fired
    }
}

impl Shutdown {
    /// The notifier that is woken when the signal is fired.
    pub closed spec fn bell(&self) -> Arc<Notify> {
        self.notify
    }

    /// A signal that has not been fired.
    pub fn new() -> (signal: Shutdown)
        ensures
            !signal@,
    {
        Shutdown { fired: false, notify: Arc::new(new_notifier()) }
    }

    /// Fires the signal and wakes whoever waits for it.
    pub fn shutdown(&mut self)
        ensures
            final(self)@,
            final(self).bell() == old(self).bell(),
    {
        self.fired = true;
        wake_waiters(&self.notify);
    }

    /// Whether the signal has been fired.
    pub fn is_terminated(&self) -> (fired: bool)
        ensures
            fired == self@,
    {
        self.fired
    }

    /// The notifier that is woken when the signal is fired. A task that
    /// waits for the signal registers on it first and looks at
    /// [`Shutdown::is_terminated`] after.
    pub fn notifier(&self) -> (notifier: Arc<Notify>)
        ensures
            notifier == self.bell(),
    {
        share_notifier(&self.notify)
    }
}

} // verus!
