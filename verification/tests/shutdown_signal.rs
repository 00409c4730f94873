use std::sync::Arc;

use sshx_server::session::Session;
use sshx_server::shutdown::Shutdown;

#[test]
fn signal_starts_unfired_and_stays_fired() {
    let mut signal = Shutdown::new();
    assert!(!signal.is_terminated());
    signal.shutdown();
    assert!(signal.is_terminated());
    signal.shutdown();
    assert!(signal.is_terminated());
}

#[test]
fn waiters_share_one_notifier() {
    let signal = Shutdown::new();
    assert!(Arc::ptr_eq(&signal.notifier(), &signal.notifier()));
    let session = Session::new();
    assert!(Arc::ptr_eq(&session.terminated(), &session.terminated()));
}
