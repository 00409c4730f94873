use std::collections::HashMap;
use std::sync::Arc;

use sshx_server::error::{SessionError, ShellAction};
use sshx_server::protocol::WsWinsize;
use sshx_server::session::{Session, OUTBOUND_LIMIT};

fn ids(session: &Session) -> Vec<u32> {
    session.shells().iter().map(|entry| entry.0).collect()
}

fn text_of(session: &Session, id: u32) -> String {
    let seen = session.peek_shell(id, 0).unwrap();
    seen.tail.iter().map(|chunk| chunk.1.as_str()).collect()
}

#[test]
fn new_session_is_empty() {
    let session = Session::new();
    assert!(session.shells().is_empty());
    assert!(session.sequence_numbers().is_empty());
    assert!(!session.is_terminated());
    assert!(session.peek_shell(1, 0).is_none());
}

#[test]
fn default_session_is_a_new_session() {
    let mut session = Session::default();
    assert!(session.shells().is_empty());
    assert_eq!(session.next_id(), 1);
}

#[test]
fn queue_holds_256_commands() {
    let session = Session::new();
    assert_eq!(OUTBOUND_LIMIT, 256);
    assert_eq!(session.update_tx().capacity(), Some(256));
    assert_eq!(session.update_rx().capacity(), Some(256));
    assert!(session.update_tx().is_empty());
}

#[test]
fn queue_ends_belong_together() {
    let session = Session::new();
    session
        .update_tx()
        .try_send(sshx_server::protocol::ServerMessage::CreateShell(4))
        .unwrap();
    assert_eq!(
        session.update_rx().try_recv().unwrap(),
        sshx_server::protocol::ServerMessage::CreateShell(4)
    );
}

#[test]
fn ids_start_at_one_and_grow() {
    let mut session = Session::new();
    assert_eq!(session.next_id(), 1);
    assert_eq!(session.next_id(), 2);
    assert_eq!(session.next_id(), 3);
    session.add_shell(9).unwrap();
    session.access();
    assert_eq!(session.next_id(), 4);
}

#[test]
fn ids_never_repeat_over_many_calls() {
    let mut session = Session::new();
    let mut last = 0;
    for _ in 0..10_000 {
        let id = session.next_id();
        assert!(id > last);
        last = id;
    }
    assert_eq!(last, 10_000);
}

#[test]
fn add_shell_appends_with_default_size() {
    let mut session = Session::new();
    assert_eq!(session.add_shell(7), Ok(()));
    assert_eq!(
        session.shells(),
        vec![(7, WsWinsize { x: 0, y: 0, rows: 24, cols: 80 })]
    );
    assert_eq!(session.sequence_numbers(), HashMap::from([(7, 0)]));
}

#[test]
fn add_shell_twice_is_refused() {
    let mut session = Session::new();
    session.add_shell(1).unwrap();
    assert_eq!(session.add_shell(1), Err(SessionError::AlreadyExists(1)));
    assert_eq!(ids(&session), vec![1]);
}

#[test]
fn add_shell_after_close_is_refused() {
    let mut session = Session::new();
    session.add_shell(1).unwrap();
    session.close_shell(1).unwrap();
    assert_eq!(session.add_shell(1), Err(SessionError::AlreadyExists(1)));
    assert!(session.shells().is_empty());
}

#[test]
fn close_shell_removes_it_from_the_list() {
    let mut session = Session::new();
    session.add_shell(1).unwrap();
    session.add_shell(2).unwrap();
    session.add_shell(3).unwrap();
    assert_eq!(session.close_shell(2), Ok(()));
    assert_eq!(ids(&session), vec![1, 3]);
    let seen = session.peek_shell(2, 0).unwrap();
    assert!(seen.closed);
}

#[test]
fn close_shell_twice_is_a_success_without_effect() {
    let mut session = Session::new();
    session.add_shell(1).unwrap();
    session.add_shell(2).unwrap();
    session.close_shell(1).unwrap();
    assert_eq!(session.close_shell(1), Ok(()));
    assert_eq!(ids(&session), vec![2]);
}

#[test]
fn close_missing_shell_is_refused() {
    let mut session = Session::new();
    assert_eq!(
        session.close_shell(5),
        Err(SessionError::NotFound { id: 5, action: ShellAction::Close })
    );
}

#[test]
fn move_brings_shell_to_the_end() {
    let mut session = Session::new();
    session.add_shell(1).unwrap();
    session.add_shell(2).unwrap();
    session.add_shell(3).unwrap();
    assert_eq!(ids(&session), vec![1, 2, 3]);

    session.move_shell(1, None).unwrap();
    assert_eq!(ids(&session), vec![2, 3, 1]);

    let size = WsWinsize { x: 5, y: 6, rows: 10, cols: 10 };
    session.move_shell(2, Some(size)).unwrap();
    assert_eq!(ids(&session), vec![3, 1, 2]);
    assert_eq!(session.shells()[2], (2, size));
    assert_eq!(session.shells()[1], (1, WsWinsize::default()));
}

#[test]
fn move_without_size_keeps_the_size() {
    let mut session = Session::new();
    session.add_shell(1).unwrap();
    session.add_shell(2).unwrap();
    let size = WsWinsize { x: -3, y: 40, rows: 50, cols: 132 };
    session.move_shell(1, Some(size)).unwrap();
    session.move_shell(2, None).unwrap();
    session.move_shell(1, None).unwrap();
    assert_eq!(session.shells(), vec![(2, WsWinsize::default()), (1, size)]);
}

#[test]
fn move_missing_or_closed_shell_is_refused() {
    let mut session = Session::new();
    session.add_shell(1).unwrap();
    session.add_shell(2).unwrap();
    session.close_shell(1).unwrap();
    assert_eq!(
        session.move_shell(3, None),
        Err(SessionError::NotFound { id: 3, action: ShellAction::Update })
    );
    assert_eq!(session.move_shell(1, None), Err(SessionError::Closed(1)));
    assert_eq!(ids(&session), vec![2]);
}

#[test]
fn overlapping_fragments_make_one_stream() {
    let mut session = Session::new();
    session.add_shell(1).unwrap();
    session.add_data(1, "he", 0).unwrap();
    session.add_data(1, "llo", 2).unwrap();
    session.add_data(1, "hello!", 0).unwrap();

    let seen = session.peek_shell(1, 0).unwrap();
    assert_eq!(seen.seqnum, 6);
    assert_eq!(seen.len, 3);
    let texts: Vec<&str> = seen.tail.iter().map(|chunk| chunk.1.as_str()).collect();
    assert_eq!(texts, vec!["he", "llo", "!"]);
    assert_eq!(text_of(&session, 1), "hello!");
    assert_eq!(session.sequence_numbers(), HashMap::from([(1, 6)]));
}

#[test]
fn fragment_beyond_the_end_is_ignored() {
    let mut session = Session::new();
    session.add_shell(1).unwrap();
    assert_eq!(session.add_data(1, "world", 5), Ok(()));
    let seen = session.peek_shell(1, 0).unwrap();
    assert_eq!(seen.seqnum, 0);
    assert_eq!(seen.len, 0);

    assert_eq!(session.add_data(1, "hello world", 0), Ok(()));
    let seen = session.peek_shell(1, 0).unwrap();
    assert_eq!(seen.seqnum, 11);
    assert_eq!(text_of(&session, 1), "hello world");
}

#[test]
fn fragment_at_the_last_offset_is_ignored() {
    let mut session = Session::new();
    session.add_shell(1).unwrap();
    assert_eq!(session.add_data(1, "x", u64::MAX), Ok(()));
    assert_eq!(session.sequence_numbers(), HashMap::from([(1, 0)]));
    assert_eq!(session.peek_shell(1, 0).unwrap().len, 0);

    session.close_shell(1).unwrap();
    assert_eq!(
        session.add_data(1, "xyz", u64::MAX),
        Err(SessionError::Closed(1))
    );
    assert_eq!(
        session.add_data(2, "xyz", u64::MAX),
        Err(SessionError::NotFound { id: 2, action: ShellAction::Update })
    );
}

#[test]
fn repeated_call_gives_the_same_result_and_changes_nothing() {
    let mut session = Session::new();
    session.add_shell(1).unwrap();
    session.add_data_at(1, "a", 0, 1).unwrap();
    let calls = [("bc", 1), ("\u{e9}b", 0), ("zz", 40), ("x", u64::MAX), ("", 0)];
    for (text, seq) in calls {
        let first = session.add_data_at(1, text, seq, 2);
        let before = session.peek_shell(1, 0).unwrap();
        let second = session.add_data_at(1, text, seq, 3);
        let after = session.peek_shell(1, 0).unwrap();
        assert_eq!(first.is_ok(), second.is_ok());
        assert_eq!(after.seqnum, before.seqnum);
        assert_eq!(after.tail, before.tail);
        assert_eq!(after.closed, before.closed);
    }
}

#[test]
fn duplicate_fragment_is_ignored() {
    let mut session = Session::new();
    session.add_shell(1).unwrap();
    session.add_data_at(1, "abc", 0, 10).unwrap();
    session.add_data_at(1, "abc", 0, 20).unwrap();
    session.add_data_at(1, "bc", 1, 30).unwrap();
    session.add_data_at(1, "", 3, 40).unwrap();
    let seen = session.peek_shell(1, 0).unwrap();
    assert_eq!(seen.seqnum, 3);
    assert_eq!(seen.tail, vec![(10, "abc".to_string())]);
}

#[test]
fn fragments_are_stamped_with_the_given_time() {
    let mut session = Session::new();
    session.add_shell(1).unwrap();
    session.add_data_at(1, "ab", 0, 17).unwrap();
    session.add_data_at(1, "bcd", 1, 42).unwrap();
    let seen = session.peek_shell(1, 0).unwrap();
    assert_eq!(
        seen.tail,
        vec![(17, "ab".to_string()), (42, "cd".to_string())]
    );
    assert_eq!(seen.seqnum, 4);
}

#[test]
fn suffix_inside_a_character_is_refused() {
    let mut session = Session::new();
    session.add_shell(1).unwrap();
    session.add_data_at(1, "a", 0, 1).unwrap();
    // "é" takes two bytes: the shell has one byte, so the new part would
    // start in the middle of the character.
    assert_eq!(
        session.add_data_at(1, "éb", 0, 2),
        Err(SessionError::BadEncoding)
    );
    let seen = session.peek_shell(1, 0).unwrap();
    assert_eq!(seen.seqnum, 1);
    assert_eq!(seen.tail, vec![(1, "a".to_string())]);
}

#[test]
fn sequence_number_counts_bytes_not_characters() {
    let mut session = Session::new();
    session.add_shell(1).unwrap();
    session.add_data_at(1, "é", 0, 1).unwrap();
    assert_eq!(session.peek_shell(1, 0).unwrap().seqnum, 2);
    session.add_data_at(1, "é!", 0, 2).unwrap();
    let seen = session.peek_shell(1, 0).unwrap();
    assert_eq!(seen.seqnum, 3);
    assert_eq!(
        seen.tail,
        vec![(1, "é".to_string()), (2, "!".to_string())]
    );
}

#[test]
fn data_for_missing_or_closed_shell_is_refused() {
    let mut session = Session::new();
    session.add_shell(1).unwrap();
    session.add_data(1, "ab", 0).unwrap();
    session.close_shell(1).unwrap();
    assert_eq!(session.add_data(1, "abc", 0), Err(SessionError::Closed(1)));
    assert_eq!(
        session.add_data(2, "abc", 0),
        Err(SessionError::NotFound { id: 2, action: ShellAction::Update })
    );
    let seen = session.peek_shell(1, 0).unwrap();
    assert_eq!(seen.seqnum, 2);
    assert_eq!(seen.len, 1);
}

#[test]
fn closed_shell_is_never_touched_again() {
    let mut session = Session::new();
    session.add_shell(1).unwrap();
    session.add_shell(2).unwrap();
    session.add_data_at(1, "abc", 0, 5).unwrap();
    session.close_shell(1).unwrap();

    let _ = session.add_data_at(1, "abcdef", 0, 6);
    let _ = session.move_shell(1, None);
    let _ = session.close_shell(1);
    let _ = session.add_shell(1);
    session.add_data_at(2, "xyz", 0, 7).unwrap();
    session.move_shell(2, None).unwrap();

    let seen = session.peek_shell(1, 0).unwrap();
    assert!(seen.closed);
    assert_eq!(seen.seqnum, 3);
    assert_eq!(seen.tail, vec![(5, "abc".to_string())]);
    assert_eq!(ids(&session), vec![2]);
}

#[test]
fn sequence_numbers_leave_closed_shells_out() {
    let mut session = Session::new();
    session.add_shell(1).unwrap();
    session.add_shell(2).unwrap();
    session.add_shell(3).unwrap();
    session.add_data(1, "a", 0).unwrap();
    session.add_data(2, "bcd", 0).unwrap();
    session.close_shell(1).unwrap();
    assert_eq!(session.sequence_numbers(), HashMap::from([(2, 3), (3, 0)]));
}

#[test]
fn sequence_number_never_goes_back() {
    let mut session = Session::new();
    session.add_shell(1).unwrap();
    let calls = [("abc", 0), ("zz", 9), ("bcde", 1), ("a", 0), ("efg", 4), ("", 2)];
    let mut last = 0;
    for (text, seq) in calls {
        session.add_data(1, text, seq).unwrap();
        let seqnum = session.peek_shell(1, 0).unwrap().seqnum;
        assert!(seqnum >= last);
        last = seqnum;
    }
    assert_eq!(last, 7);
    assert_eq!(text_of(&session, 1), "abcdefg");
}

#[test]
fn replaying_a_run_changes_nothing() {
    let mut session = Session::new();
    session.add_shell(1).unwrap();
    let calls = [("he", 0, 1), ("llo", 2, 2), ("hello!", 0, 3)];
    for (text, seq, at) in calls {
        session.add_data_at(1, text, seq, at).unwrap();
    }
    let before = session.peek_shell(1, 0).unwrap();
    for (text, seq, at) in calls {
        session.add_data_at(1, text, seq, at + 100).unwrap();
    }
    let after = session.peek_shell(1, 0).unwrap();
    assert_eq!(after.seqnum, before.seqnum);
    assert_eq!(after.tail, before.tail);
}

#[test]
fn replaying_a_fragment_that_left_a_gap_can_take_it() {
    let mut session = Session::new();
    session.add_shell(1).unwrap();
    session.add_data(1, "world", 5).unwrap();
    session.add_data(1, "hello", 0).unwrap();
    assert_eq!(session.peek_shell(1, 0).unwrap().seqnum, 5);
    session.add_data(1, "world", 5).unwrap();
    assert_eq!(session.peek_shell(1, 0).unwrap().seqnum, 10);
    assert_eq!(text_of(&session, 1), "helloworld");
}

#[test]
fn peek_hands_over_the_unseen_fragments() {
    let mut session = Session::new();
    session.add_shell(1).unwrap();
    session.add_data_at(1, "a", 0, 1).unwrap();
    session.add_data_at(1, "b", 1, 2).unwrap();
    session.add_data_at(1, "c", 2, 3).unwrap();
    let seen = session.peek_shell(1, 1).unwrap();
    assert_eq!(seen.len, 3);
    assert_eq!(seen.tail, vec![(2, "b".to_string()), (3, "c".to_string())]);
    assert!(session.peek_shell(1, 3).unwrap().tail.is_empty());
    assert!(session.peek_shell(1, u64::MAX).unwrap().tail.is_empty());
}

#[test]
fn shell_keeps_its_notifier_through_every_operation() {
    let mut session = Session::new();
    session.add_shell(1).unwrap();
    let bell = session.terminated();
    let first = session.peek_shell(1, 0).unwrap().notify;
    session.add_data(1, "abc", 0).unwrap();
    session.move_shell(1, None).unwrap();
    session.add_shell(2).unwrap();
    session.next_id();
    session.access();
    session.close_shell(1).unwrap();
    session.shutdown();
    let last = session.peek_shell(1, 0).unwrap().notify;
    assert!(Arc::ptr_eq(&first, &last));
    assert!(Arc::ptr_eq(&bell, &session.terminated()));
}

#[test]
fn subscriber_first_sees_the_list_as_it_stands() {
    let mut session = Session::new();
    session.add_shell(1).unwrap();
    session.add_shell(2).unwrap();
    session.close_shell(1).unwrap();
    let receiver = session.subscribe_shells();
    assert_eq!(*receiver.borrow(), vec![(2, WsWinsize { x: 0, y: 0, rows: 24, cols: 80 })]);
    assert!(!receiver.has_changed().unwrap());
}

#[test]
fn new_session_was_last_accessed_when_it_was_made() {
    let mut session = Session::new();
    assert_eq!(session.updated(), session.created());
    assert!(session.created() <= tokio::time::Instant::now());

    let made = session.created();
    session.add_shell(1).unwrap();
    session.add_data(1, "abc", 0).unwrap();
    session.access_at(made + std::time::Duration::from_secs(3));
    session.access();
    session.shutdown();
    assert_eq!(session.created(), made);
}

#[test]
fn peeks_share_the_notifier_of_the_shell() {
    let mut session = Session::new();
    session.add_shell(1).unwrap();
    session.add_shell(2).unwrap();
    let first = session.peek_shell(1, 0).unwrap();
    let second = session.peek_shell(1, 0).unwrap();
    let other = session.peek_shell(2, 0).unwrap();
    assert!(Arc::ptr_eq(&first.notify, &second.notify));
    assert!(!Arc::ptr_eq(&first.notify, &other.notify));
}

#[test]
fn shutdown_is_idempotent() {
    let mut session = Session::new();
    session.add_shell(1).unwrap();
    assert!(!session.is_terminated());
    session.shutdown();
    assert!(session.is_terminated());
    session.shutdown();
    assert!(session.is_terminated());
    assert_eq!(ids(&session), vec![1]);
}

#[test]
fn access_records_the_instant() {
    let mut session = Session::new();
    let first = session.updated();
    let at = tokio::time::Instant::now() + std::time::Duration::from_secs(5);
    session.access_at(at);
    assert_eq!(session.updated(), at);
    session.access();
    assert!(session.updated() >= first);
    assert!(session.updated() < at);
}

#[test]
fn subscribers_to_the_list_see_the_latest_value() {
    let mut session = Session::new();
    session.add_shell(1).unwrap();
    let mut receiver = session.subscribe_shells();
    assert_eq!(*receiver.borrow_and_update(), vec![(1, WsWinsize::default())]);
    assert!(!receiver.has_changed().unwrap());
    session.add_shell(2).unwrap();
    session.close_shell(1).unwrap();
    assert!(receiver.has_changed().unwrap());
    assert_eq!(*receiver.borrow_and_update(), vec![(2, WsWinsize::default())]);
}
