use sshx_server::layout::{apply_edit, focus_entry, position, remove_entries, LayoutEdit};
use sshx_server::protocol::WsWinsize;

fn size(rows: u16) -> WsWinsize {
    WsWinsize { x: 1, y: 2, rows, cols: 100 }
}

#[test]
fn default_size_is_24_by_80_at_the_origin() {
    assert_eq!(
        WsWinsize::default(),
        WsWinsize { x: 0, y: 0, rows: 24, cols: 80 }
    );
}

#[test]
fn open_appends_with_the_default_size() {
    let mut order = vec![(4, size(1))];
    apply_edit(&mut order, LayoutEdit::Open(2));
    assert_eq!(order, vec![(4, size(1)), (2, WsWinsize::default())]);
}

#[test]
fn close_takes_every_entry_for_the_id() {
    let mut order = vec![(1, size(1)), (2, size(2)), (1, size(3)), (3, size(4))];
    apply_edit(&mut order, LayoutEdit::Close(1));
    assert_eq!(order, vec![(2, size(2)), (3, size(4))]);
}

#[test]
fn close_of_an_absent_id_changes_nothing() {
    let mut order = vec![(1, size(1)), (2, size(2))];
    remove_entries(&mut order, 9);
    assert_eq!(order, vec![(1, size(1)), (2, size(2))]);
}

#[test]
fn focus_moves_the_entry_to_the_end() {
    let mut order = vec![(1, size(1)), (2, size(2)), (3, size(3))];
    apply_edit(&mut order, LayoutEdit::Focus(2, None));
    assert_eq!(order, vec![(1, size(1)), (3, size(3)), (2, size(2))]);
    apply_edit(&mut order, LayoutEdit::Focus(1, Some(size(9))));
    assert_eq!(order, vec![(3, size(3)), (2, size(2)), (1, size(9))]);
}

#[test]
fn focus_of_the_last_entry_keeps_the_order() {
    let mut order = vec![(1, size(1)), (2, size(2))];
    focus_entry(&mut order, 2, Some(size(7)));
    assert_eq!(order, vec![(1, size(1)), (2, size(7))]);
}

#[test]
fn focus_of_an_absent_id_changes_nothing() {
    let mut order = vec![(1, size(1))];
    focus_entry(&mut order, 2, Some(size(7)));
    assert_eq!(order, vec![(1, size(1))]);
    let mut empty = Vec::new();
    focus_entry(&mut empty, 2, None);
    assert!(empty.is_empty());
}

#[test]
fn position_finds_the_first_entry() {
    let order = vec![(5, size(1)), (6, size(2)), (5, size(3))];
    assert_eq!(position(&order, 5), Some(0));
    assert_eq!(position(&order, 6), Some(1));
    assert_eq!(position(&order, 7), None);
}
