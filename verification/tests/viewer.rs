use query_monitor::record::{RequestGroup, SqlLogMessage};
use query_monitor::scroll::ScrollState;
use query_monitor::select::Selection;
use query_monitor::viewer::{
    find_header, viewport_heights, Action, Key, Motion, Picked, Viewer,
};
use query_monitor::nav::FlatNavigationItem;

fn record(uid: &str, timestamp: &str, endpoint: &str, statement: &str) -> SqlLogMessage {
    SqlLogMessage {
        statement: statement.to_string(),
        duration: 5,
        timestamp: timestamp.to_string(),
        endpoint: Some(endpoint.to_string()),
        http_method: Some("GET".to_string()),
        caller_namespace: None,
        caller_class: None,
        caller_method: None,
        uid: Some(uid.to_string()),
    }
}

fn key(endpoint: &str) -> RequestGroup {
    RequestGroup { endpoint: endpoint.to_string(), http_method: "GET".to_string() }
}

fn ch(c: char) -> Key {
    Key::Char(c, false)
}

fn ctrl(c: char) -> Key {
    Key::Char(c, true)
}

const BATCH: &str = "[-- Batch Command 1]\nSELECT 1;\n[-- Batch Command 2]\nSELECT 2;";

/// Rows: [/y] [/x], and with /x expanded: [/y] [/x] b a
fn sample() -> Viewer {
    let mut v = Viewer::new(10, 3);
    v.ingest(record("a", "2024-01-01T10:00:01Z", "/x", BATCH));
    v.ingest(record("b", "2024-01-01T10:00:02Z", "/x", "SELECT 2"));
    v.ingest(record("c", "2024-01-01T10:00:03Z", "/y", "SELECT 3"));
    v
}

fn picked_uid(v: &Viewer) -> Option<String> {
    match v.picked() {
        Picked::Member(m) => m.uid,
        _ => None,
    }
}

fn picked_header(v: &Viewer) -> Option<RequestGroup> {
    match v.picked() {
        Picked::Header(k) => Some(k),
        _ => None,
    }
}

#[test]
fn a_new_viewer_shows_nothing() {
    let v = Viewer::new(10, 3);
    assert_eq!(v.row_count(), 0);
    assert!(matches!(v.picked(), Picked::Nothing));
    assert_eq!(v.selection, Selection { position: 0, scroll_offset: 0 });
    assert!(!v.scroll_mode && !v.filter_focused && !v.help_visible);
    assert_eq!(v.list_height, 10);
    assert_eq!(v.content_height, 3);
}

#[test]
fn q_quits_from_everywhere() {
    let mut v = sample();
    assert_eq!(v.handle_key(ch('q')), Action::Quit);
    v.help_visible = true;
    assert_eq!(v.handle_key(ch('q')), Action::Quit);
    v.help_visible = false;
    v.filter_focused = true;
    assert_eq!(v.handle_key(ch('q')), Action::Quit);
    assert_eq!(v.filter_text, "");
    v.scroll_mode = true;
    assert_eq!(v.handle_key(ctrl('q')), Action::Quit);
}

#[test]
fn the_selection_moves_within_the_rows() {
    let mut v = sample();
    assert_eq!(v.row_count(), 2);
    assert_eq!(v.handle_key(Key::Up), Action::Nothing);
    assert_eq!(v.selection.position, 0);
    v.handle_key(Key::Down);
    assert_eq!(v.selection.position, 1);
    v.handle_key(ch('j'));
    assert_eq!(v.selection.position, 1);
    v.handle_key(ch('k'));
    assert_eq!(v.selection.position, 0);
    assert_eq!(picked_header(&v), Some(key("/y")));
}

#[test]
fn pages_move_by_half_the_list() {
    let mut v = Viewer::new(6, 3);
    for i in 0..9 {
        v.ingest(record(&format!("u{}", i), &format!("t{}", i), &format!("/e{}", i), "SELECT 1"));
    }
    assert_eq!(v.row_count(), 9);
    v.handle_key(ctrl('d'));
    assert_eq!(v.selection.position, 3);
    v.handle_key(ctrl('d'));
    assert_eq!(v.selection.position, 6);
    v.handle_key(ctrl('d'));
    assert_eq!(v.selection.position, 8);
    v.handle_key(ctrl('u'));
    assert_eq!(v.selection.position, 5);
    v.handle_key(ctrl('u'));
    v.handle_key(ctrl('u'));
    assert_eq!(v.selection.position, 0);
    // without the control key these are other keys
    v.handle_key(ch('d'));
    assert_eq!(v.selection.position, 0);
    v.handle_key(ch('u'));
    assert_eq!(v.selection.position, 0);
}

#[test]
fn enter_expands_and_collapses() {
    let mut v = sample();
    v.handle_key(Key::Down);
    assert_eq!(picked_header(&v), Some(key("/x")));
    v.handle_key(Key::Enter);
    assert!(v.expanded_groups.contains(&key("/x")));
    assert_eq!(v.row_count(), 4);
    v.handle_key(Key::Down);
    assert_eq!(picked_uid(&v), Some("b".to_string()));
    v.handle_key(Key::Enter);
    assert!(v.expanded_uids.contains(&"b".to_string()));
    v.handle_key(Key::Enter);
    assert!(!v.expanded_uids.contains(&"b".to_string()));
    v.handle_key(Key::Up);
    v.handle_key(Key::Enter);
    assert!(!v.expanded_groups.contains(&key("/x")));
    assert_eq!(v.row_count(), 2);
}

#[test]
fn scroll_mode_needs_an_expanded_record() {
    let mut v = sample();
    v.handle_key(ch('l'));
    assert!(!v.scroll_mode);
    v.handle_key(Key::Down);
    v.handle_key(Key::Enter);
    v.handle_key(Key::Down);
    v.handle_key(Key::Down);
    assert_eq!(picked_uid(&v), Some("a".to_string()));
    v.handle_key(ch('l'));
    assert!(!v.scroll_mode);
    v.handle_key(Key::Enter);
    v.scroll.set("a".to_string(), ScrollState { offset: 2, cursor: 4 });
    v.handle_key(ch('l'));
    assert!(v.scroll_mode);
    assert_eq!(v.scroll.get(&"a".to_string()), ScrollState { offset: 0, cursor: 0 });
}

fn scrolling() -> Viewer {
    let mut v = sample();
    v.handle_key(Key::Down);
    v.handle_key(Key::Enter);
    v.handle_key(Key::Down);
    v.handle_key(Key::Down);
    v.handle_key(Key::Enter);
    v.handle_key(ch('l'));
    assert!(v.scroll_mode);
    v
}

#[test]
fn scroll_keys_move_through_the_content() {
    let mut v = scrolling();
    let a = "a".to_string();
    // the statement takes up 8 lines, 3 of which are shown
    v.handle_key(ch('j'));
    v.handle_key(Key::Down);
    assert_eq!(v.scroll.get(&a), ScrollState { offset: 0, cursor: 2 });
    v.handle_key(ch('j'));
    assert_eq!(v.scroll.get(&a), ScrollState { offset: 1, cursor: 3 });
    v.handle_key(ch('k'));
    v.handle_key(Key::Up);
    v.handle_key(Key::Up);
    assert_eq!(v.scroll.get(&a), ScrollState { offset: 0, cursor: 0 });
    for _ in 0..20 {
        v.handle_key(ch('j'));
    }
    assert_eq!(v.scroll.get(&a), ScrollState { offset: 5, cursor: 7 });
    v.handle_key(ctrl('u'));
    assert_eq!(v.scroll.get(&a), ScrollState { offset: 5, cursor: 6 });
    v.handle_key(ctrl('d'));
    assert_eq!(v.scroll.get(&a), ScrollState { offset: 5, cursor: 7 });
    v.scroll_by(Motion::PageUp);
    v.scroll_by(Motion::LineUp);
    assert_eq!(v.scroll.get(&a), ScrollState { offset: 5, cursor: 5 });
    v.scroll_by(Motion::LineUp);
    assert_eq!(v.scroll.get(&a), ScrollState { offset: 4, cursor: 4 });
    // the selection itself stays where it is
    assert_eq!(v.selection.position, 3);
    assert_eq!(v.scroll.get(&"b".to_string()), ScrollState { offset: 0, cursor: 0 });
}

#[test]
fn y_copies_the_statement_under_the_cursor() {
    let mut v = scrolling();
    assert_eq!(v.handle_key(ch('y')), Action::Copy("select\n  1;".to_string()));
    for _ in 0..4 {
        v.handle_key(ch('j'));
    }
    assert_eq!(v.handle_key(ch('y')), Action::Copy("select\n  2;".to_string()));
    assert!(v.scroll_mode);
    v.handle_key(ch('h'));
    assert_eq!(v.handle_key(ch('y')), Action::Nothing);
}

#[test]
fn leaving_scroll_mode_keeps_or_collapses_the_record() {
    let mut v = scrolling();
    v.handle_key(ch('h'));
    assert!(!v.scroll_mode);
    assert!(v.expanded_uids.contains(&"a".to_string()));
    assert!(!v.help_visible);
    v.handle_key(ch('l'));
    v.handle_key(Key::Esc);
    assert!(!v.scroll_mode);
    assert!(!v.expanded_uids.contains(&"a".to_string()));
}

#[test]
fn lines_are_held_back_in_scroll_mode() {
    let mut v = scrolling();
    assert_eq!(v.receive("one".to_string()), None);
    assert_eq!(v.receive("two".to_string()), None);
    assert!(v.release_held().is_empty());
    assert_eq!(v.held, vec!["one".to_string(), "two".to_string()]);
    v.handle_key(ch('h'));
    assert_eq!(v.receive("three".to_string()), Some("three".to_string()));
    assert_eq!(v.release_held(), vec!["one".to_string(), "two".to_string()]);
    assert!(v.held.is_empty());
    assert!(v.release_held().is_empty());
}

#[test]
fn typing_edits_the_filter() {
    let mut v = sample();
    v.handle_key(ch('f'));
    assert!(v.filter_focused);
    v.handle_key(ch('/'));
    v.handle_key(ch('y'));
    v.handle_key(ctrl('z'));
    assert_eq!(v.filter_text, "/yz");
    v.handle_key(Key::Backspace);
    assert_eq!(v.filter_text, "/y");
    assert_eq!(v.row_count(), 1);
    v.handle_key(Key::Up);
    v.handle_key(Key::Other);
    assert_eq!(v.filter_text, "/y");
    v.handle_key(Key::Enter);
    assert!(!v.filter_focused);
    v.handle_key(ch('f'));
    v.handle_key(Key::Backspace);
    v.handle_key(Key::Backspace);
    v.handle_key(Key::Backspace);
    assert_eq!(v.filter_text, "");
    v.handle_key(Key::Esc);
    assert!(!v.filter_focused);
    assert_eq!(v.row_count(), 2);
}

#[test]
fn help_is_shown_until_escape() {
    let mut v = sample();
    v.handle_key(ch('h'));
    assert!(v.help_visible);
    v.handle_key(Key::Down);
    v.handle_key(ch('f'));
    assert_eq!(v.selection.position, 0);
    assert!(!v.filter_focused);
    v.handle_key(Key::Esc);
    assert!(!v.help_visible);
}

#[test]
fn pinning_moves_the_group_up_and_the_selection_with_it() {
    let mut v = sample();
    v.handle_key(Key::Down);
    assert_eq!(picked_header(&v), Some(key("/x")));
    v.handle_key(ch('t'));
    assert!(v.pinned_groups.contains(&key("/x")));
    assert_eq!(v.selection.position, 0);
    assert_eq!(picked_header(&v), Some(key("/x")));
    v.handle_key(ch('t'));
    assert!(!v.pinned_groups.contains(&key("/x")));
    assert_eq!(v.selection.position, 1);
    assert_eq!(picked_header(&v), Some(key("/x")));
    // on a record the key does nothing
    v.handle_key(Key::Enter);
    v.handle_key(Key::Down);
    v.handle_key(ch('t'));
    assert!(!v.pinned_groups.contains(&key("/x")));
    assert_eq!(v.selection.position, 2);
}

#[test]
fn headers_are_found_by_key() {
    let a = record("a", "t", "/x", "SELECT 1");
    let rows = vec![
        FlatNavigationItem::GroupHeader(key("/y")),
        FlatNavigationItem::GroupHeader(key("/x")),
        FlatNavigationItem::Message(&a),
    ];
    assert_eq!(find_header(&rows, &key("/y")), 0);
    assert_eq!(find_header(&rows, &key("/x")), 1);
    assert_eq!(find_header(&rows, &key("/z")), 3);
    assert_eq!(find_header(&Vec::new(), &key("/z")), 0);
}

#[test]
fn c_forgets_what_was_received() {
    let mut v = scrolling();
    v.handle_key(ch('h'));
    v.handle_key(Key::Up);
    v.handle_key(Key::Up);
    v.handle_key(ch('t'));
    v.remember_selection();
    v.filter_text = "x".to_string();
    v.handle_key(ch('c'));
    assert_eq!(v.buffer.len(), 0);
    assert_eq!(v.row_count(), 0);
    assert!(!v.expanded_groups.contains(&key("/x")));
    assert!(!v.expanded_uids.contains(&"a".to_string()));
    assert_eq!(v.scroll.get(&"a".to_string()), ScrollState { offset: 0, cursor: 0 });
    assert_eq!(v.selected_uid, None);
    assert_eq!(v.selection, Selection { position: 0, scroll_offset: 0 });
    assert!(v.pinned_groups.contains(&key("/x")));
    assert_eq!(v.filter_text, "x");
}

#[test]
fn the_selection_follows_its_record_through_new_arrivals() {
    let mut v = sample();
    v.resize(2, 3);
    v.handle_key(Key::Down);
    v.handle_key(Key::Enter);
    v.handle_key(Key::Down);
    v.handle_key(Key::Down);
    assert_eq!(picked_uid(&v), Some("a".to_string()));
    v.remember_selection();
    assert_eq!(v.selected_uid, Some("a".to_string()));
    v.ingest(record("d", "2024-01-01T10:00:04Z", "/x", "SELECT 4"));
    v.ingest(record("e", "2024-01-01T10:00:05Z", "/z", "SELECT 5"));
    v.reselect();
    // [/z] [/x] d b a [/y]
    assert_eq!(v.selection, Selection { position: 4, scroll_offset: 3 });
    assert_eq!(picked_uid(&v), Some("a".to_string()));
}

#[test]
fn a_selected_header_is_kept_by_its_position() {
    let mut v = sample();
    v.handle_key(Key::Down);
    v.handle_key(Key::Enter);
    v.handle_key(Key::Down);
    v.remember_selection();
    assert_eq!(v.selected_uid, Some("b".to_string()));
    v.handle_key(Key::Up);
    assert_eq!(picked_header(&v), Some(key("/x")));
    v.remember_selection();
    assert_eq!(v.selected_uid, None);
    v.ingest(record("e", "2024-01-01T10:00:05Z", "/z", "SELECT 5"));
    v.after_ingest(true);
    // [/z] [/y] [/x] b a: the selection stays on the second row
    assert_eq!(v.selection, Selection { position: 1, scroll_offset: 0 });
    assert_eq!(picked_header(&v), Some(key("/y")));
    // behind the last row nothing is remembered either
    v.selected_uid = Some("a".to_string());
    v.selection = Selection { position: 40, scroll_offset: 0 };
    v.remember_selection();
    assert_eq!(v.selected_uid, None);
    v.after_ingest(true);
    assert_eq!(v.selection, Selection { position: 4, scroll_offset: 0 });
}

#[test]
fn the_heights_follow_the_list_area() {
    assert_eq!(viewport_heights(0), (0, 10));
    assert_eq!(viewport_heights(2), (0, 10));
    assert_eq!(viewport_heights(3), (1, 10));
    assert_eq!(viewport_heights(10), (8, 10));
    assert_eq!(viewport_heights(19), (17, 10));
    assert_eq!(viewport_heights(20), (18, 11));
    assert_eq!(viewport_heights(50), (48, 41));
    assert_eq!(viewport_heights(usize::MAX), (usize::MAX - 2, usize::MAX - 9));
}

#[test]
fn an_evicted_record_leaves_the_position_clamped() {
    let mut v = sample();
    v.selected_uid = Some("gone".to_string());
    v.selection = Selection { position: 9, scroll_offset: 1 };
    v.reselect();
    assert_eq!(v.selection, Selection { position: 1, scroll_offset: 1 });
}

#[test]
fn lines_that_cannot_be_decoded_are_counted() {
    let mut v = sample();
    assert_eq!(v.rejected, 0);
    v.reject_line();
    v.reject_line();
    assert_eq!(v.rejected, 2);
    assert_eq!(v.buffer.len(), 3);
    v.rejected = usize::MAX;
    v.reject_line();
    assert_eq!(v.rejected, usize::MAX);
}

#[test]
fn the_selection_is_put_back_only_after_arrivals_outside_scroll_mode() {
    let mut v = sample();
    v.selected_uid = Some("gone".to_string());
    v.selection = Selection { position: 9, scroll_offset: 1 };
    v.after_ingest(false);
    assert_eq!(v.selection, Selection { position: 9, scroll_offset: 1 });
    v.scroll_mode = true;
    v.after_ingest(true);
    assert_eq!(v.selection, Selection { position: 9, scroll_offset: 1 });
    v.scroll_mode = false;
    v.after_ingest(true);
    assert_eq!(v.selection, Selection { position: 1, scroll_offset: 1 });
}
