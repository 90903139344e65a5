use query_monitor::group::GroupedLogMessages;
use query_monitor::keys::KeySet;
use query_monitor::nav::{create_flat_navigation_structure, FlatNavigationItem};
use query_monitor::record::{RequestGroup, SqlLogMessage};
use query_monitor::select::{find_uid, restore_selection, selected_uid, Selection};

fn record(uid: Option<&str>, timestamp: &str, endpoint: &str) -> SqlLogMessage {
    SqlLogMessage {
        statement: "SELECT 1".to_string(),
        duration: 5,
        timestamp: timestamp.to_string(),
        endpoint: Some(endpoint.to_string()),
        http_method: Some("GET".to_string()),
        caller_namespace: None,
        caller_class: None,
        caller_method: None,
        uid: uid.map(|s| s.to_string()),
    }
}

fn key(endpoint: &str) -> RequestGroup {
    RequestGroup { endpoint: endpoint.to_string(), http_method: "GET".to_string() }
}

fn sel(position: usize, scroll_offset: usize) -> Selection {
    Selection { position, scroll_offset }
}

#[test]
fn the_uid_under_the_selection_is_read() {
    let a = record(Some("a"), "t1", "/x");
    let b = record(None, "t2", "/x");
    let rows = vec![
        FlatNavigationItem::GroupHeader(key("/x")),
        FlatNavigationItem::Message(&a),
        FlatNavigationItem::Message(&b),
    ];
    assert_eq!(selected_uid(&rows, 0), None);
    assert_eq!(selected_uid(&rows, 1), Some("a".to_string()));
    assert_eq!(selected_uid(&rows, 2), None);
    assert_eq!(selected_uid(&rows, 3), None);
}

#[test]
fn a_uid_is_found_at_its_first_row() {
    let a = record(Some("a"), "t1", "/x");
    let b = record(Some("b"), "t2", "/x");
    let rows = vec![
        FlatNavigationItem::GroupHeader(key("/x")),
        FlatNavigationItem::Message(&a),
        FlatNavigationItem::Message(&b),
        FlatNavigationItem::Message(&a),
    ];
    assert_eq!(find_uid(&rows, "a"), Some(1));
    assert_eq!(find_uid(&rows, "b"), Some(2));
    assert_eq!(find_uid(&rows, "c"), None);
    assert_eq!(find_uid(&rows, ""), None);
    assert_eq!(find_uid(&Vec::new(), "a"), None);
}

#[test]
fn the_window_moves_by_as_little_as_shows_the_row() {
    let records: Vec<SqlLogMessage> =
        (0..30).map(|i| record(Some(&format!("u{}", i)), "t", "/x")).collect();
    let mut rows = vec![FlatNavigationItem::GroupHeader(key("/x"))];
    for r in &records {
        rows.push(FlatNavigationItem::Message(r));
    }
    let want = |uid: &str| Some(uid.to_string());
    // row 11 is inside the window 5..15
    assert_eq!(restore_selection(&rows, &want("u10"), sel(2, 5), 10), sel(11, 5));
    // row 3 is above the window
    assert_eq!(restore_selection(&rows, &want("u2"), sel(2, 5), 10), sel(3, 3));
    // row 15 is just below the window 5..15
    assert_eq!(restore_selection(&rows, &want("u14"), sel(2, 5), 10), sel(15, 6));
    assert_eq!(restore_selection(&rows, &want("u29"), sel(2, 5), 10), sel(30, 21));
    // at the edges of the window nothing moves
    assert_eq!(restore_selection(&rows, &want("u4"), sel(2, 5), 10), sel(5, 5));
    assert_eq!(restore_selection(&rows, &want("u13"), sel(2, 5), 10), sel(14, 5));
}

#[test]
fn a_lost_record_leaves_the_position_clamped() {
    let a = record(Some("a"), "t1", "/x");
    let rows = vec![FlatNavigationItem::GroupHeader(key("/x")), FlatNavigationItem::Message(&a)];
    let gone = Some("gone".to_string());
    assert_eq!(restore_selection(&rows, &gone, sel(1, 4), 10), sel(1, 4));
    assert_eq!(restore_selection(&rows, &gone, sel(7, 4), 10), sel(1, 4));
    assert_eq!(restore_selection(&rows, &None, sel(7, 4), 10), sel(1, 4));
    assert_eq!(restore_selection(&rows, &None, sel(0, 0), 10), sel(0, 0));
    assert_eq!(restore_selection(&Vec::new(), &gone, sel(7, 4), 10), sel(0, 4));
}

#[test]
fn the_selection_stays_on_its_record_while_records_arrive() {
    let mut records = vec![
        record(Some("a"), "2024-01-01T10:00:01Z", "/x"),
        record(Some("b"), "2024-01-01T10:00:02Z", "/x"),
        record(Some("c"), "2024-01-01T10:00:03Z", "/y"),
    ];
    let pins = KeySet::new();
    let mut expanded = KeySet::new();
    expanded.insert(key("/x"));
    expanded.insert(key("/z"));

    let groups = GroupedLogMessages::from_messages(&records, &pins);
    let rows = create_flat_navigation_structure(&groups, &expanded, "");
    // [/y] [/x] b a
    let before = sel(3, 0);
    let remembered = selected_uid(&rows, before.position);
    assert_eq!(remembered, Some("a".to_string()));

    records.push(record(Some("d"), "2024-01-01T10:00:04Z", "/x"));
    records.push(record(Some("e"), "2024-01-01T10:00:05Z", "/z"));
    records.push(record(Some("f"), "2024-01-01T10:00:06Z", "/z"));
    let groups = GroupedLogMessages::from_messages(&records, &pins);
    let rows = create_flat_navigation_structure(&groups, &expanded, "");
    // [/z] f e [/x] d b a [/y]
    let after = restore_selection(&rows, &remembered, before, 4);
    assert_eq!(after, sel(6, 3));
    assert_eq!(selected_uid(&rows, after.position), remembered);
}
