use query_monitor::group::GroupedLogMessages;
use query_monitor::keys::KeySet;
use query_monitor::nav::{
    count_total_rendered_items, create_flat_navigation_structure, filter_log_lines,
    message_matches, sort_newest_first, FlatNavigationItem,
};
use query_monitor::record::{RequestGroup, SqlLogMessage};

fn record(uid: &str, timestamp: &str, endpoint: Option<&str>, method: Option<&str>) -> SqlLogMessage {
    SqlLogMessage {
        statement: format!("SELECT '{}'", uid),
        duration: 5,
        timestamp: timestamp.to_string(),
        endpoint: endpoint.map(|s| s.to_string()),
        http_method: method.map(|s| s.to_string()),
        caller_namespace: None,
        caller_class: None,
        caller_method: None,
        uid: Some(uid.to_string()),
    }
}

fn call(uid: &str, timestamp: &str, class: Option<&str>, method: Option<&str>) -> SqlLogMessage {
    let mut r = record(uid, timestamp, None, None);
    r.caller_class = class.map(|s| s.to_string());
    r.caller_method = method.map(|s| s.to_string());
    r
}

fn key(endpoint: &str, method: &str) -> RequestGroup {
    RequestGroup { endpoint: endpoint.to_string(), http_method: method.to_string() }
}

fn describe(rows: &[FlatNavigationItem]) -> Vec<String> {
    rows.iter()
        .map(|row| match row {
            FlatNavigationItem::GroupHeader(g) => format!("[{} {}]", g.http_method, g.endpoint),
            FlatNavigationItem::Message(m) => m.uid.clone().unwrap(),
        })
        .collect()
}

fn mixed() -> Vec<SqlLogMessage> {
    vec![
        record("1", "2024-01-01T10:00:01Z", Some("/users"), Some("GET")),
        record("2", "2024-01-01T10:00:02Z", Some("/users"), Some("POST")),
        record("3", "2024-01-01T10:00:03Z", Some("/users"), Some("GET")),
        call("4", "2024-01-01T10:00:04Z", Some("Repostory"), Some("Load")),
        call("5", "2024-01-01T10:00:05Z", Some("Job"), Some("Run")),
        record("6", "2024-01-01T10:00:06Z", Some("/posts"), Some("get")),
    ]
}

#[test]
fn collapsed_groups_show_their_header_only() {
    let records = mixed();
    let groups = GroupedLogMessages::from_messages(&records, &KeySet::new());
    let rows = create_flat_navigation_structure(&groups, &KeySet::new(), "");
    assert_eq!(
        describe(&rows),
        vec!["[get /posts]", "[CALL Run in Job]", "[CALL Load in Repostory]", "[GET /users]", "[POST /users]"]
    );
    assert_eq!(count_total_rendered_items(&groups, &KeySet::new(), ""), 5);
}

#[test]
fn expanded_groups_show_their_records_newest_first() {
    let records = mixed();
    let groups = GroupedLogMessages::from_messages(&records, &KeySet::new());
    let mut expanded = KeySet::new();
    expanded.insert(key("/users", "GET"));
    expanded.insert(key("/nowhere", "GET"));
    let rows = create_flat_navigation_structure(&groups, &expanded, "");
    assert_eq!(
        describe(&rows),
        vec![
            "[get /posts]",
            "[CALL Run in Job]",
            "[CALL Load in Repostory]",
            "[GET /users]",
            "3",
            "1",
            "[POST /users]"
        ]
    );
    assert_eq!(count_total_rendered_items(&groups, &expanded, ""), 7);
}

#[test]
fn every_record_row_follows_the_header_of_its_group() {
    let records = mixed();
    let groups = GroupedLogMessages::from_messages(&records, &KeySet::new());
    let mut expanded = KeySet::new();
    for (k, _) in &groups.groups {
        expanded.insert(k.clone());
    }
    let rows = create_flat_navigation_structure(&groups, &expanded, "");
    let mut headers = 0;
    let mut members = 0;
    let mut current: Option<RequestGroup> = None;
    for row in &rows {
        match row {
            FlatNavigationItem::GroupHeader(g) => {
                headers += 1;
                current = Some(g.clone());
            }
            FlatNavigationItem::Message(m) => {
                members += 1;
                assert_eq!(Some(RequestGroup::from_message(m)), current);
            }
        }
    }
    assert_eq!(headers, 5);
    assert_eq!(members, 6);
    assert_eq!(rows.len(), headers + members);
}

#[test]
fn filtering_by_post_keeps_groups_with_a_match() {
    let records = mixed();
    let groups = GroupedLogMessages::from_messages(&records, &KeySet::new());
    let mut expanded = KeySet::new();
    for (k, _) in &groups.groups {
        expanded.insert(k.clone());
    }
    let rows = create_flat_navigation_structure(&groups, &expanded, "POST");
    assert_eq!(
        describe(&rows),
        vec!["[get /posts]", "6", "[CALL Load in Repostory]", "4", "[POST /users]", "2"]
    );
    let rows = create_flat_navigation_structure(&groups, &KeySet::new(), "post");
    assert_eq!(describe(&rows), vec!["[get /posts]", "[CALL Load in Repostory]", "[POST /users]"]);
    let rows = create_flat_navigation_structure(&groups, &expanded, "no such text");
    assert!(rows.is_empty());
}

#[test]
fn the_filter_looks_at_method_label_class_and_caller() {
    let get = record("1", "t", Some("/Users/List"), Some("GET"));
    assert!(message_matches(&get, ""));
    assert!(message_matches(&get, "get"));
    assert!(message_matches(&get, "users/l"));
    assert!(message_matches(&get, "USERS"));
    assert!(!message_matches(&get, "call"));
    assert!(!message_matches(&get, "select"));
    let no_endpoint = record("1", "t", None, Some("GET"));
    assert!(message_matches(&no_endpoint, "n/a"));
    let job = call("2", "t", Some("NightlyJob"), Some("Run"));
    assert!(message_matches(&job, "call"));
    assert!(message_matches(&job, "CALL"));
    assert!(message_matches(&job, "nightly"));
    assert!(message_matches(&job, "run"));
    assert!(message_matches(&job, "run in night"));
    assert!(!message_matches(&job, "get"));
    let bare = call("3", "t", None, None);
    assert!(message_matches(&bare, "n/a"));
    assert!(message_matches(&bare, "call"));
    assert!(!message_matches(&bare, "run"));
}

#[test]
fn filtered_records_keep_their_order() {
    let records = mixed();
    let kept: Vec<String> =
        filter_log_lines(&records, "users").iter().map(|m| m.uid.clone().unwrap()).collect();
    assert_eq!(kept, vec!["1", "2", "3"]);
    assert_eq!(filter_log_lines(&records, "").len(), 6);
    assert!(filter_log_lines(&records, "zzz").is_empty());
    assert!(filter_log_lines(&[], "users").is_empty());
}

#[test]
fn sorting_is_newest_first_and_stable() {
    let records = vec![
        record("a", "2024-01-01T10:00:02Z", None, None),
        record("b", "2024-01-01T10:00:05Z", None, None),
        record("c", "2024-01-01T10:00:02Z", None, None),
        record("d", "2024-01-01T10:00:09Z", None, None),
        record("e", "2024-01-01T10:00:05Z", None, None),
        record("f", "2024-01-01T10:00:01Z", None, None),
    ];
    let refs: Vec<&SqlLogMessage> = records.iter().collect();
    let sorted: Vec<String> =
        sort_newest_first(&refs).iter().map(|m| m.uid.clone().unwrap()).collect();
    assert_eq!(sorted, vec!["d", "b", "e", "a", "c", "f"]);
    assert!(sort_newest_first(&Vec::new()).is_empty());
}
