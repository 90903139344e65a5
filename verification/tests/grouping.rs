use query_monitor::group::GroupedLogMessages;
use query_monitor::keys::KeySet;
use query_monitor::record::{RequestGroup, SqlLogMessage};

fn record(uid: &str, timestamp: &str, endpoint: Option<&str>, method: Option<&str>) -> SqlLogMessage {
    SqlLogMessage {
        statement: format!("SELECT '{}'", uid),
        duration: 5,
        timestamp: timestamp.to_string(),
        endpoint: endpoint.map(|s| s.to_string()),
        http_method: method.map(|s| s.to_string()),
        caller_namespace: None,
        caller_class: None,
        caller_method: None,
        uid: Some(uid.to_string()),
    }
}

fn key(endpoint: &str, method: &str) -> RequestGroup {
    RequestGroup { endpoint: endpoint.to_string(), http_method: method.to_string() }
}

fn keys_of(g: &GroupedLogMessages) -> Vec<(String, String)> {
    g.groups.iter().map(|(k, _)| (k.endpoint.clone(), k.http_method.clone())).collect()
}

fn uids_of(g: &GroupedLogMessages, i: usize) -> Vec<String> {
    g.groups[i].1.iter().map(|m| m.uid.clone().unwrap()).collect()
}

fn pair(a: &str, b: &str) -> (String, String) {
    (a.to_string(), b.to_string())
}

#[test]
fn key_of_a_request_is_endpoint_and_method() {
    let m = record("1", "t", Some("/users"), Some("GET"));
    assert_eq!(RequestGroup::from_message(&m), key("/users", "GET"));
    let m = record("1", "t", None, Some("POST"));
    assert_eq!(RequestGroup::from_message(&m), key("N/A", "POST"));
}

#[test]
fn key_of_a_call_is_the_caller() {
    let mut m = record("1", "t", Some("/ignored"), None);
    assert_eq!(RequestGroup::from_message(&m), key("N/A", "CALL"));
    m.caller_method = Some("Run".to_string());
    assert_eq!(RequestGroup::from_message(&m), key("Run", "CALL"));
    m.caller_class = Some("Job".to_string());
    assert_eq!(RequestGroup::from_message(&m), key("Run in Job", "CALL"));
    m.caller_method = None;
    assert_eq!(RequestGroup::from_message(&m), key("in Job", "CALL"));
}

#[test]
fn keys_compare_by_value() {
    assert!(key("/a", "GET").same_as(&key("/a", "GET")));
    assert!(!key("/a", "GET").same_as(&key("/a", "PUT")));
    assert!(!key("/a", "GET").same_as(&key("/b", "GET")));
    assert_eq!(key("/a", "GET").clone(), key("/a", "GET"));
}

#[test]
fn key_sets_hold_each_key_once() {
    let mut s = KeySet::new();
    assert!(!s.contains(&key("/a", "GET")));
    s.insert(key("/a", "GET"));
    s.insert(key("/a", "GET"));
    s.insert(key("/b", "GET"));
    assert!(s.contains(&key("/a", "GET")));
    assert!(s.contains(&key("/b", "GET")));
    s.remove(&key("/a", "GET"));
    assert!(!s.contains(&key("/a", "GET")));
    assert!(s.contains(&key("/b", "GET")));
    s.toggle(key("/b", "GET"));
    assert!(!s.contains(&key("/b", "GET")));
    s.toggle(key("/b", "GET"));
    assert!(s.contains(&key("/b", "GET")));
    s.clear();
    assert!(!s.contains(&key("/b", "GET")));
}

#[test]
fn records_are_gathered_by_key_in_their_order() {
    let records = vec![
        record("1", "2024-01-01T10:00:00Z", Some("/a"), Some("GET")),
        record("2", "2024-01-01T10:00:01Z", Some("/b"), Some("GET")),
        record("3", "2024-01-01T10:00:02Z", Some("/a"), Some("GET")),
        record("4", "2024-01-01T10:00:03Z", Some("/a"), Some("POST")),
    ];
    let g = GroupedLogMessages::from_messages(&records, &KeySet::new());
    assert_eq!(keys_of(&g), vec![pair("/a", "POST"), pair("/a", "GET"), pair("/b", "GET")]);
    assert_eq!(uids_of(&g, 0), vec!["4"]);
    assert_eq!(uids_of(&g, 1), vec!["1", "3"]);
    assert_eq!(uids_of(&g, 2), vec!["2"]);
    assert_eq!(g.total_item_count(), 4);
}

#[test]
fn no_records_give_no_groups() {
    let g = GroupedLogMessages::from_messages(&[], &KeySet::new());
    assert!(g.groups.is_empty());
    assert_eq!(g.total_item_count(), 0);
}

#[test]
fn most_recent_activity_comes_first() {
    let records = vec![
        record("1", "2024-01-01T10:00:05Z", Some("/old"), Some("GET")),
        record("2", "2024-01-01T10:00:09Z", Some("/new"), Some("GET")),
        record("3", "2024-01-01T10:00:01Z", Some("/new"), Some("GET")),
        record("4", "2024-01-01T10:00:07Z", Some("/mid"), Some("GET")),
    ];
    let g = GroupedLogMessages::from_messages(&records, &KeySet::new());
    assert_eq!(keys_of(&g), vec![pair("/new", "GET"), pair("/mid", "GET"), pair("/old", "GET")]);
}

#[test]
fn equal_activity_is_ordered_by_label_then_method() {
    let t = "2024-01-01T10:00:00Z";
    let records = vec![
        record("1", t, Some("/b"), Some("GET")),
        record("2", t, Some("/a"), Some("PUT")),
        record("3", t, Some("/a"), Some("GET")),
        record("4", t, Some("/B"), Some("GET")),
    ];
    let g = GroupedLogMessages::from_messages(&records, &KeySet::new());
    assert_eq!(
        keys_of(&g),
        vec![pair("/B", "GET"), pair("/a", "GET"), pair("/a", "PUT"), pair("/b", "GET")]
    );
}

#[test]
fn pinned_groups_come_first_whatever_their_age() {
    let records = vec![
        record("1", "2024-01-01T10:00:01Z", Some("/oldest"), Some("GET")),
        record("2", "2024-01-01T10:00:02Z", Some("/older"), Some("GET")),
        record("3", "2024-01-01T10:00:03Z", Some("/newer"), Some("GET")),
        record("4", "2024-01-01T10:00:04Z", Some("/newest"), Some("GET")),
    ];
    let mut pins = KeySet::new();
    pins.insert(key("/oldest", "GET"));
    pins.insert(key("/newer", "GET"));
    pins.insert(key("/absent", "GET"));
    let g = GroupedLogMessages::from_messages(&records, &pins);
    assert_eq!(
        keys_of(&g),
        vec![
            pair("/newer", "GET"),
            pair("/oldest", "GET"),
            pair("/newest", "GET"),
            pair("/older", "GET"),
        ]
    );
}

#[test]
fn grouping_twice_gives_the_same_order() {
    let mut records = Vec::new();
    for i in 0..40u32 {
        let endpoint = format!("/e{}", (i * 7) % 11);
        let method = if i % 3 == 0 { Some("GET") } else if i % 3 == 1 { Some("POST") } else { None };
        records.push(record(
            &format!("u{}", i),
            &format!("2024-01-01T10:00:{:02}Z", (i * 13) % 60),
            Some(&endpoint),
            method,
        ));
    }
    let mut pins = KeySet::new();
    pins.insert(key("/e3", "GET"));
    pins.insert(key("N/A", "CALL"));
    let a = GroupedLogMessages::from_messages(&records, &pins);
    let b = GroupedLogMessages::from_messages(&records, &pins);
    assert_eq!(a.groups, b.groups);
    let mut seen_unpinned = false;
    for (k, members) in &a.groups {
        assert!(!members.is_empty());
        if pins.contains(k) {
            assert!(!seen_unpinned);
        } else {
            seen_unpinned = true;
        }
        for m in members {
            assert_eq!(&RequestGroup::from_message(m), k);
        }
    }
    assert_eq!(a.total_item_count(), 40);
}
