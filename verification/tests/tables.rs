use query_monitor::scroll::ScrollState;
use query_monitor::uids::{ScrollTable, UidSet};

fn uid(s: &str) -> String {
    s.to_string()
}

#[test]
fn uid_sets_hold_each_uid_once() {
    let mut s = UidSet::new();
    assert!(!s.contains(&uid("a")));
    s.insert(uid("a"));
    s.insert(uid("a"));
    s.insert(uid("b"));
    assert!(s.contains(&uid("a")) && s.contains(&uid("b")));
    s.remove(&uid("a"));
    assert!(!s.contains(&uid("a")) && s.contains(&uid("b")));
    s.remove(&uid("never there"));
    s.toggle(uid("b"));
    assert!(!s.contains(&uid("b")));
    s.toggle(uid("b"));
    assert!(s.contains(&uid("b")));
    s.clear();
    assert!(!s.contains(&uid("b")));
}

#[test]
fn scroll_positions_are_kept_by_uid() {
    let top = ScrollState { offset: 0, cursor: 0 };
    let mut t = ScrollTable::new();
    assert_eq!(t.get(&uid("a")), top);
    t.set(uid("a"), ScrollState { offset: 1, cursor: 2 });
    t.set(uid("b"), ScrollState { offset: 3, cursor: 4 });
    assert_eq!(t.get(&uid("a")), ScrollState { offset: 1, cursor: 2 });
    assert_eq!(t.get(&uid("b")), ScrollState { offset: 3, cursor: 4 });
    assert_eq!(t.get(&uid("c")), top);
    t.set(uid("a"), ScrollState { offset: 5, cursor: 6 });
    assert_eq!(t.get(&uid("a")), ScrollState { offset: 5, cursor: 6 });
    assert_eq!(t.get(&uid("b")), ScrollState { offset: 3, cursor: 4 });
    t.clear();
    assert_eq!(t.get(&uid("a")), top);
    assert_eq!(t.get(&uid("b")), top);
}
