use omnyssh::registry::Registry;

#[test]
fn open_assigns_incrementing_ids() {
    let mut sessions: Registry<&str> = Registry::new();
    assert_eq!(sessions.insert("web"), 1);
    assert_eq!(sessions.insert("db"), 2);
    assert_eq!(sessions.insert("nas"), 3);
}

#[test]
fn close_removes_only_the_target() {
    let mut sessions: Registry<&str> = Registry::new();
    let a = sessions.insert("a");
    let b = sessions.insert("b");
    assert_eq!(sessions.remove(a), Some("a"));
    assert_eq!(sessions.get(a), None);
    assert_eq!(sessions.get(b), Some(&"b"));
    assert_eq!(sessions.ids(), vec![b]);
}

#[test]
fn an_unknown_id_finds_nothing() {
    let mut sessions: Registry<u8> = Registry::new();
    assert_eq!(sessions.get(7), None);
    assert_eq!(sessions.remove(7), None);
    let id = sessions.insert(1);
    sessions.remove(id);
    assert_eq!(sessions.insert(2), id + 1, "an id is never handed out twice");
}
