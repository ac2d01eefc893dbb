use flint::logs::{add_log, LogKind, Logs};

#[test]
fn add_log_prefixes_message_with_kind() {
    let mut logs = Logs::new();
    add_log(&mut logs, LogKind::Info, String::from("hello"));
    let entries = logs.get_logs();
    assert_eq!(entries.len(), 1);
    assert_eq!(entries[0].0, LogKind::Info);
    assert_eq!(entries[0].1, "[info]: hello");
}

#[test]
fn add_log_uses_each_kinds_prefix() {
    let mut logs = Logs::new();
    add_log(&mut logs, LogKind::Info, String::from("a"));
    add_log(&mut logs, LogKind::Success, String::from("b"));
    add_log(&mut logs, LogKind::Error, String::from("c"));
    add_log(&mut logs, LogKind::Warn, String::from("d"));
    add_log(&mut logs, LogKind::Debug, String::from("e"));
    let entries = logs.get_logs();
    assert_eq!(entries[0].1, "[info]: a");
    assert_eq!(entries[1].1, "[success]: b");
    assert_eq!(entries[2].1, "[error]: c");
    assert_eq!(entries[3].1, "[warn]: d");
    assert_eq!(entries[4].1, "[debug]: e");
}

#[test]
fn log_is_append_only_in_order() {
    let mut logs = Logs::new();
    for i in 0..10 {
        add_log(&mut logs, LogKind::Info, format!("m{}", i));
    }
    let entries = logs.get_logs();
    assert_eq!(entries.len(), 10);
    for i in 0..10 {
        assert_eq!(entries[i].1, format!("[info]: m{}", i));
    }
}

#[test]
fn clear_empties_the_log() {
    let mut logs = Logs::new();
    add_log(&mut logs, LogKind::Warn, String::from("x"));
    logs.clear();
    assert_eq!(logs.get_logs().len(), 0);
}

#[test]
fn get_logs_mut_gives_write_access() {
    let mut logs = Logs::new();
    logs.get_logs_mut().push((LogKind::Debug, String::from("raw")));
    let entries = logs.get_logs();
    assert_eq!(entries.len(), 1);
    assert_eq!(entries[0].1, "raw");
}
