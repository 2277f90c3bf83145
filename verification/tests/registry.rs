use snapsr::engine::{delete_entry, orphans, rename_entry, rename_target, RenameError};
use snapsr::registry::SnapLog;
use snapsr::strmap::StrMap;

fn s(x: &str) -> String {
    x.to_string()
}

fn log_of(pairs: &[(&str, &str)]) -> SnapLog {
    let mut log = SnapLog::new();
    for (k, v) in pairs {
        log.snaps.insert(s(k), s(v));
    }
    log
}

#[test]
fn strmap_insert_get_remove() {
    let mut m = StrMap::new();
    assert_eq!(m.len(), 0);
    assert_eq!(m.insert(s("a"), s("1")), None);
    assert_eq!(m.insert(s("b"), s("2")), None);
    assert_eq!(m.insert(s("a"), s("3")), Some(s("1")));
    assert_eq!(m.len(), 2);
    assert_eq!(m.get("a"), Some(&s("3")));
    assert_eq!(m.get("b"), Some(&s("2")));
    assert_eq!(m.get("c"), None);
    assert_eq!(m.key_at(0), "a");
    assert_eq!(m.value_at(0), "3");
    assert_eq!(m.key_at(1), "b");
    assert_eq!(m.position("b"), Some(1));
    assert_eq!(m.remove("a"), Some(s("3")));
    assert_eq!(m.remove("a"), None);
    assert!(!m.contains_key("a"));
    assert!(m.contains_key("b"));
    assert_eq!(m.len(), 1);
    m.set_value_at(0, s("9"));
    assert_eq!(m.get("b"), Some(&s("9")));
}

#[test]
fn registry_exist() {
    let log = log_of(&[("first", "/h/snaps/first")]);
    assert!(log.exist("first"));
    assert!(!log.exist("second"));
    assert!(!SnapLog::new().exist("first"));
}

#[test]
fn delete_removes_the_name() {
    let mut log = log_of(&[("first", "/h/snaps/first"), ("second", "/h/snaps/second")]);
    assert_eq!(delete_entry(&mut log, "first"), Some(s("/h/snaps/first")));
    assert!(!log.exist("first"));
    assert!(log.exist("second"));
    assert_eq!(delete_entry(&mut log, "first"), None);
    assert_eq!(log.snaps.len(), 1);
}

#[test]
fn rename_target_replaces_last_component() {
    let log = log_of(&[("first", "/h/snaps/first")]);
    let m = rename_target(&log, "first", "second").unwrap();
    assert_eq!(m.from, "/h/snaps/first");
    assert_eq!(m.to, "/h/snaps/second");
}

#[test]
fn rename_target_errors() {
    let log = log_of(&[("first", "/h/snaps/first"), ("odd", "")]);
    assert_eq!(rename_target(&log, "missing", "x").unwrap_err(), RenameError::UnknownSnap);
    assert_eq!(rename_target(&log, "odd", "x").unwrap_err(), RenameError::NoDirectoryName);
}

#[test]
fn rename_entry_moves_the_name() {
    let mut log = log_of(&[("first", "/h/snaps/first"), ("other", "/h/snaps/other")]);
    rename_entry(&mut log, "first", s("second"), s("/h/snaps/second"));
    assert!(!log.exist("first"));
    assert_eq!(log.snaps.get("second"), Some(&s("/h/snaps/second")));
    assert_eq!(log.snaps.get("other"), Some(&s("/h/snaps/other")));
    assert_eq!(log.snaps.len(), 2);
}

#[test]
fn rename_entry_onto_existing_name_overwrites() {
    let mut log = log_of(&[("first", "/h/snaps/first"), ("other", "/h/snaps/other")]);
    rename_entry(&mut log, "first", s("other"), s("/h/snaps/other2"));
    assert_eq!(log.snaps.len(), 1);
    assert_eq!(log.snaps.get("other"), Some(&s("/h/snaps/other2")));
}

#[test]
fn orphans_are_unregistered_directories() {
    let log = log_of(&[("first", "/h/snaps/first"), ("second", "/h/snaps/second")]);
    let dirs = vec![s("/h/snaps/first"), s("/h/snaps/stale"), s("/h/snaps/second"), s("/h/snaps/old/")];
    assert_eq!(orphans(&log, &dirs), vec![s("/h/snaps/stale"), s("/h/snaps/old/")]);
}

#[test]
fn orphans_of_clean_root_are_none() {
    let log = log_of(&[("first", "/h/snaps/first")]);
    assert_eq!(orphans(&log, &vec![s("/h/snaps/first")]), Vec::<String>::new());
    assert_eq!(orphans(&log, &vec![]), Vec::<String>::new());
    assert_eq!(orphans(&log, &vec![s("/"), s("/h/snaps/..")]), Vec::<String>::new());
}

#[test]
fn after_clean_every_directory_is_registered() {
    let log = log_of(&[("a", "/r/a"), ("b", "/r/b")]);
    let dirs = vec![s("/r/a"), s("/r/x"), s("/r/b"), s("/r/y")];
    let gone = orphans(&log, &dirs);
    let left: Vec<&String> = dirs.iter().filter(|d| !gone.contains(d)).collect();
    assert_eq!(left, vec![&s("/r/a"), &s("/r/b")]);
    for d in left {
        let name = snapsr::path::file_name(d).unwrap();
        assert!(log.exist(&name));
    }
}
