use snapsr::engine::{list_lines, list_targets, restore_steps, RestoreStep};
use snapsr::hooks::{HookType, Hooks};
use snapsr::metadata::SnapMetaData;
use snapsr::registry::SnapLog;
use snapsr::strmap::StrMap;

fn s(x: &str) -> String {
    x.to_string()
}

fn record(size: u64) -> Option<SnapMetaData> {
    Some(SnapMetaData::new(StrMap::new(), None, size, s("2024-05-01T10:00:00+02:00")))
}

fn two_snaps() -> SnapLog {
    let mut log = SnapLog::new();
    log.snaps.insert(s("first"), s("/h/snaps/first"));
    log.snaps.insert(s("second"), s("/h/snaps/second"));
    log
}

fn show(steps: &Vec<RestoreStep>) -> Vec<String> {
    steps
        .iter()
        .map(|st| match st {
            RestoreStep::Hook(HookType::Pre) => s("pre"),
            RestoreStep::Hook(HookType::Post) => s("post"),
            RestoreStep::Copy(j) => format!("{} -> {}", j.from, j.to),
        })
        .collect()
}

#[test]
fn list_targets_are_the_record_files() {
    assert_eq!(
        list_targets(&two_snaps()),
        vec![s("/h/snaps/first/snap.json"), s("/h/snaps/second/snap.json")]
    );
    assert_eq!(list_targets(&SnapLog::new()), Vec::<String>::new());
}

#[test]
fn list_lines_show_size_over_100() {
    let lines = list_lines(&two_snaps(), &vec![record(12345), record(99)]);
    assert_eq!(lines, vec![s("first: 123kb"), s("second: 0kb")]);
}

#[test]
fn list_lines_skip_unreadable_records() {
    assert_eq!(list_lines(&two_snaps(), &vec![None, record(500)]), vec![s("second: 5kb")]);
    assert_eq!(list_lines(&two_snaps(), &vec![record(500)]), vec![s("first: 5kb")]);
    assert_eq!(list_lines(&two_snaps(), &vec![]), Vec::<String>::new());
    assert_eq!(list_lines(&SnapLog::new(), &vec![record(1)]), Vec::<String>::new());
}

#[test]
fn restore_steps_put_hooks_around_copies() {
    let mut items = StrMap::new();
    items.insert(s("/a/x"), s("/snap/m/a_x"));
    items.insert(s("/b/y"), s("/snap/m/b_y"));
    let hooks = Some(Hooks::new(Some(s("echo before")), Some(s(""))));
    let meta = SnapMetaData::new(items, hooks, 0, s("t"));
    assert_eq!(
        show(&restore_steps(&meta)),
        vec![s("pre"), s("/snap/m/a_x -> /a/x"), s("/snap/m/b_y -> /b/y"), s("post")]
    );
}

#[test]
fn restore_steps_without_hooks_are_the_copies() {
    let mut items = StrMap::new();
    items.insert(s("/a/x"), s("/snap/m/a_x"));
    let meta = SnapMetaData::new(items, None, 0, s("t"));
    assert_eq!(show(&restore_steps(&meta)), vec![s("/snap/m/a_x -> /a/x")]);
    let mut items = StrMap::new();
    items.insert(s("/a/x"), s("/snap/m/a_x"));
    let meta = SnapMetaData::new(items, Some(Hooks::new(None, Some(s("true")))), 0, s("t"));
    assert_eq!(show(&restore_steps(&meta)), vec![s("/snap/m/a_x -> /a/x"), s("post")]);
    let meta = SnapMetaData::new(StrMap::new(), None, 0, s("t"));
    assert!(restore_steps(&meta).is_empty());
}
