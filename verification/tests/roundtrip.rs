use std::collections::HashMap;

use snapsr::engine::{
    capture_plan, capture_record, rename_entry, rename_items, rename_target, restore_plan,
    CopyJob, ModuleFiles,
};
use snapsr::metadata::SnapMetaData;
use snapsr::registry::SnapLog;

fn s(x: &str) -> String {
    x.to_string()
}

/// Copies in a file system held in memory; gives the bytes written, or
/// nothing where the source does not exist.
fn run(files: &mut HashMap<String, Vec<u8>>, jobs: &Vec<CopyJob>) -> Vec<Option<u64>> {
    jobs.iter()
        .map(|j| match files.get(&j.from).cloned() {
            Some(bytes) => {
                let n = bytes.len() as u64;
                files.insert(j.to.clone(), bytes);
                Some(n)
            }
            None => None,
        })
        .collect()
}

fn disk() -> HashMap<String, Vec<u8>> {
    let mut files = HashMap::new();
    files.insert(s("/home/bob/.config/hypr/hyprland.conf"), b"monitor=,preferred".to_vec());
    files.insert(s("/home/bob/.config/hypr/scripts/run.sh"), b"#!/bin/sh\n".to_vec());
    files.insert(s("/home/bob/.zshrc"), b"export A=1\n".to_vec());
    files
}

fn modules() -> Vec<ModuleFiles> {
    vec![
        ModuleFiles {
            name: s("hypr"),
            files: vec![
                s("/home/bob/.config/hypr/hyprland.conf"),
                s("/home/bob/.config/hypr/scripts/run.sh"),
                s("/home/bob/.config/hypr/missing.conf"),
            ],
        },
        ModuleFiles { name: s("shell"), files: vec![s("/home/bob/.zshrc")] },
    ]
}

#[test]
fn capture_then_restore_gives_back_the_bytes() {
    let before = disk();
    let mut files = before.clone();
    let jobs = capture_plan("/home/bob/.config/snapsr/snaps/first", &modules());
    let copied = run(&mut files, &jobs);
    assert_eq!(copied, vec![Some(18), Some(10), None, Some(11)]);
    let (items, size) = capture_record(&jobs, &copied);
    assert_eq!(size, 39);
    assert_eq!(items.len(), 3);
    let meta = SnapMetaData::new(items, None, size, s("2024-05-01T10:00:00+02:00"));

    files.insert(s("/home/bob/.zshrc"), b"changed".to_vec());
    files.remove("/home/bob/.config/hypr/hyprland.conf");

    let back = restore_plan(&meta);
    let done = run(&mut files, &back);
    assert!(done.iter().all(|d| d.is_some()));
    for (path, bytes) in &before {
        assert_eq!(files.get(path), Some(bytes), "{path}");
    }
}

#[test]
fn colliding_stored_names_break_the_round_trip() {
    let mut files = HashMap::new();
    files.insert(s("/a/x/f"), b"one".to_vec());
    files.insert(s("/b/x/f"), b"two".to_vec());
    let modules = vec![ModuleFiles { name: s("m"), files: vec![s("/a/x/f"), s("/b/x/f")] }];
    let jobs = capture_plan("/snap", &modules);
    assert_eq!(jobs[0].to, "/snap/m/x_f");
    assert_eq!(jobs[1].to, "/snap/m/x_f");
    let copied = run(&mut files, &jobs);
    let (items, size) = capture_record(&jobs, &copied);
    let meta = SnapMetaData::new(items, None, size, s("2024-05-01T10:00:00+02:00"));
    run(&mut files, &restore_plan(&meta));
    assert_eq!(files.get("/a/x/f"), Some(&b"two".to_vec()));
    assert_eq!(files.get("/b/x/f"), Some(&b"two".to_vec()));
}

#[test]
fn rename_then_restore_gives_back_the_bytes() {
    let before = disk();
    let mut files = before.clone();
    let old_dir = "/home/bob/.config/snapsr/snaps/first";
    let jobs = capture_plan(old_dir, &modules());
    let copied = run(&mut files, &jobs);
    let (items, size) = capture_record(&jobs, &copied);
    let mut meta = SnapMetaData::new(items, None, size, s("2024-05-01T10:00:00+02:00"));
    let mut log = SnapLog::new();
    log.snaps.insert(s("first"), s(old_dir));

    let moved = rename_target(&log, "first", "second").unwrap();
    assert_eq!(moved.to, "/home/bob/.config/snapsr/snaps/second");
    let under_old: Vec<String> =
        files.keys().filter(|p| p.starts_with(&format!("{}/", moved.from))).cloned().collect();
    assert_eq!(under_old.len(), 3);
    for path in under_old {
        let bytes = files.remove(&path).unwrap();
        files.insert(format!("{}{}", moved.to, &path[moved.from.len()..]), bytes);
    }
    assert!(rename_items(&mut meta, "second"));
    rename_entry(&mut log, "first", s("second"), moved.to);
    assert!(!log.exist("first"));
    assert!(log.exist("second"));

    files.insert(s("/home/bob/.zshrc"), b"changed".to_vec());
    let done = run(&mut files, &restore_plan(&meta));
    assert!(done.iter().all(|d| d.is_some()));
    for (path, bytes) in &before {
        assert_eq!(files.get(path), Some(bytes), "{path}");
    }
}

#[test]
fn rename_misses_the_name_where_a_module_name_has_a_separator() {
    let modules = vec![ModuleFiles { name: s("a/b"), files: vec![s("/etc/x/f")] }];
    let jobs = capture_plan("/snaps/first", &modules);
    assert_eq!(jobs[0].to, "/snaps/first/a/b/x_f");
    let (items, size) = capture_record(&jobs, &vec![Some(1)]);
    let mut meta = SnapMetaData::new(items, None, size, s("2024-05-01T10:00:00+02:00"));
    assert!(rename_items(&mut meta, "second"));
    assert_eq!(meta.items.get("/etc/x/f"), Some(&s("/snaps/first/second/b/x_f")));
}
