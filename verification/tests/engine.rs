use snapsr::engine::{
    capture_plan, capture_record, choose_hooks, confirm_overwrite, is_yes, list_line,
    may_capture, recovery_command, rename_items, restore_plan, restore_tally, CopyJob,
    ModuleFiles, RenameMove,
};
use snapsr::hooks::{
    classify_outcome, command_to_run, hook_stored, HookOutcome, HookStatus, HookType, Hooks,
};
use snapsr::metadata::SnapMetaData;
use snapsr::strmap::StrMap;

fn s(x: &str) -> String {
    x.to_string()
}

fn pairs(jobs: &Vec<CopyJob>) -> Vec<(String, String)> {
    jobs.iter().map(|j| (j.from.clone(), j.to.clone())).collect()
}

fn items_of(m: &StrMap) -> Vec<(String, String)> {
    (0..m.len()).map(|i| (m.key_at(i).clone(), m.value_at(i).clone())).collect()
}

fn meta_with(items: &[(&str, &str)], hooks: Option<Hooks>, size: u64) -> SnapMetaData {
    let mut m = StrMap::new();
    for (k, v) in items {
        m.insert(s(k), s(v));
    }
    SnapMetaData::new(m, hooks, size, s("2024-05-01T10:00:00+02:00"))
}

#[test]
fn capture_plan_flattens_into_module_dirs() {
    let modules = vec![
        ModuleFiles { name: s("hypr"), files: vec![s("/home/bob/.config/hypr/hyprland.conf"), s("/home/bob/.config/hypr/scripts/run.sh")] },
        ModuleFiles { name: s("shell"), files: vec![s("/home/bob/.zsh/rc")] },
    ];
    let jobs = capture_plan("/home/bob/.config/snapsr/snaps/first", &modules);
    assert_eq!(
        pairs(&jobs),
        vec![
            (s("/home/bob/.config/hypr/hyprland.conf"), s("/home/bob/.config/snapsr/snaps/first/hypr/hypr_hyprland.conf")),
            (s("/home/bob/.config/hypr/scripts/run.sh"), s("/home/bob/.config/snapsr/snaps/first/hypr/scripts_run.sh")),
            (s("/home/bob/.zsh/rc"), s("/home/bob/.config/snapsr/snaps/first/shell/.zsh_rc")),
        ]
    );
}

#[test]
fn capture_of_module_without_files_is_empty() {
    let modules = vec![ModuleFiles { name: s("empty"), files: vec![] }];
    let jobs = capture_plan("/snaps/first", &modules);
    assert!(jobs.is_empty());
    let (items, size) = capture_record(&jobs, &vec![]);
    assert_eq!(items.len(), 0);
    assert_eq!(size, 0);
}

#[test]
fn capture_plan_skips_files_without_stored_name() {
    let modules = vec![ModuleFiles { name: s("m"), files: vec![s("/passwd"), s("/etc/passwd"), s("lonely")] }];
    let jobs = capture_plan("/snaps/first", &modules);
    assert_eq!(pairs(&jobs), vec![(s("/etc/passwd"), s("/snaps/first/m/etc_passwd"))]);
}

#[test]
fn capture_record_keeps_successes_and_sums_bytes() {
    let jobs = vec![
        CopyJob { from: s("/a/x"), to: s("/snap/m/a_x") },
        CopyJob { from: s("/a/y"), to: s("/snap/m/a_y") },
        CopyJob { from: s("/a/z"), to: s("/snap/m/a_z") },
    ];
    let (items, size) = capture_record(&jobs, &vec![Some(120), None, Some(80)]);
    assert_eq!(items_of(&items), vec![(s("/a/x"), s("/snap/m/a_x")), (s("/a/z"), s("/snap/m/a_z"))]);
    assert_eq!(size, 200);
}

#[test]
fn capture_record_counts_missing_reports_as_failures() {
    let jobs = vec![
        CopyJob { from: s("/a/x"), to: s("/snap/m/a_x") },
        CopyJob { from: s("/a/y"), to: s("/snap/m/a_y") },
    ];
    let (items, size) = capture_record(&jobs, &vec![Some(7)]);
    assert_eq!(items_of(&items), vec![(s("/a/x"), s("/snap/m/a_x"))]);
    assert_eq!(size, 7);
}

#[test]
fn capture_record_of_a_file_found_twice_counts_its_bytes_twice() {
    let jobs = vec![
        CopyJob { from: s("/a/x"), to: s("/snap/m/a_x") },
        CopyJob { from: s("/a/x"), to: s("/snap/n/a_x") },
    ];
    let (items, size) = capture_record(&jobs, &vec![Some(10), Some(10)]);
    assert_eq!(items_of(&items), vec![(s("/a/x"), s("/snap/n/a_x"))]);
    assert_eq!(size, 20);
}

#[test]
fn capture_then_restore_copies_back() {
    let modules = vec![ModuleFiles { name: s("m"), files: vec![s("/a/x"), s("/b/y")] }];
    let jobs = capture_plan("/snap", &modules);
    let (items, size) = capture_record(&jobs, &vec![Some(1), Some(2)]);
    let meta = SnapMetaData::new(items, None, size, s("t"));
    let back = restore_plan(&meta);
    assert_eq!(
        pairs(&back),
        vec![(s("/snap/m/a_x"), s("/a/x")), (s("/snap/m/b_y"), s("/b/y"))]
    );
}

#[test]
fn hooks_given_for_the_capture_win() {
    let configured = Some(Hooks::new(Some(s("echo config")), None));
    let h = choose_hooks(Some(s("echo pre")), None, configured).unwrap();
    assert_eq!(h.pre_load, Some(s("echo pre")));
    assert_eq!(h.post_load, None);
    let h = choose_hooks(None, Some(s("echo post")), None).unwrap();
    assert_eq!(h.pre_load, None);
    assert_eq!(h.post_load, Some(s("echo post")));
}

#[test]
fn hooks_of_the_configuration_are_used_otherwise() {
    let configured = Some(Hooks::new(Some(s("echo config")), Some(s("true"))));
    let h = choose_hooks(None, None, configured).unwrap();
    assert_eq!(h.pre_load, Some(s("echo config")));
    assert_eq!(h.post_load, Some(s("true")));
    assert!(choose_hooks(None, None, None).is_none());
}

#[test]
fn overwrite_needs_a_yes() {
    assert!(confirm_overwrite("y"));
    assert!(confirm_overwrite("yes\n"));
    assert!(confirm_overwrite("  YES \r\n"));
    assert!(confirm_overwrite("Y"));
    assert!(confirm_overwrite("yEs"));
    assert!(!confirm_overwrite(""));
    assert!(!confirm_overwrite("\n"));
    assert!(!confirm_overwrite("n"));
    assert!(!confirm_overwrite("no"));
    assert!(!confirm_overwrite("yess"));
    assert!(!confirm_overwrite("y es"));
}

#[test]
fn is_yes_takes_lower_case_only() {
    assert!(is_yes("y"));
    assert!(is_yes("yes"));
    assert!(!is_yes("Y"));
    assert!(!is_yes("YES"));
    assert!(!is_yes(" y"));
    assert!(!is_yes(""));
}

#[test]
fn declined_overwrite_leaves_registry_unchanged() {
    let mut log = snapsr::registry::SnapLog::new();
    log.snaps.insert(s("first"), s("/snaps/first"));
    assert!(log.exist("first"));
    assert!(!may_capture(&log, "first", Some("no\n")));
    assert!(!may_capture(&log, "first", Some("\n")));
    assert!(!may_capture(&log, "first", None));
    assert_eq!(log.snaps.len(), 1);
    assert_eq!(log.snaps.get("first"), Some(&s("/snaps/first")));
}

#[test]
fn capture_goes_ahead_on_a_free_name_or_a_yes() {
    let mut log = snapsr::registry::SnapLog::new();
    log.snaps.insert(s("first"), s("/snaps/first"));
    assert!(may_capture(&log, "second", None));
    assert!(may_capture(&log, "second", Some("no")));
    assert!(may_capture(&log, "first", Some("y\n")));
    assert!(may_capture(&log, "first", Some(" Yes ")));
}

#[test]
fn restore_plan_copies_stored_to_source() {
    let meta = meta_with(&[("/a/x", "/snap/m/a_x"), ("/b/y", "/snap/m/b_y")], None, 3);
    assert_eq!(
        pairs(&restore_plan(&meta)),
        vec![(s("/snap/m/a_x"), s("/a/x")), (s("/snap/m/b_y"), s("/b/y"))]
    );
    assert!(restore_plan(&meta_with(&[], None, 0)).is_empty());
}

#[test]
fn restore_tally_counts() {
    assert_eq!(restore_tally(&vec![true, false, true, true]), (3, 4));
    assert_eq!(restore_tally(&vec![]), (0, 0));
    assert_eq!(restore_tally(&vec![false]), (0, 1));
}

#[test]
fn rename_rewrites_stored_paths_only() {
    let mut meta = meta_with(
        &[("/a/x", "/h/snaps/first/m/a_x"), ("/b/first/y", "/h/snaps/first/first/first_y")],
        Some(Hooks::new(Some(s("echo")), None)),
        42,
    );
    assert!(rename_items(&mut meta, "second"));
    assert_eq!(
        items_of(&meta.items),
        vec![
            (s("/a/x"), s("/h/snaps/second/m/a_x")),
            (s("/b/first/y"), s("/h/snaps/second/first/first_y")),
        ]
    );
    assert_eq!(meta.size, 42);
    assert_eq!(meta.timestamp, "2024-05-01T10:00:00+02:00");
    assert_eq!(meta.hooks.unwrap().pre_load, Some(s("echo")));
}

#[test]
fn rename_then_restore_restores_the_same_files() {
    let mut meta = meta_with(&[("/a/x", "/h/snaps/first/m/a_x"), ("/b/y", "/h/snaps/first/m/b_y")], None, 1);
    let before: Vec<String> = restore_plan(&meta).into_iter().map(|j| j.to).collect();
    assert!(rename_items(&mut meta, "second"));
    let after = restore_plan(&meta);
    assert_eq!(after.iter().map(|j| j.to.clone()).collect::<Vec<_>>(), before);
    assert_eq!(
        after.iter().map(|j| j.from.clone()).collect::<Vec<_>>(),
        vec![s("/h/snaps/second/m/a_x"), s("/h/snaps/second/m/b_y")]
    );
}

#[test]
fn rename_with_short_stored_path_changes_nothing() {
    let mut meta = meta_with(&[("/a/x", "/h/snaps/first/m/a_x"), ("/b/y", "m/b_y")], None, 1);
    assert!(!rename_items(&mut meta, "second"));
    assert_eq!(
        items_of(&meta.items),
        vec![(s("/a/x"), s("/h/snaps/first/m/a_x")), (s("/b/y"), s("m/b_y"))]
    );
}

#[test]
fn recovery_command_moves_back() {
    let m = RenameMove { from: s("/h/snaps/first"), to: s("/h/snaps/second") };
    assert_eq!(recovery_command(&m), "mv /h/snaps/second /h/snaps/first");
}

#[test]
fn listing_shows_bytes_over_100() {
    assert_eq!(list_line("first", &meta_with(&[], None, 123456)), "first: 1234kb");
    assert_eq!(list_line("first", &meta_with(&[], None, 99)), "first: 0kb");
    assert_eq!(list_line("first", &meta_with(&[], None, 100)), "first: 1kb");
    assert_eq!(list_line("", &meta_with(&[], None, 0)), ": 0kb");
    assert_eq!(list_line("big", &meta_with(&[], None, u64::MAX)), "big: 184467440737095516kb");
    assert_eq!(meta_with(&[], None, 123456).listed_size(), 1234);
    assert_eq!(meta_with(&[], None, 199).listed_size(), 1);
}

#[test]
fn empty_hook_is_nothing() {
    let meta = meta_with(&[], Some(Hooks::new(Some(s("")), Some(s("  \t ")))), 0);
    assert!(meta.hook_exist(HookType::Pre));
    assert!(meta.hook_exist(HookType::Post));
    assert_eq!(meta.hook_command(HookType::Pre), None);
    assert_eq!(meta.hook_command(HookType::Post), None);
    assert_eq!(meta.run_hook(HookType::Pre, HookOutcome::Exited { success: false }), HookStatus::Nothing);
    assert_eq!(meta.run_hook(HookType::Pre, HookOutcome::SpawnFailed), HookStatus::Nothing);
    assert_eq!(meta.run_hook(HookType::Post, HookOutcome::Exited { success: true }), HookStatus::Nothing);
}

#[test]
fn absent_hook_is_nothing() {
    let meta = meta_with(&[], None, 0);
    assert!(!meta.hook_exist(HookType::Pre));
    assert_eq!(meta.run_hook(HookType::Pre, HookOutcome::Exited { success: true }), HookStatus::Nothing);
    let meta = meta_with(&[], Some(Hooks::new(None, Some(s("true")))), 0);
    assert!(!meta.hook_exist(HookType::Pre));
    assert!(meta.hook_exist(HookType::Post));
    assert_eq!(meta.run_hook(HookType::Pre, HookOutcome::Exited { success: true }), HookStatus::Nothing);
}

#[test]
fn hook_status_follows_the_shell() {
    let meta = meta_with(&[], Some(Hooks::new(Some(s("echo hi")), Some(s("false")))), 0);
    assert_eq!(meta.hook_command(HookType::Pre), Some(&s("echo hi")));
    assert_eq!(meta.run_hook(HookType::Pre, HookOutcome::Exited { success: true }), HookStatus::Success);
    assert_eq!(meta.run_hook(HookType::Post, HookOutcome::Exited { success: false }), HookStatus::Error);
    assert_eq!(meta.run_hook(HookType::Post, HookOutcome::SpawnFailed), HookStatus::Error);
    assert_eq!(meta.run_hook(HookType::Post, HookOutcome::WaitFailed), HookStatus::Error);
    assert_eq!(meta.run_hook(HookType::Pre, HookOutcome::WaitFailed), HookStatus::Error);
    assert_eq!(classify_outcome(HookOutcome::WaitFailed), HookStatus::Error);
    assert_eq!(classify_outcome(HookOutcome::SpawnFailed), HookStatus::Error);
    assert_eq!(classify_outcome(HookOutcome::Exited { success: true }), HookStatus::Success);
}

#[test]
fn hook_helpers_on_options() {
    let hooks = Some(Hooks::new(Some(s("a")), None));
    assert!(hook_stored(&hooks, HookType::Pre));
    assert!(!hook_stored(&hooks, HookType::Post));
    assert!(!hook_stored(&None, HookType::Pre));
    assert_eq!(command_to_run(&hooks, HookType::Pre), Some(&s("a")));
    assert_eq!(command_to_run(&hooks, HookType::Post), None);
    let copy = hooks.as_ref().unwrap().duplicate();
    assert_eq!(copy.pre_load, Some(s("a")));
    assert_eq!(copy.post_load, None);
}

#[test]
fn new_metadata_holds_what_it_is_given() {
    let meta = SnapMetaData::new(StrMap::new(), None, 5, s("2024-05-01T10:00:00+02:00"));
    assert_eq!(meta.size, 5);
    assert!(meta.hooks.is_none());
    assert_eq!(meta.items.len(), 0);
    assert_eq!(meta.timestamp, "2024-05-01T10:00:00+02:00");
}
