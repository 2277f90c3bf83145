use snapsr::config::{first_rejected, resolve_items, ConfigError, GlobEntry, ModuleConfig};

fn s(x: &str) -> String {
    x.to_string()
}

#[test]
fn first_rejected_is_the_first_false() {
    assert_eq!(first_rejected(&vec![]), None);
    assert_eq!(first_rejected(&vec![true, true]), None);
    assert_eq!(first_rejected(&vec![false]), Some(0));
    assert_eq!(first_rejected(&vec![true, false, true, false]), Some(1));
    assert_eq!(first_rejected(&vec![true, true, false]), Some(2));
}

#[test]
fn resolve_items_gives_files_or_the_first_error() {
    let found = vec![
        vec![GlobEntry::Found { path: s("/a/x"), is_file: true }],
        vec![GlobEntry::Unreadable, GlobEntry::Found { path: s("/a/d"), is_file: false }],
        vec![GlobEntry::Found { path: s("/b/y"), is_file: true }],
    ];
    assert_eq!(resolve_items(&vec![true, true, true], &found), Ok(vec![s("/a/x"), s("/b/y")]));
    assert_eq!(resolve_items(&vec![], &found), Ok(vec![s("/a/x"), s("/b/y")]));
    assert_eq!(
        resolve_items(&vec![true, false, false], &found),
        Err(ConfigError::MalformedPattern { index: 1 })
    );
    assert_eq!(resolve_items(&vec![false], &vec![]), Err(ConfigError::MalformedPattern { index: 0 }));
}

#[test]
fn check_patterns_asks_glob() {
    let m = ModuleConfig {
        patterns: vec![s("/etc/*.conf"), s("a**"), s("[a-z]"), s("[")],
        description: Some(s("mixed")),
    };
    assert_eq!(m.check_patterns(), vec![true, false, true, false]);
    assert_eq!(m.malformed_pattern(), Some(1));
}
