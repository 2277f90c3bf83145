use snapsr::cli::parse_rename_args;
use snapsr::config::{ConfigError, GlobEntry, ModuleConfig, NamedModule, SnapConfig, regular_files};
use snapsr::dirs::{
    default_config_path, get_snap_config_dir, get_snaps_dir, metadata_path, registry_path,
    snap_dir, template_path,
};
use snapsr::hooks::Hooks;
use snapsr::logger::{log_line, LogLevel};
use snapsr::template::{parse_for_template, read_line, template_names, text_lines, ConfigLine};
use snapsr::text::{blank, decimal_string, is_whitespace, split, str_eq, trim, trim_lowercase};

fn s(x: &str) -> String {
    x.to_string()
}

fn found(path: &str, is_file: bool) -> GlobEntry {
    GlobEntry::Found { path: s(path), is_file }
}

fn module(patterns: &[&str]) -> ModuleConfig {
    ModuleConfig { patterns: patterns.iter().map(|p| s(p)).collect(), description: None }
}

#[test]
fn rename_args_split_at_first_colon() {
    assert_eq!(parse_rename_args("old:new"), Ok((s("old"), s("new"))));
    assert_eq!(parse_rename_args("a:b:c"), Ok((s("a"), s("b:c"))));
    assert_eq!(parse_rename_args(":"), Ok((s(""), s(""))));
    assert_eq!(parse_rename_args("old:"), Ok((s("old"), s(""))));
}

#[test]
fn rename_args_without_colon_are_refused() {
    assert_eq!(parse_rename_args("oldnew"), Err(s("Expected format 'old_name:new_name'")));
    assert_eq!(parse_rename_args(""), Err(s("Expected format 'old_name:new_name'")));
}

#[test]
fn item_paths_are_the_regular_files() {
    let m = module(&["/home/bob/.config/hypr/*", "/home/bob/.zshrc"]);
    let entries = vec![
        vec![found("/home/bob/.config/hypr/a.conf", true), found("/home/bob/.config/hypr/scripts", false), GlobEntry::Unreadable, found("/home/bob/.config/hypr/b.conf", true)],
        vec![found("/home/bob/.zshrc", true)],
    ];
    assert_eq!(
        m.get_item_paths(&entries),
        Ok(vec![s("/home/bob/.config/hypr/a.conf"), s("/home/bob/.config/hypr/b.conf"), s("/home/bob/.zshrc")])
    );
}

#[test]
fn item_paths_keep_duplicates() {
    let m = module(&["/a/*", "/a/x"]);
    let entries = vec![vec![found("/a/x", true)], vec![found("/a/x", true)]];
    assert_eq!(m.get_item_paths(&entries), Ok(vec![s("/a/x"), s("/a/x")]));
}

#[test]
fn pattern_without_matches_gives_no_files() {
    let m = module(&["/nothing/here/*"]);
    assert_eq!(m.get_item_paths(&vec![vec![]]), Ok(vec![]));
    assert_eq!(m.get_item_paths(&vec![]), Ok(vec![]));
    assert_eq!(regular_files(&vec![vec![], vec![]]), Vec::<String>::new());
}

#[test]
fn malformed_pattern_is_an_error() {
    let m = module(&["/ok/*", "/a**b", "/also/***"]);
    assert_eq!(m.malformed_pattern(), Some(1));
    assert_eq!(
        m.get_item_paths(&vec![vec![found("/ok/f", true)], vec![], vec![]]),
        Err(ConfigError::MalformedPattern { index: 1 })
    );
    assert_eq!(module(&["[unclosed"]).malformed_pattern(), Some(0));
    assert_eq!(module(&["x/[/]"]).malformed_pattern(), Some(0));
    assert_eq!(module(&["/a/**/b", "[ab]c", "?"]).malformed_pattern(), None);
    assert_eq!(module(&[]).malformed_pattern(), None);
}

#[test]
fn malformed_follows_glob() {
    for p in ["", "*", "**", "***", "a/**", "**a", "a**", "[", "[]", "[]]", "[!]", "[!a]", "a/[b", "x/[/]", "/", "//", "~/*.conf"] {
        assert_eq!(module(&[p]).malformed_pattern().is_none(), glob::glob(p).is_ok(), "{p:?}");
    }
}

#[test]
fn config_modules_have_distinct_names() {
    let mut c = SnapConfig::new(Some(Hooks::new(None, Some(s("true")))));
    assert_eq!(c.module_count(), 0);
    c.insert_module(s("a"), module(&["/a/*"]));
    c.insert_module(s("b"), module(&["/b/*"]));
    c.insert_module(s("a"), module(&["/c/*"]));
    assert_eq!(c.module_count(), 2);
    assert_eq!(c.position("a"), Some(0));
    assert_eq!(c.position("b"), Some(1));
    assert_eq!(c.position("c"), None);
    let NamedModule { name, module } = c.module_at(0);
    assert_eq!(name, "a");
    assert_eq!(module.patterns, vec![s("/c/*")]);
    assert_eq!(c.hooks.unwrap().post_load, Some(s("true")));
}

#[test]
fn lines_split_at_line_feeds() {
    assert_eq!(text_lines(""), Vec::<String>::new());
    assert_eq!(text_lines("a"), vec![s("a")]);
    assert_eq!(text_lines("a\n"), vec![s("a")]);
    assert_eq!(text_lines("a\n\nb"), vec![s("a"), s(""), s("b")]);
    assert_eq!(text_lines("a\n\n"), vec![s("a"), s("")]);
    assert_eq!(text_lines("\n"), vec![s("")]);
}

#[test]
fn read_line_tells_directives_apart() {
    assert!(matches!(read_line("template base.toml"), ConfigLine::Template(f) if f == "base.toml"));
    assert!(matches!(read_line("  template   base.toml  extra \r"), ConfigLine::Template(f) if f == "base.toml"));
    assert!(matches!(read_line("template\tbase.toml"), ConfigLine::Template(f) if f == "base.toml"));
    assert!(matches!(read_line("\ttemplate \u{a0}\t base.toml\u{3000}more"), ConfigLine::Template(f) if f == "base.toml"));
    assert!(matches!(read_line("template\u{2003}a b c"), ConfigLine::Template(f) if f == "a"));
    assert!(matches!(read_line("Template base.toml"), ConfigLine::Plain(t) if t == "Template base.toml"));
    assert!(matches!(read_line("x template base.toml"), ConfigLine::Plain(t) if t == "x template base.toml"));
    assert!(matches!(read_line("template=base.toml"), ConfigLine::Plain(t) if t == "template=base.toml"));
    assert!(matches!(read_line("  template \t "), ConfigLine::Plain(t) if t == "template"));
    assert!(matches!(read_line("template"), ConfigLine::Plain(t) if t == "template"));
    assert!(matches!(read_line("template "), ConfigLine::Plain(t) if t == "template"));
    assert!(matches!(read_line("templates x"), ConfigLine::Plain(t) if t == "templates x"));
    assert!(matches!(read_line("  [hooks]  "), ConfigLine::Plain(t) if t == "[hooks]"));
    assert!(matches!(read_line(""), ConfigLine::Plain(t) if t.is_empty()));
}

#[test]
fn template_names_in_order() {
    let txt = "template a.toml\n[x]\n  template b.toml\ntemplate a.toml";
    assert_eq!(template_names(txt), vec![s("a.toml"), s("b.toml"), s("a.toml")]);
    assert_eq!(template_names("[x]\ny = 1\n"), Vec::<String>::new());
}

#[test]
fn templates_replace_their_lines() {
    let txt = "template a.toml\r\n  [x]  \ninclude = []\ntemplate b.toml\n";
    let out = parse_for_template(txt, &vec![Some(s("[a]\nk = 1\n")), Some(s("[b]"))]);
    assert_eq!(out, "[a]\nk = 1\n\n[x]\ninclude = []\n[b]");
}

#[test]
fn directive_takes_any_white_space_between_its_words() {
    let txt = "[x]\ntemplate\tbase.toml\n\t template \u{a0} other.toml trailing words\n[y]";
    assert_eq!(template_names(txt), vec![s("base.toml"), s("other.toml")]);
    let out = parse_for_template(txt, &vec![Some(s("a = 1")), Some(s("b = 2\nc = 3"))]);
    assert_eq!(out, "[x]\na = 1\nb = 2\nc = 3\n[y]");
}

#[test]
fn directive_follows_the_first_two_words() {
    for line in ["template f", "template\tf", " template  f g", "template", "templates f", "a template f", "template\u{a0}f", ""] {
        let mut words = line.split_whitespace();
        let want = match (words.next(), words.next()) {
            (Some("template"), Some(file)) => Some(file.to_string()),
            _ => None,
        };
        let got = match read_line(line) {
            ConfigLine::Template(file) => Some(file),
            ConfigLine::Plain(_) => None,
        };
        assert_eq!(got, want, "{line:?}");
    }
}

#[test]
fn unreadable_template_leaves_an_empty_line() {
    let txt = "[x]\ntemplate gone.toml\n[y]";
    assert_eq!(parse_for_template(txt, &vec![None]), "[x]\n\n[y]");
    assert_eq!(parse_for_template(txt, &vec![]), "[x]\n\n[y]");
}

#[test]
fn text_without_templates_is_trimmed_line_by_line() {
    assert_eq!(parse_for_template("  a  \n\tb\n\n", &vec![]), "a\nb\n");
    assert_eq!(parse_for_template("", &vec![]), "");
    assert_eq!(parse_for_template("x", &vec![Some(s("unused"))]), "x");
}

#[test]
fn parse_for_template_follows_lines_trim_join() {
    for txt in ["", "a", "a\n", "\n", "\n\n", " a \r\n b\r", "a\r\n\r\nb\n", "\u{a0}x\u{3000}\n y", "a\n\n"] {
        let want = txt.lines().map(|l| l.trim().to_string()).collect::<Vec<_>>().join("\n");
        assert_eq!(parse_for_template(txt, &vec![]), want, "{txt:?}");
    }
}

#[test]
fn directories_below_home() {
    assert_eq!(get_snap_config_dir("/home/bob"), "/home/bob/.config/snapsr");
    assert_eq!(get_snaps_dir("/home/bob"), "/home/bob/.config/snapsr/snaps");
    assert_eq!(snap_dir("/home/bob/.config/snapsr/snaps", "first"), "/home/bob/.config/snapsr/snaps/first");
    assert_eq!(metadata_path("/s/first"), "/s/first/snap.json");
    assert_eq!(registry_path("/c"), "/c/snaplog.json");
    assert_eq!(default_config_path("/c"), "/c/config.toml");
    assert_eq!(template_path("/c", "base.toml"), "/c/templates/base.toml");
}

#[test]
fn log_lines_carry_their_marker() {
    assert_eq!(log_line(LogLevel::Error, "bad"), "[\x1b[91m-\x1b[0m] bad");
    assert_eq!(log_line(LogLevel::Warn, "hm"), "[\x1b[93m!\x1b[0m] hm");
    assert_eq!(log_line(LogLevel::Info, "ok"), "[\x1b[94m*\x1b[0m] ok");
    assert_eq!(log_line(LogLevel::Success, "done"), "[\x1b[92m+\x1b[0m] done");
    assert_eq!(LogLevel::Error.marker(), "[\x1b[91m-\x1b[0m] ");
    assert!(LogLevel::Info.on_stdout());
    assert!(!LogLevel::Error.on_stdout());
    assert!(!LogLevel::Warn.on_stdout());
    assert!(!LogLevel::Success.on_stdout());
}

#[test]
fn whitespace_follows_std() {
    for code in 0u32..0x11000 {
        if let Some(c) = char::from_u32(code) {
            assert_eq!(is_whitespace(c), c.is_whitespace(), "{code:x}");
        }
    }
}

#[test]
fn text_helpers() {
    assert_eq!(trim("  a b \n"), "a b");
    assert_eq!(trim(" \t "), "");
    assert_eq!(trim(""), "");
    assert_eq!(trim("\u{a0}x\u{2003}"), "x");
    assert_eq!(trim_lowercase("  YeS "), "yes");
    assert!(blank(""));
    assert!(blank(" \n\t"));
    assert!(!blank(" a "));
    assert!(str_eq("abc", "abc"));
    assert!(!str_eq("abc", "abd"));
    assert!(!str_eq("abc", "ab"));
    assert_eq!(split("a/b//c", '/'), vec![s("a"), s("b"), s(""), s("c")]);
    assert_eq!(split("", '/'), vec![s("")]);
    assert_eq!(split("/", '/'), vec![s(""), s("")]);
    assert_eq!(decimal_string(0), "0");
    assert_eq!(decimal_string(7), "7");
    assert_eq!(decimal_string(10), "10");
    assert_eq!(decimal_string(1234567890), "1234567890");
    assert_eq!(decimal_string(u64::MAX), "18446744073709551615");
}
