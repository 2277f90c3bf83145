use snapsr::path::{build, file_name, flatten, join, path_components, replace_component_in_path};

fn s(x: &str) -> String {
    x.to_string()
}

#[test]
fn test_repalce_component() {
    assert_eq!(
        replace_component_in_path("/home/bob/.config/hypr", "waybar", 1),
        Some(s("/home/bob/.config/waybar"))
    );
    assert_eq!(
        replace_component_in_path("/home/bob/.config/hypr/scripts", "waybar", 2),
        Some(s("/home/bob/.config/waybar/scripts"))
    );
}

#[test]
fn replace_matches_std_path() {
    let cases = [
        ("/home/bob/.config/hypr", "waybar", 1usize),
        ("/home/bob/.config/hypr/scripts", "waybar", 2),
        ("/a/b/c/d", "x", 3),
        ("a/b/c", "x", 3),
        ("a//b/./c/", "x", 2),
        ("./a/b", "x", 3),
        ("/a/b", "x", 3),
        ("/a/b", "x", 0),
        ("/a/../b", "x", 2),
        ("a/b", "", 1),
        ("a/b/c", "", 2),
        ("a/b/c", "/r", 2),
        ("a/b/c", "p/q", 2),
        ("a/b/c", "p/", 2),
        ("", "x", 0),
    ];
    for (path, name, level) in cases {
        let comps: Vec<std::path::Component> = std::path::Path::new(path).components().collect();
        let mut want = std::path::PathBuf::new();
        let at = comps.len() - level;
        for (i, c) in comps.iter().enumerate() {
            if i == at {
                want.push(name);
            } else {
                want.push(*c);
            }
        }
        assert_eq!(
            replace_component_in_path(path, name, level),
            Some(want.to_string_lossy().into_owned()),
            "{path} {name} {level}"
        );
    }
}

#[test]
fn replace_fails_on_short_path() {
    assert_eq!(replace_component_in_path("/a/b", "x", 4), None);
    assert_eq!(replace_component_in_path("a", "x", 2), None);
    assert_eq!(replace_component_in_path("", "x", 1), None);
    assert_eq!(replace_component_in_path("///", "x", 2), None);
}

#[test]
fn replace_can_replace_the_root() {
    assert_eq!(replace_component_in_path("/a/b", "x", 3), Some(s("x/a/b")));
}

#[test]
fn components_follow_std() {
    for path in [
        "", "/", "//", "a", "/a", "a/", "a//b", "./a", "a/./b", "a/.", ".", "..", "../a", "/./a",
        "/home/bob/.config/hypr", "a/b/../c", ".//x", "/.", "a/..", "héllo/wörld",
    ] {
        let want: Vec<String> = std::path::Path::new(path)
            .components()
            .map(|c| c.as_os_str().to_string_lossy().into_owned())
            .collect();
        assert_eq!(path_components(path), want, "{path:?}");
    }
}

#[test]
fn join_follows_std() {
    for (base, piece) in [
        ("/a", "b"), ("/a/", "b"), ("", "b"), ("/a", "/b"), ("/a", ""), ("/", "b"), ("a", "b/c"),
        ("", ""), ("a", "."),
    ] {
        let want = std::path::Path::new(base).join(piece).to_string_lossy().into_owned();
        assert_eq!(join(base, piece), want, "{base:?} {piece:?}");
    }
}

#[test]
fn build_joins_pieces_in_order() {
    assert_eq!(build(&vec![s("/"), s("home"), s("bob")]), "/home/bob");
    assert_eq!(build(&vec![s("a"), s("b")]), "a/b");
    assert_eq!(build(&vec![]), "");
    assert_eq!(build(&vec![s("a"), s("/b"), s("c")]), "/b/c");
}

#[test]
fn flatten_uses_parent_and_file_name() {
    assert_eq!(flatten("/home/bob/.config/hypr/hyprland.conf"), Some(s("hypr_hyprland.conf")));
    assert_eq!(flatten("/etc/passwd"), Some(s("etc_passwd")));
    assert_eq!(flatten("a/b"), Some(s("a_b")));
    assert_eq!(flatten("a//b/"), Some(s("a_b")));
}

#[test]
fn flatten_collides_for_equal_parent_and_name() {
    assert_eq!(flatten("/a/x/f"), Some(s("x_f")));
    assert_eq!(flatten("/b/x/f"), Some(s("x_f")));
}

#[test]
fn flatten_needs_a_named_parent() {
    assert_eq!(flatten("/passwd"), None);
    assert_eq!(flatten("passwd"), None);
    assert_eq!(flatten("./passwd"), None);
    assert_eq!(flatten("../passwd"), None);
    assert_eq!(flatten("a/.."), None);
    assert_eq!(flatten("/"), None);
    assert_eq!(flatten(""), None);
}

#[test]
fn flatten_follows_std() {
    for path in ["/a/x/f", "/f", "f", "a/f", "./f", "../f", "a/../f", "a/b/..", "/a/b/./c/", ""] {
        let p = std::path::Path::new(path);
        let want = match (p.parent(), p.file_name()) {
            (Some(parent), Some(child)) => parent.file_name().map(|g| {
                g.to_string_lossy().to_string() + "_" + &child.to_string_lossy()
            }),
            _ => None,
        };
        assert_eq!(flatten(path), want, "{path:?}");
    }
}

#[test]
fn file_name_is_last_named_component() {
    assert_eq!(file_name("/home/bob/snaps/first"), Some(s("first")));
    assert_eq!(file_name("first/"), Some(s("first")));
    assert_eq!(file_name("/"), None);
    assert_eq!(file_name("a/.."), None);
    assert_eq!(file_name("."), None);
    assert_eq!(file_name(""), None);
}
