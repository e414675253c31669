use hyprconf::cli::{default_root_from_xdg, join, Cli, RootError};
use hyprconf::edit::editor_command;
use hyprconf::text::{char_is_whitespace, same_text, trimmed};

fn cli(root: Option<&str>) -> Cli {
    Cli {
        root: root.map(|r| r.to_string()),
        category: None,
        editor: None,
        color_spec: None,
        no_seg_colors: false,
    }
}

#[test]
fn given_root_is_used() {
    assert_eq!(cli(Some("/etc/hypr")).resolve_root(Some("/x"), Some("/home/u")), Ok("/etc/hypr".to_string()));
    assert_eq!(cli(Some("/etc/hypr")).resolve_root(None, None), Ok("/etc/hypr".to_string()));
}

#[test]
fn config_home_comes_before_home() {
    assert_eq!(
        cli(None).resolve_root(Some("/home/u/.cfg"), Some("/home/u")),
        Ok("/home/u/.cfg/hypr".to_string())
    );
}

#[test]
fn blank_config_home_falls_back_to_home() {
    assert_eq!(cli(None).resolve_root(Some("  "), Some("/home/u")), Ok("/home/u/.config/hypr".to_string()));
    assert_eq!(cli(None).resolve_root(Some(""), Some("/home/u")), Ok("/home/u/.config/hypr".to_string()));
    assert_eq!(cli(None).resolve_root(None, Some("/home/u")), Ok("/home/u/.config/hypr".to_string()));
}

#[test]
fn no_home_is_an_error() {
    assert_eq!(cli(None).resolve_root(None, None), Err(RootError::HomeNotSet));
    assert_eq!(cli(None).resolve_root(Some(" "), None), Err(RootError::HomeNotSet));
    assert_eq!(default_root_from_xdg(None, None), Err(RootError::HomeNotSet));
    assert_eq!(RootError::HomeNotSet.message(), "HOME not set; cannot resolve default root");
}

#[test]
fn join_adds_one_slash() {
    assert_eq!(join("/home/u", "hypr"), "/home/u/hypr");
    assert_eq!(join("/home/u/", "hypr"), "/home/u/hypr");
    assert_eq!(join("/", ".config"), "/.config");
    assert_eq!(join("", "hypr"), "hypr");
}

#[test]
fn join_agrees_with_std_paths() {
    for base in ["/home/u", "/home/u/", "/", "", "rel", " /x "] {
        let want = std::path::PathBuf::from(base).join("hypr").to_string_lossy().into_owned();
        assert_eq!(join(base, "hypr"), want);
    }
}

#[test]
fn segment_colors_unless_switched_off() {
    let mut c = cli(None);
    assert!(c.seg_colors());
    c.no_seg_colors = true;
    assert!(!c.seg_colors());
}

#[test]
fn editor_is_given_then_environment_then_default() {
    assert_eq!(editor_command(Some("nvim"), Some("vi")), "nvim");
    assert_eq!(editor_command(None, Some("vi")), "vi");
    assert_eq!(editor_command(None, None), "hx");
    assert_eq!(editor_command(Some("code -w"), None), "code -w");
}

#[test]
fn whitespace_agrees_with_std() {
    let mut c = 0u32;
    while c <= 0x10ffff {
        if let Some(ch) = char::from_u32(c) {
            assert_eq!(char_is_whitespace(ch), ch.is_whitespace());
        }
        c += 1;
    }
}

#[test]
fn trimmed_agrees_with_std() {
    for s in ["", " ", "a", "  a b  ", "\t\u{3000}x\u{a0}\n", "\u{2014} x \u{2014}", " \u{e9} "] {
        assert_eq!(trimmed(s), s.trim());
    }
}

#[test]
fn same_text_compares_characters() {
    assert!(same_text("", ""));
    assert!(same_text("hyprland.conf", "hyprland.conf"));
    assert!(!same_text("hyprland.conf", "hyprland.con"));
    assert!(!same_text("a", "b"));
    assert!(!same_text("\u{e9}", "e"));
}
