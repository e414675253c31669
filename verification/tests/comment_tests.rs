use hyprconf::comment::{first_comment_line, line_comment};

fn lines(text: &[&str]) -> Vec<Option<String>> {
    text.iter().map(|l| Some(l.to_string())).collect()
}

#[test]
fn comment_markers_are_recognised() {
    assert_eq!(line_comment("# hash"), Some("hash".to_string()));
    assert_eq!(line_comment("// slashes"), Some("slashes".to_string()));
    assert_eq!(line_comment("; semicolon"), Some("semicolon".to_string()));
    assert_eq!(line_comment("   #   padded   "), Some("padded".to_string()));
}

#[test]
fn repeated_markers_are_removed() {
    assert_eq!(line_comment("### title"), Some("title".to_string()));
    assert_eq!(line_comment("//// title"), Some("title".to_string()));
    assert_eq!(line_comment("/// title"), Some("/ title".to_string()));
    assert_eq!(line_comment(";; title"), Some("title".to_string()));
    assert_eq!(line_comment("# # title"), Some("# title".to_string()));
    assert_eq!(line_comment("#; title"), Some("; title".to_string()));
}

#[test]
fn lines_without_comment_offer_nothing() {
    assert_eq!(line_comment("monitor = ,preferred,auto,1"), None);
    assert_eq!(line_comment(""), None);
    assert_eq!(line_comment("   "), None);
    assert_eq!(line_comment("/ not a comment"), None);
    assert_eq!(line_comment("x # trailing"), None);
}

#[test]
fn empty_comments_offer_nothing() {
    assert_eq!(line_comment("#"), None);
    assert_eq!(line_comment("##"), None);
    assert_eq!(line_comment("//"), None);
    assert_eq!(line_comment("#    "), None);
}

#[test]
fn shebang_is_skipped() {
    assert_eq!(line_comment("#!/bin/bash"), None);
    assert_eq!(line_comment("  #!/usr/bin/env python"), None);
    assert_eq!(
        first_comment_line(&lines(&["#!/bin/sh", "# Takes a screenshot", "grim"]), 10),
        Some("Takes a screenshot".to_string())
    );
}

#[test]
fn first_qualifying_line_wins() {
    let l = lines(&["", "#", "monitor=", "// first", "# second"]);
    assert_eq!(first_comment_line(&l, 10), Some("first".to_string()));
}

#[test]
fn comment_beyond_budget_is_not_found() {
    let mut text = vec!["x = 1"; 10];
    text.push("# late");
    let l = lines(&text);
    assert_eq!(first_comment_line(&l, 10), None);
    assert_eq!(first_comment_line(&l, 11), Some("late".to_string()));
    assert_eq!(first_comment_line(&l, 20), Some("late".to_string()));
}

#[test]
fn comment_on_last_line_of_budget_is_found() {
    let mut text = vec!["x = 1"; 9];
    text.push("# tenth");
    text.push("# eleventh");
    assert_eq!(first_comment_line(&lines(&text), 10), Some("tenth".to_string()));
}

#[test]
fn zero_budget_finds_nothing() {
    assert_eq!(first_comment_line(&lines(&["# first"]), 0), None);
}

#[test]
fn no_lines_no_description() {
    assert_eq!(first_comment_line(&Vec::new(), 10), None);
}

#[test]
fn unreadable_lines_count_towards_the_budget() {
    let l = vec![None, None, Some("# third".to_string())];
    assert_eq!(first_comment_line(&l, 2), None);
    assert_eq!(first_comment_line(&l, 3), Some("third".to_string()));
}

#[test]
fn comment_text_may_be_any_script() {
    assert_eq!(line_comment("# Тема — тёмная"), Some("Тема — тёмная".to_string()));
    assert_eq!(line_comment("\u{3000}# 設定\u{3000}"), Some("設定".to_string()));
}

fn comment_by_std(line: &str) -> Option<String> {
    let t = line.trim();
    if t.starts_with("#!") {
        return None;
    }
    let marker = ["#", "//", ";"].into_iter().find(|m| t.starts_with(m))?;
    let content = t.trim_start_matches(marker).trim();
    if content.is_empty() {
        None
    } else {
        Some(content.to_string())
    }
}

#[test]
fn line_comment_agrees_with_std_string_functions() {
    let heads = ["", " ", "\t", "#", "##", "#!", "# !", "//", "///", "/", ";", ";;", "#;", ";#", "//#", "x"];
    let bodies = ["", " ", "a", " a ", "# a", "//a", "/ a", "\u{2014} b", "!x", " \u{3000}c\u{a0}"];
    for h in heads {
        for m in heads {
            for b in bodies {
                let line = format!("{}{}{}", h, m, b);
                assert_eq!(line_comment(&line), comment_by_std(&line), "line {:?}", line);
            }
        }
    }
}

#[test]
fn first_comment_agrees_with_a_plain_search() {
    let pool = ["", "x = 1", "#", "# a", "#!/bin/sh", "// b", "   ; c  ", "////"];
    for i in 0..pool.len() {
        for j in 0..pool.len() {
            for k in 0..pool.len() {
                let text = [pool[i], pool[j], pool[k]];
                for budget in 0..5 {
                    let want = text.iter().take(budget).find_map(|l| comment_by_std(l));
                    assert_eq!(first_comment_line(&lines(&text), budget), want);
                }
            }
        }
    }
}
