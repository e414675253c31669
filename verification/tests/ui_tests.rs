use hyprconf::model::{Category, ConfigEntry};
use hyprconf::ansi::{Color, Style, BOLD};
use hyprconf::highlight::{highlight_ranges, highlighted, Matches};
use hyprconf::ui::{build_colored_line, line_fits, render_line, Segment, Span};
use skim_tuikit::attr::{Attr, Color as TermColor, Effect};

fn entry(description: Option<&str>) -> ConfigEntry {
    ConfigEntry {
        path: "/cfg/conf.d/70-binds.conf".to_string(),
        file_name: "70-binds.conf".to_string(),
        alias: "binds".to_string(),
        description: description.map(|d| d.to_string()),
        category: Category::ConfD,
    }
}

fn cut(text: &str, span: &Span) -> String {
    text.chars().skip(span.start).take(span.end - span.start).collect()
}

fn attrs(display: &skim::AnsiString<'static>) -> Vec<Attr> {
    display.iter().map(|(_, a)| a).collect()
}

#[test]
fn line_with_description() {
    let line = render_line(&entry(Some("keybindings")), false);
    assert_eq!(
        line.text,
        "[conf.d] binds \u{2014} keybindings | 70-binds.conf (/cfg/conf.d/70-binds.conf)"
    );
    assert!(line.spans.is_empty());
}

#[test]
fn line_without_description_has_no_separator() {
    let line = render_line(&entry(None), false);
    assert_eq!(line.text, "[conf.d] binds | 70-binds.conf (/cfg/conf.d/70-binds.conf)");
    let blank = render_line(&entry(Some("")), true);
    assert_eq!(blank.text, "[conf.d] binds | 70-binds.conf (/cfg/conf.d/70-binds.conf)");
    assert_eq!(blank.spans.len(), 3);
}

#[test]
fn spans_of_line_with_description() {
    let line = render_line(&entry(Some("keybindings")), true);
    assert_eq!(
        line.spans,
        vec![
            Span { segment: Segment::Category, start: 1, end: 7 },
            Span { segment: Segment::Alias, start: 9, end: 14 },
            Span { segment: Segment::Description, start: 17, end: 28 },
            Span { segment: Segment::Trailing, start: 29, end: 72 },
        ]
    );
    assert_eq!(line.text.chars().count(), 72);
}

#[test]
fn spans_of_line_without_description() {
    let line = render_line(&entry(None), true);
    assert_eq!(
        line.spans,
        vec![
            Span { segment: Segment::Category, start: 1, end: 7 },
            Span { segment: Segment::Alias, start: 9, end: 14 },
            Span { segment: Segment::Trailing, start: 15, end: 58 },
        ]
    );
}

#[test]
fn spans_cut_out_the_segments() {
    let mut e = entry(Some("Tastenk\u{fc}rzel \u{2014} \u{8a2d}\u{5b9a} \u{1f3a8}"));
    e.alias = "b\u{ef}nds".to_string();
    e.file_name = "70-b\u{ef}nds.conf".to_string();
    e.path = "/cfg/\u{e9}t\u{e9}/70-b\u{ef}nds.conf".to_string();
    let line = render_line(&e, true);
    assert_eq!(line.spans.len(), 4);
    assert_eq!(cut(&line.text, &line.spans[0]), "conf.d");
    assert_eq!(cut(&line.text, &line.spans[1]), "b\u{ef}nds");
    assert_eq!(cut(&line.text, &line.spans[2]), "Tastenk\u{fc}rzel \u{2014} \u{8a2d}\u{5b9a} \u{1f3a8}");
    assert_eq!(
        cut(&line.text, &line.spans[3]),
        "| 70-b\u{ef}nds.conf (/cfg/\u{e9}t\u{e9}/70-b\u{ef}nds.conf)"
    );
    for w in line.spans.windows(2) {
        assert!(w[0].end <= w[1].start);
    }
    assert_eq!(line.spans[3].end, line.text.chars().count());
}

#[test]
fn blank_description_is_shown_without_separator() {
    let line = render_line(&entry(Some("  ")), true);
    assert_eq!(line.text, "[conf.d] binds   | 70-binds.conf (/cfg/conf.d/70-binds.conf)");
    assert_eq!(line.spans.len(), 3);
    assert_eq!(cut(&line.text, &line.spans[2]), "| 70-binds.conf (/cfg/conf.d/70-binds.conf)");
}

#[test]
fn segment_styles() {
    let plain = Color::Default;
    assert_eq!(Segment::Category.style(), Style { fg: Color::AnsiValue(3), bg: plain, effect: 0 });
    assert_eq!(
        Segment::Alias.style(),
        Style { fg: Color::Rgb(0xDA, 0x68, 0xEC), bg: plain, effect: BOLD }
    );
    assert_eq!(
        Segment::Description.style(),
        Style { fg: Color::Rgb(0xFF, 0x6A, 0x3D), bg: plain, effect: 0 }
    );
    assert_eq!(Segment::Trailing.style(), Style { fg: Color::AnsiValue(15), bg: plain, effect: 0 });
}

#[test]
fn colored_line_carries_segment_attributes() {
    let (text, display) = build_colored_line(&entry(Some("keys")), true);
    assert_eq!(text, "[conf.d] binds \u{2014} keys | 70-binds.conf (/cfg/conf.d/70-binds.conf)");
    assert_eq!(display.stripped(), text);
    assert!(display.has_attrs());
    let a = attrs(&display);
    let plain = Attr::default();
    let label = Attr { fg: TermColor::AnsiValue(3), bg: TermColor::Default, effect: Effect::empty() };
    let alias =
        Attr { fg: TermColor::Rgb(0xDA, 0x68, 0xEC), bg: TermColor::Default, effect: Effect::BOLD };
    let desc =
        Attr { fg: TermColor::Rgb(0xFF, 0x6A, 0x3D), bg: TermColor::Default, effect: Effect::empty() };
    let trail = Attr { fg: TermColor::AnsiValue(15), bg: TermColor::Default, effect: Effect::empty() };
    assert_eq!(a.len(), text.chars().count());
    assert_eq!(a[0], plain);
    for i in 1..7 {
        assert_eq!(a[i], label);
    }
    assert_eq!(a[7], plain);
    assert_eq!(a[8], plain);
    for i in 9..14 {
        assert_eq!(a[i], alias);
    }
    for i in 14..17 {
        assert_eq!(a[i], plain);
    }
    for i in 17..21 {
        assert_eq!(a[i], desc);
    }
    assert_eq!(a[21], plain);
    for i in 22..a.len() {
        assert_eq!(a[i], trail);
    }
}

#[test]
fn uncolored_line_carries_no_attributes() {
    let (text, display) = build_colored_line(&entry(Some("keys")), false);
    assert_eq!(display.stripped(), text);
    assert!(!display.has_attrs());
}

#[test]
fn highlight_of_no_match_is_empty() {
    assert!(highlight_ranges("binds", &Matches::Unmatched).is_empty());
}

#[test]
fn highlight_of_character_indices() {
    assert_eq!(
        highlight_ranges("binds", &Matches::CharIndices(vec![0, 2, 3])),
        vec![(0, 1), (2, 3), (3, 4)]
    );
    assert!(highlight_ranges("binds", &Matches::CharIndices(Vec::new())).is_empty());
}

#[test]
fn highlight_of_character_range() {
    assert_eq!(highlight_ranges("binds", &Matches::CharRange(1, 4)), vec![(1, 4)]);
}

#[test]
fn highlight_of_byte_range_counts_characters() {
    let text = "\u{e9}t\u{e9} \u{2014} ok";
    assert_eq!(highlight_ranges(text, &Matches::ByteRange(0, 2)), vec![(0, 1)]);
    assert_eq!(highlight_ranges(text, &Matches::ByteRange(2, 5)), vec![(1, 3)]);
    assert_eq!(highlight_ranges(text, &Matches::ByteRange(6, 9)), vec![(4, 5)]);
    assert_eq!(highlight_ranges(text, &Matches::ByteRange(10, 12)), vec![(6, 8)]);
    assert_eq!(highlight_ranges(text, &Matches::ByteRange(0, 12)), vec![(0, 8)]);
    assert_eq!(highlight_ranges(text, &Matches::ByteRange(3, 3)), vec![(2, 2)]);
}

#[test]
fn highlight_of_broken_byte_range_is_empty() {
    let text = "\u{e9}t\u{e9}";
    assert!(highlight_ranges(text, &Matches::ByteRange(1, 3)).is_empty());
    assert!(highlight_ranges(text, &Matches::ByteRange(0, 4)).is_empty());
    assert!(highlight_ranges(text, &Matches::ByteRange(3, 2)).is_empty());
    assert!(highlight_ranges(text, &Matches::ByteRange(0, 6)).is_empty());
    assert!(highlight_ranges(text, &Matches::ByteRange(7, 9)).is_empty());
}

#[test]
fn highlight_skips_what_does_not_fit_32_bits() {
    let big = u32::MAX as usize;
    assert_eq!(
        highlight_ranges("x", &Matches::CharIndices(vec![1, big, big - 1])),
        vec![(1, 2), (u32::MAX - 1, u32::MAX)]
    );
    assert_eq!(highlight_ranges("x", &Matches::CharRange(0, big)), vec![(0, u32::MAX)]);
    if usize::BITS > 32 {
        assert!(highlight_ranges("x", &Matches::CharRange(0, big + 1)).is_empty());
        assert!(highlight_ranges("x", &Matches::CharIndices(vec![big + 7])).is_empty());
    }
}

#[test]
fn highlight_lies_over_segment_colors() {
    let (text, display) = build_colored_line(&entry(Some("keys")), true);
    let mark = Attr { fg: TermColor::AnsiValue(0), bg: TermColor::AnsiValue(11), effect: Effect::UNDERLINE };
    let lit = highlighted(&display, mark, &text, &Matches::CharIndices(vec![2, 10]));
    assert_eq!(lit.stripped(), text);
    let before = attrs(&display);
    let after = attrs(&lit);
    assert_eq!(after.len(), before.len());
    for i in 0..after.len() {
        if i == 2 || i == 10 {
            assert_eq!(after[i], mark);
        } else {
            assert_eq!(after[i], before[i]);
        }
    }
}

#[test]
fn highlight_of_range_on_plain_line() {
    let (text, display) = build_colored_line(&entry(None), false);
    let mark = Attr { fg: TermColor::AnsiValue(1), bg: TermColor::Default, effect: Effect::BOLD };
    let lit = highlighted(&display, mark, &text, &Matches::CharRange(9, 14));
    let after = attrs(&lit);
    for i in 0..after.len() {
        if (9..14).contains(&i) {
            assert_eq!(after[i], mark);
        } else {
            assert_eq!(after[i], Attr::default());
        }
    }
    let same = highlighted(&display, mark, &text, &Matches::Unmatched);
    assert!(!same.has_attrs());
    assert_eq!(same.stripped(), text);
}

#[test]
fn line_agrees_with_plain_formatting() {
    let descriptions = [None, Some(""), Some(" "), Some("keys"), Some("\u{e9}\u{2014}\u{8a2d}"), Some(" x ")];
    for category in [Category::Hyprland, Category::Utility, Category::Themes, Category::Plugins, Category::ConfD, Category::Scripts] {
        for d in descriptions {
            let mut e = entry(d);
            e.category = category;
            let desc = d.unwrap_or("");
            let sep = if desc.trim().is_empty() { "" } else { " \u{2014} " };
            let want = format!(
                "[{}] {}{}{} | {} ({})",
                category.label(),
                e.alias,
                sep,
                desc,
                e.file_name,
                e.path
            );
            let line = render_line(&e, true);
            assert_eq!(line.text, want);
            assert_eq!(line.spans.len(), if sep.is_empty() { 3 } else { 4 });
            assert_eq!(cut(&line.text, &line.spans[0]), category.label());
            assert_eq!(cut(&line.text, &line.spans[1]), e.alias);
            if !sep.is_empty() {
                assert_eq!(cut(&line.text, &line.spans[2]), desc);
            }
            let last = line.spans.last().unwrap();
            assert_eq!(cut(&line.text, last), format!("| {} ({})", e.file_name, e.path));
        }
    }
}

#[test]
fn ordinary_lines_fit_the_selector() {
    assert!(line_fits(&entry(None)));
    assert!(line_fits(&entry(Some("keys \u{2014} \u{8a2d}\u{5b9a}"))));
    let mut long = entry(Some("x"));
    long.alias = "a".repeat(1 << 20);
    assert!(line_fits(&long));
}

#[test]
fn ranges_lie_apart_and_in_order() {
    for d in [None, Some("keys"), Some(" "), Some("\u{e9}")] {
        let (text, display) = build_colored_line(&entry(d), true);
        let line = render_line(&entry(d), true);
        assert_eq!(display.stripped(), text);
        assert_eq!(line.spans[0].start, 1);
        assert_eq!(line.spans[0].end, 1 + "conf.d".chars().count());
        assert_eq!(line.spans[1].start, line.spans[0].end + 2);
        assert_eq!(line.spans[1].end, line.spans[1].start + "binds".chars().count());
        if line.spans.len() == 4 {
            assert_eq!(line.spans[2].start, line.spans[1].end + 3);
        }
        for w in line.spans.windows(2) {
            assert!(w[0].end < w[1].start);
        }
        assert_eq!(line.spans.last().unwrap().end, text.chars().count());
    }
}
