use zellij_vertical_sessions::color::ColorSpec;
use zellij_vertical_sessions::styled::{truncate_string, InlineStyle, StyledSegment, StyledText};

fn style(fg: ColorSpec, bold: bool) -> InlineStyle {
    InlineStyle { fg, bg: ColorSpec::Default, bold, dim: false, fill: false }
}

fn text(parts: &[(&str, InlineStyle)]) -> StyledText {
    let mut t = StyledText::new();
    for (s, st) in parts {
        t.push(s.to_string(), *st);
    }
    t
}

#[test]
fn inline_style_codes() {
    let s = InlineStyle { fg: ColorSpec::EightBit(1), bg: ColorSpec::Rgb(1, 2, 3), bold: true, dim: true, fill: false };
    assert_eq!(s.to_ansi(), "\x1b[1m\x1b[2m\x1b[38;5;1m\x1b[48;2;1;2;3m");
    assert!(s.has_any_style());
    assert_eq!(InlineStyle::default().to_ansi(), "");
    assert!(!InlineStyle::default().has_any_style());
    let fill_only = InlineStyle { fill: true, ..InlineStyle::default() };
    assert!(fill_only.has_any_style());
}

#[test]
fn push_skips_empty_text() {
    let mut t = StyledText::new();
    t.push(String::new(), InlineStyle::default());
    assert_eq!(t.segments.len(), 0);
    t.push("x".to_string(), InlineStyle::default());
    assert_eq!(t.segments.len(), 1);
}

#[test]
fn display_widths() {
    let seg = StyledSegment { text: "日本".to_string(), style: InlineStyle::default() };
    assert_eq!(seg.display_width(), 4);
    let t = text(&[("ab", InlineStyle::default()), ("日本", InlineStyle::default())]);
    assert_eq!(t.display_width(), 6);
    assert_eq!(StyledText::new().display_width(), 0);
}

#[test]
fn ansi_rendering() {
    let t = text(&[("a", InlineStyle::default()), ("b", style(ColorSpec::EightBit(2), false))]);
    assert_eq!(t.to_ansi(), "a\x1b[0m\x1b[38;5;2mb\x1b[0m");
    let plain = text(&[("a", InlineStyle::default()), ("b", InlineStyle::default())]);
    assert_eq!(plain.to_ansi(), "ab");
}

#[test]
fn truncate_keeps_text_that_fits() {
    let t = text(&[("abc", style(ColorSpec::EightBit(1), true)), ("de", InlineStyle::default())]);
    let r = t.truncate(5);
    assert_eq!(r.segments.len(), 2);
    assert_eq!(r.segments[0].text, "abc");
    assert_eq!(r.segments[1].text, "de");
}

#[test]
fn truncate_cuts_by_columns() {
    let t = text(&[("abc", style(ColorSpec::EightBit(1), true)), ("de", InlineStyle::default())]);
    let r = t.truncate(4);
    assert_eq!(r.segments.len(), 2);
    assert_eq!(r.segments[0].text, "abc");
    assert_eq!(r.segments[1].text, "d");
    let r = t.truncate(3);
    assert_eq!(r.segments.len(), 1);
    assert_eq!(r.segments[0].text, "abc");
    let r = t.truncate(0);
    assert_eq!(r.segments.len(), 0);
    let wide = text(&[("日本語", InlineStyle::default())]);
    let r = wide.truncate(3);
    assert_eq!(r.segments.len(), 1);
    assert_eq!(r.segments[0].text, "日");
    let r = wide.truncate(1);
    assert_eq!(r.segments.len(), 0);
}

#[test]
fn truncate_string_cases() {
    assert_eq!(truncate_string("hello", 5), "hello");
    assert_eq!(truncate_string("hello", 10), "hello");
    assert_eq!(truncate_string("hello world", 8), "hello...");
    assert_eq!(truncate_string("hello", 3), "...");
    assert_eq!(truncate_string("hello", 2), "..");
    assert_eq!(truncate_string("hello", 0), "");
    assert_eq!(truncate_string("日本語日本", 7), "日本...");
    assert_eq!(truncate_string("日本語日本", 6), "日...");
}

#[test]
fn truncated_text_fits_its_width() {
    let red = style(ColorSpec::EightBit(196), false);
    let t = text(&[("abc", InlineStyle::default()), ("defgh", red), ("ij", InlineStyle::default())]);
    for max in 0..12usize {
        let cut = t.truncate(max);
        assert!(cut.display_width() <= max);
        if t.display_width() <= max {
            assert_eq!(cut.segments.len(), t.segments.len());
        }
    }
    let cut = t.truncate(5);
    assert_eq!(cut.segments.len(), 2);
    assert_eq!(cut.segments[0].text, "abc");
    assert_eq!(cut.segments[1].text, "de");
}

#[test]
fn truncated_string_keeps_longest_prefix() {
    assert_eq!(truncate_string("hello world", 8), "hello...");
    assert_eq!(truncate_string("hello world", 11), "hello world");
    assert_eq!(truncate_string("hello world", 3), "...");
    for max in 0..14usize {
        assert!(truncate_string("hello world", max).chars().count() <= max);
    }
}

#[test]
fn cut_text_is_longest_prefix_of_whole() {
    let p = InlineStyle::default();
    let t = text(&[("ab", p), ("cd", style(ColorSpec::EightBit(1), true)), ("ef", p)]);
    for max in 0..6usize {
        let cut = t.truncate(max);
        let joined: String = cut.segments.iter().map(|s| s.text.as_str()).collect();
        assert_eq!(joined, "abcdef"[..max]);
    }
}
