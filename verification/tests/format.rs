use zellij_vertical_sessions::color::ColorSpec;
use zellij_vertical_sessions::format::{
    parse_style_directive, parse_styled_string, parse_tmux_format, parse_variable, FormatToken,
};
use zellij_vertical_sessions::styled::InlineStyle;

fn plain() -> InlineStyle {
    InlineStyle::default()
}

fn literal(t: &FormatToken) -> Option<&str> {
    match t {
        FormatToken::Literal(s) => Some(s.as_str()),
        _ => None,
    }
}

fn variable(t: &FormatToken) -> Option<(&str, Option<usize>)> {
    match t {
        FormatToken::Variable { name, width } => Some((name.as_str(), *width)),
        _ => None,
    }
}

#[test]
fn style_directive_parts() {
    let s = parse_style_directive("fg=red, bold ,bg=#010203");
    assert_eq!(s.fg, ColorSpec::EightBit(196));
    assert_eq!(s.bg, ColorSpec::Rgb(1, 2, 3));
    assert!(s.bold);
    assert!(!s.dim);
    assert!(!s.fill);
    let s = parse_style_directive("dim,fill,unknown,,");
    assert!(s.dim && s.fill && !s.bold);
    let s = parse_style_directive("fg=blue,bold,reset,dim");
    assert_eq!(s.fg, ColorSpec::Default);
    assert!(!s.bold && s.dim);
    assert_eq!(parse_style_directive(""), plain());
}

#[test]
fn variable_widths() {
    let t = parse_variable("=5:name");
    assert_eq!(variable(&t), Some(("name", Some(5))));
    let t = parse_variable("name");
    assert_eq!(variable(&t), Some(("name", None)));
    let t = parse_variable("=x:name");
    assert_eq!(variable(&t), Some(("=x:name", None)));
    let t = parse_variable("=12");
    assert_eq!(variable(&t), Some(("=12", None)));
    let t = parse_variable("=3:a:b");
    assert_eq!(variable(&t), Some(("a:b", Some(3))));
}

#[test]
fn tmux_format_tokens() {
    let tokens = parse_tmux_format("#[fg=red]> {index}:#{name} #x");
    assert_eq!(tokens.len(), 6);
    match &tokens[0] {
        FormatToken::Style(s) => assert_eq!(s.fg, ColorSpec::EightBit(196)),
        _ => panic!("expected a style"),
    }
    assert_eq!(literal(&tokens[1]), Some("> "));
    assert_eq!(variable(&tokens[2]), Some(("index", None)));
    assert_eq!(literal(&tokens[3]), Some(":"));
    assert_eq!(variable(&tokens[4]), Some(("name", None)));
    assert_eq!(literal(&tokens[5]), Some(" #x"));
}

#[test]
fn tmux_format_unclosed() {
    let tokens = parse_tmux_format("a{name");
    assert_eq!(tokens.len(), 2);
    assert_eq!(literal(&tokens[0]), Some("a"));
    assert_eq!(variable(&tokens[1]), Some(("name", None)));
    let tokens = parse_tmux_format("#[bold");
    assert_eq!(tokens.len(), 1);
    match &tokens[0] {
        FormatToken::Style(s) => assert!(s.bold),
        _ => panic!("expected a style"),
    }
    let tokens = parse_tmux_format("#");
    assert_eq!(tokens.len(), 1);
    assert_eq!(literal(&tokens[0]), Some("#"));
    assert_eq!(parse_tmux_format("").len(), 0);
}

#[test]
fn styled_string_segments() {
    let t = parse_styled_string("#[fg=red]ab#[bold]{x}");
    assert_eq!(t.segments.len(), 2);
    assert_eq!(t.segments[0].text, "ab");
    assert_eq!(t.segments[0].style.fg, ColorSpec::EightBit(196));
    assert_eq!(t.segments[1].text, "{x}");
    assert!(t.segments[1].style.bold);
    assert_eq!(t.segments[1].style.fg, ColorSpec::Default);
}

#[test]
fn plain_text_is_one_plain_segment() {
    let t = parse_styled_string("just text, no markup");
    assert_eq!(t.segments.len(), 1);
    assert_eq!(t.segments[0].text, "just text, no markup");
    assert_eq!(t.segments[0].style, plain());
    assert_eq!(parse_styled_string("").segments.len(), 0);
}

#[test]
fn reset_part_restarts_from_plain() {
    let s = parse_style_directive("fg=red,bold,reset,dim");
    assert_eq!(s, InlineStyle { dim: true, ..plain() });
    let s = parse_style_directive("bg=blue, none ");
    assert_eq!(s, plain());
}

#[test]
fn tokens_have_no_empty_or_adjacent_literals() {
    let tokens = parse_tmux_format("a#[bold]b{name}#{x}c#[dim]#[fill]{=3:n}");
    let mut directives = 0;
    for (k, t) in tokens.iter().enumerate() {
        if let Some(l) = literal(t) {
            assert!(!l.is_empty());
            if k + 1 < tokens.len() {
                assert!(literal(&tokens[k + 1]).is_none());
            }
        } else {
            directives += 1;
        }
    }
    assert_eq!(directives, 6);
    assert_eq!(tokens.len(), 9);
}

#[test]
fn directive_halves_combine() {
    let a = parse_style_directive("fg=red,bold");
    let b = parse_style_directive("dim,bg=blue");
    let r = parse_style_directive("fg=red,bold,dim,bg=blue");
    assert!(r.bold && r.dim && !r.fill);
    assert_eq!(r.fg, a.fg);
    assert_eq!(r.bg, b.bg);
    let r = parse_style_directive("fg=red,bold,fg=green");
    assert_eq!(r.fg, parse_style_directive("fg=green").fg);
    assert!(r.bold);
    assert_eq!(
        parse_style_directive("fg=red,fill,reset,bold"),
        parse_style_directive("bold")
    );
}
