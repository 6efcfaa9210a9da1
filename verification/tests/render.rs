use zellij_vertical_sessions::config::StyleConfig;
use zellij_vertical_sessions::session::{LiveSession, SessionEntry};
use zellij_vertical_sessions::state::{AppEvent, PluginEvent, State};
use zellij_vertical_sessions::styled::{InlineStyle, StyledText};

fn live(name: &str, current: bool, clients: usize, tabs: usize) -> LiveSession {
    LiveSession {
        name: name.to_string(),
        is_current_session: current,
        connected_clients: clients,
        tab_count: tabs,
    }
}

fn granted(config: Vec<(&str, &str)>, list: Vec<LiveSession>, dead: Vec<&str>) -> State {
    let mut s = State::new();
    let cfg: Vec<(String, String)> =
        config.iter().map(|(k, v)| (k.to_string(), v.to_string())).collect();
    s.load(&cfg);
    s.update(PluginEvent::PermissionResult(true));
    s.receive_session_list(Some((list, dead.iter().map(|d| d.to_string()).collect())));
    s
}

fn plain_text(parts: &[&str]) -> StyledText {
    let mut t = StyledText::new();
    for p in parts {
        t.push(p.to_string(), InlineStyle::default());
    }
    t
}

#[test]
fn default_configuration() {
    let c = StyleConfig::default();
    assert_eq!(c.format, "{index}:{name}");
    assert_eq!(c.format_active, "{index}:{name} {indicators}");
    assert_eq!(c.format_selected, "#[fg=accent,bold]> {index}:{name} {indicators}");
    assert_eq!(c.format_resurrectable, "{index}:{name} (dead)");
    assert_eq!(c.overflow_above, "  ^ +{count}");
    assert_eq!(c.overflow_below, "  v +{count}");
    assert_eq!(c.indicator_active, "*");
    assert_eq!(c.indicator_clients, "{n}c");
    assert_eq!(c.max_name_length, 20);
    assert_eq!(c.padding_top, 0);
    assert_eq!(c.start_index, 1);
    assert!(c.show_resurrectable);
    assert_eq!(c.border, "");
}

#[test]
fn configuration_sets_and_keeps() {
    let mut c = StyleConfig::default();
    let cfg = vec![
        ("format".to_string(), "{name}".to_string()),
        ("max_name_length".to_string(), "abc".to_string()),
        ("padding_top".to_string(), "2".to_string()),
        ("border_char".to_string(), "|".to_string()),
        ("show_resurrectable".to_string(), "yes".to_string()),
    ];
    c.apply_configuration(&cfg);
    assert_eq!(c.format, "{name}");
    assert_eq!(c.max_name_length, 20);
    assert_eq!(c.padding_top, 2);
    assert_eq!(c.border, "|");
    assert!(!c.show_resurrectable);
    assert_eq!(c.format_active, "{index}:{name} {indicators}");
    let mut d = StyleConfig::default();
    d.apply_configuration(&vec![
        ("border".to_string(), "#".to_string()),
        ("border_char".to_string(), "|".to_string()),
    ]);
    assert_eq!(d.border, "#");
    let mut e = StyleConfig::default();
    e.apply_configuration(&vec![]);
    assert_eq!(e.format, "{index}:{name}");
}

#[test]
fn overflow_format_count() {
    let s = State::new();
    assert_eq!(s.expand_overflow_format("  ^ +{count}", 12), "  ^ +12");
    assert_eq!(s.expand_overflow_format("{count}/{count}", 3), "3/3");
}

#[test]
fn expand_format_variables() {
    let s = State::new();
    let e = SessionEntry::Live(live("we\x07b", true, 3, 4));
    let t = s.expand_format("{i}|{n}|{tabs}|{c}|{indicators}|{active}|{type}|{other}", &e, 7);
    let text: String = t.segments.iter().map(|seg| seg.text.as_str()).collect();
    assert_eq!(text, "7|we?b|4|3|*3c|*|live|{other}");
    let d = SessionEntry::Resurrectable("old".to_string());
    let t = s.expand_format("{index}:{name} {type}{active}{tab_count}", &d, 2);
    let text: String = t.segments.iter().map(|seg| seg.text.as_str()).collect();
    assert_eq!(text, "2:old dead0");
}

#[test]
fn expand_format_widths() {
    let s = State::new();
    let e = SessionEntry::Live(live("a-very-long-session-name", false, 1, 1));
    let t = s.expand_format("{name}", &e, 1);
    assert_eq!(t.segments[0].text, "a-very-long-sessi...");
    let t = s.expand_format("{=6:name}", &e, 1);
    assert_eq!(t.segments[0].text, "a-v...");
    let t = s.expand_format("#[bold]{=2:name}", &e, 1);
    assert_eq!(t.segments[0].text, "..");
    assert!(t.segments[0].style.bold);
}

#[test]
fn lines_pad_and_border() {
    let s = granted(vec![("border", "#[fg=red]|")], vec![live("a", true, 1, 1)], vec![]);
    let line = s.build_line(&plain_text(&["ab"]), 6, false);
    assert_eq!(line, "ab   \x1b[0m\x1b[38;5;196m|\x1b[0m");
    let line = s.build_line(&plain_text(&["abcdefgh"]), 6, false);
    assert_eq!(line, "abcde\x1b[0m\x1b[38;5;196m|\x1b[0m");
    assert_eq!(s.build_empty_line(4), "   \x1b[0m\x1b[38;5;196m|\x1b[0m");
    let plain = State::new();
    assert_eq!(plain.build_empty_line(3), "   ");
    assert_eq!(plain.build_line(&plain_text(&["x"]), 3, true), "x  ");
}

#[test]
fn selected_fill_line_is_reversed() {
    let s = State::new();
    let mut t = StyledText::new();
    t.push(">".to_string(), InlineStyle { fill: true, ..InlineStyle::default() });
    assert_eq!(s.build_line(&t, 3, true), "\x1b[7m>  \x1b[0m");
    let mut red = StyledText::new();
    let style = InlineStyle {
        fg: zellij_vertical_sessions::color::ColorSpec::EightBit(1),
        fill: true,
        ..InlineStyle::default()
    };
    red.push("x".to_string(), style);
    assert_eq!(s.build_line(&red, 2, true), "\x1b[7m\x1b[0m\x1b[7m\x1b[48;5;1mx \x1b[0m");
    assert_eq!(s.build_line(&red, 2, false), "\x1b[0m\x1b[38;5;1mx\x1b[0m ");
}

#[test]
fn render_whole_pane() {
    let mut s = granted(vec![], vec![live("a", true, 1, 1), live("b", false, 1, 1)], vec![]);
    let out = s.render(3, 10);
    assert_eq!(out, "1:a *     \x1b[m\n2:b       \x1b[m\n          \x1b[m");
    assert_eq!(s.last_rows, 3);
}

#[test]
fn render_nothing_before_permission_or_without_sessions() {
    let mut s = State::new();
    assert_eq!(s.render(3, 10), "");
    assert_eq!(s.last_rows, 3);
    let mut empty = granted(vec![], vec![], vec![]);
    assert_eq!(empty.render(3, 10), "");
}

#[test]
fn render_with_overflow_indicators() {
    let list: Vec<LiveSession> = (0..10).map(|i| live(&format!("s{}", i), i == 5, 1, 1)).collect();
    let mut s = granted(vec![("format", "{name}"), ("format_active", "{name}*")], list, vec![]);
    let out = s.render(5, 8);
    let lines: Vec<&str> = out.split('\n').collect();
    assert_eq!(lines.len(), 5);
    assert_eq!(lines[0], "  ^ +4  \x1b[m");
    assert_eq!(lines[1], "s4      \x1b[m");
    assert_eq!(lines[2], "s5*     \x1b[m");
    assert_eq!(lines[3], "s6      \x1b[m");
    assert_eq!(lines[4], "  v +3  \x1b[m");
}

#[test]
fn render_fills_the_height() {
    for rows in 1..12usize {
        for count in 0..12usize {
            let list: Vec<LiveSession> =
                (0..count).map(|i| live(&format!("s{}", i), i == count / 2, 1, 1)).collect();
            let mut s = granted(vec![], list, vec![]);
            let out = s.render(rows, 6);
            if count > 0 {
                assert_eq!(out.split('\n').count(), rows);
            } else {
                assert_eq!(out, "");
            }
        }
    }
}

#[test]
fn render_selected_entry_and_dead_sessions() {
    let mut s = granted(vec![], vec![live("a", true, 2, 1)], vec!["old"]);
    s.update(PluginEvent::App(AppEvent::ModeUpdate { in_session_mode: true, changed: true }));
    let out = s.render(2, 20);
    let lines: Vec<&str> = out.split('\n').collect();
    let sel = "\x1b[0m\x1b[1m\x1b[38;5;39m";
    assert_eq!(
        lines[0],
        format!("{sel}> {sel}1{sel}:{sel}a{sel} {sel}*2c\x1b[0m{}\x1b[m", " ".repeat(11))
    );
    assert_eq!(lines[1], format!("2:old (dead){}\x1b[m", " ".repeat(8)));
}

#[test]
fn render_without_permission_draws_nothing_whatever_the_numbers() {
    let mut s = State::new();
    s.sessions = vec![SessionEntry::Live(live("a", true, 1, 1))];
    s.style.start_index = usize::MAX;
    assert_eq!(s.render(4, 10), "");
    assert_eq!(s.last_rows, 4);
}

#[test]
fn built_lines_are_exactly_cols_wide() {
    let s = State::new();
    for cols in 0..12usize {
        let line = s.build_line(&plain_text(&["abc", "defgh"]), cols, false);
        assert_eq!(line.chars().count(), cols);
    }
    assert_eq!(s.build_line(&plain_text(&["abcdefghij"]), 6, false), "abcdef");
    assert_eq!(s.build_line(&plain_text(&["ab"]), 6, false), "ab    ");
}

#[test]
fn variable_values() {
    let s = State::new();
    let e = SessionEntry::Live(live("main", true, 2, 5));
    assert_eq!(s.variable_text(&e, 3, &"type".to_string()), "live");
    assert_eq!(s.variable_text(&e, 3, &"index".to_string()), "3");
    assert_eq!(s.variable_text(&e, 3, &"tabs".to_string()), "5");
    assert_eq!(s.variable_text(&e, 3, &"indicators".to_string()), "*2c");
    assert_eq!(s.variable_text(&e, 3, &"zz".to_string()), "{zz}");
}

fn strip_codes(s: &str) -> String {
    let mut out = String::new();
    let mut in_code = false;
    for c in s.chars() {
        if in_code {
            if c == 'm' {
                in_code = false;
            }
        } else if c == '\x1b' {
            in_code = true;
        } else {
            out.push(c);
        }
    }
    out
}

#[test]
fn visible_line_is_content_padding_border() {
    let s = granted(vec![("border", "#[fg=red]|")], vec![live("a", true, 1, 1)], vec![]);
    let red = InlineStyle { bold: true, ..InlineStyle::default() };
    let mut content = StyledText::new();
    content.push("ab".to_string(), red);
    content.push("cdefgh".to_string(), InlineStyle::default());
    for cols in 0..10usize {
        for sel in [false, true] {
            let line = s.build_line(&content, cols, sel);
            let room = cols.saturating_sub(1);
            let shown: String = "abcdefgh".chars().take(room).collect();
            let expected = format!("{}{}|", shown, " ".repeat(room - shown.chars().count()));
            assert_eq!(strip_codes(&line), expected);
        }
    }
}
