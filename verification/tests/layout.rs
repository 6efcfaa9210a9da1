use zellij_vertical_sessions::layout::calculate_visible_range;
use zellij_vertical_sessions::number::{decimal_string, parse_u8, parse_usize};
use zellij_vertical_sessions::text::{chars_of, replace_str, sanitize_terminal_text};

#[test]
fn visible_range_everything_fits() {
    assert_eq!(calculate_visible_range(0, 5, 0), (0, 0, 0, 0));
    assert_eq!(calculate_visible_range(3, 5, 2), (0, 3, 0, 0));
    assert_eq!(calculate_visible_range(5, 5, 4), (0, 5, 0, 0));
}

#[test]
fn visible_range_no_room() {
    assert_eq!(calculate_visible_range(10, 2, 5), (0, 0, 10, 0));
    assert_eq!(calculate_visible_range(10, 0, 5), (0, 0, 10, 0));
}

#[test]
fn visible_range_alternates_around_focus() {
    // 3 slots: focus, one above, one below
    assert_eq!(calculate_visible_range(10, 5, 3), (2, 5, 2, 5));
    // 4 slots: the extra one goes above first
    assert_eq!(calculate_visible_range(10, 6, 5), (3, 7, 3, 3));
    // at the top, all slots go below
    assert_eq!(calculate_visible_range(10, 6, 0), (0, 4, 0, 6));
    // at the bottom, all slots go above
    assert_eq!(calculate_visible_range(10, 6, 9), (6, 10, 6, 0));
}

#[test]
fn visible_range_fills_rows() {
    for total in 0..15usize {
        for rows in 0..15usize {
            for focus in 0..total {
                let (start, end, above, below) = calculate_visible_range(total, rows, focus);
                assert!(start <= end && end <= total);
                assert_eq!(above + (end - start) + below, total);
                if rows > 2 {
                    assert!(start <= focus && focus < end);
                    let used = (end - start) + (above > 0) as usize + (below > 0) as usize;
                    assert!(used <= rows);
                    if total > rows {
                        assert_eq!(end - start, rows - 2);
                    }
                }
            }
        }
    }
}

#[test]
fn numbers_print_and_parse() {
    assert_eq!(decimal_string(0), "0");
    assert_eq!(decimal_string(1234567), "1234567");
    assert_eq!(decimal_string(usize::MAX), usize::MAX.to_string());
    assert_eq!(parse_usize(&chars_of("42")), Some(42));
    assert_eq!(parse_usize(&chars_of("+42")), Some(42));
    assert_eq!(parse_usize(&chars_of("")), None);
    assert_eq!(parse_usize(&chars_of("4 2")), None);
    assert_eq!(parse_usize(&chars_of(&usize::MAX.to_string())), Some(usize::MAX));
    assert_eq!(parse_usize(&chars_of("99999999999999999999999999")), None);
    assert_eq!(parse_u8(&chars_of("255")), Some(255));
    assert_eq!(parse_u8(&chars_of("256")), None);
    for n in [0usize, 7, 10, 99, 1000, usize::MAX] {
        assert_eq!(parse_usize(&chars_of(&decimal_string(n))), Some(n));
    }
}

#[test]
fn replace_and_sanitize() {
    assert_eq!(replace_str("  ^ +{count}", "{count}", "12"), "  ^ +12");
    assert_eq!(replace_str("{n}{n}c", "{n}", "3"), "33c");
    assert_eq!(replace_str("aaa", "aa", "b"), "ba");
    assert_eq!(replace_str("no pattern", "{count}", "1"), "no pattern");
    assert_eq!(sanitize_terminal_text("a\x1b[2Jb\n\u{85}c"), "a?[2Jb??c");
    assert_eq!(sanitize_terminal_text("日本"), "日本");
}

#[test]
fn visible_range_any_focus_when_no_scrolling() {
    assert_eq!(calculate_visible_range(0, 5, usize::MAX), (0, 0, 0, 0));
    assert_eq!(calculate_visible_range(3, 5, usize::MAX), (0, 3, 0, 0));
    assert_eq!(calculate_visible_range(10, 2, usize::MAX), (0, 0, 10, 0));
}

#[test]
fn visible_range_fits_any_height() {
    for total in 0..8usize {
        for rows in 0..8usize {
            for focus in 0..total.max(1) {
                let (s, e, a, b) = calculate_visible_range(total, rows, focus);
                let used = (e - s) + (a > 0) as usize + (b > 0) as usize;
                assert!(used <= rows.max(1));
                if s < e && focus < total {
                    assert!(s <= focus && focus < e);
                }
            }
        }
    }
}
