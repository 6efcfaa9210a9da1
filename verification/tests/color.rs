use zellij_vertical_sessions::color::{parse_color_spec, parse_hex_color, parse_rgb_func, ColorSpec};

fn hex(s: &str) -> Option<(u8, u8, u8)> {
    parse_hex_color(s)
}

#[test]
fn color_keywords_ignore_case_and_whitespace() {
    assert_eq!(parse_color_spec("  Red "), ColorSpec::EightBit(196));
    assert_eq!(parse_color_spec("ACCENT"), ColorSpec::EightBit(39));
    assert_eq!(parse_color_spec("primary"), ColorSpec::EightBit(39));
    assert_eq!(parse_color_spec("grey"), ColorSpec::EightBit(244));
    assert_eq!(parse_color_spec("purple"), ColorSpec::EightBit(135));
    assert_eq!(parse_color_spec("none"), ColorSpec::Default);
    assert_eq!(parse_color_spec("no-such-colour"), ColorSpec::Default);
    assert_eq!(parse_color_spec(""), ColorSpec::Default);
    // KELVIN SIGN lower-cases to an ASCII k
    assert_eq!(parse_color_spec("blac\u{212a}"), ColorSpec::EightBit(0));
}

#[test]
fn color_palette_numbers() {
    assert_eq!(parse_color_spec("0"), ColorSpec::EightBit(0));
    assert_eq!(parse_color_spec("255"), ColorSpec::EightBit(255));
    assert_eq!(parse_color_spec("+7"), ColorSpec::EightBit(7));
    assert_eq!(parse_color_spec("007"), ColorSpec::EightBit(7));
    assert_eq!(parse_color_spec("256"), ColorSpec::Default);
    assert_eq!(parse_color_spec("-1"), ColorSpec::Default);
    assert_eq!(parse_color_spec("+"), ColorSpec::Default);
}

#[test]
fn palette_number_round_trip() {
    for n in 0..=255u8 {
        assert_eq!(parse_color_spec(&n.to_string()), ColorSpec::EightBit(n));
    }
}

#[test]
fn color_hex_forms() {
    assert_eq!(parse_color_spec("#ff8800"), ColorSpec::Rgb(255, 136, 0));
    assert_eq!(parse_color_spec("#F80"), ColorSpec::Rgb(255, 136, 0));
    assert_eq!(parse_color_spec("#abc"), ColorSpec::Rgb(0xaa, 0xbb, 0xcc));
    assert_eq!(parse_color_spec("#abcd"), ColorSpec::Default);
    assert_eq!(parse_color_spec("#ggg"), ColorSpec::Default);
    assert_eq!(parse_color_spec("#"), ColorSpec::Default);
}

#[test]
fn hex_shorthand_doubles_digits() {
    assert_eq!(hex("1aF"), hex("11aaFF"));
    assert_eq!(hex("000"), Some((0, 0, 0)));
    assert_eq!(hex("fff"), Some((255, 255, 255)));
    assert_eq!(hex("12"), None);
    assert_eq!(hex("12x"), None);
}

#[test]
fn color_rgb_function() {
    assert_eq!(parse_color_spec("rgb(1, 2, 3)"), ColorSpec::Rgb(1, 2, 3));
    assert_eq!(parse_color_spec(" rgb( 10 ,20,30 ) "), ColorSpec::Rgb(10, 20, 30));
    assert_eq!(parse_color_spec("rgb(1,2)"), ColorSpec::Default);
    assert_eq!(parse_color_spec("rgb(1,2,3,4)"), ColorSpec::Default);
    assert_eq!(parse_color_spec("rgb(1,2,300)"), ColorSpec::Default);
    assert_eq!(parse_color_spec("rgb(1,2,3"), ColorSpec::Default);
    assert_eq!(parse_color_spec("RGB(1,2,3)"), ColorSpec::Default);
    assert_eq!(parse_rgb_func("4,5,6"), Some((4, 5, 6)));
    assert_eq!(parse_rgb_func(""), None);
}

#[test]
fn color_escape_codes() {
    assert_eq!(ColorSpec::Default.to_ansi_fg(), "");
    assert_eq!(ColorSpec::EightBit(196).to_ansi_fg(), "\x1b[38;5;196m");
    assert_eq!(ColorSpec::EightBit(7).to_ansi_bg(), "\x1b[48;5;7m");
    assert_eq!(ColorSpec::Rgb(1, 20, 255).to_ansi_fg(), "\x1b[38;2;1;20;255m");
    assert_eq!(ColorSpec::Rgb(0, 0, 0).to_ansi_bg(), "\x1b[48;2;0;0;0m");
    assert!(ColorSpec::Default.is_default());
    assert!(!ColorSpec::EightBit(0).is_default());
}
