//! Colours: parsing colour names, `#rgb`/`#rrggbb`, `rgb(r, g, b)` and
//! palette numbers, and the ANSI escape codes that select them.

use vstd::prelude::*;
use crate::number::{
    all_digits, decimal, is_digit, parse_u8, parse_unsigned, push_decimal, unsigned_digits,
};
use crate::text::{
    ascii_fold, back_ws, chars_eq_str, chars_of, fold_case, fold_case_chars, has_prefix,
    is_whitespace, matches_at, skip_ws, split_chars, split_on, string_from, trim, trim_chars,
};

verus! {

/// A terminal colour.
#[derive(Debug, Clone, Copy, PartialEq, Eq, Structural)]
pub enum ColorSpec {
    /// The terminal's own colour.
    Default,
    /// An entry of the 256-colour palette.
    EightBit(u8),
    /// A 24-bit colour.
    Rgb(u8, u8, u8),
}

impl Default for ColorSpec {
    fn default() -> (r: Self)
        ensures
            r == ColorSpec::Default,
    {
        ColorSpec::Default
    }
}

/// The escape code that selects `c` as foreground colour.
pub open spec fn fg_code(c: ColorSpec) -> Seq<char> {
    match c {
        ColorSpec::Default => Seq::empty(),
        ColorSpec::EightBit(n) => "\x1b[38;5;"@ + decimal(n as nat) + "m"@,
        ColorSpec::Rgb(r, g, b) => "\x1b[38;2;"@ + decimal(r as nat) + ";"@ + decimal(g as nat)
            + ";"@ + decimal(b as nat) + "m"@,
    }
}

/// The escape code that selects `c` as background colour.
pub open spec fn bg_code(c: ColorSpec) -> Seq<char> {
    match c {
        ColorSpec::Default => Seq::empty(),
        ColorSpec::EightBit(n) => "\x1b[48;5;"@ + decimal(n as nat) + "m"@,
        ColorSpec::Rgb(r, g, b) => "\x1b[48;2;"@ + decimal(r as nat) + ";"@ + decimal(g as nat)
            + ";"@ + decimal(b as nat) + "m"@,
    }
}

impl ColorSpec {
    /// The escape code that makes this the foreground colour (empty for
    /// the default colour).
    pub fn to_ansi_fg(self) -> (s: String)
        ensures
            s@ == fg_code(self),
    {
        match self {
            ColorSpec::Default => String::new(),
            ColorSpec::EightBit(n) => {
                let mut s = String::new();
                s.append("\x1b[38;5;");
                push_decimal(&mut s, n as usize);
                s.append("m");
                s
            },
            ColorSpec::Rgb(r, g, b) => {
                let mut s = String::new();
                s.append("\x1b[38;2;");
                push_decimal(&mut s, r as usize);
                s.append(";");
                push_decimal(&mut s, g as usize);
                s.append(";");
                push_decimal(&mut s, b as usize);
                s.append("m");
                s
            },
        }
    }

    /// The escape code that makes this the background colour (empty for
    /// the default colour).
    pub fn to_ansi_bg(self) -> (s: String)
        ensures
            s@ == bg_code(self),
    {
        match self {
            ColorSpec::Default => String::new(),
            ColorSpec::EightBit(n) => {
                let mut s = String::new();
                s.append("\x1b[48;5;");
                push_decimal(&mut s, n as usize);
                s.append("m");
                s
            },
            ColorSpec::Rgb(r, g, b) => {
                let mut s = String::new();
                s.append("\x1b[48;2;");
                push_decimal(&mut s, r as usize);
                s.append(";");
                push_decimal(&mut s, g as usize);
                s.append(";");
                push_decimal(&mut s, b as usize);
                s.append("m");
                s
            },
        }
    }

    pub fn is_default(self) -> (b: bool)
        ensures
            b == (self == ColorSpec::Default),
    {
        matches!(self, ColorSpec::Default)
    }
}

// ---------------------------------------------------------------------
// Hexadecimal colours
// ---------------------------------------------------------------------

pub open spec fn is_hex_digit(c: char) -> bool {
    ('0' <= c && c <= '9') || ('a' <= c && c <= 'f') || ('A' <= c && c <= 'F')
}

pub open spec fn hex_value(c: char) -> int {
    if '0' <= c && c <= '9' {
        c as int - '0' as int
    } else if 'a' <= c && c <= 'f' {
        c as int - 'a' as int + 10
    } else {
        c as int - 'A' as int + 10
    }
}

/// The colour that `rgb` or `rrggbb` hex digits give.
pub open spec fn hex_color(h: Seq<char>) -> Option<(u8, u8, u8)> {
    if !(forall|i: int| 0 <= i < h.len() ==> is_hex_digit(#[trigger] h[i])) {
        None
    } else if h.len() == 3 {
        Some(
            (
                (hex_value(h[0]) * 17) as u8,
                (hex_value(h[1]) * 17) as u8,
                (hex_value(h[2]) * 17) as u8,
            ),
        )
    } else if h.len() == 6 {
        Some(
            (
                (hex_value(h[0]) * 16 + hex_value(h[1])) as u8,
                (hex_value(h[2]) * 16 + hex_value(h[3])) as u8,
                (hex_value(h[4]) * 16 + hex_value(h[5])) as u8,
            ),
        )
    } else {
        None
    }
}

fn hex_digit_value(c: char) -> (r: u8)
    requires
        is_hex_digit(c),
    ensures
        r == hex_value(c),
{
    if '0' <= c && c <= '9' {
        (c as u32 - '0' as u32) as u8
    } else if 'a' <= c && c <= 'f' {
        (c as u32 - 'a' as u32 + 10) as u8
    } else {
        (c as u32 - 'A' as u32 + 10) as u8
    }
}

/// Reads `rgb` (each digit doubled) or `rrggbb` hex digits.
pub fn parse_hex_color(hex: &str) -> (r: Option<(u8, u8, u8)>)
    ensures
        r == hex_color(hex@),
{
    let digits = chars_of(hex);
    let mut i: usize = 0;
    while i < digits.len()
        invariant
            i <= digits.len(),
            digits@ == hex@,
            forall|j: int| 0 <= j < i ==> is_hex_digit(#[trigger] digits@[j]),
        decreases digits.len() - i,
    {
        let c = digits[i];
        if !(('0' <= c && c <= '9') || ('a' <= c && c <= 'f') || ('A' <= c && c <= 'F')) {
            assert(!is_hex_digit(digits@[i as int]));
            return None;
        }
        i += 1;
    }
    if digits.len() == 3 {
        let r = hex_digit_value(digits[0]) * 17;
        let g = hex_digit_value(digits[1]) * 17;
        let b = hex_digit_value(digits[2]) * 17;
        Some((r, g, b))
    } else if digits.len() == 6 {
        let r = hex_digit_value(digits[0]) * 16 + hex_digit_value(digits[1]);
        let g = hex_digit_value(digits[2]) * 16 + hex_digit_value(digits[3]);
        let b = hex_digit_value(digits[4]) * 16 + hex_digit_value(digits[5]);
        Some((r, g, b))
    } else {
        None
    }
}

// ---------------------------------------------------------------------
// rgb(r, g, b)
// ---------------------------------------------------------------------

/// The colour that the inside of `rgb(...)` gives: exactly three
/// comma-separated numbers up to 255, each possibly surrounded by
/// whitespace.
pub open spec fn rgb_func(inner: Seq<char>) -> Option<(u8, u8, u8)> {
    let parts = split_on(inner, ',');
    if parts.len() != 3 {
        None
    } else {
        match (
            parse_unsigned(trim(parts[0]), 255),
            parse_unsigned(trim(parts[1]), 255),
            parse_unsigned(trim(parts[2]), 255),
        ) {
            (Some(r), Some(g), Some(b)) => Some((r as u8, g as u8, b as u8)),
            _ => None,
        }
    }
}

/// Reads the inside of `rgb(...)`.
pub fn parse_rgb_func(inner: &str) -> (r: Option<(u8, u8, u8)>)
    ensures
        r == rgb_func(inner@),
{
    let inner = chars_of(inner);
    let parts = split_chars(&inner, ',');
    if parts.len() != 3 {
        return None;
    }
    let ghost pv = parts.deep_view();
    assert(pv[0] == parts@[0]@);
    assert(pv[1] == parts@[1]@);
    assert(pv[2] == parts@[2]@);
    let r = match parse_u8(&trim_chars(&parts[0])) {
        Some(v) => v,
        None => return None,
    };
    let g = match parse_u8(&trim_chars(&parts[1])) {
        Some(v) => v,
        None => return None,
    };
    let b = match parse_u8(&trim_chars(&parts[2])) {
        Some(v) => v,
        None => return None,
    };
    Some((r, g, b))
}

// ---------------------------------------------------------------------
// Colour names
// ---------------------------------------------------------------------

/// The colour that a keyword names, once its case is folded; unknown
/// words give the default colour.
pub open spec fn keyword_color(k: Seq<char>) -> ColorSpec {
    if k == "none"@ || k == "default"@ || k == "reset"@ {
        ColorSpec::Default
    } else if k == "accent"@ || k == "primary"@ {
        ColorSpec::EightBit(39)
    } else if k == "secondary"@ {
        ColorSpec::EightBit(75)
    } else if k == "tertiary"@ {
        ColorSpec::EightBit(141)
    } else if k == "muted"@ || k == "quaternary"@ {
        ColorSpec::EightBit(245)
    } else if k == "dim"@ || k == "dimmed"@ {
        ColorSpec::EightBit(240)
    } else if k == "black"@ {
        ColorSpec::EightBit(0)
    } else if k == "red"@ || k == "error"@ || k == "warning"@ {
        ColorSpec::EightBit(196)
    } else if k == "green"@ || k == "success"@ || k == "ok"@ {
        ColorSpec::EightBit(82)
    } else if k == "yellow"@ {
        ColorSpec::EightBit(226)
    } else if k == "blue"@ {
        ColorSpec::EightBit(33)
    } else if k == "magenta"@ {
        ColorSpec::EightBit(201)
    } else if k == "cyan"@ {
        ColorSpec::EightBit(51)
    } else if k == "white"@ {
        ColorSpec::EightBit(15)
    } else if k == "orange"@ {
        ColorSpec::EightBit(208)
    } else if k == "gray"@ || k == "grey"@ {
        ColorSpec::EightBit(244)
    } else if k == "pink"@ {
        ColorSpec::EightBit(213)
    } else if k == "purple"@ {
        ColorSpec::EightBit(135)
    } else {
        ColorSpec::Default
    }
}

/// The colour that a colour specification names, after surrounding
/// whitespace is removed: `#` and hex digits, `rgb(r, g, b)`, a palette
/// number, or a keyword in any case; anything else is the default colour.
pub open spec fn color_from_name(name: Seq<char>) -> ColorSpec {
    let n = trim(name);
    let inner = n.subrange(4, n.len() - 1);
    if n.len() > 0 && n[0] == '#' && hex_color(n.drop_first()) is Some {
        let (r, g, b) = hex_color(n.drop_first())->0;
        ColorSpec::Rgb(r, g, b)
    } else if has_prefix(n, "rgb("@) && n.len() > 4 && n.last() == ')' && rgb_func(inner) is Some {
        let (r, g, b) = rgb_func(inner)->0;
        ColorSpec::Rgb(r, g, b)
    } else if parse_unsigned(n, 255) is Some {
        ColorSpec::EightBit(parse_unsigned(n, 255)->0 as u8)
    } else {
        keyword_color(fold_case(n))
    }
}

fn keyword_color_exec(k: &Vec<char>) -> (c: ColorSpec)
    ensures
        c == keyword_color(k@),
{
    if chars_eq_str(k, "none") || chars_eq_str(k, "default") || chars_eq_str(k, "reset") {
        ColorSpec::Default
    } else if chars_eq_str(k, "accent") || chars_eq_str(k, "primary") {
        ColorSpec::EightBit(39)
    } else if chars_eq_str(k, "secondary") {
        ColorSpec::EightBit(75)
    } else if chars_eq_str(k, "tertiary") {
        ColorSpec::EightBit(141)
    } else if chars_eq_str(k, "muted") || chars_eq_str(k, "quaternary") {
        ColorSpec::EightBit(245)
    } else if chars_eq_str(k, "dim") || chars_eq_str(k, "dimmed") {
        ColorSpec::EightBit(240)
    } else if chars_eq_str(k, "black") {
        ColorSpec::EightBit(0)
    } else if chars_eq_str(k, "red") || chars_eq_str(k, "error") || chars_eq_str(k, "warning") {
        ColorSpec::EightBit(196)
    } else if chars_eq_str(k, "green") || chars_eq_str(k, "success") || chars_eq_str(k, "ok") {
        ColorSpec::EightBit(82)
    } else if chars_eq_str(k, "yellow") {
        ColorSpec::EightBit(226)
    } else if chars_eq_str(k, "blue") {
        ColorSpec::EightBit(33)
    } else if chars_eq_str(k, "magenta") {
        ColorSpec::EightBit(201)
    } else if chars_eq_str(k, "cyan") {
        ColorSpec::EightBit(51)
    } else if chars_eq_str(k, "white") {
        ColorSpec::EightBit(15)
    } else if chars_eq_str(k, "orange") {
        ColorSpec::EightBit(208)
    } else if chars_eq_str(k, "gray") || chars_eq_str(k, "grey") {
        ColorSpec::EightBit(244)
    } else if chars_eq_str(k, "pink") {
        ColorSpec::EightBit(213)
    } else if chars_eq_str(k, "purple") {
        ColorSpec::EightBit(135)
    } else {
        ColorSpec::Default
    }
}

/// Reads a colour specification, as [`color_from_name`] states.
pub fn parse_color_spec(name: &str) -> (c: ColorSpec)
    ensures
        c == color_from_name(name@),
{
    let all = chars_of(name);
    let n = trim_chars(&all);
    if n.len() > 0 && n[0] == '#' {
        let hex = string_from(&n, 1, n.len());
        assert(hex@ == n@.drop_first());
        if let Some((r, g, b)) = parse_hex_color(hex.as_str()) {
            return ColorSpec::Rgb(r, g, b);
        }
    }
    let prefix = chars_of("rgb(");
    if matches_at(&n, 0, &prefix) && n.len() > 4 && n[n.len() - 1] == ')' {
        assert(n@.skip(0) =~= n@);
        let inner = string_from(&n, 4, n.len() - 1);
        if let Some((r, g, b)) = parse_rgb_func(inner.as_str()) {
            return ColorSpec::Rgb(r, g, b);
        }
    }
    assert(n@.skip(0) =~= n@);
    if let Some(v) = parse_u8(&n) {
        return ColorSpec::EightBit(v);
    }
    keyword_color_exec(&fold_case_chars(&n))
}

/// A palette number written out reads back as that palette entry.
pub proof fn lemma_palette_number(n: u8)
    ensures
        color_from_name(decimal(n as nat)) == ColorSpec::EightBit(n),
{
    let d = decimal(n as nat);
    crate::number::lemma_decimal_digits(n as nat);
    crate::number::lemma_parse_decimal(n as nat, 255);
    assert(crate::number::is_digit(d[0]));
    assert(crate::number::is_digit(d[d.len() - 1]));
    assert(!crate::text::is_whitespace(d[0]));
    assert(!crate::text::is_whitespace(d[d.len() - 1]));
    assert(crate::text::skip_ws(d, 0) == 0);
    assert(crate::text::back_ws(d, d.len() as int, 0) == d.len());
    assert(trim(d) =~= d);
    reveal_strlit("rgb(");
    assert(!has_prefix(d, "rgb("@)) by {
        if has_prefix(d, "rgb("@) {
            assert(d.take(4)[0] == 'r');
        }
    }
}

/// The three-digit form `#rgb` is the six-digit form `#rrggbb` with each
/// digit doubled.
pub proof fn lemma_hex_shorthand(r: char, g: char, b: char)
    ensures
        hex_color(seq![r, g, b]) == hex_color(seq![r, r, g, g, b, b]),
{
    let short = seq![r, g, b];
    let long = seq![r, r, g, g, b, b];
    if forall|i: int| 0 <= i < short.len() ==> is_hex_digit(#[trigger] short[i]) {
        assert(short[0] == r && short[1] == g && short[2] == b);
        assert forall|i: int| 0 <= i < long.len() implies is_hex_digit(#[trigger] long[i]) by {
            assert(long[i] == short[i / 2]);
        }
    } else {
        let i = choose|i: int| 0 <= i < short.len() && !is_hex_digit(#[trigger] short[i]);
        assert(long[2 * i] == short[i]);
    }
}

/// Whether `c` is a lowercase ASCII letter.
spec fn is_lower(c: char) -> bool {
    'a' <= c && c <= 'z'
}

/// A word that folds to a keyword (letters only at its start, its end and
/// its fourth place) is read as that keyword: it is not a hex colour, not
/// `rgb(...)`, not a number and has no whitespace to trim.
proof fn lemma_keyword_word(s: Seq<char>, k: Seq<char>)
    requires
        fold_case(s) == k,
        k.len() > 0,
        is_lower(k[0]),
        is_lower(k[k.len() - 1]),
        k.len() >= 4 ==> is_lower(k[3]),
    ensures
        color_from_name(s) == keyword_color(k),
{
    let n = s.len() as int;
    assert(fold_case(s).len() == n);
    assert(ascii_fold(s[0]) == k[0]);
    assert(ascii_fold(s[n - 1]) == k[n - 1]);
    assert(!is_whitespace(s[0]));
    assert(!is_whitespace(s[n - 1]));
    assert(skip_ws(s, 0) == 0);
    assert(back_ws(s, n, 0) == n);
    assert(trim(s) =~= s);
    assert(s[0] != '#');
    reveal_strlit("rgb(");
    assert(!has_prefix(s, "rgb("@)) by {
        if has_prefix(s, "rgb("@) {
            assert(ascii_fold(s[3]) == k[3]);
            assert(s.take(4)[3] == s[3]);
        }
    }
    assert(!is_digit(s[0]) && s[0] != '+');
    assert(unsigned_digits(s) == s);
    assert(!all_digits(s));
}

/// Each colour keyword names its fixed palette entry, written in any case:
/// a word that reads as `green`, `success` or `ok` once its case is folded
/// is the palette colour 82, one that reads as `red`, `error` or `warning`
/// is 196, and so on for every keyword; `none`, `default` and `reset` are
/// the terminal's own colour.
pub proof fn lemma_color_keywords(s: Seq<char>)
    ensures
        ({
            let k = fold_case(s);
            &&& k == "none"@ || k == "default"@ || k == "reset"@ ==> color_from_name(s)
                == ColorSpec::Default
            &&& k == "accent"@ || k == "primary"@ ==> color_from_name(s) == ColorSpec::EightBit(39)
            &&& k == "secondary"@ ==> color_from_name(s) == ColorSpec::EightBit(75)
            &&& k == "tertiary"@ ==> color_from_name(s) == ColorSpec::EightBit(141)
            &&& k == "muted"@ || k == "quaternary"@ ==> color_from_name(s) == ColorSpec::EightBit(
                245,
            )
            &&& k == "dim"@ || k == "dimmed"@ ==> color_from_name(s) == ColorSpec::EightBit(240)
            &&& k == "black"@ ==> color_from_name(s) == ColorSpec::EightBit(0)
            &&& k == "red"@ || k == "error"@ || k == "warning"@ ==> color_from_name(s)
                == ColorSpec::EightBit(196)
            &&& k == "green"@ || k == "success"@ || k == "ok"@ ==> color_from_name(s)
                == ColorSpec::EightBit(82)
            &&& k == "yellow"@ ==> color_from_name(s) == ColorSpec::EightBit(226)
            &&& k == "blue"@ ==> color_from_name(s) == ColorSpec::EightBit(33)
            &&& k == "magenta"@ ==> color_from_name(s) == ColorSpec::EightBit(201)
            &&& k == "cyan"@ ==> color_from_name(s) == ColorSpec::EightBit(51)
            &&& k == "white"@ ==> color_from_name(s) == ColorSpec::EightBit(15)
            &&& k == "orange"@ ==> color_from_name(s) == ColorSpec::EightBit(208)
            &&& k == "gray"@ || k == "grey"@ ==> color_from_name(s) == ColorSpec::EightBit(244)
            &&& k == "pink"@ ==> color_from_name(s) == ColorSpec::EightBit(213)
            &&& k == "purple"@ ==> color_from_name(s) == ColorSpec::EightBit(135)
        }),
{
    reveal_strlit("none");
    reveal_strlit("default");
    reveal_strlit("reset");
    reveal_strlit("accent");
    reveal_strlit("primary");
    reveal_strlit("secondary");
    reveal_strlit("tertiary");
    reveal_strlit("muted");
    reveal_strlit("quaternary");
    reveal_strlit("dim");
    reveal_strlit("dimmed");
    reveal_strlit("black");
    reveal_strlit("red");
    reveal_strlit("error");
    reveal_strlit("warning");
    reveal_strlit("green");
    reveal_strlit("success");
    reveal_strlit("ok");
    reveal_strlit("yellow");
    reveal_strlit("blue");
    reveal_strlit("magenta");
    reveal_strlit("cyan");
    reveal_strlit("white");
    reveal_strlit("orange");
    reveal_strlit("gray");
    reveal_strlit("grey");
    reveal_strlit("pink");
    reveal_strlit("purple");
    let k = fold_case(s);
    if k.len() > 0 && is_lower(k[0]) && is_lower(k[k.len() - 1]) && (k.len() >= 4 ==> is_lower(
        k[3],
    )) {
        lemma_keyword_word(s, k);
    }
}

} // verus!
