//! tmux-style format strings: `#[fg=red,bold]` style directives, `{name}`,
//! `#{name}` and `{=width:name}` variables, and literal text.

use vstd::prelude::*;
use crate::color::{color_from_name, parse_color_spec};
use crate::number::{decimal, is_digit, lemma_decimal_digits, lemma_parse_decimal, parse_unsigned, parse_usize};
use crate::styled::{keep_nonempty, plain_style, InlineStyle, SegmentView, StyledText};
use crate::text::{
    back_ws, lemma_split_join, lemma_split_single, skip_ws,
    chars_eq_str, chars_of, find_char, find_from, has_prefix, lemma_find_from, matches_at,
    push_char, split_chars, split_on, string_from, sub_chars, trim, trim_chars,
};

verus! {

/// A piece of a format string.
#[derive(Debug)]
pub enum FormatToken {
    /// Switches the style of what follows.
    Style(InlineStyle),
    /// A value to fill in, optionally cut to a width.
    Variable { name: String, width: Option<usize> },
    /// Text shown as it is.
    Literal(String),
}

/// A format token as a value.
pub enum TokenView {
    Style(InlineStyle),
    Variable(Seq<char>, Option<usize>),
    Literal(Seq<char>),
}

impl View for FormatToken {
    type V = TokenView;

    open spec fn view(&self) -> TokenView {
        match self {
            FormatToken::Style(s) => TokenView::Style(*s),
            FormatToken::Variable { name, width } => TokenView::Variable(name@, *width),
            FormatToken::Literal(t) => TokenView::Literal(t@),
        }
    }
}

/// The tokens as values.
pub open spec fn token_views(v: Seq<FormatToken>) -> Seq<TokenView> {
    Seq::new(v.len(), |i: int| v[i]@)
}

// ---------------------------------------------------------------------
// Style directives
// ---------------------------------------------------------------------

/// The style after one comma-separated part of a style directive: `fg=` and
/// `bg=` set a colour, `bold`, `dim` and `fill` switch an attribute on,
/// `default`, `none` and `reset` go back to the plain style, and anything
/// else (including an empty part) changes nothing.
pub open spec fn apply_part(style: InlineStyle, raw: Seq<char>) -> InlineStyle {
    let part = trim(raw);
    if part.len() == 0 {
        style
    } else if has_prefix(part, "fg="@) {
        InlineStyle { fg: color_from_name(part.skip(3)), ..style }
    } else if has_prefix(part, "bg="@) {
        InlineStyle { bg: color_from_name(part.skip(3)), ..style }
    } else if part == "bold"@ {
        InlineStyle { bold: true, ..style }
    } else if part == "dim"@ {
        InlineStyle { dim: true, ..style }
    } else if part == "fill"@ {
        InlineStyle { fill: true, ..style }
    } else if part == "default"@ || part == "none"@ || part == "reset"@ {
        plain_style()
    } else {
        style
    }
}

/// The style after applying `parts` in order.
pub open spec fn apply_parts(style: InlineStyle, parts: Seq<Seq<char>>) -> InlineStyle
    decreases parts.len(),
{
    if parts.len() == 0 {
        style
    } else {
        apply_part(apply_parts(style, parts.drop_last()), parts.last())
    }
}

/// The style that a directive such as `fg=red,bold` describes, starting
/// from the plain style.
pub open spec fn directive_style(content: Seq<char>) -> InlineStyle {
    apply_parts(plain_style(), split_on(content, ','))
}

/// Reads the inside of a `#[...]` style directive.
pub fn parse_style_directive(content: &str) -> (r: InlineStyle)
    ensures
        r == directive_style(content@),
{
    let all = chars_of(content);
    let parts = split_chars(&all, ',');
    let ghost pv = parts.deep_view();
    let mut style = InlineStyle::default();
    let fg = chars_of("fg=");
    let bg = chars_of("bg=");
    proof {
        reveal_strlit("fg=");
        reveal_strlit("bg=");
    }
    let mut i: usize = 0;
    while i < parts.len()
        invariant
            i <= parts.len(),
            pv == parts.deep_view(),
            pv == split_on(content@, ','),
            fg@ == "fg="@,
            bg@ == "bg="@,
            fg@.len() == 3,
            bg@.len() == 3,
            style == apply_parts(plain_style(), pv.take(i as int)),
        decreases parts.len() - i,
    {
        assert(pv.take(i + 1).drop_last() =~= pv.take(i as int));
        assert(pv[i as int] == parts@[i as int]@);
        let part = trim_chars(&parts[i]);
        assert(part@.skip(0) =~= part@);
        if part.len() == 0 {
        } else if matches_at(&part, 0, &fg) {
            let rest = string_from(&part, 3, part.len());
            style.fg = parse_color_spec(rest.as_str());
        } else if matches_at(&part, 0, &bg) {
            let rest = string_from(&part, 3, part.len());
            style.bg = parse_color_spec(rest.as_str());
        } else if chars_eq_str(&part, "bold") {
            style.bold = true;
        } else if chars_eq_str(&part, "dim") {
            style.dim = true;
        } else if chars_eq_str(&part, "fill") {
            style.fill = true;
        } else if chars_eq_str(&part, "default") || chars_eq_str(&part, "none") || chars_eq_str(
            &part,
            "reset",
        ) {
            style = InlineStyle::default();
        }
        i += 1;
    }
    assert(pv.take(parts.len() as int) =~= pv);
    style
}

// ---------------------------------------------------------------------
// Variables
// ---------------------------------------------------------------------

/// The variable that the inside of `{...}` names: `=width:name` cuts the
/// value to a width, anything else is a name.
pub open spec fn variable_token(content: Seq<char>) -> TokenView {
    let rest = content.drop_first();
    let pos = find_from(rest, ':', 0);
    if content.len() > 0 && content[0] == '=' && pos < rest.len() && parse_unsigned(
        rest.take(pos),
        usize::MAX as nat,
    ) is Some {
        TokenView::Variable(
            rest.skip(pos + 1),
            Some(parse_unsigned(rest.take(pos), usize::MAX as nat)->0 as usize),
        )
    } else {
        TokenView::Variable(content, None)
    }
}

/// Reads the inside of a `{...}` variable reference.
pub fn parse_variable(content: &str) -> (r: FormatToken)
    ensures
        r@ == variable_token(content@),
{
    let v = chars_of(content);
    if v.len() > 0 && v[0] == '=' {
        let rest = sub_chars(&v, 1, v.len());
        assert(rest@ == content@.drop_first());
        let pos = find_char(&rest, ':', 0);
        if pos < rest.len() {
            let width_str = sub_chars(&rest, 0, pos);
            assert(width_str@ == rest@.take(pos as int));
            if let Some(width) = parse_usize(&width_str) {
                let name = string_from(&rest, pos + 1, rest.len());
                assert(name@ == rest@.skip(pos + 1));
                return FormatToken::Variable { name, width: Some(width) };
            }
        }
    }
    FormatToken::Variable { name: String::from_str(content), width: None }
}

// ---------------------------------------------------------------------
// Tokens
// ---------------------------------------------------------------------

/// The characters of `s` up to the first `c` (or all of them), and what
/// follows that `c` (or nothing).
pub open spec fn read_until(s: Seq<char>, c: char) -> (Seq<char>, Seq<char>) {
    let k = find_from(s, c, 0);
    (s.take(k), if k < s.len() { s.skip(k + 1) } else { Seq::empty() })
}

pub proof fn lemma_read_until(s: Seq<char>, c: char)
    ensures
        read_until(s, c).1.len() <= s.len(),
{
    lemma_find_from(s, c, 0);
}

/// Pending literal text as a token, if there is any.
pub open spec fn flush(lit: Seq<char>) -> Seq<TokenView> {
    if lit.len() == 0 {
        Seq::empty()
    } else {
        seq![TokenView::Literal(lit)]
    }
}

/// The tokens of `s`, after the pending literal text `lit`: `#[...]` is a
/// style directive, `#{...}` and `{...}` are variables (each reaching to
/// the closing bracket or the end), and every other character, a `#` not
/// followed by `[` or `{` included, is literal text.
pub open spec fn format_tokens(s: Seq<char>, lit: Seq<char>) -> Seq<TokenView>
    decreases s.len(),
{
    if s.len() == 0 {
        flush(lit)
    } else if s[0] == '#' && s.len() > 1 && s[1] == '[' {
        let (content, rest) = read_until(s.skip(2), ']');
        proof {
            lemma_read_until(s.skip(2), ']');
        }
        flush(lit) + seq![TokenView::Style(directive_style(content))] + format_tokens(
            rest,
            Seq::empty(),
        )
    } else if s[0] == '#' && s.len() > 1 && s[1] == '{' {
        let (content, rest) = read_until(s.skip(2), '}');
        proof {
            lemma_read_until(s.skip(2), '}');
        }
        flush(lit) + seq![variable_token(content)] + format_tokens(rest, Seq::empty())
    } else if s[0] == '{' {
        let (content, rest) = read_until(s.skip(1), '}');
        proof {
            lemma_read_until(s.skip(1), '}');
        }
        flush(lit) + seq![variable_token(content)] + format_tokens(rest, Seq::empty())
    } else {
        format_tokens(s.drop_first(), lit.push(s[0]))
    }
}

/// Moves pending literal text into the token list.
fn flush_literal(tokens: &mut Vec<FormatToken>, literal: String)
    ensures
        token_views(final(tokens)@) == token_views(old(tokens)@) + flush(literal@),
{
    if !literal.as_str().is_empty() {
        let ghost lv = literal@;
        tokens.push(FormatToken::Literal(literal));
        assert(token_views(tokens@) =~= token_views(old(tokens)@) + flush(lv));
    } else {
        assert(token_views(tokens@) =~= token_views(old(tokens)@) + flush(literal@));
    }
}

/// Reads from `from` up to the next `close`: the text before it, and the
/// position after it (or the end).
fn read_bracket(v: &Vec<char>, from: usize, close: char) -> (r: (String, usize))
    requires
        from <= v.len(),
    ensures
        from <= r.1 <= v.len(),
        read_until(v@.skip(from as int), close) == (r.0@, v@.skip(r.1 as int)),
{
    let end = find_char(v, close, from);
    proof {
        lemma_find_from(v@, close, from as int);
        lemma_find_shift(v@, close, from as int, 0);
    }
    let content = string_from(v, from, end);
    assert(content@ =~= v@.skip(from as int).take(end - from));
    let next = if end < v.len() { end + 1 } else { v.len() };
    proof {
        if end < v.len() {
            assert(v@.skip(from as int).skip(end - from + 1) =~= v@.skip(next as int));
        } else {
            assert(v@.skip(next as int) =~= Seq::<char>::empty());
        }
    }
    (content, next)
}

/// Splits a format string into tokens, as [`format_tokens`] states.
pub fn parse_tmux_format(format: &str) -> (r: Vec<FormatToken>)
    ensures
        token_views(r@) == format_tokens(format@, Seq::empty()),
{
    let v = chars_of(format);
    let mut tokens: Vec<FormatToken> = Vec::new();
    let mut literal = String::new();
    let mut i: usize = 0;
    assert(v@.skip(0) =~= v@);
    assert(token_views(tokens@) + format_tokens(v@, literal@) =~= format_tokens(
        v@,
        Seq::empty(),
    ));
    while i < v.len()
        invariant
            i <= v.len(),
            v@ == format@,
            token_views(tokens@) + format_tokens(v@.skip(i as int), literal@) == format_tokens(
                v@,
                Seq::empty(),
            ),
        decreases v.len() - i,
    {
        let ghost s = v@.skip(i as int);
        let ghost before = token_views(tokens@);
        let ch = v[i];
        assert(s[0] == ch);
        if ch == '#' && i + 1 < v.len() && (v[i + 1] == '[' || v[i + 1] == '{') {
            assert(s[1] == v@[i + 1]);
            let ghost lit0 = literal@;
            let open = v[i + 1];
            let lit = literal;
            literal = String::new();
            flush_literal(&mut tokens, lit);
            let ghost tv1 = token_views(tokens@);
            let close = if open == '[' { ']' } else { '}' };
            let (content, next) = read_bracket(&v, i + 2, close);
            let tok = if open == '[' {
                FormatToken::Style(parse_style_directive(content.as_str()))
            } else {
                parse_variable(content.as_str())
            };
            tokens.push(tok);
            proof {
                assert(token_views(tokens@) =~= tv1.push(tok@));
                assert(s.skip(2) =~= v@.skip(i + 2));
                assert(format_tokens(s, lit0) == flush(lit0) + seq![tok@] + format_tokens(
                    v@.skip(next as int),
                    Seq::empty(),
                ));
                assert(token_views(tokens@) + format_tokens(v@.skip(next as int), literal@)
                    =~= before + format_tokens(s, lit0));
            }
            i = next;
        } else if ch == '{' {
            let ghost lit0 = literal@;
            let lit = literal;
            literal = String::new();
            flush_literal(&mut tokens, lit);
            let ghost tv1 = token_views(tokens@);
            let (content, next) = read_bracket(&v, i + 1, '}');
            let tok = parse_variable(content.as_str());
            tokens.push(tok);
            proof {
                assert(token_views(tokens@) =~= tv1.push(tok@));
                assert(s.skip(1) =~= v@.skip(i + 1));
                assert(format_tokens(s, lit0) == flush(lit0) + seq![tok@] + format_tokens(
                    v@.skip(next as int),
                    Seq::empty(),
                ));
                assert(token_views(tokens@) + format_tokens(v@.skip(next as int), literal@)
                    =~= before + format_tokens(s, lit0));
            }
            i = next;
        } else {
            push_char(&mut literal, ch);
            assert(s.drop_first() =~= v@.skip(i + 1));
            i += 1;
        }
    }
    assert(v@.skip(v.len() as int) =~= Seq::<char>::empty());
    flush_literal(&mut tokens, literal);
    assert(token_views(tokens@) =~= format_tokens(v@, Seq::empty()));
    tokens
}

/// Searching a suffix finds what searching the whole from the same place
/// finds, shifted.
proof fn lemma_find_shift(s: Seq<char>, c: char, base: int, k: int)
    requires
        0 <= base <= s.len(),
        0 <= k <= s.len() - base,
    ensures
        find_from(s.skip(base), c, k) == find_from(s, c, base + k) - base,
    decreases s.len() - base - k,
{
    if k < s.len() - base {
        assert(s.skip(base)[k] == s[base + k]);
        if s[base + k] != c {
            lemma_find_shift(s, c, base, k + 1);
        }
    }
}

// ---------------------------------------------------------------------
// Styled strings
// ---------------------------------------------------------------------

/// The styled text that tokens give, and the style in force after them:
/// literal text takes the current style, a variable is shown as its name
/// in braces, and a style token sets the current style.
pub open spec fn styled_from_tokens(tokens: Seq<TokenView>) -> (Seq<SegmentView>, InlineStyle)
    decreases tokens.len(),
{
    if tokens.len() == 0 {
        (Seq::empty(), plain_style())
    } else {
        let (segs, style) = styled_from_tokens(tokens.drop_last());
        match tokens.last() {
            TokenView::Style(s) => (segs, s),
            TokenView::Literal(t) => (segs + keep_nonempty((t, style)), style),
            TokenView::Variable(name, _) => (
                segs + keep_nonempty(("{"@ + name + "}"@, style)),
                style,
            ),
        }
    }
}

/// The styled text that a format string shows without any values.
pub open spec fn styled_string(s: Seq<char>) -> Seq<SegmentView> {
    styled_from_tokens(format_tokens(s, Seq::empty())).0
}

/// Reads a format string as styled text, variables shown as `{name}`.
pub fn parse_styled_string(s: &str) -> (r: StyledText)
    ensures
        r@ == styled_string(s@),
{
    let tokens = parse_tmux_format(s);
    let ghost tv = token_views(tokens@);
    let mut result = StyledText::new();
    let mut current_style = InlineStyle::default();
    let mut i: usize = 0;
    while i < tokens.len()
        invariant
            i <= tokens.len(),
            tv == token_views(tokens@),
            (result@, current_style) == styled_from_tokens(tv.take(i as int)),
        decreases tokens.len() - i,
    {
        assert(tv.take(i + 1).drop_last() =~= tv.take(i as int));
        assert(tv[i as int] == tokens@[i as int]@);
        match &tokens[i] {
            FormatToken::Style(style) => {
                current_style = *style;
            },
            FormatToken::Literal(text) => {
                result.push(text.clone(), current_style);
            },
            FormatToken::Variable { name, .. } => {
                let mut t = String::new();
                t.append("{");
                t.append(name.as_str());
                t.append("}");
                result.push(t, current_style);
            },
        }
        i += 1;
    }
    assert(tv.take(tokens.len() as int) =~= tv);
    result
}

/// Whether `s` holds a character that starts markup (`#` or `{`).
pub open spec fn has_markup(s: Seq<char>) -> bool {
    exists|i: int| 0 <= i < s.len() && (#[trigger] s[i] == '#' || s[i] == '{')
}

proof fn lemma_plain_tokens(s: Seq<char>, lit: Seq<char>)
    requires
        !has_markup(s),
    ensures
        format_tokens(s, lit) == flush(lit + s),
    decreases s.len(),
{
    if s.len() == 0 {
        assert(lit + s =~= lit);
    } else {
        assert(s[0] != '#' && s[0] != '{') by {
            if s[0] == '#' || s[0] == '{' {
                assert(has_markup(s));
            }
        }
        assert(!has_markup(s.drop_first())) by {
            if has_markup(s.drop_first()) {
                let i = choose|i: int|
                    0 <= i < s.drop_first().len() && (#[trigger] s.drop_first()[i] == '#'
                        || s.drop_first()[i] == '{');
                assert(s[i + 1] == s.drop_first()[i]);
            }
        }
        lemma_plain_tokens(s.drop_first(), lit.push(s[0]));
        assert(lit.push(s[0]) + s.drop_first() =~= lit + s);
    }
}

/// Text without markup is shown as it is, in the plain style.
pub proof fn lemma_plain_text(s: Seq<char>)
    requires
        !has_markup(s),
    ensures
        styled_string(s) == keep_nonempty((s, plain_style())),
        format_tokens(s, Seq::empty()) == flush(s),
{
    lemma_plain_tokens(s, Seq::empty());
    assert(Seq::<char>::empty() + s =~= s);
    if s.len() > 0 {
        let t = seq![TokenView::Literal(s)];
        assert(flush(s) == t);
        assert(t.drop_last() =~= Seq::<TokenView>::empty());
        assert(styled_from_tokens(t.drop_last()) == (Seq::<SegmentView>::empty(), plain_style()));
        assert(t.last() == TokenView::Literal(s));
        assert(Seq::<SegmentView>::empty() + keep_nonempty((s, plain_style())) =~= keep_nonempty(
            (s, plain_style()),
        ));
    } else {
        assert(flush(s) =~= Seq::<TokenView>::empty());
        assert(keep_nonempty((s, plain_style())) =~= Seq::<SegmentView>::empty());
    }
}

// ---------------------------------------------------------------------
// Laws
// ---------------------------------------------------------------------

/// Whether a part switches back to the plain style.
pub open spec fn is_reset_part(raw: Seq<char>) -> bool {
    trim(raw) == "reset"@ || trim(raw) == "default"@ || trim(raw) == "none"@
}

/// A `reset` part (or `default`, `none`) restarts from the plain style:
/// whatever came before it in the directive no longer matters.
pub proof fn lemma_reset_part(
    style: InlineStyle,
    before: Seq<Seq<char>>,
    reset: Seq<char>,
    after: Seq<Seq<char>>,
)
    requires
        is_reset_part(reset),
    ensures
        apply_parts(style, before.push(reset) + after) == apply_parts(plain_style(), after),
    decreases after.len(),
{
    if after.len() == 0 {
        assert(before.push(reset) + after =~= before.push(reset));
        assert(before.push(reset).drop_last() =~= before);
        reveal_strlit("reset");
        reveal_strlit("default");
        reveal_strlit("none");
        reveal_strlit("fg=");
        reveal_strlit("bg=");
        reveal_strlit("bold");
        reveal_strlit("dim");
        reveal_strlit("fill");
        let part = trim(reset);
        assert(!has_prefix(part, "fg="@)) by {
            if has_prefix(part, "fg="@) {
                assert(part.take(3)[0] == 'f');
            }
        }
        assert(!has_prefix(part, "bg="@)) by {
            if has_prefix(part, "bg="@) {
                assert(part.take(3)[0] == 'b');
            }
        }
        assert(part != "bold"@ && part != "dim"@ && part != "fill"@) by {
            if part == "bold"@ || part == "dim"@ || part == "fill"@ {
                assert(part[0] == 'b' || part[0] == 'd' || part[0] == 'f');
                assert(part.len() == 4 || part.len() == 3);
            }
        }
    } else {
        let all = before.push(reset) + after;
        assert(all.drop_last() =~= before.push(reset) + after.drop_last());
        assert(all.last() == after.last());
        lemma_reset_part(style, before, reset, after.drop_last());
    }
}

/// Whether tokens hold no empty literal and no two literals in a row.
pub open spec fn tokens_well_formed(ts: Seq<TokenView>) -> bool {
    &&& forall|i: int|
        0 <= i < ts.len() ==> (#[trigger] ts[i] matches TokenView::Literal(t) ==> t.len() > 0)
    &&& forall|i: int| 0 <= i < ts.len() - 1 ==> !(#[trigger] ts[i] is Literal && ts[i + 1] is Literal)
}

/// The number of style and variable tokens.
pub open spec fn directive_count(ts: Seq<TokenView>) -> nat
    decreases ts.len(),
{
    if ts.len() == 0 {
        0
    } else {
        (if ts[0] is Literal {
            0nat
        } else {
            1nat
        }) + directive_count(ts.drop_first())
    }
}

/// The number of directive openers (`#[`, `#{` or `{`) that a scan of `s`
/// meets outside other directives.
pub open spec fn opener_count(s: Seq<char>) -> nat
    decreases s.len(),
{
    if s.len() == 0 {
        0
    } else if s[0] == '#' && s.len() > 1 && s[1] == '[' {
        proof {
            lemma_read_until(s.skip(2), ']');
        }
        1 + opener_count(read_until(s.skip(2), ']').1)
    } else if s[0] == '#' && s.len() > 1 && s[1] == '{' {
        proof {
            lemma_read_until(s.skip(2), '}');
        }
        1 + opener_count(read_until(s.skip(2), '}').1)
    } else if s[0] == '{' {
        proof {
            lemma_read_until(s.skip(1), '}');
        }
        1 + opener_count(read_until(s.skip(1), '}').1)
    } else {
        opener_count(s.drop_first())
    }
}

proof fn lemma_well_formed_concat(a: Seq<TokenView>, b: Seq<TokenView>)
    requires
        tokens_well_formed(a),
        tokens_well_formed(b),
        a.len() == 0 || b.len() == 0 || !(a.last() is Literal) || !(b[0] is Literal),
    ensures
        tokens_well_formed(a + b),
{
    let ab = a + b;
    assert forall|i: int| 0 <= i < ab.len() implies (#[trigger] ab[i] matches TokenView::Literal(
        t,
    ) ==> t.len() > 0) by {
        if i < a.len() {
            assert(ab[i] == a[i]);
        } else {
            assert(ab[i] == b[i - a.len()]);
        }
    }
    assert forall|i: int| 0 <= i < ab.len() - 1 implies !(#[trigger] ab[i] is Literal && ab[i
        + 1] is Literal) by {
        if i + 1 < a.len() {
            assert(ab[i] == a[i] && ab[i + 1] == a[i + 1]);
        } else if i >= a.len() {
            assert(ab[i] == b[i - a.len()] && ab[i + 1] == b[i + 1 - a.len()]);
        } else {
            assert(ab[i] == a.last() && ab[i + 1] == b[0]);
        }
    }
}

proof fn lemma_directive_count_concat(a: Seq<TokenView>, b: Seq<TokenView>)
    ensures
        directive_count(a + b) == directive_count(a) + directive_count(b),
    decreases a.len(),
{
    if a.len() == 0 {
        assert(a + b =~= b);
    } else {
        assert((a + b).drop_first() =~= a.drop_first() + b);
        assert((a + b)[0] == a[0]);
        lemma_directive_count_concat(a.drop_first(), b);
    }
}

proof fn lemma_single(t: TokenView)
    requires
        t matches TokenView::Literal(x) ==> x.len() > 0,
    ensures
        tokens_well_formed(seq![t]),
        directive_count(seq![t]) == (if t is Literal {
            0nat
        } else {
            1nat
        }),
{
    let one = seq![t];
    assert(one.drop_first() =~= Seq::<TokenView>::empty());
    assert(directive_count(one.drop_first()) == 0);
    assert(one[0] == t);
    assert forall|i: int| 0 <= i < one.len() implies (#[trigger] one[i] matches TokenView::Literal(
        x,
    ) ==> x.len() > 0) by {
        assert(one[i] == t);
    }
}

proof fn lemma_flush(lit: Seq<char>)
    ensures
        tokens_well_formed(flush(lit)),
        directive_count(flush(lit)) == 0,
{
    if lit.len() > 0 {
        lemma_single(TokenView::Literal(lit));
    } else {
        assert(flush(lit) =~= Seq::<TokenView>::empty());
    }
}

proof fn lemma_directive_then(lit: Seq<char>, d: TokenView, rest: Seq<TokenView>)
    requires
        !(d is Literal),
        tokens_well_formed(rest),
    ensures
        tokens_well_formed(flush(lit) + seq![d] + rest),
        directive_count(flush(lit) + seq![d] + rest) == 1 + directive_count(rest),
{
    let f = flush(lit);
    let one = seq![d];
    lemma_flush(lit);
    lemma_single(d);
    lemma_well_formed_concat(f, one);
    assert((f + one).last() == d);
    lemma_well_formed_concat(f + one, rest);
    lemma_directive_count_concat(f, one);
    lemma_directive_count_concat(f + one, rest);
}

proof fn lemma_tokens_shape(s: Seq<char>, lit: Seq<char>)
    ensures
        tokens_well_formed(format_tokens(s, lit)),
        directive_count(format_tokens(s, lit)) == opener_count(s),
    decreases s.len(),
{
    if s.len() == 0 {
        lemma_flush(lit);
    } else if s[0] == '#' && s.len() > 1 && s[1] == '[' {
        let (content, rest) = read_until(s.skip(2), ']');
        lemma_read_until(s.skip(2), ']');
        lemma_tokens_shape(rest, Seq::empty());
        lemma_directive_then(lit, TokenView::Style(directive_style(content)), format_tokens(rest, Seq::empty()));
    } else if s[0] == '#' && s.len() > 1 && s[1] == '{' {
        let (content, rest) = read_until(s.skip(2), '}');
        lemma_read_until(s.skip(2), '}');
        lemma_tokens_shape(rest, Seq::empty());
        lemma_directive_then(lit, variable_token(content), format_tokens(rest, Seq::empty()));
    } else if s[0] == '{' {
        let (content, rest) = read_until(s.skip(1), '}');
        lemma_read_until(s.skip(1), '}');
        lemma_tokens_shape(rest, Seq::empty());
        lemma_directive_then(lit, variable_token(content), format_tokens(rest, Seq::empty()));
    } else {
        lemma_tokens_shape(s.drop_first(), lit.push(s[0]));
    }
}

/// The tokens of any format hold no empty literal and no two literals in a
/// row, and there is one style or variable token for each directive opener
/// that the scan meets.
pub proof fn lemma_format_tokens_shape(s: Seq<char>)
    ensures
        tokens_well_formed(format_tokens(s, Seq::empty())),
        directive_count(format_tokens(s, Seq::empty())) == opener_count(s),
{
    lemma_tokens_shape(s, Seq::empty());
}

/// Whether a part sets the foreground colour.
pub open spec fn sets_fg_part(raw: Seq<char>) -> bool {
    has_prefix(trim(raw), "fg="@)
}

/// Whether a part sets the background colour.
pub open spec fn sets_bg_part(raw: Seq<char>) -> bool {
    has_prefix(trim(raw), "bg="@)
}

/// What one part that is not a reset does: `fg=`/`bg=` replace a colour,
/// `bold`, `dim`, `fill` switch an attribute on, and nothing else changes.
proof fn lemma_part_effect(style: InlineStyle, raw: Seq<char>)
    requires
        !is_reset_part(raw),
    ensures
        apply_part(style, raw).fg == (if sets_fg_part(raw) {
            color_from_name(trim(raw).skip(3))
        } else {
            style.fg
        }),
        apply_part(style, raw).bg == (if sets_bg_part(raw) {
            color_from_name(trim(raw).skip(3))
        } else {
            style.bg
        }),
        apply_part(style, raw).bold == (style.bold || trim(raw) == "bold"@),
        apply_part(style, raw).dim == (style.dim || trim(raw) == "dim"@),
        apply_part(style, raw).fill == (style.fill || trim(raw) == "fill"@),
{
    reveal_strlit("fg=");
    reveal_strlit("bg=");
    reveal_strlit("bold");
    reveal_strlit("dim");
    reveal_strlit("fill");
    let part = trim(raw);
    if has_prefix(part, "fg="@) {
        assert(part.take(3)[0] == 'f');
        assert(!has_prefix(part, "bg="@)) by {
            if has_prefix(part, "bg="@) {
                assert(part.take(3)[0] == 'b');
            }
        }
        assert(part.take(3)[2] == '=');
        assert(part != "bold"@ && part != "dim"@ && part != "fill"@) by {
            if part == "bold"@ || part == "dim"@ || part == "fill"@ {
                assert(part[2] == part.take(3)[2]);
            }
        }
    } else if has_prefix(part, "bg="@) {
        assert(part.take(3)[2] == '=');
        assert(part != "bold"@ && part != "dim"@ && part != "fill"@) by {
            if part == "bold"@ || part == "dim"@ || part == "fill"@ {
                assert(part[2] == part.take(3)[2]);
            }
        }
    }
}

/// Whether some part sets the foreground colour.
pub open spec fn sets_fg(parts: Seq<Seq<char>>) -> bool {
    exists|i: int| 0 <= i < parts.len() && sets_fg_part(#[trigger] parts[i])
}

/// Whether some part sets the background colour.
pub open spec fn sets_bg(parts: Seq<Seq<char>>) -> bool {
    exists|i: int| 0 <= i < parts.len() && sets_bg_part(#[trigger] parts[i])
}

/// Parts without a reset build on the style before them: attributes
/// accumulate (an attribute is on after them when it was on before or
/// they switch it on), and a colour they set replaces the earlier one, the
/// last setting winning, while a colour they do not set is kept.
pub proof fn lemma_parts_combine(style: InlineStyle, parts: Seq<Seq<char>>)
    requires
        forall|i: int| 0 <= i < parts.len() ==> !is_reset_part(#[trigger] parts[i]),
    ensures
        ({
            let r = apply_parts(style, parts);
            let q = apply_parts(plain_style(), parts);
            &&& r.bold == (style.bold || q.bold)
            &&& r.dim == (style.dim || q.dim)
            &&& r.fill == (style.fill || q.fill)
            &&& r.fg == (if sets_fg(parts) {
                q.fg
            } else {
                style.fg
            })
            &&& r.bg == (if sets_bg(parts) {
                q.bg
            } else {
                style.bg
            })
        }),
    decreases parts.len(),
{
    if parts.len() > 0 {
        let init = parts.drop_last();
        let p = parts.last();
        assert forall|i: int| 0 <= i < init.len() implies !is_reset_part(#[trigger] init[i]) by {
            assert(init[i] == parts[i]);
        }
        assert(!is_reset_part(parts[parts.len() - 1]));
        lemma_parts_combine(style, init);
        lemma_part_effect(apply_parts(style, init), p);
        lemma_part_effect(apply_parts(plain_style(), init), p);
        if !sets_fg_part(p) {
            assert(sets_fg(parts) == sets_fg(init)) by {
                if sets_fg(parts) {
                    let i = choose|i: int| 0 <= i < parts.len() && sets_fg_part(#[trigger] parts[i]);
                    assert(i < init.len());
                    assert(init[i] == parts[i]);
                }
                if sets_fg(init) {
                    let i = choose|i: int| 0 <= i < init.len() && sets_fg_part(#[trigger] init[i]);
                    assert(parts[i] == init[i]);
                }
            }
        } else {
            assert(sets_fg_part(parts[parts.len() - 1]));
        }
        if !sets_bg_part(p) {
            assert(sets_bg(parts) == sets_bg(init)) by {
                if sets_bg(parts) {
                    let i = choose|i: int| 0 <= i < parts.len() && sets_bg_part(#[trigger] parts[i]);
                    assert(i < init.len());
                    assert(init[i] == parts[i]);
                }
                if sets_bg(init) {
                    let i = choose|i: int| 0 <= i < init.len() && sets_bg_part(#[trigger] init[i]);
                    assert(parts[i] == init[i]);
                }
            }
        } else {
            assert(sets_bg_part(parts[parts.len() - 1]));
        }
    }
}

/// A `reset` between two halves of a directive discards the first half:
/// the style is that of the second half alone.
pub proof fn lemma_directive_reset(a: Seq<char>, b: Seq<char>)
    ensures
        directive_style(a + ",reset,"@ + b) == directive_style(b),
{
    reveal_strlit(",reset,");
    reveal_strlit("reset");
    let r = "reset"@;
    assert(a + ",reset,"@ + b =~= a + seq![','] + (r + seq![','] + b));
    lemma_split_join(a, r + seq![','] + b, ',');
    lemma_split_join(r, b, ',');
    assert(!r.contains(',')) by {
        if r.contains(',') {
            let k = choose|k: int| 0 <= k < r.len() && r[k] == ',';
            assert(r[k] == ',');
        }
    }
    lemma_split_single(r, ',');
    lemma_trim_plain(r);
    let pa = split_on(a, ',');
    let pb = split_on(b, ',');
    assert(pa + (seq![r] + pb) =~= pa.push(r) + pb);
    lemma_reset_part(plain_style(), pa, r, pb);
}

/// Trimming text without whitespace at its ends leaves it as it is.
proof fn lemma_trim_plain(s: Seq<char>)
    requires
        s == "reset"@,
    ensures
        trim(s) == s,
{
    reveal_strlit("reset");
    assert(skip_ws(s, 0) == 0);
    assert(back_ws(s, 5, 0) == 5);
    assert(s.subrange(0, s.len() as int) =~= s);
}

/// Two halves of a directive joined by a comma, where the second half holds
/// no reset: the attributes of both halves are on, and each colour is the
/// one the second half sets, else the one the first half gives.
pub proof fn lemma_directive_combine(a: Seq<char>, b: Seq<char>)
    requires
        forall|i: int|
            0 <= i < split_on(b, ',').len() ==> !is_reset_part(#[trigger] split_on(b, ',')[i]),
    ensures
        ({
            let r = directive_style(a + ","@ + b);
            let pa = directive_style(a);
            let pb = directive_style(b);
            &&& r.bold == (pa.bold || pb.bold)
            &&& r.dim == (pa.dim || pb.dim)
            &&& r.fill == (pa.fill || pb.fill)
            &&& r.fg == (if sets_fg(split_on(b, ',')) {
                pb.fg
            } else {
                pa.fg
            })
            &&& r.bg == (if sets_bg(split_on(b, ',')) {
                pb.bg
            } else {
                pa.bg
            })
        }),
{
    reveal_strlit(",");
    assert(a + ","@ + b =~= a + seq![','] + b);
    lemma_split_join(a, b, ',');
    lemma_apply_parts_concat(plain_style(), split_on(a, ','), split_on(b, ','));
    lemma_parts_combine(directive_style(a), split_on(b, ','));
}

/// Applying parts one list after another.
proof fn lemma_apply_parts_concat(style: InlineStyle, a: Seq<Seq<char>>, b: Seq<Seq<char>>)
    ensures
        apply_parts(style, a + b) == apply_parts(apply_parts(style, a), b),
    decreases b.len(),
{
    if b.len() == 0 {
        assert(a + b =~= a);
    } else {
        assert((a + b).drop_last() =~= a + b.drop_last());
        assert((a + b).last() == b.last());
        lemma_apply_parts_concat(style, a, b.drop_last());
    }
}

/// `#{...}` is read exactly as `{...}`: a `#` in front of a variable
/// reference changes none of the tokens, whatever the text.
pub proof fn lemma_hash_brace(t: Seq<char>, lit: Seq<char>)
    requires
        t.len() > 0,
        t[0] == '{',
    ensures
        format_tokens(seq!['#'] + t, lit) == format_tokens(t, lit),
{
    let s = seq!['#'] + t;
    assert(s[0] == '#' && s[1] == t[0]);
    assert(s.skip(2) =~= t.skip(1));
}

/// The first occurrence of `c` in `s`, when the characters before it are
/// all other characters.
proof fn lemma_find_at(s: Seq<char>, c: char, k: int)
    requires
        0 <= k <= s.len(),
        k < s.len() ==> s[k] == c,
        forall|j: int| 0 <= j < k ==> s[j] != c,
    ensures
        find_from(s, c, 0) == k,
{
    lemma_find_from(s, c, 0);
    let f = find_from(s, c, 0);
    if f < k {
        assert(s[f] == c);
    }
    if f > k {
        assert(s[k] != c);
    }
}

/// A width-limited variable `{=w:name}`, or `#{=w:name}`, reads as the
/// variable `name` cut to `w` columns, for every width `w` and every name
/// without a closing brace.
pub proof fn lemma_width_variable(w: usize, name: Seq<char>)
    requires
        !name.contains('}'),
    ensures
        format_tokens("{="@ + decimal(w as nat) + ":"@ + name + "}"@, Seq::empty()) == seq![
            TokenView::Variable(name, Some(w)),
        ],
        format_tokens("#{="@ + decimal(w as nat) + ":"@ + name + "}"@, Seq::empty()) == seq![
            TokenView::Variable(name, Some(w)),
        ],
{
    reveal_strlit("{=");
    reveal_strlit("#{=");
    reveal_strlit(":");
    reveal_strlit("}");
    let d = decimal(w as nat);
    lemma_decimal_digits(w as nat);
    lemma_parse_decimal(w as nat, usize::MAX as nat);
    let c = seq!['='] + d + seq![':'] + name;
    let t = "{="@ + d + ":"@ + name + "}"@;
    assert(t =~= seq!['{'] + c + seq!['}']);
    assert(t.skip(1) =~= c + seq!['}']);
    // the content reaches to the closing brace
    assert forall|j: int| 0 <= j < c.len() implies (c + seq!['}'])[j] != '}' by {
        assert((c + seq!['}'])[j] == c[j]);
        if j == 0 {
        } else if j < 1 + d.len() {
            assert(c[j] == d[j - 1]);
            assert(is_digit(d[j - 1]));
        } else if j == 1 + d.len() {
        } else {
            assert(c[j] == name[j - 2 - d.len()]);
            if name[j - 2 - d.len()] == '}' {
                assert(name.contains('}'));
            }
        }
    }
    lemma_find_at(c + seq!['}'], '}', c.len() as int);
    assert((c + seq!['}']).take(c.len() as int) =~= c);
    assert((c + seq!['}']).skip(c.len() as int + 1) =~= Seq::<char>::empty());
    assert(flush(Seq::<char>::empty()) =~= Seq::<TokenView>::empty());
    // the width ends at the colon
    let rest = c.drop_first();
    assert(rest =~= d + seq![':'] + name);
    assert forall|j: int| 0 <= j < d.len() implies rest[j] != ':' by {
        assert(rest[j] == d[j]);
        assert(is_digit(d[j]));
    }
    lemma_find_at(rest, ':', d.len() as int);
    assert(rest.take(d.len() as int) =~= d);
    assert(rest.skip(d.len() as int + 1) =~= name);
    assert(variable_token(c) == TokenView::Variable(name, Some(w)));
    assert(t[0] == '{');
    assert(read_until(t.skip(1), '}') == (c, Seq::<char>::empty()));
    assert(format_tokens(Seq::<char>::empty(), Seq::<char>::empty()) =~= Seq::<TokenView>::empty());
    let tokens = format_tokens(t, Seq::empty());
    assert(tokens == flush(Seq::<char>::empty()) + seq![variable_token(c)] + format_tokens(
        Seq::<char>::empty(),
        Seq::<char>::empty(),
    ));
    assert(tokens =~= seq![TokenView::Variable(name, Some(w))]);
    let h = "#{="@ + d + ":"@ + name + "}"@;
    assert(h =~= seq!['#'] + t);
    lemma_hash_brace(t, Seq::empty());
}

} // verus!
