//! What a terminal shows of printed text: the characters left once the
//! escape sequences that switch styles are taken out.

use vstd::prelude::*;
use crate::color::{bg_code, fg_code, ColorSpec};
use crate::number::{all_digits, decimal, is_digit, lemma_decimal_digits};
use crate::format::styled_string;
use crate::render::{content_line, fill_code, swapped};
use crate::state::sat_sub;
use crate::styled::{
    cut_segments, fit_chars, keep_nonempty, lemma_fit_chars, plain_text, segments_code,
    style_code, styled, text_code, total_width, truncated, InlineStyle, SegmentView,
};
use crate::text::{find_from, lemma_find_from, spaces};

verus! {

/// `s` as the terminal shows it: every escape sequence, from `\x1b` up to
/// and including the next `m`, taken out (an unfinished one hides the
/// rest).
pub open spec fn visible_text(s: Seq<char>) -> Seq<char>
    decreases s.len(),
{
    if s.len() == 0 {
        Seq::empty()
    } else if s[0] == '\x1b' {
        let t = s.drop_first();
        let k = find_from(t, 'm', 0);
        proof {
            lemma_find_from(t, 'm', 0);
        }
        if k < t.len() {
            visible_text(t.skip(k + 1))
        } else {
            Seq::empty()
        }
    } else {
        seq![s[0]] + visible_text(s.drop_first())
    }
}

/// Whether `t` holds no escape character.
pub open spec fn no_escape(t: Seq<char>) -> bool {
    !t.contains('\x1b')
}

/// Whether `e` is one escape sequence: `\x1b`, characters other than `m`,
/// then `m`.
pub open spec fn is_code(e: Seq<char>) -> bool {
    &&& e.len() >= 2
    &&& e[0] == '\x1b'
    &&& e[e.len() - 1] == 'm'
    &&& forall|j: int| 1 <= j < e.len() - 1 ==> #[trigger] e[j] != 'm'
}

/// Text without escape characters is shown as it is.
pub proof fn lemma_visible_plain(t: Seq<char>, r: Seq<char>)
    requires
        no_escape(t),
    ensures
        visible_text(t + r) == t + visible_text(r),
    decreases t.len(),
{
    if t.len() == 0 {
        assert(t + r =~= r);
        assert(t + visible_text(r) =~= visible_text(r));
    } else {
        let s = t + r;
        assert(t[0] != '\x1b') by {
            if t[0] == '\x1b' {
                assert(t.contains('\x1b'));
            }
        }
        assert(!t.drop_first().contains('\x1b')) by {
            if t.drop_first().contains('\x1b') {
                let k = choose|k: int| 0 <= k < t.drop_first().len() && t.drop_first()[k] == '\x1b';
                assert(t[k + 1] == '\x1b');
            }
        }
        assert(s[0] == t[0]);
        assert(s.drop_first() =~= t.drop_first() + r);
        lemma_visible_plain(t.drop_first(), r);
        assert(seq![t[0]] + (t.drop_first() + visible_text(r)) =~= t + visible_text(r));
    }
}

/// An escape sequence is not shown.
pub proof fn lemma_visible_code(e: Seq<char>, r: Seq<char>)
    requires
        is_code(e),
    ensures
        visible_text(e + r) == visible_text(r),
{
    let s = e + r;
    let t = s.drop_first();
    assert(s[0] == '\x1b');
    lemma_find_from(t, 'm', 0);
    let k = find_from(t, 'm', 0);
    let last = e.len() - 2;
    assert(t[last] == e[e.len() - 1]);
    assert(k <= last) by {
        if k > last {
            assert(t[last] != 'm');
        }
    }
    assert(k >= last) by {
        if k < last {
            assert(t[k] == e[k + 1]);
        }
    }
    assert(t.skip(k + 1) =~= r);
}

/// An escape sequence, or nothing, is not shown.
pub proof fn lemma_visible_code_or_empty(e: Seq<char>, r: Seq<char>)
    requires
        is_code(e) || e.len() == 0,
    ensures
        visible_text(e + r) == visible_text(r),
{
    if e.len() == 0 {
        assert(e + r =~= r);
    } else {
        lemma_visible_code(e, r);
    }
}

/// `prefix`, `mid` and a closing `m` make one escape sequence when the
/// prefix starts with `\x1b` and neither part holds an `m`.
proof fn lemma_code_parts(prefix: Seq<char>, mid: Seq<char>)
    requires
        prefix.len() >= 1,
        prefix[0] == '\x1b',
        !prefix.contains('m'),
        !mid.contains('m'),
    ensures
        is_code(prefix + mid + seq!['m']),
{
    let e = prefix + mid + seq!['m'];
    assert(e[0] == prefix[0]);
    assert(e[e.len() - 1] == 'm');
    assert forall|j: int| 1 <= j < e.len() - 1 implies #[trigger] e[j] != 'm' by {
        if j < prefix.len() {
            assert(e[j] == prefix[j]);
            if prefix[j] == 'm' {
                assert(prefix.contains('m'));
            }
        } else {
            assert(e[j] == mid[j - prefix.len()]);
            if mid[j - prefix.len()] == 'm' {
                assert(mid.contains('m'));
            }
        }
    }
}

proof fn lemma_no_char_concat(a: Seq<char>, b: Seq<char>, c: char)
    requires
        !a.contains(c),
        !b.contains(c),
    ensures
        !(a + b).contains(c),
{
    if (a + b).contains(c) {
        let k = choose|k: int| 0 <= k < (a + b).len() && (a + b)[k] == c;
        if k < a.len() {
            assert(a[k] == c);
            assert(a.contains(c));
        } else {
            assert(b[k - a.len()] == c);
            assert(b.contains(c));
        }
    }
}

proof fn lemma_digits_no_m(n: nat)
    ensures
        !decimal(n).contains('m'),
{
    lemma_decimal_digits(n);
    if decimal(n).contains('m') {
        let k = choose|k: int| 0 <= k < decimal(n).len() && decimal(n)[k] == 'm';
        assert(is_digit(decimal(n)[k]));
    }
}

proof fn lemma_literal_no_m(s: Seq<char>)
    requires
        forall|j: int| 0 <= j < s.len() ==> #[trigger] s[j] != 'm',
    ensures
        !s.contains('m'),
{
}

/// A colour code is an escape sequence, or nothing for the default colour.
proof fn lemma_color_codes(c: ColorSpec)
    ensures
        is_code(fg_code(c)) || fg_code(c).len() == 0,
        is_code(bg_code(c)) || bg_code(c).len() == 0,
{
    reveal_strlit("\x1b[38;5;");
    reveal_strlit("\x1b[38;2;");
    reveal_strlit("\x1b[48;5;");
    reveal_strlit("\x1b[48;2;");
    reveal_strlit(";");
    reveal_strlit("m");
    assert("m"@ =~= seq!['m']);
    match c {
        ColorSpec::Default => {},
        ColorSpec::EightBit(n) => {
            lemma_digits_no_m(n as nat);
            let f = "\x1b[38;5;"@;
            let b = "\x1b[48;5;"@;
            lemma_literal_no_m(f);
            lemma_literal_no_m(b);
            lemma_code_parts(f, decimal(n as nat));
            lemma_code_parts(b, decimal(n as nat));
        },
        ColorSpec::Rgb(r, g, b) => {
            lemma_digits_no_m(r as nat);
            lemma_digits_no_m(g as nat);
            lemma_digits_no_m(b as nat);
            let semi = ";"@;
            lemma_literal_no_m(semi);
            let mid = decimal(r as nat) + semi + decimal(g as nat) + semi + decimal(b as nat);
            lemma_no_char_concat(decimal(r as nat), semi, 'm');
            lemma_no_char_concat(decimal(r as nat) + semi, decimal(g as nat), 'm');
            lemma_no_char_concat(decimal(r as nat) + semi + decimal(g as nat), semi, 'm');
            lemma_no_char_concat(
                decimal(r as nat) + semi + decimal(g as nat) + semi,
                decimal(b as nat),
                'm',
            );
            let fp = "\x1b[38;2;"@;
            let bp = "\x1b[48;2;"@;
            lemma_literal_no_m(fp);
            lemma_literal_no_m(bp);
            lemma_code_parts(fp, mid);
            lemma_code_parts(bp, mid);
            assert(fg_code(c) =~= fp + mid + seq!['m']);
            assert(bg_code(c) =~= bp + mid + seq!['m']);
        },
    }
}

/// The codes that switch a style on are not shown.
pub proof fn lemma_visible_style(s: InlineStyle, r: Seq<char>)
    ensures
        visible_text(style_code(s) + r) == visible_text(r),
{
    reveal_strlit("\x1b[1m");
    reveal_strlit("\x1b[2m");
    let a = if s.bold {
        "\x1b[1m"@
    } else {
        Seq::empty()
    };
    let d = if s.dim {
        "\x1b[2m"@
    } else {
        Seq::empty()
    };
    lemma_color_codes(s.fg);
    lemma_color_codes(s.bg);
    assert(is_code(a) || a.len() == 0);
    assert(is_code(d) || d.len() == 0);
    assert(style_code(s) + r =~= a + (d + (fg_code(s.fg) + (bg_code(s.bg) + r))));
    lemma_visible_code_or_empty(a, d + (fg_code(s.fg) + (bg_code(s.bg) + r)));
    lemma_visible_code_or_empty(d, fg_code(s.fg) + (bg_code(s.bg) + r));
    lemma_visible_code_or_empty(fg_code(s.fg), bg_code(s.bg) + r);
    lemma_visible_code_or_empty(bg_code(s.bg), r);
}

/// Whether no segment's text holds an escape character.
pub open spec fn segments_plain(segs: Seq<SegmentView>) -> bool {
    forall|i: int| 0 <= i < segs.len() ==> no_escape(#[trigger] segs[i].0)
}

proof fn lemma_visible_reset(r: Seq<char>)
    ensures
        visible_text("\x1b[0m"@ + r) == visible_text(r),
{
    reveal_strlit("\x1b[0m");
    lemma_visible_code("\x1b[0m"@, r);
}

/// Printed segments show their texts, one after another.
pub proof fn lemma_visible_segments(segs: Seq<SegmentView>, r: Seq<char>)
    requires
        segments_plain(segs),
    ensures
        visible_text(segments_code(segs) + r) == plain_text(segs) + visible_text(r),
    decreases segs.len(),
{
    if segs.len() == 0 {
        assert(segments_code(segs) + r =~= r);
        assert(plain_text(segs) + visible_text(r) =~= visible_text(r));
    } else {
        let init = segs.drop_last();
        let last = segs.last();
        assert forall|i: int| 0 <= i < init.len() implies no_escape(#[trigger] init[i].0) by {
            assert(init[i] == segs[i]);
        }
        assert(no_escape(segs[segs.len() - 1].0));
        let x = if styled(last.1) {
            "\x1b[0m"@ + style_code(last.1)
        } else {
            Seq::empty()
        };
        let rest = x + last.0 + r;
        assert(segments_code(segs) + r =~= segments_code(init) + rest);
        lemma_visible_segments(init, rest);
        lemma_visible_plain(last.0, r);
        if styled(last.1) {
            assert(rest =~= "\x1b[0m"@ + (style_code(last.1) + (last.0 + r)));
            lemma_visible_reset(style_code(last.1) + (last.0 + r));
            lemma_visible_style(last.1, last.0 + r);
        } else {
            assert(rest =~= last.0 + r);
        }
        assert(plain_text(init) + (last.0 + visible_text(r)) =~= plain_text(segs) + visible_text(r));
    }
}

/// Highlighted segments show their texts, one after another.
pub proof fn lemma_visible_fill(segs: Seq<SegmentView>, r: Seq<char>)
    requires
        segments_plain(segs),
    ensures
        visible_text(fill_code(segs) + r) == plain_text(segs) + visible_text(r),
    decreases segs.len(),
{
    if segs.len() == 0 {
        assert(fill_code(segs) + r =~= r);
        assert(plain_text(segs) + visible_text(r) =~= visible_text(r));
    } else {
        let init = segs.drop_last();
        let last = segs.last();
        assert forall|i: int| 0 <= i < init.len() implies no_escape(#[trigger] init[i].0) by {
            assert(init[i] == segs[i]);
        }
        assert(no_escape(segs[segs.len() - 1].0));
        let x = if styled(swapped(last.1)) {
            "\x1b[0m\x1b[7m"@ + style_code(swapped(last.1))
        } else {
            Seq::empty()
        };
        let rest = x + last.0 + r;
        assert(fill_code(segs) + r =~= fill_code(init) + rest);
        lemma_visible_fill(init, rest);
        lemma_visible_plain(last.0, r);
        if styled(swapped(last.1)) {
            reveal_strlit("\x1b[0m\x1b[7m");
            reveal_strlit("\x1b[0m");
            reveal_strlit("\x1b[7m");
            assert("\x1b[0m\x1b[7m"@ =~= "\x1b[0m"@ + "\x1b[7m"@);
            assert(rest =~= "\x1b[0m"@ + ("\x1b[7m"@ + (style_code(swapped(last.1)) + (last.0
                + r))));
            lemma_visible_reset("\x1b[7m"@ + (style_code(swapped(last.1)) + (last.0 + r)));
            lemma_visible_code("\x1b[7m"@, style_code(swapped(last.1)) + (last.0 + r));
            lemma_visible_style(swapped(last.1), last.0 + r);
        } else {
            assert(rest =~= last.0 + r);
        }
        assert(plain_text(init) + (last.0 + visible_text(r)) =~= plain_text(segs) + visible_text(r));
    }
}

/// Styled text as printed shows its texts and nothing else.
pub proof fn lemma_visible_text_code(segs: Seq<SegmentView>, r: Seq<char>)
    requires
        segments_plain(segs),
    ensures
        visible_text(text_code(segs) + r) == plain_text(segs) + visible_text(r),
{
    reveal_strlit("\x1b[0m");
    let tail = text_code(segs).subrange(segments_code(segs).len() as int, text_code(segs).len() as int);
    assert(text_code(segs) =~= segments_code(segs) + tail);
    assert(text_code(segs) + r =~= segments_code(segs) + (tail + r));
    lemma_visible_segments(segs, tail + r);
    if tail.len() > 0 {
        assert(tail =~= "\x1b[0m"@);
        lemma_visible_reset(r);
    } else {
        assert(tail + r =~= r);
    }
}

proof fn lemma_spaces_plain(n: nat)
    ensures
        no_escape(spaces(n)),
{
    if spaces(n).contains('\x1b') {
        let k = choose|k: int| 0 <= k < spaces(n).len() && spaces(n)[k] == '\x1b';
        assert(spaces(n)[k] == ' ');
    }
}

/// Cutting keeps texts free of escape characters.
proof fn lemma_cut_plain(segs: Seq<SegmentView>, room: int)
    requires
        segments_plain(segs),
    ensures
        segments_plain(cut_segments(segs, room)),
    decreases segs.len(),
{
    if segs.len() == 0 || room == 0 {
    } else {
        let s0 = segs[0];
        assert(no_escape(s0.0));
        if crate::width::text_width(s0.0) <= room {
            let tail = segs.drop_first();
            assert forall|i: int| 0 <= i < tail.len() implies no_escape(#[trigger] tail[i].0) by {
                assert(tail[i] == segs[i + 1]);
            }
            lemma_cut_plain(tail, room - crate::width::text_width(s0.0));
            let k = keep_nonempty(s0);
            let c1 = cut_segments(tail, room - crate::width::text_width(s0.0));
            let all = k + c1;
            assert forall|i: int| 0 <= i < all.len() implies no_escape(#[trigger] all[i].0) by {
                if i < k.len() {
                    assert(all[i] == k[i]);
                    assert(k[i] == s0);
                } else {
                    assert(all[i] == c1[i - k.len()]);
                }
            }
        } else if room >= 0 {
            let fit = fit_chars(s0.0, room);
            lemma_fit_chars(s0.0, room);
            assert(!fit.contains('\x1b')) by {
                if fit.contains('\x1b') {
                    let k = choose|k: int| 0 <= k < fit.len() && fit[k] == '\x1b';
                    assert(fit[k] == s0.0[k]);
                    assert(s0.0.contains('\x1b'));
                }
            }
            let k = keep_nonempty((fit, s0.1));
            assert forall|i: int| 0 <= i < k.len() implies no_escape(#[trigger] k[i].0) by {
                assert(k[i] == (fit, s0.1));
            }
        } else {
            assert(fit_chars(s0.0, room) =~= Seq::<char>::empty()) by {
                if s0.0.len() > 0 {
                    assert(crate::width::text_width(seq![s0.0[0]]) > room);
                }
            }
            let k = keep_nonempty((fit_chars(s0.0, room), s0.1));
            assert(k =~= Seq::<SegmentView>::empty());
        }
    }
}

/// A line as the terminal shows it: the cut content, padded with spaces to
/// the room that the border leaves, then the border's text. It holds when
/// no text of the content or of the border's segments holds an escape
/// character, whether the line is highlighted or not.
pub proof fn lemma_line_visible(
    border: Seq<char>,
    content: Seq<SegmentView>,
    cols: int,
    is_selected: bool,
)
    requires
        segments_plain(content),
        segments_plain(styled_string(border)),
    ensures
        ({
            let b = styled_string(border);
            let bw = total_width(b) as int;
            let room = sat_sub(cols, bw);
            let c = truncated(content, room);
            let pad = sat_sub(room, total_width(c) as int);
            visible_text(content_line(border, content, cols, is_selected)) == plain_text(c)
                + spaces(pad as nat) + (if bw > 0 {
                plain_text(b)
            } else {
                Seq::empty()
            })
        }),
{
    let b = styled_string(border);
    let bw = total_width(b) as int;
    let room = sat_sub(cols, bw);
    let c = truncated(content, room);
    let pad = sat_sub(room, total_width(c) as int);
    let sp = spaces(pad as nat);
    let bp = if bw > 0 {
        text_code(b)
    } else {
        Seq::empty()
    };
    if total_width(content) > room {
        lemma_cut_plain(content, room);
    }
    assert(segments_plain(c));
    lemma_spaces_plain(pad as nat);
    assert(visible_text(bp) == (if bw > 0 {
        plain_text(b)
    } else {
        Seq::empty()
    })) by {
        if bw > 0 {
            lemma_visible_text_code(b, Seq::empty());
            assert(text_code(b) + Seq::<char>::empty() =~= text_code(b));
            assert(plain_text(b) + Seq::<char>::empty() =~= plain_text(b));
        }
    }
    lemma_visible_plain(sp, bp);
    if is_selected && crate::render::any_fill(c) {
        reveal_strlit("\x1b[7m");
        reveal_strlit("\x1b[0m");
        let line = content_line(border, content, cols, is_selected);
        assert(line =~= "\x1b[7m"@ + (fill_code(c) + (sp + ("\x1b[0m"@ + bp))));
        lemma_visible_code("\x1b[7m"@, fill_code(c) + (sp + ("\x1b[0m"@ + bp)));
        lemma_visible_fill(c, sp + ("\x1b[0m"@ + bp));
        lemma_visible_plain(sp, "\x1b[0m"@ + bp);
        lemma_visible_reset(bp);
    } else {
        let line = content_line(border, content, cols, is_selected);
        assert(line =~= text_code(c) + (sp + bp));
        lemma_visible_text_code(c, sp + bp);
    }
}

} // verus!
