//! Drawing the sidebar: session lines from their formats, the overflow
//! indicators, padding, the border, and the whole pane.

use vstd::prelude::*;
use crate::config::StyleConfig;
use crate::format::{format_tokens, parse_styled_string, parse_tmux_format, styled_string, token_views, FormatToken, TokenView};
use crate::layout::{calculate_visible_range, lemma_visible_range_fits, min_nat, visible_range};
use crate::number::{decimal, decimal_string};
use crate::session::{entry_is_current, entry_name, SessionEntry};
use crate::state::{focused_index, model_wf, sat_sub, session_at_row, State, StateModel};
use crate::styled::{
    lemma_truncated_fits, segment_widths_add_up, sum_width, keep_nonempty, plain_style, style_code, styled, text_code, total_width, truncate_string,
    truncated, truncated_string, InlineStyle, SegmentView, StyledText,
};
use crate::text::{has_prefix, push_spaces, replace_all, replace_str, sanitize_terminal_text, sanitized, spaces};

verus! {

// ---------------------------------------------------------------------
// Session lines
// ---------------------------------------------------------------------

/// The indicators of an entry: the active indicator for the current
/// session, then the clients indicator (with `{n}` replaced by the count)
/// when more than one client is connected.
pub open spec fn indicators_of(style: StyleConfig, e: SessionEntry) -> Seq<char> {
    match e {
        SessionEntry::Live(info) => (if info.is_current_session {
            style.indicator_active@
        } else {
            Seq::empty()
        }) + (if info.connected_clients > 1 {
            replace_all(style.indicator_clients@, "{n}"@, decimal(info.connected_clients as nat))
        } else {
            Seq::empty()
        }),
        SessionEntry::Resurrectable(_) => Seq::empty(),
    }
}

/// The value of a variable for an entry shown with number `index`.
pub open spec fn variable_value(style: StyleConfig, e: SessionEntry, index: nat, name: Seq<char>) -> Seq<
    char,
> {
    let (tabs, clients) = match e {
        SessionEntry::Live(info) => (info.tab_count as nat, info.connected_clients as nat),
        SessionEntry::Resurrectable(_) => (0nat, 0nat),
    };
    if name == "index"@ || name == "i"@ {
        decimal(index)
    } else if name == "name"@ || name == "n"@ {
        sanitized(entry_name(e))
    } else if name == "tabs"@ || name == "tab_count"@ {
        decimal(tabs)
    } else if name == "clients"@ || name == "client_count"@ || name == "c"@ {
        decimal(clients)
    } else if name == "indicators"@ {
        indicators_of(style, e)
    } else if name == "active"@ {
        if entry_is_current(e) {
            style.indicator_active@
        } else {
            Seq::empty()
        }
    } else if name == "type"@ {
        if e is Resurrectable {
            "dead"@
        } else {
            "live"@
        }
    } else {
        "{"@ + name + "}"@
    }
}

/// Styled text from tokens for an entry, and the style in force after
/// them: variables are filled in and cut to their width (or to the
/// configured maximum).
pub open spec fn expanded(style: StyleConfig, e: SessionEntry, index: nat, tokens: Seq<TokenView>) -> (
    Seq<SegmentView>,
    InlineStyle,
)
    decreases tokens.len(),
{
    if tokens.len() == 0 {
        (Seq::empty(), plain_style())
    } else {
        let (segs, current) = expanded(style, e, index, tokens.drop_last());
        match tokens.last() {
            TokenView::Style(s) => (segs, s),
            TokenView::Literal(t) => (segs + keep_nonempty((t, current)), current),
            TokenView::Variable(name, width) => {
                let value = variable_value(style, e, index, name);
                let w = match width {
                    Some(w) => w,
                    None => style.max_name_length,
                };
                (segs + keep_nonempty((truncated_string(value, w as int), current)), current)
            },
        }
    }
}

/// The styled text that a format gives for an entry shown with number
/// `index`.
pub open spec fn expand(style: StyleConfig, format: Seq<char>, e: SessionEntry, index: nat) -> Seq<
    SegmentView,
> {
    expanded(style, e, index, format_tokens(format, Seq::empty())).0
}

// ---------------------------------------------------------------------
// Lines
// ---------------------------------------------------------------------

/// A style with its colours swapped and without `fill`: how a segment
/// looks on a highlighted line.
pub open spec fn swapped(s: InlineStyle) -> InlineStyle {
    InlineStyle { fg: s.bg, bg: s.fg, fill: false, ..s }
}

/// The segments of a highlighted line, inside reverse video.
pub open spec fn fill_code(segs: Seq<SegmentView>) -> Seq<char>
    decreases segs.len(),
{
    if segs.len() == 0 {
        Seq::empty()
    } else {
        let last = segs.last();
        fill_code(segs.drop_last()) + (if styled(swapped(last.1)) {
            "\x1b[0m\x1b[7m"@ + style_code(swapped(last.1))
        } else {
            Seq::empty()
        }) + last.0
    }
}

pub open spec fn any_fill(segs: Seq<SegmentView>) -> bool {
    exists|i: int| 0 <= i < segs.len() && (#[trigger] segs[i]).1.fill
}

/// A line showing `content` in `cols` columns: the content cut to the room
/// left by the border, padded with spaces, then the border. A selected
/// line whose content asks for `fill` is drawn in reverse video throughout.
pub open spec fn content_line(border: Seq<char>, content: Seq<SegmentView>, cols: int, is_selected: bool) -> Seq<
    char,
> {
    let b = styled_string(border);
    let bw = total_width(b) as int;
    let eff = sat_sub(cols, bw);
    let c = truncated(content, eff);
    let pad = sat_sub(eff, total_width(c) as int);
    (if is_selected && any_fill(c) {
        "\x1b[7m"@ + fill_code(c) + spaces(pad as nat) + "\x1b[0m"@
    } else {
        text_code(c) + spaces(pad as nat)
    }) + (if bw > 0 {
        text_code(b)
    } else {
        Seq::empty()
    })
}

/// A line with no content: spaces, then the border.
pub open spec fn empty_line(border: Seq<char>, cols: int) -> Seq<char> {
    let b = styled_string(border);
    let bw = total_width(b) as int;
    if bw == 0 {
        spaces(cols as nat)
    } else {
        spaces(sat_sub(cols, bw) as nat) + text_code(b)
    }
}

/// The format of an entry: the selected format, else the active one for
/// the current session, else the resurrectable one, else the ordinary one.
pub open spec fn format_of(style: StyleConfig, e: SessionEntry, is_selected: bool) -> Seq<char> {
    if is_selected {
        style.format_selected@
    } else if entry_is_current(e) {
        style.format_active@
    } else if e is Resurrectable {
        style.format_resurrectable@
    } else {
        style.format@
    }
}

/// The line of entry `i`, highlighted when current or selected.
pub open spec fn session_line(m: StateModel, i: int, cols: int) -> Seq<char> {
    let e = m.sessions[i];
    let is_selected = m.selected_session_idx == Some(i as usize);
    content_line(
        m.style.border@,
        expand(m.style, format_of(m.style, e, is_selected), e, (i + m.style.start_index) as nat),
        cols,
        entry_is_current(e) || is_selected,
    )
}

/// The lines of the entries `from..to` that exist.
pub open spec fn session_lines(m: StateModel, from: int, to: int, cols: int) -> Seq<Seq<char>>
    decreases to - from,
{
    if to <= from {
        Seq::empty()
    } else {
        session_lines(m, from, to - 1, cols) + if to - 1 < m.sessions.len() {
            seq![session_line(m, to - 1, cols)]
        } else {
            Seq::empty()
        }
    }
}

/// An overflow indicator line for `count` hidden sessions.
pub open spec fn overflow_line(m: StateModel, format: Seq<char>, count: nat, cols: int) -> Seq<char> {
    content_line(
        m.style.border@,
        styled_string(replace_all(format, "{count}"@, decimal(count))),
        cols,
        false,
    )
}

/// `n` copies of a line.
pub open spec fn repeat_line(line: Seq<char>, n: nat) -> Seq<Seq<char>> {
    Seq::new(n, |i: int| line)
}

/// The lines of the pane: top padding, the "more above" indicator, the
/// visible entries, the "more below" indicator, then empty lines up to the
/// height.
pub open spec fn pane_lines(m: StateModel, rows: int, cols: int) -> Seq<Seq<char>> {
    let top = min_nat(m.style.padding_top as int, rows);
    let (start, end, above, below) = visible_range(
        m.sessions.len() as int,
        rows - top,
        focused_index(m) as int,
    );
    let blank = empty_line(m.style.border@, cols);
    let body = repeat_line(blank, top as nat) + (if above > 0 {
        seq![overflow_line(m, m.style.overflow_above@, above as nat, cols)]
    } else {
        Seq::empty()
    }) + session_lines(m, start, end, cols) + (if below > 0 {
        seq![overflow_line(m, m.style.overflow_below@, below as nat, cols)]
    } else {
        Seq::empty()
    });
    body + repeat_line(blank, sat_sub(rows, body.len() as int) as nat)
}

/// Lines as printed: each followed by an attribute reset, with a newline
/// between lines.
pub open spec fn printed(lines: Seq<Seq<char>>) -> Seq<char>
    decreases lines.len(),
{
    if lines.len() == 0 {
        Seq::empty()
    } else if lines.len() == 1 {
        lines[0] + "\x1b[m"@
    } else {
        printed(lines.drop_last()) + "\n"@ + lines.last() + "\x1b[m"@
    }
}

/// What rendering prints: nothing before the permissions are granted or
/// while there are no sessions, the pane's lines otherwise.
pub open spec fn rendered(m: StateModel, rows: int, cols: int) -> Seq<char> {
    if !m.permissions_granted || m.sessions.len() == 0 {
        Seq::empty()
    } else {
        printed(pane_lines(m, rows, cols))
    }
}

/// The largest number shown on a line fits in a `usize`: every listed
/// entry's index plus the configured first number.
pub open spec fn numbering_fits(m: StateModel, rows: int) -> bool {
    let top = min_nat(m.style.padding_top as int, rows);
    let (start, end, above, below) = visible_range(
        m.sessions.len() as int,
        rows - top,
        focused_index(m) as int,
    );
    let last = min_nat(end, m.sessions.len() as int);
    last <= start || last - 1 + m.style.start_index <= usize::MAX
}

impl State {
    /// An overflow indicator's text: `{count}` replaced by the number.
    pub fn expand_overflow_format(&self, format: &str, count: usize) -> (r: String)
        ensures
            r@ == replace_all(format@, "{count}"@, decimal(count as nat)),
    {
        proof {
            reveal_strlit("{count}");
        }
        let n = decimal_string(count);
        replace_str(format, "{count}", n.as_str())
    }

    fn indicators(&self, entry: &SessionEntry) -> (r: String)
        ensures
            r@ == indicators_of(self.style, *entry),
    {
        let mut indicators = String::new();
        match entry {
            SessionEntry::Live(info) => {
                if info.is_current_session {
                    indicators.append(self.style.indicator_active.as_str());
                }
                if info.connected_clients > 1 {
                    proof {
                        reveal_strlit("{n}");
                    }
                    let count = decimal_string(info.connected_clients);
                    let clients_str = replace_str(
                        self.style.indicator_clients.as_str(),
                        "{n}",
                        count.as_str(),
                    );
                    indicators.append(clients_str.as_str());
                }
            },
            SessionEntry::Resurrectable(_) => {},
        }
        indicators
    }

    pub fn variable_text(&self, entry: &SessionEntry, index: usize, name: &String) -> (r: String)
        ensures
            r@ == variable_value(self.style, *entry, index as nat, name@),
    {
        let n = crate::text::chars_of(name.as_str());
        let (tab_count, client_count) = match entry {
            SessionEntry::Live(info) => (info.tab_count, info.connected_clients),
            SessionEntry::Resurrectable(_) => (0usize, 0usize),
        };
        if crate::text::chars_eq_str(&n, "index") || crate::text::chars_eq_str(&n, "i") {
            decimal_string(index)
        } else if crate::text::chars_eq_str(&n, "name") || crate::text::chars_eq_str(&n, "n") {
            sanitize_terminal_text(entry.name())
        } else if crate::text::chars_eq_str(&n, "tabs") || crate::text::chars_eq_str(
            &n,
            "tab_count",
        ) {
            decimal_string(tab_count)
        } else if crate::text::chars_eq_str(&n, "clients") || crate::text::chars_eq_str(
            &n,
            "client_count",
        ) || crate::text::chars_eq_str(&n, "c") {
            decimal_string(client_count)
        } else if crate::text::chars_eq_str(&n, "indicators") {
            self.indicators(entry)
        } else if crate::text::chars_eq_str(&n, "active") {
            if entry.is_current() {
                self.style.indicator_active.clone()
            } else {
                String::new()
            }
        } else if crate::text::chars_eq_str(&n, "type") {
            if entry.is_resurrectable() {
                String::from_str("dead")
            } else {
                String::from_str("live")
            }
        } else {
            let mut t = String::new();
            t.append("{");
            t.append(name.as_str());
            t.append("}");
            t
        }
    }

    /// The styled text of an entry shown with number `index`, as
    /// [`expand`] states.
    pub fn expand_format(&self, format: &str, entry: &SessionEntry, index: usize) -> (r: StyledText)
        ensures
            r@ == expand(self.style, format@, *entry, index as nat),
    {
        let tokens = parse_tmux_format(format);
        let ghost tv = token_views(tokens@);
        let mut result = StyledText::new();
        let mut current_style = InlineStyle::default();
        let mut i: usize = 0;
        while i < tokens.len()
            invariant
                i <= tokens.len(),
                tv == token_views(tokens@),
                (result@, current_style) == expanded(self.style, *entry, index as nat, tv.take(i as int)),
            decreases tokens.len() - i,
        {
            assert(tv.take(i + 1).drop_last() =~= tv.take(i as int));
            assert(tv[i as int] == tokens@[i as int]@);
            match &tokens[i] {
                FormatToken::Style(style) => {
                    current_style = *style;
                },
                FormatToken::Variable { name, width } => {
                    let value = self.variable_text(entry, index, name);
                    let w = match width {
                        Some(w) => *w,
                        None => self.style.max_name_length,
                    };
                    let text = truncate_string(value.as_str(), w);
                    result.push(text, current_style);
                },
                FormatToken::Literal(text) => {
                    result.push(text.clone(), current_style);
                },
            }
            i += 1;
        }
        assert(tv.take(tokens.len() as int) =~= tv);
        result
    }

    /// A line showing `content`, as [`content_line`] states.
    pub fn build_line(&self, content: &StyledText, cols: usize, is_selected: bool) -> (r: String)
        ensures
            r@ == content_line(self.style.border@, content@, cols as int, is_selected),
    {
        let border = parse_styled_string(self.style.border.as_str());
        let border_width = border.display_width();
        let effective_cols = cols.saturating_sub(border_width);
        let content = content.truncate(effective_cols);
        let content_width = content.display_width();
        let padding_needed = effective_cols.saturating_sub(content_width);
        let mut line = String::new();
        let has_fill = is_selected && any_fill_exec(&content);
        if has_fill {
            line.append("\x1b[7m");
            let body = fill_text(&content);
            line.append(body.as_str());
            push_spaces(&mut line, padding_needed);
            line.append("\x1b[0m");
        } else {
            let text = content.to_ansi();
            line.append(text.as_str());
            push_spaces(&mut line, padding_needed);
        }
        if border_width > 0 {
            let b = border.to_ansi();
            line.append(b.as_str());
        }
        line
    }

    /// A line with no content, as [`empty_line`] states.
    pub fn build_empty_line(&self, cols: usize) -> (r: String)
        ensures
            r@ == empty_line(self.style.border@, cols as int),
    {
        let border = parse_styled_string(self.style.border.as_str());
        let border_width = border.display_width();
        if border_width == 0 {
            return crate::text::repeat_string(' ', cols);
        }
        let effective_cols = cols.saturating_sub(border_width);
        let mut line = String::new();
        push_spaces(&mut line, effective_cols);
        let b = border.to_ansi();
        line.append(b.as_str());
        line
    }
}

/// Whether some segment asks for `fill`.
fn any_fill_exec(t: &StyledText) -> (b: bool)
    ensures
        b == any_fill(t@),
{
    let mut i: usize = 0;
    while i < t.segments.len()
        invariant
            i <= t.segments.len(),
            forall|k: int| 0 <= k < i ==> !(#[trigger] t@[k]).1.fill,
        decreases t.segments.len() - i,
    {
        assert(t@[i as int] == t.segments@[i as int]@);
        if t.segments[i].style.fill {
            return true;
        }
        i += 1;
    }
    false
}

/// The segments of a highlighted line, as [`fill_code`] states.
fn fill_text(t: &StyledText) -> (r: String)
    ensures
        r@ == fill_code(t@),
{
    let mut out = String::new();
    let mut i: usize = 0;
    while i < t.segments.len()
        invariant
            i <= t.segments.len(),
            out@ == fill_code(t@.take(i as int)),
        decreases t.segments.len() - i,
    {
        let segment = &t.segments[i];
        assert(t@.take(i + 1).drop_last() =~= t@.take(i as int));
        assert(t@.take(i + 1).last() == segment@);
        let mut swapped_style = segment.style;
        let fg = swapped_style.fg;
        swapped_style.fg = swapped_style.bg;
        swapped_style.bg = fg;
        swapped_style.fill = false;
        assert(swapped_style == swapped(segment.style));
        if swapped_style.has_any_style() {
            out.append("\x1b[0m\x1b[7m");
            let code = swapped_style.to_ansi();
            out.append(code.as_str());
        }
        out.append(segment.text.as_str());
        i += 1;
    }
    assert(t@.take(t.segments.len() as int) =~= t@);
    out
}

impl State {
    /// The line of entry `i`, as [`session_line`] states.
    fn session_line_exec(&self, i: usize, cols: usize) -> (r: String)
        requires
            i < self@.sessions.len(),
            i + self@.style.start_index <= usize::MAX,
        ensures
            r@ == session_line(self@, i as int, cols as int),
    {
        let entry = &self.sessions[i];
        let is_current = entry.is_current();
        let is_selected = match self.selected_session_idx {
            Some(s) => s == i,
            None => false,
        };
        let format = if is_selected {
            &self.style.format_selected
        } else if is_current {
            &self.style.format_active
        } else if entry.is_resurrectable() {
            &self.style.format_resurrectable
        } else {
            &self.style.format
        };
        let styled = self.expand_format(format.as_str(), entry, i + self.style.start_index);
        self.build_line(&styled, cols, is_current || is_selected)
    }

    /// The lines of the entries `start..end` that exist, as
    /// [`session_lines`] states.
    fn session_lines_exec(&self, start: usize, end: usize, cols: usize) -> (r: Vec<String>)
        requires
            start <= end,
            min_nat(end as int, self@.sessions.len() as int) <= start || min_nat(
                end as int,
                self@.sessions.len() as int,
            ) - 1 + self@.style.start_index <= usize::MAX,
        ensures
            r.deep_view() == session_lines(self@, start as int, end as int, cols as int),
    {
        let mut lines: Vec<String> = Vec::new();
        let mut i = start;
        while i < end
            invariant
                start <= i <= end,
                min_nat(end as int, self@.sessions.len() as int) <= start || min_nat(
                    end as int,
                    self@.sessions.len() as int,
                ) - 1 + self@.style.start_index <= usize::MAX,
                lines.deep_view() == session_lines(self@, start as int, i as int, cols as int),
            decreases end - i,
        {
            let ghost before = lines.deep_view();
            if i < self.sessions.len() {
                let line = self.session_line_exec(i, cols);
                let ghost lv = line@;
                lines.push(line);
                assert(lines.deep_view() =~= before.push(lv));
            } else {
                assert(lines.deep_view() =~= before);
            }
            assert(session_lines(self@, start as int, i + 1, cols as int) == session_lines(
                self@,
                start as int,
                i as int,
                cols as int,
            ) + if i < self@.sessions.len() {
                seq![session_line(self@, i as int, cols as int)]
            } else {
                Seq::<Seq<char>>::empty()
            });
            i += 1;
        }
        lines
    }

    /// The lines of the pane, as [`pane_lines`] states.
    pub fn pane_lines_exec(&self, rows: usize, cols: usize) -> (r: Vec<String>)
        requires
            model_wf(self@),
            numbering_fits(self@, rows as int),
        ensures
            r.deep_view() == pane_lines(self@, rows as int, cols as int),
    {
        let top_padding = if self.style.padding_top <= rows {
            self.style.padding_top
        } else {
            rows
        };
        let available_rows = rows - top_padding;
        let session_count = self.sessions.len();
        let focused_index = match self.selected_session_idx {
            Some(s) => s,
            None => self.active_session_idx,
        };
        let (start_index, end_index, sessions_above, sessions_below) = calculate_visible_range(
            session_count,
            available_rows,
            focused_index,
        );
        let blank = self.build_empty_line(cols);
        let mut lines: Vec<String> = Vec::new();
        let mut k: usize = 0;
        while k < top_padding
            invariant
                k <= top_padding,
                lines.deep_view() == repeat_line(blank@, k as nat),
            decreases top_padding - k,
        {
            let ghost before = lines.deep_view();
            let copy = blank.clone();
            lines.push(copy);
            assert(lines.deep_view() =~= before.push(blank@));
            assert(lines.deep_view() =~= repeat_line(blank@, (k + 1) as nat));
            k += 1;
        }
        let ghost part1 = lines.deep_view();
        if sessions_above > 0 {
            let indicator_text = self.expand_overflow_format(
                self.style.overflow_above.as_str(),
                sessions_above,
            );
            let styled = parse_styled_string(indicator_text.as_str());
            let line = self.build_line(&styled, cols, false);
            lines.push(line);
        }
        let ghost part2 = lines.deep_view();
        assert(part2 =~= part1 + (if sessions_above > 0 {
            seq![overflow_line(self@, self@.style.overflow_above@, sessions_above as nat, cols as int)]
        } else {
            Seq::<Seq<char>>::empty()
        }));
        let mut middle = self.session_lines_exec(start_index, end_index, cols);
        lines.append(&mut middle);
        let ghost part3 = lines.deep_view();
        assert(part3 =~= part2 + session_lines(
            self@,
            start_index as int,
            end_index as int,
            cols as int,
        ));
        if sessions_below > 0 {
            let indicator_text = self.expand_overflow_format(
                self.style.overflow_below.as_str(),
                sessions_below,
            );
            let styled = parse_styled_string(indicator_text.as_str());
            let line = self.build_line(&styled, cols, false);
            lines.push(line);
        }
        let ghost body = lines.deep_view();
        assert(body =~= part3 + (if sessions_below > 0 {
            seq![overflow_line(self@, self@.style.overflow_below@, sessions_below as nat, cols as int)]
        } else {
            Seq::<Seq<char>>::empty()
        }));
        let mut extra: usize = 0;
        while lines.len() < rows
            invariant
                lines.deep_view() == body + repeat_line(blank@, extra as nat),
                lines@.len() == body.len() + extra,
                extra == 0 || body.len() + extra <= rows,
            decreases rows - lines.len(),
        {
            let ghost before = lines.deep_view();
            let copy = blank.clone();
            lines.push(copy);
            assert(lines.deep_view() =~= before.push(blank@));
            assert(lines.deep_view() =~= body + repeat_line(blank@, (extra + 1) as nat));
            extra += 1;
        }
        assert(extra == sat_sub(rows as int, body.len() as int));
        lines
    }

    /// The pane as printed, as [`printed`] and [`pane_lines`] state.
    pub fn render_vertical(&self, rows: usize, cols: usize) -> (r: String)
        requires
            model_wf(self@),
            numbering_fits(self@, rows as int),
        ensures
            r@ == printed(pane_lines(self@, rows as int, cols as int)),
    {
        let lines = self.pane_lines_exec(rows, cols);
        join_printed(&lines)
    }

    /// Whether the numbers of the listed entries fit, as
    /// [`numbering_fits`] states.
    pub fn numbering_fits(&self, rows: usize) -> (b: bool)
        requires
            model_wf(self@),
        ensures
            b == numbering_fits(self@, rows as int),
    {
        let top_padding = if self.style.padding_top <= rows {
            self.style.padding_top
        } else {
            rows
        };
        let focused_index = match self.selected_session_idx {
            Some(s) => s,
            None => self.active_session_idx,
        };
        let (start, end, _, _) = calculate_visible_range(
            self.sessions.len(),
            rows - top_padding,
            focused_index,
        );
        let last = if end <= self.sessions.len() {
            end
        } else {
            self.sessions.len()
        };
        last <= start || last - 1 <= usize::MAX - self.style.start_index
    }

    /// Renders the pane at `rows` by `cols` and remembers its height, as
    /// [`rendered`] states.
    pub fn render(&mut self, rows: usize, cols: usize) -> (r: String)
        requires
            model_wf(old(self)@),
            old(self).permissions_granted && old(self).sessions.len() > 0 ==> numbering_fits(
                old(self)@,
                rows as int,
            ),
        ensures
            model_wf(final(self)@),
            final(self)@ == (StateModel { last_rows: rows, ..old(self)@ }),
            r@ == rendered(old(self)@, rows as int, cols as int),
    {
        let out = if !self.permissions_granted || self.sessions.len() == 0 {
            String::new()
        } else {
            self.render_vertical(rows, cols)
        };
        self.last_rows = rows;
        assert(self@ =~= (StateModel { last_rows: rows, ..old(self)@ }));
        out
    }
}

/// Lines as printed, as [`printed`] states.
fn join_printed(lines: &Vec<String>) -> (r: String)
    ensures
        r@ == printed(lines.deep_view()),
{
    let ghost lv = lines.deep_view();
    let mut out = String::new();
    let mut i: usize = 0;
    while i < lines.len()
        invariant
            i <= lines.len(),
            lv == lines.deep_view(),
            out@ == printed(lv.take(i as int)),
        decreases lines.len() - i,
    {
        assert(lv.take(i + 1).drop_last() =~= lv.take(i as int));
        assert(lv[i as int] == lines@[i as int]@);
        if i > 0 {
            out.append("\n");
        }
        out.append(lines[i].as_str());
        out.append("\x1b[m");
        proof {
            if i == 0 {
                assert(out@ =~= lv.take(1)[0] + "\x1b[m"@);
            }
        }
        i += 1;
    }
    assert(lv.take(lines.len() as int) =~= lv);
    out
}

proof fn lemma_session_lines_len(m: StateModel, from: int, to: int, cols: int)
    requires
        from <= to,
    ensures
        session_lines(m, from, to, cols).len() <= to - from,
    decreases to - from,
{
    if from < to {
        lemma_session_lines_len(m, from, to - 1, cols);
    }
}

/// Entry `i` of a run of existing entries has its line at `i - from`.
proof fn lemma_session_lines_index(m: StateModel, from: int, to: int, i: int, cols: int)
    requires
        0 <= from <= i < to,
        i < m.sessions.len(),
    ensures
        session_lines(m, from, to, cols).len() > i - from,
        session_lines(m, from, to, cols)[i - from] == session_line(m, i, cols),
    decreases to - from,
{
    if to - 1 > i {
        lemma_session_lines_index(m, from, to - 1, i, cols);
    } else {
        assert(to - 1 == i);
        lemma_session_lines_full(m, from, i, cols);
    }
}

/// A run of existing entries has one line per entry.
proof fn lemma_session_lines_full(m: StateModel, from: int, to: int, cols: int)
    requires
        0 <= from <= to <= m.sessions.len(),
    ensures
        session_lines(m, from, to, cols).len() == to - from,
    decreases to - from,
{
    if from < to {
        lemma_session_lines_full(m, from, to - 1, cols);
    }
}

/// The pane is exactly `rows` lines tall whenever the top padding leaves
/// at least one row (or there is no session): overflow indicators take
/// the place of hidden entries and empty lines fill what is left.
pub proof fn lemma_pane_height(m: StateModel, rows: int, cols: int)
    requires
        model_wf(m),
        rows >= 0,
        m.style.padding_top < rows || m.sessions.len() == 0,
    ensures
        pane_lines(m, rows, cols).len() == rows,
{
    let top = min_nat(m.style.padding_top as int, rows);
    let (start, end, above, below) = visible_range(
        m.sessions.len() as int,
        rows - top,
        focused_index(m) as int,
    );
    lemma_visible_range_fits(m.sessions.len() as int, rows - top, focused_index(m) as int);
    lemma_session_lines_len(m, start, end, cols);
}

/// What a click on a row picks is what rendering drew there: the line at
/// the row of a listed entry is that entry's line, and a click on that row
/// names that entry.
pub proof fn lemma_click_matches_render(m: StateModel, i: int, cols: int)
    requires
        model_wf(m),
        m.style.padding_top < m.last_rows,
        0 <= i < m.sessions.len(),
        ({
            let top = min_nat(m.style.padding_top as int, m.last_rows as int);
            let (start, end, above, below) = visible_range(
                m.sessions.len() as int,
                m.last_rows - top,
                focused_index(m) as int,
            );
            start <= i < end
        }),
    ensures
        ({
            let top = min_nat(m.style.padding_top as int, m.last_rows as int);
            let (start, end, above, below) = visible_range(
                m.sessions.len() as int,
                m.last_rows - top,
                focused_index(m) as int,
            );
            let row = top + (if above > 0 {
                1int
            } else {
                0
            }) + (i - start);
            &&& session_at_row(m, row) == Some(i)
            &&& 0 <= row < pane_lines(m, m.last_rows as int, cols).len()
            &&& pane_lines(m, m.last_rows as int, cols)[row] == session_line(m, i, cols)
        }),
{
    let rows = m.last_rows as int;
    let top = min_nat(m.style.padding_top as int, rows);
    lemma_visible_range_fits(m.sessions.len() as int, rows - top, focused_index(m) as int);
    lemma_entry_line(m, rows, i, cols);
}

/// A built line is exactly `cols` columns wide: when the widths of the
/// content add up character by character (and their sum fits in a machine
/// word), the content is cut to the room that the border leaves, never
/// wrapped, and the padding spaces fill that room to its last column; the
/// room and the border together take `cols` columns whenever the border
/// fits.
pub proof fn lemma_line_fits(border: Seq<char>, content: Seq<SegmentView>, cols: int)
    requires
        0 <= cols <= usize::MAX,
        sum_width(content) <= usize::MAX,
        segment_widths_add_up(content),
    ensures
        ({
            let bw = total_width(styled_string(border)) as int;
            let room = sat_sub(cols, bw);
            let c = truncated(content, room);
            &&& total_width(c) <= room
            &&& total_width(c) + sat_sub(room, total_width(c) as int) == room
            &&& bw <= cols ==> room + bw == cols
        }),
{
    let bw = total_width(styled_string(border)) as int;
    lemma_truncated_fits(content, sat_sub(cols, bw));
}

/// The line drawn for a listed entry, at any height that leaves a row
/// below the top padding, is that entry's [`session_line`]: its format
/// chosen by selection, current session and kind, its number counted from
/// the configured first number, highlighted when current or selected. It
/// stands after the top padding and the "more above" indicator, in list
/// order.
pub proof fn lemma_entry_line(m: StateModel, rows: int, i: int, cols: int)
    requires
        model_wf(m),
        m.style.padding_top < rows,
        0 <= i < m.sessions.len(),
        ({
            let top = min_nat(m.style.padding_top as int, rows);
            let (start, end, above, below) = visible_range(
                m.sessions.len() as int,
                rows - top,
                focused_index(m) as int,
            );
            start <= i < end
        }),
    ensures
        ({
            let top = min_nat(m.style.padding_top as int, rows);
            let (start, end, above, below) = visible_range(
                m.sessions.len() as int,
                rows - top,
                focused_index(m) as int,
            );
            let row = top + (if above > 0 {
                1int
            } else {
                0
            }) + (i - start);
            &&& 0 <= row < pane_lines(m, rows, cols).len()
            &&& pane_lines(m, rows, cols)[row] == session_line(m, i, cols)
        }),
{
    let top = min_nat(m.style.padding_top as int, rows);
    let (start, end, above, below) = visible_range(
        m.sessions.len() as int,
        rows - top,
        focused_index(m) as int,
    );
    lemma_visible_range_fits(m.sessions.len() as int, rows - top, focused_index(m) as int);
    lemma_session_lines_index(m, start, end, i, cols);
    lemma_session_lines_len(m, start, end, cols);
    lemma_pane_height(m, rows, cols);
    let blank = empty_line(m.style.border@, cols);
    let head = repeat_line(blank, top as nat) + (if above > 0 {
        seq![overflow_line(m, m.style.overflow_above@, above as nat, cols)]
    } else {
        Seq::empty()
    });
    let row = top + (if above > 0 {
        1int
    } else {
        0
    }) + (i - start);
    assert(head.len() == row - (i - start));
    let body = head + session_lines(m, start, end, cols) + (if below > 0 {
        seq![overflow_line(m, m.style.overflow_below@, below as nat, cols)]
    } else {
        Seq::empty()
    });
    assert(body[row] == session_lines(m, start, end, cols)[i - start]);
    assert(pane_lines(m, rows, cols) == body + repeat_line(
        blank,
        sat_sub(rows, body.len() as int) as nat,
    ));
}

/// The line of an entry is highlighted exactly when the entry is the
/// current session or the keyboard selection: its content, cut to the room
/// that the border leaves, is drawn in reverse video when it asks for
/// `fill` and the entry is current or selected, and never otherwise. So the
/// current session's line is highlighted whether or not it is selected.
pub proof fn lemma_entry_highlight(m: StateModel, i: int, cols: int)
    requires
        0 <= i < m.sessions.len(),
    ensures
        ({
            let e = m.sessions[i];
            let is_selected = m.selected_session_idx == Some(i as usize);
            let content = expand(
                m.style,
                format_of(m.style, e, is_selected),
                e,
                (i + m.style.start_index) as nat,
            );
            let b = styled_string(m.style.border@);
            let room = sat_sub(cols, total_width(b) as int);
            let c = truncated(content, room);
            let line = session_line(m, i, cols);
            &&& entry_is_current(e) || is_selected ==> line == content_line(
                m.style.border@,
                content,
                cols,
                true,
            )
            &&& !entry_is_current(e) && !is_selected ==> line == content_line(
                m.style.border@,
                content,
                cols,
                false,
            )
            &&& (entry_is_current(e) || is_selected) && any_fill(c) ==> has_prefix(
                line,
                "\x1b[7m"@,
            )
            &&& !(entry_is_current(e) || is_selected) ==> line == text_code(c) + spaces(
                sat_sub(room, total_width(c) as int) as nat,
            ) + (if total_width(b) > 0 {
                text_code(b)
            } else {
                Seq::empty()
            })
        }),
{
    let e = m.sessions[i];
    let is_selected = m.selected_session_idx == Some(i as usize);
    let line = session_line(m, i, cols);
    reveal_strlit("\x1b[7m");
    let b = styled_string(m.style.border@);
    let room = sat_sub(cols, total_width(b) as int);
    let content = expand(
        m.style,
        format_of(m.style, e, is_selected),
        e,
        (i + m.style.start_index) as nat,
    );
    let c = truncated(content, room);
    if (entry_is_current(e) || is_selected) && any_fill(c) {
        assert(line.take(4) =~= "\x1b[7m"@);
    }
}

} // verus!
