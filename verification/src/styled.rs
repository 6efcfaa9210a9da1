//! Styled text: runs of text, each with colours and attributes, measured
//! in terminal columns, rendered to ANSI escape codes and cut to a width.

use vstd::prelude::*;
use vstd::wrapping::usize_specs::wrapping_add;
use crate::color::{bg_code, fg_code, ColorSpec};
use crate::text::{chars_of, push_char, repeat_char, repeat_string};
use crate::width::{str_width, text_width};

verus! {

/// Colours and attributes of a run of text.
#[derive(Debug, Clone, Copy, PartialEq, Eq, Structural)]
pub struct InlineStyle {
    pub fg: ColorSpec,
    pub bg: ColorSpec,
    pub bold: bool,
    pub dim: bool,
    /// Highlight the whole line when the entry is selected.
    pub fill: bool,
}

/// The plain style: default colours, no attributes.
pub open spec fn plain_style() -> InlineStyle {
    InlineStyle {
        fg: ColorSpec::Default,
        bg: ColorSpec::Default,
        bold: false,
        dim: false,
        fill: false,
    }
}

impl Default for InlineStyle {
    fn default() -> (r: Self)
        ensures
            r == plain_style(),
    {
        InlineStyle {
            fg: ColorSpec::Default,
            bg: ColorSpec::Default,
            bold: false,
            dim: false,
            fill: false,
        }
    }
}

/// Whether a style differs from the plain style.
pub open spec fn styled(s: InlineStyle) -> bool {
    s.fg != ColorSpec::Default || s.bg != ColorSpec::Default || s.bold || s.dim || s.fill
}

/// The escape codes that switch a style on.
pub open spec fn style_code(s: InlineStyle) -> Seq<char> {
    (if s.bold {
        "\x1b[1m"@
    } else {
        Seq::empty()
    }) + (if s.dim {
        "\x1b[2m"@
    } else {
        Seq::empty()
    }) + fg_code(s.fg) + bg_code(s.bg)
}

impl InlineStyle {
    /// The escape codes that switch this style on.
    pub fn to_ansi(&self) -> (r: String)
        ensures
            r@ == style_code(*self),
    {
        let mut result = String::new();
        if self.bold {
            result.append("\x1b[1m");
        }
        if self.dim {
            result.append("\x1b[2m");
        }
        let fg = self.fg.to_ansi_fg();
        result.append(fg.as_str());
        let bg = self.bg.to_ansi_bg();
        result.append(bg.as_str());
        result
    }

    pub fn has_any_style(&self) -> (b: bool)
        ensures
            b == styled(*self),
    {
        !self.fg.is_default() || !self.bg.is_default() || self.bold || self.dim || self.fill
    }
}

/// A run of text in one style.
#[derive(Debug)]
pub struct StyledSegment {
    pub text: String,
    pub style: InlineStyle,
}

/// A segment as a value: its characters and its style.
pub type SegmentView = (Seq<char>, InlineStyle);

impl View for StyledSegment {
    type V = SegmentView;

    open spec fn view(&self) -> SegmentView {
        (self.text@, self.style)
    }
}

impl StyledSegment {
    /// The columns that the text of this segment takes.
    pub fn display_width(&self) -> (w: usize)
        ensures
            w == text_width(self.text@),
    {
        str_width(self.text.as_str())
    }

    /// A copy of this segment.
    pub fn duplicate(&self) -> (r: StyledSegment)
        ensures
            r@ == self@,
    {
        StyledSegment { text: self.text.clone(), style: self.style }
    }
}

/// A line of text made of styled runs.
#[derive(Debug)]
pub struct StyledText {
    pub segments: Vec<StyledSegment>,
}

/// The segments as values.
pub open spec fn seg_views(v: Seq<StyledSegment>) -> Seq<SegmentView> {
    Seq::new(v.len(), |i: int| v[i]@)
}

impl View for StyledText {
    type V = Seq<SegmentView>;

    open spec fn view(&self) -> Seq<SegmentView> {
        seg_views(self.segments@)
    }
}

/// Sum of the widths of the segments' texts, taken modulo the machine word
/// as `Iterator::sum` does in a release build.
pub open spec fn total_width(segs: Seq<SegmentView>) -> usize
    decreases segs.len(),
{
    if segs.len() == 0 {
        0
    } else {
        wrapping_add(total_width(segs.drop_last()), text_width(segs.last().0))
    }
}

/// The escape codes and text of the segments, each styled one preceded by a
/// reset and its own codes.
pub open spec fn segments_code(segs: Seq<SegmentView>) -> Seq<char>
    decreases segs.len(),
{
    if segs.len() == 0 {
        Seq::empty()
    } else {
        let last = segs.last();
        segments_code(segs.drop_last()) + (if styled(last.1) {
            "\x1b[0m"@ + style_code(last.1)
        } else {
            Seq::empty()
        }) + last.0
    }
}

/// Whether some segment has a style.
pub open spec fn any_styled(segs: Seq<SegmentView>) -> bool {
    exists|i: int| 0 <= i < segs.len() && styled(#[trigger] segs[i].1)
}

/// The full rendering of styled text: the segments, then a reset if any
/// style was switched on.
pub open spec fn text_code(segs: Seq<SegmentView>) -> Seq<char> {
    segments_code(segs) + if any_styled(segs) {
        "\x1b[0m"@
    } else {
        Seq::empty()
    }
}

/// A segment kept only when its text is not empty.
pub open spec fn keep_nonempty(seg: SegmentView) -> Seq<SegmentView> {
    if seg.0.len() == 0 {
        Seq::empty()
    } else {
        seq![seg]
    }
}

/// The longest prefix of `cs` whose characters, measured one by one,
/// fit in `room` columns.
pub open spec fn fit_chars(cs: Seq<char>, room: int) -> Seq<char>
    decreases cs.len(),
{
    if cs.len() == 0 {
        Seq::empty()
    } else if text_width(seq![cs[0]]) > room {
        Seq::empty()
    } else {
        seq![cs[0]] + fit_chars(cs.drop_first(), room - text_width(seq![cs[0]]))
    }
}

/// The segments that fit in `room` columns: whole segments while they fit,
/// then the part of the next one that fits, character by character.
pub open spec fn cut_segments(segs: Seq<SegmentView>, room: int) -> Seq<SegmentView>
    decreases segs.len(),
{
    if segs.len() == 0 || room == 0 {
        Seq::empty()
    } else if text_width(segs[0].0) <= room {
        keep_nonempty(segs[0]) + cut_segments(segs.drop_first(), room - text_width(segs[0].0))
    } else {
        keep_nonempty((fit_chars(segs[0].0, room), segs[0].1))
    }
}

/// Styled text cut to `max` columns; text that fits is kept as it is.
pub open spec fn truncated(segs: Seq<SegmentView>, max: int) -> Seq<SegmentView> {
    if total_width(segs) <= max {
        segs
    } else {
        cut_segments(segs, max)
    }
}

/// The width of a single character as a one-character string.
fn char_width(c: char) -> (w: usize)
    ensures
        w == text_width(seq![c]),
        w <= 3,
{
    let mut one = String::new();
    push_char(&mut one, c);
    assert(one@ =~= seq![c]);
    str_width(one.as_str())
}

impl StyledText {
    pub fn new() -> (r: Self)
        ensures
            r@ == Seq::<SegmentView>::empty(),
    {
        StyledText { segments: Vec::new() }
    }

    /// Adds a run of text; empty text adds nothing.
    pub fn push(&mut self, text: String, style: InlineStyle)
        ensures
            final(self)@ == old(self)@ + keep_nonempty((text@, style)),
    {
        if !text.as_str().is_empty() {
            let ghost tv = text@;
            self.segments.push(StyledSegment { text, style });
            assert(self@ =~= old(self)@ + keep_nonempty((tv, style)));
        } else {
            assert(self@ =~= old(self)@ + keep_nonempty((text@, style)));
        }
    }

    /// A copy of this text.
    pub fn duplicate(&self) -> (r: StyledText)
        ensures
            r@ == self@,
    {
        let mut segs: Vec<StyledSegment> = Vec::new();
        let mut i: usize = 0;
        while i < self.segments.len()
            invariant
                i <= self.segments.len(),
                segs@.len() == i,
                seg_views(segs@) == self@.take(i as int),
            decreases self.segments.len() - i,
        {
            let ghost before = segs@;
            let seg = self.segments[i].duplicate();
            segs.push(seg);
            assert forall|k: int| 0 <= k <= i implies #[trigger] seg_views(segs@)[k] == self@.take(
                i + 1,
            )[k] by {
                if k < i {
                    assert(segs@[k] == before[k]);
                    assert(seg_views(before)[k] == self@.take(i as int)[k]);
                }
            }
            assert(seg_views(segs@) =~= self@.take(i + 1));
            i += 1;
        }
        assert(self@.take(self.segments.len() as int) =~= self@);
        StyledText { segments: segs }
    }

    /// The columns that the whole text takes.
    pub fn display_width(&self) -> (w: usize)
        ensures
            w == total_width(self@),
    {
        let mut total: usize = 0;
        let mut i: usize = 0;
        while i < self.segments.len()
            invariant
                i <= self.segments.len(),
                total == total_width(self@.take(i as int)),
            decreases self.segments.len() - i,
        {
            let w = self.segments[i].display_width();
            assert(self@.take(i + 1).drop_last() =~= self@.take(i as int));
            total = total.wrapping_add(w);
            i += 1;
        }
        assert(self@.take(self.segments.len() as int) =~= self@);
        total
    }

    /// The text with its escape codes, as [`text_code`] states.
    pub fn to_ansi(&self) -> (r: String)
        ensures
            r@ == text_code(self@),
    {
        let mut result = String::new();
        let mut any = false;
        let mut i: usize = 0;
        while i < self.segments.len()
            invariant
                i <= self.segments.len(),
                result@ == segments_code(self@.take(i as int)),
                any == any_styled(self@.take(i as int)),
            decreases self.segments.len() - i,
        {
            let segment = &self.segments[i];
            let ghost prefix = self@.take(i + 1);
            assert(prefix.drop_last() =~= self@.take(i as int));
            assert(prefix.last() == segment@);
            if segment.style.has_any_style() {
                result.append("\x1b[0m");
                let code = segment.style.to_ansi();
                result.append(code.as_str());
                any = true;
                assert(styled(prefix[i as int].1));
            } else {
                assert forall|k: int| 0 <= k < prefix.len() && styled(#[trigger] prefix[k].1)
                    implies k < i by {}
            }
            result.append(segment.text.as_str());
            proof {
                if any_styled(self@.take(i as int)) {
                    let k = choose|k: int|
                        0 <= k < i && styled(#[trigger] self@.take(i as int)[k].1);
                    assert(prefix[k] == self@.take(i as int)[k]);
                }
                if any_styled(prefix) && !styled(segment.style) {
                    let k = choose|k: int| 0 <= k < prefix.len() && styled(#[trigger] prefix[k].1);
                    assert(self@.take(i as int)[k] == prefix[k]);
                }
            }
            i += 1;
        }
        assert(self@.take(self.segments.len() as int) =~= self@);
        if any {
            result.append("\x1b[0m");
        }
        result
    }

    /// The text cut to `max_width` columns, as [`truncated`] states.
    pub fn truncate(&self, max_width: usize) -> (r: StyledText)
        ensures
            r@ == truncated(self@, max_width as int),
    {
        if self.display_width() <= max_width {
            return self.duplicate();
        }
        let mut result = StyledText::new();
        let mut remaining = max_width;
        let mut i: usize = 0;
        assert(self@.skip(0) =~= self@);
        assert(result@ + cut_segments(self@, max_width as int) =~= cut_segments(
            self@,
            max_width as int,
        ));
        while i < self.segments.len()
            invariant_except_break
                i <= self.segments.len(),
                result@ + cut_segments(self@.skip(i as int), remaining as int) == cut_segments(
                    self@,
                    max_width as int,
                ),
            ensures
                result@ == cut_segments(self@, max_width as int),
            decreases self.segments.len() - i,
        {
            let ghost rest = self@.skip(i as int);
            assert(rest[0] == self.segments@[i as int]@);
            if remaining == 0 {
                assert(result@ + Seq::<SegmentView>::empty() =~= result@);
                break;
            }
            let segment = &self.segments[i];
            let seg_width = segment.display_width();
            if seg_width <= remaining {
                let text = segment.text.clone();
                result.push(text, segment.style);
                remaining -= seg_width;
                assert(rest.drop_first() =~= self@.skip(i + 1));
                assert(result@ + cut_segments(self@.skip(i + 1), remaining as int) =~= cut_segments(
                    self@,
                    max_width as int,
                ));
                i += 1;
            } else {
                let cs = chars_of(segment.text.as_str());
                let mut truncated_text = String::new();
                let mut width: usize = 0;
                let mut j: usize = 0;
                assert(cs@.skip(0) =~= cs@);
                assert(truncated_text@ + fit_chars(cs@, remaining as int) =~= fit_chars(
                    cs@,
                    remaining as int,
                ));
                while j < cs.len()
                    invariant_except_break
                        j <= cs.len(),
                        width <= remaining,
                        truncated_text@ + fit_chars(cs@.skip(j as int), remaining - width)
                            == fit_chars(cs@, remaining as int),
                    ensures
                        truncated_text@ == fit_chars(cs@, remaining as int),
                    decreases cs.len() - j,
                {
                    let ch = cs[j];
                    let ch_width = char_width(ch);
                    assert(cs@.skip(j as int)[0] == ch);
                    if ch_width > remaining - width {
                        assert(truncated_text@ + Seq::<char>::empty() =~= truncated_text@);
                        break;
                    }
                    push_char(&mut truncated_text, ch);
                    width += ch_width;
                    assert(cs@.skip(j as int).drop_first() =~= cs@.skip(j + 1));
                    assert(truncated_text@ + fit_chars(cs@.skip(j + 1), remaining - width)
                        =~= fit_chars(cs@, remaining as int));
                    j += 1;
                }
                proof {
                    if j == cs.len() {
                        assert(cs@.skip(j as int) =~= Seq::<char>::empty());
                        assert(truncated_text@ + Seq::<char>::empty() =~= truncated_text@);
                    }
                }
                result.push(truncated_text, segment.style);
                break;
            }
        }
        proof {
            if i == self.segments.len() {
                assert(self@.skip(i as int) =~= Seq::<SegmentView>::empty());
            }
        }
        result
    }
}

/// `s` cut to `max` columns: kept when it fits, otherwise as many
/// characters as leave room for `...`, followed by `...`; when `max` is at
/// most 3 the result is `max` dots.
pub open spec fn truncated_string(s: Seq<char>, max: int) -> Seq<char> {
    if text_width(s) <= max {
        s
    } else if max <= 3 {
        repeat_char('.', max as nat)
    } else {
        ellipsize(s, max - 3)
    }
}

/// The characters of `cs` that fit in `room` columns, measured one by one,
/// followed by `...` when some do not fit.
pub open spec fn ellipsize(cs: Seq<char>, room: int) -> Seq<char>
    decreases cs.len(),
{
    if cs.len() == 0 {
        Seq::empty()
    } else if text_width(seq![cs[0]]) > room {
        "..."@
    } else {
        seq![cs[0]] + ellipsize(cs.drop_first(), room - text_width(seq![cs[0]]))
    }
}

/// Cuts `s` to `max_width` columns, as [`truncated_string`] states.
pub fn truncate_string(s: &str, max_width: usize) -> (r: String)
    ensures
        r@ == truncated_string(s@, max_width as int),
{
    if str_width(s) <= max_width {
        return String::from_str(s);
    }
    if max_width <= 3 {
        return repeat_string('.', max_width);
    }
    let cs = chars_of(s);
    let mut truncated = String::new();
    let mut width: usize = 0;
    let room = max_width - 3;
    let mut j: usize = 0;
    assert(cs@.skip(0) =~= cs@);
    assert(truncated@ + ellipsize(cs@, room as int) =~= ellipsize(cs@, room as int));
    while j < cs.len()
        invariant_except_break
            j <= cs.len(),
            width <= room,
            room == max_width - 3,
            truncated@ + ellipsize(cs@.skip(j as int), room - width) == ellipsize(cs@, room as int),
        ensures
            truncated@ == ellipsize(cs@, room as int),
        decreases cs.len() - j,
    {
        let ch = cs[j];
        let ch_width = char_width(ch);
        assert(cs@.skip(j as int)[0] == ch);
        if ch_width > room - width {
            truncated.append("...");
            break;
        }
        push_char(&mut truncated, ch);
        width += ch_width;
        assert(cs@.skip(j as int).drop_first() =~= cs@.skip(j + 1));
        assert(truncated@ + ellipsize(cs@.skip(j + 1), room - width) =~= ellipsize(
            cs@,
            room as int,
        ));
        j += 1;
    }
    proof {
        if j == cs.len() {
            assert(cs@.skip(j as int) =~= Seq::<char>::empty());
            assert(truncated@ + Seq::<char>::empty() =~= truncated@);
        }
    }
    truncated
}

/// The columns that `cs` takes, measured character by character.
pub open spec fn chars_width(cs: Seq<char>) -> int
    decreases cs.len(),
{
    if cs.len() == 0 {
        0
    } else {
        text_width(seq![cs[0]]) + chars_width(cs.drop_first())
    }
}

/// Text cut to a room of columns fits in it, measured character by
/// character, is a prefix of the uncut text, and is the longest such
/// prefix: one more character would not fit.
pub proof fn lemma_fit_chars(cs: Seq<char>, room: int)
    requires
        room >= 0,
    ensures
        chars_width(fit_chars(cs, room)) <= room,
        fit_chars(cs, room).len() <= cs.len(),
        fit_chars(cs, room) == cs.take(fit_chars(cs, room).len() as int),
        fit_chars(cs, room).len() < cs.len() ==> chars_width(
            cs.take(fit_chars(cs, room).len() as int + 1),
        ) > room,
    decreases cs.len(),
{
    if cs.len() > 0 && text_width(seq![cs[0]]) <= room {
        lemma_fit_chars(cs.drop_first(), room - text_width(seq![cs[0]]));
        let rest = fit_chars(cs.drop_first(), room - text_width(seq![cs[0]]));
        assert((seq![cs[0]] + rest).drop_first() =~= rest);
        assert(seq![cs[0]] + rest =~= cs.take(rest.len() as int + 1));
        if rest.len() < cs.drop_first().len() {
            let longer = cs.take(rest.len() as int + 2);
            assert(longer.drop_first() =~= cs.drop_first().take(rest.len() as int + 1));
            assert(longer[0] == cs[0]);
        }
    } else {
        assert(cs.take(0) =~= Seq::<char>::empty());
        if cs.len() > 0 {
            assert(cs.take(1).drop_first() =~= Seq::<char>::empty());
            assert(cs.take(1)[0] == cs[0]);
        }
    }
}

/// The characters that an ellipsized string keeps fit, measured character
/// by character, in the room left before the dots.
pub proof fn lemma_ellipsize(cs: Seq<char>, room: int)
    requires
        room >= 0,
    ensures
        ellipsize(cs, room) == cs || (exists|k: int|
            0 <= k < cs.len() && ellipsize(cs, room) == cs.take(k) + "..."@ && chars_width(
                cs.take(k),
            ) <= room),
    decreases cs.len(),
{
    if cs.len() == 0 {
        assert(ellipsize(cs, room) =~= cs);
    } else if text_width(seq![cs[0]]) > room {
        assert(cs.take(0) + "..."@ =~= "..."@);
        assert(chars_width(cs.take(0)) == 0);
    } else {
        let w = text_width(seq![cs[0]]);
        let tail = cs.drop_first();
        lemma_ellipsize(tail, room - w);
        if ellipsize(tail, room - w) == tail {
            assert(seq![cs[0]] + tail =~= cs);
        } else {
            let k = choose|k: int|
                0 <= k < tail.len() && ellipsize(tail, room - w) == tail.take(k) + "..."@
                    && chars_width(tail.take(k)) <= room - w;
            assert(seq![cs[0]] + (tail.take(k) + "..."@) =~= cs.take(k + 1) + "..."@);
            assert(cs.take(k + 1).drop_first() =~= tail.take(k));
            assert(cs.take(k + 1)[0] == cs[0]);
        }
    }
}

/// The text of the segments, without escape codes.
pub open spec fn plain_text(segs: Seq<SegmentView>) -> Seq<char>
    decreases segs.len(),
{
    if segs.len() == 0 {
        Seq::empty()
    } else {
        plain_text(segs.drop_last()) + segs.last().0
    }
}

/// Unstyled text is printed without any escape code.
pub proof fn lemma_unstyled_code(segs: Seq<SegmentView>)
    requires
        forall|i: int| 0 <= i < segs.len() ==> !styled(#[trigger] segs[i].1),
    ensures
        text_code(segs) == plain_text(segs),
{
    lemma_segments_code_unstyled(segs);
    assert(!any_styled(segs));
    assert(text_code(segs) =~= segments_code(segs));
}

proof fn lemma_segments_code_unstyled(segs: Seq<SegmentView>)
    requires
        forall|i: int| 0 <= i < segs.len() ==> !styled(#[trigger] segs[i].1),
    ensures
        segments_code(segs) == plain_text(segs),
    decreases segs.len(),
{
    if segs.len() > 0 {
        let init = segs.drop_last();
        assert forall|i: int| 0 <= i < init.len() implies !styled(#[trigger] init[i].1) by {
            assert(init[i] == segs[i]);
        }
        lemma_segments_code_unstyled(init);
        assert(!styled(segs[segs.len() - 1].1));
        assert(segments_code(segs) =~= segments_code(init) + segs.last().0);
    }
}

// ---------------------------------------------------------------------
// Widths that add up
// ---------------------------------------------------------------------

/// The columns of the segments, added up without wrapping.
pub open spec fn sum_width(segs: Seq<SegmentView>) -> int
    decreases segs.len(),
{
    if segs.len() == 0 {
        0
    } else {
        sum_width(segs.drop_last()) + text_width(segs.last().0)
    }
}

/// Whether every prefix of `cs` is as wide as its characters measured one
/// by one (no emoji sequence or other cluster that counts differently).
pub open spec fn widths_add_up(cs: Seq<char>) -> bool {
    forall|k: int| 0 <= k <= cs.len() ==> text_width(#[trigger] cs.take(k)) == chars_width(cs.take(k))
}

/// Whether the widths of every segment's text add up.
pub open spec fn segment_widths_add_up(segs: Seq<SegmentView>) -> bool {
    forall|i: int| 0 <= i < segs.len() ==> widths_add_up(#[trigger] segs[i].0)
}

/// A sum that fits in a machine word is not wrapped.
proof fn lemma_sum_fits(segs: Seq<SegmentView>)
    requires
        sum_width(segs) <= usize::MAX,
    ensures
        total_width(segs) == sum_width(segs),
        sum_width(segs) >= 0,
    decreases segs.len(),
{
    if segs.len() > 0 {
        lemma_sum_fits(segs.drop_last());
    }
}

proof fn lemma_sum_concat(a: Seq<SegmentView>, b: Seq<SegmentView>)
    ensures
        sum_width(a + b) == sum_width(a) + sum_width(b),
    decreases b.len(),
{
    if b.len() == 0 {
        assert(a + b =~= a);
    } else {
        assert((a + b).drop_last() =~= a + b.drop_last());
        assert((a + b).last() == b.last());
        lemma_sum_concat(a, b.drop_last());
    }
}

proof fn lemma_sum_keep(seg: SegmentView)
    ensures
        0 <= sum_width(keep_nonempty(seg)) <= text_width(seg.0),
{
    if seg.0.len() > 0 {
        let one = seq![seg];
        assert(keep_nonempty(seg) == one);
        assert(one.drop_last() =~= Seq::<SegmentView>::empty());
        assert(one.last() == seg);
        assert(sum_width(one) == sum_width(one.drop_last()) + text_width(one.last().0));
    } else {
        assert(keep_nonempty(seg) =~= Seq::<SegmentView>::empty());
    }
}

/// What cutting keeps fits the room, when widths add up.
proof fn lemma_cut_fits(segs: Seq<SegmentView>, room: int)
    requires
        room >= 0,
        segment_widths_add_up(segs),
    ensures
        0 <= sum_width(cut_segments(segs, room)) <= room,
    decreases segs.len(),
{
    if segs.len() == 0 || room == 0 {
    } else if text_width(segs[0].0) <= room {
        let tail = segs.drop_first();
        assert forall|i: int| 0 <= i < tail.len() implies widths_add_up(#[trigger] tail[i].0) by {
            assert(tail[i] == segs[i + 1]);
        }
        lemma_cut_fits(tail, room - text_width(segs[0].0));
        lemma_sum_keep(segs[0]);
        lemma_sum_concat(keep_nonempty(segs[0]), cut_segments(tail, room - text_width(segs[0].0)));
    } else {
        let cs = segs[0].0;
        let fit = fit_chars(cs, room);
        lemma_fit_chars(cs, room);
        assert(widths_add_up(cs));
        assert(text_width(cs.take(fit.len() as int)) == chars_width(cs.take(fit.len() as int)));
        lemma_sum_keep((fit, segs[0].1));
    }
}

/// Cut text fits its width: when the widths of the segments' texts add up
/// character by character (and their sum fits in a machine word), text
/// that fits is kept as it is, and any other text is cut to at most
/// `max` columns.
pub proof fn lemma_truncated_fits(segs: Seq<SegmentView>, max: int)
    requires
        0 <= max <= usize::MAX,
        sum_width(segs) <= usize::MAX,
        segment_widths_add_up(segs),
    ensures
        total_width(segs) <= max ==> truncated(segs, max) == segs,
        total_width(truncated(segs, max)) <= max,
        total_width(truncated(segs, max)) == sum_width(truncated(segs, max)),
{
    lemma_sum_fits(segs);
    if total_width(segs) > max {
        lemma_cut_fits(segs, max);
        lemma_sum_fits(cut_segments(segs, max));
    }
}

proof fn lemma_chars_width_concat(a: Seq<char>, b: Seq<char>)
    ensures
        chars_width(a + b) == chars_width(a) + chars_width(b),
    decreases a.len(),
{
    if a.len() > 0 {
        assert((a + b).drop_first() =~= a.drop_first() + b);
        assert((a + b)[0] == a[0]);
        lemma_chars_width_concat(a.drop_first(), b);
    } else {
        assert(a + b =~= b);
    }
}

proof fn lemma_dots_width(n: nat)
    requires
        text_width(seq!['.']) == 1,
    ensures
        chars_width(repeat_char('.', n)) == n,
    decreases n,
{
    if n > 0 {
        let d = repeat_char('.', n);
        assert(d.drop_first() =~= repeat_char('.', (n - 1) as nat));
        assert(d[0] == '.');
        assert(seq![d[0]] =~= seq!['.']);
        lemma_dots_width((n - 1) as nat);
    }
}

/// Characters that do not all fit are cut to the longest prefix that fits,
/// followed by `...`.
proof fn lemma_ellipsize_fit(cs: Seq<char>, room: int)
    ensures
        ellipsize(cs, room) == fit_chars(cs, room) + (if fit_chars(cs, room).len() < cs.len() {
            "..."@
        } else {
            Seq::<char>::empty()
        }),
    decreases cs.len(),
{
    if cs.len() == 0 {
        assert(ellipsize(cs, room) =~= Seq::<char>::empty() + Seq::<char>::empty());
    } else if text_width(seq![cs[0]]) > room {
        assert(ellipsize(cs, room) =~= Seq::<char>::empty() + "..."@);
    } else {
        let w = text_width(seq![cs[0]]);
        lemma_ellipsize_fit(cs.drop_first(), room - w);
        let rest = fit_chars(cs.drop_first(), room - w);
        assert(fit_chars(cs, room).len() == rest.len() + 1);
        assert(seq![cs[0]] + (rest + (if rest.len() < cs.drop_first().len() {
            "..."@
        } else {
            Seq::<char>::empty()
        })) =~= (seq![cs[0]] + rest) + (if rest.len() < cs.drop_first().len() {
            "..."@
        } else {
            Seq::<char>::empty()
        }));
    }
}

/// A cut string fits its width, measured character by character: when the
/// widths of `s` add up and a dot is one column wide, the result of
/// [`truncated_string`] is at most `max` columns wide; it is `s` itself when
/// `s` fits, and otherwise (for `max` above 3) the longest prefix of `s`
/// that fits in `max - 3` columns, followed by `...`.
pub proof fn lemma_truncated_string_fits(s: Seq<char>, max: int)
    requires
        max >= 0,
        widths_add_up(s),
        text_width(seq!['.']) == 1,
    ensures
        chars_width(truncated_string(s, max)) <= max,
        text_width(s) <= max ==> truncated_string(s, max) == s,
        text_width(s) > max && max > 3 ==> exists|k: int|
            0 <= k < s.len() && truncated_string(s, max) == s.take(k) + "..."@ && chars_width(
                s.take(k),
            ) <= max - 3 && chars_width(#[trigger] s.take(k + 1)) > max - 3,
{
    assert(s.take(s.len() as int) =~= s);
    assert(text_width(s.take(s.len() as int)) == chars_width(s.take(s.len() as int)));
    if text_width(s) <= max {
    } else if max <= 3 {
        lemma_dots_width(max as nat);
    } else {
        let room = max - 3;
        let fit = fit_chars(s, room);
        lemma_fit_chars(s, room);
        lemma_ellipsize_fit(s, room);
        if fit.len() == s.len() {
            assert(fit =~= s);
        }
        assert(fit.len() < s.len());
        reveal_strlit("...");
        assert("..."@ =~= repeat_char('.', 3));
        lemma_dots_width(3);
        lemma_chars_width_concat(fit, "..."@);
        assert(truncated_string(s, max) == s.take(fit.len() as int) + "..."@);
    }
}

/// Whether every character of `cs` takes at least one column.
pub open spec fn positive_widths(cs: Seq<char>) -> bool {
    forall|j: int| 0 <= j < cs.len() ==> text_width(seq![#[trigger] cs[j]]) >= 1
}

/// Whether every character of every segment takes at least one column.
pub open spec fn segment_positive_widths(segs: Seq<SegmentView>) -> bool {
    forall|i: int| 0 <= i < segs.len() ==> positive_widths(#[trigger] segs[i].0)
}

proof fn lemma_plain_concat(a: Seq<SegmentView>, b: Seq<SegmentView>)
    ensures
        plain_text(a + b) == plain_text(a) + plain_text(b),
    decreases b.len(),
{
    if b.len() == 0 {
        assert(a + b =~= a);
        assert(plain_text(a) + plain_text(b) =~= plain_text(a));
    } else {
        assert((a + b).drop_last() =~= a + b.drop_last());
        assert((a + b).last() == b.last());
        lemma_plain_concat(a, b.drop_last());
        assert(plain_text(a) + plain_text(b.drop_last()) + b.last().0 =~= plain_text(a) + (
        plain_text(b.drop_last()) + b.last().0));
    }
}

proof fn lemma_plain_keep(x: SegmentView)
    ensures
        plain_text(keep_nonempty(x)) == x.0,
{
    if x.0.len() > 0 {
        let one = seq![x];
        assert(keep_nonempty(x) == one);
        assert(one.drop_last() =~= Seq::<SegmentView>::empty());
        assert(plain_text(one.drop_last()) == Seq::<char>::empty());
        assert(one.last() == x);
        assert(plain_text(one) == plain_text(one.drop_last()) + one.last().0);
        assert(Seq::<char>::empty() + x.0 =~= x.0);
    } else {
        assert(keep_nonempty(x) =~= Seq::<SegmentView>::empty());
        assert(x.0 =~= Seq::<char>::empty());
    }
}

proof fn lemma_plain_positive(segs: Seq<SegmentView>)
    requires
        segment_positive_widths(segs),
    ensures
        positive_widths(plain_text(segs)),
    decreases segs.len(),
{
    if segs.len() > 0 {
        let init = segs.drop_last();
        assert forall|i: int| 0 <= i < init.len() implies positive_widths(#[trigger] init[i].0) by {
            assert(init[i] == segs[i]);
        }
        lemma_plain_positive(init);
        let t = plain_text(segs);
        let a = plain_text(init);
        let b = segs.last().0;
        assert(positive_widths(segs[segs.len() - 1].0));
        assert forall|j: int| 0 <= j < t.len() implies text_width(seq![#[trigger] t[j]]) >= 1 by {
            if j < a.len() {
                assert(t[j] == a[j]);
            } else {
                assert(t[j] == b[j - a.len()]);
            }
        }
    }
}

/// Cutting keeps the longest prefix of the whole text that fits.
proof fn lemma_cut_prefix(segs: Seq<SegmentView>, room: int)
    requires
        room >= 0,
        segment_widths_add_up(segs),
        segment_positive_widths(segs),
    ensures
        ({
            let t = plain_text(segs);
            let p = plain_text(cut_segments(segs, room));
            &&& p.len() <= t.len()
            &&& p == t.take(p.len() as int)
            &&& chars_width(p) <= room
            &&& p.len() < t.len() ==> chars_width(t.take(p.len() as int + 1)) > room
        }),
    decreases segs.len(),
{
    let t = plain_text(segs);
    if segs.len() == 0 {
        assert(t.take(0) =~= Seq::<char>::empty());
    } else {
        let s0 = segs[0];
        let tail = segs.drop_first();
        assert(segs =~= seq![s0] + tail);
        lemma_plain_concat(seq![s0], tail);
        lemma_plain_keep(s0);
        assert(keep_nonempty(s0) == seq![s0] || s0.0.len() == 0);
        assert(plain_text(seq![s0]) == s0.0) by {
            let one = seq![s0];
            assert(one.drop_last() =~= Seq::<SegmentView>::empty());
            assert(one.last() == s0);
            assert(Seq::<char>::empty() + s0.0 =~= s0.0);
        }
        let t1 = plain_text(tail);
        assert(t == s0.0 + t1);
        assert(widths_add_up(s0.0));
        assert(s0.0.take(s0.0.len() as int) =~= s0.0);
        assert(text_width(s0.0) == chars_width(s0.0));
        if room == 0 {
            assert(t.take(0) =~= Seq::<char>::empty());
            if t.len() > 0 {
                lemma_plain_positive(segs);
                let one = t.take(1);
                assert(one.drop_first() =~= Seq::<char>::empty());
                assert(one[0] == t[0]);
                assert(text_width(seq![t[0]]) >= 1);
            }
        } else if text_width(s0.0) <= room {
            assert forall|i: int| 0 <= i < tail.len() implies widths_add_up(#[trigger] tail[i].0) by {
                assert(tail[i] == segs[i + 1]);
            }
            assert forall|i: int| 0 <= i < tail.len() implies positive_widths(#[trigger] tail[i].0) by {
                assert(tail[i] == segs[i + 1]);
            }
            let room1 = room - text_width(s0.0);
            lemma_cut_prefix(tail, room1);
            let c1 = cut_segments(tail, room1);
            lemma_plain_concat(keep_nonempty(s0), c1);
            let p1 = plain_text(c1);
            let p = plain_text(cut_segments(segs, room));
            assert(p == s0.0 + p1);
            assert(p =~= t.take(p.len() as int));
            lemma_chars_width_concat(s0.0, p1);
            if p.len() < t.len() {
                assert(t.take(p.len() as int + 1) =~= s0.0 + t1.take(p1.len() as int + 1));
                lemma_chars_width_concat(s0.0, t1.take(p1.len() as int + 1));
            }
        } else {
            let fit = fit_chars(s0.0, room);
            lemma_fit_chars(s0.0, room);
            lemma_plain_keep((fit, s0.1));
            if fit.len() == s0.0.len() {
                assert(fit =~= s0.0);
            }
            assert(fit.len() < s0.0.len());
            assert(t.take(fit.len() as int) =~= s0.0.take(fit.len() as int));
            assert(t.take(fit.len() as int + 1) =~= s0.0.take(fit.len() as int + 1));
        }
    }
}

/// Cut text is the longest prefix of the whole text that fits: when a text
/// is too wide and the widths of its segments add up character by
/// character with every character at least one column wide, the text of
/// the cut segments, read end to end, is a prefix of the text of all the
/// segments, fits in `max` columns, and one more character would not fit.
pub proof fn lemma_truncated_longest_prefix(segs: Seq<SegmentView>, max: int)
    requires
        max >= 0,
        total_width(segs) > max,
        segment_widths_add_up(segs),
        segment_positive_widths(segs),
    ensures
        ({
            let t = plain_text(segs);
            let p = plain_text(truncated(segs, max));
            &&& p.len() <= t.len()
            &&& p == t.take(p.len() as int)
            &&& chars_width(p) <= max
            &&& p.len() < t.len() ==> chars_width(t.take(p.len() as int + 1)) > max
        }),
{
    lemma_cut_prefix(segs, max);
}

} // verus!
