//! Which part of the session list fits in the sidebar.

use vstd::prelude::*;

verus! {

pub open spec fn min_nat(a: int, b: int) -> int {
    if a <= b { a } else { b }
}

pub open spec fn max_nat(a: int, b: int) -> int {
    if a >= b { a } else { b }
}

/// The window `(start, end, above, below)` shown for `total` sessions in
/// `rows` rows around the session at `focus`.
///
/// When everything fits, every session is shown and no indicator is needed.
/// Otherwise two rows are kept for the "more above" / "more below"
/// indicators and the remaining slots are handed out around the focused
/// session, one above, one below, alternately, starting above; a side that
/// runs out of sessions leaves its turns to the other side.
pub open spec fn visible_range(total: int, rows: int, focus: int) -> (int, int, int, int) {
    if total == 0 {
        (0, 0, 0, 0)
    } else if total <= rows {
        (0, total, 0, 0)
    } else if rows <= 2 {
        (0, 0, total, 0)
    } else {
        let extra = rows - 3;
        if focus < total {
            let up_room = focus;
            let down_room = total - 1 - focus;
            let steps = min_nat(extra, up_room + down_room);
            let up = min_nat(up_room, max_nat((steps + 1) / 2, steps - down_room));
            let start = focus - up;
            let end = focus + 1 + (steps - up);
            (start, end, start, total - end)
        } else {
            let start = focus - min_nat(focus, extra);
            (start, focus + 1, start, 0)
        }
    }
}

/// Steps of the alternating growth: after `t` steps the window has grown
/// by `up_after(t)` rows above the focused session.
spec fn up_after(t: int, up_room: int, down_room: int) -> int {
    min_nat(up_room, max_nat((t + 1) / 2, t - down_room))
}

/// The visible window of the session list, as [`visible_range`] states.
///
/// Of the result `(start, end, above, below)`, sessions `start..end` are
/// listed, `above` of them are hidden above and `below` below.
pub fn calculate_visible_range(total: usize, available_rows: usize, active_index: usize) -> (r: (
    usize,
    usize,
    usize,
    usize,
))
    requires
        total <= available_rows || available_rows <= 2 || active_index < usize::MAX,
    ensures
        (r.0 as int, r.1 as int, r.2 as int, r.3 as int) == visible_range(
            total as int,
            available_rows as int,
            active_index as int,
        ),
        r.0 <= r.1,
        // each session is either listed or counted by exactly one indicator
        active_index < total ==> r.1 <= total && r.2 + (r.1 - r.0) + r.3 == total,
        // sessions above the window are counted above, those below it below
        available_rows > 2 || total <= available_rows ==> r.2 == r.0,
        active_index < total && (available_rows > 2 || total <= available_rows) ==> r.3 == total
            - r.1,
        // everything is listed when it fits
        total <= available_rows ==> r.0 == 0 && r.1 == total && r.2 == 0 && r.3 == 0,
        // the focused session is listed whenever there is room for a session
        active_index < total && available_rows > 2 ==> r.0 <= active_index < r.1,
        // the listed sessions and the indicators together fit the rows
        available_rows > 2 ==> (r.1 - r.0) + (if r.2 > 0 { 1int } else { 0 }) + (if r.3 > 0 {
            1int
        } else {
            0
        }) <= available_rows,
        // no row is left unused while sessions are hidden
        active_index < total && total > available_rows && available_rows > 2 ==> r.1 - r.0
            == available_rows - 2,
        // whatever the height, the window and its indicators take at most
        // the rows there are (one indicator row when there are none)
        (r.1 - r.0) + (if r.2 > 0 {
            1int
        } else {
            0
        }) + (if r.3 > 0 {
            1int
        } else {
            0
        }) <= max_nat(available_rows as int, 1),
        // a window that lists anything lists the focused session
        active_index < total && r.0 < r.1 ==> r.0 <= active_index < r.1,
{
    proof {
        lemma_visible_range_fits(total as int, available_rows as int, active_index as int);
    }
    if total == 0 {
        return (0, 0, 0, 0);
    }
    if total <= available_rows {
        return (0, total, 0, 0);
    }
    let max_visible = available_rows.saturating_sub(2);
    if max_visible == 0 {
        return (0, 0, total, 0);
    }
    let ghost extra: int = available_rows - 3;
    let ghost up_room: int = active_index as int;
    let ghost down_room: int = total - 1 - active_index;

    let mut start_index = active_index;
    let mut end_index = active_index + 1;
    let mut room_left = max_visible.saturating_sub(1);
    let mut alternate = false;

    while room_left > 0
        invariant_except_break
            0 <= room_left <= extra,
            extra == available_rows - 3,
            up_room == active_index,
            down_room == total - 1 - active_index,
            active_index < usize::MAX,
            total > available_rows > 2,
            start_index <= active_index < end_index,
            alternate == ((extra - room_left) % 2 == 1),
            active_index < total ==> ({
                let t = extra - room_left;
                &&& t <= up_room + down_room
                &&& start_index == active_index - up_after(t, up_room, down_room)
                &&& end_index == active_index + 1 + (t - up_after(t, up_room, down_room))
            }),
            active_index >= total ==> start_index == active_index - min_nat(
                active_index as int,
                extra - room_left,
            ) && end_index == active_index + 1,
        ensures
            ({
                let (a, b, c, d) = visible_range(
                    total as int,
                    available_rows as int,
                    active_index as int,
                );
                a == start_index && b == end_index
            }),
        decreases room_left,
    {
        let ghost t: int = extra - room_left;
        if !alternate && start_index > 0 {
            start_index -= 1;
            room_left -= 1;
        } else if alternate && end_index < total {
            end_index += 1;
            room_left -= 1;
        } else if start_index > 0 {
            start_index -= 1;
            room_left -= 1;
        } else if end_index < total {
            end_index += 1;
            room_left -= 1;
        } else {
            break;
        }
        alternate = !alternate;
    }
    (start_index, end_index, start_index, total.saturating_sub(end_index))
}

/// The window and its indicators never take more rows than there are,
/// wherever the focus is; with no row at all, hidden sessions still take
/// the one indicator row.
pub proof fn lemma_visible_range_fits(total: int, rows: int, focus: int)
    requires
        total >= 0,
        rows >= 0,
        focus >= 0,
    ensures
        ({
            let (start, end, above, below) = visible_range(total, rows, focus);
            &&& 0 <= start <= end
            &&& above >= 0
            &&& below >= 0
            &&& (end - start) + (if above > 0 {
                1int
            } else {
                0
            }) + (if below > 0 {
                1int
            } else {
                0
            }) <= max_nat(rows, 1)
        }),
{
}

} // verus!
