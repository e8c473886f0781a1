//! How the rows of the terminal are shared out among the panels.

use ratatui::layout::{Constraint, Direction, Layout, Rect};
use vstd::prelude::*;

verus! {

/// The rows that the frame around a panel takes.
pub const FRAME_ROWS: u16 = 2;

/// The rows that the main panel is given before the others get any.
pub const MAIN_LEAST: u16 = 5;

/// The rows of the detail panel: its frame, the location, the message, and
/// eight lines of context.
pub const DETAIL_ROWS: u16 = 12;

/// The rows of the status bar.
pub const STATUS_ROWS: u16 = 1;

/// The height from which on every panel has its full size.
pub const FULL_HEIGHT: u16 = 18;

/// The heights of the panels, from top to bottom.
#[derive(Debug, Clone, Copy, PartialEq, Eq, Structural)]
pub struct PanelRows {
    pub main: u16,
    pub detail: u16,
    pub status: u16,
}

/// The panels on a terminal of this height. The main panel takes what the
/// others leave. Where there is too little for all three, it keeps its least
/// height, or has all there is; behind it the first row goes to the detail
/// panel, the second to the status bar, and the rest to the detail panel.
pub open spec fn rows_of(height: u16) -> PanelRows {
    if height >= FULL_HEIGHT {
        PanelRows {
            main: (height - DETAIL_ROWS - STATUS_ROWS) as u16,
            detail: DETAIL_ROWS,
            status: STATUS_ROWS,
        }
    } else if height > MAIN_LEAST + 1 {
        PanelRows {
            main: MAIN_LEAST,
            detail: (height - MAIN_LEAST - STATUS_ROWS) as u16,
            status: STATUS_ROWS,
        }
    } else if height == MAIN_LEAST + 1 {
        PanelRows { main: MAIN_LEAST, detail: 1, status: 0 }
    } else {
        PanelRows { main: height, detail: 0, status: 0 }
    }
}

/// `Layout::split` of a column with the constraints `Min`, `Length` and
/// `Length`, the last one of a single row.
///
/// A minimum outranks a length, a length outranks growth, and what is left open
/// is settled by the wish for parts of equal size, with halves rounded up. So
/// the minimum is met first, and beyond it the first part grows only when both
/// lengths are met. Where the lengths compete for two rows or more, the last
/// part has its row; where they compete for one, each would get half of it, and
/// rounding gives it to the middle part.
#[verifier::external_body]
fn split_rows(height: u16, least: u16, detail: u16, status: u16) -> (res: (u16, u16, u16))
    requires
        status == 1,
    ensures
        res == (if height >= least + detail + 1 {
            ((height - detail - 1) as u16, detail, 1u16)
        } else if height > least + 1 {
            (least, (height - least - 1) as u16, 1u16)
        } else if height == least + 1 {
            (least, 1u16, 0u16)
        } else {
            (height, 0u16, 0u16)
        }),
{
    let parts = Layout::default()
        .direction(Direction::Vertical)
        .constraints([Constraint::Min(least), Constraint::Length(detail), Constraint::Length(status)])
        .split(Rect::new(0, 0, 1, height));
    (parts[0].height, parts[1].height, parts[2].height)
}

/// Shares out the rows of a terminal of this height.
pub fn panel_rows(height: u16) -> (res: PanelRows)
    ensures
        res == rows_of(height),
        res.main + res.detail + res.status == height,
{
    let (main, detail, status) = split_rows(height, MAIN_LEAST, DETAIL_ROWS, STATUS_ROWS);
    PanelRows { main, detail, status }
}

/// How many lines fit into the frame of a panel of this height.
pub open spec fn room(rows: u16) -> nat {
    if rows >= FRAME_ROWS {
        (rows - FRAME_ROWS) as nat
    } else {
        0
    }
}

/// The first line of the last page of a log of `total` lines.
pub open spec fn log_bottom(total: nat, room: nat) -> nat {
    if total >= room {
        (total - room) as nat
    } else {
        0
    }
}

/// No panel shrinks when the terminal grows.
pub proof fn law_panels_grow(lower: u16, higher: u16)
    requires
        lower <= higher,
    ensures
        rows_of(lower).main <= rows_of(higher).main,
        rows_of(lower).detail <= rows_of(higher).detail,
        rows_of(lower).status <= rows_of(higher).status,
{
}

/// The panels share the whole terminal. From eighteen rows on the detail panel
/// has twelve of them and the status bar one, and every further row goes to the
/// main panel. Below, the main panel keeps five rows, or all there are.
pub proof fn law_panels_fill_terminal(height: u16)
    ensures
        rows_of(height).main + rows_of(height).detail + rows_of(height).status == height,
        height >= 18 ==> rows_of(height).detail == 12 && rows_of(height).status == 1,
        5 <= height < 18 ==> rows_of(height).main == 5,
        height < 5 ==> rows_of(height).main == height,
        7 <= height ==> rows_of(height).status == 1,
        height == 6 ==> rows_of(height).detail == 1,
        rows_of(height).detail <= 12 && rows_of(height).status <= 1,
{
}

/// A frame takes two rows, and the last page of a log is the one behind which
/// nothing is left.
pub proof fn law_last_page_reaches_end(total: nat, rows: u16)
    ensures
        rows >= 2 ==> room(rows) + 2 == rows,
        rows < 2 ==> room(rows) == 0,
        total >= room(rows) ==> log_bottom(total, room(rows)) + room(rows) == total,
        total < room(rows) ==> log_bottom(total, room(rows)) == 0,
{
}

} // verus!
