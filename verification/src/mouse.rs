//! What the mouse does: clicks, hovering and the wheel, matched against what the
//! last frame showed.

use crate::session::{Action, Click, Session};
use crate::state;
use crate::state::{SortKey, UiState};
use vstd::prelude::*;

verus! {

/// Two clicks on one cell within this time are a double click: 400
/// milliseconds, in nanoseconds.
pub const DOUBLE_CLICK: u64 = 400_000_000;

/// Rows that one notch of the wheel moves.
pub const SCROLL_STEP: usize = 3;

/// A mouse event.
#[derive(Debug, Clone, Copy, PartialEq, Eq, Structural)]
pub enum MouseKind {
    LeftDown,
    Moved,
    ScrollDown,
    ScrollUp,
    Other,
}

impl Session {
    /// The row of the table under a cell.
    pub open spec fn table_target(&self, col: u16, row: u16) -> Option<usize> {
        match self.ui.geometry.table {
            Some(t) => t.hit(col, row),
            None => None,
        }
    }

    fn table_hit(&self, col: u16, row: u16) -> (r: Option<usize>)
        requires
            self.wf(),
        ensures
            r == self.table_target(col, row),
    {
        match &self.ui.geometry().table {
            Some(t) => t.hit_test(col, row),
            None => None,
        }
    }

    /// The row that the donut slice under a cell stands for.
    pub open spec fn wheel_target(&self, col: u16, row: u16) -> Option<usize> {
        match self.ui.geometry.wheel {
            Some(w) => w.hit(col, row),
            None => None,
        }
    }

    fn wheel_hit(&self, col: u16, row: u16) -> (r: Option<usize>)
        requires
            self.wf(),
        ensures
            r == self.wheel_target(col, row),
    {
        match &self.ui.geometry().wheel {
            Some(w) => w.hit_test(col, row),
            None => None,
        }
    }

    /// The state with a row selected and the last click set.
    pub open spec fn selecting(&self, position: usize, click: Option<Click>) -> Session {
        Session {
            ui: UiState {
                cursor: state::clamped(position, self.ui.order@.len()),
                hover: None,
                ..self.ui
            },
            last_click: click,
            ..*self
        }
    }

    /// Whether a click is the second of a double click.
    pub open spec fn is_double(&self, col: u16, row: u16, now: u64) -> bool {
        self.last_click matches Some(c) && c.col == col && c.row == row && now < c.at
            + DOUBLE_CLICK
    }

    /// What a left click does: the errors card sorts by errors, a breadcrumb
    /// segment jumps to that ancestor, a donut slice opens that child, a row is
    /// selected, or opened if it was selected already or on a double click.
    pub open spec fn click_step(
        &self,
        col: u16,
        row: u16,
        now: u64,
        after: Session,
        action: Action,
    ) -> bool {
        let calm = Session { last_click: None, ..*self };
        if self.ui.geometry.on_errors_card(col, row) {
            action is Continue && calm.sorts_by(SortKey::Errors, now, after)
        } else if self.ui.geometry.breadcrumb_at(col, row) is Some {
            calm.jumps_up(self.ui.geometry.breadcrumb_at(col, row).unwrap(), after, action)
        } else if self.wheel_target(col, row) is Some {
            self.selecting(self.wheel_target(col, row).unwrap(), None).opens_row(after, action)
        } else {
            match self.table_target(col, row) {
                None => after == calm && action is Continue,
                Some(position) => if self.ui.cursor == position && position
                    < self.ui.order@.len() || self.is_double(col, row, now) {
                    self.selecting(position, None).opens_row(after, action)
                } else {
                    &&& action is Continue
                    &&& after == self.selecting(position, Some(Click { at: now, col, row }))
                },
            }
        }
    }

    /// Handles a left click.
    pub fn handle_click(&mut self, col: u16, row: u16, now: u64) -> (action: Action)
        requires
            old(self).wf(),
            old(self).has_room(now),
        ensures
            final(self).wf(),
            old(self).click_step(col, row, now, *final(self), action),
    {
        if self.ui.geometry().errors_card_hit(col, row) {
            self.last_click = None;
            self.sort_by(SortKey::Errors, now);
            return Action::Continue;
        }
        if let Some(dir) = self.ui.geometry().breadcrumb_hit(col, row) {
            self.last_click = None;
            return self.jump_up(dir);
        }
        if let Some(position) = self.wheel_hit(col, row) {
            self.ui.select_at(position);
            self.last_click = None;
            return self.open_row();
        }
        let position: usize = match self.table_hit(col, row) {
            Some(position) => position,
            None => {
                self.last_click = None;
                return Action::Continue;
            },
        };
        let already: bool = self.ui.selected().is_some() && self.ui.cursor() == position;
        let double: bool = match self.last_click {
            Some(c) => c.col == col && c.row == row && (now < c.at || now - c.at < DOUBLE_CLICK),
            None => false,
        };
        self.ui.select_at(position);
        if already || double {
            self.last_click = None;
            self.open_row()
        } else {
            self.last_click = Some(Click { at: now, col, row });
            Action::Continue
        }
    }

    /// What hovering does: the selection card follows a row of the table until
    /// the mouse leaves it.
    pub open spec fn hover_step(&self, col: u16, row: u16) -> Session {
        Session {
            ui: UiState {
                hover: match self.table_target(col, row) {
                    Some(position) if position < self.ui.order@.len() => Some(position),
                    _ => None,
                },
                ..self.ui
            },
            ..*self
        }
    }

    /// Handles a mouse move.
    pub fn handle_hover(&mut self, col: u16, row: u16)
        requires
            old(self).wf(),
        ensures
            final(self).wf(),
            *final(self) == old(self).hover_step(col, row),
    {
        match self.table_hit(col, row) {
            Some(position) => if position < self.ui.row_count() {
                self.ui.set_hover(position);
            } else {
                self.ui.clear_hover();
            },
            None => self.ui.clear_hover(),
        }
    }

    /// The state with the cursor some rows further down or up, as far as there
    /// are rows.
    pub open spec fn scrolled(&self, down: bool, steps: int) -> Session {
        let n = self.ui.order@.len();
        Session {
            ui: UiState {
                cursor: if down {
                    if self.ui.cursor + steps < n {
                        (self.ui.cursor + steps) as usize
                    } else {
                        state::clamped(usize::MAX, n)
                    }
                } else if self.ui.cursor >= steps {
                    (self.ui.cursor - steps) as usize
                } else {
                    0
                },
                hover: None,
                ..self.ui
            },
            ..*self
        }
    }

    fn scroll(&mut self, down: bool)
        requires
            old(self).wf(),
        ensures
            final(self).wf(),
            *final(self) == old(self).scrolled(down, SCROLL_STEP as int),
    {
        let mut k: usize = 0;
        let ghost before = *self;
        assert(self.ui.order.len() == self.ui.order@.len());
        while k < SCROLL_STEP
            invariant
                k <= SCROLL_STEP,
                self.wf(),
                before.wf(),
                before.ui.order@.len() <= usize::MAX,
                k == 0 ==> *self == before,
                k > 0 ==> *self == before.scrolled(down, k as int),
            decreases SCROLL_STEP - k,
        {
            if down {
                self.ui.move_down();
            } else {
                self.ui.move_up();
            }
            k = k + 1;
        }
    }

    /// What a mouse event does; nothing while something is open over the table.
    pub open spec fn mouse_step(
        &self,
        kind: MouseKind,
        col: u16,
        row: u16,
        now: u64,
        after: Session,
        action: Action,
    ) -> bool {
        if self.covered() {
            self.stays(after, action)
        } else {
            match kind {
                MouseKind::LeftDown => self.click_step(col, row, now, after, action),
                MouseKind::Moved => action is Continue && after == self.hover_step(col, row),
                MouseKind::ScrollDown => action is Continue && after == (if self.table_target(
                    col,
                    row,
                ) is Some {
                    self.scrolled(true, SCROLL_STEP as int)
                } else {
                    *self
                }),
                MouseKind::ScrollUp => action is Continue && after == (if self.table_target(
                    col,
                    row,
                ) is Some {
                    self.scrolled(false, SCROLL_STEP as int)
                } else {
                    *self
                }),
                MouseKind::Other => self.stays(after, action),
            }
        }
    }

    /// Handles a mouse event.
    pub fn handle_mouse(&mut self, kind: MouseKind, col: u16, row: u16, now: u64) -> (action: Action)
        requires
            old(self).wf(),
            old(self).has_room(now),
        ensures
            final(self).wf(),
            old(self).mouse_step(kind, col, row, now, *final(self), action),
    {
        if self.palette.is_some() || self.ui.confirm().is_some() || self.ui.review().is_some()
            || self.freeable_open || self.ui.cheatsheet_open() {
            return Action::Continue;
        }
        match kind {
            MouseKind::LeftDown => {
                return self.handle_click(col, row, now);
            },
            MouseKind::Moved => self.handle_hover(col, row),
            MouseKind::ScrollDown => {
                if self.table_hit(col, row).is_some() {
                    self.scroll(true);
                }
            },
            MouseKind::ScrollUp => {
                if self.table_hit(col, row).is_some() {
                    self.scroll(false);
                }
            },
            MouseKind::Other => {},
        }
        Action::Continue
    }
}

/// Hovering never moves the cursor.
pub proof fn law_hover_keeps_the_cursor(s: Session, col: u16, row: u16)
    ensures
        s.hover_step(col, row).ui.cursor == s.ui.cursor,
        s.hover_step(col, row).ui.marks == s.ui.marks,
{
}

/// A click on the row under the cursor opens it, like Enter.
pub proof fn law_click_again_opens(
    s: Session,
    col: u16,
    row: u16,
    now: u64,
    t: Session,
    action: Action,
)
    requires
        s.wf(),
        !s.ui.geometry.on_errors_card(col, row),
        s.ui.geometry.breadcrumb_at(col, row) is None,
        s.wheel_target(col, row) is None,
        s.table_target(col, row) == Some(s.ui.cursor),
        s.ui.cursor < s.ui.order@.len(),
        s.click_step(col, row, now, t, action),
    ensures
        s.selecting(s.ui.cursor, None).opens_row(t, action),
        s.selecting(s.ui.cursor, None).ui == (UiState { hover: None, ..s.ui }),
{
}

/// The mouse never marks or deletes anything.
pub proof fn law_mouse_is_harmless(
    s: Session,
    kind: MouseKind,
    col: u16,
    row: u16,
    now: u64,
    t: Session,
    action: Action,
)
    requires
        s.mouse_step(kind, col, row, now, t, action),
    ensures
        t.ui.marks == s.ui.marks,
        !(action is Delete),
        !(action is Quit),
        !(action is OpenConfirm),
{
}

/// A click on a row that is not the selected one selects it: the cursor moves to the row
/// that is drawn there, and nothing opens, unless it is the second of a double click.
pub proof fn law_clicks_select_the_row(
    s: Session,
    col: u16,
    row: u16,
    now: u64,
    t: Session,
    action: Action,
    position: usize,
)
    requires
        s.wf(),
        !s.covered(),
        !s.ui.geometry.on_errors_card(col, row),
        s.ui.geometry.breadcrumb_at(col, row) is None,
        s.wheel_target(col, row) is None,
        s.table_target(col, row) == Some(position),
        position < s.ui.order@.len(),
        position != s.ui.cursor,
        s.last_click is None,
        s.mouse_step(MouseKind::LeftDown, col, row, now, t, action),
    ensures
        t.ui.cursor == position,
        action is Continue,
        t.last_click == Some(Click { at: now, col, row }),
        t.ui.stack@ == s.ui.stack@,
        t.ui.pending_nav == s.ui.pending_nav,
{
}

/// Two clicks on one cell within four tenths of a second are a double click; later, or
/// elsewhere, they are two clicks.
pub proof fn law_double_clicks_are_quick(s: Session, c: Click, col: u16, row: u16, now: u64)
    requires
        s.last_click == Some(c),
        c.at <= now,
    ensures
        s.is_double(col, row, now) <==> c.col == col && c.row == row && now - c.at < 400_000_000,
{
}

/// The wheel of the mouse moves the cursor by three rows, up to the ends, over the table
/// alone.
pub proof fn law_scrolling_moves_three_rows(
    s: Session,
    down: bool,
    col: u16,
    row: u16,
    now: u64,
    t: Session,
    action: Action,
)
    requires
        s.wf(),
        !s.covered(),
        s.mouse_step(
            if down {
                MouseKind::ScrollDown
            } else {
                MouseKind::ScrollUp
            },
            col,
            row,
            now,
            t,
            action,
        ),
    ensures
        action is Continue,
        s.table_target(col, row) is None ==> t == s,
        s.table_target(col, row) is Some && down && s.ui.cursor + 3 < s.ui.order@.len()
            ==> t.ui.cursor == s.ui.cursor + 3,
        s.table_target(col, row) is Some && down && s.ui.cursor < s.ui.order@.len() <= s.ui.cursor
            + 3 ==> t.ui.cursor == s.ui.order@.len() - 1,
        s.table_target(col, row) is Some && !down && s.ui.cursor >= 3 ==> t.ui.cursor
            == s.ui.cursor - 3,
        s.table_target(col, row) is Some && !down && s.ui.cursor < 3 ==> t.ui.cursor == 0,
{
    assert(s.ui.order@.len() == s.ui.order.len());
}

/// Hovering shows the row under the mouse, and none beside the rows; while something
/// covers the table the mouse does nothing.
pub proof fn law_hover_shows_the_row(
    s: Session,
    col: u16,
    row: u16,
    now: u64,
    kind: MouseKind,
    t: Session,
    action: Action,
)
    requires
        s.wf(),
        s.mouse_step(kind, col, row, now, t, action),
    ensures
        s.hover_step(col, row).ui.hover matches Some(p) ==> s.table_target(col, row) == Some(p) && p
            < s.ui.order@.len(),
        s.table_target(col, row) is None ==> s.hover_step(col, row).ui.hover is None,
        s.table_target(col, row) matches Some(p) ==> p < s.ui.order@.len() ==> s.hover_step(
            col,
            row,
        ).ui.hover == Some(p),
        s.covered() ==> t == s && action is Continue,
{
}

/// A click on the donut opens the row of the slice under it, whatever row is selected.
pub proof fn law_slices_open_their_row(
    s: Session,
    col: u16,
    row: u16,
    now: u64,
    t: Session,
    action: Action,
    position: usize,
)
    requires
        s.wf(),
        !s.ui.geometry.on_errors_card(col, row),
        s.ui.geometry.breadcrumb_at(col, row) is None,
        s.wheel_target(col, row) == Some(position),
        position < s.ui.order@.len(),
        s.click_step(col, row, now, t, action),
    ensures
        s.selecting(position, None).opens_row(t, action),
        s.selecting(position, None).ui.cursor == position,
        s.selecting(position, None).ui.order == s.ui.order,
        s.selecting(position, None).ui.marks == s.ui.marks,
{
}

} // verus!
