//! What a key does: the routing between the table, the modals and the palette.
//!
//! The session decides; what it cannot do itself (navigate a running scan,
//! count hardlinks, delete, fold a query) it hands out as an [`Action`].

use crate::flatview::{breakdown_supports_sort, flat_supports_sort};
use crate::keymap;
use crate::keymap::KeyCode;
use crate::model::{DirId, Row};
use crate::palette;
use crate::palette::{
    all_commands, filter_commands, CommandAction, PaletteCommand, PaletteMode, PaletteState,
    PaletteView,
};
use crate::state;
use crate::state::{MarkRefusal, MarkedEntry, ReviewState, SortKey, UiState, ViewMode};
use crate::text;
use crate::text::copy_str;
use vstd::prelude::*;
use vstd::string::*;

verus! {

/// How long a footer message shows, in nanoseconds: four seconds.
pub const FLASH_TTL: u64 = 4_000_000_000;

/// Footer hint while the mark and delete keys are inactive.
pub const DELETION_LOCKED: &'static str = "deletion available once the scan completes";

/// Footer hint on an empty basket.
pub const NOTHING_MARKED: &'static str = "nothing marked — Space marks the row under the cursor";

/// Footer hint on a mark of a mount point.
pub const MOUNT_POINT: &'static str = "mount points cannot be marked for deletion";

/// Footer hint on a sort key that has no meaning in the active mode.
pub const NOT_AVAILABLE: &'static str = "not available in this view";

/// Footer hint on a query that comes too early.
pub const FILTER_LOCKED: &'static str = "filter available once the scan completes";

/// Footer hint on a mark of a directory that shows only its matches.
pub const FILTERED_DIRECTORY: &'static str =
    "directories cannot be marked while a filter is active";

/// Transient footer message.
#[derive(Debug)]
pub struct Flash {
    /// The text, and the last moment at which it shows.
    pub message: Option<(String, u64)>,
}

impl Flash {
    /// No message.
    pub fn new() -> (f: Flash)
        ensures
            f.message is None,
    {
        Flash { message: None }
    }

    /// Whether the message is `text`, set at `now`.
    pub open spec fn says(&self, text: Seq<char>, now: u64) -> bool {
        self.message matches Some(m) && m.0@ == text && m.1 == now + FLASH_TTL
    }

    /// Shows a message from now on, in place of any other.
    pub fn set_at(&mut self, text: &str, now: u64)
        requires
            now + FLASH_TTL <= u64::MAX,
        ensures
            final(self).says(text@, now),
    {
        self.message = Some((copy_str(text), now + FLASH_TTL));
    }

    /// The current message; one that has expired is dropped.
    pub fn current_at(&mut self, now: u64) -> (r: Option<&str>)
        ensures
            *final(self) == (Flash {
                message: match old(self).message {
                    Some(m) if m.1 >= now => old(self).message,
                    _ => None,
                },
            }),
            match old(self).message {
                Some(m) if m.1 >= now => r matches Some(t) && t@ == m.0@,
                _ => r is None,
            },
    {
        let expired: bool = match &self.message {
            Some((_, until)) => now > *until,
            None => false,
        };
        if expired {
            self.message = None;
        }
        match &self.message {
            Some((text, _)) => Some(text.as_str()),
            None => None,
        }
    }

    /// Whether a message is set, expired or not.
    pub fn is_set(&self) -> (r: bool)
        ensures
            r == self.message is Some,
    {
        self.message.is_some()
    }
}

/// What a key asks of the caller.
#[derive(Debug)]
pub enum Action {
    Continue,
    Quit,
    /// Ask the running scan for another directory.
    RequestNav(DirId),
    /// Count the hardlinked files among the marks, then open the confirmation.
    OpenConfirm,
    /// Delete these entries.
    Delete(Vec<MarkedEntry>),
    /// Jump to the directory that holds the file under the cursor.
    OpenContaining,
    /// Mark or unmark the file under the cursor of the flat list.
    MarkFlatRow,
    /// Apply this query.
    ApplyQuery(String),
    /// Drop the active filter.
    ClearFilter,
}

/// The state that keys act on.
pub struct Session {
    pub ui: UiState,
    /// Whether the scan still runs.
    pub scanning: bool,
    pub flash: Flash,
    pub palette: Option<PaletteState>,
    pub freeable_open: bool,
    /// The query of the active filter.
    pub filter: Option<String>,
    /// Past queries, the newest last.
    pub history: Vec<String>,
    /// The saved queries.
    pub saved: Vec<String>,
    /// The last click that selected a row.
    pub last_click: Option<Click>,
}

/// A click: when and on which cell.
#[derive(Debug, Clone, Copy, PartialEq, Eq, Structural)]
pub struct Click {
    pub at: u64,
    pub col: u16,
    pub row: u16,
}

/// Whether the table can be sorted by a key in a mode.
pub open spec fn sortable(mode: ViewMode, key: SortKey) -> bool {
    match mode {
        ViewMode::Tree => true,
        ViewMode::FlatTop => key is Disk || key is Apparent || key is Name,
        ViewMode::Breakdown => key is Disk || key is Apparent || key is Name || key is Items,
    }
}

/// The sort key of a key code.
pub open spec fn sort_key_of(code: KeyCode) -> Option<SortKey> {
    match code {
        KeyCode::Char(c) => if c == 'd' {
            Some(SortKey::Disk)
        } else if c == 'a' {
            Some(SortKey::Apparent)
        } else if c == 'n' {
            Some(SortKey::Name)
        } else if c == 'm' {
            Some(SortKey::Mtime)
        } else if c == 'c' {
            Some(SortKey::Items)
        } else if c == 'e' {
            Some(SortKey::Errors)
        } else {
            None
        },
        _ => None,
    }
}

/// Looks up the sort key of a key code.
pub fn sort_key(code: KeyCode) -> (r: Option<SortKey>)
    ensures
        r == sort_key_of(code),
{
    match code {
        KeyCode::Char('d') => Some(SortKey::Disk),
        KeyCode::Char('a') => Some(SortKey::Apparent),
        KeyCode::Char('n') => Some(SortKey::Name),
        KeyCode::Char('m') => Some(SortKey::Mtime),
        KeyCode::Char('c') => Some(SortKey::Items),
        KeyCode::Char('e') => Some(SortKey::Errors),
        _ => None,
    }
}

/// Whether a key is Ctrl-C.
pub open spec fn is_interrupt(code: KeyCode, ctrl: bool) -> bool {
    ctrl && code == KeyCode::Char('c')
}

impl Session {
    /// A session over its first snapshot, with the past queries and the saved
    /// ones: the scan runs, and nothing is open.
    pub fn new(ui: UiState, history: Vec<String>, saved: Vec<String>) -> (s: Session)
        requires
            ui.wf(),
        ensures
            s.wf(),
            s.ui == ui,
            s.history == history,
            s.saved == saved,
            s.scanning,
            s.flash.message is None,
            s.palette is None,
            !s.freeable_open,
            s.filter is None,
            s.last_click is None,
    {
        Session {
            ui,
            scanning: true,
            flash: Flash::new(),
            palette: None,
            freeable_open: false,
            filter: None,
            history,
            saved,
            last_click: None,
        }
    }

    /// The session's invariant.
    pub open spec fn wf(&self) -> bool {
        &&& self.ui.wf()
        &&& self.palette matches Some(p) ==> {
            &&& p@.wf()
            &&& p@.history_cursor matches Some(i) ==> i < self.history@.len()
        }
    }

    /// Whether the machine's integers have room for one more view change and
    /// one more footer message.
    pub open spec fn has_room(&self, now: u64) -> bool {
        &&& self.ui.view_change_seq < u64::MAX
        &&& now + FLASH_TTL <= u64::MAX
    }

    /// Nothing changes.
    pub open spec fn stays(&self, after: Session, action: Action) -> bool {
        after == *self && action is Continue
    }

    /// Nothing changes but that the caller quits.
    pub open spec fn quits(&self, after: Session, action: Action) -> bool {
        after == *self && action is Quit
    }

    /// Only the view state changes.
    pub open spec fn with_ui(&self, ui: UiState, after: Session) -> bool {
        after == (Session { ui, ..*self })
    }

    /// Only the footer message changes: it says `text` from now on.
    pub open spec fn flashes(&self, text: Seq<char>, now: u64, after: Session) -> bool {
        &&& after == (Session { flash: after.flash, ..*self })
        &&& after.flash.says(text, now)
    }

    /// The request that a started navigation makes: the running scan is asked,
    /// the finished one is read by the frame loop.
    pub open spec fn nav_action(&self, target: Option<DirId>, action: Action) -> bool {
        match target {
            Some(dir) if self.scanning => action == Action::RequestNav(dir),
            _ => action is Continue,
        }
    }

    /// Opening the row under the cursor.
    pub open spec fn opens_row(&self, after: Session, action: Action) -> bool {
        match self.ui.mode {
            ViewMode::Tree => {
                &&& self.with_ui(after.ui, after)
                &&& exists|r: Option<DirId>|
                    #[trigger] self.ui.descends(after.ui, r) && self.nav_action(r, action)
            },
            ViewMode::FlatTop => after == *self && action is OpenContaining,
            ViewMode::Breakdown => self.stays(after, action),
        }
    }

    /// Opens the row under the cursor: a directory of the tree is descended
    /// into, a file of the flat list leads to its directory.
    pub fn open_row(&mut self) -> (action: Action)
        requires
            old(self).wf(),
        ensures
            final(self).wf(),
            old(self).opens_row(*final(self), action),
    {
        match self.ui.mode {
            ViewMode::Tree => {
                let r = self.ui.descend();
                assert(old(self).ui.descends(self.ui, r));
                match r {
                    Some(dir) => if self.scanning {
                        Action::RequestNav(dir)
                    } else {
                        Action::Continue
                    },
                    None => Action::Continue,
                }
            },
            ViewMode::FlatTop => Action::OpenContaining,
            ViewMode::Breakdown => Action::Continue,
        }
    }

    /// Going back up, which only the tree knows.
    pub open spec fn goes_up(&self, after: Session, action: Action) -> bool {
        if self.ui.mode is Tree {
            &&& self.with_ui(after.ui, after)
            &&& exists|r: Option<DirId>|
                #[trigger] self.ui.ascends(after.ui, r) && self.nav_action(r, action)
        } else {
            self.stays(after, action)
        }
    }

    /// Goes back up to the parent.
    pub fn go_up(&mut self) -> (action: Action)
        requires
            old(self).wf(),
        ensures
            final(self).wf(),
            old(self).goes_up(*final(self), action),
    {
        match self.ui.mode {
            ViewMode::Tree => {},
            _ => {
                return Action::Continue;
            },
        }
        let r = self.ui.ascend();
        assert(old(self).ui.ascends(self.ui, r));
        match r {
            Some(dir) => if self.scanning {
                Action::RequestNav(dir)
            } else {
                Action::Continue
            },
            None => Action::Continue,
        }
    }

    /// Jumping to an ancestor.
    pub open spec fn jumps_up(&self, dir: DirId, after: Session, action: Action) -> bool {
        &&& self.with_ui(after.ui, after)
        &&& exists|r: Option<DirId>|
            #[trigger] self.ui.jumps(after.ui, dir, r) && self.nav_action(r, action)
    }

    /// Jumps to an ancestor in one request.
    pub fn jump_up(&mut self, dir: DirId) -> (action: Action)
        requires
            old(self).wf(),
        ensures
            final(self).wf(),
            old(self).jumps_up(dir, *final(self), action),
    {
        let r = self.ui.jump_to_ancestor(dir);
        assert(old(self).ui.jumps(self.ui, dir, r));
        match r {
            Some(target) => if self.scanning {
                Action::RequestNav(target)
            } else {
                Action::Continue
            },
            None => Action::Continue,
        }
    }

    /// Whether marking the row under the cursor would mark a directory of which
    /// a filter shows only a part.
    pub open spec fn marks_partial_directory(&self) -> bool {
        &&& self.filter is Some
        &&& self.ui.row_at(self.ui.cursor) matches Some(row) && row.is_dir
            && !self.ui.marked_set@.contains(row.node.raw)
    }

    /// A mark keypress.
    pub open spec fn marks_row(&self, now: u64, after: Session, action: Action) -> bool {
        if self.ui.mode is Breakdown {
            self.stays(after, action)
        } else if self.scanning {
            action is Continue && self.flashes(DELETION_LOCKED@, now, after)
        } else if self.ui.mode is FlatTop {
            after == *self && action is MarkFlatRow
        } else if self.marks_partial_directory() {
            action is Continue && self.flashes(FILTERED_DIRECTORY@, now, after)
        } else {
            &&& action is Continue
            &&& match self.ui.mark_refusal() {
                Some(MarkRefusal::ScanRunning) => self.flashes(DELETION_LOCKED@, now, after),
                Some(MarkRefusal::MountPoint) => self.flashes(MOUNT_POINT@, now, after),
                None => {
                    &&& self.with_ui(after.ui, after)
                    &&& self.ui.toggles_mark(after.ui, Ok(()))
                },
            }
        }
    }

    /// Marks or unmarks the row under the cursor; inactive during the scan.
    pub fn mark_row(&mut self, now: u64) -> (action: Action)
        requires
            old(self).wf(),
            old(self).has_room(now),
        ensures
            final(self).wf(),
            old(self).marks_row(now, *final(self), action),
    {
        match self.ui.mode {
            ViewMode::Breakdown => {
                return Action::Continue;
            },
            _ => {},
        }
        if self.scanning {
            self.flash.set_at(DELETION_LOCKED, now);
            return Action::Continue;
        }
        match self.ui.mode {
            ViewMode::FlatTop => {
                return Action::MarkFlatRow;
            },
            _ => {},
        }
        if self.filter.is_some() {
            let partial: bool = match self.ui.selected() {
                Some(row) => row.is_dir && !self.ui.is_marked(row.node),
                None => false,
            };
            if partial {
                self.flash.set_at(FILTERED_DIRECTORY, now);
                return Action::Continue;
            }
        }
        match self.ui.toggle_mark() {
            Ok(_) => {},
            Err(MarkRefusal::ScanRunning) => {
                self.flash.set_at(DELETION_LOCKED, now);
            },
            Err(MarkRefusal::MountPoint) => {
                self.flash.set_at(MOUNT_POINT, now);
            },
        }
        Action::Continue
    }

    /// A request to review the marks.
    pub open spec fn reviews(&self, now: u64, after: Session) -> bool {
        if self.ui.marks@.len() == 0 {
            self.flashes(NOTHING_MARKED@, now, after)
        } else {
            self.with_ui(
                (UiState { review: Some(ReviewState { cursor: 0 }), ..self.ui }),
                after,
            )
        }
    }

    /// Opens the review list; an empty basket only gets a hint.
    pub fn try_open_review(&mut self, now: u64)
        requires
            old(self).wf(),
            old(self).has_room(now),
        ensures
            final(self).wf(),
            old(self).reviews(now, *final(self)),
    {
        if !self.ui.open_review() {
            self.flash.set_at(NOTHING_MARKED, now);
        }
    }

    /// A request to delete the marks.
    pub open spec fn asks_deletion(&self, now: u64, after: Session, action: Action) -> bool {
        if self.scanning {
            action is Continue && self.flashes(DELETION_LOCKED@, now, after)
        } else if self.ui.marks@.len() == 0 {
            action is Continue && self.flashes(NOTHING_MARKED@, now, after)
        } else {
            after == *self && action is OpenConfirm
        }
    }

    /// Asks for the delete confirmation, which waits for the count of hardlinked
    /// files.
    pub fn open_delete_confirm(&mut self, now: u64) -> (action: Action)
        requires
            old(self).wf(),
            old(self).has_room(now),
        ensures
            final(self).wf(),
            old(self).asks_deletion(now, *final(self), action),
    {
        if self.scanning {
            self.flash.set_at(DELETION_LOCKED, now);
            return Action::Continue;
        }
        if self.ui.marks().len() == 0 {
            self.flash.set_at(NOTHING_MARKED, now);
            return Action::Continue;
        }
        Action::OpenConfirm
    }

    /// A sort keypress.
    pub open spec fn sorts_by(&self, key: SortKey, now: u64, after: Session) -> bool {
        if sortable(self.ui.mode, key) {
            self.with_ui(after.ui, after) && self.ui.sorts(after.ui, key)
        } else {
            self.flashes(NOT_AVAILABLE@, now, after)
        }
    }

    /// Sorts by a key, where the active mode has it.
    pub fn sort_by(&mut self, key: SortKey, now: u64)
        requires
            old(self).wf(),
            old(self).has_room(now),
        ensures
            final(self).wf(),
            old(self).sorts_by(key, now, *final(self)),
    {
        let ok: bool = match self.ui.mode {
            ViewMode::Tree => true,
            ViewMode::FlatTop => flat_supports_sort(key),
            ViewMode::Breakdown => breakdown_supports_sort(key),
        };
        if ok {
            self.ui.press_sort(key);
        } else {
            self.flash.set_at(NOT_AVAILABLE, now);
        }
    }

    /// The Esc key with nothing open.
    pub open spec fn escapes(&self, after: Session, action: Action) -> bool {
        if !(self.ui.mode is Tree) {
            action is Continue && self.with_ui((UiState { mode: ViewMode::Tree, ..self.ui }), after)
        } else if self.filter is Some {
            action is ClearFilter && after == (Session { filter: None, ..*self })
        } else {
            self.quits(after, action)
        }
    }

    /// Leaves the mode, else drops the filter, else quits.
    pub fn escape(&mut self) -> (action: Action)
        requires
            old(self).wf(),
        ensures
            final(self).wf(),
            old(self).escapes(*final(self), action),
    {
        match self.ui.mode {
            ViewMode::Tree => {},
            _ => {
                self.ui.leave_mode();
                return Action::Continue;
            },
        }
        if self.filter.is_some() {
            self.filter = None;
            return Action::ClearFilter;
        }
        Action::Quit
    }

    /// Opening the palette: the text of an active filter stays editable.
    pub open spec fn opens_palette(&self, after: Session) -> bool {
        &&& after == (Session { palette: after.palette, ..*self })
        &&& after.palette matches Some(p) && p@ == PaletteView::opened(
            match self.filter {
                Some(text) => text@,
                None => Seq::empty(),
            },
        )
    }

    /// Opens the palette.
    pub fn open_palette(&mut self)
        requires
            old(self).wf(),
        ensures
            final(self).wf(),
            old(self).opens_palette(*final(self)),
    {
        let p = match &self.filter {
            Some(text) => PaletteState::with_text(text.as_str()),
            None => PaletteState::new(),
        };
        self.palette = Some(p);
    }

    /// A key with nothing open.
    pub open spec fn main_step(
        &self,
        code: KeyCode,
        ctrl: bool,
        now: u64,
        after: Session,
        action: Action,
    ) -> bool {
        if code == KeyCode::Char('q') || is_interrupt(code, ctrl) {
            self.quits(after, action)
        } else if code == KeyCode::Esc {
            self.escapes(after, action)
        } else if code == KeyCode::Char('/') || ctrl && code == KeyCode::Char('k') {
            action is Continue && self.opens_palette(after)
        } else if code == KeyCode::Enter || code == KeyCode::Right || code == KeyCode::Char('l') {
            self.opens_row(after, action)
        } else if code == KeyCode::Backspace || code == KeyCode::Left || code == KeyCode::Char(
            'h',
        ) {
            self.goes_up(after, action)
        } else if code == KeyCode::Char(' ') {
            self.marks_row(now, after, action)
        } else if code == KeyCode::Char('D') {
            self.asks_deletion(now, after, action)
        } else if code == KeyCode::Char('v') {
            action is Continue && self.reviews(now, after)
        } else if code == KeyCode::Char('f') {
            action is Continue && after == (Session { freeable_open: true, ..*self })
        } else if sort_key_of(code) is Some {
            action is Continue && self.sorts_by(sort_key_of(code).unwrap(), now, after)
        } else {
            &&& action is Continue
            &&& self.with_ui(after.ui, after)
            &&& match keymap::action_of(code) {
                Some(a) => keymap::applied(self.ui, after.ui, a),
                None => after.ui == self.ui,
            }
        }
    }

    fn main_key(&mut self, code: KeyCode, ctrl: bool, now: u64) -> (action: Action)
        requires
            old(self).wf(),
            old(self).has_room(now),
        ensures
            final(self).wf(),
            old(self).main_step(code, ctrl, now, *final(self), action),
    {
        match code {
            KeyCode::Char('q') => Action::Quit,
            KeyCode::Char('c') if ctrl => Action::Quit,
            KeyCode::Esc => self.escape(),
            KeyCode::Char('/') => {
                self.open_palette();
                Action::Continue
            },
            KeyCode::Char('k') if ctrl => {
                self.open_palette();
                Action::Continue
            },
            KeyCode::Enter | KeyCode::Right | KeyCode::Char('l') => self.open_row(),
            KeyCode::Backspace | KeyCode::Left | KeyCode::Char('h') => self.go_up(),
            KeyCode::Char(' ') => self.mark_row(now),
            KeyCode::Char('D') => self.open_delete_confirm(now),
            KeyCode::Char('v') => {
                self.try_open_review(now);
                Action::Continue
            },
            KeyCode::Char('f') => {
                self.freeable_open = true;
                Action::Continue
            },
            _ => {
                match sort_key(code) {
                    Some(key) => self.sort_by(key, now),
                    None => {
                        keymap::dispatch_simple(code, &mut self.ui);
                    },
                }
                Action::Continue
            },
        }
    }

    /// A key with the delete confirmation open: `y` confirms, anything else
    /// cancels. Nothing is deleted while a scan runs.
    pub open spec fn confirm_step(
        &self,
        code: KeyCode,
        ctrl: bool,
        after: Session,
        action: Action,
    ) -> bool {
        if is_interrupt(code, ctrl) {
            self.quits(after, action)
        } else if code == KeyCode::Char('y') && !self.scanning {
            &&& action matches Action::Delete(marks) && marks@ == self.ui.marks@
            &&& self.with_ui(after.ui, after)
            &&& self.ui.confirms(after.ui)
        } else {
            &&& action is Continue
            &&& self.with_ui((UiState { confirm: None, ..self.ui }), after)
        }
    }

    fn confirm_key(&mut self, code: KeyCode, ctrl: bool) -> (action: Action)
        requires
            old(self).wf(),
            old(self).ui.confirm is Some,
        ensures
            final(self).wf(),
            old(self).confirm_step(code, ctrl, *final(self), action),
    {
        match code {
            KeyCode::Char('c') if ctrl => Action::Quit,
            KeyCode::Char('y') if !self.scanning => {
                match self.ui.take_confirmed_marks() {
                    Some(marks) => Action::Delete(marks),
                    None => Action::Continue,
                }
            },
            _ => {
                self.ui.cancel_confirm();
                Action::Continue
            },
        }
    }

    /// The state with the review list closed.
    pub open spec fn review_closed(&self) -> Session {
        Session { ui: UiState { review: None, ..self.ui }, ..*self }
    }

    /// A key with the review list open.
    pub open spec fn review_step(
        &self,
        code: KeyCode,
        ctrl: bool,
        now: u64,
        after: Session,
        action: Action,
    ) -> bool {
        let n = self.ui.marks@.len();
        if code == KeyCode::Char('q') || is_interrupt(code, ctrl) {
            self.quits(after, action)
        } else if code == KeyCode::Char('D') {
            self.review_closed().asks_deletion(now, after, action)
        } else {
            &&& action is Continue
            &&& if code == KeyCode::Down || code == KeyCode::Char('j') {
                self.with_ui(
                    (UiState {
                        review: match self.ui.review {
                            Some(r) => if r.cursor + 1 < n {
                                Some(
                                    ReviewState { cursor: (r.cursor + 1) as usize },
                                )
                            } else {
                                Some(r)
                            },
                            None => None,
                        },
                        ..self.ui
                    }),
                    after,
                )
            } else if code == KeyCode::Up || code == KeyCode::Char('k') {
                self.with_ui(
                    (UiState {
                        review: match self.ui.review {
                            Some(r) => if r.cursor > 0 {
                                Some(
                                    ReviewState { cursor: (r.cursor - 1) as usize },
                                )
                            } else {
                                Some(r)
                            },
                            None => None,
                        },
                        ..self.ui
                    }),
                    after,
                )
            } else if code == KeyCode::Char(' ') {
                self.with_ui(after.ui, after) && self.ui.unmarks_in_review(after.ui)
            } else if code == KeyCode::Char('v') || code == KeyCode::Esc {
                after == self.review_closed()
            } else {
                after == *self
            }
        }
    }

    fn review_key(&mut self, code: KeyCode, ctrl: bool, now: u64) -> (action: Action)
        requires
            old(self).wf(),
            old(self).has_room(now),
        ensures
            final(self).wf(),
            old(self).review_step(code, ctrl, now, *final(self), action),
    {
        match code {
            KeyCode::Char('q') => {
                return Action::Quit;
            },
            KeyCode::Char('c') if ctrl => {
                return Action::Quit;
            },
            KeyCode::Down | KeyCode::Char('j') => self.ui.review_move_down(),
            KeyCode::Up | KeyCode::Char('k') => self.ui.review_move_up(),
            KeyCode::Char(' ') => self.ui.unmark_at_review_cursor(),
            KeyCode::Char('D') => {
                self.ui.close_review();
                return self.open_delete_confirm(now);
            },
            KeyCode::Char('v') | KeyCode::Esc => self.ui.close_review(),
            _ => {},
        }
        Action::Continue
    }

    /// A key with the freeable panel open.
    pub open spec fn freeable_step(
        &self,
        code: KeyCode,
        ctrl: bool,
        after: Session,
        action: Action,
    ) -> bool {
        if code == KeyCode::Char('q') || is_interrupt(code, ctrl) {
            self.quits(after, action)
        } else {
            &&& action is Continue
            &&& after == (Session {
                freeable_open: !(code == KeyCode::Char('f') || code == KeyCode::Esc),
                ..*self
            })
        }
    }

    /// A key with the cheatsheet open.
    pub open spec fn cheatsheet_step(
        &self,
        code: KeyCode,
        ctrl: bool,
        after: Session,
        action: Action,
    ) -> bool {
        if code == KeyCode::Char('q') || is_interrupt(code, ctrl) {
            self.quits(after, action)
        } else {
            &&& action is Continue
            &&& self.with_ui(
                (UiState {
                    cheatsheet_open: !(code == KeyCode::Char('?') || code == KeyCode::Esc),
                    ..self.ui
                }),
                after,
            )
        }
    }

    /// Running a command of the palette.
    pub open spec fn runs(
        &self,
        command: CommandAction,
        now: u64,
        after: Session,
        action: Action,
    ) -> bool {
        match command {
            CommandAction::Simple(a) => {
                &&& action is Continue
                &&& self.with_ui(after.ui, after)
                &&& keymap::applied(self.ui, after.ui, a)
            },
            CommandAction::ReviewMarks => action is Continue && self.reviews(now, after),
            CommandAction::DeleteMarked => self.asks_deletion(now, after, action),
            CommandAction::FreeablePanel => action is Continue && after == (Session {
                freeable_open: true,
                ..*self
            }),
            CommandAction::ClearFilter => action is ClearFilter && after == (Session {
                filter: None,
                ..*self
            }),
            CommandAction::Quit => self.quits(after, action),
        }
    }

    /// Runs a command of the palette.
    pub fn run_command(&mut self, command: CommandAction, now: u64) -> (action: Action)
        requires
            old(self).wf(),
            old(self).has_room(now),
        ensures
            final(self).wf(),
            old(self).runs(command, now, *final(self), action),
    {
        match command {
            CommandAction::Simple(a) => {
                keymap::apply(a, &mut self.ui);
                Action::Continue
            },
            CommandAction::ReviewMarks => {
                self.try_open_review(now);
                Action::Continue
            },
            CommandAction::DeleteMarked => self.open_delete_confirm(now),
            CommandAction::FreeablePanel => {
                self.freeable_open = true;
                Action::Continue
            },
            CommandAction::ClearFilter => {
                self.filter = None;
                Action::ClearFilter
            },
            CommandAction::Quit => Action::Quit,
        }
    }

    /// The state with the palette closed.
    pub open spec fn palette_closed(&self) -> Session {
        Session { palette: None, ..*self }
    }

    /// Whether only the palette changes, to `p`.
    pub open spec fn palette_becomes(&self, p: PaletteView, after: Session) -> bool {
        &&& after == (Session { palette: after.palette, ..*self })
        &&& after.palette matches Some(q) && q@ == p
    }

    /// Committing a query: an empty one drops the filter.
    pub open spec fn commits(
        &self,
        query: Seq<char>,
        now: u64,
        after: Session,
        action: Action,
    ) -> bool {
        if self.scanning {
            action is Continue && self.palette_closed().flashes(FILTER_LOCKED@, now, after)
        } else if query.len() == 0 {
            action is ClearFilter && after == (Session { palette: None, filter: None, ..*self })
        } else {
            &&& action matches Action::ApplyQuery(text) && text@ == query
            &&& after == (Session { palette: None, filter: after.filter, ..*self })
            &&& after.filter matches Some(text) && text@ == query
        }
    }

    fn commit(&mut self, query: String, now: u64) -> (action: Action)
        requires
            old(self).wf(),
            old(self).has_room(now),
        ensures
            final(self).wf(),
            old(self).commits(query@, now, *final(self), action),
    {
        self.palette = None;
        if self.scanning {
            self.flash.set_at(FILTER_LOCKED, now);
            return Action::Continue;
        }
        if query.as_str().unicode_len() == 0 {
            self.filter = None;
            return Action::ClearFilter;
        }
        self.filter = Some(copy_str(query.as_str()));
        Action::ApplyQuery(query)
    }

    /// The Enter key in the palette.
    pub open spec fn enters(
        &self,
        p: PaletteView,
        now: u64,
        after: Session,
        action: Action,
    ) -> bool {
        if in_command_mode(p) {
            exists|r: Seq<usize>|
                {
                    &&& #[trigger] palette::is_ranking(
                        p.buffer.skip(1),
                        palette::command_table(),
                        r,
                    )
                    &&& if p.list_selected < r.len() {
                        self.palette_closed().runs(
                            palette::command_table()[r[p.list_selected as int] as int].action,
                            now,
                            after,
                            action,
                        )
                    } else {
                        self.stays(after, action)
                    }
                }
        } else if browses_saved(p, self.saved@) && p.list_selected < self.saved@.len() {
            self.commits(self.saved@[p.list_selected as int]@, now, after, action)
        } else {
            self.commits(p.buffer, now, after, action)
        }
    }

    /// The palette after a Down or an Up key.
    pub open spec fn walks(&self, p: PaletteView, down: bool, q: PaletteView) -> bool {
        if in_command_mode(p) {
            exists|r: Seq<usize>|
                #[trigger] palette::is_ranking(p.buffer.skip(1), palette::command_table(), r)
                    && q == selection_moved(p, down, r.len())
        } else if browses_saved(p, self.saved@) {
            q == selection_moved(p, down, self.saved@.len())
        } else if down {
            q == p.newer(self.history@)
        } else {
            q == p.older(self.history@)
        }
    }

    /// A key with the palette open: it owns the keyboard, and every key but the
    /// few with a meaning of their own is text.
    pub open spec fn palette_step(
        &self,
        p: PaletteView,
        code: KeyCode,
        ctrl: bool,
        now: u64,
        after: Session,
        action: Action,
    ) -> bool {
        if is_interrupt(code, ctrl) {
            self.quits(after, action)
        } else if code == KeyCode::Esc {
            action is Continue && after == self.palette_closed()
        } else if code == KeyCode::Enter {
            self.enters(p, now, after, action)
        } else if code == KeyCode::Down || code == KeyCode::Up {
            &&& action is Continue
            &&& after.palette matches Some(q) && self.walks(p, code == KeyCode::Down, q@)
                && self.palette_becomes(q@, after)
        } else {
            action is Continue && self.palette_becomes(edited(p, code, ctrl), after)
        }
    }

    fn palette_enter(&mut self, now: u64) -> (action: Action)
        requires
            old(self).wf(),
            old(self).has_room(now),
            old(self).palette is Some,
        ensures
            final(self).wf(),
            old(self).enters(old(self).palette.unwrap()@, now, *final(self), action),
    {
        match self.palette.take() {
            None => Action::Continue,
            Some(p) => {
                let ghost v = p@;
                match p.mode() {
                    PaletteMode::Command => {
                        let (r, commands) = ranked_commands(&p);
                        assert(palette::is_ranking(v.buffer.skip(1), palette::command_table(), r@));
                        if p.list_selected < r.len() {
                            let k: usize = r[p.list_selected];
                            let command = commands[k].action;
                            assert(palette::rows_of(commands@)[k as int] == commands@[k as int].row());
                            self.run_command(command, now)
                        } else {
                            self.palette = Some(p);
                            Action::Continue
                        }
                    },
                    PaletteMode::Query => {
                        if shows_saved(&p, self.saved.len()) && p.list_selected < self.saved.len() {
                            let query = copy_str(self.saved[p.list_selected].as_str());
                            self.commit(query, now)
                        } else {
                            let query = p.text();
                            self.commit(query, now)
                        }
                    },
                }
            },
        }
    }

    fn palette_walk(&mut self, down: bool)
        requires
            old(self).wf(),
            old(self).palette is Some,
        ensures
            final(self).wf(),
            final(self).palette matches Some(q) && old(self).walks(
                old(self).palette.unwrap()@,
                down,
                q@,
            ) && old(self).palette_becomes(q@, *final(self)),
    {
        match self.palette.take() {
            None => {},
            Some(mut p) => {
                let ghost v = p@;
                match p.mode() {
                    PaletteMode::Command => {
                        let (r, _) = ranked_commands(&p);
                        assert(palette::is_ranking(v.buffer.skip(1), palette::command_table(), r@));
                        if down {
                            p.move_selection_down(r.len());
                        } else {
                            p.move_selection_up();
                        }
                        assert(p@ == selection_moved(v, down, r@.len()));
                    },
                    PaletteMode::Query => {
                        if shows_saved(&p, self.saved.len()) {
                            if down {
                                p.move_selection_down(self.saved.len());
                            } else {
                                p.move_selection_up();
                            }
                            assert(p@ == selection_moved(v, down, self.saved@.len()));
                        } else if down {
                            assert(self.history.len() == self.history@.len());
                            p.history_down(self.history.as_slice());
                        } else {
                            p.history_up(self.history.as_slice());
                        }
                    },
                }
                self.palette = Some(p);
            },
        }
    }

    fn palette_edit(&mut self, code: KeyCode, ctrl: bool)
        requires
            old(self).wf(),
            old(self).palette is Some,
        ensures
            final(self).wf(),
            old(self).palette_becomes(
                edited(old(self).palette.unwrap()@, code, ctrl),
                *final(self),
            ),
    {
        match self.palette.take() {
            None => {},
            Some(mut p) => {
                match code {
                    KeyCode::Backspace => p.backspace(),
                    KeyCode::Delete => p.delete_forward(),
                    KeyCode::Left => p.move_left(),
                    KeyCode::Right => p.move_right(),
                    KeyCode::Home => p.move_home(),
                    KeyCode::End => p.move_end(),
                    KeyCode::Char(c) => {
                        if !ctrl {
                            p.insert_char(c);
                        }
                    },
                    _ => {},
                }
                self.palette = Some(p);
            },
        }
    }

    fn palette_key(&mut self, code: KeyCode, ctrl: bool, now: u64) -> (action: Action)
        requires
            old(self).wf(),
            old(self).has_room(now),
            old(self).palette is Some,
        ensures
            final(self).wf(),
            old(self).palette_step(
                old(self).palette.unwrap()@,
                code,
                ctrl,
                now,
                *final(self),
                action,
            ),
    {
        match code {
            KeyCode::Char('c') if ctrl => Action::Quit,
            KeyCode::Esc => {
                self.palette = None;
                Action::Continue
            },
            KeyCode::Enter => self.palette_enter(now),
            KeyCode::Down => {
                self.palette_walk(true);
                Action::Continue
            },
            KeyCode::Up => {
                self.palette_walk(false);
                Action::Continue
            },
            _ => {
                self.palette_edit(code, ctrl);
                Action::Continue
            },
        }
    }

    /// What a key does: it belongs to the topmost of what is open.
    pub open spec fn key_step(
        &self,
        code: KeyCode,
        ctrl: bool,
        now: u64,
        after: Session,
        action: Action,
    ) -> bool {
        if self.palette is Some {
            self.palette_step(self.palette.unwrap()@, code, ctrl, now, after, action)
        } else if self.ui.confirm is Some {
            self.confirm_step(code, ctrl, after, action)
        } else if self.ui.review is Some {
            self.review_step(code, ctrl, now, after, action)
        } else if self.freeable_open {
            self.freeable_step(code, ctrl, after, action)
        } else if self.ui.cheatsheet_open {
            self.cheatsheet_step(code, ctrl, after, action)
        } else {
            self.main_step(code, ctrl, now, after, action)
        }
    }

    /// Handles a key press.
    pub fn handle_key(&mut self, code: KeyCode, ctrl: bool, now: u64) -> (action: Action)
        requires
            old(self).wf(),
            old(self).has_room(now),
        ensures
            final(self).wf(),
            old(self).key_step(code, ctrl, now, *final(self), action),
    {
        if self.palette.is_some() {
            return self.palette_key(code, ctrl, now);
        }
        if self.ui.confirm().is_some() {
            return self.confirm_key(code, ctrl);
        }
        if self.ui.review().is_some() {
            return self.review_key(code, ctrl, now);
        }
        if self.freeable_open {
            match code {
                KeyCode::Char('q') => {
                    return Action::Quit;
                },
                KeyCode::Char('c') if ctrl => {
                    return Action::Quit;
                },
                KeyCode::Char('f') | KeyCode::Esc => {
                    self.freeable_open = false;
                },
                _ => {},
            }
            return Action::Continue;
        }
        if self.ui.cheatsheet_open() {
            match code {
                KeyCode::Char('q') => {
                    return Action::Quit;
                },
                KeyCode::Char('c') if ctrl => {
                    return Action::Quit;
                },
                KeyCode::Char('?') | KeyCode::Esc => self.ui.close_cheatsheet(),
                _ => {},
            }
            return Action::Continue;
        }
        self.main_key(code, ctrl, now)
    }
}

/// Whether a palette searches commands.
pub open spec fn in_command_mode(p: PaletteView) -> bool {
    p.buffer.len() > 0 && p.buffer[0] == '>'
}

/// Whether a palette shows the saved queries: its box is empty and there are
/// some.
pub open spec fn browses_saved(p: PaletteView, saved: Seq<String>) -> bool {
    p.buffer.len() == 0 && p.history_cursor is None && saved.len() > 0
}

/// The palette with the next or the previous entry of a list selected, if there
/// is one.
pub open spec fn selection_moved(p: PaletteView, down: bool, len: nat) -> PaletteView {
    PaletteView {
        list_selected: if down {
            if p.list_selected + 1 < len {
                p.list_selected + 1
            } else {
                p.list_selected
            }
        } else if p.list_selected > 0 {
            (p.list_selected - 1) as nat
        } else {
            0
        },
        ..p
    }
}

/// The palette after an editing key.
pub open spec fn edited(p: PaletteView, code: KeyCode, ctrl: bool) -> PaletteView {
    match code {
        KeyCode::Backspace => p.backspaced(),
        KeyCode::Delete => p.deleted(),
        KeyCode::Left => PaletteView {
            cursor: if p.cursor > 0 {
                (p.cursor - 1) as nat
            } else {
                0
            },
            ..p
        },
        KeyCode::Right => PaletteView {
            cursor: if p.cursor < p.buffer.len() {
                p.cursor + 1
            } else {
                p.cursor
            },
            ..p
        },
        KeyCode::Home => PaletteView { cursor: 0, ..p },
        KeyCode::End => PaletteView { cursor: p.buffer.len(), ..p },
        KeyCode::Char(c) => if ctrl {
            p
        } else {
            p.inserted(c)
        },
        _ => p,
    }
}

fn shows_saved(p: &PaletteState, saved: usize) -> (r: bool)
    ensures
        r == (p@.buffer.len() == 0 && p@.history_cursor is None && saved > 0),
{
    p.buffer.len() == 0 && p.history_cursor.is_none() && saved > 0
}

/// The commands, and those that a palette's text matches, best first.
pub(crate) fn ranked_commands(p: &PaletteState) -> (r: (Vec<usize>, Vec<PaletteCommand>))
    requires
        in_command_mode(p@),
    ensures
        palette::rows_of(r.1@) == palette::command_table(),
        palette::is_ranking(p@.buffer.skip(1), palette::command_table(), r.0@),
        forall|i: int| 0 <= i < r.0@.len() ==> #[trigger] r.0@[i] < r.1@.len(),
{
    let commands = all_commands();
    let content = p.content();
    proof {
        assert forall|i: int| 0 <= i < commands@.len() implies palette::score_fits(
            content@,
            (#[trigger] commands@[i]).label@,
        ) by {
            palette::lemma_labels_are_short(i);
            assert(palette::rows_of(commands@)[i] == commands@[i].row());
        }
    }
    let r = filter_commands(content.as_str(), commands.as_slice());
    (r, commands)
}

impl Session {
    /// Whether a modal or the palette is open.
    pub open spec fn covered(&self) -> bool {
        ||| self.palette is Some
        ||| self.ui.confirm is Some
        ||| self.ui.review is Some
        ||| self.freeable_open
        ||| self.ui.cheatsheet_open
    }

    /// Whether at most one of the modals and the palette is open.
    pub open spec fn one_surface(&self) -> bool {
        &&& self.palette is Some ==> !self.palette_closed().covered()
        &&& self.ui.confirm is Some ==> self.ui.review is None && !self.freeable_open
            && !self.ui.cheatsheet_open
        &&& self.ui.review is Some ==> !self.freeable_open && !self.ui.cheatsheet_open
        &&& self.freeable_open ==> !self.ui.cheatsheet_open
    }
}

/// Ctrl-C quits, whatever is open.
pub proof fn law_interrupt_quits(s: Session, now: u64, t: Session, action: Action)
    requires
        s.key_step(KeyCode::Char('c'), true, now, t, action),
    ensures
        action is Quit,
        t == s,
{
}

/// `q` quits from everywhere but the palette, where it is text, and the delete
/// confirmation, where it cancels.
pub proof fn law_q_quits(s: Session, now: u64, t: Session, action: Action)
    requires
        s.palette is None,
        s.ui.confirm is None,
        s.key_step(KeyCode::Char('q'), false, now, t, action),
    ensures
        action is Quit,
{
}

/// Nothing is deleted but the marks, all of them and at once, after a `y` in the
/// open confirmation, and never while the scan runs.
pub proof fn law_only_confirmed_marks_are_deleted(
    s: Session,
    code: KeyCode,
    ctrl: bool,
    now: u64,
    t: Session,
    marks: Vec<MarkedEntry>,
)
    requires
        s.key_step(code, ctrl, now, t, Action::Delete(marks)),
    ensures
        s.ui.confirm is Some,
        code == KeyCode::Char('y'),
        !s.scanning,
        marks@ == s.ui.marks@,
        t.ui.marks@.len() == 0,
        t.ui.confirm is None,
{
    lemma_nothing_but_confirm_deletes(s, code, ctrl, now, t, Action::Delete(marks));
}

proof fn lemma_nothing_but_confirm_deletes(
    s: Session,
    code: KeyCode,
    ctrl: bool,
    now: u64,
    t: Session,
    action: Action,
)
    requires
        s.key_step(code, ctrl, now, t, action),
        action is Delete,
    ensures
        s.palette is None,
        s.ui.confirm is Some,
{
}

/// While the scan runs, no key marks anything, asks for a confirmation, deletes
/// or applies a query.
pub proof fn law_scan_locks_deletion(
    s: Session,
    code: KeyCode,
    ctrl: bool,
    now: u64,
    t: Session,
    action: Action,
)
    requires
        s.wf(),
        s.scanning,
        s.key_step(code, ctrl, now, t, action),
    ensures
        !(action is Delete),
        !(action is OpenConfirm),
        !(action is MarkFlatRow),
        !(action is ApplyQuery),
        t.scanning,
        t.ui.marks@.len() <= s.ui.marks@.len(),
{
}

/// While the delete confirmation is open, no key opens anything else: any key
/// but `y` and Ctrl-C closes it and leaves the marks.
pub proof fn law_confirmation_captures_keys(
    s: Session,
    code: KeyCode,
    ctrl: bool,
    now: u64,
    t: Session,
    action: Action,
)
    requires
        s.one_surface(),
        s.ui.confirm is Some,
        s.key_step(code, ctrl, now, t, action),
        code != KeyCode::Char('y'),
        !is_interrupt(code, ctrl),
    ensures
        action is Continue,
        t.ui.confirm is None,
        t.ui.marks@ == s.ui.marks@,
        !t.covered(),
{
}

/// While the palette is open, a key changes nothing under it, unless Enter
/// commits, and only Ctrl-C quits.
pub proof fn law_palette_owns_the_keyboard(
    s: Session,
    code: KeyCode,
    ctrl: bool,
    now: u64,
    t: Session,
    action: Action,
)
    requires
        s.palette is Some,
        code != KeyCode::Enter,
        s.key_step(code, ctrl, now, t, action),
    ensures
        t.ui == s.ui,
        t.filter == s.filter,
        action is Quit ==> is_interrupt(code, ctrl),
{
}

/// Esc quits only from the tree, with nothing open and no filter.
pub proof fn law_escape_peels(s: Session, ctrl: bool, now: u64, t: Session, action: Action)
    requires
        s.key_step(KeyCode::Esc, ctrl, now, t, action),
        action is Quit,
    ensures
        !s.covered(),
        s.ui.mode is Tree,
        s.filter is None,
{
}

/// No key opens a second surface over an open one.
pub proof fn law_one_surface_at_a_time(
    s: Session,
    code: KeyCode,
    ctrl: bool,
    now: u64,
    t: Session,
    action: Action,
)
    requires
        s.one_surface(),
        s.key_step(code, ctrl, now, t, action),
    ensures
        t.one_surface(),
        action is OpenConfirm ==> !t.covered(),
{
}

/// Marks survive navigation.
pub proof fn law_navigation_keeps_the_marks(s: Session, dir: DirId, t: Session, action: Action)
    requires
        s.opens_row(t, action) || s.goes_up(t, action) || s.jumps_up(dir, t, action),
    ensures
        t.ui.marks == s.ui.marks,
        t.ui.marked_set == s.ui.marked_set,
{
}

/// A sort key without a meaning in the active mode changes nothing but the
/// footer message.
pub proof fn law_unavailable_sort_is_inert(s: Session, key: SortKey, now: u64, t: Session)
    requires
        !sortable(s.ui.mode, key),
        s.sorts_by(key, now, t),
    ensures
        t.ui == s.ui,
        t.flash.says(NOT_AVAILABLE@, now),
{
}

/// A message stays in the footer for four seconds.
pub proof fn law_messages_last_four_seconds(f: Flash, text: Seq<char>, now: u64)
    requires
        f.says(text, now),
    ensures
        f.message matches Some(m) && m.0@ == text && m.1 - now == 4_000_000_000,
{
}

/// The sort keys are those that the cheatsheet lists, each for the field it names there.
pub proof fn law_sort_keys_are_the_listed_ones(i: int)
    requires
        0 <= i < 6,
    ensures
        ({
            let row = keymap::extra_table()[i];
            let keys = seq![
                SortKey::Disk,
                SortKey::Apparent,
                SortKey::Name,
                SortKey::Mtime,
                SortKey::Items,
                SortKey::Errors,
            ];
            let words = seq![
                "sort by real (disk) size"@,
                "sort by apparent size"@,
                "sort by name"@,
                "sort by modification time"@,
                "sort by item count"@,
                "sort by subtree error count"@,
            ];
            &&& row.0.len() == 1
            &&& sort_key_of(KeyCode::Char(row.0[0])) == Some(keys[i])
            &&& text::starts_with(row.1, words[i])
        }),
{
    reveal_strlit("d");
    reveal_strlit("a");
    reveal_strlit("n");
    reveal_strlit("m");
    reveal_strlit("c");
    reveal_strlit("e");
    reveal_strlit("sort by real (disk) size");
    reveal_strlit("sort by apparent size");
    reveal_strlit("sort by name");
    reveal_strlit("sort by modification time");
    reveal_strlit("sort by item count");
    reveal_strlit("sort by subtree error count");
    reveal_strlit("sort by real (disk) size [default; tree/flat/breakdown]");
    reveal_strlit("sort by apparent size [tree/flat/breakdown]");
    reveal_strlit("sort by name [tree/flat/breakdown]");
    reveal_strlit("sort by modification time [tree only]");
    reveal_strlit("sort by item count [tree: subtree items; breakdown: group entries]");
    reveal_strlit("sort by subtree error count [tree only]");
    assert("sort by real (disk) size [default; tree/flat/breakdown]"@.take(24)
        =~= "sort by real (disk) size"@);
    assert("sort by apparent size [tree/flat/breakdown]"@.take(21) =~= "sort by apparent size"@);
    assert("sort by name [tree/flat/breakdown]"@.take(12) =~= "sort by name"@);
    assert("sort by modification time [tree only]"@.take(25) =~= "sort by modification time"@);
    assert("sort by item count [tree: subtree items; breakdown: group entries]"@.take(18)
        =~= "sort by item count"@);
    assert("sort by subtree error count [tree only]"@.take(27) =~= "sort by subtree error count"@);
    assert("d"@[0] == 'd' && "a"@[0] == 'a' && "n"@[0] == 'n');
    assert("m"@[0] == 'm' && "c"@[0] == 'c' && "e"@[0] == 'e');
}

/// The tree sorts by every field, the list of files by sizes and name, the groups by
/// their entries too; ages and errors belong to the tree.
pub proof fn law_views_sort_by_what_they_show(key: SortKey)
    ensures
        sortable(ViewMode::Tree, key),
        key is Mtime || key is Errors ==> !sortable(ViewMode::FlatTop, key) && !sortable(
            ViewMode::Breakdown,
            key,
        ),
        key is Items ==> !sortable(ViewMode::FlatTop, key) && sortable(ViewMode::Breakdown, key),
        key is Disk || key is Apparent || key is Name ==> sortable(ViewMode::FlatTop, key)
            && sortable(ViewMode::Breakdown, key),
{
}

/// A sort key sorts: the table is sorted by its field afterwards, another press turns the
/// order round, and the marks stay.
pub proof fn law_sort_keys_sort(s: Session, code: KeyCode, key: SortKey, now: u64, t: Session, action: Action)
    requires
        !s.covered(),
        s.ui.mode is Tree,
        sort_key_of(code) == Some(key),
        s.key_step(code, false, now, t, action),
    ensures
        action is Continue,
        t.ui.sort.key == key,
        s.ui.sort.key == key ==> t.ui.sort.descending != s.ui.sort.descending,
        t.ui.sorted(),
        t.ui.marks@ == s.ui.marks@,
{
}

/// Enter opens the directory under the cursor: the request names it, and the running scan
/// is asked for it.
pub proof fn law_enter_opens_the_row(s: Session, now: u64, t: Session, action: Action, row: Row)
    requires
        s.wf(),
        !s.covered(),
        s.ui.mode is Tree,
        s.ui.pending_nav is None,
        s.ui.row_at(s.ui.cursor) == Some(row),
        s.key_step(KeyCode::Enter, false, now, t, action),
    ensures
        row.dir matches Some(d) ==> t.ui.pending_nav == Some(d) && t.ui.stack@.last() == (
            s.ui.snapshot.dir,
            s.ui.cursor,
        ) && (s.scanning ==> action == Action::RequestNav(d)) && (!s.scanning
            ==> action is Continue),
        row.dir is None ==> t.ui == s.ui && action is Continue,
{
    let r = choose|r: Option<DirId>|
        #[trigger] s.ui.descends(t.ui, r) && s.nav_action(r, action);
    state::law_descending_opens_the_row(s.ui, t.ui, r, row);
}

/// Backspace goes up: the request names the parent, and the running scan is asked for it.
pub proof fn law_backspace_goes_up(s: Session, now: u64, t: Session, action: Action)
    requires
        s.wf(),
        !s.covered(),
        s.ui.mode is Tree,
        s.ui.pending_nav is None,
        s.key_step(KeyCode::Backspace, false, now, t, action),
    ensures
        s.ui.snapshot.parent matches Some(d) ==> t.ui.pending_nav == Some(d) && (s.scanning
            ==> action == Action::RequestNav(d)),
        s.ui.snapshot.parent is None ==> t.ui == s.ui && action is Continue,
        !s.scanning ==> action is Continue,
{
    let r = choose|r: Option<DirId>|
        #[trigger] s.ui.ascends(t.ui, r) && s.nav_action(r, action);
    state::law_ascending_asks_for_the_parent(s.ui, t.ui, r);
}

/// Space marks the row under the cursor once the scan is over; while a filter hides part of
/// a directory that directory cannot be marked, and the footer says why not.
pub proof fn law_space_marks_the_row(s: Session, now: u64, t: Session, action: Action, row: Row)
    requires
        s.wf(),
        !s.covered(),
        s.ui.mode is Tree,
        s.ui.row_at(s.ui.cursor) == Some(row),
        !s.ui.marked_set@.contains(row.node.raw),
        s.key_step(KeyCode::Char(' '), false, now, t, action),
    ensures
        action is Continue,
        s.scanning || s.filter is Some && row.is_dir ==> t.ui == s.ui && t.flash.message is Some,
        row.is_dir && row.dir is None ==> t.ui == s.ui,
        !s.scanning && s.ui.snapshot.stats.root_complete && !(s.filter is Some && row.is_dir) && !(
        row.is_dir && row.dir is None) ==> t.ui.marks@.len() == s.ui.marks@.len() + 1
            && t.ui.marks@.last().node == row.node && t.ui.marks@.last().disk == row.disk,
{
}

/// `D` asks for a confirmation exactly if something is marked and the scan is over, and
/// deletes nothing by itself.
pub proof fn law_deletion_is_asked_for(s: Session, now: u64, t: Session, action: Action)
    requires
        !s.covered(),
        s.key_step(KeyCode::Char('D'), false, now, t, action),
    ensures
        action is OpenConfirm <==> s.ui.marks@.len() > 0 && !s.scanning,
        t.ui == s.ui,
        !(action is OpenConfirm) ==> action is Continue && t.flash.message is Some,
{
}

/// The review opens on the first mark, moves mark by mark, and closes on its key; Space in
/// it takes out the mark under its cursor.
pub proof fn law_review_keys(s: Session, code: KeyCode, now: u64, t: Session, action: Action, c: usize)
    requires
        s.wf(),
        s.palette is None,
        s.ui.confirm is None,
        s.ui.review == Some(ReviewState { cursor: c }),
        c < s.ui.marks@.len(),
        s.key_step(code, false, now, t, action),
    ensures
        code == KeyCode::Char('j') ==> t.ui.review == Some(
            ReviewState { cursor: if c + 1 < s.ui.marks@.len() { (c + 1) as usize } else { c } },
        ),
        code == KeyCode::Char('k') ==> t.ui.review == Some(
            ReviewState { cursor: if c > 0 { (c - 1) as usize } else { c } },
        ),
        code == KeyCode::Char(' ') ==> t.ui.marks@ == s.ui.marks@.remove(c as int),
        code == KeyCode::Char('v') || code == KeyCode::Esc ==> t.ui.review is None && t.ui.marks@
            == s.ui.marks@,
        code == KeyCode::Char('D') && !s.scanning ==> action is OpenConfirm && t.ui.review is None
            && t.ui.marks@ == s.ui.marks@,
{
}

/// A review opens on the first mark, and not without marks.
pub proof fn law_review_opens_on_the_first_mark(s: Session, now: u64, t: Session, action: Action)
    requires
        !s.covered(),
        s.key_step(KeyCode::Char('v'), false, now, t, action),
    ensures
        s.ui.marks@.len() > 0 ==> t.ui.review == Some(ReviewState { cursor: 0 }),
        s.ui.marks@.len() == 0 ==> t.ui == s.ui && t.flash.message is Some,
        action is Continue,
{
}

/// The palette opens with the active filter's text, ready to be changed.
pub proof fn law_palette_opens_with_the_filter(s: Session, now: u64, t: Session, action: Action)
    requires
        !s.covered(),
        s.key_step(KeyCode::Char('/'), false, now, t, action),
    ensures
        action is Continue,
        t.palette is Some,
        s.filter matches Some(text) ==> t.palette.unwrap()@.buffer == text@
            && t.palette.unwrap()@.cursor == text@.len(),
        s.filter is None ==> t.palette.unwrap()@.buffer.len() == 0,
        t.ui == s.ui,
{
}

/// Enter applies the query that was typed, and it is the active filter then; an empty one
/// clears the filter; and while the scan runs nothing is applied.
pub proof fn law_enter_applies_the_query(
    s: Session,
    p: PaletteView,
    now: u64,
    t: Session,
    action: Action,
)
    requires
        s.palette is Some,
        s.palette.unwrap()@ == p,
        !in_command_mode(p),
        !browses_saved(p, s.saved@),
        s.key_step(KeyCode::Enter, false, now, t, action),
    ensures
        t.palette is None,
        t.ui == s.ui,
        s.scanning ==> action is Continue && t.filter == s.filter,
        !s.scanning && p.buffer.len() == 0 ==> action is ClearFilter && t.filter is None,
        !s.scanning && p.buffer.len() > 0 ==> (action matches Action::ApplyQuery(q) && q@
            == p.buffer) && (t.filter matches Some(q) && q@ == p.buffer),
{
}

/// Enter on a saved query applies that one, whichever is selected.
pub proof fn law_enter_applies_the_selected_query(
    s: Session,
    p: PaletteView,
    now: u64,
    t: Session,
    action: Action,
)
    requires
        s.palette is Some,
        s.palette.unwrap()@ == p,
        p.buffer.len() == 0,
        p.history_cursor is None,
        p.list_selected < s.saved@.len(),
        s.saved@[p.list_selected as int]@.len() > 0,
        !s.scanning,
        s.key_step(KeyCode::Enter, false, now, t, action),
    ensures
        action matches Action::ApplyQuery(q) && q@ == s.saved@[p.list_selected as int]@,
        t.filter matches Some(q) && q@ == s.saved@[p.list_selected as int]@,
        t.palette is None,
{
}

/// Enter in the command list runs the selected command, the one that the ranking puts
/// there, and closes the palette.
pub proof fn law_enter_runs_the_selected_command(
    s: Session,
    p: PaletteView,
    r: Seq<usize>,
    now: u64,
    t: Session,
    action: Action,
)
    requires
        s.palette is Some,
        s.palette.unwrap()@ == p,
        p.buffer.len() > 0 && p.buffer[0] == '>',
        palette::is_ranking(p.buffer.skip(1), palette::command_table(), r),
        s.key_step(KeyCode::Enter, false, now, t, action),
    ensures
        p.list_selected < r.len() ==> s.palette_closed().runs(
            palette::command_table()[r[p.list_selected as int] as int].action,
            now,
            t,
            action,
        ),
        p.list_selected >= r.len() ==> t == s && action is Continue,
{
    let q = choose|q: Seq<usize>|
        {
            &&& #[trigger] palette::is_ranking(p.buffer.skip(1), palette::command_table(), q)
            &&& if p.list_selected < q.len() {
                s.palette_closed().runs(
                    palette::command_table()[q[p.list_selected as int] as int].action,
                    now,
                    t,
                    action,
                )
            } else {
                s.stays(t, action)
            }
        };
    palette::law_ranking_unique(p.buffer.skip(1), palette::command_table(), q, r);
}

/// A command does what its key does: with nothing open, running it leads where pressing the
/// key leads.
pub proof fn law_commands_do_what_keys_do(s: Session, now: u64, t: Session, action: Action)
    requires
        !s.covered(),
    ensures
        s.runs(CommandAction::ReviewMarks, now, t, action) == s.key_step(
            KeyCode::Char('v'),
            false,
            now,
            t,
            action,
        ),
        s.runs(CommandAction::DeleteMarked, now, t, action) == s.key_step(
            KeyCode::Char('D'),
            false,
            now,
            t,
            action,
        ),
        s.runs(CommandAction::FreeablePanel, now, t, action) == s.key_step(
            KeyCode::Char('f'),
            false,
            now,
            t,
            action,
        ),
        s.runs(CommandAction::Quit, now, t, action) == s.key_step(
            KeyCode::Char('q'),
            false,
            now,
            t,
            action,
        ),
{
}

/// Esc closes one thing at a time: the palette, a panel, the view, the filter, and only
/// then the program.
pub proof fn law_escape_closes_one_thing(s: Session, now: u64, t: Session, action: Action)
    requires
        s.one_surface(),
        s.key_step(KeyCode::Esc, false, now, t, action),
    ensures
        s.covered() ==> !t.covered() && action is Continue && t.filter == s.filter && t.ui.mode
            == s.ui.mode,
        !s.covered() && !(s.ui.mode is Tree) ==> t.ui.mode is Tree && action is Continue && t.filter
            == s.filter,
        !s.covered() && s.ui.mode is Tree && s.filter is Some ==> action is ClearFilter
            && t.filter is None,
        t.ui.marks@ == s.ui.marks@,
{
}

/// In the palette a character is text at the cursor, whatever else it stands for, and the
/// editing keys edit.
pub proof fn law_palette_keys_edit(
    s: Session,
    p: PaletteView,
    c: char,
    code: KeyCode,
    now: u64,
    t: Session,
    u: Session,
    action: Action,
)
    requires
        s.palette is Some,
        s.palette.unwrap()@ == p,
        p.wf(),
        s.key_step(KeyCode::Char(c), false, now, t, action),
        s.key_step(code, false, now, u, action),
    ensures
        t.palette is Some && t.palette.unwrap()@.buffer == p.buffer.insert(p.cursor as int, c),
        t.ui == s.ui && action is Continue,
        code == KeyCode::Backspace && p.cursor > 0 ==> u.palette.unwrap()@.buffer
            == p.buffer.remove(p.cursor - 1),
        code == KeyCode::Delete && p.cursor < p.buffer.len() ==> u.palette.unwrap()@.buffer
            == p.buffer.remove(p.cursor as int),
        code == KeyCode::Left && p.cursor > 0 ==> u.palette.unwrap()@.cursor == p.cursor - 1,
        code == KeyCode::Right && p.cursor < p.buffer.len() ==> u.palette.unwrap()@.cursor
            == p.cursor + 1,
        code == KeyCode::Home ==> u.palette.unwrap()@.cursor == 0,
        code == KeyCode::End ==> u.palette.unwrap()@.cursor == p.buffer.len(),
{
}

/// The arrows walk the list that is shown, or else the past queries, the newest first.
pub proof fn law_arrows_walk(
    s: Session,
    p: PaletteView,
    now: u64,
    t: Session,
    action: Action,
    down: bool,
)
    requires
        s.palette is Some,
        s.palette.unwrap()@ == p,
        !in_command_mode(p),
        s.key_step(
            if down {
                KeyCode::Down
            } else {
                KeyCode::Up
            },
            false,
            now,
            t,
            action,
        ),
    ensures
        t.palette is Some,
        browses_saved(p, s.saved@) && down && p.list_selected + 1 < s.saved@.len()
            ==> t.palette.unwrap()@.list_selected == p.list_selected + 1,
        browses_saved(p, s.saved@) && !down && p.list_selected > 0
            ==> t.palette.unwrap()@.list_selected == p.list_selected - 1,
        browses_saved(p, s.saved@) ==> t.palette.unwrap()@.buffer == p.buffer,
        !browses_saved(p, s.saved@) && !down && p.history_cursor is None && s.history@.len() > 0
            ==> t.palette.unwrap()@.buffer == s.history@.last()@,
{
}

} // verus!
