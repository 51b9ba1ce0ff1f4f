//! The keyboard and mouse map: what each key does, and how the cheatsheet
//! words it.

use crate::state;
use crate::state::{UiState, ViewMode};
use vstd::prelude::*;

verus! {

/// A key.
#[derive(Debug, Clone, Copy, PartialEq, Eq, Hash, Structural)]
pub enum KeyCode {
    Char(char),
    Down,
    Up,
    Left,
    Right,
    Enter,
    Esc,
    Backspace,
    Delete,
    Home,
    End,
    /// Any key that has no meaning here.
    Other,
}

/// An action whose entire effect is on the view state.
#[derive(Debug, Clone, Copy, PartialEq, Eq, Structural)]
pub enum SimpleAction {
    MoveDown,
    MoveUp,
    MoveTop,
    MoveBottom,
    ToggleApparent,
    UnmarkAll,
    OpenCheatsheet,
    ToggleZen,
    ToggleFlatTop,
    ToggleBreakdown,
}

/// One keyboard shortcut whose entire effect is on the view state.
#[derive(Debug)]
pub struct SimpleKey {
    /// Every key code that triggers the action.
    pub codes: Vec<KeyCode>,
    /// How the keys are shown in the cheatsheet.
    pub keys: &'static str,
    pub action: &'static str,
    pub apply: SimpleAction,
}

/// One documented key that needs more than the view state.
#[derive(Debug, Clone, Copy)]
pub struct ExtraKey {
    pub keys: &'static str,
    pub action: &'static str,
}

/// What a shortcut is, as values.
pub struct KeyRow {
    pub codes: Seq<KeyCode>,
    pub keys: Seq<char>,
    pub action: Seq<char>,
    pub apply: SimpleAction,
}

impl SimpleKey {
    /// The shortcut as values.
    pub open spec fn row(&self) -> KeyRow {
        KeyRow {
            codes: self.codes@,
            keys: self.keys@,
            action: self.action@,
            apply: self.apply,
        }
    }
}

/// The shortcuts whose entire effect is on the view state.
pub open spec fn simple_table() -> Seq<KeyRow> {
    seq![
        KeyRow {
            codes: seq![KeyCode::Down, KeyCode::Char('j')],
            keys: "↓/j"@,
            action: "move down"@,
            apply: SimpleAction::MoveDown,
        },
        KeyRow {
            codes: seq![KeyCode::Up, KeyCode::Char('k')],
            keys: "↑/k"@,
            action: "move up"@,
            apply: SimpleAction::MoveUp,
        },
        KeyRow {
            codes: seq![KeyCode::Char('g')],
            keys: "g"@,
            action: "jump to the top"@,
            apply: SimpleAction::MoveTop,
        },
        KeyRow {
            codes: seq![KeyCode::Char('G')],
            keys: "G"@,
            action: "jump to the bottom"@,
            apply: SimpleAction::MoveBottom,
        },
        KeyRow {
            codes: seq![KeyCode::Char('p')],
            keys: "p"@,
            action: "toggle the apparent-size column"@,
            apply: SimpleAction::ToggleApparent,
        },
        KeyRow {
            codes: seq![KeyCode::Char('u')],
            keys: "u"@,
            action: "clear all marks"@,
            apply: SimpleAction::UnmarkAll,
        },
        KeyRow {
            codes: seq![KeyCode::Char('?')],
            keys: "?"@,
            action: "show this cheatsheet"@,
            apply: SimpleAction::OpenCheatsheet,
        },
        KeyRow {
            codes: seq![KeyCode::Char('z')],
            keys: "z"@,
            action: "toggle zen mode (table only: no cards, gauge or wheel)"@,
            apply: SimpleAction::ToggleZen,
        },
        KeyRow {
            codes: seq![KeyCode::Char('t')],
            keys: "t"@,
            action: "flat top files across the whole scan (t again returns to tree)"@,
            apply: SimpleAction::ToggleFlatTop,
        },
        KeyRow {
            codes: seq![KeyCode::Char('b')],
            keys: "b"@,
            action: "pattern breakdown (b again returns to tree)"@,
            apply: SimpleAction::ToggleBreakdown,
        },
    ]
}

/// One shortcut as a row of the table.
fn simple_key(
    codes: Vec<KeyCode>,
    keys: &'static str,
    action: &'static str,
    apply: SimpleAction,
) -> (k: SimpleKey)
    ensures
        k.row() == (KeyRow { codes: codes@, keys: keys@, action: action@, apply }),
{
    SimpleKey { codes, keys, action, apply }
}

/// The shortcuts whose entire effect is on the view state, in the cheatsheet's
/// order.
pub fn simple_keys() -> (r: Vec<SimpleKey>)
    ensures
        r@.len() == simple_table().len(),
        forall|i: int| 0 <= i < r@.len() ==> (#[trigger] r@[i]).row() == simple_table()[i],
{
    let mut r: Vec<SimpleKey> = Vec::new();
    let ghost t = simple_table();
    r.push(
        simple_key(
            vec![KeyCode::Down, KeyCode::Char('j')],
            "↓/j",
            "move down",
            SimpleAction::MoveDown,
        ),
    );
    assert(r@[0].row().codes =~= t[0].codes);
    r.push(
        simple_key(
            vec![KeyCode::Up, KeyCode::Char('k')],
            "↑/k",
            "move up",
            SimpleAction::MoveUp,
        ),
    );
    assert(r@[1].row().codes =~= t[1].codes);
    r.push(
        simple_key(vec![KeyCode::Char('g')], "g", "jump to the top", SimpleAction::MoveTop),
    );
    assert(r@[2].row().codes =~= t[2].codes);
    r.push(
        simple_key(
            vec![KeyCode::Char('G')],
            "G",
            "jump to the bottom",
            SimpleAction::MoveBottom,
        ),
    );
    assert(r@[3].row().codes =~= t[3].codes);
    r.push(
        simple_key(
            vec![KeyCode::Char('p')],
            "p",
            "toggle the apparent-size column",
            SimpleAction::ToggleApparent,
        ),
    );
    assert(r@[4].row().codes =~= t[4].codes);
    r.push(
        simple_key(vec![KeyCode::Char('u')], "u", "clear all marks", SimpleAction::UnmarkAll),
    );
    assert(r@[5].row().codes =~= t[5].codes);
    r.push(
        simple_key(
            vec![KeyCode::Char('?')],
            "?",
            "show this cheatsheet",
            SimpleAction::OpenCheatsheet,
        ),
    );
    assert(r@[6].row().codes =~= t[6].codes);
    r.push(
        simple_key(
            vec![KeyCode::Char('z')],
            "z",
            "toggle zen mode (table only: no cards, gauge or wheel)",
            SimpleAction::ToggleZen,
        ),
    );
    assert(r@[7].row().codes =~= t[7].codes);
    r.push(
        simple_key(
            vec![KeyCode::Char('t')],
            "t",
            "flat top files across the whole scan (t again returns to tree)",
            SimpleAction::ToggleFlatTop,
        ),
    );
    assert(r@[8].row().codes =~= t[8].codes);
    r.push(
        simple_key(
            vec![KeyCode::Char('b')],
            "b",
            "pattern breakdown (b again returns to tree)",
            SimpleAction::ToggleBreakdown,
        ),
    );
    assert(r@[9].row().codes =~= t[9].codes);
    r
}

/// What a key does, if its entire effect is on the view state.
pub open spec fn action_of(code: KeyCode) -> Option<SimpleAction> {
    match code {
        KeyCode::Down => Some(SimpleAction::MoveDown),
        KeyCode::Up => Some(SimpleAction::MoveUp),
        KeyCode::Char(c) => if c == 'j' {
            Some(SimpleAction::MoveDown)
        } else if c == 'k' {
            Some(SimpleAction::MoveUp)
        } else if c == 'g' {
            Some(SimpleAction::MoveTop)
        } else if c == 'G' {
            Some(SimpleAction::MoveBottom)
        } else if c == 'p' {
            Some(SimpleAction::ToggleApparent)
        } else if c == 'u' {
            Some(SimpleAction::UnmarkAll)
        } else if c == '?' {
            Some(SimpleAction::OpenCheatsheet)
        } else if c == 'z' {
            Some(SimpleAction::ToggleZen)
        } else if c == 't' {
            Some(SimpleAction::ToggleFlatTop)
        } else if c == 'b' {
            Some(SimpleAction::ToggleBreakdown)
        } else {
            None
        },
        _ => None,
    }
}

/// Looks a key up.
pub fn simple_action(code: KeyCode) -> (r: Option<SimpleAction>)
    ensures
        r == action_of(code),
{
    match code {
        KeyCode::Down | KeyCode::Char('j') => Some(SimpleAction::MoveDown),
        KeyCode::Up | KeyCode::Char('k') => Some(SimpleAction::MoveUp),
        KeyCode::Char('g') => Some(SimpleAction::MoveTop),
        KeyCode::Char('G') => Some(SimpleAction::MoveBottom),
        KeyCode::Char('p') => Some(SimpleAction::ToggleApparent),
        KeyCode::Char('u') => Some(SimpleAction::UnmarkAll),
        KeyCode::Char('?') => Some(SimpleAction::OpenCheatsheet),
        KeyCode::Char('z') => Some(SimpleAction::ToggleZen),
        KeyCode::Char('t') => Some(SimpleAction::ToggleFlatTop),
        KeyCode::Char('b') => Some(SimpleAction::ToggleBreakdown),
        _ => None,
    }
}

/// Whether an action takes one view state to another.
pub open spec fn applied(before: UiState, after: UiState, action: SimpleAction) -> bool {
    match action {
        SimpleAction::MoveDown => after == UiState {
            cursor: if before.cursor + 1 < before.order@.len() {
                (before.cursor + 1) as usize
            } else {
                before.cursor
            },
            hover: None,
            ..before
        },
        SimpleAction::MoveUp => after == UiState {
            cursor: if before.cursor > 0 {
                (before.cursor - 1) as usize
            } else {
                0
            },
            hover: None,
            ..before
        },
        SimpleAction::MoveTop => after == UiState { cursor: 0, hover: None, ..before },
        SimpleAction::MoveBottom => after == UiState {
            cursor: state::clamped(usize::MAX, before.order@.len()),
            hover: None,
            ..before
        },
        SimpleAction::ToggleApparent => after == UiState {
            show_apparent: !before.show_apparent,
            ..before
        },
        SimpleAction::UnmarkAll => {
            &&& after.marks@.len() == 0
            &&& after.marked_set@ == Set::<u32>::empty()
            &&& after == UiState { marks: after.marks, marked_set: after.marked_set, ..before }
        },
        SimpleAction::OpenCheatsheet => after == UiState { cheatsheet_open: true, ..before },
        SimpleAction::ToggleZen => after == UiState { zen: !before.zen, ..before },
        SimpleAction::ToggleFlatTop => after == UiState {
            mode: if before.mode is FlatTop {
                ViewMode::Tree
            } else {
                ViewMode::FlatTop
            },
            ..before
        },
        SimpleAction::ToggleBreakdown => after == UiState {
            mode: if before.mode is Breakdown {
                ViewMode::Tree
            } else {
                ViewMode::Breakdown
            },
            ..before
        },
    }
}

/// Runs an action.
pub fn apply(action: SimpleAction, ui: &mut UiState)
    requires
        old(ui).wf(),
    ensures
        final(ui).wf(),
        applied(*old(ui), *final(ui), action),
{
    match action {
        SimpleAction::MoveDown => ui.move_down(),
        SimpleAction::MoveUp => ui.move_up(),
        SimpleAction::MoveTop => ui.move_top(),
        SimpleAction::MoveBottom => ui.move_bottom(),
        SimpleAction::ToggleApparent => ui.toggle_apparent(),
        SimpleAction::UnmarkAll => ui.unmark_all(),
        SimpleAction::OpenCheatsheet => ui.open_cheatsheet(),
        SimpleAction::ToggleZen => ui.toggle_zen(),
        SimpleAction::ToggleFlatTop => ui.toggle_flat_top(),
        SimpleAction::ToggleBreakdown => ui.toggle_breakdown(),
    }
}

/// Runs the action of a key; `false`, with nothing changed, if it has none here.
pub fn dispatch_simple(code: KeyCode, ui: &mut UiState) -> (r: bool)
    requires
        old(ui).wf(),
    ensures
        final(ui).wf(),
        r == action_of(code) is Some,
        match action_of(code) {
            Some(action) => applied(*old(ui), *final(ui), action),
            None => *final(ui) == *old(ui),
        },
{
    match simple_action(code) {
        Some(action) => {
            apply(action, ui);
            true
        },
        None => false,
    }
}

/// A key does what the row of the table that lists it says.
pub proof fn law_dispatch_follows_the_table(i: int, j: int)
    requires
        0 <= i < simple_table().len(),
        0 <= j < simple_table()[i].codes.len(),
    ensures
        action_of(simple_table()[i].codes[j]) == Some(simple_table()[i].apply),
{
}

/// Every key that does something is listed in the table.
pub proof fn law_table_is_complete(code: KeyCode)
    requires
        action_of(code) is Some,
    ensures
        exists|i: int| 0 <= i < simple_table().len() && (#[trigger] simple_table()[i]).codes.contains(code),
{
    let t = simple_table();
    let i: int = match action_of(code) {
        Some(SimpleAction::MoveDown) => 0,
        Some(SimpleAction::MoveUp) => 1,
        Some(SimpleAction::MoveTop) => 2,
        Some(SimpleAction::MoveBottom) => 3,
        Some(SimpleAction::ToggleApparent) => 4,
        Some(SimpleAction::UnmarkAll) => 5,
        Some(SimpleAction::OpenCheatsheet) => 6,
        Some(SimpleAction::ToggleZen) => 7,
        Some(SimpleAction::ToggleFlatTop) => 8,
        _ => 9,
    };
    assert(t[i].codes[0] == code || t[i].codes[1] == code);
    assert(t[i].codes.contains(code)) by {
        if t[i].codes[0] == code {
            assert(t[i].codes.contains(t[i].codes[0]));
        } else {
            assert(t[i].codes.contains(t[i].codes[1]));
        }
    }
}

/// No key is listed twice, and every row is labeled.
pub proof fn law_codes_are_unique(i: int, j: int, k: int, l: int)
    requires
        0 <= i < simple_table().len(),
        0 <= j < simple_table()[i].codes.len(),
        0 <= k < simple_table().len(),
        0 <= l < simple_table()[k].codes.len(),
        simple_table()[i].codes[j] == simple_table()[k].codes[l],
    ensures
        i == k,
        j == l,
        simple_table()[i].keys.len() > 0,
        simple_table()[i].action.len() > 0,
{
    reveal_strlit("↓/j");
    reveal_strlit("↑/k");
    reveal_strlit("g");
    reveal_strlit("G");
    reveal_strlit("p");
    reveal_strlit("u");
    reveal_strlit("?");
    reveal_strlit("z");
    reveal_strlit("t");
    reveal_strlit("b");
    reveal_strlit("move down");
    reveal_strlit("move up");
    reveal_strlit("jump to the top");
    reveal_strlit("jump to the bottom");
    reveal_strlit("toggle the apparent-size column");
    reveal_strlit("clear all marks");
    reveal_strlit("show this cheatsheet");
    reveal_strlit("toggle zen mode (table only: no cards, gauge or wheel)");
    reveal_strlit("flat top files across the whole scan (t again returns to tree)");
    reveal_strlit("pattern breakdown (b again returns to tree)");
}

/// The keys that need more than the view state, with what they do.
pub open spec fn extra_table() -> Seq<(Seq<char>, Seq<char>)> {
    seq![
        ("d"@, "sort by real (disk) size [default; tree/flat/breakdown]"@),
        ("a"@, "sort by apparent size [tree/flat/breakdown]"@),
        ("n"@, "sort by name [tree/flat/breakdown]"@),
        ("m"@, "sort by modification time [tree only]"@),
        ("c"@, "sort by item count [tree: subtree items; breakdown: group entries]"@),
        ("e"@, "sort by subtree error count [tree only]"@),
        (
            "⏎/l/→"@,
            "open the directory under the cursor (flat: jump to its containing directory)"@,
        ),
        ("⌫/h/←"@, "go back up to the parent [tree only]"@),
        ("Space"@, "mark/unmark the row under the cursor for deletion [tree/flat]"@),
        ("v"@, "review marked entries (Space unmarks a row, D deletes)"@),
        ("D"@, "delete the marked entries (confirm with y)"@),
        (
            "f"@,
            "freeable files: deleted-but-open files holding disk space (f/Esc closes)"@,
        ),
        (
            "Ctrl-K, /"@,
            "open the filter/command palette (query-first; > switches to commands; while open, every key but Esc/Enter/arrows/Ctrl-C is text, q included)"@,
        ),
        (
            "Esc"@,
            "close the palette, else a modal, else leave the flat/breakdown mode, else clear an active filter, else quit [from tree]"@,
        ),
        (
            "q, Ctrl-C"@,
            "quit (cancels a running scan); inside the palette only Ctrl-C quits"@,
        ),
    ]
}

/// Whether a list shows a table.
pub open spec fn shows(r: Seq<ExtraKey>, table: Seq<(Seq<char>, Seq<char>)>) -> bool {
    &&& r.len() == table.len()
    &&& forall|i: int|
        0 <= i < r.len() ==> (#[trigger] r[i]).keys@ == table[i].0 && r[i].action@ == table[i].1
}

/// The keys that need more than the view state, in the cheatsheet's order.
pub fn extra_keys() -> (r: Vec<ExtraKey>)
    ensures
        shows(r@, extra_table()),
{
    vec![
        ExtraKey {
            keys: "d",
            action: "sort by real (disk) size [default; tree/flat/breakdown]",
        },
        ExtraKey { keys: "a", action: "sort by apparent size [tree/flat/breakdown]" },
        ExtraKey { keys: "n", action: "sort by name [tree/flat/breakdown]" },
        ExtraKey { keys: "m", action: "sort by modification time [tree only]" },
        ExtraKey {
            keys: "c",
            action: "sort by item count [tree: subtree items; breakdown: group entries]",
        },
        ExtraKey { keys: "e", action: "sort by subtree error count [tree only]" },
        ExtraKey {
            keys: "⏎/l/→",
            action: "open the directory under the cursor (flat: jump to its containing directory)",
        },
        ExtraKey { keys: "⌫/h/←", action: "go back up to the parent [tree only]" },
        ExtraKey {
            keys: "Space",
            action: "mark/unmark the row under the cursor for deletion [tree/flat]",
        },
        ExtraKey { keys: "v", action: "review marked entries (Space unmarks a row, D deletes)" },
        ExtraKey { keys: "D", action: "delete the marked entries (confirm with y)" },
        ExtraKey {
            keys: "f",
            action: "freeable files: deleted-but-open files holding disk space (f/Esc closes)",
        },
        ExtraKey {
            keys: "Ctrl-K, /",
            action: "open the filter/command palette (query-first; > switches to commands; while open, every key but Esc/Enter/arrows/Ctrl-C is text, q included)",
        },
        ExtraKey {
            keys: "Esc",
            action: "close the palette, else a modal, else leave the flat/breakdown mode, else clear an active filter, else quit [from tree]",
        },
        ExtraKey {
            keys: "q, Ctrl-C",
            action: "quit (cancels a running scan); inside the palette only Ctrl-C quits",
        },
    ]
}

/// The mouse actions, with what they do.
pub open spec fn mouse_table() -> Seq<(Seq<char>, Seq<char>)> {
    seq![
        ("click a row"@, "select it"@),
        ("click again / double-click"@, "open it (like ⏎)"@),
        ("wheel over the table"@, "scroll the cursor"@),
        ("click a donut slice"@, "open that child directly"@),
        ("click a breadcrumb segment"@, "jump to that ancestor"@),
        ("click the errors card"@, "sort by subtree error count"@),
        ("move over a row"@, "update the selection card without moving the cursor"@),
    ]
}

/// The mouse actions, in the cheatsheet's order.
pub fn mouse_keys() -> (r: Vec<ExtraKey>)
    ensures
        shows(r@, mouse_table()),
{
    vec![
        ExtraKey { keys: "click a row", action: "select it" },
        ExtraKey { keys: "click again / double-click", action: "open it (like ⏎)" },
        ExtraKey { keys: "wheel over the table", action: "scroll the cursor" },
        ExtraKey { keys: "click a donut slice", action: "open that child directly" },
        ExtraKey { keys: "click a breadcrumb segment", action: "jump to that ancestor" },
        ExtraKey { keys: "click the errors card", action: "sort by subtree error count" },
        ExtraKey {
            keys: "move over a row",
            action: "update the selection card without moving the cursor",
        },
    ]
}

/// A move goes one row at a time and stops at the ends; the ends are one key away.
pub proof fn law_moves_go_row_by_row(s: UiState, t: UiState, u: UiState, v: UiState, w: UiState)
    requires
        s.wf(),
        s.order@.len() > 0,
        applied(s, t, SimpleAction::MoveDown),
        applied(s, u, SimpleAction::MoveUp),
        applied(s, v, SimpleAction::MoveTop),
        applied(s, w, SimpleAction::MoveBottom),
    ensures
        s.cursor + 1 < s.order@.len() ==> t.cursor == s.cursor + 1,
        s.cursor + 1 == s.order@.len() ==> t.cursor == s.cursor,
        s.cursor > 0 ==> u.cursor == s.cursor - 1,
        s.cursor == 0 ==> u.cursor == 0,
        v.cursor == 0,
        w.cursor == s.order@.len() - 1,
        t.marks@ == s.marks@ && u.marks@ == s.marks@ && v.marks@ == s.marks@ && w.marks@
            == s.marks@,
{
    assert(s.order@.len() == s.order.len());
}

/// Switching something twice leaves it as it was, and the three views never show
/// together: a switch leads to its view from any other, and back to the tree.
pub proof fn law_switches_go_back(s: UiState, t: UiState, u: UiState, action: SimpleAction)
    requires
        applied(s, t, action),
        applied(t, u, action),
    ensures
        action is ToggleApparent ==> u == s && t.show_apparent != s.show_apparent,
        action is ToggleZen ==> u == s && t.zen != s.zen,
        action is ToggleFlatTop ==> u.mode is Tree || t.mode is Tree,
        action is ToggleFlatTop && !(s.mode is FlatTop) ==> t.mode is FlatTop && u.mode is Tree,
        action is ToggleBreakdown && !(s.mode is Breakdown) ==> t.mode is Breakdown
            && u.mode is Tree,
        action is UnmarkAll ==> t.marks@.len() == 0 && t.cursor == s.cursor,
        action is OpenCheatsheet ==> t.cheatsheet_open,
{
}

/// A key that is a letter is shown by that letter.
pub proof fn law_letters_are_shown(i: int, c: char)
    requires
        0 <= i < simple_table().len(),
        simple_table()[i].codes.contains(KeyCode::Char(c)),
    ensures
        simple_table()[i].keys.contains(c),
{
    reveal_strlit("↓/j");
    reveal_strlit("↑/k");
    reveal_strlit("g");
    reveal_strlit("G");
    reveal_strlit("p");
    reveal_strlit("u");
    reveal_strlit("?");
    reveal_strlit("z");
    reveal_strlit("t");
    reveal_strlit("b");
    let row = simple_table()[i];
    let last = row.keys.len() - 1;
    let k = choose|k: int| 0 <= k < row.codes.len() && row.codes[k] == KeyCode::Char(c);
    assert(row.keys[last] == c);
}

} // verus!
