//! The floating dialogs: what they say, and how large they are.

use crate::keymap;
use crate::keymap::{extra_keys, mouse_keys, simple_keys, ExtraKey};
use crate::layout;
use crate::layout::{centered, Area};
use crate::lines::{
    bold, dim, faint, italic, push_line, shown, slanted, strong, tint, tinted, Line, Paints,
};
use crate::size;
use crate::size::{human_string, push_human};
use crate::state::MarkedEntry;
use crate::text;
use crate::text::{copy_str, dec_string, lossy, pad_left, pad_right, push_dec};
use crate::theme;
use crate::theme::Style;
use vstd::prelude::*;
use vstd::string::*;

verus! {

/// What a line says.
pub type Said = Seq<(Seq<char>, Style)>;

/// The screen columns that a text takes.
pub uninterp spec fn columns_of(text: Seq<char>) -> nat;

/// Measures a text in screen columns. This is `ratatui::text::Span::width`, the
/// text's Unicode width by fixed tables; the contract only names its result.
#[verifier::external_body]
fn display_width(text: &str) -> (w: usize)
    ensures
        w == columns_of(text@),
{
    ratatui::text::Span::raw(text).width()
}

/// The columns that a line takes.
pub open spec fn line_columns(l: Said) -> nat
    decreases l.len(),
{
    if l.len() == 0 {
        0
    } else {
        line_columns(l.drop_last()) + columns_of(l.last().0)
    }
}

/// The columns that the widest of some lines takes.
pub open spec fn widest(lines: Seq<Said>) -> nat
    decreases lines.len(),
{
    if lines.len() == 0 {
        0
    } else {
        let before = widest(lines.drop_last());
        let last = line_columns(lines.last());
        if last > before {
            last
        } else {
            before
        }
    }
}

fn line_width(l: &Line) -> (w: u128)
    ensures
        w == line_columns(l@),
{
    let mut w: u128 = 0;
    let mut i: usize = 0;
    assert(l@.take(0) =~= Seq::empty());
    while i < l.pieces.len()
        invariant
            i <= l.pieces@.len(),
            w == line_columns(l@.take(i as int)),
            w <= i * 0xffff_ffff_ffff_ffff,
        decreases l.pieces@.len() - i,
    {
        let n: usize = display_width(l.pieces[i].text.as_str());
        proof {
            assert(l@.take(i + 1).drop_last() =~= l@.take(i as int));
            assert(l@.take(i + 1).last() == l@[i as int]);
            assert(i * 0xffff_ffff_ffff_ffff <= 0xffff_ffff_ffff_ffff * 0xffff_ffff_ffff_ffff)
                by (nonlinear_arith)
                requires
                    0 <= i <= 0xffff_ffff_ffff_ffff,
            ;
            assert((i + 1) * 0xffff_ffff_ffff_ffff == i * 0xffff_ffff_ffff_ffff
                + 0xffff_ffff_ffff_ffff) by (nonlinear_arith);
        }
        w = w + n as u128;
        i = i + 1;
    }
    assert(l@.take(i as int) =~= l@);
    w
}

fn widest_line(lines: &Vec<Line>) -> (w: u128)
    ensures
        w == widest(shown(lines@)),
{
    let mut w: u128 = 0;
    let mut i: usize = 0;
    assert(shown(lines@).take(0) =~= Seq::empty());
    while i < lines.len()
        invariant
            i <= lines@.len(),
            w == widest(shown(lines@).take(i as int)),
        decreases lines@.len() - i,
    {
        let n: u128 = line_width(&lines[i]);
        proof {
            let s = shown(lines@);
            assert(s.take(i + 1).drop_last() =~= s.take(i as int));
            assert(s.take(i + 1).last() == lines@[i as int]@);
        }
        if n > w {
            w = n;
        }
        i = i + 1;
    }
    assert(shown(lines@).take(i as int) =~= shown(lines@));
    w
}

/// The width of a dialog whose widest line takes `columns`: two columns of
/// margin on either side, and always a column of screen beside it.
pub open spec fn dialog_width(columns: nat, screen_width: u16) -> u16 {
    let room: int = if screen_width >= 2 {
        screen_width - 2
    } else {
        0
    };
    if columns + 4 <= room {
        (columns + 4) as u16
    } else {
        room as u16
    }
}

/// The height of a dialog of some lines, with its border.
pub open spec fn dialog_height(lines: nat, screen_height: u16) -> u16 {
    if lines + 2 <= screen_height {
        (lines + 2) as u16
    } else {
        screen_height
    }
}

/// Decides the width of a dialog.
pub fn fit_width(columns: u128, screen_width: u16) -> (w: u16)
    ensures
        w == dialog_width(columns as nat, screen_width),
{
    let room: u16 = if screen_width >= 2 {
        screen_width - 2
    } else {
        0
    };
    if room >= 4 && columns <= (room - 4) as u128 {
        columns as u16 + 4
    } else {
        room
    }
}

/// Decides the height of a dialog.
pub fn fit_height(lines: usize, screen_height: u16) -> (h: u16)
    ensures
        h == dialog_height(lines as nat, screen_height),
{
    if screen_height >= 2 && lines <= (screen_height - 2) as usize {
        lines as u16 + 2
    } else {
        screen_height
    }
}

/// A dialog: its title, its lines and its place on the screen.
#[derive(Debug)]
pub struct Dialog {
    pub title: &'static str,
    pub lines: Vec<Line>,
    pub area: Area,
}

/// A marked entry with its path as text.
#[derive(Debug)]
pub struct ListedMark {
    pub path: String,
    pub is_dir: bool,
    pub disk: u64,
}

/// A listed mark as values.
pub struct ListedView {
    pub path: Seq<char>,
    pub is_dir: bool,
    pub disk: u64,
}

/// Listed marks as values.
pub open spec fn listed(marks: Seq<ListedMark>) -> Seq<ListedView> {
    Seq::new(
        marks.len(),
        |i: int|
            ListedView { path: marks[i].path@, is_dir: marks[i].is_dir, disk: marks[i].disk },
    )
}

/// Marked entries with their paths as text.
pub open spec fn listing(marks: Seq<MarkedEntry>) -> Seq<ListedView> {
    Seq::new(
        marks.len(),
        |i: int|
            ListedView {
                path: text::lossy_text(marks[i].path@),
                is_dir: marks[i].is_dir,
                disk: marks[i].disk,
            },
    )
}

/// Lists the marked entries with their paths as text.
pub fn list_marks(marks: &[MarkedEntry]) -> (r: Vec<ListedMark>)
    ensures
        listed(r@) == listing(marks@),
{
    let mut r: Vec<ListedMark> = Vec::new();
    let mut i: usize = 0;
    while i < marks.len()
        invariant
            i <= marks@.len(),
            listed(r@) == listing(marks@).take(i as int),
            r@.len() == i,
        decreases marks@.len() - i,
    {
        let m = &marks[i];
        r.push(ListedMark { path: lossy(m.path.as_slice()), is_dir: m.is_dir, disk: m.disk });
        i = i + 1;
        assert(listed(r@) =~= listing(marks@).take(i as int));
    }
    assert(listing(marks@).take(i as int) =~= listing(marks@));
    r
}

/// Paths that the confirmation lists in full.
pub const MAX_PATHS: usize = 8;

/// A path of the confirmation.
pub open spec fn path_said(m: ListedView) -> Said {
    seq![
        (
            "  "@ + m.path + (if m.is_dir {
                "/"@
            } else {
                ""@
            }),
            faint(theme::plain_style()),
        ),
    ]
}

/// The first `n` paths of the confirmation.
pub open spec fn paths_said(marks: Seq<ListedView>, n: nat) -> Seq<Said> {
    Seq::new(n, |i: int| path_said(marks[i]))
}

/// The confirmation's first lines: how much is about to go, and which paths.
pub open spec fn confirm_head(marks: Seq<ListedView>, disk: u64) -> Seq<Said> {
    let n = marks.len();
    let head: Seq<Said> = seq![
        seq![
            (
                "Delete "@ + text::dec(n) + " entries — "@ + size::human(disk) + " on disk?"@,
                theme::plain_style(),
            ),
        ],
        seq![],
    ];
    if n <= MAX_PATHS {
        head + paths_said(marks, n)
    } else {
        (head + paths_said(marks, MAX_PATHS as nat)).push(
            seq![
                (
                    "  … and "@ + text::dec((n - MAX_PATHS) as nat) + " more"@,
                    faint(theme::plain_style()),
                ),
            ],
        )
    }
}

/// The confirmation's warning about hardlinks, and its advisory about open
/// files.
pub open spec fn confirm_warnings(hardlinks: u64, advisory: Option<Seq<char>>, paints: Paints) -> Seq<
    Said,
> {
    let a: Seq<Said> = if hardlinks > 0 {
        seq![
            seq![],
            seq![
                (
                    text::dec(hardlinks as nat)
                        + " hardlinked file(s) in the selection: space is only"@,
                    tinted(paints.accent),
                ),
            ],
            seq![
                ("freed once every link to an inode is deleted"@, tinted(paints.accent)),
            ],
        ]
    } else {
        seq![]
    };
    match advisory {
        Some(text) => a.push(seq![]).push(seq![(text, tinted(paints.accent))]),
        None => a,
    }
}

/// The delete confirmation's lines.
pub open spec fn confirm_said(
    marks: Seq<ListedView>,
    disk: u64,
    hardlinks: u64,
    advisory: Option<Seq<char>>,
    paints: Paints,
) -> Seq<Said> {
    (confirm_head(marks, disk) + confirm_warnings(hardlinks, advisory, paints)).push(
        seq![],
    ).push(
        seq![
            (
                "press y to confirm — any other key cancels"@,
                strong(theme::plain_style()),
            ),
        ],
    )
}

fn push_path(lines: &mut Vec<Line>, mark: &ListedMark)
    ensures
        shown(final(lines)@) == shown(old(lines)@).push(
            path_said((ListedView { path: mark.path@, is_dir: mark.is_dir, disk: mark.disk })),
        ),
        final(lines)@.len() == old(lines)@.len() + 1,
{
    let mut s = copy_str("  ");
    s.append(mark.path.as_str());
    s.append(
        if mark.is_dir {
            "/"
        } else {
            ""
        },
    );
    push_line(lines, Line::one(s, dim(Style::plain())));
}

fn confirm_head_lines(marks: &[ListedMark], disk: u64) -> (lines: Vec<Line>)
    ensures
        shown(lines@) == confirm_head(listed(marks@), disk),
{
    let n: usize = marks.len();
    let mut lines: Vec<Line> = Vec::new();
    let mut head = copy_str("Delete ");
    push_dec(&mut head, n as u128);
    head.append(" entries — ");
    push_human(&mut head, disk);
    head.append(" on disk?");
    push_line(&mut lines, Line::one(head, Style::plain()));
    push_line(&mut lines, Line::empty());
    let ghost top = shown(lines@);
    let most: usize = if n <= MAX_PATHS {
        n
    } else {
        MAX_PATHS
    };
    let mut i: usize = 0;
    assert(shown(lines@) =~= top + paths_said(listed(marks@), 0));
    while i < most
        invariant
            i <= most,
            most <= marks@.len(),
            shown(lines@) == top + paths_said(listed(marks@), i as nat),
        decreases most - i,
    {
        push_path(&mut lines, &marks[i]);
        i = i + 1;
        assert(shown(lines@) =~= top + paths_said(listed(marks@), i as nat));
    }
    if n > MAX_PATHS {
        let mut more = copy_str("  … and ");
        push_dec(&mut more, (n - MAX_PATHS) as u128);
        more.append(" more");
        push_line(&mut lines, Line::one(more, dim(Style::plain())));
    }
    assert(shown(lines@) =~= confirm_head(listed(marks@), disk));
    lines
}

fn push_warnings(lines: &mut Vec<Line>, hardlinks: u64, advisory: Option<&str>, paints: &Paints)
    ensures
        shown(final(lines)@) == shown(old(lines)@) + confirm_warnings(
            hardlinks,
            match advisory {
                Some(text) => Some(text@),
                None => None,
            },
            *paints,
        ),
{
    let ghost top = shown(lines@);
    if hardlinks > 0 {
        push_line(lines, Line::empty());
        let mut s = dec_string(hardlinks as u128);
        s.append(" hardlinked file(s) in the selection: space is only");
        push_line(lines, Line::one(s, tint(paints.accent)));
        push_line(
            lines,
            Line::one(
                copy_str("freed once every link to an inode is deleted"),
                tint(paints.accent),
            ),
        );
    }
    if let Some(text) = advisory {
        push_line(lines, Line::empty());
        push_line(lines, Line::one(copy_str(text), tint(paints.accent)));
    }
    assert(shown(lines@) =~= top + confirm_warnings(
        hardlinks,
        match advisory {
            Some(text) => Some(text@),
            None => None,
        },
        *paints,
    ));
}

/// The delete confirmation over the marks, with their paths as text.
pub fn confirm_lines(
    marks: &[ListedMark],
    disk: u64,
    hardlinks: u64,
    advisory: Option<&str>,
    paints: &Paints,
) -> (lines: Vec<Line>)
    ensures
        shown(lines@) == confirm_said(
            listed(marks@),
            disk,
            hardlinks,
            match advisory {
                Some(text) => Some(text@),
                None => None,
            },
            *paints,
        ),
{
    let mut lines = confirm_head_lines(marks, disk);
    push_warnings(&mut lines, hardlinks, advisory, paints);
    push_line(&mut lines, Line::empty());
    push_line(
        &mut lines,
        Line::one(copy_str("press y to confirm — any other key cancels"), bold(Style::plain())),
    );
    lines
}

/// A dialog around lines, as wide as they need and in the middle of the screen.
pub open spec fn is_dialog(lines: Seq<Said>, screen: Area, area: Area) -> bool {
    area == layout::centered_in(
        screen,
        dialog_width(widest(lines), screen.width),
        dialog_height(lines.len(), screen.height),
    )
}

/// The delete confirmation.
pub fn confirm_dialog(
    marks: &[MarkedEntry],
    disk: u64,
    hardlinks: u64,
    advisory: Option<&str>,
    screen: Area,
    paints: &Paints,
) -> (d: Dialog)
    ensures
        d.title@ == " delete marked entries "@,
        shown(d.lines@) == confirm_said(
            listing(marks@),
            disk,
            hardlinks,
            match advisory {
                Some(text) => Some(text@),
                None => None,
            },
            *paints,
        ),
        is_dialog(shown(d.lines@), screen, d.area),
{
    let list = list_marks(marks);
    let lines = confirm_lines(list.as_slice(), disk, hardlinks, advisory, paints);
    let width: u16 = fit_width(widest_line(&lines), screen.width);
    let height: u16 = fit_height(lines.len(), screen.height);
    Dialog { title: " delete marked entries ", lines, area: centered(screen, width, height) }
}

/// The review list's width: between 20 and 76 columns, and always a column of
/// screen beside it.
pub open spec fn review_columns(screen_width: u16) -> u16 {
    let w: int = if screen_width < 24 {
        20
    } else if screen_width > 80 {
        76
    } else {
        screen_width - 4
    };
    let room: int = if screen_width >= 2 {
        screen_width - 2
    } else {
        0
    };
    if w <= room {
        w as u16
    } else {
        room as u16
    }
}

/// Decides the width of a list dialog: four columns less than the screen, between
/// 20 and 76, and always a column of screen beside it.
pub fn review_width(screen_width: u16) -> (w: u16)
    ensures
        w == review_columns(screen_width),
{
    let w: u16 = if screen_width < 24 {
        20
    } else if screen_width > 80 {
        76
    } else {
        screen_width - 4
    };
    let room: u16 = if screen_width >= 2 {
        screen_width - 2
    } else {
        0
    };
    if w <= room {
        w
    } else {
        room
    }
}

/// How many marks the review list shows at once: what its border and its five
/// other lines leave, but at least one.
pub open spec fn review_rows(screen_height: u16) -> nat {
    if screen_height > 8 {
        (screen_height - 7) as nat
    } else {
        1
    }
}

/// The first mark that the review list shows: the cursor stays in sight, and no
/// row stays empty.
pub open spec fn review_offset(count: nat, rows: nat, cursor: nat) -> nat {
    if count <= rows || cursor + 1 <= rows {
        0
    } else if cursor + 1 - rows <= count - rows {
        (cursor + 1 - rows) as nat
    } else {
        (count - rows) as nat
    }
}

/// One mark of the review list.
pub open spec fn review_row(m: ListedView, current: bool, paints: Paints) -> Said {
    seq![
        (
            text::padded_left(size::human(m.disk), 9) + "  "@ + m.path + (if m.is_dir {
                "/"@
            } else {
                ""@
            }),
            if current {
                strong(tinted(paints.error))
            } else {
                theme::plain_style()
            },
        ),
    ]
}

/// The review list's lines.
pub open spec fn review_said(
    marks: Seq<ListedView>,
    cursor: usize,
    screen_height: u16,
    paints: Paints,
) -> Seq<Said> {
    let n = marks.len();
    let rows = review_rows(screen_height);
    let offset = review_offset(n, rows, cursor as nat);
    let count = if n <= rows {
        n
    } else {
        rows
    };
    let head: Seq<Said> = seq![
        seq![(text::dec(n) + " marked entries"@, strong(theme::plain_style()))],
        seq![],
    ];
    let body = head + Seq::new(
        count,
        |i: int| review_row(marks[offset + i], offset + i == cursor, paints),
    );
    let place = body.push(seq![]);
    let note = if n > rows {
        place.push(
            seq![
                (
                    "row "@ + text::dec((cursor + 1) as nat) + " of "@ + text::dec(n)
                        + " — scroll with ↑↓/jk"@,
                    faint(theme::plain_style()),
                ),
            ],
        )
    } else {
        place
    };
    note.push(
        seq![("Space unmark · D delete · v/Esc close"@, faint(theme::plain_style()))],
    )
}

fn push_review_row(lines: &mut Vec<Line>, mark: &ListedMark, current: bool, paints: &Paints)
    ensures
        shown(final(lines)@) == shown(old(lines)@).push(
            review_row(
                (ListedView { path: mark.path@, is_dir: mark.is_dir, disk: mark.disk }),
                current,
                *paints,
            ),
        ),
        final(lines)@.len() == old(lines)@.len() + 1,
{
    let mut s = pad_left(human_string(mark.disk).as_str(), 9);
    s.append("  ");
    s.append(mark.path.as_str());
    s.append(
        if mark.is_dir {
            "/"
        } else {
            ""
        },
    );
    let style = if current {
        bold(tint(paints.error))
    } else {
        Style::plain()
    };
    push_line(lines, Line::one(s, style));
}

fn count_review_rows(screen_height: u16) -> (r: usize)
    ensures
        r == review_rows(screen_height),
{
    if screen_height > 8 {
        (screen_height - 7) as usize
    } else {
        1
    }
}

/// The first mark that the review list shows.
pub fn scroll_offset(count: usize, rows: usize, cursor: usize) -> (r: usize)
    requires
        rows > 0,
    ensures
        r == review_offset(count as nat, rows as nat, cursor as nat),
{
    if count <= rows || cursor < rows {
        0
    } else if cursor - (rows - 1) <= count - rows {
        cursor - (rows - 1)
    } else {
        count - rows
    }
}

/// The review list over the marks, with their paths as text.
pub fn review_lines(marks: &[ListedMark], cursor: usize, screen_height: u16, paints: &Paints) -> (lines:
    Vec<Line>)
    requires
        cursor < usize::MAX,
    ensures
        shown(lines@) == review_said(listed(marks@), cursor, screen_height, *paints),
{
    let n: usize = marks.len();
    let rows: usize = count_review_rows(screen_height);
    let offset: usize = scroll_offset(n, rows, cursor);
    let mut lines: Vec<Line> = Vec::new();
    let mut head = dec_string(n as u128);
    head.append(" marked entries");
    push_line(&mut lines, Line::one(head, bold(Style::plain())));
    push_line(&mut lines, Line::empty());
    let ghost top = shown(lines@);
    let count: usize = if n <= rows {
        n
    } else {
        rows
    };
    let ghost all = listed(marks@);
    let ghost body = Seq::new(
        count as nat,
        |i: int| review_row(all[offset + i], offset + i == cursor, *paints),
    );
    let mut i: usize = 0;
    assert(shown(lines@) =~= top + body.take(0));
    while i < count
        invariant
            i <= count,
            n == marks@.len(),
            offset + count <= n,
            all == listed(marks@),
            body == Seq::new(
                count as nat,
                |i: int| review_row(all[offset + i], offset + i == cursor, *paints),
            ),
            shown(lines@) == top + body.take(i as int),
        decreases count - i,
    {
        push_review_row(&mut lines, &marks[offset + i], offset + i == cursor, paints);
        i = i + 1;
        assert(shown(lines@) =~= top + body.take(i as int));
    }
    assert(body.take(count as int) =~= body);
    push_line(&mut lines, Line::empty());
    if n > rows {
        let mut s = copy_str("row ");
        push_dec(&mut s, (cursor + 1) as u128);
        s.append(" of ");
        push_dec(&mut s, n as u128);
        s.append(" — scroll with ↑↓/jk");
        push_line(&mut lines, Line::one(s, dim(Style::plain())));
    }
    push_line(
        &mut lines,
        Line::one(copy_str("Space unmark · D delete · v/Esc close"), dim(Style::plain())),
    );
    assert(shown(lines@) =~= review_said(listed(marks@), cursor, screen_height, *paints));
    lines
}

/// The review list.
pub fn review_dialog(marks: &[MarkedEntry], cursor: usize, screen: Area, paints: &Paints) -> (d:
    Dialog)
    requires
        cursor < usize::MAX,
    ensures
        d.title@ == " review marked entries "@,
        shown(d.lines@) == review_said(listing(marks@), cursor, screen.height, *paints),
        d.area == layout::centered_in(
            screen,
            review_columns(screen.width),
            dialog_height(d.lines@.len(), screen.height),
        ),
{
    let list = list_marks(marks);
    let lines = review_lines(list.as_slice(), cursor, screen.height, paints);
    let width: u16 = review_width(screen.width);
    let height: u16 = fit_height(lines.len(), screen.height);
    Dialog { title: " review marked entries ", lines, area: centered(screen, width, height) }
}

/// The mark under the review cursor is always in sight.
pub proof fn law_review_shows_the_cursor(count: nat, rows: nat, cursor: nat)
    requires
        rows > 0,
        cursor < count,
    ensures
        review_offset(count, rows, cursor) <= cursor < review_offset(count, rows, cursor) + rows,
        review_offset(count, rows, cursor) + (if count <= rows {
            count
        } else {
            rows
        }) <= count,
{
}

/// One shortcut of the cheatsheet.
pub open spec fn key_said(keys: Seq<char>, action: Seq<char>, paints: Paints) -> Said {
    seq![
        ("  "@ + text::padded_right(keys, 24), tinted(paints.accent)),
        (action, theme::plain_style()),
    ]
}

/// A heading of the cheatsheet.
pub open spec fn heading_said(text: Seq<char>, paints: Paints) -> Said {
    seq![(text, strong(tinted(paints.info)))]
}

/// The shortcuts of a table.
pub open spec fn keys_said(table: Seq<(Seq<char>, Seq<char>)>, paints: Paints) -> Seq<Said> {
    Seq::new(table.len(), |i: int| key_said(table[i].0, table[i].1, paints))
}

/// The simple shortcuts as pairs of keys and actions.
pub open spec fn simple_pairs() -> Seq<(Seq<char>, Seq<char>)> {
    Seq::new(
        keymap::simple_table().len(),
        |i: int| (keymap::simple_table()[i].keys, keymap::simple_table()[i].action),
    )
}

/// The cheatsheet's lines: every shortcut and every mouse action.
pub open spec fn cheatsheet_said(paints: Paints) -> Seq<Said> {
    let keyboard = seq![heading_said("Keyboard"@, paints)] + keys_said(simple_pairs(), paints)
        + keys_said(keymap::extra_table(), paints);
    let mouse = keyboard.push(seq![]).push(heading_said("Mouse"@, paints)) + keys_said(
        keymap::mouse_table(),
        paints,
    );
    mouse.push(seq![]).push(
        seq![("? or Esc closes"@, faint(slanted(theme::plain_style())))],
    )
}

fn push_key(lines: &mut Vec<Line>, keys: &str, action: &str, paints: &Paints)
    ensures
        shown(final(lines)@) == shown(old(lines)@).push(key_said(keys@, action@, *paints)),
{
    let mut s = copy_str("  ");
    s.append(pad_right(keys, 24).as_str());
    let mut l = Line::empty();
    l.add(s, tint(paints.accent));
    l.add(copy_str(action), Style::plain());
    assert(l@ =~= key_said(keys@, action@, *paints));
    push_line(lines, l);
}

fn push_extra_keys(lines: &mut Vec<Line>, keys: &Vec<ExtraKey>, paints: &Paints, Ghost(table): Ghost<
    Seq<(Seq<char>, Seq<char>)>,
>)
    requires
        keymap::shows(keys@, table),
    ensures
        shown(final(lines)@) == shown(old(lines)@) + keys_said(table, *paints),
{
    let ghost top = shown(lines@);
    let ghost all = keys_said(table, *paints);
    let mut i: usize = 0;
    assert(shown(lines@) =~= top + all.take(0));
    while i < keys.len()
        invariant
            i <= keys@.len(),
            keymap::shows(keys@, table),
            all == keys_said(table, *paints),
            shown(lines@) == top + all.take(i as int),
        decreases keys@.len() - i,
    {
        push_key(lines, keys[i].keys, keys[i].action, paints);
        assert(keys@[i as int].keys@ == table[i as int].0);
        i = i + 1;
        assert(shown(lines@) =~= top + all.take(i as int));
    }
    assert(all.take(i as int) =~= all);
}

fn keyboard_lines(paints: &Paints) -> (lines: Vec<Line>)
    ensures
        shown(lines@) == seq![heading_said("Keyboard"@, *paints)] + keys_said(
            simple_pairs(),
            *paints,
        ),
{
    let mut lines: Vec<Line> = Vec::new();
    push_line(&mut lines, Line::one(copy_str("Keyboard"), bold(tint(paints.info))));
    let keys = simple_keys();
    let ghost top = shown(lines@);
    let ghost all = keys_said(simple_pairs(), *paints);
    assert(top =~= seq![heading_said("Keyboard"@, *paints)]);
    let mut i: usize = 0;
    assert(shown(lines@) =~= top + all.take(0));
    while i < keys.len()
        invariant
            i <= keys@.len(),
            keys@.len() == keymap::simple_table().len(),
            forall|k: int|
                0 <= k < keys@.len() ==> (#[trigger] keys@[k]).row() == keymap::simple_table()[k],
            all == keys_said(simple_pairs(), *paints),
            shown(lines@) == top + all.take(i as int),
        decreases keys@.len() - i,
    {
        push_key(&mut lines, keys[i].keys, keys[i].action, paints);
        assert(keys@[i as int].row() == keymap::simple_table()[i as int]);
        i = i + 1;
        assert(shown(lines@) =~= top + all.take(i as int));
    }
    assert(all.take(i as int) =~= all);
    lines
}

/// The cheatsheet's lines.
pub fn cheatsheet_lines(paints: &Paints) -> (lines: Vec<Line>)
    ensures
        shown(lines@) == cheatsheet_said(*paints),
{
    let mut lines = keyboard_lines(paints);
    let extra = extra_keys();
    push_extra_keys(&mut lines, &extra, paints, Ghost(keymap::extra_table()));
    push_line(&mut lines, Line::empty());
    push_line(&mut lines, Line::one(copy_str("Mouse"), bold(tint(paints.info))));
    let mouse = mouse_keys();
    push_extra_keys(&mut lines, &mouse, paints, Ghost(keymap::mouse_table()));
    push_line(&mut lines, Line::empty());
    push_line(
        &mut lines,
        Line::one(copy_str("? or Esc closes"), dim(italic(Style::plain()))),
    );
    lines
}

/// The cheatsheet. On a screen that is too low it is cut off at the bottom.
pub fn cheatsheet_dialog(screen: Area, paints: &Paints) -> (d: Dialog)
    ensures
        d.title@ == " keys & mouse "@,
        is_dialog(cheatsheet_said(*paints), screen, d.area),
        shown(d.lines@) == cheatsheet_said(*paints).take(
            if d.area.height >= 2 {
                d.area.height - 2
            } else {
                0
            },
        ),
{
    let mut lines = cheatsheet_lines(paints);
    let ghost all = shown(lines@);
    let width: u16 = fit_width(widest_line(&lines), screen.width);
    let height: u16 = fit_height(lines.len(), screen.height);
    let keep: usize = if height >= 2 {
        (height - 2) as usize
    } else {
        0
    };
    lines.truncate(keep);
    assert(shown(lines@) =~= all.take(keep as int));
    Dialog { title: " keys & mouse ", lines, area: centered(screen, width, height) }
}

/// Dialogs always leave a column of screen beside them and never stand higher
/// than the screen.
pub proof fn law_dialogs_fit(columns: nat, lines: nat, screen: Area)
    ensures
        dialog_width(columns, screen.width) + 2 <= screen.width || dialog_width(
            columns,
            screen.width,
        ) == 0,
        dialog_height(lines, screen.height) <= screen.height,
{
}

/// The dialogs list the marks themselves: each with its own path, kind and disk size, in
/// mark order.
pub proof fn law_listing_is_the_marks(marks: Seq<MarkedEntry>, i: int)
    requires
        0 <= i < marks.len(),
    ensures
        listing(marks).len() == marks.len(),
        listing(marks)[i].path == text::lossy_text(marks[i].path@),
        listing(marks)[i].is_dir == marks[i].is_dir,
        listing(marks)[i].disk == marks[i].disk,
{
}

/// Whether a line ends in a mark's path, with a slash behind a directory's.
pub open spec fn tells_path(line: Seq<char>, m: ListedView) -> bool {
    &&& m.is_dir ==> text::ends_with(line, "  "@ + m.path + "/"@)
    &&& !m.is_dir ==> text::ends_with(line, "  "@ + m.path)
}

proof fn lemma_path_is_told(head: Seq<char>, m: ListedView)
    ensures
        tells_path(
            head + "  "@ + m.path + (if m.is_dir {
                "/"@
            } else {
                ""@
            }),
            m,
        ),
{
    reveal_strlit("");
    text::lemma_side_by_side(head, "  "@, m.path);
    text::lemma_side_by_side(head, "  "@ + m.path, "/"@);
    assert(head + "  "@ + m.path + ""@ =~= head + "  "@ + m.path);
}

/// The confirmation asks about all the marks: it tells how many they are and their size,
/// lists the first eight in order, each by its own path, and counts the others. Its last
/// line says how to confirm.
pub proof fn law_confirmation_lists_the_marks(
    marks: Seq<ListedView>,
    disk: u64,
    hardlinks: u64,
    advisory: Option<Seq<char>>,
    paints: Paints,
    i: int,
)
    ensures
        ({
            let lines = confirm_said(marks, disk, hardlinks, advisory, paints);
            &&& text::starts_with(
                lines[0][0].0,
                "Delete "@ + text::dec(marks.len()) + " entries — "@,
            )
            &&& text::ends_with(lines[0][0].0, size::human(disk) + " on disk?"@)
            &&& 0 <= i < marks.len() && i < 8 ==> tells_path(lines[2 + i][0].0, marks[i])
            &&& marks.len() > 8 ==> text::occurs_in(
                lines[10][0].0,
                text::dec((marks.len() - 8) as nat) + " more"@,
            )
            &&& lines.last()[0].0 == "press y to confirm — any other key cancels"@
        }),
{
    let lines = confirm_said(marks, disk, hardlinks, advisory, paints);
    let head = confirm_head(marks, disk);
    let n = text::dec(marks.len());
    assert(head[0] == lines[0]);
    let l0 = "Delete "@ + n + " entries — "@;
    text::lemma_itself(l0);
    text::lemma_extend_by(l0, l0, size::human(disk), " on disk?"@);
    text::lemma_side_by_side(l0, size::human(disk), " on disk?"@);
    if 0 <= i < marks.len() && i < 8 {
        assert(head[2 + i] == path_said(marks[i]));
        assert(lines[2 + i] == head[2 + i]);
        lemma_path_is_told(Seq::empty(), marks[i]);
        assert(Seq::<char>::empty() + "  "@ =~= "  "@);
    }
    if marks.len() > 8 {
        assert(lines[10] == head[10]);
        text::lemma_side_by_side("  … and "@, text::dec((marks.len() - 8) as nat), " more"@);
    }
}

/// The confirmation warns of hard links exactly if the selection holds any, with their
/// number, and says whatever else there is to say.
pub proof fn law_confirmation_warns(hardlinks: u64, advisory: Option<Seq<char>>, paints: Paints)
    ensures
        ({
            let lines = confirm_warnings(hardlinks, advisory, paints);
            &&& hardlinks > 0 ==> text::starts_with(
                lines[1][0].0,
                text::dec(hardlinks as nat) + " hardlinked file(s)"@,
            )
            &&& advisory matches Some(said) ==> lines.last()[0].0 == said
            &&& hardlinks == 0 && advisory is None ==> lines.len() == 0
        }),
{
    reveal_strlit(" hardlinked file(s) in the selection: space is only");
    reveal_strlit(" hardlinked file(s)");
    let n = text::dec(hardlinks as nat);
    let line = n + " hardlinked file(s) in the selection: space is only"@;
    let start = n + " hardlinked file(s)"@;
    assert(line.take(start.len() as int) =~= start);
}

/// The review tells how many marks there are, and its lines are the marks from the first
/// visible one on, each with its own size and path; the one under the cursor stands out,
/// and no other does.
pub proof fn law_review_lists_the_marks(
    marks: Seq<ListedView>,
    cursor: usize,
    screen_height: u16,
    paints: Paints,
    i: int,
)
    requires
        cursor < marks.len(),
        review_offset(marks.len(), review_rows(screen_height), cursor as nat) <= i < marks.len(),
        i < review_offset(marks.len(), review_rows(screen_height), cursor as nat) + review_rows(
            screen_height,
        ),
    ensures
        ({
            let offset = review_offset(marks.len(), review_rows(screen_height), cursor as nat);
            let lines = review_said(marks, cursor, screen_height, paints);
            let line = lines[2 + i - offset];
            &&& text::starts_with(lines[0][0].0, text::dec(marks.len()))
            &&& text::starts_with(line[0].0, text::padded_left(size::human(marks[i].disk), 9))
            &&& tells_path(line[0].0, marks[i])
            &&& line[0].1 == (if i == cursor {
                strong(tinted(paints.error))
            } else {
                theme::plain_style()
            })
        }),
{
    let n = marks.len();
    let rows = review_rows(screen_height);
    let offset = review_offset(n, rows, cursor as nat);
    law_review_shows_the_cursor(n, rows, cursor as nat);
    let lines = review_said(marks, cursor, screen_height, paints);
    let k = i - offset;
    assert(lines[2 + k] == review_row(marks[i], i == cursor, paints));
    let size = text::padded_left(size::human(marks[i].disk), 9);
    lemma_path_is_told(size, marks[i]);
    text::lemma_itself(size);
    text::lemma_extend_by(size, size, "  "@, marks[i].path);
    text::lemma_extend(
        size + "  "@ + marks[i].path,
        size,
        if marks[i].is_dir {
            "/"@
        } else {
            ""@
        },
    );
    text::lemma_ends(text::dec(n), " marked entries"@);
}

/// A review that does not fit says which of how many rows the cursor is on.
pub proof fn law_review_tells_its_place(
    marks: Seq<ListedView>,
    cursor: usize,
    screen_height: u16,
    paints: Paints,
)
    requires
        marks.len() > review_rows(screen_height),
    ensures
        ({
            let lines = review_said(marks, cursor, screen_height, paints);
            text::starts_with(
                lines[lines.len() - 2][0].0,
                "row "@ + text::dec((cursor + 1) as nat) + " of "@ + text::dec(marks.len()),
            )
        }),
{
    let l0 = "row "@ + text::dec((cursor + 1) as nat) + " of "@ + text::dec(marks.len());
    text::lemma_ends(l0, " — scroll with ↑↓/jk"@);
}

/// The cheatsheet lists every key and what it does, each row of the tables in order.
pub proof fn law_cheatsheet_lists_every_key(paints: Paints, i: int)
    ensures
        ({
            let lines = cheatsheet_said(paints);
            let simple = keymap::simple_table();
            let extra = keymap::extra_table();
            let mouse = keymap::mouse_table();
            &&& 0 <= i < simple.len() ==> tells_key(
                lines[1 + i],
                simple[i].keys,
                simple[i].action,
            )
            &&& 0 <= i < extra.len() ==> tells_key(
                lines[1 + simple.len() + i],
                extra[i].0,
                extra[i].1,
            )
            &&& 0 <= i < mouse.len() ==> tells_key(
                lines[3 + simple.len() + extra.len() + i],
                mouse[i].0,
                mouse[i].1,
            )
        }),
{
    let lines = cheatsheet_said(paints);
    let simple = keymap::simple_table();
    let extra = keymap::extra_table();
    let mouse = keymap::mouse_table();
    let keyboard = seq![heading_said("Keyboard"@, paints)] + keys_said(simple_pairs(), paints)
        + keys_said(extra, paints);
    assert(keyboard.len() == 1 + simple.len() + extra.len());
    if 0 <= i < simple.len() {
        assert(lines[1 + i] == keyboard[1 + i]);
        assert(lines[1 + i] == key_said(simple[i].keys, simple[i].action, paints));
        lemma_tells_key(simple[i].keys, simple[i].action, paints);
    }
    if 0 <= i < extra.len() {
        assert(lines[1 + simple.len() + i] == keyboard[1 + simple.len() + i]);
        assert(lines[1 + simple.len() + i] == key_said(extra[i].0, extra[i].1, paints));
        lemma_tells_key(extra[i].0, extra[i].1, paints);
    }
    if 0 <= i < mouse.len() {
        assert(lines[3 + simple.len() + extra.len() + i] == key_said(
            mouse[i].0,
            mouse[i].1,
            paints,
        ));
        lemma_tells_key(mouse[i].0, mouse[i].1, paints);
    }
}

/// Whether a line tells a key and, behind it, what the key does.
pub open spec fn tells_key(line: Said, keys: Seq<char>, action: Seq<char>) -> bool {
    &&& line.len() == 2
    &&& text::occurs_in(line[0].0, keys)
    &&& line[1].0 == action
}

proof fn lemma_tells_key(keys: Seq<char>, action: Seq<char>, paints: Paints)
    ensures
        tells_key(key_said(keys, action, paints), keys, action),
{
    let padded = text::padded_right(keys, 24);
    text::law_padding_keeps_the_text(keys, 24);
    let pad = padded.skip(keys.len() as int);
    assert(padded =~= keys + pad) by {
        assert(padded.take(keys.len() as int) == keys);
        assert(padded =~= padded.take(keys.len() as int) + pad);
    }
    text::lemma_occurs("  "@, keys, pad);
    assert("  "@ + padded =~= "  "@ + keys + pad);
}

/// A dialog is as wide as its widest line and a margin, wherever the screen has room:
/// every line fits.
pub proof fn law_dialogs_show_every_line(lines: Seq<Said>, i: int, screen: Area)
    requires
        0 <= i < lines.len(),
        widest(lines) + 6 <= screen.width,
        lines.len() + 2 <= screen.height,
    ensures
        line_columns(lines[i]) + 4 <= dialog_width(widest(lines), screen.width),
        dialog_height(lines.len(), screen.height) == lines.len() + 2,
    decreases lines.len(),
{
    lemma_widest(lines, i);
}

proof fn lemma_widest(lines: Seq<Said>, i: int)
    requires
        0 <= i < lines.len(),
    ensures
        line_columns(lines[i]) <= widest(lines),
    decreases lines.len(),
{
    if i < lines.len() - 1 {
        lemma_widest(lines.drop_last(), i);
        assert(lines.drop_last()[i] == lines[i]);
    }
}

/// The review is between twenty and seventy-six columns wide as far as the screen allows,
/// and leaves a margin.
pub proof fn law_review_width(screen_width: u16)
    ensures
        review_columns(screen_width) <= 76,
        screen_width >= 22 ==> review_columns(screen_width) >= 20,
        screen_width >= 2 ==> review_columns(screen_width) + 2 <= screen_width,
        24 <= screen_width <= 80 ==> review_columns(screen_width) + 4 == screen_width,
{
}

/// A list of marks is listed as it is: each with its own path, kind and disk size, in
/// order.
pub proof fn law_listed_marks_keep_their_fields(marks: Seq<ListedMark>, i: int)
    requires
        0 <= i < marks.len(),
    ensures
        listed(marks).len() == marks.len(),
        listed(marks)[i].path == marks[i].path@,
        listed(marks)[i].is_dir == marks[i].is_dir,
        listed(marks)[i].disk == marks[i].disk,
{
}

/// The confirmation has a line for every mark up to eight, one more that counts the others
/// only if there are others, and nothing else but the warnings, the question and the
/// answer it waits for.
pub proof fn law_confirmation_counts_the_rest(
    marks: Seq<ListedView>,
    disk: u64,
    hardlinks: u64,
    advisory: Option<Seq<char>>,
    paints: Paints,
)
    ensures
        confirm_said(marks, disk, hardlinks, advisory, paints).len() == 4 + (if marks.len() <= 8 {
            marks.len() as int
        } else {
            9
        }) + (if hardlinks > 0 {
            3int
        } else {
            0
        }) + (if advisory is Some {
            2int
        } else {
            0
        }),
{
}

/// A dialog lies on the screen, in its middle, as wide and as high as its lines need
/// wherever there is room.
pub proof fn law_dialogs_are_on_the_screen(lines: Seq<Said>, screen: Area, area: Area)
    requires
        is_dialog(lines, screen, area),
    ensures
        area.x + area.width <= screen.width,
        area.y + area.height <= screen.height,
        widest(lines) + 6 <= screen.width ==> area.width == widest(lines) + 4,
        lines.len() + 2 <= screen.height ==> area.height == lines.len() + 2,
{
    law_dialogs_fit(widest(lines), lines.len(), screen);
    layout::law_modals_stay_on_screen(
        screen,
        dialog_width(widest(lines), screen.width),
        dialog_height(lines.len(), screen.height),
    );
}

/// A review shows as many marks as fit, and tells its place only if not all do.
pub proof fn law_review_fills_the_screen(
    marks: Seq<ListedView>,
    cursor: usize,
    screen_height: u16,
    paints: Paints,
)
    ensures
        marks.len() <= review_rows(screen_height) ==> review_said(
            marks,
            cursor,
            screen_height,
            paints,
        ).len() == marks.len() + 4,
        marks.len() > review_rows(screen_height) ==> review_said(
            marks,
            cursor,
            screen_height,
            paints,
        ).len() == review_rows(screen_height) + 5,
        screen_height >= 8 ==> review_rows(screen_height) + 7 == screen_height,
        review_rows(screen_height) > 0,
{
}

} // verus!
