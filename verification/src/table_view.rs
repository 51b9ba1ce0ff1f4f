//! What the table and the selection card show.

use crate::double;
use crate::double::Double;
use crate::flatview;
use crate::flatview::percentage_of;
use crate::fmt;
use crate::fmt::{humanize_age, share_of};
use crate::layout::{Area, Extent};
use crate::lines::{bold, push_line, shown, strong, tint, tinted, Line, Paints};
use crate::model::{Row, RowState};
use crate::size;
use crate::size::human_string;
use crate::state::{SortKey, SortSpec, TableGeometry, UiState};
use crate::text;
use crate::text::{copy_str, dec_string, lossy, pad_left, push_tenths};
use crate::theme;
use crate::theme::Style;
use crate::wheel;
use crate::wheel::{proportion_bar, Share};
use vstd::prelude::*;
use vstd::string::*;

verus! {

/// Width of the column of proportion bars.
pub const BAR_WIDTH: usize = 12;

/// The arrow behind a column's title: it points the way of the active sort.
pub open spec fn arrow_text(sort: SortSpec, key: SortKey, ascii: bool) -> Seq<char> {
    if sort.key != key {
        ""@
    } else if sort.descending {
        if ascii {
            "v"@
        } else {
            "▼"@
        }
    } else if ascii {
        "^"@
    } else {
        "▲"@
    }
}

fn arrow(sort: SortSpec, key: SortKey, ascii: bool) -> (s: &'static str)
    ensures
        s@ == arrow_text(sort, key, ascii),
{
    if sort.key != key {
        ""
    } else if sort.descending {
        if ascii {
            "v"
        } else {
            "▼"
        }
    } else if ascii {
        "^"
    } else {
        "▲"
    }
}

/// The titles of the columns before that of the apparent sizes, and of those
/// behind it.
pub open spec fn titles(sort: SortSpec, apparent: bool, ascii: bool) -> Seq<Seq<char>> {
    let left = seq![" "@, " "@, "real"@ + arrow_text(sort, SortKey::Disk, ascii)];
    let middle = if apparent {
        seq!["apparent"@ + arrow_text(sort, SortKey::Apparent, ascii)]
    } else {
        seq![]
    };
    let right = seq![
        "%"@,
        ""@,
        "items"@ + arrow_text(sort, SortKey::Items, ascii),
        "name"@ + arrow_text(sort, SortKey::Name, ascii),
    ];
    left + middle + right
}

fn titled(title: &str, sort: SortSpec, key: SortKey, ascii: bool) -> (s: String)
    ensures
        s@ == title@ + arrow_text(sort, key, ascii),
{
    let mut s = copy_str(title);
    s.append(arrow(sort, key, ascii));
    s
}

/// The titles of the table's columns.
pub fn table_titles(sort: SortSpec, show_apparent: bool, ascii: bool) -> (r: Vec<String>)
    ensures
        text::texts(r@) == titles(sort, show_apparent, ascii),
{
    let mut r: Vec<String> = Vec::new();
    r.push(copy_str(" "));
    r.push(copy_str(" "));
    r.push(titled("real", sort, SortKey::Disk, ascii));
    if show_apparent {
        r.push(titled("apparent", sort, SortKey::Apparent, ascii));
    }
    r.push(copy_str("%"));
    r.push(copy_str(""));
    r.push(titled("items", sort, SortKey::Items, ascii));
    r.push(titled("name", sort, SortKey::Name, ascii));
    assert(text::texts(r@) =~= titles(sort, show_apparent, ascii));
    r
}

/// What the table's columns ask for.
pub open spec fn columns(apparent: bool) -> Seq<Extent> {
    let left = seq![Extent::Length(1), Extent::Length(1), Extent::Length(10)];
    let middle = if apparent {
        seq![Extent::Length(10)]
    } else {
        seq![]
    };
    left + middle + seq![
        Extent::Length(6),
        Extent::Length(12),
        Extent::Length(9),
        Extent::Min(10),
    ]
}

/// What the table's columns ask for.
pub fn table_columns(show_apparent: bool) -> (r: Vec<Extent>)
    ensures
        r@ == columns(show_apparent),
{
    let mut r: Vec<Extent> = Vec::new();
    r.push(Extent::Length(1));
    r.push(Extent::Length(1));
    r.push(Extent::Length(10));
    if show_apparent {
        r.push(Extent::Length(10));
    }
    r.push(Extent::Length(6));
    r.push(Extent::Length(12));
    r.push(Extent::Length(9));
    r.push(Extent::Min(10));
    assert(r@ =~= columns(show_apparent));
    r
}

/// The share of its parent that a row shows; nothing of an empty parent.
pub open spec fn row_share(disk: u64, parent: u64) -> Double {
    if parent > 0 {
        fmt::share(disk, parent)
    } else {
        double::zero()
    }
}

/// The percentage column: one decimal, a dash for an empty parent.
pub open spec fn percent_cell(disk: u64, parent: u64) -> Seq<char> {
    if parent > 0 {
        text::padded_left(
            text::tenths(
                double::product(
                    double::int_double(100),
                    fmt::share(disk, parent),
                ).times_to_even(10),
            ),
            5,
        )
    } else {
        text::padded_left("-"@, 5)
    }
}

/// The percentage column of a row.
pub fn percent_text(disk: u64, parent: u64) -> (s: String)
    ensures
        s@ == percent_cell(disk, parent),
{
    if parent == 0 {
        return pad_left("-", 5);
    }
    let hundred = Double::of_int(100);
    let x = share_of(disk, parent);
    proof {
        fmt::lemma_hundred();
    }
    let p = hundred.mul(&x);
    let t: u128 = p.round_times(10);
    let mut s = String::new();
    push_tenths(&mut s, t);
    assert(s@ =~= text::tenths(t as nat));
    pad_left(s.as_str(), 5)
}

/// The column that tells a row's state.
pub open spec fn state_said(row: Row, spinner: char, paints: Paints) -> (Seq<char>, Style) {
    match row.state {
        RowState::Scanning => (seq![spinner], tinted(paints.accent)),
        RowState::Error => ("!"@, strong(tinted(paints.error))),
        _ => if row.errors > 0 {
            ("!"@, tinted(paints.error))
        } else {
            (" "@, theme::plain_style())
        },
    }
}

/// The name column: directories are bold and end in a slash; a mark's color wins
/// over that of the identity.
pub open spec fn name_said(
    name: Seq<char>,
    is_dir: bool,
    marked: bool,
    rank: Option<usize>,
    paints: Paints,
) -> (Seq<char>, Style) {
    let text = if is_dir {
        name + "/"@
    } else {
        name
    };
    let base = if is_dir {
        strong(theme::plain_style())
    } else {
        theme::plain_style()
    };
    let style = if marked {
        Style { fg: Some(paints.error), ..base }
    } else if rank is Some {
        Style { fg: Some(paints.of_rank(rank)), ..base }
    } else {
        base
    };
    (text, style)
}

/// What the cells of a row depend on besides the row.
pub struct RowLook {
    pub marked: bool,
    /// The row's identity rank.
    pub rank: Option<usize>,
    /// Disk size of the viewed directory.
    pub parent_disk: u64,
    pub show_apparent: bool,
    pub spinner: char,
    /// How far the bars have grown in.
    pub progress: Double,
    pub ascii: bool,
}

impl RowLook {
    /// Whether the growth is a number that the bars can be scaled by.
    pub open spec fn wf(&self) -> bool {
        self.progress.wf() && -200 <= self.progress.exp <= 200
    }
}

/// The cells of a row up to its disk size.
pub open spec fn left_said(row: Row, look: RowLook, paints: Paints) -> Seq<(Seq<char>, Style)> {
    let plain = theme::plain_style();
    seq![
        if look.marked {
            ("*"@, strong(tinted(paints.error)))
        } else {
            (" "@, plain)
        },
        state_said(row, look.spinner, paints),
        (text::padded_left(size::human(row.disk), 9), plain),
    ]
}

/// The share that a row's bar shows, as far as it has grown in.
pub open spec fn bar_share(row: Row, look: RowLook) -> Share {
    Share {
        below_zero: false,
        size: double::product(row_share(row.disk, look.parent_disk), look.progress),
    }
}

/// The cells of a row from its percentage on.
pub open spec fn right_said(
    row: Row,
    name: Seq<char>,
    look: RowLook,
    paints: Paints,
) -> Seq<(Seq<char>, Style)> {
    let plain = theme::plain_style();
    seq![
        (percent_cell(row.disk, look.parent_disk), plain),
        (
            wheel::bar(bar_share(row, look).clamped(), BAR_WIDTH as nat, look.ascii),
            tinted(paints.of_rank(look.rank)),
        ),
        (text::padded_left(text::dec(row.items as nat), 8), plain),
        name_said(name, row.is_dir, look.marked, look.rank, paints),
    ]
}

/// The cells of a row; that of the apparent size can be hidden.
pub open spec fn row_said(
    row: Row,
    name: Seq<char>,
    look: RowLook,
    paints: Paints,
) -> Seq<(Seq<char>, Style)> {
    let middle = if look.show_apparent {
        seq![(text::padded_left(size::human(row.apparent), 9), theme::plain_style())]
    } else {
        seq![]
    };
    left_said(row, look, paints) + middle + right_said(row, name, look, paints)
}

fn name_cell(
    l: &mut Line,
    name: &str,
    is_dir: bool,
    marked: bool,
    rank: Option<usize>,
    paints: &Paints,
)
    requires
        paints.wf(),
    ensures
        final(l)@ == old(l)@.push(name_said(name@, is_dir, marked, rank, *paints)),
{
    let mut text = copy_str(name);
    if is_dir {
        text.append("/");
    }
    let mut style = Style::plain();
    if is_dir {
        style = bold(style);
    }
    if marked {
        style.fg = Some(paints.error);
    } else if rank.is_some() {
        style.fg = Some(paints.rank_color(rank));
    }
    l.add(text, style);
}

fn left_cells(row: &Row, look: &RowLook, paints: &Paints) -> (l: Line)
    ensures
        l@ == left_said(*row, *look, *paints),
{
    let plain = Style::plain();
    let mut l = Line::empty();
    if look.marked {
        l.add(copy_str("*"), bold(tint(paints.error)));
    } else {
        l.add(copy_str(" "), plain);
    }
    match row.state {
        RowState::Scanning => {
            let mut s = String::new();
            s.push(look.spinner);
            assert(s@ =~= seq![look.spinner]);
            l.add(s, tint(paints.accent));
        },
        RowState::Error => l.add(copy_str("!"), bold(tint(paints.error))),
        _ => {
            if row.errors > 0 {
                l.add(copy_str("!"), tint(paints.error));
            } else {
                l.add(copy_str(" "), plain);
            }
        },
    }
    l.add(pad_left(human_string(row.disk).as_str(), 9), plain);
    l
}

fn bar_text(row: &Row, look: &RowLook) -> (s: String)
    requires
        look.wf(),
    ensures
        s@ == wheel::bar(bar_share(*row, *look).clamped(), BAR_WIDTH as nat, look.ascii),
{
    let share = if look.parent_disk > 0 {
        share_of(row.disk, look.parent_disk)
    } else {
        Double { mant: 0, exp: 0 }
    };
    let size = share.mul(&look.progress);
    proportion_bar(Share { below_zero: false, size }, BAR_WIDTH, look.ascii)
}

/// The cells of a row, with its name as text.
pub fn row_cells(row: &Row, name: &str, look: &RowLook, paints: &Paints) -> (l: Line)
    requires
        paints.wf(),
        look.wf(),
    ensures
        l@ == row_said(*row, name@, *look, *paints),
{
    let plain = Style::plain();
    let mut l = left_cells(row, look, paints);
    if look.show_apparent {
        l.add(pad_left(human_string(row.apparent).as_str(), 9), plain);
    }
    let ghost before = l@;
    l.add(percent_text(row.disk, look.parent_disk), plain);
    l.add(bar_text(row, look), tint(paints.rank_color(look.rank)));
    l.add(pad_left(dec_string(row.items as u128).as_str(), 8), plain);
    name_cell(&mut l, name, row.is_dir, look.marked, look.rank, paints);
    proof {
        let right = right_said(*row, name@, *look, *paints);
        assert(l@ =~= before + right);
        assert(before + right =~= row_said(*row, name@, *look, *paints));
    }
    l
}

/// The rank of a row of the snapshot; none beyond the ranked ones.
pub open spec fn rank_at(ranks: Seq<Option<usize>>, index: usize) -> Option<usize> {
    if index < ranks.len() {
        ranks[index as int]
    } else {
        None
    }
}

/// What the row at a display-order position depends on.
pub open spec fn look_at(
    ui: UiState,
    position: int,
    ranks: Seq<Option<usize>>,
    spinner: char,
    progress: Double,
    ascii: bool,
) -> RowLook {
    let index = ui.order@[position];
    RowLook {
        marked: ui.marked_set@.contains(ui.snapshot.rows@[index as int].node.raw),
        rank: rank_at(ranks, index),
        parent_disk: ui.snapshot.totals.disk,
        show_apparent: ui.show_apparent,
        spinner,
        progress,
        ascii,
    }
}

/// What the table shows at a display-order position.
pub open spec fn table_row_said(
    ui: UiState,
    position: int,
    ranks: Seq<Option<usize>>,
    spinner: char,
    progress: Double,
    ascii: bool,
    paints: Paints,
) -> Seq<(Seq<char>, Style)> {
    let row = ui.snapshot.rows@[ui.order@[position] as int];
    row_said(
        row,
        text::lossy_text(row.name@),
        look_at(ui, position, ranks, spinner, progress, ascii),
        paints,
    )
}

/// The table's rows, in display order.
pub fn table_rows(
    ui: &UiState,
    ranks: &[Option<usize>],
    spinner: char,
    progress: Double,
    ascii: bool,
    paints: &Paints,
) -> (rows: Vec<Line>)
    requires
        ui.wf(),
        paints.wf(),
        progress.wf(),
        -200 <= progress.exp <= 200,
    ensures
        rows@.len() == ui.order@.len(),
        forall|i: int|
            0 <= i < rows@.len() ==> (#[trigger] rows@[i])@ == table_row_said(
                *ui,
                i,
                ranks@,
                spinner,
                progress,
                ascii,
                *paints,
            ),
{
    let list = ui.rows_indexed();
    let mut rows: Vec<Line> = Vec::new();
    let mut i: usize = 0;
    while i < list.len()
        invariant
            i <= list@.len(),
            ui.wf(),
            paints.wf(),
            progress.wf(),
            -200 <= progress.exp <= 200,
            list@.len() == ui.order@.len(),
            forall|k: int|
                0 <= k < list@.len() ==> {
                    &&& (#[trigger] list@[k]).0 == ui.order@[k]
                    &&& *list@[k].1 == ui.snapshot.rows@[ui.order@[k] as int]
                },
            rows@.len() == i,
            forall|k: int|
                0 <= k < i ==> (#[trigger] rows@[k])@ == table_row_said(
                    *ui,
                    k,
                    ranks@,
                    spinner,
                    progress,
                    ascii,
                    *paints,
                ),
        decreases list@.len() - i,
    {
        let (index, row) = list[i];
        assert(list@[i as int].0 == ui.order@[i as int]);
        let look = RowLook {
            marked: ui.is_marked(row.node),
            rank: if index < ranks.len() {
                ranks[index]
            } else {
                None
            },
            parent_disk: ui.snapshot().totals.disk,
            show_apparent: ui.show_apparent,
            spinner,
            progress,
            ascii,
        };
        let name = lossy(row.name.as_slice());
        rows.push(row_cells(row, name.as_str(), &look, paints));
        i = i + 1;
    }
    rows
}

/// Where the table's rows stand: below its one line of titles.
pub fn table_geometry(area: Area, offset: usize) -> (g: TableGeometry)
    requires
        area.y < u16::MAX,
    ensures
        g == (TableGeometry {
            x: area.x,
            y: (area.y + 1) as u16,
            width: area.width,
            height: if area.height > 0 {
                (area.height - 1) as u16
            } else {
                0
            },
            offset,
        }),
{
    TableGeometry {
        x: area.x,
        y: area.y + 1,
        width: area.width,
        height: if area.height > 0 {
            area.height - 1
        } else {
            0
        },
        offset,
    }
}

/// The row that the table highlights: that under the cursor, if there is one.
pub fn highlighted(ui: &UiState) -> (r: Option<usize>)
    requires
        ui.wf(),
    ensures
        r == (if ui.cursor < ui.order@.len() {
            Some(ui.cursor)
        } else {
            None
        }),
{
    if ui.selected().is_some() {
        Some(ui.cursor())
    } else {
        None
    }
}

/// The selection card.
#[derive(Debug)]
pub struct SelectionCard {
    pub title: Option<String>,
    /// The color of the border.
    pub border: theme::Color,
    pub lines: Vec<Line>,
}

/// How much of its parent a row takes.
pub open spec fn share_text(disk: u64, parent: u64) -> Seq<char> {
    if parent > 0 {
        text::tenths(flatview::percentage(disk, parent).times_to_even(10)) + "% of parent"@
    } else {
        "-% of parent"@
    }
}

fn share_of_parent(disk: u64, parent: u64) -> (s: String)
    ensures
        s@ == share_text(disk, parent),
{
    if parent == 0 {
        return copy_str("-% of parent");
    }
    let x = percentage_of(disk, parent);
    let mut s = String::new();
    push_tenths(&mut s, x.round_times(10));
    s.append("% of parent");
    assert(s@ =~= share_text(disk, parent));
    s
}

/// The lines of the selection card.
pub open spec fn card_said(row: Row, parent: u64, now: i64, paints: Paints) -> Seq<
    Seq<(Seq<char>, Style)>,
> {
    let plain = theme::plain_style();
    let sep = (" · "@, tinted(paints.muted));
    let second = seq![
        ("modified "@ + fmt::age(now - row.mtime), plain),
        sep,
        (text::dec(row.items as nat) + " items"@, plain),
    ];
    seq![
        seq![
            (text::padded_left(size::human(row.disk), 9), strong(plain)),
            sep,
            (share_text(row.disk, parent), plain),
        ],
        if row.errors > 0 {
            second.push(sep).push(
                (text::dec(row.errors as nat) + " errors"@, tinted(paints.error)),
            )
        } else {
            second
        },
    ]
}

fn counted(n: u64, noun: &str) -> (s: String)
    ensures
        s@ == text::dec(n as nat) + noun@,
{
    let mut s = dec_string(n as u128);
    s.append(noun);
    s
}

fn card_lines(row: &Row, parent: u64, now: i64, paints: &Paints) -> (lines: Vec<Line>)
    ensures
        shown(lines@) == card_said(*row, parent, now, *paints),
{
    let plain = Style::plain();
    let muted = tint(paints.muted);
    let mut first = Line::empty();
    first.add(pad_left(human_string(row.disk).as_str(), 9), bold(plain));
    first.add(copy_str(" · "), muted);
    first.add(share_of_parent(row.disk, parent), plain);
    let mut second = Line::empty();
    let mut modified = copy_str("modified ");
    modified.append(humanize_age(now, row.mtime).as_str());
    second.add(modified, plain);
    second.add(copy_str(" · "), muted);
    second.add(counted(row.items, " items"), plain);
    if row.errors > 0 {
        second.add(copy_str(" · "), muted);
        second.add(counted(row.errors, " errors"), tint(paints.error));
    }
    let ghost a = first@;
    let ghost b = second@;
    let mut lines: Vec<Line> = Vec::new();
    push_line(&mut lines, first);
    push_line(&mut lines, second);
    proof {
        let said = card_said(*row, parent, now, *paints);
        assert(a =~= said[0]);
        assert(b =~= said[1]);
        assert(shown(lines@) =~= said);
    }
    lines
}

/// The title of a row's selection card.
pub open spec fn card_title(name: Seq<char>, is_dir: bool) -> Seq<char> {
    " "@ + name + (if is_dir {
        "/ "@
    } else {
        " "@
    })
}

/// The selection card of a row, with its name as text; without a row it says so.
pub fn card_of(row: Option<(&Row, &str)>, parent: u64, hovering: bool, now: i64, paints: &Paints) -> (c:
    SelectionCard)
    ensures
        c.border == (if hovering {
            paints.accent
        } else {
            paints.muted
        }),
        match row {
            Some((r, name)) => {
                &&& c.title matches Some(t) && t@ == card_title(name@, r.is_dir)
                &&& shown(c.lines@) == card_said(*r, parent, now, *paints)
            },
            None => {
                &&& c.title is None
                &&& shown(c.lines@) == seq![seq![("nothing selected"@, tinted(paints.muted))]]
            },
        },
{
    let border = if hovering {
        paints.accent
    } else {
        paints.muted
    };
    match row {
        None => {
            let mut lines: Vec<Line> = Vec::new();
            push_line(&mut lines, Line::one(copy_str("nothing selected"), tint(paints.muted)));
            assert(shown(lines@) =~= seq![seq![("nothing selected"@, tinted(paints.muted))]]);
            SelectionCard { title: None, border, lines }
        },
        Some((r, name)) => {
            let mut title = copy_str(" ");
            title.append(name);
            title.append(
                if r.is_dir {
                    "/ "
                } else {
                    " "
                },
            );
            SelectionCard { title: Some(title), border, lines: card_lines(r, parent, now, paints) }
        },
    }
}

/// The selection card: it follows the mouse over the table, else the cursor.
pub fn selection_card(ui: &UiState, now: i64, paints: &Paints) -> (c: SelectionCard)
    requires
        ui.wf(),
    ensures
        c.border == (if ui.hover is Some {
            paints.accent
        } else {
            paints.muted
        }),
        match ui.row_at(ui.card_position()) {
            Some(r) => {
                &&& c.title matches Some(t) && t@ == card_title(
                    text::lossy_text(r.name@),
                    r.is_dir,
                )
                &&& shown(c.lines@) == card_said(r, ui.snapshot.totals.disk, now, *paints)
            },
            None => {
                &&& c.title is None
                &&& shown(c.lines@) == seq![seq![("nothing selected"@, tinted(paints.muted))]]
            },
        },
{
    let parent: u64 = ui.snapshot().totals.disk;
    let hovering: bool = ui.hover().is_some();
    match ui.card_row() {
        None => card_of(None, parent, hovering, now, paints),
        Some(r) => {
            let name = lossy(r.name.as_slice());
            card_of(Some((r, name.as_str())), parent, hovering, now, paints)
        },
    }
}

/// A ranked row's bar, the third cell from the end, has the color of its rank, and
/// so has its name, the last cell, unless the row is marked.
pub proof fn law_colors_agree(row: Row, name: Seq<char>, look: RowLook, paints: Paints)
    requires
        look.rank is Some,
    ensures
        ({
            let cells = row_said(row, name, look, paints);
            &&& cells[cells.len() - 3].1.fg == Some(paints.of_rank(look.rank))
            &&& !look.marked ==> cells.last().1.fg == Some(paints.of_rank(look.rank))
        }),
{
}

/// Titles, columns and cells always agree in number.
pub proof fn law_columns_agree(
    sort: SortSpec,
    row: Row,
    name: Seq<char>,
    look: RowLook,
    paints: Paints,
)
    ensures
        titles(sort, look.show_apparent, look.ascii).len() == columns(look.show_apparent).len(),
        row_said(row, name, look, paints).len() == columns(look.show_apparent).len(),
{
}

/// Each column tells the field that its title names, whatever the others hold: the
/// real size is the row's disk size, the apparent one its apparent size, the share
/// and the bar come from the disk size alone, the items are counted in full, and
/// the name is whole, with a slash behind a directory's.
pub proof fn law_columns_tell_their_fields(
    sort: SortSpec,
    row: Row,
    name: Seq<char>,
    look: RowLook,
    paints: Paints,
)
    ensures
        ({
            let heads = titles(sort, look.show_apparent, look.ascii);
            let cells = row_said(row, name, look, paints);
            let n = cells.len();
            &&& text::starts_with(heads[2], "real"@)
            &&& cells[2].0 == text::padded_left(size::human(row.disk), 9)
            &&& look.show_apparent ==> text::starts_with(heads[3], "apparent"@) && cells[3].0
                == text::padded_left(size::human(row.apparent), 9)
            &&& heads[n - 4] == "%"@
            &&& cells[n - 4].0 == percent_cell(row.disk, look.parent_disk)
            &&& text::starts_with(heads[n - 2], "items"@)
            &&& text::ends_with(cells[n - 2].0, text::dec(row.items as nat))
            &&& text::starts_with(heads[n - 1], "name"@)
            &&& text::starts_with(cells[n - 1].0, name)
            &&& row.is_dir ==> text::ends_with(cells[n - 1].0, "/"@) && cells[n - 1].0.len()
                == name.len() + 1
            &&& !row.is_dir ==> cells[n - 1].0 == name
        }),
{
    reveal_strlit("/");
    text::lemma_ends("real"@, arrow_text(sort, SortKey::Disk, look.ascii));
    text::lemma_ends("apparent"@, arrow_text(sort, SortKey::Apparent, look.ascii));
    text::lemma_ends("items"@, arrow_text(sort, SortKey::Items, look.ascii));
    text::lemma_ends("name"@, arrow_text(sort, SortKey::Name, look.ascii));
    text::law_padding_keeps_the_text(text::dec(row.items as nat), 8);
    text::lemma_ends(name, "/"@);
    assert(name.take(name.len() as int) =~= name);
}

/// Two rows that differ in their apparent size alone have the same cells but for
/// the apparent column: the real size, the share and the bar do not follow it. Two
/// that differ in their disk size alone have the same apparent column, items and
/// name.
pub proof fn law_sizes_do_not_mix(
    a: Row,
    b: Row,
    name: Seq<char>,
    look: RowLook,
    paints: Paints,
    i: int,
)
    requires
        0 <= i < row_said(a, name, look, paints).len(),
    ensures
        b == (Row { apparent: b.apparent, ..a }) && !(look.show_apparent && i == 3) ==> row_said(
            a,
            name,
            look,
            paints,
        )[i] == row_said(b, name, look, paints)[i],
        b == (Row { disk: b.disk, ..a }) && i != 2 && i != row_said(a, name, look, paints).len() - 4
            && i != row_said(a, name, look, paints).len() - 3 ==> row_said(a, name, look, paints)[i]
            == row_said(b, name, look, paints)[i],
{
}

/// The first cell has a star exactly for a marked row; the second one moves while
/// the row is scanned, and otherwise has an exclamation mark exactly for a row with
/// errors.
pub proof fn law_marks_and_errors_show(row: Row, name: Seq<char>, look: RowLook, paints: Paints)
    ensures
        ({
            let cells = row_said(row, name, look, paints);
            &&& look.marked <==> cells[0].0 == "*"@
            &&& row.state is Scanning ==> cells[1].0 == seq![look.spinner]
            &&& !(row.state is Scanning) ==> (cells[1].0 == "!"@ <==> row.state is Error
                || row.errors > 0)
            &&& look.marked ==> cells.last().1.fg == Some(paints.error)
        }),
{
    reveal_strlit("*");
    reveal_strlit(" ");
    reveal_strlit("!");
    assert("*"@[0] == '*' && " "@[0] == ' ' && "!"@[0] == '!');
}

/// The arrow stands behind one title at most, that of the sorted column, and
/// points down for a descending sort.
pub proof fn law_one_arrow(sort: SortSpec, apparent: bool, ascii: bool)
    ensures
        ({
            let heads = titles(sort, apparent, ascii);
            let n = heads.len();
            &&& sort.key != SortKey::Disk ==> heads[2] == "real"@
            &&& sort.key != SortKey::Apparent && apparent ==> heads[3] == "apparent"@
            &&& sort.key != SortKey::Items ==> heads[n - 2] == "items"@
            &&& sort.key != SortKey::Name ==> heads[n - 1] == "name"@
            &&& sort.key == SortKey::Disk ==> heads[2].len() == 5 && heads[2].last() == (
            if sort.descending {
                if ascii {
                    'v'
                } else {
                    '▼'
                }
            } else if ascii {
                '^'
            } else {
                '▲'
            })
            &&& sort.key == SortKey::Apparent && apparent ==> heads[3].len() == 9
                && heads[3].last() == arrow_text(sort, SortKey::Apparent, ascii).last()
            &&& sort.key == SortKey::Items ==> heads[n - 2].len() == 6 && heads[n - 2].last()
                == arrow_text(sort, SortKey::Items, ascii).last()
            &&& sort.key == SortKey::Name ==> heads[n - 1].len() == 5 && heads[n - 1].last()
                == arrow_text(sort, SortKey::Name, ascii).last()
        }),
{
    reveal_strlit("");
    reveal_strlit("v");
    reveal_strlit("^");
    reveal_strlit("▼");
    reveal_strlit("▲");
    reveal_strlit("real");
    reveal_strlit("apparent");
    reveal_strlit("items");
    reveal_strlit("name");
    assert("real"@ + ""@ =~= "real"@);
    assert("apparent"@ + ""@ =~= "apparent"@);
    assert("items"@ + ""@ =~= "items"@);
    assert("name"@ + ""@ =~= "name"@);
}

/// The row at a place of the table is the row that the order puts there, against
/// the viewed directory's own disk size, with its own rank and its own mark.
pub proof fn law_table_shows_the_order(
    ui: UiState,
    position: int,
    ranks: Seq<Option<usize>>,
    spinner: char,
    progress: Double,
    ascii: bool,
    paints: Paints,
)
    requires
        0 <= position < ui.order@.len(),
        ranks.len() == ui.snapshot.rows@.len(),
        ui.order@[position] < ranks.len(),
    ensures
        ({
            let row = ui.snapshot.rows@[ui.order@[position] as int];
            let cells = table_row_said(ui, position, ranks, spinner, progress, ascii, paints);
            let n = cells.len();
            &&& cells[0].0 == "*"@ <==> ui.marked_set@.contains(row.node.raw)
            &&& cells[2].0 == text::padded_left(size::human(row.disk), 9)
            &&& cells[n - 4].0 == percent_cell(row.disk, ui.snapshot.totals.disk)
            &&& cells[n - 3].1.fg == Some(paints.of_rank(ranks[ui.order@[position] as int]))
            &&& text::starts_with(cells[n - 1].0, text::lossy_text(row.name@))
            &&& ui.show_apparent <==> n == 8
        }),
{
    let row = ui.snapshot.rows@[ui.order@[position] as int];
    let look = look_at(ui, position, ranks, spinner, progress, ascii);
    law_marks_and_errors_show(row, text::lossy_text(row.name@), look, paints);
    law_columns_tell_their_fields(ui.sort, row, text::lossy_text(row.name@), look, paints);
}

/// The card tells the disk size first and its share of the viewed directory; its
/// second line tells the age, the items and, only if there are any, the errors.
pub proof fn law_card_tells_the_row(row: Row, parent: u64, now: i64, paints: Paints)
    ensures
        ({
            let card = card_said(row, parent, now, paints);
            &&& card.len() == 2
            &&& text::ends_with(card[0][0].0, size::human(row.disk))
            &&& text::ends_with(card[0].last().0, "% of parent"@)
            &&& parent > 0 ==> card[0].last().0 == text::tenths(
                flatview::percentage(row.disk, parent).times_to_even(10),
            ) + "% of parent"@
            &&& text::ends_with(card[1][0].0, fmt::age(now - row.mtime))
            &&& text::starts_with(card[1][2].0, text::dec(row.items as nat))
            &&& row.errors > 0 <==> card[1].len() == 5
            &&& row.errors > 0 ==> text::starts_with(
                card[1].last().0,
                text::dec(row.errors as nat),
            )
        }),
{
    text::law_padding_keeps_the_text(size::human(row.disk), 9);
    let percent = text::tenths(flatview::percentage(row.disk, parent).times_to_even(10));
    text::lemma_ends(percent, "% of parent"@);
    text::lemma_ends("-"@, "% of parent"@);
    reveal_strlit("-");
    reveal_strlit("% of parent");
    reveal_strlit("-% of parent");
    assert("-% of parent"@ =~= "-"@ + "% of parent"@);
    text::lemma_ends("modified "@, fmt::age(now - row.mtime));
    text::lemma_ends(text::dec(row.items as nat), " items"@);
    text::lemma_ends(text::dec(row.errors as nat), " errors"@);
}

/// A row has a share exactly if there is something to have a share of: a number with one
/// decimal, here and on the card, or a dash where the viewed directory is empty.
pub proof fn law_shares_need_a_whole(disk: u64, parent: u64)
    ensures
        ({
            let cell = percent_cell(disk, parent);
            let card = share_text(disk, parent);
            &&& cell.len() >= 5
            &&& parent > 0 ==> '0' <= cell.last() <= '9' && cell[cell.len() - 2] == '.' && row_share(
                disk,
                parent,
            ) == fmt::share(disk, parent)
            &&& parent > 0 ==> '0' <= card[0] <= '9'
            &&& parent == 0 ==> cell.last() == '-' && card[0] == '-' && row_share(disk, parent)
                == double::zero()
        }),
{
    reveal_strlit("-");
    reveal_strlit("-% of parent");
    reveal_strlit(".");
    let t = double::product(double::int_double(100), fmt::share(disk, parent)).times_to_even(10);
    let u = flatview::percentage(disk, parent).times_to_even(10);
    let s = text::tenths(t);
    text::law_tenths_read_back(t);
    text::law_tenths_read_back(u);
    text::law_decimals_read_back(u / 10);
    text::law_padding_keeps_the_text(s, 5);
    text::law_padding_keeps_the_text("-"@, 5);
    let cell = percent_cell(disk, parent);
    if parent > 0 {
        assert(cell.skip(cell.len() - s.len()) == s);
        assert(cell.last() == s.last());
        assert(cell[cell.len() - 2] == s[s.len() - 2]);
        assert(text::tenths(u)[0] == text::dec(u / 10)[0]);
    } else {
        assert(cell.skip(cell.len() - 1) == "-"@);
        assert(cell.last() == "-"@[0]);
    }
}

} // verus!
