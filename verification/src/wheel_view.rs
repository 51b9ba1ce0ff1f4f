//! The wheel panel: its slices, its cells on the screen and its caption.

use crate::caps::GlyphLevel;
use crate::double::Double;
use crate::fmt;
use crate::fmt::abbreviate_path;
use crate::layout::Area;
use crate::lines::{bold, push_line, shown, strong, tint, tinted, Line, Paints};
use crate::size;
use crate::size::human_string;
use crate::state::{UiState, WheelGeometry};
use crate::table_view;
use crate::text;
use crate::theme;
use crate::theme::{Color, Style};
use crate::wheel;
use crate::wheel::{
    build_slice_targets, compose_half_blocks, compose_sextants, PixelGrid, Slice, WheelCell,
};
use vstd::prelude::*;

verus! {

/// The sizes and identity ranks of the rows, in display order: a slice's
/// position is the cursor position of its row.
pub open spec fn sliced_rows(ui: UiState, ranks: Seq<Option<usize>>) -> Seq<(u64, Option<usize>)> {
    Seq::new(
        ui.order@.len(),
        |i: int|
            (
                ui.snapshot.rows@[ui.order@[i] as int].disk,
                table_view::rank_at(ranks, ui.order@[i]),
            ),
    )
}

/// The rows that the wheel slices up.
pub fn slice_rows(ui: &UiState, ranks: &[Option<usize>]) -> (r: Vec<(u64, Option<usize>)>)
    requires
        ui.wf(),
    ensures
        r@ == sliced_rows(*ui, ranks@),
{
    let list = ui.rows_indexed();
    let mut r: Vec<(u64, Option<usize>)> = Vec::new();
    let mut i: usize = 0;
    while i < list.len()
        invariant
            i <= list@.len(),
            list@.len() == ui.order@.len(),
            forall|k: int|
                0 <= k < list@.len() ==> {
                    &&& (#[trigger] list@[k]).0 == ui.order@[k]
                    &&& *list@[k].1 == ui.snapshot.rows@[ui.order@[k] as int]
                },
            r@ == sliced_rows(*ui, ranks@).take(i as int),
        decreases list@.len() - i,
    {
        let (index, row) = list[i];
        assert(list@[i as int].0 == ui.order@[i as int]);
        let rank: Option<usize> = if index < ranks.len() {
            ranks[index]
        } else {
            None
        };
        r.push((row.disk, rank));
        i = i + 1;
        assert(r@ =~= sliced_rows(*ui, ranks@).take(i as int));
    }
    assert(r@ =~= sliced_rows(*ui, ranks@));
    r
}

/// The color of each slice; the rest is muted.
pub open spec fn colors_of(ranks: Seq<Option<usize>>, paints: Paints) -> Seq<Color> {
    Seq::new(ranks.len(), |i: int| paints.of_rank(ranks[i]))
}

/// Looks up the color of each slice.
pub fn slice_colors(ranks: &[Option<usize>], paints: &Paints) -> (colors: Vec<Color>)
    requires
        paints.wf(),
    ensures
        colors@ == colors_of(ranks@, *paints),
{
    let mut colors: Vec<Color> = Vec::new();
    let mut i: usize = 0;
    while i < ranks.len()
        invariant
            i <= ranks@.len(),
            paints.wf(),
            colors@.len() == i,
            forall|k: int|
                0 <= k < i ==> #[trigger] colors@[k] == paints.of_rank(ranks@[k]),
        decreases ranks@.len() - i,
    {
        colors.push(paints.rank_color(ranks[i]));
        i = i + 1;
    }
    assert(colors@ =~= colors_of(ranks@, *paints));
    colors
}

/// The pixels that a donut of some cells has: two by three to a sextant cell,
/// one by two to a half-block cell.
pub fn raster_size(glyphs: GlyphLevel, width: u16, height: u16) -> (r: (usize, usize))
    ensures
        glyphs is Sextant ==> r.0 == 2 * width && r.1 == 3 * height,
        !(glyphs is Sextant) ==> r.0 == width && r.1 == 2 * height,
{
    match glyphs {
        GlyphLevel::Sextant => (2 * width as usize, 3 * height as usize),
        _ => (width as usize, 2 * height as usize),
    }
}

/// Whether cells compose a grid of pixels.
pub open spec fn composes(glyphs: GlyphLevel, grid: &PixelGrid, cells: Seq<Vec<WheelCell>>) -> bool {
    if glyphs is Sextant {
        &&& cells.len() == wheel::ceil_div(grid.height as int, 3)
        &&& forall|r: int|
            0 <= r < cells.len() ==> (#[trigger] cells[r])@.len() == wheel::ceil_div(
                grid.width as int,
                2,
            )
        &&& forall|r: int, c: int|
            0 <= r < cells.len() && 0 <= c < wheel::ceil_div(grid.width as int, 2)
                ==> wheel::is_sextant(wheel::block(grid, c, r), #[trigger] cells[r]@[c])
    } else {
        &&& cells.len() == wheel::ceil_div(grid.height as int, 2)
        &&& forall|r: int| 0 <= r < cells.len() ==> (#[trigger] cells[r])@.len() == grid.width
        &&& forall|r: int, c: int|
            0 <= r < cells.len() && 0 <= c < grid.width ==> #[trigger] cells[r]@[c]
                == wheel::half_block(grid.at(c, 2 * r), grid.at(c, 2 * r + 1))
    }
}

/// Composes the cells of a donut.
pub fn compose(glyphs: GlyphLevel, grid: &PixelGrid) -> (cells: Vec<Vec<WheelCell>>)
    requires
        grid.wf(),
    ensures
        composes(glyphs, grid, cells@),
{
    match glyphs {
        GlyphLevel::Sextant => compose_sextants(grid),
        _ => compose_half_blocks(grid),
    }
}

/// Whether a donut is drawn: there is something to slice, and room for it.
pub fn shows_donut(slices: usize, donut: Area) -> (r: bool)
    ensures
        r == (slices > 0 && donut.width >= 2 && donut.height >= 2),
{
    slices > 0 && donut.width >= 2 && donut.height >= 2
}

/// The slice of a composed cell; none outside the composed grid.
pub open spec fn slice_of(cells: Seq<Vec<WheelCell>>, row: int, col: int) -> Option<u16> {
    if 0 <= row < cells.len() && 0 <= col < cells[row]@.len() {
        cells[row]@[col].fg
    } else {
        None
    }
}

/// The slices of the first `n` cells of an area, row by row.
pub open spec fn flattened(cells: Seq<Vec<WheelCell>>, width: int, n: int) -> Seq<Option<u16>> {
    Seq::new(n as nat, |k: int| slice_of(cells, k / width, k % width))
}

/// Where the donut stands and what each cell and slice stands for, for
/// hit-testing.
pub fn wheel_geometry(
    donut: Area,
    cells: &Vec<Vec<WheelCell>>,
    rows: &[(u64, Option<usize>)],
    total: u64,
) -> (g: WheelGeometry)
    requires
        donut.width > 0,
    ensures
        g.x == donut.x,
        g.y == donut.y,
        g.width == donut.width,
        g.height == donut.height,
        g.cells@ == flattened(cells@, donut.width as int, donut.width * donut.height),
        exists|slices: Seq<Slice>| #[trigger]
            wheel::are_slices(rows@, total, slices) && g.targets@ == slices.map_values(
                |s: Slice| s.target,
            ),
{
    let width: usize = donut.width as usize;
    let height: usize = donut.height as usize;
    let mut out: Vec<Option<u16>> = Vec::new();
    let mut row: usize = 0;
    assert(width * 0 == 0);
    while row < height
        invariant
            row <= height,
            width == donut.width,
            width > 0,
            height == donut.height,
            out@ == flattened(cells@, width as int, width * row),
        decreases height - row,
    {
        let mut col: usize = 0;
        while col < width
            invariant
                row < height,
                col <= width,
                width > 0,
                out@ == flattened(cells@, width as int, width * row + col),
                width * row >= 0,
            decreases width - col,
        {
            let slice: Option<u16> = if row < cells.len() && col < cells[row].len() {
                cells[row][col].fg
            } else {
                None
            };
            proof {
                let k = width * row + col;
                assert(k / width as int == row && k % width as int == col) by (nonlinear_arith)
                    requires
                        k == width * row + col,
                        0 <= col < width,
                        0 <= row,
                ;
            }
            out.push(slice);
            col = col + 1;
            assert(out@ =~= flattened(cells@, width as int, width * row + col));
        }
        assert(width * row + width == width * (row + 1)) by (nonlinear_arith);
        row = row + 1;
    }
    assert(width * height == donut.width * donut.height);
    let targets = build_slice_targets(rows, total);
    WheelGeometry { x: donut.x, y: donut.y, width, height, cells: out, targets }
}

/// How a composed cell is painted: not at all where it is empty.
pub open spec fn painted(cell: WheelCell, colors: Seq<Color>) -> Option<(char, Style)> {
    if cell.fg is None && cell.bg is None {
        None
    } else {
        Some(
            (
                cell.ch,
                Style {
                    fg: color_of(cell.fg, colors),
                    bg: color_of(cell.bg, colors),
                    ..theme::plain_style()
                },
            ),
        )
    }
}

/// The color of a slice; a slice without one has the terminal's.
pub open spec fn color_of(slice: Option<u16>, colors: Seq<Color>) -> Option<Color> {
    match slice {
        Some(s) => Some(
            if s < colors.len() {
                colors[s as int]
            } else {
                Color::Reset
            },
        ),
        None => None,
    }
}

fn slice_color(slice: Option<u16>, colors: &[Color]) -> (c: Option<Color>)
    ensures
        c == color_of(slice, colors@),
{
    match slice {
        Some(s) => if (s as usize) < colors.len() {
            Some(colors[s as usize])
        } else {
            Some(Color::Reset)
        },
        None => None,
    }
}

/// Paints a composed cell.
pub fn paint_cell(cell: &WheelCell, colors: &[Color]) -> (r: Option<(char, Style)>)
    ensures
        r == painted(*cell, colors@),
{
    if cell.fg.is_none() && cell.bg.is_none() {
        return None;
    }
    let mut style = Style::plain();
    style.fg = slice_color(cell.fg, colors);
    style.bg = slice_color(cell.bg, colors);
    Some((cell.ch, style))
}

/// The wheel's caption: the viewed path, abbreviated to the panel's width, and
/// its total.
pub fn wheel_caption(path: &str, total: u64, width: u16, paints: &Paints) -> (lines: Vec<Line>)
    ensures
        shown(lines@) == seq![
            seq![
                (
                    fmt::abbreviated(
                        path@,
                        if width >= 2 {
                            (width - 2) as nat
                        } else {
                            0
                        },
                        false,
                    ),
                    tinted(paints.muted),
                ),
            ],
            seq![(size::human(total), strong(theme::plain_style()))],
        ],
{
    let room: usize = if width >= 2 {
        (width - 2) as usize
    } else {
        0
    };
    let mut lines: Vec<Line> = Vec::new();
    push_line(&mut lines, Line::one(abbreviate_path(path, room), tint(paints.muted)));
    push_line(&mut lines, Line::one(human_string(total), bold(Style::plain())));
    assert(shown(lines@) =~= seq![
        seq![(fmt::abbreviated(path@, room as nat, false), tinted(paints.muted))],
        seq![(size::human(total), strong(theme::plain_style()))],
    ]);
    lines
}

/// A row's bar and its slice have the same color, and so has its name unless the
/// row is marked: one identity color across the whole screen, with the apparent
/// column or without.
pub proof fn law_one_color_per_row(
    ui: UiState,
    ranks: Seq<Option<usize>>,
    slices: Seq<wheel::Slice>,
    k: int,
    spinner: char,
    progress: Double,
    ascii: bool,
    paints: Paints,
)
    requires
        wheel::are_slices(sliced_rows(ui, ranks), ui.snapshot.totals.disk, slices),
        0 <= k < slices.len(),
        slices[k].target is Some,
    ensures
        ({
            let at = slices[k].target.unwrap() as int;
            let cells = table_view::table_row_said(ui, at, ranks, spinner, progress, ascii, paints);
            let color = colors_of(slices.map_values(|s: wheel::Slice| s.rank), paints)[k];
            let marked = table_view::look_at(ui, at, ranks, spinner, progress, ascii).marked;
            &&& at < ui.order@.len()
            &&& cells[cells.len() - 3].1.fg == Some(color)
            &&& !marked ==> cells.last().1.fg == Some(color)
        }),
{
    let rows = sliced_rows(ui, ranks);
    let total = ui.snapshot.totals.disk;
    assert(ui.order.len() == ui.order@.len());
    wheel::lemma_kept_rows(rows, total, rows.len() as int, k);
    let at = slices[k].target.unwrap() as int;
    let row = ui.snapshot.rows@[ui.order@[at] as int];
    table_view::law_colors_agree(
        row,
        text::lossy_text(row.name@),
        table_view::look_at(ui, at, ranks, spinner, progress, ascii),
        paints,
    );
}

/// A click on a cell of the donut lands on the row whose slice the cell shows.
pub proof fn law_clicks_land_on_their_slice(
    g: WheelGeometry,
    cells: Seq<Vec<WheelCell>>,
    col: u16,
    row: u16,
)
    requires
        g.width > 0,
        g.cells@ == flattened(cells, g.width as int, g.width * g.height),
        g.x <= col < g.x + g.width,
        g.y <= row < g.y + g.height,
    ensures
        g.slice_at(col, row) == slice_of(cells, row - g.y, col - g.x),
{
    let x = col - g.x;
    let y = row - g.y;
    let w = g.width as int;
    let k = y * w + x;
    assert(0 <= k < w * g.height) by (nonlinear_arith)
        requires
            0 <= x < w,
            0 <= y < g.height,
            k == y * w + x,
    ;
    assert(k / w == y && k % w == x) by (nonlinear_arith)
        requires
            0 <= x < w,
            0 <= y,
            k == y * w + x,
    ;
}

/// The slice of a row has the row's disk bytes, those that its percentage and its
/// bar are of; the slice of no row has no rank.
pub proof fn law_slices_have_the_disk_bytes(
    ui: UiState,
    ranks: Seq<Option<usize>>,
    slices: Seq<Slice>,
    k: int,
    spinner: char,
    progress: Double,
    ascii: bool,
    paints: Paints,
)
    requires
        wheel::are_slices(sliced_rows(ui, ranks), ui.snapshot.totals.disk, slices),
        0 <= k < slices.len(),
    ensures
        slices[k].target matches Some(t) ==> {
            let disk = ui.snapshot.rows@[ui.order@[t as int] as int].disk;
            let cells = table_view::table_row_said(
                ui,
                t as int,
                ranks,
                spinner,
                progress,
                ascii,
                paints,
            );
            &&& t < ui.order@.len()
            &&& slices[k].bytes == disk
            &&& cells[2].0 == text::padded_left(size::human(slices[k].bytes as u64), 9)
            &&& cells[cells.len() - 4].0 == table_view::percent_cell(
                slices[k].bytes as u64,
                ui.snapshot.totals.disk,
            )
        },
        slices[k].target is None ==> slices[k].rank is None,
{
    let rows = sliced_rows(ui, ranks);
    let total = ui.snapshot.totals.disk;
    let keep = wheel::kept(rows, total, rows.len() as int);
    assert(ui.order.len() == ui.order@.len());
    if k < keep.len() {
        wheel::lemma_kept_rows(rows, total, rows.len() as int, k);
    }
    if slices[k].target is Some {
        let t = slices[k].target.unwrap() as int;
        let row = ui.snapshot.rows@[ui.order@[t] as int];
        table_view::law_columns_tell_their_fields(
            ui.sort,
            row,
            text::lossy_text(row.name@),
            table_view::look_at(ui, t, ranks, spinner, progress, ascii),
            paints,
        );
    }
}

/// Apparent sizes never show in the wheel: two views with the same order and the
/// same disk sizes have the same slices.
pub proof fn law_wheel_ignores_apparent_sizes(
    a: UiState,
    b: UiState,
    ranks: Seq<Option<usize>>,
    x: Seq<Slice>,
    y: Seq<Slice>,
)
    requires
        a.order@ == b.order@,
        a.snapshot.totals.disk == b.snapshot.totals.disk,
        a.snapshot.rows@.len() == b.snapshot.rows@.len(),
        forall|i: int|
            0 <= i < a.snapshot.rows@.len() ==> (#[trigger] a.snapshot.rows@[i]).disk
                == b.snapshot.rows@[i].disk,
        forall|i: int|
            0 <= i < a.order@.len() ==> #[trigger] a.order@[i] < a.snapshot.rows@.len(),
        wheel::are_slices(sliced_rows(a, ranks), a.snapshot.totals.disk, x),
        wheel::are_slices(sliced_rows(b, ranks), b.snapshot.totals.disk, y),
    ensures
        x == y,
{
    assert(sliced_rows(a, ranks) =~= sliced_rows(b, ranks));
    wheel::law_slices_unique(sliced_rows(a, ranks), a.snapshot.totals.disk, x, y);
}

/// A cell of the donut is painted exactly if something lies under it, in the colors
/// of the slices that do.
pub proof fn law_cells_have_their_slices_colors(cell: WheelCell, colors: Seq<Color>)
    ensures
        painted(cell, colors) is None <==> cell.fg is None && cell.bg is None,
        painted(cell, colors) matches Some((ch, style)) ==> {
            &&& ch == cell.ch
            &&& cell.fg matches Some(s) ==> s < colors.len() ==> style.fg == Some(colors[s as int])
            &&& cell.bg matches Some(s) ==> s < colors.len() ==> style.bg == Some(colors[s as int])
            &&& cell.fg is None ==> style.fg is None
            &&& cell.bg is None ==> style.bg is None
        },
{
}

/// Every pixel is drawn: the cells reach over the whole grid, and a cell of two pixels
/// shows the two that lie there, the upper one above the lower one.
pub proof fn law_every_pixel_is_drawn(
    glyphs: GlyphLevel,
    grid: &PixelGrid,
    cells: Seq<Vec<WheelCell>>,
    x: int,
    y: int,
)
    requires
        composes(glyphs, grid, cells),
        0 <= x < grid.width,
        0 <= y < grid.height,
    ensures
        !(glyphs is Sextant) ==> y / 2 < cells.len() && x < cells[y / 2]@.len()
            && wheel::half_shown(cells[y / 2]@[x], y % 2 == 0) == grid.at(x, y),
        glyphs is Sextant ==> y / 3 < cells.len() && x / 2 < cells[y / 3]@.len()
            && wheel::is_sextant(wheel::block(grid, x / 2, y / 3), cells[y / 3]@[x / 2]),
{
    if glyphs is Sextant {
        assert(wheel::is_sextant(wheel::block(grid, x / 2, y / 3), cells[y / 3]@[x / 2]));
    } else {
        let r = y / 2;
        assert(cells[r]@[x] == wheel::half_block(grid.at(x, 2 * r), grid.at(x, 2 * r + 1)));
        wheel::law_half_blocks_show_both(grid.at(x, 2 * r), grid.at(x, 2 * r + 1));
    }
}

} // verus!
