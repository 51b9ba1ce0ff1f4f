//! The donut: composing its subpixels into terminal cells, merging small
//! children into slices, and the proportion bars of the table.

use crate::double;
use crate::double::Double;
use crate::text;
use crate::text::push_run;
use vstd::prelude::*;

verus! {

/// `char::from_u32` gives the character with a code point, where there is one.
pub assume_specification[ char::from_u32 ](i: u32) -> (r: Option<char>)
    ensures
        r is Some <==> (i < 0xd800 || 0xe000 <= i <= 0x10ffff),
        r matches Some(c) ==> c as int == i,
;

/// A subpixel grid: each subpixel holds the slice that covers it, or nothing
/// outside the ring.
#[derive(Debug)]
pub struct PixelGrid {
    pub width: usize,
    pub height: usize,
    /// The subpixels, row by row.
    pub px: Vec<Option<u16>>,
}

impl PixelGrid {
    /// Whether there is one subpixel per place, and places fit the machine.
    pub open spec fn wf(&self) -> bool {
        &&& self.px@.len() == self.width * self.height
        &&& self.width <= usize::MAX - 2
        &&& self.height <= usize::MAX - 2
    }

    /// The slice at a place; nothing outside the grid.
    pub open spec fn at(&self, x: int, y: int) -> Option<u16> {
        if 0 <= x < self.width && 0 <= y < self.height {
            self.px@[y * self.width + x]
        } else {
            None
        }
    }

    /// The slice at a place; nothing outside the grid.
    pub fn get(&self, x: usize, y: usize) -> (r: Option<u16>)
        requires
            self.wf(),
        ensures
            r == self.at(x as int, y as int),
    {
        if x >= self.width || y >= self.height {
            return None;
        }
        assert(0 <= y * self.width && y * self.width + x < self.width * self.height)
            by (nonlinear_arith)
            requires
                x < self.width,
                0 <= y < self.height,
        ;
        assert(self.px.len() == self.px@.len());
        self.px[y * self.width + x]
    }

    /// Subpixels per row.
    pub fn width(&self) -> (r: usize)
        ensures
            r == self.width,
    {
        self.width
    }

    /// Rows of subpixels.
    pub fn height(&self) -> (r: usize)
        ensures
            r == self.height,
    {
        self.height
    }
}

/// A composed terminal cell: a glyph, and the slices that its two colors stand
/// for. An absent one is the terminal's default.
#[derive(Debug, Clone, Copy, PartialEq, Eq)]
pub struct WheelCell {
    pub ch: char,
    pub fg: Option<u16>,
    pub bg: Option<u16>,
}

/// The cell with nothing in it.
pub open spec fn empty_cell() -> WheelCell {
    WheelCell { ch: ' ', fg: None, bg: None }
}

/// The half-block cell over two subpixels.
pub open spec fn half_block(top: Option<u16>, bottom: Option<u16>) -> WheelCell {
    match (top, bottom) {
        (None, None) => empty_cell(),
        (Some(t), b) => WheelCell { ch: '▀', fg: Some(t), bg: b },
        (None, Some(b)) => WheelCell { ch: '▄', fg: Some(b), bg: None },
    }
}

/// A quotient rounded upwards.
pub open spec fn ceil_div(n: int, d: int) -> int {
    (n + d - 1) / d
}

/// Composes half-block cells: each covers two subpixels, one above the other.
pub fn compose_half_blocks(grid: &PixelGrid) -> (cells: Vec<Vec<WheelCell>>)
    requires
        grid.wf(),
    ensures
        cells@.len() == ceil_div(grid.height as int, 2),
        forall|r: int|
            0 <= r < cells@.len() ==> (#[trigger] cells@[r])@.len() == grid.width,
        forall|r: int, c: int|
            0 <= r < cells@.len() && 0 <= c < grid.width ==> #[trigger] cells@[r]@[c] == half_block(
                grid.at(c, 2 * r),
                grid.at(c, 2 * r + 1),
            ),
{
    let rows: usize = grid.height / 2 + grid.height % 2;
    let mut cells: Vec<Vec<WheelCell>> = Vec::new();
    let mut row: usize = 0;
    while row < rows
        invariant
            grid.wf(),
            rows == ceil_div(grid.height as int, 2),
            row <= rows,
            cells@.len() == row,
            forall|r: int|
                0 <= r < cells@.len() ==> (#[trigger] cells@[r])@.len() == grid.width,
            forall|r: int, c: int|
                0 <= r < cells@.len() && 0 <= c < grid.width ==> #[trigger] cells@[r]@[c]
                    == half_block(grid.at(c, 2 * r), grid.at(c, 2 * r + 1)),
        decreases rows - row,
    {
        let mut line: Vec<WheelCell> = Vec::new();
        let mut col: usize = 0;
        while col < grid.width
            invariant
                grid.wf(),
                row < rows,
                rows == ceil_div(grid.height as int, 2),
                col <= grid.width,
                line@.len() == col,
                forall|c: int|
                    0 <= c < col ==> #[trigger] line@[c] == half_block(
                        grid.at(c, 2 * row as int),
                        grid.at(c, 2 * row + 1),
                    ),
            decreases grid.width - col,
        {
            let top = grid.get(col, 2 * row);
            let bottom = grid.get(col, 2 * row + 1);
            let cell = match (top, bottom) {
                (None, None) => WheelCell { ch: ' ', fg: None, bg: None },
                (Some(t), b) => WheelCell { ch: '▀', fg: Some(t), bg: b },
                (None, Some(b)) => WheelCell { ch: '▄', fg: Some(b), bg: None },
            };
            line.push(cell);
            col = col + 1;
        }
        cells.push(line);
        row = row + 1;
    }
    cells
}

/// The two-by-three subpixels at a cell, left to right and top to bottom.
pub open spec fn block(grid: &PixelGrid, col: int, row: int) -> Seq<Option<u16>> {
    seq![
        grid.at(2 * col, 3 * row),
        grid.at(2 * col + 1, 3 * row),
        grid.at(2 * col, 3 * row + 1),
        grid.at(2 * col + 1, 3 * row + 1),
        grid.at(2 * col, 3 * row + 2),
        grid.at(2 * col + 1, 3 * row + 2),
    ]
}

/// The weight where `yes` holds, else zero.
pub open spec fn bit(yes: bool, weight: int) -> int {
    if yes {
        weight
    } else {
        0
    }
}

/// How many of the six subpixels a slice covers.
pub open spec fn cover(b: Seq<Option<u16>>, s: u16) -> int {
    bit(b[0] == Some(s), 1) + bit(b[1] == Some(s), 1) + bit(b[2] == Some(s), 1) + bit(
        b[3] == Some(s),
        1,
    ) + bit(b[4] == Some(s), 1) + bit(b[5] == Some(s), 1)
}

/// Whether a subpixel belongs to a pattern: it is of the given slice, or lit at
/// all where none is given.
pub open spec fn picks(only: Option<u16>, v: Option<u16>) -> bool {
    v is Some && (only is None || v == only)
}

/// The pattern of the subpixels of a slice, or of the lit ones: bit `k` for
/// subpixel `k`.
pub open spec fn pattern(b: Seq<Option<u16>>, only: Option<u16>) -> int {
    bit(picks(only, b[0]), 1) + bit(picks(only, b[1]), 2) + bit(picks(only, b[2]), 4) + bit(
        picks(only, b[3]),
        8,
    ) + bit(picks(only, b[4]), 16) + bit(picks(only, b[5]), 32)
}

/// Whether `p` covers most of the six subpixels among the slices other than
/// `skip`: more than any other, or as many and with the smaller index.
pub open spec fn leads(b: Seq<Option<u16>>, skip: Option<u16>, p: u16) -> bool {
    &&& cover(b, p) > 0
    &&& skip != Some(p)
    &&& forall|q: u16|
        #![trigger cover(b, q)]
        cover(b, q) > 0 && skip != Some(q) ==> {
            ||| cover(b, q) < cover(b, p)
            ||| cover(b, q) == cover(b, p) && p <= q
        }
}

/// Whether a subpixel of the six is lit.
pub open spec fn any_lit(b: Seq<Option<u16>>) -> bool {
    b[0] is Some || b[1] is Some || b[2] is Some || b[3] is Some || b[4] is Some || b[5] is Some
}

/// Whether all six subpixels are lit.
pub open spec fn all_lit(b: Seq<Option<u16>>) -> bool {
    b[0] is Some && b[1] is Some && b[2] is Some && b[3] is Some && b[4] is Some && b[5] is Some
}

/// Whether a cell is the sextant cell over six subpixels. Where all are lit by
/// more than one slice, the leading slice is the pattern over the runner-up;
/// elsewhere every lit subpixel joins the pattern in the leading slice's color.
pub open spec fn is_sextant(b: Seq<Option<u16>>, cell: WheelCell) -> bool {
    if !any_lit(b) {
        cell == empty_cell()
    } else {
        cell.fg matches Some(p) && {
            &&& leads(b, None, p)
            &&& if all_lit(b) && cover(b, p) < 6 {
                &&& cell.bg matches Some(q) && leads(b, Some(p), q)
                &&& cell.ch == sextant(pattern(b, Some(p)))
            } else {
                &&& cell.bg is None
                &&& cell.ch == sextant(pattern(b, None))
            }
        }
    }
}

/// The character for a two-by-three pattern. The block of sextants leaves out
/// the four patterns that have characters elsewhere.
pub open spec fn sextant(bits: int) -> char {
    if bits == 0 {
        ' '
    } else if bits == 21 {
        '▌'
    } else if bits == 42 {
        '▐'
    } else if bits == 63 {
        '█'
    } else {
        (0x1FB00 + bits - 1 - bit(bits > 21, 1) - bit(bits > 42, 1)) as char
    }
}

/// The character for a two-by-three pattern, of which the lowest six bits
/// count.
pub fn sextant_char(bits: u8) -> (c: char)
    ensures
        c == sextant(bits as int % 64),
{
    let b: u8 = bits % 64;
    if b == 0 {
        ' '
    } else if b == 21 {
        '▌'
    } else if b == 42 {
        '▐'
    } else if b == 63 {
        '█'
    } else {
        let after_left: u32 = if b > 21 {
            1
        } else {
            0
        };
        let after_right: u32 = if b > 42 {
            1
        } else {
            0
        };
        let code: u32 = 0x1FB00 + b as u32 - 1 - after_left - after_right;
        match char::from_u32(code) {
            Some(c) => c,
            None => ' ',
        }
    }
}

/// No two patterns share a character.
pub proof fn law_sextants_distinct(a: int, b: int)
    requires
        0 <= a < b < 64,
    ensures
        sextant(a) != sextant(b),
{
}

/// How many of the six values are `s`.
fn count_of(v: &[Option<u16>; 6], s: u16) -> (n: u8)
    ensures
        n == cover(v@, s),
{
    let mut n: u8 = 0;
    let mut i: usize = 0;
    while i < 6
        invariant
            i <= 6,
            n == bit(i > 0 && v@[0] == Some(s), 1) + bit(i > 1 && v@[1] == Some(s), 1) + bit(
                i > 2 && v@[2] == Some(s),
                1,
            ) + bit(i > 3 && v@[3] == Some(s), 1) + bit(i > 4 && v@[4] == Some(s), 1) + bit(
                i > 5 && v@[5] == Some(s),
                1,
            ),
        decreases 6 - i,
    {
        if let Some(x) = v[i] {
            if x == s {
                n = n + 1;
            }
        }
        i = i + 1;
    }
    n
}

/// The leading slice among the six values other than `skip`.
fn leader(v: &[Option<u16>; 6], skip: Option<u16>) -> (r: Option<u16>)
    ensures
        r matches Some(p) ==> leads(v@, skip, p),
        r is None ==> forall|k: int|
            0 <= k < 6 ==> (#[trigger] v@[k]) is None || v@[k] == skip,
{
    let mut best: Option<u16> = None;
    let mut best_n: u8 = 0;
    let mut i: usize = 0;
    while i < 6
        invariant
            i <= 6,
            best matches Some(p) ==> best_n == cover(v@, p) && best_n > 0 && skip != Some(p),
            best is None ==> forall|k: int|
                0 <= k < i ==> (#[trigger] v@[k]) is None || v@[k] == skip,
            best matches Some(p) ==> forall|k: int|
                0 <= k < i && (#[trigger] v@[k]) is Some && v@[k] != skip ==> {
                    ||| cover(v@, v@[k]->0) < best_n
                    ||| cover(v@, v@[k]->0) == best_n && p <= v@[k]->0
                },
        decreases 6 - i,
    {
        if let Some(x) = v[i] {
            let skipped = match skip {
                Some(s) => s == x,
                None => false,
            };
            if !skipped {
                let n: u8 = count_of(v, x);
                let better = match best {
                    Some(p) => n > best_n || (n == best_n && x < p),
                    None => true,
                };
                assert(v@[i as int] == Some(x));
                assert(cover(v@, x) > 0);
                if better {
                    best = Some(x);
                    best_n = n;
                }
            }
        }
        i = i + 1;
    }
    proof {
        if let Some(p) = best {
            assert forall|q: u16|
                #![trigger cover(v@, q)]
                cover(v@, q) > 0 && skip != Some(q) implies {
                ||| cover(v@, q) < cover(v@, p)
                ||| cover(v@, q) == cover(v@, p) && p <= q
            } by {
                let k: int = if v@[0] == Some(q) {
                    0
                } else if v@[1] == Some(q) {
                    1
                } else if v@[2] == Some(q) {
                    2
                } else if v@[3] == Some(q) {
                    3
                } else if v@[4] == Some(q) {
                    4
                } else {
                    5
                };
                assert(v@[k] == Some(q));
            }
        }
    }
    best
}

/// The weight of subpixel `i` in a pattern.
fn weight(i: usize) -> (w: u8)
    requires
        i < 6,
    ensures
        w == (if i == 0 {
            1int
        } else if i == 1 {
            2
        } else if i == 2 {
            4
        } else if i == 3 {
            8
        } else if i == 4 {
            16
        } else {
            32
        }),
{
    if i == 0 {
        1
    } else if i == 1 {
        2
    } else if i == 2 {
        4
    } else if i == 3 {
        8
    } else if i == 4 {
        16
    } else {
        32
    }
}

/// The pattern of the values that are lit, or that are the given slice.
fn bits_of(v: &[Option<u16>; 6], only: Option<u16>) -> (bits: u8)
    ensures
        bits == pattern(v@, only),
        bits < 64,
{
    let mut bits: u8 = 0;
    let mut i: usize = 0;
    while i < 6
        invariant
            i <= 6,
            bits == bit(i > 0 && picks(only, v@[0]), 1) + bit(i > 1 && picks(only, v@[1]), 2) + bit(
                i > 2 && picks(only, v@[2]),
                4,
            ) + bit(i > 3 && picks(only, v@[3]), 8) + bit(i > 4 && picks(only, v@[4]), 16) + bit(
                i > 5 && picks(only, v@[5]),
                32,
            ),
        decreases 6 - i,
    {
        let picked = match (v[i], only) {
            (Some(x), Some(p)) => x == p,
            (Some(_), None) => true,
            (None, _) => false,
        };
        if picked {
            bits = bits + weight(i);
        }
        i = i + 1;
    }
    bits
}

/// The character of the pattern of the values that are lit, or that are the
/// given slice.
fn pattern_char(v: &[Option<u16>; 6], only: Option<u16>) -> (c: char)
    ensures
        c == sextant(pattern(v@, only)),
{
    sextant_char(bits_of(v, only))
}

proof fn lemma_one_slice(b: Seq<Option<u16>>, p: u16)
    requires
        forall|k: int| 0 <= k < 6 ==> (#[trigger] b[k]) == Some(p),
    ensures
        cover(b, p) == 6,
{
    assert(b[0] == Some(p) && b[1] == Some(p) && b[2] == Some(p) && b[3] == Some(p) && b[4] == Some(
        p,
    ) && b[5] == Some(p));
}

/// The runner-up among six lit values of more than one slice.
fn runner_up(v: &[Option<u16>; 6], p: u16) -> (r: Option<u16>)
    requires
        all_lit(v@),
        cover(v@, p) < 6,
    ensures
        r matches Some(q) && leads(v@, Some(p), q),
{
    let second = leader(v, Some(p));
    proof {
        if second is None {
            assert forall|k: int| 0 <= k < 6 implies (#[trigger] v@[k]) == Some(p) by {}
            lemma_one_slice(v@, p);
        }
    }
    second
}

fn is_full(v: &[Option<u16>; 6]) -> (r: bool)
    ensures
        r == all_lit(v@),
{
    v[0].is_some() && v[1].is_some() && v[2].is_some() && v[3].is_some() && v[4].is_some()
        && v[5].is_some()
}

/// The leading slice of six values, if any is lit.
fn first_leader(v: &[Option<u16>; 6]) -> (r: Option<u16>)
    ensures
        r is Some <==> any_lit(v@),
        r matches Some(p) ==> leads(v@, None, p),
{
    leader(v, None)
}

/// The sextant cell over six subpixels.
fn sextant_cell(v: &[Option<u16>; 6]) -> (cell: WheelCell)
    ensures
        is_sextant(v@, cell),
{
    match first_leader(v) {
        None => WheelCell { ch: ' ', fg: None, bg: None },
        Some(p) => {
            if is_full(v) && count_of(v, p) < 6 {
                let second = runner_up(v, p);
                WheelCell { ch: pattern_char(v, Some(p)), fg: Some(p), bg: second }
            } else {
                WheelCell { ch: pattern_char(v, None), fg: Some(p), bg: None }
            }
        },
    }
}

fn compose_sextant_cell(grid: &PixelGrid, col: usize, row: usize) -> (cell: WheelCell)
    requires
        grid.wf(),
        2 * col < grid.width,
        3 * row < grid.height,
    ensures
        is_sextant(block(grid, col as int, row as int), cell),
{
    let x: usize = 2 * col;
    let y: usize = 3 * row;
    let v: [Option<u16>; 6] = [
        grid.get(x, y),
        grid.get(x + 1, y),
        grid.get(x, y + 1),
        grid.get(x + 1, y + 1),
        grid.get(x, y + 2),
        grid.get(x + 1, y + 2),
    ];
    assert(v@ =~= block(grid, col as int, row as int));
    sextant_cell(&v)
}

/// Composes sextant cells: each covers two by three subpixels.
pub fn compose_sextants(grid: &PixelGrid) -> (cells: Vec<Vec<WheelCell>>)
    requires
        grid.wf(),
    ensures
        cells@.len() == ceil_div(grid.height as int, 3),
        forall|r: int|
            0 <= r < cells@.len() ==> (#[trigger] cells@[r])@.len() == ceil_div(
                grid.width as int,
                2,
            ),
        forall|r: int, c: int|
            0 <= r < cells@.len() && 0 <= c < ceil_div(grid.width as int, 2) ==> is_sextant(block(grid, c, r),
                #[trigger] cells@[r]@[c],
            ),
{
    let rows: usize = (grid.height + 2) / 3;
    let cols: usize = (grid.width + 1) / 2;
    let mut cells: Vec<Vec<WheelCell>> = Vec::new();
    let mut row: usize = 0;
    while row < rows
        invariant
            grid.wf(),
            rows == ceil_div(grid.height as int, 3),
            cols == ceil_div(grid.width as int, 2),
            row <= rows,
            cells@.len() == row,
            forall|r: int| 0 <= r < cells@.len() ==> (#[trigger] cells@[r])@.len() == cols,
            forall|r: int, c: int|
                0 <= r < cells@.len() && 0 <= c < cols ==> is_sextant(block(grid, c, r),
                    #[trigger] cells@[r]@[c],
                ),
        decreases rows - row,
    {
        let mut line: Vec<WheelCell> = Vec::new();
        let mut col: usize = 0;
        while col < cols
            invariant
                grid.wf(),
                row < rows,
                rows == ceil_div(grid.height as int, 3),
                cols == ceil_div(grid.width as int, 2),
                col <= cols,
                line@.len() == col,
                forall|c: int|
                    0 <= c < col ==> is_sextant(block(grid, c, row as int),
                        #[trigger] line@[c],
                    ),
            decreases cols - col,
        {
            let cell = compose_sextant_cell(grid, col, row);
            line.push(cell);
            col = col + 1;
        }
        cells.push(line);
        row = row + 1;
    }
    cells
}

/// Whether a row is large enough for a slice of its own: it has a color and at
/// least two percent of the total.
pub open spec fn is_kept(row: (u64, Option<usize>), total: u64) -> bool {
    row.1 is Some && 50 * row.0 >= total
}

/// The places of the first `n` rows that keep a slice, in order.
pub open spec fn kept(rows: Seq<(u64, Option<usize>)>, total: u64, n: int) -> Seq<int>
    decreases n,
{
    if n <= 0 {
        Seq::empty()
    } else if is_kept(rows[n - 1], total) {
        kept(rows, total, n - 1).push(n - 1)
    } else {
        kept(rows, total, n - 1)
    }
}

/// The places that keep a slice are places of rows that do.
pub proof fn lemma_kept_rows(rows: Seq<(u64, Option<usize>)>, total: u64, n: int, k: int)
    requires
        0 <= n <= rows.len(),
        0 <= k < kept(rows, total, n).len(),
    ensures
        0 <= kept(rows, total, n)[k] < n,
        is_kept(rows[kept(rows, total, n)[k]], total),
    decreases n,
{
    if k < kept(rows, total, n - 1).len() {
        lemma_kept_rows(rows, total, n - 1, k);
    }
}

/// The bytes of the first `n` rows.
pub open spec fn bytes_sum(rows: Seq<(u64, Option<usize>)>, n: int) -> nat
    decreases n,
{
    if n <= 0 {
        0
    } else {
        bytes_sum(rows, n - 1) + rows[n - 1].0 as nat
    }
}

/// The bytes of the first `n` rows that do not keep a slice.
pub open spec fn merged_sum(rows: Seq<(u64, Option<usize>)>, total: u64, n: int) -> nat
    decreases n,
{
    if n <= 0 {
        0
    } else if is_kept(rows[n - 1], total) {
        merged_sum(rows, total, n - 1)
    } else {
        merged_sum(rows, total, n - 1) + rows[n - 1].0 as nat
    }
}

/// The bytes of the rest: the rows without a slice and what no row accounts
/// for. Rows beyond the total leave nothing.
pub open spec fn rest_bytes(rows: Seq<(u64, Option<usize>)>, total: u64) -> nat {
    let n = rows.len() as int;
    merged_sum(rows, total, n) + (if bytes_sum(rows, n) < total {
        (total - bytes_sum(rows, n)) as nat
    } else {
        0
    })
}

/// Whether the rest is worth a slice: more than a billionth of the total.
pub open spec fn has_rest(rows: Seq<(u64, Option<usize>)>, total: u64) -> bool {
    rest_bytes(rows, total) * 1_000_000_000 > total
}

/// One slice: its bytes, its color rank and the row that it stands for. The
/// rest has neither.
#[derive(Debug, Clone, Copy, PartialEq, Eq)]
pub struct Slice {
    pub bytes: u128,
    pub rank: Option<usize>,
    pub target: Option<usize>,
}

/// Whether `slices` are those of the rows under a total: the kept rows in
/// order, then the rest where it is worth one; none for an empty total.
pub open spec fn are_slices(
    rows: Seq<(u64, Option<usize>)>,
    total: u64,
    slices: Seq<Slice>,
) -> bool {
    let keep = kept(rows, total, rows.len() as int);
    if total == 0 {
        slices.len() == 0
    } else {
        &&& slices.len() == keep.len() + bit(has_rest(rows, total), 1)
        &&& forall|i: int|
            0 <= i < keep.len() ==> #[trigger] slices[i] == (Slice {
                bytes: rows[keep[i]].0 as u128,
                rank: rows[keep[i]].1,
                target: Some(keep[i] as usize),
            })
        &&& has_rest(rows, total) ==> slices.last() == (Slice {
            bytes: rest_bytes(rows, total) as u128,
            rank: None,
            target: None,
        })
    }
}

/// Merges the rows of a directory into donut slices.
pub fn build_slices_indexed(rows: &[(u64, Option<usize>)], total: u64) -> (slices: Vec<Slice>)
    ensures
        are_slices(rows@, total, slices@),
{
    let mut slices: Vec<Slice> = Vec::new();
    if total == 0 {
        return slices;
    }
    let n: usize = rows.len();
    let mut sum: u128 = 0;
    let mut merged: u128 = 0;
    let mut i: usize = 0;
    while i < n
        invariant
            n == rows@.len(),
            i <= n,
            sum == bytes_sum(rows@, i as int),
            merged == merged_sum(rows@, total, i as int),
            merged <= sum <= i * 0xffff_ffff_ffff_ffff,
            slices@.len() == kept(rows@, total, i as int).len(),
            forall|k: int|
                0 <= k < slices@.len() ==> #[trigger] slices@[k] == (Slice {
                    bytes: rows@[kept(rows@, total, i as int)[k]].0 as u128,
                    rank: rows@[kept(rows@, total, i as int)[k]].1,
                    target: Some(kept(rows@, total, i as int)[k] as usize),
                }),
        decreases n - i,
    {
        let (disk, rank) = rows[i];
        assert(i * 0xffff_ffff_ffff_ffff <= 0xffff_ffff_ffff_ffff * 0xffff_ffff_ffff_ffff)
            by (nonlinear_arith)
            requires
                0 <= i <= 0xffff_ffff_ffff_ffff,
        ;
        assert((i + 1) * 0xffff_ffff_ffff_ffff == i * 0xffff_ffff_ffff_ffff + 0xffff_ffff_ffff_ffff)
            by (nonlinear_arith);
        sum = sum + disk as u128;
        if rank.is_some() && 50 * disk as u128 >= total as u128 {
            slices.push(Slice { bytes: disk as u128, rank, target: Some(i) });
        } else {
            merged = merged + disk as u128;
        }
        i = i + 1;
    }
    assert(merged <= 0xffff_ffff_ffff_ffff * 0xffff_ffff_ffff_ffff) by {
        assert(n * 0xffff_ffff_ffff_ffff <= 0xffff_ffff_ffff_ffff * 0xffff_ffff_ffff_ffff)
            by (nonlinear_arith)
            requires
                0 <= n <= 0xffff_ffff_ffff_ffff,
        ;
    }
    let mut rest: u128 = merged;
    if sum < total as u128 {
        rest = rest + (total as u128 - sum);
    }
    assert(rest == rest_bytes(rows@, total));
    if rest >= 18446744073709551616 || rest * 1_000_000_000 > total as u128 {
        slices.push(Slice { bytes: rest, rank: None, target: None });
    }
    slices
}

/// The slices' bytes and color ranks. A slice's share of the donut is its bytes
/// over the total.
pub fn build_slices(rows: &[(u64, Option<usize>)], total: u64) -> (r: (
    Vec<u128>,
    Vec<Option<usize>>,
))
    ensures
        exists|slices: Seq<Slice>| #[trigger]
            are_slices(rows@, total, slices) && r.0@ == slices.map_values(|s: Slice| s.bytes)
                && r.1@ == slices.map_values(|s: Slice| s.rank),
{
    let slices = build_slices_indexed(rows, total);
    let mut bytes: Vec<u128> = Vec::new();
    let mut ranks: Vec<Option<usize>> = Vec::new();
    let mut i: usize = 0;
    while i < slices.len()
        invariant
            i <= slices@.len(),
            bytes@ == slices@.take(i as int).map_values(|s: Slice| s.bytes),
            ranks@ == slices@.take(i as int).map_values(|s: Slice| s.rank),
        decreases slices@.len() - i,
    {
        bytes.push(slices[i].bytes);
        ranks.push(slices[i].rank);
        i = i + 1;
        assert(bytes@ =~= slices@.take(i as int).map_values(|s: Slice| s.bytes));
        assert(ranks@ =~= slices@.take(i as int).map_values(|s: Slice| s.rank));
    }
    assert(slices@.take(i as int) =~= slices@);
    (bytes, ranks)
}

/// The row that each slice stands for, in slice order; the rest stands for
/// none.
pub fn build_slice_targets(rows: &[(u64, Option<usize>)], total: u64) -> (targets: Vec<
    Option<usize>,
>)
    ensures
        exists|slices: Seq<Slice>| #[trigger]
            are_slices(rows@, total, slices) && targets@ == slices.map_values(|s: Slice| s.target),
{
    let slices = build_slices_indexed(rows, total);
    let mut targets: Vec<Option<usize>> = Vec::new();
    let mut i: usize = 0;
    while i < slices.len()
        invariant
            i <= slices@.len(),
            targets@ == slices@.take(i as int).map_values(|s: Slice| s.target),
        decreases slices@.len() - i,
    {
        targets.push(slices[i].target);
        i = i + 1;
        assert(targets@ =~= slices@.take(i as int).map_values(|s: Slice| s.target));
    }
    assert(slices@.take(i as int) =~= slices@);
    targets
}

/// The rows decide the slices: there is one list of slices for them.
pub proof fn law_slices_unique(
    rows: Seq<(u64, Option<usize>)>,
    total: u64,
    a: Seq<Slice>,
    b: Seq<Slice>,
)
    requires
        are_slices(rows, total, a),
        are_slices(rows, total, b),
    ensures
        a == b,
{
    let keep = kept(rows, total, rows.len() as int);
    assert forall|i: int| 0 <= i < a.len() implies a[i] == b[i] by {
        if i < keep.len() {
            assert(a[i] == b[i]);
        }
    }
    assert(a =~= b);
}

/// The bytes of all slices.
pub open spec fn slice_sum(slices: Seq<Slice>) -> nat
    decreases slices.len(),
{
    if slices.len() == 0 {
        0
    } else {
        slice_sum(slices.drop_last()) + slices.last().bytes as nat
    }
}

/// The bytes of the kept rows among the first `n`.
pub open spec fn kept_sum(rows: Seq<(u64, Option<usize>)>, total: u64, n: int) -> nat
    decreases n,
{
    if n <= 0 {
        0
    } else if is_kept(rows[n - 1], total) {
        kept_sum(rows, total, n - 1) + rows[n - 1].0 as nat
    } else {
        kept_sum(rows, total, n - 1)
    }
}

proof fn lemma_sums_add_up(rows: Seq<(u64, Option<usize>)>, total: u64, n: int)
    requires
        0 <= n <= rows.len(),
    ensures
        kept_sum(rows, total, n) + merged_sum(rows, total, n) == bytes_sum(rows, n),
    decreases n,
{
    if n > 0 {
        lemma_sums_add_up(rows, total, n - 1);
    }
}

proof fn lemma_kept_slices_sum(
    rows: Seq<(u64, Option<usize>)>,
    total: u64,
    n: int,
    slices: Seq<Slice>,
)
    requires
        0 <= n <= rows.len(),
        slices.len() == kept(rows, total, n).len(),
        forall|i: int|
            0 <= i < slices.len() ==> (#[trigger] slices[i]).bytes == rows[kept(rows, total, n)[i]].0,
    ensures
        slice_sum(slices) == kept_sum(rows, total, n),
    decreases n,
{
    if n > 0 {
        let before = kept(rows, total, n - 1);
        if is_kept(rows[n - 1], total) {
            let rest = slices.drop_last();
            assert forall|i: int| 0 <= i < rest.len() implies (#[trigger] rest[i]).bytes
                == rows[before[i]].0 by {
                assert(slices[i].bytes == rows[kept(rows, total, n)[i]].0);
            }
            lemma_kept_slices_sum(rows, total, n - 1, rest);
            assert(slices[slices.len() - 1].bytes == rows[n - 1].0);
        } else {
            lemma_kept_slices_sum(rows, total, n - 1, slices);
        }
    }
}

/// The donut is whole: with a rest slice the slices add up to the total, or to
/// the rows where these exceed it; without one, what is missing is at most a
/// billionth.
pub proof fn law_slices_fill_the_donut(
    rows: Seq<(u64, Option<usize>)>,
    total: u64,
    slices: Seq<Slice>,
)
    requires
        total > 0,
        rows.len() <= u64::MAX,
        are_slices(rows, total, slices),
    ensures
        ({
            let all = bytes_sum(rows, rows.len() as int);
            let whole = if all < total {
                total as nat
            } else {
                all
            };
            &&& has_rest(rows, total) ==> slice_sum(slices) == whole
            &&& !has_rest(rows, total) ==> slice_sum(slices) <= whole && (whole - slice_sum(slices))
                * 1_000_000_000 <= total
        }),
{
    let n = rows.len() as int;
    lemma_sums_add_up(rows, total, n);
    lemma_bytes_bound(rows, n);
    let keep = kept(rows, total, n);
    let head = slices.take(keep.len() as int);
    assert forall|i: int| 0 <= i < head.len() implies (#[trigger] head[i]).bytes == rows[keep[i]].0 by {
        assert(head[i] == slices[i]);
    }
    lemma_kept_slices_sum(rows, total, n, head);
    if has_rest(rows, total) {
        assert(slices.drop_last() =~= head);
    } else {
        assert(slices =~= head);
    }
}

proof fn lemma_bytes_bound(rows: Seq<(u64, Option<usize>)>, n: int)
    requires
        0 <= n <= rows.len() <= u64::MAX,
    ensures
        bytes_sum(rows, n) <= n * u64::MAX,
        n * u64::MAX <= 0xffff_ffff_ffff_ffff * 0xffff_ffff_ffff_ffff,
    decreases n,
{
    assert(n * u64::MAX <= 0xffff_ffff_ffff_ffff * 0xffff_ffff_ffff_ffff) by (nonlinear_arith)
        requires
            0 <= n <= 0xffff_ffff_ffff_ffff,
    ;
    if n > 0 {
        lemma_bytes_bound(rows, n - 1);
        assert(n * u64::MAX == (n - 1) * u64::MAX + u64::MAX) by (nonlinear_arith);
    }
}

/// A share that may lie below zero.
#[derive(Debug, Clone, Copy, PartialEq, Eq, Structural)]
pub struct Share {
    pub below_zero: bool,
    pub size: Double,
}

impl Share {
    /// The share kept between zero and one.
    pub open spec fn clamped(self) -> Double {
        if self.below_zero || self.size.mant == 0 {
            double::zero()
        } else if self.size.above_one() {
            double::one()
        } else {
            self.size
        }
    }
}

/// How many of `units` a share fills: the nearest number, but at least one
/// for a share that is not zero.
pub open spec fn filled(share: Double, units: nat) -> nat {
    let n = double::product(share, double::int_double(units)).to_int_up();
    if share.mant > 0 && n == 0 {
        1
    } else {
        n
    }
}

/// The block that fills `n` eighths of a cell from the left.
pub open spec fn eighth(n: int) -> char {
    if n == 1 {
        '▏'
    } else if n == 2 {
        '▎'
    } else if n == 3 {
        '▍'
    } else if n == 4 {
        '▌'
    } else if n == 5 {
        '▋'
    } else if n == 6 {
        '▊'
    } else {
        '▉'
    }
}

/// A bar of `width` cells that is filled in proportion to a share: whole cells
/// of `#` in ASCII, else full blocks and a block of eighths, padded with
/// spaces.
pub open spec fn bar(share: Double, width: nat, ascii: bool) -> Seq<char> {
    if ascii {
        text::padded_right(text::run('#', filled(share, width)), width)
    } else {
        let n = filled(share, 8 * width);
        text::padded_right(
            text::run('█', n / 8) + (if n % 8 == 0 {
                Seq::empty()
            } else {
                seq![eighth((n % 8) as int)]
            }),
            width,
        )
    }
}

fn eighth_char(n: usize) -> (c: char)
    ensures
        c == eighth(n as int),
{
    if n == 1 {
        '▏'
    } else if n == 2 {
        '▎'
    } else if n == 3 {
        '▍'
    } else if n == 4 {
        '▌'
    } else if n == 5 {
        '▋'
    } else if n == 6 {
        '▊'
    } else {
        '▉'
    }
}

/// How many of `units` a share fills.
fn fill(x: Double, units: usize) -> (n: usize)
    requires
        x.wf(),
        x.mant == 0 || -900 <= x.exp,
        x.mant == 0 ==> x.exp == 0,
        !x.above_one(),
        units < 0x10_0000_0000_0000,
    ensures
        n == filled(x, units as nat),
        x.mant == 0 ==> n == 0,
        units > 0 ==> n <= units,
{
    let u = Double::of_int(units as u64);
    proof {
        double::lemma_above_one_from_exponent(x);
    }
    let p = x.mul(&u);
    let n: u128 = p.round_int_up();
    proof {
        if x.mant > 0 && units > 0 {
            double::lemma_product_at_most(x, u, p, units as nat);
        } else {
            double::lemma_zero_to_int(p);
        }
    }
    if x.mant > 0 && n == 0 {
        1
    } else {
        n as usize
    }
}

/// A proportion bar of `width` cells. The share is clamped to between zero and
/// one, and one that is not zero always shows.
pub fn proportion_bar(share: Share, width: usize, ascii: bool) -> (s: String)
    requires
        share.size.wf(),
        share.size.mant == 0 || -900 <= share.size.exp,
        8 * width < 0x10_0000_0000_0000,
        8 * width <= usize::MAX,
    ensures
        s@ == bar(share.clamped(), width as nat, ascii),
        width > 0 ==> s@.len() == width,
{
    let mut x = Double { mant: 0, exp: 0 };
    proof {
        double::lemma_one_is_not_above();
    }
    if !share.below_zero && share.size.mant > 0 {
        if share.size.exceeds_one() {
            x = Double { mant: 4503599627370496, exp: -52 };
        } else {
            x = share.size;
        }
    }
    let mut s = String::new();
    if ascii {
        let n: usize = fill(x, width);
        push_run(&mut s, '#', n);
        if n < width {
            push_run(&mut s, ' ', width - n);
        }
        assert(s@ =~= bar(x, width as nat, ascii));
        return s;
    }
    let n: usize = fill(x, 8 * width);
    push_run(&mut s, '█', n / 8);
    let mut cells: usize = n / 8;
    if n % 8 != 0 {
        s.push(eighth_char(n % 8));
        cells = cells + 1;
    }
    if cells < width {
        push_run(&mut s, ' ', width - cells);
    }
    assert(s@ =~= bar(x, width as nat, ascii));
    s
}

/// A share that is not zero always shows: its bar starts with something other
/// than a space.
pub proof fn law_a_sliver_shows(share: Double, width: nat, ascii: bool)
    requires
        width > 0,
        share.mant > 0,
    ensures
        bar(share, width, ascii).len() > 0,
        bar(share, width, ascii)[0] != ' ',
{
    let n = filled(share, 8 * width);
    if !ascii && n / 8 == 0 {
        assert(n % 8 == n);
    }
}

/// What a cell of two pixels shows in its upper or its lower half.
pub open spec fn half_shown(cell: WheelCell, upper: bool) -> Option<u16> {
    if cell.ch == '▀' {
        if upper {
            cell.fg
        } else {
            cell.bg
        }
    } else if cell.ch == '▄' {
        if upper {
            cell.bg
        } else {
            cell.fg
        }
    } else {
        None
    }
}

/// A cell of two pixels shows both: the upper one above the lower one.
pub proof fn law_half_blocks_show_both(top: Option<u16>, bottom: Option<u16>)
    ensures
        half_shown(half_block(top, bottom), true) == top,
        half_shown(half_block(top, bottom), false) == bottom,
{
}

/// A cell over one slice alone has its color, whatever its shape, and a dark one has none;
/// a cell that is lit throughout by several shows the two that cover most of it.
pub proof fn law_sextants_show_their_slice(b: Seq<Option<u16>>, cell: WheelCell, s: u16)
    requires
        b.len() == 6,
        is_sextant(b, cell),
    ensures
        (forall|i: int| 0 <= i < 6 ==> #[trigger] b[i] is None) ==> cell == empty_cell(),
        (forall|i: int| 0 <= i < 6 ==> #[trigger] b[i] is None || b[i] == Some(s)) && (exists|i: int|
            0 <= i < 6 && #[trigger] b[i] is Some) ==> cell.fg == Some(s) && cell.bg is None,
        cell.fg matches Some(p) ==> cover(b, p) > 0 && cover(b, p) >= cover(b, s),
        cell.bg matches Some(q) ==> cover(b, q) > 0 && cell.fg != Some(q),
{
    if cell.fg is Some {
        let p = cell.fg.unwrap();
        assert(cover(b, s) >= 0);
        if (forall|i: int| 0 <= i < 6 ==> #[trigger] b[i] is None || b[i] == Some(s)) {
            assert(b[0] is None || b[0] == Some(s));
            assert(b[1] is None || b[1] == Some(s));
            assert(b[2] is None || b[2] == Some(s));
            assert(b[3] is None || b[3] == Some(s));
            assert(b[4] is None || b[4] == Some(s));
            assert(b[5] is None || b[5] == Some(s));
        }
    }
}

/// The lit pixels of a cell are the bits of its pattern, the upper left one first.
pub proof fn law_patterns_have_a_bit_per_pixel(b: Seq<Option<u16>>)
    requires
        b.len() == 6,
    ensures
        0 <= pattern(b, None) < 64,
        pattern(b, None) % 2 == 1 <==> b[0] is Some,
        pattern(b, None) / 2 % 2 == 1 <==> b[1] is Some,
        pattern(b, None) / 4 % 2 == 1 <==> b[2] is Some,
        pattern(b, None) / 8 % 2 == 1 <==> b[3] is Some,
        pattern(b, None) / 16 % 2 == 1 <==> b[4] is Some,
        pattern(b, None) / 32 % 2 == 1 <==> b[5] is Some,
{
}

/// A row keeps a slice of its own exactly if it is ranked and has at least a fiftieth of the
/// total, with its own bytes and rank; the slices stand in the order of the rows.
pub proof fn law_large_rows_keep_their_slice(
    rows: Seq<(u64, Option<usize>)>,
    total: u64,
    slices: Seq<Slice>,
    i: int,
)
    requires
        total > 0,
        rows.len() <= usize::MAX,
        are_slices(rows, total, slices),
        0 <= i < rows.len(),
    ensures
        rows[i].1 is Some && 50 * rows[i].0 >= total ==> exists|k: int|
            0 <= k < slices.len() && (#[trigger] slices[k]).target == Some(i as usize)
                && slices[k].bytes == rows[i].0 && slices[k].rank == rows[i].1,
        rows[i].1 is None || 50 * rows[i].0 < total ==> forall|k: int|
            0 <= k < slices.len() ==> (#[trigger] slices[k]).target != Some(i as usize),
{
    let n = rows.len() as int;
    let keep = kept(rows, total, n);
    if is_kept(rows[i], total) {
        lemma_kept_has(rows, total, n, i);
        let k = choose|k: int| 0 <= k < keep.len() && keep[k] == i;
        assert(slices[k].target == Some(i as usize));
    } else {
        assert forall|k: int| 0 <= k < slices.len() implies (#[trigger] slices[k]).target != Some(
            i as usize,
        ) by {
            if k < keep.len() {
                lemma_kept_rows(rows, total, n, k);
            } else {
                assert(slices[k] == slices.last());
            }
        }
    }
}

proof fn lemma_kept_has(rows: Seq<(u64, Option<usize>)>, total: u64, n: int, i: int)
    requires
        0 <= i < n <= rows.len(),
        is_kept(rows[i], total),
    ensures
        kept(rows, total, n).contains(i),
    decreases n,
{
    if i == n - 1 {
        assert(kept(rows, total, n).last() == i);
    } else {
        lemma_kept_has(rows, total, n - 1, i);
        let before = kept(rows, total, n - 1);
        let k = choose|k: int| 0 <= k < before.len() && before[k] == i;
        assert(kept(rows, total, n)[k] == i);
    }
}

/// A share is drawn between nothing and the whole.
pub proof fn law_shares_are_drawn_within_the_bar(s: Share)
    ensures
        s.below_zero ==> s.clamped() == double::zero(),
        s.size.mant == 0 ==> s.clamped() == double::zero(),
        !s.clamped().above_one(),
        !s.below_zero && s.size.mant > 0 && !s.size.above_one() ==> s.clamped() == s.size,
        !s.below_zero && s.size.above_one() ==> s.clamped() == double::one(),
{
    double::lemma_one_is_not_above();
}

/// Nothing draws nothing.
pub proof fn law_empty_bars_are_blank(width: nat, ascii: bool, i: int)
    requires
        0 <= i < bar(double::zero(), width, ascii).len(),
    ensures
        bar(double::zero(), width, ascii)[i] == ' ',
{
    let units = if ascii {
        width
    } else {
        8 * width
    };
    let p = double::product(double::zero(), double::int_double(units));
    assert(0 * double::int_double(units).mant as nat == 0) by (nonlinear_arith);
    double::lemma_zero_to_int(p);
}

/// The steps of a cell are eight different glyphs.
pub proof fn law_eighths_differ(a: int, b: int)
    requires
        1 <= a < b <= 7,
    ensures
        eighth(a) != eighth(b),
        eighth(a) != '█',
        eighth(b) != '█',
{
}

/// A pixel outside the grid is dark, and inside it is the one of its row and column.
pub proof fn law_pixels_are_found_by_row_and_column(g: PixelGrid, x: int, y: int)
    ensures
        x < 0 || y < 0 || x >= g.width || y >= g.height ==> g.at(x, y) is None,
        0 <= x < g.width && 0 <= y < g.height ==> g.at(x, y) == g.px@[y * g.width + x],
{
}

} // verus!
