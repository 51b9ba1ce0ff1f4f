//! The disk gauge: how full the filesystem is, and how much of that the scan
//! accounts for.

use crate::double;
use crate::double::Double;
use crate::fmt;
use crate::fmt::{percent_of, DiskSpace};
use crate::lines::{dim, faint, tint, tinted, Line, Paints};
use crate::size;
use crate::size::push_human;
use crate::text;
use crate::text::{copy_str, push_dec, push_run};
use crate::theme::Style;
use vstd::arithmetic::power2::*;
use vstd::prelude::*;
use vstd::string::*;

verus! {

/// What the gauge says behind its bar.
pub open spec fn gauge_text(
    disk: DiskSpace,
    scan: u64,
    devices: usize,
    suffix: Seq<char>,
) -> Seq<char> {
    " "@ + size::human(disk.capacity) + " · "@ + text::dec(fmt::percent(disk.used_share()))
        + "% used · "@ + disk.caption(scan, devices) + suffix + " "@
}

/// The cells that the bar has, of an area's width: what the label and the text
/// leave.
pub open spec fn bar_cells(width: nat, text: Seq<char>) -> nat {
    if width >= 6 + text.len() {
        (width - 6 - text.len()) as nat
    } else {
        0
    }
}

/// How many of some cells a share takes, to the nearest.
pub open spec fn cells_of(x: Double, cells: nat) -> nat {
    double::product(x, double::int_double(cells)).to_int_up()
}

/// How many of the bar's cells stand for what the scan accounts for, and how
/// many for all that is occupied.
pub open spec fn gauge_cells(disk: DiskSpace, scan: u64, cells: nat) -> (nat, nat) {
    let used = cells_of(disk.used_share(), cells);
    let covered = cells_of(double::product(disk.used_share(), disk.covered_share(scan)), cells);
    (
        if covered <= used {
            covered
        } else {
            used
        },
        used,
    )
}

/// The characters of the bar's three parts.
pub open spec fn gauge_glyphs(ascii: bool) -> (char, char, char) {
    if ascii {
        ('#', '=', '.')
    } else {
        ('█', '█', '░')
    }
}

/// The gauge line.
pub open spec fn gauge_said(
    disk: Option<DiskSpace>,
    scan: u64,
    devices: usize,
    suffix: Seq<char>,
    width: nat,
    ascii: bool,
    paints: Paints,
) -> Seq<(Seq<char>, Style)> {
    let muted = tinted(paints.muted);
    match disk {
        None => seq![(" disk stats unavailable"@, muted)],
        Some(d) => {
            let text = gauge_text(d, scan, devices, suffix);
            let cells = bar_cells(width, text);
            let (covered, used) = gauge_cells(d, scan, cells);
            let glyphs = gauge_glyphs(ascii);
            seq![
                (" disk "@, muted),
                (text::run(glyphs.0, covered), tinted(paints.accent)),
                (text::run(glyphs.1, (used - covered) as nat), muted),
                (text::run(glyphs.2, (cells - used) as nat), faint(muted)),
                (text, muted),
            ]
        },
    }
}

fn gauge_caption(disk: &DiskSpace, scan: u64, devices: usize, suffix: &str) -> (s: String)
    ensures
        s@ == gauge_text(*disk, scan, devices, suffix@),
{
    let used = disk.used_fraction();
    let mut s = copy_str(" ");
    push_human(&mut s, disk.capacity);
    s.append(" · ");
    push_dec(&mut s, percent_of(used));
    s.append("% used · ");
    let caption = disk.coverage_caption(scan, devices);
    s.append(caption.as_str());
    s.append(suffix);
    s.append(" ");
    s
}

proof fn lemma_small_exponent(x: Double)
    requires
        x.wf(),
        x.mant > 0,
        !x.above_one(),
    ensures
        x.exp <= -52,
{
    double::lemma_above_one_from_exponent(x);
    lemma2_to64_rest();
    let e = x.exp as int;
    assert(x.mant * double::up(e) == x.mant) by (nonlinear_arith)
        requires
            double::up(e) == 1,
    ;
    if e > -52 {
        double::lemma_pow2_grows((-e) as nat, 52);
    }
}

proof fn lemma_int_exponent(n: nat, e: int)
    requires
        0 < n <= 65535,
        double::in_binade(n, 1, e),
    ensures
        e <= -36,
{
    lemma2_to64_rest();
    lemma2_to64();
    if e > -36 {
        assert(double::up(e) >= 1) by {
            if e > 0 {
                lemma_pow2_pos(e as nat);
            }
        }
        assert(double::down(e) <= pow2(36)) by {
            if e < 0 {
                double::lemma_pow2_grows((-e) as nat, 36);
            }
        }
        assert(n * double::down(e) <= 65535 * 68719476736) by (nonlinear_arith)
            requires
                n <= 65535,
                double::down(e) <= 68719476736,
        ;
        assert(4503599627370496 * (1 * double::up(e)) >= 4503599627370496) by (nonlinear_arith)
            requires
                double::up(e) >= 1,
        ;
    }
}

/// How many cells a share takes; one that is at most the whole takes at most all
/// of them.
fn share_cells(x: Double, cells: u16) -> (n: u128)
    requires
        x.wf(),
        x.mant == 0 || x.exp <= 14,
        -400 <= x.exp <= 400,
    ensures
        n == cells_of(x, cells as nat),
        !x.above_one() ==> n <= cells,
{
    let u = Double::of_int(cells as u64);
    proof {
        if cells > 0 {
            lemma_int_exponent(cells as nat, u.exp as int);
        }
    }
    let p = x.mul(&u);
    proof {
        if x.mant > 0 && cells > 0 {
            if !x.above_one() {
                double::lemma_product_at_most(x, u, p, cells as nat);
            }
        } else {
            double::lemma_zero_to_int(p);
        }
    }
    p.round_int_up()
}

/// Counts the cells of the gauge's parts.
pub fn count_gauge_cells(disk: &DiskSpace, scan: u64, cells: u16) -> (r: (u16, u16))
    ensures
        r.0 as nat == gauge_cells(*disk, scan, cells as nat).0,
        r.1 as nat == gauge_cells(*disk, scan, cells as nat).1,
        r.0 <= r.1 <= cells,
{
    let used = disk.used_fraction();
    let coverage = disk.coverage_bar_fraction(scan);
    proof {
        if used.mant > 0 {
            lemma_small_exponent(used);
        }
    }
    let both = used.mul(&coverage);
    let used_cells: u128 = share_cells(used, cells);
    let covered_cells: u128 = share_cells(both, cells);
    let covered: u16 = if covered_cells <= used_cells {
        covered_cells as u16
    } else {
        used_cells as u16
    };
    (covered, used_cells as u16)
}

/// The gauge line for an area's width. A `suffix` adds to the text.
pub fn gauge_line(
    disk: Option<&DiskSpace>,
    scan: u64,
    devices: usize,
    suffix: &str,
    width: u16,
    ascii: bool,
    paints: &Paints,
) -> (l: Line)
    ensures
        l@ == gauge_said(
            match disk {
                Some(d) => Some(*d),
                None => None,
            },
            scan,
            devices,
            suffix@,
            width as nat,
            ascii,
            *paints,
        ),
{
    let muted = tint(paints.muted);
    let d = match disk {
        None => {
            return Line::one(copy_str(" disk stats unavailable"), muted);
        },
        Some(d) => d,
    };
    let said = gauge_caption(d, scan, devices, suffix);
    let n: usize = said.as_str().unicode_len();
    let cells: u16 = if n <= width as usize && width as usize - n >= 6 {
        width - n as u16 - 6
    } else {
        0
    };
    assert(cells as nat == bar_cells(width as nat, said@));
    let (covered, used) = count_gauge_cells(d, scan, cells);
    let (a, b, c) = if ascii {
        ('#', '=', '.')
    } else {
        ('█', '█', '░')
    };
    let mut l = Line::empty();
    l.add(copy_str(" disk "), muted);
    l.add(run_of(a, covered), tint(paints.accent));
    l.add(run_of(b, used - covered), muted);
    l.add(run_of(c, cells - used), dim(muted));
    l.add(said, muted);
    l
}

fn run_of(c: char, n: u16) -> (s: String)
    ensures
        s@ == text::run(c, n as nat),
{
    let mut s = String::new();
    push_run(&mut s, c, n as usize);
    assert(s@ =~= text::run(c, n as nat));
    s
}

/// The gauge's text tells the capacity first, then how much of it is used, then the
/// coverage, and ends in the suffix.
pub proof fn law_gauge_tells_its_figures(
    disk: DiskSpace,
    scan: u64,
    devices: usize,
    suffix: Seq<char>,
)
    ensures
        ({
            let s = gauge_text(disk, scan, devices, suffix);
            &&& text::starts_with(s, " "@ + size::human(disk.capacity) + " · "@)
            &&& text::occurs_in(s, text::dec(fmt::percent(disk.used_share())) + "% used · "@)
            &&& text::occurs_in(s, disk.caption(scan, devices))
            &&& text::ends_with(s, suffix + " "@)
        }),
{
    let l0 = " "@ + size::human(disk.capacity) + " · "@;
    let percent = text::dec(fmt::percent(disk.used_share()));
    let used = percent + "% used · "@;
    let l1 = l0 + percent + "% used · "@;
    let caption = disk.caption(scan, devices);
    let l2 = l1 + caption;
    assert(text::starts_with(l0, l0)) by {
        assert(l0.take(l0.len() as int) =~= l0);
    }
    text::lemma_side_by_side(l0, percent, "% used · "@);
    text::lemma_extend(l0, l0, percent);
    text::lemma_extend(l0 + percent, l0, "% used · "@);
    text::lemma_extend(l1, l0, caption);
    text::lemma_extend(l1, used, caption);
    assert(text::occurs_in(l2, caption)) by {
        text::lemma_occurs(l1, caption, Seq::empty());
        assert(l1 + caption + Seq::<char>::empty() =~= l2);
    }
    text::lemma_extend(l2, l0, suffix);
    text::lemma_extend(l2, used, suffix);
    text::lemma_extend(l2, caption, suffix);
    text::lemma_extend(l2 + suffix, l0, " "@);
    text::lemma_extend(l2 + suffix, used, " "@);
    text::lemma_extend(l2 + suffix, caption, " "@);
    text::lemma_side_by_side(l2, suffix, " "@);
}

/// The scan's part of the bar is never longer than the used part, and the used part,
/// the scan's included, is what the used share takes of the cells; the parts, with the
/// label and the text, fill the line where it is wide enough.
pub proof fn law_gauge_parts_add_up(
    d: DiskSpace,
    scan: u64,
    devices: usize,
    suffix: Seq<char>,
    width: nat,
    ascii: bool,
    paints: Paints,
)
    requires
        width >= 6 + gauge_text(d, scan, devices, suffix).len(),
    ensures
        ({
            let line = gauge_said(Some(d), scan, devices, suffix, width, ascii, paints);
            let cells = (width - 6 - gauge_text(d, scan, devices, suffix).len()) as nat;
            &&& line.len() == 5
            &&& line[1].0.len() + line[2].0.len() == cells_of(d.used_share(), cells)
            &&& cells_of(d.used_share(), cells) <= cells ==> line[0].0.len() + line[1].0.len()
                + line[2].0.len() + line[3].0.len() + line[4].0.len() == width
            &&& line[4].0 == gauge_text(d, scan, devices, suffix)
            &&& line[1].1.fg == Some(paints.accent)
        }),
{
    reveal_strlit(" disk ");
}

/// In ASCII the three parts of the bar have a character each.
pub proof fn law_ascii_gauge_parts_differ()
    ensures
        gauge_glyphs(true).0 != gauge_glyphs(true).1,
        gauge_glyphs(true).0 != gauge_glyphs(true).2,
        gauge_glyphs(true).1 != gauge_glyphs(true).2,
        gauge_glyphs(false).1 != gauge_glyphs(false).2,
{
}

} // verus!
