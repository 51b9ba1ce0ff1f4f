//! Where the panels stand on the screen.

use ratatui::layout::{Constraint, Direction, Layout, Rect};
use vstd::prelude::*;

verus! {

/// A rectangle of screen cells.
#[derive(Debug, Clone, Copy, PartialEq, Eq, Structural)]
pub struct Area {
    pub x: u16,
    pub y: u16,
    pub width: u16,
    pub height: u16,
}

/// How much of an area a part asks for.
#[derive(Debug, Clone, Copy, PartialEq, Eq, Structural)]
pub enum Extent {
    Length(u16),
    Min(u16),
    Percentage(u16),
    Ratio(u32, u32),
}

/// Whether `parts` is an outcome that splitting `area` by `extents` can have.
pub uninterp spec fn splits_into(area: Area, vertical: bool, extents: Seq<Extent>, parts: Seq<Area>) -> bool;

/// Whether a part of a vertical split spans the area's width and lies inside it.
pub open spec fn spans_width(part: Area, area: Area) -> bool {
    &&& part.x == area.x
    &&& part.width == area.width
    &&& area.y <= part.y
    &&& part.y + part.height <= area.y + area.height
}

/// Whether a part of a horizontal split spans the area's height and lies inside
/// it.
pub open spec fn spans_height(part: Area, area: Area) -> bool {
    &&& part.y == area.y
    &&& part.height == area.height
    &&& area.x <= part.x
    &&& part.x + part.width <= area.x + area.width
}

/// Splits an area into parts, from top to bottom or from left to right.
///
/// This is `ratatui::layout::Layout::split` on a layout without margins and
/// spacing. There is one part for each share. Each spans the whole area across
/// the split and lies inside the area along it, which the solver holds as
/// required constraints. How long the parts come out is left open: the solver
/// walks seeded hash maps, and its documentation calls the result of some
/// combinations indeterminate. So `splits_into` only says that the parts are an
/// outcome of this call.
#[verifier::external_body]
fn split(area: Area, vertical: bool, extents: &[Extent]) -> (parts: Vec<Area>)
    ensures
        splits_into(area, vertical, extents@, parts@),
        parts@.len() == extents@.len(),
        forall|i: int|
            0 <= i < parts@.len() ==> if vertical {
                spans_width(#[trigger] parts@[i], area)
            } else {
                spans_height(parts@[i], area)
            },
{
    let limits = extents.iter().map(|s| match *s {
        Extent::Length(n) => Constraint::Length(n),
        Extent::Min(n) => Constraint::Min(n),
        Extent::Percentage(n) => Constraint::Percentage(n),
        Extent::Ratio(n, d) => Constraint::Ratio(n, d),
    });
    let whole = Rect { x: area.x, y: area.y, width: area.width, height: area.height };
    let way = if vertical { Direction::Vertical } else { Direction::Horizontal };
    Layout::new(way, limits).split(whole).iter().map(|r| Area { x: r.x, y: r.y, width: r.width, height: r.height }).collect()
}

/// Below this screen width the wheel has no panel of its own.
pub const MIN_WHEEL_TERMINAL_WIDTH: u16 = 100;

/// Width of the donut on the header line.
pub const MINI_DONUT_WIDTH: u16 = 6;

/// Which of the wheel's three layouts applies.
#[derive(Debug, Clone, Copy, PartialEq, Eq, Structural)]
pub enum WheelLayout {
    /// A panel beside the table.
    Full,
    /// A few cells on the header line.
    Mini,
    Hidden,
}

/// Which of the wheel's layouts applies: the table-only view and ASCII glyphs
/// hide the wheel at any width.
pub open spec fn layout_of(terminal_width: u16, ascii: bool, zen: bool) -> WheelLayout {
    if ascii || zen {
        WheelLayout::Hidden
    } else if terminal_width >= MIN_WHEEL_TERMINAL_WIDTH {
        WheelLayout::Full
    } else {
        WheelLayout::Mini
    }
}

/// Decides which of the wheel's layouts applies.
pub fn wheel_layout(terminal_width: u16, ascii: bool, zen: bool) -> (r: WheelLayout)
    ensures
        r == layout_of(terminal_width, ascii, zen),
{
    if ascii || zen {
        WheelLayout::Hidden
    } else if terminal_width >= MIN_WHEEL_TERMINAL_WIDTH {
        WheelLayout::Full
    } else {
        WheelLayout::Mini
    }
}

/// Heights of the metric cards and of the disk gauge; the table-only view has
/// neither.
pub fn cards_and_gauge_heights(zen: bool) -> (r: (u16, u16))
    ensures
        zen ==> r == (0u16, 0u16),
        !zen ==> r == (3u16, 1u16),
{
    if zen {
        (0, 0)
    } else {
        (3, 1)
    }
}

/// What the rows of the frame ask for: header, cards, gauge, main part, basket
/// and footer.
pub open spec fn frame_rows(zen: bool, marked: bool) -> Seq<Extent> {
    seq![
        Extent::Length(1),
        Extent::Length(if zen { 0 } else { 3 }),
        Extent::Length(if zen { 0 } else { 1 }),
        Extent::Min(3),
        Extent::Length(if marked { 1 } else { 0 }),
        Extent::Length(2),
    ]
}

/// What the rows of the frame ask for; the basket has a row only while something
/// is marked.
pub fn frame_extents(zen: bool, marked: bool) -> (r: Vec<Extent>)
    ensures
        r@ == frame_rows(zen, marked),
{
    let (cards, gauge) = cards_and_gauge_heights(zen);
    let basket: u16 = if marked {
        1
    } else {
        0
    };
    let r = vec![
        Extent::Length(1),
        Extent::Length(cards),
        Extent::Length(gauge),
        Extent::Min(3),
        Extent::Length(basket),
        Extent::Length(2),
    ];
    assert(r@ =~= frame_rows(zen, marked));
    r
}

/// The rows of the frame.
#[derive(Debug, Clone, Copy, PartialEq, Eq, Structural)]
pub struct FrameAreas {
    pub header: Area,
    pub cards: Area,
    pub gauge: Area,
    pub main: Area,
    pub basket: Area,
    pub footer: Area,
}

/// Splits the screen into the rows of the frame, by [`frame_extents`]. Every row
/// spans the screen's width and lies on the screen; how high the rows come out,
/// the layout solver decides.
pub fn frame_areas(screen: Area, zen: bool, marked: bool) -> (r: FrameAreas)
    ensures
        splits_into(
            screen,
            true,
            frame_rows(zen, marked),
            seq![r.header, r.cards, r.gauge, r.main, r.basket, r.footer],
        ),
        spans_width(r.header, screen),
        spans_width(r.cards, screen),
        spans_width(r.gauge, screen),
        spans_width(r.main, screen),
        spans_width(r.basket, screen),
        spans_width(r.footer, screen),
{
    let extents = frame_extents(zen, marked);
    let parts = split(screen, true, extents.as_slice());
    assert(parts@ =~= seq![parts@[0], parts@[1], parts@[2], parts@[3], parts@[4], parts@[5]]);
    FrameAreas {
        header: parts[0],
        cards: parts[1],
        gauge: parts[2],
        main: parts[3],
        basket: parts[4],
        footer: parts[5],
    }
}

/// Splits the main part: the table's side, and the wheel's panel if it has one.
pub fn main_areas(main: Area, layout: WheelLayout) -> (r: (Area, Option<Area>))
    ensures
        layout is Full <==> r.1 is Some,
        !(layout is Full) ==> r.0 == main,
        r.1 matches Some(w) ==> splits_into(
            main,
            false,
            seq![Extent::Percentage(60), Extent::Percentage(40)],
            seq![r.0, w],
        ),
        spans_height(r.0, main),
        r.1 matches Some(w) ==> spans_height(w, main),
{
    match layout {
        WheelLayout::Full => {
            let extents = [Extent::Percentage(60), Extent::Percentage(40)];
            let parts = split(main, false, &extents);
            assert(parts@ =~= seq![parts@[0], parts@[1]]);
            assert(extents@ =~= seq![Extent::Percentage(60), Extent::Percentage(40)]);
            (parts[0], Some(parts[1]))
        },
        _ => (main, None),
    }
}

/// Splits the table's side: the table, and the selection card where there is
/// room for it.
pub fn table_areas(left: Area, zen: bool) -> (r: (Area, Option<Area>))
    ensures
        r.1 is Some <==> !zen && left.height >= 9,
        r.1 is None ==> r.0 == left,
        r.1 matches Some(c) ==> splits_into(
            left,
            true,
            seq![Extent::Min(1), Extent::Length(4)],
            seq![r.0, c],
        ),
        spans_width(r.0, left),
        r.1 matches Some(c) ==> spans_width(c, left),
{
    if !zen && left.height >= 9 {
        let extents = [Extent::Min(1), Extent::Length(4)];
        let parts = split(left, true, &extents);
        assert(parts@ =~= seq![parts@[0], parts@[1]]);
        assert(extents@ =~= seq![Extent::Min(1), Extent::Length(4)]);
        (parts[0], Some(parts[1]))
    } else {
        (left, None)
    }
}

/// The four metric cards, side by side.
pub fn card_areas(area: Area) -> (r: Vec<Area>)
    ensures
        r@.len() == 4,
        splits_into(
            area,
            false,
            seq![Extent::Ratio(1, 4), Extent::Ratio(1, 4), Extent::Ratio(1, 4), Extent::Ratio(1, 4)],
            r@,
        ),
        forall|i: int| 0 <= i < 4 ==> spans_height(#[trigger] r@[i], area),
{
    let quarter = Extent::Ratio(1, 4);
    let extents = [quarter, quarter, quarter, quarter];
    assert(extents@ =~= seq![quarter, quarter, quarter, quarter]);
    split(area, false, &extents)
}

/// What a border on all four sides leaves of an area.
pub open spec fn inner_of(area: Area) -> Area {
    Area {
        x: if area.width == 0 || area.x == u16::MAX {
            area.x
        } else {
            (area.x + 1) as u16
        },
        y: if area.height == 0 || area.y == u16::MAX {
            area.y
        } else {
            (area.y + 1) as u16
        },
        width: if area.width >= 2 {
            (area.width - 2) as u16
        } else {
            0
        },
        height: if area.height >= 2 {
            (area.height - 2) as u16
        } else {
            0
        },
    }
}

/// The area inside a border on all four sides.
pub fn inner(area: Area) -> (r: Area)
    ensures
        r == inner_of(area),
{
    Area {
        x: if area.width == 0 || area.x == u16::MAX {
            area.x
        } else {
            area.x + 1
        },
        y: if area.height == 0 || area.y == u16::MAX {
            area.y
        } else {
            area.y + 1
        },
        width: if area.width >= 2 {
            area.width - 2
        } else {
            0
        },
        height: if area.height >= 2 {
            area.height - 2
        } else {
            0
        },
    }
}

/// Splits the inside of the wheel's panel: the donut, and two lines of caption;
/// absent where there is no room.
pub fn wheel_areas(inside: Area) -> (r: Option<(Area, Area)>)
    ensures
        r is Some <==> inside.width >= 4 && inside.height >= 4,
        r matches Some((donut, caption)) ==> {
            &&& splits_into(
                inside,
                true,
                seq![Extent::Min(2), Extent::Length(2)],
                seq![donut, caption],
            )
            &&& spans_width(donut, inside)
            &&& spans_width(caption, inside)
        },
{
    if inside.width < 4 || inside.height < 4 {
        return None;
    }
    let extents = [Extent::Min(2), Extent::Length(2)];
    let parts = split(inside, true, &extents);
    assert(parts@ =~= seq![parts@[0], parts@[1]]);
    assert(extents@ =~= seq![Extent::Min(2), Extent::Length(2)]);
    Some((parts[0], parts[1]))
}

/// Where the donut stands on the header line: its right end; absent where there
/// is no room.
pub fn mini_donut_area(header: Area) -> (r: Option<Area>)
    requires
        header.x + header.width <= u16::MAX,
    ensures
        r == (if header.width < MINI_DONUT_WIDTH + 2 {
            None
        } else {
            Some(
                Area {
                    x: (header.x + header.width - MINI_DONUT_WIDTH) as u16,
                    y: header.y,
                    width: MINI_DONUT_WIDTH,
                    height: 1,
                },
            )
        }),
{
    if header.width < MINI_DONUT_WIDTH + 2 {
        return None;
    }
    Some(
        Area {
            x: header.x + (header.width - MINI_DONUT_WIDTH),
            y: header.y,
            width: MINI_DONUT_WIDTH,
            height: 1,
        },
    )
}

/// The rectangle in the middle of a screen.
pub open spec fn centered_in(screen: Area, width: u16, height: u16) -> Area {
    Area {
        x: if screen.width >= width {
            ((screen.width - width) / 2) as u16
        } else {
            0
        },
        y: if screen.height >= height {
            ((screen.height - height) / 2) as u16
        } else {
            0
        },
        width,
        height,
    }
}

/// Centers a rectangle on the screen.
pub fn centered(screen: Area, width: u16, height: u16) -> (r: Area)
    ensures
        r == centered_in(screen, width, height),
{
    Area {
        x: if screen.width >= width {
            (screen.width - width) / 2
        } else {
            0
        },
        y: if screen.height >= height {
            (screen.height - height) / 2
        } else {
            0
        },
        width,
        height,
    }
}

/// A rectangle that fits the screen is centered inside it.
pub proof fn law_modals_stay_on_screen(screen: Area, width: u16, height: u16)
    requires
        width <= screen.width,
        height <= screen.height,
    ensures
        centered_in(screen, width, height).x + width <= screen.width,
        centered_in(screen, width, height).y + height <= screen.height,
{
}

/// The inside of a border never leaves the area.
pub proof fn law_inner_stays_inside(area: Area)
    requires
        area.x + area.width <= u16::MAX,
        area.y + area.height <= u16::MAX,
    ensures
        area.x <= inner_of(area).x,
        inner_of(area).x + inner_of(area).width <= area.x + area.width,
        area.y <= inner_of(area).y,
        inner_of(area).y + inner_of(area).height <= area.y + area.height,
{
}

/// The wheel has a panel from a hundred columns on, a place in the header below, and
/// none without glyphs to draw it or in the table-only view.
pub proof fn law_wheel_needs_room(width: u16, ascii: bool, zen: bool)
    ensures
        layout_of(width, ascii, zen) is Hidden <==> ascii || zen,
        layout_of(width, ascii, zen) is Full <==> !ascii && !zen && width >= 100,
{
}

/// The table-only view has neither cards nor gauge, and the basket has a line exactly
/// while something is marked.
pub proof fn law_frame_follows_the_view(zen: bool, marked: bool)
    ensures
        frame_rows(zen, marked).len() == 6,
        frame_rows(zen, marked)[1] == Extent::Length(0) <==> zen,
        frame_rows(zen, marked)[2] == Extent::Length(0) <==> zen,
        frame_rows(zen, marked)[4] == Extent::Length(0) <==> !marked,
        forall|i: int|
            0 <= i < 6 ==> (frame_rows(zen, marked)[i] is Min <==> i == 3),
{
}

/// What is centered leaves as much on one side as on the other, up to one cell, and
/// keeps its size.
pub proof fn law_centered_is_in_the_middle(screen: Area, width: u16, height: u16)
    requires
        width <= screen.width,
        height <= screen.height,
    ensures
        ({
            let a = centered_in(screen, width, height);
            let right = screen.width - a.x - a.width;
            let below = screen.height - a.y - a.height;
            &&& a.width == width && a.height == height
            &&& a.x <= right <= a.x + 1
            &&& a.y <= below <= a.y + 1
        }),
{
}

/// A border takes one cell from each side.
pub proof fn law_borders_take_one_cell(area: Area)
    requires
        area.width >= 2,
        area.height >= 2,
        area.x + area.width <= u16::MAX,
        area.y + area.height <= u16::MAX,
    ensures
        inner_of(area).x - area.x == 1,
        inner_of(area).y - area.y == 1,
        area.x + area.width - (inner_of(area).x + inner_of(area).width) == 1,
        area.y + area.height - (inner_of(area).y + inner_of(area).height) == 1,
{
}

} // verus!
