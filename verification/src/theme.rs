//! Palettes, their projection onto the terminal's color level, and the
//! identity colors that the table and the wheel share.

use crate::caps::ColorLevel;
use crate::order;
use crate::order::{sort_positions, StrictOrder};
use vstd::prelude::*;

verus! {

/// Which palette to render with.
#[derive(Debug, Clone, Copy, PartialEq, Eq, Structural)]
pub enum ThemeName {
    /// Dark palette, the default.
    TokyoNight,
    /// For a light background.
    Light,
    /// Vivid colors for either background.
    HighContrast,
}

impl Default for ThemeName {
    fn default() -> (n: ThemeName)
        ensures
            n == ThemeName::TokyoNight,
    {
        ThemeName::TokyoNight
    }
}

impl ThemeName {
    /// Every theme.
    pub fn value_variants() -> (r: [ThemeName; 3])
        ensures
            r@ == seq![ThemeName::TokyoNight, ThemeName::Light, ThemeName::HighContrast],
    {
        [ThemeName::TokyoNight, ThemeName::Light, ThemeName::HighContrast]
    }
}

/// A terminal color.
#[derive(Debug, Clone, Copy, PartialEq, Eq, Structural)]
pub enum Color {
    /// The terminal's default.
    Reset,
    Black,
    Red,
    Green,
    Yellow,
    Blue,
    Magenta,
    Cyan,
    DarkGray,
    LightRed,
    LightGreen,
    LightBlue,
    LightMagenta,
    LightCyan,
    White,
    Rgb(u8, u8, u8),
    Indexed(u8),
}

/// Colors and attributes of a piece of text; an absent color is inherited.
#[derive(Debug, Clone, Copy, PartialEq, Eq, Structural)]
pub struct Style {
    pub fg: Option<Color>,
    pub bg: Option<Color>,
    pub bold: bool,
    pub dim: bool,
    pub italic: bool,
    pub underlined: bool,
    pub reversed: bool,
}

/// The style that changes nothing.
pub open spec fn plain_style() -> Style {
    Style {
        fg: None,
        bg: None,
        bold: false,
        dim: false,
        italic: false,
        underlined: false,
        reversed: false,
    }
}

impl Style {
    /// The style that changes nothing.
    pub fn plain() -> (s: Style)
        ensures
            s == plain_style(),
    {
        Style {
            fg: None,
            bg: None,
            bold: false,
            dim: false,
            italic: false,
            underlined: false,
            reversed: false,
        }
    }
}

/// One palette entry: its 24-bit color and the basic color that stands for it.
#[derive(Debug, Clone, Copy, PartialEq, Eq)]
pub struct PaletteEntry {
    pub rgb: (u8, u8, u8),
    pub c16: Color,
}

/// Number of identity ranks that every palette defines.
pub const IDENTITY_LEN: usize = 9;

/// A theme's colors.
#[derive(Debug, Clone, Copy)]
pub struct Palette {
    pub accent: PaletteEntry,
    pub error: PaletteEntry,
    pub muted: PaletteEntry,
    pub good: PaletteEntry,
    pub info: PaletteEntry,
    pub mauve: PaletteEntry,
    pub selection_bg: PaletteEntry,
    pub identity: [PaletteEntry; 9],
}

/// One of a palette's named roles.
#[derive(Debug, Clone, Copy, PartialEq, Eq, Structural)]
pub enum Slot {
    Accent,
    Error,
    Muted,
    Good,
    Info,
    Mauve,
}

pub const ACCENT: Slot = Slot::Accent;

pub const ERROR: Slot = Slot::Error;

pub const MUTED: Slot = Slot::Muted;

pub const GOOD: Slot = Slot::Good;

pub const INFO: Slot = Slot::Info;

pub const MAUVE: Slot = Slot::Mauve;

/// A palette entry from its parts.
pub open spec fn of(r: u8, g: u8, b: u8, c16: Color) -> PaletteEntry {
    PaletteEntry { rgb: (r, g, b), c16 }
}

fn entry(r: u8, g: u8, b: u8, c16: Color) -> (e: PaletteEntry)
    ensures
        e == of(r, g, b, c16),
{
    PaletteEntry { rgb: (r, g, b), c16 }
}

/// The entry of a theme for a role.
pub open spec fn role(name: ThemeName, slot: Slot) -> PaletteEntry {
    match name {
        ThemeName::TokyoNight => match slot {
            Slot::Accent => of(0xe0, 0xaf, 0x68, Color::Yellow),
            Slot::Error => of(0xf7, 0x76, 0x8e, Color::LightRed),
            Slot::Muted => of(0x56, 0x5f, 0x89, Color::DarkGray),
            Slot::Good => of(0x9e, 0xce, 0x6a, Color::LightGreen),
            Slot::Info => of(0x7d, 0xcf, 0xff, Color::LightCyan),
            Slot::Mauve => of(0xbb, 0x9a, 0xf7, Color::LightMagenta),
        },
        ThemeName::Light => match slot {
            Slot::Accent => of(0x8f, 0x5e, 0x0d, Color::Yellow),
            Slot::Error => of(0xc4, 0x4d, 0x6c, Color::Red),
            Slot::Muted => of(0x6b, 0x72, 0x94, Color::DarkGray),
            Slot::Good => of(0x38, 0x7a, 0x38, Color::Green),
            Slot::Info => of(0x00, 0x71, 0x97, Color::Cyan),
            Slot::Mauve => of(0x84, 0x3d, 0xd1, Color::Magenta),
        },
        ThemeName::HighContrast => match slot {
            Slot::Accent => of(0xff, 0xa5, 0x00, Color::Yellow),
            Slot::Error => of(0xff, 0x4d, 0x6d, Color::LightRed),
            Slot::Muted => of(0x00, 0x9a, 0xb0, Color::Cyan),
            Slot::Good => of(0x00, 0xb0, 0x5c, Color::LightGreen),
            Slot::Info => of(0x00, 0xc8, 0xff, Color::LightCyan),
            Slot::Mauve => of(0xb3, 0x5b, 0xff, Color::LightMagenta),
        },
    }
}

/// The cursor row's background of a theme.
pub open spec fn selection_entry(name: ThemeName) -> PaletteEntry {
    match name {
        ThemeName::TokyoNight => of(0x29, 0x2e, 0x42, Color::Black),
        ThemeName::Light => of(0xd6, 0xda, 0xe8, Color::White),
        ThemeName::HighContrast => of(0x3a, 0x3a, 0x5a, Color::Black),
    }
}

/// The basic colors of the identity ranks, the same in every theme.
pub open spec fn identity_c16(rank: int) -> Color {
    if rank == 0 {
        Color::Yellow
    } else if rank == 1 {
        Color::LightBlue
    } else if rank == 2 {
        Color::LightGreen
    } else if rank == 3 {
        Color::LightMagenta
    } else if rank == 4 {
        Color::LightCyan
    } else if rank == 5 {
        Color::Red
    } else if rank == 6 {
        Color::Cyan
    } else if rank == 7 {
        Color::Blue
    } else {
        Color::Magenta
    }
}

/// The 24-bit colors of a theme's identity ranks.
pub open spec fn identity_rgb(name: ThemeName) -> Seq<(u8, u8, u8)> {
    match name {
        ThemeName::TokyoNight => seq![
            (0xe0u8, 0xafu8, 0x68u8),
            (0x7au8, 0xa2u8, 0xf7u8),
            (0x9eu8, 0xceu8, 0x6au8),
            (0xbbu8, 0x9au8, 0xf7u8),
            (0x7du8, 0xcfu8, 0xffu8),
            (0xffu8, 0x9eu8, 0x64u8),
            (0x73u8, 0xdau8, 0xcau8),
            (0x2au8, 0xc3u8, 0xdeu8),
            (0x9du8, 0x7cu8, 0xd8u8),
        ],
        ThemeName::Light => seq![
            (0x8fu8, 0x5eu8, 0x0du8),
            (0x2eu8, 0x7du8, 0xe9u8),
            (0x38u8, 0x7au8, 0x38u8),
            (0x84u8, 0x3du8, 0xd1u8),
            (0x00u8, 0x71u8, 0x97u8),
            (0xb1u8, 0x5cu8, 0x00u8),
            (0x11u8, 0x8cu8, 0x80u8),
            (0x06u8, 0x5fu8, 0xb8u8),
            (0x7au8, 0x3fu8, 0xc9u8),
        ],
        ThemeName::HighContrast => seq![
            (0xffu8, 0xa5u8, 0x00u8),
            (0x00u8, 0x8cu8, 0xffu8),
            (0x00u8, 0xb0u8, 0x5cu8),
            (0xb3u8, 0x5bu8, 0xffu8),
            (0x00u8, 0xc8u8, 0xffu8),
            (0xffu8, 0x6au8, 0x00u8),
            (0x00u8, 0xc8u8, 0xa0u8),
            (0x00u8, 0xa0u8, 0xc8u8),
            (0x8au8, 0x2bu8, 0xe0u8),
        ],
    }
}

/// The entry of a theme for an identity rank below nine.
pub open spec fn identity_entry(name: ThemeName, rank: int) -> PaletteEntry {
    PaletteEntry { rgb: identity_rgb(name)[rank], c16: identity_c16(rank) }
}

/// Whether a palette is that of a theme.
pub open spec fn is_palette_of(p: Palette, name: ThemeName) -> bool {
    &&& p.accent == role(name, Slot::Accent)
    &&& p.error == role(name, Slot::Error)
    &&& p.muted == role(name, Slot::Muted)
    &&& p.good == role(name, Slot::Good)
    &&& p.info == role(name, Slot::Info)
    &&& p.mauve == role(name, Slot::Mauve)
    &&& p.selection_bg == selection_entry(name)
    &&& forall|i: int| 0 <= i < 9 ==> #[trigger] p.identity@[i] == identity_entry(name, i)
}

/// The palette that a theme selects.
pub fn palette_for(name: ThemeName) -> (p: Palette)
    ensures
        is_palette_of(p, name),
{
    match name {
        ThemeName::TokyoNight => Palette {
            accent: entry(0xe0, 0xaf, 0x68, Color::Yellow),
            error: entry(0xf7, 0x76, 0x8e, Color::LightRed),
            muted: entry(0x56, 0x5f, 0x89, Color::DarkGray),
            good: entry(0x9e, 0xce, 0x6a, Color::LightGreen),
            info: entry(0x7d, 0xcf, 0xff, Color::LightCyan),
            mauve: entry(0xbb, 0x9a, 0xf7, Color::LightMagenta),
            selection_bg: entry(0x29, 0x2e, 0x42, Color::Black),
            identity: [
                entry(0xe0, 0xaf, 0x68, Color::Yellow),
                entry(0x7a, 0xa2, 0xf7, Color::LightBlue),
                entry(0x9e, 0xce, 0x6a, Color::LightGreen),
                entry(0xbb, 0x9a, 0xf7, Color::LightMagenta),
                entry(0x7d, 0xcf, 0xff, Color::LightCyan),
                entry(0xff, 0x9e, 0x64, Color::Red),
                entry(0x73, 0xda, 0xca, Color::Cyan),
                entry(0x2a, 0xc3, 0xde, Color::Blue),
                entry(0x9d, 0x7c, 0xd8, Color::Magenta),
            ],
        },
        ThemeName::Light => Palette {
            accent: entry(0x8f, 0x5e, 0x0d, Color::Yellow),
            error: entry(0xc4, 0x4d, 0x6c, Color::Red),
            muted: entry(0x6b, 0x72, 0x94, Color::DarkGray),
            good: entry(0x38, 0x7a, 0x38, Color::Green),
            info: entry(0x00, 0x71, 0x97, Color::Cyan),
            mauve: entry(0x84, 0x3d, 0xd1, Color::Magenta),
            selection_bg: entry(0xd6, 0xda, 0xe8, Color::White),
            identity: [
                entry(0x8f, 0x5e, 0x0d, Color::Yellow),
                entry(0x2e, 0x7d, 0xe9, Color::LightBlue),
                entry(0x38, 0x7a, 0x38, Color::LightGreen),
                entry(0x84, 0x3d, 0xd1, Color::LightMagenta),
                entry(0x00, 0x71, 0x97, Color::LightCyan),
                entry(0xb1, 0x5c, 0x00, Color::Red),
                entry(0x11, 0x8c, 0x80, Color::Cyan),
                entry(0x06, 0x5f, 0xb8, Color::Blue),
                entry(0x7a, 0x3f, 0xc9, Color::Magenta),
            ],
        },
        ThemeName::HighContrast => Palette {
            accent: entry(0xff, 0xa5, 0x00, Color::Yellow),
            error: entry(0xff, 0x4d, 0x6d, Color::LightRed),
            muted: entry(0x00, 0x9a, 0xb0, Color::Cyan),
            good: entry(0x00, 0xb0, 0x5c, Color::LightGreen),
            info: entry(0x00, 0xc8, 0xff, Color::LightCyan),
            mauve: entry(0xb3, 0x5b, 0xff, Color::LightMagenta),
            selection_bg: entry(0x3a, 0x3a, 0x5a, Color::Black),
            identity: [
                entry(0xff, 0xa5, 0x00, Color::Yellow),
                entry(0x00, 0x8c, 0xff, Color::LightBlue),
                entry(0x00, 0xb0, 0x5c, Color::LightGreen),
                entry(0xb3, 0x5b, 0xff, Color::LightMagenta),
                entry(0x00, 0xc8, 0xff, Color::LightCyan),
                entry(0xff, 0x6a, 0x00, Color::Red),
                entry(0x00, 0xc8, 0xa0, Color::Cyan),
                entry(0x00, 0xa0, 0xc8, Color::Blue),
                entry(0x8a, 0x2b, 0xe0, Color::Magenta),
            ],
        },
    }
}

/// In every theme errors are coral (red over blue over green, saturated), the
/// accent is amber (red over green over blue), and the largest child carries
/// the accent.
pub proof fn law_theme_constraints(name: ThemeName)
    ensures
        role(name, Slot::Error).rgb.0 > role(name, Slot::Error).rgb.2 > role(
            name,
            Slot::Error,
        ).rgb.1,
        role(name, Slot::Error).rgb.0 > 150,
        role(name, Slot::Accent).rgb.0 > role(name, Slot::Accent).rgb.1 > role(
            name,
            Slot::Accent,
        ).rgb.2,
        identity_entry(name, 0) == role(name, Slot::Accent),
{
}

/// In every theme the nine identity ranks stay apart at sixteen colors.
pub proof fn law_identity_distinct(name: ThemeName, a: int, b: int)
    requires
        0 <= a < b < IDENTITY_LEN,
    ensures
        identity_entry(name, a).c16 != identity_entry(name, b).c16,
{
}

/// The channel levels of the color cube.
pub open spec fn level(i: int) -> int {
    if i == 0 {
        0
    } else {
        55 + 40 * i
    }
}

/// The channels of an entry of the 256-color table: the cube up to 231, then
/// the gray ramp.
pub open spec fn table_color(k: int) -> (int, int, int) {
    if k < 232 {
        (level((k - 16) / 36), level((k - 16) / 6 % 6), level((k - 16) % 6))
    } else {
        (8 + 10 * (k - 232), 8 + 10 * (k - 232), 8 + 10 * (k - 232))
    }
}

/// A square.
pub open spec fn sq(x: int) -> int {
    x * x
}

/// Squared distance of two colors.
pub open spec fn distance(r: int, g: int, b: int, c: (int, int, int)) -> int {
    sq(r - c.0) + sq(g - c.1) + sq(b - c.2)
}

/// Whether `best` is the first of the table's entries nearest to a color.
pub open spec fn is_nearest(r: int, g: int, b: int, best: int) -> bool {
    &&& 16 <= best <= 255
    &&& forall|k: int|
        16 <= k <= 255 ==> {
            ||| distance(r, g, b, table_color(best)) < distance(r, g, b, #[trigger] table_color(k))
            ||| distance(r, g, b, table_color(best)) == distance(r, g, b, table_color(k)) && best
                <= k
        }
}

proof fn lemma_square_bounds(x: int)
    requires
        -255 <= x <= 255,
    ensures
        0 <= sq(x) <= 65025,
{
    assert(0 <= x * x <= 65025) by (nonlinear_arith)
        requires
            -255 <= x <= 255,
    ;
}

fn square(x: i64) -> (r: i64)
    requires
        -255 <= x <= 255,
    ensures
        r == sq(x as int),
        0 <= r <= 65025,
{
    proof {
        lemma_square_bounds(x as int);
    }
    x * x
}

fn dist2(r: u8, g: u8, b: u8, x: i64, y: i64, z: i64) -> (d: i64)
    requires
        0 <= x <= 255,
        0 <= y <= 255,
        0 <= z <= 255,
    ensures
        d == distance(r as int, g as int, b as int, (x as int, y as int, z as int)),
{
    square(r as i64 - x) + square(g as i64 - y) + square(b as i64 - z)
}

/// Whether `i` is the first cube level nearest to a channel value.
pub open spec fn is_nearest_level(c: int, i: int) -> bool {
    &&& 0 <= i < 6
    &&& forall|j: int|
        0 <= j < 6 ==> {
            ||| sq(c - level(i)) < sq(c - #[trigger] level(j))
            ||| sq(c - level(i)) == sq(c - level(j)) && i <= j
        }
}

fn level_value(i: i64) -> (v: i64)
    requires
        0 <= i < 6,
    ensures
        v == level(i as int),
        0 <= v <= 255,
{
    if i == 0 {
        0
    } else {
        55 + 40 * i
    }
}

fn nearest_level(c: u8) -> (r: i64)
    ensures
        is_nearest_level(c as int, r as int),
{
    let mut best: i64 = 0;
    let mut best_d: i64 = square(c as i64 - level_value(0));
    let mut i: i64 = 1;
    while i < 6
        invariant
            1 <= i <= 6,
            0 <= best < i,
            best_d == sq(c as int - level(best as int)),
            forall|j: int|
                0 <= j < i ==> {
                    ||| best_d < sq(c as int - #[trigger] level(j))
                    ||| best_d == sq(c as int - level(j)) && best <= j
                },
        decreases 6 - i,
    {
        let d: i64 = square(c as i64 - level_value(i));
        if d < best_d {
            best = i;
            best_d = d;
        }
        i = i + 1;
    }
    best
}

proof fn lemma_cube_nearest(r: int, g: int, b: int, ri: int, gi: int, bi: int, k: int)
    requires
        is_nearest_level(r, ri),
        is_nearest_level(g, gi),
        is_nearest_level(b, bi),
        16 <= k < 232,
    ensures
        ({
            let cube = 16 + 36 * ri + 6 * gi + bi;
            ||| distance(r, g, b, table_color(cube)) < distance(r, g, b, table_color(k))
            ||| distance(r, g, b, table_color(cube)) == distance(r, g, b, table_color(k)) && cube
                <= k
        }),
{
    let cube = 16 + 36 * ri + 6 * gi + bi;
    assert((cube - 16) / 36 == ri && (cube - 16) / 6 % 6 == gi && (cube - 16) % 6 == bi);
    let x = (k - 16) / 36;
    let y = (k - 16) / 6 % 6;
    let z = (k - 16) % 6;
    assert(k == 16 + 36 * x + 6 * y + z);
    assert(sq(r - level(ri)) <= sq(r - level(x)));
    assert(sq(g - level(gi)) <= sq(g - level(y)));
    assert(sq(b - level(bi)) <= sq(b - level(z)));
}

/// The first of the 256-color table's entries that is nearest to a color: the
/// cube and the gray ramp by squared distance, the cube on a tie.
pub fn rgb_to_256(r: u8, g: u8, b: u8) -> (k: u8)
    ensures
        is_nearest(r as int, g as int, b as int, k as int),
{
    let ri: i64 = nearest_level(r);
    let gi: i64 = nearest_level(g);
    let bi: i64 = nearest_level(b);
    let cube: i64 = 16 + 36 * ri + 6 * gi + bi;
    let cube_d: i64 = dist2(r, g, b, level_value(ri), level_value(gi), level_value(bi));
    proof {
        assert((cube - 16) / 36 == ri && (cube - 16) / 6 % 6 == gi && (cube - 16) % 6 == bi);
        assert(cube_d == distance(r as int, g as int, b as int, table_color(cube as int)));
    }
    let mut best: i64 = 0;
    let mut best_d: i64 = dist2(r, g, b, 8, 8, 8);
    let mut i: i64 = 1;
    assert(table_color(232) == (8int, 8int, 8int));
    while i < 24
        invariant
            1 <= i <= 24,
            0 <= best < i,
            best_d == distance(r as int, g as int, b as int, table_color(232 + best)),
            forall|k: int|
                232 <= k < 232 + i ==> {
                    ||| best_d < distance(r as int, g as int, b as int, #[trigger] table_color(k))
                    ||| best_d == distance(r as int, g as int, b as int, table_color(k)) && 232
                        + best <= k
                },
        decreases 24 - i,
    {
        let v: i64 = 8 + 10 * i;
        let d: i64 = dist2(r, g, b, v, v, v);
        assert(d == distance(r as int, g as int, b as int, table_color(232 + i)));
        if d < best_d {
            best = i;
            best_d = d;
        }
        i = i + 1;
    }
    let k: i64 = if best_d < cube_d {
        232 + best
    } else {
        cube
    };
    proof {
        assert forall|j: int| 16 <= j <= 255 implies {
            ||| distance(r as int, g as int, b as int, table_color(k as int)) < distance(
                r as int,
                g as int,
                b as int,
                #[trigger] table_color(j),
            )
            ||| distance(r as int, g as int, b as int, table_color(k as int)) == distance(
                r as int,
                g as int,
                b as int,
                table_color(j),
            ) && k <= j
        } by {
            if j < 232 {
                lemma_cube_nearest(
                    r as int,
                    g as int,
                    b as int,
                    ri as int,
                    gi as int,
                    bi as int,
                    j,
                );
            }
        }
    }
    k as u8
}

/// The active theme: a palette projected onto the detected color level.
#[derive(Debug, Clone, Copy)]
pub struct Theme {
    pub name: ThemeName,
    pub palette: Palette,
    pub level: ColorLevel,
}

/// Whether `c` is what an entry becomes at a color level: the color itself,
/// its nearest entry of the 256-color table, its basic color, or the
/// terminal's default.
pub open spec fn projected(e: PaletteEntry, level: ColorLevel, c: Color) -> bool {
    match level {
        ColorLevel::Truecolor => c == Color::Rgb(e.rgb.0, e.rgb.1, e.rgb.2),
        ColorLevel::Ansi256 => c matches Color::Indexed(k) && is_nearest(
            e.rgb.0 as int,
            e.rgb.1 as int,
            e.rgb.2 as int,
            k as int,
        ),
        ColorLevel::Ansi16 => c == e.c16,
        ColorLevel::Mono => c == Color::Reset,
    }
}

impl Theme {
    /// Whether the palette is that of the theme's name.
    pub open spec fn wf(&self) -> bool {
        is_palette_of(self.palette, self.name)
    }

    /// The theme of a name at a color level.
    pub fn new(name: ThemeName, level: ColorLevel) -> (t: Theme)
        ensures
            t.wf(),
            t.name == name,
            t.level == level,
    {
        Theme { name, palette: palette_for(name), level }
    }

    fn project(&self, e: PaletteEntry) -> (c: Color)
        ensures
            projected(e, self.level, c),
    {
        let (r, g, b) = e.rgb;
        match self.level {
            ColorLevel::Truecolor => Color::Rgb(r, g, b),
            ColorLevel::Ansi256 => Color::Indexed(rgb_to_256(r, g, b)),
            ColorLevel::Ansi16 => e.c16,
            ColorLevel::Mono => Color::Reset,
        }
    }

    /// The color of a role.
    pub fn color(&self, slot: Slot) -> (c: Color)
        requires
            self.wf(),
        ensures
            projected(role(self.name, slot), self.level, c),
    {
        let e = match slot {
            Slot::Accent => self.palette.accent,
            Slot::Error => self.palette.error,
            Slot::Muted => self.palette.muted,
            Slot::Good => self.palette.good,
            Slot::Info => self.palette.info,
            Slot::Mauve => self.palette.mauve,
        };
        self.project(e)
    }

    /// The identity color of a size rank; the ranks come round after nine.
    pub fn identity(&self, rank: usize) -> (c: Color)
        requires
            self.wf(),
        ensures
            projected(identity_entry(self.name, rank as int % 9), self.level, c),
    {
        let i: usize = rank % IDENTITY_LEN;
        self.project(self.palette.identity[i])
    }

    /// Whether the cursor row is shown in reverse video: always in the
    /// high-contrast theme, elsewhere where a background cannot be trusted.
    pub open spec fn reverses(&self) -> bool {
        self.name is HighContrast || self.level is Ansi16 || self.level is Mono
    }

    /// The cursor row's style.
    pub fn selection_style(&self) -> (s: Style)
        requires
            self.wf(),
        ensures
            self.reverses() ==> s == (Style { reversed: true, ..plain_style() }),
            !self.reverses() ==> exists|c: Color| #[trigger]
                projected(selection_entry(self.name), self.level, c) && s == (Style {
                    bg: Some(c),
                    ..plain_style()
                }),
    {
        let mut s = Style::plain();
        if self.name == ThemeName::HighContrast || self.level == ColorLevel::Ansi16 || self.level
            == ColorLevel::Mono {
            s.reversed = true;
        } else {
            let c = self.project(self.palette.selection_bg);
            s.bg = Some(c);
        }
        s
    }
}

/// A color has one nearest table entry, so a projection is one color.
pub proof fn law_projection_unique(e: PaletteEntry, level: ColorLevel, c: Color, d: Color)
    requires
        projected(e, level, c),
        projected(e, level, d),
    ensures
        c == d,
{
    if level is Ansi256 {
        let x = c->Indexed_0 as int;
        let y = d->Indexed_0 as int;
        assert(table_color(x) == table_color(x));
        assert(table_color(y) == table_color(y));
    }
}

/// Rows by size, the largest first, and by position among equals.
pub struct SizeOrder<'a> {
    pub disks: &'a [u64],
}

impl<'a> StrictOrder for SizeOrder<'a> {
    open spec fn has(&self, a: usize) -> bool {
        a < self.disks@.len()
    }

    open spec fn before(&self, a: usize, b: usize) -> bool {
        ||| self.disks@[a as int] > self.disks@[b as int]
        ||| self.disks@[a as int] == self.disks@[b as int] && a < b
    }

    proof fn irreflexive(&self, a: usize) {
    }

    proof fn total(&self, a: usize, b: usize) {
    }

    proof fn transitive(&self, a: usize, b: usize, c: usize) {
    }

    fn precedes(&self, a: usize, b: usize) -> (r: bool) {
        self.disks[a] > self.disks[b] || (self.disks[a] == self.disks[b] && a < b)
    }
}

/// The rows that are larger than row `i`, or as large and before it.
pub open spec fn larger_rows(disks: Seq<u64>, i: int) -> Set<usize> {
    Set::new(
        |k: usize|
            k < disks.len() && (disks[k as int] > disks[i] || disks[k as int] == disks[i] && k < i),
    )
}

/// The identity rank of a row: how many rows come before it by size, if it is
/// not empty and fewer than `top_n` do.
pub open spec fn identity_rank(disks: Seq<u64>, top_n: usize, i: int) -> Option<usize> {
    if disks[i] > 0 && larger_rows(disks, i).len() < top_n {
        Some(larger_rows(disks, i).len() as usize)
    } else {
        None
    }
}

/// Assigns identity ranks to rows by their sizes: the `top_n` largest that are
/// not empty get their rank, the largest rank zero, and position breaks ties.
pub fn assign_identity(disks: &[u64], top_n: usize) -> (ranks: Vec<Option<usize>>)
    ensures
        ranks@.len() == disks@.len(),
        forall|i: int|
            0 <= i < ranks@.len() ==> #[trigger] ranks@[i] == identity_rank(disks@, top_n, i),
{
    let n: usize = disks.len();
    let by = SizeOrder { disks };
    let order = sort_positions(n, &by);
    let mut ranks: Vec<Option<usize>> = Vec::new();
    let mut i: usize = 0;
    while i < n
        invariant
            i <= n,
            ranks@.len() == i,
            forall|k: int| 0 <= k < i ==> #[trigger] ranks@[k] is None,
        decreases n - i,
    {
        ranks.push(None);
        i = i + 1;
    }
    let mut p: usize = 0;
    while p < n
        invariant
            p <= n,
            n == disks@.len(),
            by.disks == disks,
            order@.len() == n,
            ranks@.len() == n,
            order::is_sorted_order(order@, n as nat, by),
            forall|k: int| 0 <= k < n ==> #[trigger] order@[k] < n,
            forall|q: int|
                0 <= q < p ==> ranks@[#[trigger] order@[q] as int] == identity_rank(
                    disks@,
                    top_n,
                    order@[q] as int,
                ),
            forall|q: int| p <= q < n ==> ranks@[#[trigger] order@[q] as int] is None,
        decreases n - p,
    {
        let at: usize = order[p];
        proof {
            order::lemma_sorted_order_rank(order@, n as nat, by, p as int);
            assert(larger_rows(disks@, at as int) =~= Set::new(
                |k: usize| k < n && by.before(k, order@[p as int]),
            ));
            assert forall|q: int| 0 <= q < n && q != p implies #[trigger] order@[q] != at by {
                if q < p {
                    assert(by.before(order@[q], order@[p as int]));
                } else {
                    assert(by.before(order@[p as int], order@[q]));
                }
            }
        }
        if disks[at] > 0 && p < top_n {
            ranks.set(at, Some(p));
        }
        p = p + 1;
    }
    proof {
        assert forall|i: int| 0 <= i < ranks@.len() implies #[trigger] ranks@[i] == identity_rank(
            disks@,
            top_n,
            i,
        ) by {
            order::lemma_sorted_order_covers(order@, n as nat, by, i as usize);
            let q = choose|q: int| 0 <= q < order@.len() && order@[q] == i as usize;
            assert(ranks@[order@[q] as int] == identity_rank(disks@, top_n, order@[q] as int));
        }
    }
    ranks
}

/// Two ranked rows never share a rank, and the larger has the smaller one.
pub proof fn law_ranks_follow_size(disks: Seq<u64>, top_n: usize, i: int, j: int)
    requires
        0 <= i < disks.len() <= usize::MAX,
        0 <= j < disks.len(),
        i != j,
        disks[i] > disks[j] || disks[i] == disks[j] && i < j,
    ensures
        identity_rank(disks, top_n, j) matches Some(b) ==> (identity_rank(disks, top_n, i) matches Some(a) && a < b),
{
    let a = larger_rows(disks, i);
    let b = larger_rows(disks, j);
    let all = Set::new(|k: usize| k < disks.len());
    lemma_positions_finite(disks.len());
    assert(all =~= order::positions(disks.len()).to_set());
    assert(b.subset_of(all));
    vstd::set_lib::lemma_len_subset(b, all);
    assert(a.insert(i as usize).subset_of(b));
    assert(!a.contains(i as usize));
    vstd::set_lib::lemma_len_subset(a.insert(i as usize), b);
    assert(a.finite()) by {
        vstd::set_lib::lemma_len_subset(a, b);
    }
}

proof fn lemma_positions_finite(n: nat)
    requires
        n <= usize::MAX,
    ensures
        Set::new(|k: usize| k < n).finite(),
        Set::new(|k: usize| k < n) == order::positions(n).to_set(),
{
    let p = order::positions(n);
    let all = Set::new(|k: usize| k < n);
    assert forall|k: usize| all.contains(k) implies p.to_set().contains(k) by {
        assert(p[k as int] == k);
    }
    assert(all =~= p.to_set());
}

/// In every theme what is good is green, what informs is blue, and what is mauve is bluest
/// with little green; muted text leans to blue.
pub proof fn law_roles_have_their_hue(name: ThemeName)
    ensures
        role(name, Slot::Good).rgb.1 > role(name, Slot::Good).rgb.0,
        role(name, Slot::Good).rgb.1 > role(name, Slot::Good).rgb.2,
        role(name, Slot::Info).rgb.2 > role(name, Slot::Info).rgb.1 > role(name, Slot::Info).rgb.0,
        role(name, Slot::Mauve).rgb.2 > role(name, Slot::Mauve).rgb.0 > role(
            name,
            Slot::Mauve,
        ).rgb.1,
        role(name, Slot::Muted).rgb.2 > role(name, Slot::Muted).rgb.1 > role(
            name,
            Slot::Muted,
        ).rgb.0,
{
}

/// In every theme the roles differ from each other, in every number of colors but mono.
pub proof fn law_roles_stay_apart(name: ThemeName, a: Slot, b: Slot)
    requires
        a != b,
    ensures
        role(name, a).rgb != role(name, b).rgb,
        role(name, a).c16 != role(name, b).c16,
{
}

/// In every theme the nine identity ranks stay apart in full color too.
pub proof fn law_identity_colors_differ(name: ThemeName, a: int, b: int)
    requires
        0 <= a < b < 9,
    ensures
        identity_entry(name, a).rgb != identity_entry(name, b).rgb,
{
}

/// The selection is dark on a dark background and bright on a light one.
pub proof fn law_selection_suits_the_background(name: ThemeName)
    ensures
        name is Light ==> selection_entry(name).rgb.0 > 128 && selection_entry(name).rgb.1 > 128
            && selection_entry(name).rgb.2 > 128,
        !(name is Light) ==> selection_entry(name).rgb.0 < 128 && selection_entry(name).rgb.1 < 128
            && selection_entry(name).rgb.2 < 128,
{
}

/// The table of 256 colors is a cube of six levels a channel, red slowest, then a ramp of
/// grays.
pub proof fn law_table_is_a_cube_and_a_ramp(r: int, g: int, b: int, k: int)
    requires
        0 <= r < 6,
        0 <= g < 6,
        0 <= b < 6,
        0 <= k < 24,
    ensures
        table_color(16 + 36 * r + 6 * g + b) == (level(r), level(g), level(b)),
        table_color(232 + k).0 == table_color(232 + k).1 == table_color(232 + k).2,
        table_color(232 + k).0 == 8 + 10 * k,
        level(0) == 0,
        r > 0 ==> level(r) == 55 + 40 * r,
{
    let n = 36 * r + 6 * g + b;
    assert(n / 36 == r);
    assert(n / 6 == 6 * r + g);
    assert((6 * r + g) % 6 == g);
    assert(n % 6 == b);
}

/// A color of the table is shown as itself.
pub proof fn law_table_colors_are_kept(k: int, best: int)
    requires
        16 <= k <= 255,
        is_nearest(table_color(k).0, table_color(k).1, table_color(k).2, best),
    ensures
        table_color(best) == table_color(k),
{
    let c = table_color(k);
    let d = table_color(best);
    assert(sq(0) == 0);
    assert(distance(c.0, c.1, c.2, c) == 0);
    assert(distance(c.0, c.1, c.2, d) <= 0);
    let x = c.0 - d.0;
    let y = c.1 - d.1;
    let z = c.2 - d.2;
    assert(x == 0 && y == 0 && z == 0) by (nonlinear_arith)
        requires
            x * x + y * y + z * z <= 0,
    ;
}

/// Nearest means nearest: no entry of the table is closer than the one that is shown.
pub proof fn law_no_entry_is_closer(r: int, g: int, b: int, best: int, k: int)
    requires
        is_nearest(r, g, b, best),
        16 <= k <= 255,
    ensures
        16 <= best <= 255,
        ({
            let c = table_color(best);
            let d = table_color(k);
            (r - c.0) * (r - c.0) + (g - c.1) * (g - c.1) + (b - c.2) * (b - c.2) <= (r - d.0) * (r
                - d.0) + (g - d.1) * (g - d.1) + (b - d.2) * (b - d.2)
        }),
{
    assert(distance(r, g, b, table_color(best)) <= distance(r, g, b, table_color(k)));
}

/// A color is shown in full where the terminal can, by its index or by its name where it
/// can only do that, and not at all in mono.
pub proof fn law_projection_follows_the_level(e: PaletteEntry, c: Color)
    ensures
        projected(e, ColorLevel::Truecolor, c) ==> c == Color::Rgb(e.rgb.0, e.rgb.1, e.rgb.2),
        projected(e, ColorLevel::Ansi256, c) ==> c is Indexed,
        projected(e, ColorLevel::Ansi16, c) ==> c == e.c16,
        projected(e, ColorLevel::Mono, c) ==> c is Reset,
{
}

/// Rows without bytes have no rank, ranks stay below the limit, and the largest row, the
/// first of them, is the first.
pub proof fn law_largest_row_is_first(disks: Seq<u64>, top_n: usize, i: int)
    requires
        0 <= i < disks.len() <= usize::MAX,
    ensures
        disks[i] == 0 ==> identity_rank(disks, top_n, i) is None,
        identity_rank(disks, top_n, i) matches Some(r) ==> r < top_n && disks[i] > 0,
        disks[i] > 0 && top_n > 0 && (forall|k: int|
            0 <= k < disks.len() ==> #[trigger] disks[k] < disks[i] || disks[k] == disks[i] && k
                >= i) ==> identity_rank(disks, top_n, i) == Some(0usize),
{
    if disks[i] > 0 && top_n > 0 && (forall|k: int|
        0 <= k < disks.len() ==> #[trigger] disks[k] < disks[i] || disks[k] == disks[i] && k >= i) {
        assert(larger_rows(disks, i) =~= Set::<usize>::empty());
    }
}

/// Only a theme that shades the selection shades it: high contrast and few colors reverse
/// it instead.
pub proof fn law_selection_is_reversed_where_shades_are_few(t: Theme)
    ensures
        t.reverses() <==> t.name is HighContrast || !(t.level is Truecolor || t.level is Ansi256),
{
}

} // verus!
