//! Terminal capabilities: a ladder of colors and a ladder of glyphs, both
//! computed from the environment.

use crate::text;
use crate::text::{contains_text, same_text, to_lower};
use vstd::prelude::*;

verus! {

/// When to emit color.
#[derive(Debug, Clone, Copy, PartialEq, Eq, Structural)]
pub enum ColorMode {
    /// Detect from the environment.
    Auto,
    /// Ignore `NO_COLOR`; still capped by what the terminal advertises.
    Always,
    /// No color at all.
    Never,
}

/// Rung of the color ladder.
#[derive(Debug, Clone, Copy, PartialEq, Eq, PartialOrd, Ord, Structural)]
pub enum ColorLevel {
    Mono,
    Ansi16,
    Ansi256,
    Truecolor,
}

/// Rung of the glyph ladder.
#[derive(Debug, Clone, Copy, PartialEq, Eq, Structural)]
pub enum GlyphLevel {
    /// `#` bars only, no wheel.
    Ascii,
    /// Half-block wheel: one by two subpixels per cell.
    HalfBlock,
    /// Sextant wheel: two by three subpixels per cell.
    Sextant,
}

/// The environment variables that the detection reads.
#[derive(Debug)]
pub struct TermEnv {
    pub term: Option<String>,
    pub colorterm: Option<String>,
    pub term_program: Option<String>,
    /// Present means set, whatever the value.
    pub no_color: Option<String>,
    /// Whether the process is attached to a Windows console.
    pub windows_console: bool,
    /// Set by Windows Terminal alone.
    pub wt_session: Option<String>,
}

/// Detected capabilities.
#[derive(Debug, Clone, Copy, PartialEq, Eq, Structural)]
pub struct Caps {
    pub color: ColorLevel,
    pub glyphs: GlyphLevel,
}

/// Whether a variable's value names a terminal whose fonts cover the sextants.
pub open spec fn names_modern(value: Seq<char>) -> bool {
    let v = text::lowered(value);
    ||| text::occurs_in(v, "kitty"@)
    ||| text::occurs_in(v, "wezterm"@)
    ||| text::occurs_in(v, "foot"@)
    ||| text::occurs_in(v, "alacritty"@)
    ||| text::occurs_in(v, "ghostty"@)
}

impl TermEnv {
    /// Whether `COLORTERM` promises 24-bit color.
    pub open spec fn promises_truecolor(&self) -> bool {
        match self.colorterm {
            Some(c) => text::lowered(c@) == "truecolor"@ || text::lowered(c@) == "24bit"@,
            None => false,
        }
    }

    /// The color level that the terminal advertises. Without `TERM` that is
    /// nothing on Unix and everything on a Windows console.
    pub open spec fn advertised(&self) -> ColorLevel {
        if self.promises_truecolor() {
            ColorLevel::Truecolor
        } else {
            match self.term {
                Some(t) => if text::occurs_in(t@, "256color"@) {
                    ColorLevel::Ansi256
                } else if t@ == "dumb"@ {
                    ColorLevel::Mono
                } else {
                    ColorLevel::Ansi16
                },
                None => if self.windows_console {
                    ColorLevel::Truecolor
                } else {
                    ColorLevel::Mono
                },
            }
        }
    }

    /// Whether the terminal is known to draw sextants.
    pub open spec fn modern(&self) -> bool {
        ||| self.wt_session is Some
        ||| self.term matches Some(t) && names_modern(t@)
        ||| self.term_program matches Some(t) && names_modern(t@)
    }

    /// Whether `TERM` is `dumb`.
    pub open spec fn dumb(&self) -> bool {
        self.term matches Some(t) && t@ == "dumb"@
    }

    /// The color level under a color mode.
    pub open spec fn color_under(&self, mode: ColorMode) -> ColorLevel {
        match mode {
            ColorMode::Never => ColorLevel::Mono,
            ColorMode::Auto => if self.no_color is Some {
                ColorLevel::Mono
            } else {
                self.advertised()
            },
            ColorMode::Always => if self.advertised() is Mono {
                ColorLevel::Ansi16
            } else {
                self.advertised()
            },
        }
    }

    /// The glyph level at a color level.
    pub open spec fn glyphs_at(&self, color: ColorLevel) -> GlyphLevel {
        if color is Mono || self.dumb() {
            GlyphLevel::Ascii
        } else if color is Truecolor && self.modern() {
            GlyphLevel::Sextant
        } else {
            GlyphLevel::HalfBlock
        }
    }
}

fn is_modern_value(value: &Option<String>) -> (r: bool)
    ensures
        r == (value matches Some(v) && names_modern(v@)),
{
    match value {
        Some(v) => {
            let low = to_lower(v.as_str());
            let s = low.as_str();
            contains_text(s, "kitty") || contains_text(s, "wezterm") || contains_text(s, "foot")
                || contains_text(s, "alacritty") || contains_text(s, "ghostty")
        },
        None => false,
    }
}

fn is_dumb(env: &TermEnv) -> (r: bool)
    ensures
        r == env.dumb(),
{
    match &env.term {
        Some(t) => same_text(t.as_str(), "dumb"),
        None => false,
    }
}

fn advertised_color(env: &TermEnv) -> (r: ColorLevel)
    ensures
        r == env.advertised(),
{
    if let Some(colorterm) = &env.colorterm {
        let low = to_lower(colorterm.as_str());
        if same_text(low.as_str(), "truecolor") || same_text(low.as_str(), "24bit") {
            return ColorLevel::Truecolor;
        }
    }
    match &env.term {
        Some(term) => {
            if contains_text(term.as_str(), "256color") {
                ColorLevel::Ansi256
            } else if same_text(term.as_str(), "dumb") {
                ColorLevel::Mono
            } else {
                ColorLevel::Ansi16
            }
        },
        None => {
            if env.windows_console {
                ColorLevel::Truecolor
            } else {
                ColorLevel::Mono
            }
        },
    }
}

fn detect_color(env: &TermEnv, mode: ColorMode) -> (r: ColorLevel)
    ensures
        r == env.color_under(mode),
{
    match mode {
        ColorMode::Never => ColorLevel::Mono,
        ColorMode::Auto => {
            if env.no_color.is_some() {
                ColorLevel::Mono
            } else {
                advertised_color(env)
            }
        },
        ColorMode::Always => match advertised_color(env) {
            ColorLevel::Mono => ColorLevel::Ansi16,
            other => other,
        },
    }
}

fn detect_glyphs(env: &TermEnv, color: ColorLevel) -> (r: GlyphLevel)
    ensures
        r == env.glyphs_at(color),
{
    if color == ColorLevel::Mono || is_dumb(env) {
        return GlyphLevel::Ascii;
    }
    if color == ColorLevel::Truecolor && (env.wt_session.is_some() || is_modern_value(&env.term)
        || is_modern_value(&env.term_program)) {
        return GlyphLevel::Sextant;
    }
    GlyphLevel::HalfBlock
}

impl Caps {
    /// Detects what the terminal can show.
    pub fn detect(env: &TermEnv, mode: ColorMode) -> (c: Caps)
        ensures
            c.color == env.color_under(mode),
            c.glyphs == env.glyphs_at(c.color),
    {
        let color = detect_color(env, mode);
        let glyphs = detect_glyphs(env, color);
        Caps { color, glyphs }
    }
}

/// Without color there is no wheel: mono always comes with ASCII glyphs.
pub proof fn law_mono_means_ascii(env: TermEnv, mode: ColorMode)
    ensures
        env.color_under(mode) is Mono ==> env.glyphs_at(env.color_under(mode)) is Ascii,
{
}

/// `NO_COLOR`, whatever its value, turns color off under automatic detection,
/// and `Never` turns it off in any environment.
pub proof fn law_no_color_is_mono(env: TermEnv)
    ensures
        env.no_color is Some ==> env.color_under(ColorMode::Auto) is Mono,
        env.color_under(ColorMode::Never) is Mono,
{
}

/// `Always` never yields mono and never more than the terminal advertises,
/// beyond the sixteen basic colors.
pub proof fn law_always_has_color(env: TermEnv)
    ensures
        !(env.color_under(ColorMode::Always) is Mono),
        env.color_under(ColorMode::Always) is Ansi16 || env.color_under(ColorMode::Always)
            == env.advertised(),
{
}

/// Sextants are only drawn in 24-bit color.
pub proof fn law_sextants_need_truecolor(env: TermEnv, color: ColorLevel)
    ensures
        env.glyphs_at(color) is Sextant ==> color is Truecolor,
{
}

/// Capital letters never matter for the names of terminals, and each of the five
/// known ones is modern wherever it stands in the value.
pub proof fn law_modern_terminals(value: Seq<char>, a: Seq<char>, b: Seq<char>)
    ensures
        names_modern(value) == names_modern(text::lowered(value)),
        text::lowered(value) == a + "kitty"@ + b ==> names_modern(value),
        text::lowered(value) == a + "wezterm"@ + b ==> names_modern(value),
        text::lowered(value) == a + "foot"@ + b ==> names_modern(value),
        text::lowered(value) == a + "alacritty"@ + b ==> names_modern(value),
        text::lowered(value) == a + "ghostty"@ + b ==> names_modern(value),
{
    text::law_lowering(value);
    text::lemma_occurs(a, "kitty"@, b);
    text::lemma_occurs(a, "wezterm"@, b);
    text::lemma_occurs(a, "foot"@, b);
    text::lemma_occurs(a, "alacritty"@, b);
    text::lemma_occurs(a, "ghostty"@, b);
}

/// What a terminal promises in `COLORTERM` goes before what its name says; without
/// any promise there is color exactly if the name is not `dumb`, and without a name
/// only on a Windows console.
pub proof fn law_promises_go_first(env: TermEnv)
    ensures
        (env.colorterm matches Some(c) && (text::lowered(c@) == "truecolor"@ || text::lowered(c@)
            == "24bit"@)) ==> env.advertised() is Truecolor,
        env.advertised() is Mono ==> env.term is None || env.dumb(),
        env.colorterm is None && env.term is None ==> (env.advertised() is Truecolor
            <==> env.windows_console) && (env.advertised() is Mono <==> !env.windows_console),
        env.colorterm is None && env.dumb() ==> env.advertised() is Mono,
        env.colorterm is None && (env.term matches Some(t) && text::occurs_in(t@, "256color"@))
            ==> env.advertised() is Ansi256,
        env.colorterm is None && (env.term matches Some(t) && !text::occurs_in(t@, "256color"@)
            && t@ != "dumb"@) ==> env.advertised() is Ansi16,
{
    if env.dumb() {
        let t = env.term.unwrap()@;
        reveal_strlit("dumb");
        reveal_strlit("256color");
        if text::occurs_in(t, "256color"@) {
            let i = choose|i: int| text::occurs_at(t, "256color"@, i);
            assert(t.len() >= 8);
        }
    }
}

/// Automatic detection takes what the terminal advertises unless color is switched
/// off; a wheel is drawn in every color mode but on a dumb terminal, finest on a
/// modern one.
pub proof fn law_detection_follows_the_terminal(env: TermEnv, color: ColorLevel)
    ensures
        env.no_color is None ==> env.color_under(ColorMode::Auto) == env.advertised(),
        !(env.advertised() is Mono) ==> env.color_under(ColorMode::Always) == env.advertised(),
        env.glyphs_at(color) is Ascii <==> color is Mono || env.dumb(),
        color is Truecolor && !env.dumb() ==> (env.glyphs_at(color) is Sextant <==> env.modern()),
        env.wt_session is Some ==> env.modern(),
{
}

} // verus!
