//! What a terminal is taken to be capable of.

use camembert::caps::{Caps, ColorLevel, ColorMode, GlyphLevel, TermEnv};

fn env(
    term: Option<&str>,
    colorterm: Option<&str>,
    term_program: Option<&str>,
    no_color: Option<&str>,
) -> TermEnv {
    TermEnv {
        term: term.map(str::to_owned),
        colorterm: colorterm.map(str::to_owned),
        term_program: term_program.map(str::to_owned),
        no_color: no_color.map(str::to_owned),
        windows_console: false,
        wt_session: None,
    }
}

fn win(term: Option<&str>, colorterm: Option<&str>, no_color: Option<&str>) -> TermEnv {
    TermEnv {
        windows_console: true,
        ..env(term, colorterm, None, no_color)
    }
}

fn wt() -> TermEnv {
    TermEnv {
        wt_session: Some("d1c2…".to_owned()),
        ..win(None, None, None)
    }
}

#[test]
fn color_ladder_matrix() {
    let cases: [(TermEnv, ColorMode, ColorLevel); 12] = [
        (
            env(Some("xterm"), Some("truecolor"), None, None),
            ColorMode::Auto,
            ColorLevel::Truecolor,
        ),
        (
            env(Some("xterm"), Some("24BIT"), None, None),
            ColorMode::Auto,
            ColorLevel::Truecolor,
        ),
        (env(Some("xterm-256color"), None, None, None), ColorMode::Auto, ColorLevel::Ansi256),
        (
            env(Some("screen-256color"), None, None, None),
            ColorMode::Auto,
            ColorLevel::Ansi256,
        ),
        (env(Some("xterm"), None, None, None), ColorMode::Auto, ColorLevel::Ansi16),
        (env(Some("linux"), None, None, None), ColorMode::Auto, ColorLevel::Ansi16),
        (env(Some("dumb"), None, None, None), ColorMode::Auto, ColorLevel::Mono),
        (env(None, None, None, None), ColorMode::Auto, ColorLevel::Mono),
        (
            env(Some("xterm-256color"), Some("truecolor"), None, Some("")),
            ColorMode::Auto,
            ColorLevel::Mono,
        ),
        (
            env(Some("xterm-256color"), None, None, Some("1")),
            ColorMode::Always,
            ColorLevel::Ansi256,
        ),
        (env(Some("dumb"), None, None, None), ColorMode::Always, ColorLevel::Ansi16),
        (
            env(Some("xterm"), Some("truecolor"), None, None),
            ColorMode::Never,
            ColorLevel::Mono,
        ),
    ];
    for (env, mode, expected) in cases {
        assert_eq!(
            Caps::detect(&env, mode).color,
            expected,
            "env {env:?} mode {mode:?}"
        );
    }
}

#[test]
fn glyph_ladder_matrix() {
    let cases: [(TermEnv, ColorMode, GlyphLevel); 8] = [
        (
            env(Some("xterm-kitty"), Some("truecolor"), None, None),
            ColorMode::Auto,
            GlyphLevel::Sextant,
        ),
        (
            env(
                Some("xterm-256color"),
                Some("truecolor"),
                Some("WezTerm"),
                None,
            ),
            ColorMode::Auto,
            GlyphLevel::Sextant,
        ),
        (
            env(Some("foot"), Some("truecolor"), None, None),
            ColorMode::Auto,
            GlyphLevel::Sextant,
        ),
        (
            env(Some("xterm-256color"), Some("truecolor"), None, None),
            ColorMode::Auto,
            GlyphLevel::HalfBlock,
        ),
        (env(Some("xterm-kitty"), None, None, None), ColorMode::Auto, GlyphLevel::HalfBlock),
        (
            env(Some("xterm-kitty"), Some("truecolor"), None, Some("1")),
            ColorMode::Auto,
            GlyphLevel::Ascii,
        ),
        (
            env(Some("xterm-kitty"), Some("truecolor"), None, None),
            ColorMode::Never,
            GlyphLevel::Ascii,
        ),
        (env(Some("dumb"), None, None, None), ColorMode::Always, GlyphLevel::Ascii),
    ];
    for (env, mode, expected) in cases {
        assert_eq!(
            Caps::detect(&env, mode).glyphs,
            expected,
            "env {env:?} mode {mode:?}"
        );
    }
}

#[test]
fn a_bare_windows_console_is_not_a_dumb_terminal() {

    let bare = win(None, None, None);
    assert_eq!(Caps::detect(&bare, ColorMode::Auto).color, ColorLevel::Truecolor);
    assert_eq!(
        Caps::detect(&bare, ColorMode::Auto).glyphs,
        GlyphLevel::HalfBlock,
        "a legacy console may have a raster font: no sextants assumed"
    );

    assert_eq!(Caps::detect(&wt(), ColorMode::Auto).glyphs, GlyphLevel::Sextant);
    assert_eq!(
        Caps::detect(
            &TermEnv {
                no_color: Some(String::new()),
                ..wt()
            },
            ColorMode::Auto
        )
        .glyphs,
        GlyphLevel::Ascii
    );

    assert_eq!(Caps::detect(&env(None, None, None, None), ColorMode::Auto).color, ColorLevel::Mono);

    assert_eq!(Caps::detect(&win(None, None, Some("")), ColorMode::Auto).color, ColorLevel::Mono);
    assert_eq!(Caps::detect(&bare, ColorMode::Never).color, ColorLevel::Mono);

    assert_eq!(
        Caps::detect(&win(Some("dumb"), None, None), ColorMode::Auto).color,
        ColorLevel::Mono
    );
    assert_eq!(
        Caps::detect(&win(Some("xterm"), None, None), ColorMode::Auto).color,
        ColorLevel::Ansi16
    );
    assert_eq!(
        Caps::detect(&win(Some("xterm-256color"), None, None), ColorMode::Auto).color,
        ColorLevel::Ansi256
    );
}
