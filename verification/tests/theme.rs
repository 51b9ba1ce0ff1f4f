//! Colors, and who gets which.

use camembert::caps::ColorLevel;
use camembert::theme::{
    assign_identity, palette_for, rgb_to_256, Color, Style, Theme, ThemeName, ACCENT, ERROR,
    IDENTITY_LEN, MUTED,
};

fn reversed() -> Style {
    Style {
        reversed: true,
        ..Style::plain()
    }
}

#[test]
fn rgb_to_256_known_values() {
    assert_eq!(rgb_to_256(0, 0, 0), 16, "black is the cube origin");
    assert_eq!(rgb_to_256(255, 255, 255), 231, "white is the cube top");
    assert_eq!(rgb_to_256(255, 0, 0), 196, "pure red");
    assert_eq!(rgb_to_256(0, 255, 0), 46, "pure green");
    assert_eq!(rgb_to_256(0, 0, 255), 21, "pure blue");
    assert_eq!(rgb_to_256(0x80, 0x80, 0x80), 244, "mid gray → gray ramp");
    assert_eq!(rgb_to_256(8, 8, 8), 232, "darkest ramp gray");
    assert_eq!(rgb_to_256(238, 238, 238), 255, "lightest ramp gray");
    assert_eq!(rgb_to_256(0xe0, 0xaf, 0x68), 179);
}

#[test]
fn ansi16_downmap_is_semantic() {
    let theme = Theme::new(ThemeName::TokyoNight, ColorLevel::Ansi16);
    assert_eq!(theme.color(ACCENT), Color::Yellow);
    assert_eq!(theme.color(ERROR), Color::LightRed, "errors stay red");
    assert_eq!(theme.color(MUTED), Color::DarkGray);
}

#[test]
fn identity_distinct_at_ansi16_for_every_theme() {
    for name in &ThemeName::value_variants() {
        let palette = palette_for(*name);
        let mut seen: Vec<Color> = palette.identity.iter().map(|e| e.c16).collect();
        seen.sort_by_key(|c| format!("{c:?}"));
        seen.dedup();
        assert_eq!(
            seen.len(),
            IDENTITY_LEN,
            "duplicate ANSI-16 tag in {name:?}"
        );
    }
}

#[test]
fn cross_theme_identity_constraints_hold() {
    for name in &ThemeName::value_variants() {
        let palette = palette_for(*name);
        let (r, g, b) = palette.error.rgb;
        assert!(r > b && b > g, "{name:?} error should read as warm coral");
        assert!(
            r > 150,
            "{name:?} error should stay a saturated coral, not muddy"
        );

        let (r, g, b) = palette.accent.rgb;
        assert!(r > g && g > b, "{name:?} accent should read as amber");
        assert_eq!(
            palette.identity[0].rgb, palette.accent.rgb,
            "rank 0 is the accent"
        );
    }
}

#[test]
fn theme_projects_per_level() {
    assert_eq!(
        Theme::new(ThemeName::TokyoNight, ColorLevel::Truecolor).color(ACCENT),
        Color::Rgb(0xe0, 0xaf, 0x68)
    );
    assert_eq!(
        Theme::new(ThemeName::TokyoNight, ColorLevel::Ansi256).color(ACCENT),
        Color::Indexed(179)
    );
    assert_eq!(
        Theme::new(ThemeName::TokyoNight, ColorLevel::Mono).color(ACCENT),
        Color::Reset
    );
}

#[test]
fn high_contrast_always_reverses_the_cursor_row() {
    for level in [
        ColorLevel::Truecolor,
        ColorLevel::Ansi256,
        ColorLevel::Ansi16,
        ColorLevel::Mono,
    ] {
        let theme = Theme::new(ThemeName::HighContrast, level);
        assert_eq!(
            theme.selection_style(),
            reversed()
        );
    }
}

#[test]
fn other_themes_use_background_highlight_on_truecolor() {
    let theme = Theme::new(ThemeName::Light, ColorLevel::Truecolor);
    assert_ne!(
        theme.selection_style(),
        reversed()
    );
}

#[test]
fn identity_assignment_ranks_by_size() {
    let ranks = assign_identity(&[10, 500, 0, 300, 42], 3);
    assert_eq!(ranks, vec![None, Some(0), None, Some(1), Some(2)]);
}

#[test]
fn identity_assignment_breaks_ties_by_position() {
    let ranks = assign_identity(&[7, 7, 7], 2);
    assert_eq!(ranks, vec![Some(0), Some(1), None]);
}

#[test]
fn identity_assignment_edge_cases() {
    assert_eq!(assign_identity(&[], 9), Vec::<Option<usize>>::new());
    assert_eq!(
        assign_identity(&[0, 0], 9),
        vec![None, None],
        "empty rows never ranked"
    );
    assert_eq!(assign_identity(&[5], 0), vec![None], "top_n = 0");
    assert_eq!(assign_identity(&[1, 2], 9), vec![Some(1), Some(0)]);
}

#[test]
fn rgb_to_256_is_a_nearest_color() {
    let level = |i: i32| if i == 0 { 0 } else { 55 + 40 * i };
    let rgb_of = |k: i32| {
        if k >= 232 {
            let v = 8 + 10 * (k - 232);
            (v, v, v)
        } else {
            let k = k - 16;
            (level(k / 36), level(k / 6 % 6), level(k % 6))
        }
    };
    let far = |k: i32, r: i32, g: i32, b: i32| {
        let (x, y, z) = rgb_of(k);
        (x - r).pow(2) + (y - g).pow(2) + (z - b).pow(2)
    };
    for r in (0..256).step_by(17) {
        for g in (0..256).step_by(15) {
            for b in (0..256).step_by(17) {
                let k = i32::from(rgb_to_256(r as u8, g as u8, b as u8));
                let best = (16..256).map(|k| far(k, r, g, b)).min();
                assert_eq!(Some(far(k, r, g, b)), best, "{r} {g} {b}");
            }
        }
    }
}
