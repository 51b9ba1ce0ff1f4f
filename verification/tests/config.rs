//! The configuration file and the precedence of its settings.

use camembert::caps::ColorMode;
use camembert::config::{
    from_entries, ignored_entries, ignored_keys, parse, parse_views, resolve_color,
    resolve_flat_cap, resolve_no_motion, resolve_theme, views_from_entries, ConfigValue,
    FileConfig,
};
use camembert::theme::ThemeName;

#[test]
fn resolve_theme_precedence() {
    assert_eq!(
        resolve_theme(Some(ThemeName::Light), Some(ThemeName::HighContrast)),
        Some(ThemeName::Light),
        "cli/env beats the config file"
    );
    assert_eq!(
        resolve_theme(None, Some(ThemeName::HighContrast)),
        Some(ThemeName::HighContrast),
        "config file used when cli/env silent"
    );
    assert_eq!(
        resolve_theme(None, None),
        None,
        "neither set: caller tries OSC 11 next, not a default yet"
    );
}

#[test]
fn resolve_color_precedence() {
    assert_eq!(
        resolve_color(Some(ColorMode::Never), Some(ColorMode::Always)),
        ColorMode::Never,
        "cli/env beats the config file"
    );
    assert_eq!(
        resolve_color(None, Some(ColorMode::Always)),
        ColorMode::Always,
        "config file used when cli/env silent"
    );
    assert_eq!(
        resolve_color(None, None),
        ColorMode::Auto,
        "neither set: falls back to auto"
    );
}

#[test]
fn resolve_no_motion_precedence() {
    assert!(
        !resolve_no_motion(false, false, None),
        "nothing set: motion stays on"
    );
    assert!(resolve_no_motion(true, false, None), "--no-motion alone");
    assert!(resolve_no_motion(false, true, None), "NO_MOTION alone");
    assert!(resolve_no_motion(false, false, Some(true)), "config alone");
    assert!(
        !resolve_no_motion(false, false, Some(false)),
        "config false: no-op"
    );
    assert!(
        resolve_no_motion(true, false, Some(false)),
        "cli disables even if config says false"
    );
}

#[test]
fn parse_valid_full_config() {
    let cfg = parse(
        "theme = \"high-contrast\"\ncolor = \"never\"\nno_motion = true\n");
    assert_eq!(
        cfg,
        FileConfig {
            theme: Some(ThemeName::HighContrast),
            color: Some(ColorMode::Never),
            no_motion: Some(true),
        }
    );
}

#[test]
fn parse_partial_config() {
    let cfg = parse("theme = \"light\"\n");
    assert_eq!(
        cfg,
        FileConfig {
            theme: Some(ThemeName::Light),
            color: None,
            no_motion: None,
        }
    );
}

#[test]
fn parse_empty_config_is_all_defaults() {
    assert_eq!(
        parse(""),
        FileConfig::default()
    );
}

#[test]
fn parse_invalid_toml_falls_back_to_defaults() {
    let cfg = parse("this is not [valid toml");
    assert_eq!(cfg, FileConfig::default());
}

#[test]
fn parse_invalid_value_falls_back_to_defaults() {
    let cfg = parse("theme = 42\n");
    assert_eq!(cfg, FileConfig::default());
}

#[test]
fn parse_invalid_enum_variant_falls_back_to_defaults() {
    let cfg = parse("theme = \"solarized\"\n");
    assert_eq!(cfg, FileConfig::default());
}

#[test]
fn parse_unknown_keys_are_ignored_not_fatal() {
    let cfg = parse(
        "theme = \"light\"\nfuture_key = \"whatever\"\nanother = 5\n");
    assert_eq!(
        cfg,
        FileConfig {
            theme: Some(ThemeName::Light),
            color: None,
            no_motion: None,
        },
        "unknown keys are dropped, known ones still apply"
    );
}

#[test]
fn entries_of_every_kind_are_read() {
    let entries = vec![
        ("theme".to_owned(), ConfigValue::Text("tokyo-night".to_owned())),
        ("no_motion".to_owned(), ConfigValue::Flag(false)),
        ("spare".to_owned(), ConfigValue::Other),
    ];
    assert_eq!(
        from_entries(&entries),
        FileConfig {
            theme: Some(ThemeName::TokyoNight),
            color: None,
            no_motion: Some(false),
        }
    );
}

#[test]
fn a_flag_of_the_wrong_kind_is_left_out_on_its_own() {
    assert_eq!(
        parse("theme = \"light\"\nno_motion = \"yes\"\n"),
        FileConfig {
            theme: Some(ThemeName::Light),
            color: None,
            no_motion: None,
        }
    );
}

#[test]
fn a_repeated_key_is_no_toml() {
    assert_eq!(
        parse("no_motion = true\nno_motion = true\n"),
        FileConfig::default()
    );
}

#[test]
fn ignored_keys_are_listed() {
    assert_eq!(
        ignored_keys("theme = \"light\"\ncolor = 3\nfuture = true\nno_motion = \"yes\"\n"),
        Some(vec![
            "color".to_owned(),
            "future".to_owned(),
            "no_motion".to_owned()
        ])
    );
    assert_eq!(ignored_keys("theme = \"light\"\n"), Some(Vec::new()));
    assert_eq!(ignored_keys("theme = "), None, "not TOML at all");
    let entries = vec![
        ("theme".to_owned(), ConfigValue::Text("purple".to_owned())),
        ("color".to_owned(), ConfigValue::Text("never".to_owned())),
        ("no_motion".to_owned(), ConfigValue::Flag(false)),
    ];
    assert_eq!(ignored_entries(&entries), vec!["theme".to_owned()]);
}

fn pair(label: &str, text: &str) -> (String, String) {
    (label.to_owned(), text.to_owned())
}

#[test]
fn the_documented_file_is_read_whole() {
    let text = "theme = \"tokyo-night\"\n\
                color = \"auto\"\n\
                no_motion = false\n\
                flat_cap = 50\n\
                \n\
                [patterns]\n\
                logs = \"*.log\"\n\
                build = \"dist/\"\n\
                \n\
                [queries]\n\
                stale = \"older:1y\"\n\
                big_logs = \"*.log >100M\"\n";
    let views = parse_views(text);
    assert_eq!(views.flat_cap, Some(50));
    assert_eq!(
        views.patterns,
        [pair("logs", "*.log"), pair("build", "dist/")],
        "in file order"
    );
    assert_eq!(views.ignored_patterns, 0);
    assert_eq!(
        views.queries,
        [pair("stale", "older:1y"), pair("big_logs", "*.log >100M")]
    );
    assert_eq!(ignored_keys(text), Some(Vec::new()));
    assert_eq!(parse(text).theme, Some(ThemeName::TokyoNight));
    assert_eq!(resolve_flat_cap(views.flat_cap), 50);
    assert_eq!(resolve_flat_cap(parse_views("").flat_cap), 1000);
}

#[test]
fn every_row_of_a_table_stands_on_its_own() {
    let text = "theme = \"light\"\n\
                flat_cap = \"many\"\n\
                queries = 3\n\
                [patterns]\n\
                z = \"*.z\"\n\
                bad = 7\n\
                a = \"*.a\"\n";
    let views = parse_views(text);
    assert_eq!(views.flat_cap, None);
    assert_eq!(views.patterns, [pair("z", "*.z"), pair("a", "*.a")]);
    assert_eq!(views.ignored_patterns, 1);
    assert!(views.queries.is_empty());
    assert_eq!(parse(text).theme, Some(ThemeName::Light));
    assert_eq!(
        ignored_keys(text),
        Some(vec![
            "flat_cap".to_owned(),
            "queries".to_owned(),
            "patterns.bad".to_owned()
        ])
    );
}

#[test]
fn a_table_that_is_none_is_left_out_whole() {
    let views = parse_views("patterns = \"*.log\"\nflat_cap = 7\n");
    assert!(views.patterns.is_empty());
    assert_eq!(views.ignored_patterns, 1);
    assert_eq!(views.flat_cap, Some(7));
    assert_eq!(parse_views("flat_cap = -1\n").flat_cap, None);
    assert_eq!(parse_views("flat_cap = 1.5\n").flat_cap, None);
    let broken = parse_views("flat_cap = 7\n[patterns\n");
    assert_eq!((broken.flat_cap, broken.ignored_patterns), (None, 0));
    let entries = vec![
        ("flat_cap".to_owned(), ConfigValue::Number(0)),
        (
            "queries".to_owned(),
            ConfigValue::Table(vec![
                ("x".to_owned(), None),
                ("y".to_owned(), Some("kind:dir".to_owned())),
            ]),
        ),
    ];
    let views = views_from_entries(&entries);
    assert_eq!(views.flat_cap, Some(0));
    assert_eq!(views.queries, [pair("y", "kind:dir")]);
    assert_eq!(ignored_entries(&entries), vec!["queries.x".to_owned()]);
}
