//! The terminal's background color.

use camembert::osc11::{
    extract_body, is_light, parse_reply, read_until_terminator, reply_background, should_query,
    theme_for, ReadAttempt, MAX_REPLY_LEN,
};
use camembert::theme::ThemeName;

/// The reads that bring some bytes, one at a time.
fn bytes(bytes: &[u8]) -> Vec<ReadAttempt> {
    bytes.iter().map(|b| ReadAttempt::Byte(*b)).collect()
}

#[test]
fn should_query_requires_a_real_terminal_on_both_ends() {
    assert!(should_query(Some("xterm-256color"), true, true));
    assert!(
        !should_query(Some("xterm-256color"), false, true),
        "stdin not a tty"
    );
    assert!(
        !should_query(Some("xterm-256color"), true, false),
        "stdout not a tty"
    );
    assert!(!should_query(Some("dumb"), true, true), "TERM=dumb");
    assert!(!should_query(None, true, true), "TERM unset");
}

#[test]
fn luminance_known_values() {
    let y = |c: u8| {
        let x = camembert::luminance::linear(c) as f64 / 1e9;
        0.2126 * x + 0.7152 * x + 0.0722 * x
    };
    assert!((y(255) - 1.0).abs() < 1e-9);
    assert!((y(0) - 0.0).abs() < 1e-9);
    assert!(!is_light(0, 0, 0), "black is dark");
    assert!(is_light(255, 255, 255), "white is light");
}

#[test]
fn luminance_threshold_matches_common_backgrounds() {
    assert!(!is_light(0x1a, 0x1b, 0x26));
    assert!(is_light(0xe1, 0xe2, 0xe7));
    let _ = is_light(0x80, 0x80, 0x80);
}

#[test]
fn parse_reply_16_bit_channels() {
    assert_eq!(parse_reply("rgb:1a1a/1b1b/2626"), Some((0x1a, 0x1b, 0x26)));
    assert_eq!(parse_reply("rgb:ffff/ffff/ffff"), Some((0xff, 0xff, 0xff)));
    assert_eq!(parse_reply("rgb:0000/0000/0000"), Some((0, 0, 0)));
}

#[test]
fn parse_reply_8_bit_channels() {
    assert_eq!(parse_reply("rgb:e1/e2/e7"), Some((0xe1, 0xe2, 0xe7)));
    assert_eq!(parse_reply("rgb:ff/ff/ff"), Some((0xff, 0xff, 0xff)));
}

#[test]
fn parse_reply_rejects_garbage() {
    assert_eq!(parse_reply(""), None);
    assert_eq!(parse_reply("not-a-color"), None);
    assert_eq!(parse_reply("rgba:11/22/33"), None, "wrong prefix");
    assert_eq!(parse_reply("rgb:11/22"), None, "too few channels");
    assert_eq!(parse_reply("rgb:11/22/33/44"), None, "too many channels");
    assert_eq!(parse_reply("rgb:zz/22/33"), None, "non-hex digit");
    assert_eq!(parse_reply("rgb:/22/33"), None, "empty channel");
    assert_eq!(parse_reply("rgb:11111/22/33"), None, "channel too wide");
}

#[test]
fn extract_body_handles_both_terminators() {
    assert_eq!(
        extract_body(b"\x1b]11;rgb:1a1a/1b1b/2626\x07"),
        Some("rgb:1a1a/1b1b/2626".to_owned())
    );
    assert_eq!(
        extract_body(b"\x1b]11;rgb:1a1a/1b1b/2626\x1b\\"),
        Some("rgb:1a1a/1b1b/2626".to_owned())
    );
}

#[test]
fn extract_body_rejects_wrong_shape() {
    assert_eq!(extract_body(b""), None, "empty");
    assert_eq!(extract_body(b"garbage"), None, "not an escape sequence");
    assert_eq!(
        extract_body(b"\x1b]10;rgb:11/22/33\x07"),
        None,
        "OSC 10 (foreground), not 11"
    );
    assert_eq!(
        extract_body(b"\x1b]11;rgb:1a1a/1b1b/2626"),
        None,
        "truncated: no terminator"
    );
    assert_eq!(extract_body(&[0xff, 0xfe]), None, "invalid UTF-8");
}

#[test]
fn full_pipeline_parses_a_realistic_reply() {
    let raw = b"\x1b]11;rgb:1a1a/1b1b/2626\x07";
    let body = extract_body(raw).expect("valid reply shape");
    let (r, g, b) = parse_reply(&body).expect("valid color");
    assert!(!is_light(r, g, b));
}

#[test]
fn read_until_terminator_stops_at_bel() {
    let reader = bytes(b"\x1b]11;rgb:1a1a/1b1b/2626\x07");
    let result = read_until_terminator(&reader);
    assert_eq!(result, Some(b"\x1b]11;rgb:1a1a/1b1b/2626\x07".to_vec()));
}

#[test]
fn read_until_terminator_stops_at_st() {
    let reader = bytes(b"\x1b]11;rgb:1a1a/1b1b/2626\x1b\\");
    let result = read_until_terminator(&reader);
    assert_eq!(result, Some(b"\x1b]11;rgb:1a1a/1b1b/2626\x1b\\".to_vec()));
}

#[test]
fn read_until_terminator_stops_at_max_reply_len_without_terminator() {
    let garbage = vec![b'x'; MAX_REPLY_LEN + 16];
    let reader = bytes(&garbage);
    let result = read_until_terminator(&reader);
    assert_eq!(result, Some(vec![b'x'; MAX_REPLY_LEN]));
}

#[test]
fn read_until_terminator_gives_up_at_the_deadline_when_silent() {
    let reader = [ReadAttempt::Nothing, ReadAttempt::Nothing];
    let result = read_until_terminator(&reader);
    assert_eq!(result, None);
}

#[test]
fn read_until_terminator_stops_immediately_on_read_error() {
    let mut reader = bytes(b"\x1b]11;rgb:");
    reader.push(ReadAttempt::Failed);
    let result = read_until_terminator(&reader);
    assert_eq!(result, None);
}

/// The linear light of a channel, by the sRGB curve.
fn linear(c: u8) -> f64 {
    let c = f64::from(c) / 255.0;
    if c <= 0.04045 {
        c / 12.92
    } else {
        ((c + 0.055) / 1.055).powf(2.4)
    }
}

#[test]
fn lightness_agrees_with_the_luminance_of_every_color() {
    for g in 0..=255u8 {
        assert_eq!(is_light(g, g, g), linear(g) > 0.5, "grey {g}");
    }
    let table: Vec<f64> = (0..=255u8).map(linear).collect();
    for r in 0..=255u8 {
        for g in 0..=255u8 {
            for b in 0..=255u8 {
                let light = |c: u8| table[usize::from(c)];
                let y = 0.2126 * light(r) + 0.7152 * light(g) + 0.0722 * light(b);
                if is_light(r, g, b) != (y > 0.5) {
                    panic!("{r} {g} {b}");
                }
            }
        }
    }
}

#[test]
fn a_whole_reply_gives_the_background() {
    assert_eq!(
        reply_background(b"\x1b]11;rgb:1a1a/1b1b/2626\x07"),
        Some((0x1a, 0x1b, 0x26))
    );
    assert_eq!(reply_background(b"\x1b]11;rgb:1a1a\x07"), None);
    assert_eq!(reply_background(b"\x1b]11;rgb:\xff/00/00\x07"), None, "no text");
}

#[test]
fn silence_between_bytes_is_waited_out() {
    let mut reader = bytes(b"\x1b]11;rgb:00/00/00");
    reader.push(ReadAttempt::Nothing);
    reader.push(ReadAttempt::Byte(7));
    assert_eq!(
        read_until_terminator(&reader),
        Some(b"\x1b]11;rgb:00/00/00\x07".to_vec())
    );
}

#[test]
fn the_background_decides_only_where_nothing_was_chosen() {
    assert_eq!(theme_for(None, Some((255, 255, 255))), ThemeName::Light);
    assert_eq!(theme_for(None, Some((0, 0, 0))), ThemeName::TokyoNight);
    assert_eq!(theme_for(None, None), ThemeName::TokyoNight);
    assert_eq!(
        theme_for(Some(ThemeName::HighContrast), Some((255, 255, 255))),
        ThemeName::HighContrast
    );
}

#[test]
fn channels_are_two_or_four_digits_wide_and_all_the_same() {
    for body in [
        "rgb:f/f/f",
        "rgb:fff/fff/fff",
        "rgb:ffff/ff/ff",
        "rgb:ff/ffff/ff",
        "rgb:ff/ff/f",
        "rgb:ff/ff/",
    ] {
        assert_eq!(parse_reply(body), None, "{body}");
    }
    assert_eq!(parse_reply("rgb:8000/FFFF/0000"), Some((127, 255, 0)));
}

#[test]
fn a_brighter_color_stays_light() {
    for c in 0..255u8 {
        assert!(!is_light(c, c, c) || is_light(c + 1, c + 1, c + 1));
        assert!(!is_light(c, 200, 0) || is_light(c + 1, 200, 0));
    }
}
