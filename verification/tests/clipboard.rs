//! The terminal sequence that copies a path.

use camembert::clipboard::{base64_encode, sequence, sequence_of_text};

#[test]
fn base64_matches_the_rfc_4648_textbook_vectors() {
    assert_eq!(base64_encode(b""), "");
    assert_eq!(base64_encode(b"f"), "Zg==");
    assert_eq!(base64_encode(b"fo"), "Zm8=");
    assert_eq!(base64_encode(b"foo"), "Zm9v");
    assert_eq!(base64_encode(b"foob"), "Zm9vYg==");
    assert_eq!(base64_encode(b"fooba"), "Zm9vYmE=");
    assert_eq!(base64_encode(b"foobar"), "Zm9vYmFy");
}

#[test]
fn sequence_is_the_osc_52_envelope_around_the_encoded_path() {
    let path = b"/tmp/foo";
    let expected = format!("\x1b]52;c;{}\x07", base64_encode(b"/tmp/foo"));
    assert_eq!(sequence(path), expected);
    assert!(expected.starts_with("\x1b]52;c;"));
    assert!(expected.ends_with('\x07'));
}

#[test]
fn sequence_handles_a_known_ascii_path() {
    assert_eq!(
        sequence(b"/tmp/foo"),
        "\x1b]52;c;L3RtcC9mb28=\x07"
    );
}

#[test]
fn sequence_handles_a_non_ascii_path() {
    let path = "/home/th\u{e9}o/caf\u{e9} \u{2615}.txt".as_bytes();
    let expected = format!(
        "\x1b]52;c;{}\x07",
        base64_encode("/home/th\u{e9}o/caf\u{e9} \u{2615}.txt".as_bytes())
    );
    assert_eq!(sequence(path), expected);
}


#[test]
fn sequence_lossily_decodes_a_non_utf8_path_rather_than_failing() {
    let raw: &[u8] = b"/tmp/bad-\xff-name";
    let seq = sequence(raw);
    let lossy = String::from_utf8_lossy(raw);
    let expected = format!("\x1b]52;c;{}\x07", base64_encode(lossy.as_bytes()));
    assert_eq!(seq, expected);
    assert!(lossy.contains('\u{FFFD}'));
}

#[test]
fn every_value_of_six_bits_has_its_letter() {
    let bytes: Vec<u8> = vec![
        0x00, 0x10, 0x83, 0x10, 0x51, 0x87, 0x20, 0x92, 0x8b, 0x30, 0xd3, 0x8f, 0x41, 0x14, 0x93,
        0x51, 0x55, 0x97, 0x61, 0x96, 0x9b, 0x71, 0xd7, 0x9f, 0x82, 0x18, 0xa3, 0x92, 0x59, 0xa7,
        0xa2, 0x9a, 0xab, 0xb2, 0xdb, 0xaf, 0xc3, 0x1c, 0xb3, 0xd3, 0x5d, 0xb7, 0xe3, 0x9e, 0xbb,
        0xf3, 0xdf, 0xbf,
    ];
    assert_eq!(
        base64_encode(&bytes),
        "ABCDEFGHIJKLMNOPQRSTUVWXYZabcdefghijklmnopqrstuvwxyz0123456789+/"
    );
}

#[test]
fn a_text_is_copied_as_its_bytes() {
    assert_eq!(sequence_of_text("foobar"), "\x1b]52;c;Zm9vYmFy\x07");
}
