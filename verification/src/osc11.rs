//! Asking the terminal for its background color: when to ask, how the reply is
//! read and what it says.

use crate::luminance;
use crate::luminance::linear;
use crate::text;
use crate::text::{chars_of, from_utf8, has_prefix, has_suffix, same_text, split_chars, string_of, sub_chars};
use crate::theme::ThemeName;
use vstd::prelude::*;
use vstd::string::*;

verus! {

/// Bound on the reply: longer replies without a terminator are garbage.
pub const MAX_REPLY_LEN: usize = 64;

/// Whether asking is worth it: both ends are terminals, and `TERM` is set and
/// not `dumb`.
pub fn should_query(term: Option<&str>, stdin_is_tty: bool, stdout_is_tty: bool) -> (r: bool)
    ensures
        r == (stdin_is_tty && stdout_is_tty && (term matches Some(t) && t@ != "dumb"@)),
{
    if !stdin_is_tty || !stdout_is_tty {
        return false;
    }
    match term {
        Some(t) => !same_text(t, "dumb"),
        None => false,
    }
}

/// Whether a color reads as light: its relative luminance, from the linear
/// light of its channels in billionths, exceeds one half.
pub open spec fn reads_light(r: u8, g: u8, b: u8) -> bool {
    exists|x: int, y: int, z: int|
        #![trigger luminance::is_linear(r as int, x), luminance::is_linear(g as int, y), luminance::is_linear(b as int, z)]
        luminance::is_linear(r as int, x) && luminance::is_linear(g as int, y)
            && luminance::is_linear(b as int, z) && 2126 * x + 7152 * y + 722 * z
            > 5000 * 1_000_000_000
}

/// Tests whether a color reads as light.
pub fn is_light(r: u8, g: u8, b: u8) -> (light: bool)
    ensures
        light == reads_light(r, g, b),
{
    let x: u64 = linear(r);
    let y: u64 = linear(g);
    let z: u64 = linear(b);
    let light = 2126 * x + 7152 * y + 722 * z > 5_000_000_000_000;
    proof {
        assert forall|a: int, c: int, d: int|
            #![trigger luminance::is_linear(r as int, a), luminance::is_linear(g as int, c), luminance::is_linear(b as int, d)]
            luminance::is_linear(r as int, a) && luminance::is_linear(g as int, c)
                && luminance::is_linear(b as int, d) implies a == x && c == y && d == z by {
            luminance::lemma_linear_unique(r as int, a, x as int);
            luminance::lemma_linear_unique(g as int, c, y as int);
            luminance::lemma_linear_unique(b as int, d, z as int);
        }
        assert(luminance::is_linear(r as int, x as int));
        assert(luminance::is_linear(g as int, y as int));
        assert(luminance::is_linear(b as int, z as int));
    }
    light
}

/// A color with no channel darker than a light color's is light; black is dark
/// and white is light.
pub proof fn law_light_is_monotone(r: u8, g: u8, b: u8, r2: u8, g2: u8, b2: u8)
    requires
        r <= r2,
        g <= g2,
        b <= b2,
    ensures
        reads_light(r, g, b) ==> reads_light(r2, g2, b2),
        !reads_light(0, 0, 0),
        reads_light(255, 255, 255),
{
    if reads_light(r, g, b) {
        let (x, y, z) = choose|x: int, y: int, z: int|
            #![trigger luminance::is_linear(r as int, x), luminance::is_linear(g as int, y), luminance::is_linear(b as int, z)]
            luminance::is_linear(r as int, x) && luminance::is_linear(g as int, y)
                && luminance::is_linear(b as int, z) && 2126 * x + 7152 * y + 722 * z
                > 5000 * 1_000_000_000;
        let x2 = luminance::lemma_linear_exists(r2 as int);
        let y2 = luminance::lemma_linear_exists(g2 as int);
        let z2 = luminance::lemma_linear_exists(b2 as int);
        luminance::lemma_linear_monotone(r as int, x, r2 as int, x2);
        luminance::lemma_linear_monotone(g as int, y, g2 as int, y2);
        luminance::lemma_linear_monotone(b as int, z, b2 as int, z2);
        assert(luminance::is_linear(r2 as int, x2));
        assert(luminance::is_linear(g2 as int, y2));
        assert(luminance::is_linear(b2 as int, z2));
    }
    luminance::lemma_linear_of_white();
    assert(luminance::is_linear(255u8 as int, 1000000000int));
    assert forall|x: int| #[trigger] luminance::is_linear(0u8 as int, x) implies x == 0 by {}
}

/// The value of a hexadecimal digit.
pub open spec fn hex(c: char) -> Option<int> {
    if '0' <= c <= '9' {
        Some(c as int - 48)
    } else if 'a' <= c <= 'f' {
        Some(c as int - 87)
    } else if 'A' <= c <= 'F' {
        Some(c as int - 55)
    } else {
        None
    }
}

/// The value of hexadecimal digits and the largest value of as many; absent
/// where a character is not one.
pub open spec fn hex_value(s: Seq<char>) -> Option<(int, int)>
    decreases s.len(),
{
    if s.len() == 0 {
        Some((0, 0))
    } else {
        match (hex_value(s.drop_last()), hex(s.last())) {
            (Some((v, m)), Some(d)) => Some((16 * v + d, 16 * m + 15)),
            _ => None,
        }
    }
}

/// A channel of two hexadecimal digits (8 bit) or four (16 bit), scaled to eight
/// bits.
pub open spec fn channel(s: Seq<char>) -> Option<u8> {
    if s.len() != 2 && s.len() != 4 {
        None
    } else {
        match hex_value(s) {
            Some((v, m)) => Some((v * 255 / m) as u8),
            None => None,
        }
    }
}

/// The color that a reply's body names: `rgb:` and three channels of one width.
pub open spec fn reply_color(body: Seq<char>) -> Option<(u8, u8, u8)> {
    if text::starts_with(body, "rgb:"@) {
        let parts = text::pieces(body.skip(4), '/');
        if parts.len() == 3 && parts[0].len() == parts[1].len() == parts[2].len() {
            match (channel(parts[0]), channel(parts[1]), channel(parts[2])) {
                (Some(r), Some(g), Some(b)) => Some((r, g, b)),
                _ => None,
            }
        } else {
            None
        }
    } else {
        None
    }
}

fn hex_digit(c: char) -> (r: Option<u32>)
    ensures
        r is Some <==> hex(c) is Some,
        r matches Some(d) ==> hex(c) == Some(d as int) && d < 16,
{
    if '0' <= c && c <= '9' {
        Some(c as u32 - 48)
    } else if 'a' <= c && c <= 'f' {
        Some(c as u32 - 87)
    } else if 'A' <= c && c <= 'F' {
        Some(c as u32 - 55)
    } else {
        None
    }
}

proof fn lemma_hex_prefix(s: Seq<char>, n: int)
    requires
        0 <= n <= s.len(),
        hex_value(s.take(n)) is None,
    ensures
        hex_value(s) is None,
    decreases s.len(),
{
    if n < s.len() {
        assert(s.drop_last().take(n) =~= s.take(n));
        lemma_hex_prefix(s.drop_last(), n);
    } else {
        assert(s.take(n) =~= s);
    }
}

fn parse_channel(s: &Vec<char>) -> (r: Option<u8>)
    ensures
        r == channel(s@),
{
    if s.len() != 2 && s.len() != 4 {
        return None;
    }
    let mut v: u32 = 0;
    let mut m: u32 = 0;
    let mut i: usize = 0;
    assert(s@.take(0) =~= Seq::<char>::empty());
    while i < s.len()
        invariant
            i <= s@.len() <= 4,
            hex_value(s@.take(i as int)) == Some((v as int, m as int)),
            v <= m,
            i == 0 ==> m == 0,
            i == 1 ==> m == 15,
            i == 2 ==> m == 255,
            i == 3 ==> m == 4095,
            i == 4 ==> m == 65535,
        decreases s@.len() - i,
    {
        assert(s@.take(i + 1).drop_last() =~= s@.take(i as int));
        match hex_digit(s[i]) {
            Some(d) => {
                v = 16 * v + d;
                m = 16 * m + 15;
            },
            None => {
                proof {
                    lemma_hex_prefix(s@, i + 1);
                }
                return None;
            },
        }
        i = i + 1;
    }
    assert(s@.take(i as int) =~= s@);
    assert(v * 255 / (m as int) <= 255) by (nonlinear_arith)
        requires
            0 <= v <= m,
            m > 0,
    ;
    Some((v * 255 / m) as u8)
}

/// Reads the color out of a reply's body: `rgb:RRRR/GGGG/BBBB` (16 bit per
/// channel) or `rgb:RR/GG/BB` (8 bit). Anything else is rejected rather than
/// guessed at.
pub fn parse_reply(body: &str) -> (r: Option<(u8, u8, u8)>)
    ensures
        r == reply_color(body@),
{
    let s = chars_of(body);
    let prefix = chars_of("rgb:");
    proof {
        reveal_strlit("rgb:");
    }
    if !has_prefix(s.as_slice(), prefix.as_slice()) {
        return None;
    }
    let rest = sub_chars(s.as_slice(), 4, s.len());
    assert(rest@ =~= body@.skip(4));
    let parts = split_chars(rest.as_slice(), '/');
    let ghost views = parts@.map_values(|v: Vec<char>| v@);
    assert(views.len() == parts@.len());
    if parts.len() != 3 {
        return None;
    }
    assert(views[0] == parts@[0]@ && views[1] == parts@[1]@ && views[2] == parts@[2]@);
    if parts[0].len() != parts[1].len() || parts[1].len() != parts[2].len() {
        return None;
    }
    match (parse_channel(&parts[0]), parse_channel(&parts[1]), parse_channel(&parts[2])) {
        (Some(r), Some(g), Some(b)) => Some((r, g, b)),
        _ => None,
    }
}

/// The body of a reply: what stands between the sequence's start and its
/// terminator.
pub open spec fn reply_body(t: Seq<char>) -> Option<Seq<char>> {
    if !text::starts_with(t, "\x1b]11;"@) {
        None
    } else {
        let rest = t.skip(5);
        if text::ends_with(rest, "\x07"@) {
            Some(rest.take(rest.len() - 1))
        } else if text::ends_with(rest, "\x1b\\"@) {
            Some(rest.take(rest.len() - 2))
        } else {
            None
        }
    }
}

/// Takes the body out of a raw reply. Bytes that are not UTF-8, another
/// sequence and a missing terminator are rejected.
pub fn extract_body(raw: &[u8]) -> (r: Option<String>)
    ensures
        r is Some <==> vstd::utf8::valid_utf8(raw@) && reply_body(vstd::utf8::decode_utf8(raw@)) is Some,
        r matches Some(s) ==> reply_body(vstd::utf8::decode_utf8(raw@)) == Some(s@),
{
    let decoded = match from_utf8(raw) {
        Some(s) => s,
        None => {
            return None;
        },
    };
    let t = chars_of(decoded.as_str());
    let start = chars_of("\x1b]11;");
    let bel = chars_of("\x07");
    let st = chars_of("\x1b\\");
    proof {
        reveal_strlit("\x1b]11;");
        reveal_strlit("\x07");
        reveal_strlit("\x1b\\");
    }
    if !has_prefix(t.as_slice(), start.as_slice()) {
        return None;
    }
    let rest = sub_chars(t.as_slice(), 5, t.len());
    assert(rest@ =~= t@.skip(5));
    let n: usize = rest.len();
    if has_suffix(rest.as_slice(), bel.as_slice()) {
        let body = sub_chars(rest.as_slice(), 0, n - 1);
        assert(body@ =~= rest@.take(n - 1));
        Some(string_of(body.as_slice()))
    } else if has_suffix(rest.as_slice(), st.as_slice()) {
        let body = sub_chars(rest.as_slice(), 0, n - 2);
        assert(body@ =~= rest@.take(n - 2));
        Some(string_of(body.as_slice()))
    } else {
        None
    }
}

/// The background color that a raw reply reports.
pub fn reply_background(raw: &[u8]) -> (r: Option<(u8, u8, u8)>)
    ensures
        r == (if vstd::utf8::valid_utf8(raw@) {
            match reply_body(vstd::utf8::decode_utf8(raw@)) {
                Some(body) => reply_color(body),
                None => None,
            }
        } else {
            None
        }),
{
    match extract_body(raw) {
        Some(body) => parse_reply(body.as_str()),
        None => None,
    }
}

/// What one attempt to read a byte gave.
#[derive(Debug, Clone, Copy, PartialEq, Eq, Structural)]
pub enum ReadAttempt {
    Byte(u8),
    /// No byte within the attempt's time.
    Nothing,
    Failed,
}

/// Whether to go on reading.
#[derive(Debug, Clone, Copy, PartialEq, Eq, Structural)]
pub enum ReadProgress {
    More,
    Complete,
    Failed,
}

/// Whether bytes end a reply: with a terminator, or at the bound.
pub open spec fn is_complete(buf: Seq<u8>) -> bool {
    ||| buf.len() > 0 && buf.last() == 7
    ||| buf.len() > 1 && buf[buf.len() - 2] == 27 && buf.last() == 92
    ||| buf.len() >= MAX_REPLY_LEN
}

/// Takes one attempt into account.
pub fn read_step(buf: &mut Vec<u8>, attempt: ReadAttempt) -> (p: ReadProgress)
    ensures
        match attempt {
            ReadAttempt::Byte(b) => final(buf)@ == old(buf)@.push(b) && p == (if is_complete(
                final(buf)@,
            ) {
                ReadProgress::Complete
            } else {
                ReadProgress::More
            }),
            ReadAttempt::Nothing => final(buf)@ == old(buf)@ && p == ReadProgress::More,
            ReadAttempt::Failed => final(buf)@ == old(buf)@ && p == ReadProgress::Failed,
        },
{
    match attempt {
        ReadAttempt::Byte(b) => {
            buf.push(b);
            let n: usize = buf.len();
            if b == 7 || (n > 1 && buf[n - 2] == 27 && b == 92) || n >= MAX_REPLY_LEN {
                ReadProgress::Complete
            } else {
                ReadProgress::More
            }
        },
        ReadAttempt::Nothing => ReadProgress::More,
        ReadAttempt::Failed => ReadProgress::Failed,
    }
}

/// The reply that attempts give when `buf` was read before them: absent where
/// one fails, or where they run out before the reply is complete.
pub open spec fn reply_of(buf: Seq<u8>, attempts: Seq<ReadAttempt>) -> Option<Seq<u8>>
    decreases attempts.len(),
{
    if attempts.len() == 0 {
        None
    } else {
        match attempts[0] {
            ReadAttempt::Byte(b) => if is_complete(buf.push(b)) {
                Some(buf.push(b))
            } else {
                reply_of(buf.push(b), attempts.drop_first())
            },
            ReadAttempt::Nothing => reply_of(buf, attempts.drop_first()),
            ReadAttempt::Failed => None,
        }
    }
}

/// Reads a reply from the attempts made before the deadline.
pub fn read_until_terminator(attempts: &[ReadAttempt]) -> (r: Option<Vec<u8>>)
    ensures
        r is Some <==> reply_of(Seq::empty(), attempts@) is Some,
        r matches Some(v) ==> reply_of(Seq::empty(), attempts@) == Some(v@),
{
    let mut buf: Vec<u8> = Vec::new();
    let mut i: usize = 0;
    assert(attempts@.skip(0) =~= attempts@);
    assert(buf@ =~= Seq::<u8>::empty());
    while i < attempts.len()
        invariant
            i <= attempts@.len(),
            reply_of(Seq::empty(), attempts@) == reply_of(buf@, attempts@.skip(i as int)),
        decreases attempts@.len() - i,
    {
        assert(attempts@.skip(i as int).drop_first() =~= attempts@.skip(i + 1));
        match read_step(&mut buf, attempts[i]) {
            ReadProgress::More => {},
            ReadProgress::Complete => {
                return Some(buf);
            },
            ReadProgress::Failed => {
                return None;
            },
        }
        i = i + 1;
    }
    None
}

/// A reply never exceeds the bound, however long the terminal talks.
pub proof fn law_reply_is_bounded(buf: Seq<u8>, attempts: Seq<ReadAttempt>)
    requires
        buf.len() < MAX_REPLY_LEN,
    ensures
        reply_of(buf, attempts) matches Some(v) ==> v.len() <= MAX_REPLY_LEN && is_complete(v),
    decreases attempts.len(),
{
    if attempts.len() > 0 {
        match attempts[0] {
            ReadAttempt::Byte(b) => {
                if !is_complete(buf.push(b)) {
                    law_reply_is_bounded(buf.push(b), attempts.drop_first());
                }
            },
            ReadAttempt::Nothing => {
                law_reply_is_bounded(buf, attempts.drop_first());
            },
            ReadAttempt::Failed => {},
        }
    }
}

/// The theme for a choice that was made, or for what the terminal reported: a
/// light background selects the light theme, anything else the default.
pub fn theme_for(explicit: Option<ThemeName>, background: Option<(u8, u8, u8)>) -> (n: ThemeName)
    ensures
        n == (match explicit {
            Some(name) => name,
            None => match background {
                Some((r, g, b)) => if reads_light(r, g, b) {
                    ThemeName::Light
                } else {
                    ThemeName::TokyoNight
                },
                None => ThemeName::TokyoNight,
            },
        }),
{
    match explicit {
        Some(name) => name,
        None => match background {
            Some((r, g, b)) => {
                if is_light(r, g, b) {
                    ThemeName::Light
                } else {
                    ThemeName::TokyoNight
                }
            },
            None => ThemeName::TokyoNight,
        },
    }
}

/// A hexadecimal number reads as its digits say, capital or not.
pub proof fn law_hex_reads_its_digits(s: Seq<char>, c: char)
    ensures
        'a' <= c <= 'f' ==> hex(c) == hex((c as u32 - 32) as char),
        hex(c) matches Some(d) ==> 0 <= d < 16,
        hex(c) is Some && hex_value(s) is Some ==> hex_value(s.push(c)) is Some && hex_value(
            s.push(c),
        ).unwrap().0 == 16 * hex_value(s).unwrap().0 + hex(c).unwrap(),
        hex(c) is None ==> hex_value(s.push(c)) is None,
        hex_value(s) matches Some((v, m)) ==> 0 <= v <= m,
    decreases s.len(),
{
    assert(s.push(c).drop_last() =~= s);
    if s.len() > 0 {
        law_hex_reads_its_digits(s.drop_last(), s.last());
        assert(s.drop_last().push(s.last()) =~= s);
    }
}

/// A channel of two digits is their value; one of four is scaled down to a byte. No other
/// width is read.
pub proof fn law_channels_scale_to_a_byte(s: Seq<char>)
    ensures
        s.len() != 2 && s.len() != 4 ==> channel(s) is None,
        s.len() == 2 ==> (hex_value(s) matches Some((v, m)) ==> channel(s) == Some(v as u8) && v
            < 256),
        s.len() == 4 ==> (hex_value(s) matches Some((v, m)) ==> channel(s) matches Some(c) && c
            * 257 <= v < (c + 1) * 257),
        hex_value(s) is None ==> channel(s) is None,
{
    if s.len() == 2 || s.len() == 4 {
        if hex_value(s) is Some {
            let (v, m) = hex_value(s).unwrap();
            law_hex_reads_its_digits(s, 'x');
            lemma_full_scale(s);
            if s.len() == 2 {
                assert(v * 255 / 255 == v);
            } else {
                assert(v * 255 / 65535 == v / 257) by {
                    assert(65535 == 255 * 257);
                    assert(v * 255 / 65535 == v / 257) by (nonlinear_arith)
                        requires
                            0 <= v <= 65535,
                    ;
                }
            }
        }
    }
}

proof fn lemma_full_scale(s: Seq<char>)
    requires
        hex_value(s) is Some,
    ensures
        s.len() == 2 ==> hex_value(s).unwrap().1 == 255,
        s.len() == 4 ==> hex_value(s).unwrap().1 == 65535,
{
    reveal_with_fuel(hex_value, 6);
}

/// A reply's three channels are red, green and blue, in this order.
pub proof fn law_replies_are_red_green_blue(a: Seq<char>, b: Seq<char>, c: Seq<char>)
    requires
        a.len() == b.len() == c.len(),
        channel(a) is Some,
        channel(b) is Some,
        channel(c) is Some,
    ensures
        reply_color("rgb:"@ + (a.push('/') + b.push('/') + c)) == Some(
            (channel(a).unwrap(), channel(b).unwrap(), channel(c).unwrap()),
        ),
{
    reveal_strlit("rgb:");
    let rest = a.push('/') + b.push('/') + c;
    let body = "rgb:"@ + rest;
    text::lemma_ends("rgb:"@, rest);
    assert(body.skip(4) =~= rest);
    lemma_no_slash(a);
    lemma_no_slash(b);
    lemma_no_slash(c);
    text::law_three_pieces(a, b, c, '/');
}

proof fn lemma_no_slash(s: Seq<char>)
    requires
        hex_value(s) is Some,
    ensures
        !s.contains('/'),
    decreases s.len(),
{
    if s.len() > 0 {
        lemma_no_slash(s.drop_last());
        assert forall|i: int| 0 <= i < s.len() implies s[i] != '/' by {
            if i < s.len() - 1 {
                assert(s.drop_last()[i] == s[i]);
            }
        }
    }
}

/// What a terminal answers between the start of the reply and either of its ends is the
/// body.
pub proof fn law_replies_have_two_ends(body: Seq<char>)
    ensures
        reply_body("\x1b]11;"@ + (body + "\x07"@)) == Some(body),
        reply_body("\x1b]11;"@ + (body + "\x1b\\"@)) == Some(body),
{
    reveal_strlit("\x1b]11;");
    reveal_strlit("\x07");
    reveal_strlit("\x1b\\");
    let bell = body + "\x07"@;
    let slash = body + "\x1b\\"@;
    let start = "\x1b]11;"@;
    text::lemma_ends(start, bell);
    text::lemma_ends(start, slash);
    text::lemma_ends(body, "\x07"@);
    text::lemma_ends(body, "\x1b\\"@);
    assert((start + bell).skip(5) =~= bell);
    assert((start + slash).skip(5) =~= slash);
    assert(bell.take(bell.len() - 1) =~= body);
    assert(slash.take(slash.len() - 2) =~= body);
    if text::ends_with(slash, "\x07"@) {
        assert(slash.skip(slash.len() - 1)[0] == '\x07');
        assert(slash.last() == '\\');
    }
}

/// A reply is what was read, byte by byte and in order; waiting adds nothing, and a
/// failure ends it without one.
pub proof fn law_replies_are_read_in_order(buf: Seq<u8>, attempts: Seq<ReadAttempt>, b: u8)
    ensures
        reply_of(buf, attempts) matches Some(v) ==> v.len() > buf.len() && v.take(buf.len() as int)
            == buf,
        reply_of(buf, seq![ReadAttempt::Nothing] + attempts) == reply_of(buf, attempts),
        reply_of(buf, seq![ReadAttempt::Failed] + attempts) is None,
        !is_complete(buf.push(b)) ==> reply_of(buf, seq![ReadAttempt::Byte(b)] + attempts)
            == reply_of(buf.push(b), attempts),
        is_complete(buf.push(b)) ==> reply_of(buf, seq![ReadAttempt::Byte(b)] + attempts) == Some(
            buf.push(b),
        ),
    decreases attempts.len(),
{
    assert((seq![ReadAttempt::Nothing] + attempts).drop_first() =~= attempts);
    assert((seq![ReadAttempt::Failed] + attempts).drop_first() =~= attempts);
    assert((seq![ReadAttempt::Byte(b)] + attempts).drop_first() =~= attempts);
    if attempts.len() > 0 {
        match attempts[0] {
            ReadAttempt::Byte(c) => {
                law_replies_are_read_in_order(buf.push(c), attempts.drop_first(), b);
                if reply_of(buf, attempts) is Some {
                    let v = reply_of(buf, attempts).unwrap();
                    if is_complete(buf.push(c)) {
                        assert(v.take(buf.len() as int) =~= buf);
                    } else {
                        assert(v.take(buf.len() as int) =~= v.take(buf.len() as int + 1).take(
                            buf.len() as int,
                        ));
                        assert(buf.push(c).take(buf.len() as int) =~= buf);
                    }
                }
            },
            ReadAttempt::Nothing => {
                law_replies_are_read_in_order(buf, attempts.drop_first(), b);
            },
            ReadAttempt::Failed => {},
        }
    }
}

/// A reply ends with a bell, with the escape that ends a string, or at sixty-four bytes.
pub proof fn law_replies_end(buf: Seq<u8>)
    ensures
        is_complete(buf.push(7)),
        is_complete(buf.push(27).push(92)),
        buf.len() >= 64 ==> is_complete(buf),
        is_complete(buf) && buf.len() < 64 ==> buf.last() == 7 || buf.last() == 92 && buf.len() >= 2
            && buf[buf.len() - 2] == 27,
{
}

} // verus!
