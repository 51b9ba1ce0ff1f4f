//! Copying a path to the clipboard with the terminal's own escape sequence.

use crate::text;
use crate::text::lossy;
use vstd::prelude::*;
use vstd::string::*;

verus! {

/// The character of a base64 digit.
pub open spec fn symbol(v: int) -> char {
    if v < 26 {
        (65 + v) as char
    } else if v < 52 {
        (97 + (v - 26)) as char
    } else if v < 62 {
        (48 + (v - 52)) as char
    } else if v == 62 {
        '+'
    } else {
        '/'
    }
}

/// The characters for up to three bytes: six bits each, and `=` for what is
/// missing.
pub open spec fn group(c: Seq<u8>) -> Seq<char> {
    let b0 = c[0] as int;
    let b1 = if c.len() > 1 {
        c[1] as int
    } else {
        0
    };
    let b2 = if c.len() > 2 {
        c[2] as int
    } else {
        0
    };
    seq![
        symbol(b0 / 4),
        symbol(b0 % 4 * 16 + b1 / 16),
        if c.len() > 1 {
            symbol(b1 % 16 * 4 + b2 / 64)
        } else {
            '='
        },
        if c.len() > 2 {
            symbol(b2 % 64)
        } else {
            '='
        },
    ]
}

/// Bytes in base64, three at a time.
pub open spec fn base64(bytes: Seq<u8>) -> Seq<char>
    decreases bytes.len(),
{
    if bytes.len() == 0 {
        Seq::empty()
    } else if bytes.len() <= 3 {
        group(bytes)
    } else {
        group(bytes.take(3)) + base64(bytes.skip(3))
    }
}

fn symbol_char(v: u8) -> (c: char)
    requires
        v < 64,
    ensures
        c == symbol(v as int),
{
    if v < 26 {
        (65u8 + v) as char
    } else if v < 52 {
        (97u8 + (v - 26)) as char
    } else if v < 62 {
        (48u8 + (v - 52)) as char
    } else if v == 62 {
        '+'
    } else {
        '/'
    }
}

/// Encodes bytes in base64, with the standard alphabet and padding.
pub fn base64_encode(input: &[u8]) -> (out: String)
    ensures
        out@ == base64(input@),
{
    let mut out = String::new();
    let n: usize = input.len();
    let mut i: usize = 0;
    assert(input@.skip(0) =~= input@);
    while i < n
        invariant
            i <= n,
            n == input@.len(),
            out@ + base64(input@.skip(i as int)) == base64(input@),
        decreases input@.len() - i,
    {
        let ghost rest = input@.skip(i as int);
        let ghost before = out@;
        let left: usize = n - i;
        let b0: u8 = input[i];
        let b1: u8 = if left > 1 {
            input[i + 1]
        } else {
            0
        };
        let b2: u8 = if left > 2 {
            input[i + 2]
        } else {
            0
        };
        out.push(symbol_char(b0 / 4));
        out.push(symbol_char(b0 % 4 * 16 + b1 / 16));
        if left > 1 {
            out.push(symbol_char(b1 % 16 * 4 + b2 / 64));
        } else {
            out.push('=');
        }
        if left > 2 {
            out.push(symbol_char(b2 % 64));
        } else {
            out.push('=');
        }
        if left > 3 {
            proof {
                assert(out@ =~= before + group(rest.take(3)));
                assert(rest.skip(3) =~= input@.skip(i + 3));
                assert(out@ + base64(input@.skip(i + 3)) =~= before + base64(rest));
            }
            i = i + 3;
        } else {
            proof {
                assert(out@ =~= before + group(rest));
                assert(input@.skip(input@.len() as int) =~= Seq::<u8>::empty());
                assert(out@ + base64(Seq::<u8>::empty()) =~= before + base64(rest));
            }
            i = n;
        }
    }
    assert(input@.skip(i as int) =~= Seq::<u8>::empty());
    assert(out@ + Seq::<char>::empty() =~= out@);
    out
}

/// The escape sequence that sets the clipboard to a text.
pub open spec fn clipboard_sequence(text: Seq<char>) -> Seq<char> {
    "\x1b]52;c;"@ + base64(vstd::utf8::encode_utf8(text)) + "\x07"@
}

/// The escape sequence that sets the clipboard to a text.
pub fn sequence_of_text(text: &str) -> (s: String)
    ensures
        s@ == clipboard_sequence(text@),
{
    let encoded = base64_encode(text.as_bytes());
    let mut s = String::new();
    s.append("\x1b]52;c;");
    s.append(encoded.as_str());
    s.append("\x07");
    assert(s@ =~= clipboard_sequence(text@));
    s
}

/// The escape sequence that sets the clipboard to a path's text; what is not
/// UTF-8 in the path is replaced.
pub fn sequence(path: &[u8]) -> (s: String)
    ensures
        s@ == clipboard_sequence(text::lossy_text(path@)),
        vstd::utf8::valid_utf8(path@) ==> s@ == clipboard_sequence(
            vstd::utf8::decode_utf8(path@),
        ),
{
    let decoded = lossy(path);
    sequence_of_text(decoded.as_str())
}

/// The base64 digit of a character.
pub open spec fn symbol_value(c: char) -> int {
    if 'A' <= c <= 'Z' {
        c as int - 65
    } else if 'a' <= c <= 'z' {
        c as int - 97 + 26
    } else if '0' <= c <= '9' {
        c as int - 48 + 52
    } else if c == '+' {
        62
    } else {
        63
    }
}

/// The bytes that four characters stand for.
pub open spec fn ungroup(s: Seq<char>) -> Seq<u8> {
    let v0 = symbol_value(s[0]);
    let v1 = symbol_value(s[1]);
    let first = seq![(v0 * 4 + v1 / 16) as u8];
    if s[2] == '=' {
        first
    } else if s[3] == '=' {
        first.push((v1 % 16 * 16 + symbol_value(s[2]) / 4) as u8)
    } else {
        first.push((v1 % 16 * 16 + symbol_value(s[2]) / 4) as u8).push(
            (symbol_value(s[2]) % 4 * 64 + symbol_value(s[3])) as u8,
        )
    }
}

/// The bytes that a base64 text stands for.
pub open spec fn unbase64(s: Seq<char>) -> Seq<u8>
    decreases s.len(),
{
    if s.len() < 4 {
        Seq::empty()
    } else {
        ungroup(s.take(4)) + unbase64(s.skip(4))
    }
}

proof fn lemma_symbol(v: int)
    requires
        0 <= v < 64,
    ensures
        symbol_value(symbol(v)) == v,
        symbol(v) != '=',
{
}

proof fn lemma_group(c: Seq<u8>)
    requires
        0 < c.len() <= 3,
    ensures
        ungroup(group(c)) == c,
        group(c).len() == 4,
{
    let b0 = c[0] as int;
    let b1 = if c.len() > 1 {
        c[1] as int
    } else {
        0
    };
    let b2 = if c.len() > 2 {
        c[2] as int
    } else {
        0
    };
    lemma_symbol(b0 / 4);
    lemma_symbol(b0 % 4 * 16 + b1 / 16);
    lemma_symbol(b1 % 16 * 4 + b2 / 64);
    lemma_symbol(b2 % 64);
    assert((b0 / 4) * 4 + (b0 % 4 * 16 + b1 / 16) / 16 == b0);
    if c.len() > 1 {
        assert((b0 % 4 * 16 + b1 / 16) % 16 * 16 + (b1 % 16 * 4 + b2 / 64) / 4 == b1);
    }
    if c.len() > 2 {
        assert((b1 % 16 * 4 + b2 / 64) % 4 * 64 + b2 % 64 == b2);
    }
    assert(ungroup(group(c)) =~= c);
}

/// Base64 loses nothing: the encoded text stands for the bytes it was made
/// from, and it has four characters for every three bytes begun.
pub proof fn law_base64_round_trip(bytes: Seq<u8>)
    ensures
        unbase64(base64(bytes)) == bytes,
        base64(bytes).len() == (bytes.len() + 2) / 3 * 4,
    decreases bytes.len(),
{
    if bytes.len() == 0 {
        assert(unbase64(base64(bytes)) =~= bytes);
    } else if bytes.len() <= 3 {
        lemma_group(bytes);
        let s = base64(bytes);
        assert(s.take(4) =~= s);
        assert(s.skip(4) =~= Seq::<char>::empty());
        assert(unbase64(s.skip(4)) =~= Seq::<u8>::empty());
        assert(unbase64(s) =~= bytes);
    } else {
        let first = bytes.take(3);
        lemma_group(first);
        law_base64_round_trip(bytes.skip(3));
        let s = base64(bytes);
        assert(s.take(4) =~= group(first));
        assert(s.skip(4) =~= base64(bytes.skip(3)));
        assert(unbase64(s) =~= bytes);
    }
}

/// What is sent to the clipboard is the whole text: between the fixed start and end
/// of the sequence stands its encoding, which decodes to the text's bytes.
pub proof fn law_sequence_carries_the_text(text: Seq<char>)
    ensures
        ({
            let s = clipboard_sequence(text);
            let n = s.len();
            &&& n >= 8
            &&& s.take(7) == "\x1b]52;c;"@
            &&& s.last() == '\x07'
            &&& unbase64(s.subrange(7, n - 1)) == vstd::utf8::encode_utf8(text)
        }),
{
    reveal_strlit("\x1b]52;c;");
    reveal_strlit("\x07");
    let bytes = vstd::utf8::encode_utf8(text);
    let s = clipboard_sequence(text);
    let n = s.len();
    law_base64_round_trip(bytes);
    assert(s.take(7) =~= "\x1b]52;c;"@);
    assert(s.subrange(7, n - 1) =~= base64(bytes));
    assert("\x07"@[0] == '\x07');
}

} // verus!
