//! Characters, decimal numbers and the small string operations that the rest
//! of the library is written with.

use vstd::prelude::*;
use vstd::string::*;

verus! {

/// `String::push` appends one character.
pub assume_specification[ String::push ](s: &mut String, c: char)
    ensures
        final(s)@ == old(s)@.push(c),
;

/// The decimal digit of a number below ten.
pub open spec fn digit(n: nat) -> char {
    (('0' as nat) + n % 10) as char
}

/// A number in decimal, without leading zeros.
pub open spec fn dec(n: nat) -> Seq<char>
    decreases n,
{
    if n < 10 {
        seq![digit(n)]
    } else {
        dec(n / 10).push(digit(n % 10))
    }
}

/// The character for one decimal digit.
fn digit_char(n: u8) -> (c: char)
    requires
        n < 10,
    ensures
        c == digit(n as nat),
{
    (48u8 + n) as char
}

/// Appends a number in decimal.
pub fn push_dec(out: &mut String, n: u128)
    ensures
        final(out)@ == old(out)@ + dec(n as nat),
    decreases n,
{
    if n < 10 {
        out.push(digit_char(n as u8));
    } else {
        push_dec(out, n / 10);
        out.push(digit_char((n % 10) as u8));
    }
    assert(out@ =~= old(out)@ + dec(n as nat));
}

/// The characters of a string, one by one.
pub fn chars_of(s: &str) -> (v: Vec<char>)
    ensures
        v@ == s@,
{
    let mut v: Vec<char> = Vec::new();
    for c in it: s.chars()
        invariant
            v@ == it.seq().take(it.index()),
            it.seq() == s@,
    {
        v.push(c);
        assert(it.seq().take(it.index() + 1) =~= it.seq().take(it.index()).push(it.seq()[it.index()]));
    }
    assert(s@.take(s@.len() as int) =~= s@);
    v
}

/// A string made of the given characters.
pub fn string_of(v: &[char]) -> (s: String)
    ensures
        s@ == v@,
{
    let mut s = String::new();
    let mut i: usize = 0;
    while i < v.len()
        invariant
            i <= v@.len(),
            s@ == v@.take(i as int),
        decreases v@.len() - i,
    {
        s.push(v[i]);
        assert(v@.take(i + 1) =~= v@.take(i as int).push(v@[i as int]));
        i = i + 1;
    }
    assert(v@.take(v@.len() as int) =~= v@);
    s
}

/// The texts of some strings.
pub open spec fn texts(v: Seq<String>) -> Seq<Seq<char>> {
    Seq::new(v.len(), |i: int| v[i]@)
}

/// The text that raw bytes read as, with U+FFFD for what is not UTF-8.
pub uninterp spec fn lossy_text(bytes: Seq<u8>) -> Seq<char>;

/// `String::from_utf8_lossy` decodes bytes and puts U+FFFD in place of invalid
/// sequences. The contract names its result and says that valid UTF-8 decodes
/// exactly.
#[verifier::external_body]
pub(crate) fn lossy(bytes: &[u8]) -> (s: String)
    ensures
        s@ == lossy_text(bytes@),
        vstd::utf8::valid_utf8(bytes@) ==> s@ == vstd::utf8::decode_utf8(bytes@),
{
    String::from_utf8_lossy(bytes).into_owned()
}

/// A copy of a string.
pub fn copy_str(s: &str) -> (r: String)
    ensures
        r@ == s@,
{
    let mut r = String::new();
    r.append(s);
    assert(r@ =~= s@);
    r
}

/// A run of one character.
pub open spec fn run(c: char, n: nat) -> Seq<char> {
    Seq::new(n, |i: int| c)
}

/// Appends a run of one character.
pub fn push_run(out: &mut String, c: char, n: usize)
    ensures
        final(out)@ == old(out)@ + run(c, n as nat),
{
    let mut i: usize = 0;
    while i < n
        invariant
            i <= n,
            out@ == old(out)@ + run(c, i as nat),
        decreases n - i,
    {
        out.push(c);
        i = i + 1;
        assert(out@ =~= old(out)@ + run(c, i as nat));
    }
    assert(out@ =~= old(out)@ + run(c, n as nat));
}

/// A text moved to the right end of a field; a longer text stays as it is.
pub open spec fn padded_left(s: Seq<char>, width: nat) -> Seq<char> {
    if s.len() < width {
        run(' ', (width - s.len()) as nat) + s
    } else {
        s
    }
}

/// A text moved to the left end of a field; a longer text stays as it is.
pub open spec fn padded_right(s: Seq<char>, width: nat) -> Seq<char> {
    if s.len() < width {
        s + run(' ', (width - s.len()) as nat)
    } else {
        s
    }
}

/// Moves a text to the right end of a field.
pub fn pad_left(s: &str, width: usize) -> (r: String)
    ensures
        r@ == padded_left(s@, width as nat),
{
    let n: usize = s.unicode_len();
    let mut r = String::new();
    if n < width {
        push_run(&mut r, ' ', width - n);
    }
    r.append(s);
    assert(r@ =~= padded_left(s@, width as nat));
    r
}

/// Moves a text to the left end of a field.
pub fn pad_right(s: &str, width: usize) -> (r: String)
    ensures
        r@ == padded_right(s@, width as nat),
{
    let n: usize = s.unicode_len();
    let mut r = copy_str(s);
    if n < width {
        push_run(&mut r, ' ', width - n);
    }
    r
}

/// A number in decimal.
pub fn dec_string(n: u128) -> (r: String)
    ensures
        r@ == dec(n as nat),
{
    let mut r = String::new();
    push_dec(&mut r, n);
    assert(r@ =~= dec(n as nat));
    r
}

/// A number of tenths with one decimal.
pub open spec fn tenths(t: nat) -> Seq<char> {
    dec(t / 10) + "."@ + seq![digit(t % 10)]
}

/// Appends a number of tenths with one decimal.
pub fn push_tenths(out: &mut String, t: u128)
    ensures
        final(out)@ == old(out)@ + tenths(t as nat),
{
    push_dec(out, t / 10);
    out.append(".");
    out.push(digit_char((t % 10) as u8));
    assert(out@ =~= old(out)@ + tenths(t as nat));
}

/// Whether two strings hold the same characters.
pub fn same_text(a: &str, b: &str) -> (r: bool)
    ensures
        r == (a@ == b@),
{
    let x = chars_of(a);
    let y = chars_of(b);
    same_chars(x.as_slice(), y.as_slice())
}

/// Whether two runs of characters are the same.
pub fn same_chars(x: &[char], y: &[char]) -> (r: bool)
    ensures
        r == (x@ == y@),
{
    if x.len() != y.len() {
        return false;
    }
    let mut i: usize = 0;
    while i < x.len()
        invariant
            i <= x@.len(),
            x@.len() == y@.len(),
            forall|k: int| 0 <= k < i ==> x@[k] == y@[k],
        decreases x@.len() - i,
    {
        if x[i] != y[i] {
            return false;
        }
        i = i + 1;
    }
    assert(x@ =~= y@);
    true
}

/// Whether `part` occurs in `s` at place `i`.
pub open spec fn occurs_at(s: Seq<char>, part: Seq<char>, i: int) -> bool {
    0 <= i && i + part.len() <= s.len() && s.subrange(i, i + part.len()) == part
}

/// Whether `part` occurs somewhere in `s`.
pub open spec fn occurs_in(s: Seq<char>, part: Seq<char>) -> bool {
    exists|i: int| occurs_at(s, part, i)
}

/// Whether a string holds another one.
pub fn contains_text(s: &str, part: &str) -> (r: bool)
    ensures
        r == occurs_in(s@, part@),
{
    let x = chars_of(s);
    let y = chars_of(part);
    let mut i: usize = 0;
    while x.len() >= y.len() && i <= x.len() - y.len()
        invariant
            x@ == s@,
            y@ == part@,
            i <= x@.len() + 1,
            forall|k: int| 0 <= k < i ==> !occurs_at(s@, part@, k),
        decreases x@.len() + 1 - i,
    {
        let mut k: usize = 0;
        while k < y.len() && x[i + k] == y[k]
            invariant
                x@ == s@,
                y@ == part@,
                i + y@.len() <= x@.len() <= usize::MAX,
                k <= y@.len(),
                forall|m: int| 0 <= m < k ==> x@[i + m] == y@[m],
            decreases y@.len() - k,
        {
            k = k + 1;
        }
        if k == y.len() {
            assert(s@.subrange(i as int, i + y@.len()) =~= part@);
            assert(occurs_at(s@, part@, i as int));
            return true;
        }
        assert(s@.subrange(i as int, i + y@.len())[k as int] == x@[i + k]);
        assert(!occurs_at(s@, part@, i as int));
        if i == usize::MAX {
            return false;
        }
        i = i + 1;
    }
    false
}

/// An ASCII capital as its small letter; any other character as it is.
pub open spec fn lower(c: char) -> char {
    if 'A' <= c <= 'Z' {
        ((c as u32) + 32) as char
    } else {
        c
    }
}

/// A text with its ASCII capitals as small letters.
pub open spec fn lowered(s: Seq<char>) -> Seq<char> {
    s.map_values(|c: char| lower(c))
}

/// Turns ASCII capitals into small letters.
pub fn to_lower(s: &str) -> (r: String)
    ensures
        r@ == lowered(s@),
{
    let x = chars_of(s);
    let mut r = String::new();
    let mut i: usize = 0;
    while i < x.len()
        invariant
            x@ == s@,
            i <= x@.len(),
            r@ == lowered(s@.take(i as int)),
        decreases x@.len() - i,
    {
        let c = x[i];
        if 'A' <= c && c <= 'Z' {
            r.push(((c as u8) + 32) as char);
        } else {
            r.push(c);
        }
        i = i + 1;
        assert(r@ =~= lowered(s@.take(i as int)));
    }
    assert(s@.take(i as int) =~= s@);
    r
}

/// The pieces of a text between the occurrences of a character.
pub open spec fn pieces(s: Seq<char>, sep: char) -> Seq<Seq<char>>
    decreases s.len(),
{
    if s.len() == 0 {
        seq![Seq::empty()]
    } else {
        let before = pieces(s.drop_last(), sep);
        if s.last() == sep {
            before.push(Seq::empty())
        } else {
            before.drop_last().push(before.last().push(s.last()))
        }
    }
}

proof fn lemma_pieces_nonempty(s: Seq<char>, sep: char)
    ensures
        pieces(s, sep).len() > 0,
    decreases s.len(),
{
    if s.len() > 0 {
        lemma_pieces_nonempty(s.drop_last(), sep);
    }
}

/// Splits a text at a character.
pub fn split_chars(s: &[char], sep: char) -> (r: Vec<Vec<char>>)
    ensures
        r@.map_values(|v: Vec<char>| v@) == pieces(s@, sep),
{
    let mut done: Vec<Vec<char>> = Vec::new();
    let mut piece: Vec<char> = Vec::new();
    let mut i: usize = 0;
    proof {
        assert(s@.take(0) =~= Seq::<char>::empty());
        assert(pieces(s@.take(0), sep).drop_last() =~= Seq::<Seq<char>>::empty());
        assert(done@.map_values(|v: Vec<char>| v@) =~= Seq::<Seq<char>>::empty());
    }
    while i < s.len()
        invariant
            i <= s@.len(),
            done@.map_values(|v: Vec<char>| v@) == pieces(s@.take(i as int), sep).drop_last(),
            piece@ == pieces(s@.take(i as int), sep).last(),
        decreases s@.len() - i,
    {
        let ghost before = pieces(s@.take(i as int), sep);
        let ghost done_before = done@;
        proof {
            lemma_pieces_nonempty(s@.take(i as int), sep);
            assert(s@.take(i + 1).drop_last() =~= s@.take(i as int));
        }
        if s[i] == sep {
            done.push(piece);
            piece = Vec::new();
            proof {
                assert(pieces(s@.take(i + 1), sep).drop_last() =~= before);
                assert(done@.map_values(|v: Vec<char>| v@) =~= done_before.map_values(
                    |v: Vec<char>| v@,
                ).push(before.last()));
                assert(before.drop_last().push(before.last()) =~= before);
            }
        } else {
            piece.push(s[i]);
            assert(pieces(s@.take(i + 1), sep).drop_last() =~= before.drop_last());
        }
        i = i + 1;
    }
    proof {
        assert(s@.take(i as int) =~= s@);
        lemma_pieces_nonempty(s@, sep);
    }
    let ghost done_before = done@;
    let ghost last = piece@;
    done.push(piece);
    proof {
        assert(done@.map_values(|v: Vec<char>| v@) =~= done_before.map_values(
            |v: Vec<char>| v@,
        ).push(last));
        assert(pieces(s@, sep).drop_last().push(pieces(s@, sep).last()) =~= pieces(s@, sep));
    }
    done
}

/// Whether a text starts with another one.
pub open spec fn starts_with(s: Seq<char>, prefix: Seq<char>) -> bool {
    prefix.len() <= s.len() && s.take(prefix.len() as int) == prefix
}

/// Whether a text ends with another one.
pub open spec fn ends_with(s: Seq<char>, suffix: Seq<char>) -> bool {
    suffix.len() <= s.len() && s.skip(s.len() - suffix.len()) == suffix
}

/// Tests whether a text starts with another one.
pub fn has_prefix(s: &[char], prefix: &[char]) -> (r: bool)
    ensures
        r == starts_with(s@, prefix@),
{
    if prefix.len() > s.len() {
        return false;
    }
    let mut i: usize = 0;
    while i < prefix.len()
        invariant
            i <= prefix@.len() <= s@.len(),
            forall|k: int| 0 <= k < i ==> s@[k] == prefix@[k],
        decreases prefix@.len() - i,
    {
        if s[i] != prefix[i] {
            assert(s@.take(prefix@.len() as int)[i as int] != prefix@[i as int]);
            return false;
        }
        i = i + 1;
    }
    assert(s@.take(prefix@.len() as int) =~= prefix@);
    true
}

/// Tests whether a text ends with another one.
pub fn has_suffix(s: &[char], suffix: &[char]) -> (r: bool)
    ensures
        r == ends_with(s@, suffix@),
{
    if suffix.len() > s.len() {
        return false;
    }
    let from: usize = s.len() - suffix.len();
    let mut i: usize = 0;
    while i < suffix.len()
        invariant
            i <= suffix@.len(),
            from + suffix@.len() == s@.len(),
            s@.len() <= usize::MAX,
            forall|k: int| 0 <= k < i ==> s@[from + k] == suffix@[k],
        decreases suffix@.len() - i,
    {
        if s[from + i] != suffix[i] {
            assert(s@.skip(from as int)[i as int] != suffix@[i as int]);
            return false;
        }
        i = i + 1;
    }
    assert(s@.skip(from as int) =~= suffix@);
    true
}

/// A part of a text.
pub fn sub_chars(s: &[char], from: usize, to: usize) -> (r: Vec<char>)
    requires
        from <= to <= s@.len(),
    ensures
        r@ == s@.subrange(from as int, to as int),
{
    let mut r: Vec<char> = Vec::new();
    let mut i: usize = from;
    while i < to
        invariant
            from <= i <= to <= s@.len(),
            r@ == s@.subrange(from as int, i as int),
        decreases to - i,
    {
        r.push(s[i]);
        i = i + 1;
        assert(r@ =~= s@.subrange(from as int, i as int));
    }
    r
}

/// `std::str::from_utf8` checks that bytes are UTF-8 and gives the text that
/// they encode.
#[verifier::external_body]
pub(crate) fn from_utf8(bytes: &[u8]) -> (r: Option<String>)
    ensures
        r is Some <==> vstd::utf8::valid_utf8(bytes@),
        r matches Some(s) ==> s@ == vstd::utf8::decode_utf8(bytes@),
{
    std::str::from_utf8(bytes).ok().map(|s| s.to_owned())
}

/// The number that a string of decimal digits stands for.
pub open spec fn value(s: Seq<char>) -> int
    decreases s.len(),
{
    if s.len() == 0 {
        0
    } else {
        10 * value(s.drop_last()) + (s.last() as int - '0' as int)
    }
}

/// A number in decimal reads back as itself: it is all digits, without a leading
/// zero unless it is zero.
pub proof fn law_decimals_read_back(n: nat)
    ensures
        value(dec(n)) == n,
        dec(n).len() > 0,
        forall|i: int| 0 <= i < dec(n).len() ==> '0' <= #[trigger] dec(n)[i] <= '9',
        n > 0 ==> dec(n)[0] != '0',
    decreases n,
{
    if n < 10 {
        let s = dec(n);
        assert(s.drop_last() =~= Seq::<char>::empty());
        assert(value(s.drop_last()) == 0);
    } else {
        law_decimals_read_back(n / 10);
        assert(dec(n).drop_last() =~= dec(n / 10));
    }
}

/// Different numbers are written differently.
pub proof fn law_decimals_tell_numbers_apart(a: nat, b: nat)
    requires
        dec(a) == dec(b),
    ensures
        a == b,
{
    law_decimals_read_back(a);
    law_decimals_read_back(b);
}

/// A number of tenths is written with one digit behind the point, and reads back
/// without it.
pub proof fn law_tenths_read_back(t: nat)
    ensures
        ({
            let s = tenths(t);
            &&& s.len() >= 3
            &&& s[s.len() - 2] == '.'
            &&& value(s.take(s.len() - 2).push(s.last())) == t
        }),
{
    reveal_strlit(".");
    let s = tenths(t);
    law_decimals_read_back(t / 10);
    assert(s.take(s.len() - 2).push(s.last()).drop_last() =~= dec(t / 10));
    assert(s.last() == digit(t % 10));
}

/// Padding keeps the text, and adds nothing but spaces up to the width: in front
/// of it, or behind it.
pub proof fn law_padding_keeps_the_text(s: Seq<char>, width: nat)
    ensures
        ends_with(padded_left(s, width), s),
        starts_with(padded_right(s, width), s),
        padded_left(s, width).len() == padded_right(s, width).len() == (if s.len() < width {
            width
        } else {
            s.len()
        }),
        forall|i: int|
            0 <= i < padded_left(s, width).len() - s.len() ==> #[trigger] padded_left(s, width)[i]
                == ' ',
        forall|i: int|
            s.len() <= i < padded_right(s, width).len() ==> #[trigger] padded_right(s, width)[i]
                == ' ',
{
    let left = padded_left(s, width);
    let right = padded_right(s, width);
    assert(left.skip(left.len() - s.len()) =~= s);
    assert(right.take(s.len() as int) =~= s);
}

/// Lowering keeps the length and every character but the capital letters of ASCII,
/// leaves none of those, and changes nothing the second time.
pub proof fn law_lowering(s: Seq<char>)
    ensures
        lowered(s).len() == s.len(),
        forall|i: int|
            0 <= i < s.len() ==> !('A' <= #[trigger] lowered(s)[i] <= 'Z') && (if 'A' <= s[i] <= 'Z' {
                lowered(s)[i] as int - 'a' as int == s[i] as int - 'A' as int
            } else {
                lowered(s)[i] == s[i]
            }),
        lowered(lowered(s)) == lowered(s),
{
    assert forall|i: int| 0 <= i < s.len() implies !('A' <= #[trigger] lowered(s)[i] <= 'Z') && (
    if 'A' <= s[i] <= 'Z' {
        lowered(s)[i] as int - 'a' as int == s[i] as int - 'A' as int
    } else {
        lowered(s)[i] == s[i]
    }) by {
        assert(lowered(s)[i] == lower(s[i]));
    }
    assert(lowered(lowered(s)) =~= lowered(s));
}

/// Pieces with the separator between them.
pub open spec fn joined(pieces: Seq<Seq<char>>, sep: char) -> Seq<char>
    decreases pieces.len(),
{
    if pieces.len() == 0 {
        Seq::empty()
    } else if pieces.len() == 1 {
        pieces[0]
    } else {
        joined(pieces.drop_last(), sep).push(sep) + pieces.last()
    }
}

/// Splitting loses nothing: the pieces hold no separator, and with one between
/// them they are the text again.
pub proof fn law_pieces_join_again(s: Seq<char>, sep: char)
    ensures
        pieces(s, sep).len() > 0,
        joined(pieces(s, sep), sep) == s,
        forall|k: int| 0 <= k < pieces(s, sep).len() ==> !(#[trigger] pieces(s, sep)[k]).contains(sep),
    decreases s.len(),
{
    if s.len() > 0 {
        let before = pieces(s.drop_last(), sep);
        law_pieces_join_again(s.drop_last(), sep);
        let all = pieces(s, sep);
        if s.last() == sep {
            assert(all.drop_last() =~= before);
            assert(joined(all, sep) =~= s);
        } else {
            assert(all.drop_last() =~= before.drop_last());
            assert(joined(all, sep) =~= joined(before, sep).push(s.last()));
            assert(s =~= s.drop_last().push(s.last()));
            assert forall|k: int| 0 <= k < all.len() implies !(#[trigger] all[k]).contains(sep) by {
                if k + 1 == all.len() {
                    assert(!before.last().contains(sep));
                    let p = all[k];
                    assert(p == before.last().push(s.last()));
                    if p.contains(sep) {
                        let j = choose|j: int| 0 <= j < p.len() && p[j] == sep;
                        assert(before.last()[j] == sep);
                    }
                } else {
                    assert(all[k] == before[k]);
                }
            }
        }
    }
}

/// A text stands in any text it was put into.
pub proof fn lemma_occurs(a: Seq<char>, part: Seq<char>, b: Seq<char>)
    ensures
        occurs_in(a + part + b, part),
{
    let s = a + part + b;
    assert(s.subrange(a.len() as int, (a.len() + part.len()) as int) =~= part);
    assert(occurs_at(s, part, a.len() as int));
}

/// What a text was put in front of is its end.
pub proof fn lemma_ends(a: Seq<char>, b: Seq<char>)
    ensures
        ends_with(a + b, b),
        starts_with(a + b, a),
{
    assert((a + b).skip(a.len() as int) =~= b);
    assert((a + b).take(a.len() as int) =~= a);
}

/// What stands in a text stands in it still with more behind it, and its start stays
/// its start.
pub proof fn lemma_extend(s: Seq<char>, part: Seq<char>, more: Seq<char>)
    ensures
        occurs_in(s, part) ==> occurs_in(s + more, part),
        starts_with(s, part) ==> starts_with(s + more, part),
{
    if occurs_in(s, part) {
        let i = choose|i: int| occurs_at(s, part, i);
        assert((s + more).subrange(i, i + part.len()) =~= s.subrange(i, i + part.len()));
        assert(occurs_at(s + more, part, i));
    }
    if starts_with(s, part) {
        assert((s + more).take(part.len() as int) =~= s.take(part.len() as int));
    }
}

/// Two texts put behind another, one after the other, stand there side by side.
pub proof fn lemma_side_by_side(x: Seq<char>, a: Seq<char>, b: Seq<char>)
    ensures
        x + a + b == x + (a + b),
        occurs_in(x + a + b, a + b),
        ends_with(x + a + b, a + b),
{
    let s = x + a + b;
    assert(s =~= x + (a + b));
    lemma_ends(x, a + b);
    assert(s.subrange(x.len() as int, s.len() as int) =~= a + b);
    assert(occurs_at(s, a + b, x.len() as int));
}

/// What stands in a text stands in it still with two more texts behind it, and its
/// start stays its start.
pub proof fn lemma_extend_by(s: Seq<char>, part: Seq<char>, a: Seq<char>, b: Seq<char>)
    ensures
        occurs_in(s, part) ==> occurs_in(s + a + b, part),
        starts_with(s, part) ==> starts_with(s + a + b, part),
{
    lemma_extend(s, part, a);
    lemma_extend(s + a, part, b);
}

/// A text stands in itself, at its start and at its end.
pub proof fn lemma_itself(s: Seq<char>)
    ensures
        starts_with(s, s),
        ends_with(s, s),
        occurs_in(s, s),
{
    assert(s.take(s.len() as int) =~= s);
    assert(s.skip(0) =~= s);
    assert(s.subrange(0, s.len() as int) =~= s);
    assert(occurs_at(s, s, 0));
}

/// A text that is split is split the same with a piece more behind a separator, and text
/// without one belongs to the last piece.
pub proof fn law_pieces_grow(s: Seq<char>, sep: char, t: Seq<char>)
    requires
        !t.contains(sep),
    ensures
        pieces(s, sep).len() > 0,
        pieces(s.push(sep), sep) == pieces(s, sep).push(Seq::empty()),
        pieces(s + t, sep) == pieces(s, sep).drop_last().push(pieces(s, sep).last() + t),
    decreases t.len(),
{
    lemma_pieces_nonempty(s, sep);
    assert(s.push(sep).drop_last() =~= s);
    let before = pieces(s, sep);
    if t.len() == 0 {
        assert(s + t =~= s);
        assert(before.last() + t =~= before.last());
        assert(before =~= before.drop_last().push(before.last()));
    } else {
        let u = t.drop_last();
        assert(!u.contains(sep)) by {
            if u.contains(sep) {
                let i = choose|i: int| 0 <= i < u.len() && u[i] == sep;
                assert(t[i] == sep);
            }
        }
        law_pieces_grow(s, sep, u);
        assert((s + t).drop_last() =~= s + u);
        assert(t.contains(t.last()));
        let grown = pieces(s + u, sep);
        assert(grown.drop_last() =~= before.drop_last());
        assert(grown.last().push(t.last()) =~= before.last() + t);
        assert(pieces(s + t, sep) =~= before.drop_last().push(before.last() + t));
    }
}

/// Three texts without the separator, joined by it, split into the three.
pub proof fn law_three_pieces(a: Seq<char>, b: Seq<char>, c: Seq<char>, sep: char)
    requires
        !a.contains(sep),
        !b.contains(sep),
        !c.contains(sep),
    ensures
        pieces(a.push(sep) + b.push(sep) + c, sep) == seq![a, b, c],
{
    let none = Seq::<char>::empty();
    assert(pieces(none, sep) =~= seq![none]);
    law_pieces_grow(none, sep, a);
    assert(none + a =~= a);
    assert(pieces(a, sep) =~= seq![a]);
    law_pieces_grow(a, sep, none);
    law_pieces_grow(a.push(sep), sep, b);
    let ab = a.push(sep) + b;
    assert(none + b =~= b);
    assert(pieces(ab, sep) =~= seq![a, b]);
    law_pieces_grow(ab, sep, none);
    law_pieces_grow(ab.push(sep), sep, c);
    assert(none + c =~= c);
    assert(pieces(ab.push(sep) + c, sep) =~= seq![a, b, c]);
    assert(ab.push(sep) + c =~= a.push(sep) + b.push(sep) + c);
}

} // verus!
