//! Byte counts as people read them, in the form that the scan engine prints sizes
//! in: "0 B" and "5.8 GiB" are known outputs of it, plain bytes and binary units
//! with one decimal. What happens on a tie (to even) and just below a unit
//! (1 048 575 bytes read "1024.0 KiB") is this library's choice.

use crate::double;
use crate::double::div_round_even;
use crate::text;
use crate::text::{push_dec, push_tenths};
use vstd::prelude::*;
use vstd::string::*;

verus! {

/// The number of bytes in a unit and the unit's name, for a count of at least
/// 1024 bytes: the largest unit that the count fills once.
pub open spec fn unit_of(bytes: u64) -> (nat, Seq<char>) {
    if bytes < 0x100000 {
        (0x400, "KiB"@)
    } else if bytes < 0x40000000 {
        (0x100000, "MiB"@)
    } else if bytes < 0x10000000000 {
        (0x40000000, "GiB"@)
    } else if bytes < 0x4000000000000 {
        (0x10000000000, "TiB"@)
    } else if bytes < 0x1000000000000000 {
        (0x4000000000000, "PiB"@)
    } else {
        (0x1000000000000000, "EiB"@)
    }
}

/// A byte count for people: plain below 1024, else in binary units with one
/// decimal, rounded to nearest with ties to even.
pub open spec fn human(bytes: u64) -> Seq<char> {
    if bytes < 1024 {
        text::dec(bytes as nat) + " B"@
    } else {
        let (size, name) = unit_of(bytes);
        text::tenths(double::round_even(10 * bytes as nat, size)) + " "@ + name
    }
}

/// A byte count that is shown for people.
#[derive(Debug, Clone, Copy, PartialEq, Eq, Structural)]
pub struct HumanSize(pub u64);

/// Appends a byte count for people.
pub fn push_human(out: &mut String, bytes: u64)
    ensures
        final(out)@ == old(out)@ + human(bytes),
{
    if bytes < 1024 {
        push_dec(out, bytes as u128);
        out.append(" B");
        assert(out@ =~= old(out)@ + human(bytes));
        return;
    }
    let (size, name): (u64, &str) = if bytes < 0x100000 {
        (0x400, "KiB")
    } else if bytes < 0x40000000 {
        (0x100000, "MiB")
    } else if bytes < 0x10000000000 {
        (0x40000000, "GiB")
    } else if bytes < 0x4000000000000 {
        (0x10000000000, "TiB")
    } else if bytes < 0x1000000000000000 {
        (0x4000000000000, "PiB")
    } else {
        (0x1000000000000000, "EiB")
    };
    let t: u128 = div_round_even(10 * bytes as u128, size as u128);
    push_tenths(out, t);
    out.append(" ");
    out.append(name);
    assert(out@ =~= old(out)@ + human(bytes));
}

/// A byte count for people.
pub fn human_string(bytes: u64) -> (s: String)
    ensures
        s@ == human(bytes),
{
    let mut s = String::new();
    push_human(&mut s, bytes);
    assert(s@ =~= human(bytes));
    s
}

impl HumanSize {
    /// The text of the byte count.
    pub fn text(&self) -> (s: String)
        ensures
            s@ == human(self.0),
    {
        human_string(self.0)
    }
}

/// The names of the units above the byte, each 1024 times the one before.
pub open spec fn unit_names() -> Seq<Seq<char>> {
    seq!["KiB"@, "MiB"@, "GiB"@, "TiB"@, "PiB"@, "EiB"@]
}

/// 1024 to the power of `k`.
pub open spec fn kibi(k: nat) -> nat
    decreases k,
{
    if k == 0 {
        1
    } else {
        1024 * kibi((k - 1) as nat)
    }
}

/// Whether `t` tenths of the unit are `bytes`, rounded.
pub open spec fn rounds_to(bytes: u64, unit: nat, t: nat) -> bool {
    &&& 2 * t * unit <= 20 * bytes + unit
    &&& 20 * bytes <= 2 * t * unit + unit
}

/// Below 1024 a size is told to the byte; above, in the largest unit that it holds
/// a whole one of, to the nearest tenth.
pub proof fn law_sizes_are_told_to_a_tenth(bytes: u64)
    ensures
        bytes < 1024 ==> human(bytes) == text::dec(bytes as nat) + " B"@,
        bytes >= 1024 ==> exists|k: int, t: nat|
            {
                &&& 0 <= k < 6
                &&& kibi((k + 1) as nat) <= bytes
                &&& k < 5 ==> bytes < kibi((k + 2) as nat)
                &&& #[trigger] rounds_to(bytes, kibi((k + 1) as nat), t)
                &&& human(bytes) == text::tenths(t) + " "@ + #[trigger] unit_names()[k]
            },
{
    reveal_with_fuel(kibi, 8);
    assert(kibi(1) == 0x400);
    assert(kibi(2) == 0x100000);
    assert(kibi(3) == 0x40000000);
    assert(kibi(4) == 0x10000000000);
    assert(kibi(5) == 0x4000000000000);
    assert(kibi(6) == 0x1000000000000000);
    if bytes >= 1024 {
        let (size, name) = unit_of(bytes);
        let k: int = if bytes < 0x100000 {
            0
        } else if bytes < 0x40000000 {
            1
        } else if bytes < 0x10000000000 {
            2
        } else if bytes < 0x4000000000000 {
            3
        } else if bytes < 0x1000000000000000 {
            4
        } else {
            5
        };
        let t = double::round_even(10 * bytes as nat, size);
        assert(name == unit_names()[k]);
        assert(size == kibi((k + 1) as nat));
        lemma_rounds(bytes, size, t);
    }
}

/// Rounding to even is rounding.
proof fn lemma_rounds(bytes: u64, unit: nat, t: nat)
    requires
        unit > 0,
        t == double::round_even(10 * bytes as nat, unit),
    ensures
        rounds_to(bytes, unit, t),
{
    let n: nat = 10 * bytes as nat;
    let q: nat = n / unit;
    let r: nat = n % unit;
    vstd::arithmetic::div_mod::lemma_fundamental_div_mod(n as int, unit as int);
    assert(n == unit * q + r && r < unit);
    assert(t == q || t == q + 1);
    assert(unit * q == q * unit && unit * (q + 1) == q * unit + unit) by (nonlinear_arith);
    assert(2 * t * unit == 2 * (t * unit)) by (nonlinear_arith);
    assert((q + 1) * unit == q * unit + unit) by (nonlinear_arith);
}

} // verus!
