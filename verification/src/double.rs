//! Nonnegative double-precision numbers, written as a significand and a power
//! of two, with the roundings that shares and percentages go through.

use vstd::arithmetic::power2::*;
use vstd::prelude::*;

verus! {

/// The number `mant * 2^exp`.
#[derive(Debug, Clone, Copy, PartialEq, Eq, Structural)]
pub struct Double {
    pub mant: u64,
    pub exp: i32,
}

/// The quotient rounded to the nearest integer, to the even one on a tie.
pub open spec fn round_even(n: nat, d: nat) -> nat {
    let q = n / d;
    let r = n % d;
    if 2 * r < d || (2 * r == d && q % 2 == 0) {
        q
    } else {
        q + 1
    }
}

/// The quotient rounded to the nearest integer, upwards on a tie.
pub open spec fn round_up(n: nat, d: nat) -> nat {
    let q = n / d;
    let r = n % d;
    if 2 * r < d {
        q
    } else {
        q + 1
    }
}

/// `2^e` for a positive exponent, else one.
pub open spec fn up(e: int) -> nat {
    if e > 0 {
        pow2(e as nat)
    } else {
        1
    }
}

/// `2^-e` for a negative exponent, else one.
pub open spec fn down(e: int) -> nat {
    if e < 0 {
        pow2((-e) as nat)
    } else {
        1
    }
}

/// Whether `n / d` scaled by `2^-e` has a 53-bit integer part.
pub open spec fn in_binade(n: nat, d: nat, e: int) -> bool {
    4503599627370496 * (d * up(e)) <= n * down(e) < 9007199254740992 * (d * up(e))
}

/// The double nearest to `n / d`, as significand and exponent: ties go to the
/// even significand.
pub open spec fn nearest(n: nat, d: nat) -> (nat, int) {
    if n == 0 {
        (0, 0)
    } else {
        let e = choose|e: int| in_binade(n, d, e);
        (round_even(n * down(e), d * up(e)), e)
    }
}

pub proof fn lemma_pow2_grows(a: nat, b: nat)
    requires
        a < b,
    ensures
        2 * pow2(a) <= pow2(b),
        pow2(a) >= 1,
    decreases b,
{
    lemma_pow2_pos(a);
    lemma_pow2_unfold(b);
    if a + 1 < b {
        lemma_pow2_grows(a, (b - 1) as nat);
    }
}

pub proof fn lemma_pow2_unfold_three(k: nat)
    ensures
        pow2(k + 1) == 2 * pow2(k),
        pow2(k + 2) == 4 * pow2(k),
        pow2(k + 3) == 8 * pow2(k),
        pow2(k + 5) == 32 * pow2(k),
{
    lemma_pow2_unfold(k + 5);
    lemma_pow2_unfold(k + 4);
    lemma_pow2_unfold(k + 3);
    lemma_pow2_unfold(k + 2);
    lemma_pow2_unfold(k + 1);
}

pub proof fn lemma_pow2_step8(k: nat)
    ensures
        pow2(k + 8) == 256 * pow2(k),
{
    lemma_pow2_unfold(k + 8);
    lemma_pow2_unfold(k + 7);
    lemma_pow2_unfold(k + 6);
    lemma_pow2_unfold(k + 5);
    lemma_pow2_unfold(k + 4);
    lemma_pow2_unfold(k + 3);
    lemma_pow2_unfold(k + 2);
    lemma_pow2_unfold(k + 1);
}

pub proof fn lemma_pow2_values()
    ensures
        pow2(0) == 1,
        pow2(58) == 288230376151711744,
        pow2(60) == 1152921504606846976,
        pow2(61) == 2305843009213693952,
        pow2(64) == 18446744073709551616,
        pow2(72) == 4722366482869645213696,
        pow2(112) == 5192296858534827628530496329220096,
        pow2(120) == 1329227995784915872903807060280344576,
{
    lemma2_to64();
    lemma2_to64_rest();
    lemma_pow2_step8(64);
    lemma_pow2_step8(72);
    lemma_pow2_step8(80);
    lemma_pow2_step8(88);
    lemma_pow2_step8(96);
    lemma_pow2_step8(104);
    lemma_pow2_step8(112);
}

proof fn lemma_binade_unique(n: nat, d: nat, a: int, b: int)
    requires
        d > 0,
        in_binade(n, d, a),
        in_binade(n, d, b),
    ensures
        a == b,
{
    if a < b {
        lemma_binade_less(n, d, a, b);
    }
    if b < a {
        lemma_binade_less(n, d, b, a);
    }
}

proof fn lemma_binade_less(n: nat, d: nat, a: int, b: int)
    requires
        d > 0,
        a < b,
        in_binade(n, d, a),
    ensures
        !in_binade(n, d, b),
{
    let ua = up(a) as int;
    let ub = up(b) as int;
    let da = down(a) as int;
    let db = down(b) as int;
    if b <= 0 {
        if b < 0 {
            lemma_pow2_grows((-b) as nat, (-a) as nat);
        } else {
            lemma_pow2_unfold((-a) as nat);
            lemma_pow2_pos((-a - 1) as nat);
        }
        assert(n * da >= 2 * (n * db)) by (nonlinear_arith)
            requires
                da >= 2 * db,
                n >= 0,
        ;
        assert(d * ua == d && d * ub == d) by (nonlinear_arith)
            requires
                ua == 1,
                ub == 1,
        ;
    } else if a >= 0 {
        if a > 0 {
            lemma_pow2_grows(a as nat, b as nat);
        } else {
            lemma_pow2_unfold(b as nat);
            lemma_pow2_pos((b - 1) as nat);
        }
        assert(d * ub >= 2 * (d * ua)) by (nonlinear_arith)
            requires
                ub >= 2 * ua,
                d > 0,
        ;
        assert(n * da == n && n * db == n) by (nonlinear_arith)
            requires
                da == 1,
                db == 1,
        ;
    } else {
        lemma_pow2_pos((-a) as nat);
        lemma_pow2_unfold(b as nat);
        lemma_pow2_pos((b - 1) as nat);
        assert(n * da >= n) by (nonlinear_arith)
            requires
                da >= 1,
                n >= 0,
        ;
        assert(d * ub >= 2 * d) by (nonlinear_arith)
            requires
                ub >= 2,
                d > 0,
        ;
        assert(n * db == n && d * ua == d) by (nonlinear_arith)
            requires
                db == 1,
                ua == 1,
        ;
    }
}

/// An exponent in whose binade a quotient lies is that of its double.
pub proof fn lemma_nearest_is(n: nat, d: nat, e: int)
    requires
        n > 0,
        d > 0,
        in_binade(n, d, e),
    ensures
        nearest(n, d) == (round_even(n * down(e), d * up(e)), e),
{
    let c = choose|c: int| in_binade(n, d, c);
    lemma_binade_unique(n, d, c, e);
}

proof fn lemma_zero_rounds(e: int)
    ensures
        round_even(0, down(e)) == 0,
        round_up(0, down(e)) == 0,
{
    if e < 0 {
        lemma_pow2_pos((-e) as nat);
    }
    let d = down(e);
    assert(0nat / d == 0 && 0nat % d == 0) by (nonlinear_arith)
        requires
            d > 0,
    ;
}

proof fn lemma_int_exponent(n: nat, e: int)
    requires
        0 < n <= u64::MAX,
        in_binade(n, 1, e),
    ensures
        -52 <= e <= 11,
{
    lemma2_to64();
    lemma2_to64_rest();
    if e > 11 {
        lemma_pow2_grows(11, e as nat);
        assert(n * down(e) == n) by (nonlinear_arith)
            requires
                down(e) == 1,
        ;
    }
    if e < -52 {
        lemma_pow2_grows(52, (-e) as nat);
        assert(n * down(e) >= down(e)) by (nonlinear_arith)
            requires
                n >= 1,
        ;
    }
}

proof fn lemma_product_exponent(n: nat, e: int)
    requires
        20282409603651670423947251286016 <= n <= 81129638414606681695789005144064,
        in_binade(n, 1, e),
    ensures
        52 <= e <= 54,
{
    lemma2_to64();
    lemma2_to64_rest();
    if e > 54 {
        lemma_pow2_grows(54, e as nat);
    }
    if 0 < e < 52 {
        if e < 51 {
            lemma_pow2_grows(e as nat, 51);
        }
    }
    if e < 0 {
        lemma_pow2_pos((-e) as nat);
        assert(n * down(e) >= n) by (nonlinear_arith)
            requires
                down(e) >= 1,
        ;
    }
    if e >= 0 {
        assert(n * down(e) == n) by (nonlinear_arith)
            requires
                down(e) == 1,
        ;
    }
}

proof fn lemma_quotient_exponent(n: nat, d: nat, e: int)
    requires
        4503599627370496 <= n <= 9007199254740992,
        4503599627370496 <= d <= 9007199254740992,
        in_binade(n, d, e),
    ensures
        -53 <= e <= -51,
{
    lemma2_to64();
    lemma2_to64_rest();
    if e > 0 {
        lemma_pow2_pos(e as nat);
        assert(d * up(e) >= d) by (nonlinear_arith)
            requires
                up(e) >= 1,
        ;
        assert(n * down(e) == n) by (nonlinear_arith)
            requires
                down(e) == 1,
        ;
    } else {
        assert(d * up(e) == d) by (nonlinear_arith)
            requires
                up(e) == 1,
        ;
        if e == 0 {
            assert(n * down(e) == n) by (nonlinear_arith)
                requires
                    down(e) == 1,
            ;
        } else if e > -51 {
            lemma_pow2_grows((-e) as nat, 51);
            assert(n * down(e) <= 9007199254740992 * 1125899906842624) by (nonlinear_arith)
                requires
                    0 <= n <= 9007199254740992,
                    0 <= down(e) <= 1125899906842624,
            ;
        } else if e < -53 {
            lemma_pow2_grows(53, (-e) as nat);
            assert(n * down(e) >= 4503599627370496 * 18014398509481984) by (nonlinear_arith)
                requires
                    n >= 4503599627370496,
                    down(e) >= 18014398509481984,
            ;
        }
    }
}

/// Rounds a quotient to the nearest integer, to the even one on a tie.
pub fn div_round_even(n: u128, d: u128) -> (r: u128)
    requires
        d > 0,
    ensures
        r == round_even(n as nat, d as nat),
{
    let q: u128 = n / d;
    let r: u128 = n % d;
    if r < d - r || (r == d - r && q % 2 == 0) {
        q
    } else {
        assert(d >= 2);
        assert(n / d <= n / 2) by (nonlinear_arith)
            requires
                d >= 2,
                n >= 0,
        ;
        q + 1
    }
}

/// Rounds a quotient to the nearest integer, upwards on a tie.
pub fn div_round_up(n: u128, d: u128) -> (r: u128)
    requires
        d > 0,
    ensures
        r == round_up(n as nat, d as nat),
{
    let q: u128 = n / d;
    let r: u128 = n % d;
    if r < d - r {
        q
    } else {
        assert(d >= 2);
        assert(n / d <= n / 2) by (nonlinear_arith)
            requires
                d >= 2,
                n >= 0,
        ;
        q + 1
    }
}

/// The largest numerator that [`round_ratio`] takes: `2^110`.
pub const NUM_LIMIT: u128 = 1298074214633706907132624082305024;

/// The largest denominator that [`round_ratio`] takes: `2^64`.
pub const DEN_LIMIT: u128 = 18446744073709551616;

/// The double nearest to a quotient.
pub fn round_ratio(n: u128, d: u128) -> (x: Double)
    requires
        n <= NUM_LIMIT,
        0 < d <= DEN_LIMIT,
    ensures
        x.mant == nearest(n as nat, d as nat).0,
        x.exp == nearest(n as nat, d as nat).1,
        x.wf(),
        n > 0 <==> x.mant > 0,
        -120 <= x.exp <= 60,
        n > 0 ==> in_binade(n as nat, d as nat, x.exp as int),
{
    if n == 0 {
        return Double { mant: 0, exp: 0 };
    }
    let mut num: u128 = n;
    let mut den: u128 = d;
    let mut e: i32 = 0;
    let ghost mut k: nat = 0;
    proof {
        lemma_pow2_values();
    }
    if n >= 4503599627370496 * d {
        while num >= 9007199254740992 * den
            invariant
                num == n,
                0 < n <= NUM_LIMIT,
                0 < d <= DEN_LIMIT,
                e == k,
                0 <= k <= 58,
                den == d * pow2(k),
                4503599627370496 * den <= num,
                pow2(k) <= den,
            decreases 200 - k,
        {
            proof {
                lemma_pow2_values();
                lemma_pow2_unfold(k + 1);
                assert(d * pow2(k + 1) == 2 * (d * pow2(k))) by (nonlinear_arith)
                    requires
                        pow2(k + 1) == 2 * pow2(k),
                ;
                if k == 58 {
                    assert(false);
                }
            }
            den = den * 2;
            e = e + 1;
            proof {
                k = k + 1;
            }
        }
        proof {
            assert(n * down(e as int) == n) by (nonlinear_arith)
                requires
                    down(e as int) == 1,
            ;
        }
    } else {
        while num < 4503599627370496 * den
            invariant
                den == d,
                0 < n <= NUM_LIMIT,
                0 < d <= DEN_LIMIT,
                e == -k,
                0 <= k <= 120,
                num == n * pow2(k),
                num >= pow2(k),
                num < 9007199254740992 * den,
            decreases 200 - k,
        {
            proof {
                lemma_pow2_values();
                lemma_pow2_unfold(k + 1);
                assert(n * pow2(k + 1) == 2 * (n * pow2(k))) by (nonlinear_arith)
                    requires
                        pow2(k + 1) == 2 * pow2(k),
                ;
                if k == 120 {
                    assert(false);
                }
            }
            num = num * 2;
            e = e - 1;
            proof {
                k = k + 1;
            }
        }
        proof {
            assert(d * up(e as int) == d) by (nonlinear_arith)
                requires
                    up(e as int) == 1,
            ;
        }
    }
    proof {
        assert(n * down(e as int) == num);
        assert(d * up(e as int) == den);
        assert(in_binade(n as nat, d as nat, e as int));
        let c = choose|c: int| in_binade(n as nat, d as nat, c);
        lemma_binade_unique(n as nat, d as nat, c, e as int);
        assert(4503599627370496 <= num / den < 9007199254740992) by (nonlinear_arith)
            requires
                4503599627370496 * den <= num < 9007199254740992 * den,
                den > 0,
        ;
    }
    let m: u128 = div_round_even(num, den);
    Double { mant: m as u64, exp: e }
}

/// The number zero.
pub open spec fn zero() -> Double {
    Double { mant: 0, exp: 0 }
}

/// The number one.
pub open spec fn one() -> Double {
    Double { mant: 4503599627370496, exp: -52i32 }
}

/// A significand and an exponent as a number, shifted by a power of two.
pub open spec fn made(r: (nat, int), shift: int) -> Double {
    Double { mant: r.0 as u64, exp: (r.1 + shift) as i32 }
}

/// An integer, rounded.
pub open spec fn int_double(n: nat) -> Double {
    made(nearest(n, 1), 0)
}

/// The product of two numbers, rounded.
pub open spec fn product(a: Double, b: Double) -> Double {
    made(nearest(a.mant as nat * b.mant as nat, 1), a.exp + b.exp)
}

/// The quotient of two numbers, rounded.
pub open spec fn quotient(a: Double, b: Double) -> Double {
    made(nearest(a.mant as nat, b.mant as nat), a.exp - b.exp)
}

impl Double {
    /// Whether the number is zero or normalized, with an exponent that the
    /// operations here never leave.
    pub open spec fn wf(&self) -> bool {
        &&& -1000 <= self.exp <= 1000
        &&& self.mant == 0 || 4503599627370496 <= self.mant <= 9007199254740992
    }

    /// Rounds an integer.
    pub fn of_int(n: u64) -> (x: Double)
        ensures
            x == int_double(n as nat),
            x.mant == nearest(n as nat, 1).0,
            x.wf(),
            -52 <= x.exp <= 11,
            n > 0 <==> x.mant > 0,
            n > 0 ==> in_binade(n as nat, 1, x.exp as int),
    {
        let x = round_ratio(n as u128, 1);
        proof {
            if n > 0 {
                lemma_int_exponent(n as nat, x.exp as int);
            }
        }
        x
    }

    /// The product of two numbers, rounded.
    pub fn mul(&self, other: &Double) -> (x: Double)
        requires
            self.wf(),
            other.wf(),
            -1000 <= self.exp + other.exp <= 900,
        ensures
            x == product(*self, *other),
            x.wf(),
            self.mant > 0 && other.mant > 0 ==> x.mant > 0 && 52 <= x.exp - (self.exp + other.exp)
                <= 54,
            self.mant == 0 || other.mant == 0 ==> x.mant == 0 && x.exp == self.exp + other.exp,
    {
        assert(0 <= self.mant * other.mant <= 9007199254740992 * 9007199254740992) by (nonlinear_arith)
            requires
                0 <= self.mant <= 9007199254740992,
                0 <= other.mant <= 9007199254740992,
        ;
        let p: u128 = self.mant as u128 * other.mant as u128;
        proof {
            if self.mant == 0 || other.mant == 0 {
                assert(p == 0) by (nonlinear_arith)
                    requires
                        p == self.mant * other.mant,
                        self.mant == 0 || other.mant == 0,
                ;
            } else {
                assert(20282409603651670423947251286016 <= p) by (nonlinear_arith)
                    requires
                        p == self.mant * other.mant,
                        4503599627370496 <= self.mant,
                        4503599627370496 <= other.mant,
                ;
            }
        }
        let x = round_ratio(p, 1);
        proof {
            if p > 0 {
                lemma_product_exponent(p as nat, x.exp as int);
            }
        }
        Double { mant: x.mant, exp: x.exp + self.exp + other.exp }
    }

    /// The quotient of two numbers, rounded.
    pub fn div(&self, other: &Double) -> (x: Double)
        requires
            self.wf(),
            other.wf(),
            other.mant > 0,
            -900 <= self.exp - other.exp <= 1000,
        ensures
            x == quotient(*self, *other),
            x.wf(),
            self.mant > 0 ==> -53 <= x.exp - (self.exp - other.exp) <= -51,
            self.mant > 0 <==> x.mant > 0,
    {
        let x = round_ratio(self.mant as u128, other.mant as u128);
        proof {
            if self.mant > 0 {
                lemma_quotient_exponent(self.mant as nat, other.mant as nat, x.exp as int);
            }
        }
        Double { mant: x.mant, exp: x.exp + self.exp - other.exp }
    }

    /// The number times `k`, rounded to an integer, to the even one on a tie.
    pub open spec fn times_to_even(&self, k: nat) -> nat {
        round_even(self.mant as nat * k * up(self.exp as int), down(self.exp as int))
    }

    /// The number rounded to an integer, upwards on a tie.
    pub open spec fn to_int_up(&self) -> nat {
        round_up(self.mant as nat * up(self.exp as int), down(self.exp as int))
    }

    /// Multiplies by `k` and rounds to an integer, to the even one on a tie.
    /// The product itself is not rounded first.
    pub fn round_times(&self, k: u64) -> (r: u128)
        requires
            self.wf(),
            self.mant == 0 || self.exp <= 60,
            0 < k <= 1000,
        ensures
            r == self.times_to_even(k as nat),
    {
        if self.mant == 0 {
            proof {
                lemma_zero_rounds(self.exp as int);
                assert(0 * k == 0);
                assert(0 * up(self.exp as int) == 0);
            }
            return 0;
        }
        let e: i32 = self.exp;
        assert(0 <= self.mant * k <= 9007199254740992000) by (nonlinear_arith)
            requires
                0 <= self.mant <= 9007199254740992,
                0 < k <= 1000,
        ;
        let n: u128 = self.mant as u128 * k as u128;
        if e < -70 {
            proof {
                lemma_small_round(n as nat, (-e) as nat);
                assert(n * up(e as int) == n) by (nonlinear_arith)
                    requires
                        up(e as int) == 1,
                ;
            }
            return 0;
        }
        let scaled = scale(n, e);
        div_round_even(scaled.0, scaled.1)
    }

    /// Rounds to an integer, upwards on a tie.
    pub fn round_int_up(&self) -> (r: u128)
        requires
            self.wf(),
            self.mant == 0 || self.exp <= 60,
        ensures
            r == self.to_int_up(),
    {
        if self.mant == 0 {
            proof {
                lemma_zero_rounds(self.exp as int);
                assert(0 * up(self.exp as int) == 0);
            }
            return 0;
        }
        let e: i32 = self.exp;
        let n: u128 = self.mant as u128;
        if e < -70 {
            proof {
                lemma_small_round(n as nat, (-e) as nat);
                assert(n * up(e as int) == n) by (nonlinear_arith)
                    requires
                        up(e as int) == 1,
                ;
            }
            return 0;
        }
        let scaled = scale(n, e);
        div_round_up(scaled.0, scaled.1)
    }

    /// Whether the number exceeds one.
    pub open spec fn above_one(&self) -> bool {
        self.mant as nat * up(self.exp as int) > down(self.exp as int)
    }

    /// Tests whether the number exceeds one.
    pub fn exceeds_one(&self) -> (r: bool)
        requires
            self.wf(),
        ensures
            r == self.above_one(),
    {
        let e: i32 = self.exp;
        proof {
            lemma_pow2_values();
        }
        if self.mant == 0 {
            proof {
                if e > 0 {
                    lemma_pow2_pos(e as nat);
                }
                if e < 0 {
                    lemma_pow2_pos((-e) as nat);
                }
                assert(0 * up(e as int) == 0);
            }
            return false;
        }
        if e >= 0 {
            proof {
                if e > 0 {
                    lemma_pow2_pos(e as nat);
                }
                assert(self.mant * up(e as int) >= self.mant) by (nonlinear_arith)
                    requires
                        up(e as int) >= 1,
                        self.mant >= 0,
                ;
            }
            return true;
        }
        proof {
            assert(self.mant * up(e as int) == self.mant) by (nonlinear_arith)
                requires
                    up(e as int) == 1,
            ;
        }
        if e < -60 {
            proof {
                lemma_pow2_grows(60, (-e) as nat);
            }
            return false;
        }
        let scaled = scale(1, -e);
        proof {
            assert(1 * up(-e as int) == up(-e as int));
        }
        (self.mant as u128) > scaled.0
    }
}

proof fn lemma_round_even_at_most(n: nat, d: nat, b: nat)
    requires
        d > 0,
        n <= b * d,
    ensures
        round_even(n, d) <= b,
{
    let q = n / d;
    let r = n % d;
    assert(n == q * d + r && 0 <= r < d) by (nonlinear_arith)
        requires
            d > 0,
            q == n / d,
            r == n % d,
    ;
    if q >= b {
        assert(q == b && r == 0) by (nonlinear_arith)
            requires
                n == q * d + r,
                n <= b * d,
                q >= b,
                0 <= r,
                d > 0,
        ;
    }
}

proof fn lemma_round_up_at_most(n: nat, d: nat, b: nat)
    requires
        d > 0,
        n <= b * d,
    ensures
        round_up(n, d) <= b,
{
    let q = n / d;
    let r = n % d;
    assert(n == q * d + r && 0 <= r < d) by (nonlinear_arith)
        requires
            d > 0,
            q == n / d,
            r == n % d,
    ;
    if q >= b {
        assert(q == b && r == 0) by (nonlinear_arith)
            requires
                n == q * d + r,
                n <= b * d,
                q >= b,
                0 <= r,
                d > 0,
        ;
    }
}

/// An integer below `2^52` is its own double: its significand is it times a
/// power of two.
proof fn lemma_int_exact(units: nat, u: Double)
    requires
        0 < units < 4503599627370496,
        in_binade(units, 1, u.exp as int),
        u.mant == nearest(units, 1).0,
    ensures
        u.exp < 0,
        u.mant == units * pow2((-u.exp) as nat),
{
    let e = u.exp as int;
    lemma_nearest_is(units, 1, e);
    if e >= 0 {
        if e > 0 {
            lemma_pow2_pos(e as nat);
        }
        assert(units * down(e) == units) by (nonlinear_arith)
            requires
                down(e) == 1,
        ;
    }
    assert(units * down(e) == units * pow2((-e) as nat));
    let n = units * down(e);
    assert(n / 1 == n && n % 1 == 0);
}

/// A share of at most one, of an integer number of units, rounds to at most
/// that number.
pub proof fn lemma_product_at_most(x: Double, u: Double, p: Double, units: nat)
    requires
        x.wf(),
        x.mant > 0,
        !x.above_one(),
        0 < units < 4503599627370496,
        u.wf(),
        u.mant == nearest(units, 1).0,
        in_binade(units, 1, u.exp as int),
        p == product(x, u),
        -900 <= x.exp,
    ensures
        p.to_int_up() <= units,
{
    lemma_int_exact(units, u);
    lemma_pow2_values();
    lemma2_to64_rest();
    let k = -x.exp;
    let j = -u.exp;
    if x.exp >= 0 {
        if x.exp > 0 {
            lemma_pow2_pos(x.exp as nat);
        }
        assert(x.mant * up(x.exp as int) >= x.mant) by (nonlinear_arith)
            requires
                up(x.exp as int) >= 1,
        ;
    }
    assert(x.mant * up(x.exp as int) == x.mant) by (nonlinear_arith)
        requires
            up(x.exp as int) == 1,
    ;
    let pk = pow2(k as nat);
    let pj = pow2(j as nat);
    assert(x.mant <= pk);
    assert(u.mant > 0) by {
        lemma_pow2_pos(j as nat);
        assert(units * pj > 0) by (nonlinear_arith)
            requires
                units > 0,
                pj > 0,
        ;
    }
    let n = x.mant as nat * u.mant as nat;
    assert(20282409603651670423947251286016 <= n <= 81129638414606681695789005144064)
        by (nonlinear_arith)
        requires
            n == x.mant * u.mant,
            4503599627370496 <= x.mant <= 9007199254740992,
            4503599627370496 <= u.mant <= 9007199254740992,
    ;
    let e = lemma_has_binade(n);
    lemma_product_exponent(n, e);
    lemma_nearest_is(n, 1, e);
    assert(n * down(e) == n) by (nonlinear_arith)
        requires
            down(e) == 1,
    ;
    let pe = pow2(e as nat);
    assert(1 * up(e) == pe);
    assert(u.mant < 9007199254740992) by {
        lemma_int_mant(units, u);
    }
    assert(e <= k) by {
        if e > k {
            lemma_pow2_grows(k as nat, e as nat);
            assert(n < 9007199254740992 * pk) by (nonlinear_arith)
                requires
                    n == x.mant * u.mant,
                    x.mant <= pk,
                    0 < u.mant < 9007199254740992,
                    0 < x.mant,
            ;
        }
    }
    let pd = pow2((k - e) as nat);
    lemma_pow2_adds((k - e) as nat, e as nat);
    lemma_pow2_adds((k - e) as nat, j as nat);
    assert((k - e) as nat + e as nat == k as nat);
    let pq = pow2((k - e) as nat + j as nat);
    let b = pd * u.mant as nat;
    assert(n <= b * pe) by (nonlinear_arith)
        requires
            n == x.mant * u.mant,
            x.mant <= pk,
            pk == pd * pe,
            b == pd * u.mant,
    ;
    lemma_round_even_at_most(n, pe, b);
    let m = round_even(n, pe);
    assert(b == units * pq) by (nonlinear_arith)
        requires
            b == pd * u.mant,
            u.mant == units * pj,
            pq == pd * pj,
    ;
    let q = n / pe;
    assert(q <= 9007199254740992) by (nonlinear_arith)
        requires
            q == n / pe,
            n < 9007199254740992 * pe,
            pe > 0,
    ;
    assert(p.mant == m);
    let f = e + x.exp + u.exp;
    assert(p.exp == f);
    assert(down(f) == pq) by {
        if f == 0 {
            assert(pq == pow2(0));
        }
    }
    assert(m * up(f) == m) by (nonlinear_arith)
        requires
            up(f) == 1,
    ;
    lemma_pow2_pos((k - e) as nat + j as nat);
    lemma_round_up_at_most(m, pq, units);
}

proof fn lemma_int_mant(units: nat, u: Double)
    requires
        0 < units < 4503599627370496,
        in_binade(units, 1, u.exp as int),
        u.mant == units * pow2((-u.exp) as nat),
        u.exp < 0,
    ensures
        u.mant < 9007199254740992,
{
}

/// A product of two significands lies in some binade.
proof fn lemma_has_binade(n: nat) -> (e: int)
    requires
        20282409603651670423947251286016 <= n <= 81129638414606681695789005144064,
    ensures
        in_binade(n, 1, e),
{
    lemma2_to64_rest();
    let e: int = if n < 9007199254740992 * 4503599627370496 {
        52
    } else if n < 9007199254740992 * 9007199254740992 {
        53
    } else {
        54
    };
    assert(n * down(e) == n) by (nonlinear_arith)
        requires
            down(e) == 1,
    ;
    e
}

/// A number of at most one has an exponent far below zero.
pub proof fn lemma_above_one_from_exponent(x: Double)
    requires
        x.wf(),
        !x.above_one(),
    ensures
        x.mant > 0 ==> x.exp <= -52,
{
    if x.mant > 0 && x.exp > -52 {
        lemma2_to64_rest();
        if x.exp > 0 {
            lemma_pow2_pos(x.exp as nat);
        }
        assert(x.mant * up(x.exp as int) >= x.mant) by (nonlinear_arith)
            requires
                up(x.exp as int) >= 1,
        ;
        if x.exp < 0 {
            lemma_pow2_strictly_increases((-x.exp) as nat, 52);
        }
    }
}

/// Zero rounds to zero.
pub proof fn lemma_zero_to_int(x: Double)
    ensures
        x.mant == 0 ==> x.to_int_up() == 0,
{
    lemma_zero_rounds(x.exp as int);
    assert(0 * up(x.exp as int) == 0);
}

/// One does not exceed one, and neither does zero.
pub proof fn lemma_one_is_not_above()
    ensures
        !one().above_one(),
        !zero().above_one(),
{
    lemma2_to64_rest();
    assert(4503599627370496 * up(-52) == 4503599627370496);
    assert(0 * up(0) == 0);
}

/// `n * 2^e` as numerator and denominator.
fn scale(n: u128, e: i32) -> (r: (u128, u128))
    requires
        n <= 9007199254740992000,
        -70 <= e <= 60,
    ensures
        r.0 == n as nat * up(e as int),
        r.1 == down(e as int),
        r.1 > 0,
{
    let mut num: u128 = n;
    let mut den: u128 = 1;
    let mut i: i32 = 0;
    proof {
        lemma_pow2_values();
        assert(n * pow2(0) == n) by (nonlinear_arith)
            requires
                pow2(0) == 1,
        ;
    }
    if e >= 0 {
        while i < e
            invariant
                0 <= i <= e <= 60,
                n <= 9007199254740992000,
                num == n * pow2(i as nat),
                den == 1,
            decreases e - i,
        {
            proof {
                lemma_pow2_values();
                lemma_pow2_unfold((i + 1) as nat);
                lemma_pow2_grows(i as nat, 61);
                assert(n * pow2((i + 1) as nat) == 2 * (n * pow2(i as nat))) by (nonlinear_arith)
                    requires
                        pow2((i + 1) as nat) == 2 * pow2(i as nat),
                ;
                assert(n * pow2(i as nat) <= 9007199254740992000 * 2305843009213693952)
                    by (nonlinear_arith)
                    requires
                        0 <= n <= 9007199254740992000,
                        0 <= pow2(i as nat) <= 2305843009213693952,
                ;
            }
            num = num * 2;
            i = i + 1;
        }
        (num, den)
    } else {
        let m: i32 = -e;
        while i < m
            invariant
                0 <= i <= m <= 70,
                num == n,
                den == pow2(i as nat),
                den > 0,
            decreases m - i,
        {
            proof {
                lemma_pow2_unfold((i + 1) as nat);
                lemma_pow2_grows(i as nat, 72);
                lemma_pow2_values();
            }
            den = den * 2;
            i = i + 1;
        }
        proof {
            assert(n * up(e as int) == n) by (nonlinear_arith)
                requires
                    up(e as int) == 1,
            ;
        }
        (num, den)
    }
}

proof fn lemma_small_round(n: nat, k: nat)
    requires
        n <= 9007199254740992000,
        k >= 70,
    ensures
        round_even(n, pow2(k)) == 0,
        round_up(n, pow2(k)) == 0,
{
    lemma_pow2_values();
    if k > 64 {
        lemma_pow2_grows(64, k);
    }
    assert(n / pow2(k) == 0 && n % pow2(k) == n) by (nonlinear_arith)
        requires
            n < pow2(k),
    ;
}

/// Rounding to the nearest double stays within half a unit of the last place, and the
/// result is normal.
pub proof fn law_nearest_is_within_half_a_unit(n: nat, d: nat, e: int)
    requires
        n > 0,
        d > 0,
        in_binade(n, d, e),
    ensures
        ({
            let (m, at) = nearest(n, d);
            &&& at == e
            &&& 4503599627370496 <= m <= 9007199254740992
            &&& 2 * (m * (d * up(e))) <= 2 * (n * down(e)) + d * up(e)
            &&& 2 * (n * down(e)) <= 2 * (m * (d * up(e))) + d * up(e)
        }),
{
    lemma_nearest_is(n, d, e);
    let a = n * down(e);
    let b = d * up(e);
    let q = a / b;
    let r = a % b;
    let m = round_even(a, b);
    assert(up(e) > 0) by {
        if e > 0 {
            lemma_pow2_pos(e as nat);
        }
    }
    assert(b > 0) by (nonlinear_arith)
        requires
            b == d * up(e),
            d > 0,
            up(e) > 0,
    ;
    vstd::arithmetic::div_mod::lemma_fundamental_div_mod(a as int, b as int);
    assert(b * q == q * b && (q + 1) * b == q * b + b) by (nonlinear_arith);
    assert(m == q || m == q + 1);
    assert(q >= 4503599627370496) by (nonlinear_arith)
        requires
            4503599627370496 * b <= a,
            a == b * q + r,
            0 <= r < b,
    ;
    assert(q < 9007199254740992) by (nonlinear_arith)
        requires
            a < 9007199254740992 * b,
            a == b * q + r,
            0 <= r < b,
    ;
}

/// Rounding to an integer moves by half at most: to the even one on a tie, or up.
pub proof fn law_rounding_moves_by_half(n: nat, d: nat)
    requires
        d > 0,
    ensures
        2 * (round_even(n, d) * d) <= 2 * n + d,
        2 * n <= 2 * (round_even(n, d) * d) + d,
        2 * (round_up(n, d) * d) <= 2 * n + d,
        2 * n < 2 * (round_up(n, d) * d) + d,
        2 * n == 2 * (round_even(n, d) * d) + d || 2 * (round_even(n, d) * d) == 2 * n + d
            ==> round_even(n, d) % 2 == 0,
{
    let q = n / d;
    let r = n % d;
    vstd::arithmetic::div_mod::lemma_fundamental_div_mod(n as int, d as int);
    assert(d * q == q * d && (q + 1) * d == q * d + d) by (nonlinear_arith);
}

} // verus!
