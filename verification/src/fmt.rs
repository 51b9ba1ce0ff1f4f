//! Ages, durations, shortened paths and the arithmetic of the disk gauge.

use crate::double;
use crate::double::{round_ratio, Double};
use crate::text;
use crate::text::{chars_of, copy_str, push_dec, push_tenths, string_of};
use vstd::arithmetic::power2::*;
use vstd::prelude::*;
use vstd::string::*;

verus! {

/// Disk space of the filesystem that holds the scan root.
#[derive(Debug, Clone, Copy, PartialEq, Eq, Structural)]
pub struct DiskSpace {
    pub capacity: u64,
    pub used: u64,
    /// Whether the mount compresses transparently.
    pub compressed: bool,
}

/// How much of the occupied space a scan accounts for.
#[derive(Debug, Clone, Copy, PartialEq, Eq, Structural)]
pub enum Coverage {
    /// No occupied space to compare with.
    Unknown,
    /// This share of the occupied space, at most all of it.
    Fraction(Double),
    /// The scan's sizes exceed the occupied space.
    Exceeds { compressed: bool },
}

/// The share `a / b` as the nearest double of the nearest doubles.
pub open spec fn share(a: u64, b: u64) -> Double {
    double::quotient(double::int_double(a as nat), double::int_double(b as nat))
}

/// The exponents that shares of 64-bit counts stay within.
pub open spec fn share_bounds(x: Double) -> bool {
    -120 <= x.exp <= 70 && (x.mant == 0 || x.exp <= 12)
}

/// The share `a / b`.
pub fn share_of(a: u64, b: u64) -> (x: Double)
    requires
        b > 0,
    ensures
        x == share(a, b),
        x.wf(),
        share_bounds(x),
        a > 0 <==> x.mant > 0,
{
    let n = Double::of_int(a);
    let d = Double::of_int(b);
    n.div(&d)
}

/// A share as a whole percentage: the product with a hundred rounded, then
/// rounded to an integer.
pub open spec fn percent(x: Double) -> nat {
    double::product(x, double::int_double(100)).times_to_even(1)
}

/// A number, or the largest machine integer below it.
pub open spec fn capped(n: int) -> int {
    if n <= u64::MAX {
        n
    } else {
        u64::MAX as int
    }
}

fn capped_product(a: u64, b: u64) -> (r: u64)
    ensures
        r == capped(a * b),
{
    assert(0 <= a * b <= 0xffff_ffff_ffff_ffff * 0xffff_ffff_ffff_ffff) by (nonlinear_arith)
        requires
            0 <= a <= 0xffff_ffff_ffff_ffff,
            0 <= b <= 0xffff_ffff_ffff_ffff,
    ;
    let p: u128 = a as u128 * b as u128;
    if p <= u64::MAX as u128 {
        p as u64
    } else {
        u64::MAX
    }
}

impl DiskSpace {
    /// The space of a file system from its blocks: what is not free is used.
    /// Sizes beyond the machine's integers count as the largest one.
    pub fn of_blocks(blocks: u64, free_blocks: u64, block_size: u64, compressed: bool) -> (d: DiskSpace)
        ensures
            d.capacity == capped(blocks * block_size),
            d.used == if d.capacity >= capped(free_blocks * block_size) {
                d.capacity - capped(free_blocks * block_size)
            } else {
                0
            },
            d.compressed == compressed,
    {
        let capacity: u64 = capped_product(blocks, block_size);
        let free: u64 = capped_product(free_blocks, block_size);
        let used: u64 = if capacity >= free {
            capacity - free
        } else {
            0
        };
        DiskSpace { capacity, used, compressed }
    }

    /// The share of the capacity that is occupied, at most one; zero where
    /// there is no capacity.
    pub open spec fn used_share(&self) -> Double {
        if self.capacity == 0 {
            double::zero()
        } else if share(self.used, self.capacity).above_one() {
            double::one()
        } else {
            share(self.used, self.capacity)
        }
    }

    /// The share of the capacity that is occupied.
    pub fn used_fraction(&self) -> (x: Double)
        ensures
            x == self.used_share(),
            x.wf(),
            share_bounds(x),
            !x.above_one(),
    {
        if self.capacity == 0 {
            let z = Double { mant: 0, exp: 0 };
            assert(0 * double::up(0) == 0);
            return z;
        }
        let x = share_of(self.used, self.capacity);
        if x.exceeds_one() {
            proof {
                lemma2_to64_rest();
                assert(4503599627370496 * double::up(-52) == 4503599627370496);
            }
            Double { mant: 4503599627370496, exp: -52 }
        } else {
            x
        }
    }

    /// How much of the occupied space `scan` bytes account for.
    pub open spec fn covers(&self, scan: u64) -> Coverage {
        if self.used == 0 {
            Coverage::Unknown
        } else if scan > self.used {
            Coverage::Exceeds { compressed: self.compressed }
        } else {
            Coverage::Fraction(share(scan, self.used))
        }
    }

    /// Classifies how much of the occupied space a scan accounts for.
    pub fn coverage(&self, scan_disk_bytes: u64) -> (c: Coverage)
        ensures
            c == self.covers(scan_disk_bytes),
            c matches Coverage::Fraction(f) ==> f.wf() && share_bounds(f),
    {
        if self.used == 0 {
            return Coverage::Unknown;
        }
        if scan_disk_bytes > self.used {
            return Coverage::Exceeds { compressed: self.compressed };
        }
        Coverage::Fraction(share_of(scan_disk_bytes, self.used))
    }

    /// The covered part of the gauge: nothing where the coverage is unknown,
    /// all of the occupied region where the scan exceeds it.
    pub open spec fn covered_share(&self, scan: u64) -> Double {
        match self.covers(scan) {
            Coverage::Unknown => double::zero(),
            Coverage::Fraction(f) => f,
            Coverage::Exceeds { .. } => double::one(),
        }
    }

    /// The covered part of the gauge.
    pub fn coverage_bar_fraction(&self, scan_disk_bytes: u64) -> (x: Double)
        ensures
            x == self.covered_share(scan_disk_bytes),
            x.wf(),
            share_bounds(x),
    {
        match self.coverage(scan_disk_bytes) {
            Coverage::Unknown => Double { mant: 0, exp: 0 },
            Coverage::Fraction(f) => f,
            Coverage::Exceeds { .. } => Double { mant: 4503599627370496, exp: -52 },
        }
    }

    /// The gauge's caption. Spanning several filesystems wins over every
    /// coverage.
    pub open spec fn caption(&self, scan: u64, devices: usize) -> Seq<char> {
        if devices > 1 {
            "spans "@ + text::dec(devices as nat)
                + " filesystems · gauge shows the scan root's"@
        } else {
            match self.covers(scan) {
                Coverage::Fraction(f) => "this scan covers "@ + text::dec(percent(f)) + "% of used"@,
                Coverage::Exceeds { compressed } => if compressed {
                    "scan logical exceeds on-disk (compressed mount)"@
                } else {
                    "scan exceeds used (changed mid-scan)"@
                },
                Coverage::Unknown => "coverage unavailable"@,
            }
        }
    }

    /// The gauge's coverage caption.
    pub fn coverage_caption(&self, scan_disk_bytes: u64, device_count: usize) -> (s: String)
        ensures
            s@ == self.caption(scan_disk_bytes, device_count),
    {
        let mut s = String::new();
        if device_count > 1 {
            s.append("spans ");
            push_dec(&mut s, device_count as u128);
            s.append(" filesystems · gauge shows the scan root's");
            assert(s@ =~= self.caption(scan_disk_bytes, device_count));
            return s;
        }
        match self.coverage(scan_disk_bytes) {
            Coverage::Fraction(f) => {
                s.append("this scan covers ");
                push_dec(&mut s, percent_of(f));
                s.append("% of used");
            },
            Coverage::Exceeds { compressed } => {
                if compressed {
                    s.append("scan logical exceeds on-disk (compressed mount)");
                } else {
                    s.append("scan exceeds used (changed mid-scan)");
                }
            },
            Coverage::Unknown => {
                s.append("coverage unavailable");
            },
        }
        assert(s@ =~= self.caption(scan_disk_bytes, device_count));
        s
    }
}

/// A share as a whole percentage.
pub fn percent_of(x: Double) -> (p: u128)
    requires
        x.wf(),
        share_bounds(x),
    ensures
        p == percent(x),
{
    let hundred = Double::of_int(100);
    proof {
        lemma_hundred();
    }
    x.mul(&hundred).round_times(1)
}

/// The double of a hundred.
pub proof fn lemma_hundred()
    ensures
        double::int_double(100) == (Double { mant: 7036874417766400, exp: -46i32 }),
{
    lemma2_to64_rest();
    assert(double::down(-46) == 70368744177664);
    assert(double::in_binade(100, 1, -46));
    double::lemma_nearest_is(100, 1, -46);
}

/// The age of a time, in coarse units; a time to come is called out.
pub open spec fn age(delta: int) -> Seq<char> {
    if delta < 0 {
        "in the future"@
    } else if delta < 5 {
        "just now"@
    } else if delta < 60 {
        text::dec(delta as nat) + "s ago"@
    } else if delta < 3600 {
        text::dec((delta / 60) as nat) + " min ago"@
    } else if delta < 86400 {
        text::dec((delta / 3600) as nat) + " h ago"@
    } else if delta < 2592000 {
        text::dec((delta / 86400) as nat) + " days ago"@
    } else if delta < 31536000 {
        text::dec((delta / 2592000) as nat) + " months ago"@
    } else {
        text::dec((delta / 31536000) as nat) + " years ago"@
    }
}

/// How long ago a time was.
pub fn humanize_age(now_secs: i64, mtime_secs: i64) -> (s: String)
    ensures
        s@ == age(now_secs - mtime_secs),
{
    let mut s = String::new();
    let delta: i128 = now_secs as i128 - mtime_secs as i128;
    if delta < 0 {
        s.append("in the future");
    } else if delta < 5 {
        s.append("just now");
    } else {
        let d: u128 = delta as u128;
        if d < 60 {
            push_dec(&mut s, d);
            s.append("s ago");
        } else if d < 3600 {
            push_dec(&mut s, d / 60);
            s.append(" min ago");
        } else if d < 86400 {
            push_dec(&mut s, d / 3600);
            s.append(" h ago");
        } else if d < 2592000 {
            push_dec(&mut s, d / 86400);
            s.append(" days ago");
        } else if d < 31536000 {
            push_dec(&mut s, d / 2592000);
            s.append(" months ago");
        } else {
            push_dec(&mut s, d / 31536000);
            s.append(" years ago");
        }
    }
    assert(s@ =~= age(now_secs - mtime_secs));
    s
}

/// A time in seconds as a double: the fraction of a second rounded, then the
/// sum with the whole seconds rounded.
pub open spec fn seconds_double(nanos: nat) -> Double {
    let q = double::nearest(nanos % 1_000_000_000, 1_000_000_000);
    double::made(double::nearest(nanos / 1_000_000_000 * double::down(q.1) + q.0, 1), q.1)
}

/// A time for people: seconds with one decimal below a minute, else minutes and
/// seconds.
pub open spec fn duration_text(nanos: nat) -> Seq<char> {
    let secs = nanos / 1_000_000_000;
    if secs < 60 {
        text::tenths(seconds_double(nanos).times_to_even(10)) + "s"@
    } else {
        text::dec(secs / 60) + "m "@ + seq![text::digit(secs % 60 / 10)] + seq![
            text::digit(secs % 60 % 10),
        ] + "s"@
    }
}

fn pow_two(k: i32) -> (r: u128)
    requires
        0 <= k <= 100,
    ensures
        r == pow2(k as nat),
        r <= pow2(100),
{
    let mut r: u128 = 1;
    let mut i: i32 = 0;
    proof {
        lemma2_to64();
        double::lemma_pow2_values();
    }
    while i < k
        invariant
            0 <= i <= k <= 100,
            r == pow2(i as nat),
        decreases k - i,
    {
        proof {
            lemma_pow2_unfold((i + 1) as nat);
            double::lemma_pow2_values();
            double::lemma_pow2_grows(i as nat, 120);
        }
        r = r * 2;
        i = i + 1;
    }
    proof {
        if k < 100 {
            double::lemma_pow2_grows(k as nat, 100);
        }
    }
    r
}

fn seconds_of(nanos: u128) -> (x: Double)
    requires
        nanos < 60_000_000_000,
    ensures
        x == seconds_double(nanos as nat),
        x.wf(),
        x.mant == 0 || x.exp <= 60,
{
    let secs: u128 = nanos / 1_000_000_000;
    let sub: u128 = nanos % 1_000_000_000;
    let q = round_ratio(sub, 1_000_000_000);
    proof {
        double::lemma_pow2_values();
        lemma2_to64();
        lemma2_to64_rest();
        if sub > 0 {
            lemma_fraction_exponent(sub as nat, q.exp as int);
        }
    }
    let k: i32 = -q.exp;
    let p: u128 = pow_two(k);
    proof {
        assert(pow2(100) <= 1329227995784915872903807060280344576) by {
            double::lemma_pow2_grows(100, 120);
        }
        if k <= 85 {
            if k < 85 {
                double::lemma_pow2_grows(k as nat, 85);
            }
        }
        double::lemma_pow2_step8(64);
        double::lemma_pow2_step8(72);
        double::lemma_pow2_unfold_three(80);
        assert(secs * p <= 60 * 38685626227668133590597632) by (nonlinear_arith)
            requires
                0 <= secs < 60,
                0 <= p <= 38685626227668133590597632,
        ;
    }
    let n: u128 = secs * p + q.mant as u128;
    let x = round_ratio(n, 1);
    Double { mant: x.mant, exp: x.exp - k }
}

proof fn lemma_fraction_exponent(sub: nat, e: int)
    requires
        0 < sub < 1_000_000_000,
        double::in_binade(sub, 1_000_000_000, e),
    ensures
        -85 <= e <= 0,
{
    double::lemma_pow2_values();
    lemma2_to64();
    lemma2_to64_rest();
    if e > 0 {
        lemma_pow2_pos(e as nat);
        let u = double::up(e);
        assert(1_000_000_000 * u >= 1_000_000_000) by (nonlinear_arith)
            requires
                u >= 1,
        ;
        assert(sub * double::down(e) == sub) by (nonlinear_arith)
            requires
                double::down(e) == 1,
        ;
    }
    if e < -85 {
        double::lemma_pow2_step8(64);
        double::lemma_pow2_step8(72);
        double::lemma_pow2_unfold_three(80);
        double::lemma_pow2_unfold_three(82);
        double::lemma_pow2_grows(85, (-e) as nat);
        assert(sub * double::down(e) >= double::down(e)) by (nonlinear_arith)
            requires
                sub >= 1,
        ;
    }
}

/// A scan's elapsed time.
pub fn humanize_duration(nanos: u128) -> (s: String)
    ensures
        s@ == duration_text(nanos as nat),
{
    let mut s = String::new();
    let secs: u128 = nanos / 1_000_000_000;
    if secs < 60 {
        let x = seconds_of(nanos);
        push_tenths(&mut s, x.round_times(10));
        s.append("s");
    } else {
        push_dec(&mut s, secs / 60);
        s.append("m ");
        push_dec(&mut s, secs % 60 / 10);
        push_dec(&mut s, secs % 60 % 10);
        s.append("s");
    }
    assert(s@ =~= duration_text(nanos as nat));
    s
}

/// Whether a character ends a path component. A backslash only does on
/// Windows: elsewhere it may stand in a name.
pub open spec fn is_separator(c: char, windows: bool) -> bool {
    c == '/' || (windows && c == '\\')
}

fn is_sep(c: char, windows: bool) -> (r: bool)
    ensures
        r == is_separator(c, windows),
{
    c == '/' || (windows && c == '\\')
}

/// The place after the last separator, or zero.
pub open spec fn last_start(s: Seq<char>, windows: bool) -> int
    decreases s.len(),
{
    if s.len() == 0 || is_separator(s.last(), windows) {
        s.len() as int
    } else {
        last_start(s.drop_last(), windows)
    }
}

/// A path of at most `max` characters: its beginning, an ellipsis and its last
/// component; or the end of that component where it alone is too long. The
/// separator that is put back is the path's own.
pub open spec fn abbreviated(s: Seq<char>, max: nat, windows: bool) -> Seq<char> {
    let start = last_start(s, windows);
    let last = s.skip(start);
    let sep = if start > 0 {
        s[start - 1]
    } else {
        '/'
    };
    if s.len() <= max {
        s
    } else if last.len() + 2 <= max {
        s.take(max - last.len() - 2) + seq!['…', sep] + last
    } else {
        let keep = if max == 0 {
            0
        } else {
            max - 1
        };
        seq!['…'] + (if last.len() <= keep {
            last
        } else {
            last.skip(last.len() - keep)
        })
    }
}

proof fn lemma_last_start(s: Seq<char>, windows: bool)
    ensures
        0 <= last_start(s, windows) <= s.len(),
        last_start(s, windows) > 0 ==> is_separator(s[last_start(s, windows) - 1], windows),
        forall|i: int| last_start(s, windows) <= i < s.len() ==> !is_separator(s[i], windows),
    decreases s.len(),
{
    if s.len() > 0 && !is_separator(s.last(), windows) {
        let t = s.drop_last();
        lemma_last_start(t, windows);
        assert forall|i: int| last_start(s, windows) <= i < s.len() implies !is_separator(
            s[i],
            windows,
        ) by {
            if i < t.len() {
                assert(t[i] == s[i]);
            }
        }
    }
}

/// Abbreviates a path to at most `max` characters, with the separators of a
/// platform.
pub fn abbreviate_path_on(path: &str, max: usize, windows: bool) -> (r: String)
    ensures
        r@ == abbreviated(path@, max as nat, windows),
{
    let s = chars_of(path);
    let n: usize = s.len();
    if n <= max {
        return copy_str(path);
    }
    let mut start: usize = n;
    assert(s@.take(n as int) =~= s@);
    while start > 0 && !is_sep(s[start - 1], windows)
        invariant
            start <= n,
            n == s@.len(),
            last_start(s@, windows) == last_start(s@.take(start as int), windows),
        decreases start,
    {
        assert(s@.take(start as int).drop_last() =~= s@.take(start - 1));
        start = start - 1;
    }
    assert(last_start(s@, windows) == start) by {
        if start > 0 {
            assert(s@.take(start as int).last() == s@[start - 1]);
        }
    }
    let sep: char = if start > 0 {
        s[start - 1]
    } else {
        '/'
    };
    let last: usize = n - start;
    let ghost tail = s@.skip(start as int);
    let mut out: Vec<char> = Vec::new();
    if last < max && last + 2 <= max {
        push_range(&mut out, &s, 0, max - last - 2);
        out.push('…');
        out.push(sep);
        push_range(&mut out, &s, start, n);
        proof {
            let head = s@.take(max - last - 2);
            assert(s@.subrange(start as int, n as int) =~= tail);
            assert(s@.subrange(0, max - last - 2) =~= head);
            assert(out@ =~= head + seq!['…', sep] + tail);
        }
    } else {
        let keep: usize = if max == 0 {
            0
        } else {
            max - 1
        };
        out.push('…');
        if last <= keep {
            push_range(&mut out, &s, start, n);
            proof {
                assert(s@.subrange(start as int, n as int) =~= tail);
                assert(out@ =~= seq!['…'] + tail);
            }
        } else {
            push_range(&mut out, &s, n - keep, n);
            proof {
                assert(s@.subrange(n - keep, n as int) =~= tail.skip(tail.len() - keep));
                assert(out@ =~= seq!['…'] + tail.skip(tail.len() - keep));
            }
        }
    }
    string_of(out.as_slice())
}

fn push_range(out: &mut Vec<char>, s: &Vec<char>, from: usize, to: usize)
    requires
        from <= to <= s@.len(),
    ensures
        final(out)@ == old(out)@ + s@.subrange(from as int, to as int),
{
    let mut i: usize = from;
    while i < to
        invariant
            from <= i <= to <= s@.len(),
            out@ == old(out)@ + s@.subrange(from as int, i as int),
        decreases to - i,
    {
        out.push(s[i]);
        i = i + 1;
        assert(out@ =~= old(out)@ + s@.subrange(from as int, i as int));
    }
}

/// Abbreviates a path to at most `max` characters.
pub fn abbreviate_path(path: &str, max: usize) -> (r: String)
    ensures
        r@ == abbreviated(path@, max as nat, false),
{
    abbreviate_path_on(path, max, false)
}

/// An abbreviated path fits its budget, and a path that fits is kept.
pub proof fn law_abbreviation_fits(s: Seq<char>, max: nat, windows: bool)
    ensures
        max > 0 ==> abbreviated(s, max, windows).len() <= max,
        max == 0 ==> abbreviated(s, max, windows).len() <= 1,
        s.len() <= max ==> abbreviated(s, max, windows) == s,
{
    lemma_last_start(s, windows);
}

/// An abbreviated path ends like the path: as far as it fits, the last
/// component is whole.
pub proof fn law_abbreviation_keeps_the_name(s: Seq<char>, max: nat, windows: bool)
    requires
        s.len() - last_start(s, windows) + 2 <= max,
    ensures
        ({
            let last = s.skip(last_start(s, windows));
            let a = abbreviated(s, max, windows);
            &&& last.len() <= a.len()
            &&& a.skip(a.len() - last.len()) == last
        }),
{
    lemma_last_start(s, windows);
    let last = s.skip(last_start(s, windows));
    let a = abbreviated(s, max, windows);
    assert(a.skip(a.len() - last.len()) =~= last);
}

/// Whether `segments` are the components of a path, as half-open ranges of
/// characters in order: each is a longest run without separators, and together
/// they hold every character that is not one.
pub open spec fn are_segments(
    s: Seq<char>,
    windows: bool,
    segments: Seq<(usize, usize)>,
) -> bool {
    &&& forall|k: int|
        0 <= k < segments.len() ==> is_component(s, windows, (#[trigger] segments[k]).0, segments[k].1)
    &&& forall|k: int, m: int|
        0 <= k < m < segments.len() ==> (#[trigger] segments[k]).1 < (#[trigger] segments[m]).0
    &&& forall|i: int|
        0 <= i < s.len() && !is_separator(s[i], windows) ==> exists|k: int|
            0 <= k < segments.len() && (#[trigger] segments[k]).0 <= i < segments[k].1
}

/// Whether a range is a longest nonempty run without separators.
pub open spec fn is_component(s: Seq<char>, windows: bool, from: usize, to: usize) -> bool {
    &&& from < to <= s.len()
    &&& forall|i: int| from <= i < to ==> !is_separator(#[trigger] s[i], windows)
    &&& from == 0 || is_separator(s[from - 1], windows)
    &&& to == s.len() || is_separator(s[to as int], windows)
}

/// The character ranges of a path's components, with the separators of a
/// platform.
pub fn path_segments_on(path: &str, windows: bool) -> (segments: Vec<(usize, usize)>)
    ensures
        are_segments(path@, windows, segments@),
{
    let s = chars_of(path);
    let n: usize = s.len();
    let mut segments: Vec<(usize, usize)> = Vec::new();
    let mut i: usize = 0;
    while i < n
        invariant
            i <= n,
            n == s@.len(),
            s@ == path@,
            i > 0 && i < n ==> is_separator(s@[i - 1], windows) || is_separator(s@[i as int], windows),
            forall|k: int|
                0 <= k < segments@.len() ==> is_component(
                    s@,
                    windows,
                    (#[trigger] segments@[k]).0,
                    segments@[k].1,
                ) && segments@[k].1 <= i,
            forall|k: int, m: int|
                0 <= k < m < segments@.len() ==> (#[trigger] segments@[k]).1 < (
                #[trigger] segments@[m]).0,
            forall|j: int|
                0 <= j < i && !is_separator(s@[j], windows) ==> exists|k: int|
                    0 <= k < segments@.len() && (#[trigger] segments@[k]).0 <= j < segments@[k].1,
        decreases n - i,
    {
        if is_sep(s[i], windows) {
            i = i + 1;
        } else {
            let from: usize = i;
            while i < n && !is_sep(s[i], windows)
                invariant
                    from <= i <= n,
                    n == s@.len(),
                    forall|j: int| from <= j < i ==> !is_separator(#[trigger] s@[j], windows),
                decreases n - i,
            {
                i = i + 1;
            }
            let ghost before = segments@;
            segments.push((from, i));
            proof {
                assert forall|j: int| 0 <= j < i && !is_separator(s@[j], windows) implies exists|k: int|
                    0 <= k < segments@.len() && (#[trigger] segments@[k]).0 <= j < segments@[k].1 by {
                    if j < from {
                        let k = choose|k: int|
                            0 <= k < before.len() && (#[trigger] before[k]).0 <= j < before[k].1;
                        assert(segments@[k] == before[k]);
                    } else {
                        assert(segments@[before.len() as int] == (from, i));
                    }
                }
                assert forall|k: int, m: int| 0 <= k < m < segments@.len() implies (
                #[trigger] segments@[k]).1 < (#[trigger] segments@[m]).0 by {
                    if m == before.len() {
                        let e = before[k];
                        assert(is_component(s@, windows, e.0, e.1));
                        if e.1 == from {
                            assert(is_separator(s@[e.1 as int], windows));
                        }
                    }
                }
            }
        }
    }
    segments
}

/// The character ranges of a path's components.
pub fn path_segments(path: &str) -> (segments: Vec<(usize, usize)>)
    ensures
        are_segments(path@, false, segments@),
{
    path_segments_on(path, false)
}

/// A path has one list of components.
pub proof fn law_segments_unique(
    s: Seq<char>,
    windows: bool,
    a: Seq<(usize, usize)>,
    b: Seq<(usize, usize)>,
)
    requires
        are_segments(s, windows, a),
        are_segments(s, windows, b),
    ensures
        a == b,
{
    lemma_segments_prefix(s, windows, a, b, a.len() as int);
    lemma_segments_prefix(s, windows, b, a, b.len() as int);
    assert(a =~= b);
}

/// The first `n` components of one list are those of another.
proof fn lemma_segments_prefix(
    s: Seq<char>,
    windows: bool,
    a: Seq<(usize, usize)>,
    b: Seq<(usize, usize)>,
    n: int,
)
    requires
        are_segments(s, windows, a),
        are_segments(s, windows, b),
        0 <= n <= a.len(),
    ensures
        n <= b.len(),
        forall|k: int| 0 <= k < n ==> a[k] == b[k],
    decreases n,
{
    if n > 0 {
        lemma_segments_prefix(s, windows, a, b, n - 1);
        let (from, to) = a[n - 1];
        assert(is_component(s, windows, from, to));
        assert(!is_separator(s[from as int], windows));
        let k = choose|k: int| 0 <= k < b.len() && (#[trigger] b[k]).0 <= from < b[k].1;
        lemma_same_component(s, windows, a[n - 1], b[k], from as int);
        if k < n - 1 {
            assert(a[k].1 < a[n - 1].0);
        } else if k > n - 1 {
            let (f2, t2) = b[n - 1];
            assert(is_component(s, windows, f2, t2));
            assert(!is_separator(s[f2 as int], windows));
            let j = choose|j: int| 0 <= j < a.len() && (#[trigger] a[j]).0 <= f2 < a[j].1;
            lemma_same_component(s, windows, a[j], b[n - 1], f2 as int);
            assert(b[n - 1].1 < b[k].0);
            if j < n - 1 {
                assert(a[j] == b[j]);
                assert(b[j].1 < b[n - 1].0);
            } else if j > n - 1 {
                assert(a[n - 1].1 < a[j].0);
            }
        }
    }
}

/// Two components that share a character are the same.
proof fn lemma_same_component(
    s: Seq<char>,
    windows: bool,
    a: (usize, usize),
    b: (usize, usize),
    i: int,
)
    requires
        is_component(s, windows, a.0, a.1),
        is_component(s, windows, b.0, b.1),
        a.0 <= i < a.1,
        b.0 <= i < b.1,
    ensures
        a == b,
{
    if a.0 < b.0 {
        assert(!is_separator(s[b.0 - 1], windows));
    }
    if b.0 < a.0 {
        assert(!is_separator(s[a.0 - 1], windows));
    }
    if a.1 < b.1 {
        assert(!is_separator(s[a.1 as int], windows));
    }
    if b.1 < a.1 {
        assert(!is_separator(s[b.1 as int], windows));
    }
}

/// The units of an age: their seconds and what stands behind their number.
pub open spec fn age_units() -> Seq<(int, Seq<char>)> {
    seq![
        (1int, "s ago"@),
        (60int, " min ago"@),
        (60 * 60int, " h ago"@),
        (24 * 60 * 60int, " days ago"@),
        (30 * 24 * 60 * 60int, " months ago"@),
        (365 * 24 * 60 * 60int, " years ago"@),
    ]
}

/// An age is told in the largest unit that has passed, in whole ones, rounded down;
/// the last seconds and the future have words of their own.
pub proof fn law_ages_count_whole_units(delta: int)
    ensures
        delta < 0 ==> age(delta) == "in the future"@,
        0 <= delta < 5 ==> age(delta) == "just now"@,
        delta >= 5 ==> exists|k: int, n: int|
            {
                &&& 0 <= k < 6
                &&& n >= 1
                &&& n * (#[trigger] age_units()[k]).0 <= delta < (n + 1) * age_units()[k].0
                &&& k < 5 ==> delta < age_units()[k + 1].0
                &&& age(delta) == #[trigger] text::dec(n as nat) + age_units()[k].1
            },
{
    if delta >= 5 {
        let k: int = if delta < 60 {
            0
        } else if delta < 3600 {
            1
        } else if delta < 86400 {
            2
        } else if delta < 2592000 {
            3
        } else if delta < 31536000 {
            4
        } else {
            5
        };
        let unit = age_units()[k].0;
        let n = delta / unit;
        assert(n * unit <= delta < (n + 1) * unit && n >= 1) by (nonlinear_arith)
            requires
                n == delta / unit,
                delta >= unit,
                unit > 0,
        ;
        if k == 0 {
            assert(unit == 1);
            assert(n == delta) by (nonlinear_arith)
                requires
                    unit == 1,
                    n == delta / unit,
            ;
        } else if k == 1 {
            assert(unit == 60 && n == delta / 60);
        } else if k == 2 {
            assert(unit == 3600 && n == delta / 3600);
        } else if k == 3 {
            assert(unit == 86400 && n == delta / 86400);
        } else if k == 4 {
            assert(unit == 2592000 && n == delta / 2592000);
        } else {
            assert(unit == 31536000 && n == delta / 31536000);
        }
        assert(age(delta) == text::dec(n as nat) + age_units()[k].1);
    }
}

/// From a minute on a duration is told in minutes and seconds, which add up to it,
/// the seconds in two digits.
pub proof fn law_durations_add_up(nanos: nat)
    requires
        nanos >= 60_000_000_000,
    ensures
        ({
            let s = duration_text(nanos);
            let n = s.len();
            &&& n >= 6
            &&& s[n - 5] == 'm' && s[n - 4] == ' ' && s[n - 1] == 's'
            &&& text::value(s.subrange(n - 3, n - 1)) < 60
            &&& 60 * text::value(s.take(n - 5)) + text::value(s.subrange(n - 3, n - 1)) == nanos
                / 1_000_000_000
        }),
{
    reveal_strlit("m ");
    reveal_strlit("s");
    let secs = nanos / 1_000_000_000;
    let s = duration_text(nanos);
    let n = s.len();
    text::law_decimals_read_back(secs / 60);
    assert(s.take(n - 5) =~= text::dec(secs / 60));
    let two = s.subrange(n - 3, n - 1);
    let one = seq![text::digit(secs % 60 / 10)];
    assert(two =~= one.push(text::digit(secs % 60 % 10)));
    assert(two.drop_last() =~= one);
    assert(one.drop_last() =~= Seq::<char>::empty());
    assert(text::value(one.drop_last()) == 0);
    assert(text::value(one) == secs % 60 / 10);
    assert(text::value(two) == secs % 60);
}

/// A scan is compared with the occupied space alone: without any there is no
/// comparison, a scan that exceeds it is never told as a share, and one that does not
/// always is.
pub proof fn law_coverage_is_of_the_occupied_space(d: DiskSpace, scan: u64)
    ensures
        d.used == 0 <==> d.covers(scan) is Unknown,
        d.used > 0 && scan > d.used <==> d.covers(scan) is Exceeds,
        d.used > 0 && scan <= d.used ==> d.covers(scan) == Coverage::Fraction(
            share(scan, d.used),
        ),
        d.covers(scan) matches Coverage::Exceeds { compressed } ==> compressed == d.compressed,
        d.used > 0 && scan > d.used ==> d.covered_share(scan) == double::one(),
        d.used == 0 ==> d.covered_share(scan) == double::zero(),
{
}

/// A scan of several filesystems is told as such, with their number, whatever it
/// covers; otherwise a share is told only if there is one.
pub proof fn law_captions_do_not_overstate(d: DiskSpace, scan: u64, devices: usize)
    ensures
        devices > 1 ==> text::starts_with(
            d.caption(scan, devices),
            "spans "@ + text::dec(devices as nat),
        ),
        devices <= 1 && d.used == 0 ==> d.caption(scan, devices) == "coverage unavailable"@,
        devices <= 1 && d.used > 0 && scan <= d.used ==> d.caption(scan, devices)
            == "this scan covers "@ + text::dec(percent(share(scan, d.used))) + "% of used"@,
        devices <= 1 && d.used > 0 && scan > d.used && d.compressed ==> d.caption(scan, devices)
            == "scan logical exceeds on-disk (compressed mount)"@,
        devices <= 1 && d.used > 0 && scan > d.used && !d.compressed ==> d.caption(scan, devices)
            == "scan exceeds used (changed mid-scan)"@,
{
    text::lemma_ends(
        "spans "@ + text::dec(devices as nat),
        " filesystems · gauge shows the scan root's"@,
    );
}

/// An abbreviated path that does not fit starts like the path as far as there is
/// room beside its last component, and the mark of the cut stands once.
pub proof fn law_abbreviation_keeps_the_start(s: Seq<char>, max: nat, windows: bool)
    requires
        s.len() > max,
        s.len() - last_start(s, windows) + 2 <= max,
    ensures
        ({
            let a = abbreviated(s, max, windows);
            let head = max - (s.len() - last_start(s, windows)) - 2;
            &&& a.len() == max
            &&& a.take(head) == s.take(head)
            &&& a[head] == '…'
        }),
{
    lemma_last_start(s, windows);
    let a = abbreviated(s, max, windows);
    let head = max - (s.len() - last_start(s, windows)) - 2;
    assert(a.take(head) =~= s.take(head));
}

} // verus!
