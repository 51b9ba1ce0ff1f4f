//! The exact arithmetic against the machine's floating point.

use camembert::double::Double;
use camembert::floor_rt::bright_split;
use camembert::flatview::percentage_of;
use camembert::fmt::{humanize_duration, percent_of, share_of, Coverage, DiskSpace};
use camembert::gauge::count_gauge_cells;
use camembert::recycle_rt;
use camembert::table_view::percent_text;
use camembert::wheel::{build_slices, proportion_bar, Share};
use camembert::{freeable_panel, table_view};

fn value(x: Double) -> f64 {
    x.mant as f64 * (x.exp as f64).exp2()
}

fn share(x: f64) -> Share {
    let bits = x.abs().to_bits();
    let size = if x == 0.0 {
        Double { mant: 0, exp: 0 }
    } else {
        Double {
            mant: (bits & ((1 << 52) - 1)) | (1 << 52),
            exp: (bits >> 52) as i32 - 1075,
        }
    };
    Share {
        below_zero: x < 0.0,
        size,
    }
}

/// Numbers of all magnitudes, the same on every run.
struct Numbers(u64);

impl Numbers {
    fn draw(&mut self) -> u64 {
        self.0 = self
            .0
            .wrapping_mul(6364136223846793005)
            .wrapping_add(1442695040888963407);
        let high = self.0 >> 33;
        let mixed = self.0 ^ (self.0 >> 29);
        mixed >> (high % 64)
    }

    fn below(&mut self, n: u64) -> u64 {
        self.draw() % n
    }
}

const ROUNDS: usize = 20_000;

#[test]
fn quotients_are_those_of_the_machine() {
    let mut numbers = Numbers(1);
    for _ in 0..ROUNDS {
        let (a, b) = (numbers.draw(), numbers.draw().max(1));
        assert_eq!(value(share_of(a, b)), a as f64 / b as f64, "{a} / {b}");
        assert_eq!(
            value(percentage_of(a, b)),
            100.0 * a as f64 / b as f64,
            "{a} / {b}"
        );
    }
}

#[test]
fn percentages_print_like_floats() {
    let mut numbers = Numbers(2);
    for _ in 0..ROUNDS {
        let b = numbers.draw().max(1);
        let a = numbers.below(b) + numbers.below(2);
        let frac = a as f64 / b as f64;
        assert_eq!(percent_text(a, b), format!("{:5.1}", 100.0 * frac), "{a} / {b}");
        assert_eq!(
            percent_of(share_of(a.min(b), b)).to_string(),
            format!("{:.0}", (a.min(b) as f64 / b as f64) * 100.0)
        );
    }
    assert_eq!(table_view::percent_text(1, 0), format!("{:>5}", "-"));
}

#[test]
fn durations_print_like_floats() {
    let mut numbers = Numbers(3);
    for _ in 0..ROUNDS {
        let nanos = numbers.below(60_000_000_000);
        let secs = std::time::Duration::from_nanos(nanos).as_secs_f64();
        if secs < 60.0 {
            assert_eq!(humanize_duration(u128::from(nanos)), format!("{secs:.1}s"));
        }
    }
    for tenths in 0..600u64 {
        let nanos = tenths * 100_000_000 + 50_000_000;
        let secs = std::time::Duration::from_nanos(nanos).as_secs_f64();
        assert_eq!(humanize_duration(u128::from(nanos)), format!("{secs:.1}s"));
    }
}

#[test]
fn bars_fill_like_floats() {
    let mut numbers = Numbers(4);
    for _ in 0..ROUNDS {
        let b = numbers.draw().max(1);
        let frac = numbers.draw() as f64 / b as f64;
        let width = 1 + numbers.below(40) as usize;
        let clamped = frac.clamp(0.0, 1.0);
        let mut filled = (clamped * width as f64).round() as usize;
        let mut eighths = (clamped * (width * 8) as f64).round() as usize;
        if clamped > 0.0 {
            filled = filled.max(1);
            eighths = eighths.max(1);
        }
        let ascii = proportion_bar(share(frac), width, true);
        assert_eq!(ascii.chars().filter(|c| *c == '#').count(), filled);
        let blocks = proportion_bar(share(frac), width, false);
        let full = blocks.chars().filter(|c| *c == '█').count();
        assert_eq!(full, eighths / 8, "{frac} over {width}");
        let partial = "▏▎▍▌▋▊▉".chars().nth((eighths % 8).wrapping_sub(1));
        assert_eq!(blocks.chars().nth(full).filter(|c| *c != ' '), partial);
    }
}

#[test]
fn the_gauge_fills_like_floats() {
    let mut numbers = Numbers(5);
    for _ in 0..ROUNDS {
        let disk = DiskSpace {
            capacity: numbers.draw(),
            used: numbers.draw(),
            compressed: false,
        };
        let scan = numbers.draw();
        let cells = numbers.below(300) as u16;
        let used = if disk.capacity == 0 {
            0.0
        } else {
            (disk.used as f64 / disk.capacity as f64).clamp(0.0, 1.0)
        };
        let coverage = match disk.coverage(scan) {
            Coverage::Unknown => 0.0,
            Coverage::Fraction(f) => value(f),
            Coverage::Exceeds { .. } => 1.0,
        };
        let used_cells = (used * f64::from(cells)).round() as u16;
        let covered = (used * coverage * f64::from(cells)).round() as u16;
        assert_eq!(
            count_gauge_cells(&disk, scan, cells),
            (covered.min(used_cells), used_cells)
        );
    }
}

#[test]
fn bright_cells_split_like_floats() {
    let mut numbers = Numbers(6);
    for _ in 0..ROUNDS {
        let (floor, disk) = (numbers.draw(), numbers.draw());
        let filled = numbers.below(13) as usize;
        let bar = format!("{:<12}", "#".repeat(filled.min(12)));
        let filled = filled.min(12);
        let expected = if floor == 0 || disk == 0 || filled == 0 {
            0
        } else {
            let frac = (floor as f64 / disk as f64).min(1.0);
            ((filled as f64 * frac).round() as usize).min(filled)
        };
        assert_eq!(bright_split(&bar, Some(floor), disk), expected);
    }
}

#[test]
fn slices_are_kept_like_floats() {
    let mut numbers = Numbers(7);
    for _ in 0..2000 {
        let total = 1 + numbers.below(1 << 50);
        let rows: Vec<(u64, Option<usize>)> = (0..8)
            .map(|i| {
                let rank = if numbers.below(3) > 0 { Some(i) } else { None };
                (numbers.below(total / 4 + 1), rank)
            })
            .collect();
        let kept: Vec<Option<usize>> = rows
            .iter()
            .filter(|(disk, _)| *disk as f64 / total as f64 >= 0.02)
            .filter_map(|(_, rank)| rank.map(Some))
            .collect();
        let (bytes, ranks) = build_slices(&rows, total);
        let ranked: Vec<Option<usize>> = ranks.iter().copied().filter(Option::is_some).collect();
        assert_eq!(ranked, kept);
        let sum: f64 = bytes.iter().map(|b| *b as f64 / total as f64).sum();
        let all: f64 = rows.iter().map(|(disk, _)| *disk as f64 / total as f64).sum();
        assert!((sum - all.max(1.0)).abs() < 1e-6, "{sum} against {all}");
    }
}

#[test]
fn a_percent_of_a_volume_is_a_percent() {
    let mut numbers = Numbers(8);
    for _ in 0..ROUNDS {
        let capacity = numbers.below(1 << 50);
        let bytes = numbers.below(capacity / 50 + 2);
        let big = bytes >= 100 << 20;
        let expected = big && capacity > 0 && bytes as f64 / capacity as f64 >= 0.01;
        assert_eq!(recycle_rt::should_toast(bytes, capacity), expected);
        assert_eq!(freeable_panel::should_toast(bytes, capacity), expected);
    }
}
