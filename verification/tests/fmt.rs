//! Ages, durations, paths and the coverage of a disk.

use camembert::double::Double;
use camembert::fmt::{
    abbreviate_path, abbreviate_path_on, humanize_age, humanize_duration, path_segments,
    path_segments_on, percent_of, share_of, Coverage, DiskSpace,
};

fn value(x: Double) -> f64 {
    x.mant as f64 * (x.exp as f64).exp2()
}

/// A power of two, `2^e`.
const fn power(e: i32) -> Double {
    Double {
        mant: 1 << 52,
        exp: e - 52,
    }
}

const QUARTER: Double = power(-2);
const ONE: Double = power(0);

#[test]
fn humanized_ages() {
    assert_eq!(humanize_age(1000, 998), "just now");
    assert_eq!(humanize_age(1000, 990), "10s ago");
    assert_eq!(humanize_age(1000, 1000 - 3 * 60), "3 min ago");
    assert_eq!(humanize_age(1_000_000, 1_000_000 - 5 * 3600), "5 h ago");
    assert_eq!(
        humanize_age(10_000_000, 10_000_000 - 3 * 86400),
        "3 days ago"
    );
    assert_eq!(
        humanize_age(100_000_000, 100_000_000 - 70 * 86400),
        "2 months ago"
    );
    assert_eq!(
        humanize_age(1_000_000_000, 1_000_000_000 - 800 * 86400),
        "2 years ago"
    );
    assert_eq!(humanize_age(1000, 2000), "in the future");
}

#[test]
fn disk_gauge_fractions() {
    let disk = DiskSpace {
        capacity: 1000,
        used: 400,
        compressed: false,
    };
    assert!((value(disk.used_fraction()) - 0.4).abs() < 1e-9);
    assert_eq!(disk.coverage(100), Coverage::Fraction(QUARTER));
    assert!((value(disk.coverage_bar_fraction(100)) - 0.25).abs() < 1e-9);
    let empty = DiskSpace {
        capacity: 0,
        used: 0,
        compressed: false,
    };
    assert_eq!(value(empty.used_fraction()), 0.0);
    assert_eq!(empty.coverage(5), Coverage::Unknown);
    assert_eq!(value(empty.coverage_bar_fraction(5)), 0.0);
}

#[test]
fn coverage_caption_multi_fs_wins_over_a_percentage() {
    let disk = DiskSpace {
        capacity: 1000,
        used: 400,
        compressed: false,
    };
    assert_eq!(
        disk.coverage_caption(100, 3),
        "spans 3 filesystems · gauge shows the scan root's"
    );
    assert_eq!(
        disk.coverage_caption(100, 1),
        "this scan covers 25% of used"
    );
}

#[test]
fn coverage_caption_multi_fs_wins_over_compressed_exceeds() {
    let compressed = DiskSpace {
        capacity: 1000,
        used: 400,
        compressed: true,
    };
    assert_eq!(
        compressed.coverage_caption(500, 2),
        "spans 2 filesystems · gauge shows the scan root's"
    );
    assert_eq!(
        compressed.coverage_caption(500, 1),
        "scan logical exceeds on-disk (compressed mount)"
    );
}

#[test]
fn coverage_logical_exceeds_physical_is_not_clamped() {
    let plain = DiskSpace {
        capacity: 1000,
        used: 400,
        compressed: false,
    };
    assert_eq!(
        plain.coverage(9999),
        Coverage::Exceeds { compressed: false }
    );
    let zstd = DiskSpace {
        capacity: 1000,
        used: 400,
        compressed: true,
    };
    assert_eq!(zstd.coverage(9999), Coverage::Exceeds { compressed: true });
    assert!((value(plain.coverage_bar_fraction(9999)) - 1.0).abs() < 1e-9);
    assert!((value(zstd.coverage_bar_fraction(9999)) - 1.0).abs() < 1e-9);
    assert_eq!(zstd.coverage(400), Coverage::Fraction(ONE));
}

#[test]
fn humanize_duration_below_a_minute_shows_one_decimal() {
    assert_eq!(humanize_duration(1_234_000_000), "1.2s");
    assert_eq!(humanize_duration(59_900_000_000), "59.9s");
    assert_eq!(humanize_duration(0), "0.0s");
}

#[test]
fn humanize_duration_at_or_above_a_minute_switches_to_minutes_seconds() {
    assert_eq!(humanize_duration(60_000_000_000), "1m 00s");
    assert_eq!(humanize_duration(125_000_000_000), "2m 05s");
    assert_eq!(humanize_duration(3661_000_000_000), "61m 01s");
}

#[test]
fn path_segments_absolute() {
    assert_eq!(path_segments("/home/user"), vec![(1, 5), (6, 10)]);
}

#[test]
fn path_segments_edge_cases() {
    assert_eq!(path_segments(""), Vec::<(usize, usize)>::new());
    assert_eq!(
        path_segments("/"),
        Vec::<(usize, usize)>::new(),
        "bare root: no component"
    );
    assert_eq!(
        path_segments("//a//b/"),
        vec![(2, 3), (5, 6)],
        "doubled slashes collapse"
    );
    assert_eq!(
        path_segments("relative/path"),
        vec![(0, 8), (9, 13)],
        "no leading slash"
    );
    assert_eq!(path_segments("noslash"), vec![(0, 7)]);
    assert_eq!(path_segments("/café/日本"), vec![(1, 5), (6, 8)]);
}

#[test]
fn separators_are_platform_dependent() {
    assert_eq!(
        path_segments_on(r"C:\Program Files\Common Files", true),
        vec![(0, 2), (3, 16), (17, 29)],
        "windows: drive, then each component"
    );
    assert_eq!(
        path_segments_on(r"C:\Program Files\Common Files", false),
        vec![(0, 29)],
        "unix: one component, backslashes are just characters"
    );
    assert_eq!(path_segments_on("C:/Users/theo", true).len(), 3);
    assert_eq!(
        path_segments_on(r"/home/back\slash", false),
        vec![(1, 5), (6, 16)]
    );

    assert_eq!(
        abbreviate_path_on(r"C:\Users\theo\projects\deep\nested\dir", 20, true),
        r"C:\Users\theo\p…\dir"
    );
    assert_eq!(
        abbreviate_path_on("/home/theo/projects/deep/nested/dir", 20, true),
        "/home/theo/proj…/dir",
        "a unix-style path keeps its own separator on windows"
    );
}

#[test]
fn path_abbreviation() {
    assert_eq!(abbreviate_path("/home/x", 20), "/home/x", "fits: unchanged");
    assert_eq!(
        abbreviate_path("/home/theo/projects/deep/nested/dir", 20),
        "/home/theo/proj…/dir"
    );
    assert_eq!(
        abbreviate_path("/a/really-long-component-name", 10),
        "…nent-name"
    );
    assert_eq!(abbreviate_path("abc", 0), "…", "degenerate budget");
}

#[test]
fn a_share_is_the_nearest_double() {
    assert_eq!(value(share_of(1, 3)), 1.0 / 3.0);
    assert_eq!(value(share_of(u64::MAX, 7)), u64::MAX as f64 / 7.0);
    assert_eq!(percent_of(share_of(1, 3)), 33);
    assert_eq!(percent_of(share_of(2, 3)), 67);
}

#[test]
fn a_duration_rounds_as_its_double_does() {
    assert_eq!(humanize_duration(1_250_000_000), "1.2s", "a tie goes to even");
    assert_eq!(humanize_duration(1_350_000_000), "1.4s");
    assert_eq!(humanize_duration(59_999_999_999), "60.0s");
}
