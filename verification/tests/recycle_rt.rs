//! What is said of the recycle bin.

use camembert::recycle_rt::{gauge_suffix, should_toast, toast_text, BinStatus, TOAST_MIN_BYTES};

fn status(bytes: u64, items: u64) -> BinStatus {
    BinStatus {
        volume: br"C:\".to_vec(),
        bytes,
        items,
    }
}

#[test]
fn nothing_here_ever_calls_the_bin_freeable() {
    let full = status(6_264_307_348, 66);
    let suffix = gauge_suffix(&full).expect("a non-empty bin has a suffix");
    let toast = toast_text(&full);
    for text in [&suffix, &toast] {
        assert!(
            !text.to_lowercase().contains("freeable"),
            "{text:?} claims the bytes are freeable"
        );
    }
    assert!(
        toast.contains("not free until you empty it"),
        "the toast must refuse the reading outright: {toast:?}"
    );
}

#[test]
fn the_measured_bin_reads_as_recoverable_not_as_reclaimed() {
    let full = status(6_264_307_348, 66);
    assert_eq!(
        gauge_suffix(&full).as_deref(),
        Some(" · 5.8 GiB in the Recycle Bin")
    );
    assert_eq!(
        toast_text(&full),
        "Recycle Bin: 5.8 GiB in 66 items — not free until you empty it"
    );
}

#[test]
fn an_empty_bin_says_nothing_at_all() {
    assert_eq!(gauge_suffix(&status(0, 0)), None);
}

#[test]
fn one_item_is_not_pluralised() {
    assert!(toast_text(&status(200 * 1024 * 1024, 1)).contains("in 1 item —"));
}

#[test]
fn the_toast_requires_both_bounds() {
    let capacity = 1_000 * 1024 * 1024 * 1024;
    assert!(!should_toast(200 * 1024 * 1024, capacity));
    assert!(!should_toast(50 * 1024 * 1024, 1024 * 1024 * 1024));
    assert!(should_toast(20 * 1024 * 1024 * 1024, capacity));
}

#[test]
fn an_unknown_capacity_never_toasts_and_never_divides_by_zero() {
    assert!(!should_toast(u64::MAX, 0));
}

#[test]
fn the_absolute_bound_is_inclusive_and_the_relative_one_too() {
    let capacity = TOAST_MIN_BYTES * 100;
    assert!(should_toast(TOAST_MIN_BYTES, capacity));
    assert!(!should_toast(TOAST_MIN_BYTES - 1, capacity));
    assert!(!should_toast(TOAST_MIN_BYTES, capacity + 1));
}
