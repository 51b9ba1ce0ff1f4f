//! The line that tells what a filter matched.

use camembert::filterview::{pill_text, residual_line, FilterResult, Residual};

#[test]
fn residual_line_only_appears_when_nonzero() {
    assert_eq!(residual_line(0, 0), None);
    let line = residual_line(4096, 2).expect("nonzero residual explains itself");
    assert!(line.contains("2 directory inode"));
}

fn one_log() -> FilterResult {
    FilterResult {
        matched_entries: 1,
        matched_apparent: 5,
        matched_disk: 4096,
        matched_extra_links: 0,
        residual: Residual {
            apparent: 60,
            disk: 0,
            dirs: 1,
        },
    }
}

#[test]
fn pill_text_over_a_real_scan_matches_and_reports_the_residual() {
    let text = pill_text("*.log", &one_log(), true);
    assert!(text.contains("/ *.log"));
    assert!(text.contains("1 matched"));
    assert!(text.contains("directory inode"));
    assert!(text.ends_with("Esc clears"));
}

#[test]
fn the_pill_follows_the_size_mode() {
    let disk = pill_text("*.log", &one_log(), false);
    assert!(disk.contains("4.0 KiB"), "{disk}");
    assert!(!disk.contains("directory inode"), "no residual on disk");
}
