//! The reports of the command line.

use camembert::report::{
    diff_exit_code, filter_gate, filter_problems, filter_wanted, hardlink_line_qualifier,
    human_report, import_report, matched_by, scan_mode, show_hardlink_line, startup_toasts, summary,
    top_dirs, ChangeCounts, ChangedPath, DiffReport, DirSize, Imported, ScanMode, SizedPath, Summary,
};
use camembert::size::HumanSize;

fn scanned() -> Summary {
    Summary {
        path: "/srv".to_owned(),
        seconds: "0.25".to_owned(),
        matched: None,
        real: 4096,
        apparent: 100,
        entries: 3,
        dirs: 1,
        errors: 0,
        excluded_dirs: 2,
        excluded_kernfs: 1,
        hardlink_inodes: 0,
        link_counts_known: true,
        top: 1,
        top_dirs: vec![
            SizedPath {
                disk: 4096,
                path: "/srv".to_owned(),
                hardlink: false,
            },
            SizedPath {
                disk: 512,
                path: "/srv/x".to_owned(),
                hardlink: false,
            },
        ],
        top_files: vec![SizedPath {
            disk: 2048,
            path: "/srv/f".to_owned(),
            hardlink: true,
        }],
        truncated: false,
        flat_cap: 100,
        error_dirs: Vec::new(),
    }
}

#[test]
fn a_plain_summary() {
    assert_eq!(
        summary(&scanned(), false),
        vec![
            "Scanned /srv in 0.25s",
            "  total: 4.0 KiB real, 100 B apparent",
            "  entries: 3 (1 dirs)  errors: 0  excluded mounts: 2 (1 kernfs)",
            "",
            "Top 1 directories by real size:",
            "     4.0 KiB  /srv",
            "",
            "Top 1 files by real size:",
            "     2.0 KiB  /srv/f \u{26d3}",
        ]
    );
}

#[test]
fn a_filtered_summary_is_about_the_matches() {
    let mut s = scanned();
    s.matched = Some(matched_by("*.log", 2048, 50, 1, 512, 4));
    s.truncated = true;
    s.link_counts_known = false;
    s.errors = 12;
    s.error_dirs = vec![(12, "/srv/locked".to_owned())];
    assert_eq!(
        summary(&s, false),
        vec![
            "Scanned /srv in 0.25s",
            "  matched (--filter \"*.log\"): 2.0 KiB real, 50 B apparent, 1 entries — of 4.0 KiB real scanned",
            "  entries: 3 (1 dirs)  errors: 12  excluded mounts: 2 (1 kernfs)  hardlinked inodes: 0 (reached by more than one path in this scan; each counted once. Links outside it were not checked — `--links`)",
            "",
            "Top 1 directories by matched real size:",
            "     4.0 KiB  /srv",
            "",
            "Top 1 matched files by real size:",
            "     2.0 KiB  /srv/f \u{26d3}",
            "  (top 100 of more eligible files shown; flat_cap in camembert.toml)",
            "  (+512 B in 4 directory inode(s), never matched by any query)",
            "",
            "12 entries could not be read; most affected directories:",
            "      12 errors  /srv/locked",
        ]
    );
}

#[test]
fn a_filter_is_told_in_quotes() {
    assert_eq!(matched_by("a \"b\"\t", 0, 0, 0, 0, 0).filter, "\"a \\\"b\\\"\\t\"");
}

#[test]
fn a_dump_on_standard_output_is_alone_there() {
    assert!(summary(&scanned(), true).is_empty());
    assert_eq!(scan_mode(false, true, true), ScanMode::Refused);
    assert_eq!(scan_mode(true, true, true), ScanMode::Summary);
    assert_eq!(scan_mode(false, false, true), ScanMode::Summary);
    assert_eq!(scan_mode(false, true, false), ScanMode::Interactive);
}

#[test]
fn the_hardlink_count_says_what_it_means() {
    assert_eq!(hardlink_line_qualifier(true), "each counted once");
    assert!(hardlink_line_qualifier(false).contains("--links"));
    assert!(!show_hardlink_line(0, true));
    assert!(show_hardlink_line(0, false));
    assert!(show_hardlink_line(2, true));
}

#[test]
fn ignored_patterns_are_told_once() {
    assert!(startup_toasts(0).is_empty());
    assert_eq!(startup_toasts(1), vec!["1 invalid pattern ignored — see log"]);
    assert_eq!(startup_toasts(3), vec!["3 invalid patterns ignored — see log"]);
}

#[test]
fn a_blank_filter_is_none() {
    assert!(!filter_wanted(None));
    assert!(!filter_wanted(Some(" \t")));
    assert!(filter_wanted(Some(" *.log")));
    assert_eq!(
        filter_problems(&["bad size".to_owned(), "bad age".to_owned()]),
        vec![
            "camembert: --filter has 2 problem(s) and will not run:",
            "  bad size",
            "  bad age",
        ]
    );
}

#[test]
fn the_largest_directories_come_first() {
    let dirs = [
        DirSize { index: 0, disk: 5 },
        DirSize { index: 1, disk: 9 },
        DirSize { index: 3, disk: 5 },
        DirSize { index: 2, disk: 5 },
    ];
    assert_eq!(top_dirs(&dirs, 3), vec![1, 0, 3]);
    assert_eq!(top_dirs(&dirs, 9), vec![1, 0, 3, 2]);
    assert!(top_dirs(&dirs, 0).is_empty());
}

#[test]
fn a_comparison_for_people() {
    let report = DiffReport {
        old_root: "/a".to_owned(),
        new_root: "/b".to_owned(),
        disk_delta: "+1.0 KiB".to_owned(),
        apparent_delta: "-3 B".to_owned(),
        entry_delta: -2,
        counts: ChangeCounts {
            added: 1,
            removed: 2,
            grown: 3,
            shrunk: 4,
            touched: 5,
            type_changed: 6,
            dirs_added: 7,
            dirs_removed: 8,
        },
        top_dirs: vec![ChangedPath {
            delta: "+1.0 KiB".to_owned(),
            change: None,
            path: "/b/x".to_owned(),
        }],
        top_entries: vec![ChangedPath {
            delta: "+1.0 KiB".to_owned(),
            change: Some("grown".to_owned()),
            path: "/b/x/y".to_owned(),
        }],
    };
    assert_eq!(
        human_report(&report, 5),
        vec![
            "diff /a -> /b",
            "  total: +1.0 KiB disk, -3 B apparent, -2 entries",
            "  added 1, removed 2, grown 3, shrunk 4, touched 5, type-changed 6 (dirs: +7/-8)",
            "",
            "Top 5 directories by growth:",
            "      +1.0 KiB  /b/x",
            "",
            "Top 5 entries by growth:",
            "      +1.0 KiB  grown         /b/x/y",
        ]
    );
}

#[test]
fn only_growth_beyond_the_threshold_fails() {
    assert_eq!(diff_exit_code(None, i64::MAX), 0);
    assert_eq!(diff_exit_code(Some(10), 10), 0);
    assert_eq!(diff_exit_code(Some(10), 11), 1);
    assert_eq!(diff_exit_code(Some(0), -11), 0);
    assert_eq!(diff_exit_code(Some(u64::MAX), i64::MAX), 0);
}

#[test]
fn an_import_is_told() {
    let imported = Imported {
        input: "x.json".to_owned(),
        output: "x.cmbt".to_owned(),
        entries: 9,
        dirs: 2,
        real: 2048,
        apparent: 1536,
        errors: 1,
        hardlink_inodes: 3,
    };
    assert_eq!(
        import_report(&imported, false),
        vec![
            "Imported x.json into x.cmbt: 9 entries (2 dirs), 2.0 KiB real, 1.5 KiB apparent, 1 errors",
            "  hardlinked inodes: 3 (deduplicated, canonically attributed)",
        ]
    );
    assert!(import_report(&imported, true).is_empty());
}

#[test]
fn sizes_are_humanized() {
    assert_eq!(HumanSize(0).text(), "0 B");
    assert_eq!(HumanSize(1023).text(), "1023 B");
    assert_eq!(HumanSize(1536).text(), "1.5 KiB");
    assert_eq!(HumanSize(u64::MAX).text(), "16.0 EiB");
}

#[test]
fn a_broken_filter_ends_a_summary_before_the_scan() {
    let errors = vec!["unknown kind".to_owned()];
    let (lines, code) = filter_gate(Some("kind:x"), &errors).unwrap();
    assert_eq!(code, 2);
    assert_eq!(lines, filter_problems(&errors));
    assert_eq!(filter_gate(Some("kind:file"), &[]), None);
    assert_eq!(filter_gate(Some("  "), &errors), None, "no filter");
    assert_eq!(filter_gate(None, &errors), None);
}
