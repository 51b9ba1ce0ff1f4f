//! Deleted files that are still held open, and the warning before a deletion.

use camembert::freeable_panel::{
    build_open_warning, format_holder, group_by_ancestor, is_path_prefix, should_toast,
    warning_text, Coverage, DeletedEntry, Holder, OpenWarning,
};

fn entry(evidence: &[u8], bytes: u64) -> DeletedEntry {
    DeletedEntry {
        dev: 1,
        ino: 1,
        bytes,
        evidence: evidence.to_vec(),
        holders: Vec::new(),
    }
}

fn holder(pid: u32, comm: Option<&str>) -> Holder {
    Holder {
        pid,
        comm: comm.map(str::to_owned),
    }
}

#[test]
fn groups_by_deepest_existing_ancestor_longest_prefix_wins() {
    let entries = vec![
        entry(b"/home/user/proj/build/big.o (deleted)", 300),
        entry(b"/home/user/proj/small.log (deleted)", 100),
        entry(b"/var/log/other.log (deleted)", 50),
    ];
    let ancestors = vec![b"/home/user".to_vec(), b"/home/user/proj".to_vec()];
    let groups = group_by_ancestor(&entries, &ancestors);
    assert_eq!(
        groups.len(),
        2,
        "one matched group, one unmatched catch-all"
    );
    assert_eq!(
        groups[0].ancestor,
        Some(b"/home/user/proj".to_vec()),
        "deepest (longest) candidate wins over the shallower /home/user"
    );
    assert_eq!(groups[0].entries, vec![0, 1]);
    assert_eq!(
        groups[1].ancestor, None,
        "unmatched entry: the catch-all group"
    );
    assert_eq!(groups[1].entries, vec![2]);
}

#[test]
fn ancestor_prefix_respects_path_boundaries_not_just_bytes() {
    let entries = vec![entry(b"/home/ab/x (deleted)", 10)];
    let ancestors = vec![b"/home/a".to_vec()];
    let groups = group_by_ancestor(&entries, &ancestors);
    assert_eq!(
        groups[0].ancestor, None,
        "byte-prefix only, not a real path component prefix: no match"
    );
}

#[test]
fn is_path_prefix_rejects_byte_prefix_that_is_not_a_path_boundary() {
    assert!(
        !is_path_prefix(b"/a/bb", b"/a/b"),
        "/a/b must not match /a/bb"
    );
    assert!(
        is_path_prefix(b"/a/b/c", b"/a/b"),
        "/a/b/c is genuinely under /a/b"
    );
    assert!(is_path_prefix(b"/a/b", b"/a/b"), "exact match counts");
    assert!(
        !is_path_prefix(b"/a/b", b""),
        "an empty ancestor matches nothing"
    );
}

#[test]
fn exact_ancestor_match_and_group_order_follows_first_seen_largest_entry() {
    let entries = vec![
        entry(b"/a/big (deleted)", 1000),
        entry(b"/b/small (deleted)", 1),
    ];
    let ancestors = vec![b"/a".to_vec(), b"/b".to_vec()];
    let groups = group_by_ancestor(&entries, &ancestors);
    assert_eq!(
        groups[0].ancestor,
        Some(b"/a".to_vec()),
        "group containing the largest (first-seen) entry sorts first"
    );
    assert_eq!(groups[1].ancestor, Some(b"/b".to_vec()));
}

#[test]
fn no_ancestors_puts_everything_in_the_catch_all() {
    let entries = vec![entry(b"/anything (deleted)", 5)];
    let groups = group_by_ancestor(&entries, &[]);
    assert_eq!(groups.len(), 1);
    assert_eq!(groups[0].ancestor, None);
}

#[test]
fn format_holder_falls_back_to_bare_pid() {
    assert_eq!(format_holder(42, &Some("bash".to_owned())), "42 (bash)");
    assert_eq!(format_holder(42, &None), "42");
    assert_eq!(
        format_holder(42, &Some(String::new())),
        "42",
        "empty comm treated like missing"
    );
}

#[test]
fn toast_requires_both_bounds() {
    const MIB: u64 = 1024 * 1024;
    const GIB: u64 = 1024 * MIB;
    assert!(!should_toast(50 * MIB, GIB), "under the 100 MiB floor");
    assert!(
        !should_toast(150 * MIB, 1000 * GIB),
        "over the floor but under 1% of a huge filesystem"
    );
    assert!(should_toast(150 * MIB, 10 * GIB), "over both bounds");
    assert!(!should_toast(0, 10 * GIB), "nothing freeable");
    assert!(
        !should_toast(200 * MIB, 0),
        "degenerate zero-capacity filesystem never divides by zero"
    );
}

#[test]
fn no_warning_when_nothing_matched_either_kind() {
    let lookups = vec![None, None];
    assert!(
        build_open_warning(
            &lookups,
            &[],
            Coverage {
                seen: 5,
                readable: 5
            }
        )
        .is_none()
    );
}

#[test]
fn warning_aggregates_distinct_holders_ranked_by_entries_held() {
    let lookups = vec![
        Some(vec![holder(10, Some("nginx"))]),
        Some(vec![holder(10, Some("nginx")), holder(20, Some("sidecar"))]),
        None,
    ];
    let warning = build_open_warning(
        &lookups,
        &[],
        Coverage {
            seen: 5,
            readable: 5,
        },
    )
    .expect("two entries open");
    assert_eq!(warning.entries_open, 2);
    assert_eq!(warning.contained_open, 0);
    assert_eq!(warning.holder_count, 2);
    assert_eq!(
        warning.top_holders[0].0, 10,
        "pid 10 holds more marked entries open, ranks first"
    );
    assert!(
        warning.partial_coverage.is_none(),
        "full coverage: no caveat"
    );
}

#[test]
fn containment_matches_alone_produce_a_warning_and_dedupe_holders_with_direct_matches() {
    let marked_file_lookups = vec![Some(vec![holder(10, Some("nginx"))]), None];
    let contained_holders = vec![
        vec![holder(10, Some("nginx"))], // same pid as a direct match
        vec![holder(30, Some("backup"))],
    ];
    let warning = build_open_warning(
        &marked_file_lookups,
        &contained_holders,
        Coverage {
            seen: 4,
            readable: 4,
        },
    )
    .expect("both channels contributed");
    assert_eq!(warning.entries_open, 1, "one marked file directly open");
    assert_eq!(
        warning.contained_open, 2,
        "two open files found inside marked directories"
    );
    assert_eq!(
        warning.holder_count, 2,
        "pid 10 counted once despite appearing in both channels"
    );
    assert_eq!(
        warning.top_holders[0].0, 10,
        "pid 10 touches two matches (direct + contained), ranks first"
    );
}

#[test]
fn containment_only_still_warns_with_no_marked_files_open() {
    let marked_file_lookups: Vec<Option<Vec<Holder>>> = vec![None, None];
    let contained_holders = vec![vec![holder(99, Some("postgres"))]];
    let warning = build_open_warning(
        &marked_file_lookups,
        &contained_holders,
        Coverage {
            seen: 1,
            readable: 1,
        },
    )
    .expect("containment alone is enough to warn");
    assert_eq!(warning.entries_open, 0);
    assert_eq!(warning.contained_open, 1);
    assert_eq!(
        warning_text(&warning),
        "1 file inside marked directories is open in 1 process (top holders: 99 (postgres))"
    );
}

#[test]
fn warning_carries_the_partial_coverage_caveat() {
    let lookups = vec![Some(vec![holder(1, None)])];
    let warning = build_open_warning(
        &lookups,
        &[],
        Coverage {
            seen: 10,
            readable: 4,
        },
    )
    .expect("one entry open");
    assert_eq!(warning.partial_coverage, Some((4, 10)));
    let text = warning_text(&warning);
    assert!(
        text.contains("open-file check saw 4 of 10 processes"),
        "text: {text}"
    );
}

#[test]
fn warning_text_pluralizes_and_lists_top_holders() {
    let warning = OpenWarning {
        entries_open: 3,
        contained_open: 0,
        holder_count: 2,
        top_holders: vec![(10, Some("nginx".to_owned())), (20, None)],
        partial_coverage: None,
    };
    assert_eq!(
        warning_text(&warning),
        "3 marked entries are open in 2 processes (top holders: 10 (nginx), 20)"
    );
}

#[test]
fn warning_text_singular_entry_and_process() {
    let warning = OpenWarning {
        entries_open: 1,
        contained_open: 0,
        holder_count: 1,
        top_holders: vec![(7, None)],
        partial_coverage: None,
    };
    assert_eq!(
        warning_text(&warning),
        "1 marked entry is open in 1 process (top holders: 7)"
    );
}

#[test]
fn warning_text_combines_both_channels() {
    let warning = OpenWarning {
        entries_open: 1,
        contained_open: 2,
        holder_count: 2,
        top_holders: vec![(10, Some("nginx".to_owned())), (30, None)],
        partial_coverage: None,
    };
    assert_eq!(
        warning_text(&warning),
        "1 marked entry and 2 files inside marked directories are open in 2 processes \
         (top holders: 10 (nginx), 30)"
    );
}
