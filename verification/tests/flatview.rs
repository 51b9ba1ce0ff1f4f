//! The largest files and the breakdown by category.

use camembert::double::Double;
use camembert::flatview::{
    breakdown_percent, breakdown_rows, breakdown_supports_sort, breakdown_total_disk, flat_rows,
    flat_supports_sort, sort_breakdown_rows, sort_flat_rows, BreakdownRow, FileDetail, FlatSummary,
    GroupTotal, PatternKind, RestTotal, TopFile, UNCATEGORIZED_LABEL,
};
use camembert::model::NodeId;
use camembert::state::{SortKey, SortSpec};

fn value(x: Double) -> f64 {
    x.mant as f64 * (x.exp as f64).exp2()
}

fn sample_summary() -> FlatSummary {
    FlatSummary {
        groups: vec![
            GroupTotal {
                label: "node_modules".to_owned(),
                kind: PatternKind::Dir,
                apparent: 3000,
                disk: 3000,
                entries: 5,
            },
            GroupTotal {
                label: "*.log".to_owned(),
                kind: PatternKind::File,
                apparent: 500,
                disk: 500,
                entries: 2,
            },
        ],
        rest: RestTotal {
            apparent: 1500,
            disk: 1500,
            entries: 3,
        },
        top_files: vec![
            TopFile {
                node: NodeId::from_raw(1),
                name: "alpha.bin".into(),
                disk: 1000,
                hardlink: false,
            },
            TopFile {
                node: NodeId::from_raw(2),
                name: "bravo.log".into(),
                disk: 2000,
                hardlink: true,
            },
        ],
        truncated: false,
        provisional: false,
        epoch: 0,
    }
}

#[test]
fn flat_rows_without_outcome_carry_the_name_but_not_the_path() {
    let rows = flat_rows(&sample_summary(), None);
    assert_eq!(rows.len(), 2);
    for row in &rows {
        assert!(row.path.is_none(), "no path without the frozen arena");
        assert!(row.apparent.is_none(), "no apparent size on TopFile itself");
    }
    assert_eq!(rows[0].name, "alpha.bin");
    assert_eq!(rows[1].name, "bravo.log");
    assert!(rows[1].hardlink);
}

#[test]
fn sort_flat_rows_by_name_diverges_from_disk_order() {
    let rows = flat_rows(&sample_summary(), None);
    let ascending = sort_flat_rows(
        &rows,
        SortSpec {
            key: SortKey::Name,
            descending: false,
        },
    );
    assert_eq!(ascending, vec![0, 1]);

    let descending = sort_flat_rows(
        &rows,
        SortSpec {
            key: SortKey::Name,
            descending: true,
        },
    );
    assert_eq!(descending, vec![1, 0]);
}

#[test]
fn sort_flat_rows_by_disk_matches_fold_order() {
    let rows = flat_rows(&sample_summary(), None);
    let sort = SortSpec {
        key: SortKey::Disk,
        descending: true,
    };
    let order = sort_flat_rows(&rows, sort);
    assert_eq!(order, vec![1, 0], "2000 before 1000");
}

#[test]
fn sort_flat_rows_ascending_toggle() {
    let rows = flat_rows(&sample_summary(), None);
    let sort = SortSpec {
        key: SortKey::Disk,
        descending: false,
    };
    assert_eq!(sort_flat_rows(&rows, sort), vec![0, 1]);
}

#[test]
fn flat_supports_sort_matrix() {
    assert!(flat_supports_sort(SortKey::Disk));
    assert!(flat_supports_sort(SortKey::Apparent));
    assert!(flat_supports_sort(SortKey::Name));
    assert!(!flat_supports_sort(SortKey::Items));
    assert!(!flat_supports_sort(SortKey::Mtime));
    assert!(!flat_supports_sort(SortKey::Errors));
}

#[test]
fn breakdown_rows_always_include_a_trailing_rest_row() {
    let rows = breakdown_rows(&sample_summary());
    assert_eq!(rows.len(), 3);
    assert_eq!(rows[2].label, UNCATEGORIZED_LABEL);
    assert!(rows[2].kind.is_none());
    assert_eq!(rows[2].disk, 1500);
}

#[test]
fn breakdown_total_and_percent_match_the_disjoint_invariant() {
    let summary = sample_summary();
    let total = breakdown_total_disk(&summary);
    assert_eq!(total, 5000, "3000 + 500 + 1500");
    let rows = breakdown_rows(&summary);
    assert!((value(breakdown_percent(&rows[0], total)) - 60.0).abs() < 1e-9);
    assert!((value(breakdown_percent(&rows[2], total)) - 30.0).abs() < 1e-9);
}

#[test]
fn breakdown_percent_on_empty_scan_is_zero_not_nan() {
    let row = BreakdownRow {
        label: "x".to_owned(),
        kind: None,
        disk: 0,
        apparent: 0,
        entries: 0,
    };
    assert_eq!(value(breakdown_percent(&row, 0)), 0.0);
}

#[test]
fn sort_breakdown_rows_by_name_and_items() {
    let rows = breakdown_rows(&sample_summary());
    let by_name = sort_breakdown_rows(
        &rows,
        SortSpec {
            key: SortKey::Name,
            descending: false,
        },
    );
    let labels: Vec<&str> = by_name.iter().map(|&i| rows[i].label.as_str()).collect();
    assert_eq!(labels, ["(uncategorized)", "*.log", "node_modules"]);

    let by_items = sort_breakdown_rows(
        &rows,
        SortSpec {
            key: SortKey::Items,
            descending: true,
        },
    );
    assert_eq!(rows[by_items[0]].entries, 5, "node_modules has most items");
}

#[test]
fn breakdown_supports_sort_matrix() {
    assert!(breakdown_supports_sort(SortKey::Disk));
    assert!(breakdown_supports_sort(SortKey::Apparent));
    assert!(breakdown_supports_sort(SortKey::Name));
    assert!(breakdown_supports_sort(SortKey::Items));
    assert!(!breakdown_supports_sort(SortKey::Mtime));
    assert!(!breakdown_supports_sort(SortKey::Errors));
}

#[test]
fn a_percentage_is_the_nearest_double() {
    let row = BreakdownRow {
        label: "x".to_owned(),
        kind: None,
        disk: 1,
        apparent: 0,
        entries: 0,
    };
    assert_eq!(value(breakdown_percent(&row, 3)), 100.0 * 1.0 / 3.0);
}

#[test]
fn details_fill_in_size_and_path() {
    let details = vec![
        FileDetail {
            apparent: 900,
            path: b"/r/alpha.bin".to_vec(),
        },
        FileDetail {
            apparent: 1900,
            path: b"/r/bravo.log".to_vec(),
        },
    ];
    let rows = flat_rows(&sample_summary(), Some(&details));
    assert_eq!(rows[0].apparent, Some(900));
    assert_eq!(rows[1].path.as_deref(), Some(&b"/r/bravo.log"[..]));
    let by_apparent = sort_flat_rows(
        &rows,
        SortSpec {
            key: SortKey::Apparent,
            descending: true,
        },
    );
    assert_eq!(by_apparent, vec![1, 0]);
}
