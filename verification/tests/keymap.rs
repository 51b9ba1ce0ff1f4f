//! The keys and what they do.

use std::collections::HashSet;
use std::sync::Arc;

use camembert::keymap::{
    dispatch_simple, extra_keys, mouse_keys, simple_action, simple_keys, KeyCode, SimpleAction,
};
use camembert::model::{DirId, DirTotals, NodeId, Row, RowState, ScanStats, ViewSnapshot};
use camembert::state::{UiState, ViewMode};

fn snapshot() -> Arc<ViewSnapshot> {
    Arc::new(ViewSnapshot {
        generation: 1,
        dir: DirId::from_raw(0),
        parent: None,
        path: b"/x".to_vec(),
        rows: vec![
            Row {
                name: b"a".to_vec(),
                node: NodeId::from_raw(1),
                dir: None,
                is_dir: false,
                apparent: 1,
                disk: 1,
                items: 1,
                errors: 0,
                state: RowState::File,
                mtime: 0,
            },
            Row {
                name: b"b".to_vec(),
                node: NodeId::from_raw(2),
                dir: None,
                is_dir: false,
                apparent: 2,
                disk: 2,
                items: 1,
                errors: 0,
                state: RowState::File,
                mtime: 0,
            },
        ],
        totals: DirTotals::default(),
        stats: ScanStats {
            entries: 2,
            dirs: 0,
            errors: 0,
            disk_bytes: 3,
            elapsed_nanos: 1_000_000,
            root_complete: true,
        },
        hardlink_inodes: 0,
        degraded: false,
    })
}

#[test]
fn simple_table_dispatches_match_their_documented_action() {
    let mut ui = UiState::new(snapshot());

    assert!(dispatch_simple(KeyCode::Down, &mut ui));
    assert_eq!(ui.cursor(), 1, "j/Down moved down");
    assert!(dispatch_simple(KeyCode::Char('k'), &mut ui));
    assert_eq!(ui.cursor(), 0, "k moved back up");

    assert!(dispatch_simple(KeyCode::Char('G'), &mut ui));
    assert_eq!(ui.cursor(), 1);
    assert!(dispatch_simple(KeyCode::Char('g'), &mut ui));
    assert_eq!(ui.cursor(), 0);

    assert!(ui.show_apparent);
    assert!(dispatch_simple(KeyCode::Char('p'), &mut ui));
    assert!(!ui.show_apparent);

    assert!(!ui.cheatsheet_open());
    assert!(dispatch_simple(KeyCode::Char('?'), &mut ui));
    assert!(ui.cheatsheet_open());

    assert_eq!(ui.mode(), ViewMode::Tree);
    assert!(dispatch_simple(KeyCode::Char('t'), &mut ui));
    assert_eq!(ui.mode(), ViewMode::FlatTop);
    assert!(dispatch_simple(KeyCode::Char('b'), &mut ui));
    assert_eq!(ui.mode(), ViewMode::Breakdown);

    assert!(
        !dispatch_simple(KeyCode::Char('D'), &mut ui),
        "not in the table"
    );
    assert!(
        !dispatch_simple(KeyCode::Char('n'), &mut ui),
        "sort keys are hand-written now (mode-aware), not in the table"
    );
}

#[test]
fn every_simple_code_is_unique_and_labeled() {
    let mut seen = HashSet::new();
    for key in simple_keys() {
        for code in key.codes {
            assert!(seen.insert(code), "duplicate dispatch for {code:?}");
        }
        assert!(!key.keys.is_empty());
        assert!(!key.action.is_empty());
    }
}

#[test]
fn the_table_names_every_action_once() {
    let rows = simple_keys();
    for (i, row) in rows.iter().enumerate() {
        for code in &row.codes {
            assert_eq!(simple_action(*code), Some(row.apply));
        }
        for other in &rows[i + 1..] {
            assert_ne!(row.apply, other.apply);
        }
    }
    assert_eq!(simple_action(KeyCode::Char('z')), Some(SimpleAction::ToggleZen));
    assert_eq!(simple_action(KeyCode::Enter), None);
}

#[test]
fn the_other_tables_are_labeled() {
    for row in extra_keys().iter().chain(mouse_keys().iter()) {
        assert!(!row.keys.is_empty());
        assert!(!row.action.is_empty());
    }
}
