//! The browser's state.

use std::sync::Arc;

use camembert::model::{DirId, DirTotals, NodeId, Row, RowState, ScanStats, ViewSnapshot};
use camembert::state::{
    rows_alike,
    show_hardlink_note, show_updating_note, FrameGeometry, MarkRefusal, SortKey, SortSpec,
    TableGeometry, UiState, ViewMode, WheelGeometry,
};

fn stats(root_complete: bool) -> ScanStats {
    ScanStats {
        entries: 10,
        dirs: 3,
        errors: 0,
        disk_bytes: 1024,
        elapsed_nanos: 50_000_000,
        root_complete,
    }
}

fn file_row(name: &[u8], disk: u64, apparent: u64, mtime: i64) -> Row {
    Row {
        name: name.to_vec(),
        node: NodeId::from_raw(0),
        dir: None,
        is_dir: false,
        apparent,
        disk,
        items: 1,
        errors: 0,
        state: RowState::File,
        mtime,
    }
}

fn dir_row(name: &[u8], dir: u32, disk: u64, items: u64) -> Row {
    Row {
        name: name.to_vec(),
        node: NodeId::from_raw(0),
        dir: Some(DirId::from_raw(dir)),
        is_dir: true,
        apparent: disk,
        disk,
        items,
        errors: 0,
        state: RowState::Scanning,
        mtime: 0,
    }
}

fn snapshot(
    generation: u64,
    dir: u32,
    parent: Option<u32>,
    rows: Vec<Row>,
    root_complete: bool,
) -> Arc<ViewSnapshot> {
    Arc::new(ViewSnapshot {
        generation,
        dir: DirId::from_raw(dir),
        parent: parent.map(DirId::from_raw),
        path: b"/x".to_vec(),
        rows,
        totals: DirTotals::default(),
        stats: stats(root_complete),
        hardlink_inodes: 0,
        degraded: false,
    })
}

fn names(state: &UiState) -> Vec<&[u8]> {
    state
        .rows_indexed()
        .into_iter()
        .map(|(_, r)| r.name.as_slice())
        .collect()
}

#[test]
fn default_sort_is_disk_descending_with_name_tiebreak() {
    let state = UiState::new(snapshot(
        1,
        0,
        None,
        vec![
            file_row(b"small", 10, 1, 0),
            file_row(b"tie-b", 50, 2, 0),
            file_row(b"big", 100, 3, 0),
            file_row(b"tie-a", 50, 4, 0),
        ],
        false,
    ));
    assert_eq!(
        names(&state),
        [b"big" as &[u8], b"tie-a", b"tie-b", b"small"],
        "disk desc, ties by name ascending"
    );
}

#[test]
fn each_sort_key_orders_and_toggles() {
    let mut c = dir_row(b"c", 1, 15, 7);
    c.mtime = 7;
    let rows = vec![file_row(b"b", 10, 300, 5), file_row(b"a", 20, 200, 9), c];
    let mut state = UiState::new(snapshot(1, 0, None, rows, false));

    state.press_sort(SortKey::Apparent);
    assert_eq!(names(&state), [b"b" as &[u8], b"a", b"c"]);

    state.press_sort(SortKey::Name);
    assert_eq!(names(&state), [b"a" as &[u8], b"b", b"c"], "name ascends");
    state.press_sort(SortKey::Name);
    assert_eq!(names(&state), [b"c" as &[u8], b"b", b"a"], "toggled");

    state.press_sort(SortKey::Mtime);
    assert_eq!(names(&state), [b"a" as &[u8], b"c", b"b"], "newest first");

    state.press_sort(SortKey::Items);
    assert_eq!(names(&state), [b"c" as &[u8], b"a", b"b"]);

    state.press_sort(SortKey::Disk);
    assert_eq!(names(&state), [b"a" as &[u8], b"c", b"b"]);
    state.press_sort(SortKey::Disk);
    assert_eq!(names(&state), [b"b" as &[u8], b"c", b"a"], "disk asc");
}

#[test]
fn cursor_moves_and_clamps_on_shrinking_rows() {
    let mut state = UiState::new(snapshot(
        1,
        0,
        None,
        vec![
            file_row(b"a", 3, 3, 0),
            file_row(b"b", 2, 2, 0),
            file_row(b"c", 1, 1, 0),
        ],
        false,
    ));
    state.move_down();
    state.move_down();
    state.move_down();
    assert_eq!(state.cursor(), 2);
    state.move_bottom();
    assert_eq!(state.cursor(), 2);

    state.apply_snapshot(snapshot(2, 0, None, vec![file_row(b"a", 3, 3, 0)], false));
    assert_eq!(state.cursor(), 0);

    state.apply_snapshot(snapshot(3, 0, None, Vec::new(), false));
    assert_eq!(state.cursor(), 0);
    assert!(state.selected().is_none());
    state.move_down();
    state.move_bottom();
    assert_eq!(state.cursor(), 0);
}

#[test]
fn select_at_clamps_and_clears_hover() {
    let mut state = UiState::new(snapshot(
        1,
        0,
        None,
        vec![
            file_row(b"a", 3, 3, 0),
            file_row(b"b", 2, 2, 0),
            file_row(b"c", 1, 1, 0),
        ],
        false,
    ));
    assert_eq!(state.row_count(), 3);
    state.set_hover(2);
    state.select_at(1);
    assert_eq!(state.cursor(), 1);
    assert_eq!(state.hover(), None, "a click reclaims the card too");

    state.select_at(99);
    assert_eq!(state.cursor(), 2);
}

#[test]
fn descend_and_ascend_restore_the_cursor() {
    let mut state = UiState::new(snapshot(
        1,
        0,
        None,
        vec![
            file_row(b"big", 100, 100, 0),
            dir_row(b"sub", 7, 50, 3),
            file_row(b"small", 1, 1, 0),
        ],
        false,
    ));
    state.move_down();
    assert_eq!(&*state.selected().unwrap().name, b"sub");

    let target = state.descend().expect("dir row descends");
    assert_eq!(target, DirId::from_raw(7));
    assert_eq!(state.pending_nav(), Some(target));
    assert_eq!(names(&state), [b"big" as &[u8], b"sub", b"small"]);
    assert_eq!(state.descend(), None);
    assert_eq!(state.ascend(), None);

    state.apply_snapshot(snapshot(
        2,
        7,
        Some(0),
        vec![file_row(b"x", 30, 30, 0), file_row(b"y", 20, 20, 0)],
        false,
    ));
    assert_eq!(state.pending_nav(), None);
    assert_eq!(state.cursor(), 0);

    let parent = state.ascend().expect("has a parent");
    assert_eq!(parent, DirId::from_raw(0));
    state.apply_snapshot(snapshot(
        3,
        0,
        None,
        vec![
            file_row(b"big", 100, 100, 0),
            dir_row(b"sub", 7, 50, 3),
            file_row(b"small", 1, 1, 0),
        ],
        false,
    ));
    assert_eq!(state.cursor(), 1);
    assert_eq!(&*state.selected().unwrap().name, b"sub");
}

#[test]
fn jump_to_ancestor_skips_several_levels_in_one_request() {
    let mut state = UiState::new(snapshot(1, 0, None, vec![dir_row(b"a", 1, 10, 1)], false));
    state.descend();
    state.apply_snapshot(snapshot(
        2,
        1,
        Some(0),
        vec![dir_row(b"b", 2, 10, 1)],
        false,
    ));
    state.descend();
    state.apply_snapshot(snapshot(
        3,
        2,
        Some(1),
        vec![dir_row(b"c", 3, 10, 1)],
        false,
    ));
    state.descend();
    state.apply_snapshot(snapshot(
        4,
        3,
        Some(2),
        vec![file_row(b"leaf", 1, 1, 0)],
        false,
    ));

    assert_eq!(
        state.stack_dirs(),
        vec![DirId::from_raw(0), DirId::from_raw(1), DirId::from_raw(2)]
    );

    let target = state
        .jump_to_ancestor(DirId::from_raw(0))
        .expect("root is on the stack");
    assert_eq!(target, DirId::from_raw(0));
    assert_eq!(state.pending_nav(), Some(DirId::from_raw(0)));
    assert_eq!(state.stack_dirs(), Vec::new());

    state.apply_snapshot(snapshot(5, 0, None, vec![dir_row(b"a", 1, 10, 1)], false));
    assert_eq!(state.pending_nav(), None);
}

#[test]
fn jump_to_ancestor_refuses_the_current_dir_and_unknown_targets() {
    let mut state = UiState::new(snapshot(1, 0, None, vec![dir_row(b"a", 1, 10, 1)], false));
    state.descend();
    state.apply_snapshot(snapshot(
        2,
        1,
        Some(0),
        vec![file_row(b"f", 1, 1, 0)],
        false,
    ));

    assert_eq!(
        state.jump_to_ancestor(DirId::from_raw(1)),
        None,
        "already there"
    );
    assert_eq!(
        state.jump_to_ancestor(DirId::from_raw(99)),
        None,
        "not an open ancestor"
    );
    assert_eq!(
        state.stack_dirs(),
        vec![DirId::from_raw(0)]
    );
}

#[test]
fn card_row_prefers_hover_then_falls_back_to_cursor() {
    let mut state = UiState::new(snapshot(
        1,
        0,
        None,
        vec![file_row(b"a", 20, 20, 0), file_row(b"b", 10, 10, 0)],
        false,
    ));
    assert_eq!(&*state.card_row().unwrap().name, b"a", "no hover: cursor");
    state.set_hover(1);
    assert_eq!(&*state.card_row().unwrap().name, b"b", "hover wins");
    assert_eq!(state.hover(), Some(1));

    state.move_down();
    assert_eq!(state.hover(), None, "keyboard clears hover");
    assert_eq!(&*state.card_row().unwrap().name, b"b", "now via cursor");
}

#[test]
fn hover_does_not_survive_a_snapshot_change() {
    let mut state = UiState::new(snapshot(
        1,
        0,
        None,
        vec![file_row(b"a", 20, 20, 0), file_row(b"b", 10, 10, 0)],
        false,
    ));
    state.set_hover(1);
    state.apply_snapshot(snapshot(
        1,
        0,
        None,
        vec![file_row(b"a", 20, 20, 0), file_row(b"b", 10, 10, 0)],
        false,
    ));
    assert_eq!(state.hover(), None, "reapplying a snapshot drops hover");
}

#[test]
fn table_geometry_hit_test() {
    let geometry = TableGeometry {
        x: 2,
        y: 5,
        width: 20,
        height: 3,
        offset: 4,
    };
    assert_eq!(geometry.hit_test(10, 5), Some(4), "first visible row");
    assert_eq!(geometry.hit_test(10, 7), Some(6), "third visible row");
    assert_eq!(geometry.hit_test(10, 8), None, "below the table");
    assert_eq!(geometry.hit_test(1, 5), None, "left of the table");
    assert_eq!(geometry.hit_test(22, 5), None, "right of the table");
}

#[test]
fn wheel_geometry_hit_test() {
    let geometry = WheelGeometry {
        x: 10,
        y: 3,
        width: 2,
        height: 2,
        cells: vec![Some(0), Some(1), None, None],
        targets: vec![Some(7), None],
    };
    assert_eq!(geometry.hit_test(10, 3), Some(7), "slice 0 -> its row");
    assert_eq!(geometry.hit_test(11, 3), None, "rest slice: not navigable");
    assert_eq!(geometry.hit_test(10, 4), None, "outside the disc");
    assert_eq!(geometry.hit_test(0, 0), None, "outside the wheel area");
}

#[test]
fn frame_geometry_breadcrumb_and_card_hit_tests() {
    let geometry = FrameGeometry {
        breadcrumb_row: 0,
        breadcrumb: vec![(1, 5, Some(DirId::from_raw(0))), (6, 9, None)],
        errors_card: Some((20, 1, 10, 3)),
        ..Default::default()
    };
    assert_eq!(geometry.breadcrumb_hit(2, 0), Some(DirId::from_raw(0)));
    assert_eq!(geometry.breadcrumb_hit(7, 0), None, "current dir segment");
    assert_eq!(geometry.breadcrumb_hit(2, 1), None, "wrong row");
    assert!(geometry.errors_card_hit(25, 2));
    assert!(!geometry.errors_card_hit(5, 2));
}

#[test]
fn descend_on_a_file_or_excluded_dir_is_a_no_op() {
    let mut excluded = dir_row(b"mnt", 0, 5, 1);
    excluded.dir = None;
    let mut state = UiState::new(snapshot(
        1,
        0,
        None,
        vec![file_row(b"f", 10, 10, 0), excluded],
        false,
    ));
    assert_eq!(state.descend(), None, "file");
    state.move_down();
    assert_eq!(state.descend(), None, "excluded mount point");
    assert!(state.pending_nav().is_none());
}

#[test]
fn ascend_at_the_root_is_a_no_op() {
    let mut state = UiState::new(snapshot(1, 0, None, vec![file_row(b"f", 1, 1, 0)], false));
    assert_eq!(state.ascend(), None);
}

#[test]
fn resort_happens_only_on_generation_or_sort_change() {
    let snap = snapshot(
        1,
        0,
        None,
        vec![file_row(b"a", 1, 1, 0), file_row(b"b", 2, 2, 0)],
        false,
    );
    let mut state = UiState::new(Arc::clone(&snap));
    let before: Vec<Vec<u8>> = names(&state).into_iter().map(<[u8]>::to_vec).collect();
    state.apply_snapshot(snap);
    assert_eq!(names(&state), before);

    state.apply_snapshot(snapshot(
        2,
        0,
        None,
        vec![file_row(b"a", 9, 9, 0), file_row(b"b", 2, 2, 0)],
        false,
    ));
    assert_eq!(names(&state), [b"a" as &[u8], b"b"]);
}

fn markable_rows() -> Vec<Row> {
    let mut big = file_row(b"big", 100, 100, 0);
    big.node = NodeId::from_raw(1);
    let mut sub = dir_row(b"sub", 7, 50, 3);
    sub.node = NodeId::from_raw(2);
    sub.state = RowState::Complete;
    let mut mnt = dir_row(b"mnt", 0, 5, 1);
    mnt.node = NodeId::from_raw(3);
    mnt.dir = None;
    vec![big, sub, mnt]
}

#[test]
fn marking_is_locked_out_while_the_scan_runs() {
    let mut state = UiState::new(snapshot(1, 0, None, markable_rows(), false));
    assert_eq!(state.toggle_mark(), Err(MarkRefusal::ScanRunning));
    assert!(state.marks().is_empty());
    assert!(!state.open_confirm(0), "confirm locked out too");
    assert!(state.confirm().is_none());
}

#[test]
fn marking_toggles_captures_the_path_and_moves_down() {
    let mut state = UiState::new(snapshot(1, 0, None, markable_rows(), true));
    assert_eq!(state.toggle_mark(), Ok(()));
    assert_eq!(state.cursor(), 1, "space moves down like dua");
    assert!(state.is_marked(NodeId::from_raw(1)));
    assert_eq!(state.marks().len(), 1);
    let mark = &state.marks()[0];
    assert_eq!(mark.path, b"/x/big".to_vec());
    assert!(!mark.is_dir);
    assert_eq!(mark.disk, 100);

    assert_eq!(state.toggle_mark(), Ok(()));
    assert_eq!(state.marks().len(), 2);
    assert!(state.marks()[1].is_dir);

    state.move_up();
    assert_eq!(state.toggle_mark(), Ok(()));
    assert!(!state.is_marked(NodeId::from_raw(2)));
    assert_eq!(state.marks().len(), 1);
}

#[test]
fn mount_points_refuse_marks_and_empty_views_are_a_no_op() {
    let mut state = UiState::new(snapshot(1, 0, None, markable_rows(), true));
    state.move_bottom();
    assert_eq!(state.toggle_mark(), Err(MarkRefusal::MountPoint));
    assert!(state.marks().is_empty());

    let mut empty = UiState::new(snapshot(1, 0, None, Vec::new(), true));
    assert_eq!(empty.toggle_mark(), Ok(()), "no row: silent no-op");
    assert!(empty.marks().is_empty());
}

#[test]
fn error_rows_stay_markable() {
    let mut err_dir = dir_row(b"locked", 4, 10, 1);
    err_dir.node = NodeId::from_raw(9);
    err_dir.state = RowState::Error;
    let mut state = UiState::new(snapshot(1, 0, None, vec![err_dir], true));
    assert_eq!(state.toggle_mark(), Ok(()), "unreadable dirs are deletable");
    assert!(state.is_marked(NodeId::from_raw(9)));
}

#[test]
fn marked_summary_sums_count_and_disk() {
    let mut state = UiState::new(snapshot(1, 0, None, markable_rows(), true));
    assert_eq!(state.marked_summary(), None);
    state.toggle_mark().unwrap();
    state.toggle_mark().unwrap();
    assert_eq!(state.marked_summary(), Some((2, 150)));
    state.unmark_all();
    assert_eq!(state.marked_summary(), None);
    assert!(!state.is_marked(NodeId::from_raw(1)));
}

#[test]
fn confirm_modal_state_machine() {
    let mut state = UiState::new(snapshot(1, 0, None, markable_rows(), true));
    assert!(!state.open_confirm(0), "nothing marked: refuses to open");
    assert!(state.take_confirmed_marks().is_none(), "nothing to confirm");

    state.toggle_mark().unwrap();
    assert!(state.open_confirm(2));
    assert_eq!(state.confirm().unwrap().hardlink_files, 2);

    state.cancel_confirm();
    assert!(state.confirm().is_none());
    assert_eq!(state.marks().len(), 1, "cancel keeps the marks");

    assert!(state.open_confirm(0));
    let confirmed = state.take_confirmed_marks().expect("modal was open");
    assert_eq!(confirmed.len(), 1);
    assert_eq!(confirmed[0].node, NodeId::from_raw(1));
    assert!(state.confirm().is_none());
    assert!(state.marks().is_empty());
    assert!(!state.is_marked(NodeId::from_raw(1)));
}

#[test]
fn review_refuses_to_open_with_nothing_marked_and_moves_within_bounds() {
    let mut state = UiState::new(snapshot(1, 0, None, markable_rows(), true));
    assert!(!state.open_review(), "nothing marked: refused");
    assert!(state.review().is_none());

    state.toggle_mark().unwrap();
    state.toggle_mark().unwrap();
    assert!(state.open_review());
    assert_eq!(state.review().unwrap().cursor, 0);

    state.review_move_down();
    assert_eq!(state.review().unwrap().cursor, 1);
    state.review_move_down();
    assert_eq!(state.review().unwrap().cursor, 1);
    state.review_move_up();
    state.review_move_up();
    assert_eq!(state.review().unwrap().cursor, 0);

    state.close_review();
    assert!(state.review().is_none());
    assert_eq!(state.marks().len(), 2, "closing keeps the marks");
}

#[test]
fn unmark_at_review_cursor_removes_exactly_that_entry_and_closes_when_empty() {
    let mut state = UiState::new(snapshot(1, 0, None, markable_rows(), true));
    state.toggle_mark().unwrap();
    state.toggle_mark().unwrap();
    state.open_review();
    state.review_move_down();

    state.unmark_at_review_cursor();
    assert!(state.review().is_some(), "one mark left: list stays open");
    assert_eq!(state.marks().len(), 1);
    assert!(state.is_marked(NodeId::from_raw(1)), "big unaffected");
    assert!(!state.is_marked(NodeId::from_raw(2)), "sub unmarked");
    assert_eq!(
        state.review().unwrap().cursor,
        0,
        "clamped onto the last row"
    );

    state.unmark_at_review_cursor();
    assert!(state.review().is_none(), "last mark gone: list auto-closes");
    assert!(state.marks().is_empty());
}

#[test]
fn unmark_at_review_cursor_without_a_review_open_is_a_no_op() {
    let mut state = UiState::new(snapshot(1, 0, None, markable_rows(), true));
    state.toggle_mark().unwrap();
    state.unmark_at_review_cursor();
    assert_eq!(state.marks().len(), 1, "untouched");
}

#[test]
fn cheatsheet_toggles() {
    let mut state = UiState::new(snapshot(1, 0, None, Vec::new(), true));
    assert!(!state.cheatsheet_open());
    state.open_cheatsheet();
    assert!(state.cheatsheet_open());
    state.close_cheatsheet();
    assert!(!state.cheatsheet_open());
}

#[test]
fn zen_mode_toggles() {
    let mut state = UiState::new(snapshot(1, 0, None, Vec::new(), true));
    assert!(!state.zen());
    state.toggle_zen();
    assert!(state.zen());
    state.toggle_zen();
    assert!(!state.zen());
}

#[test]
fn view_change_seq_bumps_on_navigation_and_sort_but_not_on_live_updates() {
    let mut state = UiState::new(snapshot(
        1,
        0,
        None,
        vec![dir_row(b"sub", 7, 50, 3), file_row(b"f", 1, 1, 0)],
        false,
    ));
    let baseline = state.view_change_seq();

    state.apply_snapshot(snapshot(
        2,
        0,
        None,
        vec![dir_row(b"sub", 7, 80, 3), file_row(b"f", 1, 1, 0)],
        false,
    ));
    assert_eq!(
        state.view_change_seq(),
        baseline,
        "same dir, values changed: not a view change"
    );

    state.descend();
    state.apply_snapshot(snapshot(3, 7, Some(0), Vec::new(), false));
    assert_eq!(state.view_change_seq(), baseline + 1, "navigated");

    state.press_sort(SortKey::Name);
    assert_eq!(state.view_change_seq(), baseline + 2, "sorted");
}

#[test]
fn toggle_apparent_flips_the_flag() {
    let mut state = UiState::new(snapshot(1, 0, None, Vec::new(), true));
    assert!(state.show_apparent, "starts shown");
    state.toggle_apparent();
    assert!(!state.show_apparent);
    state.toggle_apparent();
    assert!(state.show_apparent);
}

#[test]
fn footer_notes_follow_the_scan_state() {
    let mut snap = ViewSnapshot {
        generation: 1,
        dir: DirId::from_raw(0),
        parent: None,
        path: b"/x".to_vec(),
        rows: Vec::new(),
        totals: DirTotals::default(),
        stats: stats(false),
        hardlink_inodes: 2,
        degraded: true,
    };
    assert!(show_hardlink_note(&snap), "hardlinks + scanning: shown");
    assert!(show_updating_note(&snap), "degraded + scanning: shown");

    snap.stats.root_complete = true;
    assert!(!show_hardlink_note(&snap), "corrected at scan end (D3)");
    assert!(!show_updating_note(&snap));

    snap.stats.root_complete = false;
    snap.hardlink_inodes = 0;
    snap.degraded = false;
    assert!(!show_hardlink_note(&snap));
    assert!(!show_updating_note(&snap));
}

#[test]
fn view_modes_exclude_each_other() {
    let mut state = UiState::new(snapshot(1, 0, None, Vec::new(), true));
    state.toggle_flat_top();
    assert_eq!(state.mode(), ViewMode::FlatTop);
    state.toggle_breakdown();
    assert_eq!(state.mode(), ViewMode::Breakdown);
    state.toggle_breakdown();
    assert_eq!(state.mode(), ViewMode::Tree);
    state.toggle_flat_top();
    state.leave_mode();
    assert_eq!(state.mode(), ViewMode::Tree);
}

#[test]
fn pressing_a_key_again_turns_the_order_round() {
    let mut spec = SortSpec::default();
    assert_eq!((spec.key, spec.descending), (SortKey::Disk, true));
    spec.press(SortKey::Disk);
    assert_eq!((spec.key, spec.descending), (SortKey::Disk, false));
    spec.press(SortKey::Name);
    assert_eq!((spec.key, spec.descending), (SortKey::Name, false));
}

#[test]
fn rows_of_one_generation_are_alike() {
    let rows = || vec![file_row(b"a", 3, 3, 0), file_row(b"b", 2, 2, 0)];
    assert!(rows_alike(&rows(), &rows()));
    assert!(!rows_alike(&rows(), &vec![file_row(b"a", 3, 3, 0)]));
    let mut other = rows();
    other[1].name = b"c".to_vec();
    assert!(!rows_alike(&rows(), &other));
    let mut other = rows();
    other[0].errors += 1;
    assert!(!rows_alike(&rows(), &other));
}
