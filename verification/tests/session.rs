//! Keys and clicks, and what they lead to.

use std::sync::Arc;

use camembert::caps::GlyphLevel;
use camembert::cockpit::{
    deletion_toast, dump_plan, spinner_frame, surviving_ancestor, Cockpit, DeleteReport,
    DumpOutcome, DumpPlan, FRAME, IDLE_POLL,
};
use camembert::keymap::KeyCode;
use camembert::model::{DirId, DirTotals, NodeId, Row, RowState, ScanStats, ViewSnapshot};
use camembert::mouse::{MouseKind, DOUBLE_CLICK};
use camembert::session::{
    Action, Flash, Session, DELETION_LOCKED, FILTERED_DIRECTORY, FLASH_TTL, NOTHING_MARKED,
    NOT_AVAILABLE,
};
use camembert::state::{FrameGeometry, SortKey, TableGeometry, UiState, ViewMode};

fn snapshot(root_complete: bool) -> Arc<ViewSnapshot> {
    let file = Row {
        name: b"a".to_vec(),
        node: NodeId::from_raw(1),
        dir: None,
        is_dir: false,
        apparent: 5,
        disk: 4096,
        items: 1,
        errors: 0,
        state: RowState::File,
        mtime: 0,
    };
    let dir = Row {
        name: b"d".to_vec(),
        node: NodeId::from_raw(2),
        dir: Some(DirId::from_raw(7)),
        is_dir: true,
        apparent: 5,
        disk: 512,
        items: 1,
        errors: 0,
        state: RowState::Complete,
        mtime: 0,
    };
    Arc::new(ViewSnapshot {
        generation: 1,
        dir: DirId::from_raw(0),
        parent: None,
        path: b"/t".to_vec(),
        rows: vec![file, dir],
        totals: DirTotals {
            apparent: 10,
            disk: 4608,
            items: 2,
            errors: 0,
        },
        stats: ScanStats {
            entries: 2,
            dirs: 1,
            errors: 0,
            disk_bytes: 4608,
            elapsed_nanos: 1,
            root_complete,
        },
        hardlink_inodes: 0,
        degraded: false,
    })
}

/// A finished scan, with the cursor on its file.
fn done_session() -> Session {
    let mut session = Session::new(UiState::new(snapshot(true)), Vec::new(), Vec::new());
    session.scanning = false;
    session
}

fn press(session: &mut Session, code: KeyCode) -> Action {
    let action = session.handle_key(code, false, 0);
    if matches!(action, Action::OpenConfirm) {
        session.ui.open_confirm(0);
    }
    action
}

#[test]
fn v_opens_review_and_d_from_within_it_opens_confirm() {
    let mut session = done_session();
    session.ui.toggle_mark().expect("marking the only row succeeds");

    press(&mut session, KeyCode::Char('v'));
    assert!(session.ui.review().is_some(), "v opened the review list");

    press(&mut session, KeyCode::Char('D'));
    assert!(session.ui.review().is_none(), "D closed the review list");
    assert!(session.ui.confirm().is_some(), "D opened the confirm modal");
}

#[test]
fn cheatsheet_opens_and_closes() {
    let mut session = done_session();
    press(&mut session, KeyCode::Char('?'));
    assert!(session.ui.cheatsheet_open());
    press(&mut session, KeyCode::Esc);
    assert!(!session.ui.cheatsheet_open());
}

#[test]
fn confirm_modal_captures_keys_that_would_open_other_modals() {
    let mut session = done_session();
    session.ui.toggle_mark().expect("marking the only row succeeds");
    assert!(matches!(session.open_delete_confirm(0), Action::OpenConfirm));
    session.ui.open_confirm(0);
    assert!(session.ui.confirm().is_some());

    press(&mut session, KeyCode::Char('v'));
    assert!(session.ui.confirm().is_none(), "any non-y key cancels confirm");
    assert!(session.ui.review().is_none(), "and never opened review instead");
}

#[test]
fn review_modal_does_not_leak_unhandled_keys_to_the_cheatsheet() {
    let mut session = done_session();
    session.ui.toggle_mark().expect("marking the only row succeeds");
    assert!(session.ui.open_review());

    press(&mut session, KeyCode::Char('?'));
    assert!(session.ui.review().is_some(), "still in the review list");
    assert!(!session.ui.cheatsheet_open(), "? did not leak through to it");
}

#[test]
fn only_a_confirmed_y_deletes() {
    let mut session = done_session();
    assert!(matches!(press(&mut session, KeyCode::Char('y')), Action::Continue));
    press(&mut session, KeyCode::Char(' '));
    press(&mut session, KeyCode::Char('D'));
    match press(&mut session, KeyCode::Char('y')) {
        Action::Delete(marks) => assert_eq!(marks[0].path, b"/t/a".to_vec()),
        other => panic!("{other:?}"),
    }
    assert!(session.ui.marks().is_empty());
}

#[test]
fn a_running_scan_locks_deletion() {
    let mut session = Session::new(UiState::new(snapshot(false)), Vec::new(), Vec::new());
    assert!(session.scanning);
    press(&mut session, KeyCode::Char('D'));
    assert_eq!(session.flash.current_at(0), Some(DELETION_LOCKED));
    assert_eq!(session.flash.current_at(FLASH_TTL + 1), None, "it goes away");
}

#[test]
fn without_marks_there_is_nothing_to_review() {
    let mut session = done_session();
    session.try_open_review(0);
    assert_eq!(session.flash.current_at(0), Some(NOTHING_MARKED));
    assert!(session.ui.review().is_none());
}

#[test]
fn an_interrupt_quits_from_everywhere() {
    let opened: [&[KeyCode]; 4] = [
        &[],
        &[KeyCode::Char('?')],
        &[KeyCode::Char(' '), KeyCode::Char('v')],
        &[KeyCode::Char(' '), KeyCode::Char('D')],
    ];
    for keys in opened {
        let mut session = done_session();
        for key in keys {
            press(&mut session, *key);
        }
        assert!(matches!(
            session.handle_key(KeyCode::Char('c'), true, 0),
            Action::Quit
        ));
    }
}

#[test]
fn a_directory_is_entered_and_left() {
    let mut session = done_session();
    press(&mut session, KeyCode::Down);
    press(&mut session, KeyCode::Enter);
    assert_eq!(session.ui.pending_nav(), Some(DirId::from_raw(7)));
    press(&mut session, KeyCode::Left);
    assert_eq!(session.ui.pending_nav(), Some(DirId::from_raw(7)), "on its way");
}

#[test]
fn a_running_scan_is_asked_for_the_view() {
    let mut session = Session::new(UiState::new(snapshot(false)), Vec::new(), Vec::new());
    press(&mut session, KeyCode::Down);
    match press(&mut session, KeyCode::Enter) {
        Action::RequestNav(dir) => assert_eq!(dir, DirId::from_raw(7)),
        other => panic!("{other:?}"),
    }
}

#[test]
fn sorting_by_a_column_that_is_not_there_is_refused() {
    let mut session = done_session();
    press(&mut session, KeyCode::Char('t'));
    assert_eq!(session.ui.mode(), ViewMode::FlatTop);
    session.sort_by(SortKey::Items, 0);
    assert_eq!(session.flash.current_at(0), Some(NOT_AVAILABLE));
    assert_eq!(session.ui.sort().key, SortKey::Disk);
}

#[test]
fn directories_cannot_be_marked_under_a_filter() {
    let mut session = done_session();
    session.filter = Some("*.log".to_owned());
    press(&mut session, KeyCode::Down);
    press(&mut session, KeyCode::Char(' '));
    assert!(session.ui.marks().is_empty());
    assert_eq!(session.flash.current_at(0), Some(FILTERED_DIRECTORY));
}

#[test]
fn the_palette_owns_the_keyboard() {
    let mut session = done_session();
    press(&mut session, KeyCode::Char('/'));
    for c in "q.log".chars() {
        assert!(matches!(press(&mut session, KeyCode::Char(c)), Action::Continue));
    }
    match press(&mut session, KeyCode::Enter) {
        Action::ApplyQuery(text) => assert_eq!(text, "q.log"),
        other => panic!("{other:?}"),
    }
}

#[test]
fn a_message_replaces_the_one_before() {
    let mut flash = Flash::new();
    assert!(!flash.is_set());
    flash.set_at("first", 0);
    flash.set_at("second", 1);
    assert_eq!(flash.current_at(2), Some("second"));
    assert_eq!(flash.current_at(2 + FLASH_TTL), None);
}

fn with_table(session: &mut Session) {
    session.ui.set_geometry(FrameGeometry {
        table: Some(TableGeometry {
            x: 0,
            y: 5,
            width: 40,
            height: 10,
            offset: 0,
        }),
        ..FrameGeometry::default()
    });
}

#[test]
fn a_second_click_opens_the_row() {
    let mut session = done_session();
    with_table(&mut session);
    assert!(matches!(
        session.handle_mouse(MouseKind::LeftDown, 3, 6, 0),
        Action::Continue
    ));
    assert_eq!(session.ui.cursor(), 1);
    session.handle_mouse(MouseKind::LeftDown, 3, 6, DOUBLE_CLICK / 2);
    assert_eq!(session.ui.pending_nav(), Some(DirId::from_raw(7)));
}

#[test]
fn a_click_on_the_selected_row_opens_it_however_late() {
    let mut session = done_session();
    with_table(&mut session);
    session.handle_click(3, 6, 0);
    assert_eq!(session.ui.pending_nav(), None);
    session.handle_click(3, 6, DOUBLE_CLICK + 1);
    assert_eq!(session.ui.pending_nav(), Some(DirId::from_raw(7)));
}

#[test]
fn hovering_leaves_the_cursor_alone() {
    let mut session = done_session();
    with_table(&mut session);
    session.handle_mouse(MouseKind::Moved, 3, 6, 0);
    assert_eq!(session.ui.hover(), Some(1));
    assert_eq!(session.ui.cursor(), 0);
    session.handle_mouse(MouseKind::ScrollDown, 3, 6, 0);
    assert_eq!(session.ui.cursor(), 1, "the wheel moves it");
}

#[test]
fn a_settled_cockpit_waits_for_events() {
    let mut cockpit = Cockpit::new(done_session(), true);
    assert_eq!(cockpit.poll_timeout(0), IDLE_POLL);
    cockpit.session.flash.set_at("note", 0);
    assert_eq!(cockpit.poll_timeout(0), FRAME, "a message will expire");
}

#[test]
fn the_end_of_a_scan_is_told() {
    let session = Session::new(UiState::new(snapshot(false)), Vec::new(), Vec::new());
    let mut cockpit = Cockpit::new(session, true);
    let dir = cockpit.scan_finished(
        &DumpOutcome::Written("/tmp/x.cmbt".to_owned()),
        1_200_000_000,
        0,
    );
    assert_eq!(dir, DirId::from_raw(0));
    assert!(!cockpit.session.scanning);
    let texts = cockpit.toast_texts(0);
    assert!(texts.iter().any(|t| t.contains("1.2s")), "{texts:?}");
    assert!(texts.iter().any(|t| t.contains("/tmp/x.cmbt")), "{texts:?}");
}

#[test]
fn views_are_numbered_upwards() {
    let mut cockpit = Cockpit::new(done_session(), true);
    let first = cockpit.next_generation();
    assert_eq!(cockpit.next_generation(), first + 1);
    assert_eq!(cockpit.view_to_serve(), None);
}

#[test]
fn a_dump_is_only_written_of_a_whole_scan() {
    assert_eq!(dump_plan(false, false), DumpPlan::NotRequested);
    assert_eq!(dump_plan(true, false), DumpPlan::Write);
    assert_eq!(dump_plan(true, true), DumpPlan::Skip);
}

#[test]
fn a_deletion_reports_what_it_did() {
    let text = deletion_toast(&DeleteReport {
        deleted: 2,
        freed: 4096,
        failed: 1,
        skipped: 0,
    });
    assert!(text.contains("4.0 KiB"), "{text}");
    assert!(text.contains('2') && text.contains('1'), "{text}");
}

#[test]
fn a_deleted_directory_gives_way_to_its_ancestor() {
    let climb = [
        (DirId::from_raw(9), true),
        (DirId::from_raw(4), true),
        (DirId::from_raw(0), false),
    ];
    assert_eq!(surviving_ancestor(&climb), DirId::from_raw(0));
}

#[test]
fn the_spinner_turns() {
    let frames: Vec<char> = (0..40)
        .map(|i| spinner_frame(GlyphLevel::HalfBlock, i * 100_000_000))
        .collect();
    assert!(frames.iter().any(|c| *c != frames[0]));
    assert!(spinner_frame(GlyphLevel::Ascii, 0).is_ascii());
}
