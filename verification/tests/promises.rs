//! What holds of the library as a whole, on concrete values.

use std::collections::{HashMap, HashSet};
use std::sync::Arc;

use camembert::caps::{Caps, ColorLevel, ColorMode, GlyphLevel, TermEnv};
use camembert::clipboard::base64_encode;
use camembert::cockpit::{Cockpit, DeleteReport};
use camembert::config::config_path;
use camembert::floor_rt::{FloorRuntime, Pass};
use camembert::fmt::{abbreviate_path, DiskSpace};
use camembert::freeable_panel::{group_by_ancestor, DeletedEntry};
use camembert::history::{append, history_path, load};
use camembert::keymap::KeyCode;
use camembert::layout::{
    card_areas, centered, frame_areas, inner, main_areas, table_areas, wheel_areas, Area,
    WheelLayout,
};
use camembert::model::{DirId, DirTotals, NodeId, Row, RowState, ScanStats, ViewSnapshot};
use camembert::nlink_rt::{
    is_candidate, links_of_inode, Ask, JobMessage, LinkRuntime, LinkState, ScannedLink,
};
use camembert::oracle::{link_status, HardlinkGroup, LinkStatus};
use camembert::order::compare_bytes;
use camembert::osc11::{read_until_terminator, ReadAttempt, MAX_REPLY_LEN};
use camembert::palette::{all_commands, filter_commands, PaletteState};
use camembert::panels::place_toasts;
use camembert::paths::{find_user_file, join};
use camembert::session::{Action, Session};
use camembert::state::{MarkedEntry, SortKey, SortSpec, UiState};
use camembert::table_view::highlighted;
use camembert::text::{
    chars_of, contains_text, dec_string, has_prefix, has_suffix, pad_left, pad_right, same_text,
    split_chars, string_of, to_lower,
};
use camembert::theme::assign_identity;
use camembert::wheel::sextant_char;

fn dir(name: &[u8], dir: u32, disk: u64) -> Row {
    Row {
        name: name.to_vec(),
        node: NodeId::from_raw(dir + 100),
        dir: Some(DirId::from_raw(dir)),
        is_dir: true,
        apparent: disk,
        disk,
        items: 1,
        errors: 0,
        state: RowState::Complete,
        mtime: 0,
    }
}

fn view(generation: u64, at: u32, parent: Option<u32>, rows: Vec<Row>) -> Arc<ViewSnapshot> {
    Arc::new(ViewSnapshot {
        generation,
        dir: DirId::from_raw(at),
        parent: parent.map(DirId::from_raw),
        path: b"/r".to_vec(),
        rows,
        totals: DirTotals::default(),
        stats: ScanStats {
            entries: 3,
            dirs: 3,
            errors: 0,
            disk_bytes: 60,
            elapsed_nanos: 1,
            root_complete: true,
        },
        hardlink_inodes: 0,
        degraded: false,
    })
}

fn three() -> Vec<Row> {
    vec![dir(b"a", 1, 10), dir(b"b", 2, 20), dir(b"c", 3, 30)]
}

#[test]
fn without_color_there_is_no_wheel() {
    let env = TermEnv {
        term: Some("xterm-kitty".to_owned()),
        colorterm: Some("truecolor".to_owned()),
        term_program: None,
        no_color: Some(String::new()),
        windows_console: false,
        wt_session: None,
    };
    let caps = Caps::detect(&env, ColorMode::Auto);
    assert_eq!((caps.color, caps.glyphs), (ColorLevel::Mono, GlyphLevel::Ascii));
    let forced = Caps::detect(&env, ColorMode::Always);
    assert_eq!(forced.color, ColorLevel::Truecolor);
    assert_eq!(forced.glyphs, GlyphLevel::Sextant);
}

#[test]
fn base64_has_four_characters_for_three_bytes_begun() {
    for n in 0..20usize {
        let text = base64_encode(&vec![0xa5; n]);
        assert_eq!(text.len(), n.div_ceil(3) * 4);
    }
}

#[test]
fn every_pass_has_a_number_of_its_own() {
    let mut rt = FloorRuntime::new(true);
    let mut seen = HashSet::new();
    for has_map in [false, true, true] {
        match rt.respawn_after_deletion(has_map) {
            Some(Pass::Full(n) | Pass::Reaggregate(n)) => assert!(seen.insert(n)),
            None => panic!("a pass starts"),
        }
    }
}

#[test]
fn an_abbreviated_path_fits_and_keeps_its_name() {
    let path = "/home/someone/projects/deep/nested/dir";
    for max in 1..60usize {
        let short = abbreviate_path(path, max);
        assert!(short.chars().count() <= max, "{short}");
        if max >= 38 {
            assert_eq!(short, path);
        }
        if max >= 8 {
            assert!(short.ends_with("dir"), "{short}");
        }
    }
}

#[test]
fn what_is_not_free_is_used() {
    let disk = DiskSpace::of_blocks(1000, 250, 4096, true);
    assert_eq!((disk.capacity, disk.used), (4_096_000, 3_072_000));
    assert!(disk.compressed);
    let odd = DiskSpace::of_blocks(1, 5, 4096, false);
    assert_eq!(odd.used, 0, "never below nothing");
    let huge = DiskSpace::of_blocks(u64::MAX, 0, 4096, false);
    assert_eq!(huge.capacity, u64::MAX);
}

#[test]
fn every_entry_is_in_one_group() {
    let entry = |evidence: &[u8]| DeletedEntry {
        dev: 1,
        ino: 1,
        bytes: 1,
        evidence: evidence.to_vec(),
        holders: Vec::new(),
    };
    let entries = [
        entry(b"/a/x (deleted)"),
        entry(b"/b/y (deleted)"),
        entry(b"/a/z (deleted)"),
        entry(b"/c (deleted)"),
    ];
    let groups = group_by_ancestor(&entries, &[b"/a".to_vec(), b"/b".to_vec()]);
    let mut all: Vec<usize> = groups.iter().flat_map(|g| g.entries.clone()).collect();
    all.sort();
    assert_eq!(all, vec![0, 1, 2, 3]);
}

#[test]
fn a_history_reads_back_what_was_recorded() {
    let text = append("  old \n\n", "new").expect("something to write");
    assert_eq!(load(&text), vec!["old".to_owned(), "new".to_owned()]);
    assert_eq!(append(&text, "new"), None, "not twice in a row");
    assert_eq!(append(&text, " new "), None, "trimmed first");
}

#[test]
fn user_files_follow_the_environment() {
    assert_eq!(
        config_path(Some(b"/x"), Some(b"/home/u")),
        Some(b"/x/camembert/camembert.toml".to_vec())
    );
    assert_eq!(
        config_path(Some(b""), Some(b"/home/u/")),
        Some(b"/home/u/.config/camembert/camembert.toml".to_vec())
    );
    assert_eq!(config_path(None, None), None);
    assert_eq!(
        history_path(None, Some(b"/home/u")),
        Some(b"/home/u/.local/state/camembert/history".to_vec())
    );
    assert_eq!(
        history_path(Some(b"/s"), None),
        Some(b"/s/camembert/history".to_vec())
    );
    assert_eq!(find_user_file(None, Some(b""), "a", "b"), Some(b"b".to_vec()));
    assert_eq!(join(b"/a", b"/b"), b"/b".to_vec(), "an absolute name stands alone");
}

#[test]
fn a_rectangle_is_centered_on_the_screen() {
    let screen = Area {
        x: 0,
        y: 0,
        width: 9,
        height: 7,
    };
    for (width, height) in [(9, 7), (4, 3), (1, 1), (0, 0)] {
        let at = centered(screen, width, height);
        assert!(at.x + at.width <= 9 && at.y + at.height <= 7);
        assert_eq!((at.width, at.height), (width, height));
    }
    let inside = inner(screen);
    assert_eq!((inside.x, inside.y, inside.width, inside.height), (1, 1, 7, 5));
}

#[test]
fn links_of_one_file_share_an_answer() {
    let mut rt = LinkRuntime::new();
    let known = LinkState::Known {
        total: 2,
        seen: 2,
        anonymous: false,
    };
    let ask = |rt: &mut LinkRuntime, node: u32| match rt.state_for(node, true) {
        Ask::Start(serial) => serial,
        other => panic!("{other:?}"),
    };
    let links = [
        ScannedLink {
            node: 1,
            dev: 7,
            ino: 42,
        },
        ScannedLink {
            node: 9,
            dev: 7,
            ino: 43,
        },
        ScannedLink {
            node: 2,
            dev: 7,
            ino: 42,
        },
    ];
    assert_eq!(links_of_inode(&links, 7, 42), vec![1, 2]);
    assert_eq!(links_of_inode(&links, 8, 42), Vec::<u32>::new());
    let first = ask(&mut rt, 1);
    let message = |serial: u64| JobMessage {
        epoch: 0,
        node: 1,
        serial,
        state: known,
        inode: Some((7, 42)),
        links: links_of_inode(&links, 7, 42),
    };
    rt.poll(&[message(first)], 0);
    rt.poll(&[message(first)], 0);
    for node in [1, 2] {
        assert!(
            matches!(rt.state_for(node, true), Ask::Show(state) if state == known),
            "one question answers for both links"
        );
    }
    assert!(matches!(rt.state_for(9, true), Ask::Start(_)), "another file");
    assert!(is_candidate(false, true));
    assert!(!is_candidate(true, true) && !is_candidate(false, false));
}

#[test]
fn a_link_outside_pins_the_inode() {
    let group = HardlinkGroup {
        nodes: vec![NodeId::from_raw(1), NodeId::from_raw(2)],
        nlink: 2,
    };
    let both = HashSet::from([1, 2]);
    let one = HashSet::from([1]);
    assert_eq!(link_status(2, Some(&group), &both), LinkStatus::AllLinksSelected);
    assert_eq!(link_status(2, Some(&group), &one), LinkStatus::LinksOutside);
    assert_eq!(link_status(2, None, &both), LinkStatus::LinksOutside);
}

#[test]
fn a_talkative_terminal_is_cut_off() {
    let talk = vec![ReadAttempt::Byte(b'x'); 1000];
    let reply = read_until_terminator(&talk).expect("cut off");
    assert_eq!(reply.len(), MAX_REPLY_LEN);
}

#[test]
fn every_command_is_found_by_its_label() {
    let commands = all_commands();
    for (i, command) in commands.iter().enumerate() {
        let order = filter_commands(command.label, &commands);
        assert_eq!(order[0], i, "{}", command.label);
    }
    assert_eq!(
        filter_commands("", &commands),
        (0..commands.len()).collect::<Vec<_>>()
    );
}

#[test]
fn typing_and_taking_back_changes_nothing() {
    let mut p = PaletteState::with_text("abc");
    p.move_left();
    let (text, cursor) = (p.text(), p.cursor());
    p.insert_char('z');
    p.backspace();
    assert_eq!((p.text(), p.cursor()), (text, cursor));
}

#[test]
fn notifications_stay_apart_and_inside() {
    let main = Area {
        x: 0,
        y: 4,
        width: 20,
        height: 2,
    };
    let messages = ["one", "a much longer message than fits", "no room"].map(str::to_owned);
    let placed = place_toasts(&messages, main);
    assert_eq!(placed.len(), 2, "two rows only");
    assert_eq!((placed[0].area.y, placed[1].area.y), (4, 5));
    for toast in &placed {
        assert!(toast.area.x + toast.area.width <= 20);
    }
    assert_eq!(placed[1].area.width, 20, "cut to the width");
}

#[test]
fn two_presses_restore_the_sort() {
    for key in [SortKey::Disk, SortKey::Name, SortKey::Errors] {
        let mut spec = SortSpec::default();
        spec.press(key);
        let once = spec;
        spec.press(key);
        assert_ne!(spec, once);
        spec.press(key);
        assert_eq!(spec, once);
    }
}

#[test]
fn going_in_and_out_restores_the_cursor() {
    let mut ui = UiState::new(view(1, 0, None, three()));
    ui.move_down();
    assert_eq!(ui.descend(), Some(DirId::from_raw(2)));
    ui.apply_snapshot(view(2, 2, Some(0), vec![dir(b"x", 9, 1)]));
    assert_eq!(ui.ascend(), Some(DirId::from_raw(0)));
    ui.apply_snapshot(view(3, 0, None, three()));
    assert_eq!(ui.cursor(), 1);
    assert!(ui.stack_dirs().is_empty());
    assert_eq!(highlighted(&ui), Some(1));
}

#[test]
fn marks_survive_navigation() {
    let mut session = Session::new(UiState::new(view(1, 0, None, three())), vec![], vec![]);
    session.scanning = false;
    session.handle_key(KeyCode::Char(' '), false, 0);
    assert_eq!(session.ui.marks().len(), 1);
    session.handle_key(KeyCode::Enter, false, 0);
    session.ui.apply_snapshot(view(2, 2, Some(0), vec![dir(b"x", 9, 1)]));
    session.handle_key(KeyCode::Left, false, 0);
    session.ui.apply_snapshot(view(3, 0, None, three()));
    assert_eq!(session.ui.marks().len(), 1);
}

#[test]
fn a_file_mark_flips() {
    let mut ui = UiState::new(view(1, 0, None, three()));
    let entry = |node: u32| MarkedEntry {
        node: NodeId::from_raw(node),
        path: b"/r/deep/file".to_vec(),
        is_dir: false,
        disk: 7,
    };
    ui.flip_mark(entry(50));
    ui.flip_mark(entry(51));
    assert_eq!(ui.marked_summary(), Some((2, 14)));
    ui.flip_mark(entry(50));
    assert_eq!(ui.marks()[0].node.raw, 51);
    assert!(!ui.is_marked(NodeId::from_raw(50)));
}

#[test]
fn escape_peels_layer_by_layer() {
    let mut session = Session::new(UiState::new(view(1, 0, None, three())), vec![], vec![]);
    session.scanning = false;
    session.filter = Some("*.log".to_owned());
    session.handle_key(KeyCode::Char('t'), false, 0);
    session.handle_key(KeyCode::Char('?'), false, 0);
    let mut steps = 0;
    loop {
        match session.handle_key(KeyCode::Esc, false, 0) {
            Action::Quit => break,
            _ => steps += 1,
        }
        assert!(steps < 10);
    }
    assert_eq!(steps, 3, "cheatsheet, mode, filter");
}

#[test]
fn a_deletion_moves_to_what_is_left() {
    let session = Session::new(UiState::new(view(1, 2, Some(0), three())), vec![], vec![]);
    let mut cockpit = Cockpit::new(session, false);
    let report = DeleteReport {
        deleted: 3,
        freed: 2048,
        failed: 0,
        skipped: 0,
    };
    let climb = [(DirId::from_raw(2), true), (DirId::from_raw(0), false)];
    assert_eq!(
        cockpit.deletion_finished(&report, &climb, 0),
        DirId::from_raw(0)
    );
    assert_eq!(cockpit.toast_texts(0), vec!["deleted 3 entries, 2.0 KiB freed"]);
}

#[test]
fn larger_rows_rank_first_and_never_share_a_rank() {
    let ranks = assign_identity(&[5, 9, 5, 0, 7], 9);
    assert_eq!(ranks, vec![Some(2), Some(0), Some(3), None, Some(1)]);
}

#[test]
fn patterns_have_characters_of_their_own() {
    let all: HashSet<char> = (0..64u8).map(sextant_char).collect();
    assert_eq!(all.len(), 64);
}

#[test]
fn bytes_compare_like_slices() {
    let words: [&[u8]; 5] = [b"", b"a", b"ab", b"b", b"\xff"];
    let sign: HashMap<std::cmp::Ordering, i8> = HashMap::from([
        (std::cmp::Ordering::Less, -1),
        (std::cmp::Ordering::Equal, 0),
        (std::cmp::Ordering::Greater, 1),
    ]);
    for a in words {
        for b in words {
            assert_eq!(compare_bytes(a, b), sign[&a.cmp(b)]);
        }
    }
}

#[test]
fn texts_are_taken_apart_and_put_together() {
    assert_eq!(string_of(&chars_of("héé")), "héé");
    assert_eq!(dec_string(u128::MAX), u128::MAX.to_string());
    assert_eq!(pad_left("ab", 4), "  ab");
    assert_eq!(pad_right("ab", 4), "ab  ");
    assert_eq!(pad_right("abcdef", 4), "abcdef");
    assert_eq!(to_lower("AbÉ"), "abÉ", "ASCII letters only");
    assert!(contains_text("hello", "ell") && !contains_text("hello", "elo"));
    assert!(same_text("a", "a") && !same_text("a", "b"));
    let chars = chars_of("rgb:1/2");
    assert!(has_prefix(&chars, &chars_of("rgb:")));
    assert!(has_suffix(&chars, &chars_of("/2")));
    assert_eq!(split_chars(&chars_of("a//b"), '/').len(), 3);
}

fn lies_in(part: Area, whole: Area) -> bool {
    let end = |at: u16, len: u16| u32::from(at) + u32::from(len);
    whole.x <= part.x
        && whole.y <= part.y
        && end(part.x, part.width) <= end(whole.x, whole.width)
        && end(part.y, part.height) <= end(whole.y, whole.height)
}

#[test]
fn parts_lie_on_the_screen() {
    let corners = [(0, 0), (7, 3), (65_500, 65_510)];
    let sizes = [(0, 0), (1, 1), (3, 2), (10, 5), (40, 10), (80, 24), (121, 37), (300, 200)];
    for (x, y) in corners {
        for (width, height) in sizes {
            let screen = Area {
                x,
                y,
                width,
                height,
            };
            for (zen, marked) in [(false, false), (false, true), (true, false), (true, true)] {
                let rows = frame_areas(screen, zen, marked);
                for row in [
                    rows.header,
                    rows.cards,
                    rows.gauge,
                    rows.main,
                    rows.basket,
                    rows.footer,
                ] {
                    assert!(lies_in(row, screen));
                    assert_eq!((row.x, row.width), (screen.x, screen.width));
                }
                let (left, panel) = main_areas(rows.main, WheelLayout::Full);
                let panel = panel.unwrap();
                assert!(lies_in(left, rows.main) && lies_in(panel, rows.main));
                assert_eq!((panel.y, panel.height), (rows.main.y, rows.main.height));
                assert_eq!(main_areas(rows.main, WheelLayout::Mini), (rows.main, None));
                let (table, card) = table_areas(left, zen);
                assert!(lies_in(table, left));
                assert_eq!(card.is_some(), !zen && left.height >= 9);
                if let Some(card) = card {
                    assert!(lies_in(card, left));
                }
                let inside = inner(panel);
                let donut = wheel_areas(inside);
                assert_eq!(donut.is_some(), inside.width >= 4 && inside.height >= 4);
                if let Some((donut, caption)) = donut {
                    assert!(lies_in(donut, inside) && lies_in(caption, inside));
                }
                let cards = card_areas(rows.cards);
                assert_eq!(cards.len(), 4);
                for card in cards {
                    assert!(lies_in(card, rows.cards));
                }
            }
        }
    }
}
