//! What is drawn where, from the header to the dialogs.

use std::sync::Arc;

use camembert::caps::{ColorLevel, GlyphLevel};
use camembert::cockpit::{Cockpit, Overlay};
use camembert::double::Double;
use camembert::fmt::DiskSpace;
use camembert::gauge::{count_gauge_cells, gauge_line};
use camembert::layout::{
    card_areas, cards_and_gauge_heights, centered, frame_areas, frame_extents, inner, main_areas,
    mini_donut_area, table_areas, wheel_areas, wheel_layout, Area, Extent, WheelLayout,
    MIN_WHEEL_TERMINAL_WIDTH,
};
use camembert::lines::{Line, Paints};
use camembert::modals::{cheatsheet_dialog, confirm_dialog, review_dialog, scroll_offset, Dialog};
use camembert::model::{DirId, DirTotals, NodeId, Row, RowState, ScanStats, ViewSnapshot};
use camembert::panels::{
    basket_line, breadcrumb, errors_card, footer_lines, header_line, metric_cards, place_toasts,
};
use camembert::session::Session;
use camembert::state::{FrameGeometry, UiState};
use camembert::table_view::{
    percent_text, selection_card, table_columns, table_geometry, table_rows, table_titles,
};
use camembert::theme::{assign_identity, Color, Style, Theme, ThemeName, IDENTITY_LEN};
use camembert::wheel::{build_slices, PixelGrid};
use camembert::wheel_view::{
    compose, paint_cell, raster_size, shows_donut, slice_colors, slice_rows, wheel_caption,
    wheel_geometry,
};

const ONE: Double = Double {
    mant: 1 << 52,
    exp: -52,
};

fn sample_snapshot() -> Arc<ViewSnapshot> {
    let row = |name: &[u8], disk: u64, is_dir: bool| Row {
        name: name.to_vec(),
        node: NodeId::from_raw(0),
        dir: None,
        is_dir,
        apparent: disk,
        disk,
        items: 3,
        errors: u64::from(name == b"locked"),
        state: if is_dir {
            RowState::Scanning
        } else {
            RowState::File
        },
        mtime: 1_000_000,
    };
    Arc::new(ViewSnapshot {
        generation: 1,
        dir: DirId::from_raw(0),
        parent: None,
        path: b"/scan/root".to_vec(),
        rows: vec![
            row(b"big", 6000, true),
            row(b"mid", 3000, false),
            row(b"locked", 500, true),
            row(b"tiny", 1, false),
        ],
        totals: DirTotals {
            apparent: 10_000,
            disk: 10_000,
            items: 12,
            errors: 1,
        },
        stats: ScanStats {
            entries: 12,
            dirs: 3,
            errors: 1,
            disk_bytes: 10_000,
            elapsed_nanos: 500_000_000,
            root_complete: false,
        },
        hardlink_inodes: 2,
        degraded: false,
    })
}

fn markable_snapshot() -> Arc<ViewSnapshot> {
    let row = |node: u32, name: &[u8], disk: u64| Row {
        name: name.to_vec(),
        node: NodeId::from_raw(node),
        dir: None,
        is_dir: false,
        apparent: disk,
        disk,
        items: 1,
        errors: 0,
        state: RowState::File,
        mtime: 0,
    };
    Arc::new(ViewSnapshot {
        generation: 1,
        dir: DirId::from_raw(0),
        parent: None,
        path: b"/scan/root".to_vec(),
        rows: vec![row(1, b"big", 6000), row(2, b"mid", 3000)],
        totals: DirTotals {
            apparent: 9000,
            disk: 9000,
            items: 2,
            errors: 0,
        },
        stats: ScanStats {
            entries: 2,
            dirs: 0,
            errors: 0,
            disk_bytes: 9000,
            elapsed_nanos: 500_000_000,
            root_complete: true,
        },
        hardlink_inodes: 0,
        degraded: false,
    })
}

fn paints(color: ColorLevel) -> Paints {
    Paints::of(&Theme::new(ThemeName::TokyoNight, color))
}

fn cockpit(snapshot: Arc<ViewSnapshot>) -> Cockpit {
    let session = Session::new(UiState::new(snapshot), Vec::new(), Vec::new());
    Cockpit::new(session, false)
}

/// What one frame shows: its text by screen row, with the row of each text.
struct Frame {
    texts: Vec<(u16, String)>,
    errors_card: Option<(u16, u16, u16, u16)>,
}

impl Frame {
    fn add(&mut self, area: Area, lines: &[Line]) {
        for (i, line) in lines.iter().enumerate() {
            let text: String = line.pieces.iter().map(|p| p.text.as_str()).collect();
            if area.width > 0 && (i as u16) < area.height {
                self.texts.push((area.y + i as u16, text));
            }
        }
    }

    fn say(&mut self, area: Area, text: &str) {
        self.add(area, &[Line::one(text.to_owned(), Style::plain())]);
    }

    fn contains(&self, part: &str) -> bool {
        self.texts.iter().any(|(_, text)| text.contains(part))
    }

    fn has_half_block(&self, row: u16) -> bool {
        self.texts
            .iter()
            .any(|(y, text)| *y == row && (text.contains('▀') || text.contains('▄')))
    }

    /// A donut whose every pixel belongs to the first slice.
    fn donut(
        &mut self,
        area: Area,
        mini: bool,
        ui: &UiState,
        glyphs: GlyphLevel,
        paints: &Paints,
    ) {
        let disks: Vec<u64> = ui.snapshot().rows.iter().map(|r| r.disk).collect();
        let ranks = assign_identity(&disks, IDENTITY_LEN);
        let rows = slice_rows(ui, &ranks);
        let total = ui.snapshot().totals.disk;
        let (bytes, slice_ranks) = build_slices(&rows, total);
        if bytes.is_empty() || !(mini || shows_donut(bytes.len(), area)) {
            return;
        }
        let (width, height) = raster_size(glyphs, area.width, area.height);
        let grid = PixelGrid {
            width,
            height,
            px: vec![Some(0); width * height],
        };
        let cells = compose(glyphs, &grid);
        let colors = slice_colors(&slice_ranks, paints);
        for (i, row) in cells.iter().enumerate() {
            let text: String = row
                .iter()
                .filter_map(|cell| paint_cell(cell, &colors))
                .map(|(c, _)| c)
                .collect();
            self.texts.push((area.y + i as u16, text));
        }
        if mini {
            return;
        }
        let geometry = wheel_geometry(area, &cells, &rows, total);
        assert_eq!(geometry.hit_test(area.x, area.y), Some(0), "the largest row");
    }
}

fn dialog(frame: &mut Frame, dialog: &Dialog) {
    frame.say(dialog.area, dialog.title);
    frame.add(inner(dialog.area), &dialog.lines);
}

/// Draws one frame at a size.
fn draw(
    cockpit: &mut Cockpit,
    width: u16,
    height: u16,
    glyphs: GlyphLevel,
    color: ColorLevel,
    flash: Option<&str>,
) -> Frame {
    let paints = paints(color);
    let ascii = glyphs == GlyphLevel::Ascii;
    let mut frame = Frame {
        texts: Vec::new(),
        errors_card: None,
    };
    let screen = Area {
        x: 0,
        y: 0,
        width,
        height,
    };
    let toasts = cockpit.toast_texts(0);
    let overlay = cockpit.overlay();
    let ui = &cockpit.session.ui;
    let zen = ui.zen();
    let marked = ui.marked_summary();
    let areas = frame_areas(screen, zen, marked.is_some());
    let path = String::from_utf8_lossy(&ui.snapshot().path).into_owned();
    let complete = ui.snapshot().stats.root_complete;
    frame.add(areas.header, &[header_line(&path, complete, '⠋', ascii, &paints)]);

    let cards = card_areas(areas.cards);
    for (card, area) in metric_cards(ui.snapshot(), &paints).iter().zip(&cards) {
        let text = format!("{} {}", card.label, card.value);
        frame.say(*area, &text);
    }
    frame.errors_card = errors_card(&cards, zen);
    let disk = DiskSpace {
        capacity: 100_000,
        used: 40_000,
        compressed: false,
    };
    let gauge = gauge_line(Some(&disk), 10_000, 1, "", areas.gauge.width, ascii, &paints);
    frame.add(areas.gauge, &[gauge]);

    let layout = wheel_layout(width, ascii, zen);
    let (left, panel) = main_areas(areas.main, layout);
    let (table, card) = table_areas(left, zen);
    let titles = table_titles(ui.sort(), ui.show_apparent, ascii);
    assert_eq!(titles.len(), table_columns(ui.show_apparent).len());
    frame.say(table, &titles.join(" "));
    let disks: Vec<u64> = ui.snapshot().rows.iter().map(|r| r.disk).collect();
    let ranks = assign_identity(&disks, IDENTITY_LEN);
    let rows = table_rows(ui, &ranks, '⠋', ONE, ascii, &paints);
    if table.height > 1 {
        let below = Area {
            y: table.y + 1,
            height: table.height - 1,
            ..table
        };
        frame.add(below, &rows);
    }
    if table.y < u16::MAX {
        table_geometry(table, 0);
    }
    if let Some(card) = card {
        frame.add(inner(card), &selection_card(ui, 1_000_100, &paints).lines);
    }
    if let Some(panel) = panel {
        if let Some((donut, caption)) = wheel_areas(inner(panel)) {
            frame.donut(donut, false, ui, glyphs, &paints);
            frame.add(caption, &wheel_caption(&path, 10_000, caption.width, &paints));
        }
    } else if layout == WheelLayout::Mini {
        if let Some(mini) = mini_donut_area(areas.header) {
            frame.donut(mini, true, ui, glyphs, &paints);
        }
    }
    if let Some(basket) = basket_line(marked, ascii, &paints) {
        frame.add(areas.basket, &[basket]);
    }
    frame.add(areas.footer, &footer_lines(ui.snapshot(), flash, &paints));

    match overlay {
        Overlay::Confirm => {
            let (_, disk) = marked.unwrap_or((0, 0));
            let links = ui.confirm().map_or(0, |c| c.hardlink_files);
            dialog(
                &mut frame,
                &confirm_dialog(ui.marks(), disk, links, None, screen, &paints),
            );
        }
        Overlay::Review => {
            let cursor = ui.review().map_or(0, |r| r.cursor);
            dialog(&mut frame, &review_dialog(ui.marks(), cursor, screen, &paints));
        }
        Overlay::Cheatsheet => dialog(&mut frame, &cheatsheet_dialog(screen, &paints)),
        Overlay::Palette | Overlay::Freeable | Overlay::Nothing => {}
    }
    for toast in place_toasts(&toasts, areas.main) {
        frame.say(toast.area, &toast.text);
    }
    frame
}

fn render(cockpit: &mut Cockpit, flash: Option<&str>) -> Frame {
    draw(
        cockpit,
        120,
        35,
        GlyphLevel::HalfBlock,
        ColorLevel::Truecolor,
        flash,
    )
}

#[test]
fn draw_never_panics_across_sizes_and_caps() {
    let sizes = [
        (120, 35),
        (100, 30),
        (80, 24),
        (40, 10),
        (10, 5),
        (3, 2),
        (1, 1),
    ];
    let rungs = [
        (GlyphLevel::Sextant, ColorLevel::Truecolor),
        (GlyphLevel::HalfBlock, ColorLevel::Ansi256),
        (GlyphLevel::HalfBlock, ColorLevel::Ansi16),
        (GlyphLevel::Ascii, ColorLevel::Mono),
    ];
    for (width, height) in sizes {
        for (glyphs, color) in rungs {
            let mut cockpit = cockpit(sample_snapshot());
            draw(&mut cockpit, width, height, glyphs, color, Some("note"));
        }
    }
}

#[test]
fn wheel_collapses_to_a_header_mini_donut_below_the_width_threshold() {
    let draw_at = |width: u16| {
        let mut cockpit = cockpit(sample_snapshot());
        draw(
            &mut cockpit,
            width,
            35,
            GlyphLevel::HalfBlock,
            ColorLevel::Truecolor,
            None,
        )
    };

    let wide = draw_at(120);
    assert!(
        (5..30).any(|row| wide.has_half_block(row)),
        "full donut panel renders below the header on a wide terminal"
    );

    let narrow = draw_at(80);
    assert!(
        !(5..30).any(|row| narrow.has_half_block(row)),
        "no side panel below 100 columns"
    );
    assert!(
        narrow.has_half_block(0),
        "mini-donut renders in the header row instead"
    );
}

#[test]
fn wheel_layout_threshold_and_precedence() {
    assert_eq!(
        wheel_layout(MIN_WHEEL_TERMINAL_WIDTH, false, false),
        WheelLayout::Full,
        "exactly at the threshold: full panel"
    );
    assert_eq!(
        wheel_layout(MIN_WHEEL_TERMINAL_WIDTH - 1, false, false),
        WheelLayout::Mini,
        "one column short: mini donut"
    );
    assert_eq!(
        wheel_layout(0, false, false),
        WheelLayout::Mini,
        "degenerate width still gets a (clipped) mini donut, not a panic"
    );
    assert_eq!(
        wheel_layout(200, true, false),
        WheelLayout::Hidden,
        "ASCII: no wheel at any width, full or mini"
    );
    assert_eq!(
        wheel_layout(200, false, true),
        WheelLayout::Hidden,
        "zen mode: no wheel at any width, even one wide enough for Full"
    );
    assert_eq!(
        wheel_layout(50, true, true),
        WheelLayout::Hidden,
        "ascii and zen both hidden: still just Hidden, not a panic/conflict"
    );
}

#[test]
fn cards_and_gauge_heights_collapse_in_zen_mode() {
    assert_eq!(cards_and_gauge_heights(false), (3, 1));
    assert_eq!(cards_and_gauge_heights(true), (0, 0));
}

#[test]
fn zen_mode_hides_cards_gauge_and_wheel() {
    let mut cockpit = cockpit(markable_snapshot());
    let frame = render(&mut cockpit, None);
    assert!(frame.contains("total"), "normal view: cards present");
    assert!(frame.contains("disk"), "normal view: gauge present");
    assert!(frame.contains("▀"), "normal view: wheel present");

    cockpit.session.ui.toggle_zen();
    let frame = render(&mut cockpit, None);
    assert!(!frame.contains("total"), "zen: no metric cards");
    assert!(!frame.contains("disk"), "zen: no disk gauge");
    assert!(!frame.contains("▀"), "zen: no wheel, full or mini");
    assert!(
        frame.errors_card.is_none(),
        "zen: no errors card to hit-test"
    );
}

#[test]
fn ascii_rung_renders_hash_bars() {
    let mut cockpit = cockpit(sample_snapshot());
    let frame = draw(
        &mut cockpit,
        120,
        35,
        GlyphLevel::Ascii,
        ColorLevel::Mono,
        None,
    );
    assert!(frame.contains("#"), "ASCII proportion bars");
    assert!(!frame.contains("▀"), "no wheel on the ASCII rung");
    assert!(!frame.contains("█"), "no block glyphs on the ASCII rung");
}

#[test]
fn basket_strip_appears_only_once_something_is_marked() {
    let mut empty = cockpit(markable_snapshot());
    assert!(
        !render(&mut empty, None).contains("basket:"),
        "nothing marked: no strip"
    );

    let mut marked = cockpit(markable_snapshot());
    marked.session.ui.toggle_mark().unwrap();
    let content = render(&mut marked, None);
    assert!(content.contains("basket:"), "one mark: strip shown");
    assert!(content.contains("1 item"), "singular noun for one entry");
}

#[test]
fn basket_strip_pluralizes_and_sums_several_marks() {
    let mut cockpit = cockpit(markable_snapshot());
    cockpit.session.ui.toggle_mark().unwrap();
    cockpit.session.ui.toggle_mark().unwrap();
    let content = render(&mut cockpit, None);
    assert!(content.contains("2 items"), "plural noun for two entries");
}

#[test]
fn toasts_render_and_are_suppressed_under_the_confirm_modal() {
    let mut plain = cockpit(markable_snapshot());
    plain.toasts.push_at(0, "dump written: /tmp/x.cmbt");
    let content = render(&mut plain, None);
    assert!(content.contains("dump written"));

    let mut confirming = cockpit(markable_snapshot());
    confirming.toasts.push_at(0, "dump written: /tmp/x.cmbt");
    confirming.session.ui.toggle_mark().unwrap();
    confirming.session.ui.open_confirm(0);
    let content = render(&mut confirming, None);
    assert!(
        !content.contains("dump written"),
        "confirm modal open: toast suppressed"
    );
}

#[test]
fn review_modal_renders_marked_paths() {
    let mut cockpit = cockpit(markable_snapshot());
    cockpit.session.ui.toggle_mark().unwrap();
    cockpit.session.ui.toggle_mark().unwrap();
    assert!(cockpit.session.ui.open_review());
    let content = render(&mut cockpit, None);
    assert!(content.contains("review marked entries"));
    assert!(content.contains("big"));
    assert!(content.contains("mid"));

    for (width, height) in [(120, 35), (40, 10), (10, 5), (3, 2), (1, 1)] {
        draw(
            &mut cockpit,
            width,
            height,
            GlyphLevel::HalfBlock,
            ColorLevel::Truecolor,
            None,
        );
    }
}

#[test]
fn cheatsheet_modal_lists_keymap_entries() {
    let mut cockpit = cockpit(markable_snapshot());
    cockpit.session.ui.open_cheatsheet();
    let content = render(&mut cockpit, None);
    assert!(content.contains("keys & mouse"));
    assert!(content.contains("move down"), "simple entry present");
    assert!(content.contains("delete the marked"), "extra entry present");
    assert!(content.contains("scroll the cursor"), "mouse entry present");

    for (width, height) in [(120, 35), (40, 10), (10, 5), (3, 2), (1, 1)] {
        draw(
            &mut cockpit,
            width,
            height,
            GlyphLevel::HalfBlock,
            ColorLevel::Truecolor,
            None,
        );
    }
}

#[test]
fn the_confirmation_counts_what_goes() {
    let mut cockpit = cockpit(markable_snapshot());
    cockpit.session.ui.toggle_mark().unwrap();
    cockpit.session.ui.toggle_mark().unwrap();
    cockpit.session.ui.open_confirm(1);
    let content = render(&mut cockpit, None);
    assert!(content.contains("/scan/root/big"));
    assert!(content.contains("/scan/root/mid"));
    assert!(content.contains("8.8 KiB"), "6000 + 3000 bytes");
}

#[test]
fn parts_of_a_frame_lie_side_by_side() {
    let screen = Area {
        x: 0,
        y: 0,
        width: 120,
        height: 35,
    };
    let areas = frame_areas(screen, false, true);
    assert_eq!(areas.header.height, 1);
    assert_eq!(areas.cards.height, 3);
    assert_eq!(areas.gauge.height, 1);
    assert_eq!(areas.basket.height, 1);
    let heights = [
        areas.header.height,
        areas.cards.height,
        areas.gauge.height,
        areas.main.height,
        areas.basket.height,
        areas.footer.height,
    ];
    assert_eq!(heights.iter().sum::<u16>(), 35);
    assert_eq!(frame_extents(false, true).len(), 6);
    assert!(matches!(table_columns(false)[0], Extent::Length(_) | Extent::Min(_)));
    assert_eq!(
        centered(screen, 20, 5),
        Area {
            x: 50,
            y: 15,
            width: 20,
            height: 5
        }
    );
}

#[test]
fn wide_characters_widen_the_confirmation() {
    let screen = Area {
        x: 0,
        y: 0,
        width: 200,
        height: 40,
    };
    let width_of = |name: String| {
        let mut snapshot = markable_snapshot();
        Arc::get_mut(&mut snapshot).unwrap().rows[0].name = name.into_bytes();
        let mut ui = UiState::new(snapshot);
        ui.toggle_mark().unwrap();
        let paints = paints(ColorLevel::Mono);
        assert_eq!(
            review_dialog(ui.marks(), 0, screen, &paints).area.width,
            76,
            "the review list has a fixed width"
        );
        confirm_dialog(ui.marks(), 0, 0, None, screen, &paints)
            .area
            .width
    };
    // "  /scan/root/" takes 13 columns, the frame and its padding 4.
    assert_eq!(width_of("a".repeat(60)), 77);
    assert_eq!(width_of("漢".repeat(60)), 137, "each takes two columns");
}

#[test]
fn a_row_has_one_color_in_the_table_and_on_the_wheel() {
    let ui = UiState::new(sample_snapshot());
    assert!(ui.show_apparent, "the apparent column shows by default");
    let paints = paints(ColorLevel::Truecolor);
    let disks: Vec<u64> = ui.snapshot().rows.iter().map(|r| r.disk).collect();
    let ranks = assign_identity(&disks, IDENTITY_LEN);
    let (_, slice_ranks) = build_slices(&slice_rows(&ui, &ranks), 10_000);
    let colors = slice_colors(&slice_ranks, &paints);
    let rows = table_rows(&ui, &ranks, '⠋', ONE, false, &paints);
    for (row, color) in rows.iter().zip(&colors).take(3) {
        let n = row.pieces.len();
        assert_eq!(row.pieces[n - 3].style.fg, Some(*color), "bar");
        assert_eq!(row.pieces[n - 1].style.fg, Some(*color), "name");
    }
}

#[test]
fn the_gauge_counts_cells_of_both_kinds() {
    let disk = DiskSpace {
        capacity: 1000,
        used: 500,
        compressed: false,
    };
    assert_eq!(count_gauge_cells(&disk, 250, 40), (10, 20));
    assert_eq!(count_gauge_cells(&disk, 9999, 40), (20, 20), "never past the used part");
}

#[test]
fn crumbs_lead_to_the_open_ancestors() {
    let stack = [DirId::from_raw(0), DirId::from_raw(4)];
    let crumbs = breadcrumb("/a/b/c", &stack, 0, false);
    let targets: Vec<Option<DirId>> = crumbs.iter().map(|c| c.2).collect();
    assert_eq!(
        targets,
        vec![Some(DirId::from_raw(0)), Some(DirId::from_raw(4)), None]
    );
    let geometry = FrameGeometry {
        breadcrumb: crumbs,
        ..FrameGeometry::default()
    };
    let (from, _, _) = geometry.breadcrumb[1];
    assert_eq!(geometry.breadcrumb_hit(from, 0), Some(DirId::from_raw(4)));
}

#[test]
fn percentages_of_the_parent() {
    assert_eq!(percent_text(1, 3).trim(), "33.3");
    assert_eq!(percent_text(5, 0).trim(), "-");
    assert_eq!(percent_text(10, 10).trim(), "100.0");
}

#[test]
fn a_long_review_scrolls_with_the_cursor() {
    assert_eq!(scroll_offset(100, 10, 0), 0);
    let offset = scroll_offset(100, 10, 57);
    assert!(offset <= 57 && 57 < offset + 10);
    assert_eq!(scroll_offset(100, 10, 99), 90);
    assert_eq!(scroll_offset(5, 10, 4), 0);
}

#[test]
fn ranks_beyond_the_palette_have_a_color_too() {
    let paints = paints(ColorLevel::Truecolor);
    assert_eq!(paints.rank_color(Some(0)), paints.accent);
    assert_ne!(paints.rank_color(None), Color::Reset);
}
