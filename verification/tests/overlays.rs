//! The rows of the flat modes, the palette and the freeable panel.

use camembert::caps::ColorLevel;
use camembert::flatview::{BreakdownRow, FlatRow, FlatSummary, RestTotal, TopFile};
use camembert::freeable_panel::{Coverage, DeletedEntry, Holder};
use camembert::layout::Area;
use camembert::lines::{Line, Paints};
use camembert::model::NodeId;
use camembert::overlays::{
    breakdown_cells, breakdown_titles, flat_cells, flat_titles, freeable_dialog, palette_dialog,
    Sweep,
};
use camembert::palette::{all_commands, PaletteState};
use camembert::theme::{Theme, ThemeName};

const SCREEN: Area = Area {
    x: 0,
    y: 0,
    width: 120,
    height: 40,
};

fn paints() -> Paints {
    Paints::of(&Theme::new(ThemeName::TokyoNight, ColorLevel::Truecolor))
}

fn text(line: &Line) -> String {
    line.pieces.iter().map(|p| p.text.as_str()).collect()
}

fn flat_row(path: Option<&[u8]>, hardlink: bool) -> FlatRow {
    FlatRow {
        node: NodeId::from_raw(1),
        name: "big.bin".to_owned(),
        disk: 2048,
        apparent: None,
        hardlink,
        path: path.map(<[u8]>::to_vec),
    }
}

#[test]
fn a_flat_row_shows_its_name_until_its_path_is_known() {
    assert_eq!(flat_cells(&flat_row(None, false), 40), ["  2.0 KiB", "big.bin"]);
    assert_eq!(
        flat_cells(&flat_row(Some(b"/data/big.bin"), true), 40),
        ["  2.0 KiB", "/data/big.bin \u{26d3}"]
    );
    let cells = flat_cells(&flat_row(Some(b"/data/deep/inside/big.bin"), false), 12);
    assert_eq!(cells[1].chars().count(), 12);
    assert!(cells[1].ends_with("big.bin"));
}

#[test]
fn the_flat_list_says_where_it_stops() {
    let summary = |truncated: bool, provisional: bool| FlatSummary {
        groups: Vec::new(),
        rest: RestTotal {
            apparent: 0,
            disk: 0,
            entries: 0,
        },
        top_files: vec![TopFile {
            node: NodeId::from_raw(1),
            name: "x".to_owned(),
            disk: 1,
            hardlink: false,
        }],
        truncated,
        provisional,
        epoch: 0,
    };
    assert_eq!(flat_titles(&summary(false, false)), ["real", "file"]);
    assert_eq!(
        flat_titles(&summary(true, true))[1],
        "file (top 1 of more eligible files shown) \u{b7} provisional"
    );
}

#[test]
fn a_breakdown_row_shows_its_share() {
    let row = BreakdownRow {
        label: "logs".to_owned(),
        kind: None,
        disk: 512,
        apparent: 512,
        entries: 3,
    };
    assert_eq!(
        breakdown_cells(&row, 1024),
        ["    512 B", " 50.0", "       3", "logs"]
    );
    assert_eq!(breakdown_cells(&row, 0)[1], "    -", "no total, no share");
    assert_eq!(breakdown_titles(false), ["real", "%", "items", "category"]);
    assert_eq!(breakdown_titles(true)[3], "category \u{b7} provisional");
}

#[test]
fn the_palette_lists_commands_in_command_mode_only() {
    let saved = [("stale".to_owned(), "older:1y".to_owned())];
    let query = palette_dialog(&PaletteState::with_text("*.log"), &saved, SCREEN);
    assert_eq!(query.lines.len(), 1);
    assert_eq!(text(&query.lines[0]), "*.log ");
    assert_eq!((query.area.width, query.area.height), (76, 3));

    let mut p = PaletteState::with_text(">");
    let all = palette_dialog(&p, &saved, SCREEN);
    assert_eq!(all.lines.len(), 1 + all_commands().len());
    assert!(all.lines[1].pieces[0].style.reversed, "the first is selected");
    assert!(!all.lines[2].pieces[0].style.reversed);
    p.move_home();
    assert!(palette_dialog(&p, &[], SCREEN).lines[0].pieces[1].style.reversed);
    let quit = palette_dialog(&PaletteState::with_text(">quit"), &saved, SCREEN);
    assert!(text(&quit.lines[1]).starts_with("  quit"));

    let empty = palette_dialog(&PaletteState::new(), &saved, SCREEN);
    assert_eq!(empty.lines.len(), 2, "an empty box shows the saved queries");
    assert_eq!(
        text(&empty.lines[1]),
        "  stale                    older:1y"
    );
    assert!(empty.lines[1].pieces[0].style.reversed);
}

fn entry(path: &[u8], bytes: u64, holders: Vec<Holder>) -> DeletedEntry {
    DeletedEntry {
        dev: 1,
        ino: bytes,
        bytes,
        evidence: path.to_vec(),
        holders,
    }
}

#[test]
fn the_freeable_panel_groups_files_and_tells_its_gaps() {
    let holders = vec![
        Holder {
            pid: 7,
            comm: Some("db".to_owned()),
        },
        Holder {
            pid: 9,
            comm: None,
        },
    ];
    let sweep = Sweep::of(
        vec![
            entry(b"/srv/data/log", 4096, holders),
            entry(b"/gone/x", 1024, Vec::new()),
        ],
        &[b"/srv".to_vec(), b"/srv/data".to_vec()],
        Coverage {
            seen: 10,
            readable: 4,
        },
    );
    let dialog = freeable_dialog(Some(&sweep), SCREEN, &paints());
    let lines: Vec<String> = dialog.lines.iter().map(text).collect();
    assert_eq!(
        lines,
        [
            "/srv/data",
            "  4.0 KiB  /srv/data/log \u{b7} 7 (db), 9",
            "(outside the scan / unknown)",
            "  1.0 KiB  /gone/x \u{b7} ",
            "4 of 10 processes readable \u{2014} run as root for the full view",
            "",
            "f or Esc closes",
        ]
    );
    assert_eq!(dialog.title, " freeable files ");
}

#[test]
fn the_freeable_panel_shows_no_number_without_a_sweep() {
    let lines = freeable_dialog(None, SCREEN, &paints()).lines;
    assert_eq!(text(&lines[0]), "no figure: the process table was not read");
    let nothing = Sweep::of(
        Vec::new(),
        &[],
        Coverage {
            seen: 3,
            readable: 3,
        },
    );
    let lines = freeable_dialog(Some(&nothing), SCREEN, &paints()).lines;
    assert_eq!(text(&lines[0]), "no deleted file is held open");
    assert_eq!(lines.len(), 3, "a full view needs no caveat");
}
