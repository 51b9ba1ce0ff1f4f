//! The donut's cells and slices, and the bars.

use camembert::double::Double;
use camembert::wheel::{
    build_slice_targets, build_slices, build_slices_indexed, compose_half_blocks,
    compose_sextants, proportion_bar, sextant_char, PixelGrid, Share, WheelCell,
};

const EMPTY_CELL: WheelCell = WheelCell {
    ch: ' ',
    fg: None,
    bg: None,
};

fn fractions(bytes: &[u128], total: u64) -> Vec<f64> {
    bytes.iter().map(|b| *b as f64 / total as f64).collect()
}

/// A share by the bits of its double.
fn share(x: f64) -> Share {
    let bits = x.abs().to_bits();
    let size = if x == 0.0 {
        Double { mant: 0, exp: 0 }
    } else {
        Double {
            mant: (bits & ((1 << 52) - 1)) | (1 << 52),
            exp: (bits >> 52) as i32 - 1075,
        }
    };
    Share {
        below_zero: x < 0.0,
        size,
    }
}

/// A donut of a half and two quarters, clockwise from the top, on square pixels.
fn three_slice_grid() -> PixelGrid {
    let mut px = vec![None; 400];
    for y in 0..20 {
        for x in 0..20 {
            let dx = x as f64 + 0.5 - 10.0;
            let dy = y as f64 + 0.5 - 10.0;
            let r = dx.hypot(dy);
            if (4.2..=10.0).contains(&r) {
                let slice = if dx > 0.0 {
                    0
                } else if dy > 0.0 {
                    1
                } else {
                    2
                };
                px[y * 20 + x] = Some(slice);
            }
        }
    }
    PixelGrid {
        width: 20,
        height: 20,
        px,
    }
}

#[test]
fn half_block_composition() {
    let grid = three_slice_grid();
    let cells = compose_half_blocks(&grid);
    assert_eq!(cells.len(), 10, "20 subpixel rows → 10 cell rows");
    assert_eq!(cells[0].len(), 20);
    assert_eq!(cells[5][10], EMPTY_CELL);
    assert_eq!(
        cells[5][15],
        WheelCell {
            ch: '▀',
            fg: Some(0),
            bg: Some(0)
        }
    );
    assert_eq!(cells[0][0], EMPTY_CELL);
}

#[test]
fn half_block_edges_keep_default_background() {
    let grid = PixelGrid {
        width: 1,
        height: 2,
        px: vec![Some(3), None],
    };
    let cells = compose_half_blocks(&grid);
    assert_eq!(
        cells[0][0],
        WheelCell {
            ch: '▀',
            fg: Some(3),
            bg: None
        }
    );
    let grid = PixelGrid {
        width: 1,
        height: 2,
        px: vec![None, Some(7)],
    };
    assert_eq!(
        compose_half_blocks(&grid)[0][0],
        WheelCell {
            ch: '▄',
            fg: Some(7),
            bg: None
        }
    );
}

#[test]
fn sextant_chars_map_the_legacy_block() {
    assert_eq!(sextant_char(0), ' ');
    assert_eq!(sextant_char(0b000001), '\u{1FB00}', "upper left only");
    assert_eq!(sextant_char(0b000010), '\u{1FB01}', "upper right only");
    assert_eq!(sextant_char(0b010100), '\u{1FB13}', "b=20, last before gap");
    assert_eq!(
        sextant_char(0b010101),
        '▌',
        "left half exists pre-Unicode 13"
    );
    assert_eq!(sextant_char(0b010110), '\u{1FB14}', "b=22, after first gap");
    assert_eq!(sextant_char(0b101010), '▐', "right half");
    assert_eq!(
        sextant_char(0b101011),
        '\u{1FB28}',
        "b=43, after second gap"
    );
    assert_eq!(sextant_char(0b111110), '\u{1FB3B}', "b=62, block end");
    assert_eq!(sextant_char(0b111111), '█', "full block");
}

#[test]
fn sextant_composition_full_and_boundary_cells() {
    let grid = PixelGrid {
        width: 2,
        height: 3,
        px: vec![Some(1); 6],
    };
    assert_eq!(
        compose_sextants(&grid)[0][0],
        WheelCell {
            ch: '█',
            fg: Some(1),
            bg: None
        }
    );
    let grid = PixelGrid {
        width: 2,
        height: 3,
        px: vec![Some(0), Some(1), Some(0), Some(1), Some(0), Some(1)],
    };
    assert_eq!(
        compose_sextants(&grid)[0][0],
        WheelCell {
            ch: '▌',
            fg: Some(0),
            bg: Some(1)
        }
    );
    let grid = PixelGrid {
        width: 2,
        height: 3,
        px: vec![Some(4), None, Some(4), None, Some(4), None],
    };
    assert_eq!(
        compose_sextants(&grid)[0][0],
        WheelCell {
            ch: '▌',
            fg: Some(4),
            bg: None
        }
    );
}

#[test]
fn build_slices_merges_small_and_unranked_into_rest() {
    let (bytes, ranks) = build_slices(
        &[(500, Some(0)), (300, Some(1)), (15, Some(2)), (100, None)],
        1000,
    );
    let fracs = fractions(&bytes, 1000);
    assert_eq!(ranks, vec![Some(0), Some(1), None]);
    assert!((fracs[0] - 0.5).abs() < 1e-9);
    assert!((fracs[1] - 0.3).abs() < 1e-9);
    assert!((fracs[2] - 0.2).abs() < 1e-9);
    assert!((fracs.iter().sum::<f64>() - 1.0).abs() < 1e-9);
}

#[test]
fn build_slice_targets_maps_kept_slices_back_to_rows() {
    let targets = build_slice_targets(
        &[(500, Some(0)), (300, Some(1)), (15, Some(2)), (100, None)],
        1000,
    );
    assert_eq!(targets, vec![Some(0), Some(1), None]);
}

#[test]
fn build_slice_targets_edge_cases() {
    assert_eq!(build_slice_targets(&[], 0), Vec::<Option<usize>>::new());
    assert_eq!(build_slice_targets(&[], 100), vec![None]);
}

#[test]
fn build_slices_edge_cases() {
    assert_eq!(build_slices(&[], 0), (Vec::new(), Vec::new()));
    let (bytes, ranks) = build_slices(&[], 100);
    let fracs = fractions(&bytes, 100);
    assert_eq!(ranks, vec![None]);
    assert!((fracs[0] - 1.0).abs() < 1e-9);
    let (bytes, _) = build_slices(&[(150, Some(0))], 100);
    let fracs = fractions(&bytes, 100);
    assert_eq!(fracs.len(), 1, "no rest slice");
    assert!(fracs[0] > 1.0);
}

#[test]
fn proportion_bars() {
    assert_eq!(proportion_bar(share(0.5), 4, false), "██  ");
    assert_eq!(proportion_bar(share(0.5), 4, true), "##  ");
    assert_eq!(proportion_bar(share(0.0), 3, false), "   ");
    assert_eq!(proportion_bar(share(1.0), 3, false), "███");
    assert_eq!(proportion_bar(share(1.0), 3, true), "###");
    assert_eq!(proportion_bar(share(0.6875), 2, false), "█▍");
    assert_eq!(proportion_bar(share(0.001), 4, false), "▏   ");
    assert_eq!(proportion_bar(share(0.001), 4, true), "#   ");
    assert_eq!(proportion_bar(share(7.0), 2, true), "##");
    assert_eq!(proportion_bar(share(-1.0), 2, true), "  ");
}

#[test]
fn slices_add_up_to_the_total() {
    let rows = [(500, Some(0)), (300, Some(1)), (15, Some(2)), (100, None)];
    let slices = build_slices_indexed(&rows, 1000);
    assert_eq!(slices.iter().map(|s| s.bytes).sum::<u128>(), 1000);
    assert_eq!(slices[2].target, None);
}

#[test]
fn a_bar_is_as_wide_as_it_was_asked_for() {
    for eighths in 0..=80u32 {
        let bar = proportion_bar(share(f64::from(eighths) / 80.0), 10, false);
        assert_eq!(bar.chars().count(), 10);
        let full = bar.chars().filter(|c| *c == '█').count();
        assert_eq!(full as u32, eighths / 8);
    }
}
