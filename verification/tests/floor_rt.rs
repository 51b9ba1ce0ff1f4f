//! The pass that maps exclusive bytes, and what is said of them.

use std::collections::HashMap;

use camembert::floor_rt::{
    bright_split, card_lines, humanize_elapsed, progress_line, row_floor, FloorMap, FloorMessage,
    FloorRuntime, Pass,
};
use camembert::model::{DirId, NodeId, Row, RowState};

const SECOND: u64 = 1_000_000_000;

/// A map of one file of 8 KiB in the root directory.
fn one_file_map() -> FloorMap {
    FloorMap {
        produced: true,
        dirs: HashMap::from([(0, 8192)]),
        nodes: HashMap::from([(1, 8192)]),
        compressed: false,
        mapped: 1,
        unmapped: 0,
    }
}

fn row(node: NodeId, dir: Option<DirId>, disk: u64) -> Row {
    Row {
        name: b"x".to_vec(),
        node,
        dir,
        is_dir: dir.is_some(),
        apparent: disk,
        disk,
        items: 1,
        errors: 0,
        state: RowState::File,
        mtime: 0,
    }
}

#[test]
fn disabled_runtime_never_spawns() {
    let mut rt = FloorRuntime::new(false);
    assert_eq!(rt.spawn_full(), None);
    assert!(!rt.has_pending(), "disabled: no thread, no spawn");
    assert!(rt.poll(Vec::new()).is_none());
}

#[test]
fn disabled_runtime_respawn_after_deletion_is_also_a_noop() {
    let mut rt = FloorRuntime::new(false);
    assert_eq!(rt.respawn_after_deletion(false), None);
    assert!(!rt.has_pending());
}

#[test]
fn spawn_full_lands_a_real_floor_map() {
    let mut rt = FloorRuntime::new(true);
    assert_eq!(rt.spawn_full(), Some(Pass::Full(1)));
    assert!(rt.has_pending());
    let map = rt
        .poll(vec![FloorMessage {
            generation: 1,
            map: Some(one_file_map()),
        }])
        .expect("a one-file scan's pass lands quickly");
    assert!(!rt.has_pending(), "poll cleared in-flight on landing");
    assert!(map.mapped >= 1, "the one file got mapped");
}

#[test]
fn spawn_full_guards_against_a_duplicate_spawn() {
    let mut rt = FloorRuntime::new(true);
    rt.spawn_full();
    let generation_after_first = rt.generation;
    assert_eq!(rt.spawn_full(), None);
    assert_eq!(rt.generation, generation_after_first);
}

#[test]
fn poll_discards_a_stale_generation_result() {
    let mut rt = FloorRuntime::new(true);
    rt.generation = 1;
    rt.in_flight = true;
    let landed = rt.poll(vec![FloorMessage {
        generation: 0,
        map: None,
    }]);
    assert!(landed.is_none(), "stale message resolves nothing");
    assert!(rt.has_pending(), "the current pass is still tracked");
}

#[test]
fn poll_resolves_the_current_generation_and_clears_in_flight() {
    let mut rt = FloorRuntime::new(true);
    rt.generation = 5;
    rt.in_flight = true;
    let landed = rt.poll(vec![FloorMessage {
        generation: 5,
        map: Some(one_file_map()),
    }]);
    assert!(landed.is_some());
    assert!(!rt.has_pending());
}

#[test]
fn poll_folds_a_same_generation_cancel_into_none() {
    let mut rt = FloorRuntime::new(true);
    rt.generation = 2;
    rt.in_flight = true;
    let landed = rt.poll(vec![FloorMessage {
        generation: 2,
        map: None,
    }]);
    assert!(landed.is_none());
    assert!(
        !rt.has_pending(),
        "a resolved cancel still clears in-flight"
    );
}

#[test]
fn cancel_for_deletion_flips_the_in_flight_passs_flag() {
    let mut rt = FloorRuntime::new(true);
    rt.in_flight = true;
    assert!(rt.cancel_for_deletion());
    assert!(rt.cancelled);
}

#[test]
fn cancel_for_deletion_is_a_noop_with_nothing_in_flight() {
    let mut rt = FloorRuntime::new(true);
    assert!(!rt.cancel_for_deletion());
    assert!(!rt.has_pending());
}

#[test]
fn respawn_after_deletion_without_a_prev_map_spawns_a_full_compute() {
    let mut rt = FloorRuntime::new(true);
    assert_eq!(rt.respawn_after_deletion(false), Some(Pass::Full(1)));
    assert!(rt.has_pending());
    assert_eq!(rt.generation, 1);
}

#[test]
fn respawn_after_deletion_with_a_prev_map_spawns_and_lands_a_reaggregate() {
    let mut rt = FloorRuntime::new(true);
    assert_eq!(rt.respawn_after_deletion(true), Some(Pass::Reaggregate(1)));
    assert!(rt.has_pending());
    let landed = rt.poll(vec![FloorMessage {
        generation: 1,
        map: Some(one_file_map()),
    }]);
    assert!(landed.is_some(), "reaggregate over an unchanged tree lands");
    assert!(!rt.has_pending());
}

#[test]
fn respawn_after_deletion_always_bumps_generation_even_with_nothing_changed() {
    let mut rt = FloorRuntime::new(true);
    rt.spawn_full();
    rt.cancel_for_deletion();
    assert!(rt.cancelled);

    let before = rt.generation;
    rt.respawn_after_deletion(false);
    assert!(
        rt.generation > before,
        "unconditional respawn always supersedes the cancelled pass"
    );
    assert!(!rt.cancelled, "the new pass runs");
}

#[test]
fn progress_is_told_only_while_a_pass_runs() {
    let mut rt = FloorRuntime::new(true);
    assert_eq!(rt.progress(3), None);
    rt.spawn_full();
    assert_eq!(rt.progress(3), Some(3));
    rt.finish();
    assert_eq!(rt.progress(3), None);
}

#[test]
fn row_floor_reads_dir_floor_for_a_dir_row_and_node_floor_for_a_file_row() {
    let map = one_file_map();
    let file_node = NodeId::from_raw(1);
    let file_row = row(file_node, None, 8192);
    assert_eq!(row_floor(&map, &file_row), map.node_floor(file_node));
    assert_eq!(row_floor(&map, &file_row), Some(8192));

    let root = DirId::from_raw(0);
    let dir_row = row(NodeId::from_raw(0), Some(root), 8192);
    assert_eq!(row_floor(&map, &dir_row), map.dir_floor(root));
    assert_eq!(row_floor(&map, &dir_row), Some(8192));
}

#[test]
fn a_map_without_figures_has_no_floor() {
    let mut map = one_file_map();
    map.produced = false;
    assert_eq!(map.dir_floor(DirId::from_raw(9)), None);
    assert_eq!(map.node_floor(NodeId::from_raw(9)), None);
}

#[test]
fn bright_split_cases() {
    assert_eq!(bright_split("######", None, 1000), 0);
    assert_eq!(bright_split("######", Some(0), 1000), 0);
    assert_eq!(bright_split("######", Some(500), 1000), 3);
    assert_eq!(bright_split("######", Some(1000), 1000), 6);
    assert_eq!(bright_split("######", Some(5000), 1000), 6);
    assert_eq!(bright_split("#", Some(300), 1000), 0);
    assert_eq!(bright_split("#", Some(600), 1000), 1);
    assert_eq!(bright_split("##  ", Some(1000), 1000), 2);
    assert_eq!(bright_split("##", Some(10), 0), 0);
}

#[test]
fn card_lines_excl_wording_and_caveat_precedence() {
    let mut map = one_file_map();
    let row = row(NodeId::from_raw(1), None, 8192);
    let lines = card_lines(&map, &row, 65 * SECOND);
    assert!(!lines.is_empty());
    assert!(lines[0].starts_with("excl \u{2265} "), "{lines:?}");
    assert!(lines[0].contains("mapped"));
    assert!(lines[0].contains("min ago"), "{lines:?}");
    assert_eq!(lines.len(), 1, "nothing to qualify");

    map.unmapped = 2;
    let partial = card_lines(&map, &row, 65 * SECOND);
    assert_eq!(partial.len(), 2, "{partial:?}");
    map.compressed = true;
    let compressed = card_lines(&map, &row, 65 * SECOND);
    assert_eq!(compressed.len(), 2, "one caveat at most: {compressed:?}");
}

#[test]
fn card_lines_fully_shared_wording_for_a_zero_floor_on_a_nonzero_row() {
    let map = one_file_map();
    let bogus_dir = DirId::from_raw(u32::MAX - 7);
    let dir_row = row(NodeId::from_raw(u32::MAX - 7), Some(bogus_dir), 8192);
    let lines = card_lines(&map, &dir_row, 0);
    assert_eq!(lines[0], "fully shared \u{b7} mapped just now");
}

#[test]
fn card_lines_absent_when_the_row_has_no_figure() {
    let map = one_file_map();
    let unknown = NodeId::from_raw(u32::MAX - 1);
    let row = row(unknown, None, 1234);
    assert!(card_lines(&map, &row, 0).is_empty());
}

#[test]
fn humanize_elapsed_matches_the_shared_bucketing() {
    assert_eq!(humanize_elapsed(3 * SECOND), "just now");
    assert_eq!(humanize_elapsed(65 * SECOND), "1 min ago");
    assert_eq!(humanize_elapsed(3 * 3600 * SECOND), "3 h ago");
}

#[test]
fn the_running_pass_is_told() {
    assert_eq!(progress_line(12), "mapping extents… 12 files");
}
