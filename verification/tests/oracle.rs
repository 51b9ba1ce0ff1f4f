//! How much a deletion would free, and what is said of it.

use std::collections::{HashMap, HashSet};

use camembert::model::NodeId;
use camembert::nlink_rt::key_of_inode;
use camembert::oracle::{
    assemble, link_status, pending_line, ready_wording, view_of, Facts, Gathered, HardlinkGroup,
    LinkStatus, OracleReport, OracleView,
};
use camembert::oracle_job::{
    enumerate_mark, Child, FsTier, MarkFiles, MarkJob, SelFile, Stat, TreeIndex,
    MAX_FILES_PER_MARK,
};
use camembert::oracle_rt::{build_slot, JobMessage, OracleRuntime, SlotPlan};

/// The report on files whose tier has no extents: an inode counts as a whole.
fn report_of(gathered: &Gathered) -> OracleReport {
    let mut report = OracleReport::default();
    for input in &gathered.inputs {
        assert_eq!(input.tier, FsTier::HardlinkOnly);
        report.inodes += 1;
        if input.links == LinkStatus::LinksOutside {
            report.shared_outside += input.disk;
            report.hardlink_outside += 1;
        } else {
            report.exclusive += input.disk;
        }
    }
    report
}

fn assembled(
    marks: &[NodeId],
    results: &HashMap<u32, MarkFiles>,
    known: &HashMap<u128, bool>,
    tiers: &HashMap<u64, FsTier>,
    compressed: &HashMap<u64, bool>,
    groups: &HashMap<u128, HardlinkGroup>,
    old_kernel: bool,
) -> OracleView {
    let facts = Facts {
        known,
        tiers,
        compressed,
        groups,
    };
    let gathered = assemble(marks, results, &facts);
    let report = report_of(&gathered);
    view_of(&gathered, report, old_kernel)
}

fn landed(epoch: u64, mark_node: u32, serial: u64, files: MarkFiles) -> JobMessage {
    JobMessage {
        epoch,
        mark_node,
        serial,
        files,
        new_maps: Vec::new(),
        new_dev_tiers: Vec::new(),
        new_dev_compressed: Vec::new(),
    }
}

fn n(raw: u32) -> NodeId {
    NodeId::from_raw(raw)
}

fn sel(node: NodeId, dev: u64, ino: u64, nlink: u32, disk: u64) -> SelFile {
    SelFile {
        node: node.raw,
        dev,
        ino,
        nlink,
        disk,
    }
}

fn mark_files(files: Vec<SelFile>) -> MarkFiles {
    MarkFiles {
        files,
        truncated_files: 0,
        truncated_disk: 0,
    }
}

fn group(nodes: Vec<NodeId>, nlink: u32) -> HardlinkGroup {
    HardlinkGroup { nodes, nlink }
}

#[test]
fn assemble_dedups_two_marks_sharing_one_inode() {
    let (m1, m2) = (n(1), n(2));
    let mut results = HashMap::new();
    results.insert(m1.raw, mark_files(vec![sel(n(10), 1, 100, 1, 4096)]));
    results.insert(m2.raw, mark_files(vec![sel(n(11), 1, 100, 1, 4096)]));
    let hardlink_groups = HashMap::new();
    let mut dev_tier = HashMap::new();
    dev_tier.insert(1, FsTier::HardlinkOnly);

    let view = assembled(
        &[m1, m2],
        &results,
        &HashMap::new(),
        &dev_tier,
        &HashMap::new(),
        &hardlink_groups,
        false,
    );
    assert_eq!(view.report.inodes, 1, "one physical inode, not two");
    assert_eq!(view.report.exclusive, 4096);
}

#[test]
fn link_status_single_link_is_never_pinned() {
    let selection: HashSet<u32> = HashSet::new();
    let groups: HashMap<u128, HardlinkGroup> = HashMap::new();
    assert_eq!(
        link_status(1, groups.get(&key_of_inode(1, 1)), &selection),
        LinkStatus::Single
    );
}

#[test]
fn link_status_absent_from_registry_with_nlink_above_one_is_links_outside() {
    let selection: HashSet<u32> = HashSet::new();
    let groups: HashMap<u128, HardlinkGroup> = HashMap::new();
    assert_eq!(
        link_status(2, groups.get(&key_of_inode(1, 1)), &selection),
        LinkStatus::LinksOutside
    );
}

#[test]
fn link_status_all_scanned_links_selected_and_complete() {
    let (a, b) = (n(1), n(2));
    let selection: HashSet<u32> = [a.raw, b.raw].into_iter().collect();
    let mut groups = HashMap::new();
    groups.insert(key_of_inode(1, 1), group(vec![a, b], 2));
    assert_eq!(
        link_status(2, groups.get(&key_of_inode(1, 1)), &selection),
        LinkStatus::AllLinksSelected
    );
}

#[test]
fn link_status_one_scanned_link_outside_selection_pins_the_inode() {
    let (a, b) = (n(1), n(2));
    let selection: HashSet<u32> = [a.raw].into_iter().collect();
    let mut groups = HashMap::new();
    groups.insert(key_of_inode(1, 1), group(vec![a, b], 2));
    assert_eq!(
        link_status(2, groups.get(&key_of_inode(1, 1)), &selection),
        LinkStatus::LinksOutside
    );
}

#[test]
fn link_status_scan_did_not_see_every_link_even_if_selected_ones_are_all_in() {
    let a = n(1);
    let selection: HashSet<u32> = [a.raw].into_iter().collect();
    let mut groups = HashMap::new();
    groups.insert(key_of_inode(1, 1), group(vec![a], 3));
    assert_eq!(
        link_status(3, groups.get(&key_of_inode(1, 1)), &selection),
        LinkStatus::LinksOutside
    );
}

#[test]
fn assemble_two_marks_jointly_cover_both_links_of_one_inode() {
    let (m_a, m_b) = (n(1), n(2));
    let (link1, link2) = (n(10), n(11));
    let mut results = HashMap::new();
    results.insert(m_a.raw, mark_files(vec![sel(link1, 1, 1, 2, 4096)]));
    results.insert(m_b.raw, mark_files(vec![sel(link2, 1, 1, 2, 4096)]));
    let mut hardlink_groups = HashMap::new();
    hardlink_groups.insert(key_of_inode(1, 1), group(vec![link1, link2], 2));
    let mut dev_tier = HashMap::new();
    dev_tier.insert(1, FsTier::HardlinkOnly);

    let view = assembled(
        &[m_a, m_b],
        &results,
        &HashMap::new(),
        &dev_tier,
        &HashMap::new(),
        &hardlink_groups,
        false,
    );
    assert_eq!(view.report.inodes, 1);
    assert_eq!(view.report.exclusive, 4096, "both links selected: freeable");
    assert_eq!(view.report.shared_outside, 0);
    assert_eq!(view.report.hardlink_outside, 0);
}

#[test]
fn assemble_marking_only_one_of_two_links_pins_the_inode() {
    let m_a = n(1);
    let (link1, link2) = (n(10), n(11));
    let mut results = HashMap::new();
    results.insert(m_a.raw, mark_files(vec![sel(link1, 1, 1, 2, 4096)]));
    let mut hardlink_groups = HashMap::new();
    hardlink_groups.insert(key_of_inode(1, 1), group(vec![link1, link2], 2));
    let mut dev_tier = HashMap::new();
    dev_tier.insert(1, FsTier::HardlinkOnly);

    let view = assembled(
        &[m_a],
        &results,
        &HashMap::new(),
        &dev_tier,
        &HashMap::new(),
        &hardlink_groups,
        false,
    );
    assert_eq!(view.report.exclusive, 0);
    assert_eq!(view.report.shared_outside, 4096);
    assert_eq!(view.report.hardlink_outside, 1);
}

#[test]
fn assemble_sums_truncation_across_every_mark() {
    let (m1, m2) = (n(1), n(2));
    let mut results = HashMap::new();
    results.insert(m1.raw,
        MarkFiles {
            files: vec![sel(n(10), 1, 1, 1, 100)],
            truncated_files: 5,
            truncated_disk: 5000,
        },
    );
    results.insert(m2.raw,
        MarkFiles {
            files: vec![sel(n(11), 1, 2, 1, 200)],
            truncated_files: 3,
            truncated_disk: 3000,
        },
    );
    let mut dev_tier = HashMap::new();
    dev_tier.insert(1, FsTier::HardlinkOnly);
    let view = assembled(
        &[m1, m2],
        &results,
        &HashMap::new(),
        &dev_tier,
        &HashMap::new(),
        &HashMap::new(),
        false,
    );
    assert_eq!(view.truncated_files, 8);
    assert_eq!(view.truncated_disk, 8000);
}

#[test]
fn assemble_flags_compressed_when_any_selected_dev_is_compressed() {
    let m1 = n(1);
    let mut results = HashMap::new();
    results.insert(m1.raw, mark_files(vec![sel(n(10), 1, 1, 1, 100)]));
    let mut dev_tier = HashMap::new();
    dev_tier.insert(1, FsTier::HardlinkOnly);
    let mut dev_compressed = HashMap::new();
    dev_compressed.insert(1, true);

    let view = assembled(
        &[m1],
        &results,
        &HashMap::new(),
        &dev_tier,
        &dev_compressed,
        &HashMap::new(),
        false,
    );
    assert!(view.compressed);
}

#[test]
fn assemble_passes_old_kernel_through_unchanged() {
    let view = assembled(
        &[],
        &HashMap::new(),
        &HashMap::new(),
        &HashMap::new(),
        &HashMap::new(),
        &HashMap::new(),
        true,
    );
    assert!(view.old_kernel);
}

fn view(report: OracleReport) -> OracleView {
    OracleView {
        report,
        compressed: false,
        old_kernel: false,
        truncated_files: 0,
        truncated_disk: 0,
    }
}

#[test]
fn zero_exclusive_on_a_nonzero_selection_still_renders_the_line() {
    let report = OracleReport {
        exclusive: 0,
        shared_within: 4096,
        ..Default::default()
    };
    let wording = ready_wording(&view(report));
    assert_eq!(wording.summary[0], "frees ≥ 0 B exclusive");
    assert!(wording.summary[1].contains("up to"));
}

#[test]
fn wording_never_promises_an_exact_figure() {
    let report = OracleReport {
        exclusive: 1024,
        shared_within: 2048,
        shared_outside: 512,
        unknown: 256,
        zfs_files: 1,
        zfs_bytes: 4096,
        hardlink_outside: 1,
        ..Default::default()
    };
    let wording = ready_wording(&view(report));
    let joined = wording.summary.join(" / ");
    assert!(joined.contains("frees ≥"));
    assert!(joined.contains("up to"));
    assert!(joined.contains("will not be freed"));
    assert!(joined.contains("hardlinked file(s) with links outside the selection"));
    assert!(joined.contains("not estimated"));
    assert!(joined.contains("ZFS exposes no per-file sharing"));
    assert!(!joined.to_lowercase().contains("exactly"));
}

#[test]
fn caveats_appear_only_when_flagged() {
    let mut v = view(OracleReport::default());
    assert!(ready_wording(&v).caveats.is_empty());
    v.compressed = true;
    assert_eq!(
        ready_wording(&v).caveats,
        vec!["compressed mount: physical reclaim may be smaller".to_owned()]
    );
    v.old_kernel = true;
    v.truncated_files = 7;
    let caveats = ready_wording(&v).caveats;
    assert_eq!(caveats.len(), 3);
    assert!(caveats[2].contains("7 file(s) beyond the 50k mapping cap"));
}

#[test]
fn pending_line_carries_the_spinner_char() {
    assert_eq!(
        pending_line('⠋'),
        "⠋ estimating actual reclaim… (y deletes without waiting)"
    );
}

#[test]
fn disabled_runtime_never_reports_pending_and_slot_is_always_disabled() {
    let rt = OracleRuntime::new(true, true);
    assert!(!rt.has_pending());
    let slot = build_slot(&rt, &[n(1)], &HashMap::new());
    assert!(matches!(slot, SlotPlan::Disabled));
}

#[test]
fn a_mark_with_no_landed_job_is_pending() {
    let mut rt = OracleRuntime::new(false, true);
    rt.pending.insert(1, 1);
    let slot = build_slot(&rt, &[n(1)], &HashMap::new());
    assert!(matches!(slot, SlotPlan::Pending));
}

#[test]
fn poll_moves_a_mark_from_pending_to_ready_once_its_result_lands() {
    let mut rt = OracleRuntime::new(false, true);
    rt.pending.insert(1, 1);
    let arrived = vec![landed(0, 1, 1, mark_files(vec![sel(n(10), 1, 1, 1, 4096)]))];

    assert!(rt.poll(arrived, 0, &HashSet::from([1])));
    assert_eq!(rt.pending.get(&1).copied(), None, "resolved");

    let slot = build_slot(&rt, &[n(1)], &HashMap::new());
    assert!(matches!(slot, SlotPlan::Correlate(_)));
}

#[test]
fn oracle_poll_drops_a_result_from_a_stale_epoch() {
    let mut rt = OracleRuntime::new(false, true);
    rt.pending.insert(1, 1);
    let arrived = vec![landed(0, 1, 1, mark_files(vec![sel(n(10), 1, 1, 1, 4096)]))];

    rt.poll(arrived, 1, &HashSet::from([1]));
    assert_eq!(
        rt.pending.get(&1).copied(),
        Some(1),
        "stale result never resolves the pending entry"
    );
}

#[test]
fn poll_drops_a_superseded_result_from_a_rapid_remark() {
    let mut rt = OracleRuntime::new(false, true);
    rt.pending.insert(1, 2);
    let arrived = vec![landed(0, 1, 1, mark_files(vec![sel(n(10), 1, 1, 1, 111)]))];

    rt.poll(arrived, 0, &HashSet::from([1]));
    assert_eq!(
        rt.pending.get(&1).copied(),
        Some(2),
        "the outdated job's arrival must not resolve the current one"
    );
    assert!(
        !rt.results.contains_key(&1),
        "stale serial's data never gets stored"
    );
}

#[test]
fn poll_drops_a_result_for_a_node_no_longer_marked() {
    let mut rt = OracleRuntime::new(false, true);
    rt.pending.insert(1, 1);
    let arrived = vec![landed(0, 1, 1, mark_files(vec![sel(n(10), 1, 1, 1, 111)]))];

    rt.poll(arrived, 0, &HashSet::new());
    assert!(!rt.results.contains_key(&1));
}

#[test]
fn mark_removed_drops_the_result_and_pending_entry() {
    let mut rt = OracleRuntime::new(false, true);
    rt.pending.insert(1, 1);
    rt.results.insert(1, mark_files(vec![]));
    rt.mark_removed(1);
    assert!(rt.pending.get(&1).is_none());
    assert!(!rt.results.contains_key(&1));
}

#[test]
fn oracle_on_deletion_clears_every_cache() {
    let mut rt = OracleRuntime::new(false, true);
    rt.pending.insert(1, 1);
    rt.results.insert(1, mark_files(vec![]));
    rt.known_maps.insert(key_of_inode(1, 1), false);
    rt.dev_tier.insert(1, FsTier::Extent);
    rt.dev_compressed.insert(1, true);

    rt.on_deletion();

    assert!(rt.pending.is_empty());
    assert!(rt.results.is_empty());
    assert!(rt.known_maps.is_empty());
    assert!(rt.dev_tier.is_empty());
    assert!(rt.dev_compressed.is_empty());
}

#[test]
fn clear_marks_empties_results_and_pending_only() {
    let mut rt = OracleRuntime::new(false, true);
    rt.pending.insert(1, 1);
    rt.results.insert(2, mark_files(vec![]));
    rt.known_maps.insert(key_of_inode(1, 1), false);

    rt.clear_marks();

    assert!(rt.pending.is_empty());
    assert!(rt.results.is_empty());
    assert!(
        !rt.known_maps.is_empty(),
        "the inode cache stays epoch-valid across a plain unmark-all"
    );
}

#[test]
fn a_remark_gets_a_number_of_its_own() {
    let mut rt = OracleRuntime::new(false, false);
    assert!(rt.old_kernel, "an unreliable bit is a caveat");
    let first = rt.mark_added(1).expect("a job starts");
    rt.mark_removed(1);
    let second = rt.mark_added(1).expect("a job starts");
    assert_ne!(first, second);
    let arrived = vec![landed(0, 1, first, mark_files(vec![]))];
    assert!(!rt.all_landed(&[n(1)]));
    rt.poll(arrived, 0, &HashSet::from([1]));
    assert!(!rt.all_landed(&[n(1)]), "the old job is no answer");
    let arrived = vec![landed(0, 1, second, mark_files(vec![]))];
    rt.poll(arrived, 0, &HashSet::from([1]));
    assert!(rt.all_landed(&[n(1)]));
}

#[test]
fn a_disabled_oracle_starts_no_job() {
    let mut rt = OracleRuntime::new(true, true);
    assert_eq!(rt.mark_added(1), None);
}

fn child(node: u32, dir: Option<usize>, disk: u64) -> Child {
    Child { node, dir, disk }
}

#[test]
fn a_marked_directory_is_its_files() {
    let tree = TreeIndex {
        dirs: vec![
            vec![child(1, None, 10), child(2, Some(1), 0), child(3, None, 30)],
            vec![child(4, None, 40)],
        ],
    };
    let found = enumerate_mark(&tree, 9, Some(0), 80);
    let mut nodes: Vec<u32> = found.collected.iter().map(|leaf| leaf.0).collect();
    nodes.sort();
    assert_eq!(nodes, vec![1, 3, 4]);
    assert_eq!((found.truncated_files, found.truncated_disk), (0, 0));

    let file = enumerate_mark(&tree, 1, None, 10);
    assert_eq!(file.collected, vec![(1, 10)]);
}

#[test]
fn files_beyond_the_cap_are_counted() {
    let extra: u32 = 3;
    let count = MAX_FILES_PER_MARK as u32 + extra;
    let tree = TreeIndex {
        dirs: vec![(0..count).map(|i| child(i, None, 2)).collect()],
    };
    let found = enumerate_mark(&tree, 9, Some(0), 0);
    assert_eq!(found.collected.len(), MAX_FILES_PER_MARK);
    assert_eq!(found.truncated_files, 3);
    assert_eq!(found.truncated_disk, 6);
}

#[test]
fn a_job_maps_each_inode_of_an_extent_volume_once() {
    let mut job = MarkJob::new(1, 100);
    assert!(job.needs_probe(5));
    job.probed(5, FsTier::Extent, true);
    assert!(!job.needs_probe(5));
    let stat = Stat {
        dev: 5,
        ino: 7,
        nlink: 1,
        blocks: 8,
        is_file: true,
    };
    assert!(job.found(1, stat, &HashMap::new()), "unknown: map it");
    let known = HashMap::from([(key_of_inode(5, 7), true)]);
    assert!(!job.found(2, stat, &known), "mapped before");
    job.vanished(50);
    assert_eq!(job.files.files.len(), 2);
    assert_eq!(job.files.files[0].disk, 4096);
    assert_eq!(job.files.truncated_files, 2);
    assert_eq!(job.files.truncated_disk, 150);
}

#[test]
fn a_job_that_cannot_start_leaves_no_mark_waiting() {
    let mut rt = OracleRuntime::new(false, true);
    let groups = HashMap::new();
    let marks = [NodeId::from_raw(1)];
    let serial = rt.mark_added(1).expect("a job starts");
    rt.start_failed(1, serial + 1);
    assert!(rt.has_pending(), "another job's serial");
    assert!(matches!(build_slot(&rt, &marks, &groups), SlotPlan::Pending));
    rt.start_failed(1, serial);
    assert!(!rt.has_pending());
    assert!(rt.all_landed(&marks));
    assert!(matches!(build_slot(&rt, &marks, &groups), SlotPlan::Correlate(_)));
}
