//! What deleting the marked selection would free: which jobs still count, how
//! the selection's inodes are put together, and what the confirmation may say.

use crate::model::NodeId;
use crate::nlink_rt;
use crate::nlink_rt::key_of_inode;
use crate::oracle_job::{FsTier, MarkFiles, SelFile};
use crate::size;
use crate::size::push_human;
use crate::text;
use crate::text::{copy_str, dec_string, push_dec};
use std::collections::{HashMap, HashSet};
use vstd::prelude::*;
use vstd::string::*;

verus! {

broadcast use vstd::std_specs::hash::group_hash_axioms;

/// The bytes of a selection, by what becomes of them.
#[derive(Debug, Clone, Copy, PartialEq, Eq, Structural)]
pub struct OracleReport {
    /// Freed for sure.
    pub exclusive: u64,
    /// Shared within the selection only.
    pub shared_within: u64,
    /// Shared with something outside.
    pub shared_outside: u64,
    pub unknown: u64,
    pub zfs_files: u64,
    pub zfs_bytes: u64,
    /// Hardlinked files with links outside.
    pub hardlink_outside: u64,
    pub inodes: u64,
    pub mapped: u64,
}

impl Default for OracleReport {
    fn default() -> (r: OracleReport)
        ensures
            r.exclusive == 0,
            r.shared_within == 0,
            r.shared_outside == 0,
            r.unknown == 0,
            r.zfs_files == 0,
            r.zfs_bytes == 0,
            r.hardlink_outside == 0,
            r.inodes == 0,
            r.mapped == 0,
    {
        OracleReport {
            exclusive: 0,
            shared_within: 0,
            shared_outside: 0,
            unknown: 0,
            zfs_files: 0,
            zfs_bytes: 0,
            hardlink_outside: 0,
            inodes: 0,
            mapped: 0,
        }
    }
}

/// A report with what qualifies it.
#[derive(Debug, Clone, Copy, PartialEq, Eq, Structural)]
pub struct OracleView {
    pub report: OracleReport,
    /// Some file lies on a compressed mount.
    pub compressed: bool,
    /// The kernel's sharing bit cannot be relied on.
    pub old_kernel: bool,
    pub truncated_files: u64,
    pub truncated_disk: u64,
}

/// What the confirmation shows.
#[derive(Debug, Clone, Copy, PartialEq, Eq, Structural)]
pub enum OracleSlot {
    /// Switched off.
    Disabled,
    /// A job has not landed yet.
    Pending,
    Ready(OracleView),
}

/// The confirmation's lines: the figures, then what qualifies them.
#[derive(Debug)]
pub struct OracleWording {
    pub summary: Vec<String>,
    pub caveats: Vec<String>,
}

/// A list with one more line where a condition holds.
pub open spec fn with_line(lines: Seq<Seq<char>>, yes: bool, line: Seq<char>) -> Seq<Seq<char>> {
    if yes {
        lines.push(line)
    } else {
        lines
    }
}

/// The line about bytes that stay.
pub open spec fn outside_text(r: OracleReport) -> Seq<char> {
    let line = size::human(r.shared_outside) + " shared elsewhere will not be freed"@;
    if r.hardlink_outside > 0 {
        line + " — includes "@ + text::dec(r.hardlink_outside as nat)
            + " hardlinked file(s) with links outside the selection"@
    } else {
        line
    }
}

/// The confirmation's figures: never more than a bound, and a floor of zero is
/// said too.
pub open spec fn summary_text(r: OracleReport) -> Seq<Seq<char>> {
    let a = seq!["frees ≥ "@ + size::human(r.exclusive) + " exclusive"@];
    let b = with_line(
        a,
        r.shared_within > 0,
        "+ up to "@ + size::human(r.shared_within) + " shared only within the marked set"@,
    );
    let c = with_line(b, r.shared_outside > 0, outside_text(r));
    let d = with_line(
        c,
        r.unknown > 0,
        size::human(r.unknown) + " not estimated (unwritten or unmapped)"@,
    );
    with_line(
        d,
        r.zfs_files > 0,
        text::dec(r.zfs_files as nat)
            + " file(s) on ZFS — no estimate: ZFS exposes no per-file sharing"@,
    )
}

/// What qualifies the figures.
pub open spec fn caveats_text(v: OracleView) -> Seq<Seq<char>> {
    let a = with_line(
        seq![],
        v.compressed,
        "compressed mount: physical reclaim may be smaller"@,
    );
    let b = with_line(
        a,
        v.old_kernel,
        "kernel < 6.1: sharing detection may overstate the exclusive figure"@,
    );
    with_line(
        b,
        v.truncated_files > 0,
        text::dec(v.truncated_files as nat)
            + " file(s) beyond the 50k mapping cap — counted as not estimated"@,
    )
}

fn push_text(lines: &mut Vec<String>, s: String)
    ensures
        text::texts(final(lines)@) == text::texts(old(lines)@).push(s@),
{
    let ghost before = text::texts(lines@);
    lines.push(s);
    assert(text::texts(lines@) =~= before.push(s@));
}

fn sized(before: &str, bytes: u64, after: &str) -> (s: String)
    ensures
        s@ == before@ + size::human(bytes) + after@,
{
    let mut s = copy_str(before);
    push_human(&mut s, bytes);
    s.append(after);
    s
}

fn sized_first(bytes: u64, after: &str) -> (s: String)
    ensures
        s@ == size::human(bytes) + after@,
{
    let mut s = size::human_string(bytes);
    s.append(after);
    s
}

fn counted(n: u64, after: &str) -> (s: String)
    ensures
        s@ == text::dec(n as nat) + after@,
{
    let mut s = dec_string(n as u128);
    s.append(after);
    s
}

fn summary_lines(r: &OracleReport) -> (lines: Vec<String>)
    ensures
        text::texts(lines@) == summary_text(*r),
{
    let mut lines: Vec<String> = Vec::new();
    push_text(&mut lines, sized("frees ≥ ", r.exclusive, " exclusive"));
    assert(text::texts(lines@) =~= seq!["frees ≥ "@ + size::human(r.exclusive) + " exclusive"@]);
    if r.shared_within > 0 {
        push_text(
            &mut lines,
            sized("+ up to ", r.shared_within, " shared only within the marked set"),
        );
    }
    if r.shared_outside > 0 {
        let mut line = sized_first(r.shared_outside, " shared elsewhere will not be freed");
        if r.hardlink_outside > 0 {
            line.append(" — includes ");
            push_dec(&mut line, r.hardlink_outside as u128);
            line.append(" hardlinked file(s) with links outside the selection");
        }
        push_text(&mut lines, line);
    }
    if r.unknown > 0 {
        push_text(&mut lines, sized_first(r.unknown, " not estimated (unwritten or unmapped)"));
    }
    if r.zfs_files > 0 {
        push_text(
            &mut lines,
            counted(
                r.zfs_files,
                " file(s) on ZFS — no estimate: ZFS exposes no per-file sharing",
            ),
        );
    }
    lines
}

/// The confirmation's wording of a report.
pub fn ready_wording(view: &OracleView) -> (w: OracleWording)
    ensures
        text::texts(w.summary@) == summary_text(view.report),
        text::texts(w.caveats@) == caveats_text(*view),
{
    let summary = summary_lines(&view.report);
    let mut caveats: Vec<String> = Vec::new();
    assert(text::texts(caveats@) =~= seq![]);
    if view.compressed {
        push_text(
            &mut caveats,
            copy_str("compressed mount: physical reclaim may be smaller"),
        );
    }
    if view.old_kernel {
        push_text(
            &mut caveats,
            copy_str("kernel < 6.1: sharing detection may overstate the exclusive figure"),
        );
    }
    if view.truncated_files > 0 {
        push_text(
            &mut caveats,
            counted(
                view.truncated_files,
                " file(s) beyond the 50k mapping cap — counted as not estimated",
            ),
        );
    }
    OracleWording { summary, caveats }
}

/// The line while a job is out.
pub fn pending_line(spinner: char) -> (s: String)
    ensures
        s@ == seq![spinner] + " estimating actual reclaim… (y deletes without waiting)"@,
{
    let mut s = String::new();
    s.push(spinner);
    s.append(" estimating actual reclaim… (y deletes without waiting)");
    assert(s@ =~= seq![spinner] + " estimating actual reclaim… (y deletes without waiting)"@);
    s
}

/// How an inode's links stand to the selection.
#[derive(Debug, Clone, Copy, PartialEq, Eq, Structural)]
pub enum LinkStatus {
    /// It has one link.
    Single,
    /// Every link that exists is selected.
    AllLinksSelected,
    /// Some link is not, or cannot be shown to be.
    LinksOutside,
}

/// The links of an inode that the scan met, and how many there are.
#[derive(Debug)]
pub struct HardlinkGroup {
    pub nodes: Vec<NodeId>,
    pub nlink: u32,
}

/// Whether the scan met every link of a group and all of them are selected.
pub open spec fn covered(group: HardlinkGroup, selection: Set<u32>) -> bool {
    &&& group.nodes@.len() == group.nlink
    &&& forall|i: int|
        0 <= i < group.nodes@.len() ==> selection.contains((#[trigger] group.nodes@[i]).raw)
}

/// How the links of an inode stand to a selection. An inode with several links
/// of which the scan knows nothing may have links outside.
pub open spec fn status_of(
    nlink: u32,
    group: Option<HardlinkGroup>,
    selection: Set<u32>,
) -> LinkStatus {
    if nlink <= 1 {
        LinkStatus::Single
    } else {
        match group {
            Some(g) if covered(g, selection) => LinkStatus::AllLinksSelected,
            _ => LinkStatus::LinksOutside,
        }
    }
}

/// Decides how an inode's links stand to a selection.
pub fn link_status(nlink: u32, group: Option<&HardlinkGroup>, selection: &HashSet<u32>) -> (s:
    LinkStatus)
    ensures
        s == status_of(
            nlink,
            match group {
                Some(g) => Some(*g),
                None => None,
            },
            selection@,
        ),
{
    if nlink <= 1 {
        return LinkStatus::Single;
    }
    let g = match group {
        None => {
            return LinkStatus::LinksOutside;
        },
        Some(g) => g,
    };
    if g.nodes.len() as u128 != g.nlink as u128 {
        return LinkStatus::LinksOutside;
    }
    let mut i: usize = 0;
    while i < g.nodes.len()
        invariant
            i <= g.nodes@.len(),
            nlink > 1,
            group == Some(g),
            forall|k: int|
                0 <= k < i ==> selection@.contains((#[trigger] g.nodes@[k]).raw),
        decreases g.nodes@.len() - i,
    {
        if !selection.contains(&g.nodes[i].raw) {
            assert(!covered(*g, selection@));
            return LinkStatus::LinksOutside;
        }
        i = i + 1;
    }
    assert(covered(*g, selection@));
    LinkStatus::AllLinksSelected
}

/// One inode of the selection, as the extent correlation takes it.
#[derive(Debug, Clone, Copy, PartialEq, Eq, Structural)]
pub struct OracleInput {
    pub dev: u64,
    pub ino: u64,
    pub disk: u64,
    pub tier: FsTier,
    pub links: LinkStatus,
    /// Whether its extents were mapped.
    pub mapped: bool,
}

/// The selection as the extent correlation takes it, with what qualifies the
/// report.
#[derive(Debug)]
pub struct Gathered {
    pub inputs: Vec<OracleInput>,
    pub compressed: bool,
    pub truncated_files: u64,
    pub truncated_disk: u64,
}

/// The files of the landed marks, in order.
pub open spec fn files_of(marks: Seq<NodeId>, results: Map<u32, MarkFiles>) -> Seq<SelFile>
    decreases marks.len(),
{
    if marks.len() == 0 {
        Seq::empty()
    } else {
        let before = files_of(marks.drop_last(), results);
        let raw = marks.last().raw;
        if results.dom().contains(raw) {
            before + results[raw].files@
        } else {
            before
        }
    }
}

/// The truncated files of the landed marks.
pub open spec fn truncated_of(marks: Seq<NodeId>, results: Map<u32, MarkFiles>) -> (nat, nat)
    decreases marks.len(),
{
    if marks.len() == 0 {
        (0, 0)
    } else {
        let before = truncated_of(marks.drop_last(), results);
        let raw = marks.last().raw;
        if results.dom().contains(raw) {
            (
                before.0 + results[raw].truncated_files as nat,
                before.1 + results[raw].truncated_disk as nat,
            )
        } else {
            before
        }
    }
}

/// The nodes of some files.
pub open spec fn nodes_of(files: Seq<SelFile>) -> Set<u32> {
    Set::new(|n: u32| exists|i: int| 0 <= i < files.len() && #[trigger] files[i].node == n)
}

/// Whether some file has the inode of another.
pub open spec fn has_inode(files: Seq<SelFile>, f: SelFile) -> bool {
    exists|i: int|
        0 <= i < files.len() && (#[trigger] files[i]).dev == f.dev && files[i].ino == f.ino
}

/// The first file of each inode.
pub open spec fn firsts(files: Seq<SelFile>) -> Seq<SelFile>
    decreases files.len(),
{
    if files.len() == 0 {
        Seq::empty()
    } else if has_inode(files.drop_last(), files.last()) {
        firsts(files.drop_last())
    } else {
        firsts(files.drop_last()).push(files.last())
    }
}

/// A device's tier; one that was never probed is taken to know hardlinks only.
pub open spec fn tier_at(tiers: Map<u64, FsTier>, dev: u64) -> FsTier {
    if tiers.dom().contains(dev) {
        tiers[dev]
    } else {
        FsTier::HardlinkOnly
    }
}

/// What is looked up per inode and per device.
pub struct Facts<'a> {
    pub known: &'a HashMap<u128, bool>,
    pub tiers: &'a HashMap<u64, FsTier>,
    pub compressed: &'a HashMap<u64, bool>,
    pub groups: &'a HashMap<u128, HardlinkGroup>,
}

/// The group of an inode.
pub open spec fn group_at(groups: Map<u128, HardlinkGroup>, key: u128) -> Option<HardlinkGroup> {
    if groups.dom().contains(key) {
        Some(groups[key])
    } else {
        None
    }
}

/// A file's inode as the extent correlation takes it.
pub open spec fn input_of(f: SelFile, selection: Set<u32>, facts: Facts) -> OracleInput {
    let key = nlink_rt::inode_key(f.dev, f.ino);
    let tier = tier_at(facts.tiers@, f.dev);
    OracleInput {
        dev: f.dev,
        ino: f.ino,
        disk: f.disk,
        tier,
        links: status_of(f.nlink, group_at(facts.groups@, key), selection),
        mapped: tier is Extent && facts.known@.dom().contains(key) && facts.known@[key],
    }
}

/// Whether a file's device is compressed.
pub open spec fn on_compressed(f: SelFile, facts: Facts) -> bool {
    facts.compressed@.dom().contains(f.dev) && facts.compressed@[f.dev]
}

/// Whether a selection is put together from its marks: one input per inode, from
/// the first file that has it, with its links judged against the whole
/// selection.
pub open spec fn gathers(
    marks: Seq<NodeId>,
    results: Map<u32, MarkFiles>,
    facts: Facts,
    g: Gathered,
) -> bool {
    let files = files_of(marks, results);
    let each = firsts(files);
    &&& g.inputs@.len() == each.len()
    &&& forall|i: int|
        0 <= i < each.len() ==> #[trigger] g.inputs@[i] == input_of(
            each[i],
            nodes_of(files),
            facts,
        )
    &&& g.compressed == (exists|i: int| 0 <= i < each.len() && on_compressed(#[trigger] each[i], facts))
    &&& g.truncated_files == truncated_of(marks, results).0
    &&& g.truncated_disk == truncated_of(marks, results).1
}

fn collect_nodes(selection: &mut HashSet<u32>, files: &Vec<SelFile>, Ghost(done): Ghost<
    Seq<SelFile>,
>)
    requires
        old(selection)@ == nodes_of(done),
    ensures
        final(selection)@ == nodes_of(done + files@),
{
    let mut i: usize = 0;
    assert(done + files@.take(0) =~= done);
    while i < files.len()
        invariant
            i <= files@.len(),
            selection@ == nodes_of(done + files@.take(i as int)),
        decreases files@.len() - i,
    {
        let ghost before = done + files@.take(i as int);
        let n: u32 = files[i].node;
        selection.insert(n);
        proof {
            let after = done + files@.take(i + 1);
            assert(after =~= before.push(files@[i as int]));
            assert forall|m: u32| nodes_of(after).contains(m) <==> (#[trigger] nodes_of(
                before,
            ).contains(m) || m == n) by {
                if nodes_of(before).contains(m) {
                    let k = choose|k: int| 0 <= k < before.len() && #[trigger] before[k].node == m;
                    assert(after[k].node == m);
                }
                if m == n {
                    assert(after[before.len() as int].node == m);
                }
                if nodes_of(after).contains(m) && m != n {
                    let k = choose|k: int| 0 <= k < after.len() && #[trigger] after[k].node == m;
                    assert(before[k].node == m);
                }
            }
            assert(selection@ =~= nodes_of(after));
        }
        i = i + 1;
    }
    assert(files@.take(i as int) =~= files@);
}

/// Whether a set holds the inodes of some files.
#[verifier::opaque]
spec fn inodes_are(keys: Set<u128>, files: Seq<SelFile>) -> bool {
    forall|f: SelFile|
        keys.contains(#[trigger] nlink_rt::inode_key(f.dev, f.ino)) <==> has_inode(files, f)
}

#[verifier::spinoff_prover]
proof fn lemma_inodes_push(keys: Set<u128>, files: Seq<SelFile>, g: SelFile)
    requires
        inodes_are(keys, files),
    ensures
        inodes_are(keys.insert(nlink_rt::inode_key(g.dev, g.ino)), files.push(g)),
{
    reveal(inodes_are);
    let more = files.push(g);
    let key = nlink_rt::inode_key(g.dev, g.ino);
    assert forall|f: SelFile|
        keys.insert(key).contains(#[trigger] nlink_rt::inode_key(f.dev, f.ino)) <==> has_inode(
            more,
            f,
        ) by {
        if has_inode(files, f) {
            let i = choose|i: int|
                0 <= i < files.len() && (#[trigger] files[i]).dev == f.dev && files[i].ino == f.ino;
            assert(more[i].dev == f.dev);
        }
        if nlink_rt::inode_key(f.dev, f.ino) == key {
            nlink_rt::lemma_inode_keys_differ(f.dev, f.ino, g.dev, g.ino);
            assert(more[files.len() as int].dev == f.dev);
        }
        if has_inode(more, f) && !has_inode(files, f) {
            let i = choose|i: int|
                0 <= i < more.len() && (#[trigger] more[i]).dev == f.dev && more[i].ino == f.ino;
            if i < files.len() {
                assert(files[i] == more[i]);
                assert(has_inode(files, f));
            }
            assert(more[i] == g);
        }
    }
}

proof fn lemma_inodes_known(keys: Set<u128>, files: Seq<SelFile>, f: SelFile)
    requires
        inodes_are(keys, files),
    ensures
        keys.contains(nlink_rt::inode_key(f.dev, f.ino)) <==> has_inode(files, f),
{
    reveal(inodes_are);
}

proof fn lemma_inodes_empty(keys: Set<u128>)
    requires
        keys == Set::<u128>::empty(),
    ensures
        inodes_are(keys, Seq::empty()),
{
    reveal(inodes_are);
}

fn collect_firsts(
    each: &mut Vec<SelFile>,
    keys: &mut HashSet<u128>,
    files: &Vec<SelFile>,
    Ghost(done): Ghost<Seq<SelFile>>,
)
    requires
        old(each)@ == firsts(done),
        inodes_are(old(keys)@, done),
    ensures
        final(each)@ == firsts(done + files@),
        inodes_are(final(keys)@, done + files@),
{
    let mut i: usize = 0;
    assert(done + files@.take(0) =~= done);
    while i < files.len()
        invariant
            i <= files@.len(),
            each@ == firsts(done + files@.take(i as int)),
            inodes_are(keys@, done + files@.take(i as int)),
        decreases files@.len() - i,
    {
        let f = files[i];
        let key: u128 = key_of_inode(f.dev, f.ino);
        let ghost before = done + files@.take(i as int);
        proof {
            let after = done + files@.take(i + 1);
            assert(after =~= before.push(f));
            assert(after.drop_last() =~= before);
            lemma_inodes_push(keys@, before, f);
            lemma_inodes_known(keys@, before, f);
        }
        if !keys.contains(&key) {
            keys.insert(key);
            each.push(f);
        } else {
            assert(keys@.insert(key) =~= keys@);
        }
        i = i + 1;
    }
    assert(files@.take(i as int) =~= files@);
}

fn build_input(f: &SelFile, selection: &HashSet<u32>, facts: &Facts) -> (r: OracleInput)
    ensures
        r == input_of(*f, selection@, *facts),
{
    let key: u128 = key_of_inode(f.dev, f.ino);
    let tier = match facts.tiers.get(&f.dev) {
        Some(t) => *t,
        None => FsTier::HardlinkOnly,
    };
    let known: bool = match facts.known.get(&key) {
        Some(m) => *m,
        None => false,
    };
    let extent: bool = match tier {
        FsTier::Extent => true,
        _ => false,
    };
    OracleInput {
        dev: f.dev,
        ino: f.ino,
        disk: f.disk,
        tier,
        links: link_status(f.nlink, facts.groups.get(&key), selection),
        mapped: extent && known,
    }
}

proof fn lemma_truncated_prefix(marks: Seq<NodeId>, results: Map<u32, MarkFiles>, n: int)
    requires
        0 <= n <= marks.len(),
    ensures
        truncated_of(marks.take(n), results).0 <= truncated_of(marks, results).0,
        truncated_of(marks.take(n), results).1 <= truncated_of(marks, results).1,
    decreases marks.len(),
{
    if n < marks.len() {
        lemma_truncated_prefix(marks.drop_last(), results, n);
        assert(marks.drop_last().take(n) =~= marks.take(n));
    } else {
        assert(marks.take(n) =~= marks);
    }
}

/// Puts a selection together from the marks whose jobs have landed.
pub fn assemble(marks: &[NodeId], results: &HashMap<u32, MarkFiles>, facts: &Facts) -> (g: Gathered)
    requires
        truncated_of(marks@, results@).0 <= u64::MAX,
        truncated_of(marks@, results@).1 <= u64::MAX,
    ensures
        gathers(marks@, results@, *facts, g),
{
    let mut selection: HashSet<u32> = HashSet::new();
    let mut each: Vec<SelFile> = Vec::new();
    let mut keys: HashSet<u128> = HashSet::new();
    let mut truncated_files: u64 = 0;
    let mut truncated_disk: u64 = 0;
    let mut i: usize = 0;
    proof {
        assert(marks@.take(0) =~= Seq::empty());
        assert(selection@ =~= nodes_of(Seq::empty()));
        assert(each@ =~= firsts(Seq::empty()));
        lemma_inodes_empty(keys@);
    }
    while i < marks.len()
        invariant
            i <= marks@.len(),
            selection@ == nodes_of(files_of(marks@.take(i as int), results@)),
            each@ == firsts(files_of(marks@.take(i as int), results@)),
            inodes_are(keys@, files_of(marks@.take(i as int), results@)),
            truncated_files == truncated_of(marks@.take(i as int), results@).0,
            truncated_disk == truncated_of(marks@.take(i as int), results@).1,
            truncated_of(marks@, results@).0 <= u64::MAX,
            truncated_of(marks@, results@).1 <= u64::MAX,
        decreases marks@.len() - i,
    {
        let ghost done = files_of(marks@.take(i as int), results@);
        proof {
            lemma_truncated_prefix(marks@, results@, i + 1);
            assert(marks@.take(i + 1).drop_last() =~= marks@.take(i as int));
            assert(marks@.take(i + 1).last() == marks@[i as int]);
        }
        if let Some(mf) = results.get(&marks[i].raw) {
            collect_nodes(&mut selection, &mf.files, Ghost(done));
            collect_firsts(&mut each, &mut keys, &mf.files, Ghost(done));
            truncated_files = truncated_files + mf.truncated_files;
            truncated_disk = truncated_disk + mf.truncated_disk;
        }
        i = i + 1;
    }
    assert(marks@.take(i as int) =~= marks@);
    let mut inputs: Vec<OracleInput> = Vec::new();
    let mut compressed: bool = false;
    let mut k: usize = 0;
    while k < each.len()
        invariant
            k <= each@.len(),
            inputs@.len() == k,
            forall|j: int|
                0 <= j < k ==> #[trigger] inputs@[j] == input_of(each@[j], selection@, *facts),
            compressed == (exists|j: int| 0 <= j < k && on_compressed(#[trigger] each@[j], *facts)),
        decreases each@.len() - k,
    {
        let f = each[k];
        let here: bool = match facts.compressed.get(&f.dev) {
            Some(c) => *c,
            None => false,
        };
        assert(here == on_compressed(each@[k as int], *facts));
        if here {
            compressed = true;
        }
        inputs.push(build_input(&f, &selection, facts));
        k = k + 1;
    }
    Gathered { inputs, compressed, truncated_files, truncated_disk }
}

/// The view of a selection, once the extent correlation has reported on it.
pub fn view_of(g: &Gathered, report: OracleReport, old_kernel: bool) -> (v: OracleView)
    ensures
        v == (OracleView {
            report,
            compressed: g.compressed,
            old_kernel,
            truncated_files: g.truncated_files,
            truncated_disk: g.truncated_disk,
        }),
{
    OracleView {
        report,
        compressed: g.compressed,
        old_kernel,
        truncated_files: g.truncated_files,
        truncated_disk: g.truncated_disk,
    }
}

/// Every inode of the selection is put in once.
pub proof fn law_inodes_count_once(files: Seq<SelFile>, i: int, j: int)
    requires
        0 <= i < j < firsts(files).len(),
    ensures
        firsts(files)[i].dev != firsts(files)[j].dev || firsts(files)[i].ino != firsts(
            files,
        )[j].ino,
    decreases files.len(),
{
    let before = firsts(files.drop_last());
    if has_inode(files.drop_last(), files.last()) || j < before.len() {
        law_inodes_count_once(files.drop_last(), i, j);
    } else {
        lemma_firsts_come_from(files.drop_last(), i);
        let k = choose|k: int|
            0 <= k < files.drop_last().len() && files.drop_last()[k] == before[i];
        assert(files.drop_last()[k].dev == before[i].dev);
    }
}

proof fn lemma_firsts_come_from(files: Seq<SelFile>, i: int)
    requires
        0 <= i < firsts(files).len(),
    ensures
        exists|k: int| 0 <= k < files.len() && files[k] == firsts(files)[i],
    decreases files.len(),
{
    let before = firsts(files.drop_last());
    if i < before.len() {
        lemma_firsts_come_from(files.drop_last(), i);
        let k = choose|k: int|
            0 <= k < files.drop_last().len() && files.drop_last()[k] == before[i];
        assert(files[k] == before[i]);
    } else {
        assert(files[files.len() - 1] == firsts(files)[i]);
    }
}

/// Every file of the selection is put in, by itself or by another link of its
/// inode.
pub proof fn law_no_inode_is_lost(files: Seq<SelFile>, i: int)
    requires
        0 <= i < files.len(),
    ensures
        has_inode(firsts(files), files[i]),
    decreases files.len(),
{
    let before = firsts(files.drop_last());
    if i < files.len() - 1 {
        law_no_inode_is_lost(files.drop_last(), i);
        let k = choose|k: int|
            0 <= k < before.len() && (#[trigger] before[k]).dev == files[i].dev && before[k].ino
                == files[i].ino;
        assert(firsts(files)[k] == before[k]);
    } else if has_inode(files.drop_last(), files.last()) {
        let k = choose|k: int|
            0 <= k < files.drop_last().len() && (#[trigger] files.drop_last()[k]).dev
                == files.last().dev && files.drop_last()[k].ino == files.last().ino;
        law_no_inode_is_lost(files.drop_last(), k);
        let m = choose|m: int|
            0 <= m < before.len() && (#[trigger] before[m]).dev == files[k].dev && before[m].ino
                == files[k].ino;
        assert(firsts(files)[m] == before[m]);
    } else {
        assert(firsts(files)[before.len() as int] == files[i]);
    }
}

/// An inode counts as freeable only if the selection holds every link that
/// exists.
pub proof fn law_links_outside_pin_the_inode(nlink: u32, g: HardlinkGroup, selection: Set<u32>, k: int)
    requires
        nlink > 1,
        0 <= k < g.nodes@.len(),
        !selection.contains(g.nodes@[k].raw),
    ensures
        status_of(nlink, Some(g), selection) is LinksOutside,
{
}

/// The figures are never suppressed: the first line always says what is freed
/// for sure, zero included.
pub proof fn law_floor_is_always_said(r: OracleReport)
    ensures
        summary_text(r).len() >= 1,
        summary_text(r)[0] == "frees ≥ "@ + size::human(r.exclusive) + " exclusive"@,
{
}

/// An inode with more links than the scan met is never counted as freed, whatever
/// is selected: a link that was not met cannot be selected. Neither is one that
/// has several links and no recorded group.
pub proof fn law_unseen_links_pin_the_inode(nlink: u32, g: HardlinkGroup, selection: Set<u32>)
    requires
        nlink > 1,
    ensures
        g.nlink > g.nodes@.len() ==> status_of(nlink, Some(g), selection) is LinksOutside,
        status_of(nlink, None, selection) is LinksOutside,
{
}

/// An inode counts as selected with all its links only if it has several, and the
/// selection holds as many distinct nodes of it as it has links.
pub proof fn law_all_links_selected_means_every_link(
    nlink: u32,
    g: HardlinkGroup,
    selection: Set<u32>,
)
    requires
        status_of(nlink, Some(g), selection) is AllLinksSelected,
        forall|i: int, j: int|
            0 <= i < j < g.nodes@.len() ==> (#[trigger] g.nodes@[i]).raw != (
            #[trigger] g.nodes@[j]).raw,
    ensures
        nlink > 1,
        ({
            let raws = g.nodes@.map_values(|n: NodeId| n.raw);
            &&& raws.to_set().subset_of(selection)
            &&& raws.to_set().len() == g.nlink
        }),
{
    let raws = g.nodes@.map_values(|n: NodeId| n.raw);
    assert(raws.no_duplicates());
    raws.unique_seq_to_set();
    assert forall|r: u32| raws.to_set().contains(r) implies selection.contains(r) by {
        let i = choose|i: int| 0 <= i < raws.len() && raws[i] == r;
        assert(g.nodes@[i].raw == r);
    }
}

/// An inode whose links were all met and are all selected is freed; selecting more
/// never takes that back. An inode with one link needs no other.
pub proof fn law_selecting_every_link_frees_the_inode(
    nlink: u32,
    g: HardlinkGroup,
    selection: Set<u32>,
    more: Set<u32>,
)
    requires
        forall|i: int|
            0 <= i < g.nodes@.len() ==> selection.contains((#[trigger] g.nodes@[i]).raw),
        g.nodes@.len() == g.nlink,
        selection.subset_of(more),
    ensures
        nlink > 1 ==> status_of(nlink, Some(g), more) is AllLinksSelected,
        nlink <= 1 ==> status_of(nlink, Some(g), more) is Single,
        nlink <= 1 ==> status_of(nlink, None, more) is Single,
{
}

/// The files of a selection are those of its marks, and no others.
pub proof fn law_selection_is_the_marks_files(
    marks: Seq<NodeId>,
    results: Map<u32, MarkFiles>,
    f: SelFile,
)
    ensures
        files_of(marks, results).contains(f) <==> exists|k: int|
            0 <= k < marks.len() && results.dom().contains((#[trigger] marks[k]).raw)
                && results[marks[k].raw].files@.contains(f),
    decreases marks.len(),
{
    if marks.len() > 0 {
        let rest = marks.drop_last();
        let before = files_of(rest, results);
        let raw = marks.last().raw;
        law_selection_is_the_marks_files(rest, results, f);
        let all = files_of(marks, results);
        if all.contains(f) {
            let i = choose|i: int| 0 <= i < all.len() && all[i] == f;
            if i < before.len() {
                assert(before[i] == f);
                let k = choose|k: int|
                    0 <= k < rest.len() && results.dom().contains((#[trigger] rest[k]).raw)
                        && results[rest[k].raw].files@.contains(f);
                assert(marks[k] == rest[k]);
            } else {
                assert(results[raw].files@[i - before.len()] == f);
                assert(marks[marks.len() - 1].raw == raw);
            }
        }
        if exists|k: int|
            0 <= k < marks.len() && results.dom().contains((#[trigger] marks[k]).raw)
                && results[marks[k].raw].files@.contains(f) {
            let k = choose|k: int|
                0 <= k < marks.len() && results.dom().contains((#[trigger] marks[k]).raw)
                    && results[marks[k].raw].files@.contains(f);
            if k < rest.len() {
                assert(rest[k] == marks[k]);
                assert(before.contains(f));
                let i = choose|i: int| 0 <= i < before.len() && before[i] == f;
                assert(all[i] == f);
            } else {
                let own = results[raw].files@;
                let i = choose|i: int| 0 <= i < own.len() && own[i] == f;
                assert(all[before.len() + i] == f);
            }
        }
    }
}

/// What was left out is counted once for every mark: a mark more adds what its job
/// left out, and a mark without a result adds nothing.
pub proof fn law_left_out_files_add_up(marks: Seq<NodeId>, results: Map<u32, MarkFiles>, mark: NodeId)
    ensures
        ({
            let before = truncated_of(marks, results);
            let after = truncated_of(marks.push(mark), results);
            if results.dom().contains(mark.raw) {
                &&& after.0 - before.0 == results[mark.raw].truncated_files
                &&& after.1 - before.1 == results[mark.raw].truncated_disk
            } else {
                after == before
            }
        }),
{
    assert(marks.push(mark).drop_last() =~= marks);
}

/// What is put in for a file is the file's own inode and size; extents count only
/// where the file system tells them and they were mapped, and a file system that
/// was not looked at is taken to share nothing but hard links.
pub proof fn law_inputs_are_the_files(f: SelFile, selection: Set<u32>, facts: Facts)
    ensures
        ({
            let input = input_of(f, selection, facts);
            let key = nlink_rt::inode_key(f.dev, f.ino);
            &&& input.dev == f.dev && input.ino == f.ino && input.disk == f.disk
            &&& input.mapped ==> input.tier is Extent && facts.known@.dom().contains(key)
            &&& facts.tiers@.dom().contains(f.dev) ==> input.tier == facts.tiers@[f.dev]
            &&& !facts.tiers@.dom().contains(f.dev) ==> input.tier is HardlinkOnly
            &&& f.nlink <= 1 ==> input.links is Single
            &&& f.nlink > 1 && !facts.groups@.dom().contains(key) ==> input.links is LinksOutside
            &&& f.nlink > 1 && facts.groups@.dom().contains(key)
                && facts.groups@[key].nlink > facts.groups@[key].nodes@.len()
                ==> input.links is LinksOutside
        }),
{
}

/// Nothing that is not sure is told as freed: bytes shared elsewhere, not
/// estimated or on a file system without an estimate have lines of their own, each
/// exactly when there are such bytes, and the line says how many.
pub proof fn law_every_figure_has_its_line(r: OracleReport)
    ensures
        ({
            let lines = summary_text(r);
            let b: int = if r.shared_within > 0 {
                1
            } else {
                0
            };
            let c: int = b + if r.shared_outside > 0 {
                1int
            } else {
                0
            };
            let d: int = c + if r.unknown > 0 {
                1int
            } else {
                0
            };
            let e: int = d + if r.zfs_files > 0 {
                1int
            } else {
                0
            };
            &&& lines.len() == e + 1
            &&& r.shared_within > 0 ==> text::occurs_in(lines[b], size::human(r.shared_within))
            &&& r.shared_outside > 0 ==> text::starts_with(lines[c], size::human(r.shared_outside))
            &&& r.unknown > 0 ==> text::starts_with(lines[d], size::human(r.unknown))
            &&& r.zfs_files > 0 ==> text::starts_with(lines[e], text::dec(r.zfs_files as nat))
        }),
{
    text::lemma_occurs(
        "+ up to "@,
        size::human(r.shared_within),
        " shared only within the marked set"@,
    );
    text::lemma_ends(size::human(r.shared_outside), " shared elsewhere will not be freed"@);
    let line = size::human(r.shared_outside) + " shared elsewhere will not be freed"@;
    let more = " — includes "@ + text::dec(r.hardlink_outside as nat)
        + " hardlinked file(s) with links outside the selection"@;
    text::lemma_ends(line, more);
    assert(outside_text(r).take(size::human(r.shared_outside).len() as int) =~= size::human(
        r.shared_outside,
    )) by {
        if r.hardlink_outside > 0 {
            assert(outside_text(r) =~= line + more);
        }
    }
    text::lemma_ends(size::human(r.unknown), " not estimated (unwritten or unmapped)"@);
    text::lemma_ends(
        text::dec(r.zfs_files as nat),
        " file(s) on ZFS — no estimate: ZFS exposes no per-file sharing"@,
    );
}

/// Every reason to doubt the figures is told, one line each, and there is no other
/// line.
pub proof fn law_every_doubt_is_told(v: OracleView)
    ensures
        ({
            let lines = caveats_text(v);
            &&& v.compressed <==> lines.contains(
                "compressed mount: physical reclaim may be smaller"@,
            )
            &&& v.truncated_files > 0 ==> text::starts_with(
                lines.last(),
                text::dec(v.truncated_files as nat),
            )
            &&& lines.len() == (if v.compressed {
                1int
            } else {
                0
            }) + (if v.old_kernel {
                1int
            } else {
                0
            }) + (if v.truncated_files > 0 {
                1int
            } else {
                0
            })
        }),
{
    let lines = caveats_text(v);
    let first = "compressed mount: physical reclaim may be smaller"@;
    let second = "kernel < 6.1: sharing detection may overstate the exclusive figure"@;
    let third = text::dec(v.truncated_files as nat)
        + " file(s) beyond the 50k mapping cap — counted as not estimated"@;
    reveal_strlit("compressed mount: physical reclaim may be smaller");
    reveal_strlit("kernel < 6.1: sharing detection may overstate the exclusive figure");
    text::lemma_ends(
        text::dec(v.truncated_files as nat),
        " file(s) beyond the 50k mapping cap — counted as not estimated"@,
    );
    text::law_decimals_read_back(v.truncated_files as nat);
    assert(first[0] == 'c' && second[0] == 'k');
    assert(third[0] == text::dec(v.truncated_files as nat)[0]);
    if v.compressed {
        assert(lines[0] == first);
    }
}

/// Files that are pinned by links outside the selection are told with their number, and
/// only where there are any.
pub proof fn law_pinned_files_are_told(r: OracleReport)
    ensures
        r.hardlink_outside > 0 ==> text::ends_with(
            outside_text(r),
            text::dec(r.hardlink_outside as nat)
                + " hardlinked file(s) with links outside the selection"@,
        ),
        r.hardlink_outside == 0 ==> text::ends_with(
            outside_text(r),
            size::human(r.shared_outside) + " shared elsewhere will not be freed"@,
        ),
{
    let line = size::human(r.shared_outside) + " shared elsewhere will not be freed"@;
    text::lemma_itself(line);
    text::lemma_side_by_side(
        line + " — includes "@,
        text::dec(r.hardlink_outside as nat),
        " hardlinked file(s) with links outside the selection"@,
    );
}

} // verus!
