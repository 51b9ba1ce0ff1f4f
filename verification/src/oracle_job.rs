//! What one mark holds: walking its files, and collecting what a fresh look at
//! each of them finds.

use crate::nlink_rt;
use crate::nlink_rt::key_of_inode;
use std::collections::HashMap;
use vstd::prelude::*;

verus! {

broadcast use vstd::std_specs::hash::group_hash_axioms;

/// Files that one mark is walked into; the rest is only counted.
pub const MAX_FILES_PER_MARK: usize = 50_000;

/// How much a filesystem tells about its extents.
#[derive(Debug, Clone, Copy, PartialEq, Eq, Structural)]
pub enum FsTier {
    /// Extents can be mapped.
    Extent,
    /// Only hardlinks are known.
    HardlinkOnly,
    /// ZFS: nothing is known per file.
    Zfs,
}

/// One child of a directory.
#[derive(Debug, Clone, Copy, PartialEq, Eq, Structural)]
pub struct Child {
    pub node: u32,
    /// The directory that it is, where it was descended into.
    pub dir: Option<usize>,
    /// Disk bytes at scan time.
    pub disk: u64,
}

/// The directories of a finished scan, each with its children; a directory comes
/// after its parent.
#[derive(Debug)]
pub struct TreeIndex {
    pub dirs: Vec<Vec<Child>>,
}

impl TreeIndex {
    /// Whether every directory comes after its parent.
    pub open spec fn wf(&self) -> bool {
        forall|d: int, k: int|
            0 <= d < self.dirs@.len() && 0 <= k < self.dirs@[d]@.len() ==> (match (
            #[trigger] self.dirs@[d]@[k]).dir {
                Some(c) => d < c < self.dirs@.len(),
                None => true,
            })
    }

    /// How many directories the first `k` children of a directory hold.
    pub open spec fn size_of_children(&self, d: int, k: int) -> nat
        decreases self.dirs@.len() - d, k,
    {
        if k <= 0 || d < 0 || d >= self.dirs@.len() || k > self.dirs@[d]@.len() {
            0
        } else {
            self.size_of_children(d, k - 1) + (match self.dirs@[d]@[k - 1].dir {
                Some(c) => if d < c < self.dirs@.len() {
                    1 + self.size_of_children(c as int, self.dirs@[c as int]@.len() as int)
                } else {
                    0
                },
                None => 0,
            })
        }
    }

    /// How many directories a directory holds, itself counted.
    pub open spec fn size(&self, d: int) -> nat {
        1 + self.size_of_children(d, self.dirs@[d]@.len() as int)
    }

    /// How many directories are left to walk.
    pub open spec fn weight(&self, stack: Seq<usize>) -> nat
        decreases stack.len(),
    {
        if stack.len() == 0 {
            0
        } else {
            self.weight(stack.drop_last()) + self.size(stack.last() as int)
        }
    }
}

/// A leaf: its node and its disk bytes.
pub type Leaf = (u32, u64);

/// The leaves among the first `n` of some children.
pub open spec fn leaves_in(children: Seq<Child>, n: int) -> Seq<Leaf>
    decreases n,
{
    if n <= 0 {
        Seq::empty()
    } else {
        let c = children[n - 1];
        if c.dir is None {
            leaves_in(children, n - 1).push((c.node, c.disk))
        } else {
            leaves_in(children, n - 1)
        }
    }
}

/// The directories among the first `n` of some children.
pub open spec fn dirs_in(children: Seq<Child>, n: int) -> Seq<usize>
    decreases n,
{
    if n <= 0 {
        Seq::empty()
    } else {
        match children[n - 1].dir {
            Some(d) => dirs_in(children, n - 1).push(d),
            None => dirs_in(children, n - 1),
        }
    }
}

/// Whether a stack holds directories of a tree.
pub open spec fn in_tree(tree: TreeIndex, stack: Seq<usize>) -> bool {
    forall|i: int| 0 <= i < stack.len() ==> #[trigger] stack[i] < tree.dirs@.len()
}

proof fn lemma_dirs_in(tree: TreeIndex, d: int, n: int)
    requires
        tree.wf(),
        0 <= d < tree.dirs@.len(),
        0 <= n <= tree.dirs@[d]@.len(),
    ensures
        in_tree(tree, dirs_in(tree.dirs@[d]@, n)),
        tree.weight(dirs_in(tree.dirs@[d]@, n)) == tree.size_of_children(d, n),
    decreases n,
{
    if n > 0 {
        lemma_dirs_in(tree, d, n - 1);
        let c = tree.dirs@[d]@[n - 1];
        let before = dirs_in(tree.dirs@[d]@, n - 1);
        if let Some(k) = c.dir {
            assert(before.push(k).drop_last() =~= before);
        }
    }
}

proof fn lemma_weight_concat(tree: TreeIndex, a: Seq<usize>, b: Seq<usize>)
    ensures
        tree.weight(a + b) == tree.weight(a) + tree.weight(b),
    decreases b.len(),
{
    if b.len() == 0 {
        assert(a + b =~= a);
    } else {
        assert((a + b).drop_last() =~= a + b.drop_last());
        lemma_weight_concat(tree, a, b.drop_last());
    }
}

proof fn lemma_step(tree: TreeIndex, stack: Seq<usize>)
    requires
        tree.wf(),
        in_tree(tree, stack),
        stack.len() > 0,
    ensures
        ({
            let d = stack.last() as int;
            let next = stack.drop_last() + dirs_in(
                tree.dirs@[d]@,
                tree.dirs@[d]@.len() as int,
            );
            in_tree(tree, next) && tree.weight(next) + 1 == tree.weight(stack)
        }),
{
    let d = stack.last() as int;
    assert(stack[stack.len() - 1] < tree.dirs@.len());
    let n = tree.dirs@[d]@.len() as int;
    let more = dirs_in(tree.dirs@[d]@, n);
    lemma_dirs_in(tree, d, n);
    lemma_weight_concat(tree, stack.drop_last(), more);
    let next = stack.drop_last() + more;
    assert forall|i: int| 0 <= i < next.len() implies #[trigger] next[i] < tree.dirs@.len() by {
        if i < stack.len() - 1 {
            assert(next[i] == stack[i]);
        } else {
            assert(next[i] == more[i - (stack.len() - 1)]);
        }
    }
}

/// The leaves under some directories: those of the last directory first, then
/// those of its own directories, from the last one on.
pub open spec fn leaves(tree: TreeIndex, stack: Seq<usize>) -> Seq<Leaf>
    decreases tree.weight(stack),
    when tree.wf() && in_tree(tree, stack)
    via leaves_end
{
    if stack.len() == 0 {
        Seq::empty()
    } else {
        let children = tree.dirs@[stack.last() as int]@;
        leaves_in(children, children.len() as int) + leaves(
            tree,
            stack.drop_last() + dirs_in(children, children.len() as int),
        )
    }
}

#[via_fn]
proof fn leaves_end(tree: TreeIndex, stack: Seq<usize>) {
    if stack.len() > 0 {
        lemma_step(tree, stack);
    }
}

/// The leaves that a mark holds.
pub open spec fn marked_leaves(tree: TreeIndex, node: u32, dir: Option<usize>, disk: u64) -> Seq<
    Leaf,
> {
    match dir {
        None => seq![(node, disk)],
        Some(d) => leaves(tree, seq![d]),
    }
}

/// The disk bytes of some leaves.
pub open spec fn disk_sum(l: Seq<Leaf>) -> nat
    decreases l.len(),
{
    if l.len() == 0 {
        0
    } else {
        disk_sum(l.drop_last()) + l.last().1 as nat
    }
}

proof fn lemma_disk_sum_concat(a: Seq<Leaf>, b: Seq<Leaf>)
    ensures
        disk_sum(a + b) == disk_sum(a) + disk_sum(b),
    decreases b.len(),
{
    if b.len() == 0 {
        assert(a + b =~= a);
    } else {
        assert((a + b).drop_last() =~= a + b.drop_last());
        lemma_disk_sum_concat(a, b.drop_last());
    }
}

/// The files of a mark: those that are looked at, and the count and scan-time
/// size of the rest.
#[derive(Debug)]
pub struct Enumerated {
    pub collected: Vec<Leaf>,
    pub truncated_files: u64,
    pub truncated_disk: u64,
}

impl Enumerated {
    /// Whether these are some leaves: the first ones collected, the rest
    /// counted.
    pub open spec fn holds(&self, all: Seq<Leaf>) -> bool {
        let n: int = if all.len() <= MAX_FILES_PER_MARK {
            all.len() as int
        } else {
            MAX_FILES_PER_MARK as int
        };
        &&& self.collected@ == all.take(n)
        &&& self.truncated_files == all.len() - n
        &&& self.truncated_disk == disk_sum(all.skip(n))
    }

    fn record(&mut self, leaf: Leaf, Ghost(all): Ghost<Seq<Leaf>>)
        requires
            old(self).holds(all),
            all.len() < u64::MAX,
            disk_sum(all) + leaf.1 <= u64::MAX,
        ensures
            final(self).holds(all.push(leaf)),
    {
        let ghost more = all.push(leaf);
        if self.collected.len() < MAX_FILES_PER_MARK {
            self.collected.push(leaf);
            proof {
                assert(all.take(all.len() as int) =~= all);
                assert(all.skip(all.len() as int) =~= Seq::empty());
                assert(more.take(more.len() as int) =~= more);
                assert(more.skip(more.len() as int) =~= Seq::empty());
                assert(self.collected@ =~= more);
            }
        } else {
            proof {
                let n = MAX_FILES_PER_MARK as int;
                assert(all.take(n) + all.skip(n) =~= all);
                lemma_disk_sum_concat(all.take(n), all.skip(n));
                assert(more.take(n) =~= all.take(n));
                assert(more.skip(n) =~= all.skip(n).push(leaf));
                assert(more.skip(n).drop_last() =~= all.skip(n));
            }
            self.truncated_files = self.truncated_files + 1;
            self.truncated_disk = self.truncated_disk + leaf.1;
        }
    }
}

/// Walks the files of a mark. Beyond the cap they are counted, not collected.
pub fn enumerate_mark(tree: &TreeIndex, node: u32, dir: Option<usize>, disk: u64) -> (r: Enumerated)
    requires
        tree.wf(),
        dir matches Some(d) ==> d < tree.dirs@.len(),
        marked_leaves(*tree, node, dir, disk).len() <= u64::MAX,
        disk_sum(marked_leaves(*tree, node, dir, disk)) <= u64::MAX,
    ensures
        r.holds(marked_leaves(*tree, node, dir, disk)),
{
    let mut r = Enumerated { collected: Vec::new(), truncated_files: 0, truncated_disk: 0 };
    let ghost mut done: Seq<Leaf> = Seq::empty();
    let ghost all = marked_leaves(*tree, node, dir, disk);
    proof {
        assert(done.take(0) =~= done);
        assert(done.skip(0) =~= done);
        assert(r.collected@ =~= done);
    }
    let d: usize = match dir {
        None => {
            proof {
                assert(done.push((node, disk)) =~= all);
                assert(all.drop_last() =~= Seq::empty());
            }
            r.record((node, disk), Ghost(done));
            return r;
        },
        Some(d) => d,
    };
    let mut stack: Vec<usize> = Vec::new();
    stack.push(d);
    proof {
        assert(stack@ =~= seq![d]);
        assert(done + leaves(*tree, stack@) =~= all);
    }
    while stack.len() > 0
        invariant
            tree.wf(),
            in_tree(*tree, stack@),
            all == done + leaves(*tree, stack@),
            all.len() <= u64::MAX,
            disk_sum(all) <= u64::MAX,
            r.holds(done),
        decreases tree.weight(stack@),
    {
        let ghost before = stack@;
        proof {
            lemma_step(*tree, before);
        }
        let at: usize = match stack.pop() {
            Some(at) => at,
            None => {
                return r;
            },
        };
        let ghost rest = before.drop_last();
        assert(stack@ =~= rest);
        assert(before[before.len() - 1] == at);
        let children = &tree.dirs[at];
        let ghost base = done;
        let ghost n = children@.len() as int;
        let ghost tail = leaves(*tree, rest + dirs_in(children@, n));
        proof {
            assert(rest + dirs_in(children@, 0) =~= rest);
            assert(base + leaves_in(children@, 0) =~= base);
            assert(all =~= base + leaves_in(children@, n) + tail);
        }
        let mut i: usize = 0;
        while i < children.len()
            invariant
                i <= children@.len(),
                n == children@.len(),
                stack@ == rest + dirs_in(children@, i as int),
                done == base + leaves_in(children@, i as int),
                all == base + leaves_in(children@, n) + tail,
                all.len() <= u64::MAX,
                disk_sum(all) <= u64::MAX,
                r.holds(done),
            decreases children@.len() - i,
        {
            let c = children[i];
            match c.dir {
                Some(k) => {
                    stack.push(k);
                    assert(stack@ =~= rest + dirs_in(children@, i + 1));
                },
                None => {
                    let ghost leaf = (c.node, c.disk);
                    proof {
                        lemma_leaves_prefix(children@, i + 1, n);
                        let k = leaves_in(children@, i as int).len() as int;
                        let l = leaves_in(children@, n);
                        assert(done.push(leaf) =~= base + l.take(k + 1));
                        assert(base + l + tail =~= base + l.take(k + 1) + (l.skip(k + 1) + tail));
                        lemma_disk_sum_concat(base + l.take(k + 1), l.skip(k + 1) + tail);
                        assert(done.push(leaf).drop_last() =~= done);
                    }
                    r.record((c.node, c.disk), Ghost(done));
                    proof {
                        done = done.push(leaf);
                        assert(done =~= base + leaves_in(children@, i + 1));
                    }
                },
            }
            i = i + 1;
        }
        proof {
            assert(all =~= done + leaves(*tree, stack@));
        }
    }
    proof {
        assert(stack@ =~= Seq::empty());
        assert(all =~= done);
    }
    r
}

proof fn lemma_leaves_prefix(children: Seq<Child>, i: int, n: int)
    requires
        0 <= i <= n,
    ensures
        leaves_in(children, i).len() <= leaves_in(children, n).len(),
        leaves_in(children, n).take(leaves_in(children, i).len() as int) == leaves_in(children, i),
    decreases n,
{
    let l = leaves_in(children, n);
    let k = leaves_in(children, i).len() as int;
    if i < n {
        lemma_leaves_prefix(children, i, n - 1);
        let before = leaves_in(children, n - 1);
        assert(l.take(k) =~= before.take(k));
    } else {
        assert(l.take(k) =~= l);
    }
}

/// One file as a fresh look finds it.
#[derive(Debug, Clone, Copy, PartialEq, Eq, Structural)]
pub struct SelFile {
    pub node: u32,
    pub dev: u64,
    pub ino: u64,
    pub nlink: u32,
    /// Disk bytes now.
    pub disk: u64,
}

/// What one mark holds.
#[derive(Debug)]
pub struct MarkFiles {
    pub files: Vec<SelFile>,
    /// Files beyond the cap, or gone since the scan: counted, never estimated.
    pub truncated_files: u64,
    /// Their disk bytes at scan time.
    pub truncated_disk: u64,
}

/// What a fresh look at a file finds.
#[derive(Debug, Clone, Copy, PartialEq, Eq, Structural)]
pub struct Stat {
    pub dev: u64,
    pub ino: u64,
    pub nlink: u32,
    /// Allocated blocks of 512 bytes.
    pub blocks: u64,
    pub is_file: bool,
}

/// The findings of one mark's job as they come in.
#[derive(Debug)]
pub struct MarkJob {
    pub files: MarkFiles,
    /// The tier of each device that was met, and whether it is compressed.
    pub devices: HashMap<u64, (FsTier, bool)>,
}

impl MarkJob {
    /// A job over the files of a mark, before any was looked at.
    pub fn new(truncated_files: u64, truncated_disk: u64) -> (j: MarkJob)
        ensures
            j.files.files@.len() == 0,
            j.files.truncated_files == truncated_files,
            j.files.truncated_disk == truncated_disk,
            j.devices@ == Map::<u64, (FsTier, bool)>::empty(),
    {
        MarkJob {
            files: MarkFiles { files: Vec::new(), truncated_files, truncated_disk },
            devices: HashMap::new(),
        }
    }

    /// Takes note that a file is gone: it counts as truncated, at its last known
    /// size.
    pub fn vanished(&mut self, scan_disk: u64)
        requires
            old(self).files.truncated_files < u64::MAX,
            old(self).files.truncated_disk + scan_disk <= u64::MAX,
        ensures
            final(self).files.files == old(self).files.files,
            final(self).files.truncated_files == old(self).files.truncated_files + 1,
            final(self).files.truncated_disk == old(self).files.truncated_disk + scan_disk,
            final(self).devices == old(self).devices,
    {
        self.files.truncated_files = self.files.truncated_files + 1;
        self.files.truncated_disk = self.files.truncated_disk + scan_disk;
    }

    /// Whether a device has to be probed: only on its first file.
    pub fn needs_probe(&self, dev: u64) -> (r: bool)
        ensures
            r == !self.devices@.dom().contains(dev),
    {
        !self.devices.contains_key(&dev)
    }

    /// Records what a probe found of a device.
    pub fn probed(&mut self, dev: u64, tier: FsTier, compressed: bool)
        ensures
            final(self).devices@ == old(self).devices@.insert(dev, (tier, compressed)),
            final(self).files == old(self).files,
    {
        self.devices.insert(dev, (tier, compressed));
    }

    /// Records a file that is still there. `true` if its extents have to be
    /// mapped: a regular file on a device that can, whose inode is not known
    /// yet.
    pub fn found(&mut self, node: u32, stat: Stat, known: &HashMap<u128, bool>) -> (map: bool)
        requires
            old(self).devices@.dom().contains(stat.dev),
            stat.blocks * 512 <= u64::MAX,
        ensures
            map == (!known@.dom().contains(nlink_rt::inode_key(stat.dev, stat.ino))
                && old(self).devices@[stat.dev].0 is Extent && stat.is_file),
            final(self).files.files@ == old(self).files.files@.push(
                (SelFile {
                    node,
                    dev: stat.dev,
                    ino: stat.ino,
                    nlink: stat.nlink,
                    disk: (stat.blocks * 512) as u64,
                }),
            ),
            final(self).files.truncated_files == old(self).files.truncated_files,
            final(self).files.truncated_disk == old(self).files.truncated_disk,
            final(self).devices == old(self).devices,
    {
        let extent: bool = match self.devices.get(&stat.dev) {
            Some(d) => match d.0 {
                FsTier::Extent => true,
                _ => false,
            },
            None => false,
        };
        self.files.files.push(
            SelFile {
                node,
                dev: stat.dev,
                ino: stat.ino,
                nlink: stat.nlink,
                disk: stat.blocks * 512,
            },
        );
        !known.contains_key(&key_of_inode(stat.dev, stat.ino)) && extent && stat.is_file
    }
}

/// Every leaf of a mark is collected or counted: none is lost.
pub proof fn law_no_leaf_is_lost(e: Enumerated, all: Seq<Leaf>)
    requires
        e.holds(all),
    ensures
        e.collected@.len() + e.truncated_files == all.len(),
        disk_sum(e.collected@) + e.truncated_disk == disk_sum(all),
        e.collected@.len() <= MAX_FILES_PER_MARK,
{
    let n: int = if all.len() <= MAX_FILES_PER_MARK {
        all.len() as int
    } else {
        MAX_FILES_PER_MARK as int
    };
    assert(all.take(n) + all.skip(n) =~= all);
    lemma_disk_sum_concat(all.take(n), all.skip(n));
}

/// The leaves of a directory are its own files, each with its own node and size, and of
/// its subdirectories every one is walked.
pub proof fn law_children_are_files_or_directories(children: Seq<Child>, n: int, k: int)
    requires
        0 <= k < n <= children.len(),
    ensures
        children[k].dir is None ==> leaves_in(children, n).contains(
            (children[k].node, children[k].disk),
        ),
        children[k].dir matches Some(d) ==> dirs_in(children, n).contains(d),
        leaves_in(children, n).len() + dirs_in(children, n).len() == n,
    decreases n,
{
    let files = leaves_in(children, n - 1);
    let dirs = dirs_in(children, n - 1);
    if k < n - 1 {
        law_children_are_files_or_directories(children, n - 1, k);
        if children[k].dir is None {
            let leaf = (children[k].node, children[k].disk);
            let i = choose|i: int| 0 <= i < files.len() && files[i] == leaf;
            assert(leaves_in(children, n)[i] == leaf);
        } else {
            let d = children[k].dir.unwrap();
            let i = choose|i: int| 0 <= i < dirs.len() && dirs[i] == d;
            assert(dirs_in(children, n)[i] == d);
        }
    } else {
        if n > 1 {
            law_children_are_files_or_directories(children, n - 1, 0);
        }
        if children[k].dir is None {
            assert(leaves_in(children, n).last() == (children[k].node, children[k].disk));
        } else {
            assert(dirs_in(children, n).last() == children[k].dir.unwrap());
        }
    }
}

/// Two lots of directories have the leaves of both: the later lot is walked first.
proof fn lemma_leaves_of_both(tree: TreeIndex, a: Seq<usize>, b: Seq<usize>)
    requires
        tree.wf(),
        in_tree(tree, a),
        in_tree(tree, b),
    ensures
        leaves(tree, a + b) == leaves(tree, b) + leaves(tree, a),
    decreases tree.weight(b),
{
    assert(in_tree(tree, a + b)) by {
        assert forall|i: int| 0 <= i < (a + b).len() implies #[trigger] (a + b)[i]
            < tree.dirs@.len() by {
            if i < a.len() {
                assert(a[i] < tree.dirs@.len());
            } else {
                assert(b[i - a.len()] < tree.dirs@.len());
            }
        }
    }
    if b.len() == 0 {
        assert(a + b =~= a);
        assert(leaves(tree, b) =~= Seq::<Leaf>::empty());
        assert(leaves(tree, b) + leaves(tree, a) =~= leaves(tree, a));
    } else {
        let d = b.last();
        let children = tree.dirs@[d as int]@;
        let own = leaves_in(children, children.len() as int);
        let rest = b.drop_last() + dirs_in(children, children.len() as int);
        lemma_step(tree, b);
        assert((a + b).last() == d);
        assert((a + b).drop_last() + dirs_in(children, children.len() as int) =~= a + rest);
        lemma_leaves_of_both(tree, a, rest);
        assert(leaves(tree, a + b) == own + (leaves(tree, rest) + leaves(tree, a)));
        assert(leaves(tree, b) == own + leaves(tree, rest));
        assert(leaves(tree, a + b) =~= leaves(tree, b) + leaves(tree, a));
    }
}

/// A directory holds the files right inside it and everything that its subdirectories
/// hold: nothing below a mark is left out.
pub proof fn law_directories_hold_what_is_below(tree: TreeIndex, d: usize, k: int, leaf: Leaf)
    requires
        tree.wf(),
        d < tree.dirs@.len(),
        0 <= k < tree.dirs@[d as int]@.len(),
    ensures
        ({
            let child = tree.dirs@[d as int]@[k];
            &&& child.dir is None ==> leaves(tree, seq![d]).contains((child.node, child.disk))
            &&& child.dir matches Some(c) ==> leaves(tree, seq![c]).contains(leaf) ==> leaves(
                tree,
                seq![d],
            ).contains(leaf)
        }),
{
    let children = tree.dirs@[d as int]@;
    let n = children.len() as int;
    let own = leaves_in(children, n);
    let dirs = dirs_in(children, n);
    law_children_are_files_or_directories(children, n, k);
    assert(in_tree(tree, seq![d]));
    lemma_step(tree, seq![d]);
    assert(seq![d].drop_last() + dirs =~= dirs);
    let all = leaves(tree, seq![d]);
    assert(all == own + leaves(tree, dirs));
    let child = children[k];
    if child.dir is None {
        let i = choose|i: int| 0 <= i < own.len() && own[i] == (child.node, child.disk);
        assert(all[i] == (child.node, child.disk));
    } else {
        let c = child.dir.unwrap();
        if leaves(tree, seq![c]).contains(leaf) {
            let i = choose|i: int| 0 <= i < dirs.len() && dirs[i] == c;
            let head = dirs.take(i);
            let tail = dirs.skip(i + 1);
            lemma_parts_in_tree(tree, dirs, i);
            assert(dirs =~= head + seq![c] + tail);
            lemma_leaves_of_both(tree, head + seq![c], tail);
            lemma_leaves_of_both(tree, head, seq![c]);
            let inner = leaves(tree, seq![c]);
            let j = choose|j: int| 0 <= j < inner.len() && inner[j] == leaf;
            let at = own.len() + leaves(tree, tail).len() + j;
            assert(all[at] == leaf);
        }
    }
}

proof fn lemma_parts_in_tree(tree: TreeIndex, dirs: Seq<usize>, i: int)
    requires
        in_tree(tree, dirs),
        0 <= i < dirs.len(),
    ensures
        in_tree(tree, dirs.take(i)),
        in_tree(tree, dirs.skip(i + 1)),
        in_tree(tree, seq![dirs[i]]),
        in_tree(tree, dirs.take(i) + seq![dirs[i]]),
{
    assert forall|j: int| 0 <= j < dirs.take(i).len() implies #[trigger] dirs.take(i)[j]
        < tree.dirs@.len() by {
        assert(dirs.take(i)[j] == dirs[j]);
    }
    assert forall|j: int| 0 <= j < dirs.skip(i + 1).len() implies #[trigger] dirs.skip(i + 1)[j]
        < tree.dirs@.len() by {
        assert(dirs.skip(i + 1)[j] == dirs[i + 1 + j]);
    }
    assert(dirs[i] < tree.dirs@.len());
    assert forall|j: int| 0 <= j < (dirs.take(i) + seq![dirs[i]]).len() implies #[trigger] (
    dirs.take(i) + seq![dirs[i]])[j] < tree.dirs@.len() by {
        assert((dirs.take(i) + seq![dirs[i]])[j] == dirs[j]);
    }
}

/// A marked file is its own only leaf, and up to fifty thousand files nothing is left
/// out.
pub proof fn law_small_marks_are_whole(tree: TreeIndex, node: u32, disk: u64, e: Enumerated, all: Seq<
    Leaf,
>)
    requires
        e.holds(all),
        all.len() <= 50_000,
    ensures
        marked_leaves(tree, node, None, disk) == seq![(node, disk)],
        e.collected@ == all,
        e.truncated_files == 0,
        e.truncated_disk == 0,
{
    assert(all.take(all.len() as int) =~= all);
    assert(all.skip(all.len() as int) =~= Seq::<Leaf>::empty());
}

/// What is left out of a large mark is counted, beyond the first fifty thousand files.
pub proof fn law_large_marks_are_cut(e: Enumerated, all: Seq<Leaf>)
    requires
        e.holds(all),
        all.len() > 50_000,
    ensures
        e.collected@.len() == 50_000,
        e.truncated_files == all.len() - 50_000,
        forall|i: int| 0 <= i < 50_000 ==> #[trigger] e.collected@[i] == all[i],
        e.truncated_disk == disk_sum(all.skip(50_000)),
{
}

} // verus!
