//! Deleted files that a process still holds open: how the panel groups them,
//! when they are worth a toast, and the advisory before a deletion.

use crate::order;
use crate::order::{sort_positions, StrictOrder};
use crate::paths::copy_bytes;
use crate::text;
use crate::text::{copy_str, push_dec};
use vstd::prelude::*;
use vstd::string::*;

verus! {

/// A process that holds a file open.
#[derive(Debug)]
pub struct Holder {
    pub pid: u32,
    /// The process name, where it could be read.
    pub comm: Option<String>,
}

/// A deleted file that still occupies space.
#[derive(Debug)]
pub struct DeletedEntry {
    pub dev: u64,
    pub ino: u64,
    pub bytes: u64,
    /// The last known path.
    pub evidence: Vec<u8>,
    pub holders: Vec<Holder>,
}

/// How many processes were seen, and how many of them could be read.
#[derive(Debug, Clone, Copy, PartialEq, Eq, Structural)]
pub struct Coverage {
    pub seen: u32,
    pub readable: u32,
}

impl Coverage {
    /// Whether some process could not be read.
    pub fn is_partial(&self) -> (r: bool)
        ensures
            r == (self.readable < self.seen),
    {
        self.readable < self.seen
    }
}

/// Entries under one directory; without one, those under no known directory.
#[derive(Debug)]
pub struct FreeableGroup {
    pub ancestor: Option<Vec<u8>>,
    /// Positions of the entries, in their own order.
    pub entries: Vec<usize>,
}

/// Whether a path lies at or under a directory: the directory's path is a
/// prefix that ends where a component ends.
pub open spec fn under(evidence: Seq<u8>, ancestor: Seq<u8>) -> bool {
    &&& ancestor.len() > 0
    &&& ancestor.len() <= evidence.len()
    &&& evidence.take(ancestor.len() as int) == ancestor
    &&& evidence.len() == ancestor.len() || evidence[ancestor.len() as int] == 47
}

/// Tests whether a path lies at or under a directory.
pub fn is_path_prefix(evidence: &[u8], ancestor: &[u8]) -> (r: bool)
    ensures
        r == under(evidence@, ancestor@),
{
    if ancestor.len() == 0 || ancestor.len() > evidence.len() {
        return false;
    }
    let mut i: usize = 0;
    while i < ancestor.len()
        invariant
            i <= ancestor@.len() <= evidence@.len(),
            forall|k: int| 0 <= k < i ==> evidence@[k] == ancestor@[k],
        decreases ancestor@.len() - i,
    {
        if evidence[i] != ancestor[i] {
            assert(evidence@.take(ancestor@.len() as int)[i as int] != ancestor@[i as int]);
            return false;
        }
        i = i + 1;
    }
    assert(evidence@.take(ancestor@.len() as int) =~= ancestor@);
    evidence.len() == ancestor.len() || evidence[ancestor.len()] == 47
}

/// A directory path, if there is one.
pub open spec fn dir_view(a: Option<Vec<u8>>) -> Option<Seq<u8>> {
    match a {
        Some(v) => Some(v@),
        None => None,
    }
}

/// Whether `r` is the deepest of some directories that a path lies under.
pub open spec fn is_deepest(
    evidence: Seq<u8>,
    ancestors: Seq<Vec<u8>>,
    r: Option<Seq<u8>>,
) -> bool {
    match r {
        Some(a) => {
            &&& under(evidence, a)
            &&& exists|k: int| 0 <= k < ancestors.len() && #[trigger] ancestors[k]@ == a
            &&& forall|k: int|
                0 <= k < ancestors.len() && under(evidence, #[trigger] ancestors[k]@)
                    ==> ancestors[k]@.len() <= a.len()
        },
        None => forall|k: int|
            0 <= k < ancestors.len() ==> !under(evidence, #[trigger] ancestors[k]@),
    }
}

proof fn lemma_deepest_unique(
    evidence: Seq<u8>,
    ancestors: Seq<Vec<u8>>,
    a: Option<Seq<u8>>,
    b: Option<Seq<u8>>,
)
    requires
        is_deepest(evidence, ancestors, a),
        is_deepest(evidence, ancestors, b),
    ensures
        a == b,
{
    if let Some(x) = a {
        let i = choose|i: int| 0 <= i < ancestors.len() && #[trigger] ancestors[i]@ == x;
        assert(under(evidence, ancestors[i]@));
        if let Some(y) = b {
            let j = choose|j: int| 0 <= j < ancestors.len() && #[trigger] ancestors[j]@ == y;
            assert(under(evidence, ancestors[j]@));
            assert(x.len() == y.len());
        }
    } else if let Some(y) = b {
        let j = choose|j: int| 0 <= j < ancestors.len() && #[trigger] ancestors[j]@ == y;
        assert(under(evidence, ancestors[j]@));
    }
}

fn longest_prefix_ancestor(evidence: &[u8], ancestors: &[Vec<u8>]) -> (r: Option<usize>)
    ensures
        r matches Some(k) ==> k < ancestors@.len() && is_deepest(
            evidence@,
            ancestors@,
            Some(ancestors@[k as int]@),
        ),
        r is None ==> is_deepest(evidence@, ancestors@, None),
{
    let mut best: Option<usize> = None;
    let mut i: usize = 0;
    while i < ancestors.len()
        invariant
            i <= ancestors@.len(),
            best matches Some(k) ==> {
                &&& k < i
                &&& under(evidence@, ancestors@[k as int]@)
                &&& forall|m: int|
                    0 <= m < i && under(evidence@, #[trigger] ancestors@[m]@)
                        ==> ancestors@[m]@.len() <= ancestors@[k as int]@.len()
            },
            best is None ==> forall|m: int|
                0 <= m < i ==> !under(evidence@, #[trigger] ancestors@[m]@),
        decreases ancestors@.len() - i,
    {
        if is_path_prefix(evidence, ancestors[i].as_slice()) {
            let longer = match best {
                Some(k) => ancestors[i].len() >= ancestors[k].len(),
                None => true,
            };
            if longer {
                best = Some(i);
            }
        }
        i = i + 1;
    }
    proof {
        if let Some(k) = best {
            assert(ancestors@[k as int]@ == ancestors@[k as int]@);
        }
    }
    best
}

fn same_bytes(a: &[u8], b: &[u8]) -> (r: bool)
    ensures
        r == (a@ == b@),
{
    if a.len() != b.len() {
        return false;
    }
    let mut i: usize = 0;
    while i < a.len()
        invariant
            i <= a@.len(),
            a@.len() == b@.len(),
            forall|k: int| 0 <= k < i ==> a@[k] == b@[k],
        decreases a@.len() - i,
    {
        if a[i] != b[i] {
            return false;
        }
        i = i + 1;
    }
    assert(a@ =~= b@);
    true
}

/// Whether an entry is in some group.
pub open spec fn is_grouped(groups: Seq<FreeableGroup>, i: int) -> bool {
    exists|g: int| 0 <= g < groups.len() && (#[trigger] groups[g]).entries@.contains(i as usize)
}

/// Whether `groups` are the groups of the first `n` entries: each entry is in
/// a group of its deepest directory, the entries of a group keep their order,
/// and the groups are in the order of their first entries, one per directory.
pub open spec fn are_groups(
    entries: Seq<DeletedEntry>,
    ancestors: Seq<Vec<u8>>,
    n: int,
    groups: Seq<FreeableGroup>,
) -> bool {
    &&& forall|g: int|
        0 <= g < groups.len() ==> is_group(entries, ancestors, n, #[trigger] groups[g])
    &&& forall|i: int| 0 <= i < n ==> #[trigger] is_grouped(groups, i)
    &&& forall|g: int, h: int|
        0 <= g < h < groups.len() ==> (#[trigger] groups[g]).entries@[0] < (
        #[trigger] groups[h]).entries@[0] && dir_view(groups[g].ancestor) != dir_view(
            groups[h].ancestor,
        )
}

/// Whether a group holds entries of its directory alone, in order.
pub open spec fn is_group(
    entries: Seq<DeletedEntry>,
    ancestors: Seq<Vec<u8>>,
    n: int,
    group: FreeableGroup,
) -> bool {
    &&& group.entries@.len() > 0
    &&& forall|k: int|
        0 <= k < group.entries@.len() ==> (#[trigger] group.entries@[k]) < n && is_deepest(
            entries[group.entries@[k] as int].evidence@,
            ancestors,
            dir_view(group.ancestor),
        )
    &&& forall|k: int, m: int|
        0 <= k < m < group.entries@.len() ==> (#[trigger] group.entries@[k]) < (
        #[trigger] group.entries@[m])
}

/// Groups entries under the deepest of some directories.
pub fn group_by_ancestor(entries: &[DeletedEntry], ancestors: &[Vec<u8>]) -> (groups: Vec<
    FreeableGroup,
>)
    ensures
        are_groups(entries@, ancestors@, entries@.len() as int, groups@),
{
    let mut groups: Vec<FreeableGroup> = Vec::new();
    let mut i: usize = 0;
    while i < entries.len()
        invariant
            i <= entries@.len(),
            are_groups(entries@, ancestors@, i as int, groups@),
        decreases entries@.len() - i,
    {
        let found = longest_prefix_ancestor(entries[i].evidence.as_slice(), ancestors);
        let key: Option<Vec<u8>> = match found {
            Some(k) => Some(copy_bytes(ancestors[k].as_slice())),
            None => None,
        };
        place(&mut groups, key, i, entries, ancestors);
        i = i + 1;
    }
    groups
}

/// Puts the next entry into the group of its directory.
fn place(
    groups: &mut Vec<FreeableGroup>,
    key: Option<Vec<u8>>,
    i: usize,
    entries: &[DeletedEntry],
    ancestors: &[Vec<u8>],
)
    requires
        i < entries@.len(),
        are_groups(entries@, ancestors@, i as int, old(groups)@),
        is_deepest(entries@[i as int].evidence@, ancestors@, dir_view(key)),
    ensures
        are_groups(entries@, ancestors@, i + 1, final(groups)@),
{
    let ghost before = groups@;
    let mut g: usize = 0;
    while g < groups.len()
        invariant
            g <= groups@.len(),
            groups@ == before,
            *groups == *old(groups),
            i < entries@.len(),
            are_groups(entries@, ancestors@, i as int, before),
            is_deepest(entries@[i as int].evidence@, ancestors@, dir_view(key)),
            forall|h: int| 0 <= h < g ==> dir_view((#[trigger] groups@[h]).ancestor) != dir_view(key),
        decreases groups@.len() - g,
    {
        let same = match (&groups[g].ancestor, &key) {
            (Some(a), Some(b)) => same_bytes(a.as_slice(), b.as_slice()),
            (None, None) => true,
            _ => false,
        };
        if same {
            let ghost old_group = groups@[g as int];
            groups[g].entries.push(i);
            proof {
                let after = groups@;
                let group = after[g as int];
                assert(group.entries@ == old_group.entries@.push(i));
                assert(dir_view(group.ancestor) == dir_view(key));
                assert(is_group(entries@, ancestors@, i as int, old_group));
                assert forall|k: int| 0 <= k < group.entries@.len() implies (
                #[trigger] group.entries@[k]) < i + 1 && is_deepest(
                    entries@[group.entries@[k] as int].evidence@,
                    ancestors@,
                    dir_view(group.ancestor),
                ) by {
                    if k < old_group.entries@.len() {
                        assert(old_group.entries@[k] == group.entries@[k]);
                    }
                }
                assert forall|k: int, m: int| 0 <= k < m < group.entries@.len() implies (
                #[trigger] group.entries@[k]) < (#[trigger] group.entries@[m]) by {
                    assert(old_group.entries@[k] < i);
                    if m < old_group.entries@.len() {
                        assert(old_group.entries@[k] < old_group.entries@[m]);
                    }
                }
                assert forall|h: int| 0 <= h < after.len() implies is_group(
                    entries@,
                    ancestors@,
                    i + 1,
                    #[trigger] after[h],
                ) by {
                    if h != g {
                        assert(after[h] == before[h]);
                        assert(is_group(entries@, ancestors@, i as int, before[h]));
                    }
                }
                assert forall|j: int| 0 <= j < i + 1 implies #[trigger] is_grouped(after, j) by {
                    if j == i {
                        assert(group.entries@[old_group.entries@.len() as int] == i);
                        assert(after[g as int].entries@.contains(j as usize));
                    } else {
                        assert(is_grouped(before, j));
                        let h = choose|h: int|
                            0 <= h < before.len() && (#[trigger] before[h]).entries@.contains(
                                j as usize,
                            );
                        if h == g {
                            let k = choose|k: int|
                                0 <= k < old_group.entries@.len() && old_group.entries@[k] == j as usize;
                            assert(group.entries@[k] == j as usize);
                        }
                        assert(after[h].entries@.contains(j as usize));
                    }
                }
                assert forall|x: int, y: int| 0 <= x < y < after.len() implies (
                #[trigger] after[x]).entries@[0] < (#[trigger] after[y]).entries@[0] && dir_view(
                    after[x].ancestor,
                ) != dir_view(after[y].ancestor) by {
                    assert(before[x].entries@[0] < before[y].entries@[0]);
                    assert(is_group(entries@, ancestors@, i as int, before[x]));
                    assert(is_group(entries@, ancestors@, i as int, before[y]));
                }
            }
            return;
        }
        g = g + 1;
    }
    let mut list: Vec<usize> = Vec::new();
    list.push(i);
    groups.push(FreeableGroup { ancestor: key, entries: list });
    proof {
        let after = groups@;
        let last = before.len() as int;
        assert forall|h: int| 0 <= h < after.len() implies is_group(
            entries@,
            ancestors@,
            i + 1,
            #[trigger] after[h],
        ) by {
            if h < last {
                assert(after[h] == before[h]);
                assert(is_group(entries@, ancestors@, i as int, before[h]));
            }
        }
        assert forall|j: int| 0 <= j < i + 1 implies #[trigger] is_grouped(after, j) by {
            if j == i {
                assert(after[last].entries@[0] == i);
                assert(after[last].entries@.contains(j as usize));
            } else {
                assert(is_grouped(before, j));
                let h = choose|h: int|
                    0 <= h < before.len() && (#[trigger] before[h]).entries@.contains(j as usize);
                assert(after[h].entries@.contains(j as usize));
            }
        }
        assert forall|x: int, y: int| 0 <= x < y < after.len() implies (
        #[trigger] after[x]).entries@[0] < (#[trigger] after[y]).entries@[0] && dir_view(
            after[x].ancestor,
        ) != dir_view(after[y].ancestor) by {
            assert(after[x] == before[x]);
            assert(is_group(entries@, ancestors@, i as int, before[x]));
            if y < last {
                assert(after[y] == before[y]);
            } else {
                assert(before[x].entries@[0] < i);
            }
        }
    }
}

/// Grouping partitions the entries: no entry is in two groups.
pub proof fn law_groups_are_disjoint(
    entries: Seq<DeletedEntry>,
    ancestors: Seq<Vec<u8>>,
    groups: Seq<FreeableGroup>,
    g: int,
    h: int,
    i: usize,
)
    requires
        are_groups(entries, ancestors, entries.len() as int, groups),
        0 <= g < groups.len(),
        0 <= h < groups.len(),
        groups[g].entries@.contains(i),
        groups[h].entries@.contains(i),
    ensures
        g == h,
{
    let k = choose|k: int| 0 <= k < groups[g].entries@.len() && groups[g].entries@[k] == i;
    let m = choose|m: int| 0 <= m < groups[h].entries@.len() && groups[h].entries@[m] == i;
    assert(is_group(entries, ancestors, entries.len() as int, groups[g]));
    assert(is_group(entries, ancestors, entries.len() as int, groups[h]));
    lemma_deepest_unique(
        entries[i as int].evidence@,
        ancestors,
        dir_view(groups[g].ancestor),
        dir_view(groups[h].ancestor),
    );
}

/// A process name, if there is one.
pub open spec fn name_view(comm: Option<String>) -> Option<Seq<char>> {
    match comm {
        Some(s) => Some(s@),
        None => None,
    }
}

/// A holder for display: the number, and the name where there is one.
pub open spec fn holder_text(pid: u32, comm: Option<Seq<char>>) -> Seq<char> {
    match comm {
        Some(name) => if name.len() > 0 {
            text::dec(pid as nat) + " ("@ + name + ")"@
        } else {
            text::dec(pid as nat)
        },
        None => text::dec(pid as nat),
    }
}

/// A holder for display.
pub fn format_holder(pid: u32, comm: &Option<String>) -> (s: String)
    ensures
        s@ == holder_text(pid, name_view(*comm)),
{
    let mut s = String::new();
    push_dec(&mut s, pid as u128);
    if let Some(name) = comm {
        if !name.as_str().is_empty() {
            s.append(" (");
            s.append(name.as_str());
            s.append(")");
        }
    }
    assert(s@ =~= holder_text(pid, name_view(*comm)));
    s
}

/// Bytes below which nothing is worth a toast: 100 MiB.
pub const TOAST_MIN_BYTES: u64 = 104857600;

/// Whether freeable space is worth a toast: at least 100 MiB, and at least one
/// percent of a filesystem that has a capacity.
pub fn should_toast(root_fs_freeable_bytes: u64, fs_capacity_bytes: u64) -> (r: bool)
    ensures
        r == (root_fs_freeable_bytes >= TOAST_MIN_BYTES && fs_capacity_bytes > 0 && 100
            * root_fs_freeable_bytes >= fs_capacity_bytes),
        r ==> root_fs_freeable_bytes >= 100 * 1024 * 1024,
        !r && root_fs_freeable_bytes >= 100 * 1024 * 1024 && fs_capacity_bytes > 0 ==> 100
            * root_fs_freeable_bytes < fs_capacity_bytes,
{
    root_fs_freeable_bytes >= TOAST_MIN_BYTES && fs_capacity_bytes > 0 && 100
        * root_fs_freeable_bytes as u128 >= fs_capacity_bytes as u128
}

/// The advisory before a deletion.
#[derive(Debug)]
pub struct OpenWarning {
    /// Marked files that are open.
    pub entries_open: usize,
    /// Open files inside marked directories.
    pub contained_open: usize,
    /// Distinct processes that hold any of them.
    pub holder_count: usize,
    /// The busiest holders first, a few of them.
    pub top_holders: Vec<(u32, Option<String>)>,
    /// `(readable, seen)` where some process could not be read.
    pub partial_coverage: Option<(u32, u32)>,
}

/// The holders of all lists, one after the other.
pub open spec fn flattened(lists: Seq<Vec<Holder>>) -> Seq<Holder>
    decreases lists.len(),
{
    if lists.len() == 0 {
        Seq::empty()
    } else {
        flattened(lists.drop_last()) + lists.last()@
    }
}

/// The holders of all lists that are there, one after the other.
pub open spec fn flattened_found(lookups: Seq<Option<Vec<Holder>>>) -> Seq<Holder>
    decreases lookups.len(),
{
    if lookups.len() == 0 {
        Seq::empty()
    } else {
        flattened_found(lookups.drop_last()) + (match lookups.last() {
            Some(list) => list@,
            None => Seq::empty(),
        })
    }
}

/// How many lists are there.
pub open spec fn found_count(lookups: Seq<Option<Vec<Holder>>>) -> nat
    decreases lookups.len(),
{
    if lookups.len() == 0 {
        0
    } else {
        found_count(lookups.drop_last()) + (if lookups.last() is Some {
            1nat
        } else {
            0nat
        })
    }
}

/// How often a process occurs.
pub open spec fn pid_count(hs: Seq<Holder>, pid: u32) -> nat
    decreases hs.len(),
{
    if hs.len() == 0 {
        0
    } else {
        pid_count(hs.drop_last(), pid) + (if hs.last().pid == pid {
            1nat
        } else {
            0nat
        })
    }
}

/// The name that a process has at its first occurrence.
pub open spec fn first_comm(hs: Seq<Holder>, pid: u32) -> Option<Seq<char>>
    decreases hs.len(),
{
    if hs.len() == 0 {
        None
    } else if pid_count(hs.drop_last(), pid) == 0 && hs.last().pid == pid {
        name_view(hs.last().comm)
    } else {
        first_comm(hs.drop_last(), pid)
    }
}

/// Whether a process ranks before another: it occurs more often, or as often
/// and has the smaller number.
pub open spec fn busier(hs: Seq<Holder>, a: u32, b: u32) -> bool {
    ||| pid_count(hs, a) > pid_count(hs, b)
    ||| pid_count(hs, a) == pid_count(hs, b) && a < b
}

/// Whether `ranked` lists the processes that occur, the busiest first.
pub open spec fn is_ranking(hs: Seq<Holder>, ranked: Seq<u32>) -> bool {
    &&& forall|i: int, j: int|
        0 <= i < j < ranked.len() ==> busier(hs, #[trigger] ranked[i], #[trigger] ranked[j])
    &&& forall|p: u32| #[trigger] ranked.contains(p) <==> pid_count(hs, p) > 0
}

struct Tally {
    pid: u32,
    comm: Option<String>,
    count: usize,
}

spec fn is_tally(t: Seq<Tally>, hs: Seq<Holder>) -> bool {
    &&& forall|i: int|
        0 <= i < t.len() ==> (#[trigger] t[i]).count == pid_count(hs, t[i].pid) && t[i].count > 0
            && name_view(t[i].comm) == first_comm(hs, t[i].pid)
    &&& forall|i: int, j: int|
        0 <= i < j < t.len() ==> (#[trigger] t[i]).pid != (#[trigger] t[j]).pid
    &&& forall|p: u32|
        #[trigger] pid_count(hs, p) > 0 ==> exists|i: int|
            0 <= i < t.len() && (#[trigger] t[i]).pid == p
}

proof fn lemma_pid_count_bound(hs: Seq<Holder>, pid: u32)
    ensures
        pid_count(hs, pid) <= hs.len(),
    decreases hs.len(),
{
    if hs.len() > 0 {
        lemma_pid_count_bound(hs.drop_last(), pid);
    }
}

fn copy_name(comm: &Option<String>) -> (r: Option<String>)
    ensures
        name_view(r) == name_view(*comm),
{
    match comm {
        Some(s) => Some(copy_str(s.as_str())),
        None => None,
    }
}

fn tally_one(t: &mut Vec<Tally>, h: &Holder, Ghost(hs): Ghost<Seq<Holder>>)
    requires
        is_tally(old(t)@, hs),
        hs.len() < usize::MAX,
    ensures
        is_tally(final(t)@, hs.push(*h)),
{
    let ghost before = t@;
    let ghost after_hs = hs.push(*h);
    proof {
        assert(after_hs.drop_last() =~= hs);
        lemma_pid_count_bound(hs, h.pid);
    }
    let mut i: usize = 0;
    while i < t.len()
        invariant
            i <= t@.len(),
            t@ == before,
            is_tally(before, hs),
            forall|k: int| 0 <= k < i ==> (#[trigger] t@[k]).pid != h.pid,
            after_hs == hs.push(*h),
            after_hs.drop_last() == hs,
            pid_count(hs, h.pid) <= hs.len() < usize::MAX,
        decreases t@.len() - i,
    {
        if t[i].pid == h.pid {
            assert(t@[i as int].count == pid_count(hs, h.pid));
            t[i].count = t[i].count + 1;
            proof {
                let after = t@;
                assert forall|k: int| 0 <= k < after.len() implies (#[trigger] after[k]).count
                    == pid_count(after_hs, after[k].pid) && after[k].count > 0 && name_view(
                    after[k].comm,
                ) == first_comm(after_hs, after[k].pid) by {
                    assert(before[k].count == pid_count(hs, before[k].pid));
                    if k != i {
                        assert(before[k].pid != before[i as int].pid);
                    }
                }
                assert forall|a: int, b: int| 0 <= a < b < after.len() implies (
                #[trigger] after[a]).pid != (#[trigger] after[b]).pid by {
                    assert(before[a].pid != before[b].pid);
                }
                assert forall|p: u32| #[trigger] pid_count(after_hs, p) > 0 implies exists|k: int|
                    0 <= k < after.len() && (#[trigger] after[k]).pid == p by {
                    if p == h.pid {
                        assert(after[i as int].pid == p);
                    } else {
                        assert(pid_count(hs, p) > 0);
                        let k = choose|k: int|
                            0 <= k < before.len() && (#[trigger] before[k]).pid == p;
                        assert(after[k].pid == p);
                    }
                }
            }
            return;
        }
        i = i + 1;
    }
    t.push(Tally { pid: h.pid, comm: copy_name(&h.comm), count: 1 });
    proof {
        let after = t@;
        assert(pid_count(hs, h.pid) == 0) by {
            if pid_count(hs, h.pid) > 0 {
                let k = choose|k: int| 0 <= k < before.len() && (#[trigger] before[k]).pid == h.pid;
                assert(before[k].pid != h.pid);
            }
        }
        assert forall|k: int| 0 <= k < after.len() implies (#[trigger] after[k]).count == pid_count(
            after_hs,
            after[k].pid,
        ) && after[k].count > 0 && name_view(after[k].comm) == first_comm(
            after_hs,
            after[k].pid,
        ) by {
            if k < before.len() {
                assert(after[k] == before[k]);
                assert(before[k].pid != h.pid);
            }
        }
        assert forall|p: u32| #[trigger] pid_count(after_hs, p) > 0 implies exists|k: int|
            0 <= k < after.len() && (#[trigger] after[k]).pid == p by {
            if p == h.pid {
                assert(after[before.len() as int].pid == p);
            } else {
                assert(pid_count(hs, p) > 0);
                let k = choose|k: int| 0 <= k < before.len() && (#[trigger] before[k]).pid == p;
                assert(after[k].pid == p);
            }
        }
    }
}

fn tally_list(t: &mut Vec<Tally>, list: &Vec<Holder>, Ghost(hs): Ghost<Seq<Holder>>)
    requires
        is_tally(old(t)@, hs),
        hs.len() + list@.len() <= usize::MAX,
    ensures
        is_tally(final(t)@, hs + list@),
{
    let mut i: usize = 0;
    assert(hs + list@.take(0) =~= hs);
    while i < list.len()
        invariant
            i <= list@.len(),
            hs.len() + list@.len() <= usize::MAX,
            is_tally(t@, hs + list@.take(i as int)),
        decreases list@.len() - i,
    {
        tally_one(t, &list[i], Ghost(hs + list@.take(i as int)));
        assert((hs + list@.take(i as int)).push(list@[i as int]) =~= hs + list@.take(i + 1));
        i = i + 1;
    }
    assert(list@.take(i as int) =~= list@);
}

struct BusyOrder<'a> {
    tallies: &'a Vec<Tally>,
}

impl<'a> StrictOrder for BusyOrder<'a> {
    closed spec fn has(&self, a: usize) -> bool {
        a < self.tallies@.len()
    }

    closed spec fn before(&self, a: usize, b: usize) -> bool {
        let x = self.tallies@[a as int];
        let y = self.tallies@[b as int];
        ||| x.count > y.count
        ||| x.count == y.count && x.pid < y.pid
        ||| x.count == y.count && x.pid == y.pid && a < b
    }

    proof fn irreflexive(&self, a: usize) {
    }

    proof fn total(&self, a: usize, b: usize) {
    }

    proof fn transitive(&self, a: usize, b: usize, c: usize) {
    }

    fn precedes(&self, a: usize, b: usize) -> (r: bool) {
        let x = &self.tallies[a];
        let y = &self.tallies[b];
        x.count > y.count || (x.count == y.count && (x.pid < y.pid || (x.pid == y.pid && a < b)))
    }
}

/// Whether `top` names the first holders of a ranking, at most three, each
/// with the name of its first occurrence.
pub open spec fn are_top(hs: Seq<Holder>, ranked: Seq<u32>, top: Seq<(u32, Option<String>)>) -> bool {
    &&& top.len() == (if ranked.len() < 3 {
        ranked.len()
    } else {
        3
    })
    &&& forall|i: int|
        0 <= i < top.len() ==> (#[trigger] top[i]).0 == ranked[i] && name_view(top[i].1)
            == first_comm(hs, ranked[i])
}

/// The holders of the marked files that are open, then those of the open files
/// inside marked directories.
pub open spec fn all_holders(
    lookups: Seq<Option<Vec<Holder>>>,
    contained: Seq<Vec<Holder>>,
) -> Seq<Holder> {
    flattened_found(lookups) + flattened(contained)
}

/// Builds the advisory from the holders of each marked file that is open and
/// of each open file inside a marked directory. There is none when nothing is
/// open.
pub fn build_open_warning(
    marked_file_lookups: &[Option<Vec<Holder>>],
    contained_holders: &[Vec<Holder>],
    coverage: Coverage,
) -> (r: Option<OpenWarning>)
    requires
        all_holders(marked_file_lookups@, contained_holders@).len() <= usize::MAX,
    ensures
        r is None <==> found_count(marked_file_lookups@) == 0 && contained_holders@.len() == 0,
        r matches Some(w) ==> {
            let hs = all_holders(marked_file_lookups@, contained_holders@);
            &&& w.entries_open == found_count(marked_file_lookups@)
            &&& w.contained_open == contained_holders@.len()
            &&& exists|ranked: Seq<u32>| #[trigger]
                is_ranking(hs, ranked) && w.holder_count == ranked.len() && are_top(
                    hs,
                    ranked,
                    w.top_holders@,
                )
            &&& w.partial_coverage == (if coverage.readable < coverage.seen {
                Some((coverage.readable, coverage.seen))
            } else {
                None
            })
        },
{
    let ghost hs = all_holders(marked_file_lookups@, contained_holders@);
    let mut tallies: Vec<Tally> = Vec::new();
    let mut entries_open: usize = 0;
    let mut i: usize = 0;
    assert(marked_file_lookups@.take(0) =~= Seq::<Option<Vec<Holder>>>::empty());
    while i < marked_file_lookups.len()
        invariant
            i <= marked_file_lookups@.len(),
            entries_open == found_count(marked_file_lookups@.take(i as int)),
            entries_open <= i,
            flattened_found(marked_file_lookups@).len() <= usize::MAX,
            is_tally(tallies@, flattened_found(marked_file_lookups@.take(i as int))),
        decreases marked_file_lookups@.len() - i,
    {
        let ghost done = marked_file_lookups@.take(i as int);
        proof {
            assert(marked_file_lookups@.take(i + 1).drop_last() =~= done);
            lemma_found_prefix(marked_file_lookups@, i + 1);
        }
        if let Some(list) = &marked_file_lookups[i] {
            entries_open = entries_open + 1;
            tally_list(&mut tallies, list, Ghost(flattened_found(done)));
        } else {
            assert(flattened_found(done) + Seq::<Holder>::empty() =~= flattened_found(done));
        }
        i = i + 1;
    }
    assert(marked_file_lookups@.take(i as int) =~= marked_file_lookups@);
    if entries_open == 0 && contained_holders.len() == 0 {
        return None;
    }
    let ghost first = flattened_found(marked_file_lookups@);
    let mut j: usize = 0;
    assert(contained_holders@.take(0) =~= Seq::<Vec<Holder>>::empty());
    assert(first + flattened(contained_holders@.take(0)) =~= first);
    while j < contained_holders.len()
        invariant
            j <= contained_holders@.len(),
            (first + flattened(contained_holders@)).len() <= usize::MAX,
            is_tally(tallies@, first + flattened(contained_holders@.take(j as int))),
        decreases contained_holders@.len() - j,
    {
        let ghost done = contained_holders@.take(j as int);
        proof {
            assert(contained_holders@.take(j + 1).drop_last() =~= done);
            lemma_flat_prefix(contained_holders@, j + 1);
        }
        tally_list(&mut tallies, &contained_holders[j], Ghost(first + flattened(done)));
        assert(first + flattened(done) + contained_holders@[j as int]@ =~= first + flattened(
            contained_holders@.take(j + 1),
        ));
        j = j + 1;
    }
    assert(contained_holders@.take(j as int) =~= contained_holders@);
    let by = BusyOrder { tallies: &tallies };
    let n: usize = tallies.len();
    let ranking = sort_positions(n, &by);
    let ghost ranked = Seq::new(n as nat, |k: int| tallies@[ranking@[k] as int].pid);
    proof {
        assert forall|a: int, b: int| 0 <= a < b < ranked.len() implies busier(
            hs,
            #[trigger] ranked[a],
            #[trigger] ranked[b],
        ) by {
            assert(by.before(ranking@[a], ranking@[b]));
            assert(ranking@[a] != ranking@[b]) by {
                by.irreflexive(ranking@[a]);
            }
            let x = tallies@[ranking@[a] as int];
            let y = tallies@[ranking@[b] as int];
            assert(x.pid != y.pid) by {
                if ranking@[a] < ranking@[b] {
                    assert(tallies@[ranking@[a] as int].pid != tallies@[ranking@[b] as int].pid);
                } else {
                    assert(tallies@[ranking@[b] as int].pid != tallies@[ranking@[a] as int].pid);
                }
            }
        }
        assert forall|p: u32| #[trigger] ranked.contains(p) <==> pid_count(hs, p) > 0 by {
            if ranked.contains(p) {
                let k = choose|k: int| 0 <= k < ranked.len() && ranked[k] == p;
                assert(tallies@[ranking@[k] as int].count > 0);
            }
            if pid_count(hs, p) > 0 {
                let k = choose|k: int| 0 <= k < tallies@.len() && (#[trigger] tallies@[k]).pid == p;
                order::lemma_sorted_order_covers(ranking@, n as nat, by, k as usize);
                let m = choose|m: int| 0 <= m < ranking@.len() && ranking@[m] == k as usize;
                assert(ranked[m] == p);
            }
        }
    }
    let mut top_holders: Vec<(u32, Option<String>)> = Vec::new();
    let mut k: usize = 0;
    while k < n && k < 3
        invariant
            k <= n,
            k <= 3,
            n == tallies@.len(),
            ranking@.len() == n,
            forall|m: int| 0 <= m < n ==> #[trigger] ranking@[m] < n,
            is_tally(tallies@, hs),
            ranked == Seq::new(n as nat, |k: int| tallies@[ranking@[k] as int].pid),
            top_holders@.len() == k,
            forall|m: int|
                0 <= m < k ==> (#[trigger] top_holders@[m]).0 == ranked[m] && name_view(
                    top_holders@[m].1,
                ) == first_comm(hs, ranked[m]),
        decreases n - k,
    {
        let t = &tallies[ranking[k]];
        top_holders.push((t.pid, copy_name(&t.comm)));
        k = k + 1;
    }
    assert(is_ranking(hs, ranked));
    let partial_coverage = if coverage.is_partial() {
        Some((coverage.readable, coverage.seen))
    } else {
        None
    };
    Some(
        OpenWarning {
            entries_open,
            contained_open: contained_holders.len(),
            holder_count: n,
            top_holders,
            partial_coverage,
        },
    )
}

proof fn lemma_found_prefix(lookups: Seq<Option<Vec<Holder>>>, n: int)
    requires
        0 <= n <= lookups.len(),
    ensures
        flattened_found(lookups.take(n)).len() <= flattened_found(lookups).len(),
    decreases lookups.len(),
{
    if n < lookups.len() {
        lemma_found_prefix(lookups.drop_last(), n);
        assert(lookups.drop_last().take(n) =~= lookups.take(n));
    } else {
        assert(lookups.take(n) =~= lookups);
    }
}

proof fn lemma_flat_prefix(lists: Seq<Vec<Holder>>, n: int)
    requires
        0 <= n <= lists.len(),
    ensures
        flattened(lists.take(n)).len() <= flattened(lists).len(),
    decreases lists.len(),
{
    if n < lists.len() {
        lemma_flat_prefix(lists.drop_last(), n);
        assert(lists.drop_last().take(n) =~= lists.take(n));
    } else {
        assert(lists.take(n) =~= lists);
    }
}

/// The first `n` holders for display, with commas between them.
pub open spec fn holder_list(top: Seq<(u32, Option<String>)>, n: int) -> Seq<char>
    decreases n,
{
    if n <= 0 {
        Seq::empty()
    } else if n == 1 {
        holder_text(top[0].0, name_view(top[0].1))
    } else {
        holder_list(top, n - 1) + ", "@ + holder_text(top[n - 1].0, name_view(top[n - 1].1))
    }
}

/// What the advisory speaks of: marked files, files inside marked directories,
/// or both.
pub open spec fn warning_subject(w: OpenWarning) -> Seq<char> {
    let marked = text::dec(w.entries_open as nat) + (if w.entries_open == 1 {
        " marked entry"@
    } else {
        " marked entries"@
    });
    let inside = text::dec(w.contained_open as nat) + (if w.contained_open == 1 {
        " file"@
    } else {
        " files"@
    }) + " inside marked directories"@;
    if w.entries_open > 0 && w.contained_open > 0 {
        marked + " and "@ + inside
    } else if w.entries_open > 0 {
        marked
    } else if w.contained_open > 0 {
        inside
    } else {
        Seq::empty()
    }
}

/// The busiest holders, in parentheses.
pub open spec fn warning_holders(w: OpenWarning) -> Seq<char> {
    if w.top_holders@.len() > 0 {
        " (top holders: "@ + holder_list(w.top_holders@, w.top_holders@.len() as int) + ")"@
    } else {
        Seq::empty()
    }
}

/// The caveat of a partial view of the processes, in parentheses.
pub open spec fn warning_caveat(w: OpenWarning) -> Seq<char> {
    match w.partial_coverage {
        Some((readable, seen)) => " (open-file check saw "@ + text::dec(readable as nat) + " of "@
            + text::dec(seen as nat) + " processes)"@,
        None => Seq::empty(),
    }
}

/// The advisory line.
pub open spec fn warning_line(w: OpenWarning) -> Seq<char> {
    warning_subject(w) + (if w.entries_open + w.contained_open == 1 {
        " is"@
    } else {
        " are"@
    }) + " open in "@ + text::dec(w.holder_count as nat) + (if w.holder_count == 1 {
        " process"@
    } else {
        " processes"@
    }) + warning_holders(w) + warning_caveat(w)
}

fn push_holder_list(s: &mut String, top: &Vec<(u32, Option<String>)>)
    ensures
        final(s)@ == old(s)@ + holder_list(top@, top@.len() as int),
{
    let mut i: usize = 0;
    assert(s@ =~= old(s)@ + holder_list(top@, 0));
    while i < top.len()
        invariant
            i <= top@.len(),
            s@ == old(s)@ + holder_list(top@, i as int),
        decreases top@.len() - i,
    {
        if i > 0 {
            s.append(", ");
        }
        let one = format_holder(top[i].0, &top[i].1);
        s.append(one.as_str());
        i = i + 1;
        assert(s@ =~= old(s)@ + holder_list(top@, i as int));
    }
}

fn subject_text(warning: &OpenWarning) -> (s: String)
    ensures
        s@ == warning_subject(*warning),
{
    let mut s = String::new();
    if warning.entries_open > 0 {
        push_dec(&mut s, warning.entries_open as u128);
        s.append(
            if warning.entries_open == 1 {
                " marked entry"
            } else {
                " marked entries"
            },
        );
    }
    if warning.contained_open > 0 {
        if warning.entries_open > 0 {
            s.append(" and ");
        }
        push_dec(&mut s, warning.contained_open as u128);
        s.append(
            if warning.contained_open == 1 {
                " file"
            } else {
                " files"
            },
        );
        s.append(" inside marked directories");
    }
    assert(s@ =~= warning_subject(*warning));
    s
}

fn holders_text(warning: &OpenWarning) -> (s: String)
    ensures
        s@ == warning_holders(*warning),
{
    let mut s = String::new();
    if warning.top_holders.len() > 0 {
        s.append(" (top holders: ");
        push_holder_list(&mut s, &warning.top_holders);
        s.append(")");
    }
    assert(s@ =~= warning_holders(*warning));
    s
}

fn caveat_text(warning: &OpenWarning) -> (s: String)
    ensures
        s@ == warning_caveat(*warning),
{
    let mut s = String::new();
    if let Some((readable, seen)) = warning.partial_coverage {
        s.append(" (open-file check saw ");
        push_dec(&mut s, readable as u128);
        s.append(" of ");
        push_dec(&mut s, seen as u128);
        s.append(" processes)");
    }
    assert(s@ =~= warning_caveat(*warning));
    s
}

/// The advisory line's text.
pub fn warning_text(warning: &OpenWarning) -> (s: String)
    ensures
        s@ == warning_line(*warning),
{
    let mut s = subject_text(warning);
    let one = (warning.entries_open == 1 && warning.contained_open == 0) || (warning.entries_open
        == 0 && warning.contained_open == 1);
    s.append(
        if one {
            " is"
        } else {
            " are"
        },
    );
    s.append(" open in ");
    push_dec(&mut s, warning.holder_count as u128);
    s.append(
        if warning.holder_count == 1 {
            " process"
        } else {
            " processes"
        },
    );
    s.append(holders_text(warning).as_str());
    s.append(caveat_text(warning).as_str());
    s
}

/// A path lies under a directory exactly if it is the directory or goes on behind a
/// slash: a longer name with the same start does not.
pub proof fn law_under_ends_at_a_slash(evidence: Seq<u8>, ancestor: Seq<u8>, rest: Seq<u8>, c: u8)
    requires
        ancestor.len() > 0,
    ensures
        under(ancestor, ancestor),
        under(ancestor.push(47) + rest, ancestor),
        c != 47 ==> !under(ancestor.push(c) + rest, ancestor),
        under(evidence, ancestor) ==> evidence == ancestor || evidence == ancestor.push(47)
            + evidence.skip(ancestor.len() as int + 1),
        !under(evidence, Seq::empty()),
{
    assert(ancestor.take(ancestor.len() as int) =~= ancestor);
    assert((ancestor.push(47) + rest).take(ancestor.len() as int) =~= ancestor);
    assert((ancestor.push(47) + rest)[ancestor.len() as int] == 47);
    assert((ancestor.push(c) + rest)[ancestor.len() as int] == c);
    if under(evidence, ancestor) {
        if evidence.len() == ancestor.len() {
            assert(evidence.take(ancestor.len() as int) =~= evidence);
        } else {
            let s = ancestor.push(47) + evidence.skip(ancestor.len() as int + 1);
            assert forall|i: int| 0 <= i < evidence.len() implies evidence[i] == s[i] by {
                if i < ancestor.len() {
                    assert(evidence[i] == evidence.take(ancestor.len() as int)[i]);
                }
            }
            assert(evidence =~= s);
        }
    }
}

/// What lies under a directory lies under whatever that directory lies under.
pub proof fn law_under_is_transitive(a: Seq<u8>, b: Seq<u8>, c: Seq<u8>)
    requires
        under(a, b),
        under(b, c),
    ensures
        under(a, c),
{
    assert(a.take(c.len() as int) =~= b.take(c.len() as int)) by {
        assert forall|i: int| 0 <= i < c.len() implies a[i] == b[i] by {
            assert(a.take(b.len() as int)[i] == b[i]);
        }
    }
    if b.len() > c.len() {
        assert(a.take(b.len() as int)[c.len() as int] == b[c.len() as int]);
    }
}

/// A file is grouped under the deepest directory that holds it, of which there is one;
/// only a file that none of them holds has none.
pub proof fn law_deepest_directory_is_unique(
    evidence: Seq<u8>,
    ancestors: Seq<Vec<u8>>,
    a: Option<Seq<u8>>,
    b: Option<Seq<u8>>,
    k: int,
)
    requires
        is_deepest(evidence, ancestors, a),
        is_deepest(evidence, ancestors, b),
        0 <= k < ancestors.len(),
    ensures
        a == b,
        under(evidence, ancestors[k]@) ==> a is Some && a.unwrap().len() >= ancestors[k]@.len(),
{
    if a is Some && b is Some {
        let x = a.unwrap();
        let y = b.unwrap();
        let i = choose|i: int| 0 <= i < ancestors.len() && #[trigger] ancestors[i]@ == x;
        let j = choose|j: int| 0 <= j < ancestors.len() && #[trigger] ancestors[j]@ == y;
        assert(x.len() == y.len());
        assert(x =~= y);
    } else if a is Some {
        let i = choose|i: int| 0 <= i < ancestors.len() && #[trigger] ancestors[i]@ == a.unwrap();
        assert(!under(evidence, ancestors[i]@));
    } else if b is Some {
        let j = choose|j: int| 0 <= j < ancestors.len() && #[trigger] ancestors[j]@ == b.unwrap();
        assert(!under(evidence, ancestors[j]@));
    }
}

/// Every deleted file is in a group, and the group's directory is the deepest one that
/// holds it.
pub proof fn law_every_file_is_grouped(
    entries: Seq<DeletedEntry>,
    ancestors: Seq<Vec<u8>>,
    groups: Seq<FreeableGroup>,
    i: usize,
)
    requires
        are_groups(entries, ancestors, entries.len() as int, groups),
        i < entries.len(),
    ensures
        exists|g: int|
            {
                &&& 0 <= g < groups.len()
                &&& (#[trigger] groups[g]).entries@.contains(i)
                &&& is_deepest(entries[i as int].evidence@, ancestors, dir_view(groups[g].ancestor))
            },
{
    assert(is_grouped(groups, i as int));
    let g = choose|g: int|
        0 <= g < groups.len() && (#[trigger] groups[g]).entries@.contains(i as int as usize);
    let own = groups[g].entries@;
    let k = choose|k: int| 0 <= k < own.len() && own[k] == i;
    assert(is_group(entries, ancestors, entries.len() as int, groups[g]));
    assert(own[k] < entries.len());
}

/// A holder is told by its number, with its name where it has one.
pub proof fn law_holders_are_told_by_number(pid: u32, name: Seq<char>)
    ensures
        holder_text(pid, None) == text::dec(pid as nat),
        text::starts_with(holder_text(pid, Some(name)), text::dec(pid as nat)),
        name.len() > 0 ==> text::occurs_in(holder_text(pid, Some(name)), name),
        name.len() == 0 ==> holder_text(pid, Some(name)) == holder_text(pid, None),
{
    let n = text::dec(pid as nat);
    text::lemma_itself(n);
    text::lemma_extend_by(n, n, " ("@, name);
    text::lemma_extend(n + " ("@ + name, n, ")"@);
    text::lemma_occurs(n + " ("@, name, ")"@);
}

/// A process is counted once for every file it holds, wherever that file comes from.
pub proof fn law_holders_are_counted(a: Seq<Holder>, b: Seq<Holder>, h: Holder, pid: u32)
    ensures
        pid_count(a.push(h), pid) == pid_count(a, pid) + (if h.pid == pid {
            1int
        } else {
            0
        }),
        pid_count(a + b, pid) == pid_count(a, pid) + pid_count(b, pid),
        pid_count(a, pid) <= a.len(),
    decreases b.len(), a.len(),
{
    assert(a.push(h).drop_last() =~= a);
    if b.len() > 0 {
        law_holders_are_counted(a, b.drop_last(), h, pid);
        assert((a + b).drop_last() =~= a + b.drop_last());
    } else {
        assert(a + b =~= a);
        if a.len() > 0 {
            law_holders_are_counted(a.drop_last(), b, h, pid);
        }
    }
}

/// A process is named as where it was met first.
pub proof fn law_names_are_the_first_met(hs: Seq<Holder>, k: int)
    requires
        0 <= k < hs.len(),
        forall|i: int| 0 <= i < k ==> (#[trigger] hs[i]).pid != hs[k].pid,
    ensures
        pid_count(hs, hs[k].pid) > 0,
        first_comm(hs, hs[k].pid) == name_view(hs[k].comm),
    decreases hs.len(),
{
    let rest = hs.drop_last();
    let pid = hs[k].pid;
    if k == hs.len() - 1 {
        lemma_not_met(rest, pid);
    } else {
        assert(rest[k] == hs[k]);
        law_names_are_the_first_met(rest, k);
    }
}

proof fn lemma_not_met(hs: Seq<Holder>, pid: u32)
    requires
        forall|i: int| 0 <= i < hs.len() ==> (#[trigger] hs[i]).pid != pid,
    ensures
        pid_count(hs, pid) == 0,
    decreases hs.len(),
{
    if hs.len() > 0 {
        assert(hs[hs.len() - 1].pid != pid);
        lemma_not_met(hs.drop_last(), pid);
    }
}

/// At most three holders are named, each once, the busiest first: none that is left out
/// holds more files than one that is named.
pub proof fn law_the_busiest_holders_are_named(
    hs: Seq<Holder>,
    ranked: Seq<u32>,
    top: Seq<(u32, Option<String>)>,
    i: int,
    pid: u32,
)
    requires
        is_ranking(hs, ranked),
        are_top(hs, ranked, top),
        0 <= i < top.len(),
        pid_count(hs, pid) > 0,
        forall|j: int| 0 <= j < top.len() ==> (#[trigger] top[j]).0 != pid,
    ensures
        top.len() <= 3,
        pid_count(hs, top[i].0) >= pid_count(hs, pid),
        pid_count(hs, top[i].0) > 0,
        forall|j: int| i < j < top.len() ==> (#[trigger] top[j]).0 != top[i].0,
{
    assert(ranked.contains(pid));
    let k = choose|k: int| 0 <= k < ranked.len() && ranked[k] == pid;
    if k < top.len() {
        assert(top[k].0 == pid);
    }
    assert(busier(hs, ranked[i], ranked[k]));
    assert(ranked.contains(ranked[i]));
    assert forall|j: int| i < j < top.len() implies (#[trigger] top[j]).0 != top[i].0 by {
        assert(busier(hs, ranked[i], ranked[j]));
    }
}

/// All the holders of the marked files that were found, and of the files inside, are
/// asked about, and nothing else is.
pub proof fn law_all_holders_are_counted(
    lookups: Seq<Option<Vec<Holder>>>,
    contained: Seq<Vec<Holder>>,
    list: Vec<Holder>,
    pid: u32,
)
    ensures
        pid_count(all_holders(lookups, contained), pid) == pid_count(
            flattened_found(lookups),
            pid,
        ) + pid_count(flattened(contained), pid),
        pid_count(flattened_found(lookups.push(Some(list))), pid) == pid_count(
            flattened_found(lookups),
            pid,
        ) + pid_count(list@, pid),
        flattened_found(lookups.push(None)) == flattened_found(lookups),
        pid_count(flattened(contained.push(list)), pid) == pid_count(flattened(contained), pid)
            + pid_count(list@, pid),
        found_count(lookups.push(Some(list))) == found_count(lookups) + 1,
        found_count(lookups.push(None)) == found_count(lookups),
{
    let h = Holder { pid, comm: None };
    law_holders_are_counted(flattened_found(lookups), flattened(contained), h, pid);
    law_holders_are_counted(flattened_found(lookups), list@, h, pid);
    law_holders_are_counted(flattened(contained), list@, h, pid);
    assert(lookups.push(Some(list)).drop_last() =~= lookups);
    assert(lookups.push(None).drop_last() =~= lookups);
    assert(contained.push(list).drop_last() =~= contained);
    assert(flattened_found(lookups) + Seq::<Holder>::empty() =~= flattened_found(lookups));
}

/// Every named holder stands in the warning.
pub proof fn law_holder_list_names_each(top: Seq<(u32, Option<String>)>, n: int, i: int)
    requires
        0 <= i < n <= top.len(),
    ensures
        text::occurs_in(holder_list(top, n), holder_text(top[i].0, name_view(top[i].1))),
    decreases n,
{
    let own = holder_text(top[i].0, name_view(top[i].1));
    if n == 1 {
        text::lemma_itself(own);
    } else if i < n - 1 {
        law_holder_list_names_each(top, n - 1, i);
        text::lemma_extend_by(
            holder_list(top, n - 1),
            own,
            ", "@,
            holder_text(top[n - 1].0, name_view(top[n - 1].1)),
        );
    } else {
        text::lemma_occurs(holder_list(top, n - 1) + ", "@, own, Seq::empty());
        assert(holder_list(top, n - 1) + ", "@ + own + Seq::<char>::empty() =~= holder_list(
            top,
            n,
        ));
    }
}

/// The warning counts marked entries and files inside apart, each only if there are any,
/// in the singular exactly for one.
pub proof fn law_warning_counts_apart(w: OpenWarning)
    ensures
        ({
            let s = warning_subject(w);
            &&& w.entries_open > 0 ==> text::starts_with(
                s,
                text::dec(w.entries_open as nat) + (if w.entries_open == 1 {
                    " marked entry"@
                } else {
                    " marked entries"@
                }),
            )
            &&& w.contained_open > 0 ==> text::ends_with(
                s,
                text::dec(w.contained_open as nat) + (if w.contained_open == 1 {
                    " file"@
                } else {
                    " files"@
                }) + " inside marked directories"@,
            )
            &&& w.entries_open == 0 && w.contained_open == 0 ==> s.len() == 0
        }),
{
    let marked = text::dec(w.entries_open as nat) + (if w.entries_open == 1 {
        " marked entry"@
    } else {
        " marked entries"@
    });
    let inside = text::dec(w.contained_open as nat) + (if w.contained_open == 1 {
        " file"@
    } else {
        " files"@
    }) + " inside marked directories"@;
    text::lemma_itself(marked);
    text::lemma_itself(inside);
    text::lemma_extend_by(marked, marked, " and "@, inside);
    text::lemma_ends(marked + " and "@, inside);
}

/// The warning tells how many processes hold the files, in the singular exactly for
/// one, and a check that did not see every process says how many it saw of how many.
pub proof fn law_warning_counts_processes(w: OpenWarning)
    ensures
        ({
            let s = warning_line(w);
            &&& text::starts_with(s, warning_subject(w))
            &&& text::occurs_in(
                s,
                " open in "@ + text::dec(w.holder_count as nat) + (if w.holder_count == 1 {
                    " process"@
                } else {
                    " processes"@
                }),
            )
            &&& w.partial_coverage matches Some((readable, seen)) ==> text::ends_with(
                s,
                " (open-file check saw "@ + text::dec(readable as nat) + " of "@ + text::dec(
                    seen as nat,
                ) + " processes)"@,
            )
            &&& w.partial_coverage is None && w.top_holders@.len() == 0 ==> text::ends_with(
                s,
                if w.holder_count == 1 {
                    " process"@
                } else {
                    " processes"@
                },
            )
        }),
{
    let subject = warning_subject(w);
    let verb = if w.entries_open + w.contained_open == 1 {
        " is"@
    } else {
        " are"@
    };
    let n = text::dec(w.holder_count as nat);
    let word = if w.holder_count == 1 {
        " process"@
    } else {
        " processes"@
    };
    let l1 = subject + verb;
    let l2 = l1 + " open in "@ + n + word;
    let counted = " open in "@ + n + word;
    text::lemma_itself(subject);
    text::lemma_extend(subject, subject, verb);
    text::lemma_extend_by(l1, subject, " open in "@, n);
    text::lemma_extend(l1 + " open in "@ + n, subject, word);
    text::lemma_side_by_side(l1, " open in "@, n);
    text::lemma_side_by_side(l1, " open in "@ + n, word);
    text::lemma_extend_by(l2, subject, warning_holders(w), warning_caveat(w));
    text::lemma_extend_by(l2, counted, warning_holders(w), warning_caveat(w));
    text::lemma_ends(l2 + warning_holders(w), warning_caveat(w));
    if w.partial_coverage is None && w.top_holders@.len() == 0 {
        text::lemma_ends(l1 + " open in "@ + n, word);
        assert(warning_line(w) =~= l2);
    }
}

} // verus!
