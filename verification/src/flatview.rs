//! The flat list of the largest files and the breakdown by pattern: their rows
//! and their order.

use crate::double;
use crate::double::Double;
use crate::fmt;
use crate::model::NodeId;
use crate::order;
use crate::order::{compare_bytes, compare_u64, sort_positions, StrictOrder};
use crate::paths::copy_bytes;
use crate::state::{SortKey, SortSpec};
use crate::text::copy_str;
use vstd::prelude::*;
use vstd::string::*;

verus! {

/// What a pattern is matched against.
#[derive(Debug, Clone, Copy, PartialEq, Eq, Structural)]
pub enum PatternKind {
    Dir,
    File,
}

/// The files that one pattern claims.
#[derive(Debug)]
pub struct GroupTotal {
    pub label: String,
    pub kind: PatternKind,
    pub apparent: u64,
    pub disk: u64,
    pub entries: u64,
}

/// What no pattern claims.
#[derive(Debug, Clone, Copy, PartialEq, Eq, Structural)]
pub struct RestTotal {
    pub apparent: u64,
    pub disk: u64,
    pub entries: u64,
}

/// One of the largest files.
#[derive(Debug)]
pub struct TopFile {
    pub node: NodeId,
    pub name: String,
    pub disk: u64,
    pub hardlink: bool,
}

/// The largest files and the pattern groups of a scan.
#[derive(Debug)]
pub struct FlatSummary {
    pub groups: Vec<GroupTotal>,
    pub rest: RestTotal,
    pub top_files: Vec<TopFile>,
    pub truncated: bool,
    pub provisional: bool,
    pub epoch: u64,
}

/// What only the finished tree knows of a file.
#[derive(Debug)]
pub struct FileDetail {
    pub apparent: u64,
    pub path: Vec<u8>,
}

/// One row of the flat list.
#[derive(Debug)]
pub struct FlatRow {
    pub node: NodeId,
    pub name: String,
    pub disk: u64,
    /// Known once the scan is done.
    pub apparent: Option<u64>,
    pub hardlink: bool,
    /// Known once the scan is done.
    pub path: Option<Vec<u8>>,
}

/// Whether a row shows a file, with what the finished tree knows of it.
pub open spec fn is_flat_row(row: FlatRow, file: TopFile, detail: Option<FileDetail>) -> bool {
    &&& row.node == file.node
    &&& row.name@ == file.name@
    &&& row.disk == file.disk
    &&& row.hardlink == file.hardlink
    &&& match detail {
        Some(d) => row.apparent == Some(d.apparent) && (row.path matches Some(p) && p@ == d.path@),
        None => row.apparent is None && row.path is None,
    }
}

/// The rows of the flat list, in the summary's order. During a scan no details
/// are known, and rows show the name without the path.
pub fn flat_rows(summary: &FlatSummary, details: Option<&Vec<FileDetail>>) -> (rows: Vec<FlatRow>)
    requires
        details matches Some(d) ==> d@.len() == summary.top_files@.len(),
    ensures
        rows@.len() == summary.top_files@.len(),
        forall|i: int|
            0 <= i < rows@.len() ==> is_flat_row(
                #[trigger] rows@[i],
                summary.top_files@[i],
                match details {
                    Some(d) => Some(d@[i]),
                    None => None,
                },
            ),
{
    let mut rows: Vec<FlatRow> = Vec::new();
    let mut i: usize = 0;
    while i < summary.top_files.len()
        invariant
            i <= summary.top_files@.len(),
            details matches Some(d) ==> d@.len() == summary.top_files@.len(),
            rows@.len() == i,
            forall|k: int|
                0 <= k < i ==> is_flat_row(
                    #[trigger] rows@[k],
                    summary.top_files@[k],
                    match details {
                        Some(d) => Some(d@[k]),
                        None => None,
                    },
                ),
        decreases summary.top_files@.len() - i,
    {
        let f = &summary.top_files[i];
        let (apparent, path) = match details {
            Some(d) => (Some(d[i].apparent), Some(copy_bytes(d[i].path.as_slice()))),
            None => (None, None),
        };
        rows.push(
            FlatRow {
                node: f.node,
                name: copy_str(f.name.as_str()),
                disk: f.disk,
                apparent,
                hardlink: f.hardlink,
                path,
            },
        );
        i = i + 1;
    }
    rows
}

/// Whether the flat list can be sorted by a key.
pub fn flat_supports_sort(key: SortKey) -> (r: bool)
    ensures
        r == (key is Disk || key is Apparent || key is Name),
{
    match key {
        SortKey::Disk | SortKey::Apparent | SortKey::Name => true,
        _ => false,
    }
}

/// How two texts compare, byte by byte.
pub open spec fn text_difference(a: Seq<char>, b: Seq<char>) -> int {
    order::lex(vstd::utf8::encode_utf8(a), vstd::utf8::encode_utf8(b))
}

/// The apparent size that a row sorts by: zero where it is not known.
pub open spec fn known(apparent: Option<u64>) -> u64 {
    match apparent {
        Some(v) => v,
        None => 0,
    }
}

/// How two flat rows compare under a key, upwards; keys that the list does not
/// support compare by disk size.
pub open spec fn flat_difference(a: FlatRow, b: FlatRow, key: SortKey) -> int {
    match key {
        SortKey::Apparent => known(a.apparent) - known(b.apparent),
        SortKey::Name => text_difference(a.name@, b.name@),
        _ => a.disk - b.disk,
    }
}

/// The rows of the flat list in the order of a sort: by the key in its
/// direction, then by node id.
pub struct FlatOrder<'a> {
    pub rows: &'a [FlatRow],
    pub sort: SortSpec,
}

/// A difference in the direction of a sort.
pub open spec fn directed(d: int, descending: bool) -> int {
    if descending {
        -d
    } else {
        d
    }
}

impl<'a> FlatOrder<'a> {
    /// The key's difference in the sort's direction.
    pub open spec fn primary(&self, a: usize, b: usize) -> int {
        directed(
            flat_difference(self.rows@[a as int], self.rows@[b as int], self.sort.key),
            self.sort.descending,
        )
    }

    proof fn lemma_primary(&self, a: usize, b: usize, c: usize)
        ensures
            self.primary(a, b) == -self.primary(b, a),
            self.primary(a, a) == 0,
            self.primary(a, b) <= 0 && self.primary(b, c) <= 0 ==> self.primary(a, c) <= 0,
            self.primary(a, b) < 0 && self.primary(b, c) <= 0 ==> self.primary(a, c) < 0,
            self.primary(a, b) <= 0 && self.primary(b, c) < 0 ==> self.primary(a, c) < 0,
    {
        let x = vstd::utf8::encode_utf8(self.rows@[a as int].name@);
        let y = vstd::utf8::encode_utf8(self.rows@[b as int].name@);
        let z = vstd::utf8::encode_utf8(self.rows@[c as int].name@);
        order::lemma_lex_order(x, y, z);
    }
}

fn compare_text(a: &str, b: &str) -> (r: i8)
    ensures
        r == (if text_difference(a@, b@) < 0 {
            -1int
        } else if text_difference(a@, b@) > 0 {
            1int
        } else {
            0int
        }),
{
    compare_bytes(a.as_bytes(), b.as_bytes())
}

impl<'a> StrictOrder for FlatOrder<'a> {
    open spec fn has(&self, a: usize) -> bool {
        a < self.rows@.len()
    }

    open spec fn before(&self, a: usize, b: usize) -> bool {
        let x = self.rows@[a as int].node.raw;
        let y = self.rows@[b as int].node.raw;
        ||| self.primary(a, b) < 0
        ||| self.primary(a, b) == 0 && x < y
        ||| self.primary(a, b) == 0 && x == y && a < b
    }

    proof fn irreflexive(&self, a: usize) {
        self.lemma_primary(a, a, a);
    }

    proof fn total(&self, a: usize, b: usize) {
        self.lemma_primary(a, b, a);
    }

    proof fn transitive(&self, a: usize, b: usize, c: usize) {
        self.lemma_primary(a, b, c);
    }

    fn precedes(&self, a: usize, b: usize) -> (r: bool) {
        let ra = &self.rows[a];
        let rb = &self.rows[b];
        let up: i8 = match self.sort.key {
            SortKey::Apparent => {
                let x: u64 = match ra.apparent {
                    Some(v) => v,
                    None => 0,
                };
                let y: u64 = match rb.apparent {
                    Some(v) => v,
                    None => 0,
                };
                compare_u64(x, y)
            },
            SortKey::Name => compare_text(ra.name.as_str(), rb.name.as_str()),
            _ => compare_u64(ra.disk, rb.disk),
        };
        let directed: i8 = if self.sort.descending {
            -up
        } else {
            up
        };
        directed < 0 || (directed == 0 && (ra.node.raw < rb.node.raw || (ra.node.raw == rb.node.raw
            && a < b)))
    }
}

/// The display order of the flat list's rows.
pub fn sort_flat_rows(rows: &[FlatRow], sort: SortSpec) -> (r: Vec<usize>)
    ensures
        order::is_sorted_order(r@, rows@.len(), (FlatOrder { rows, sort })),
        r@.len() == rows@.len(),
        forall|i: int| 0 <= i < r@.len() ==> #[trigger] r@[i] < rows@.len(),
{
    let by = FlatOrder { rows, sort };
    sort_positions(rows.len(), &by)
}

/// One row of the breakdown.
#[derive(Debug)]
pub struct BreakdownRow {
    pub label: String,
    /// Absent for the row of what no pattern claims.
    pub kind: Option<PatternKind>,
    pub disk: u64,
    pub apparent: u64,
    pub entries: u64,
}

/// Label of the row of what no pattern claims.
pub const UNCATEGORIZED_LABEL: &'static str = "(uncategorized)";

/// Whether a row shows a group.
pub open spec fn is_group_row(row: BreakdownRow, g: GroupTotal) -> bool {
    &&& row.label@ == g.label@
    &&& row.kind == Some(g.kind)
    &&& row.disk == g.disk
    &&& row.apparent == g.apparent
    &&& row.entries == g.entries
}

/// The rows of the breakdown: one per group in the summary's order, and always
/// a last one for what no pattern claims.
pub fn breakdown_rows(summary: &FlatSummary) -> (rows: Vec<BreakdownRow>)
    ensures
        rows@.len() == summary.groups@.len() + 1,
        forall|i: int|
            0 <= i < summary.groups@.len() ==> is_group_row(
                #[trigger] rows@[i],
                summary.groups@[i],
            ),
        rows@.last().label@ == "(uncategorized)"@,
        rows@.last().kind is None,
        rows@.last().disk == summary.rest.disk,
        rows@.last().apparent == summary.rest.apparent,
        rows@.last().entries == summary.rest.entries,
{
    let mut rows: Vec<BreakdownRow> = Vec::new();
    let mut i: usize = 0;
    while i < summary.groups.len()
        invariant
            i <= summary.groups@.len(),
            rows@.len() == i,
            forall|k: int|
                0 <= k < i ==> is_group_row(#[trigger] rows@[k], summary.groups@[k]),
        decreases summary.groups@.len() - i,
    {
        let g = &summary.groups[i];
        rows.push(
            BreakdownRow {
                label: copy_str(g.label.as_str()),
                kind: Some(g.kind),
                disk: g.disk,
                apparent: g.apparent,
                entries: g.entries,
            },
        );
        i = i + 1;
    }
    rows.push(
        BreakdownRow {
            label: copy_str(UNCATEGORIZED_LABEL),
            kind: None,
            disk: summary.rest.disk,
            apparent: summary.rest.apparent,
            entries: summary.rest.entries,
        },
    );
    rows
}

/// Whether the breakdown can be sorted by a key.
pub fn breakdown_supports_sort(key: SortKey) -> (r: bool)
    ensures
        r == (key is Disk || key is Apparent || key is Name || key is Items),
{
    match key {
        SortKey::Disk | SortKey::Apparent | SortKey::Name | SortKey::Items => true,
        _ => false,
    }
}

/// How two rows of the breakdown compare under a key, upwards; keys that it
/// does not support compare by disk size.
pub open spec fn breakdown_difference(a: BreakdownRow, b: BreakdownRow, key: SortKey) -> int {
    match key {
        SortKey::Apparent => a.apparent - b.apparent,
        SortKey::Name => text_difference(a.label@, b.label@),
        SortKey::Items => a.entries - b.entries,
        _ => a.disk - b.disk,
    }
}

/// The rows of the breakdown in the order of a sort: by the key in its
/// direction, then by label upwards, then by position.
pub struct BreakdownOrder<'a> {
    pub rows: &'a [BreakdownRow],
    pub sort: SortSpec,
}

impl<'a> BreakdownOrder<'a> {
    /// The key's difference in the sort's direction.
    pub open spec fn primary(&self, a: usize, b: usize) -> int {
        directed(
            breakdown_difference(self.rows@[a as int], self.rows@[b as int], self.sort.key),
            self.sort.descending,
        )
    }

    /// The labels' difference.
    pub open spec fn by_label(&self, a: usize, b: usize) -> int {
        text_difference(self.rows@[a as int].label@, self.rows@[b as int].label@)
    }

    proof fn lemma_keys(&self, a: usize, b: usize, c: usize)
        ensures
            self.primary(a, b) == -self.primary(b, a),
            self.primary(a, a) == 0,
            self.primary(a, b) <= 0 && self.primary(b, c) <= 0 ==> self.primary(a, c) <= 0,
            self.primary(a, b) < 0 && self.primary(b, c) <= 0 ==> self.primary(a, c) < 0,
            self.primary(a, b) <= 0 && self.primary(b, c) < 0 ==> self.primary(a, c) < 0,
            self.by_label(a, b) == -self.by_label(b, a),
            self.by_label(a, a) == 0,
            self.by_label(a, b) <= 0 && self.by_label(b, c) <= 0 ==> self.by_label(a, c) <= 0,
            self.by_label(a, b) < 0 && self.by_label(b, c) <= 0 ==> self.by_label(a, c) < 0,
            self.by_label(a, b) <= 0 && self.by_label(b, c) < 0 ==> self.by_label(a, c) < 0,
    {
        let x = vstd::utf8::encode_utf8(self.rows@[a as int].label@);
        let y = vstd::utf8::encode_utf8(self.rows@[b as int].label@);
        let z = vstd::utf8::encode_utf8(self.rows@[c as int].label@);
        order::lemma_lex_order(x, y, z);
    }
}

impl<'a> StrictOrder for BreakdownOrder<'a> {
    open spec fn has(&self, a: usize) -> bool {
        a < self.rows@.len()
    }

    open spec fn before(&self, a: usize, b: usize) -> bool {
        ||| self.primary(a, b) < 0
        ||| self.primary(a, b) == 0 && self.by_label(a, b) < 0
        ||| self.primary(a, b) == 0 && self.by_label(a, b) == 0 && a < b
    }

    proof fn irreflexive(&self, a: usize) {
        self.lemma_keys(a, a, a);
    }

    proof fn total(&self, a: usize, b: usize) {
        self.lemma_keys(a, b, a);
    }

    proof fn transitive(&self, a: usize, b: usize, c: usize) {
        self.lemma_keys(a, b, c);
    }

    fn precedes(&self, a: usize, b: usize) -> (r: bool) {
        let ra = &self.rows[a];
        let rb = &self.rows[b];
        let labels: i8 = compare_text(ra.label.as_str(), rb.label.as_str());
        let up: i8 = match self.sort.key {
            SortKey::Apparent => compare_u64(ra.apparent, rb.apparent),
            SortKey::Name => labels,
            SortKey::Items => compare_u64(ra.entries, rb.entries),
            _ => compare_u64(ra.disk, rb.disk),
        };
        let directed: i8 = if self.sort.descending {
            -up
        } else {
            up
        };
        directed < 0 || (directed == 0 && (labels < 0 || (labels == 0 && a < b)))
    }
}

/// The display order of the breakdown's rows.
pub fn sort_breakdown_rows(rows: &[BreakdownRow], sort: SortSpec) -> (r: Vec<usize>)
    ensures
        order::is_sorted_order(r@, rows@.len(), (BreakdownOrder { rows, sort })),
        r@.len() == rows@.len(),
        forall|i: int| 0 <= i < r@.len() ==> #[trigger] r@[i] < rows@.len(),
{
    let by = BreakdownOrder { rows, sort };
    sort_positions(rows.len(), &by)
}

/// A row's percentage of a total; zero of an empty one.
pub open spec fn percentage(disk: u64, total: u64) -> Double {
    if total == 0 {
        double::zero()
    } else {
        double::quotient(
            double::product(double::int_double(100), double::int_double(disk as nat)),
            double::int_double(total as nat),
        )
    }
}

/// A size's percentage of a total.
pub fn percentage_of(disk: u64, total: u64) -> (x: Double)
    ensures
        x == percentage(disk, total),
        x.wf(),
        x.mant == 0 || x.exp <= 60,
{
    if total == 0 {
        return Double { mant: 0, exp: 0 };
    }
    let hundred = Double::of_int(100);
    let n = Double::of_int(disk);
    let d = Double::of_int(total);
    proof {
        fmt::lemma_hundred();
    }
    let p = hundred.mul(&n);
    p.div(&d)
}

/// A row's percentage of the breakdown's total.
pub fn breakdown_percent(row: &BreakdownRow, total_disk: u64) -> (x: Double)
    ensures
        x == percentage(row.disk, total_disk),
        x.wf(),
{
    percentage_of(row.disk, total_disk)
}

/// The disk bytes of some groups.
pub open spec fn group_sum(groups: Seq<GroupTotal>) -> nat
    decreases groups.len(),
{
    if groups.len() == 0 {
        0
    } else {
        group_sum(groups.drop_last()) + groups.last().disk as nat
    }
}

proof fn lemma_group_sum_prefix(groups: Seq<GroupTotal>, n: int)
    requires
        0 <= n <= groups.len(),
    ensures
        group_sum(groups.take(n)) <= group_sum(groups),
    decreases groups.len(),
{
    if n < groups.len() {
        lemma_group_sum_prefix(groups.drop_last(), n);
        assert(groups.drop_last().take(n) =~= groups.take(n));
    } else {
        assert(groups.take(n) =~= groups);
    }
}

/// The breakdown's own total: all groups and what no pattern claims.
pub fn breakdown_total_disk(summary: &FlatSummary) -> (total: u64)
    requires
        group_sum(summary.groups@) + summary.rest.disk <= u64::MAX,
    ensures
        total == group_sum(summary.groups@) + summary.rest.disk,
{
    let mut sum: u64 = 0;
    let mut i: usize = 0;
    assert(summary.groups@.take(0) =~= Seq::<GroupTotal>::empty());
    while i < summary.groups.len()
        invariant
            i <= summary.groups@.len(),
            sum == group_sum(summary.groups@.take(i as int)),
            group_sum(summary.groups@) + summary.rest.disk <= u64::MAX,
        decreases summary.groups@.len() - i,
    {
        proof {
            lemma_group_sum_prefix(summary.groups@, i + 1);
            assert(summary.groups@.take(i + 1).drop_last() =~= summary.groups@.take(i as int));
        }
        sum = sum + summary.groups[i].disk;
        i = i + 1;
    }
    assert(summary.groups@.take(i as int) =~= summary.groups@);
    sum + summary.rest.disk
}

/// The disk bytes of some rows.
pub open spec fn row_sum(rows: Seq<BreakdownRow>) -> nat
    decreases rows.len(),
{
    if rows.len() == 0 {
        0
    } else {
        row_sum(rows.drop_last()) + rows.last().disk as nat
    }
}

/// The breakdown's rows account for its total exactly: nothing is counted twice
/// or left out.
pub proof fn law_breakdown_is_whole(summary: FlatSummary, rows: Seq<BreakdownRow>)
    requires
        rows.len() == summary.groups@.len() + 1,
        forall|i: int|
            0 <= i < summary.groups@.len() ==> is_group_row(
                #[trigger] rows[i],
                summary.groups@[i],
            ),
        rows.last().disk == summary.rest.disk,
    ensures
        row_sum(rows) == group_sum(summary.groups@) + summary.rest.disk,
{
    let n = summary.groups@.len() as int;
    let head = rows.drop_last();
    assert forall|i: int| 0 <= i < n implies (#[trigger] head[i]).disk == summary.groups@[i].disk by {
        assert(is_group_row(rows[i], summary.groups@[i]));
    }
    lemma_sums_agree(head, summary.groups@);
}

proof fn lemma_sums_agree(rows: Seq<BreakdownRow>, groups: Seq<GroupTotal>)
    requires
        rows.len() == groups.len(),
        forall|i: int| 0 <= i < rows.len() ==> (#[trigger] rows[i]).disk == groups[i].disk,
    ensures
        row_sum(rows) == group_sum(groups),
    decreases rows.len(),
{
    if rows.len() > 0 {
        let r = rows.drop_last();
        let g = groups.drop_last();
        assert forall|i: int| 0 <= i < r.len() implies (#[trigger] r[i]).disk == g[i].disk by {
            assert(rows[i].disk == groups[i].disk);
        }
        assert(rows[rows.len() - 1].disk == groups[groups.len() - 1].disk);
        lemma_sums_agree(r, g);
    }
}

/// A row of the list of files is the file at its place: its own node, name and disk
/// size, and what was found out about it, once it was.
pub proof fn law_flat_rows_are_the_files(row: FlatRow, file: TopFile, detail: Option<FileDetail>)
    requires
        is_flat_row(row, file, detail),
    ensures
        row.node == file.node,
        row.name@ == file.name@,
        row.disk == file.disk,
        row.hardlink == file.hardlink,
        row.apparent is Some <==> detail is Some,
        row.path is Some <==> detail is Some,
        detail matches Some(d) ==> row.apparent == Some(d.apparent) && row.path.unwrap()@
            == d.path@,
{
}

/// The files stand in the order of the sorted field, and files with the same value in
/// that of their nodes; a size that is not known counts as nothing.
pub proof fn law_files_follow_the_sort(
    rows: &[FlatRow],
    sort: SortSpec,
    order: Seq<usize>,
    i: int,
    j: int,
)
    requires
        order::is_sorted_order(order, rows@.len(), (FlatOrder { rows, sort })),
        0 <= i < j < order.len(),
    ensures
        ({
            let a = rows@[order[i] as int];
            let b = rows@[order[j] as int];
            let x: int = if a.apparent is Some {
                a.apparent.unwrap() as int
            } else {
                0
            };
            let y: int = if b.apparent is Some {
                b.apparent.unwrap() as int
            } else {
                0
            };
            &&& sort.key is Disk && sort.descending ==> a.disk >= b.disk
            &&& sort.key is Disk && !sort.descending ==> a.disk <= b.disk
            &&& sort.key is Apparent && sort.descending ==> x >= y
            &&& sort.key is Apparent && !sort.descending ==> x <= y
            &&& sort.key is Disk && a.disk == b.disk ==> a.node.raw <= b.node.raw
            &&& sort.key is Apparent && x == y ==> a.node.raw <= b.node.raw
            &&& sort.key is Name && sort.descending ==> text_difference(a.name@, b.name@) >= 0
            &&& sort.key is Name && !sort.descending ==> text_difference(a.name@, b.name@) <= 0
        }),
{
    let o = FlatOrder { rows, sort };
    assert(o.before(order[i], order[j]));
}

/// The groups stand in the order of the sorted field, and groups with the same value in
/// that of their labels.
pub proof fn law_groups_follow_the_sort(
    rows: &[BreakdownRow],
    sort: SortSpec,
    order: Seq<usize>,
    i: int,
    j: int,
)
    requires
        order::is_sorted_order(order, rows@.len(), (BreakdownOrder { rows, sort })),
        0 <= i < j < order.len(),
    ensures
        ({
            let a = rows@[order[i] as int];
            let b = rows@[order[j] as int];
            let named = text_difference(a.label@, b.label@) <= 0;
            &&& sort.key is Disk && sort.descending ==> a.disk >= b.disk
            &&& sort.key is Disk && !sort.descending ==> a.disk <= b.disk
            &&& sort.key is Apparent && sort.descending ==> a.apparent >= b.apparent
            &&& sort.key is Apparent && !sort.descending ==> a.apparent <= b.apparent
            &&& sort.key is Items && sort.descending ==> a.entries >= b.entries
            &&& sort.key is Items && !sort.descending ==> a.entries <= b.entries
            &&& sort.key is Name && sort.descending ==> text_difference(a.label@, b.label@) >= 0
            &&& sort.key is Name && !sort.descending ==> named
            &&& sort.key is Disk && a.disk == b.disk ==> named
            &&& sort.key is Apparent && a.apparent == b.apparent ==> named
            &&& sort.key is Items && a.entries == b.entries ==> named
        }),
{
    let o = BreakdownOrder { rows, sort };
    assert(o.before(order[i], order[j]));
}

/// Texts are in order as their bytes are.
pub proof fn law_texts_order_by_their_bytes(a: Seq<char>, b: Seq<char>)
    ensures
        text_difference(a, b) < 0 <==> order::lex(
            vstd::utf8::encode_utf8(a),
            vstd::utf8::encode_utf8(b),
        ) < 0,
        text_difference(a, a) == 0,
{
    let bytes = vstd::utf8::encode_utf8(a);
    order::law_bytes_order_like_words(Seq::empty(), bytes, bytes);
}

/// A group's row tells the group's own totals.
pub proof fn law_group_rows_are_the_groups(row: BreakdownRow, g: GroupTotal)
    requires
        is_group_row(row, g),
    ensures
        row.label@ == g.label@,
        row.kind == Some(g.kind),
        row.disk == g.disk,
        row.apparent == g.apparent,
        row.entries == g.entries,
{
}

/// Nothing has a share of an empty total.
pub proof fn law_empty_totals_have_no_shares(disk: u64)
    ensures
        percentage(disk, 0) == double::zero(),
{
}

} // verus!
