//! The state of an interactive session: the sort, the cursor, the navigation
//! stack, the marks for deletion and the modals over them.

use crate::model::{DirId, NodeId, Row, ViewSnapshot};
use crate::order;
use crate::order::{compare_bytes, compare_u64, sort_positions, StrictOrder};
use crate::paths;
use std::collections::HashSet;
use std::sync::Arc;
use vstd::prelude::*;

verus! {

broadcast use vstd::std_specs::hash::group_hash_axioms;

/// Column that a view is sorted by.
#[derive(Debug, Clone, Copy, PartialEq, Eq, Structural)]
pub enum SortKey {
    /// Real (disk) size, the default.
    Disk,
    Apparent,
    Name,
    Mtime,
    /// Subtree item count.
    Items,
    /// Subtree error count.
    Errors,
}

impl SortKey {
    /// Direction that a key starts in: names read best upwards, everything
    /// else largest or newest first.
    pub open spec fn starts_descending(self) -> bool {
        !(self is Name)
    }

    fn default_descending(self) -> (r: bool)
        ensures
            r == self.starts_descending(),
    {
        match self {
            SortKey::Name => false,
            _ => true,
        }
    }
}

/// Active sort: key and direction.
#[derive(Debug, Clone, Copy, PartialEq, Eq, Structural)]
pub struct SortSpec {
    pub key: SortKey,
    pub descending: bool,
}

impl Default for SortSpec {
    fn default() -> (s: SortSpec)
        ensures
            s.key == SortKey::Disk,
            s.descending,
    {
        SortSpec { key: SortKey::Disk, descending: true }
    }
}

impl SortSpec {
    /// The sort after a press of `key`: the active key turns the direction
    /// round, another key starts in its own direction.
    pub open spec fn pressed(self, key: SortKey) -> SortSpec {
        if self.key == key {
            SortSpec { key, descending: !self.descending }
        } else {
            SortSpec { key, descending: key.starts_descending() }
        }
    }

    /// Applies a sort keypress.
    pub fn press(&mut self, key: SortKey)
        ensures
            *final(self) == old(self).pressed(key),
    {
        if self.key == key {
            self.descending = !self.descending;
        } else {
            *self = SortSpec { key, descending: key.default_descending() };
        }
    }
}

/// Two presses of the active key restore the sort.
pub proof fn law_press_twice_restores(s: SortSpec)
    ensures
        s.pressed(s.key).pressed(s.key) == s,
{
}

/// A press always changes the sort.
pub proof fn law_press_changes_the_sort(s: SortSpec, key: SortKey)
    ensures
        s.pressed(key) != s,
        s.pressed(key).key == key,
{
}

/// One row marked for deletion, as it was when it was marked. A marked
/// directory stands for its whole subtree.
#[derive(Debug)]
pub struct MarkedEntry {
    pub node: NodeId,
    /// Path of the viewed directory joined with the row's name.
    pub path: Vec<u8>,
    pub is_dir: bool,
    /// Disk bytes, for a directory those of its subtree.
    pub disk: u64,
}

/// Why a mark keypress was refused.
#[derive(Debug, Clone, Copy, PartialEq, Eq, Structural)]
pub enum MarkRefusal {
    /// Marks are inactive until the scan completes.
    ScanRunning,
    /// An excluded mount point: its subtree was never scanned.
    MountPoint,
}

/// State of the delete-confirmation modal.
#[derive(Debug, Clone, Copy, PartialEq, Eq, Structural)]
pub struct ConfirmState {
    /// Hardlinked files among the marked selection.
    pub hardlink_files: u64,
}

/// State of the review list over the marked entries.
#[derive(Debug, Clone, Copy, PartialEq, Eq, Structural)]
pub struct ReviewState {
    /// Position in mark order.
    pub cursor: usize,
}

/// What the table lists.
#[derive(Debug, Clone, Copy, PartialEq, Eq, Structural)]
pub enum ViewMode {
    /// The rows of the viewed directory.
    Tree,
    /// The largest files of the whole scan.
    FlatTop,
    /// Groups of files by pattern.
    Breakdown,
}

/// Table body geometry: which screen rows hold which display-order rows.
#[derive(Debug, Clone, Copy, PartialEq, Eq, Structural)]
pub struct TableGeometry {
    pub x: u16,
    /// Screen row of the first body row.
    pub y: u16,
    pub width: u16,
    /// Number of body rows visible.
    pub height: u16,
    /// Display-order position of the first visible row.
    pub offset: usize,
}

impl TableGeometry {
    /// Whether a screen cell lies in the table body.
    pub open spec fn covers(self, col: u16, row: u16) -> bool {
        self.x <= col < self.x + self.width && self.y <= row < self.y + self.height
    }

    /// The display-order position under a cell of the table body.
    pub open spec fn hit(self, col: u16, row: u16) -> Option<usize> {
        if self.covers(col, row) {
            Some((self.offset + (row - self.y)) as usize)
        } else {
            None
        }
    }

    /// The display-order position under `(col, row)`, if the cell lies in the
    /// table body.
    pub fn hit_test(&self, col: u16, row: u16) -> (r: Option<usize>)
        requires
            self.offset + self.height <= usize::MAX,
        ensures
            r == self.hit(col, row),
    {
        if col < self.x || col as u32 >= self.x as u32 + self.width as u32 {
            return None;
        }
        if row < self.y || row as u32 >= self.y as u32 + self.height as u32 {
            return None;
        }
        Some(self.offset + (row - self.y) as usize)
    }
}

/// Donut geometry: which screen cell holds which slice, and which display row
/// each slice stands for.
#[derive(Debug)]
pub struct WheelGeometry {
    pub x: u16,
    pub y: u16,
    pub width: usize,
    pub height: usize,
    /// Slice index per screen cell, row by row; absent outside the disc.
    pub cells: Vec<Option<u16>>,
    /// Display-order row position per slice; absent for the merged rest.
    pub targets: Vec<Option<usize>>,
}

impl WheelGeometry {
    /// The slice under a screen cell.
    pub open spec fn slice_at(&self, col: u16, row: u16) -> Option<u16> {
        let x = col - self.x;
        let y = row - self.y;
        if 0 <= x < self.width && 0 <= y < self.height && y * self.width + x < self.cells@.len() {
            self.cells@[y * self.width + x]
        } else {
            None
        }
    }

    /// The row that a click on a screen cell opens.
    pub open spec fn hit(&self, col: u16, row: u16) -> Option<usize> {
        match self.slice_at(col, row) {
            Some(s) => if s < self.targets@.len() {
                self.targets@[s as int]
            } else {
                None
            },
            None => None,
        }
    }

    /// The display-order row position that a click at `(col, row)` navigates
    /// to, if the cell is lit and its slice stands for one row.
    pub fn hit_test(&self, col: u16, row: u16) -> (r: Option<usize>)
        requires
            self.width * self.height <= usize::MAX,
        ensures
            r == self.hit(col, row),
    {
        if col < self.x || row < self.y {
            return None;
        }
        let x: usize = (col - self.x) as usize;
        let y: usize = (row - self.y) as usize;
        if x >= self.width || y >= self.height {
            return None;
        }
        assert(y * self.width + x < self.width * self.height) by (nonlinear_arith)
            requires
                x < self.width,
                y < self.height,
        ;
        assert(y * self.width >= 0) by (nonlinear_arith);
        let index: usize = y * self.width + x;
        if index >= self.cells.len() {
            return None;
        }
        match self.cells[index] {
            Some(slice) => {
                if (slice as usize) < self.targets.len() {
                    self.targets[slice as usize]
                } else {
                    None
                }
            },
            None => None,
        }
    }
}

/// Screen geometry of the most recently drawn frame, for mouse hit-testing.
/// Absent elements were not drawn.
#[derive(Debug)]
pub struct FrameGeometry {
    pub table: Option<TableGeometry>,
    /// Screen row of the breadcrumb path.
    pub breadcrumb_row: u16,
    /// Half-open column range of each path component, with the ancestor that
    /// a click on it jumps to.
    pub breadcrumb: Vec<(u16, u16, Option<DirId>)>,
    /// The errors card's `(x, y, width, height)`.
    pub errors_card: Option<(u16, u16, u16, u16)>,
    pub wheel: Option<WheelGeometry>,
}

impl Default for FrameGeometry {
    fn default() -> (g: FrameGeometry)
        ensures
            g.table is None,
            g.breadcrumb_row == 0,
            g.breadcrumb@.len() == 0,
            g.errors_card is None,
            g.wheel is None,
    {
        FrameGeometry {
            table: None,
            breadcrumb_row: 0,
            breadcrumb: Vec::new(),
            errors_card: None,
            wheel: None,
        }
    }
}

/// The target of the first span that holds the column.
pub open spec fn span_target(spans: Seq<(u16, u16, Option<DirId>)>, col: u16) -> Option<DirId>
    decreases spans.len(),
{
    if spans.len() == 0 {
        None
    } else if spans[0].0 <= col < spans[0].1 {
        spans[0].2
    } else {
        span_target(spans.drop_first(), col)
    }
}

impl FrameGeometry {
    /// Whether positions computed from this geometry fit the machine.
    pub open spec fn wf(&self) -> bool {
        &&& self.table matches Some(t) ==> t.offset + t.height <= usize::MAX
        &&& self.wheel matches Some(w) ==> w.width * w.height <= usize::MAX
    }

    /// The ancestor that a click on the breadcrumb jumps to.
    pub open spec fn breadcrumb_at(&self, col: u16, row: u16) -> Option<DirId> {
        if row == self.breadcrumb_row {
            span_target(self.breadcrumb@, col)
        } else {
            None
        }
    }

    /// The ancestor directory that a click at `(col, row)` jumps to.
    pub fn breadcrumb_hit(&self, col: u16, row: u16) -> (r: Option<DirId>)
        ensures
            r == self.breadcrumb_at(col, row),
    {
        if row != self.breadcrumb_row {
            return None;
        }
        let mut i: usize = 0;
        assert(self.breadcrumb@.skip(0) =~= self.breadcrumb@);
        while i < self.breadcrumb.len()
            invariant
                i <= self.breadcrumb@.len(),
                row == self.breadcrumb_row,
                span_target(self.breadcrumb@, col) == span_target(self.breadcrumb@.skip(i as int), col),
            decreases self.breadcrumb@.len() - i,
        {
            let span = self.breadcrumb[i];
            if col >= span.0 && col < span.1 {
                return span.2;
            }
            assert(self.breadcrumb@.skip(i as int).drop_first() =~= self.breadcrumb@.skip(i + 1));
            i = i + 1;
        }
        None
    }

    /// Whether a cell lies in the errors card.
    pub open spec fn on_errors_card(&self, col: u16, row: u16) -> bool {
        match self.errors_card {
            Some((x, y, w, h)) => x <= col < x + w && y <= row < y + h,
            None => false,
        }
    }

    /// Whether `(col, row)` falls inside the errors metric card.
    pub fn errors_card_hit(&self, col: u16, row: u16) -> (r: bool)
        ensures
            r == self.on_errors_card(col, row),
    {
        match self.errors_card {
            Some((x, y, w, h)) => {
                col >= x && (col as u32) < x as u32 + w as u32 && row >= y && (row as u32) < y as u32
                    + h as u32
            },
            None => false,
        }
    }
}

/// How two rows compare under a sort key alone, upwards.
pub open spec fn key_difference(a: Row, b: Row, key: SortKey) -> int {
    match key {
        SortKey::Disk => a.disk - b.disk,
        SortKey::Apparent => a.apparent - b.apparent,
        SortKey::Name => order::lex(a.name@, b.name@),
        SortKey::Mtime => a.mtime - b.mtime,
        SortKey::Items => a.items - b.items,
        SortKey::Errors => a.errors - b.errors,
    }
}

/// The rows of a view, ordered by a sort: by the key in its direction, then by
/// name upwards whatever the direction, then by position.
pub struct RowOrder<'a> {
    pub rows: &'a Vec<Row>,
    pub sort: SortSpec,
}

impl<'a> RowOrder<'a> {
    /// The key's difference in the direction of the sort.
    pub open spec fn directed(&self, a: usize, b: usize) -> int {
        let d = key_difference(self.rows@[a as int], self.rows@[b as int], self.sort.key);
        if self.sort.descending {
            -d
        } else {
            d
        }
    }

    /// The names' difference.
    pub open spec fn by_name(&self, a: usize, b: usize) -> int {
        order::lex(self.rows@[a as int].name@, self.rows@[b as int].name@)
    }

    proof fn lemma_directed(&self, a: usize, b: usize, c: usize)
        ensures
            self.directed(a, b) == -self.directed(b, a),
            self.directed(a, a) == 0,
            self.directed(a, b) <= 0 && self.directed(b, c) <= 0 ==> self.directed(a, c) <= 0,
            self.directed(a, b) < 0 && self.directed(b, c) <= 0 ==> self.directed(a, c) < 0,
            self.directed(a, b) <= 0 && self.directed(b, c) < 0 ==> self.directed(a, c) < 0,
    {
        self.lemma_by_name(a, b, c);
        self.lemma_by_name(c, b, a);
        self.lemma_by_name(a, c, b);
        self.lemma_by_name(b, c, a);
    }

    proof fn lemma_by_name(&self, a: usize, b: usize, c: usize)
        ensures
            self.by_name(a, b) == -self.by_name(b, a),
            self.by_name(a, a) == 0,
            self.by_name(a, b) <= 0 && self.by_name(b, c) <= 0 ==> self.by_name(a, c) <= 0,
            self.by_name(a, b) < 0 && self.by_name(b, c) <= 0 ==> self.by_name(a, c) < 0,
            self.by_name(a, b) <= 0 && self.by_name(b, c) < 0 ==> self.by_name(a, c) < 0,
    {
        let x = self.rows@[a as int].name@;
        let y = self.rows@[b as int].name@;
        let z = self.rows@[c as int].name@;
        order::lemma_lex_order(x, y, z);
    }
}

impl<'a> StrictOrder for RowOrder<'a> {
    open spec fn has(&self, a: usize) -> bool {
        a < self.rows@.len()
    }

    open spec fn before(&self, a: usize, b: usize) -> bool {
        ||| self.directed(a, b) < 0
        ||| self.directed(a, b) == 0 && self.by_name(a, b) < 0
        ||| self.directed(a, b) == 0 && self.by_name(a, b) == 0 && a < b
    }

    proof fn irreflexive(&self, a: usize) {
        self.lemma_directed(a, a, a);
        self.lemma_by_name(a, a, a);
    }

    proof fn total(&self, a: usize, b: usize) {
        self.lemma_directed(a, b, a);
        self.lemma_by_name(a, b, a);
    }

    proof fn transitive(&self, a: usize, b: usize, c: usize) {
        self.lemma_directed(a, b, c);
        self.lemma_by_name(a, b, c);
    }

    fn precedes(&self, a: usize, b: usize) -> (r: bool) {
        let ra = &self.rows[a];
        let rb = &self.rows[b];
        let names: i8 = compare_bytes(ra.name.as_slice(), rb.name.as_slice());
        let up: i8 = match self.sort.key {
            SortKey::Disk => compare_u64(ra.disk, rb.disk),
            SortKey::Apparent => compare_u64(ra.apparent, rb.apparent),
            SortKey::Name => names,
            SortKey::Mtime => if ra.mtime < rb.mtime {
                -1
            } else if ra.mtime > rb.mtime {
                1
            } else {
                0
            },
            SortKey::Items => compare_u64(ra.items, rb.items),
            SortKey::Errors => compare_u64(ra.errors, rb.errors),
        };
        let directed: i8 = if self.sort.descending {
            -up
        } else {
            up
        };
        directed < 0 || (directed == 0 && (names < 0 || (names == 0 && a < b)))
    }
}

/// Whether rows are the same in everything that an order goes by.
pub open spec fn order_alike(a: Seq<Row>, b: Seq<Row>) -> bool {
    &&& a.len() == b.len()
    &&& forall|i: int|
        0 <= i < a.len() ==> {
            &&& (#[trigger] a[i]).name@ == (#[trigger] b[i]).name@
            &&& a[i].disk == b[i].disk
            &&& a[i].apparent == b[i].apparent
            &&& a[i].mtime == b[i].mtime
            &&& a[i].items == b[i].items
            &&& a[i].errors == b[i].errors
        }
}

/// Tests whether rows are the same in everything that an order goes by, as those
/// of one generation are.
pub fn rows_alike(a: &Vec<Row>, b: &Vec<Row>) -> (r: bool)
    ensures
        r == order_alike(a@, b@),
{
    if a.len() != b.len() {
        return false;
    }
    let mut i: usize = 0;
    while i < a.len()
        invariant
            i <= a@.len(),
            a@.len() == b@.len(),
            order_alike(a@.take(i as int), b@.take(i as int)),
        decreases a@.len() - i,
    {
        let ra = &a[i];
        let rb = &b[i];
        let names: i8 = compare_bytes(ra.name.as_slice(), rb.name.as_slice());
        proof {
            order::lemma_lex_zero(ra.name@, rb.name@);
        }
        if names != 0 || ra.disk != rb.disk || ra.apparent != rb.apparent || ra.mtime != rb.mtime
            || ra.items != rb.items || ra.errors != rb.errors {
            assert(!order_alike(a@, b@)) by {
                assert(a@[i as int] == *ra && b@[i as int] == *rb);
            }
            return false;
        }
        proof {
            let (p, q) = (a@.take(i + 1), b@.take(i + 1));
            assert forall|k: int| 0 <= k < p.len() implies {
                &&& (#[trigger] p[k]).name@ == (#[trigger] q[k]).name@
                &&& p[k].disk == q[k].disk
                &&& p[k].apparent == q[k].apparent
                &&& p[k].mtime == q[k].mtime
                &&& p[k].items == q[k].items
                &&& p[k].errors == q[k].errors
            } by {
                if k < i {
                    assert(p[k] == a@.take(i as int)[k]);
                    assert(q[k] == b@.take(i as int)[k]);
                }
            }
        }
        i = i + 1;
    }
    assert(a@.take(i as int) =~= a@);
    assert(b@.take(i as int) =~= b@);
    true
}

/// An order of rows is one of rows that are alike.
proof fn lemma_sorted_alike(s: Seq<usize>, a: &Vec<Row>, b: &Vec<Row>, sort: SortSpec)
    requires
        order_alike(a@, b@),
        order::is_sorted_order(s, a@.len(), RowOrder { rows: a, sort }),
    ensures
        order::is_sorted_order(s, b@.len(), RowOrder { rows: b, sort }),
{
    let x = RowOrder { rows: a, sort };
    let y = RowOrder { rows: b, sort };
    assert(a.len() == a@.len());
    order::lemma_sorted_order_range(s, a@.len(), x);
    assert forall|i: int, j: int| 0 <= i < j < s.len() implies #[trigger] y.before(s[i], s[j]) by {
        assert(x.before(s[i], s[j]));
        assert(a@[s[i] as int].name@ == b@[s[i] as int].name@);
        assert(a@[s[j] as int].name@ == b@[s[j] as int].name@);
    }
}

/// What the cached order of the rows was computed for.
#[derive(Debug, Clone, Copy, PartialEq, Eq, Structural)]
pub struct OrderKey {
    pub generation: u64,
    pub dir: DirId,
    pub sort: SortSpec,
}

/// The interactive session around the current snapshot.
pub struct UiState {
    pub snapshot: Arc<ViewSnapshot>,
    pub sort: SortSpec,
    /// Cursor position in sorted order.
    pub cursor: usize,
    /// Positions of the snapshot's rows in sorted order.
    pub order: Vec<usize>,
    pub order_key: Option<OrderKey>,
    /// Directory that was requested and whose snapshot has not arrived.
    pub pending_nav: Option<DirId>,
    /// Cursor to adopt when the pending snapshot arrives.
    pub pending_cursor: usize,
    /// Directories descended through, each with the cursor left in it.
    pub stack: Vec<(DirId, usize)>,
    pub show_apparent: bool,
    /// Rows marked for deletion, in mark order.
    pub marks: Vec<MarkedEntry>,
    /// The marked nodes.
    pub marked_set: HashSet<u32>,
    pub confirm: Option<ConfirmState>,
    pub review: Option<ReviewState>,
    pub cheatsheet_open: bool,
    /// Display-order position of the row under the mouse.
    pub hover: Option<usize>,
    pub geometry: FrameGeometry,
    /// Table-only view.
    pub zen: bool,
    pub mode: ViewMode,
    /// Counts changes of the displayed rows' identity or order that are not
    /// live scan progress.
    pub view_change_seq: u64,
}

/// The sum of the marked entries' disk bytes.
pub open spec fn disk_sum(marks: Seq<MarkedEntry>) -> nat
    decreases marks.len(),
{
    if marks.len() == 0 {
        0
    } else {
        disk_sum(marks.drop_last()) + marks.last().disk as nat
    }
}

/// The nodes of the marked entries.
pub open spec fn marked_nodes(marks: Seq<MarkedEntry>) -> Set<u32> {
    Set::new(|n: u32| exists|i: int| 0 <= i < marks.len() && #[trigger] marks[i].node.raw == n)
}

/// Whether no node is marked twice.
pub open spec fn distinct_nodes(marks: Seq<MarkedEntry>) -> bool {
    forall|i: int, j: int|
        0 <= i < j < marks.len() ==> #[trigger] marks[i].node != #[trigger] marks[j].node
}

/// The position of the first stack entry for `dir`, or the stack's length.
pub open spec fn stack_position(stack: Seq<(DirId, usize)>, dir: DirId) -> nat
    decreases stack.len(),
{
    if stack.len() == 0 || stack[0].0 == dir {
        0
    } else {
        1 + stack_position(stack.drop_first(), dir)
    }
}

proof fn lemma_stack_position_bound(stack: Seq<(DirId, usize)>, dir: DirId)
    ensures
        stack_position(stack, dir) <= stack.len(),
        stack_position(stack, dir) < stack.len() ==> stack[stack_position(stack, dir) as int].0 == dir,
    decreases stack.len(),
{
    if stack.len() > 0 && stack[0].0 != dir {
        lemma_stack_position_bound(stack.drop_first(), dir);
    }
}

/// The cursor kept within `n` rows.
pub open spec fn clamped(cursor: usize, n: nat) -> usize {
    if n == 0 {
        0
    } else if cursor >= n {
        (n - 1) as usize
    } else {
        cursor
    }
}

impl UiState {
    /// The session's invariant: the order is that of the active sort, the order
    /// and the cursor point at rows, and the marked set holds the nodes of the
    /// marks, each marked once.
    pub open spec fn wf(&self) -> bool {
        &&& self.order_key == Some(self.current_key())
        &&& self.sorted()
        &&& forall|i: int| 0 <= i < self.order@.len() ==> #[trigger] self.order@[i] < self.snapshot.rows@.len()
        &&& self.cursor == clamped(self.cursor, self.order@.len())
        &&& self.marked_set@ == marked_nodes(self.marks@)
        &&& distinct_nodes(self.marks@)
        &&& self.geometry.wf()
    }

    /// Whether the rows are in the order that the sort asks for.
    pub open spec fn sorted(&self) -> bool {
        order::is_sorted_order(
            self.order@,
            self.snapshot.rows@.len(),
            RowOrder { rows: &self.snapshot.rows, sort: self.sort },
        )
    }

    /// What the order was, or would be, computed for now.
    pub open spec fn current_key(&self) -> OrderKey {
        OrderKey {
            generation: self.snapshot.generation,
            dir: self.snapshot.dir,
            sort: self.sort,
        }
    }

    /// The row at a display-order position.
    pub open spec fn row_at(&self, position: usize) -> Option<Row> {
        if position < self.order@.len() {
            Some(self.snapshot.rows@[self.order@[position as int] as int])
        } else {
            None
        }
    }

    /// Whether everything but what a new order changes is as in `other`.
    pub open spec fn same_but_order(&self, other: UiState) -> bool {
        *self == (UiState { order: self.order, order_key: self.order_key, ..other })
    }

    /// Whether everything but the pending navigation and the stack is as in
    /// `other`.
    pub open spec fn same_but_nav(&self, other: UiState) -> bool {
        *self == (UiState {
            pending_nav: self.pending_nav,
            pending_cursor: self.pending_cursor,
            stack: self.stack,
            ..other
        })
    }

    /// Whether everything but the marks, the cursor and the hover is as in
    /// `other`.
    pub open spec fn same_but_marks_and_cursor(&self, other: UiState) -> bool {
        *self == (UiState {
            marks: self.marks,
            marked_set: self.marked_set,
            cursor: self.cursor,
            hover: self.hover,
            ..other
        })
    }

    /// A session over its first snapshot: sorted by disk size, cursor at the
    /// top, nothing marked and nothing open.
    pub fn new(snapshot: Arc<ViewSnapshot>) -> (s: UiState)
        ensures
            s.wf(),
            s.sorted(),
            s.snapshot == snapshot,
            s.sort == (SortSpec { key: SortKey::Disk, descending: true }),
            s.cursor == 0,
            s.order_key == Some(s.current_key()),
            s.pending_nav is None,
            s.pending_cursor == 0,
            s.stack@.len() == 0,
            s.show_apparent,
            s.marks@.len() == 0,
            s.confirm is None,
            s.review is None,
            !s.cheatsheet_open,
            s.hover is None,
            s.geometry.table is None,
            s.geometry.breadcrumb@.len() == 0,
            s.geometry.errors_card is None,
            s.geometry.wheel is None,
            !s.zen,
            s.mode == ViewMode::Tree,
            s.view_change_seq == 0,
    {
        let mut state = UiState {
            snapshot,
            sort: SortSpec::default(),
            cursor: 0,
            order: Vec::new(),
            order_key: None,
            pending_nav: None,
            pending_cursor: 0,
            stack: Vec::new(),
            show_apparent: true,
            marks: Vec::new(),
            marked_set: HashSet::new(),
            confirm: None,
            review: None,
            cheatsheet_open: false,
            hover: None,
            geometry: FrameGeometry::default(),
            zen: false,
            mode: ViewMode::Tree,
            view_change_seq: 0,
        };
        state.ensure_sorted();
        assert(state.marked_set@ =~= marked_nodes(state.marks@));
        state
    }

    /// Brings the order up to date: it is computed again when the generation,
    /// the directory or the sort differs from what it was computed for.
    fn ensure_sorted(&mut self)
        ensures
            final(self).same_but_order(*old(self)),
            final(self).order_key == Some(old(self).current_key()),
            old(self).order_key == Some(old(self).current_key()) ==> *final(self) == *old(self),
            old(self).order_key != Some(old(self).current_key()) ==> {
                &&& final(self).sorted()
                &&& final(self).order@.len() == final(self).snapshot.rows@.len()
                &&& forall|i: int| 0 <= i < final(self).order@.len() ==> #[trigger] final(self).order@[i] < final(self).snapshot.rows@.len()
            },
    {
        let key = OrderKey {
            generation: self.snapshot.generation,
            dir: self.snapshot.dir,
            sort: self.sort,
        };
        if let Some(known) = self.order_key {
            if known == key {
                return;
            }
        }
        self.order_key = Some(key);
        let by = RowOrder { rows: &self.snapshot.rows, sort: self.sort };
        let order = sort_positions(self.snapshot.rows.len(), &by);
        self.order = order;
    }

    fn clamp_cursor(&mut self)
        ensures
            *final(self) == (UiState {
                cursor: clamped(old(self).cursor, old(self).order@.len()),
                ..*old(self)
            }),
    {
        let n: usize = self.order.len();
        if n == 0 {
            self.cursor = 0;
        } else if self.cursor >= n {
            self.cursor = n - 1;
        }
    }

    /// The current snapshot.
    pub fn snapshot(&self) -> (r: &ViewSnapshot)
        ensures
            *r == *self.snapshot,
    {
        &self.snapshot
    }

    /// The active sort.
    pub fn sort(&self) -> (r: SortSpec)
        ensures
            r == self.sort,
    {
        self.sort
    }

    /// The cursor's display-order position.
    pub fn cursor(&self) -> (r: usize)
        ensures
            r == self.cursor,
    {
        self.cursor
    }

    /// The directory that was requested and has not arrived.
    pub fn pending_nav(&self) -> (r: Option<DirId>)
        ensures
            r == self.pending_nav,
    {
        self.pending_nav
    }

    /// What the table lists.
    pub fn mode(&self) -> (r: ViewMode)
        ensures
            r == self.mode,
    {
        self.mode
    }

    /// The rows in the order of the active sort, each with its position in the
    /// snapshot.
    pub fn rows_indexed(&self) -> (r: Vec<(usize, &Row)>)
        requires
            self.wf(),
        ensures
            order::is_sorted_order(
                Seq::new(r@.len(), |i: int| r@[i].0),
                self.snapshot.rows@.len(),
                RowOrder { rows: &self.snapshot.rows, sort: self.sort },
            ),
            r@.len() == self.order@.len(),
            forall|i: int|
                0 <= i < r@.len() ==> {
                    &&& (#[trigger] r@[i]).0 == self.order@[i]
                    &&& *r@[i].1 == self.snapshot.rows@[self.order@[i] as int]
                },
    {
        let mut r: Vec<(usize, &Row)> = Vec::new();
        let mut i: usize = 0;
        while i < self.order.len()
            invariant
                i <= self.order@.len(),
                self.wf(),
                r@.len() == i,
                forall|k: int|
                    0 <= k < r@.len() ==> {
                        &&& (#[trigger] r@[k]).0 == self.order@[k]
                        &&& *r@[k].1 == self.snapshot.rows@[self.order@[k] as int]
                    },
            decreases self.order@.len() - i,
        {
            let p: usize = self.order[i];
            r.push((p, &self.snapshot.rows[p]));
            i = i + 1;
        }
        assert(Seq::new(r@.len(), |i: int| r@[i].0) =~= self.order@);
        r
    }

    fn row_ref(&self, position: usize) -> (r: Option<&Row>)
        requires
            self.wf(),
        ensures
            r matches Some(row) ==> self.row_at(position) == Some(*row),
            r is None ==> self.row_at(position) is None,
    {
        if position < self.order.len() {
            Some(&self.snapshot.rows[self.order[position]])
        } else {
            None
        }
    }

    /// The row under the cursor.
    pub fn selected(&self) -> (r: Option<&Row>)
        requires
            self.wf(),
        ensures
            r matches Some(row) ==> self.row_at(self.cursor) == Some(*row),
            r is None ==> self.row_at(self.cursor) is None,
    {
        self.row_ref(self.cursor)
    }

    /// The position that the selection card describes: the hovered row's while
    /// the mouse is over one, else the cursor's.
    pub open spec fn card_position(&self) -> usize {
        match self.hover {
            Some(p) => p,
            None => self.cursor,
        }
    }

    /// The row that the selection card describes.
    pub fn card_row(&self) -> (r: Option<&Row>)
        requires
            self.wf(),
        ensures
            r matches Some(row) ==> self.row_at(self.card_position()) == Some(*row),
            r is None ==> self.row_at(self.card_position()) is None,
    {
        let position: usize = match self.hover {
            Some(p) => p,
            None => self.cursor,
        };
        self.row_ref(position)
    }

    /// The hovered row's position.
    pub fn hover(&self) -> (r: Option<usize>)
        ensures
            r == self.hover,
    {
        self.hover
    }

    /// Sets the hovered row.
    pub fn set_hover(&mut self, position: usize)
        ensures
            *final(self) == (UiState { hover: Some(position), ..*old(self) }),
    {
        self.hover = Some(position);
    }

    /// Clears the hovered row.
    pub fn clear_hover(&mut self)
        ensures
            *final(self) == (UiState { hover: None, ..*old(self) }),
    {
        self.hover = None;
    }

    /// The directories open above the viewed one, the root first.
    pub fn stack_dirs(&self) -> (r: Vec<DirId>)
        ensures
            r@ == self.stack@.map_values(|e: (DirId, usize)| e.0),
    {
        let mut r: Vec<DirId> = Vec::new();
        let mut i: usize = 0;
        while i < self.stack.len()
            invariant
                i <= self.stack@.len(),
                r@ == self.stack@.take(i as int).map_values(|e: (DirId, usize)| e.0),
            decreases self.stack@.len() - i,
        {
            r.push(self.stack[i].0);
            i = i + 1;
            assert(r@ =~= self.stack@.take(i as int).map_values(|e: (DirId, usize)| e.0));
        }
        assert(self.stack@.take(i as int) =~= self.stack@);
        r
    }

    /// Hit-testing geometry of the last drawn frame.
    pub fn geometry(&self) -> (r: &FrameGeometry)
        ensures
            *r == self.geometry,
    {
        &self.geometry
    }

    /// Replaces the hit-testing geometry after a frame is drawn.
    pub fn set_geometry(&mut self, geometry: FrameGeometry)
        ensures
            *final(self) == (UiState { geometry, ..*old(self) }),
    {
        self.geometry = geometry;
    }

    /// Whether `snapshot` is a publication of the same directory under the
    /// same generation as the current one.
    pub open spec fn republishes(&self, snapshot: ViewSnapshot) -> bool {
        self.order_key == Some(
            OrderKey { generation: snapshot.generation, dir: snapshot.dir, sort: self.sort },
        )
    }

    /// The cursor before clamping when `snapshot` arrives.
    pub open spec fn arriving_cursor(&self, snapshot: ViewSnapshot) -> usize {
        if self.pending_nav == Some(snapshot.dir) {
            self.pending_cursor
        } else if snapshot.dir != self.snapshot.dir {
            0
        } else {
            self.cursor
        }
    }

    /// What the arrival of a snapshot does.
    pub open spec fn adopts(&self, after: UiState, snapshot: Arc<ViewSnapshot>) -> bool {
        &&& after.snapshot == snapshot
        &&& after.order_key == Some(after.current_key())
        &&& after.sorted()
        &&& after.order@.len() == snapshot.rows@.len()
        &&& self.republishes(*snapshot) ==> after.order@ == self.order@
        &&& after.cursor == clamped(self.arriving_cursor(*snapshot), after.order@.len())
        &&& after.pending_nav == (if self.pending_nav == Some(snapshot.dir) {
            None
        } else {
            self.pending_nav
        })
        &&& after.hover is None
        &&& after.view_change_seq == self.view_change_seq + (if snapshot.dir != self.snapshot.dir {
            1int
        } else {
            0int
        })
        &&& after == (UiState {
            snapshot: after.snapshot,
            order: after.order,
            order_key: after.order_key,
            cursor: after.cursor,
            pending_nav: after.pending_nav,
            hover: after.hover,
            view_change_seq: after.view_change_seq,
            ..*self
        })
    }

    /// Adopts a snapshot: resolves the pending navigation, sorts again where
    /// the generation, the directory or the sort changed, clamps the cursor
    /// and drops the hover. Only a change of directory counts as a view
    /// change.
    pub fn apply_snapshot(&mut self, snapshot: Arc<ViewSnapshot>)
        requires
            old(self).wf(),
            old(self).republishes(*snapshot) ==> order_alike(
                old(self).snapshot.rows@,
                snapshot.rows@,
            ),
            old(self).view_change_seq < u64::MAX,
        ensures
            final(self).wf(),
            old(self).adopts(*final(self), snapshot),
    {
        let dir_changed = snapshot.dir != self.snapshot.dir;
        let arrived = match self.pending_nav {
            Some(d) => d == snapshot.dir,
            None => false,
        };
        if arrived {
            self.pending_nav = None;
            self.cursor = self.pending_cursor;
        } else if dir_changed {
            self.cursor = 0;
        }
        let ghost before = self.snapshot;
        self.snapshot = snapshot;
        proof {
            if self.order_key == Some(self.current_key()) {
                lemma_sorted_alike(self.order@, &before.rows, &self.snapshot.rows, self.sort);
            }
        }
        self.ensure_sorted();
        proof {
            assert(self.snapshot.rows.len() == self.snapshot.rows@.len());
            order::lemma_sorted_order_range(
                self.order@,
                self.snapshot.rows@.len(),
                RowOrder { rows: &self.snapshot.rows, sort: self.sort },
            );
        }
        self.clamp_cursor();
        self.clear_hover();
        if dir_changed {
            self.view_change_seq = self.view_change_seq + 1;
        }
    }

    /// Whether a sort keypress takes this state to another: the rows are in the
    /// new order at once.
    pub open spec fn sorts(&self, after: UiState, key: SortKey) -> bool {
        &&& after.sorted()
        &&& after.order_key == Some(after.current_key())
        &&& after.sort == self.sort.pressed(key)
        &&& after.cursor == clamped(self.cursor, after.order@.len())
        &&& after == (UiState {
            sort: after.sort,
            order: after.order,
            order_key: after.order_key,
            cursor: after.cursor,
            hover: None,
            view_change_seq: (self.view_change_seq + 1) as u64,
            ..*self
        })
    }

    /// Handles a sort keypress; the rows are sorted at once.
    pub fn press_sort(&mut self, key: SortKey)
        requires
            old(self).wf(),
            old(self).view_change_seq < u64::MAX,
        ensures
            final(self).wf(),
            old(self).sorts(*final(self), key),
    {
        proof {
            law_press_changes_the_sort(self.sort, key);
        }
        self.sort.press(key);
        self.ensure_sorted();
        self.clamp_cursor();
        self.clear_hover();
        self.view_change_seq = self.view_change_seq + 1;
    }

    /// The count of view changes.
    pub fn view_change_seq(&self) -> (r: u64)
        ensures
            r == self.view_change_seq,
    {
        self.view_change_seq
    }

    /// Toggles the table-only view.
    pub fn toggle_zen(&mut self)
        ensures
            *final(self) == (UiState { zen: !old(self).zen, ..*old(self) }),
    {
        self.zen = !self.zen;
    }

    /// Whether the table-only view is on.
    pub fn zen(&self) -> (r: bool)
        ensures
            r == self.zen,
    {
        self.zen
    }

    /// Switches to the flat list of files, or back to the tree from it.
    pub fn toggle_flat_top(&mut self)
        ensures
            *final(self) == (UiState {
                mode: if old(self).mode is FlatTop { ViewMode::Tree } else { ViewMode::FlatTop },
                ..*old(self)
            }),
    {
        self.mode = match self.mode {
            ViewMode::FlatTop => ViewMode::Tree,
            _ => ViewMode::FlatTop,
        };
    }

    /// Switches to the pattern breakdown, or back to the tree from it.
    pub fn toggle_breakdown(&mut self)
        ensures
            *final(self) == (UiState {
                mode: if old(self).mode is Breakdown { ViewMode::Tree } else { ViewMode::Breakdown },
                ..*old(self)
            }),
    {
        self.mode = match self.mode {
            ViewMode::Breakdown => ViewMode::Tree,
            _ => ViewMode::Breakdown,
        };
    }

    /// Leaves the flat list or the breakdown.
    pub fn leave_mode(&mut self)
        ensures
            *final(self) == (UiState { mode: ViewMode::Tree, ..*old(self) }),
    {
        self.mode = ViewMode::Tree;
    }

    /// Moves the cursor one row down, not past the last.
    pub fn move_down(&mut self)
        requires
            old(self).wf(),
        ensures
            final(self).wf(),
            *final(self) == (UiState {
                cursor: if old(self).cursor + 1 < old(self).order@.len() {
                    (old(self).cursor + 1) as usize
                } else {
                    old(self).cursor
                },
                hover: None,
                ..*old(self)
            }),
    {
        if self.order.len() > 0 && self.cursor < self.order.len() - 1 {
            self.cursor = self.cursor + 1;
        }
        self.clear_hover();
    }

    /// Moves the cursor one row up, not past the first.
    pub fn move_up(&mut self)
        requires
            old(self).wf(),
        ensures
            final(self).wf(),
            *final(self) == (UiState {
                cursor: if old(self).cursor > 0 {
                    (old(self).cursor - 1) as usize
                } else {
                    0
                },
                hover: None,
                ..*old(self)
            }),
    {
        if self.cursor > 0 {
            self.cursor = self.cursor - 1;
        }
        self.clear_hover();
    }

    /// Moves the cursor to the first row.
    pub fn move_top(&mut self)
        requires
            old(self).wf(),
        ensures
            final(self).wf(),
            *final(self) == (UiState { cursor: 0, hover: None, ..*old(self) }),
    {
        self.cursor = 0;
        self.clear_hover();
    }

    /// Moves the cursor to the last row.
    pub fn move_bottom(&mut self)
        requires
            old(self).wf(),
        ensures
            final(self).wf(),
            *final(self) == (UiState {
                cursor: clamped(usize::MAX, old(self).order@.len()),
                hover: None,
                ..*old(self)
            }),
    {
        if self.order.len() > 0 {
            self.cursor = self.order.len() - 1;
        } else {
            self.cursor = 0;
        }
        self.clear_hover();
    }

    /// Number of rows in the view.
    pub fn row_count(&self) -> (r: usize)
        ensures
            r == self.order@.len(),
    {
        self.order.len()
    }

    /// Moves the cursor to a display-order position, clamped to the rows.
    pub fn select_at(&mut self, position: usize)
        requires
            old(self).wf(),
        ensures
            final(self).wf(),
            *final(self) == (UiState {
                cursor: clamped(position, old(self).order@.len()),
                hover: None,
                ..*old(self)
            }),
    {
        self.cursor = position;
        self.clamp_cursor();
        self.clear_hover();
    }

    /// The directory that a descend would open: that of the row under the
    /// cursor, unless a navigation is pending.
    pub open spec fn descend_target(&self) -> Option<DirId> {
        if self.pending_nav is Some {
            None
        } else {
            match self.row_at(self.cursor) {
                Some(row) => row.dir,
                None => None,
            }
        }
    }

    /// What a descend does: it requests its target, remembers the viewed
    /// directory with the cursor in it, and will start at the top; without a
    /// target nothing changes.
    pub open spec fn descends(&self, after: UiState, r: Option<DirId>) -> bool {
        &&& r == self.descend_target()
        &&& r is None ==> after == *self
        &&& r is Some ==> {
            &&& after.same_but_nav(*self)
            &&& after.stack@ == self.stack@.push((self.snapshot.dir, self.cursor))
            &&& after.pending_nav == r
            &&& after.pending_cursor == 0
        }
    }

    /// Starts descending into the directory under the cursor and returns the
    /// directory to request.
    pub fn descend(&mut self) -> (r: Option<DirId>)
        requires
            old(self).wf(),
        ensures
            final(self).wf(),
            old(self).descends(*final(self), r),
    {
        if self.pending_nav.is_some() {
            return None;
        }
        let target = match self.selected() {
            Some(row) => row.dir,
            None => None,
        };
        if let Some(dir) = target {
            self.stack.push((self.snapshot.dir, self.cursor));
            self.pending_nav = Some(dir);
            self.pending_cursor = 0;
        }
        target
    }

    /// Whether the top of the stack is the parent of the viewed directory.
    pub open spec fn came_from_parent(&self) -> bool {
        self.stack@.len() > 0 && self.snapshot.parent == Some(self.stack@.last().0)
    }

    /// What an ascend does: it requests the parent, with the cursor that the
    /// top of the stack remembers for it; without a parent, or while a
    /// navigation is pending, nothing changes.
    pub open spec fn ascends(&self, after: UiState, r: Option<DirId>) -> bool {
        &&& r == (if self.pending_nav is Some {
            None
        } else {
            self.snapshot.parent
        })
        &&& r is None ==> after == *self
        &&& r is Some ==> {
            &&& after.same_but_nav(*self)
            &&& after.pending_nav == r
            &&& self.came_from_parent() ==> {
                &&& after.stack@ == self.stack@.drop_last()
                &&& after.pending_cursor == self.stack@.last().1
            }
            &&& !self.came_from_parent() ==> {
                &&& after.stack@ == self.stack@
                &&& after.pending_cursor == 0
            }
        }
    }

    /// Starts going up to the parent and returns the directory to request. The
    /// remembered cursor is taken from the stack where its top is the parent;
    /// otherwise the stack stays and the cursor will land at the top.
    pub fn ascend(&mut self) -> (r: Option<DirId>)
        requires
            old(self).wf(),
        ensures
            final(self).wf(),
            old(self).ascends(*final(self), r),
    {
        if self.pending_nav.is_some() {
            return None;
        }
        let parent = match self.snapshot.parent {
            Some(p) => p,
            None => {
                return None;
            },
        };
        self.pending_cursor = match self.stack.pop() {
            Some((dir, cursor)) => {
                if dir == parent {
                    cursor
                } else {
                    self.stack.push((dir, cursor));
                    assert(self.stack@ =~= old(self).stack@);
                    0
                }
            },
            None => 0,
        };
        self.pending_nav = Some(parent);
        Some(parent)
    }

    /// Whether a jump to `dir` is possible: no navigation is pending, it is
    /// not the viewed directory and it is on the stack.
    pub open spec fn can_jump_to(&self, dir: DirId) -> bool {
        &&& self.pending_nav is None
        &&& dir != self.snapshot.dir
        &&& stack_position(self.stack@, dir) < self.stack@.len()
    }

    /// What a jump does: it requests the ancestor with the cursor left in it,
    /// and the stack keeps what lies above; an impossible jump changes nothing.
    pub open spec fn jumps(&self, after: UiState, dir: DirId, r: Option<DirId>) -> bool {
        &&& r == (if self.can_jump_to(dir) {
            Some(dir)
        } else {
            None
        })
        &&& r is None ==> after == *self
        &&& r is Some ==> {
            let position = stack_position(self.stack@, dir) as int;
            &&& after.same_but_nav(*self)
            &&& after.pending_nav == Some(dir)
            &&& after.pending_cursor == self.stack@[position].1
            &&& after.stack@ == self.stack@.take(position)
        }
    }

    /// Jumps straight to an open ancestor: the stack keeps what lies above it,
    /// and the cursor left in it will be restored.
    pub fn jump_to_ancestor(&mut self, dir: DirId) -> (r: Option<DirId>)
        requires
            old(self).wf(),
        ensures
            final(self).wf(),
            old(self).jumps(*final(self), dir, r),
    {
        if self.pending_nav.is_some() || dir == self.snapshot.dir {
            return None;
        }
        let mut i: usize = 0;
        assert(self.stack@.skip(0) =~= self.stack@);
        while i < self.stack.len()
            invariant
                i <= self.stack@.len(),
                *self == *old(self),
                self.wf(),
                self.pending_nav is None,
                dir != self.snapshot.dir,
                stack_position(self.stack@, dir) == i + stack_position(
                    self.stack@.skip(i as int),
                    dir,
                ),
            decreases self.stack@.len() - i,
        {
            if self.stack[i].0 == dir {
                let cursor: usize = self.stack[i].1;
                self.stack.truncate(i);
                self.pending_cursor = cursor;
                self.pending_nav = Some(dir);
                return Some(dir);
            }
            assert(self.stack@.skip(i as int).drop_first() =~= self.stack@.skip(i + 1));
            i = i + 1;
        }
        None
    }

    /// Shows or hides the apparent-size column.
    pub fn toggle_apparent(&mut self)
        ensures
            *final(self) == (UiState { show_apparent: !old(self).show_apparent, ..*old(self) }),
    {
        self.show_apparent = !self.show_apparent;
    }

    /// The entry that marking a row would record.
    pub open spec fn is_entry_of(&self, mark: MarkedEntry, row: Row) -> bool {
        &&& mark.node == row.node
        &&& mark.path@ == paths::joined(self.snapshot.path@, row.name@)
        &&& mark.is_dir == row.is_dir
        &&& mark.disk == row.disk
    }

    /// Why a mark keypress would be refused: while the scan runs, and on a
    /// directory row without a directory to open.
    pub open spec fn mark_refusal(&self) -> Option<MarkRefusal> {
        if !self.snapshot.stats.root_complete {
            Some(MarkRefusal::ScanRunning)
        } else {
            match self.row_at(self.cursor) {
                Some(row) => if row.is_dir && row.dir is None {
                    Some(MarkRefusal::MountPoint)
                } else {
                    None
                },
                None => None,
            }
        }
    }

    /// Whether a mark keypress takes this state to another, with its result: the
    /// row under the cursor is marked or unmarked, and the cursor moves one row
    /// down. A refusal, or an empty view, changes nothing.
    pub open spec fn toggles_mark(&self, after: UiState, r: Result<(), MarkRefusal>) -> bool {
        &&& r == (match self.mark_refusal() {
            Some(refusal) => Err::<(), MarkRefusal>(refusal),
            None => Ok(()),
        })
        &&& r is Err || self.row_at(self.cursor) is None ==> after == *self
        &&& r is Ok ==> (self.row_at(self.cursor) matches Some(row) ==> {
            &&& after.same_but_marks_and_cursor(*self)
            &&& after.hover is None
            &&& after.cursor == (if self.cursor + 1 < self.order@.len() {
                self.cursor + 1
            } else {
                self.cursor as int
            })
            &&& after.marked_set@.contains(row.node.raw) != self.marked_set@.contains(row.node.raw)
            &&& self.marked_set@.contains(row.node.raw) ==> exists|k: int|
                0 <= k < self.marks@.len() && self.marks@[k].node == row.node && after.marks@
                    == #[trigger] self.marks@.remove(k)
            &&& !self.marked_set@.contains(row.node.raw) ==> {
                &&& after.marks@.len() == self.marks@.len() + 1
                &&& after.marks@.drop_last() == self.marks@
                &&& self.is_entry_of(after.marks@.last(), row)
            }
        })
    }

    /// Marks or unmarks the row under the cursor, then moves one row down. An
    /// empty view is left as it is.
    pub fn toggle_mark(&mut self) -> (r: Result<(), MarkRefusal>)
        requires
            old(self).wf(),
        ensures
            final(self).wf(),
            old(self).toggles_mark(*final(self), r),
    {
        if !self.snapshot.stats.root_complete {
            return Err(MarkRefusal::ScanRunning);
        }
        let entry = match self.selected() {
            None => {
                return Ok(());
            },
            Some(row) => {
                if row.is_dir && row.dir.is_none() {
                    return Err(MarkRefusal::MountPoint);
                }
                MarkedEntry {
                    node: row.node,
                    path: paths::join(self.snapshot.path.as_slice(), row.name.as_slice()),
                    is_dir: row.is_dir,
                    disk: row.disk,
                }
            },
        };
        let ghost before = self.marks@;
        self.flip_mark(entry);
        proof {
            if !old(self).marked_set@.contains(entry.node.raw) {
                assert(before.push(entry).drop_last() =~= before);
            }
        }
        assert(self.order.len() == self.order@.len());
        self.move_down();
        Ok(())
    }

    /// Marks an entry, or unmarks it where its node is marked.
    pub fn flip_mark(&mut self, entry: MarkedEntry)
        requires
            old(self).wf(),
        ensures
            final(self).wf(),
            *final(self) == (UiState {
                marks: final(self).marks,
                marked_set: final(self).marked_set,
                ..*old(self)
            }),
            final(self).marked_set@.contains(entry.node.raw) != old(self).marked_set@.contains(
                entry.node.raw,
            ),
            old(self).marked_set@.contains(entry.node.raw) ==> exists|k: int|
                0 <= k < old(self).marks@.len() && old(self).marks@[k].node == entry.node
                    && final(self).marks@ == #[trigger] old(self).marks@.remove(k),
            !old(self).marked_set@.contains(entry.node.raw) ==> final(self).marks@
                == old(self).marks@.push(entry),
    {
        let ghost before = self.marks@;
        let node = entry.node;
        if self.marked_set.contains(&node.raw) {
            self.remove_mark(node);
        } else {
            self.marked_set.insert(node.raw);
            self.marks.push(entry);
            proof {
                assert(self.marked_set@ =~= marked_nodes(self.marks@)) by {
                    assert forall|n: u32| marked_nodes(self.marks@).contains(n) <==> (#[trigger] marked_nodes(before).contains(n) || n == node.raw) by {
                        if marked_nodes(before).contains(n) {
                            let i = choose|i: int| 0 <= i < before.len() && #[trigger] before[i].node.raw == n;
                            assert(self.marks@[i].node.raw == n);
                        }
                        if n == node.raw {
                            assert(self.marks@[before.len() as int].node.raw == n);
                        }
                        if marked_nodes(self.marks@).contains(n) && n != node.raw {
                            let i = choose|i: int| 0 <= i < self.marks@.len() && #[trigger] self.marks@[i].node.raw == n;
                            assert(before[i].node.raw == n);
                        }
                    }
                }
                assert forall|i: int, j: int| 0 <= i < j < self.marks@.len() implies #[trigger] self.marks@[i].node != #[trigger] self.marks@[j].node by {
                    if j == before.len() {
                        if before[i].node == node {
                            assert(before[i].node.raw == node.raw);
                            assert(marked_nodes(before).contains(node.raw));
                        }
                    }
                }
                assert(self.marks@.drop_last() =~= before);
            }
        }
    }

    /// Takes the mark of a node away.
    fn remove_mark(&mut self, node: NodeId)
        requires
            old(self).wf(),
            old(self).marked_set@.contains(node.raw),
        ensures
            final(self).wf(),
            *final(self) == (UiState {
                marks: final(self).marks,
                marked_set: final(self).marked_set,
                ..*old(self)
            }),
            !final(self).marked_set@.contains(node.raw),
            exists|k: int|
                0 <= k < old(self).marks@.len() && old(self).marks@[k].node == node
                    && final(self).marks@ == #[trigger] old(self).marks@.remove(k),
    {
        let mut k: usize = 0;
        proof {
            let i = choose|i: int| 0 <= i < self.marks@.len() && #[trigger] self.marks@[i].node.raw == node.raw;
            assert(self.marks@[i].node == node);
        }
        while self.marks[k].node != node
            invariant
                *self == *old(self),
                self.wf(),
                k < self.marks@.len(),
                exists|i: int| k <= i < self.marks@.len() && #[trigger] self.marks@[i].node == node,
            decreases self.marks@.len() - k,
        {
            proof {
                let i = choose|i: int|
                    k <= i < self.marks@.len() && #[trigger] self.marks@[i].node == node;
                assert(i != k);
                assert(self.marks.len() == self.marks@.len());
            }
            k = k + 1;
        }
        self.remove_mark_at(k);
    }

    /// Takes the mark at a position of the mark order away.
    fn remove_mark_at(&mut self, k: usize)
        requires
            old(self).wf(),
            k < old(self).marks@.len(),
        ensures
            final(self).wf(),
            *final(self) == (UiState {
                marks: final(self).marks,
                marked_set: final(self).marked_set,
                ..*old(self)
            }),
            final(self).marks@ == old(self).marks@.remove(k as int),
            final(self).marked_set@ == old(self).marked_set@.remove(
                old(self).marks@[k as int].node.raw,
            ),
    {
        let ghost before = self.marks@;
        let node = self.marks[k].node;
        self.marked_set.remove(&node.raw);
        self.marks.remove(k);
        proof {
            let after = self.marks@;
            assert(self.marked_set@ =~= marked_nodes(after)) by {
                assert forall|n: u32| marked_nodes(after).contains(n) <==> (#[trigger] marked_nodes(before).contains(n) && n != node.raw) by {
                    if marked_nodes(before).contains(n) && n != node.raw {
                        let i = choose|i: int| 0 <= i < before.len() && #[trigger] before[i].node.raw == n;
                        if i < k {
                            assert(after[i].node.raw == n);
                        } else {
                            assert(after[i - 1].node.raw == n);
                        }
                    }
                    if marked_nodes(after).contains(n) {
                        let i = choose|i: int| 0 <= i < after.len() && #[trigger] after[i].node.raw == n;
                        let j = if i < k { i } else { i + 1 };
                        assert(before[j].node.raw == n);
                        if n == node.raw {
                            assert(before[j].node == before[k as int].node);
                        }
                    }
                }
            }
            assert forall|i: int, j: int| 0 <= i < j < after.len() implies #[trigger] after[i].node != #[trigger] after[j].node by {
                let x = if i < k { i } else { i + 1 };
                let y = if j < k { j } else { j + 1 };
                assert(before[x].node != before[y].node);
            }
        }
    }

    /// Clears every mark.
    pub fn unmark_all(&mut self)
        requires
            old(self).wf(),
        ensures
            final(self).wf(),
            final(self).marks@.len() == 0,
            final(self).marked_set@ == Set::<u32>::empty(),
            *final(self) == (UiState {
                marks: final(self).marks,
                marked_set: final(self).marked_set,
                ..*old(self)
            }),
    {
        self.marks.clear();
        self.marked_set.clear();
        assert(self.marked_set@ =~= marked_nodes(self.marks@));
    }

    /// Whether a node is marked.
    pub fn is_marked(&self, node: NodeId) -> (r: bool)
        requires
            self.wf(),
        ensures
            r == self.marked_set@.contains(node.raw),
            r == marked_nodes(self.marks@).contains(node.raw),
    {
        self.marked_set.contains(&node.raw)
    }

    /// The marked rows in mark order.
    pub fn marks(&self) -> (r: &[MarkedEntry])
        ensures
            r@ == self.marks@,
    {
        self.marks.as_slice()
    }

    /// How many entries are marked and their disk bytes; absent when nothing
    /// is marked.
    pub fn marked_summary(&self) -> (r: Option<(usize, u64)>)
        requires
            disk_sum(self.marks@) <= u64::MAX,
        ensures
            r is None <==> self.marks@.len() == 0,
            r matches Some((count, disk)) ==> count == self.marks@.len() && disk == disk_sum(
                self.marks@,
            ),
    {
        if self.marks.len() == 0 {
            return None;
        }
        let mut sum: u64 = 0;
        let mut i: usize = 0;
        while i < self.marks.len()
            invariant
                i <= self.marks@.len(),
                sum == disk_sum(self.marks@.take(i as int)),
                disk_sum(self.marks@) <= u64::MAX,
            decreases self.marks@.len() - i,
        {
            proof {
                lemma_disk_sum_prefix(self.marks@, i + 1);
                assert(self.marks@.take(i + 1).drop_last() =~= self.marks@.take(i as int));
            }
            sum = sum + self.marks[i].disk;
            i = i + 1;
        }
        assert(self.marks@.take(i as int) =~= self.marks@);
        Some((self.marks.len(), sum))
    }

    /// Opens the delete-confirmation modal. Refused when nothing is marked or
    /// the scan still runs.
    pub fn open_confirm(&mut self, hardlink_files: u64) -> (r: bool)
        ensures
            r == (old(self).marks@.len() > 0 && old(self).snapshot.stats.root_complete),
            *final(self) == (UiState {
                confirm: if r { Some(ConfirmState { hardlink_files }) } else { old(self).confirm },
                ..*old(self)
            }),
    {
        if self.marks.len() == 0 || !self.snapshot.stats.root_complete {
            return false;
        }
        self.confirm = Some(ConfirmState { hardlink_files });
        true
    }

    /// The open confirmation modal.
    pub fn confirm(&self) -> (r: Option<&ConfirmState>)
        ensures
            r is Some <==> self.confirm is Some,
            r matches Some(c) ==> self.confirm == Some(*c),
    {
        match &self.confirm {
            Some(c) => Some(c),
            None => None,
        }
    }

    /// Closes the confirmation modal without deleting.
    pub fn cancel_confirm(&mut self)
        ensures
            *final(self) == (UiState { confirm: None, ..*old(self) }),
    {
        self.confirm = None;
    }

    /// Whether confirming takes this state to another: the modal is closed and
    /// nothing is marked.
    pub open spec fn confirms(&self, after: UiState) -> bool {
        &&& after.marks@.len() == 0
        &&& after.marked_set@ == Set::<u32>::empty()
        &&& after == (UiState {
            confirm: None,
            marks: after.marks,
            marked_set: after.marked_set,
            ..*self
        })
    }

    /// Confirms the modal: closes it and hands the marked entries over,
    /// clearing every mark. Absent when the modal was not open.
    pub fn take_confirmed_marks(&mut self) -> (r: Option<Vec<MarkedEntry>>)
        requires
            old(self).wf(),
        ensures
            final(self).wf(),
            r is Some <==> old(self).confirm is Some,
            r is None ==> *final(self) == *old(self),
            r matches Some(marks) ==> {
                &&& marks@ == old(self).marks@
                &&& old(self).confirms(*final(self))
            },
    {
        if self.confirm.is_none() {
            return None;
        }
        self.confirm = None;
        self.marked_set.clear();
        let mut taken: Vec<MarkedEntry> = Vec::new();
        std::mem::swap(&mut taken, &mut self.marks);
        assert(self.marked_set@ =~= marked_nodes(self.marks@));
        Some(taken)
    }

    /// Opens the review list. Refused when nothing is marked.
    pub fn open_review(&mut self) -> (r: bool)
        ensures
            r == (old(self).marks@.len() > 0),
            *final(self) == (UiState {
                review: if r { Some(ReviewState { cursor: 0 }) } else { old(self).review },
                ..*old(self)
            }),
    {
        if self.marks.len() == 0 {
            return false;
        }
        self.review = Some(ReviewState { cursor: 0 });
        true
    }

    /// The open review list.
    pub fn review(&self) -> (r: Option<&ReviewState>)
        ensures
            r is Some <==> self.review is Some,
            r matches Some(c) ==> self.review == Some(*c),
    {
        match &self.review {
            Some(c) => Some(c),
            None => None,
        }
    }

    /// Closes the review list; the marks stay.
    pub fn close_review(&mut self)
        ensures
            *final(self) == (UiState { review: None, ..*old(self) }),
    {
        self.review = None;
    }

    /// Moves the review cursor one row down, not past the last mark.
    pub fn review_move_down(&mut self)
        ensures
            *final(self) == (UiState {
                review: match old(self).review {
                    Some(r) => if r.cursor + 1 < old(self).marks@.len() {
                        Some(ReviewState { cursor: (r.cursor + 1) as usize })
                    } else {
                        Some(r)
                    },
                    None => None,
                },
                ..*old(self)
            }),
    {
        if let Some(r) = self.review {
            if self.marks.len() > 0 && r.cursor < self.marks.len() - 1 {
                self.review = Some(ReviewState { cursor: r.cursor + 1 });
            }
        }
    }

    /// Moves the review cursor one row up, not past the first mark.
    pub fn review_move_up(&mut self)
        ensures
            *final(self) == (UiState {
                review: match old(self).review {
                    Some(r) => if r.cursor > 0 {
                        Some(ReviewState { cursor: (r.cursor - 1) as usize })
                    } else {
                        Some(r)
                    },
                    None => None,
                },
                ..*old(self)
            }),
    {
        if let Some(r) = self.review {
            if r.cursor > 0 {
                self.review = Some(ReviewState { cursor: r.cursor - 1 });
            }
        }
    }

    /// Whether unmarking under the review cursor takes this state to another:
    /// the list closes when that was the last mark, and its cursor stays on a
    /// mark otherwise.
    pub open spec fn unmarks_in_review(&self, after: UiState) -> bool {
        match self.review {
            Some(r) if r.cursor < self.marks@.len() => {
                &&& after.marks@ == self.marks@.remove(r.cursor as int)
                &&& after.marked_set@ == self.marked_set@.remove(
                    self.marks@[r.cursor as int].node.raw,
                )
                &&& after == (UiState {
                    review: if after.marks@.len() == 0 {
                        None
                    } else {
                        Some(ReviewState { cursor: clamped(r.cursor, after.marks@.len()) })
                    },
                    marks: after.marks,
                    marked_set: after.marked_set,
                    ..*self
                })
            },
            _ => after == *self,
        }
    }

    /// Unmarks the entry under the review cursor. The list closes when that
    /// was the last mark, and its cursor stays on a mark otherwise.
    pub fn unmark_at_review_cursor(&mut self)
        requires
            old(self).wf(),
        ensures
            final(self).wf(),
            old(self).unmarks_in_review(*final(self)),
    {
        let at: usize = match self.review {
            Some(r) => r.cursor,
            None => {
                return;
            },
        };
        if at >= self.marks.len() {
            return;
        }
        self.remove_mark_at(at);
        let n: usize = self.marks.len();
        if n == 0 {
            self.review = None;
        } else {
            let cursor: usize = if at < n {
                at
            } else {
                n - 1
            };
            self.review = Some(ReviewState { cursor });
        }
    }

    /// Whether the cheatsheet is open.
    pub fn cheatsheet_open(&self) -> (r: bool)
        ensures
            r == self.cheatsheet_open,
    {
        self.cheatsheet_open
    }

    /// Opens the cheatsheet.
    pub fn open_cheatsheet(&mut self)
        ensures
            *final(self) == (UiState { cheatsheet_open: true, ..*old(self) }),
    {
        self.cheatsheet_open = true;
    }

    /// Closes the cheatsheet.
    pub fn close_cheatsheet(&mut self)
        ensures
            *final(self) == (UiState { cheatsheet_open: false, ..*old(self) }),
    {
        self.cheatsheet_open = false;
    }
}

proof fn lemma_disk_sum_prefix(marks: Seq<MarkedEntry>, n: int)
    requires
        0 <= n <= marks.len(),
    ensures
        disk_sum(marks.take(n)) <= disk_sum(marks),
    decreases marks.len(),
{
    if n < marks.len() {
        lemma_disk_sum_prefix(marks.drop_last(), n);
        assert(marks.drop_last().take(n) =~= marks.take(n));
    } else {
        assert(marks.take(n) =~= marks);
    }
}

/// Going into a directory and back up restores the cursor and the stack: the
/// child's snapshot names the directory it was opened from as its parent, and
/// the cursor is clamped to the rows that are there on return.
pub proof fn law_descend_ascend_restores(
    s0: UiState,
    s1: UiState,
    s2: UiState,
    s3: UiState,
    s4: UiState,
    child: DirId,
    parent: DirId,
    inside: Arc<ViewSnapshot>,
    back: Arc<ViewSnapshot>,
)
    requires
        s0.descends(s1, Some(child)),
        inside.dir == child,
        inside.parent == Some(s0.snapshot.dir),
        s1.adopts(s2, inside),
        s2.ascends(s3, Some(parent)),
        back.dir == parent,
        s3.adopts(s4, back),
    ensures
        parent == s0.snapshot.dir,
        s4.cursor == clamped(s0.cursor, s4.order@.len()),
        s4.stack@ == s0.stack@,
        s4.pending_nav is None,
        s4.marks@ == s0.marks@,
        s4.sort == s0.sort,
{
    assert(s3.stack@ =~= s0.stack@);
}

/// Reapplying the directory that is already shown never counts as a view
/// change, and no marks, sort or stack change with it.
pub proof fn law_live_updates_keep_the_view(s: UiState, t: UiState, snapshot: Arc<ViewSnapshot>)
    requires
        snapshot.dir == s.snapshot.dir,
        s.adopts(t, snapshot),
    ensures
        t.view_change_seq == s.view_change_seq,
        t.marks@ == s.marks@,
        t.stack@ == s.stack@,
        t.sort == s.sort,
        s.pending_nav is None ==> t.cursor == clamped(s.cursor, t.order@.len()),
{
}

/// A jump to an ancestor lands where ascending level by level would: the stack
/// holds exactly the directories above it, and it is no longer on the stack.
pub proof fn law_jump_keeps_the_ancestors(s: UiState, t: UiState, dir: DirId)
    requires
        s.jumps(t, dir, Some(dir)),
    ensures
        t.stack@.len() < s.stack@.len(),
        forall|i: int| 0 <= i < t.stack@.len() ==> (#[trigger] t.stack@[i]) == s.stack@[i],
        s.stack@[t.stack@.len() as int].0 == dir,
        s.stack@[t.stack@.len() as int].1 == t.pending_cursor,
        stack_position(t.stack@, dir) == t.stack@.len(),
{
    lemma_stack_position_bound(s.stack@, dir);
    lemma_stack_position_prefix(s.stack@, dir);
}

proof fn lemma_stack_position_prefix(stack: Seq<(DirId, usize)>, dir: DirId)
    ensures
        stack_position(stack.take(stack_position(stack, dir) as int), dir) == stack_position(
            stack,
            dir,
        ),
    decreases stack.len(),
{
    lemma_stack_position_bound(stack, dir);
    if stack.len() > 0 && stack[0].0 != dir {
        let rest = stack.drop_first();
        lemma_stack_position_prefix(rest, dir);
        lemma_stack_position_bound(rest, dir);
        let p = stack_position(stack, dir) as int;
        assert(stack.take(p).drop_first() =~= rest.take(p - 1));
    }
}

/// Whether the footer says that totals are provisional: hardlinks were seen
/// and the scan still runs.
pub fn show_hardlink_note(snapshot: &ViewSnapshot) -> (r: bool)
    ensures
        r == (snapshot.hardlink_inodes > 0 && !snapshot.stats.root_complete),
{
    snapshot.hardlink_inodes > 0 && !snapshot.stats.root_complete
}

/// Whether the footer says that the view updates slowly: it publishes on the
/// degraded cadence and the scan still runs.
pub fn show_updating_note(snapshot: &ViewSnapshot) -> (r: bool)
    ensures
        r == (snapshot.degraded && !snapshot.stats.root_complete),
{
    snapshot.degraded && !snapshot.stats.root_complete
}

/// The rows stand in the order of the sorted field, largest first if it descends;
/// rows with the same value stand by name.
pub proof fn law_rows_follow_the_sort(s: UiState, i: int, j: int)
    requires
        s.wf(),
        0 <= i < j < s.order@.len(),
    ensures
        ({
            let a = s.snapshot.rows@[s.order@[i] as int];
            let b = s.snapshot.rows@[s.order@[j] as int];
            let down = s.sort.descending;
            let named = order::lex(a.name@, b.name@) <= 0;
            match s.sort.key {
                SortKey::Disk => (if down {
                    a.disk >= b.disk
                } else {
                    a.disk <= b.disk
                }) && (a.disk == b.disk ==> named),
                SortKey::Apparent => (if down {
                    a.apparent >= b.apparent
                } else {
                    a.apparent <= b.apparent
                }) && (a.apparent == b.apparent ==> named),
                SortKey::Name => if down {
                    order::lex(a.name@, b.name@) >= 0
                } else {
                    named
                },
                SortKey::Mtime => (if down {
                    a.mtime >= b.mtime
                } else {
                    a.mtime <= b.mtime
                }) && (a.mtime == b.mtime ==> named),
                SortKey::Items => (if down {
                    a.items >= b.items
                } else {
                    a.items <= b.items
                }) && (a.items == b.items ==> named),
                SortKey::Errors => (if down {
                    a.errors >= b.errors
                } else {
                    a.errors <= b.errors
                }) && (a.errors == b.errors ==> named),
            }
        }),
{
    let o = RowOrder { rows: &s.snapshot.rows, sort: s.sort };
    assert(o.before(s.order@[i], s.order@[j]));
}

/// Every row of the viewed directory stands in the table, once.
pub proof fn law_every_row_is_listed(s: UiState, k: usize)
    requires
        s.wf(),
        k < s.snapshot.rows@.len(),
    ensures
        s.order@.len() == s.snapshot.rows@.len(),
        s.order@.contains(k),
{
    let o = RowOrder { rows: &s.snapshot.rows, sort: s.sort };
    assert(s.snapshot.rows@.len() == s.snapshot.rows.len());
    order::law_sorted_order_is_complete(s.order@, s.snapshot.rows@.len(), o, k);
}

/// Sorting by another field starts with the largest values, but with the first name.
pub proof fn law_new_sorts_start_at_the_large_end(s: SortSpec, key: SortKey)
    requires
        s.key != key,
    ensures
        s.pressed(key).descending <==> key != SortKey::Name,
{
}

/// A click on the table finds the row that is drawn there: the first line has the
/// first visible row, the next line the next one, in every column alike, and outside
/// the table there is none.
pub proof fn law_table_hits_follow_the_lines(g: TableGeometry, col: u16, row: u16)
    requires
        g.offset + g.height <= usize::MAX,
    ensures
        g.hit(col, row) is Some <==> g.x <= col && col - g.x < g.width && g.y <= row && row - g.y
            < g.height,
        g.hit(col, row) matches Some(p) ==> p - g.offset == row - g.y,
{
}

/// A click on the donut finds the row that the slice under it stands for, if any.
pub proof fn law_wheel_hits_are_targets(g: WheelGeometry, col: u16, row: u16)
    ensures
        g.hit(col, row) matches Some(p) ==> {
            &&& g.x <= col && col - g.x < g.width && g.y <= row && row - g.y < g.height
            &&& g.slice_at(col, row) matches Some(s) && s < g.targets@.len()
                && g.targets@[s as int] == Some(p)
        },
        g.slice_at(col, row) is None ==> g.hit(col, row) is None,
{
}

/// A click on the path finds the target of the first component whose columns it is
/// in, and nothing beside the components or on another line.
pub proof fn law_breadcrumb_hits_are_components(g: FrameGeometry, col: u16, row: u16)
    ensures
        row != g.breadcrumb_row ==> g.breadcrumb_at(col, row) is None,
        g.breadcrumb_at(col, row) is Some ==> exists|k: int|
            {
                &&& 0 <= k < g.breadcrumb@.len()
                &&& (#[trigger] g.breadcrumb@[k]).0 <= col < g.breadcrumb@[k].1
                &&& g.breadcrumb_at(col, row) == g.breadcrumb@[k].2
            },
        forall|k: int|
            #![trigger g.breadcrumb@[k]]
            row == g.breadcrumb_row && 0 <= k < g.breadcrumb@.len() && g.breadcrumb@[k].0 <= col
                < g.breadcrumb@[k].1 && (forall|m: int|
                0 <= m < k ==> !((#[trigger] g.breadcrumb@[m]).0 <= col < g.breadcrumb@[m].1))
                ==> g.breadcrumb_at(col, row) == g.breadcrumb@[k].2,
{
    lemma_span_target(g.breadcrumb@, col);
}

proof fn lemma_span_target(spans: Seq<(u16, u16, Option<DirId>)>, col: u16)
    ensures
        span_target(spans, col) is Some ==> exists|k: int|
            {
                &&& 0 <= k < spans.len()
                &&& (#[trigger] spans[k]).0 <= col < spans[k].1
                &&& span_target(spans, col) == spans[k].2
            },
        forall|k: int|
            #![trigger spans[k]]
            0 <= k < spans.len() && spans[k].0 <= col < spans[k].1 && (forall|m: int|
                0 <= m < k ==> !((#[trigger] spans[m]).0 <= col < spans[m].1)) ==> span_target(
                spans,
                col,
            ) == spans[k].2,
    decreases spans.len(),
{
    if spans.len() > 0 {
        let rest = spans.drop_first();
        lemma_span_target(rest, col);
        if !(spans[0].0 <= col < spans[0].1) {
            if span_target(rest, col) is Some {
                let k = choose|k: int|
                    {
                        &&& 0 <= k < rest.len()
                        &&& (#[trigger] rest[k]).0 <= col < rest[k].1
                        &&& span_target(rest, col) == rest[k].2
                    };
                assert(spans[k + 1] == rest[k]);
            }
            assert forall|k: int|
                #![trigger spans[k]]
                0 <= k < spans.len() && spans[k].0 <= col < spans[k].1 && (forall|m: int|
                    0 <= m < k ==> !((#[trigger] spans[m]).0 <= col
                        < spans[m].1)) implies span_target(spans, col) == spans[k].2 by {
                assert(rest[k - 1] == spans[k]);
                assert forall|m: int| 0 <= m < k - 1 implies !((#[trigger] rest[m]).0 <= col
                    < rest[m].1) by {
                    assert(rest[m] == spans[m + 1]);
                }
            }
        }
    }
}

/// The errors card is hit on its own cells alone.
pub proof fn law_errors_card_hits(g: FrameGeometry, col: u16, row: u16)
    ensures
        g.on_errors_card(col, row) ==> g.errors_card is Some,
        g.errors_card matches Some((x, y, w, h)) ==> (g.on_errors_card(col, row) <==> x <= col
            && col - x < w && y <= row && row - y < h),
{
}

/// The cursor stays where it is as long as there is a row, and else moves to the
/// last one.
pub proof fn law_cursor_stays_on_a_row(cursor: usize, n: nat)
    requires
        n <= usize::MAX,
    ensures
        n > 0 ==> clamped(cursor, n) < n,
        cursor < n ==> clamped(cursor, n) == cursor,
        0 < n <= cursor ==> clamped(cursor, n) == n - 1,
        n == 0 ==> clamped(cursor, n) == 0,
{
}

/// Arriving in a directory that was asked for puts the cursor where it was to be;
/// arriving in another one puts it on the first row; and news of the same one leaves
/// it. Each as far as there are rows.
pub proof fn law_cursor_after_arriving(s: UiState, t: UiState, snapshot: Arc<ViewSnapshot>)
    requires
        s.adopts(t, snapshot),
        s.wf(),
    ensures
        t.snapshot == snapshot,
        t.hover is None,
        s.pending_nav == Some(snapshot.dir) && s.pending_cursor < t.order@.len() ==> t.cursor
            == s.pending_cursor,
        s.pending_nav != Some(snapshot.dir) && snapshot.dir != s.snapshot.dir ==> t.cursor == 0,
        s.pending_nav != Some(snapshot.dir) && snapshot.dir == s.snapshot.dir && s.cursor
            < t.order@.len() ==> t.cursor == s.cursor,
        s.pending_nav == Some(snapshot.dir) ==> t.pending_nav is None,
        s.pending_nav != Some(snapshot.dir) ==> t.pending_nav == s.pending_nav,
        snapshot.dir != s.snapshot.dir ==> t.view_change_seq == s.view_change_seq + 1,
{
}

/// Opening a row asks for the row's own directory and remembers the viewed one with
/// the cursor in it; a row that is no directory, or a request that is already out,
/// changes nothing.
pub proof fn law_descending_opens_the_row(s: UiState, t: UiState, r: Option<DirId>, row: Row)
    requires
        s.wf(),
        s.descends(t, r),
        s.row_at(s.cursor) == Some(row),
    ensures
        s.pending_nav is None ==> r == row.dir,
        s.pending_nav is Some ==> r is None,
        r is None ==> t == s,
        r matches Some(d) ==> {
            &&& t.pending_nav == Some(d)
            &&& t.pending_cursor == 0
            &&& t.stack@.len() == s.stack@.len() + 1
            &&& t.stack@.last().0 == s.snapshot.dir
            &&& t.stack@.last().1 == s.cursor
            &&& t.stack@.drop_last() == s.stack@
            &&& t.marks@ == s.marks@
        },
{
}

/// Going up asks for the parent; at the root there is nowhere to go.
pub proof fn law_ascending_asks_for_the_parent(s: UiState, t: UiState, r: Option<DirId>)
    requires
        s.ascends(t, r),
    ensures
        s.pending_nav is None ==> r == s.snapshot.parent,
        s.pending_nav is Some || s.snapshot.parent is None ==> r is None && t == s,
        r is Some ==> t.pending_nav == s.snapshot.parent && t.marks@ == s.marks@,
        t.stack@.len() <= s.stack@.len() <= t.stack@.len() + 1,
{
}

/// Nothing can be marked while the scan runs, and no excluded mount point ever;
/// everything else can. A refusal changes nothing.
pub proof fn law_marking_is_refused_only_where_it_must(
    s: UiState,
    t: UiState,
    r: Result<(), MarkRefusal>,
)
    requires
        s.wf(),
        s.toggles_mark(t, r),
    ensures
        !s.snapshot.stats.root_complete <==> r == Err::<(), MarkRefusal>(MarkRefusal::ScanRunning),
        r == Err::<(), MarkRefusal>(MarkRefusal::MountPoint) <==> s.snapshot.stats.root_complete && (
        s.row_at(s.cursor) matches Some(row) && row.is_dir && row.dir is None),
        r is Err ==> t == s,
{
}

/// Marking a row adds that row to the marks, behind the others, with its own path and
/// its own disk size, and moves on to the next row.
pub proof fn law_a_mark_is_the_row(s: UiState, t: UiState, row: Row)
    requires
        s.wf(),
        s.toggles_mark(t, Ok(())),
        s.row_at(s.cursor) == Some(row),
        !s.marked_set@.contains(row.node.raw),
        row.name@.len() > 0 && row.name@[0] != 47,
    ensures
        t.marks@.len() == s.marks@.len() + 1,
        forall|i: int| 0 <= i < s.marks@.len() ==> #[trigger] t.marks@[i] == s.marks@[i],
        t.marks@.last().node == row.node,
        t.marks@.last().disk == row.disk,
        t.marks@.last().is_dir == row.is_dir,
        t.marks@.last().path@.take(s.snapshot.path@.len() as int) == s.snapshot.path@,
        t.marks@.last().path@.skip(t.marks@.last().path@.len() - row.name@.len()) == row.name@,
        disk_sum(t.marks@) == disk_sum(s.marks@) + row.disk,
        t.cursor == s.cursor + 1 || t.cursor == s.cursor == s.order@.len() - 1,
{
    paths::law_joined_paths_hold_both(s.snapshot.path@, row.name@);
    assert forall|i: int| 0 <= i < s.marks@.len() implies #[trigger] t.marks@[i] == s.marks@[i] by {
        assert(t.marks@.drop_last()[i] == s.marks@[i]);
    }
}

/// Marking a row again takes its mark back, and no other.
pub proof fn law_marking_again_unmarks(s: UiState, t: UiState, back: UiState, u: UiState, row: Row)
    requires
        s.wf(),
        s.toggles_mark(t, Ok(())),
        s.row_at(s.cursor) == Some(row),
        !s.marked_set@.contains(row.node.raw),
        t.wf(),
        back == (UiState { cursor: s.cursor, ..t }),
        back.toggles_mark(u, Ok(())),
    ensures
        u.marks@ == s.marks@,
        !u.marked_set@.contains(row.node.raw),
{
    assert(back.row_at(back.cursor) == Some(row));
    assert(back.marked_set@.contains(row.node.raw));
    let k = choose|k: int|
        0 <= k < back.marks@.len() && back.marks@[k].node == row.node && u.marks@
            == #[trigger] back.marks@.remove(k);
    let last = t.marks@.len() - 1;
    assert(t.marks@[last].node == row.node);
    if k < last {
        assert(t.marks@[k].node != t.marks@[last].node);
    }
    assert(u.marks@ =~= t.marks@.drop_last());
}

/// The marked bytes are those of the marks: taking one out takes out its own.
pub proof fn law_marked_bytes_add_up(marks: Seq<MarkedEntry>, k: int)
    requires
        0 <= k < marks.len(),
    ensures
        disk_sum(marks) == disk_sum(marks.remove(k)) + marks[k].disk,
    decreases marks.len(),
{
    if k == marks.len() - 1 {
        assert(marks.remove(k) =~= marks.drop_last());
    } else {
        law_marked_bytes_add_up(marks.drop_last(), k);
        assert(marks.remove(k).drop_last() =~= marks.drop_last().remove(k));
        assert(marks.remove(k).last() == marks.last());
    }
}

/// The review takes out the mark under its cursor and keeps the others in their
/// order; it closes with the last one.
pub proof fn law_review_unmarks_its_row(s: UiState, t: UiState, c: usize)
    requires
        s.wf(),
        s.review == Some(ReviewState { cursor: c }),
        c < s.marks@.len(),
        s.unmarks_in_review(t),
    ensures
        t.marks@.len() == s.marks@.len() - 1,
        forall|i: int| 0 <= i < c ==> #[trigger] t.marks@[i] == s.marks@[i],
        forall|i: int| c <= i < t.marks@.len() ==> #[trigger] t.marks@[i] == s.marks@[i + 1],
        !t.marked_set@.contains(s.marks@[c as int].node.raw),
        t.review is None <==> s.marks@.len() == 1,
        t.review matches Some(r) ==> r.cursor < t.marks@.len() && (r.cursor == c || r.cursor + 1
            == c),
{
}

} // verus!
