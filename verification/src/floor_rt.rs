//! The exclusive floor: how much of each row is held by it alone. When a pass
//! over the tree starts, which results still count, and what rows show of them.

use crate::double;
use crate::double::Double;
use crate::fmt;
use crate::fmt::{humanize_age, share_of};
use crate::model::{DirId, NodeId, Row};
use crate::size;
use crate::size::push_human;
use crate::text;
use crate::text::{copy_str, dec_string, push_dec};
use std::collections::HashMap;
use vstd::prelude::*;
use vstd::string::*;

verus! {

broadcast use vstd::std_specs::hash::group_hash_axioms;

/// What a pass over the tree found.
#[derive(Debug)]
pub struct FloorMap {
    /// Whether the pass produced any figure at all.
    pub produced: bool,
    pub dirs: HashMap<u32, u64>,
    pub nodes: HashMap<u32, u64>,
    /// Whether any mapped file lies on a compressed mount.
    pub compressed: bool,
    pub mapped: u64,
    pub unmapped: u64,
}

impl FloorMap {
    /// A directory's floor: zero where the pass found nothing under it.
    pub open spec fn floor_of_dir(&self, dir: DirId) -> Option<u64> {
        if !self.produced {
            None
        } else if self.dirs@.dom().contains(dir.raw) {
            Some(self.dirs@[dir.raw])
        } else {
            Some(0)
        }
    }

    /// A directory's floor.
    pub fn dir_floor(&self, dir: DirId) -> (r: Option<u64>)
        ensures
            r == self.floor_of_dir(dir),
    {
        if !self.produced {
            return None;
        }
        match self.dirs.get(&dir.raw) {
            Some(bytes) => Some(*bytes),
            None => Some(0),
        }
    }

    /// A file's floor, where it has a figure.
    pub open spec fn floor_of_node(&self, node: NodeId) -> Option<u64> {
        if self.nodes@.dom().contains(node.raw) {
            Some(self.nodes@[node.raw])
        } else {
            None
        }
    }

    /// A file's floor.
    pub fn node_floor(&self, node: NodeId) -> (r: Option<u64>)
        ensures
            r == self.floor_of_node(node),
    {
        match self.nodes.get(&node.raw) {
            Some(bytes) => Some(*bytes),
            None => None,
        }
    }

    /// A row's floor: a directory that was descended into has that of its
    /// subtree, anything else its own.
    pub open spec fn floor_of_row(&self, row: Row) -> Option<u64> {
        match row.dir {
            Some(dir) => self.floor_of_dir(dir),
            None => self.floor_of_node(row.node),
        }
    }
}

/// A row's floor.
pub fn row_floor(floor: &FloorMap, row: &Row) -> (r: Option<u64>)
    ensures
        r == floor.floor_of_row(*row),
{
    match row.dir {
        Some(dir) => floor.dir_floor(dir),
        None => floor.node_floor(row.node),
    }
}

/// How many characters of a text are no spaces.
pub open spec fn filled_cells(s: Seq<char>) -> nat
    decreases s.len(),
{
    if s.len() == 0 {
        0
    } else {
        filled_cells(s.drop_last()) + (if s.last() != ' ' {
            1nat
        } else {
            0nat
        })
    }
}

/// The share of a row's disk bytes that its floor takes, at most all of them.
pub open spec fn floor_share(floor: u64, disk: u64) -> Double {
    if fmt::share(floor, disk).above_one() {
        double::one()
    } else {
        fmt::share(floor, disk)
    }
}

/// How many cells of a bar are bright: of its filled ones, as many as the floor
/// takes of the row's disk bytes.
pub open spec fn bright_cells(bar: Seq<char>, floor: Option<u64>, disk: u64) -> nat {
    match floor {
        None => 0,
        Some(f) => if f == 0 || disk == 0 || filled_cells(bar) == 0 {
            0
        } else {
            let n = double::product(
                floor_share(f, disk),
                double::int_double(filled_cells(bar)),
            ).to_int_up();
            if n < filled_cells(bar) {
                n
            } else {
                filled_cells(bar)
            }
        },
    }
}

fn count_filled(bar: &[char]) -> (n: usize)
    ensures
        n == filled_cells(bar@),
        n <= bar@.len(),
{
    let mut n: usize = 0;
    let mut i: usize = 0;
    assert(bar@.take(0) =~= Seq::empty());
    while i < bar.len()
        invariant
            i <= bar@.len(),
            n <= i,
            n == filled_cells(bar@.take(i as int)),
        decreases bar@.len() - i,
    {
        proof {
            assert(bar@.take(i + 1).drop_last() =~= bar@.take(i as int));
            assert(bar@.take(i + 1).last() == bar@[i as int]);
        }
        if bar[i] != ' ' {
            n = n + 1;
        }
        i = i + 1;
    }
    assert(bar@.take(i as int) =~= bar@);
    n
}

/// Where a bar's bright cells end. A row without a figure, and one that shares
/// everything, has none.
pub fn bright_split(bar: &str, floor_bytes: Option<u64>, row_disk: u64) -> (n: usize)
    ensures
        n == bright_cells(bar@, floor_bytes, row_disk),
        n <= filled_cells(bar@),
{
    let cells = text::chars_of(bar);
    let filled: usize = count_filled(cells.as_slice());
    let floor: u64 = match floor_bytes {
        None => {
            return 0;
        },
        Some(f) => f,
    };
    if floor == 0 || row_disk == 0 || filled == 0 {
        return 0;
    }
    let mut x = share_of(floor, row_disk);
    proof {
        double::lemma_one_is_not_above();
    }
    if x.exceeds_one() {
        x = Double { mant: 4503599627370496, exp: -52 };
    }
    assert(x == floor_share(floor, row_disk));
    let u = Double::of_int(filled as u64);
    proof {
        double::lemma_above_one_from_exponent(x);
    }
    let p = x.mul(&u);
    let n: u128 = p.round_int_up();
    if n < filled as u128 {
        n as usize
    } else {
        filled
    }
}

/// What is said while the extents are being mapped.
pub fn progress_line(files: u64) -> (s: String)
    ensures
        s@ == "mapping extents… "@ + text::dec(files as nat) + " files"@,
{
    let mut s = copy_str("mapping extents… ");
    push_dec(&mut s, files as u128);
    s.append(" files");
    s
}

/// How long ago something was, for a time in nanoseconds.
pub fn humanize_elapsed(elapsed: u64) -> (s: String)
    ensures
        s@ == fmt::age((elapsed / 1_000_000_000) as int),
{
    humanize_age((elapsed / 1_000_000_000) as i64, 0)
}

/// The card's first line about a row's floor.
pub open spec fn floor_figure(floor: u64, elapsed: u64) -> Seq<char> {
    if floor > 0 {
        "excl ≥ "@ + size::human(floor) + " · mapped "@ + fmt::age(
            (elapsed / 1_000_000_000) as int,
        )
    } else {
        "fully shared · mapped "@ + fmt::age((elapsed / 1_000_000_000) as int)
    }
}

/// The card's lines about a row's floor: the figure, and at most one caveat;
/// none where there is nothing to say.
pub open spec fn floor_lines(
    floor: Option<u64>,
    disk: u64,
    compressed: bool,
    unmapped: u64,
    elapsed: u64,
) -> Seq<Seq<char>> {
    match floor {
        None => seq![],
        Some(f) => if f == 0 && disk == 0 {
            seq![]
        } else {
            let figure = seq![floor_figure(f, elapsed)];
            if compressed {
                figure.push(
                    "logical bytes — compressed mount: physical reclaim may be smaller"@,
                )
            } else if unmapped > 0 {
                figure.push(
                    text::dec(unmapped as nat) + " file(s) unmapped — floor understates"@,
                )
            } else {
                figure
            }
        },
    }
}

fn figure_line(floor: u64, elapsed: u64) -> (s: String)
    ensures
        s@ == floor_figure(floor, elapsed),
{
    let mut s = if floor > 0 {
        let mut s = copy_str("excl ≥ ");
        push_human(&mut s, floor);
        s.append(" · mapped ");
        s
    } else {
        copy_str("fully shared · mapped ")
    };
    s.append(humanize_elapsed(elapsed).as_str());
    s
}

/// The selection card's lines about a row's floor, some nanoseconds after the
/// pass.
pub fn card_lines(floor: &FloorMap, row: &Row, elapsed: u64) -> (lines: Vec<String>)
    ensures
        text::texts(lines@) == floor_lines(
            floor.floor_of_row(*row),
            row.disk,
            floor.compressed,
            floor.unmapped,
            elapsed,
        ),
{
    let mut lines: Vec<String> = Vec::new();
    let f: u64 = match row_floor(floor, row) {
        None => {
            assert(text::texts(lines@) =~= seq![]);
            return lines;
        },
        Some(f) => f,
    };
    if f == 0 && row.disk == 0 {
        assert(text::texts(lines@) =~= seq![]);
        return lines;
    }
    lines.push(figure_line(f, elapsed));
    if floor.compressed {
        lines.push(
            copy_str("logical bytes — compressed mount: physical reclaim may be smaller"),
        );
    } else if floor.unmapped > 0 {
        let mut s = dec_string(floor.unmapped as u128);
        s.append(" file(s) unmapped — floor understates");
        lines.push(s);
    }
    assert(text::texts(lines@) =~= floor_lines(
        floor.floor_of_row(*row),
        row.disk,
        floor.compressed,
        floor.unmapped,
        elapsed,
    ));
    lines
}

/// A pass to run.
#[derive(Debug, Clone, Copy, PartialEq, Eq, Structural)]
pub enum Pass {
    /// Map every file of the tree.
    Full(u64),
    /// Add up the figures of an earlier pass again.
    Reaggregate(u64),
}

/// The result of a pass; a cancelled one has no map.
#[derive(Debug)]
pub struct FloorMessage {
    pub generation: u64,
    pub map: Option<FloorMap>,
}

/// The state of the passes.
#[derive(Debug, Clone, Copy, PartialEq, Eq, Structural)]
pub struct FloorRuntime {
    /// No pass ever runs without it.
    pub enabled: bool,
    /// Counts the passes that were started.
    pub generation: u64,
    /// Whether a pass runs.
    pub in_flight: bool,
    /// Whether the running pass was told to stop.
    pub cancelled: bool,
}

/// The last of some results that belongs to a pass.
pub open spec fn last_of(msgs: Seq<FloorMessage>, generation: u64) -> Option<FloorMessage>
    decreases msgs.len(),
{
    if msgs.len() == 0 {
        None
    } else if msgs.last().generation == generation {
        Some(msgs.last())
    } else {
        last_of(msgs.drop_last(), generation)
    }
}

impl FloorRuntime {
    /// No pass has run.
    pub fn new(enabled: bool) -> (rt: FloorRuntime)
        ensures
            rt == (FloorRuntime { enabled, generation: 0, in_flight: false, cancelled: false }),
    {
        FloorRuntime { enabled, generation: 0, in_flight: false, cancelled: false }
    }

    /// Whether a pass runs.
    pub fn has_pending(&self) -> (r: bool)
        ensures
            r == self.in_flight,
    {
        self.in_flight
    }

    /// The running pass's count of files, for the status line; absent when none
    /// runs.
    pub fn progress(&self, files: u64) -> (r: Option<u64>)
        ensures
            r == (if self.in_flight {
                Some(files)
            } else {
                None
            }),
    {
        if self.in_flight {
            Some(files)
        } else {
            None
        }
    }

    /// The state with one more pass started.
    pub open spec fn started(self) -> FloorRuntime {
        FloorRuntime {
            generation: (self.generation + 1) as u64,
            in_flight: true,
            cancelled: false,
            ..self
        }
    }

    /// The state with the running pass over.
    pub open spec fn finished(self) -> FloorRuntime {
        FloorRuntime { in_flight: false, cancelled: false, ..self }
    }

    fn start(&mut self) -> (generation: u64)
        requires
            old(self).generation < u64::MAX,
        ensures
            *final(self) == old(self).started(),
            generation == old(self).generation + 1,
    {
        self.generation = self.generation + 1;
        self.in_flight = true;
        self.cancelled = false;
        self.generation
    }

    /// Takes note that the running pass is over, or could not be started.
    pub fn finish(&mut self)
        ensures
            *final(self) == old(self).finished(),
    {
        self.in_flight = false;
        self.cancelled = false;
    }

    /// Starts a pass over the whole tree, unless one runs.
    pub fn spawn_full(&mut self) -> (r: Option<Pass>)
        requires
            old(self).generation < u64::MAX,
        ensures
            !old(self).enabled || old(self).in_flight ==> r is None && *final(self) == *old(self),
            old(self).enabled && !old(self).in_flight ==> *final(self) == old(self).started() && r
                == Some(Pass::Full(final(self).generation)),
    {
        if !self.enabled || self.in_flight {
            return None;
        }
        Some(Pass::Full(self.start()))
    }

    /// Tells the running pass to stop, before a deletion needs the tree; `true`
    /// if there is one.
    pub fn cancel_for_deletion(&mut self) -> (r: bool)
        ensures
            r == old(self).in_flight,
            *final(self) == (FloorRuntime {
                cancelled: old(self).cancelled || old(self).in_flight,
                ..*old(self)
            }),
    {
        if self.in_flight {
            self.cancelled = true;
        }
        self.in_flight
    }

    /// Starts the pass after a deletion, whether or not one runs: the figures of
    /// an earlier pass are added up again where there are some.
    pub fn respawn_after_deletion(&mut self, has_map: bool) -> (r: Option<Pass>)
        requires
            old(self).generation < u64::MAX,
        ensures
            !old(self).enabled ==> r is None && *final(self) == *old(self),
            old(self).enabled ==> *final(self) == old(self).started() && r == Some(
                if has_map {
                    Pass::Reaggregate(final(self).generation)
                } else {
                    Pass::Full(final(self).generation)
                },
            ),
    {
        if !self.enabled {
            return None;
        }
        let generation: u64 = self.start();
        if has_map {
            Some(Pass::Reaggregate(generation))
        } else {
            Some(Pass::Full(generation))
        }
    }

    /// Takes in the results that arrived. Only those of the pass that was
    /// started last count.
    pub fn poll(&mut self, arrived: Vec<FloorMessage>) -> (r: Option<FloorMap>)
        ensures
            match last_of(arrived@, old(self).generation) {
                None => r is None && *final(self) == *old(self),
                Some(m) => r == m.map && *final(self) == old(self).finished(),
            },
    {
        let mut msgs = arrived;
        while msgs.len() > 0
            invariant
                last_of(arrived@, self.generation) == last_of(msgs@, self.generation),
                *self == *old(self),
            decreases msgs@.len(),
        {
            let ghost before = msgs@;
            let m = match msgs.pop() {
                Some(m) => m,
                None => {
                    return None;
                },
            };
            if m.generation == self.generation {
                self.finish();
                return m.map;
            }
            assert(msgs@ =~= before.drop_last());
        }
        None
    }
}

/// A pass that a deletion stopped never leaves the floor stalled: the next one
/// starts at once, and the stopped one's result no longer counts.
pub proof fn law_deletion_restarts_the_pass(rt: FloorRuntime, msgs: Seq<FloorMessage>)
    requires
        rt.enabled,
        rt.generation < u64::MAX,
        forall|i: int|
            0 <= i < msgs.len() ==> (#[trigger] msgs[i]).generation <= rt.generation,
    ensures
        rt.started().in_flight,
        last_of(msgs, rt.started().generation) is None,
    decreases msgs.len(),
{
    if msgs.len() > 0 {
        let m = msgs[msgs.len() - 1];
        assert(msgs.last() == m);
        let rest = msgs.drop_last();
        assert forall|i: int| 0 <= i < rest.len() implies (#[trigger] rest[i]).generation
            <= rt.generation by {
            assert(msgs[i].generation <= rt.generation);
        }
        law_deletion_restarts_the_pass(rt, rest);
    }
}

/// Every pass has a number of its own.
pub proof fn law_passes_are_numbered(rt: FloorRuntime)
    requires
        rt.generation < u64::MAX,
    ensures
        rt.started().generation > rt.generation,
        rt.started().finished().generation > rt.generation,
{
}

/// A directory's floor is looked up by the directory, a file's by its node; without any
/// figure nothing is known of a directory, and with one a directory that has none is
/// fully shared. A file without a figure stays unknown.
pub proof fn law_floors_are_looked_up(m: FloorMap, row: Row)
    ensures
        row.dir matches Some(d) ==> m.produced && m.dirs@.dom().contains(d.raw)
            ==> m.floor_of_row(row) == Some(m.dirs@[d.raw]),
        row.dir matches Some(d) ==> m.produced && !m.dirs@.dom().contains(d.raw)
            ==> m.floor_of_row(row) == Some(0u64),
        row.dir is Some && !m.produced ==> m.floor_of_row(row) is None,
        row.dir is None && m.nodes@.dom().contains(row.node.raw) ==> m.floor_of_row(row) == Some(
            m.nodes@[row.node.raw],
        ),
        row.dir is None && !m.nodes@.dom().contains(row.node.raw) ==> m.floor_of_row(row) is None,
{
}

/// The filled cells of a bar are those that are not blank.
pub proof fn law_filled_cells_are_counted(a: Seq<char>, c: char)
    ensures
        filled_cells(a.push(c)) == filled_cells(a) + (if c == ' ' {
            0int
        } else {
            1
        }),
        filled_cells(a) <= a.len(),
    decreases a.len(),
{
    assert(a.push(c).drop_last() =~= a);
    if a.len() > 0 {
        law_filled_cells_are_counted(a.drop_last(), c);
    }
}

/// No more of a bar is bright than is filled, and nothing without a figure, for a fully
/// shared row or for an empty one.
pub proof fn law_bright_cells_are_filled(bar: Seq<char>, floor: Option<u64>, disk: u64)
    ensures
        bright_cells(bar, floor, disk) <= filled_cells(bar),
        floor is None || floor == Some(0u64) || disk == 0 ==> bright_cells(bar, floor, disk) == 0,
        floor is Some && floor.unwrap() > 0 && disk > 0 && filled_cells(bar) > 0 && double::product(
            floor_share(floor.unwrap(), disk),
            double::int_double(filled_cells(bar)),
        ).to_int_up() <= filled_cells(bar) ==> bright_cells(bar, floor, disk) == double::product(
            floor_share(floor.unwrap(), disk),
            double::int_double(filled_cells(bar)),
        ).to_int_up(),
{
}

/// The card tells the floor, and that a row without one is fully shared; a compressed
/// mount or files that were not mapped are told behind it, and nothing is told without
/// a figure.
pub proof fn law_floor_card_tells_the_figure(
    floor: Option<u64>,
    disk: u64,
    compressed: bool,
    unmapped: u64,
    elapsed: u64,
)
    ensures
        ({
            let lines = floor_lines(floor, disk, compressed, unmapped, elapsed);
            let known = floor is Some && (floor.unwrap() > 0 || disk > 0);
            &&& !known ==> lines.len() == 0
            &&& known && floor.unwrap() > 0 ==> text::starts_with(
                lines[0],
                "excl ≥ "@ + size::human(floor.unwrap()),
            )
            &&& known && floor.unwrap() == 0 ==> text::starts_with(lines[0], "fully shared"@)
            &&& known ==> text::ends_with(
                lines[0],
                " · mapped "@ + fmt::age((elapsed / 1_000_000_000) as int),
            )
            &&& known ==> lines.len() == (if compressed || unmapped > 0 {
                2int
            } else {
                1
            })
            &&& known && !compressed && unmapped > 0 ==> text::starts_with(
                lines[1],
                text::dec(unmapped as nat),
            )
            &&& known && compressed ==> text::starts_with(lines[1], "logical bytes"@)
        }),
{
    if floor is Some {
        let f = floor.unwrap();
        let age = fmt::age((elapsed / 1_000_000_000) as int);
        let head = "excl ≥ "@ + size::human(f);
        text::lemma_itself(head);
        text::lemma_extend_by(head, head, " · mapped "@, age);
        text::lemma_side_by_side(head, " · mapped "@, age);
        reveal_strlit("fully shared · mapped ");
        reveal_strlit("fully shared");
        reveal_strlit(" · mapped ");
        assert("fully shared · mapped "@ =~= "fully shared"@ + " · mapped "@);
        text::lemma_itself("fully shared"@);
        text::lemma_extend_by("fully shared"@, "fully shared"@, " · mapped "@, age);
        text::lemma_side_by_side("fully shared"@, " · mapped "@, age);
        text::lemma_ends(text::dec(unmapped as nat), " file(s) unmapped — floor understates"@);
        reveal_strlit("logical bytes — compressed mount: physical reclaim may be smaller");
        reveal_strlit("logical bytes");
        assert("logical bytes — compressed mount: physical reclaim may be smaller"@.take(13)
            =~= "logical bytes"@);
    }
}

/// Of the results of a pass the newest counts, and none of another pass.
pub proof fn law_newest_result_counts(msgs: Seq<FloorMessage>, generation: u64)
    ensures
        last_of(msgs, generation) matches Some(m) ==> m.generation == generation && msgs.contains(m),
        last_of(msgs, generation) is None <==> forall|i: int|
            0 <= i < msgs.len() ==> (#[trigger] msgs[i]).generation != generation,
        msgs.len() > 0 && msgs.last().generation == generation ==> last_of(msgs, generation)
            == Some(msgs.last()),
    decreases msgs.len(),
{
    if msgs.len() > 0 {
        let rest = msgs.drop_last();
        law_newest_result_counts(rest, generation);
        if msgs.last().generation != generation {
            if last_of(rest, generation) is Some {
                let m = last_of(rest, generation).unwrap();
                let i = choose|i: int| 0 <= i < rest.len() && rest[i] == m;
                assert(msgs[i] == m);
            } else {
                assert forall|i: int| 0 <= i < msgs.len() implies (#[trigger] msgs[i]).generation
                    != generation by {
                    if i < rest.len() {
                        assert(rest[i] == msgs[i]);
                    }
                }
            }
        } else {
            assert(msgs.contains(msgs.last()));
        }
    }
}

/// A pass that starts runs, and one that is over does not.
pub proof fn law_passes_run_until_over(rt: FloorRuntime)
    ensures
        rt.started().in_flight && !rt.started().cancelled,
        !rt.finished().in_flight && !rt.finished().cancelled,
        rt.started().enabled == rt.enabled,
        rt.finished().enabled == rt.enabled,
        rt.finished().generation == rt.generation,
{
}

} // verus!
