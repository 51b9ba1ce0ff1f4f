//! The session-long state behind the reclaim estimate: which marks have a job
//! out, which results count when they land, and what is cached.

use crate::model::NodeId;
use crate::oracle;
use crate::oracle::{assemble, Facts, Gathered, HardlinkGroup};
use crate::oracle_job::{FsTier, MarkFiles};
use std::collections::{HashMap, HashSet};
use vstd::prelude::*;

verus! {

broadcast use vstd::std_specs::hash::group_hash_axioms;

/// One job's result, tagged with what it was started for.
#[derive(Debug)]
pub struct JobMessage {
    pub epoch: u64,
    pub mark_node: u32,
    pub serial: u64,
    pub files: MarkFiles,
    /// Inodes that the job tried to map, with whether it could.
    pub new_maps: Vec<(u128, bool)>,
    pub new_dev_tiers: Vec<(u64, FsTier)>,
    pub new_dev_compressed: Vec<(u64, bool)>,
}

/// The estimate's state as values.
#[verifier::ext_equal]
pub struct OracleState {
    pub disabled: bool,
    pub old_kernel: bool,
    pub next_serial: nat,
    pub pending: Map<u32, u64>,
    pub results: Map<u32, MarkFiles>,
    pub known_maps: Map<u128, bool>,
    pub dev_tier: Map<u64, FsTier>,
    pub dev_compressed: Map<u64, bool>,
}

/// The estimate's session-long state.
#[derive(Debug)]
pub struct OracleRuntime {
    /// No job is ever started.
    pub disabled: bool,
    pub old_kernel: bool,
    pub next_serial: u64,
    /// The serial of the outstanding job of a mark.
    pub pending: HashMap<u32, u64>,
    /// Landed results of the current epoch.
    pub results: HashMap<u32, MarkFiles>,
    /// Inodes whose extents were asked for, with whether they could be mapped.
    pub known_maps: HashMap<u128, bool>,
    pub dev_tier: HashMap<u64, FsTier>,
    pub dev_compressed: HashMap<u64, bool>,
}

/// A map with the entries of a list that it does not have yet.
pub open spec fn merged<K, V>(m: Map<K, V>, list: Seq<(K, V)>) -> Map<K, V>
    decreases list.len(),
{
    if list.len() == 0 {
        m
    } else {
        let before = merged(m, list.drop_last());
        let (k, v) = list.last();
        if before.dom().contains(k) {
            before
        } else {
            before.insert(k, v)
        }
    }
}

impl OracleState {
    /// Nothing started and nothing known.
    pub open spec fn blank(disabled: bool, old_kernel: bool) -> OracleState {
        OracleState {
            disabled,
            old_kernel,
            next_serial: 0,
            pending: Map::empty(),
            results: Map::empty(),
            known_maps: Map::empty(),
            dev_tier: Map::empty(),
            dev_compressed: Map::empty(),
        }
    }

    /// The state after a row was marked.
    pub open spec fn marked(self, node: u32) -> OracleState {
        if self.disabled {
            self
        } else {
            OracleState {
                next_serial: self.next_serial + 1,
                pending: self.pending.insert(node, (self.next_serial + 1) as u64),
                results: self.results.remove(node),
                ..self
            }
        }
    }

    /// The state after the job with a serial could not be started: a mark never
    /// waits for a job that does not run.
    pub open spec fn unstarted(self, node: u32, serial: u64) -> OracleState {
        if self.pending.dom().contains(node) && self.pending[node] == serial {
            OracleState { pending: self.pending.remove(node), ..self }
        } else {
            self
        }
    }

    /// The state after a row was unmarked; what is known of inodes and devices
    /// stays.
    pub open spec fn unmarked(self, node: u32) -> OracleState {
        OracleState {
            pending: self.pending.remove(node),
            results: self.results.remove(node),
            ..self
        }
    }

    /// The state after every mark was cleared.
    pub open spec fn cleared(self) -> OracleState {
        OracleState { pending: Map::empty(), results: Map::empty(), ..self }
    }

    /// The state after a deletion: nothing that was known holds any more.
    pub open spec fn forgotten(self) -> OracleState {
        OracleState {
            known_maps: Map::empty(),
            dev_tier: Map::empty(),
            dev_compressed: Map::empty(),
            ..self.cleared()
        }
    }

    /// The state after a result landed. One of another epoch changes nothing;
    /// one of an earlier job, or for a row that is no longer marked, only adds
    /// to what is known of inodes and devices.
    pub open spec fn landed(self, msg: JobMessage, epoch: u64, marked: Set<u32>) -> OracleState {
        if msg.epoch != epoch {
            self
        } else {
            let wiser = OracleState {
                known_maps: merged(self.known_maps, msg.new_maps@),
                dev_tier: merged(self.dev_tier, msg.new_dev_tiers@),
                dev_compressed: merged(self.dev_compressed, msg.new_dev_compressed@),
                ..self
            };
            let node = msg.mark_node;
            if !self.pending.dom().contains(node) || self.pending[node] != msg.serial {
                wiser
            } else {
                OracleState {
                    pending: self.pending.remove(node),
                    results: if marked.contains(node) {
                        self.results.insert(node, msg.files)
                    } else {
                        self.results
                    },
                    ..wiser
                }
            }
        }
    }

    /// The state after some results landed, in order.
    pub open spec fn all_landed(
        self,
        msgs: Seq<JobMessage>,
        epoch: u64,
        marked: Set<u32>,
    ) -> OracleState
        decreases msgs.len(),
    {
        if msgs.len() == 0 {
            self
        } else {
            self.all_landed(msgs.drop_last(), epoch, marked).landed(msgs.last(), epoch, marked)
        }
    }

    /// Whether no marked row has a job out.
    pub open spec fn settled(self, marks: Seq<NodeId>) -> bool {
        forall|i: int|
            0 <= i < marks.len() ==> !self.pending.dom().contains((#[trigger] marks[i]).raw)
    }
}

impl View for OracleRuntime {
    type V = OracleState;

    open spec fn view(&self) -> OracleState {
        OracleState {
            disabled: self.disabled,
            old_kernel: self.old_kernel,
            next_serial: self.next_serial as nat,
            pending: self.pending@,
            results: self.results@,
            known_maps: self.known_maps@,
            dev_tier: self.dev_tier@,
            dev_compressed: self.dev_compressed@,
        }
    }
}

/// What the confirmation shows, as far as it can be told before the extent
/// correlation reports.
#[derive(Debug)]
pub enum SlotPlan {
    Disabled,
    Pending,
    /// Correlate this selection.
    Correlate(Gathered),
}

/// Adds the entries of a list that a map does not have yet.
fn merge<K: Copy + Eq + std::hash::Hash, V: Copy>(m: &mut HashMap<K, V>, list: &Vec<(K, V)>)
    requires
        vstd::std_specs::hash::obeys_key_model::<K>(),
    ensures
        final(m)@ == merged(old(m)@, list@),
{
    let mut i: usize = 0;
    let ghost before = m@;
    assert(list@.take(0) =~= Seq::empty());
    while i < list.len()
        invariant
            i <= list@.len(),
            vstd::std_specs::hash::obeys_key_model::<K>(),
            m@ == merged(before, list@.take(i as int)),
        decreases list@.len() - i,
    {
        proof {
            assert(list@.take(i + 1).drop_last() =~= list@.take(i as int));
            assert(list@.take(i + 1).last() == list@[i as int]);
        }
        let (k, v) = list[i];
        if !m.contains_key(&k) {
            m.insert(k, v);
        }
        i = i + 1;
    }
    assert(list@.take(i as int) =~= list@);
}

impl OracleRuntime {
    /// Nothing started and nothing known. The kernel's sharing bit only matters
    /// where jobs run.
    pub fn new(disabled: bool, shared_bit_reliable: bool) -> (rt: OracleRuntime)
        ensures
            rt@ == OracleState::blank(disabled, !disabled && !shared_bit_reliable),
    {
        let rt = OracleRuntime {
            disabled,
            old_kernel: !disabled && !shared_bit_reliable,
            next_serial: 0,
            pending: HashMap::new(),
            results: HashMap::new(),
            known_maps: HashMap::new(),
            dev_tier: HashMap::new(),
            dev_compressed: HashMap::new(),
        };
        assert(rt@ =~= OracleState::blank(disabled, !disabled && !shared_bit_reliable));
        rt
    }

    /// Takes note of a new mark. The result is the serial of the job to start;
    /// absent when switched off.
    pub fn mark_added(&mut self, node: u32) -> (serial: Option<u64>)
        requires
            old(self).next_serial < u64::MAX,
        ensures
            final(self)@ == old(self)@.marked(node),
            serial == (if old(self).disabled {
                None
            } else {
                Some((old(self).next_serial + 1) as u64)
            }),
    {
        if self.disabled {
            return None;
        }
        self.results.remove(&node);
        self.next_serial = self.next_serial + 1;
        self.pending.insert(node, self.next_serial);
        assert(self@ =~= old(self)@.marked(node));
        Some(self.next_serial)
    }

    /// Takes note that the job of a mark could not be started: the mark is
    /// not waited for, and its files are absent from the estimate.
    pub fn start_failed(&mut self, node: u32, serial: u64)
        ensures
            final(self)@ == old(self)@.unstarted(node, serial),
    {
        let outstanding: bool = match self.pending.get(&node) {
            Some(s) => *s == serial,
            None => false,
        };
        if outstanding {
            self.pending.remove(&node);
        }
        assert(self@ =~= old(self)@.unstarted(node, serial));
    }

    /// Takes note that a mark is gone.
    pub fn mark_removed(&mut self, node: u32)
        ensures
            final(self)@ == old(self)@.unmarked(node),
    {
        self.results.remove(&node);
        self.pending.remove(&node);
        assert(self@ =~= old(self)@.unmarked(node));
    }

    /// Takes note that every mark is gone.
    pub fn clear_marks(&mut self)
        ensures
            final(self)@ == old(self)@.cleared(),
    {
        self.results.clear();
        self.pending.clear();
        assert(self@ =~= old(self)@.cleared());
    }

    /// Takes note of a deletion.
    pub fn on_deletion(&mut self)
        ensures
            final(self)@ == old(self)@.forgotten(),
    {
        self.known_maps.clear();
        self.dev_tier.clear();
        self.dev_compressed.clear();
        self.results.clear();
        self.pending.clear();
        assert(self@ =~= old(self)@.forgotten());
    }

    /// Whether a job is out.
    pub fn has_pending(&self) -> (r: bool)
        ensures
            r == !self@.pending.dom().is_empty(),
    {
        let r: bool = self.pending.len() > 0;
        proof {
            if self@.pending.len() == 0 {
                assert(self@.pending.dom() =~= Set::empty());
            } else {
                assert(self@.pending.dom().contains(self@.pending.dom().choose()));
            }
        }
        r
    }

    /// Whether no marked row has a job out.
    pub fn all_landed(&self, marks: &[NodeId]) -> (r: bool)
        ensures
            r == self@.settled(marks@),
    {
        let mut i: usize = 0;
        while i < marks.len()
            invariant
                i <= marks@.len(),
                forall|k: int|
                    0 <= k < i ==> !self@.pending.dom().contains((#[trigger] marks@[k]).raw),
            decreases marks@.len() - i,
        {
            if self.pending.contains_key(&marks[i].raw) {
                assert(self@.pending.dom().contains(marks@[i as int].raw));
                return false;
            }
            i = i + 1;
        }
        true
    }

    fn land(&mut self, msg: JobMessage, epoch: u64, marked: &HashSet<u32>)
        ensures
            final(self)@ == old(self)@.landed(msg, epoch, marked@),
    {
        if msg.epoch != epoch {
            return;
        }
        merge(&mut self.known_maps, &msg.new_maps);
        merge(&mut self.dev_tier, &msg.new_dev_tiers);
        merge(&mut self.dev_compressed, &msg.new_dev_compressed);
        let current: bool = match self.pending.get(&msg.mark_node) {
            Some(serial) => *serial == msg.serial,
            None => false,
        };
        if current {
            self.pending.remove(&msg.mark_node);
            if marked.contains(&msg.mark_node) {
                self.results.insert(msg.mark_node, msg.files);
            }
        }
        assert(self@ =~= old(self)@.landed(msg, epoch, marked@));
    }

    /// Takes in the results that arrived; `true` if there were any.
    pub fn poll(&mut self, arrived: Vec<JobMessage>, current_epoch: u64, marked: &HashSet<u32>) -> (r:
        bool)
        ensures
            final(self)@ == old(self)@.all_landed(arrived@, current_epoch, marked@),
            r == (arrived@.len() > 0),
    {
        let n: usize = arrived.len();
        let mut msgs = arrived;
        let ghost before = self@;
        let mut i: usize = 0;
        assert(arrived@.take(0) =~= Seq::empty());
        assert(arrived@.skip(0) =~= arrived@);
        while msgs.len() > 0
            invariant
                i <= arrived@.len(),
                n == arrived@.len(),
                msgs@ == arrived@.skip(i as int),
                self@ == before.all_landed(arrived@.take(i as int), current_epoch, marked@),
            decreases msgs@.len(),
        {
            let msg = msgs.remove(0);
            proof {
                assert(arrived@.skip(i as int)[0] == arrived@[i as int]);
                assert(arrived@.take(i + 1).drop_last() =~= arrived@.take(i as int));
                assert(arrived@.take(i + 1).last() == arrived@[i as int]);
                assert(msgs@ =~= arrived@.skip(i + 1));
            }
            self.land(msg, current_epoch, marked);
            i = i + 1;
        }
        assert(arrived@.take(i as int) =~= arrived@);
        n > 0
    }
}

/// Decides what the confirmation shows: nothing while switched off, a hint while
/// a job of the marks is out, else the selection to correlate.
pub fn build_slot(rt: &OracleRuntime, marks: &[NodeId], groups: &HashMap<u128, HardlinkGroup>) -> (p:
    SlotPlan)
    requires
        oracle::truncated_of(marks@, rt@.results).0 <= u64::MAX,
        oracle::truncated_of(marks@, rt@.results).1 <= u64::MAX,
    ensures
        rt@.disabled ==> p is Disabled,
        !rt@.disabled && !rt@.settled(marks@) ==> p is Pending,
        !rt@.disabled && rt@.settled(marks@) ==> (p matches SlotPlan::Correlate(g)
            && oracle::gathers(
            marks@,
            rt@.results,
            (Facts {
                known: &rt.known_maps,
                tiers: &rt.dev_tier,
                compressed: &rt.dev_compressed,
                groups,
            }),
            g,
        )),
{
    if rt.disabled {
        return SlotPlan::Disabled;
    }
    if !rt.all_landed(marks) {
        return SlotPlan::Pending;
    }
    let facts = Facts {
        known: &rt.known_maps,
        tiers: &rt.dev_tier,
        compressed: &rt.dev_compressed,
        groups,
    };
    SlotPlan::Correlate(assemble(marks, &rt.results, &facts))
}

/// A result of another epoch never counts.
pub proof fn law_stale_results_are_dropped(
    s: OracleState,
    msg: JobMessage,
    epoch: u64,
    marked: Set<u32>,
)
    requires
        msg.epoch != epoch,
    ensures
        s.landed(msg, epoch, marked) == s,
{
}

/// Unmarking and marking a row again never lets the first job's result stand
/// for the second's.
pub proof fn law_remarks_outlive_old_jobs(
    s: OracleState,
    node: u32,
    msg: JobMessage,
    epoch: u64,
    marked: Set<u32>,
)
    requires
        !s.disabled,
        s.next_serial < u64::MAX,
        msg.mark_node == node,
        msg.serial <= s.next_serial,
    ensures
        ({
            let again = s.unmarked(node).marked(node);
            let after = again.landed(msg, epoch, marked);
            after.pending == again.pending && after.results == again.results
        }),
{
}

/// A job that could not be started leaves no mark waiting: nothing is out for
/// its row, and the selection is settled as soon as the jobs of the other marks
/// are.
pub proof fn law_failed_starts_are_not_waited_for(s: OracleState, node: u32, marks: Seq<NodeId>)
    requires
        !s.disabled,
        s.next_serial < u64::MAX,
    ensures
        ({
            let after = s.marked(node).unstarted(node, (s.next_serial + 1) as u64);
            &&& after.pending == s.pending.remove(node)
            &&& s.pending.dom().is_empty() ==> after.pending.dom().is_empty()
            &&& after.settled(marks) <==> (forall|i: int|
                0 <= i < marks.len() && (#[trigger] marks[i]).raw != node
                    ==> !s.pending.dom().contains(marks[i].raw))
        }),
{
    let after = s.marked(node).unstarted(node, (s.next_serial + 1) as u64);
    assert(after.pending =~= s.pending.remove(node));
    if s.pending.dom().is_empty() {
        assert(after.pending.dom() =~= Set::empty());
    }
}

/// A row that is not marked never gets a result.
pub proof fn law_unmarked_rows_have_no_result(
    s: OracleState,
    node: u32,
    msg: JobMessage,
    epoch: u64,
    marked: Set<u32>,
)
    requires
        !marked.contains(node),
        !s.results.dom().contains(node),
    ensures
        !s.landed(msg, epoch, marked).results.dom().contains(node),
{
}

/// Switched off, no mark ever starts a job.
pub proof fn law_disabled_starts_nothing(s: OracleState, node: u32)
    requires
        s.disabled,
    ensures
        s.marked(node) == s,
{
}

/// A mark waits for its own job, and when that lands it has the job's files and waits no
/// more; other marks are left alone.
pub proof fn law_results_land_on_their_mark(
    s: OracleState,
    node: u32,
    other: u32,
    msg: JobMessage,
    epoch: u64,
    marked: Set<u32>,
)
    requires
        !s.disabled,
        s.next_serial < u64::MAX,
        msg.epoch == epoch,
        msg.mark_node == node,
        msg.serial == s.next_serial + 1,
        marked.contains(node),
        other != node,
    ensures
        ({
            let t = s.marked(node);
            let u = t.landed(msg, epoch, marked);
            &&& t.pending.dom().contains(node)
            &&& !t.results.dom().contains(node)
            &&& !u.pending.dom().contains(node)
            &&& u.results.dom().contains(node) && u.results[node] == msg.files
            &&& u.pending.dom().contains(other) == s.pending.dom().contains(other)
            &&& u.results.dom().contains(other) == s.results.dom().contains(other)
            &&& s.results.dom().contains(other) ==> u.results[other] == s.results[other]
        }),
{
}

/// What was found out once stays: news adds what was not known and changes nothing else.
pub proof fn law_news_only_adds<K, V>(m: Map<K, V>, list: Seq<(K, V)>, k: K)
    ensures
        m.dom().contains(k) ==> merged(m, list).dom().contains(k) && merged(m, list)[k] == m[k],
        merged(m, list).dom().contains(k) <==> m.dom().contains(k) || exists|i: int|
            0 <= i < list.len() && (#[trigger] list[i]).0 == k,
    decreases list.len(),
{
    if list.len() > 0 {
        let rest = list.drop_last();
        law_news_only_adds(m, rest, k);
        law_news_only_adds(m, rest, list.last().0);
        if exists|i: int| 0 <= i < list.len() && (#[trigger] list[i]).0 == k {
            let i = choose|i: int| 0 <= i < list.len() && (#[trigger] list[i]).0 == k;
            if i < rest.len() {
                assert(rest[i] == list[i]);
            }
        }
        if merged(m, rest).dom().contains(k) && !m.dom().contains(k) {
            let i = choose|i: int| 0 <= i < rest.len() && (#[trigger] rest[i]).0 == k;
            assert(list[i] == rest[i]);
        }
        if list.last().0 == k {
            assert(list[list.len() - 1].0 == k);
        }
    }
}

/// Unmarking a row, clearing the marks and deleting leave nothing to wait for and no
/// result; a deletion forgets what was found out, the others keep it.
pub proof fn law_unmarking_forgets_the_mark(s: OracleState, node: u32, other: u32)
    requires
        other != node,
    ensures
        !s.unmarked(node).pending.dom().contains(node),
        !s.unmarked(node).results.dom().contains(node),
        s.unmarked(node).results.dom().contains(other) == s.results.dom().contains(other),
        s.unmarked(node).pending.dom().contains(other) == s.pending.dom().contains(other),
        s.unmarked(node).known_maps == s.known_maps,
        !s.cleared().pending.dom().contains(other) && !s.cleared().results.dom().contains(other),
        s.cleared().known_maps == s.known_maps && s.cleared().dev_tier == s.dev_tier,
        !s.forgotten().pending.dom().contains(other) && !s.forgotten().results.dom().contains(
            other,
        ),
        s.forgotten().known_maps.dom().is_empty() && s.forgotten().dev_tier.dom().is_empty()
            && s.forgotten().dev_compressed.dom().is_empty(),
        s.forgotten().next_serial == s.next_serial && s.cleared().next_serial == s.next_serial,
{
}

/// A selection is settled exactly if none of its marks waits.
pub proof fn law_settled_means_nobody_waits(s: OracleState, marks: Seq<NodeId>, k: int)
    requires
        0 <= k < marks.len(),
        s.pending.dom().contains(marks[k].raw),
    ensures
        !s.settled(marks),
        s.cleared().settled(marks),
{
    assert(!s.cleared().pending.dom().contains(marks[k].raw));
}

} // verus!
