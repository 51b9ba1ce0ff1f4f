//! Link counts, asked for where they are shown: what the selection card may say
//! about a file's links, and which answers still count when they arrive.

use crate::text;
use crate::text::{copy_str, dec_string, push_dec};
use std::collections::HashMap;
use vstd::prelude::*;
use vstd::string::*;

verus! {

broadcast use vstd::std_specs::hash::group_hash_axioms;

/// Answers kept before the whole cache is dropped.
pub const MAX_CACHED: usize = 8192;

/// What the selection card knows about one row's links.
#[derive(Debug, Clone, Copy, PartialEq, Eq)]
pub enum LinkState {
    /// The question is on its way.
    Pending,
    /// The filesystem answered.
    Known {
        /// Links that exist on the volume.
        total: u32,
        /// Paths that the scan reached for the same file.
        seen: u32,
        /// The volume issues no file identity, so the two cannot be matched.
        anonymous: bool,
    },
    /// The volume does not report link counts.
    Unsupported,
    /// This file did not answer, for this reason.
    Failed(&'static str),
}

/// What the card says about a row's links.
pub open spec fn link_text(state: LinkState, spinner: char) -> Seq<char> {
    match state {
        LinkState::Pending => seq![spinner] + " counting links…"@,
        LinkState::Known { total, seen, anonymous } => if total == 1 {
            "1 link · nothing else points at this file"@
        } else if anonymous {
            text::dec(total as nat)
                + " links · this volume issues no file id, so none can be matched here"@
        } else if seen >= total {
            text::dec(total as nat) + " links · all inside this scan"@
        } else {
            text::dec(total as nat) + " links · "@ + text::dec((total - seen) as nat)
                + " outside this scan — deleting this frees nothing"@
        },
        LinkState::Unsupported => "links unknown · not reported on this volume"@,
        LinkState::Failed(why) => "links unknown · "@ + why@,
    }
}

fn known_line(total: u32, seen: u32, anonymous: bool) -> (s: String)
    ensures
        s@ == link_text((LinkState::Known { total, seen, anonymous }), ' '),
{
    if total == 1 {
        return copy_str("1 link · nothing else points at this file");
    }
    let mut s = dec_string(total as u128);
    if anonymous {
        s.append(" links · this volume issues no file id, so none can be matched here");
    } else if seen >= total {
        s.append(" links · all inside this scan");
    } else {
        s.append(" links · ");
        push_dec(&mut s, (total - seen) as u128);
        s.append(" outside this scan — deleting this frees nothing");
    }
    s
}

/// The selection card's line about a row's links: always one, an unknown count
/// included; none for a row that is never asked about.
pub fn card_lines(state: Option<LinkState>, spinner: char) -> (lines: Vec<String>)
    ensures
        match state {
            None => lines@.len() == 0,
            Some(s) => lines@.len() == 1 && lines@[0]@ == link_text(s, spinner),
        },
{
    let mut lines: Vec<String> = Vec::new();
    let s = match state {
        None => {
            return lines;
        },
        Some(LinkState::Pending) => {
            let mut s = String::new();
            s.push(spinner);
            s.append(" counting links…");
            assert(s@ =~= seq![spinner] + " counting links…"@);
            s
        },
        Some(LinkState::Known { total, seen, anonymous }) => known_line(total, seen, anonymous),
        Some(LinkState::Unsupported) => copy_str("links unknown · not reported on this volume"),
        Some(LinkState::Failed(why)) => {
            let mut s = copy_str("links unknown · ");
            s.append(why);
            s
        },
    };
    lines.push(s);
    lines
}

/// One link that the scan recorded: a node and its inode.
#[derive(Debug, Clone, Copy, PartialEq, Eq, Structural)]
pub struct ScannedLink {
    pub node: u32,
    pub dev: u64,
    pub ino: u64,
}

/// The first recorded link of a node.
pub open spec fn link_of(links: Seq<ScannedLink>, node: u32) -> Option<ScannedLink>
    decreases links.len(),
{
    if links.len() == 0 {
        None
    } else if links[0].node == node {
        Some(links[0])
    } else {
        link_of(links.drop_first(), node)
    }
}

/// How many recorded links lead to an inode.
pub open spec fn reach(links: Seq<ScannedLink>, dev: u64, ino: u64) -> nat
    decreases links.len(),
{
    if links.len() == 0 {
        0
    } else {
        let last = links.last();
        reach(links.drop_last(), dev, ino) + (if last.dev == dev && last.ino == ino {
            1nat
        } else {
            0nat
        })
    }
}

/// How many paths the scan reached for a node's file, and its inode where the
/// scan recorded one: a node without a record was reached once.
pub fn scan_reach(links: &[ScannedLink], node: u32) -> (r: (u32, Option<(u64, u64)>))
    ensures
        match link_of(links@, node) {
            None => r == (1u32, None::<(u64, u64)>),
            Some(mine) => {
                &&& r.1 == Some((mine.dev, mine.ino))
                &&& r.0 == (if reach(links@, mine.dev, mine.ino) <= u32::MAX {
                    reach(links@, mine.dev, mine.ino) as u32
                } else {
                    u32::MAX
                })
            },
        },
{
    let mut i: usize = 0;
    assert(links@.skip(0) =~= links@);
    while i < links.len() && links[i].node != node
        invariant
            i <= links@.len(),
            link_of(links@, node) == link_of(links@.skip(i as int), node),
        decreases links@.len() - i,
    {
        assert(links@.skip(i as int).drop_first() =~= links@.skip(i + 1));
        i = i + 1;
    }
    if i >= links.len() {
        return (1, None);
    }
    let mine = links[i];
    let mut seen: usize = 0;
    let mut k: usize = 0;
    assert(links@.take(0) =~= Seq::empty());
    while k < links.len()
        invariant
            k <= links@.len(),
            seen <= k,
            seen == reach(links@.take(k as int), mine.dev, mine.ino),
        decreases links@.len() - k,
    {
        proof {
            assert(links@.take(k + 1).drop_last() =~= links@.take(k as int));
            assert(links@.take(k + 1).last() == links@[k as int]);
        }
        if links[k].dev == mine.dev && links[k].ino == mine.ino {
            seen = seen + 1;
        }
        k = k + 1;
    }
    assert(links@.take(k as int) =~= links@);
    let count: u32 = if seen <= u32::MAX as usize {
        seen as u32
    } else {
        u32::MAX
    };
    (count, Some((mine.dev, mine.ino)))
}

/// The nodes that the scan recorded for an inode, in order.
pub open spec fn nodes_of(links: Seq<ScannedLink>, dev: u64, ino: u64) -> Seq<u32>
    decreases links.len(),
{
    if links.len() == 0 {
        Seq::empty()
    } else {
        let before = nodes_of(links.drop_last(), dev, ino);
        let last = links.last();
        if last.dev == dev && last.ino == ino {
            before.push(last.node)
        } else {
            before
        }
    }
}

/// Lists the nodes that the scan recorded for an inode: what is answered for one
/// of them is answered for all.
pub fn links_of_inode(links: &[ScannedLink], dev: u64, ino: u64) -> (nodes: Vec<u32>)
    ensures
        nodes@ == nodes_of(links@, dev, ino),
{
    let mut nodes: Vec<u32> = Vec::new();
    let mut i: usize = 0;
    assert(links@.take(0) =~= Seq::empty());
    while i < links.len()
        invariant
            i <= links@.len(),
            nodes@ == nodes_of(links@.take(i as int), dev, ino),
        decreases links@.len() - i,
    {
        proof {
            assert(links@.take(i + 1).drop_last() =~= links@.take(i as int));
            assert(links@.take(i + 1).last() == links@[i as int]);
        }
        if links[i].dev == dev && links[i].ino == ino {
            nodes.push(links[i].node);
        }
        i = i + 1;
    }
    assert(links@.take(i as int) =~= links@);
    nodes
}

/// Whether a row is worth a question: a plain file, in a scan that did not
/// obtain link counts itself.
pub fn is_candidate(link_counts_known: bool, plain_file: bool) -> (r: bool)
    ensures
        r == (!link_counts_known && plain_file),
{
    !link_counts_known && plain_file
}

/// Whether a file id is one of the two that stand for no identity.
pub fn is_anonymous_id(file_id: i64) -> (r: bool)
    ensures
        r == (file_id == 0 || file_id == -1),
{
    file_id == 0 || file_id == -1
}

/// What the filesystem answered.
#[derive(Debug, Clone, Copy, PartialEq, Eq)]
pub enum LinkAnswer {
    Known { links: u32, file_id: i64 },
    Unsupported,
    Failed(&'static str),
}

/// The card's state for an answer, with the paths that the scan reached.
pub fn answer_state(answer: LinkAnswer, seen: u32) -> (s: LinkState)
    ensures
        s == (match answer {
            LinkAnswer::Known { links, file_id } => LinkState::Known {
                total: links,
                seen,
                anonymous: file_id == 0 || file_id == -1,
            },
            LinkAnswer::Unsupported => LinkState::Unsupported,
            LinkAnswer::Failed(why) => LinkState::Failed(why),
        }),
{
    match answer {
        LinkAnswer::Known { links, file_id } => LinkState::Known {
            total: links,
            seen,
            anonymous: is_anonymous_id(file_id),
        },
        LinkAnswer::Unsupported => LinkState::Unsupported,
        LinkAnswer::Failed(why) => LinkState::Failed(why),
    }
}

/// An inode as one number.
pub open spec fn inode_key(dev: u64, ino: u64) -> u128 {
    (dev * 0x1_0000_0000_0000_0000 + ino) as u128
}

/// Different inodes have different numbers.
pub proof fn lemma_inode_keys_differ(d1: u64, i1: u64, d2: u64, i2: u64)
    requires
        inode_key(d1, i1) == inode_key(d2, i2),
    ensures
        d1 == d2,
        i1 == i2,
{
    assert(d1 * 0x1_0000_0000_0000_0000 + i1 <= u128::MAX);
    assert(d2 * 0x1_0000_0000_0000_0000 + i2 <= u128::MAX);
}

/// Computes an inode's number.
pub fn key_of_inode(dev: u64, ino: u64) -> (k: u128)
    ensures
        k == inode_key(dev, ino),
{
    dev as u128 * 0x1_0000_0000_0000_0000 + ino as u128
}

/// One answer, tagged with what it was asked for.
#[derive(Debug)]
pub struct JobMessage {
    pub epoch: u64,
    pub node: u32,
    pub serial: u64,
    pub state: LinkState,
    pub inode: Option<(u64, u64)>,
    /// The nodes that the scan recorded for the inode.
    pub links: Vec<u32>,
}

/// A map with the same entry for each of some nodes.
pub open spec fn noted(m: Map<u32, u128>, nodes: Seq<u32>, key: u128) -> Map<u32, u128>
    decreases nodes.len(),
{
    if nodes.len() == 0 {
        m
    } else {
        noted(m, nodes.drop_last(), key).insert(nodes.last(), key)
    }
}

/// The lookup's state as values.
#[verifier::ext_equal]
pub struct LinkView {
    pub next_serial: nat,
    pub pending: Map<u32, u64>,
    pub results: Map<u32, LinkState>,
    pub by_inode: Map<u128, LinkState>,
    pub inode_of: Map<u32, u128>,
}

/// The lookup's session-long state.
#[derive(Debug)]
pub struct LinkRuntime {
    pub next_serial: u64,
    /// The serial of the outstanding question about a node.
    pub pending: HashMap<u32, u64>,
    /// The answers of the current epoch.
    pub results: HashMap<u32, LinkState>,
    /// The same answers by inode, for the inodes that the scan recorded.
    pub by_inode: HashMap<u128, LinkState>,
    pub inode_of: HashMap<u32, u128>,
}

/// What asking about a row gives.
#[derive(Debug, Clone, Copy)]
pub enum Ask {
    /// The row is never asked about.
    Silent,
    /// The card shows this.
    Show(LinkState),
    /// Start a question with this serial; the card shows that it is pending.
    Start(u64),
}

impl LinkView {
    /// Nothing asked and nothing known.
    pub open spec fn blank() -> LinkView {
        LinkView {
            next_serial: 0,
            pending: Map::empty(),
            results: Map::empty(),
            by_inode: Map::empty(),
            inode_of: Map::empty(),
        }
    }

    /// What is known about a node through its inode.
    pub open spec fn by_link(self, node: u32) -> Option<LinkState> {
        if self.inode_of.dom().contains(node) && self.by_inode.dom().contains(
            self.inode_of[node],
        ) {
            Some(self.by_inode[self.inode_of[node]])
        } else {
            None
        }
    }

    /// The state after asking about a node, and what asking gives.
    pub open spec fn asked(self, node: u32, candidate: bool) -> (LinkView, Ask) {
        if !candidate {
            (self, Ask::Silent)
        } else if self.results.dom().contains(node) {
            (self, Ask::Show(self.results[node]))
        } else if self.by_link(node) is Some {
            let state = self.by_link(node).unwrap();
            (
                LinkView { results: self.results.insert(node, state), ..self },
                Ask::Show(state),
            )
        } else if self.pending.dom().contains(node) {
            (self, Ask::Show(LinkState::Pending))
        } else {
            let roomy = if self.results.len() >= MAX_CACHED {
                LinkView {
                    results: Map::empty(),
                    by_inode: Map::empty(),
                    inode_of: Map::empty(),
                    ..self
                }
            } else {
                self
            };
            (
                LinkView {
                    next_serial: self.next_serial + 1,
                    pending: self.pending.insert(node, (self.next_serial + 1) as u64),
                    ..roomy
                },
                Ask::Start((self.next_serial + 1) as u64),
            )
        }
    }

    /// The state after an answer arrived: one of another epoch, or to a question
    /// that is no longer the outstanding one, changes nothing.
    pub open spec fn landed(self, msg: JobMessage, epoch: u64) -> LinkView {
        if msg.epoch != epoch || !self.pending.dom().contains(msg.node) || self.pending[msg.node]
            != msg.serial {
            self
        } else {
            let known = LinkView {
                pending: self.pending.remove(msg.node),
                results: self.results.insert(msg.node, msg.state),
                ..self
            };
            match msg.inode {
                None => known,
                Some((dev, ino)) => LinkView {
                    by_inode: self.by_inode.insert(inode_key(dev, ino), msg.state),
                    inode_of: noted(self.inode_of, msg.links@, inode_key(dev, ino)).insert(
                        msg.node,
                        inode_key(dev, ino),
                    ),
                    ..known
                },
            }
        }
    }

    /// The state after some answers arrived, in order.
    pub open spec fn all_landed(self, msgs: Seq<JobMessage>, epoch: u64) -> LinkView
        decreases msgs.len(),
    {
        if msgs.len() == 0 {
            self
        } else {
            self.all_landed(msgs.drop_last(), epoch).landed(msgs.last(), epoch)
        }
    }
}

impl View for LinkRuntime {
    type V = LinkView;

    open spec fn view(&self) -> LinkView {
        LinkView {
            next_serial: self.next_serial as nat,
            pending: self.pending@,
            results: self.results@,
            by_inode: self.by_inode@,
            inode_of: self.inode_of@,
        }
    }
}

impl Default for LinkRuntime {
    fn default() -> (rt: LinkRuntime)
        ensures
            rt@ == LinkView::blank(),
    {
        LinkRuntime::new()
    }
}

impl LinkRuntime {
    /// Nothing asked and nothing known.
    pub fn new() -> (rt: LinkRuntime)
        ensures
            rt@ == LinkView::blank(),
    {
        let rt = LinkRuntime {
            next_serial: 0,
            pending: HashMap::new(),
            results: HashMap::new(),
            by_inode: HashMap::new(),
            inode_of: HashMap::new(),
        };
        assert(rt@ =~= LinkView::blank());
        rt
    }

    fn known_by_link(&self, node: u32) -> (r: Option<LinkState>)
        ensures
            r == self@.by_link(node),
    {
        match self.inode_of.get(&node) {
            None => None,
            Some(inode) => match self.by_inode.get(inode) {
                None => None,
                Some(state) => Some(*state),
            },
        }
    }

    /// Asks about a row; `candidate` says whether it is one to ask about.
    pub fn state_for(&mut self, node: u32, candidate: bool) -> (r: Ask)
        requires
            old(self).next_serial < u64::MAX,
        ensures
            final(self)@ == old(self)@.asked(node, candidate).0,
            r == old(self)@.asked(node, candidate).1,
    {
        if !candidate {
            return Ask::Silent;
        }
        if let Some(state) = self.results.get(&node) {
            return Ask::Show(*state);
        }
        if let Some(state) = self.known_by_link(node) {
            self.results.insert(node, state);
            assert(self@ =~= old(self)@.asked(node, candidate).0);
            return Ask::Show(state);
        }
        if self.pending.contains_key(&node) {
            return Ask::Show(LinkState::Pending);
        }
        if self.results.len() >= MAX_CACHED {
            self.results.clear();
            self.by_inode.clear();
            self.inode_of.clear();
        }
        self.next_serial = self.next_serial + 1;
        let serial: u64 = self.next_serial;
        self.pending.insert(node, serial);
        assert(self@ =~= old(self)@.asked(node, candidate).0);
        Ask::Start(serial)
    }

    /// Takes note that a question could not be started: the row's links stay
    /// unknown for this reason.
    pub fn start_failed(&mut self, node: u32, why: &'static str) -> (state: LinkState)
        ensures
            state == LinkState::Failed(why),
            final(self)@ == (LinkView {
                pending: old(self)@.pending.remove(node),
                results: old(self)@.results.insert(node, state),
                ..old(self)@
            }),
    {
        let state = LinkState::Failed(why);
        self.pending.remove(&node);
        self.results.insert(node, state);
        assert(self@ =~= (LinkView {
            pending: old(self)@.pending.remove(node),
            results: old(self)@.results.insert(node, state),
            ..old(self)@
        }));
        state
    }

    /// Whether a question is outstanding.
    pub fn has_pending(&self) -> (r: bool)
        ensures
            r == !self@.pending.dom().is_empty(),
    {
        let r: bool = self.pending.len() > 0;
        proof {
            if self@.pending.len() == 0 {
                assert(self@.pending.dom().len() == 0);
                assert(self@.pending.dom() =~= Set::empty());
            } else {
                assert(self@.pending.dom().len() > 0);
                assert(self@.pending.dom().contains(self@.pending.dom().choose()));
            }
        }
        r
    }

    fn note_inode(&mut self, nodes: &Vec<u32>, key: u128)
        ensures
            final(self)@ == (LinkView {
                inode_of: noted(old(self)@.inode_of, nodes@, key),
                ..old(self)@
            }),
    {
        let mut i: usize = 0;
        let ghost before = self@;
        assert(nodes@.take(0) =~= Seq::empty());
        while i < nodes.len()
            invariant
                i <= nodes@.len(),
                self@ == (LinkView {
                    inode_of: noted(before.inode_of, nodes@.take(i as int), key),
                    ..before
                }),
            decreases nodes@.len() - i,
        {
            proof {
                assert(nodes@.take(i + 1).drop_last() =~= nodes@.take(i as int));
                assert(nodes@.take(i + 1).last() == nodes@[i as int]);
            }
            self.inode_of.insert(nodes[i], key);
            i = i + 1;
            assert(self@ =~= (LinkView {
                inode_of: noted(before.inode_of, nodes@.take(i as int), key),
                ..before
            }));
        }
        assert(nodes@.take(i as int) =~= nodes@);
    }

    fn land(&mut self, msg: &JobMessage, epoch: u64)
        ensures
            final(self)@ == old(self)@.landed(*msg, epoch),
    {
        if msg.epoch != epoch {
            return;
        }
        let current: bool = match self.pending.get(&msg.node) {
            Some(serial) => *serial == msg.serial,
            None => false,
        };
        if !current {
            return;
        }
        self.pending.remove(&msg.node);
        self.results.insert(msg.node, msg.state);
        if let Some((dev, ino)) = msg.inode {
            let key: u128 = key_of_inode(dev, ino);
            self.note_inode(&msg.links, key);
            self.inode_of.insert(msg.node, key);
            self.by_inode.insert(key, msg.state);
        }
        assert(self@ =~= old(self)@.landed(*msg, epoch));
    }

    /// Takes in the answers that arrived; `true` if there were any.
    pub fn poll(&mut self, msgs: &[JobMessage], current_epoch: u64) -> (r: bool)
        ensures
            final(self)@ == old(self)@.all_landed(msgs@, current_epoch),
            r == (msgs@.len() > 0),
    {
        let mut i: usize = 0;
        let ghost before = self@;
        assert(msgs@.take(0) =~= Seq::empty());
        while i < msgs.len()
            invariant
                i <= msgs@.len(),
                self@ == before.all_landed(msgs@.take(i as int), current_epoch),
            decreases msgs@.len() - i,
        {
            proof {
                assert(msgs@.take(i + 1).drop_last() =~= msgs@.take(i as int));
                assert(msgs@.take(i + 1).last() == msgs@[i as int]);
            }
            self.land(&msgs[i], current_epoch);
            i = i + 1;
        }
        assert(msgs@.take(i as int) =~= msgs@);
        msgs.len() > 0
    }

    /// Drops everything: a deletion changed what the answers were about.
    pub fn on_deletion(&mut self)
        ensures
            final(self)@ == (LinkView { next_serial: old(self)@.next_serial, ..LinkView::blank() }),
    {
        self.pending.clear();
        self.results.clear();
        self.by_inode.clear();
        self.inode_of.clear();
        assert(self@ =~= (LinkView {
            next_serial: old(self)@.next_serial,
            ..LinkView::blank()
        }));
    }
}

/// An answer of another epoch never counts.
pub proof fn law_stale_answers_are_dropped(v: LinkView, msg: JobMessage, epoch: u64)
    requires
        msg.epoch != epoch,
    ensures
        v.landed(msg, epoch) == v,
{
}

/// An answer counts once: the same message again changes nothing.
pub proof fn law_answers_land_once(v: LinkView, msg: JobMessage, epoch: u64)
    ensures
        v.landed(msg, epoch).landed(msg, epoch) == v.landed(msg, epoch),
{
}

/// After a deletion no earlier answer counts, whatever its epoch says.
pub proof fn law_deletion_forgets(v: LinkView, msg: JobMessage, epoch: u64)
    ensures
        ({
            let cleared = LinkView { next_serial: v.next_serial, ..LinkView::blank() };
            cleared.landed(msg, epoch) == cleared
        }),
{
}

proof fn lemma_node_is_listed(links: Seq<ScannedLink>, dev: u64, ino: u64, i: int)
    requires
        0 <= i < links.len(),
        links[i].dev == dev,
        links[i].ino == ino,
    ensures
        nodes_of(links, dev, ino).contains(links[i].node),
    decreases links.len(),
{
    let before = nodes_of(links.drop_last(), dev, ino);
    if i == links.len() - 1 {
        assert(nodes_of(links, dev, ino).last() == links[i].node);
    } else {
        lemma_node_is_listed(links.drop_last(), dev, ino, i);
        let at = choose|at: int| 0 <= at < before.len() && before[at] == links[i].node;
        assert(nodes_of(links, dev, ino)[at] == links[i].node);
    }
}

proof fn lemma_noted(m: Map<u32, u128>, nodes: Seq<u32>, key: u128, node: u32)
    requires
        nodes.contains(node),
    ensures
        noted(m, nodes, key).dom().contains(node),
        noted(m, nodes, key)[node] == key,
    decreases nodes.len(),
{
    if nodes.last() != node {
        let at = choose|at: int| 0 <= at < nodes.len() && nodes[at] == node;
        assert(nodes.drop_last()[at] == node);
        lemma_noted(m, nodes.drop_last(), key, node);
    }
}

/// Two links that the scan recorded for one file share one question: once one of
/// them is answered, asking about the other shows that answer and starts
/// nothing.
pub proof fn law_links_share_an_answer(
    v: LinkView,
    msg: JobMessage,
    epoch: u64,
    links: Seq<ScannedLink>,
    i: int,
)
    requires
        msg.epoch == epoch,
        v.pending.dom().contains(msg.node),
        v.pending[msg.node] == msg.serial,
        0 <= i < links.len(),
        msg.inode == Some((links[i].dev, links[i].ino)),
        msg.links@ == nodes_of(links, links[i].dev, links[i].ino),
        !v.results.dom().contains(links[i].node),
    ensures
        v.landed(msg, epoch).by_link(links[i].node) == Some(msg.state),
        v.landed(msg, epoch).asked(links[i].node, true).1 == Ask::Show(msg.state),
{
    let link = links[i];
    lemma_node_is_listed(links, link.dev, link.ino, i);
    lemma_noted(v.inode_of, msg.links@, inode_key(link.dev, link.ino), link.node);
}

/// The card never says that deleting a file frees it unless every link is accounted
/// for: links outside the scan are counted and told, a single link says that there is
/// no other, and a count that could not be had is never a number.
pub proof fn law_links_outside_are_told(
    total: u32,
    seen: u32,
    anonymous: bool,
    spinner: char,
    why: &'static str,
)
    requires
        total > 1,
    ensures
        ({
            let line = link_text(LinkState::Known { total, seen, anonymous }, spinner);
            &&& text::starts_with(line, text::dec(total as nat) + " links · "@)
            &&& !anonymous && seen < total ==> text::ends_with(
                line,
                text::dec((total - seen) as nat)
                    + " outside this scan — deleting this frees nothing"@,
            )
            &&& !anonymous && seen >= total ==> text::ends_with(line, " all inside this scan"@)
        }),
        text::starts_with(
            link_text(LinkState::Known { total: 1, seen, anonymous }, spinner),
            "1 link "@,
        ),
        text::starts_with(link_text(LinkState::Unsupported, spinner), "links unknown"@),
        text::starts_with(link_text(LinkState::Failed(why), spinner), "links unknown · "@),
        link_text(LinkState::Pending, spinner)[0] == spinner,
{
    let n = text::dec(total as nat);
    let rest = text::dec((total - seen) as nat);
    reveal_strlit(" links · all inside this scan");
    reveal_strlit(" links · ");
    reveal_strlit(" all inside this scan");
    reveal_strlit("all inside this scan");
    reveal_strlit(" links · this volume issues no file id, so none can be matched here");
    reveal_strlit("1 link · nothing else points at this file");
    reveal_strlit("1 link ");
    reveal_strlit("links unknown");
    reveal_strlit("links unknown · not reported on this volume");
    reveal_strlit("links unknown · ");
    let inside = n + " links · all inside this scan"@;
    let hidden = n + " links · this volume issues no file id, so none can be matched here"@;
    let head = n + " links · "@;
    assert(inside.take(head.len() as int) =~= head);
    assert(hidden.take(head.len() as int) =~= head);
    let tail = " all inside this scan"@;
    assert(inside.skip(inside.len() - tail.len()) =~= tail);
    let end = " outside this scan — deleting this frees nothing"@;
    text::lemma_side_by_side(head, rest, end);
    text::lemma_ends(head, rest);
    text::lemma_extend(head + rest, head, end);
    assert("1 link · nothing else points at this file"@.take(7) =~= "1 link "@);
    assert("links unknown · not reported on this volume"@.take(13) =~= "links unknown"@);
    text::lemma_ends("links unknown · "@, why@);
}

/// The paths that the scan reached of an inode are its recorded nodes: each is
/// counted once, and only those of the inode are.
pub proof fn law_reached_paths_are_the_inodes_nodes(
    links: Seq<ScannedLink>,
    dev: u64,
    ino: u64,
    node: u32,
)
    ensures
        reach(links, dev, ino) == nodes_of(links, dev, ino).len(),
        nodes_of(links, dev, ino).contains(node) <==> exists|i: int|
            0 <= i < links.len() && (#[trigger] links[i]).node == node && links[i].dev == dev
                && links[i].ino == ino,
    decreases links.len(),
{
    if links.len() > 0 {
        let rest = links.drop_last();
        law_reached_paths_are_the_inodes_nodes(rest, dev, ino, node);
        let before = nodes_of(rest, dev, ino);
        let all = nodes_of(links, dev, ino);
        if all.contains(node) {
            let k = choose|k: int| 0 <= k < all.len() && all[k] == node;
            if k < before.len() {
                assert(before[k] == node);
                let i = choose|i: int|
                    0 <= i < rest.len() && (#[trigger] rest[i]).node == node && rest[i].dev == dev
                        && rest[i].ino == ino;
                assert(links[i] == rest[i]);
            } else {
                assert(links[links.len() - 1].node == node);
            }
        }
        if exists|i: int|
            0 <= i < links.len() && (#[trigger] links[i]).node == node && links[i].dev == dev
                && links[i].ino == ino {
            let i = choose|i: int|
                0 <= i < links.len() && (#[trigger] links[i]).node == node && links[i].dev == dev
                    && links[i].ino == ino;
            if i < rest.len() {
                assert(rest[i] == links[i]);
                let k = choose|k: int| 0 <= k < before.len() && before[k] == node;
                assert(all[k] == node);
            } else {
                assert(all.last() == node);
            }
        }
    }
}

/// A node's link is one that the scan recorded for it, the first one; there is one
/// whenever the scan recorded any.
pub proof fn law_links_are_found_by_node(links: Seq<ScannedLink>, node: u32)
    ensures
        link_of(links, node) matches Some(l) ==> l.node == node && links.contains(l),
        link_of(links, node) is None <==> forall|i: int|
            0 <= i < links.len() ==> (#[trigger] links[i]).node != node,
    decreases links.len(),
{
    if links.len() > 0 {
        let rest = links.drop_first();
        law_links_are_found_by_node(rest, node);
        if links[0].node != node {
            if link_of(rest, node) is Some {
                let l = link_of(rest, node).unwrap();
                let i = choose|i: int| 0 <= i < rest.len() && rest[i] == l;
                assert(links[i + 1] == l);
                let j = choose|j: int| 0 <= j < rest.len() && rest[j].node == node;
            } else {
                assert forall|i: int| 0 <= i < links.len() implies (#[trigger] links[i]).node
                    != node by {
                    if i > 0 {
                        assert(rest[i - 1] == links[i]);
                    }
                }
            }
        } else {
            assert(links.contains(links[0]));
        }
    }
}

/// Different inodes have different keys.
pub proof fn law_inode_keys_are_unique(dev: u64, ino: u64, dev2: u64, ino2: u64)
    requires
        inode_key(dev, ino) == inode_key(dev2, ino2),
    ensures
        dev == dev2,
        ino == ino2,
{
    assert(dev * 0x1_0000_0000_0000_0000 + ino <= u128::MAX);
    assert(dev2 * 0x1_0000_0000_0000_0000 + ino2 <= u128::MAX);
}

/// A row is asked about once: a first question starts one, with a number of its own,
/// and until the answer lands the same row starts no other. The answer is shown from
/// then on. A row that needs no question starts none.
pub proof fn law_rows_are_asked_about_once(
    v: LinkView,
    node: u32,
    serial: u64,
    msg: JobMessage,
    epoch: u64,
)
    requires
        v.asked(node, true).1 == Ask::Start(serial),
        v.next_serial < u64::MAX,
        msg.epoch == epoch,
        msg.node == node,
        msg.serial == serial,
    ensures
        serial > v.next_serial,
        v.asked(node, true).0.asked(node, true).1 == Ask::Show(LinkState::Pending),
        v.asked(node, true).0.landed(msg, epoch).asked(node, true).1 == Ask::Show(msg.state),
        v.asked(node, false).1 == Ask::Silent,
        v.asked(node, false).0 == v,
{
}

} // verus!
