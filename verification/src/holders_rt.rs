//! Who holds a file open: when to ask, which answers still count, and what the
//! selection card may say. Times are nanoseconds on one clock.

use crate::text;
use crate::text::{copy_str, push_dec};
use std::collections::HashMap;
use vstd::prelude::*;
use vstd::string::*;

verus! {

broadcast use vstd::std_specs::hash::group_hash_axioms;

/// How long a row must stay under the cursor before it is asked about: 250
/// milliseconds.
pub const DEBOUNCE: u64 = 250_000_000;

/// Answers kept before the whole cache is dropped.
pub const MAX_CACHED: usize = 512;

/// Holders that the card names before it counts.
pub const MAX_NAMED: usize = 2;

/// What the selection card knows about who holds a row open.
#[derive(Debug)]
pub enum HolderState {
    /// The question is on its way.
    Pending,
    /// There is an answer.
    Known {
        /// The holders as the card names them.
        named: String,
        /// How many there are.
        total: usize,
    },
    /// There is no answer, for this reason.
    Failed(&'static str),
}

/// A state as values.
pub enum HolderView {
    Pending,
    Known { named: Seq<char>, total: nat },
    Failed(Seq<char>),
}

impl View for HolderState {
    type V = HolderView;

    open spec fn view(&self) -> HolderView {
        match self {
            HolderState::Pending => HolderView::Pending,
            HolderState::Known { named, total } => HolderView::Known {
                named: named@,
                total: *total as nat,
            },
            HolderState::Failed(why) => HolderView::Failed(why@),
        }
    }
}

impl HolderState {
    /// A copy.
    pub fn copy(&self) -> (r: HolderState)
        ensures
            r@ == self@,
    {
        match self {
            HolderState::Pending => HolderState::Pending,
            HolderState::Known { named, total } => HolderState::Known {
                named: copy_str(named.as_str()),
                total: *total,
            },
            HolderState::Failed(why) => HolderState::Failed(*why),
        }
    }
}

/// What the card says about who holds a row open. Finding nobody is no proof,
/// and says so.
pub open spec fn holder_text(state: HolderView, spinner: char) -> Seq<char> {
    match state {
        HolderView::Pending => seq![spinner] + " checking for open handles…"@,
        HolderView::Known { named, total } => if total == 0 {
            "no holder found · not proof — many real locks stay invisible"@
        } else if total == 1 {
            "open in "@ + named
        } else {
            "open in "@ + text::dec(total) + " processes · "@ + named
        },
        HolderView::Failed(why) => "open handles unknown · "@ + why,
    }
}

/// The selection card's line about who holds a row open: always one; none for a
/// row that is never asked about.
pub fn card_lines(state: Option<&HolderState>, spinner: char) -> (lines: Vec<String>)
    ensures
        match state {
            None => lines@.len() == 0,
            Some(s) => lines@.len() == 1 && lines@[0]@ == holder_text(s@, spinner),
        },
{
    let mut lines: Vec<String> = Vec::new();
    let state = match state {
        None => {
            return lines;
        },
        Some(s) => s,
    };
    let s = match state {
        HolderState::Pending => {
            let mut s = String::new();
            s.push(spinner);
            s.append(" checking for open handles…");
            assert(s@ =~= seq![spinner] + " checking for open handles…"@);
            s
        },
        HolderState::Known { named, total } => {
            if *total == 0 {
                copy_str("no holder found · not proof — many real locks stay invisible")
            } else {
                let mut s = copy_str("open in ");
                if *total > 1 {
                    push_dec(&mut s, *total as u128);
                    s.append(" processes · ");
                }
                s.append(named.as_str());
                s
            }
        },
        HolderState::Failed(why) => {
            let mut s = copy_str("open handles unknown · ");
            s.append(*why);
            s
        },
    };
    lines.push(s);
    lines
}

/// A process that holds a file open.
#[derive(Debug)]
pub struct Holder {
    pub pid: u32,
    pub name: String,
    /// The short name of a service.
    pub service: Option<String>,
}

/// A holder's name: its own, else that of its service.
pub open spec fn holder_name(h: Holder) -> Seq<char> {
    match h.service {
        Some(service) if h.name@.len() == 0 => service@,
        _ => h.name@,
    }
}

/// One holder as the card names it.
pub open spec fn holder_label(h: Holder) -> Seq<char> {
    if holder_name(h).len() == 0 {
        "pid "@ + text::dec(h.pid as nat)
    } else {
        holder_name(h) + " ("@ + text::dec(h.pid as nat) + ")"@
    }
}

/// Names a holder, with the pid that tells two of one name apart.
pub fn label(holder: &Holder) -> (s: String)
    ensures
        s@ == holder_label(*holder),
{
    let name = match &holder.service {
        Some(service) => if holder.name.as_str().unicode_len() == 0 {
            service.as_str()
        } else {
            holder.name.as_str()
        },
        None => holder.name.as_str(),
    };
    assert(name@ == holder_name(*holder));
    if name.unicode_len() == 0 {
        let mut s = copy_str("pid ");
        push_dec(&mut s, holder.pid as u128);
        s
    } else {
        let mut s = copy_str(name);
        s.append(" (");
        push_dec(&mut s, holder.pid as u128);
        s.append(")");
        s
    }
}

/// The first `n` holders, with commas between them.
pub open spec fn joined_labels(holders: Seq<Holder>, n: nat) -> Seq<char>
    decreases n,
{
    if n == 0 {
        ""@
    } else if n == 1 {
        holder_label(holders[0])
    } else {
        joined_labels(holders, (n - 1) as nat) + ", "@ + holder_label(holders[n - 1])
    }
}

/// The first two holders, and the number of the rest.
pub open spec fn summary(holders: Seq<Holder>, total: nat) -> Seq<char> {
    let n: nat = if holders.len() <= MAX_NAMED {
        holders.len()
    } else {
        MAX_NAMED as nat
    };
    if total <= n {
        joined_labels(holders, n)
    } else if n == 0 {
        "+"@ + text::dec(total) + " more"@
    } else {
        joined_labels(holders, n) + ", "@ + ("+"@ + text::dec((total - n) as nat) + " more"@)
    }
}

/// Names the first holders and counts the rest.
pub fn summarise(holders: &[Holder], total: usize) -> (s: String)
    ensures
        s@ == summary(holders@, total as nat),
{
    let n: usize = if holders.len() <= MAX_NAMED {
        holders.len()
    } else {
        MAX_NAMED
    };
    let mut s = copy_str("");
    let mut i: usize = 0;
    while i < n
        invariant
            i <= n,
            n <= holders@.len(),
            s@ == joined_labels(holders@, i as nat),
        decreases n - i,
    {
        if i == 0 {
            s = label(&holders[0]);
        } else {
            s.append(", ");
            s.append(label(&holders[i]).as_str());
        }
        i = i + 1;
    }
    if total > n {
        let mut more = copy_str("+");
        push_dec(&mut more, (total - n) as u128);
        more.append(" more");
        if n == 0 {
            return more;
        }
        s.append(", ");
        s.append(more.as_str());
    }
    s
}

/// What the rest under the cursor says about asking for a row now.
#[derive(Debug, Clone, Copy, PartialEq, Eq, Structural)]
pub enum Brake {
    /// Another row: its time starts.
    Rearm,
    /// The same row, for too short a time.
    Wait,
    /// The same row, for long enough.
    Fire,
}

/// The row that rests under the cursor, and since when.
#[derive(Debug, Clone, Copy, PartialEq, Eq, Structural)]
pub struct Armed {
    pub node: u32,
    pub since: u64,
}

/// What the rest under the cursor says.
pub open spec fn braked(armed: Option<Armed>, node: u32, now: u64) -> Brake {
    match armed {
        Some(a) if a.node == node => if now < a.since + DEBOUNCE {
            Brake::Wait
        } else {
            Brake::Fire
        },
        _ => Brake::Rearm,
    }
}

/// Decides whether a row has rested for long enough.
pub fn brake(armed: Option<Armed>, node: u32, now: u64) -> (b: Brake)
    ensures
        b == braked(armed, node, now),
{
    match armed {
        Some(a) => if a.node != node {
            Brake::Rearm
        } else if now < a.since || now - a.since < DEBOUNCE {
            Brake::Wait
        } else {
            Brake::Fire
        },
        None => Brake::Rearm,
    }
}

/// One answer, tagged with what it was asked for.
#[derive(Debug)]
pub struct JobMessage {
    pub epoch: u64,
    pub node: u32,
    pub serial: u64,
    pub state: HolderState,
}

/// The advisory's state as values.
#[verifier::ext_equal]
pub struct AdvisoryView {
    pub enabled: bool,
    pub next_serial: nat,
    pub armed: Option<Armed>,
    pub pending: Map<u32, u64>,
    pub results: Map<u32, HolderView>,
}

/// The advisory's session-long state.
#[derive(Debug)]
pub struct HolderRuntime {
    /// Nothing is asked and nothing shown without it.
    pub enabled: bool,
    pub next_serial: u64,
    /// Absent once the row's question has started.
    pub armed: Option<Armed>,
    /// The serial of the outstanding question about a node.
    pub pending: HashMap<u32, u64>,
    /// The answers of the current epoch.
    pub results: HashMap<u32, HolderState>,
}

/// What asking about a row gives.
#[derive(Debug)]
pub enum Ask {
    /// The row is never asked about.
    Silent,
    /// The card shows this.
    Show(HolderState),
    /// Start a question with this serial; the card shows that it is pending.
    Start(u64),
}

/// What asking about a row gives, as values.
pub enum AskView {
    Silent,
    Show(HolderView),
    Start(nat),
}

impl View for Ask {
    type V = AskView;

    open spec fn view(&self) -> AskView {
        match self {
            Ask::Silent => AskView::Silent,
            Ask::Show(state) => AskView::Show(state@),
            Ask::Start(serial) => AskView::Start(*serial as nat),
        }
    }
}

impl AdvisoryView {
    /// The state after a row was looked at, and what that gives.
    pub open spec fn asked(self, node: u32, candidate: bool, now: u64) -> (AdvisoryView, AskView) {
        if !self.enabled || !candidate {
            (AdvisoryView { armed: None, ..self }, AskView::Silent)
        } else if self.results.dom().contains(node) {
            (AdvisoryView { armed: None, ..self }, AskView::Show(self.results[node]))
        } else if self.pending.dom().contains(node) {
            (self, AskView::Show(HolderView::Pending))
        } else {
            match braked(self.armed, node, now) {
                Brake::Rearm => (
                    AdvisoryView { armed: Some(Armed { node, since: now }), ..self },
                    AskView::Show(HolderView::Pending),
                ),
                Brake::Wait => (self, AskView::Show(HolderView::Pending)),
                Brake::Fire => (
                    AdvisoryView {
                        armed: None,
                        next_serial: self.next_serial + 1,
                        pending: self.pending.insert(node, (self.next_serial + 1) as u64),
                        results: if self.results.len() >= MAX_CACHED {
                            Map::empty()
                        } else {
                            self.results
                        },
                        ..self
                    },
                    AskView::Start(self.next_serial + 1),
                ),
            }
        }
    }

    /// The state after an answer arrived: one of another epoch, or to a question
    /// that is no longer the outstanding one, changes nothing.
    pub open spec fn landed(
        self,
        epoch: u64,
        node: u32,
        serial: u64,
        state: HolderView,
        current: u64,
    ) -> AdvisoryView {
        if epoch != current || !self.pending.dom().contains(node) || self.pending[node] != serial {
            self
        } else {
            AdvisoryView {
                pending: self.pending.remove(node),
                results: self.results.insert(node, state),
                ..self
            }
        }
    }

    /// The state after some answers arrived, in order.
    pub open spec fn all_landed(self, msgs: Seq<JobMessage>, current: u64) -> AdvisoryView
        decreases msgs.len(),
    {
        if msgs.len() == 0 {
            self
        } else {
            let m = msgs.last();
            self.all_landed(msgs.drop_last(), current).landed(
                m.epoch,
                m.node,
                m.serial,
                m.state@,
                current,
            )
        }
    }
}

/// The values of a map's states.
pub open spec fn viewed(m: Map<u32, HolderState>) -> Map<u32, HolderView> {
    m.map_values(|s: HolderState| s@)
}

impl View for HolderRuntime {
    type V = AdvisoryView;

    open spec fn view(&self) -> AdvisoryView {
        AdvisoryView {
            enabled: self.enabled,
            next_serial: self.next_serial as nat,
            armed: self.armed,
            pending: self.pending@,
            results: viewed(self.results@),
        }
    }
}

impl HolderRuntime {
    /// Nothing asked and nothing known.
    pub fn new(enabled: bool) -> (rt: HolderRuntime)
        ensures
            rt@ == (AdvisoryView {
                enabled,
                next_serial: 0,
                armed: None,
                pending: Map::empty(),
                results: Map::empty(),
            }),
    {
        let rt = HolderRuntime {
            enabled,
            next_serial: 0,
            armed: None,
            pending: HashMap::new(),
            results: HashMap::new(),
        };
        assert(rt@ =~= (AdvisoryView {
            enabled,
            next_serial: 0,
            armed: None,
            pending: Map::empty(),
            results: Map::empty(),
        }));
        rt
    }

    /// Looks at a row; `candidate` says whether it is one to ask about. A row is
    /// asked about once it has rested under the cursor.
    pub fn state_for(&mut self, node: u32, candidate: bool, now: u64) -> (r: Ask)
        requires
            old(self).next_serial < u64::MAX,
        ensures
            final(self)@ == old(self)@.asked(node, candidate, now).0,
            r@ == old(self)@.asked(node, candidate, now).1,
    {
        if !self.enabled || !candidate {
            self.armed = None;
            return Ask::Silent;
        }
        if let Some(state) = self.results.get(&node) {
            let shown = state.copy();
            self.armed = None;
            return Ask::Show(shown);
        }
        if self.pending.contains_key(&node) {
            return Ask::Show(HolderState::Pending);
        }
        match brake(self.armed, node, now) {
            Brake::Rearm => {
                self.armed = Some(Armed { node, since: now });
                return Ask::Show(HolderState::Pending);
            },
            Brake::Wait => {
                return Ask::Show(HolderState::Pending);
            },
            Brake::Fire => {},
        }
        self.armed = None;
        assert(viewed(self.results@).dom() =~= self.results@.dom());
        if self.results.len() >= MAX_CACHED {
            self.results.clear();
            assert(viewed(self.results@) =~= Map::empty());
        }
        self.next_serial = self.next_serial + 1;
        let serial: u64 = self.next_serial;
        self.pending.insert(node, serial);
        assert(self@ =~= old(self)@.asked(node, candidate, now).0);
        Ask::Start(serial)
    }

    /// Takes note that a question could not be started: who holds the row stays
    /// unknown for this reason.
    pub fn start_failed(&mut self, node: u32, why: &'static str) -> (state: HolderState)
        ensures
            state@ == HolderView::Failed(why@),
            final(self)@ == (AdvisoryView {
                pending: old(self)@.pending.remove(node),
                results: old(self)@.results.insert(node, state@),
                ..old(self)@
            }),
    {
        self.pending.remove(&node);
        self.results.insert(node, HolderState::Failed(why));
        assert(self@ =~= (AdvisoryView {
            pending: old(self)@.pending.remove(node),
            results: old(self)@.results.insert(node, HolderView::Failed(why@)),
            ..old(self)@
        }));
        HolderState::Failed(why)
    }

    /// Whether a question is outstanding or about to be asked.
    pub fn has_pending(&self) -> (r: bool)
        ensures
            r == (!self@.pending.dom().is_empty() || self@.armed is Some),
    {
        let r: bool = self.pending.len() > 0;
        proof {
            if self@.pending.len() == 0 {
                assert(self@.pending.dom() =~= Set::empty());
            } else {
                assert(self@.pending.dom().contains(self@.pending.dom().choose()));
            }
        }
        r || self.armed.is_some()
    }

    fn land(&mut self, msg: &JobMessage, current: u64)
        ensures
            final(self)@ == old(self)@.landed(
                msg.epoch,
                msg.node,
                msg.serial,
                msg.state@,
                current,
            ),
    {
        if msg.epoch != current {
            return;
        }
        let expected: bool = match self.pending.get(&msg.node) {
            Some(serial) => *serial == msg.serial,
            None => false,
        };
        if !expected {
            return;
        }
        self.pending.remove(&msg.node);
        self.results.insert(msg.node, msg.state.copy());
        assert(self@ =~= old(self)@.landed(
            msg.epoch,
            msg.node,
            msg.serial,
            msg.state@,
            current,
        ));
    }

    /// Takes in the answers that arrived; `true` if there were any.
    pub fn poll(&mut self, msgs: &[JobMessage], current_epoch: u64) -> (r: bool)
        ensures
            final(self)@ == old(self)@.all_landed(msgs@, current_epoch),
            r == (msgs@.len() > 0),
    {
        let mut i: usize = 0;
        let ghost before = self@;
        assert(msgs@.take(0) =~= Seq::empty());
        while i < msgs.len()
            invariant
                i <= msgs@.len(),
                self@ == before.all_landed(msgs@.take(i as int), current_epoch),
            decreases msgs@.len() - i,
        {
            proof {
                assert(msgs@.take(i + 1).drop_last() =~= msgs@.take(i as int));
                assert(msgs@.take(i + 1).last() == msgs@[i as int]);
            }
            self.land(&msgs[i], current_epoch);
            i = i + 1;
        }
        assert(msgs@.take(i as int) =~= msgs@);
        msgs.len() > 0
    }

    /// Drops everything: a deletion changed what the answers were about.
    pub fn on_deletion(&mut self)
        ensures
            final(self)@ == (AdvisoryView {
                armed: None,
                pending: Map::empty(),
                results: Map::empty(),
                ..old(self)@
            }),
    {
        self.armed = None;
        self.pending.clear();
        self.results.clear();
        assert(self@ =~= (AdvisoryView {
            armed: None,
            pending: Map::empty(),
            results: Map::empty(),
            ..old(self)@
        }));
    }
}

/// A question starts only about a row that has rested under the cursor.
pub proof fn law_rows_settle_first(v: AdvisoryView, node: u32, candidate: bool, now: u64)
    requires
        v.asked(node, candidate, now).1 is Start,
    ensures
        v.enabled,
        candidate,
        v.armed matches Some(a) && a.node == node && now >= a.since + DEBOUNCE,
{
}

/// A switched-off advisory shows and asks nothing.
pub proof fn law_disabled_is_silent(v: AdvisoryView, node: u32, candidate: bool, now: u64)
    requires
        !v.enabled,
    ensures
        v.asked(node, candidate, now).1 is Silent,
        v.asked(node, candidate, now).0.armed is None,
        v.asked(node, candidate, now).0.pending == v.pending,
{
}

/// An answer of another epoch never counts.
pub proof fn law_stale_answers_are_dropped(
    v: AdvisoryView,
    epoch: u64,
    node: u32,
    serial: u64,
    state: HolderView,
    current: u64,
)
    requires
        epoch != current,
    ensures
        v.landed(epoch, node, serial, state, current) == v,
{
}

/// An answer names the holders and, for several, counts them; no holder is never told
/// as a proof, and no answer never as a number.
pub proof fn law_answers_are_told(named: Seq<char>, total: nat, spinner: char, why: Seq<char>)
    ensures
        total > 0 ==> text::starts_with(
            holder_text(HolderView::Known { named, total }, spinner),
            "open in "@,
        ) && text::ends_with(holder_text(HolderView::Known { named, total }, spinner), named),
        total > 1 ==> text::occurs_in(
            holder_text(HolderView::Known { named, total }, spinner),
            text::dec(total) + " processes · "@,
        ),
        text::starts_with(
            holder_text(HolderView::Known { named, total: 0 }, spinner),
            "no holder found · not proof"@,
        ),
        text::starts_with(
            holder_text(HolderView::Failed(why), spinner),
            "open handles unknown · "@,
        ),
        holder_text(HolderView::Pending, spinner)[0] == spinner,
{
    let n = text::dec(total);
    text::lemma_ends("open in "@, named);
    text::lemma_ends("open in "@ + n + " processes · "@, named);
    text::lemma_itself("open in "@);
    text::lemma_extend_by("open in "@, "open in "@, n, " processes · "@);
    text::lemma_extend("open in "@ + n + " processes · "@, "open in "@, named);
    text::lemma_side_by_side("open in "@, n, " processes · "@);
    text::lemma_extend("open in "@ + n + " processes · "@, n + " processes · "@, named);
    text::lemma_ends("open handles unknown · "@, why);
    reveal_strlit("no holder found · not proof — many real locks stay invisible");
    reveal_strlit("no holder found · not proof");
    assert("no holder found · not proof — many real locks stay invisible"@.take(27)
        =~= "no holder found · not proof"@);
}

/// A holder is told with its number, behind its name, or behind its service's where it
/// has no name.
pub proof fn law_labels_tell_the_process(h: Holder)
    ensures
        text::occurs_in(holder_label(h), text::dec(h.pid as nat)),
        h.name@.len() > 0 ==> text::starts_with(holder_label(h), h.name@),
        h.name@.len() == 0 ==> (h.service matches Some(s) ==> s@.len() > 0 ==> text::starts_with(
            holder_label(h),
            s@,
        )),
{
    let n = text::dec(h.pid as nat);
    let name = holder_name(h);
    text::lemma_occurs("pid "@, n, Seq::empty());
    assert("pid "@ + n + Seq::<char>::empty() =~= "pid "@ + n);
    text::lemma_occurs(name + " ("@, n, ")"@);
    text::lemma_itself(name);
    text::lemma_extend_by(name, name, " ("@, n);
    text::lemma_extend(name + " ("@ + n, name, ")"@);
}

/// The first two holders are named and the others counted: named and counted together
/// are as many as there are.
pub proof fn law_two_holders_are_named(holders: Seq<Holder>, total: nat, i: int)
    requires
        0 <= i < 2,
        i < holders.len() <= total,
    ensures
        text::occurs_in(summary(holders, total), holder_label(holders[i])),
        total > 2 && holders.len() >= 2 ==> text::ends_with(
            summary(holders, total),
            "+"@ + text::dec((total - 2) as nat) + " more"@,
        ),
        holders.len() == 1 && total > 1 ==> text::ends_with(
            summary(holders, total),
            "+"@ + text::dec((total - 1) as nat) + " more"@,
        ),
        total <= 2 && total == holders.len() ==> summary(holders, total) == joined_labels(
            holders,
            total,
        ),
{
    reveal_with_fuel(joined_labels, 3);
    let a = holder_label(holders[0]);
    text::lemma_itself(a);
    let n: nat = if holders.len() == 1 {
        1
    } else {
        2
    };
    if n == 2 {
        let b = holder_label(holders[1]);
        text::lemma_extend_by(a, a, ", "@, b);
        text::lemma_occurs(a + ", "@, b, Seq::empty());
        assert(a + ", "@ + b + Seq::<char>::empty() =~= a + ", "@ + b);
    }
    let names = joined_labels(holders, n);
    assert(text::occurs_in(names, holder_label(holders[i])));
    let more = "+"@ + text::dec((total - n) as nat) + " more"@;
    text::lemma_extend_by(names, holder_label(holders[i]), ", "@, more);
    text::lemma_ends(names + ", "@, more);
}

/// A row has to rest under the cursor for a quarter of a second; another row starts
/// again.
pub proof fn law_rows_rest_a_quarter_second(a: Armed, node: u32, now: u64)
    requires
        a.since <= now,
    ensures
        a.node == node ==> (braked(Some(a), node, now) is Fire <==> now - a.since >= 250_000_000),
        a.node != node ==> braked(Some(a), node, now) is Rearm,
        braked(None, node, now) is Rearm,
{
}

/// A question that starts is out until its answer lands, which is then shown; the same
/// row starts no other meanwhile.
pub proof fn law_rows_are_asked_about_once(
    v: AdvisoryView,
    node: u32,
    now: u64,
    later: u64,
    serial: nat,
    state: HolderView,
    epoch: u64,
)
    requires
        v.asked(node, true, now).1 == AskView::Start(serial),
        v.next_serial < u64::MAX,
    ensures
        serial > v.next_serial,
        v.asked(node, true, now).0.asked(node, true, later).1 == AskView::Show(HolderView::Pending),
        v.asked(node, true, now).0.landed(epoch, node, serial as u64, state, epoch).asked(
            node,
            true,
            later,
        ).1 == AskView::Show(state),
        !v.asked(node, true, now).0.landed(epoch, node, serial as u64, state, epoch).pending.dom().contains(
        node),
{
}

} // verus!
