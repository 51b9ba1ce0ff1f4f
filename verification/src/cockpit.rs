//! The decisions of the render loop: how long to wait for input, what the end of
//! a scan or of a deletion changes, and what each frame shows on top.

use crate::anim;
use crate::anim::Motion;
use crate::caps::GlyphLevel;
use crate::fmt;
use crate::fmt::humanize_duration;
use crate::model::{DirId, ViewSnapshot};
use crate::session::Session;
use crate::size;
use crate::size::push_human;
use crate::text;
use crate::text::{copy_str, push_dec};
use crate::toast;
use crate::toast::{Toast, ToastQueue, TTL};
use std::sync::Arc;
use vstd::prelude::*;
use vstd::string::*;

verus! {

/// How long the loop waits for input while something moves: 33 milliseconds, in
/// nanoseconds.
pub const FRAME: u64 = 33_000_000;

/// How long it waits when nothing does: an hour.
pub const IDLE_POLL: u64 = 3_600_000_000_000;

/// The state of the render loop.
pub struct Cockpit {
    pub session: Session,
    pub toasts: ToastQueue,
    pub motion: Motion,
    /// The generation of the last view that was served from the finished tree.
    pub generation: u64,
}

/// What became of the dump at the end of a scan.
#[derive(Debug)]
pub enum DumpOutcome {
    NotRequested,
    /// Written to this path.
    Written(String),
    /// Not written: the scan was cancelled, or writing failed.
    Unavailable,
}

/// What to do about the dump at the end of a scan.
#[derive(Debug, Clone, Copy, PartialEq, Eq, Structural)]
pub enum DumpPlan {
    NotRequested,
    /// A cancelled scan is not dumped.
    Skip,
    Write,
}

/// Decides whether a dump is written.
pub fn dump_plan(requested: bool, cancelled: bool) -> (p: DumpPlan)
    ensures
        p == (if !requested {
            DumpPlan::NotRequested
        } else if cancelled {
            DumpPlan::Skip
        } else {
            DumpPlan::Write
        }),
{
    if !requested {
        DumpPlan::NotRequested
    } else if cancelled {
        DumpPlan::Skip
    } else {
        DumpPlan::Write
    }
}

/// What a deletion did.
#[derive(Debug, Clone, Copy, PartialEq, Eq, Structural)]
pub struct DeleteReport {
    pub deleted: u64,
    /// Disk bytes freed.
    pub freed: u64,
    pub failed: u64,
    pub skipped: u64,
}

/// What the notification about a deletion says.
pub open spec fn deletion_text(r: DeleteReport) -> Seq<char> {
    if r.failed > 0 || r.skipped > 0 {
        "deleted "@ + text::dec(r.deleted as nat) + " ("@ + size::human(r.freed)
            + " freed), failed "@ + text::dec(r.failed as nat) + ", skipped "@ + text::dec(
            r.skipped as nat,
        ) + " — see log"@
    } else {
        "deleted "@ + text::dec(r.deleted as nat) + " entries, "@ + size::human(r.freed)
            + " freed"@
    }
}

/// The notification about a deletion.
pub fn deletion_toast(r: &DeleteReport) -> (s: String)
    ensures
        s@ == deletion_text(*r),
{
    let mut s = copy_str("deleted ");
    push_dec(&mut s, r.deleted as u128);
    if r.failed > 0 || r.skipped > 0 {
        s.append(" (");
        push_human(&mut s, r.freed);
        s.append(" freed), failed ");
        push_dec(&mut s, r.failed as u128);
        s.append(", skipped ");
        push_dec(&mut s, r.skipped as u128);
        s.append(" — see log");
    } else {
        s.append(" entries, ");
        push_human(&mut s, r.freed);
        s.append(" freed");
    }
    s
}

/// The first directory of a climb that is still there.
pub open spec fn survivor(climb: Seq<(DirId, bool)>) -> DirId
    decreases climb.len(),
{
    if climb.len() <= 1 || !climb[0].1 {
        climb[0].0
    } else {
        survivor(climb.drop_first())
    }
}

/// The nearest directory that survived a deletion, on the climb from the viewed
/// one to the scan root; each is listed with whether it was removed. The scan
/// root never is.
pub fn surviving_ancestor(climb: &[(DirId, bool)]) -> (dir: DirId)
    requires
        climb@.len() > 0,
        !climb@.last().1,
    ensures
        dir == survivor(climb@),
        exists|k: int|
            {
                &&& 0 <= k < climb@.len()
                &&& #[trigger] climb@[k] == (dir, false)
                &&& forall|j: int| 0 <= j < k ==> climb@[j].1
            },
{
    let mut i: usize = 0;
    assert(climb@.skip(0) =~= climb@);
    while climb[i].1
        invariant
            i < climb@.len(),
            !climb@.last().1,
            survivor(climb@) == survivor(climb@.skip(i as int)),
            forall|j: int| 0 <= j < i ==> climb@[j].1,
        decreases climb@.len() - i,
    {
        assert(i + 1 < climb@.len());
        assert(climb@.skip(i as int).drop_first() =~= climb@.skip(i + 1));
        i = i + 1;
    }
    assert(climb@[i as int] == (climb@[i as int].0, false));
    climb[i].0
}

/// The spinner's characters.
pub open spec fn spinner_glyphs(ascii: bool) -> Seq<char> {
    if ascii {
        seq!['|', '/', '-', '\\']
    } else {
        seq!['⠋', '⠙', '⠹', '⠸', '⠼', '⠴', '⠦', '⠧', '⠇', '⠏']
    }
}

/// The spinner's character after some time, in nanoseconds: it turns every 80
/// milliseconds.
pub fn spinner_frame(glyphs: GlyphLevel, elapsed: u64) -> (c: char)
    ensures
        ({
            let all = spinner_glyphs(glyphs is Ascii);
            c == all[(elapsed / 80_000_000) as int % all.len() as int]
        }),
{
    let tick: u64 = elapsed / 80_000_000;
    match glyphs {
        GlyphLevel::Ascii => {
            let all = ['|', '/', '-', '\\'];
            assert(all@ =~= spinner_glyphs(true));
            all[(tick % 4) as usize]
        },
        _ => {
            let all = ['⠋', '⠙', '⠹', '⠸', '⠼', '⠴', '⠦', '⠧', '⠇', '⠏'];
            assert(all@ =~= spinner_glyphs(false));
            all[(tick % 10) as usize]
        },
    }
}

/// What lies on top of the frame.
#[derive(Debug, Clone, Copy, PartialEq, Eq, Structural)]
pub enum Overlay {
    Palette,
    Confirm,
    Review,
    Freeable,
    Cheatsheet,
    Nothing,
}

/// Whether the last of some notifications is `message`, pushed at `now`, and the
/// others are as before.
pub open spec fn announces(
    before: Seq<Toast>,
    after: Seq<Toast>,
    message: Seq<char>,
    now: u64,
) -> bool {
    &&& after.len() == before.len() + 1
    &&& after.drop_last() == before
    &&& after.last().message@ == message
    &&& after.last().expires_at == now + TTL
}

/// The notification about a finished scan.
pub open spec fn finished_text(elapsed: nat) -> Seq<char> {
    "scan finished in "@ + fmt::duration_text(elapsed)
}

impl Cockpit {
    /// A loop over a session whose scan has just started.
    pub fn new(session: Session, animate: bool) -> (c: Cockpit)
        requires
            session.wf(),
        ensures
            c.session == session,
            c.toasts.toasts@.len() == 0,
            c.motion == (Motion { enabled: animate, anim_start: None, seq: None }),
            c.generation == 0,
    {
        Cockpit {
            session,
            toasts: ToastQueue::new(),
            motion: Motion::new(animate),
            generation: 0,
        }
    }

    /// Whether something on the screen can change without input: a running scan,
    /// an animation, a message or a notification.
    pub open spec fn restless(&self, now: u64) -> bool {
        ||| self.session.scanning
        ||| self.motion.active(now)
        ||| self.session.flash.message is Some
        ||| self.toasts.toasts@.len() > 0
    }

    /// Tests whether something on the screen can change without input.
    pub fn needs_frequent_polling(&self, now: u64) -> (r: bool)
        ensures
            r == self.restless(now),
    {
        self.session.scanning || self.motion.is_active_at(now) || self.session.flash.is_set()
            || !self.toasts.is_empty()
    }

    /// How long to wait for input.
    pub fn poll_timeout(&self, now: u64) -> (t: u64)
        ensures
            t == (if self.restless(now) {
                FRAME
            } else {
                IDLE_POLL
            }),
            self.restless(now) ==> t == 33_000_000,
            !self.restless(now) ==> t == 3600 * 1_000_000_000,
    {
        if self.needs_frequent_polling(now) {
            FRAME
        } else {
            IDLE_POLL
        }
    }

    /// Takes note that the scan is over. The result is the directory whose view
    /// is built next: the one that a navigation waits for, else the viewed one.
    pub fn scan_finished(&mut self, dump: &DumpOutcome, elapsed: u128, now: u64) -> (dir: DirId)
        requires
            old(self).session.wf(),
            now + TTL <= u64::MAX,
        ensures
            final(self).session == (Session { scanning: false, ..old(self).session }),
            final(self).motion == old(self).motion,
            final(self).generation == old(self).session.ui.snapshot.generation,
            dir == (match old(self).session.ui.pending_nav {
                Some(d) => d,
                None => old(self).session.ui.snapshot.dir,
            }),
            match dump {
                DumpOutcome::Written(path) => exists|mid: Seq<Toast>|
                    {
                        &&& #[trigger] announces(
                            old(self).toasts.toasts@,
                            mid,
                            "dump written: "@ + path@,
                            now,
                        )
                        &&& announces(
                            mid,
                            final(self).toasts.toasts@,
                            finished_text(elapsed as nat),
                            now,
                        )
                    },
                _ => announces(
                    old(self).toasts.toasts@,
                    final(self).toasts.toasts@,
                    finished_text(elapsed as nat),
                    now,
                ),
            },
    {
        match dump {
            DumpOutcome::Written(path) => {
                let mut s = copy_str("dump written: ");
                s.append(path.as_str());
                self.toasts.push_at(now, s.as_str());
                assert(announces(
                    old(self).toasts.toasts@,
                    self.toasts.toasts@,
                    "dump written: "@ + path@,
                    now,
                ));
            },
            _ => {},
        }
        let mut s = copy_str("scan finished in ");
        s.append(humanize_duration(elapsed).as_str());
        self.toasts.push_at(now, s.as_str());
        self.generation = self.session.ui.snapshot().generation;
        self.session.scanning = false;
        match self.session.ui.pending_nav() {
            Some(d) => d,
            None => self.session.ui.snapshot().dir,
        }
    }

    /// The directory whose view the finished tree is asked for in this frame.
    pub fn view_to_serve(&self) -> (r: Option<DirId>)
        ensures
            r == (if self.session.scanning {
                None
            } else {
                self.session.ui.pending_nav
            }),
    {
        if self.session.scanning {
            None
        } else {
            self.session.ui.pending_nav()
        }
    }

    /// The generation of the next view that is served from the finished tree.
    pub fn next_generation(&mut self) -> (g: u64)
        requires
            old(self).generation < u64::MAX,
        ensures
            g == old(self).generation + 1,
            *final(self) == (Cockpit { generation: g, ..*old(self) }),
    {
        self.generation = self.generation + 1;
        self.generation
    }

    /// Shows a snapshot.
    pub fn show(&mut self, snapshot: Arc<ViewSnapshot>)
        requires
            old(self).session.wf(),
            old(self).session.ui.republishes(*snapshot) ==> crate::state::order_alike(
                old(self).session.ui.snapshot.rows@,
                snapshot.rows@,
            ),
            old(self).session.ui.view_change_seq < u64::MAX,
        ensures
            final(self).session.wf(),
            old(self).session.ui.adopts(final(self).session.ui, snapshot),
            *final(self) == (Cockpit {
                session: Session { ui: final(self).session.ui, ..old(self).session },
                ..*old(self)
            }),
    {
        self.session.ui.apply_snapshot(snapshot);
    }

    /// Takes note of what a deletion did. The result is the directory whose view
    /// is built next: the nearest one that is still there.
    pub fn deletion_finished(
        &mut self,
        report: &DeleteReport,
        climb: &[(DirId, bool)],
        now: u64,
    ) -> (dir: DirId)
        requires
            climb@.len() > 0,
            !climb@.last().1,
            now + TTL <= u64::MAX,
        ensures
            dir == survivor(climb@),
            announces(
                old(self).toasts.toasts@,
                final(self).toasts.toasts@,
                deletion_text(*report),
                now,
            ),
            *final(self) == (Cockpit { toasts: final(self).toasts, ..*old(self) }),
    {
        let s = deletion_toast(report);
        self.toasts.push_at(now, s.as_str());
        surviving_ancestor(climb)
    }

    /// What lies on top of the frame.
    pub open spec fn top(&self) -> Overlay {
        if self.session.palette is Some {
            Overlay::Palette
        } else if self.session.ui.confirm is Some {
            Overlay::Confirm
        } else if self.session.ui.review is Some {
            Overlay::Review
        } else if self.session.freeable_open {
            Overlay::Freeable
        } else if self.session.ui.cheatsheet_open {
            Overlay::Cheatsheet
        } else {
            Overlay::Nothing
        }
    }

    /// Decides what lies on top of the frame.
    pub fn overlay(&self) -> (r: Overlay)
        ensures
            r == self.top(),
    {
        if self.session.palette.is_some() {
            Overlay::Palette
        } else if self.session.ui.confirm().is_some() {
            Overlay::Confirm
        } else if self.session.ui.review().is_some() {
            Overlay::Review
        } else if self.session.freeable_open {
            Overlay::Freeable
        } else if self.session.ui.cheatsheet_open() {
            Overlay::Cheatsheet
        } else {
            Overlay::Nothing
        }
    }

    /// The notifications of this frame: what has expired is dropped, and none
    /// shows over the delete confirmation.
    pub fn toast_texts(&mut self, now: u64) -> (r: Vec<String>)
        ensures
            final(self).toasts.toasts@ == toast::alive(old(self).toasts.toasts@, now),
            *final(self) == (Cockpit { toasts: final(self).toasts, ..*old(self) }),
            old(self).session.ui.confirm is Some ==> r@.len() == 0,
            old(self).session.ui.confirm is None ==> {
                &&& r@.len() == final(self).toasts.toasts@.len()
                &&& forall|i: int|
                    0 <= i < r@.len() ==> (#[trigger] r@[i])@
                        == final(self).toasts.toasts@[i].message@
            },
    {
        let hidden: bool = self.session.ui.confirm().is_some();
        let active = self.toasts.active_at(now);
        let mut r: Vec<String> = Vec::new();
        if hidden {
            return r;
        }
        let mut i: usize = 0;
        while i < active.len()
            invariant
                i <= active@.len(),
                r@.len() == i,
                forall|k: int| 0 <= k < i ==> (#[trigger] r@[k])@ == active@[k].message@,
            decreases active@.len() - i,
        {
            r.push(copy_str(active[i].message.as_str()));
            i = i + 1;
        }
        r
    }
}

/// Once everything has settled the loop waits for input alone.
pub proof fn law_settled_loop_is_idle(c: Cockpit, now: u64)
    requires
        !c.session.scanning,
        c.motion.anim_start matches Some(start) ==> now >= start + anim::DURATION,
        c.session.flash.message is None,
        c.toasts.toasts@.len() == 0,
    ensures
        !c.restless(now),
{
}

/// A deletion tells how many entries are gone and what that freed; what failed or was
/// skipped is told exactly if there is any, each under its own name.
pub proof fn law_deletions_are_told(r: DeleteReport)
    ensures
        ({
            let s = deletion_text(r);
            let whole = r.failed == 0 && r.skipped == 0;
            &&& text::starts_with(s, "deleted "@ + text::dec(r.deleted as nat))
            &&& whole ==> text::ends_with(s, size::human(r.freed) + " freed"@)
            &&& !whole ==> text::occurs_in(s, size::human(r.freed) + " freed), failed "@)
            &&& !whole ==> text::occurs_in(
                s,
                " freed), failed "@ + text::dec(r.failed as nat) + ", skipped "@,
            )
            &&& !whole ==> text::ends_with(s, text::dec(r.skipped as nat) + " — see log"@)
        }),
{
    let n = text::dec(r.deleted as nat);
    let l0 = "deleted "@ + n;
    let freed = size::human(r.freed);
    text::lemma_itself(l0);
    if r.failed > 0 || r.skipped > 0 {
        let failed = text::dec(r.failed as nat);
        let skipped = text::dec(r.skipped as nat);
        let l1 = l0 + " ("@ + freed;
        let l2 = l1 + " freed), failed "@ + failed + ", skipped "@;
        text::lemma_extend_by(l0, l0, " ("@, freed);
        text::lemma_extend_by(l1, l0, " freed), failed "@, failed);
        text::lemma_extend(l1 + " freed), failed "@ + failed, l0, ", skipped "@);
        text::lemma_extend_by(l2, l0, skipped, " — see log"@);
        let a = freed + " freed), failed "@;
        text::lemma_side_by_side(l0 + " ("@, freed, " freed), failed "@);
        text::lemma_extend_by(l1 + " freed), failed "@, a, failed, ", skipped "@);
        text::lemma_extend_by(l2, a, skipped, " — see log"@);
        let b = " freed), failed "@ + failed + ", skipped "@;
        text::lemma_side_by_side(l1, " freed), failed "@, failed);
        text::lemma_side_by_side(l1, " freed), failed "@ + failed, ", skipped "@);
        text::lemma_extend_by(l2, b, skipped, " — see log"@);
        text::lemma_side_by_side(l2, skipped, " — see log"@);
    } else {
        let l1 = l0 + " entries, "@;
        text::lemma_extend(l0, l0, " entries, "@);
        text::lemma_extend_by(l1, l0, freed, " freed"@);
        text::lemma_side_by_side(l1, freed, " freed"@);
    }
}

/// After a deletion the view goes to the nearest directory above that is still there.
pub proof fn law_view_climbs_to_a_survivor(climb: Seq<(DirId, bool)>, k: int)
    requires
        0 <= k < climb.len(),
        !climb[k].1,
        forall|j: int| 0 <= j < k ==> (#[trigger] climb[j]).1,
    ensures
        survivor(climb) == climb[k].0,
    decreases climb.len(),
{
    if k > 0 {
        assert(climb[0].1);
        let rest = climb.drop_first();
        assert forall|j: int| 0 <= j < k - 1 implies (#[trigger] rest[j]).1 by {
            assert(climb[j + 1].1);
        }
        law_view_climbs_to_a_survivor(rest, k - 1);
    }
}

/// The spinner moves: no two of its glyphs are the same, and in ASCII they are ASCII.
pub proof fn law_spinner_moves(ascii: bool, i: int, j: int)
    requires
        0 <= i < j < spinner_glyphs(ascii).len(),
    ensures
        spinner_glyphs(ascii)[i] != spinner_glyphs(ascii)[j],
        ascii ==> (spinner_glyphs(ascii)[i] as u32) < 128,
{
}

/// An announcement is told behind the others, for four seconds.
pub proof fn law_announcements_last(
    before: Seq<Toast>,
    after: Seq<Toast>,
    message: Seq<char>,
    now: u64,
    i: int,
)
    requires
        announces(before, after, message, now),
        0 <= i < before.len(),
    ensures
        after.last().message@ == message,
        after.last().expires_at - now == 4_000_000_000,
        after[i] == before[i],
{
    assert(after.drop_last()[i] == before[i]);
}

/// The end of a scan is told with the time that it took.
pub proof fn law_scan_end_tells_the_time(elapsed: nat)
    ensures
        text::starts_with(finished_text(elapsed), "scan finished in "@),
        text::ends_with(finished_text(elapsed), fmt::duration_text(elapsed)),
{
    text::lemma_ends("scan finished in "@, fmt::duration_text(elapsed));
}

/// While the scan runs, something moves or a message shows, the screen is kept fresh.
pub proof fn law_restless_while_something_changes(c: Cockpit, now: u64)
    ensures
        c.session.scanning ==> c.restless(now),
        c.motion.active(now) ==> c.restless(now),
        c.session.flash.message is Some ==> c.restless(now),
        c.toasts.toasts@.len() > 0 ==> c.restless(now),
{
}

/// Something is drawn over the table exactly while something is open, and it is what has
/// the keyboard.
pub proof fn law_overlay_is_what_is_open(c: Cockpit)
    ensures
        c.top() is Nothing <==> !c.session.covered(),
        c.top() is Palette <==> c.session.palette is Some,
        c.top() is Confirm ==> c.session.ui.confirm is Some,
        c.top() is Review ==> c.session.ui.review is Some && c.session.ui.confirm is None,
        c.top() is Freeable ==> c.session.freeable_open,
        c.top() is Cheatsheet ==> c.session.ui.cheatsheet_open,
{
}

} // verus!
