//! When the bars and the donut are in motion. Times are nanoseconds on one
//! clock.

use vstd::prelude::*;

verus! {

/// How long an animation runs: 150 milliseconds.
pub const DURATION: u64 = 150_000_000;

/// Whether an animation that started at `start` still runs at `now`.
pub open spec fn running(start: u64, now: u64) -> bool {
    now < start + DURATION
}

/// Tests whether an animation that started at `start` still runs at `now`. An
/// earlier `now` counts as the start.
pub fn is_active_at(start: u64, now: u64) -> (r: bool)
    ensures
        r == running(start, now),
{
    now < start || now - start < DURATION
}

/// When the view last changed, as far as motion is concerned.
#[derive(Debug, Clone, Copy, PartialEq, Eq)]
pub struct Motion {
    pub enabled: bool,
    /// When the last animation started; never set while disabled.
    pub anim_start: Option<u64>,
    /// The count of view changes at the last observation; absent before the
    /// first one.
    pub seq: Option<u64>,
}

impl Motion {
    /// Whether a disabled motion has no animation.
    pub open spec fn wf(&self) -> bool {
        !self.enabled ==> self.anim_start is None
    }

    /// At rest, before any observation.
    pub fn new(enabled: bool) -> (m: Motion)
        ensures
            m.wf(),
            m == (Motion { enabled, anim_start: None, seq: None }),
    {
        Motion { enabled, anim_start: None, seq: None }
    }

    /// The motion after the count of view changes was observed: a count other
    /// than the last one starts an animation, if motion is enabled. The first
    /// observation starts none: there is nothing to animate from yet.
    pub open spec fn observed(self, seq: u64, now: u64) -> Motion {
        Motion {
            enabled: self.enabled,
            anim_start: if self.enabled && (self.seq matches Some(last) && last != seq) {
                Some(now)
            } else {
                self.anim_start
            },
            seq: Some(seq),
        }
    }

    /// Observes the count of view changes.
    pub fn observe_at(&mut self, seq: u64, now: u64)
        requires
            old(self).wf(),
        ensures
            final(self).wf(),
            *final(self) == old(self).observed(seq, now),
            old(self).seq is None ==> final(self).anim_start == old(self).anim_start,
    {
        let changed: bool = match self.seq {
            Some(last) => last != seq,
            None => false,
        };
        if self.enabled && changed {
            self.anim_start = Some(now);
        }
        self.seq = Some(seq);
    }

    /// Whether an animation is in flight.
    pub open spec fn active(self, now: u64) -> bool {
        self.anim_start matches Some(start) && running(start, now)
    }

    /// Tests whether an animation is in flight.
    pub fn is_active_at(&self, now: u64) -> (r: bool)
        ensures
            r == self.active(now),
    {
        match self.anim_start {
            Some(start) => is_active_at(start, now),
            None => false,
        }
    }

    /// The start of the animation to draw at `now`; absent where everything is
    /// drawn at its target.
    pub fn drawn_from(&self, now: u64) -> (r: Option<u64>)
        requires
            self.wf(),
        ensures
            r == (if self.active(now) {
                self.anim_start
            } else {
                None
            }),
    {
        if self.is_active_at(now) {
            self.anim_start
        } else {
            None
        }
    }
}

/// Disabled motion never moves, whatever is observed.
pub proof fn law_disabled_is_at_rest(m: Motion, seq: u64, now: u64, later: u64)
    requires
        m.wf(),
        !m.enabled,
    ensures
        !m.observed(seq, now).active(later),
{
}

/// Observing the same count again starts nothing: live updates never restart an
/// animation.
pub proof fn law_same_count_starts_nothing(m: Motion, seq: u64, now: u64)
    requires
        m.seq == Some(seq),
    ensures
        m.observed(seq, now) == m,
{
}

/// The first observation never starts an animation, whatever it counts: the
/// initial screen appears at rest.
pub proof fn law_first_observation_is_at_rest(
    m: Motion,
    enabled: bool,
    seq: u64,
    now: u64,
    later: u64,
)
    requires
        m == (Motion { enabled, anim_start: None, seq: None }),
    ensures
        !m.observed(seq, now).active(later),
{
}

/// An animation is over once its duration has passed.
pub proof fn law_animations_end(m: Motion, seq: u64, now: u64, later: u64)
    requires
        m.seq matches Some(last) && last != seq,
        later >= now + DURATION,
    ensures
        !m.observed(seq, now).active(later) || !m.enabled,
{
}

/// A view change sets things in motion for a hundred and fifty milliseconds.
pub proof fn law_changes_animate(m: Motion, seq: u64, now: u64, later: u64)
    requires
        m.enabled,
        m.seq matches Some(last) && last != seq,
        now <= later,
    ensures
        m.observed(seq, now).active(later) <==> later - now < 150_000_000,
        m.observed(seq, now).seq == Some(seq),
        m.observed(seq, now).enabled,
{
}

} // verus!
