//! Transient notifications: several stack, the oldest first, and each goes
//! after a while. Times are nanoseconds on one clock.

use crate::text::copy_str;
use vstd::prelude::*;

verus! {

/// One second in nanoseconds.
pub const SECOND: u64 = 1_000_000_000;

/// How long a toast stays once pushed.
pub const TTL: u64 = 4_000_000_000;

/// One active notification.
#[derive(Debug)]
pub struct Toast {
    pub message: String,
    pub expires_at: u64,
}

/// Active toasts in order of arrival.
#[derive(Debug)]
pub struct ToastQueue {
    pub toasts: Vec<Toast>,
}

/// The toasts that have not expired at a time, in order.
pub open spec fn alive(toasts: Seq<Toast>, now: u64) -> Seq<Toast> {
    toasts.filter(|t: Toast| t.expires_at > now)
}

impl Default for ToastQueue {
    fn default() -> (q: ToastQueue)
        ensures
            q.toasts@.len() == 0,
    {
        ToastQueue { toasts: Vec::new() }
    }
}

impl ToastQueue {
    /// A queue without toasts.
    pub fn new() -> (q: ToastQueue)
        ensures
            q.toasts@.len() == 0,
    {
        ToastQueue { toasts: Vec::new() }
    }

    /// Pushes a toast that expires [`TTL`] after `now`.
    pub fn push_at(&mut self, now: u64, message: &str)
        requires
            now + TTL <= u64::MAX,
        ensures
            final(self).toasts@.len() == old(self).toasts@.len() + 1,
            final(self).toasts@.drop_last() == old(self).toasts@,
            final(self).toasts@.last().message@ == message@,
            final(self).toasts@.last().expires_at == now + TTL,
            forall|pushes: Seq<(u64, Seq<char>)>| #[trigger]
                pushed(old(self).toasts@, pushes) ==> pushed(
                    final(self).toasts@,
                    pushes.push((now, message@)),
                ),
    {
        self.toasts.push(Toast { message: copy_str(message), expires_at: now + TTL });
        assert(self.toasts@.drop_last() =~= old(self).toasts@);
        assert forall|pushes: Seq<(u64, Seq<char>)>| #[trigger]
            pushed(old(self).toasts@, pushes) implies pushed(
            self.toasts@,
            pushes.push((now, message@)),
        ) by {
            assert(pushes.push((now, message@)).drop_last() =~= pushes);
        }
    }

    /// Drops what has expired at `now` and returns what remains.
    pub fn active_at(&mut self, now: u64) -> (r: &[Toast])
        ensures
            final(self).toasts@ == alive(old(self).toasts@, now),
            r@ == final(self).toasts@,
    {
        let mut i: usize = 0;
        let ghost start = self.toasts@;
        proof {
            assert(start.take(0) =~= Seq::<Toast>::empty());
            assert(alive(start.take(0), now) =~= Seq::<Toast>::empty()) by {
                reveal(Seq::filter);
            }
            assert(start.skip(0) =~= start);
        }
        let ghost mut done: int = 0;
        while i < self.toasts.len()
            invariant
                0 <= done <= start.len(),
                i <= self.toasts@.len(),
                self.toasts@.take(i as int) == alive(start.take(done), now),
                self.toasts@.skip(i as int) == start.skip(done),
            decreases self.toasts@.len() - i,
        {
            let ghost before = self.toasts@;
            proof {
                assert(before.skip(i as int).len() == start.skip(done).len());
                assert(before.skip(i as int)[0] == start.skip(done)[0]);
                assert(before[i as int] == start[done]);
                assert(start.take(done + 1).drop_last() =~= start.take(done));
                assert(start.take(done + 1).last() == start[done]);
                reveal(Seq::filter);
            }
            if self.toasts[i].expires_at > now {
                proof {
                    assert(before.take(i + 1) =~= before.take(i as int).push(before[i as int]));
                    assert(before.skip(i + 1) =~= before.skip(i as int).skip(1));
                    assert(start.skip(done + 1) =~= start.skip(done).skip(1));
                }
                i = i + 1;
            } else {
                self.toasts.remove(i);
                proof {
                    assert(self.toasts@.take(i as int) =~= before.take(i as int));
                    assert(self.toasts@.skip(i as int) =~= before.skip(i as int).skip(1));
                    assert(start.skip(done + 1) =~= start.skip(done).skip(1));
                }
            }
            proof {
                done = done + 1;
            }
        }
        proof {
            assert(start.skip(done).len() == 0);
            assert(start.take(done) =~= start);
            assert(self.toasts@.take(i as int) =~= self.toasts@);
        }
        self.toasts.as_slice()
    }

    /// Whether no toast is held, expired or not.
    pub fn is_empty(&self) -> (r: bool)
        ensures
            r == (self.toasts@.len() == 0),
    {
        self.toasts.len() == 0
    }
}

/// Asking twice gives what a single question at the later of the two times would:
/// pruning loses nothing that is still alive, and what was pruned stays gone
/// even if the second question is about an earlier time.
pub proof fn law_pruning_composes(toasts: Seq<Toast>, now: u64, other: u64)
    ensures
        alive(alive(toasts, now), other) == alive(
            toasts,
            if now <= other {
                other
            } else {
                now
            },
        ),
    decreases toasts.len(),
{
    reveal(Seq::filter);
    if toasts.len() > 0 {
        let rest = toasts.drop_last();
        law_pruning_composes(rest, now, other);
        let kept = alive(rest, now);
        if toasts.last().expires_at > now {
            assert(kept.push(toasts.last()).drop_last() =~= kept);
        }
    }
}

/// Whether toasts are those of some pushes, each a time and a message, in order.
pub open spec fn pushed(toasts: Seq<Toast>, pushes: Seq<(u64, Seq<char>)>) -> bool
    decreases pushes.len(),
{
    if pushes.len() == 0 {
        toasts.len() == 0
    } else {
        &&& toasts.len() > 0
        &&& pushed(toasts.drop_last(), pushes.drop_last())
        &&& toasts.last().message@ == pushes.last().1
        &&& toasts.last().expires_at == pushes.last().0 + TTL
    }
}

/// The messages of some toasts.
pub open spec fn messages(toasts: Seq<Toast>) -> Seq<Seq<char>> {
    Seq::new(toasts.len(), |i: int| toasts[i].message@)
}

/// The messages of the pushes that were less than [`TTL`] ago, in order.
pub open spec fn recent(pushes: Seq<(u64, Seq<char>)>, now: u64) -> Seq<Seq<char>>
    decreases pushes.len(),
{
    if pushes.len() == 0 {
        Seq::empty()
    } else {
        let before = recent(pushes.drop_last(), now);
        let (at, message) = pushes.last();
        if now < at + TTL {
            before.push(message)
        } else {
            before
        }
    }
}

/// The active toasts are exactly those pushed less than [`TTL`] ago, in the order
/// of the pushes.
pub proof fn law_active_toasts_are_the_recent_ones(
    toasts: Seq<Toast>,
    pushes: Seq<(u64, Seq<char>)>,
    now: u64,
)
    requires
        pushed(toasts, pushes),
    ensures
        messages(alive(toasts, now)) == recent(pushes, now),
    decreases pushes.len(),
{
    reveal(Seq::filter);
    if pushes.len() > 0 {
        let rest = toasts.drop_last();
        law_active_toasts_are_the_recent_ones(rest, pushes.drop_last(), now);
        assert(messages(alive(toasts, now)) =~= recent(pushes, now));
    } else {
        assert(messages(alive(toasts, now)) =~= Seq::<Seq<char>>::empty());
    }
}

/// A pruned toast never comes back: whatever a later question asks about was
/// alive at the earlier one.
pub proof fn law_no_resurrection(toasts: Seq<Toast>, now: u64, other: u64, i: int)
    requires
        0 <= i < alive(alive(toasts, now), other).len(),
    ensures
        alive(alive(toasts, now), other)[i].expires_at > now,
{
    let kept = alive(toasts, now);
    let shown = alive(kept, other);
    lemma_alive_member(kept, other, i);
    let j = choose|j: int| 0 <= j < kept.len() && kept[j] == shown[i];
    lemma_alive_member(toasts, now, j);
}

proof fn lemma_alive_member(toasts: Seq<Toast>, now: u64, i: int)
    requires
        0 <= i < alive(toasts, now).len(),
    ensures
        alive(toasts, now)[i].expires_at > now,
        exists|j: int| 0 <= j < toasts.len() && #[trigger] toasts[j] == alive(toasts, now)[i],
    decreases toasts.len(),
{
    reveal(Seq::filter);
    if toasts.len() > 0 {
        let rest = toasts.drop_last();
        if i < alive(rest, now).len() {
            lemma_alive_member(rest, now, i);
            let j = choose|j: int| 0 <= j < rest.len() && #[trigger] rest[j] == alive(rest, now)[i];
            assert(toasts[j] == rest[j]);
        } else {
            assert(toasts[toasts.len() - 1] == alive(toasts, now)[i]);
        }
    }
}

/// A toast is told for four seconds from its push, and not a moment longer.
pub proof fn law_toasts_last_four_seconds(
    toasts: Seq<Toast>,
    pushes: Seq<(u64, Seq<char>)>,
    now: u64,
)
    requires
        pushed(toasts, pushes),
        pushes.len() > 0,
    ensures
        toasts.len() == pushes.len(),
        pushes.last().0 <= now ==> (alive(toasts, now).contains(toasts.last()) <==> now
            - pushes.last().0 < 4_000_000_000),
        toasts.last().message@ == pushes.last().1,
    decreases pushes.len(),
{
    if pushes.len() > 1 {
        law_toasts_last_four_seconds(toasts.drop_last(), pushes.drop_last(), now);
    } else {
        assert(pushed(toasts.drop_last(), pushes.drop_last()));
        assert(pushes.drop_last().len() == 0);
    }
    broadcast use vstd::seq_lib::group_filter_ensures;

    assert(toasts.contains(toasts.last()));
}

} // verus!
