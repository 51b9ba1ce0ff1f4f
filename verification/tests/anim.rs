//! When an animation runs.

use camembert::anim::{is_active_at, Motion, DURATION};

const MILLI: u64 = 1_000_000;

#[test]
fn is_active_at_boundary() {
    let t0: u64 = 7_000_000_000;
    assert!(is_active_at(t0, t0));
    assert!(is_active_at(t0, t0 + DURATION - MILLI));
    assert!(!is_active_at(t0, t0 + DURATION));
    assert!(!is_active_at(t0, t0 + DURATION * 2));
}

#[test]
fn motion_disabled_always_reports_the_finished_state() {
    let mut motion = Motion::new(false);
    let t0: u64 = 7_000_000_000;
    motion.observe_at(1, t0);
    motion.observe_at(2, t0); // would be a "navigation" if enabled
    assert!(!motion.is_active_at(t0), "disabled: never animating");
    assert_eq!(motion.drawn_from(t0), None, "nothing to ease from");
}

#[test]
fn motion_starts_an_animation_only_when_the_seq_changes() {
    let mut motion = Motion::new(true);
    let t0: u64 = 7_000_000_000;
    motion.observe_at(0, t0);
    assert!(
        !motion.is_active_at(t0),
        "first observe at the baseline seq: no prior seq to differ from"
    );

    let t1 = t0 + 10 * MILLI;
    motion.observe_at(0, t1); // same seq: no new trigger
    assert!(!motion.is_active_at(t1));

    let t2 = t1 + 10 * MILLI;
    motion.observe_at(1, t2); // seq changed: navigation/sort landed
    assert!(motion.is_active_at(t2));
    assert!(motion.is_active_at(t2 + DURATION - MILLI));
    assert!(!motion.is_active_at(t2 + DURATION));
}


#[test]
fn a_running_animation_is_drawn_from_its_start() {
    let mut motion = Motion::new(true);
    motion.observe_at(0, 40);
    motion.observe_at(1, 50);
    assert_eq!(motion.drawn_from(50), Some(50));
    assert_eq!(motion.drawn_from(50 + DURATION), None);
    motion.observe_at(1, 60);
    assert_eq!(motion.drawn_from(60), Some(50), "the same count starts nothing");
}

#[test]
fn the_first_observation_never_starts_an_animation() {
    let mut motion = Motion::new(true);
    motion.observe_at(5, 100);
    assert!(!motion.is_active_at(100), "there is nothing to animate from");
    assert_eq!(motion.drawn_from(100), None);
    motion.observe_at(6, 200);
    assert!(motion.is_active_at(200));
}
