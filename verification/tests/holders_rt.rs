//! Who holds a row open, asked only once the cursor rests.

use camembert::holders_rt::{
    brake, card_lines, label, summarise, Armed, Ask, Brake, Holder, HolderRuntime, HolderState,
    JobMessage, DEBOUNCE,
};

const MILLI: u64 = 1_000_000;
const START: u64 = 4_000_000_000;
const REFUSED: &str = "the query was refused";
const NO_SESSION: &str = "no session";
const NOT_REGISTERED: &str = "the file could not be registered";

fn holder(pid: u32, name: &str) -> Holder {
    Holder {
        pid,
        name: name.to_owned(),
        service: None,
    }
}

#[test]
fn holders_rt_no_state_renders_no_line() {
    assert!(card_lines(None, '⠋').is_empty());
}

#[test]
fn an_empty_answer_refuses_to_be_read_as_a_guarantee() {
    let line = card_lines(
        Some(&HolderState::Known {
            named: String::new(),
            total: 0,
        }),
        '⠋',
    );
    assert_eq!(
        line,
        vec!["no holder found · not proof — many real locks stay invisible".to_owned()]
    );
    assert!(line[0].contains("not proof"));
}

#[test]
fn a_single_holder_is_named_without_a_count() {
    let named = summarise(&[holder(1234, "Code.exe")], 1);
    assert_eq!(named, "Code.exe (1234)");
    assert_eq!(
        card_lines(Some(&HolderState::Known { named, total: 1 }), '⠋'),
        vec!["open in Code.exe (1234)".to_owned()]
    );
}

#[test]
fn a_crowd_is_counted_exactly_and_named_partially() {
    let holders: Vec<Holder> = (0..16)
        .map(|i| holder(900 + i, &format!("svc{i}")))
        .collect();
    let named = summarise(&holders, 104);
    assert_eq!(named, "svc0 (900), svc1 (901), +102 more");
    assert_eq!(
        card_lines(Some(&HolderState::Known { named, total: 104 }), '⠋'),
        vec!["open in 104 processes · svc0 (900), svc1 (901), +102 more".to_owned()]
    );
}

#[test]
fn a_nameless_holder_is_still_identified() {
    assert_eq!(label(&holder(77, "")), "pid 77");
    assert_eq!(
        label(&Holder {
            pid: 4,
            name: String::new(),
            service: Some("wuauserv".to_owned()),
        }),
        "wuauserv (4)"
    );
}

#[test]
fn a_refusal_never_reads_as_a_clean_bill_of_health() {
    let refused = card_lines(Some(&HolderState::Failed(REFUSED)), '⠋');
    let none = card_lines(
        Some(&HolderState::Known {
            named: String::new(),
            total: 0,
        }),
        '⠋',
    );
    assert!(
        refused[0].starts_with("open handles unknown · "),
        "{refused:?}"
    );
    assert_ne!(refused, none);
    for failure in [
        NO_SESSION,
        NOT_REGISTERED,
        REFUSED,
    ] {
        let line = card_lines(Some(&HolderState::Failed(failure)), '⠋');
        assert!(line[0].starts_with("open handles unknown · "), "{line:?}");
    }
}

#[test]
fn holders_rt_pending_carries_the_spinner_char() {
    assert_eq!(
        card_lines(Some(&HolderState::Pending), '⠙'),
        vec!["⠙ checking for open handles…".to_owned()]
    );
}

#[test]
fn a_row_must_settle_before_anything_is_asked() {
    let start = START;

    assert_eq!(brake(None, 1, start), Brake::Rearm);

    for step in [1, 5, 9, 40] {
        let now = start + step * MILLI;
        assert_eq!(brake(Some(Armed { node: 1, since: start }), 2, now), Brake::Rearm);
    }

    assert_eq!(
        brake(
            Some(Armed { node: 1, since: start }),
            1,
            start + DEBOUNCE - 1 * MILLI
        ),
        Brake::Wait
    );

    assert_eq!(
        brake(Some(Armed { node: 1, since: start }), 1, start + DEBOUNCE),
        Brake::Fire
    );
    assert_eq!(
        brake(Some(Armed { node: 1, since: start }), 1, start + 5000 * MILLI),
        Brake::Fire
    );
}

#[test]
fn an_armed_row_keeps_the_loop_awake_without_a_job_in_flight() {
    let mut rt = HolderRuntime::new(true);
    assert!(!rt.has_pending());
    rt.armed = Some(Armed { node: 1, since: START });
    assert!(rt.has_pending());
    assert!(rt.pending.is_empty(), "arming is not asking");
}

#[test]
fn the_debounce_is_long_enough_to_survive_scrolling() {
    assert!(
        DEBOUNCE >= 150 * MILLI,
        "a debounce shorter than a keypress burst does not brake anything"
    );
}

#[test]
fn holders_rt_poll_moves_a_node_from_pending_to_resolved() {
    let mut rt = HolderRuntime::new(true);
    rt.pending.insert(1, 1);
    let state = HolderState::Known {
        named: "Code.exe (1234)".to_owned(),
        total: 1,
    };
    let msgs = [JobMessage {
        epoch: 0,
        node: 1,
        serial: 1,
        state: state.copy(),
    }];

    assert!(rt.poll(&msgs, 0));
    assert!(!rt.has_pending());
    assert!(matches!(
        rt.results.get(&1),
        Some(HolderState::Known { named, total: 1 }) if named == "Code.exe (1234)"
    ));
}

#[test]
fn holders_rt_poll_drops_a_result_from_a_stale_epoch() {
    let mut rt = HolderRuntime::new(true);
    rt.pending.insert(1, 1);
    let msgs = [JobMessage {
        epoch: 0,
        node: 1,
        serial: 1,
        state: HolderState::Failed(REFUSED),
    }];

    rt.poll(&msgs, 1);
    assert!(rt.has_pending(), "a stale result never resolves the query");
    assert!(rt.results.is_empty());
}

#[test]
fn holders_rt_poll_drops_a_superseded_result() {
    let mut rt = HolderRuntime::new(true);
    rt.pending.insert(1, 2);
    let msgs = [JobMessage {
        epoch: 0,
        node: 1,
        serial: 1,
        state: HolderState::Failed(REFUSED),
    }];

    rt.poll(&msgs, 0);
    assert_eq!(rt.pending.get(&1), Some(&2));
    assert!(rt.results.is_empty());
}

#[test]
fn holders_rt_on_deletion_clears_every_cache() {
    let mut rt = HolderRuntime::new(true);
    rt.armed = Some(Armed { node: 1, since: START });
    rt.pending.insert(1, 1);
    rt.results
        .insert(2, HolderState::Failed(REFUSED));

    rt.on_deletion();

    assert!(rt.armed.is_none());
    assert!(rt.pending.is_empty());
    assert!(rt.results.is_empty());
}

#[test]
fn a_disabled_runtime_never_arms_and_never_speaks() {
    let mut rt = HolderRuntime::new(false);
    assert!(!rt.has_pending());
    rt.armed = Some(Armed { node: 1, since: START });
    rt.on_deletion();
    assert!(!rt.has_pending());
}

#[test]
fn a_settled_row_is_asked_about_once() {
    let mut rt = HolderRuntime::new(true);
    for now in [START, START + DEBOUNCE - 1] {
        assert!(matches!(
            rt.state_for(1, true, now),
            Ask::Show(HolderState::Pending)
        ));
        assert!(rt.pending.is_empty(), "nothing was asked yet");
    }
    let serial = match rt.state_for(1, true, START + DEBOUNCE) {
        Ask::Start(serial) => serial,
        other => panic!("{other:?}"),
    };
    assert!(matches!(
        rt.state_for(1, true, START + 2 * DEBOUNCE),
        Ask::Show(HolderState::Pending)
    ));
    let msgs = [JobMessage {
        epoch: 3,
        node: 1,
        serial,
        state: HolderState::Failed(REFUSED),
    }];
    assert!(rt.poll(&msgs, 3));
    assert!(matches!(
        rt.state_for(1, true, START + 3 * DEBOUNCE),
        Ask::Show(HolderState::Failed(REFUSED))
    ));
}

#[test]
fn a_job_that_cannot_start_is_an_answer() {
    let mut rt = HolderRuntime::new(true);
    rt.state_for(1, true, START);
    rt.state_for(1, true, START + DEBOUNCE);
    assert!(matches!(
        rt.start_failed(1, NO_SESSION),
        HolderState::Failed(NO_SESSION)
    ));
    assert!(!rt.has_pending());
}

#[test]
fn a_row_that_is_no_candidate_is_never_asked_about() {
    let mut rt = HolderRuntime::new(true);
    assert!(matches!(rt.state_for(1, false, START), Ask::Silent));
    assert!(matches!(rt.state_for(1, false, START + DEBOUNCE), Ask::Silent));
}
