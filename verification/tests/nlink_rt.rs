//! How many links a file has, and what the scan reached of them.

use camembert::nlink_rt::{
    answer_state, card_lines, is_anonymous_id, key_of_inode, scan_reach, Ask, JobMessage,
    LinkAnswer, LinkRuntime, LinkState, ScannedLink,
};

const DENIED: &str = "access denied";
const VANISHED: &str = "the file is gone";

#[test]
fn nlink_rt_no_state_renders_no_line() {
    assert!(card_lines(None, '⠋').is_empty());
}

#[test]
fn a_lone_link_says_so_rather_than_staying_silent() {
    assert_eq!(
        card_lines(
            Some(LinkState::Known {
                total: 1,
                seen: 1,
                anonymous: false
            }),
            '⠋'
        ),
        vec!["1 link · nothing else points at this file".to_owned()]
    );
}

#[test]
fn links_outside_the_scan_are_counted_and_their_consequence_stated() {
    let line = card_lines(
        Some(LinkState::Known {
            total: 3,
            seen: 1,
            anonymous: false,
        }),
        '⠋',
    );
    assert_eq!(
        line,
        vec!["3 links · 2 outside this scan — deleting this frees nothing".to_owned()]
    );
}

#[test]
fn a_wholly_seen_group_never_claims_anything_is_outside() {
    assert_eq!(
        card_lines(
            Some(LinkState::Known {
                total: 2,
                seen: 2,
                anonymous: false
            }),
            '⠋'
        ),
        vec!["2 links · all inside this scan".to_owned()]
    );
    assert_eq!(
        card_lines(
            Some(LinkState::Known {
                total: 2,
                seen: 5,
                anonymous: false
            }),
            '⠋'
        ),
        vec!["2 links · all inside this scan".to_owned()]
    );
}

#[test]
fn an_anonymous_volume_withholds_the_scan_half() {
    let line = card_lines(
        Some(LinkState::Known {
            total: 4,
            seen: 1,
            anonymous: true,
        }),
        '⠋',
    );
    assert!(line[0].starts_with("4 links · this volume issues no file id"));
    assert!(!line[0].contains("outside this scan"));
}

#[test]
fn failures_read_as_unknown_and_stay_distinguishable() {
    let unsupported = card_lines(Some(LinkState::Unsupported), '⠋');
    let denied = card_lines(Some(LinkState::Failed(DENIED)), '⠋');
    let gone = card_lines(Some(LinkState::Failed(VANISHED)), '⠋');
    for line in [&unsupported, &denied, &gone] {
        assert!(line[0].starts_with("links unknown · "), "{line:?}");
    }
    assert_ne!(unsupported, denied);
    assert_ne!(denied, gone);
}

#[test]
fn nlink_rt_pending_carries_the_spinner_char() {
    assert_eq!(
        card_lines(Some(LinkState::Pending), '⠙'),
        vec!["⠙ counting links…".to_owned()]
    );
}

#[test]
fn sentinel_file_ids_are_the_two_the_scan_refuses() {
    assert!(is_anonymous_id(0));
    assert!(is_anonymous_id(-1));
    assert!(!is_anonymous_id(0x0001_0000_0000_2A3C));
}

#[test]
fn nlink_rt_poll_moves_a_node_from_pending_to_resolved() {
    let mut rt = LinkRuntime::new();
    rt.pending.insert(1, 1);
    let state = LinkState::Known {
        total: 3,
        seen: 1,
        anonymous: false,
    };
    let msgs = [JobMessage {
        epoch: 0,
        node: 1,
        serial: 1,
        state,
        inode: Some((7, 42)),
        links: Vec::new(),
    }];

    assert!(rt.poll(&msgs, 0));
    assert!(!rt.has_pending());
    assert_eq!(rt.results.get(&1), Some(&state));
    assert_eq!(
        rt.by_inode.get(&key_of_inode(7, 42)),
        Some(&state),
        "a known inode identity memoises the answer for its other links"
    );
}

#[test]
fn nlink_rt_poll_drops_a_result_from_a_stale_epoch() {
    let mut rt = LinkRuntime::new();
    rt.pending.insert(1, 1);
    let msgs = [JobMessage {
        epoch: 0,
        node: 1,
        serial: 1,
        state: LinkState::Unsupported,
        inode: None,
        links: Vec::new(),
    }];

    rt.poll(&msgs, 1);
    assert!(rt.has_pending(), "a stale result never resolves the query");
    assert!(rt.results.is_empty());
}

#[test]
fn nlink_rt_poll_drops_a_superseded_result() {
    let mut rt = LinkRuntime::new();
    rt.pending.insert(1, 2);
    let msgs = [JobMessage {
        epoch: 0,
        node: 1,
        serial: 1,
        state: LinkState::Unsupported,
        inode: None,
        links: Vec::new(),
    }];

    rt.poll(&msgs, 0);
    assert_eq!(rt.pending.get(&1), Some(&2));
    assert!(rt.results.is_empty());
}

#[test]
fn nlink_rt_on_deletion_clears_every_cache() {
    let mut rt = LinkRuntime::new();
    rt.pending.insert(1, 1);
    rt.results.insert(2, LinkState::Unsupported);
    rt.by_inode.insert(key_of_inode(1, 1), LinkState::Unsupported);
    rt.inode_of.insert(2, key_of_inode(1, 1));

    rt.on_deletion();

    assert!(rt.pending.is_empty());
    assert!(rt.results.is_empty());
    assert!(rt.by_inode.is_empty());
    assert!(rt.inode_of.is_empty());
}

#[test]
fn the_scan_reaches_the_links_of_one_inode() {
    let links = [
        ScannedLink { node: 3, dev: 1, ino: 9 },
        ScannedLink { node: 5, dev: 1, ino: 9 },
        ScannedLink { node: 7, dev: 2, ino: 9 },
    ];
    assert_eq!(scan_reach(&links, 3), (2, Some((1, 9))));
    assert_eq!(scan_reach(&links, 7), (1, Some((2, 9))));
    assert_eq!(scan_reach(&links, 8), (1, None), "the row itself");
}

#[test]
fn answers_become_states() {
    assert_eq!(
        answer_state(LinkAnswer::Known { links: 3, file_id: 77 }, 2),
        LinkState::Known { total: 3, seen: 2, anonymous: false }
    );
    assert_eq!(
        answer_state(LinkAnswer::Known { links: 3, file_id: -1 }, 2),
        LinkState::Known { total: 3, seen: 2, anonymous: true }
    );
    assert_eq!(answer_state(LinkAnswer::Unsupported, 2), LinkState::Unsupported);
    assert_eq!(answer_state(LinkAnswer::Failed(DENIED), 2), LinkState::Failed(DENIED));
}

#[test]
fn a_row_is_asked_about_once() {
    let mut rt = LinkRuntime::new();
    assert!(matches!(rt.state_for(4, false), Ask::Silent), "no candidate");
    let serial = match rt.state_for(4, true) {
        Ask::Start(serial) => serial,
        other => panic!("{other:?}"),
    };
    assert!(matches!(rt.state_for(4, true), Ask::Show(LinkState::Pending)));
    let msgs = [JobMessage {
        epoch: 0,
        node: 4,
        serial,
        state: LinkState::Unsupported,
        inode: None,
        links: Vec::new(),
    }];
    rt.poll(&msgs, 0);
    assert!(matches!(rt.state_for(4, true), Ask::Show(LinkState::Unsupported)));
}

#[test]
fn a_count_that_cannot_start_is_an_answer() {
    let mut rt = LinkRuntime::default();
    rt.state_for(4, true);
    assert_eq!(rt.start_failed(4, VANISHED), LinkState::Failed(VANISHED));
    assert!(!rt.has_pending());
}
