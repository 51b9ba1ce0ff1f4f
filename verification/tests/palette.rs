//! The palette's editing, its history and its commands.

use camembert::keymap::{simple_keys, SimpleAction};
use camembert::palette::{
    all_commands, filter_commands, fuzzy_score, CommandAction, PaletteCommand, PaletteMode,
    PaletteState,
};

#[test]
fn mode_is_derived_from_a_leading_sigil() {
    let p = PaletteState::new();
    assert_eq!(p.mode(), PaletteMode::Query);
    let mut p = PaletteState::with_text(">flat");
    assert_eq!(p.mode(), PaletteMode::Command);
    assert_eq!(p.content(), "flat");
    p.backspace();
    p.backspace();
    p.backspace();
    p.backspace();
    assert_eq!(p.text(), ">");
    assert_eq!(p.mode(), PaletteMode::Command, "still command mode");
    assert_eq!(p.content(), "", "empty content past the sigil");
}

#[test]
fn insert_backspace_and_cursor_movement() {
    let mut p = PaletteState::new();
    p.insert_char('a');
    p.insert_char('b');
    p.insert_char('c');
    assert_eq!(p.text(), "abc");
    assert_eq!(p.cursor(), 3);
    p.move_left();
    p.insert_char('X');
    assert_eq!(p.text(), "abXc");
    p.move_home();
    p.delete_forward();
    assert_eq!(p.text(), "bXc");
    p.move_end();
    p.backspace();
    assert_eq!(p.text(), "bX");
}

#[test]
fn editing_detaches_from_a_loaded_history_entry() {
    let history = vec!["old query".to_owned(), "newer query".to_owned()];
    let mut p = PaletteState::new();
    p.insert_char('x');
    p.history_up(&history);
    assert_eq!(p.text(), "newer query");
    p.insert_char('!');
    p.history_up(&history);
    assert_eq!(p.text(), "newer query");
}

#[test]
fn history_up_then_down_restores_the_draft() {
    let history = vec!["alpha".to_owned(), "beta".to_owned()];
    let mut p = PaletteState::new();
    p.insert_char('d');
    p.insert_char('r');
    p.insert_char('a');
    p.insert_char('f');
    p.insert_char('t');
    assert_eq!(p.text(), "draft");

    p.history_up(&history);
    assert_eq!(p.text(), "beta", "walked to the newest entry first");
    p.history_up(&history);
    assert_eq!(p.text(), "alpha", "walked further back");
    p.history_up(&history);
    assert_eq!(p.text(), "alpha", "clamped at the oldest entry");

    p.history_down(&history);
    assert_eq!(p.text(), "beta");
    p.history_down(&history);
    assert_eq!(p.text(), "draft", "past the newest entry: draft restored");
}

#[test]
fn fuzzy_score_matches_in_order_only() {
    assert!(fuzzy_score("tb", "toggle breakdown").is_some());
    assert!(
        fuzzy_score("bt", "toggle breakdown").is_none(),
        "out of order"
    );
    assert!(
        fuzzy_score("", "anything").is_some(),
        "empty needle matches all"
    );
    assert!(fuzzy_score("zzz", "toggle breakdown").is_none());
}

#[test]
fn fuzzy_score_prefers_contiguous_and_prefix_matches() {
    let contiguous = fuzzy_score("top", "top files").unwrap();
    let scattered = fuzzy_score("top", "the old prompt").unwrap();
    assert!(
        contiguous > scattered,
        "a contiguous prefix match should outscore a scattered one"
    );
}

#[test]
fn filter_commands_orders_by_score_then_stable_position() {
    let commands = vec![
        PaletteCommand {
            label: "toggle zen mode",
            hint: "z",
            action: CommandAction::Simple(SimpleAction::ToggleZen),
        },
        PaletteCommand {
            label: "top files",
            hint: "t",
            action: CommandAction::Simple(SimpleAction::ToggleFlatTop),
        },
        PaletteCommand {
            label: "toggle breakdown",
            hint: "b",
            action: CommandAction::Simple(SimpleAction::ToggleBreakdown),
        },
    ];
    let order = filter_commands("top", &commands);
    assert_eq!(commands[order[0]].label, "top files");
}

#[test]
fn all_commands_includes_every_simple_row_and_the_extras() {
    let commands = all_commands();
    assert_eq!(commands.len(), simple_keys().len() + 5);
    assert!(commands.iter().any(|c| c.label == "quit"));
    assert!(commands.iter().any(|c| c.label == "clear active filter"));
}

#[test]
fn a_sign_inside_a_query_starts_no_command() {
    let p = PaletteState::with_text("*.log >100M");
    assert_eq!(p.mode(), PaletteMode::Query);
    assert_eq!(p.content(), "*.log >100M");
}

#[test]
fn letters_match_in_either_case() {
    assert_eq!(fuzzy_score("TOP", "top files"), fuzzy_score("top", "top files"));
    assert_eq!(fuzzy_score("top", "TOP FILES"), fuzzy_score("top", "top files"));
}

#[test]
fn the_selection_stays_in_the_list() {
    let mut p = PaletteState::new();
    p.move_selection_down(3);
    p.move_selection_down(3);
    p.move_selection_down(3);
    assert_eq!(p.list_selected(), 2);
    p.move_selection_up();
    assert_eq!(p.list_selected(), 1);
    p.insert_char('x');
    assert_eq!(p.list_selected(), 0, "typing starts over");
}

#[test]
fn a_text_that_was_set_is_edited_at_its_end() {
    let mut p = PaletteState::default();
    p.set_text("ab");
    p.insert_char('c');
    assert_eq!(p.text(), "abc");
    p.move_right();
    assert_eq!(p.cursor(), 3);
}

#[test]
fn the_cursor_counts_characters_whatever_is_done() {
    let history = vec!["été".to_owned(), "漢字".to_owned()];
    let mut p = PaletteState::with_text("né");
    for step in 0..400_u32 {
        let before = p.text();
        match (step * 7 + step / 3) % 11 {
            0 | 1 => p.insert_char('é'),
            2 => p.backspace(),
            3 => p.delete_forward(),
            4 => p.move_left(),
            5 => p.move_right(),
            6 => p.move_home(),
            7 => p.move_end(),
            8 => p.history_up(&history),
            9 => p.history_down(&history),
            _ => p.set_text("漢"),
        }
        assert!(p.cursor() <= p.text().chars().count());
        if (4..8).contains(&((step * 7 + step / 3) % 11)) {
            assert_eq!(p.text(), before, "moves keep the text");
        }
    }
    p.move_home();
    p.move_selection_down(5);
    let text = p.text();
    p.backspace();
    assert_eq!((p.text(), p.cursor(), p.list_selected()), (text, 0, 1));
}
