//! The history of queries, as the text of its file.

use camembert::history::{append, is_white, load, trim_chars, MAX_ENTRIES};

/// The file's text after an append.
fn appended(text: &str, entry: &str) -> String {
    append(text, entry).unwrap_or_else(|| text.to_owned())
}

#[test]
fn missing_file_loads_as_empty() {
    assert_eq!(load(""), Vec::<String>::new());
}

#[test]
fn append_then_load_round_trips() {
    let text = appended("", "*.log");
    let text = appended(&text, "older:6mo");
    assert_eq!(
        load(&text),
        vec!["*.log".to_owned(), "older:6mo".to_owned()]
    );
    assert_eq!(text, "*.log\nolder:6mo\n");
}

#[test]
fn blank_entries_are_never_recorded() {
    let text = appended("", "");
    let text = appended(&text, "   ");
    assert_eq!(load(&text), Vec::<String>::new());
    assert_eq!(append("", "   "), None, "nothing to write");
}

#[test]
fn immediate_duplicates_are_not_appended_twice() {
    let text = appended("", "*.log");
    let text = appended(&text, "*.log");
    assert_eq!(load(&text), vec!["*.log".to_owned()]);
    let text = appended(&text, "*.tmp");
    let text = appended(&text, "*.log");
    assert_eq!(
        load(&text),
        vec!["*.log".to_owned(), "*.tmp".to_owned(), "*.log".to_owned()]
    );
}

#[test]
fn bounded_to_max_entries_dropping_the_oldest() {
    let mut text = String::new();
    for i in 0..MAX_ENTRIES + 10 {
        text = appended(&text, &format!("query-{i}"));
    }
    let entries = load(&text);
    assert_eq!(entries.len(), MAX_ENTRIES);
    assert_eq!(entries[0], format!("query-{}", 10));
    assert_eq!(
        entries[MAX_ENTRIES - 1],
        format!("query-{}", MAX_ENTRIES + 9)
    );
}

#[test]
fn white_space_is_what_the_standard_library_takes_it_for() {
    for code in 0..=0x10_FFFF_u32 {
        if let Some(c) = char::from_u32(code) {
            assert_eq!(is_white(c), c.is_whitespace(), "{code:x}");
        }
    }
}

#[test]
fn trimming_keeps_the_inside() {
    let chars: Vec<char> = " \t a  b \u{3000}".chars().collect();
    let trimmed: String = trim_chars(&chars).into_iter().collect();
    assert_eq!(trimmed, "a  b");
}
