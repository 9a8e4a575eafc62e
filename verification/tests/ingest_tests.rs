use flashcards::flashcard::Side;
use flashcards::ingest::{load_flashcards, LoadError};
use flashcards::wrap::wrap_text;

#[test]
fn test_wrap_packs_greedily_at_width_18() {
    let out = wrap_text("The quick brown fox jumps".to_string(), 18);
    assert_eq!(out, "The quick brown\nfox jumps");
    for line in out.split('\n') {
        assert!(line.chars().count() <= 18);
    }
    assert!(!out.contains('"'));
}

#[test]
fn test_wrap_strips_double_quotes() {
    // Widths are measured before stripping: the quotes still count.
    let out = wrap_text("\"quoted\" words \"here\"".to_string(), 18);
    assert_eq!(out, "quoted words\nhere");
    assert!(!out.contains('"'));
}

#[test]
fn test_wrap_exact_fit_and_overflow() {
    // "ef" with its separating space still fits in 9 columns...
    assert_eq!(wrap_text("ab cd ef".to_string(), 9), "ab cd ef");
    // ...but no longer in 7: it starts a new line.
    assert_eq!(wrap_text("ab cd ef".to_string(), 7), "ab cd\nef");
}

#[test]
fn test_wrap_word_longer_than_width_starts_a_new_line() {
    // A word that cannot fit is still emitted whole, on a line of its own.
    let out = wrap_text("abcdefghijklmnopqrstuvwxyz".to_string(), 18);
    assert_eq!(out, "\nabcdefghijklmnopqrstuvwxyz");
}

#[test]
fn test_wrap_empty_and_whitespace_only() {
    assert_eq!(wrap_text(String::new(), 18), "");
    assert_eq!(wrap_text("   \t \n ".to_string(), 18), "");
}

#[test]
fn test_load_builds_wrapped_deck_in_row_order() {
    let fronts = vec!["Front 1".to_string(), "\"Front 2\"".to_string()];
    let backs = vec!["Back 1".to_string(), "The quick brown fox jumps".to_string()];
    let deck = load_flashcards(fronts, backs, 18).unwrap();
    assert_eq!(deck.0.len(), 2);
    assert_eq!(deck.0[0].front_text, "Front 1");
    assert_eq!(deck.0[0].back_text, "Back 1");
    assert_eq!(deck.0[1].front_text, "Front 2");
    assert_eq!(deck.0[1].back_text, "The quick brown\nfox jumps");
    assert_eq!(deck.0[0].visible_side, Side::Front);
    assert_eq!(deck.0[1].visible_side, Side::Front);
}

#[test]
fn test_load_rejects_empty_dataset() {
    let r = load_flashcards(Vec::new(), Vec::new(), 18);
    assert_eq!(r.err(), Some(LoadError::EmptyDataset));
}

#[test]
fn test_load_rejects_mismatched_columns() {
    let fronts = vec!["a".to_string()];
    let backs = vec!["b".to_string(), "c".to_string()];
    let r = load_flashcards(fronts, backs, 18);
    assert_eq!(r.err(), Some(LoadError::ColumnLengthMismatch));
}
