use flashcards::flashcard::{Flashcard, Holder, Side};

#[test]
fn test_side_flip() {
    let mut side = Side::Front;
    side.flip();
    assert_eq!(side, Side::Back);
}

#[test]
fn test_flashcard_flip() {
    let mut flashcard = Flashcard::new("Front".to_string(), "Back".to_string());
    flashcard.flip();
    assert_eq!(flashcard.visible_side, Side::Back);
}

fn two_card_deck() -> Vec<Flashcard> {
    vec![
        Flashcard::new("Front 1".to_string(), "Back 1".to_string()),
        Flashcard::new("Front 2".to_string(), "Back 2".to_string()),
    ]
}

#[test]
fn test_holder() {
    let deck = two_card_deck();
    let holder = Holder::new(deck);
    assert_eq!(holder.text, "Front 1");
}

#[test]
fn test_holder_next() {
    let deck = two_card_deck();
    let mut holder = Holder::new(deck);
    holder.next();
    assert_eq!(holder.text, "Front 2");
}

#[test]
fn test_holder_next_wrap() {
    let deck = two_card_deck();
    let mut holder = Holder::new(deck);
    holder.next();
    holder.next();
    assert_eq!(holder.text, "Front 1");
}

#[test]
fn test_holder_prev() {
    let deck = two_card_deck();
    let mut holder = Holder::new(deck);
    holder.next();
    holder.prev();
    assert_eq!(holder.text, "Front 1");
}

#[test]
fn test_holder_prev_wrap() {
    let deck = two_card_deck();
    let mut holder = Holder::new(deck);
    holder.prev();
    assert_eq!(holder.text, "Front 2");
}

#[test]
fn test_full_cycle_returns_to_start() {
    let deck = vec![
        Flashcard::new("a".to_string(), "1".to_string()),
        Flashcard::new("b".to_string(), "2".to_string()),
        Flashcard::new("c".to_string(), "3".to_string()),
    ];
    let mut holder = Holder::new(deck);
    assert_eq!(holder.index, 0);
    for _ in 0..3 {
        holder.next();
    }
    assert_eq!(holder.index, 0);
    assert_eq!(holder.text, "a");
}

#[test]
fn test_prev_from_zero_wraps_to_last() {
    let deck = vec![
        Flashcard::new("a".to_string(), "1".to_string()),
        Flashcard::new("b".to_string(), "2".to_string()),
        Flashcard::new("c".to_string(), "3".to_string()),
    ];
    let mut holder = Holder::new(deck);
    holder.prev();
    assert_eq!(holder.index, 2);
    assert_eq!(holder.text, "c");
}

#[test]
fn test_next_prev_restores_index_and_text() {
    let deck = vec![
        Flashcard::new("a".to_string(), "1".to_string()),
        Flashcard::new("b".to_string(), "2".to_string()),
        Flashcard::new("c".to_string(), "3".to_string()),
    ];
    let mut holder = Holder::new(deck);
    holder.next();
    let index_before = holder.index;
    let text_before = holder.text.clone();
    holder.next();
    holder.prev();
    assert_eq!(holder.index, index_before);
    assert_eq!(holder.text, text_before);
}

#[test]
fn test_flip_one_call_lag() {
    let deck = vec![Flashcard::new("Front".to_string(), "Back".to_string())];
    let mut holder = Holder::new(deck);
    holder.flip();
    assert_eq!(holder.text, "Front");
    holder.flip();
    assert_eq!(holder.text, "Back");
}

#[test]
fn test_single_card_navigation_wraps_to_itself() {
    let deck = vec![Flashcard::new("only".to_string(), "card".to_string())];
    let mut holder = Holder::new(deck);
    holder.next();
    assert_eq!(holder.index, 0);
    assert_eq!(holder.text, "only");
    holder.prev();
    assert_eq!(holder.index, 0);
    assert_eq!(holder.text, "only");
}

#[test]
fn test_navigation_shows_front_even_after_flips() {
    let deck = two_card_deck();
    let mut holder = Holder::new(deck);
    // Leave the first card's stored side flipped to Back.
    holder.flip();
    holder.next();
    holder.prev();
    // Navigation re-reads the front text, whatever the stored side says.
    assert_eq!(holder.text, "Front 1");
}

#[test]
fn test_concrete_scenario() {
    let deck = two_card_deck();
    let mut holder = Holder::new(deck);
    assert_eq!(holder.text, "Front 1");
    holder.next();
    assert_eq!(holder.text, "Front 2");
    holder.next();
    assert_eq!(holder.text, "Front 1");
    holder.prev();
    assert_eq!(holder.text, "Front 2");
    holder.flip();
    assert_eq!(holder.text, "Front 2");
    assert_eq!(holder.deck[1].visible_side, Side::Back);
    holder.flip();
    assert_eq!(holder.text, "Back 2");
    assert_eq!(holder.deck[1].visible_side, Side::Front);
}
