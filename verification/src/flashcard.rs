//! Cards, decks and the `Holder` cursor: the navigation and flip state
//! machine that decides which text a viewer displays.

use vstd::prelude::*;

verus! {

/// Which face of a card is currently showing.
#[derive(Clone, Copy, Debug, PartialEq, Eq, Structural)]
pub enum Side {
    Front,
    Back,
}

/// The face opposite to `s`.
pub open spec fn opposite(s: Side) -> Side {
    match s {
        Side::Front => Side::Back,
        Side::Back => Side::Front,
    }
}

impl Side {
    /// Toggle to the other face.
    pub fn flip(&mut self)
        ensures
            *final(self) == opposite(*old(self)),
    {
        *self = match self {
            Side::Front => Side::Back,
            Side::Back => Side::Front,
        };
    }
}

/// One flashcard: a front and a back text, fixed at construction, and a
/// mutable flag saying which face is currently visible.
pub struct Flashcard {
    pub front_text: String,
    pub back_text: String,
    pub visible_side: Side,
}

/// `c` with its visible face toggled; the texts stay as they are.
pub open spec fn card_flipped(c: Flashcard) -> Flashcard {
    Flashcard { visible_side: opposite(c.visible_side), ..c }
}

/// The text of the face that `c` currently shows.
pub open spec fn visible_text(c: Flashcard) -> Seq<char> {
    match c.visible_side {
        Side::Front => c.front_text@,
        Side::Back => c.back_text@,
    }
}

impl Flashcard {
    /// A new card starts with its front face visible.
    pub fn new(front_text: String, back_text: String) -> (c: Flashcard)
        ensures
            c.front_text@ == front_text@,
            c.back_text@ == back_text@,
            c.visible_side == Side::Front,
    {
        Flashcard { front_text, back_text, visible_side: Side::Front }
    }

    /// Toggle which face is visible.
    pub fn flip(&mut self)
        ensures
            *final(self) == card_flipped(*old(self)),
    {
        self.visible_side.flip();
    }
}

/// An ordered collection of cards, fixed after construction.
pub struct Deck(pub Vec<Flashcard>);

impl Deck {
    /// Wrap the cards verbatim, preserving their order.
    pub fn new(data: Vec<Flashcard>) -> (d: Deck)
        ensures
            d.0@ == data@,
    {
        Deck(data)
    }
}

/// The index after `i` in a cyclic walk over `n` cards.
pub open spec fn next_index(i: int, n: int) -> int {
    if i < n - 1 {
        i + 1
    } else {
        0
    }
}

/// The index before `i` in a cyclic walk over `n` cards.
pub open spec fn prev_index(i: int, n: int) -> int {
    if i > 0 {
        i - 1
    } else {
        n - 1
    }
}

/// A cursor over a deck: `index` is the position, `text` the cached string
/// that a viewer displays, recomputed on every transition.
pub struct Holder {
    pub text: String,
    pub index: usize,
    pub deck: Vec<Flashcard>,
}

impl Holder {
    /// The cursor points at a card; the deck is non-empty.
    pub open spec fn wf(&self) -> bool {
        self.index < self.deck@.len()
    }

    /// The cached display text is one of the two faces of the current card.
    pub open spec fn text_coherent(&self) -> bool {
        ||| self.text@ == self.deck@[self.index as int].front_text@
        ||| self.text@ == self.deck@[self.index as int].back_text@
    }

    /// Start at the first card, displaying its front text. The front is read
    /// directly, not through `visible_side`: the initial display is the front
    /// face by definition.
    pub fn new(deck: Vec<Flashcard>) -> (h: Holder)
        requires
            deck@.len() >= 1,
        ensures
            h.wf(),
            h.index == 0,
            h.deck@ == deck@,
            h.text@ == deck@[0].front_text@,
            h.text_coherent(),
    {
        let initial_text = deck[0].front_text.clone();
        Holder { text: initial_text, index: 0, deck }
    }

    /// Advance cyclically. The new card's front text is displayed
    /// unconditionally, whatever that card's `visible_side` says.
    pub fn next(&mut self)
        requires
            old(self).wf(),
        ensures
            final(self).wf(),
            final(self).deck@ == old(self).deck@,
            final(self).index as int == next_index(
                old(self).index as int,
                old(self).deck@.len() as int,
            ),
            final(self).text@ == old(self).deck@[final(self).index as int].front_text@,
            final(self).text_coherent(),
    {
        if self.index < self.deck.len() - 1 {
            self.index = self.index + 1;
        } else {
            self.index = 0;
        }
        self.text = self.deck[self.index].front_text.clone();
    }

    /// Step back cyclically. The new card's front text is displayed
    /// unconditionally, whatever that card's `visible_side` says.
    pub fn prev(&mut self)
        requires
            old(self).wf(),
        ensures
            final(self).wf(),
            final(self).deck@ == old(self).deck@,
            final(self).index as int == prev_index(
                old(self).index as int,
                old(self).deck@.len() as int,
            ),
            final(self).text@ == old(self).deck@[final(self).index as int].front_text@,
            final(self).text_coherent(),
    {
        if self.index > 0 {
            self.index = self.index - 1;
        } else {
            self.index = self.deck.len() - 1;
        }
        self.text = self.deck[self.index].front_text.clone();
    }

    /// Flip the current card, in two order-sensitive steps: first cache the
    /// text of the face that was visible before the flip, then toggle the
    /// card's `visible_side`. The displayed text therefore trails the side
    /// indicator by one call.
    pub fn flip(&mut self)
        requires
            old(self).wf(),
        ensures
            final(self).wf(),
            final(self).index == old(self).index,
            final(self).text@ == visible_text(old(self).deck@[old(self).index as int]),
            final(self).deck@ == old(self).deck@.update(
                old(self).index as int,
                card_flipped(old(self).deck@[old(self).index as int]),
            ),
            final(self).text_coherent(),
    {
        self.text = match self.deck[self.index].visible_side {
            Side::Front => self.deck[self.index].front_text.clone(),
            Side::Back => self.deck[self.index].back_text.clone(),
        };
        self.deck[self.index].flip();
    }
}

/// The cursor index after `k` calls of `next`, starting from `i`, over `n`
/// cards.
pub open spec fn iterate_next(i: int, n: int, k: nat) -> int
    decreases k,
{
    if k == 0 {
        i
    } else {
        next_index(iterate_next(i, n, (k - 1) as nat), n)
    }
}

proof fn lemma_iterate_next_below(n: int, k: nat)
    requires
        1 <= n,
        k < n,
    ensures
        iterate_next(0, n, k) == k,
    decreases k,
{
    if k > 0 {
        lemma_iterate_next_below(n, (k - 1) as nat);
    }
}

/// Full cycle: over a deck of `n >= 1` cards, `n` calls of `next` starting
/// from index 0 return the cursor to index 0.
pub proof fn lemma_next_full_cycle(n: int)
    requires
        1 <= n,
    ensures
        iterate_next(0, n, n as nat) == 0,
{
    lemma_iterate_next_below(n, (n - 1) as nat);
}

/// Backward wrap: over a deck of `n >= 1` cards, `prev` from index 0 moves
/// the cursor to the last card.
pub proof fn lemma_prev_wraps(n: int)
    requires
        1 <= n,
    ensures
        prev_index(0, n) == n - 1,
{
}

/// `next` then `prev` is an inverse pair: it restores both the cursor index
/// and the displayed text, because both transitions recompute the text from
/// the front face at the new index. It holds of every state whose text is the
/// front text of the current card — every state reached by construction or
/// navigation alone.
pub proof fn lemma_next_prev_inverse(deck: Seq<Flashcard>, i: int, text: Seq<char>)
    requires
        1 <= deck.len(),
        0 <= i < deck.len(),
        text == deck[i].front_text@,
    ensures
        prev_index(next_index(i, deck.len() as int), deck.len() as int) == i,
        deck[prev_index(next_index(i, deck.len() as int), deck.len() as int)].front_text@
            == text,
{
}

/// One-call lag of `flip`: on a card showing its front, the first flip
/// displays the front text and stores `Back`; the second flip displays the
/// back text and stores `Front` again, restoring the card exactly.
pub proof fn lemma_flip_twice(c: Flashcard)
    requires
        c.visible_side == Side::Front,
    ensures
        visible_text(c) == c.front_text@,
        card_flipped(c).visible_side == Side::Back,
        visible_text(card_flipped(c)) == c.back_text@,
        card_flipped(card_flipped(c)).visible_side == Side::Front,
        card_flipped(card_flipped(c)) == c,
{
}

} // verus!
