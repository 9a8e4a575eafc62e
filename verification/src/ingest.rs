//! Ingestion: turn the two text columns of a tabular source into a deck of
//! wrapped cards.

use vstd::prelude::*;
use crate::flashcard::{Deck, Flashcard, Side};
use crate::wrap::{wrap_text, wrapped_text};

verus! {

/// Why a load was rejected.
#[derive(Clone, Copy, Debug, PartialEq, Eq, Structural)]
pub enum LoadError {
    /// The source held no rows: a deck must have at least one card.
    EmptyDataset,
    /// The two columns did not hold the same number of cells.
    ColumnLengthMismatch,
}

/// Build the deck from the two column vectors: each cell is wrapped to
/// `width` columns and stripped of double quotes, row order becomes card
/// order, and every card starts showing its front face. An empty source, or
/// columns of unequal length, are rejected — so a `Holder` is never
/// constructed over an empty deck.
pub fn load_flashcards(fronts: Vec<String>, backs: Vec<String>, width: usize) -> (r: Result<
    Deck,
    LoadError,
>)
    ensures
        r is Ok <==> (fronts@.len() == backs@.len() && fronts@.len() >= 1),
        fronts@.len() != backs@.len() ==> r == Err::<Deck, LoadError>(
            LoadError::ColumnLengthMismatch,
        ),
        (fronts@.len() == backs@.len() && fronts@.len() == 0) ==> r == Err::<Deck, LoadError>(
            LoadError::EmptyDataset,
        ),
        r is Ok ==> {
            let d = r->Ok_0;
            &&& d.0@.len() == fronts@.len()
            &&& forall|i: int|
                0 <= i < d.0@.len() ==> {
                    &&& (#[trigger] d.0@[i]).front_text@ == wrapped_text(
                        fronts@[i]@,
                        width as int,
                    )
                    &&& d.0@[i].back_text@ == wrapped_text(backs@[i]@, width as int)
                    &&& d.0@[i].visible_side == Side::Front
                }
        },
{
    if fronts.len() != backs.len() {
        return Err(LoadError::ColumnLengthMismatch);
    }
    if fronts.len() == 0 {
        return Err(LoadError::EmptyDataset);
    }
    let n = fronts.len();
    let mut cards: Vec<Flashcard> = Vec::new();
    let mut i: usize = 0;
    while i < n
        invariant
            i <= n,
            n == fronts@.len(),
            n == backs@.len(),
            cards@.len() == i,
            forall|j: int|
                0 <= j < i ==> {
                    &&& (#[trigger] cards@[j]).front_text@ == wrapped_text(
                        fronts@[j]@,
                        width as int,
                    )
                    &&& cards@[j].back_text@ == wrapped_text(backs@[j]@, width as int)
                    &&& cards@[j].visible_side == Side::Front
                },
        decreases n - i,
    {
        let front = wrap_text(fronts[i].clone(), width);
        let back = wrap_text(backs[i].clone(), width);
        cards.push(Flashcard::new(front, back));
        i = i + 1;
    }
    Ok(Deck::new(cards))
}

} // verus!
