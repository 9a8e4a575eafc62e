//! A flashcard deck viewer's core: cards with a front and a back face, a
//! cursor (`Holder`) that steps through the deck and flips the visible face,
//! and the ingestion step that wraps raw cell text and materializes the deck.

pub mod flashcard;
pub mod ingest;
pub mod wrap;
