//! A flashcard study session for Chinese vocabulary decks: the pile of cards
//! being studied, the named decks it is drawn from, the state machine that
//! flips, removes, re-queues and shuffles cards, and the values a front end
//! needs to draw the session.

pub mod text;
pub mod card;
pub mod decks;
pub mod random;
pub mod session;
pub mod display;
pub mod laws;
