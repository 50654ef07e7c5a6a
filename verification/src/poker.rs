//! The card model and the hand classifier.

pub mod combination;
pub mod deck_card;
pub mod game;
pub mod laws;
pub mod model;
pub mod play_card;
pub mod suit;
