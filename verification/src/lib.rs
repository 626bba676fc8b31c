//! Seven-card poker hands: which of the ten standard categories a hand
//! holds, and which of two categories is the stronger.

pub mod card;
pub mod category;
pub mod classify;
pub mod counting;
pub mod deck;
pub mod grouping;
pub mod laws;
pub mod straight;
