//! Encounter resolution for a turn-based grid game: when an active player
//! stands on a cell, every other player on that cell meets it once, and the
//! pairwise rules move items between their inventories.

pub mod board;
pub mod command;
pub mod encounter;
pub mod inventory;
pub mod players;
pub mod rules;
