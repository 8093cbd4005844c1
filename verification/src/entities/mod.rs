//! Players and what belongs to them.

pub mod player;
