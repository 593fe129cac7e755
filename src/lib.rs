//! Rules engine for a turn-based, multiplayer colour-matching card game:
//! the draw pile, the players' hands, turn order and direction, and the
//! resolution of special cards, penalty draws and wins.

pub mod card;
pub mod constants;
pub mod deck;
pub mod player;
pub mod error;
pub mod turn;
pub mod uno;
pub mod rules;
