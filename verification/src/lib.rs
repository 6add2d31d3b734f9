//! Rules engine of a four-slot card battle: the card catalogue, the boards,
//! each side's deck and power, ability auras, combat, the kill cascade and
//! the turn phases.

pub mod abilities;
pub mod arena;
pub mod board;
pub mod cards;
pub mod cascade;
pub mod combat;
pub mod deck;
pub mod game;
pub mod hand;
pub mod menu;
pub mod players;
mod random;
pub mod states;
pub mod table;
pub mod turn;
