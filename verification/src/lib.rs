//! The card game War as a verified state machine: a standard deck, two
//! players with a draw pile and a winnings pile each, and a turn function
//! that resolves battles and wars and reports what happened as events.

pub mod card;
pub mod deck;
pub mod event;
pub mod game;
pub mod histogram;
pub mod player;
pub mod random;
pub mod text;
pub mod war;

pub use card::{Card, Face, Suit};
pub use deck::{create_shuffled_deck, create_standard_deck};
pub use event::{Event, EventView};
pub use game::{Game, Stats};
pub use player::{Hand, Player};
