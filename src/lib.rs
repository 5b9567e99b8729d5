//! A two-player, best-of-three card game engine: cards move from deck to hand
//! to board, rounds are scored on board power, and the match ends once a side
//! has won two rounds or the third round is over.

pub mod card;
pub mod board;
pub mod player;
pub mod game;
pub mod laws;
pub mod text;
pub mod deck;

pub use card::{Card, CardId, CardKind, PlayerId, Row};
pub use board::Board;
pub use player::PlayerState;
pub use game::{Action, GameState, Outcome, current_player_name, find_card_in_hand};
pub use deck::{
    DeckError, card_from_record, deck_from_records, load_deck_from_csv, nilfgaard_deck,
    northern_realms_deck,
};
