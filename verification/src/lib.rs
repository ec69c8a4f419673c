//! Rules engine and session coordinator for Grid, a turn-based capture card
//! game for two to four players on an 11 by 11 board.
//!
//! Every executable function carries a contract over the mathematical model
//! of the data it touches, and every contract is machine-checked. The few
//! calls into code that is not checked here stand in `random` and `text`,
//! each with the contract it is trusted for.

pub mod board;
pub mod capture;
pub mod cards;
pub mod client;
pub mod connection;
pub mod deal;
pub mod game;
pub mod laws;
pub mod messages;
pub mod pile;
pub mod protocol;
pub mod random;
pub mod session;
pub mod text;
pub mod turns;

pub use board::{Board, BOARD_SIZE};
pub use cards::{full_deck, Card, Deck, Hand, Suit, Value, DECK_SIZE, HAND_SIZE};
pub use client::{board_click, hand_click, next_scene, HandClick, JoinReply, Scene};
pub use connection::{Action, Event, Handler};
pub use game::{GameOptions, GameState, InvalidPlayerIndex, PlayerState, TakingVariant};
pub use messages::{PlayerMove, PlayerVisibleGameState};
pub use protocol::{
    generate_join_code, login_frame, parse_login, CLOSE_GAME_WON, CLOSE_PROTOCOL_ERROR,
    JOIN_CODE_LENGTH, LIVENESS_PROBE, PROTOCOL_ERROR_REASON, REPLY_OK,
};
pub use session::{
    is_player_count, Admission, MoveVerdict, Refusal, ServerState, MAX_PLAYERS, MIN_PLAYERS,
};
