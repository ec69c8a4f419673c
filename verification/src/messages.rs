//! What travels between the server and a player: the move a player submits
//! and the part of the game a player is allowed to see.

use vstd::prelude::*;
use crate::board::Board;
use crate::cards::{Deck, Hand};

verus! {

/// A move a player can make.
#[derive(Debug, Clone, Copy, PartialEq, Eq)]
pub struct PlayerMove {
    /// Which card, indexed from their hand.
    pub card: usize,
    /// Where, as indexes (row, column) into the board.
    pub location: (usize, usize),
}

/// Game state visible to a player: the whole board, the player's own hand
/// and deck, and of every player only the name and the number of cards held.
#[derive(Debug, Clone, PartialEq, Eq)]
pub struct PlayerVisibleGameState {
    pub board: Board,
    pub hand: Hand,
    pub deck: Deck,
    pub username: String,
    pub players: Vec<(String, u32)>,
    pub turn: usize,
}

} // verus!
