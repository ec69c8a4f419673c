//! What a player's client makes of what the server sends, and the moves it
//! sends back.

use vstd::prelude::*;
use vstd::string::StringExecFns;
use crate::board::{Board, BOARD_SIZE};
use crate::messages::{PlayerMove, PlayerVisibleGameState};

verus! {

/// What the reply to a login means to the client.
#[derive(Debug, Clone, Copy, PartialEq, Eq, Structural)]
pub enum JoinReply {
    /// "ok": the login is accepted, the client waits for the game.
    Accepted,
    /// "full": the game has no place for this player.
    NoOpenSeats,
    /// "username": another connection holds the username.
    UsernameTaken,
    /// "join code": the join code is wrong.
    IncorrectJoinCode,
    /// Anything else breaks the protocol.
    Unrecognised,
}

impl JoinReply {
    /// What a reply reads as.
    pub open spec fn spec_read(message: Seq<char>) -> JoinReply {
        if message == "ok"@ {
            JoinReply::Accepted
        } else if message == "full"@ {
            JoinReply::NoOpenSeats
        } else if message == "username"@ {
            JoinReply::UsernameTaken
        } else if message == "join code"@ {
            JoinReply::IncorrectJoinCode
        } else {
            JoinReply::Unrecognised
        }
    }

    /// Read the reply to a login.
    pub fn read(message: &str) -> (reply: JoinReply)
        ensures
            reply == JoinReply::spec_read(message@),
    {
        let text = String::from_str(message);
        if text == String::from_str("ok") {
            JoinReply::Accepted
        } else if text == String::from_str("full") {
            JoinReply::NoOpenSeats
        } else if text == String::from_str("username") {
            JoinReply::UsernameTaken
        } else if text == String::from_str("join code") {
            JoinReply::IncorrectJoinCode
        } else {
            JoinReply::Unrecognised
        }
    }

    /// What the player is told of a login that was refused; nothing for the
    /// other replies.
    pub fn explanation(&self) -> (text: Option<&'static str>)
        ensures
            match *self {
                JoinReply::NoOpenSeats => text matches Some(told) && told@ == "No open seats"@,
                JoinReply::UsernameTaken => text matches Some(told) && told@
                    == "Username already taken"@,
                JoinReply::IncorrectJoinCode => text matches Some(told) && told@
                    == "Incorrect join code"@,
                _ => text is None,
            },
    {
        match *self {
            JoinReply::NoOpenSeats => Some("No open seats"),
            JoinReply::UsernameTaken => Some("Username already taken"),
            JoinReply::IncorrectJoinCode => Some("Incorrect join code"),
            _ => None,
        }
    }
}

/// What the client shows for a state of the game.
#[derive(Debug, Clone, Copy, PartialEq, Eq, Structural)]
pub enum Scene {
    /// It is the viewer's turn and somebody else still holds cards.
    YourTurn,
    /// It is the viewer's turn and nobody else holds cards.
    YouWin,
    /// It is somebody else's turn and the viewer still holds cards.
    NotYourTurn,
    /// It is somebody else's turn and the viewer holds no cards.
    YouLost,
}

/// Whether, in the standings, nobody but the viewer holds a card.
pub open spec fn nobody_else_holds_cards(state: &PlayerVisibleGameState) -> bool {
    forall|i: int|
        0 <= i < state.players@.len() ==> (#[trigger] state.players@[i]).0@ == state.username@
            || state.players@[i].1 == 0
}

/// Whether the standings list the viewer without a card.
pub open spec fn viewer_holds_no_cards(state: &PlayerVisibleGameState) -> bool {
    exists|i: int|
        0 <= i < state.players@.len() && (#[trigger] state.players@[i]).0@ == state.username@
            && state.players@[i].1 == 0
}

/// The scene for a state of the game, or nothing where the turn is on no
/// player of the standings.
pub open spec fn spec_next_scene(state: &PlayerVisibleGameState) -> Option<Scene> {
    if state.turn >= state.players@.len() {
        None
    } else if state.players@[state.turn as int].0@ == state.username@ {
        if nobody_else_holds_cards(state) {
            Some(Scene::YouWin)
        } else {
            Some(Scene::YourTurn)
        }
    } else {
        if viewer_holds_no_cards(state) {
            Some(Scene::YouLost)
        } else {
            Some(Scene::NotYourTurn)
        }
    }
}

/// Pick the scene for a state that the server sent. A state whose turn is
/// on no player of its standings breaks the protocol and yields nothing.
pub fn next_scene(game_state: &PlayerVisibleGameState) -> (scene: Option<Scene>)
    ensures
        scene == spec_next_scene(game_state),
{
    if game_state.turn >= game_state.players.len() {
        return None;
    }
    let viewer_is_active = game_state.players[game_state.turn].0 == game_state.username;
    let mut all_others_out = true;
    let mut viewer_out = false;
    let mut i: usize = 0;
    while i < game_state.players.len()
        invariant
            i <= game_state.players@.len(),
            all_others_out == forall|j: int|
                0 <= j < i ==> (#[trigger] game_state.players@[j]).0@ == game_state.username@
                    || game_state.players@[j].1 == 0,
            viewer_out == exists|j: int|
                0 <= j < i && (#[trigger] game_state.players@[j]).0@ == game_state.username@
                    && game_state.players@[j].1 == 0,
        decreases game_state.players@.len() - i,
    {
        let is_viewer = game_state.players[i].0 == game_state.username;
        let cards = game_state.players[i].1;
        if !is_viewer && cards != 0 {
            all_others_out = false;
        }
        if is_viewer && cards == 0 {
            viewer_out = true;
        }
        i += 1;
    }
    if viewer_is_active {
        if all_others_out {
            // if it's your turn and no-one else has cards, you win instead
            Some(Scene::YouWin)
        } else {
            Some(Scene::YourTurn)
        }
    } else {
        // cases where you aren't the active player
        if viewer_out {
            // if it's not your turn and you don't have cards, you lost
            Some(Scene::YouLost)
        } else {
            Some(Scene::NotYourTurn)
        }
    }
}

/// What a click on a card of the hand does while it is the viewer's turn.
#[derive(Debug, Clone, Copy, PartialEq, Eq)]
pub enum HandClick {
    /// The move is sent at once.
    Play(PlayerMove),
    /// The card selected for the next click on the board changes.
    Select(Option<usize>),
}

/// Answer a click on the card at `index` of the hand. On an empty board the
/// card can only go to the centre, so the move is sent at once. Otherwise
/// the click selects the card, or takes the selection back where the card
/// was selected already.
pub fn hand_click(board: &Board, selected: Option<usize>, index: usize) -> (click: HandClick)
    ensures
        click == if board.spec_is_empty() {
            HandClick::Play(
                PlayerMove { card: index, location: (BOARD_SIZE / 2, BOARD_SIZE / 2) },
            )
        } else if selected == Some(index) {
            HandClick::Select(None)
        } else {
            HandClick::Select(Some(index))
        },
{
    if board.is_empty() {
        return HandClick::Play(
            PlayerMove { card: index, location: (BOARD_SIZE / 2, BOARD_SIZE / 2) },
        );
    }
    match selected {
        Some(current) if current == index => HandClick::Select(None),
        _ => HandClick::Select(Some(index)),
    }
}

/// Answer a click on the cell at `location` of the board: the move that
/// plays the selected card there, or nothing where no card is selected.
pub fn board_click(selected: Option<usize>, location: (usize, usize)) -> (to_send: Option<
    PlayerMove,
>)
    ensures
        to_send == match selected {
            Some(card) => Some(PlayerMove { card, location }),
            None => None,
        },
{
    match selected {
        Some(card) => Some(PlayerMove { card, location }),
        None => None,
    }
}

} // verus!
