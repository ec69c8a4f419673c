//! The protocol driver of one connection: from the login frame through the
//! replies of the coordinator to the moves of a running game.
//!
//! The driver is a state machine. Whoever holds the channel hands it what
//! happened and performs the action it answers with; the driver itself
//! sends and receives nothing.

use vstd::prelude::*;
use crate::messages::{PlayerMove, PlayerVisibleGameState};
use crate::protocol::{is_login, login_join_code, login_username, parse_login};
use crate::game::shown_to_name;
use crate::session::{Admission, MoveVerdict, Refusal, ServerState};

verus! {

/// Where a connection stands in the protocol.
#[derive(Debug)]
pub enum Handler {
    /// The login frame has not arrived yet.
    Handshaking,
    /// The login waits for the probe of the connection that holds the
    /// username.
    Probing { username: String },
    /// The login is admitted, and "ok" is on its way to the connection.
    Greeting { username: String },
    /// The login rejoins a running game, and the state of the game is on
    /// its way to the connection.
    Briefing { username: String },
    /// The connection is registered and its frames are read as moves.
    Active { username: String },
    /// The connection is done with.
    Closed,
}

/// What happened on a connection.
#[derive(Debug)]
pub enum Event {
    /// A frame arrived. `text` is its text, or nothing where the frame was
    /// no text frame or the channel ended; `player_move` is the move that
    /// the text reads as, if it reads as one.
    Frame { text: Option<String>, player_move: Option<PlayerMove> },
    /// The probe of the holder of the username went out (`live`) or could
    /// not be sent.
    Probed { live: bool },
    /// What the last action sent to this connection went out (`delivered`)
    /// or could not be sent.
    Sent { delivered: bool },
}

/// What is to be done for a connection.
#[derive(Debug)]
pub enum Action {
    /// Wait for the next frame of the connection and report it.
    Receive,
    /// Ping the connection registered under `holder` and report whether the
    /// ping went out.
    Probe { holder: String },
    /// Send "ok" to the connection and report whether it went out.
    Greet,
    /// Send `state` to the connection and report whether it went out.
    Brief { state: PlayerVisibleGameState },
    /// Send the reply of `refusal` to the connection and end.
    Refuse { refusal: Refusal },
    /// Close the connection, which is not registered, with a protocol error
    /// and end.
    ProtocolError,
    /// Close the connection, which was registered until now, with a
    /// protocol error and end.
    Evict,
    /// End without a word.
    Stop,
    /// Send each of `messages` to the connection registered under its
    /// username, report those that could not be sent as lost, then wait for
    /// the next frame of this connection and report it.
    Broadcast { messages: Vec<(String, PlayerVisibleGameState)> },
    /// Close every connection named in `to_disconnect` with the code of a
    /// game won and the name of the winner, the player left with cards, and
    /// end.
    EndGame { winner: String, to_disconnect: Vec<String> },
}

/// Whether `action` and `after` are what a decision on the login of
/// `username` leads to: a refusal is sent and ends the connection, a held
/// username is probed, an admitted login is greeted.
pub open spec fn decided(
    decision: Admission,
    username: Seq<char>,
    action: &Action,
    after: &Handler,
) -> bool {
    match decision {
        Admission::Refused(refusal) => {
            &&& *action == (Action::Refuse { refusal })
            &&& *after == Handler::Closed
        },
        Admission::Held => {
            &&& *action matches Action::Probe { holder }
            &&& holder@ == username
            &&& *after matches Handler::Probing { username: name }
            &&& name@ == username
        },
        Admission::Admitted => {
            &&& *action == Action::Greet
            &&& *after matches Handler::Greeting { username: name }
            &&& name@ == username
        },
    }
}

/// Whether `action`, `after` and `served` are what registering the
/// connection of `username` with `server` leads to: the connection is
/// active; where it filled the lobby the game has started and its first
/// state is broadcast; otherwise the next frame is awaited.
pub open spec fn enrolled(
    server: &ServerState,
    username: Seq<char>,
    action: &Action,
    after: &Handler,
    served: &ServerState,
) -> bool {
    &&& *after matches Handler::Active { username: name }
    &&& name@ == username
    &&& exists|started: bool| #[trigger]
        served.registered_as(server, username, started) && if started {
            *action matches Action::Broadcast { messages } && served.broadcasts(messages@)
        } else {
            *action == Action::Receive
        }
}

/// Whether `action`, `after` and `served` are what a frame that reads as
/// `submitted` from the registered connection of `username` leads to.
pub open spec fn played(
    server: &ServerState,
    username: Seq<char>,
    submitted: Option<PlayerMove>,
    action: &Action,
    before: &Handler,
    after: &Handler,
    served: &ServerState,
) -> bool {
    exists|verdict: MoveVerdict| #[trigger]
        served.answered(server, username, submitted, &verdict) && match verdict {
            MoveVerdict::Evict => *action == Action::Evict && *after == Handler::Closed,
            MoveVerdict::Broadcast => {
                &&& *action matches Action::Broadcast { messages }
                &&& served.broadcasts(messages@)
                &&& *after == *before
            },
            MoveVerdict::GameOver { winner, to_disconnect } => {
                &&& *action == (Action::EndGame { winner, to_disconnect })
                &&& *after == Handler::Closed
            },
        }
}

/// Whether a connection in the state `before`, served by `server`, on
/// `event` goes to the state `after` with `action`, and leaves the
/// coordinator as `served`.
pub open spec fn steps(
    before: &Handler,
    server: &ServerState,
    event: &Event,
    action: &Action,
    after: &Handler,
    served: &ServerState,
) -> bool {
    match (*before, *event) {
        (Handler::Handshaking, Event::Frame { text, .. }) => {
            &&& *served == *server
            &&& if text is Some && is_login(text->0@) {
                decided(
                    server.spec_admission(login_username(text->0@), login_join_code(text->0@)),
                    login_username(text->0@),
                    action,
                    after,
                )
            } else {
                *action == Action::ProtocolError && *after == Handler::Closed
            }
        },
        (Handler::Probing { username }, Event::Probed { live }) => {
            &&& *served == *server
            &&& decided(server.spec_after_probe(live), username@, action, after)
        },
        (Handler::Greeting { username }, Event::Sent { delivered }) => {
            if !delivered {
                *served == *server && *action == Action::Stop && *after == Handler::Closed
            } else if server.running() {
                &&& *served == *server
                &&& *action matches Action::Brief { state }
                &&& shown_to_name(&server.game(), username@, &state)
                &&& *after matches Handler::Briefing { username: name }
                &&& name@ == username@
            } else {
                enrolled(server, username@, action, after, served)
            }
        },
        (Handler::Briefing { username }, Event::Sent { delivered }) => {
            if !delivered {
                *served == *server && *action == Action::Stop && *after == Handler::Closed
            } else {
                enrolled(server, username@, action, after, served)
            }
        },
        (Handler::Active { username }, Event::Frame { text, player_move }) => {
            played(
                server,
                username@,
                if text is Some {
                    player_move
                } else {
                    None
                },
                action,
                before,
                after,
                served,
            )
        },
        _ => *served == *server && *action == Action::Stop && *after == Handler::Closed,
    }
}

impl Handler {
    /// The driver of a connection that has just been opened.
    pub fn new() -> (handler: Handler)
        ensures
            handler == Handler::Handshaking,
    {
        Handler::Handshaking
    }

    /// Whether the connection is done with.
    pub fn is_closed(&self) -> (closed: bool)
        ensures
            closed == (*self == Handler::Closed),
    {
        match self {
            Handler::Closed => true,
            _ => false,
        }
    }

    /// The username under which the connection is registered, once it is.
    pub fn registered_as(&self) -> (name: Option<&str>)
        ensures
            match *self {
                Handler::Active { username } => name matches Some(text) && text@ == username@,
                _ => name is None,
            },
    {
        match self {
            Handler::Active { username } => Some(username.as_str()),
            _ => None,
        }
    }

    /// Whether the driver can take `event` with the coordinator `server`:
    /// a frame of a registered connection needs a running game, and a
    /// connection that is about to be registered needs a place.
    pub open spec fn ready(&self, server: &ServerState, event: &Event) -> bool {
        match (*self, *event) {
            (Handler::Active { .. }, Event::Frame { .. }) => server.running(),
            (Handler::Greeting { username }, Event::Sent { delivered }) => delivered
                ==> server.has_place_for(username@),
            (Handler::Briefing { username }, Event::Sent { delivered }) => delivered
                ==> server.has_place_for(username@),
            _ => true,
        }
    }

    /// Whether the driver can take `event` with the coordinator `server`.
    pub fn is_ready(&self, server: &ServerState, event: &Event) -> (ready: bool)
        ensures
            ready == self.ready(server, event),
    {
        match self {
            Handler::Active { .. } => match event {
                Event::Frame { .. } => server.is_running(),
                _ => true,
            },
            Handler::Greeting { username } => match event {
                Event::Sent { delivered } => !*delivered || server.can_register(username.as_str()),
                _ => true,
            },
            Handler::Briefing { username } => match event {
                Event::Sent { delivered } => !*delivered || server.can_register(username.as_str()),
                _ => true,
            },
            _ => true,
        }
    }

    /// Take what happened on the connection and answer what is to be done.
    ///
    /// The login frame is read and the coordinator decides on it; a held
    /// username is probed first. An admitted login is greeted; in a running
    /// game it is then sent the state of the game. Only when that went out
    /// is the connection registered, which may fill the lobby and start the
    /// game. From then on every frame is a move for the coordinator to
    /// answer. Anything out of place ends the connection.
    pub fn step(&mut self, server: &mut ServerState, event: Event) -> (action: Action)
        requires
            old(server).wf(),
            old(self).ready(old(server), &event),
        ensures
            final(server).wf(),
            steps(old(self), old(server), &event, &action, final(self), final(server)),
    {
        let (next, action) = self.answer(server, event);
        *self = next;
        action
    }

    /// What `step` does, with the next state handed back.
    fn answer(&self, server: &mut ServerState, event: Event) -> (answer: (Handler, Action))
        requires
            old(server).wf(),
            self.ready(old(server), &event),
        ensures
            final(server).wf(),
            steps(self, old(server), &event, &answer.1, &answer.0, final(server)),
    {
        match self {
            Handler::Handshaking => match event {
                Event::Frame { text: Some(frame), .. } => match parse_login(frame.as_str()) {
                    Some((username, join_code)) => {
                        let decision = server.admission(username.as_str(), join_code.as_str());
                        Self::decide(decision, username)
                    },
                    None => (Handler::Closed, Action::ProtocolError),
                },
                Event::Frame { text: None, .. } => (Handler::Closed, Action::ProtocolError),
                _ => (Handler::Closed, Action::Stop),
            },
            Handler::Probing { username } => match event {
                Event::Probed { live } => Self::decide(server.after_probe(live), username.clone()),
                _ => (Handler::Closed, Action::Stop),
            },
            Handler::Greeting { username } => match event {
                Event::Sent { delivered: true } => {
                    if server.is_running() {
                        // Send current game state to the reconnecting player
                        match server.snapshot_for(username.as_str()) {
                            Some(state) => (
                                Handler::Briefing { username: username.clone() },
                                Action::Brief { state },
                            ),
                            None => unreached(),
                        }
                    } else {
                        Self::enroll(server, username.clone())
                    }
                },
                _ => (Handler::Closed, Action::Stop),
            },
            Handler::Briefing { username } => match event {
                Event::Sent { delivered: true } => Self::enroll(server, username.clone()),
                _ => (Handler::Closed, Action::Stop),
            },
            Handler::Active { username } => match event {
                Event::Frame { text, player_move } => {
                    let submitted = if text.is_some() {
                        player_move
                    } else {
                        None
                    };
                    match server.submit_move(username.as_str(), submitted) {
                        MoveVerdict::Evict => (Handler::Closed, Action::Evict),
                        MoveVerdict::Broadcast => (
                            Handler::Active { username: username.clone() },
                            Action::Broadcast { messages: server.broadcast_state() },
                        ),
                        MoveVerdict::GameOver { winner, to_disconnect } => (
                            Handler::Closed,
                            Action::EndGame { winner, to_disconnect },
                        ),
                    }
                },
                _ => (Handler::Closed, Action::Stop),
            },
            Handler::Closed => (Handler::Closed, Action::Stop),
        }
    }

    /// What a decision on the login of `username` leads to.
    fn decide(decision: Admission, username: String) -> (answer: (Handler, Action))
        ensures
            decided(decision, username@, &answer.1, &answer.0),
    {
        match decision {
            Admission::Refused(refusal) => (Handler::Closed, Action::Refuse { refusal }),
            Admission::Held => (
                Handler::Probing { username: username.clone() },
                Action::Probe { holder: username },
            ),
            Admission::Admitted => (Handler::Greeting { username }, Action::Greet),
        }
    }

    /// Register the connection of `username` and, where that started the
    /// game, have its first state broadcast.
    fn enroll(server: &mut ServerState, username: String) -> (answer: (Handler, Action))
        requires
            old(server).wf(),
            old(server).has_place_for(username@),
        ensures
            final(server).wf(),
            enrolled(old(server), username@, &answer.1, &answer.0, final(server)),
    {
        // Add player to connections; if game is full, it starts
        let started = server.register(username.as_str());
        let action = if started {
            // Send game state to all players
            Action::Broadcast { messages: server.broadcast_state() }
        } else {
            Action::Receive
        };
        (Handler::Active { username }, action)
    }
}

} // verus!
