//! The session coordinator: a lobby that fills up to a fixed number of
//! players, the game that starts when it is full, and the registry of the
//! connections that are attached to either.
//!
//! The coordinator decides; it sends nothing. Whoever drives it holds the
//! channels, performs what the coordinator's answers call for and reports
//! back what came of it.

use vstd::prelude::*;
use vstd::string::StringExecFns;
use crate::game::{first_seat_of, on_roster, shown_to_name, GameOptions, GameState};
use crate::turns::holders;
use crate::messages::{PlayerMove, PlayerVisibleGameState};
use crate::random::shuffle;

verus! {

/// The smallest number of players a game is set up for.
pub const MIN_PLAYERS: usize = 2;

/// The largest number of players a game is set up for.
pub const MAX_PLAYERS: usize = 4;

/// Whether a game can be set up for `num_players` players.
pub fn is_player_count(num_players: usize) -> (valid: bool)
    ensures
        valid == (MIN_PLAYERS <= num_players <= MAX_PLAYERS),
{
    MIN_PLAYERS <= num_players && num_players <= MAX_PLAYERS
}

/// Why a login is refused.
#[derive(Debug, Clone, Copy, PartialEq, Eq, Structural)]
pub enum Refusal {
    /// The join code is not the one of this session.
    JoinCode,
    /// The lobby already holds as many connections as the game has players.
    GameFull,
    /// The game is running and the username is not one of its players.
    Full,
    /// The lobby holds a live connection under this username.
    UsernameTaken,
    /// The running game holds a live connection under this username.
    Username,
}

impl Refusal {
    /// The reply that tells a connection why it is refused.
    pub fn token(&self) -> (reply: &'static str)
        ensures
            reply@ == match *self {
                Refusal::JoinCode => "join code"@,
                Refusal::GameFull => "game full"@,
                Refusal::Full => "full"@,
                Refusal::UsernameTaken => "username taken"@,
                Refusal::Username => "username"@,
            },
    {
        match *self {
            Refusal::JoinCode => "join code",
            Refusal::GameFull => "game full",
            Refusal::Full => "full",
            Refusal::UsernameTaken => "username taken",
            Refusal::Username => "username",
        }
    }
}

/// What becomes of a login.
#[derive(Debug, Clone, Copy, PartialEq, Eq, Structural)]
pub enum Admission {
    /// The login is refused for the reason given.
    Refused(Refusal),
    /// The registry holds a connection under this username: it has to be
    /// probed, and `after_probe` decides.
    Held,
    /// The login is admitted.
    Admitted,
}

/// The state of the server: waiting in the lobby for players, or running a
/// game.
#[derive(Debug)]
pub enum ServerState {
    Lobby { options: GameOptions, num_players: usize, connections: Vec<String>, join_code: String },
    Running { game_state: GameState, connections: Vec<String>, join_code: String },
}

/// Whether one of `names` reads `name`.
pub open spec fn has_name(names: Seq<String>, name: Seq<char>) -> bool {
    exists|i: int| 0 <= i < names.len() && (#[trigger] names[i])@ == name
}

/// Whether no two of `names` read the same.
pub open spec fn distinct(names: Seq<String>) -> bool {
    forall|i: int, j: int|
        0 <= i < j < names.len() ==> (#[trigger] names[i])@ != (#[trigger] names[j])@
}

/// `names` without those that read `name`.
pub open spec fn without(names: Seq<String>, name: Seq<char>) -> Seq<String> {
    names.filter(|entry: String| entry@ != name)
}

/// Whether `name` is among `names`.
fn name_listed(names: &Vec<String>, name: &String) -> (found: bool)
    ensures
        found == has_name(names@, name@),
{
    let mut i: usize = 0;
    while i < names.len()
        invariant
            i <= names@.len(),
            forall|j: int| 0 <= j < i ==> (#[trigger] names@[j])@ != name@,
        decreases names@.len() - i,
    {
        if names[i] == *name {
            return true;
        }
        i += 1;
    }
    false
}

impl ServerState {
    /// The usernames under which a connection is registered.
    pub open spec fn connections(&self) -> Seq<String> {
        match *self {
            ServerState::Lobby { connections, .. } => connections@,
            ServerState::Running { connections, .. } => connections@,
        }
    }

    /// The join code of the session.
    pub open spec fn join_code(&self) -> Seq<char> {
        match *self {
            ServerState::Lobby { join_code, .. } => join_code@,
            ServerState::Running { join_code, .. } => join_code@,
        }
    }

    /// The options of the games of this session.
    pub open spec fn options(&self) -> GameOptions {
        match *self {
            ServerState::Lobby { options, .. } => options,
            ServerState::Running { game_state, .. } => game_state.game_options,
        }
    }

    /// Whether the coordinator waits in the lobby.
    pub open spec fn in_lobby(&self) -> bool {
        self is Lobby
    }

    /// Whether the coordinator runs a game.
    pub open spec fn running(&self) -> bool {
        self is Running
    }

    /// The game that is running.
    pub open spec fn game(&self) -> GameState {
        self->game_state
    }

    /// The number of players of the games of this session.
    pub open spec fn capacity(&self) -> int {
        match *self {
            ServerState::Lobby { num_players, .. } => num_players as int,
            ServerState::Running { game_state, .. } => game_state.players@.len() as int,
        }
    }

    /// What every state of the coordinator satisfies. No username is
    /// registered twice. The lobby holds no more connections than the game
    /// has players. A running game is in order, no two of its players are
    /// called the same, and every connection is registered under the name
    /// of one of them.
    pub open spec fn wf(&self) -> bool {
        match *self {
            ServerState::Lobby { num_players, connections, .. } => {
                &&& distinct(connections@)
                &&& connections@.len() <= num_players
            },
            ServerState::Running { game_state, connections, .. } => {
                &&& distinct(connections@)
                &&& game_state.wf()
                &&& game_state.distinct_names()
                &&& forall|i: int|
                    0 <= i < connections@.len() ==> on_roster(
                        &game_state,
                        (#[trigger] connections@[i])@,
                    )
            },
        }
    }

    /// What a login under `username` with `join_code` comes to before the
    /// holder of the username, if there is one, has been probed.
    pub open spec fn spec_admission(&self, username: Seq<char>, join_code: Seq<char>) -> Admission {
        if join_code != self.join_code() {
            Admission::Refused(Refusal::JoinCode)
        } else {
            match *self {
                ServerState::Lobby { num_players, connections, .. } => {
                    if connections@.len() >= num_players {
                        Admission::Refused(Refusal::GameFull)
                    } else if has_name(connections@, username) {
                        Admission::Held
                    } else {
                        Admission::Admitted
                    }
                },
                ServerState::Running { game_state, connections, .. } => {
                    if !on_roster(&game_state, username) {
                        Admission::Refused(Refusal::Full)
                    } else if has_name(connections@, username) {
                        Admission::Held
                    } else {
                        Admission::Admitted
                    }
                },
            }
        }
    }

    /// A lobby for a game of `num_players` players under `options`, entered
    /// with `join_code`, with no connection yet.
    pub fn new(options: GameOptions, num_players: usize, join_code: String) -> (state: ServerState)
        ensures
            state.wf(),
            state.in_lobby(),
            state.options() == options,
            state.capacity() == num_players,
            state.join_code() == join_code@,
            state.connections().len() == 0,
    {
        ServerState::Lobby { options, num_players, connections: Vec::new(), join_code }
    }

    /// Whether a game is running.
    pub fn is_running(&self) -> (running: bool)
        ensures
            running == (self.running()),
    {
        match self {
            ServerState::Lobby { .. } => false,
            ServerState::Running { .. } => true,
        }
    }

    /// Whether a connection is registered under `username`.
    pub fn is_connected(&self, username: &str) -> (connected: bool)
        ensures
            connected == has_name(self.connections(), username@),
    {
        let name = String::from_str(username);
        match self {
            ServerState::Lobby { connections, .. } => name_listed(connections, &name),
            ServerState::Running { connections, .. } => name_listed(connections, &name),
        }
    }

    /// Decide on a login, as far as that can be done without probing
    /// anyone.
    ///
    /// A wrong join code is refused first. A lobby refuses when it is full,
    /// a running game when the username is not one of its players. Where a
    /// connection is registered under the username, the decision is left to
    /// the probe of that connection. Every other login is admitted.
    pub fn admission(&self, username: &str, attempt_join_code: &str) -> (decision: Admission)
        requires
            self.wf(),
        ensures
            decision == self.spec_admission(username@, attempt_join_code@),
    {
        let name = String::from_str(username);
        let attempt = String::from_str(attempt_join_code);
        match self {
            ServerState::Lobby { num_players, connections, join_code, .. } => {
                // check join code
                if *join_code != attempt {
                    return Admission::Refused(Refusal::JoinCode);
                }
                // Check if game is full
                if connections.len() >= *num_players {
                    return Admission::Refused(Refusal::GameFull);
                }
                // Check if username is already taken
                if name_listed(connections, &name) {
                    return Admission::Held;
                }
                Admission::Admitted
            },
            ServerState::Running { game_state, connections, join_code } => {
                // Check join code
                if *join_code != attempt {
                    return Admission::Refused(Refusal::JoinCode);
                }
                // Check if username is in the game
                if game_state.seat_of(&name).is_none() {
                    return Admission::Refused(Refusal::Full);
                }
                // Check if username is already connected
                if name_listed(connections, &name) {
                    return Admission::Held;
                }
                Admission::Admitted
            },
        }
    }

    /// What a login that `admission` left to the probe comes to, once the
    /// probe has shown whether the holder of the username is live.
    pub open spec fn spec_after_probe(&self, holder_is_live: bool) -> Admission {
        if !holder_is_live {
            Admission::Admitted
        } else if self.in_lobby() {
            Admission::Refused(Refusal::UsernameTaken)
        } else {
            Admission::Refused(Refusal::Username)
        }
    }

    /// Decide on a login that `admission` left to the probe: a holder that
    /// answered keeps the username, one that did not gives way.
    #[verifier::when_used_as_spec(spec_after_probe)]
    pub fn after_probe(&self, holder_is_live: bool) -> (decision: Admission)
        ensures
            decision == self.spec_after_probe(holder_is_live),
    {
        if !holder_is_live {
            Admission::Admitted
        } else {
            match self {
                ServerState::Lobby { .. } => Admission::Refused(Refusal::UsernameTaken),
                ServerState::Running { .. } => Admission::Refused(Refusal::Username),
            }
        }
    }
}

/// What the coordinator answers to a frame from a connection in a running
/// game.
#[derive(Debug)]
pub enum MoveVerdict {
    /// The frame broke the protocol or the rules: the connection is to be
    /// closed with a protocol error. It is no longer registered.
    Evict,
    /// The move was made and the game goes on: every connection is to be
    /// sent the state as it now is.
    Broadcast,
    /// The move was made and ended the game: every connection named is to
    /// be closed with the name of the winner, who is the player the turn
    /// has passed to, the one player left with cards. The coordinator is
    /// back in the lobby and no connection is registered any more.
    GameOver { winner: String, to_disconnect: Vec<String> },
}

impl ServerState {
    /// Whether a login under `username` can be registered: the lobby has a
    /// free place, or the running game has a player of that name.
    pub open spec fn has_place_for(&self, username: Seq<char>) -> bool {
        match *self {
            ServerState::Lobby { num_players, connections, .. } => connections@.len() < num_players,
            ServerState::Running { game_state, .. } => on_roster(&game_state, username),
        }
    }

    /// Whether a login under `username` can be registered.
    pub fn can_register(&self, username: &str) -> (free: bool)
        ensures
            free == self.has_place_for(username@),
    {
        match self {
            ServerState::Lobby { num_players, connections, .. } => {
                connections.len() < *num_players
            },
            ServerState::Running { game_state, .. } => {
                let name = String::from_str(username);
                game_state.seat_of(&name).is_some()
            },
        }
    }

    /// Whether `self` is a game just started from the lobby `before`: the
    /// players are those registered in the lobby, in an order drawn by
    /// chance, and the game is newly dealt under the options of the lobby.
    pub open spec fn started_from(&self, before: &ServerState) -> bool {
        &&& before.in_lobby()
        &&& self.running()
        &&& self.connections() == before.connections()
        &&& self.join_code() == before.join_code()
        &&& self.options() == before.options()
        &&& self.game().conserved()
        &&& self.game().distinct_names()
        &&& exists|order: Seq<String>|
            {
                &&& order.to_multiset() == before.connections().to_multiset()
                &&& #[trigger] self.game().newly_dealt(order, before.options())
            }
    }

    /// Converts a Lobby state into a Running state: the players are the
    /// usernames registered, their turn order is drawn by chance, and the
    /// game is dealt anew. The order in which the players joined plays no
    /// part in the order of their turns.
    pub fn start(&mut self)
        requires
            old(self).wf(),
            old(self).in_lobby(),
            old(self).connections().len() >= 1,
        ensures
            final(self).wf(),
            final(self).started_from(old(self)),
    {
        match self {
            ServerState::Lobby { options, connections, join_code, .. } => {
                // Extract player names from connections
                let mut player_names: Vec<String> = connections.clone();
                proof {
                    assert(player_names@ =~= connections@);
                }
                shuffle(&mut player_names);
                let ghost order = player_names@;
                proof {
                    broadcast use vstd::seq_lib::group_to_multiset_ensures;

                    assert(order.len() == order.to_multiset().len());
                    assert(connections@.len() == connections@.to_multiset().len());
                }
                // Create the game state with the collected players
                let game_state = GameState::new(player_names, *options);
                let registered = connections.clone();
                proof {
                    assert(registered@ =~= connections@);
                    broadcast use vstd::seq_lib::group_to_multiset_ensures;

                    lemma_reordered_names_are_distinct(connections@, order);
                    assert forall|i: int, j: int|
                        0 <= i < j < game_state.players@.len() implies (
                    #[trigger] game_state.players@[i]).0@ != (
                    #[trigger] game_state.players@[j]).0@ by {
                        assert(game_state.players@[i].0 == order[i]);
                        assert(game_state.players@[j].0 == order[j]);
                    }
                    assert forall|i: int| 0 <= i < registered@.len() implies on_roster(
                        &game_state,
                        (#[trigger] registered@[i])@,
                    ) by {
                        assert(connections@.contains(registered@[i]));
                        assert(order.to_multiset().count(registered@[i]) > 0);
                        assert(order.contains(registered@[i]));
                        let seat = choose|seat: int|
                            0 <= seat < order.len() && order[seat] == registered@[i];
                        assert(game_state.players@[seat].0 == order[seat]);
                    }
                }
                let code = join_code.clone();
                // Convert to Running state by replacing self
                *self = ServerState::Running {
                    game_state,
                    connections: registered,
                    join_code: code,
                };
            },
            ServerState::Running { .. } => unreached(),
        }
    }

    /// Whether `self` is the coordinator after a connection was registered
    /// under `username` with the coordinator `before`, and `started` says
    /// whether that started the game.
    ///
    /// Where the username was registered before, nothing changes. Otherwise
    /// it comes last in the registry; and where that fills the lobby, the
    /// game starts from the lobby so filled.
    pub open spec fn registered_as(
        &self,
        before: &ServerState,
        username: Seq<char>,
        started: bool,
    ) -> bool {
        &&& started == (before.in_lobby() && !has_name(before.connections(), username)
            && before.connections().len() + 1 == before.capacity())
        &&& has_name(before.connections(), username) ==> *self == *before
        &&& !started && !has_name(before.connections(), username) ==> {
            &&& self.connections().len() == before.connections().len() + 1
            &&& self.connections().drop_last() == before.connections()
            &&& self.connections().last()@ == username
            &&& self.join_code() == before.join_code()
            &&& self.options() == before.options()
            &&& self.capacity() == before.capacity()
            &&& (before.in_lobby() <==> self.in_lobby())
            &&& before.running() ==> self.game() == before.game()
        }
        &&& started ==> exists|filled: ServerState|
            {
                &&& filled.in_lobby()
                &&& filled.connections().drop_last() == before.connections()
                &&& filled.connections().last()@ == username
                &&& filled.join_code() == before.join_code()
                &&& filled.options() == before.options()
                &&& #[trigger] self.started_from(&filled)
            }
    }

    /// Register a connection under `username`. A connection that was
    /// registered under that name gives way to it.
    ///
    /// Returns whether this filled the lobby and so started the game.
    pub fn register(&mut self, username: &str) -> (started: bool)
        requires
            old(self).wf(),
            old(self).has_place_for(username@),
        ensures
            final(self).wf(),
            final(self).registered_as(old(self), username@, started),
    {
        let name = String::from_str(username);
        if self.is_connected(username) {
            return false;
        }
        let mut full = false;
        match self {
            ServerState::Lobby { num_players, connections, .. } => {
                connections.push(name);
                full = connections.len() == *num_players;
            },
            ServerState::Running { connections, .. } => {
                connections.push(name);
            },
        }
        proof {
            let before = old(self).connections();
            let after = self.connections();
            assert(after.drop_last() == before);
            assert forall|i: int, j: int| 0 <= i < j < after.len() implies (#[trigger] after[i])@
                != (#[trigger] after[j])@ by {
                if j < before.len() {
                    assert(after[i] == before[i] && after[j] == before[j]);
                } else {
                    assert(after[i] == before[i]);
                }
            }
            assert forall|i: int| 0 <= i < after.len() && self.running() implies on_roster(
                &self.game(),
                (#[trigger] after[i])@,
            ) by {
                if i < before.len() {
                    assert(after[i] == before[i]);
                }
            }
        }
        // If game is full, start it
        if full {
            let ghost filled = *self;
            self.start();
            assert(self.started_from(&filled));
        }
        full
    }

    /// Forget the connection registered under `username`, if there is one.
    pub fn lost_connection(&mut self, username: &str)
        requires
            old(self).wf(),
            old(self).running(),
        ensures
            final(self).wf(),
            final(self).running(),
            final(self).connections() == without(old(self).connections(), username@),
            final(self).join_code() == old(self).join_code(),
            final(self).game() == old(self).game(),
    {
        let name = String::from_str(username);
        match self {
            ServerState::Lobby { .. } => unreached(),
            ServerState::Running { connections, .. } => {
                drop_name(connections, &name);
            },
        }
        proof {
            let before = old(self).connections();
            let after = self.connections();
            let keep = |entry: String| entry@ != username@;
            before.lemma_filter_len(keep);
            assert forall|i: int| 0 <= i < after.len() implies on_roster(
                &self.game(),
                (#[trigger] after[i])@,
            ) by {
                before.lemma_filter_contains_rev(keep, after[i]);
            }
        }
    }

    /// Reset from Running state back to Lobby state for the next game, of
    /// `num_players` players: the options and the join code stay, and no
    /// connection is registered.
    pub fn reset(&mut self, num_players: usize)
        requires
            old(self).running(),
        ensures
            final(self).wf(),
            final(self).in_lobby(),
            final(self).options() == old(self).options(),
            final(self).join_code() == old(self).join_code(),
            final(self).capacity() == num_players,
            final(self).connections().len() == 0,
    {
        match self {
            ServerState::Lobby { .. } => unreached(),
            ServerState::Running { game_state, join_code, .. } => {
                let options = *game_state.get_options();
                let code = join_code.clone();
                *self = ServerState::Lobby {
                    options,
                    num_players,
                    join_code: code,
                    connections: Vec::new(),
                };
            },
        }
    }

    /// Whether a frame from the connection of `username` is a move that the
    /// game takes: the frame could be read as a move, it is the turn of the
    /// player called `username`, and the move is legal.
    pub open spec fn takes_move(&self, username: Seq<char>, submitted: Option<PlayerMove>) -> bool {
        &&& submitted is Some
        &&& self.game().players@[self.game().turn as int].0@ == username
        &&& self.game().legal(submitted->0)
    }

    /// Whether `self` is the coordinator after the coordinator `before`, in
    /// a running game, answered `verdict` to a frame from the connection of
    /// `username` that reads as `submitted`.
    pub open spec fn answered(
        &self,
        before: &ServerState,
        username: Seq<char>,
        submitted: Option<PlayerMove>,
        verdict: &MoveVerdict,
    ) -> bool {
        match *verdict {
            MoveVerdict::Evict => {
                &&& !before.takes_move(username, submitted)
                &&& self.running()
                &&& self.game() == before.game()
                &&& self.connections() == without(before.connections(), username)
                &&& self.join_code() == before.join_code()
            },
            MoveVerdict::Broadcast => {
                &&& before.takes_move(username, submitted)
                &&& self.running()
                &&& self.game().moved_from(&before.game(), submitted->0)
                &&& holders(self.game().players@) > 1
                &&& self.connections() == before.connections()
                &&& self.join_code() == before.join_code()
            },
            MoveVerdict::GameOver { winner, to_disconnect } => {
                &&& before.takes_move(username, submitted)
                &&& exists|over: GameState|
                    {
                        &&& #[trigger] over.moved_from(&before.game(), submitted->0)
                        &&& holders(over.players@) <= 1
                        &&& winner@ == over.players@[over.turn as int].0@
                        &&& holders(over.players@) == 1 ==> over.mover().spec_has_cards()
                    }
                &&& to_disconnect@ == before.connections()
                &&& self.in_lobby()
                &&& self.options() == before.options()
                &&& self.join_code() == before.join_code()
                &&& self.capacity() == before.capacity()
                &&& self.connections().len() == 0
            },
        }
    }

    /// Answer a frame from the connection registered under `username` in a
    /// running game. `submitted` is the move read from the frame, or
    /// nothing where the frame could not be read as a move.
    ///
    /// A frame that is no move, a move out of turn and a move that the game
    /// refuses evict the connection and leave the game as it is. A move that
    /// the game takes is made. If it leaves at most one player with cards,
    /// the game is over. The winner is the player whose turn it is after the
    /// move: the turn passes to the first player who holds a card, and only
    /// one is left who does. The coordinator goes back to the lobby for a
    /// game of as many players, with its options and join code, and no
    /// connection is registered. Otherwise the new state is to be broadcast.
    pub fn submit_move(
        &mut self,
        username: &str,
        submitted: Option<PlayerMove>,
    ) -> (verdict: MoveVerdict)
        requires
            old(self).wf(),
            old(self).running(),
        ensures
            final(self).wf(),
            final(self).answered(old(self), username@, submitted, &verdict),
    {
        let name = String::from_str(username);
        let mut accepted = false;
        let mut won = false;
        let mut winner = String::new();
        let mut seats: usize = 0;
        match self {
            ServerState::Lobby { .. } => unreached(),
            ServerState::Running { game_state, connections, .. } => {
                let ghost before = *game_state;
                seats = game_state.players.len();
                if let Some(player_move) = submitted {
                    // check if it's the current player's turn
                    if game_state.players[game_state.turn].0 == name {
                        if game_state.apply_move(player_move) {
                            accepted = true;
                            won = game_state.someone_has_won();
                            // the turn has passed to whoever still holds cards
                            winner = game_state.players[game_state.turn].0.clone();
                            proof {
                                // the players are who they were
                                assert forall|i: int, j: int|
                                    0 <= i < j < game_state.players@.len() implies (
                                #[trigger] game_state.players@[i]).0@ != (
                                #[trigger] game_state.players@[j]).0@ by {
                                    assert(game_state.players@[i].0 == before.players@[i].0);
                                    assert(game_state.players@[j].0 == before.players@[j].0);
                                }
                                assert forall|i: int|
                                    0 <= i < connections@.len() implies on_roster(
                                    game_state,
                                    (#[trigger] connections@[i])@,
                                ) by {
                                    let name = connections@[i]@;
                                    assert(on_roster(&before, name));
                                    let seat = choose|seat: int|
                                        0 <= seat < before.players@.len() && (
                                        #[trigger] before.players@[seat]).0@ == name;
                                    assert(game_state.players@[seat].0 == before.players@[seat].0);
                                }
                            }
                        }
                    }
                }
            },
        }
        if !accepted {
            // not a move, not the current player or an invalid move: disconnect the player
            self.lost_connection(username);
            return MoveVerdict::Evict;
        }
        if won {
            let to_disconnect = self.registered();
            // Reset server to lobby for next game
            self.reset(seats);
            return MoveVerdict::GameOver { winner, to_disconnect };
        }
        // Broadcast updated game state to all players
        MoveVerdict::Broadcast
    }

    /// The usernames under which a connection is registered, in the order
    /// of the registry.
    pub fn registered(&self) -> (names: Vec<String>)
        ensures
            names@ == self.connections(),
    {
        match self {
            ServerState::Lobby { connections, .. } => {
                let names = connections.clone();
                assert(names@ =~= connections@);
                names
            },
            ServerState::Running { connections, .. } => {
                let names = connections.clone();
                assert(names@ =~= connections@);
                names
            },
        }
    }

    /// The state of the running game as the player called `username` may
    /// see it; nothing where no player is called so.
    pub fn snapshot_for(&self, username: &str) -> (shown: Option<PlayerVisibleGameState>)
        requires
            self.wf(),
            self.running(),
        ensures
            shown is Some <==> on_roster(&self.game(), username@),
            shown matches Some(state) ==> shown_to_name(&self.game(), username@, &state),
    {
        let name = String::from_str(username);
        match self {
            ServerState::Lobby { .. } => unreached(),
            ServerState::Running { game_state, .. } => {
                match game_state.seat_of(&name) {
                    Some(seat) => {
                        match game_state.state_for(seat) {
                            Ok(state) => {
                                assert(first_seat_of(game_state, username@, seat as int));
                                Some(state)
                            },
                            Err(_) => unreached(),
                        }
                    },
                    None => None,
                }
            },
        }
    }

    /// Whether `messages` is what a broadcast sends: for every connection
    /// registered, in the order of the registry, the username and the state
    /// of the game as that player may see it.
    pub open spec fn broadcasts(&self, messages: Seq<(String, PlayerVisibleGameState)>) -> bool {
        &&& messages.len() == self.connections().len()
        &&& forall|i: int|
            0 <= i < messages.len() ==> {
                &&& (#[trigger] messages[i]).0 == self.connections()[i]
                &&& shown_to_name(&self.game(), self.connections()[i]@, &messages[i].1)
            }
    }

    /// What a broadcast sends: for every connection registered, in the
    /// order of the registry, the username and the state of the game as
    /// that player may see it.
    pub fn broadcast_state(&self) -> (messages: Vec<(String, PlayerVisibleGameState)>)
        requires
            self.wf(),
            self.running(),
        ensures
            self.broadcasts(messages@),
    {
        let mut messages: Vec<(String, PlayerVisibleGameState)> = Vec::new();
        match self {
            ServerState::Lobby { .. } => unreached(),
            ServerState::Running { game_state, connections, .. } => {
                let mut i: usize = 0;
                while i < connections.len()
                    invariant
                        i <= connections@.len(),
                        game_state.wf(),
                        forall|k: int|
                            0 <= k < connections@.len() ==> on_roster(
                                game_state,
                                (#[trigger] connections@[k])@,
                            ),
                        messages@.len() == i,
                        forall|k: int|
                            0 <= k < i ==> {
                                &&& (#[trigger] messages@[k]).0 == connections@[k]
                                &&& shown_to_name(game_state, connections@[k]@, &messages@[k].1)
                            },
                    decreases connections@.len() - i,
                {
                    let username = connections[i].clone();
                    assert(on_roster(game_state, connections@[i as int]@));
                    if let Some(seat) = game_state.seat_of(&username) {
                        if let Ok(state) = game_state.state_for(seat) {
                            assert(first_seat_of(game_state, connections@[i as int]@, seat as int));
                            let ghost sent = messages@;
                            messages.push((username, state));
                            assert(forall|k: int| 0 <= k < i ==> messages@[k] == sent[k]);
                        }
                    }
                    i += 1;
                }
            },
        }
        messages
    }
}

/// Take every name that reads `name` out of `names`.
fn drop_name(names: &mut Vec<String>, name: &String)
    ensures
        final(names)@ == without(old(names)@, name@),
        distinct(old(names)@) ==> distinct(final(names)@),
{
    let ghost keep = |entry: String| entry@ != name@;
    let ghost before = names@;
    let mut kept: Vec<String> = Vec::new();
    let mut i: usize = 0;
    while i < names.len()
        invariant
            i <= names@.len(),
            names@ == before,
            keep == |entry: String| entry@ != name@,
            kept@ == before.take(i as int).filter(keep),
        decreases names@.len() - i,
    {
        proof {
            assert(before.take(i + 1).drop_last() == before.take(i as int));
            reveal(Seq::filter);
        }
        if names[i] != *name {
            kept.push(names[i].clone());
        }
        i += 1;
    }
    proof {
        assert(before.take(i as int) == before);
        if distinct(before) {
            lemma_filter_keeps_distinct(before, keep);
        }
    }
    *names = kept;
}

/// Names that were distinct are distinct in whatever order they are put.
proof fn lemma_reordered_names_are_distinct(names: Seq<String>, reordered: Seq<String>)
    requires
        distinct(names),
        reordered.to_multiset() == names.to_multiset(),
    ensures
        distinct(reordered),
{
    broadcast use vstd::seq_lib::group_to_multiset_ensures;

    // no name stands twice among the names, so none does among the reordered
    assert(names.no_duplicates());
    names.lemma_multiset_has_no_duplicates();
    reordered.lemma_multiset_has_no_duplicates_conv();
    assert forall|i: int, j: int| 0 <= i < j < reordered.len() implies (
    #[trigger] reordered[i])@ != (#[trigger] reordered[j])@ by {
        // both are names of the list, and different ones
        assert(reordered.contains(reordered[i]) && reordered.contains(reordered[j]));
        assert(names.to_multiset().count(reordered[i]) > 0);
        assert(names.to_multiset().count(reordered[j]) > 0);
        assert(names.contains(reordered[i]) && names.contains(reordered[j]));
        let a = choose|a: int| 0 <= a < names.len() && names[a] == reordered[i];
        let b = choose|b: int| 0 <= b < names.len() && names[b] == reordered[j];
        assert(a != b);
        if a < b {
            assert(names[a]@ != names[b]@);
        } else {
            assert(names[b]@ != names[a]@);
        }
    }
}

/// Names that were distinct are distinct after some were taken out.
proof fn lemma_filter_keeps_distinct(names: Seq<String>, keep: spec_fn(String) -> bool)
    requires
        distinct(names),
    ensures
        distinct(names.filter(keep)),
    decreases names.len(),
{
    reveal(Seq::filter);
    if names.len() > 0 {
        let shorter = names.drop_last();
        assert forall|i: int, j: int| 0 <= i < j < shorter.len() implies (#[trigger] shorter[i])@
            != (#[trigger] shorter[j])@ by {
            assert(shorter[i] == names[i] && shorter[j] == names[j]);
        }
        lemma_filter_keeps_distinct(shorter, keep);
        let kept = shorter.filter(keep);
        if keep(names.last()) {
            assert(names.filter(keep) == kept.push(names.last()));
            assert forall|i: int, j: int|
                0 <= i < j < kept.len() + 1 implies (#[trigger] kept.push(names.last())[i])@ != (
                #[trigger] kept.push(names.last())[j])@ by {
                if j == kept.len() {
                    shorter.lemma_filter_contains_rev(keep, kept[i]);
                    let at = choose|at: int| 0 <= at < shorter.len() && shorter[at] == kept[i];
                    assert(names[at] == kept[i]);
                }
            }
        }
    }
}

} // verus!
