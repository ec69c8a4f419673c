use grid_online::{
    is_player_count, next_scene, Admission, Board, Card, Deck, GameOptions, GameState, Hand,
    MoveVerdict, PlayerMove, PlayerState, Refusal, Scene, ServerState, Suit, TakingVariant,
    Value, MAX_PLAYERS, MIN_PLAYERS,
};

fn options() -> GameOptions {
    GameOptions { sequester_cards: false, taking_variant: TakingVariant::SameNumberOrSuitRanked }
}

fn lobby(num_players: usize) -> ServerState {
    ServerState::new(options(), num_players, "c0de".to_string())
}

fn card(rank: u8) -> Card {
    Card(Suit::Diamonds, Value::from_rank(rank).unwrap())
}

fn player(name: &str, hand: Vec<Card>, deck: Vec<Card>) -> (String, PlayerState) {
    (name.to_string(), PlayerState { hand: Hand(hand), deck: Deck(deck) })
}

/// A running game of A (to move, one card left), B and C, all connected.
fn endgame(b_cards: Vec<Card>, c_cards: Vec<Card>) -> ServerState {
    ServerState::Running {
        game_state: GameState {
            game_options: options(),
            board: Board::empty(),
            players: vec![
                player("A", vec![card(1)], vec![]),
                player("B", b_cards, vec![]),
                player("C", vec![], c_cards),
            ],
            turn: 0,
        },
        connections: vec!["C".to_string(), "A".to_string(), "B".to_string()],
        join_code: "c0de".to_string(),
    }
}

fn game_of(state: &ServerState) -> &GameState {
    match state {
        ServerState::Running { game_state, .. } => game_state,
        ServerState::Lobby { .. } => panic!("no game is running"),
    }
}

#[test]
fn a_game_is_for_two_to_four_players() {
    assert_eq!((MIN_PLAYERS, MAX_PLAYERS), (2, 4));
    let valid: Vec<usize> = (0..10).filter(|count| is_player_count(*count)).collect();
    assert_eq!(valid, vec![2, 3, 4]);
    assert!(!is_player_count(usize::MAX));
}

#[test]
fn refusals_have_their_reply() {
    assert_eq!(Refusal::JoinCode.token(), "join code");
    assert_eq!(Refusal::GameFull.token(), "game full");
    assert_eq!(Refusal::Full.token(), "full");
    assert_eq!(Refusal::UsernameTaken.token(), "username taken");
    assert_eq!(Refusal::Username.token(), "username");
}

#[test]
fn a_new_lobby_is_empty() {
    let state = lobby(3);
    assert!(!state.is_running());
    assert!(state.registered().is_empty());
    assert!(!state.is_connected("A"));
    assert!(state.can_register("A"));
    match state {
        ServerState::Lobby { options: kept, num_players, connections, join_code } => {
            assert_eq!(kept, options());
            assert_eq!(num_players, 3);
            assert!(connections.is_empty());
            assert_eq!(join_code, "c0de");
        },
        ServerState::Running { .. } => panic!("a new coordinator runs no game"),
    }
}

#[test]
fn the_lobby_checks_the_join_code_first() {
    let mut state = lobby(2);
    assert_eq!(state.admission("A", "wrong"), Admission::Refused(Refusal::JoinCode));
    assert_eq!(state.admission("A", ""), Admission::Refused(Refusal::JoinCode));
    assert_eq!(state.admission("A", "C0DE"), Admission::Refused(Refusal::JoinCode));
    assert_eq!(state.admission("A", "c0de"), Admission::Admitted);
    assert!(!state.register("A"));
    // the join code counts before the username
    assert_eq!(state.admission("A", "wrong"), Admission::Refused(Refusal::JoinCode));
    // a lobby without places refuses the join code first, too
    assert_eq!(lobby(0).admission("A", "wrong"), Admission::Refused(Refusal::JoinCode));
}

#[test]
fn a_full_lobby_refuses() {
    assert_eq!(lobby(0).admission("A", "c0de"), Admission::Refused(Refusal::GameFull));
    assert!(!lobby(0).can_register("A"));
}

#[test]
fn a_username_that_is_held_is_left_to_the_probe() {
    let mut state = lobby(3);
    assert!(!state.register("A"));
    assert!(state.is_connected("A"));
    assert_eq!(state.admission("A", "c0de"), Admission::Held);
    assert_eq!(state.admission("a", "c0de"), Admission::Admitted);
    assert_eq!(state.admission("B", "c0de"), Admission::Admitted);
    assert_eq!(state.after_probe(true), Admission::Refused(Refusal::UsernameTaken));
    assert_eq!(state.after_probe(false), Admission::Admitted);
}

#[test]
fn registering_a_held_username_again_adds_nothing() {
    let mut state = lobby(2);
    assert!(!state.register("A"));
    assert!(!state.register("A"));
    assert_eq!(state.registered(), vec!["A"]);
    assert!(!state.is_running());
}

#[test]
fn the_game_starts_when_the_lobby_is_full() {
    let mut state = lobby(3);
    assert!(!state.register("A"));
    assert!(!state.register("B"));
    assert!(!state.is_running());
    assert!(state.register("C"));
    assert!(state.is_running());
    assert_eq!(state.registered(), vec!["A", "B", "C"]);
    let game = game_of(&state);
    let mut roster = game.get_player_names();
    roster.sort();
    assert_eq!(roster, vec!["A", "B", "C"]);
    assert_eq!(*game.get_options(), options());
    assert_eq!(game.turn, 0);
    assert!(game.board.is_empty());
    let held: usize =
        game.players.iter().map(|(_, player)| player.hand.0.len() + player.deck.0.len()).sum();
    assert_eq!(held, 52);
    match &state {
        ServerState::Running { join_code, .. } => assert_eq!(join_code, "c0de"),
        ServerState::Lobby { .. } => panic!("the game should run"),
    }
}

#[test]
fn the_turn_order_is_drawn_by_chance() {
    let mut first = [false; 3];
    for _ in 0..200 {
        let mut state = lobby(3);
        state.register("A");
        state.register("B");
        state.register("C");
        let opener = game_of(&state).current_player().0.to_string();
        first[["A", "B", "C"].iter().position(|name| *name == opener).unwrap()] = true;
    }
    assert_eq!(first, [true, true, true]);
}

#[test]
fn start_turns_the_lobby_into_a_game() {
    let mut state = ServerState::Lobby {
        options: options(),
        num_players: 4,
        connections: vec!["A".to_string(), "B".to_string()],
        join_code: "c0de".to_string(),
    };
    state.start();
    assert!(state.is_running());
    assert_eq!(state.registered(), vec!["A", "B"]);
    assert_eq!(game_of(&state).players.len(), 2);
}

#[test]
fn a_running_game_admits_its_players_only() {
    let mut state = endgame(vec![card(2)], vec![card(3)]);
    assert_eq!(state.admission("D", "c0de"), Admission::Refused(Refusal::Full));
    assert_eq!(state.admission("", "c0de"), Admission::Refused(Refusal::Full));
    assert_eq!(state.admission("D", "nope"), Admission::Refused(Refusal::JoinCode));
    assert_eq!(state.admission("B", "nope"), Admission::Refused(Refusal::JoinCode));
    assert_eq!(state.admission("B", "c0de"), Admission::Held);
    assert_eq!(state.after_probe(true), Admission::Refused(Refusal::Username));
    assert_eq!(state.after_probe(false), Admission::Admitted);
    assert!(!state.can_register("D"));
    assert!(state.can_register("B"));

    state.lost_connection("B");
    assert_eq!(state.registered(), vec!["C", "A"]);
    assert!(!state.is_connected("B"));
    assert_eq!(state.admission("B", "c0de"), Admission::Admitted);
    assert!(!state.register("B"));
    assert_eq!(state.registered(), vec!["C", "A", "B"]);
    assert!(state.is_running());
}

#[test]
fn losing_a_connection_that_is_not_there_loses_nothing() {
    let mut state = endgame(vec![card(2)], vec![card(3)]);
    state.lost_connection("D");
    state.lost_connection("");
    assert_eq!(state.registered(), vec!["C", "A", "B"]);
    state.lost_connection("A");
    state.lost_connection("A");
    state.lost_connection("C");
    state.lost_connection("B");
    assert!(state.registered().is_empty());
    assert!(state.is_running());
    assert_eq!(game_of(&state).players.len(), 3);
}

#[test]
fn a_broadcast_shows_every_connection_its_own_cards() {
    let mut state = endgame(vec![card(2), card(4)], vec![card(3)]);
    state.lost_connection("A");
    let messages = state.broadcast_state();
    assert_eq!(messages.len(), 2);
    assert_eq!(messages[0].0, "C");
    assert_eq!(messages[0].1.username, "C");
    assert!(messages[0].1.hand.0.is_empty());
    assert_eq!(messages[0].1.deck.0, vec![card(3)]);
    assert_eq!(messages[1].0, "B");
    assert_eq!(messages[1].1.username, "B");
    assert_eq!(messages[1].1.hand.0, vec![card(2), card(4)]);
    for (_, shown) in &messages {
        assert_eq!(
            shown.players,
            vec![("A".to_string(), 1), ("B".to_string(), 2), ("C".to_string(), 1)]
        );
        assert_eq!(shown.turn, 0);
        assert_eq!(shown.board, Board::empty());
    }
    assert_eq!(state.snapshot_for("A").unwrap().hand.0, vec![card(1)]);
    assert_eq!(state.snapshot_for("A"), Some(game_of(&state).state_for(0).unwrap()));
    assert_eq!(state.snapshot_for("D"), None);
}

#[test]
fn a_frame_that_is_no_move_evicts() {
    let mut state = endgame(vec![card(2)], vec![card(3)]);
    let before = game_of(&state).clone();
    assert!(matches!(state.submit_move("A", None), MoveVerdict::Evict));
    assert_eq!(state.registered(), vec!["C", "B"]);
    assert_eq!(*game_of(&state), before);
}

#[test]
fn a_move_out_of_turn_evicts() {
    let mut state = endgame(vec![card(2)], vec![card(3)]);
    let before = game_of(&state).clone();
    let opening = PlayerMove { card: 0, location: (5, 5) };
    assert!(matches!(state.submit_move("B", Some(opening)), MoveVerdict::Evict));
    assert_eq!(state.registered(), vec!["C", "A"]);
    assert_eq!(*game_of(&state), before);
    // a stranger is evicted as well, and nobody is lost for it
    assert!(matches!(state.submit_move("D", Some(opening)), MoveVerdict::Evict));
    assert_eq!(state.registered(), vec!["C", "A"]);
}

#[test]
fn a_move_that_the_game_refuses_evicts() {
    let mut state = endgame(vec![card(2)], vec![card(3)]);
    let before = game_of(&state).clone();
    let misplaced = PlayerMove { card: 0, location: (0, 0) };
    assert!(matches!(state.submit_move("A", Some(misplaced)), MoveVerdict::Evict));
    assert_eq!(state.registered(), vec!["C", "B"]);
    assert_eq!(*game_of(&state), before);
    let mut state = endgame(vec![card(2)], vec![card(3)]);
    let no_card = PlayerMove { card: 1, location: (5, 5) };
    assert!(matches!(state.submit_move("A", Some(no_card)), MoveVerdict::Evict));
    assert_eq!(*game_of(&state), before);
}

#[test]
fn a_move_that_leaves_the_game_open_is_broadcast() {
    let mut state = endgame(vec![card(2)], vec![card(3)]);
    let opening = PlayerMove { card: 0, location: (5, 5) };
    assert!(matches!(state.submit_move("A", Some(opening)), MoveVerdict::Broadcast));
    assert!(state.is_running());
    assert_eq!(state.registered(), vec!["C", "A", "B"]);
    let game = game_of(&state);
    assert_eq!(game.board.0[5][5], Some(card(1)));
    assert_eq!(game.turn, 1);
    assert!(!game.players[0].1.has_cards());
    assert!(!game.someone_has_won());
}

#[test]
fn a_move_that_leaves_one_player_with_cards_ends_the_game() {
    let mut state = endgame(vec![], vec![card(3)]);
    let opening = PlayerMove { card: 0, location: (5, 5) };
    match state.submit_move("A", Some(opening)) {
        MoveVerdict::GameOver { winner, to_disconnect } => {
            // A has played their last card and B holds none: C is left with cards
            assert_eq!(winner, "C");
            assert_eq!(to_disconnect, vec!["C", "A", "B"]);
        },
        other => panic!("the game should be over, not {other:?}"),
    }
    match state {
        ServerState::Lobby { options: kept, num_players, connections, join_code } => {
            assert_eq!(kept, options());
            assert_eq!(num_players, 3);
            assert!(connections.is_empty());
            assert_eq!(join_code, "c0de");
        },
        ServerState::Running { .. } => panic!("the coordinator should be back in the lobby"),
    }
}

#[test]
fn the_winner_is_the_player_left_with_cards() {
    // whoever moves last, the win goes to the one who still holds cards
    for (b_cards, c_cards, winner) in
        [(vec![card(2)], vec![], "B"), (vec![], vec![card(3)], "C")]
    {
        let mut state = endgame(b_cards, c_cards);
        let opening = PlayerMove { card: 0, location: (5, 5) };
        match state.submit_move("A", Some(opening)) {
            MoveVerdict::GameOver { winner: named, .. } => assert_eq!(named, winner),
            other => panic!("the game should be over, not {other:?}"),
        }
    }
}

#[test]
fn the_winner_named_is_the_winner_shown() {
    // the game as it stands when the last move is made
    let mut game = GameState {
        game_options: options(),
        board: Board::empty(),
        players: vec![
            player("A", vec![card(1)], vec![]),
            player("B", vec![], vec![]),
            player("C", vec![], vec![card(3)]),
        ],
        turn: 0,
    };
    assert!(game.apply_move(PlayerMove { card: 0, location: (5, 5) }));
    assert!(game.someone_has_won());
    assert_eq!(game.current_player().0, "C");
    assert_eq!(next_scene(&game.state_for(2).unwrap()), Some(Scene::YouWin));
    assert_eq!(next_scene(&game.state_for(0).unwrap()), Some(Scene::YouLost));
    assert_eq!(next_scene(&game.state_for(1).unwrap()), Some(Scene::YouLost));
}

#[test]
fn a_game_that_ends_with_nobody_holding_cards_names_the_next_seat() {
    let mut state = endgame(vec![], vec![]);
    let opening = PlayerMove { card: 0, location: (5, 5) };
    match state.submit_move("A", Some(opening)) {
        MoveVerdict::GameOver { winner, .. } => assert_eq!(winner, "B"),
        other => panic!("the game should be over, not {other:?}"),
    }
}

#[test]
fn a_capture_can_keep_the_game_open() {
    // A plays their last card and takes two: A holds cards again, and so does C
    let mut state = ServerState::Running {
        game_state: GameState {
            game_options: options(),
            board: {
                let mut board = Board::empty();
                board.0[5][5] = Some(Card(Suit::Clubs, Value::Ace));
                board
            },
            players: vec![player("A", vec![card(1)], vec![]), player("C", vec![], vec![card(3)])],
            turn: 0,
        },
        connections: vec!["A".to_string()],
        join_code: "c0de".to_string(),
    };
    let beside = PlayerMove { card: 0, location: (5, 6) };
    assert!(matches!(state.submit_move("A", Some(beside)), MoveVerdict::Broadcast));
    let game = game_of(&state);
    assert!(game.board.is_empty());
    assert_eq!(game.players[0].1.hand.0.len(), 2);
    assert_eq!(game.turn, 1);
}

#[test]
fn reset_keeps_the_options_and_the_join_code() {
    let mut state = endgame(vec![card(2)], vec![card(3)]);
    state.reset(4);
    match state {
        ServerState::Lobby { options: kept, num_players, connections, join_code } => {
            assert_eq!(kept, options());
            assert_eq!(num_players, 4);
            assert!(connections.is_empty());
            assert_eq!(join_code, "c0de");
        },
        ServerState::Running { .. } => panic!("the coordinator should be back in the lobby"),
    }
}
