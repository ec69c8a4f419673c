use grid_online::{
    Board, Card, Deck, GameOptions, GameState, Hand, PlayerMove, PlayerState, Suit,
    TakingVariant, Value, BOARD_SIZE,
};

fn options(variant: TakingVariant) -> GameOptions {
    GameOptions { sequester_cards: false, taking_variant: variant }
}

fn card(suit: Suit, rank: u8) -> Card {
    Card(suit, Value::from_rank(rank).unwrap())
}

fn player(name: &str, hand: Vec<Card>, deck: Vec<Card>) -> (String, PlayerState) {
    (name.to_string(), PlayerState { hand: Hand(hand), deck: Deck(deck) })
}

fn board_with(cards: &[(usize, usize, Card)]) -> Board {
    let mut board = Board([[None; BOARD_SIZE]; BOARD_SIZE]);
    for (row, col, card) in cards {
        board.0[*row][*col] = Some(*card);
    }
    board
}

fn game(
    variant: TakingVariant,
    board: Board,
    players: Vec<(String, PlayerState)>,
    turn: usize,
) -> GameState {
    GameState { game_options: options(variant), board, players, turn }
}

fn cards_on(board: &Board) -> Vec<Card> {
    board.0.iter().flatten().flatten().copied().collect()
}

fn cards_in_play(state: &GameState) -> Vec<(u8, u8)> {
    let mut cards = cards_on(&state.board);
    for (_, player) in &state.players {
        cards.extend(player.hand.0.iter().copied());
        cards.extend(player.deck.0.iter().copied());
    }
    sorted(&cards)
}

fn suit_key(suit: Suit) -> u8 {
    match suit {
        Suit::Clubs => 0,
        Suit::Diamonds => 1,
        Suit::Hearts => 2,
        Suit::Spades => 3,
    }
}

fn sorted(cards: &[Card]) -> Vec<(u8, u8)> {
    let mut keys: Vec<(u8, u8)> = cards.iter().map(|c| (suit_key(c.0), c.1.rank())).collect();
    keys.sort();
    keys
}

#[test]
fn the_opening_goes_to_the_centre_and_the_next_card_beside_it() {
    // two players, no share set aside, taking by value
    let names = vec!["A".to_string(), "B".to_string()];
    let mut state = GameState::new(names, options(TakingVariant::SameNumber));
    for (_, player) in &state.players {
        assert_eq!(player.hand.0.len(), 5);
        assert_eq!(player.deck.0.len(), 21);
    }
    assert!(state.apply_move(PlayerMove { card: 0, location: (5, 5) }));
    assert_eq!(cards_on(&state.board).len(), 1);
    assert!(state.board.0[5][5].is_some());
    assert_eq!(state.turn, 1);
    let before = state.clone();
    assert!(!state.apply_move(PlayerMove { card: 0, location: (0, 0) }));
    assert_eq!(state, before);
}

#[test]
fn a_refused_move_changes_nothing() {
    let names = vec!["A".to_string(), "B".to_string(), "C".to_string()];
    let mut state = GameState::new(names, options(TakingVariant::SameNumberOrSuitRanked));
    assert!(state.apply_move(PlayerMove { card: 2, location: (5, 5) }));
    let before = state.clone();
    let refused = [
        PlayerMove { card: 5, location: (5, 6) },          // no such card in hand
        PlayerMove { card: usize::MAX, location: (5, 6) }, // no such card in hand
        PlayerMove { card: 0, location: (5, 5) },          // taken
        PlayerMove { card: 0, location: (5, 7) },          // no neighbour
        PlayerMove { card: 0, location: (0, 0) },          // no neighbour
        PlayerMove { card: 0, location: (11, 5) },         // off the board
        PlayerMove { card: 0, location: (5, usize::MAX) }, // off the board
        PlayerMove { card: 9, location: (20, 20) },        // both
    ];
    for player_move in refused {
        assert!(!state.apply_move(player_move));
        assert_eq!(state, before);
    }
    assert!(state.apply_move(PlayerMove { card: 4, location: (5, 6) }));
    assert_ne!(state, before);
}

#[test]
fn a_move_without_a_capture_puts_one_card_down_and_draws_one() {
    let hand = vec![card(Suit::Clubs, 2), card(Suit::Clubs, 3), card(Suit::Clubs, 4)];
    let deck = vec![card(Suit::Hearts, 9), card(Suit::Hearts, 10)];
    let other = vec![card(Suit::Spades, 1)];
    let mut state = game(
        TakingVariant::SameNumber,
        board_with(&[(5, 5, card(Suit::Diamonds, 13))]),
        vec![player("A", hand, deck), player("B", other.clone(), vec![])],
        0,
    );
    assert!(state.apply_move(PlayerMove { card: 1, location: (4, 4) }));
    assert_eq!(state.board.0[4][4], Some(card(Suit::Clubs, 3)));
    assert_eq!(state.board.0[5][5], Some(card(Suit::Diamonds, 13)));
    // the hand closes up and the front of the deck comes behind it
    assert_eq!(
        state.players[0].1.hand.0,
        vec![
            card(Suit::Clubs, 2),
            card(Suit::Clubs, 4),
            card(Suit::Hearts, 9),
            card(Suit::Hearts, 10)
        ]
    );
    assert!(state.players[0].1.deck.0.is_empty());
    assert_eq!(state.players[1].1.hand.0, other);
    assert_eq!(state.turn, 1);
}

#[test]
fn a_capture_takes_the_line_and_the_played_card() {
    // cards of one value at (5,3) and (5,7), another card at (5,5), played at (5,4)
    let ace = card(Suit::Clubs, 1);
    let two = card(Suit::Hearts, 2);
    let hand = vec![card(Suit::Spades, 1), card(Suit::Clubs, 8)];
    let deck = vec![card(Suit::Clubs, 9)];
    let mut state = game(
        TakingVariant::SameNumber,
        board_with(&[(5, 3, ace), (5, 5, two), (5, 7, card(Suit::Diamonds, 1))]),
        vec![player("A", hand, deck)],
        0,
    );
    let before = cards_in_play(&state);
    assert!(state.apply_move(PlayerMove { card: 0, location: (5, 4) }));
    assert!(state.board.is_empty());
    // hand: the card kept, then the old deck, then three of the four cards taken
    let hand = &state.players[0].1.hand.0;
    let deck = &state.players[0].1.deck.0;
    assert_eq!(hand.len(), 5);
    assert_eq!(deck.len(), 1);
    assert_eq!(hand[0], card(Suit::Clubs, 8));
    assert_eq!(hand[1], card(Suit::Clubs, 9));
    let mut taken = hand[2..].to_vec();
    taken.extend(deck.iter().copied());
    assert_eq!(
        sorted(&taken),
        sorted(&[ace, two, card(Suit::Diamonds, 1), card(Suit::Spades, 1)])
    );
    assert_eq!(cards_in_play(&state), before);
}

#[test]
fn the_furthest_match_on_a_ray_decides() {
    // matches at distance 1 and 3 of the ray to the right, a stranger at distance 4
    let mut state = game(
        TakingVariant::SameNumber,
        board_with(&[
            (2, 3, card(Suit::Hearts, 7)),
            (2, 4, card(Suit::Hearts, 3)),
            (2, 5, card(Suit::Diamonds, 7)),
            (2, 6, card(Suit::Diamonds, 3)),
        ]),
        vec![player("A", vec![card(Suit::Spades, 7)], vec![])],
        0,
    );
    assert!(state.apply_move(PlayerMove { card: 0, location: (2, 2) }));
    assert_eq!(cards_on(&state.board), vec![card(Suit::Diamonds, 3)]);
    assert_eq!(state.board.0[2][6], Some(card(Suit::Diamonds, 3)));
    assert_eq!(state.players[0].1.hand.0.len(), 4);
}

#[test]
fn a_ray_ends_at_the_edge_of_the_board() {
    let mut state = game(
        TakingVariant::SameNumber,
        board_with(&[
            (0, 0, card(Suit::Hearts, 7)),
            (10, 10, card(Suit::Clubs, 7)),
            (0, 10, card(Suit::Clubs, 5)),
        ]),
        vec![player("A", vec![card(Suit::Spades, 7)], vec![])],
        0,
    );
    // (1, 1) lies on the diagonal from (0, 0) to (10, 10)
    assert!(state.apply_move(PlayerMove { card: 0, location: (1, 1) }));
    assert_eq!(cards_on(&state.board), vec![card(Suit::Clubs, 5)]);
    assert_eq!(state.players[0].1.hand.0.len(), 3);
}

#[test]
fn rays_run_in_all_eight_directions() {
    let seven = |suit| card(suit, 7);
    let cells = [
        (3, 5), (8, 5), (5, 2), (5, 9), // up, down, left, right
        (3, 3), (2, 8), (7, 3), (9, 9), // the four diagonals
    ];
    let mut placed: Vec<(usize, usize, Card)> =
        cells.iter().map(|(row, col)| (*row, *col, seven(Suit::Hearts))).collect();
    placed.push((4, 7, card(Suit::Clubs, 2))); // a knight's move away: on no ray
    placed.push((5, 6, card(Suit::Clubs, 3))); // in the way to (5, 9)
    let mut state = game(
        TakingVariant::SameNumber,
        board_with(&placed),
        vec![player("A", vec![seven(Suit::Spades)], vec![])],
        0,
    );
    assert!(state.apply_move(PlayerMove { card: 0, location: (5, 5) }));
    assert_eq!(cards_on(&state.board), vec![card(Suit::Clubs, 2)]);
    // eight cards taken, the one in the way and the played one
    let held = state.players[0].1.hand.0.len() + state.players[0].1.deck.0.len();
    assert_eq!(held, 10);
}

#[test]
fn find_taking_cards_lists_ray_after_ray() {
    let ace = card(Suit::Clubs, 1);
    let board = board_with(&[
        (5, 3, ace),
        (5, 4, card(Suit::Spades, 1)),
        (5, 5, card(Suit::Hearts, 2)),
        (5, 7, card(Suit::Diamonds, 1)),
        (2, 4, card(Suit::Hearts, 1)),
    ]);
    let is_ace = |target: Card| target.1 == Value::Ace;
    let cells = GameState::find_taking_cards(&board, 5, 4, is_ace);
    assert_eq!(
        cells,
        vec![
            (5, 4), (4, 4), (3, 4), (2, 4), // up, through two empty cells
            (5, 4), (5, 3),                 // left
            (5, 4), (5, 5), (5, 6), (5, 7), // right
        ]
    );
    let none = GameState::find_taking_cards(&board, 9, 9, |target| target.1 == Value::King);
    assert!(none.is_empty());
    // (5, 5) lies on a diagonal of (9, 9)
    let far = GameState::find_taking_cards(&board, 9, 9, |target| target.1 == Value::Two);
    assert_eq!(far, vec![(9, 9), (8, 8), (7, 7), (6, 6), (5, 5)]);
    let corner = GameState::find_taking_cards(&board, 0, 2, is_ace);
    // the ace at (2, 4) and, further out on the same diagonal, the ace at (5, 7)
    assert_eq!(corner, vec![(0, 2), (1, 3), (2, 4), (3, 5), (4, 6), (5, 7)]);
    // the predicate decides, whatever it asks for
    let hearts = GameState::find_taking_cards(&board, 5, 6, |target| target.0 == Suit::Hearts);
    assert_eq!(hearts, vec![(5, 6), (5, 5)]);
    let all = GameState::find_taking_cards(&board, 5, 6, |_| true);
    assert_eq!(all, vec![(5, 6), (5, 5), (5, 4), (5, 3), (5, 6), (5, 7)]);
    assert!(GameState::find_taking_cards(&board, 5, 6, |_| false).is_empty());
}

#[test]
fn the_ranked_variant_takes_lower_cards_of_the_suit() {
    let five = card(Suit::Hearts, 5);
    assert!(TakingVariant::SameNumberOrSuitRanked.takes(five, card(Suit::Hearts, 3)));
    assert!(TakingVariant::SameNumberOrSuitRanked.takes(five, card(Suit::Hearts, 1)));
    assert!(TakingVariant::SameNumberOrSuitRanked.takes(five, card(Suit::Clubs, 5)));
    assert!(TakingVariant::SameNumberOrSuitRanked.takes(five, five));
    assert!(!TakingVariant::SameNumberOrSuitRanked.takes(five, card(Suit::Hearts, 6)));
    assert!(!TakingVariant::SameNumberOrSuitRanked.takes(five, card(Suit::Hearts, 13)));
    assert!(!TakingVariant::SameNumberOrSuitRanked.takes(five, card(Suit::Clubs, 3)));
    assert!(TakingVariant::SameNumber.takes(five, card(Suit::Clubs, 5)));
    assert!(!TakingVariant::SameNumber.takes(five, card(Suit::Hearts, 3)));
}

#[test]
fn the_ranked_variant_leaves_higher_cards_of_the_suit() {
    let mut state = game(
        TakingVariant::SameNumberOrSuitRanked,
        board_with(&[
            (5, 4, card(Suit::Hearts, 9)), // same suit, higher: stays
            (5, 7, card(Suit::Hearts, 2)), // same suit, lower: taken
            (3, 5, card(Suit::Clubs, 2)),  // other suit, other value: stays
        ]),
        vec![player("A", vec![card(Suit::Hearts, 5)], vec![])],
        0,
    );
    assert!(state.apply_move(PlayerMove { card: 0, location: (5, 5) }));
    assert_eq!(state.board.0[5][4], Some(card(Suit::Hearts, 9)));
    assert_eq!(state.board.0[3][5], Some(card(Suit::Clubs, 2)));
    assert!(state.board.0[5][5].is_none());
    assert!(state.board.0[5][7].is_none());
    assert_eq!(
        sorted(&state.players[0].1.hand.0),
        sorted(&[card(Suit::Hearts, 2), card(Suit::Hearts, 5)])
    );
}

#[test]
fn a_higher_card_of_the_suit_goes_when_it_lies_in_the_way() {
    let mut state = game(
        TakingVariant::SameNumberOrSuitRanked,
        board_with(&[(5, 6, card(Suit::Hearts, 9)), (5, 7, card(Suit::Hearts, 2))]),
        vec![player("A", vec![card(Suit::Hearts, 5)], vec![])],
        0,
    );
    assert!(state.apply_move(PlayerMove { card: 0, location: (5, 5) }));
    assert!(state.board.is_empty());
    assert_eq!(state.players[0].1.hand.0.len(), 3);

    // under the plain variant the same board keeps all its cards
    let mut state = game(
        TakingVariant::SameNumber,
        board_with(&[(5, 6, card(Suit::Hearts, 9)), (5, 7, card(Suit::Hearts, 2))]),
        vec![player("A", vec![card(Suit::Hearts, 5)], vec![])],
        0,
    );
    assert!(state.apply_move(PlayerMove { card: 0, location: (5, 5) }));
    assert_eq!(cards_on(&state.board).len(), 3);
    assert!(!state.players[0].1.has_cards());
}

#[test]
fn the_turn_passes_over_players_without_cards() {
    let some = |rank| vec![card(Suit::Clubs, rank)];
    let mut state = game(
        TakingVariant::SameNumber,
        Board::empty(),
        vec![
            player("A", some(2), some(3)),
            player("B", vec![], vec![]),
            player("C", vec![], vec![]),
            player("D", some(4), vec![]),
        ],
        0,
    );
    assert!(state.apply_move(PlayerMove { card: 0, location: (5, 5) }));
    assert_eq!(state.turn, 3);
    assert_eq!(state.current_player().0, "D");
    assert!(state.apply_move(PlayerMove { card: 0, location: (5, 6) }));
    // D is out of cards now, B and C never had any
    assert_eq!(state.turn, 0);
    assert!(state.current_player().1.has_cards());
    assert!(state.someone_has_won());
}

#[test]
fn the_turn_comes_back_to_a_player_who_alone_holds_cards() {
    let mut state = game(
        TakingVariant::SameNumber,
        Board::empty(),
        vec![
            player("A", vec![card(Suit::Clubs, 2), card(Suit::Clubs, 3)], vec![]),
            player("B", vec![], vec![]),
        ],
        0,
    );
    assert!(state.apply_move(PlayerMove { card: 0, location: (5, 5) }));
    assert_eq!(state.turn, 0);
}

#[test]
fn the_turn_moves_on_when_nobody_holds_cards() {
    let mut state = game(
        TakingVariant::SameNumber,
        Board::empty(),
        vec![
            player("A", vec![card(Suit::Clubs, 2)], vec![]),
            player("B", vec![], vec![]),
            player("C", vec![], vec![]),
        ],
        0,
    );
    assert!(state.apply_move(PlayerMove { card: 0, location: (5, 5) }));
    assert_eq!(state.turn, 1);
    assert!(state.someone_has_won());

    let mut alone = game(
        TakingVariant::SameNumber,
        Board::empty(),
        vec![player("A", vec![card(Suit::Clubs, 2)], vec![])],
        0,
    );
    assert!(alone.apply_move(PlayerMove { card: 0, location: (5, 5) }));
    assert_eq!(alone.turn, 0);
}

#[test]
fn someone_has_won_when_at_most_one_player_holds_cards() {
    let some = || vec![card(Suit::Clubs, 2)];
    let state = |players| game(TakingVariant::SameNumber, Board::empty(), players, 0);
    let none = Vec::new;
    let two = |a: (String, PlayerState), b: (String, PlayerState)| state(vec![a, b]);
    assert!(!two(player("A", some(), none()), player("B", none(), some())).someone_has_won());
    assert!(two(player("A", some(), none()), player("B", none(), none())).someone_has_won());
    assert!(two(player("A", none(), none()), player("B", none(), some())).someone_has_won());
    assert!(two(player("A", none(), none()), player("B", none(), none())).someone_has_won());
    assert!(state(vec![player("A", some(), some())]).someone_has_won());
    assert!(!state(vec![
        player("A", some(), vec![]),
        player("B", vec![], vec![]),
        player("C", some(), vec![])
    ])
    .someone_has_won());
}

#[test]
fn collect_pile_goes_under_the_deck_and_fills_the_hand() {
    let c = |rank| card(Suit::Spades, rank);
    let mut state = PlayerState { hand: Hand(vec![c(1), c(2)]), deck: Deck(vec![c(3)]) };
    state.collect_pile(vec![c(4), c(5), c(6), c(7)]);
    assert_eq!(state.hand.0, vec![c(1), c(2), c(3), c(4), c(5)]);
    assert_eq!(state.deck.0, vec![c(6), c(7)]);

    let mut short = PlayerState { hand: Hand(vec![]), deck: Deck(vec![c(1)]) };
    short.collect_pile(vec![c(2)]);
    assert_eq!(short.hand.0, vec![c(1), c(2)]);
    assert!(short.deck.0.is_empty());

    let six = vec![c(1), c(2), c(3), c(4), c(5), c(6)];
    let mut full = PlayerState { hand: Hand(six), deck: Deck(vec![]) };
    full.collect_pile(vec![c(7)]);
    assert_eq!(full.hand.0.len(), 6);
    assert_eq!(full.deck.0, vec![c(7)]);

    let mut idle = PlayerState { hand: Hand(vec![]), deck: Deck(vec![]) };
    idle.collect_pile(vec![]);
    assert!(!idle.has_cards());
}

#[test]
fn state_for_shows_the_viewer_their_cards_and_the_others_a_count() {
    let c = |rank| card(Suit::Spades, rank);
    let state = game(
        TakingVariant::SameNumber,
        board_with(&[(5, 5, c(13))]),
        vec![
            player("A", vec![c(1), c(2)], vec![c(3)]),
            player("B", vec![c(4)], vec![]),
            player("C", vec![], vec![]),
        ],
        1,
    );
    let shown = state.state_for(0).unwrap();
    assert_eq!(shown.board, state.board);
    assert_eq!(shown.hand, Hand(vec![c(1), c(2)]));
    assert_eq!(shown.deck, Deck(vec![c(3)]));
    assert_eq!(shown.username, "A");
    assert_eq!(
        shown.players,
        vec![("A".to_string(), 3), ("B".to_string(), 1), ("C".to_string(), 0)]
    );
    assert_eq!(shown.turn, 1);
    let other = state.state_for(2).unwrap();
    assert_eq!(other.username, "C");
    assert!(other.hand.0.is_empty());
    assert_eq!(other.players, shown.players);
    assert_eq!(state.get_options().taking_variant, TakingVariant::SameNumber);
    assert!(!state.get_options().sequester_cards);
    assert_eq!(state.get_player_names(), vec!["A", "B", "C"]);
    assert_eq!(state.current_player().0, "B");
    assert_eq!(state.current_player().1.hand, Hand(vec![c(4)]));
}

#[test]
fn a_whole_game_keeps_its_cards() {
    // play whatever is legal until somebody wins; the cards stay the same throughout
    for variant in [TakingVariant::SameNumber, TakingVariant::SameNumberOrSuitRanked] {
        let names = vec!["A".to_string(), "B".to_string(), "C".to_string()];
        let mut state = GameState::new(names, options(variant));
        let cards = cards_in_play(&state);
        assert_eq!(cards.len(), 52);
        let mut moves = 0;
        while !state.someone_has_won() && moves < 2000 {
            let mover = state.turn;
            assert!(state.players[mover].1.has_cards());
            let target = (0..BOARD_SIZE)
                .flat_map(|row| (0..BOARD_SIZE).map(move |col| (row, col)))
                .find(|(row, col)| state.board.can_play_at(*row, *col));
            let Some(location) = target else { break };
            let card = moves % state.players[mover].1.hand.0.len();
            assert!(state.apply_move(PlayerMove { card, location }));
            assert_eq!(cards_in_play(&state), cards);
            assert!(state.players.iter().all(|(_, player)| {
                player.hand.0.len() <= 5 && (player.hand.0.len() == 5 || player.deck.0.is_empty())
            }));
            moves += 1;
        }
        assert!(moves > 0);
    }
}
