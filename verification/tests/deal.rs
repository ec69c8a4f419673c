use grid_online::{
    full_deck, Card, GameOptions, GameState, Suit, TakingVariant, Value, BOARD_SIZE, DECK_SIZE,
};

fn options(sequester: bool) -> GameOptions {
    GameOptions { sequester_cards: sequester, taking_variant: TakingVariant::SameNumber }
}

fn names(count: usize) -> Vec<String> {
    (0..count).map(|i| format!("player{i}")).collect()
}

fn held(state: &GameState, seat: usize) -> Vec<Card> {
    let mut cards = state.players[seat].1.hand.0.clone();
    cards.extend(state.players[seat].1.deck.0.iter().copied());
    cards
}

fn all_held(state: &GameState) -> Vec<Card> {
    (0..state.players.len()).flat_map(|seat| held(state, seat)).collect()
}

fn index_in_deck(card: Card) -> usize {
    full_deck().iter().position(|other| *other == card).unwrap()
}

fn sorted(cards: &[Card]) -> Vec<usize> {
    let mut indexes: Vec<usize> = cards.iter().map(|card| index_in_deck(*card)).collect();
    indexes.sort();
    indexes
}

#[test]
fn deal_cuts_the_deck_share_after_share() {
    let deck = full_deck();
    let state = GameState::deal(names(2), options(false), deck.clone(), vec![]);
    assert_eq!(state.turn, 0);
    assert_eq!(state.players[0].0, "player0");
    assert_eq!(state.players[1].0, "player1");
    assert_eq!(state.players[0].1.hand.0, deck[0..5].to_vec());
    assert_eq!(state.players[0].1.deck.0, deck[5..26].to_vec());
    assert_eq!(state.players[1].1.hand.0, deck[26..31].to_vec());
    assert_eq!(state.players[1].1.deck.0, deck[31..52].to_vec());
    assert_eq!(state.board.0, [[None; BOARD_SIZE]; BOARD_SIZE]);
    assert_eq!(state.game_options, options(false));
}

#[test]
fn deal_gives_the_extra_cards_to_the_seats_listed() {
    let deck = full_deck();
    let state = GameState::deal(names(3), options(false), deck.clone(), vec![1]);
    assert_eq!(held(&state, 0), deck[0..17].to_vec());
    assert_eq!(held(&state, 1), deck[17..35].to_vec());
    assert_eq!(held(&state, 2), deck[35..52].to_vec());
    assert_eq!(state.players[1].1.hand.0, deck[17..22].to_vec());
    assert_eq!(state.players[1].1.deck.0.len(), 13);

    let state = GameState::deal(names(5), options(false), deck.clone(), vec![4, 0]);
    let sizes: Vec<usize> = (0..5).map(|seat| held(&state, seat).len()).collect();
    assert_eq!(sizes, vec![11, 10, 10, 10, 11]);
    assert_eq!(all_held(&state), deck);
}

#[test]
fn deal_hands_every_card_to_one_player_only() {
    // a share with an extra card must not reach into the share behind it
    let deck = full_deck();
    for extra in 0..3 {
        let state = GameState::deal(names(3), options(false), deck.clone(), vec![extra]);
        assert_eq!(all_held(&state), deck);
        for seat in 0..3 {
            let expected = if seat == extra { 18 } else { 17 };
            assert_eq!(held(&state, seat).len(), expected);
        }
    }
}

#[test]
fn deal_with_a_share_set_aside_leaves_the_end_of_the_deck_out() {
    let deck = full_deck();
    let state = GameState::deal(names(3), options(true), deck.clone(), vec![]);
    assert_eq!(all_held(&state), deck[0..39].to_vec());
    for seat in 0..3 {
        assert_eq!(held(&state, seat).len(), 13);
        assert_eq!(state.players[seat].1.hand.0.len(), 5);
        assert_eq!(state.players[seat].1.deck.0.len(), 8);
    }
    // two players: 52 / 3 = 17 each, 18 cards stay out
    let state = GameState::deal(names(2), options(true), deck.clone(), vec![]);
    assert_eq!(all_held(&state), deck[0..34].to_vec());
    // a list of extra seats counts for nothing when a share is set aside
    let state = GameState::deal(names(2), options(true), deck.clone(), vec![0, 1]);
    assert_eq!(all_held(&state), deck[0..34].to_vec());
}

#[test]
fn deal_puts_a_short_share_in_the_hand() {
    let deck = vec![
        Card(Suit::Hearts, Value::Two),
        Card(Suit::Hearts, Value::Three),
        Card(Suit::Hearts, Value::Four),
    ];
    let state = GameState::deal(names(1), options(false), deck.clone(), vec![]);
    assert_eq!(state.players[0].1.hand.0, deck);
    assert!(state.players[0].1.deck.0.is_empty());

    // more players than cards: the even share is empty
    let state = GameState::deal(names(4), options(false), deck.clone(), vec![3, 0, 2]);
    let sizes: Vec<usize> = (0..4).map(|seat| held(&state, seat).len()).collect();
    assert_eq!(sizes, vec![1, 0, 1, 1]);
    assert!(!state.players[1].1.has_cards());
    assert!(state.players[0].1.has_cards());

    let state = GameState::deal(names(2), options(false), vec![], vec![]);
    assert!(state.someone_has_won());
}

#[test]
fn new_game_holds_the_standard_deck_once() {
    let everything: Vec<usize> = (0..DECK_SIZE).collect();
    for count in 1..=4 {
        let state = GameState::new(names(count), options(false));
        assert_eq!(sorted(&all_held(&state)), everything);
        assert!(state.board.is_empty());
        assert_eq!(state.turn, 0);
        assert_eq!(state.get_player_names(), names(count));
    }
    let state = GameState::new(names(60), options(false));
    assert_eq!(sorted(&all_held(&state)), everything);
}

#[test]
fn new_game_with_a_share_set_aside_misses_that_share_only() {
    for (count, each) in [(1, 26), (2, 17), (3, 13), (4, 10)] {
        let state = GameState::new(names(count), options(true));
        let cards = sorted(&all_held(&state));
        assert_eq!(cards.len(), count * each);
        for pair in cards.windows(2) {
            assert!(pair[0] < pair[1], "a card is in play twice");
        }
        for seat in 0..count {
            assert_eq!(held(&state, seat).len(), each);
        }
    }
}

#[test]
fn new_game_gives_the_leftover_cards_to_different_players() {
    for _ in 0..20 {
        let state = GameState::new(names(3), options(false));
        let sizes: Vec<usize> = (0..3).map(|seat| held(&state, seat).len()).collect();
        assert_eq!(sizes.iter().filter(|size| **size == 18).count(), 1);
        assert_eq!(sizes.iter().filter(|size| **size == 17).count(), 2);

        let state = GameState::new(names(5), options(false));
        let sizes: Vec<usize> = (0..5).map(|seat| held(&state, seat).len()).collect();
        assert_eq!(sizes.iter().filter(|size| **size == 11).count(), 2);
        assert_eq!(sizes.iter().filter(|size| **size == 10).count(), 3);
    }
}

#[test]
fn new_game_is_shuffled() {
    // one deal in 52! leaves the deck in order; eight in a row do not happen
    let in_order = (0..8).all(|_| {
        let state = GameState::new(names(1), options(false));
        all_held(&state) == full_deck()
    });
    assert!(!in_order);
}

#[test]
fn new_game_does_not_always_favour_the_same_seat() {
    let mut lucky = [false; 3];
    for _ in 0..200 {
        let state = GameState::new(names(3), options(false));
        for seat in 0..3 {
            if held(&state, seat).len() == 18 {
                lucky[seat] = true;
            }
        }
    }
    assert_eq!(lucky, [true, true, true]);
}
