use grid_online::{
    board_click, hand_click, next_scene, Board, Card, Deck, Hand, HandClick, JoinReply,
    PlayerMove, PlayerVisibleGameState, Scene, Suit, Value, BOARD_SIZE,
};

fn shown(username: &str, players: &[(&str, u32)], turn: usize) -> PlayerVisibleGameState {
    PlayerVisibleGameState {
        board: Board::empty(),
        hand: Hand(vec![]),
        deck: Deck(vec![]),
        username: username.to_string(),
        players: players.iter().map(|(name, cards)| (name.to_string(), *cards)).collect(),
        turn,
    }
}

#[test]
fn the_reply_to_a_login_is_read_by_its_word() {
    assert_eq!(JoinReply::read("ok"), JoinReply::Accepted);
    assert_eq!(JoinReply::read("full"), JoinReply::NoOpenSeats);
    assert_eq!(JoinReply::read("username"), JoinReply::UsernameTaken);
    assert_eq!(JoinReply::read("join code"), JoinReply::IncorrectJoinCode);
}

#[test]
fn any_other_reply_breaks_the_protocol() {
    for reply in ["", "OK", "ok ", " ok", "okay", "game full", "username taken", "joincode", "{}"] {
        assert_eq!(JoinReply::read(reply), JoinReply::Unrecognised);
    }
}

#[test]
fn a_refusal_is_explained_to_the_player() {
    assert_eq!(JoinReply::NoOpenSeats.explanation(), Some("No open seats"));
    assert_eq!(JoinReply::UsernameTaken.explanation(), Some("Username already taken"));
    assert_eq!(JoinReply::IncorrectJoinCode.explanation(), Some("Incorrect join code"));
    assert_eq!(JoinReply::Accepted.explanation(), None);
    assert_eq!(JoinReply::Unrecognised.explanation(), None);
}

#[test]
fn the_scene_follows_the_turn_and_the_standings() {
    let standings = [("A", 3), ("B", 2), ("C", 0)];
    assert_eq!(next_scene(&shown("A", &standings, 0)), Some(Scene::YourTurn));
    assert_eq!(next_scene(&shown("B", &standings, 0)), Some(Scene::NotYourTurn));
    assert_eq!(next_scene(&shown("C", &standings, 0)), Some(Scene::YouLost));
    assert_eq!(next_scene(&shown("B", &standings, 1)), Some(Scene::YourTurn));
    assert_eq!(next_scene(&shown("C", &standings, 1)), Some(Scene::YouLost));
}

#[test]
fn the_last_holder_of_cards_wins_on_their_turn() {
    let standings = [("A", 0), ("B", 7), ("C", 0)];
    assert_eq!(next_scene(&shown("B", &standings, 1)), Some(Scene::YouWin));
    assert_eq!(next_scene(&shown("A", &standings, 1)), Some(Scene::YouLost));
    // not on somebody else's turn
    assert_eq!(next_scene(&shown("B", &standings, 0)), Some(Scene::NotYourTurn));
    // a viewer without cards whose turn it is and who alone is left has won as well
    assert_eq!(next_scene(&shown("A", &[("A", 0), ("B", 0)], 0)), Some(Scene::YouWin));
    assert_eq!(next_scene(&shown("A", &[("A", 4)], 0)), Some(Scene::YouWin));
}

#[test]
fn a_turn_on_nobody_breaks_the_protocol() {
    let standings = [("A", 3), ("B", 2)];
    assert_eq!(next_scene(&shown("A", &standings, 2)), None);
    assert_eq!(next_scene(&shown("A", &standings, usize::MAX)), None);
    assert_eq!(next_scene(&shown("A", &[], 0)), None);
}

#[test]
fn a_viewer_who_is_not_in_the_standings_looks_on() {
    let standings = [("A", 3), ("B", 0)];
    assert_eq!(next_scene(&shown("Z", &standings, 0)), Some(Scene::NotYourTurn));
    assert_eq!(next_scene(&shown("Z", &standings, 1)), Some(Scene::NotYourTurn));
}

#[test]
fn on_an_empty_board_a_click_on_a_card_plays_it_to_the_centre() {
    let board = Board::empty();
    let centre = (BOARD_SIZE / 2, BOARD_SIZE / 2);
    assert_eq!(centre, (5, 5));
    assert_eq!(
        hand_click(&board, None, 3),
        HandClick::Play(PlayerMove { card: 3, location: centre })
    );
    assert_eq!(
        hand_click(&board, Some(3), 3),
        HandClick::Play(PlayerMove { card: 3, location: centre })
    );
}

#[test]
fn on_a_board_with_cards_a_click_on_a_card_selects_it() {
    let mut board = Board::empty();
    board.0[0][10] = Some(Card(Suit::Spades, Value::Nine));
    assert_eq!(hand_click(&board, None, 2), HandClick::Select(Some(2)));
    assert_eq!(hand_click(&board, Some(1), 2), HandClick::Select(Some(2)));
    assert_eq!(hand_click(&board, Some(2), 2), HandClick::Select(None));
    assert_eq!(hand_click(&board, Some(0), 0), HandClick::Select(None));
}

#[test]
fn a_click_on_the_board_plays_the_selected_card() {
    assert_eq!(board_click(Some(4), (2, 9)), Some(PlayerMove { card: 4, location: (2, 9) }));
    assert_eq!(board_click(Some(0), (0, 0)), Some(PlayerMove { card: 0, location: (0, 0) }));
    assert_eq!(board_click(None, (2, 9)), None);
}
