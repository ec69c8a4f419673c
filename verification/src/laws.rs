//! What holds of every move: the lines a played card clears and the cards
//! it leaves.

use vstd::multiset::Multiset;
use vstd::prelude::*;
use vstd::seq_lib::lemma_multiset_commutative;
use crate::board::{cell_index, in_bounds, lemma_cards_among_update, BOARD_SIZE};
use crate::capture::{direction, in_reach, lemma_direction, stride, DIRECTIONS};
use crate::pile::{covers, lemma_lifted_conserves};
use crate::cards::Card;
use crate::game::{draws, held_by, lemma_held_by_update, GameState, TakingVariant};
use crate::messages::PlayerMove;

verus! {

/// The row of the cell `distance` steps from the cell of the move in
/// direction `index`.
pub open spec fn row_along(player_move: PlayerMove, index: int, distance: int) -> int {
    player_move.location.0 + stride(direction(index).0, distance)
}

/// The column of the cell `distance` steps from the cell of the move in
/// direction `index`.
pub open spec fn col_along(player_move: PlayerMove, index: int, distance: int) -> int {
    player_move.location.1 + stride(direction(index).1, distance)
}

/// A move neither makes nor loses a card: after a legal move the cards in
/// play, on the board and with the players together, are the cards that
/// were in play before it. One card went from the hand of the player to the
/// board, and what left the board went under their deck.
pub proof fn lemma_move_conserves_cards(
    before: &GameState,
    after: &GameState,
    player_move: PlayerMove,
    pile: Seq<Card>,
)
    requires
        before.turn < before.players@.len(),
        before.legal(player_move),
        after.follows(before, player_move, pile),
        pile.to_multiset() == before.taken_pile(player_move).to_multiset(),
    ensures
        after.cards_in_play() == before.cards_in_play(),
{
    broadcast use vstd::seq_lib::group_to_multiset_ensures;

    let turn = before.turn as int;
    let row = player_move.location.0 as int;
    let col = player_move.location.1 as int;
    let index = cell_index(row, col);
    let card = before.played(player_move);
    let single = Multiset::singleton(card);
    let placed = before.placed(player_move);
    let cells = before.taken_cells(player_move);
    let pile_cards = pile.to_multiset();

    // The board: the card comes on, the pile goes off.
    before.board.lemma_view_at(row, col);
    lemma_cards_among_update(before.board@, index, Some(card));
    before.board.lemma_captures_in_bounds(row, col, before.wanted(player_move));
    lemma_lifted_conserves(placed, cells);
    assert(crate::board::cards_among(placed) =~= before.board.cards().add(single));
    assert(after.board.cards().add(pile_cards) == crate::board::cards_among(placed));

    // The player: the card leaves the hand, the pile comes under the deck.
    let mover = before.players@[turn];
    let moved = after.players@[turn];
    let hand = mover.1.hand@;
    let deck = mover.1.deck@;
    let kept = hand.remove(player_move.card as int);
    let pool = deck + pile;
    let drawn = draws(kept.len(), pool.len()) as int;
    assert(after.players@ =~= before.players@.update(turn, moved));
    lemma_held_by_update(before.players@, turn, moved);
    assert(moved.1.held() == kept + deck + pile) by {
        assert(pool.take(drawn) + pool.skip(drawn) == pool);
        assert(moved.1.held() == kept + (pool.take(drawn) + pool.skip(drawn)));
    }
    lemma_multiset_commutative(hand, deck);
    lemma_multiset_commutative(kept, deck);
    lemma_multiset_commutative(kept + deck, pile);
    assert(hand.to_multiset() =~= kept.to_multiset().add(single));
    let kept_cards = (kept + deck).to_multiset();
    assert(mover.1.held().to_multiset() =~= kept_cards.add(single));
    assert(moved.1.held().to_multiset() =~= kept_cards.add(pile_cards));
    assert forall|c: Card| after.cards_in_play().count(c) == before.cards_in_play().count(c) by {
        assert(after.board.cards().add(pile_cards).count(c) == before.board.cards().add(
            single,
        ).count(c));
        assert(held_by(after.players@).add(kept_cards.add(single)).count(c) == held_by(
            before.players@,
        ).add(kept_cards.add(pile_cards)).count(c));
    }
    assert(after.cards_in_play() =~= before.cards_in_play());
}

/// Conservation: a game that holds the cards of one standard deck, less
/// what was set aside at the deal, still does so after every legal move. A
/// new game does, so every state that a game can reach does.
pub proof fn lemma_move_keeps_conservation(
    before: &GameState,
    after: &GameState,
    player_move: PlayerMove,
)
    requires
        before.turn < before.players@.len(),
        before.conserved(),
        before.legal(player_move),
        after.moved_from(before, player_move),
    ensures
        after.conserved(),
{
    let pile = choose|pile: Seq<Card>|
        pile.to_multiset() == before.taken_pile(player_move).to_multiset()
            && #[trigger] after.follows(before, player_move, pile);
    lemma_move_conserves_cards(before, after, player_move, pile);
}

/// A card that takes nothing stays: where none of the eight rays from the
/// cell of a legal move has a card that the played card takes, the move
/// puts the card on the board and leaves every other cell as it was.
pub proof fn lemma_card_without_match_stays(
    before: &GameState,
    after: &GameState,
    player_move: PlayerMove,
    pile: Seq<Card>,
)
    requires
        before.legal(player_move),
        after.follows(before, player_move, pile),
        forall|index: int|
            0 <= index < DIRECTIONS ==> #[trigger] before.board.reach(
                player_move.location.0 as int,
                player_move.location.1 as int,
                index,
                before.wanted(player_move),
            ) == 0,
    ensures
        before.taken_pile(player_move).len() == 0,
        after.board@ == before.placed(player_move),
        after.board.at(player_move.location.0 as int, player_move.location.1 as int) == Some(
            before.played(player_move),
        ),
{
    let row = player_move.location.0 as int;
    let col = player_move.location.1 as int;
    before.board.lemma_no_match_takes_nothing(row, col, before.wanted(player_move));
    after.board.lemma_view_at(row, col);
    assert(after.board@ =~= before.placed(player_move));
}

/// A card that the played card takes clears its line: where, in one of the
/// eight directions from the cell of a legal move, a cell holds a card that
/// the played card takes under the variant of the game, the move empties
/// the played cell, that cell and every cell between them.
pub proof fn lemma_taken_card_clears_line(
    before: &GameState,
    after: &GameState,
    player_move: PlayerMove,
    pile: Seq<Card>,
    index: int,
    distance: int,
    target: Card,
)
    requires
        before.legal(player_move),
        after.follows(before, player_move, pile),
        0 <= index < DIRECTIONS,
        1 <= distance,
        in_bounds(row_along(player_move, index, distance), col_along(player_move, index, distance)),
        before.board.at(
            row_along(player_move, index, distance),
            col_along(player_move, index, distance),
        ) == Some(target),
        before.game_options.taking_variant.spec_takes(before.played(player_move), target),
    ensures
        forall|k: int|
            0 <= k <= distance ==> {
                &&& in_bounds(
                    #[trigger] row_along(player_move, index, k),
                    col_along(player_move, index, k),
                )
                &&& after.board.at(
                    row_along(player_move, index, k),
                    col_along(player_move, index, k),
                ) is None
            },
{
    let row = player_move.location.0 as int;
    let col = player_move.location.1 as int;
    let (dr, dc) = direction(index);
    let wanted = before.wanted(player_move);
    lemma_direction(index);
    assert(distance <= BOARD_SIZE - 1);
    assert(before.board.matches_at(row, col, dr, dc, distance, wanted));
    before.board.lemma_furthest_match(row, col, dr, dc, (BOARD_SIZE - 1) as nat, wanted);
    assert(distance <= before.board.reach(row, col, index, wanted));
    assert forall|k: int| 0 <= k <= distance implies {
        &&& in_bounds(#[trigger] row_along(player_move, index, k), col_along(player_move, index, k))
        &&& after.board.at(row_along(player_move, index, k), col_along(player_move, index, k))
            is None
    } by {
        before.board.lemma_ray_is_taken(row, col, index, k, wanted);
        after.board.lemma_view_at(
            row_along(player_move, index, k),
            col_along(player_move, index, k),
        );
    }
}

/// Capture by rank: under either variant, a legal move whose card has the
/// value of a card lying in one of the eight directions empties the played
/// cell, the cell of that card and every cell between them.
pub proof fn lemma_same_value_clears_line(
    before: &GameState,
    after: &GameState,
    player_move: PlayerMove,
    pile: Seq<Card>,
    index: int,
    distance: int,
    target: Card,
)
    requires
        before.legal(player_move),
        after.follows(before, player_move, pile),
        0 <= index < DIRECTIONS,
        1 <= distance,
        in_bounds(row_along(player_move, index, distance), col_along(player_move, index, distance)),
        before.board.at(
            row_along(player_move, index, distance),
            col_along(player_move, index, distance),
        ) == Some(target),
        target.1 == before.played(player_move).1,
    ensures
        forall|k: int|
            0 <= k <= distance ==> after.board.at(
                #[trigger] row_along(player_move, index, k),
                col_along(player_move, index, k),
            ) is None,
{
    lemma_taken_card_clears_line(before, after, player_move, pile, index, distance, target);
}

/// Capture by suit: under the ranked-suit variant, a legal move whose card
/// has the suit of a card of strictly lower value lying in one of the eight
/// directions empties the played cell, the cell of that card and every cell
/// between them.
pub proof fn lemma_lower_of_suit_clears_line(
    before: &GameState,
    after: &GameState,
    player_move: PlayerMove,
    pile: Seq<Card>,
    index: int,
    distance: int,
    target: Card,
)
    requires
        before.legal(player_move),
        after.follows(before, player_move, pile),
        before.game_options.taking_variant == TakingVariant::SameNumberOrSuitRanked,
        0 <= index < DIRECTIONS,
        1 <= distance,
        in_bounds(row_along(player_move, index, distance), col_along(player_move, index, distance)),
        before.board.at(
            row_along(player_move, index, distance),
            col_along(player_move, index, distance),
        ) == Some(target),
        target.0 == before.played(player_move).0,
        target.1.spec_rank() < before.played(player_move).1.spec_rank(),
    ensures
        forall|k: int|
            0 <= k <= distance ==> after.board.at(
                #[trigger] row_along(player_move, index, k),
                col_along(player_move, index, k),
            ) is None,
{
    lemma_taken_card_clears_line(before, after, player_move, pile, index, distance, target);
}

/// A card that the played card does not take stays unless it lies in the
/// way: where a cell in one of the eight directions from the cell of a
/// legal move holds a card that the played card does not take, and no cell
/// further out in that direction holds one that it takes, the card lies
/// there after the move.
pub proof fn lemma_untaken_card_stays(
    before: &GameState,
    after: &GameState,
    player_move: PlayerMove,
    pile: Seq<Card>,
    index: int,
    distance: int,
    target: Card,
)
    requires
        before.legal(player_move),
        after.follows(before, player_move, pile),
        0 <= index < DIRECTIONS,
        1 <= distance,
        in_bounds(row_along(player_move, index, distance), col_along(player_move, index, distance)),
        before.board.at(
            row_along(player_move, index, distance),
            col_along(player_move, index, distance),
        ) == Some(target),
        !before.game_options.taking_variant.spec_takes(before.played(player_move), target),
        forall|k: int|
            distance < k < BOARD_SIZE ==> !#[trigger] before.board.matches_at(
                player_move.location.0 as int,
                player_move.location.1 as int,
                direction(index).0,
                direction(index).1,
                k,
                before.wanted(player_move),
            ),
    ensures
        after.board.at(
            row_along(player_move, index, distance),
            col_along(player_move, index, distance),
        ) == Some(target),
{
    let row = player_move.location.0 as int;
    let col = player_move.location.1 as int;
    let wanted = before.wanted(player_move);
    let target_row = row_along(player_move, index, distance);
    let target_col = col_along(player_move, index, distance);
    let target_index = cell_index(target_row, target_col);
    lemma_direction(index);
    if covers(before.taken_cells(player_move), target_index) {
        let (other, steps) = before.board.lemma_taken_is_on_ray(row, col, wanted, target_index);
        lemma_direction(other);
        before.board.lemma_ray_is_taken(row, col, other, steps, wanted);
        assert(in_reach(row, col, direction(other).0, direction(other).1, steps));
        assert(row + stride(direction(other).0, steps) == target_row);
        assert(col + stride(direction(other).1, steps) == target_col);
        assert(steps >= 1);
        assert(other == index && steps == distance);
        before.board.lemma_furthest_match(
            row,
            col,
            direction(index).0,
            direction(index).1,
            (BOARD_SIZE - 1) as nat,
            wanted,
        );
        let reach = before.board.reach(row, col, index, wanted);
        assert(before.board.matches_at(
            row,
            col,
            direction(index).0,
            direction(index).1,
            reach,
            wanted,
        ));
        assert(false);
    }
    before.board.lemma_view_at(target_row, target_col);
    after.board.lemma_view_at(target_row, target_col);
}

/// The ranked-suit variant takes downwards only: a card of the suit of the
/// played card and of a strictly higher value is not taken by it, so by
/// `lemma_untaken_card_stays` it stays on the board unless it lies between
/// the played card and a card that is taken.
pub proof fn lemma_higher_of_suit_is_not_taken(played: Card, target: Card)
    requires
        target.0 == played.0,
        target.1.spec_rank() > played.1.spec_rank(),
    ensures
        !TakingVariant::SameNumberOrSuitRanked.spec_takes(played, target),
        !TakingVariant::SameNumber.spec_takes(played, target),
{
}

} // verus!
