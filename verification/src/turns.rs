//! Whose turn it is: how the turn goes round the table and passes over the
//! players who hold no cards.

use vstd::prelude::*;
use crate::game::PlayerState;

verus! {

/// Number of players among `players` who hold at least one card.
pub open spec fn holders(players: Seq<(String, PlayerState)>) -> nat
    decreases players.len(),
{
    if players.len() == 0 {
        0
    } else if players.last().1.spec_has_cards() {
        holders(players.drop_last()) + 1
    } else {
        holders(players.drop_last())
    }
}

/// The seat after `seat` at a table of `seats`, going round.
pub open spec fn next_seat(seat: int, seats: int) -> int {
    (seat + 1) % seats
}

/// The seat reached from `seat` by passing over players without cards, at
/// most `budget` of them.
pub open spec fn skip_empty_handed(
    players: Seq<(String, PlayerState)>,
    seat: int,
    budget: nat,
) -> int
    decreases budget,
{
    if budget == 0 || players[seat].1.spec_has_cards() {
        seat
    } else {
        skip_empty_handed(players, next_seat(seat, players.len() as int), (budget - 1) as nat)
    }
}

/// Whose turn it is after the player at `turn` has moved: the first player
/// after them, going round, who holds a card. Where nobody holds a card the
/// turn goes to the next seat.
pub open spec fn next_turn(players: Seq<(String, PlayerState)>, turn: int) -> int {
    skip_empty_handed(players, next_seat(turn, players.len() as int), players.len())
}

/// Number of steps from `seat` to `other`, going round a table of `seats`.
pub open spec fn steps_round(seat: int, other: int, seats: int) -> int {
    if seat <= other {
        other - seat
    } else {
        other - seat + seats
    }
}

/// Going round from the last seat leads to the first, from any other to the
/// one behind it.
pub proof fn lemma_next_seat(seat: int, seats: int)
    requires
        0 <= seat < seats,
    ensures
        next_seat(seat, seats) == if seat + 1 == seats {
            0
        } else {
            seat + 1
        },
{
    if seat + 1 == seats {
        vstd::arithmetic::div_mod::lemma_mod_self_0(seats);
    } else {
        vstd::arithmetic::div_mod::lemma_small_mod((seat + 1) as nat, seats as nat);
    }
}

/// Passing over players without cards ends at a seat of the table, reached
/// within the budget, and every seat on the way there holds no card. Where
/// the budget was not used up, the player at that seat holds a card.
proof fn lemma_skip_empty_handed(players: Seq<(String, PlayerState)>, seat: int, budget: nat)
    requires
        0 <= seat < players.len(),
        budget <= players.len(),
    ensures
        0 <= skip_empty_handed(players, seat, budget) < players.len(),
        players[skip_empty_handed(players, seat, budget)].1.spec_has_cards() || forall|other: int|
            0 <= other < players.len() && steps_round(seat, other, players.len() as int) < budget
                ==> !(#[trigger] players[other]).1.spec_has_cards(),
        forall|other: int|
            0 <= other < players.len() && steps_round(seat, other, players.len() as int)
                < steps_round(seat, skip_empty_handed(players, seat, budget), players.len() as int)
                ==> !(#[trigger] players[other]).1.spec_has_cards(),
        players[skip_empty_handed(players, seat, budget)].1.spec_has_cards() ==> steps_round(
            seat,
            skip_empty_handed(players, seat, budget),
            players.len() as int,
        ) < players.len(),
    decreases budget,
{
    let seats = players.len() as int;
    if budget > 0 && !players[seat].1.spec_has_cards() {
        let next = next_seat(seat, seats);
        lemma_next_seat(seat, seats);
        lemma_skip_empty_handed(players, next, (budget - 1) as nat);
        let end = skip_empty_handed(players, seat, budget);
        assert(end == skip_empty_handed(players, next, (budget - 1) as nat));
        assert forall|other: int|
            0 <= other < seats && other != seat implies steps_round(seat, other, seats)
                == steps_round(next, other, seats) + 1 by {}
        if !players[end].1.spec_has_cards() {
            assert forall|other: int|
                0 <= other < seats && steps_round(seat, other, seats) < budget implies !(
                #[trigger] players[other]).1.spec_has_cards() by {
                if other != seat {
                    assert(steps_round(next, other, seats) < budget - 1);
                }
            }
        }
        assert forall|other: int|
            0 <= other < seats && steps_round(seat, other, seats) < steps_round(
                seat,
                end,
                seats,
            ) implies !(#[trigger] players[other]).1.spec_has_cards() by {
            if other != seat {
                if end != seat {
                    assert(steps_round(next, other, seats) < steps_round(next, end, seats));
                }
            }
        }
    }
}

/// Number of steps the turn takes to pass from `turn` to `next`, going
/// round a table of `seats`: a whole round where it comes back to the seat
/// it left.
pub open spec fn steps_passed(turn: int, next: int, seats: int) -> int {
    if next == turn {
        seats
    } else {
        steps_round(turn, next, seats)
    }
}

/// The turn passes to a seat of the table. While any player holds a card it
/// passes to a player who holds one, and to the first of them going round
/// from the player who moved: everyone passed over holds no card. Where the
/// turn comes back to the player who moved, that is everyone else.
pub proof fn lemma_next_turn(players: Seq<(String, PlayerState)>, turn: int)
    requires
        0 <= turn < players.len(),
    ensures
        0 <= next_turn(players, turn) < players.len(),
        holders(players) > 0 ==> players[next_turn(players, turn)].1.spec_has_cards(),
        holders(players) > 0 ==> forall|other: int|
            0 <= other < players.len() && 0 < steps_round(turn, other, players.len() as int)
                < steps_passed(turn, next_turn(players, turn), players.len() as int) ==> !(
            #[trigger] players[other]).1.spec_has_cards(),
        holders(players) > 0 && next_turn(players, turn) == turn ==> forall|other: int|
            0 <= other < players.len() && other != turn ==> !(
            #[trigger] players[other]).1.spec_has_cards(),
        holders(players) == 0 ==> next_turn(players, turn) == next_seat(turn, players.len() as int),
{
    let seats = players.len() as int;
    let first = next_seat(turn, seats);
    let end = next_turn(players, turn);
    lemma_next_seat(turn, seats);
    lemma_skip_empty_handed(players, first, players.len());
    if holders(players) > 0 {
        let holder = lemma_some_holder(players);
        assert(steps_round(first, holder, seats) < seats);
        assert(players[end].1.spec_has_cards());
        assert forall|other: int|
            0 <= other < seats && 0 < steps_round(turn, other, seats) < steps_passed(
                turn,
                end,
                seats,
            ) implies !(#[trigger] players[other]).1.spec_has_cards() by {
            // counted from the seat after the mover, every distance is one less
            assert(steps_round(first, other, seats) == steps_round(turn, other, seats) - 1);
            assert(steps_round(first, end, seats) == steps_passed(turn, end, seats) - 1);
        }
        if end == turn {
            assert forall|other: int| 0 <= other < seats && other != turn implies !(
            #[trigger] players[other]).1.spec_has_cards() by {
                assert(0 < steps_round(turn, other, seats) < seats);
            }
        }
    } else {
        lemma_no_holder(players);
        lemma_skip_nobody(players, first, players.len());
    }
}

/// Where nobody holds a card, passing over players without cards uses up
/// the budget; a budget of a whole round leads back to the seat it began at.
proof fn lemma_skip_nobody(players: Seq<(String, PlayerState)>, seat: int, budget: nat)
    requires
        0 <= seat < players.len(),
        budget <= players.len(),
        forall|other: int|
            0 <= other < players.len() ==> !(#[trigger] players[other]).1.spec_has_cards(),
    ensures
        steps_round(seat, skip_empty_handed(players, seat, budget), players.len() as int)
            == if budget == players.len() {
            0
        } else {
            budget as int
        },
        0 <= skip_empty_handed(players, seat, budget) < players.len(),
    decreases budget,
{
    let seats = players.len() as int;
    if budget > 0 {
        lemma_next_seat(seat, seats);
        lemma_skip_nobody(players, next_seat(seat, seats), (budget - 1) as nat);
    }
}

/// Where the number of players who hold a card is not zero, one of them
/// does.
proof fn lemma_some_holder(players: Seq<(String, PlayerState)>) -> (holder: int)
    requires
        holders(players) > 0,
    ensures
        0 <= holder < players.len(),
        players[holder].1.spec_has_cards(),
    decreases players.len(),
{
    if players.last().1.spec_has_cards() {
        players.len() - 1
    } else {
        let holder = lemma_some_holder(players.drop_last());
        assert(players.drop_last()[holder] == players[holder]);
        holder
    }
}

/// Where the number of players who hold a card is zero, none of them does.
proof fn lemma_no_holder(players: Seq<(String, PlayerState)>)
    requires
        holders(players) == 0,
    ensures
        forall|other: int|
            0 <= other < players.len() ==> !(#[trigger] players[other]).1.spec_has_cards(),
    decreases players.len(),
{
    if players.len() > 0 {
        lemma_no_holder(players.drop_last());
        assert forall|other: int| 0 <= other < players.len() implies !(
        #[trigger] players[other]).1.spec_has_cards() by {
            if other < players.len() - 1 {
                assert(players.drop_last()[other] == players[other]);
            }
        }
    }
}

} // verus!
