//! The rules engine: players, turn order, dealing, moves and win detection.

use vstd::multiset::Multiset;
use vstd::prelude::*;
use crate::board::{cell_index, Board};
use crate::capture::{computes, taken_by};
use crate::pile::{cleared, lifted};
use crate::cards::{Card, Deck, Hand, HAND_SIZE};
use crate::messages::{PlayerMove, PlayerVisibleGameState};
use crate::random::shuffle;
use crate::turns::{holders, lemma_next_seat, lemma_next_turn, next_turn, skip_empty_handed};

verus! {

/// Which cards a played card takes at the far end of a ray.
#[derive(Debug, Clone, Copy, PartialEq, Eq, Structural)]
pub enum TakingVariant {
    /// A card of the same value.
    SameNumber,
    /// A card of the same value, or one of the same suit and a strictly
    /// lower value.
    SameNumberOrSuitRanked,
}

impl TakingVariant {
    /// Whether, under this variant, playing `played` takes `target` at the
    /// far end of a ray.
    pub open spec fn spec_takes(self, played: Card, target: Card) -> bool {
        match self {
            TakingVariant::SameNumber => target.1 == played.1,
            TakingVariant::SameNumberOrSuitRanked => {
                target.1 == played.1 || (target.0 == played.0 && target.1.spec_rank()
                    < played.1.spec_rank())
            },
        }
    }

    /// Whether, under this variant, playing `played` takes `target` at the
    /// far end of a ray.
    pub fn takes(&self, played: Card, target: Card) -> (taken: bool)
        ensures
            taken == self.spec_takes(played, target),
    {
        match *self {
            TakingVariant::SameNumber => target.1 == played.1,
            TakingVariant::SameNumberOrSuitRanked => {
                target.1 == played.1 || (target.0 == played.0 && target.1.rank() < played.1.rank())
            },
        }
    }
}

/// The options a game is played under.
#[derive(Debug, Clone, Copy, PartialEq, Eq, Structural)]
pub struct GameOptions {
    /// Whether one share of the deck is set aside at the deal.
    pub sequester_cards: bool,
    /// Which cards a played card takes.
    pub taking_variant: TakingVariant,
}

/// What one player holds.
#[derive(Debug, Clone, PartialEq, Eq)]
pub struct PlayerState {
    pub hand: Hand,
    pub deck: Deck,
}

/// Number of cards drawn by a player who holds `in_hand` cards in hand and
/// can draw from `available` cards: as many as the hand lacks, as far as
/// the cards last.
pub open spec fn draws(in_hand: nat, available: nat) -> nat {
    if in_hand >= HAND_SIZE {
        0
    } else if available <= HAND_SIZE - in_hand {
        available
    } else {
        (HAND_SIZE - in_hand) as nat
    }
}

impl PlayerState {
    /// The cards the player holds, in the order in which they come to be
    /// played: the hand, then the deck from its front.
    pub open spec fn held(&self) -> Seq<Card> {
        self.hand@ + self.deck@
    }

    /// Whether the player has drawn what they can: the hand holds no more
    /// than `HAND_SIZE` cards, and where it holds fewer the deck is empty.
    pub open spec fn drawn_up(&self) -> bool {
        &&& self.hand@.len() <= HAND_SIZE
        &&& self.hand@.len() < HAND_SIZE ==> self.deck@.len() == 0
    }

    /// Whether the player holds at least one card.
    pub open spec fn spec_has_cards(&self) -> bool {
        self.hand@.len() > 0 || self.deck@.len() > 0
    }

    /// Check if the player has any cards (in hand or deck).
    #[verifier::when_used_as_spec(spec_has_cards)]
    pub fn has_cards(&self) -> (any: bool)
        ensures
            any == self.spec_has_cards(),
    {
        !self.hand.0.is_empty() || !self.deck.0.is_empty()
    }

    /// Put `pile` under the deck, in the order given, then draw from the
    /// front of the deck until the hand holds `HAND_SIZE` cards or the deck
    /// is empty.
    pub fn collect_pile(&mut self, pile: Vec<Card>)
        ensures
            final(self).hand@ == old(self).hand@ + (old(self).deck@ + pile@).take(
                draws(old(self).hand@.len(), (old(self).deck@ + pile@).len()) as int,
            ),
            final(self).deck@ == (old(self).deck@ + pile@).skip(
                draws(old(self).hand@.len(), (old(self).deck@ + pile@).len()) as int,
            ),
            final(self).held() == old(self).held() + pile@,
            old(self).hand@.len() <= HAND_SIZE ==> final(self).drawn_up(),
    {
        let ghost given = pile@;
        let mut pile = pile;
        self.deck.0.append(&mut pile);
        let ghost pool = self.deck@;
        let ghost start = self.hand@;
        let mut drawn: usize = 0;
        while !self.deck.0.is_empty() && self.hand.0.len() < HAND_SIZE
            invariant
                drawn <= pool.len(),
                drawn <= draws(start.len(), pool.len()),
                self.hand@ == start + pool.take(drawn as int),
                self.deck@ == pool.skip(drawn as int),
            decreases self.deck@.len(),
        {
            let card = self.deck.0.remove(0);
            self.hand.0.push(card);
            drawn += 1;
            assert(self.hand@ == start + pool.take(drawn as int));
            assert(self.deck@ == pool.skip(drawn as int));
        }
        assert(drawn == draws(start.len(), pool.len()));
        assert(self.held() == old(self).held() + given) by {
            assert(pool.take(drawn as int) + pool.skip(drawn as int) == pool);
            assert(self.held() == start + (pool.take(drawn as int) + pool.skip(drawn as int)));
        }
    }
}

/// The error of asking for a player who is not in the game.
#[derive(Debug, Clone, Copy, PartialEq, Eq, Structural)]
pub struct InvalidPlayerIndex {
    /// The index asked for.
    pub index: usize,
    /// The number of players in the game.
    pub players: usize,
}

/// The authoritative state of one game.
#[derive(Debug, Clone, PartialEq, Eq)]
pub struct GameState {
    pub game_options: GameOptions,
    pub board: Board,
    /// The players in turn order, each with their name.
    pub players: Vec<(String, PlayerState)>,
    /// Index into `players` of the player whose turn it is.
    pub turn: usize,
}

/// The cards that `players` hold together, each as often as it is held.
pub open spec fn held_by(players: Seq<(String, PlayerState)>) -> Multiset<Card>
    decreases players.len(),
{
    if players.len() == 0 {
        Multiset::empty()
    } else {
        held_by(players.drop_last()).add(players.last().1.held().to_multiset())
    }
}

/// Replacing what one player holds takes their old cards out of the cards
/// held together and puts the new ones in.
pub proof fn lemma_held_by_update(
    players: Seq<(String, PlayerState)>,
    seat: int,
    entry: (String, PlayerState),
)
    requires
        0 <= seat < players.len(),
    ensures
        held_by(players.update(seat, entry)).add(players[seat].1.held().to_multiset()) == held_by(
            players,
        ).add(entry.1.held().to_multiset()),
    decreases players.len(),
{
    let after = players.update(seat, entry);
    let shorter = players.drop_last();
    let old_cards = players[seat].1.held().to_multiset();
    let new_cards = entry.1.held().to_multiset();
    let last_cards = players.last().1.held().to_multiset();
    assert(held_by(after) == held_by(after.drop_last()).add(after.last().1.held().to_multiset()));
    assert(held_by(players) == held_by(shorter).add(last_cards));
    if seat == players.len() - 1 {
        assert(after.drop_last() == shorter);
        assert(after.last() == entry);
        assert(held_by(shorter).add(new_cards).add(old_cards) =~= held_by(shorter).add(
            old_cards,
        ).add(new_cards));
    } else {
        assert(after.drop_last() == shorter.update(seat, entry));
        assert(after.last() == players.last());
        assert(shorter[seat] == players[seat]);
        lemma_held_by_update(shorter, seat, entry);
        let rest = held_by(shorter.update(seat, entry));
        assert(rest.add(last_cards).add(old_cards) =~= rest.add(old_cards).add(last_cards));
        assert(held_by(shorter).add(new_cards).add(last_cards) =~= held_by(shorter).add(
            last_cards,
        ).add(new_cards));
    }
}

/// No player holds more cards than all players hold together.
proof fn lemma_held_by_bounds(players: Seq<(String, PlayerState)>, seat: int)
    requires
        0 <= seat < players.len(),
    ensures
        players[seat].1.held().len() <= held_by(players).len(),
    decreases players.len(),
{
    broadcast use vstd::seq_lib::group_to_multiset_ensures;

    let shorter = players.drop_last();
    assert(held_by(players) == held_by(shorter).add(players.last().1.held().to_multiset()));
    if seat < players.len() - 1 {
        assert(shorter[seat] == players[seat]);
        lemma_held_by_bounds(shorter, seat);
    }
}

/// Whether the player at some seat of `game_state` is called `name`.
pub open spec fn on_roster(game_state: &GameState, name: Seq<char>) -> bool {
    exists|seat: int|
        0 <= seat < game_state.players@.len() && (#[trigger] game_state.players@[seat]).0@ == name
}

/// Whether `seat` is the seat of the first player of `game_state` called
/// `name`.
pub open spec fn first_seat_of(game_state: &GameState, name: Seq<char>, seat: int) -> bool {
    &&& 0 <= seat < game_state.players@.len()
    &&& game_state.players@[seat].0@ == name
    &&& forall|i: int| 0 <= i < seat ==> (#[trigger] game_state.players@[i]).0@ != name
}

/// Whether `shown` is what the first player of `game_state` called `name`
/// is shown of the game.
pub open spec fn shown_to_name(
    game_state: &GameState,
    name: Seq<char>,
    shown: &PlayerVisibleGameState,
) -> bool {
    exists|seat: int| #[trigger]
        first_seat_of(game_state, name, seat) && game_state.shown_to(seat, shown)
}

impl GameState {
    /// What every state that the engine works on satisfies: there is at
    /// least one player, it is the turn of one of them, and the cards in
    /// play can be counted in 32 bits.
    pub open spec fn wf(&self) -> bool {
        &&& 1 <= self.players@.len()
        &&& self.turn < self.players@.len()
        &&& self.cards_in_play().len() <= u32::MAX
    }

    /// Whether every player has drawn what they can.
    pub open spec fn drawn_up(&self) -> bool {
        forall|i: int| 0 <= i < self.players@.len() ==> (#[trigger] self.players@[i]).1.drawn_up()
    }

    /// Whether no two players are called the same.
    pub open spec fn distinct_names(&self) -> bool {
        forall|i: int, j: int|
            0 <= i < j < self.players@.len() ==> (#[trigger] self.players@[i]).0@ != (
            #[trigger] self.players@[j]).0@
    }

    /// Where no two players are called the same, a name has one seat only:
    /// the first seat of that name is the only one.
    pub proof fn lemma_name_has_one_seat(&self, name: Seq<char>, seat: int, other: int)
        requires
            self.distinct_names(),
            0 <= seat < self.players@.len(),
            0 <= other < self.players@.len(),
            self.players@[seat].0@ == name,
            self.players@[other].0@ == name,
        ensures
            seat == other,
            first_seat_of(self, name, seat),
    {
        if seat < other {
            assert(self.players@[seat].0@ != self.players@[other].0@);
        } else if other < seat {
            assert(self.players@[other].0@ != self.players@[seat].0@);
        }
        assert forall|i: int| 0 <= i < seat implies (#[trigger] self.players@[i]).0@ != name by {
            assert(self.players@[i].0@ != self.players@[seat].0@);
        }
    }

    /// The cards in play: those on the board and those the players hold,
    /// each as often as it occurs.
    pub open spec fn cards_in_play(&self) -> Multiset<Card> {
        self.board.cards().add(held_by(self.players@))
    }

    /// The player whose turn it is.
    pub open spec fn mover(&self) -> PlayerState {
        self.players@[self.turn as int].1
    }

    /// Whether the player whose turn it is may make this move: the card is
    /// in their hand and the cell can be played at.
    pub open spec fn legal(&self, player_move: PlayerMove) -> bool {
        &&& player_move.card < self.mover().hand@.len()
        &&& self.board.playable(player_move.location.0 as int, player_move.location.1 as int)
    }

    /// The card that the move plays.
    pub open spec fn played(&self, player_move: PlayerMove) -> Card {
        self.mover().hand@[player_move.card as int]
    }

    /// The cards that the card of this move takes at the far end of a ray,
    /// under the variant the game is played with.
    pub open spec fn wanted(&self, player_move: PlayerMove) -> spec_fn(Card) -> bool {
        taken_by(self.played(player_move), self.game_options.taking_variant)
    }

    /// The cells that the move empties.
    pub open spec fn taken_cells(&self, player_move: PlayerMove) -> Seq<(usize, usize)> {
        self.board.captures(
            player_move.location.0 as int,
            player_move.location.1 as int,
            self.wanted(player_move),
        )
    }

    /// The cells of the board once the card of the move lies on it and
    /// before anything is taken.
    pub open spec fn placed(&self, player_move: PlayerMove) -> Seq<Option<Card>> {
        self.board@.update(
            cell_index(player_move.location.0 as int, player_move.location.1 as int),
            Some(self.played(player_move)),
        )
    }

    /// The cards that the move picks up from the board, in the order in
    /// which they are picked up.
    pub open spec fn taken_pile(&self, player_move: PlayerMove) -> Seq<Card> {
        lifted(self.placed(player_move), self.taken_cells(player_move))
    }

    /// Whether `self` is the state that follows `before` when the player
    /// whose turn it is makes the legal move `player_move` and the cards
    /// taken go under their deck in the order `pile`.
    pub open spec fn follows(
        &self,
        before: &GameState,
        player_move: PlayerMove,
        pile: Seq<Card>,
    ) -> bool {
        let turn = before.turn as int;
        let kept = before.mover().hand@.remove(player_move.card as int);
        let pool = before.mover().deck@ + pile;
        let drawn = draws(kept.len(), pool.len()) as int;
        &&& self.game_options == before.game_options
        &&& self.board@ == cleared(before.placed(player_move), before.taken_cells(player_move))
        &&& self.players@.len() == before.players@.len()
        &&& forall|i: int|
            0 <= i < before.players@.len() && i != turn ==> self.players@[i] == before.players@[i]
        &&& self.players@[turn].0 == before.players@[turn].0
        &&& self.players@[turn].1.hand@ == kept + pool.take(drawn)
        &&& self.players@[turn].1.deck@ == pool.skip(drawn)
        &&& self.turn == next_turn(self.players@, turn)
    }

    /// Whether `self` is a state that can follow `before` when the player
    /// whose turn it is makes the legal move `player_move`: the cards taken
    /// go under their deck in some order, and everything else is fixed by
    /// the move.
    pub open spec fn moved_from(&self, before: &GameState, player_move: PlayerMove) -> bool {
        exists|pile: Seq<Card>|
            pile.to_multiset() == before.taken_pile(player_move).to_multiset()
                && #[trigger] self.follows(before, player_move, pile)
    }

    /// What the player at `seat` is shown of this state: the board, their
    /// own hand and deck, their name, every player's name with the number of
    /// cards they hold, and whose turn it is.
    pub open spec fn shown_to(&self, seat: int, shown: &PlayerVisibleGameState) -> bool {
        &&& shown.board == self.board
        &&& shown.hand@ == self.players@[seat].1.hand@
        &&& shown.deck@ == self.players@[seat].1.deck@
        &&& shown.username@ == self.players@[seat].0@
        &&& shown.players@.len() == self.players@.len()
        &&& forall|i: int|
            0 <= i < self.players@.len() ==> {
                &&& (#[trigger] shown.players@[i]).0@ == self.players@[i].0@
                &&& shown.players@[i].1 == self.players@[i].1.held().len()
            }
        &&& shown.turn == self.turn
    }

    /// The state as the player at `player_index` may see it. An index that
    /// names no player is an error.
    pub fn state_for(
        &self,
        player_index: usize,
    ) -> (shown: Result<PlayerVisibleGameState, InvalidPlayerIndex>)
        requires
            self.wf(),
        ensures
            player_index < self.players@.len() ==> {
                &&& shown matches Ok(state)
                &&& self.shown_to(player_index as int, &state)
            },
            player_index >= self.players@.len() ==> {
                &&& shown matches Err(error)
                &&& error.index == player_index
                &&& error.players == self.players@.len()
            },
    {
        if player_index >= self.players.len() {
            return Err(InvalidPlayerIndex { index: player_index, players: self.players.len() });
        }
        // Create list of all players with their card counts (hand + deck)
        let mut players: Vec<(String, u32)> = Vec::new();
        let mut seat: usize = 0;
        while seat < self.players.len()
            invariant
                self.wf(),
                seat <= self.players@.len(),
                players@.len() == seat,
                forall|i: int|
                    0 <= i < seat ==> {
                        &&& (#[trigger] players@[i]).0@ == self.players@[i].0@
                        &&& players@[i].1 == self.players@[i].1.held().len()
                    },
            decreases self.players@.len() - seat,
        {
            proof {
                lemma_held_by_bounds(self.players@, seat as int);
            }
            let state = &self.players[seat].1;
            let card_count = state.hand.0.len() + state.deck.0.len();
            players.push((self.players[seat].0.clone(), card_count as u32));
            seat += 1;
        }
        let player_state = &self.players[player_index].1;
        Ok(
            PlayerVisibleGameState {
                board: Board(self.board.0),
                hand: Hand(player_state.hand.0.clone()),
                deck: Deck(player_state.deck.0.clone()),
                username: self.players[player_index].0.clone(),
                players,
                turn: self.turn,
            },
        )
    }

    /// The options the game is played under.
    pub fn get_options(&self) -> (options: &GameOptions)
        ensures
            *options == self.game_options,
    {
        &self.game_options
    }

    /// The names of the players, in turn order.
    pub fn get_player_names(&self) -> (names: Vec<String>)
        ensures
            names@.len() == self.players@.len(),
            forall|i: int| 0 <= i < names@.len() ==> (#[trigger] names@[i])@ == self.players@[i].0@,
    {
        let mut names: Vec<String> = Vec::new();
        let mut seat: usize = 0;
        while seat < self.players.len()
            invariant
                seat <= self.players@.len(),
                names@.len() == seat,
                forall|i: int| 0 <= i < seat ==> (#[trigger] names@[i])@ == self.players@[i].0@,
            decreases self.players@.len() - seat,
        {
            names.push(self.players[seat].0.clone());
            seat += 1;
        }
        names
    }

    /// The player whose turn it is: their name and what they hold.
    pub fn current_player(&self) -> (current: (&str, &PlayerState))
        requires
            self.wf(),
        ensures
            current.0@ == self.players@[self.turn as int].0@,
            *current.1 == self.players@[self.turn as int].1,
    {
        let entry = &self.players[self.turn];
        (entry.0.as_str(), &entry.1)
    }

    /// Check if any player has won: at most one player still holds cards.
    pub fn someone_has_won(&self) -> (won: bool)
        ensures
            won == (holders(self.players@) <= 1),
    {
        let mut with_cards: usize = 0;
        let mut seat: usize = 0;
        while seat < self.players.len()
            invariant
                seat <= self.players@.len(),
                with_cards == holders(self.players@.take(seat as int)),
                with_cards <= seat,
            decreases self.players@.len() - seat,
        {
            assert(self.players@.take(seat + 1).drop_last() == self.players@.take(seat as int));
            if self.players[seat].1.has_cards() {
                with_cards += 1;
            }
            seat += 1;
        }
        assert(self.players@.take(seat as int) == self.players@);
        with_cards <= 1
    }

    /// Make a move for the player whose turn it is.
    ///
    /// The move is refused, and nothing changes, where the card is not in
    /// the player's hand or the cell cannot be played at. Otherwise the card
    /// goes from the hand to the board; if it takes anything, every cell on
    /// the rays to the furthest cards it takes is emptied, the played cell
    /// with them, and the cards picked up go under the player's deck in an
    /// order left to chance; the player draws until their hand is full or
    /// their deck is empty; and the turn passes to the next player who holds
    /// a card.
    ///
    /// If move is invalid, return false.
    pub fn apply_move(&mut self, player_move: PlayerMove) -> (accepted: bool)
        requires
            old(self).wf(),
        ensures
            final(self).wf(),
            accepted == old(self).legal(player_move),
            !accepted ==> *final(self) == *old(self),
            accepted ==> final(self).moved_from(old(self), player_move),
            final(self).cards_in_play() == old(self).cards_in_play(),
            old(self).conserved() ==> final(self).conserved(),
            old(self).drawn_up() ==> final(self).drawn_up(),
            accepted && holders(final(self).players@) > 0 ==> final(self).mover().spec_has_cards(),
    {
        let turn = self.turn;

        // Check - move must specify valid card within the current player's hand
        if player_move.card >= self.players[turn].1.hand.0.len() {
            return false;  // Card index out of bounds
        }
        // Check - validate move location according to game rules
        let (row, col) = player_move.location;
        if !self.board.can_play_at(row, col) {
            return false;
        }
        let ghost before = *self;

        // Play the card
        let card = self.players[turn].1.hand.0.remove(player_move.card);
        proof {
            before.board.lemma_view_at(row as int, col as int);
        }
        self.board.put(row, col, Some(card));
        let ghost placed = self.board;

        // Find cards to take before making any mutations: the furthest-away cards
        // orthogonally and diagonally that the played card takes under the variant
        let variant = self.game_options.taking_variant;
        let takes = |target_card: Card| -> (taken: bool)
            ensures
                taken == variant.spec_takes(card, target_card),
            { variant.takes(card, target_card) };
        let cards_to_take = Self::find_taking_cards(&self.board, row, col, takes);
        proof {
            assert(computes(takes, before.wanted(player_move)));
            placed.lemma_captures_ignore_played_cell(
                &before.board,
                row as int,
                col as int,
                before.wanted(player_move),
            );
            before.board.lemma_captures_in_bounds(
                row as int,
                col as int,
                before.wanted(player_move),
            );
        }

        // If any were found, remove those cards, all cards between them, and the
        // just-played card
        let mut taken_cards = self.board.lift(&cards_to_take);
        shuffle(&mut taken_cards);
        let ghost pile = taken_cards@;

        // Put them under the deck and draw cards to fill the hand
        self.players[turn].1.collect_pile(taken_cards);

        // Move to next player's turn, skip players with no cards
        self.pass_turn();
        proof {
            assert(self.follows(&before, player_move, pile));
            lemma_next_turn(self.players@, turn as int);
            crate::laws::lemma_move_conserves_cards(&before, self, player_move, pile);
        }
        true
    }

    /// Pass the turn to the next player who holds a card.
    fn pass_turn(&mut self)
        requires
            1 <= old(self).players@.len(),
            old(self).turn < old(self).players@.len(),
        ensures
            final(self).turn == next_turn(old(self).players@, old(self).turn as int),
            final(self).turn < old(self).players@.len(),
            final(self).players == old(self).players,
            final(self).board == old(self).board,
            final(self).game_options == old(self).game_options,
    {
        let seats = self.players.len();
        proof {
            lemma_next_seat(self.turn as int, seats as int);
        }
        self.turn = (self.turn + 1) % seats;
        let mut budget: usize = seats;
        while budget > 0 && !self.players[self.turn].1.has_cards()
            invariant
                seats == self.players@.len(),
                self.turn < seats,
                self.players == old(self).players,
                self.board == old(self).board,
                self.game_options == old(self).game_options,
                skip_empty_handed(self.players@, self.turn as int, budget as nat) == next_turn(
                    old(self).players@,
                    old(self).turn as int,
                ),
            decreases budget,
        {
            proof {
                lemma_next_seat(self.turn as int, seats as int);
            }
            self.turn = (self.turn + 1) % seats;
            budget -= 1;
        }
    }
}

impl GameState {
    /// The seat of the first player called `name`, if there is one.
    pub fn seat_of(&self, name: &String) -> (seat: Option<usize>)
        ensures
            seat is Some <==> on_roster(self, name@),
            seat matches Some(found) ==> {
                &&& found < self.players@.len()
                &&& self.players@[found as int].0@ == name@
                &&& forall|i: int| 0 <= i < found ==> (#[trigger] self.players@[i]).0@ != name@
            },
    {
        let mut i: usize = 0;
        while i < self.players.len()
            invariant
                i <= self.players@.len(),
                forall|j: int| 0 <= j < i ==> (#[trigger] self.players@[j]).0@ != name@,
            decreases self.players@.len() - i,
        {
            if self.players[i].0 == *name {
                return Some(i);
            }
            i += 1;
        }
        None
    }
}

} // verus!
