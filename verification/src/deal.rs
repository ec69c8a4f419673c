//! Dealing: how a shuffled deck is split among the players, and what a new
//! game looks like.

use vstd::arithmetic::div_mod::{
    lemma_fundamental_div_mod, lemma_mod_bound, lemma_mod_decreases,
};
use vstd::arithmetic::mul::{lemma_mul_inequality, lemma_mul_is_commutative, lemma_mul_nonnegative};
use vstd::multiset::Multiset;
use vstd::prelude::*;
use vstd::seq_lib::lemma_multiset_commutative;
use crate::board::Board;
use crate::cards::{full_deck, standard_deck, Card, Deck, Hand, DECK_SIZE, HAND_SIZE};
use crate::game::{held_by, GameOptions, GameState, PlayerState};
use crate::random::{choose_seats, shuffle};

verus! {

/// Whether `seat` is one of `seats`.
pub open spec fn listed(seats: Seq<usize>, seat: int) -> bool {
    exists|i: int| 0 <= i < seats.len() && #[trigger] seats[i] == seat
}

/// Number of cards in each even share when `total` cards are split among
/// `seats` players: with a share set aside the deck is split as for one
/// player more.
pub open spec fn even_share(total: int, seats: int, options: GameOptions) -> int {
    if options.sequester_cards {
        total / (seats + 1)
    } else {
        total / seats
    }
}

/// Number of cards dealt to the player at `seat`: the even share, and one
/// card more where no share is set aside and the seat is among `extras`.
pub open spec fn share_len(
    total: int,
    seats: int,
    options: GameOptions,
    extras: Seq<usize>,
    seat: int,
) -> int {
    even_share(total, seats, options) + if !options.sequester_cards && listed(extras, seat) {
        1int
    } else {
        0int
    }
}

/// Number of cards dealt to the players before `seat`, which is where in
/// the deck the share of `seat` begins.
pub open spec fn share_start(
    total: int,
    seats: int,
    options: GameOptions,
    extras: Seq<usize>,
    seat: int,
) -> int
    decreases seat,
{
    if seat <= 0 {
        0
    } else {
        share_start(total, seats, options, extras, seat - 1) + share_len(
            total,
            seats,
            options,
            extras,
            seat - 1,
        )
    }
}

/// The cards dealt to the player at `seat`, in deck order.
pub open spec fn dealt_share(
    deck: Seq<Card>,
    seats: int,
    options: GameOptions,
    extras: Seq<usize>,
    seat: int,
) -> Seq<Card> {
    let start = share_start(deck.len() as int, seats, options, extras, seat);
    deck.subrange(start, start + share_len(deck.len() as int, seats, options, extras, seat))
}

/// Number of cards of a share that start in the hand.
pub open spec fn opening_hand(share: int) -> int {
    if share < HAND_SIZE {
        share
    } else {
        HAND_SIZE as int
    }
}

/// Number of seats below `seat` that are among `extras`.
pub open spec fn extras_before(extras: Seq<usize>, seat: int) -> int
    decreases seat,
{
    if seat <= 0 {
        0
    } else {
        extras_before(extras, seat - 1) + if listed(extras, seat - 1) {
            1int
        } else {
            0int
        }
    }
}

proof fn lemma_extras_before_none(seat: int)
    ensures
        extras_before(Seq::<usize>::empty(), seat) == 0,
    decreases seat,
{
    if seat > 0 {
        lemma_extras_before_none(seat - 1);
    }
}

proof fn lemma_extras_before_push(extras: Seq<usize>, extra: usize, seat: int)
    ensures
        extras_before(extras.push(extra), seat) == extras_before(extras, seat) + if extra < seat
            && !listed(extras, extra as int) {
            1int
        } else {
            0int
        },
    decreases seat,
{
    if seat > 0 {
        lemma_extras_before_push(extras, extra, seat - 1);
        let longer = extras.push(extra);
        if listed(extras, seat - 1) {
            let i = choose|i: int| 0 <= i < extras.len() && #[trigger] extras[i] == seat - 1;
            assert(longer[i] == seat - 1);
        }
        if extra == seat - 1 {
            assert(longer[extras.len() as int] == seat - 1);
        }
        if listed(longer, seat - 1) {
            let i = choose|i: int| 0 <= i < longer.len() && #[trigger] longer[i] == seat - 1;
            if i < extras.len() {
                assert(extras[i] == seat - 1);
            }
        }
    }
}

/// No more seats are among `extras` than `extras` has entries.
proof fn lemma_extras_before_bound(extras: Seq<usize>, seat: int)
    ensures
        0 <= extras_before(extras, seat) <= extras.len(),
    decreases extras.len(),
{
    if extras.len() == 0 {
        assert(extras == Seq::<usize>::empty());
        lemma_extras_before_none(seat);
    } else {
        lemma_extras_before_bound(extras.drop_last(), seat);
        lemma_extras_before_push(extras.drop_last(), extras.last(), seat);
        assert(extras.drop_last().push(extras.last()) == extras);
    }
}

/// Where `extras` names seats below `seats`, none of them twice, as many
/// seats are among `extras` as `extras` has entries.
proof fn lemma_extras_before_all(extras: Seq<usize>, seats: int)
    requires
        extras.no_duplicates(),
        forall|i: int| 0 <= i < extras.len() ==> extras[i] < seats,
    ensures
        extras_before(extras, seats) == extras.len(),
    decreases extras.len(),
{
    if extras.len() == 0 {
        assert(extras == Seq::<usize>::empty());
        lemma_extras_before_none(seats);
    } else {
        let shorter = extras.drop_last();
        lemma_extras_before_all(shorter, seats);
        lemma_extras_before_push(shorter, extras.last(), seats);
        assert(shorter.push(extras.last()) == extras);
        if listed(shorter, extras.last() as int) {
            let i = choose|i: int| 0 <= i < shorter.len() && #[trigger] shorter[i] == extras.last();
            assert(extras[i] == extras[extras.len() - 1]);
        }
    }
}

/// Where a share begins: after the even shares of the seats before it and
/// their extra cards.
proof fn lemma_share_start(
    total: int,
    seats: int,
    options: GameOptions,
    extras: Seq<usize>,
    seat: int,
)
    requires
        0 <= seat,
    ensures
        share_start(total, seats, options, extras, seat) == seat * even_share(
            total,
            seats,
            options,
        ) + if options.sequester_cards {
            0
        } else {
            extras_before(extras, seat)
        },
    decreases seat,
{
    let even = even_share(total, seats, options);
    if seat > 0 {
        lemma_share_start(total, seats, options, extras, seat - 1);
        assert(seat * even == (seat - 1) * even + even) by (nonlinear_arith);
    } else {
        assert(seat * even == 0) by (nonlinear_arith)
            requires
                seat == 0,
        ;
    }
}

/// Whether the shares can be cut from a deck of `total` cards: where no
/// share is set aside, no more players get an extra card than the even
/// split leaves over.
pub open spec fn shares_fit(
    total: int,
    seats: int,
    options: GameOptions,
    extras: Seq<usize>,
) -> bool {
    options.sequester_cards || extras.len() <= total % seats
}

/// Shares that fit lie within the deck.
proof fn lemma_shares_within(
    total: int,
    seats: int,
    options: GameOptions,
    extras: Seq<usize>,
    seat: int,
)
    requires
        0 <= total,
        1 <= seats,
        0 <= seat <= seats,
        shares_fit(total, seats, options, extras),
    ensures
        0 <= even_share(total, seats, options),
        0 <= share_start(total, seats, options, extras, seat) <= total,
{
    let even = even_share(total, seats, options);
    lemma_share_start(total, seats, options, extras, seat);
    lemma_extras_before_bound(extras, seat);
    if options.sequester_cards {
        lemma_fundamental_div_mod(total, seats + 1);
        lemma_mod_bound(total, seats + 1);
        lemma_mul_is_commutative(seats + 1, even);
        assert(0 <= even) by (nonlinear_arith)
            requires
                total == (seats + 1) * even + total % (seats + 1),
                0 <= total % (seats + 1) < seats + 1,
                0 <= total,
                1 <= seats,
        ;
        lemma_mul_inequality(seat, seats + 1, even);
        lemma_mul_nonnegative(seat, even);
    } else {
        lemma_fundamental_div_mod(total, seats);
        lemma_mod_bound(total, seats);
        lemma_mul_is_commutative(seats, even);
        assert(0 <= even) by (nonlinear_arith)
            requires
                total == seats * even + total % seats,
                0 <= total % seats < seats,
                0 <= total,
                1 <= seats,
        ;
        lemma_mul_inequality(seat, seats, even);
        lemma_mul_nonnegative(seat, even);
    }
}

/// How many cards a deal hands out. With a share set aside every player
/// gets the even share of one player more. Without, where the extra cards
/// go to as many different players as the even split leaves cards over, the
/// whole deck is dealt.
pub proof fn lemma_cards_dealt(total: int, seats: int, options: GameOptions, extras: Seq<usize>)
    requires
        0 <= total,
        1 <= seats,
        !options.sequester_cards ==> {
            &&& extras.no_duplicates()
            &&& forall|i: int| 0 <= i < extras.len() ==> extras[i] < seats
            &&& extras.len() == total % seats
        },
    ensures
        share_start(total, seats, options, extras, seats) == if options.sequester_cards {
            seats * (total / (seats + 1))
        } else {
            total
        },
{
    lemma_share_start(total, seats, options, extras, seats);
    if !options.sequester_cards {
        lemma_extras_before_all(extras, seats);
        lemma_fundamental_div_mod(total, seats);
    }
}

/// Whether `seat` is among `seats`.
fn is_listed(seats: &Vec<usize>, seat: usize) -> (found: bool)
    ensures
        found == listed(seats@, seat as int),
{
    let mut i: usize = 0;
    while i < seats.len()
        invariant
            i <= seats@.len(),
            forall|j: int| 0 <= j < i ==> seats@[j] != seat,
        decreases seats@.len() - i,
    {
        if seats[i] == seat {
            return true;
        }
        i += 1;
    }
    false
}

/// The cards of `deck` from position `from` up to, not including, `to`.
fn cut(deck: &Vec<Card>, from: usize, to: usize) -> (cards: Vec<Card>)
    requires
        from <= to <= deck@.len(),
    ensures
        cards@ == deck@.subrange(from as int, to as int),
{
    let mut cards: Vec<Card> = Vec::new();
    let mut at: usize = from;
    while at < to
        invariant
            from <= at <= to <= deck@.len(),
            cards@ == deck@.subrange(from as int, at as int),
        decreases to - at,
    {
        cards.push(deck[at]);
        at += 1;
    }
    cards
}

impl GameState {
    /// Whether `self` is the opening state of a game among `names`, under
    /// `options`, dealt from `deck` with the extra cards going to `extras`:
    /// the board is empty, the first player is to move, and each player
    /// holds their share of the deck, the first `HAND_SIZE` cards of it in
    /// hand and the rest as their deck.
    pub open spec fn dealt_from(
        &self,
        names: Seq<String>,
        options: GameOptions,
        deck: Seq<Card>,
        extras: Seq<usize>,
    ) -> bool {
        &&& self.game_options == options
        &&& self.board.spec_is_empty()
        &&& self.turn == 0
        &&& self.players@.len() == names.len()
        &&& forall|seat: int|
            0 <= seat < names.len() ==> {
                let share = dealt_share(deck, names.len() as int, options, extras, seat);
                &&& (#[trigger] self.players@[seat]).0 == names[seat]
                &&& self.players@[seat].1.hand@ == share.take(opening_hand(share.len() as int))
                &&& self.players@[seat].1.deck@ == share.skip(opening_hand(share.len() as int))
            }
    }

    /// Number of cards set aside at the deal and never played: with a share
    /// set aside, what the even shares of the players leave of the deck.
    pub open spec fn set_aside(&self) -> int {
        let seats = self.players@.len() as int;
        if self.game_options.sequester_cards {
            DECK_SIZE - seats * (DECK_SIZE as int / (seats + 1))
        } else {
            0
        }
    }

    /// Whether the cards in play are cards of one standard deck, none of
    /// them twice, and all of the deck but the cards set aside at the deal.
    pub open spec fn conserved(&self) -> bool {
        &&& self.cards_in_play().subset_of(standard_deck().to_multiset())
        &&& self.cards_in_play().len() + self.set_aside() == DECK_SIZE
    }

    /// Whether `self` is the opening state of a new game among `names`
    /// under `options`: it is dealt from some shuffle of the standard deck,
    /// and the cards that an even split leaves over, if any are dealt, go one
    /// each to some players.
    pub open spec fn newly_dealt(&self, names: Seq<String>, options: GameOptions) -> bool {
        exists|deck: Seq<Card>, extras: Seq<usize>|
            {
                &&& deck.len() == DECK_SIZE
                &&& deck.to_multiset() == standard_deck().to_multiset()
                &&& extras.no_duplicates()
                &&& forall|i: int| 0 <= i < extras.len() ==> extras[i] < names.len()
                &&& extras.len() == if options.sequester_cards {
                    0
                } else {
                    DECK_SIZE as int % names.len() as int
                }
                &&& #[trigger] self.dealt_from(names, options, deck, extras)
            }
    }

    /// Deal `deck` to the players named, in the order in which they are
    /// named, which is their turn order.
    ///
    /// Every player gets the same number of cards, cut from the deck one
    /// share after the other. Where no share is set aside, the players
    /// whose seats are among `gets_extra_cards` get one card more. What the
    /// shares leave of the deck is out of play. The first `HAND_SIZE` cards
    /// of a share are the hand, the rest the deck.
    pub fn deal(
        player_names: Vec<String>,
        game_options: GameOptions,
        deck: Vec<Card>,
        gets_extra_cards: Vec<usize>,
    ) -> (state: GameState)
        requires
            1 <= player_names@.len(),
            deck@.len() <= u32::MAX,
            shares_fit(
                deck@.len() as int,
                player_names@.len() as int,
                game_options,
                gets_extra_cards@,
            ),
        ensures
            state.wf(),
            state.drawn_up(),
            state.dealt_from(player_names@, game_options, deck@, gets_extra_cards@),
            state.cards_in_play() == deck@.take(
                share_start(
                    deck@.len() as int,
                    player_names@.len() as int,
                    game_options,
                    gets_extra_cards@,
                    player_names@.len() as int,
                ),
            ).to_multiset(),
    {
        let num_players = player_names.len();
        let ghost total = deck@.len() as int;
        let ghost seats = num_players as int;
        let ghost extras = gets_extra_cards@;
        let cards_per_player = if game_options.sequester_cards {
            // Deal cards evenly to all players plus an extra "sequester" player
            match num_players.checked_add(1) {
                Some(effective_players) => deck.len() / effective_players,
                None => {
                    assert(total / (seats + 1) == 0) by (nonlinear_arith)
                        requires
                            0 <= total < seats + 1,
                    ;
                    0
                },
            }
        } else {
            // Deal cards evenly to all players, distribute extra cards as chosen
            deck.len() / num_players
        };
        let mut players: Vec<(String, PlayerState)> = Vec::new();
        let mut dealt: usize = 0;
        let mut i: usize = 0;
        proof {
            broadcast use vstd::seq_lib::group_to_multiset_ensures;

            assert(deck@.take(0).to_multiset() =~= Multiset::<Card>::empty());
        }
        while i < num_players
            invariant
                i <= num_players,
                num_players == player_names@.len(),
                seats == num_players,
                total == deck@.len(),
                total <= u32::MAX,
                extras == gets_extra_cards@,
                1 <= seats,
                shares_fit(total, seats, game_options, extras),
                cards_per_player == even_share(total, seats, game_options),
                dealt == share_start(total, seats, game_options, extras, i as int),
                players@.len() == i,
                held_by(players@) == deck@.take(dealt as int).to_multiset(),
                forall|seat: int|
                    0 <= seat < i ==> {
                        let share = dealt_share(deck@, seats, game_options, extras, seat);
                        &&& (#[trigger] players@[seat]).0 == player_names@[seat]
                        &&& players@[seat].1.hand@ == share.take(opening_hand(share.len() as int))
                        &&& players@[seat].1.deck@ == share.skip(opening_hand(share.len() as int))
                    },
            decreases num_players - i,
        {
            proof {
                lemma_shares_within(total, seats, game_options, extras, i as int);
                lemma_shares_within(total, seats, game_options, extras, i + 1);
            }
            let gets_extra = !game_options.sequester_cards && is_listed(&gets_extra_cards, i);
            let extra_card: usize = if gets_extra {
                1
            } else {
                0
            };
            let share = cards_per_player + extra_card;
            let in_hand = if share < HAND_SIZE {
                share
            } else {
                HAND_SIZE
            };
            let hand = Hand(cut(&deck, dealt, dealt + in_hand));
            let remaining_cards = cut(&deck, dealt + in_hand, dealt + share);
            let ghost before = players@;
            let ghost cards = dealt_share(deck@, seats, game_options, extras, i as int);
            let player = PlayerState { hand, deck: Deck(remaining_cards) };
            players.push((player_names[i].clone(), player));
            proof {
                let entry = players@[i as int];
                assert(cards == deck@.subrange(dealt as int, dealt + share));
                assert(entry.1.hand@ == cards.take(in_hand as int));
                assert(entry.1.deck@ == cards.skip(in_hand as int));
                assert(entry.1.held() == cards);
                assert(players@.drop_last() == before);
                assert(deck@.take(dealt as int) + cards == deck@.take(dealt + share));
                lemma_multiset_commutative(deck@.take(dealt as int), cards);
            }
            dealt += share;
            i += 1;
        }
        let state = GameState { game_options, board: Board::empty(), players, turn: 0 };
        proof {
            broadcast use vstd::seq_lib::group_to_multiset_ensures;

            state.board.lemma_empty_board_has_no_cards();
            assert(state.cards_in_play() =~= held_by(state.players@));
            lemma_shares_within(total, seats, game_options, extras, seats);
            assert(deck@.take(dealt as int).to_multiset().len() == dealt);
        }
        state
    }

    /// Start a game among the players named, in the order in which they are
    /// named: shuffle the standard deck and deal it.
    ///
    /// Without a share set aside, the cards that an even split leaves over
    /// go one each to players picked by chance. With a share set aside, the
    /// deck is split as for one player more and what the players' shares
    /// leave is out of play.
    pub fn new(player_names: Vec<String>, game_options: GameOptions) -> (state: GameState)
        requires
            1 <= player_names@.len(),
        ensures
            state.wf(),
            state.conserved(),
            state.drawn_up(),
            state.newly_dealt(player_names@, game_options),
    {
        let num_players = player_names.len();

        // Generate a full deck of 52 cards
        let mut deck = full_deck();

        // Shuffle the deck
        shuffle(&mut deck);
        proof {
            broadcast use vstd::seq_lib::group_to_multiset_ensures;

            assert(deck@.len() == deck@.to_multiset().len());
            assert(standard_deck().len() == standard_deck().to_multiset().len());
            lemma_mod_bound(DECK_SIZE as int, num_players as int);
            lemma_mod_decreases(DECK_SIZE as nat, num_players as nat);
        }
        let gets_extra_cards = if game_options.sequester_cards {
            Vec::new()
        } else {
            choose_seats(num_players, DECK_SIZE % num_players)
        };
        let ghost cards = deck@;
        let ghost extras = gets_extra_cards@;
        let state = Self::deal(player_names, game_options, deck, gets_extra_cards);
        proof {
            broadcast use vstd::seq_lib::group_to_multiset_ensures;

            let seats = num_players as int;
            let dealt = share_start(DECK_SIZE as int, seats, game_options, extras, seats);
            lemma_shares_within(DECK_SIZE as int, seats, game_options, extras, seats);
            lemma_cards_dealt(DECK_SIZE as int, seats, game_options, extras);

            assert(cards.take(dealt) + cards.skip(dealt) == cards);
            lemma_multiset_commutative(cards.take(dealt), cards.skip(dealt));
            assert(state.cards_in_play().subset_of(standard_deck().to_multiset()));
            assert(state.cards_in_play().len() == dealt);
        }
        state
    }
}

} // verus!
