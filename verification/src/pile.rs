//! Taking cards off the board: the cells a capture empties and the pile of
//! cards it picks up.

use vstd::multiset::Multiset;
use vstd::prelude::*;
use crate::board::{
    cards_among, cell_index, in_bounds, lemma_cards_among_update, option_cards, Board,
};
use crate::cards::Card;

verus! {

/// Position of the cell at `position` in the row-major order of all cells.
pub open spec fn cell_of(position: (usize, usize)) -> int {
    cell_index(position.0 as int, position.1 as int)
}

/// Whether one of `positions` is the cell with index `index`.
pub open spec fn covers(positions: Seq<(usize, usize)>, index: int) -> bool {
    exists|i: int| 0 <= i < positions.len() && cell_of(#[trigger] positions[i]) == index
}

/// The cells of a board after every cell among `positions` was emptied.
pub open spec fn cleared(cells: Seq<Option<Card>>, positions: Seq<(usize, usize)>) -> Seq<
    Option<Card>,
> {
    Seq::new(
        cells.len(),
        |k: int|
            if covers(positions, k) {
                None
            } else {
                cells[k]
            },
    )
}

/// The cards picked up when the cells at `positions` are emptied one after
/// the other, in the order in which they are picked up. A cell named twice
/// yields its card the first time only, and an empty cell yields none.
pub open spec fn lifted(cells: Seq<Option<Card>>, positions: Seq<(usize, usize)>) -> Seq<Card>
    decreases positions.len(),
{
    if positions.len() == 0 {
        Seq::empty()
    } else {
        let earlier = positions.drop_last();
        match cleared(cells, earlier)[cell_of(positions.last())] {
            Some(card) => lifted(cells, earlier).push(card),
            None => lifted(cells, earlier),
        }
    }
}

/// Emptying the cells at `positions` is emptying all but the last of them
/// and then the last.
pub proof fn lemma_cleared_last(cells: Seq<Option<Card>>, positions: Seq<(usize, usize)>)
    requires
        positions.len() > 0,
        0 <= cell_of(positions.last()) < cells.len(),
    ensures
        cleared(cells, positions) == cleared(cells, positions.drop_last()).update(
            cell_of(positions.last()),
            None,
        ),
{
    let earlier = positions.drop_last();
    let last = cell_of(positions.last());
    let stepwise = cleared(cells, earlier).update(last, None);
    assert forall|k: int| 0 <= k < cells.len() implies cleared(cells, positions)[k]
        == stepwise[k] by {
        if covers(earlier, k) {
            let i = choose|i: int| 0 <= i < earlier.len() && cell_of(#[trigger] earlier[i]) == k;
            assert(cell_of(positions[i]) == k);
        } else if k == last {
            assert(cell_of(positions[positions.len() - 1]) == k);
        } else if covers(positions, k) {
            let i = choose|i: int|
                0 <= i < positions.len() && cell_of(#[trigger] positions[i]) == k;
            assert(cell_of(earlier[i]) == k);
        }
    }
}

/// Emptying cells moves cards from the board to the pile and neither makes
/// nor loses one: the cards left on the board and the cards picked up are
/// together the cards that lay on the board.
pub proof fn lemma_lifted_conserves(cells: Seq<Option<Card>>, positions: Seq<(usize, usize)>)
    requires
        forall|i: int|
            0 <= i < positions.len() ==> 0 <= cell_of(#[trigger] positions[i]) < cells.len(),
    ensures
        cards_among(cleared(cells, positions)).add(lifted(cells, positions).to_multiset())
            == cards_among(cells),
    decreases positions.len(),
{
    broadcast use vstd::seq_lib::group_to_multiset_ensures;

    if positions.len() == 0 {
        assert(cleared(cells, positions) == cells);
        assert(lifted(cells, positions).to_multiset() == Multiset::<Card>::empty());
    } else {
        let earlier = positions.drop_last();
        let last = cell_of(positions.last());
        assert(0 <= cell_of(positions[positions.len() - 1]) < cells.len());
        assert forall|i: int| 0 <= i < earlier.len() implies 0 <= cell_of(#[trigger] earlier[i])
            < cells.len() by {
            assert(earlier[i] == positions[i]);
        }
        lemma_lifted_conserves(cells, earlier);
        lemma_cleared_last(cells, positions);
        let before = cleared(cells, earlier);
        let picked = option_cards(before[last]);
        lemma_cards_among_update(before, last, None);
        assert(option_cards(None) =~= Multiset::<Card>::empty());
        assert(lifted(cells, positions).to_multiset() =~= lifted(cells, earlier).to_multiset().add(
            picked,
        ));
        assert(cards_among(cleared(cells, positions)).add(picked) == cards_among(before));
        assert(cards_among(cleared(cells, positions)).add(lifted(cells, positions).to_multiset())
            =~= cards_among(cells));
    }
}

impl Board {
    /// Empty every cell named in `positions` and hand back the cards that
    /// lay there, in the order in which the cells are named.
    pub(crate) fn lift(&mut self, positions: &Vec<(usize, usize)>) -> (pile: Vec<Card>)
        requires
            forall|i: int|
                0 <= i < positions@.len() ==> in_bounds(
                    (#[trigger] positions@[i]).0 as int,
                    positions@[i].1 as int,
                ),
        ensures
            final(self)@ == cleared(old(self)@, positions@),
            pile@ == lifted(old(self)@, positions@),
    {
        let mut pile: Vec<Card> = Vec::new();
        let mut next: usize = 0;
        assert(cleared(self@, positions@.take(0)) == self@);
        while next < positions.len()
            invariant
                next <= positions@.len(),
                forall|i: int|
                    0 <= i < positions@.len() ==> in_bounds(
                        (#[trigger] positions@[i]).0 as int,
                        positions@[i].1 as int,
                    ),
                self@ == cleared(old(self)@, positions@.take(next as int)),
                pile@ == lifted(old(self)@, positions@.take(next as int)),
            decreases positions@.len() - next,
        {
            let (row, col) = positions[next];
            proof {
                let upto = positions@.take(next + 1);
                assert(positions@[next as int] == (row, col));
                assert(upto.drop_last() == positions@.take(next as int));
                assert(upto.last() == (row, col));
                self.lemma_view_at(row as int, col as int);
                lemma_cleared_last(old(self)@, upto);
            }
            if let Some(card) = self.0[row][col] {
                pile.push(card);
            }
            self.put(row, col, None);
            next += 1;
        }
        assert(positions@.take(next as int) == positions@);
        pile
    }
}

} // verus!
