//! The board: a fixed square grid of optional cards, and the rule that says
//! where a card may be played.

use vstd::multiset::Multiset;
use vstd::prelude::*;
use crate::cards::Card;

verus! {

/// Side length of the square board.
pub const BOARD_SIZE: usize = 11;

/// Number of cells of the board.
pub const BOARD_CELLS: usize = BOARD_SIZE * BOARD_SIZE;

/// The game board.
///
/// Row-major order (i.e. innermost array = a row).
#[derive(Debug, Clone, PartialEq, Eq)]
pub struct Board(pub [[Option<Card>; BOARD_SIZE]; BOARD_SIZE]);

/// Whether `(row, col)` names a cell of the board.
pub open spec fn in_bounds(row: int, col: int) -> bool {
    0 <= row < BOARD_SIZE && 0 <= col < BOARD_SIZE
}

/// Whether `(r, c)` is one of the eight cells around `(row, col)`: at most
/// one step away in each coordinate, and not the cell itself.
pub open spec fn adjacent(row: int, col: int, r: int, c: int) -> bool {
    &&& row - 1 <= r <= row + 1
    &&& col - 1 <= c <= col + 1
    &&& !(r == row && c == col)
}

/// Position of the cell `(row, col)` in the row-major order of all cells.
pub open spec fn cell_index(row: int, col: int) -> int {
    row * BOARD_SIZE + col
}

/// The card in a cell, as a collection of at most one card.
pub open spec fn option_cards(cell: Option<Card>) -> Multiset<Card> {
    match cell {
        Some(card) => Multiset::singleton(card),
        None => Multiset::empty(),
    }
}

/// The cards among `cells`, each as often as it occurs.
pub open spec fn cards_among(cells: Seq<Option<Card>>) -> Multiset<Card>
    decreases cells.len(),
{
    if cells.len() == 0 {
        Multiset::empty()
    } else {
        cards_among(cells.drop_last()).add(option_cards(cells.last()))
    }
}

impl View for Board {
    type V = Seq<Option<Card>>;

    /// All cells of the board in row-major order.
    open spec fn view(&self) -> Seq<Option<Card>> {
        Seq::new(
            BOARD_CELLS as nat,
            |k: int| self.at(k / BOARD_SIZE as int, k % BOARD_SIZE as int),
        )
    }
}

impl Board {
    /// Content of the cell at `(row, col)`.
    pub open spec fn at(&self, row: int, col: int) -> Option<Card> {
        self.0[row][col]
    }

    /// Whether `(row, col)` is a cell of the board that holds a card.
    pub open spec fn occupied(&self, row: int, col: int) -> bool {
        in_bounds(row, col) && self.at(row, col) is Some
    }

    /// Whether no cell of the board holds a card.
    pub open spec fn spec_is_empty(&self) -> bool {
        forall|r: int, c: int| !#[trigger] self.occupied(r, c)
    }

    /// Whether one of the eight cells around `(row, col)` holds a card.
    pub open spec fn has_neighbour(&self, row: int, col: int) -> bool {
        exists|r: int, c: int| adjacent(row, col, r, c) && #[trigger] self.occupied(r, c)
    }

    /// The placement rule: the cell is on the board and free, and either the
    /// board is empty and the cell is the centre, or the board is not empty
    /// and a card lies next to the cell.
    pub open spec fn playable(&self, row: int, col: int) -> bool {
        &&& in_bounds(row, col)
        &&& self.at(row, col) is None
        &&& if self.spec_is_empty() {
            row == BOARD_SIZE / 2 && col == BOARD_SIZE / 2
        } else {
            self.has_neighbour(row, col)
        }
    }

    /// The cards on the board, each as often as it lies there.
    pub open spec fn cards(&self) -> Multiset<Card> {
        cards_among(self@)
    }

    /// A board without cards.
    pub fn empty() -> (board: Board)
        ensures
            board.spec_is_empty(),
    {
        let row: [Option<Card>; BOARD_SIZE] = [None; BOARD_SIZE];
        Board([row; BOARD_SIZE])
    }

    /// Whether the board holds no card at all.
    #[verifier::when_used_as_spec(spec_is_empty)]
    pub fn is_empty(&self) -> (none: bool)
        ensures
            none == self.spec_is_empty(),
    {
        let mut row: usize = 0;
        while row < BOARD_SIZE
            invariant
                row <= BOARD_SIZE,
                forall|r: int, c: int| r < row ==> !#[trigger] self.occupied(r, c),
            decreases BOARD_SIZE - row,
        {
            let mut col: usize = 0;
            while col < BOARD_SIZE
                invariant
                    row < BOARD_SIZE,
                    col <= BOARD_SIZE,
                    forall|r: int, c: int| r < row ==> !#[trigger] self.occupied(r, c),
                    forall|c: int| c < col ==> !#[trigger] self.occupied(row as int, c),
                decreases BOARD_SIZE - col,
            {
                if self.0[row][col].is_some() {
                    assert(self.occupied(row as int, col as int));
                    return false;
                }
                col += 1;
            }
            row += 1;
        }
        true
    }

    /// Check if a card can be played at the given position.
    ///
    /// Returns true if the position is valid according to game rules:
    /// - the position is on the board and holds no card;
    /// - if the board is empty, only the centre position is valid;
    /// - if the board has cards, the position must be adjacent, orthogonally
    ///   or diagonally, to an existing card.
    pub fn can_play_at(&self, row: usize, col: usize) -> (ok: bool)
        ensures
            ok == self.playable(row as int, col as int),
            self.spec_is_empty() ==> (ok <==> row == BOARD_SIZE / 2 && col == BOARD_SIZE / 2),
            !self.spec_is_empty() ==> (ok <==> {
                &&& in_bounds(row as int, col as int)
                &&& self.at(row as int, col as int) is None
                &&& self.has_neighbour(row as int, col as int)
            }),
    {
        // Check bounds
        if row >= BOARD_SIZE || col >= BOARD_SIZE {
            return false;
        }
        // Check if position is already occupied
        if self.0[row][col].is_some() {
            assert(self.occupied(row as int, col as int));
            return false;
        }
        // First move must be in center
        if self.is_empty() {
            return row == BOARD_SIZE / 2 && col == BOARD_SIZE / 2;
        }
        // Board is not empty, check if position is adjacent to an existing card
        let r: isize = row as isize;
        let c: isize = col as isize;
        self.occupied_at(r - 1, c - 1) || self.occupied_at(r - 1, c)
            || self.occupied_at(r - 1, c + 1) || self.occupied_at(r, c - 1)
            || self.occupied_at(r, c + 1) || self.occupied_at(r + 1, c - 1)
            || self.occupied_at(r + 1, c) || self.occupied_at(r + 1, c + 1)
    }

    /// Whether the cell at signed coordinates `(row, col)` lies on the board
    /// and holds a card.
    fn occupied_at(&self, row: isize, col: isize) -> (held: bool)
        ensures
            held == self.occupied(row as int, col as int),
    {
        if row < 0 || col < 0 || row >= BOARD_SIZE as isize || col >= BOARD_SIZE as isize {
            return false;
        }
        self.0[row as usize][col as usize].is_some()
    }

    /// Put `cell` at `(row, col)`, whatever was there.
    pub(crate) fn put(&mut self, row: usize, col: usize, cell: Option<Card>)
        requires
            row < BOARD_SIZE,
            col < BOARD_SIZE,
        ensures
            final(self)@ == old(self)@.update(cell_index(row as int, col as int), cell),
            final(self).at(row as int, col as int) == cell,
            forall|r: int, c: int|
                in_bounds(r, c) && !(r == row && c == col) ==> final(self).at(r, c) == old(
                    self,
                ).at(r, c),
    {
        self.0[row][col] = cell;
    }

    /// A cell of the board is the entry of the view at its index.
    pub proof fn lemma_view_at(&self, row: int, col: int)
        requires
            in_bounds(row, col),
        ensures
            0 <= cell_index(row, col) < BOARD_CELLS,
            self@[cell_index(row, col)] == self.at(row, col),
    {
    }

    /// A board without cards holds no cards.
    pub proof fn lemma_empty_board_has_no_cards(&self)
        requires
            self.spec_is_empty(),
        ensures
            self.cards() == Multiset::<Card>::empty(),
    {
        assert forall|k: int| 0 <= k < BOARD_CELLS implies self@[k] is None by {
            let row = k / BOARD_SIZE as int;
            let col = k % BOARD_SIZE as int;
            assert(!self.occupied(row, col));
        }
        lemma_no_cards_among(self@);
    }
}

/// Replacing one cell takes the card that lay there out of the collection
/// and puts the new one in.
pub proof fn lemma_cards_among_update(cells: Seq<Option<Card>>, index: int, cell: Option<Card>)
    requires
        0 <= index < cells.len(),
    ensures
        cards_among(cells.update(index, cell)).add(option_cards(cells[index])) == cards_among(
            cells,
        ).add(option_cards(cell)),
    decreases cells.len(),
{
    let after = cells.update(index, cell);
    let shorter = cells.drop_last();
    if index == cells.len() - 1 {
        // the last cell is replaced
        assert(after.drop_last() == shorter);
    } else {
        // a cell before the last is replaced: the last cell comes on top either way
        let come = option_cards(cell);
        let last = option_cards(cells.last());
        assert(after.drop_last() == shorter.update(index, cell));
        lemma_cards_among_update(shorter, index, cell);
        assert(cards_among(shorter).add(come).add(last) =~= cards_among(shorter).add(last).add(
            come,
        ));
    }
}

/// Among empty cells there are no cards.
proof fn lemma_no_cards_among(cells: Seq<Option<Card>>)
    requires
        forall|k: int| 0 <= k < cells.len() ==> cells[k] is None,
    ensures
        cards_among(cells) == Multiset::<Card>::empty(),
    decreases cells.len(),
{
    if cells.len() > 0 {
        lemma_no_cards_among(cells.drop_last());
        assert(cards_among(cells) =~= Multiset::<Card>::empty());
    }
}

} // verus!
