//! Capture lines: the eight rays from a played card and the cells each of
//! them takes.

use vstd::prelude::*;
use crate::board::{cell_index, in_bounds, Board, BOARD_SIZE};
use crate::cards::Card;
use crate::game::{GameState, TakingVariant};
use crate::pile::{cell_of, covers};

verus! {

/// Number of directions a capture is searched in: four orthogonal, then
/// four diagonal.
pub const DIRECTIONS: usize = 8;

/// The `index`-th direction as a step in rows and a step in columns: up,
/// down, left, right, then the four diagonals.
pub open spec fn direction(index: int) -> (int, int) {
    if index == 0 {
        (-1, 0)
    } else if index == 1 {
        (1, 0)
    } else if index == 2 {
        (0, -1)
    } else if index == 3 {
        (0, 1)
    } else if index == 4 {
        (-1, -1)
    } else if index == 5 {
        (-1, 1)
    } else if index == 6 {
        (1, -1)
    } else {
        (1, 1)
    }
}

/// The displacement after `distance` steps of `delta`, for a step `delta`
/// of -1, 0 or 1.
pub open spec fn stride(delta: int, distance: int) -> int {
    if delta > 0 {
        distance
    } else if delta < 0 {
        -distance
    } else {
        0
    }
}

/// Whether the cell `distance` steps from `(row, col)` in direction
/// `(dr, dc)` is on the board.
pub open spec fn in_reach(row: int, col: int, dr: int, dc: int, distance: int) -> bool {
    in_bounds(row + stride(dr, distance), col + stride(dc, distance))
}

/// The cards that playing `played` takes at the far end of a ray under
/// `variant`.
pub open spec fn taken_by(played: Card, variant: TakingVariant) -> spec_fn(Card) -> bool {
    |target: Card| variant.spec_takes(played, target)
}

impl Board {
    /// Whether the cell `distance` steps from `(row, col)` in direction
    /// `(dr, dc)` is on the board and holds a card that `wanted` accepts.
    pub open spec fn matches_at(
        &self,
        row: int,
        col: int,
        dr: int,
        dc: int,
        distance: int,
        wanted: spec_fn(Card) -> bool,
    ) -> bool {
        let r = row + stride(dr, distance);
        let c = col + stride(dc, distance);
        self.occupied(r, c) && wanted(self.at(r, c)->0)
    }

    /// Distance of the furthest match on the ray from `(row, col)` in
    /// direction `(dr, dc)`, looking no further than `limit` steps; 0 if
    /// there is none.
    pub open spec fn furthest_match(
        &self,
        row: int,
        col: int,
        dr: int,
        dc: int,
        limit: nat,
        wanted: spec_fn(Card) -> bool,
    ) -> nat
        decreases limit,
    {
        if limit == 0 {
            0
        } else if self.matches_at(row, col, dr, dc, limit as int, wanted) {
            limit
        } else {
            self.furthest_match(row, col, dr, dc, (limit - 1) as nat, wanted)
        }
    }

    /// The cells taken along one ray, in order from the played cell
    /// outwards: the played cell, every cell up to the furthest match and
    /// the match itself; nothing if the ray has no match.
    pub open spec fn ray(
        &self,
        row: int,
        col: int,
        dr: int,
        dc: int,
        wanted: spec_fn(Card) -> bool,
    ) -> Seq<(usize, usize)> {
        let reach = self.furthest_match(row, col, dr, dc, (BOARD_SIZE - 1) as nat, wanted);
        if reach == 0 {
            Seq::empty()
        } else {
            Seq::new(
                reach + 1,
                |k: int| ((row + stride(dr, k)) as usize, (col + stride(dc, k)) as usize),
            )
        }
    }

    /// The cells taken along the first `count` directions, ray after ray.
    pub open spec fn rays(
        &self,
        row: int,
        col: int,
        count: nat,
        wanted: spec_fn(Card) -> bool,
    ) -> Seq<(usize, usize)>
        decreases count,
    {
        if count == 0 {
            Seq::empty()
        } else {
            let (dr, dc) = direction(count - 1);
            self.rays(row, col, (count - 1) as nat, wanted) + self.ray(row, col, dr, dc, wanted)
        }
    }

    /// The cells taken by a card played at `(row, col)`: the rays of all
    /// eight directions, one after the other.
    pub open spec fn captures(&self, row: int, col: int, wanted: spec_fn(Card) -> bool) -> Seq<
        (usize, usize),
    > {
        self.rays(row, col, DIRECTIONS as nat, wanted)
    }

    /// The furthest match is a match, and no cell beyond it up to the limit
    /// is one.
    pub proof fn lemma_furthest_match(
        &self,
        row: int,
        col: int,
        dr: int,
        dc: int,
        limit: nat,
        wanted: spec_fn(Card) -> bool,
    )
        ensures
            self.furthest_match(row, col, dr, dc, limit, wanted) <= limit,
            self.furthest_match(row, col, dr, dc, limit, wanted) > 0 ==> self.matches_at(
                row,
                col,
                dr,
                dc,
                self.furthest_match(row, col, dr, dc, limit, wanted) as int,
                wanted,
            ),
            forall|k: int|
                self.furthest_match(row, col, dr, dc, limit, wanted) < k <= limit
                    ==> !#[trigger] self.matches_at(row, col, dr, dc, k, wanted),
        decreases limit,
    {
        if limit > 0 && !self.matches_at(row, col, dr, dc, limit as int, wanted) {
            self.lemma_furthest_match(row, col, dr, dc, (limit - 1) as nat, wanted);
        }
    }

    /// Where no cell further than `near` and up to `far` steps away is on the
    /// board, looking as far as `far` finds what looking as far as `near`
    /// finds.
    proof fn lemma_no_match_beyond(
        &self,
        row: int,
        col: int,
        dr: int,
        dc: int,
        near: nat,
        far: nat,
        wanted: spec_fn(Card) -> bool,
    )
        requires
            near <= far,
            forall|k: int| near < k <= far ==> !#[trigger] in_reach(row, col, dr, dc, k),
        ensures
            self.furthest_match(row, col, dr, dc, far, wanted) == self.furthest_match(
                row,
                col,
                dr,
                dc,
                near,
                wanted,
            ),
        decreases far - near,
    {
        if near < far {
            assert(!in_reach(row, col, dr, dc, far as int));
            self.lemma_no_match_beyond(row, col, dr, dc, near, (far - 1) as nat, wanted);
        }
    }
}

/// Every direction steps by at most one in each coordinate and is not the
/// null step.
pub proof fn lemma_direction(index: int)
    ensures
        -1 <= direction(index).0 <= 1,
        -1 <= direction(index).1 <= 1,
        !(direction(index).0 == 0 && direction(index).1 == 0),
{
}

impl Board {
    /// The search along a ray never looks at the played cell: two boards
    /// that differ at most in the played cell yield the same cells.
    pub proof fn lemma_captures_ignore_played_cell(
        &self,
        other: &Board,
        row: int,
        col: int,
        wanted: spec_fn(Card) -> bool,
    )
        requires
            forall|r: int, c: int|
                in_bounds(r, c) && !(r == row && c == col) ==> self.at(r, c) == other.at(r, c),
        ensures
            self.captures(row, col, wanted) == other.captures(row, col, wanted),
    {
        self.lemma_rays_ignore_played_cell(other, row, col, DIRECTIONS as nat, wanted);
    }

    proof fn lemma_rays_ignore_played_cell(
        &self,
        other: &Board,
        row: int,
        col: int,
        count: nat,
        wanted: spec_fn(Card) -> bool,
    )
        requires
            count <= DIRECTIONS,
            forall|r: int, c: int|
                in_bounds(r, c) && !(r == row && c == col) ==> self.at(r, c) == other.at(r, c),
        ensures
            self.rays(row, col, count, wanted) == other.rays(row, col, count, wanted),
        decreases count,
    {
        if count > 0 {
            let (dr, dc) = direction(count - 1);
            lemma_direction(count - 1);
            self.lemma_rays_ignore_played_cell(other, row, col, (count - 1) as nat, wanted);
            self.lemma_furthest_ignores_played_cell(
                other,
                row,
                col,
                dr,
                dc,
                (BOARD_SIZE - 1) as nat,
                wanted,
            );
        }
    }

    proof fn lemma_furthest_ignores_played_cell(
        &self,
        other: &Board,
        row: int,
        col: int,
        dr: int,
        dc: int,
        limit: nat,
        wanted: spec_fn(Card) -> bool,
    )
        requires
            -1 <= dr <= 1,
            -1 <= dc <= 1,
            !(dr == 0 && dc == 0),
            forall|r: int, c: int|
                in_bounds(r, c) && !(r == row && c == col) ==> self.at(r, c) == other.at(r, c),
        ensures
            self.furthest_match(row, col, dr, dc, limit, wanted) == other.furthest_match(
                row,
                col,
                dr,
                dc,
                limit,
                wanted,
            ),
        decreases limit,
    {
        if limit > 0 {
            self.lemma_furthest_ignores_played_cell(
                other,
                row,
                col,
                dr,
                dc,
                (limit - 1) as nat,
                wanted,
            );
        }
    }

    /// Every cell that a card played on the board takes is a cell of the
    /// board.
    pub proof fn lemma_captures_in_bounds(&self, row: int, col: int, wanted: spec_fn(Card) -> bool)
        requires
            in_bounds(row, col),
        ensures
            forall|i: int|
                0 <= i < self.captures(row, col, wanted).len() ==> in_bounds(
                    #[trigger] self.captures(row, col, wanted)[i].0 as int,
                    self.captures(row, col, wanted)[i].1 as int,
                ),
    {
        self.lemma_rays_in_bounds(row, col, DIRECTIONS as nat, wanted);
    }

    proof fn lemma_rays_in_bounds(
        &self,
        row: int,
        col: int,
        count: nat,
        wanted: spec_fn(Card) -> bool,
    )
        requires
            in_bounds(row, col),
            count <= DIRECTIONS,
        ensures
            forall|i: int|
                0 <= i < self.rays(row, col, count, wanted).len() ==> in_bounds(
                    #[trigger] self.rays(row, col, count, wanted)[i].0 as int,
                    self.rays(row, col, count, wanted)[i].1 as int,
                ),
        decreases count,
    {
        if count > 0 {
            let (dr, dc) = direction(count - 1);
            lemma_direction(count - 1);
            let earlier = self.rays(row, col, (count - 1) as nat, wanted);
            let line = self.ray(row, col, dr, dc, wanted);
            self.lemma_rays_in_bounds(row, col, (count - 1) as nat, wanted);
            self.lemma_furthest_match(row, col, dr, dc, (BOARD_SIZE - 1) as nat, wanted);
            assert forall|i: int| 0 <= i < (earlier + line).len() implies in_bounds(
                #[trigger] (earlier + line)[i].0 as int,
                (earlier + line)[i].1 as int,
            ) by {
                if i >= earlier.len() {
                    assert((earlier + line)[i] == line[i - earlier.len()]);
                }
            }
        }
    }
}

impl Board {
    /// How far the search along direction `index` from `(row, col)` gets:
    /// the distance of the furthest card on the ray that `wanted` accepts,
    /// or 0.
    pub open spec fn reach(
        &self,
        row: int,
        col: int,
        index: int,
        wanted: spec_fn(Card) -> bool,
    ) -> int {
        self.furthest_match(
            row,
            col,
            direction(index).0,
            direction(index).1,
            (BOARD_SIZE - 1) as nat,
            wanted,
        ) as int
    }

    /// Where no ray has a match, no cell is taken.
    pub proof fn lemma_no_match_takes_nothing(
        &self,
        row: int,
        col: int,
        wanted: spec_fn(Card) -> bool,
    )
        requires
            forall|index: int|
                0 <= index < DIRECTIONS ==> #[trigger] self.reach(row, col, index, wanted) == 0,
        ensures
            self.captures(row, col, wanted).len() == 0,
    {
        self.lemma_no_match_no_rays(row, col, DIRECTIONS as nat, wanted);
    }

    proof fn lemma_no_match_no_rays(
        &self,
        row: int,
        col: int,
        count: nat,
        wanted: spec_fn(Card) -> bool,
    )
        requires
            count <= DIRECTIONS,
            forall|index: int|
                0 <= index < DIRECTIONS ==> #[trigger] self.reach(row, col, index, wanted) == 0,
        ensures
            self.rays(row, col, count, wanted).len() == 0,
        decreases count,
    {
        if count > 0 {
            self.lemma_no_match_no_rays(row, col, (count - 1) as nat, wanted);
            assert(self.reach(row, col, count - 1, wanted) == 0);
        }
    }

    /// A ray with a match takes every cell from the played cell to the
    /// match: each of them is among the cells taken.
    pub proof fn lemma_ray_is_taken(
        &self,
        row: int,
        col: int,
        index: int,
        distance: int,
        wanted: spec_fn(Card) -> bool,
    )
        requires
            in_bounds(row, col),
            0 <= index < DIRECTIONS,
            0 <= distance <= self.reach(row, col, index, wanted),
            0 < self.reach(row, col, index, wanted),
        ensures
            in_reach(row, col, direction(index).0, direction(index).1, distance),
            covers(
                self.captures(row, col, wanted),
                cell_index(
                    row + stride(direction(index).0, distance),
                    col + stride(direction(index).1, distance),
                ),
            ),
    {
        self.lemma_ray_in_rays(row, col, index, distance, DIRECTIONS as nat, wanted);
    }

    proof fn lemma_ray_in_rays(
        &self,
        row: int,
        col: int,
        index: int,
        distance: int,
        count: nat,
        wanted: spec_fn(Card) -> bool,
    )
        requires
            in_bounds(row, col),
            0 <= index < count <= DIRECTIONS,
            0 <= distance <= self.reach(row, col, index, wanted),
            0 < self.reach(row, col, index, wanted),
        ensures
            in_reach(row, col, direction(index).0, direction(index).1, distance),
            covers(
                self.rays(row, col, count, wanted),
                cell_index(
                    row + stride(direction(index).0, distance),
                    col + stride(direction(index).1, distance),
                ),
            ),
        decreases count,
    {
        let (dr, dc) = direction(count - 1);
        let earlier = self.rays(row, col, (count - 1) as nat, wanted);
        let line = self.ray(row, col, dr, dc, wanted);
        let all = self.rays(row, col, count, wanted);
        let target = cell_index(
            row + stride(direction(index).0, distance),
            col + stride(direction(index).1, distance),
        );
        assert(all == earlier + line);
        lemma_direction(index);
        self.lemma_furthest_match(
            row,
            col,
            direction(index).0,
            direction(index).1,
            (BOARD_SIZE - 1) as nat,
            wanted,
        );
        if index == count - 1 {
            let at = earlier.len() + distance;
            assert(all[at] == line[distance]);
            assert(cell_of(all[at]) == target);
        } else {
            self.lemma_ray_in_rays(row, col, index, distance, (count - 1) as nat, wanted);
            let at = choose|i: int|
                0 <= i < earlier.len() && cell_of(#[trigger] earlier[i]) == target;
            assert(all[at] == earlier[at]);
            assert(cell_of(all[at]) == target);
        }
    }

    /// Nothing is taken but along a ray with a match: every cell among the
    /// cells taken lies on one of the eight rays, no further from the played
    /// cell than the furthest match of that ray.
    pub proof fn lemma_taken_is_on_ray(
        &self,
        row: int,
        col: int,
        wanted: spec_fn(Card) -> bool,
        target: int,
    ) -> (found: (int, int))
        requires
            in_bounds(row, col),
            covers(self.captures(row, col, wanted), target),
        ensures
            0 <= found.0 < DIRECTIONS,
            0 <= found.1 <= self.reach(row, col, found.0, wanted),
            0 < self.reach(row, col, found.0, wanted),
            cell_index(
                row + stride(direction(found.0).0, found.1),
                col + stride(direction(found.0).1, found.1),
            ) == target,
    {
        self.lemma_rays_on_ray(row, col, DIRECTIONS as nat, wanted, target)
    }

    proof fn lemma_rays_on_ray(
        &self,
        row: int,
        col: int,
        count: nat,
        wanted: spec_fn(Card) -> bool,
        target: int,
    ) -> (found: (int, int))
        requires
            in_bounds(row, col),
            count <= DIRECTIONS,
            covers(self.rays(row, col, count, wanted), target),
        ensures
            0 <= found.0 < count,
            0 <= found.1 <= self.reach(row, col, found.0, wanted),
            0 < self.reach(row, col, found.0, wanted),
            cell_index(
                row + stride(direction(found.0).0, found.1),
                col + stride(direction(found.0).1, found.1),
            ) == target,
        decreases count,
    {
        let all = self.rays(row, col, count, wanted);
        let at = choose|i: int| 0 <= i < all.len() && cell_of(#[trigger] all[i]) == target;
        let (dr, dc) = direction(count - 1);
        let earlier = self.rays(row, col, (count - 1) as nat, wanted);
        let line = self.ray(row, col, dr, dc, wanted);
        assert(all == earlier + line);
        if at < earlier.len() {
            assert(all[at] == earlier[at]);
            assert(cell_of(earlier[at]) == target);
            self.lemma_rays_on_ray(row, col, (count - 1) as nat, wanted, target)
        } else {
            let distance = at - earlier.len();
            assert(all[at] == line[distance]);
            lemma_direction(count - 1);
            self.lemma_furthest_match(row, col, dr, dc, (BOARD_SIZE - 1) as nat, wanted);
            (count - 1, distance)
        }
    }
}

/// The `index`-th direction as machine integers.
fn direction_at(index: usize) -> (step: (isize, isize))
    requires
        index < DIRECTIONS,
    ensures
        (step.0 as int, step.1 as int) == direction(index as int),
{
    if index == 0 {
        (-1, 0)
    } else if index == 1 {
        (1, 0)
    } else if index == 2 {
        (0, -1)
    } else if index == 3 {
        (0, 1)
    } else if index == 4 {
        (-1, -1)
    } else if index == 5 {
        (-1, 1)
    } else if index == 6 {
        (1, -1)
    } else {
        (1, 1)
    }
}

/// Whether `predicate` decides as `wanted` says: whatever a call of it
/// returns for a card is what `wanted` holds of that card.
pub open spec fn computes<F: Fn(Card) -> bool>(
    predicate: F,
    wanted: spec_fn(Card) -> bool,
) -> bool {
    forall|card: Card, verdict: bool| #[trigger]
        call_ensures(predicate, (card,), verdict) ==> verdict == wanted(card)
}

impl GameState {
    /// Find cards that can be taken based on the given predicate.
    ///
    /// From the played cell, each of the eight directions is searched for
    /// the furthest card that the predicate accepts. A direction with such a
    /// card contributes the played cell, every cell between and the cell of
    /// that card; a direction without one contributes nothing.
    ///
    /// Returns positions of cards to be taken.
    pub fn find_taking_cards<F: Fn(Card) -> bool>(
        board: &Board,
        card_row: usize,
        card_col: usize,
        predicate: F,
    ) -> (to_take: Vec<(usize, usize)>)
        requires
            card_row < BOARD_SIZE,
            card_col < BOARD_SIZE,
            forall|card: Card| call_requires(predicate, (card,)),
        ensures
            forall|wanted: spec_fn(Card) -> bool| #[trigger]
                computes(predicate, wanted) ==> to_take@ == board.captures(
                    card_row as int,
                    card_col as int,
                    wanted,
                ),
    {
        let mut to_take: Vec<(usize, usize)> = Vec::new();
        let ghost origin_row = card_row as int;
        let ghost origin_col = card_col as int;
        let mut index: usize = 0;
        while index < DIRECTIONS
            invariant
                index <= DIRECTIONS,
                card_row < BOARD_SIZE,
                card_col < BOARD_SIZE,
                origin_row == card_row,
                origin_col == card_col,
                forall|card: Card| call_requires(predicate, (card,)),
                forall|wanted: spec_fn(Card) -> bool| #[trigger]
                    computes(predicate, wanted) ==> to_take@ == board.rays(
                        origin_row,
                        origin_col,
                        index as nat,
                        wanted,
                    ),
            decreases DIRECTIONS - index,
        {
            let (dr, dc) = direction_at(index);
            // Search in this direction for the last matching card
            let mut row: isize = card_row as isize + dr;
            let mut col: isize = card_col as isize + dc;
            let mut distance: usize = 1;
            let mut found: usize = 0;
            while 0 <= row && row < BOARD_SIZE as isize && 0 <= col && col < BOARD_SIZE as isize
                invariant
                    -1 <= dr <= 1,
                    -1 <= dc <= 1,
                    !(dr == 0 && dc == 0),
                    card_row < BOARD_SIZE,
                    card_col < BOARD_SIZE,
                    origin_row == card_row,
                    origin_col == card_col,
                    1 <= distance <= BOARD_SIZE,
                    found < distance,
                    row == card_row + stride(dr as int, distance as int),
                    col == card_col + stride(dc as int, distance as int),
                    forall|card: Card| call_requires(predicate, (card,)),
                    forall|wanted: spec_fn(Card) -> bool| #[trigger]
                        computes(predicate, wanted) ==> found == board.furthest_match(
                            origin_row,
                            origin_col,
                            dr as int,
                            dc as int,
                            (distance - 1) as nat,
                            wanted,
                        ),
                decreases BOARD_SIZE - distance,
            {
                let mut hit = false;
                if let Some(board_card) = board.0[row as usize][col as usize] {
                    if predicate(board_card) {
                        hit = true;
                    }
                }
                proof {
                    assert forall|wanted: spec_fn(Card) -> bool| #[trigger]
                        computes(predicate, wanted) implies hit == board.matches_at(
                        origin_row,
                        origin_col,
                        dr as int,
                        dc as int,
                        distance as int,
                        wanted,
                    ) by {}
                }
                if hit {
                    found = distance;
                }
                row += dr;
                col += dc;
                distance += 1;
            }
            proof {
                // the search has left the board, and further out no cell is on it
                assert forall|k: int| distance - 1 < k <= BOARD_SIZE - 1 implies !in_reach(
                    origin_row,
                    origin_col,
                    dr as int,
                    dc as int,
                    k,
                ) by {}
                assert forall|wanted: spec_fn(Card) -> bool| #[trigger]
                    computes(predicate, wanted) implies found == board.furthest_match(
                    origin_row,
                    origin_col,
                    dr as int,
                    dc as int,
                    (BOARD_SIZE - 1) as nat,
                    wanted,
                ) && (found > 0 ==> in_reach(
                    origin_row,
                    origin_col,
                    dr as int,
                    dc as int,
                    found as int,
                )) by {
                    board.lemma_no_match_beyond(
                        origin_row,
                        origin_col,
                        dr as int,
                        dc as int,
                        (distance - 1) as nat,
                        (BOARD_SIZE - 1) as nat,
                        wanted,
                    );
                    board.lemma_furthest_match(
                        origin_row,
                        origin_col,
                        dr as int,
                        dc as int,
                        (BOARD_SIZE - 1) as nat,
                        wanted,
                    );
                }
            }
            let ghost before = to_take@;
            if found > 0 {
                let mut row: isize = card_row as isize;
                let mut col: isize = card_col as isize;
                let mut taken: usize = 0;
                while taken <= found
                    invariant
                        -1 <= dr <= 1,
                        -1 <= dc <= 1,
                        card_row < BOARD_SIZE,
                        card_col < BOARD_SIZE,
                        origin_row == card_row,
                        origin_col == card_col,
                        0 < found < BOARD_SIZE,
                        taken <= found + 1,
                        row == card_row + stride(dr as int, taken as int),
                        col == card_col + stride(dc as int, taken as int),
                        forall|wanted: spec_fn(Card) -> bool| #[trigger]
                            computes(predicate, wanted) ==> in_reach(
                                origin_row,
                                origin_col,
                                dr as int,
                                dc as int,
                                found as int,
                            ),
                        to_take@ == before + Seq::new(
                            taken as nat,
                            |k: int|
                                (
                                    (origin_row + stride(dr as int, k)) as usize,
                                    (origin_col + stride(dc as int, k)) as usize,
                                ),
                        ),
                    decreases found + 1 - taken,
                {
                    to_take.push((row as usize, col as usize));
                    row += dr;
                    col += dc;
                    taken += 1;
                }
            }
            proof {
                assert forall|wanted: spec_fn(Card) -> bool| #[trigger]
                    computes(predicate, wanted) implies to_take@ == board.rays(
                    origin_row,
                    origin_col,
                    (index + 1) as nat,
                    wanted,
                ) by {
                    let line = board.ray(origin_row, origin_col, dr as int, dc as int, wanted);
                    assert(to_take@ == before + line);
                }
            }
            index += 1;
        }
        to_take
    }
}

} // verus!
