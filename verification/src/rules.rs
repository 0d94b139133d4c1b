//! The rules of the automaton, stated over sets of positions.

use crate::coordinate::{
    adjacent, in_bounds, moore_neighborhood, within_bounds, Cell, Coordinate,
};
use vstd::prelude::*;

verus! {

/// Membership in `live`, as a value to filter by.
pub open spec fn is_live(live: Set<Cell>) -> spec_fn(Cell) -> bool {
    |p: Cell| live.contains(p)
}

/// How many of the eight positions around `p` are live.
pub open spec fn live_neighbors(live: Set<Cell>, p: Cell) -> nat {
    moore_neighborhood(p).filter(is_live(live)).len()
}

/// A live cell stays live with two or three live neighbours.
pub open spec fn survives(live: Set<Cell>, p: Cell) -> bool {
    &&& live.contains(p)
    &&& (live_neighbors(live, p) == 2 || live_neighbors(live, p) == 3)
}

/// An empty cell of the grid comes to life with exactly three live
/// neighbours.
pub open spec fn is_born(live: Set<Cell>, p: Cell) -> bool {
    &&& in_bounds(p)
    &&& !live.contains(p)
    &&& live_neighbors(live, p) == 3
}

/// The cells of the grid with exactly three live neighbours, live or not.
pub open spec fn birth_candidates(live: Set<Cell>) -> Set<Cell> {
    Set::new(|p: Cell| in_bounds(p) && live_neighbors(live, p) == 3)
}

/// The live cells that are still live one generation later.
pub open spec fn survivors(live: Set<Cell>) -> Set<Cell> {
    Set::new(|p: Cell| survives(live, p))
}

/// The cells that are empty in `live` and live one generation later.
pub open spec fn newly_born(live: Set<Cell>) -> Set<Cell> {
    Set::new(|p: Cell| is_born(live, p))
}

/// The cells that are live in `live` and empty one generation later.
pub open spec fn newly_dead(live: Set<Cell>) -> Set<Cell> {
    Set::new(|p: Cell| live.contains(p) && !survives(live, p))
}

/// The generation that follows `live` on the grid: the survivors and the
/// newly born.
pub open spec fn next_generation(live: Set<Cell>) -> Set<Cell> {
    survivors(live).union(newly_born(live))
}

/// The generation that follows `live` on the unbounded plane.
pub open spec fn unbounded_next_generation(live: Set<Cell>) -> Set<Cell> {
    Set::new(
        |p: Cell|
            if live.contains(p) {
                live_neighbors(live, p) == 2 || live_neighbors(live, p) == 3
            } else {
                live_neighbors(live, p) == 3
            },
    )
}

/// What becomes of a live cell in the next generation.
#[derive(Clone, Copy, Debug, PartialEq, Eq, Structural)]
pub enum NextState {
    Live,
    Die,
}

/// The fate of a live cell that has `count` live neighbours.
pub open spec fn fate(count: nat) -> NextState {
    if count == 2 || count == 3 {
        NextState::Live
    } else {
        NextState::Die
    }
}

impl NextState {
    /// The fate of a live cell that has `count` live neighbours: it lives on
    /// with two or three of them and dies with any other number.
    pub fn of_live_cell(count: u8) -> (state: NextState)
        ensures
            state == fate(count as nat),
    {
        if count > 3 || count < 2 {
            NextState::Die
        } else {
            NextState::Live
        }
    }
}

/// A live cell together with its fate.
#[derive(Clone, Copy, Debug, PartialEq, Eq, Structural)]
pub struct LivingCell {
    pub pos: Coordinate,
    pub next_state: NextState,
}

/// The cells that a sequence of verdicts speaks of, in the same order.
pub open spec fn judged(verdicts: Seq<LivingCell>) -> Seq<Coordinate> {
    verdicts.map_values(|v: LivingCell| v.pos)
}

/// A position with at least one live neighbour is adjacent to a live cell.
pub proof fn lemma_live_neighbor_exists(live: Set<Cell>, p: Cell)
    requires
        live_neighbors(live, p) > 0,
    ensures
        exists|q: Cell| #[trigger] live.contains(q) && adjacent(q, p),
{
    let hood = moore_neighborhood(p);
    let kept = hood.filter(is_live(live));
    let q = kept[0];
    hood.lemma_filter_pred(is_live(live), 0);
    assert(kept.contains(q));
    hood.lemma_filter_contains_rev(is_live(live), q);
    crate::coordinate::lemma_neighborhood_is_adjacency(p, q);
    assert(live.contains(q) && adjacent(q, p));
}

/// Where every live cell lies on the grid, the neighbours beyond its border
/// do not count.
pub proof fn lemma_count_on_grid(live: Set<Cell>, s: Seq<Cell>)
    requires
        forall|p: Cell| live.contains(p) ==> in_bounds(p),
    ensures
        s.filter(within_bounds()).filter(is_live(live)) == s.filter(is_live(live)),
    decreases s.len(),
{
    reveal(Seq::filter);
    if s.len() > 0 {
        let front = s.drop_last();
        lemma_count_on_grid(live, front);
        if in_bounds(s.last()) {
            front.filter(within_bounds()).lemma_filter_push(s.last(), is_live(live));
        }
    }
}

/// Without live cells no position has a live neighbour.
pub proof fn lemma_no_live_neighbors_in_empty(p: Cell)
    ensures
        live_neighbors(Set::<Cell>::empty(), p) == 0,
{
    let live = Set::<Cell>::empty();
    let hood = moore_neighborhood(p);
    let kept = hood.filter(is_live(live));
    if kept.len() > 0 {
        hood.lemma_filter_pred(is_live(live), 0);
        assert(live.contains(kept[0]));
    }
}

} // verus!
