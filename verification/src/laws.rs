//! What holds of every generation, proved from the rules.

use crate::coordinate::{adjacent, in_bounds, moore_neighborhood, Cell, Coordinate};
use crate::grid::LifeGrid;
use crate::rules::{
    is_born, is_live, lemma_live_neighbor_exists, lemma_no_live_neighbors_in_empty, live_neighbors,
    newly_born, newly_dead, next_generation, survives, unbounded_next_generation,
};
use vstd::prelude::*;

verus! {

/// The step is a function of the live cells alone: two grids that hold the
/// same live cells have the same next generation, the same births and the
/// same deaths.
pub proof fn lemma_advance_is_deterministic(first: LifeGrid, second: LifeGrid)
    requires
        first@ == second@,
    ensures
        next_generation(first@) == next_generation(second@),
        newly_born(first@) == newly_born(second@),
        newly_dead(first@) == newly_dead(second@),
{
}

/// No position has more than eight live neighbours.
pub proof fn lemma_live_neighbors_at_most_eight(live: Set<Cell>, p: Cell)
    ensures
        live_neighbors(live, p) <= 8,
{
    moore_neighborhood(p).lemma_filter_len(is_live(live));
}

/// An empty cell with exactly three live neighbours is live in the next
/// generation and is among the newly born.
pub proof fn lemma_birth_rule(live: Set<Cell>, c: Coordinate)
    requires
        !live.contains(c@),
        live_neighbors(live, c@) == 3,
    ensures
        next_generation(live).contains(c@),
        newly_born(live).contains(c@),
{
    assert(is_born(live, c@));
}

/// An empty cell with any other number of live neighbours stays empty.
pub proof fn lemma_stays_empty(live: Set<Cell>, p: Cell)
    requires
        !live.contains(p),
        live_neighbors(live, p) != 3,
    ensures
        !next_generation(live).contains(p),
        !newly_born(live).contains(p),
{
}

/// A live cell with two or three live neighbours is live in the next
/// generation and is not among the newly dead.
pub proof fn lemma_survival_rule(live: Set<Cell>, p: Cell)
    requires
        live.contains(p),
        live_neighbors(live, p) == 2 || live_neighbors(live, p) == 3,
    ensures
        next_generation(live).contains(p),
        !newly_dead(live).contains(p),
{
    assert(survives(live, p));
}

/// A live cell with fewer than two or more than three live neighbours is
/// among the newly dead and is empty in the next generation.
pub proof fn lemma_death_rule(live: Set<Cell>, p: Cell)
    requires
        live.contains(p),
        live_neighbors(live, p) < 2 || live_neighbors(live, p) > 3,
    ensures
        newly_dead(live).contains(p),
        !next_generation(live).contains(p),
{
}

/// A cell of the next generation was live and survived, or was an empty cell
/// of the grid with exactly three live neighbours.
pub proof fn lemma_next_generation_origin(live: Set<Cell>, p: Cell)
    requires
        next_generation(live).contains(p),
    ensures
        live.contains(p) ==> live_neighbors(live, p) == 2 || live_neighbors(live, p) == 3,
        !live.contains(p) ==> in_bounds(p) && live_neighbors(live, p) == 3,
{
}

/// The newly born are the cells of the next generation that were empty, and
/// the newly dead are the live cells that the next generation lacks.
pub proof fn lemma_changes_are_differences(live: Set<Cell>)
    ensures
        newly_born(live) == next_generation(live).difference(live),
        newly_dead(live) == live.difference(next_generation(live)),
        next_generation(live) == live.difference(newly_dead(live)).union(newly_born(live)),
{
    assert(newly_born(live) =~= next_generation(live).difference(live));
    assert(newly_dead(live) =~= live.difference(next_generation(live)));
    assert(next_generation(live) =~= live.difference(newly_dead(live)).union(newly_born(live)));
}

/// The grid without live cells stays as it is: nothing is born and nothing
/// dies.
pub proof fn lemma_empty_is_stable()
    ensures
        next_generation(Set::<Cell>::empty()) == Set::<Cell>::empty(),
        newly_born(Set::<Cell>::empty()) == Set::<Cell>::empty(),
        newly_dead(Set::<Cell>::empty()) == Set::<Cell>::empty(),
{
    let none = Set::<Cell>::empty();
    assert forall|p: Cell| !is_born(none, p) by {
        lemma_no_live_neighbors_in_empty(p);
    }
    assert(next_generation(none) =~= none);
    assert(newly_born(none) =~= none);
    assert(newly_dead(none) =~= none);
}

/// Every live cell of the next generation lies on the grid, provided the
/// live cells did.
pub proof fn lemma_next_generation_on_grid(live: Set<Cell>)
    requires
        forall|p: Cell| live.contains(p) ==> in_bounds(p),
    ensures
        forall|p: Cell| next_generation(live).contains(p) ==> in_bounds(p),
{
}

/// Whether `p` lies on the grid and not on its border.
pub open spec fn interior(p: Cell) -> bool {
    &&& i64::MIN < p.0 < i64::MAX
    &&& i64::MIN < p.1 < i64::MAX
}

/// While no live cell touches the border of the grid, the next generation is
/// the one that the rules give on the unbounded plane.
pub proof fn lemma_interior_step_is_unbounded(live: Set<Cell>)
    requires
        forall|p: Cell| live.contains(p) ==> interior(p),
    ensures
        next_generation(live) == unbounded_next_generation(live),
{
    assert forall|p: Cell|
        unbounded_next_generation(live).contains(p) implies next_generation(live).contains(p) by {
        if !live.contains(p) {
            lemma_live_neighbor_exists(live, p);
            let q = choose|q: Cell| #[trigger] live.contains(q) && adjacent(q, p);
            assert(interior(q));
            assert(in_bounds(p));
        }
    }
    assert(next_generation(live) =~= unbounded_next_generation(live));
}

} // verus!
