//! The automaton: the live cells and the step from one generation to the
//! next.

use crate::cell_list::GlobalCellList;
use crate::coordinate::{
    adjacent, bounded_neighborhood, in_bounds, lemma_bounded_neighborhood,
    lemma_filter_take_next, lemma_seen_ends, lemma_seen_next, moore_neighborhood, positions, seen,
    within_bounds, Cell, Coordinate,
};
use crate::rules::{
    birth_candidates, fate, is_live, judged, lemma_count_on_grid, lemma_live_neighbor_exists,
    live_neighbors, newly_born, newly_dead, next_generation, survivors, LivingCell, NextState,
};
use vstd::prelude::*;

verus! {

/// The grid of the automaton. Its view is the set of live cells, which is all
/// the state there is: each generation is computed from that set alone.
pub struct LifeGrid {
    live: GlobalCellList,
}

impl View for LifeGrid {
    type V = Set<Cell>;

    closed spec fn view(&self) -> Set<Cell> {
        self.live@
    }
}

impl LifeGrid {
    /// Every live cell is a cell of the grid.
    pub proof fn lemma_live_cells_on_grid(&self)
        ensures
            forall|p: Cell| self@.contains(p) ==> in_bounds(p),
    {
        self.live.lemma_within_grid();
    }

    /// The grid whose live cells are those of `initial`; a cell named more
    /// than once is live once.
    pub fn seed(initial: &[Coordinate]) -> (grid: LifeGrid)
        ensures
            grid@ == positions(initial@).to_set(),
    {
        let mut live = GlobalCellList::new();
        let mut i: usize = 0;
        proof {
            lemma_seen_ends(initial@);
        }
        while i < initial.len()
            invariant
                i <= initial.len(),
                live@ == seen(initial@, i as int),
            decreases initial.len() - i,
        {
            proof {
                lemma_seen_next(initial@, i as int);
            }
            live.insert(initial[i]);
            i += 1;
        }
        LifeGrid { live }
    }

    /// The live cells, each of them once.
    pub fn current_live(&self) -> (cells: Vec<Coordinate>)
        ensures
            cells@.no_duplicates(),
            positions(cells@).to_set() == self@,
    {
        let listed = self.live.cells();
        let mut cells: Vec<Coordinate> = Vec::new();
        let mut i: usize = 0;
        while i < listed.len()
            invariant
                i <= listed.len(),
                cells@ == listed@.take(i as int),
            decreases listed.len() - i,
        {
            cells.push(listed[i]);
            assert(cells@ =~= listed@.take(i + 1));
            i += 1;
        }
        assert(listed@.take(listed.len() as int) =~= listed@);
        cells
    }

    /// How many of the eight cells around `pos` are live. `pos` itself may be
    /// live or empty.
    pub fn neighbor_count(&self, pos: Coordinate) -> (count: u8)
        ensures
            count == live_neighbors(self@, pos@),
            count <= 8,
    {
        let around = pos.neighbors();
        let ghost near = bounded_neighborhood(pos@);
        let mut count: u8 = 0;
        let mut k: usize = 0;
        proof {
            moore_neighborhood(pos@).lemma_filter_len(within_bounds());
            reveal(Seq::filter);
            assert(near.take(0).filter(is_live(self@)) =~= Seq::<Cell>::empty());
        }
        while k < around.len()
            invariant
                k <= around.len() <= 8,
                near == positions(around@),
                count == near.take(k as int).filter(is_live(self@)).len(),
                count <= k,
            decreases around.len() - k,
        {
            proof {
                lemma_filter_take_next(near, is_live(self@), k as int);
            }
            if self.live.contains(around[k]) {
                count += 1;
            }
            k += 1;
        }
        proof {
            assert(near.take(around.len() as int) =~= near);
            self.live.lemma_within_grid();
            lemma_count_on_grid(self@, moore_neighborhood(pos@));
        }
        count
    }

    /// The fate of every live cell, counted on the cells as they are now:
    /// one verdict for each live cell.
    pub fn classify_survival(&self) -> (verdicts: Vec<LivingCell>)
        ensures
            judged(verdicts@).no_duplicates(),
            positions(judged(verdicts@)).to_set() == self@,
            forall|i: int|
                0 <= i < verdicts.len() ==> (#[trigger] verdicts[i]).next_state == fate(
                    live_neighbors(self@, verdicts[i].pos@),
                ),
    {
        let listed = self.live.cells();
        let mut verdicts: Vec<LivingCell> = Vec::new();
        let mut i: usize = 0;
        while i < listed.len()
            invariant
                i <= listed.len(),
                judged(verdicts@) == listed@.take(i as int),
                forall|j: int|
                    0 <= j < verdicts.len() ==> (#[trigger] verdicts[j]).next_state == fate(
                        live_neighbors(self@, verdicts[j].pos@),
                    ),
            decreases listed.len() - i,
        {
            let pos = listed[i];
            let next_state = NextState::of_live_cell(self.neighbor_count(pos));
            let ghost earlier = verdicts@;
            verdicts.push(LivingCell { pos, next_state });
            assert(judged(verdicts@) =~= judged(earlier).push(pos));
            assert(listed@.take(i + 1) =~= listed@.take(i as int).push(pos));
            i += 1;
        }
        assert(listed@.take(listed.len() as int) =~= listed@);
        verdicts
    }

    /// The cells with exactly three live neighbours, counted on the cells as
    /// they are now. Only the cells around a live cell can be among them;
    /// each is listed once, whether it is live or empty.
    pub fn classify_births(&self) -> (candidates: GlobalCellList)
        ensures
            candidates@ == birth_candidates(self@),
    {
        let listed = self.live.cells();
        let mut candidates = GlobalCellList::new();
        let mut i: usize = 0;
        assert(candidates@ =~= candidates_around(self@, listed@, 0));
        while i < listed.len()
            invariant
                i <= listed.len(),
                positions(listed@).to_set() == self@,
                candidates@ == candidates_around(self@, listed@, i as int),
            decreases listed.len() - i,
        {
            let around = listed[i].neighbors();
            let ghost found = candidates@;
            let mut k: usize = 0;
            proof {
                lemma_seen_ends(around@);
            }
            while k < around.len()
                invariant
                    k <= around.len(),
                    i < listed.len(),
                    found == candidates_around(self@, listed@, i as int),
                    candidates@ == found.union(
                        birth_candidates(self@).intersect(seen(around@, k as int)),
                    ),
                decreases around.len() - k,
            {
                proof {
                    lemma_seen_next(around@, k as int);
                }
                if self.neighbor_count(around[k]) == 3 {
                    candidates.insert(around[k]);
                }
                assert(candidates@ =~= found.union(
                    birth_candidates(self@).intersect(seen(around@, k + 1)),
                ));
                k += 1;
            }
            proof {
                assert forall|p: Cell|
                    candidates@.contains(p) <==> candidates_around(
                        self@,
                        listed@,
                        i + 1,
                    ).contains(p) by {
                    lemma_bounded_neighborhood(listed@[i as int]@, p);
                }
                assert(candidates@ =~= candidates_around(self@, listed@, i + 1));
            }
            i += 1;
        }
        proof {
            assert forall|p: Cell| birth_candidates(self@).contains(p) implies candidates@.contains(
                p,
            ) by {
                lemma_live_neighbor_exists(self@, p);
                let q = choose|q: Cell| #[trigger] self@.contains(q) && adjacent(q, p);
                let j = choose|j: int|
                    0 <= j < positions(listed@).len() && positions(listed@)[j] == q;
                assert(adjacent(listed@[j]@, p));
            }
            assert(candidates@ =~= birth_candidates(self@));
        }
        candidates
    }

    /// Replaces the live cells by the next generation, and returns the cells
    /// that were born and the cells that died, in that order. Survival and
    /// birth are both decided on the cells as they were before the call.
    pub fn advance(&mut self) -> (changes: (GlobalCellList, GlobalCellList))
        ensures
            final(self)@ == next_generation(old(self)@),
            changes.0@ == newly_born(old(self)@),
            changes.1@ == newly_dead(old(self)@),
    {
        let verdicts = self.classify_survival();
        let candidates = self.classify_births();
        let ghost before = self@;
        let mut next = GlobalCellList::new();
        let mut born = GlobalCellList::new();
        let mut dead = GlobalCellList::new();

        let ghost judged_cells = judged(verdicts@);
        let mut i: usize = 0;
        proof {
            lemma_seen_ends(judged_cells);
            assert(next@ =~= survivors(before).intersect(seen(judged_cells, 0)));
            assert(dead@ =~= newly_dead(before).intersect(seen(judged_cells, 0)));
        }
        while i < verdicts.len()
            invariant
                i <= verdicts.len(),
                judged_cells == judged(verdicts@),
                positions(judged_cells).to_set() == before,
                forall|j: int|
                    0 <= j < verdicts.len() ==> (#[trigger] verdicts[j]).next_state == fate(
                        live_neighbors(before, verdicts[j].pos@),
                    ),
                next@ == survivors(before).intersect(seen(judged_cells, i as int)),
                dead@ == newly_dead(before).intersect(seen(judged_cells, i as int)),
            decreases verdicts.len() - i,
        {
            let verdict = verdicts[i];
            proof {
                lemma_seen_next(judged_cells, i as int);
                assert(positions(judged_cells)[i as int] == verdict.pos@);
                assert(before.contains(verdict.pos@));
            }
            match verdict.next_state {
                NextState::Live => {
                    next.insert(verdict.pos);
                },
                NextState::Die => {
                    dead.insert(verdict.pos);
                },
            }
            assert(next@ =~= survivors(before).intersect(seen(judged_cells, i + 1)));
            assert(dead@ =~= newly_dead(before).intersect(seen(judged_cells, i + 1)));
            i += 1;
        }

        let listed = candidates.cells();
        let mut k: usize = 0;
        proof {
            lemma_seen_ends(listed@);
            assert(dead@ =~= newly_dead(before));
            assert(next@ =~= survivors(before).union(
                newly_born(before).intersect(seen(listed@, 0)),
            ));
            assert(born@ =~= newly_born(before).intersect(seen(listed@, 0)));
        }
        while k < listed.len()
            invariant
                k <= listed.len(),
                before == self@,
                positions(listed@).to_set() == birth_candidates(before),
                next@ == survivors(before).union(
                    newly_born(before).intersect(seen(listed@, k as int)),
                ),
                born@ == newly_born(before).intersect(seen(listed@, k as int)),
            decreases listed.len() - k,
        {
            let pos = listed[k];
            proof {
                lemma_seen_next(listed@, k as int);
                assert(positions(listed@)[k as int] == pos@);
                assert(birth_candidates(before).contains(pos@));
            }
            if !self.live.contains(pos) {
                next.insert(pos);
                born.insert(pos);
            }
            assert(next@ =~= survivors(before).union(
                newly_born(before).intersect(seen(listed@, k + 1)),
            ));
            assert(born@ =~= newly_born(before).intersect(seen(listed@, k + 1)));
            k += 1;
        }
        proof {
            assert(born@ =~= newly_born(before));
            assert(next@ =~= next_generation(before));
        }
        self.live = next;
        (born, dead)
    }
}

/// The birth candidates among the cells around the first `n` coordinates of
/// `listed`.
spec fn candidates_around(live: Set<Cell>, listed: Seq<Coordinate>, n: int) -> Set<Cell> {
    Set::new(
        |p: Cell|
            birth_candidates(live).contains(p) && exists|j: int|
                0 <= j < n && j < listed.len() && adjacent((#[trigger] listed[j])@, p),
    )
}

} // verus!
