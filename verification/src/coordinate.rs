//! Grid positions and their Moore neighbourhood.

use vstd::prelude::*;

verus! {

/// A position of the unbounded plane, as a pair of mathematical integers.
pub type Cell = (int, int);

/// Whether both components of `p` fit a [`Coordinate`].
pub open spec fn in_bounds(p: Cell) -> bool {
    &&& i64::MIN <= p.0 <= i64::MAX
    &&& i64::MIN <= p.1 <= i64::MAX
}

/// The predicate [`in_bounds`], as a value to filter by.
pub open spec fn within_bounds() -> spec_fn(Cell) -> bool {
    |p: Cell| in_bounds(p)
}

/// Two distinct positions that differ by at most one in each direction.
pub open spec fn adjacent(p: Cell, q: Cell) -> bool {
    &&& p != q
    &&& -1 <= q.0 - p.0 <= 1
    &&& -1 <= q.1 - p.1 <= 1
}

/// The eight steps from a position to its neighbours, row by row from the
/// top, each row from left to right.
pub open spec fn moore_offsets() -> Seq<Cell> {
    seq![
        (-1int, 1int),
        (0int, 1int),
        (1int, 1int),
        (-1int, 0int),
        (1int, 0int),
        (-1int, -1int),
        (0int, -1int),
        (1int, -1int),
    ]
}

/// The eight positions around `p`, in the order of [`moore_offsets`].
pub open spec fn moore_neighborhood(p: Cell) -> Seq<Cell> {
    Seq::new(8, |k: int| (p.0 + moore_offsets()[k].0, p.1 + moore_offsets()[k].1))
}

/// The neighbours of `p` that are cells of the grid, in the order of
/// [`moore_neighborhood`].
pub open spec fn bounded_neighborhood(p: Cell) -> Seq<Cell> {
    moore_neighborhood(p).filter(within_bounds())
}

/// The positions that a sequence of coordinates names, in the same order.
pub open spec fn positions(s: Seq<Coordinate>) -> Seq<Cell> {
    s.map_values(|c: Coordinate| c@)
}

/// The positions named by the first `n` coordinates of `s`.
pub open spec fn seen(s: Seq<Coordinate>, n: int) -> Set<Cell> {
    positions(s.take(n)).to_set()
}

/// Identity of one grid cell. Two coordinates are the same cell exactly when
/// both components agree.
#[derive(Clone, Copy, Debug, PartialEq, Eq, Hash, Structural)]
pub struct Coordinate {
    pub x: i64,
    pub y: i64,
}

impl View for Coordinate {
    type V = Cell;

    open spec fn view(&self) -> Cell {
        (self.x as int, self.y as int)
    }
}

/// The neighbourhood of `p` holds exactly the positions adjacent to `p`.
pub proof fn lemma_neighborhood_is_adjacency(p: Cell, q: Cell)
    ensures
        moore_neighborhood(p).contains(q) <==> adjacent(p, q),
{
    let hood = moore_neighborhood(p);
    if adjacent(p, q) {
        let k = choose|k: int| 0 <= k < 8 && moore_offsets()[k] == (q.0 - p.0, q.1 - p.1);
        assert(moore_offsets()[0] == (-1int, 1int));
        assert(moore_offsets()[1] == (0int, 1int));
        assert(moore_offsets()[2] == (1int, 1int));
        assert(moore_offsets()[3] == (-1int, 0int));
        assert(moore_offsets()[4] == (1int, 0int));
        assert(moore_offsets()[5] == (-1int, -1int));
        assert(moore_offsets()[6] == (0int, -1int));
        assert(moore_offsets()[7] == (1int, -1int));
        assert(hood[k] == q);
    }
    if hood.contains(q) {
        let k = choose|k: int| 0 <= k < hood.len() && hood[k] == q;
        assert(hood[k] == (p.0 + moore_offsets()[k].0, p.1 + moore_offsets()[k].1));
    }
}

/// Filtering one element more of `s` appends `s[k]` to the filtered prefix
/// where the predicate holds of it, and leaves the prefix unchanged where it
/// does not.
pub proof fn lemma_filter_take_next<A>(s: Seq<A>, pred: spec_fn(A) -> bool, k: int)
    requires
        0 <= k < s.len(),
    ensures
        s.take(k + 1).filter(pred) == if pred(s[k]) {
            s.take(k).filter(pred).push(s[k])
        } else {
            s.take(k).filter(pred)
        },
{
    assert(s.take(k + 1) =~= s.take(k).push(s[k]));
    s.take(k).lemma_filter_push(s[k], pred);
}

/// A coordinate is in a sequence exactly when its position is among the
/// positions of the sequence.
pub proof fn lemma_positions_contain(s: Seq<Coordinate>, c: Coordinate)
    ensures
        s.contains(c) <==> positions(s).to_set().contains(c@),
{
    if s.contains(c) {
        let i = choose|i: int| 0 <= i < s.len() && s[i] == c;
        assert(positions(s)[i] == c@);
    }
    if positions(s).contains(c@) {
        let i = choose|i: int| 0 <= i < positions(s).len() && positions(s)[i] == c@;
        assert(s[i] == c);
    }
}

/// Appending a coordinate adds its position to the positions of the sequence.
pub proof fn lemma_positions_push(s: Seq<Coordinate>, c: Coordinate)
    ensures
        positions(s.push(c)) == positions(s).push(c@),
        positions(s.push(c)).to_set() == positions(s).to_set().insert(c@),
{
    let longer = positions(s).push(c@);
    assert(positions(s.push(c)) =~= longer);
    assert forall|p: Cell| longer.to_set().contains(p) <==> positions(s).to_set().insert(
        c@,
    ).contains(p) by {
        if longer.contains(p) {
            let i = choose|i: int| 0 <= i < longer.len() && longer[i] == p;
            if i < s.len() {
                assert(positions(s)[i] == p);
            }
        }
        if positions(s).contains(p) {
            let i = choose|i: int| 0 <= i < positions(s).len() && positions(s)[i] == p;
            assert(longer[i] == p);
        }
        if p == c@ {
            assert(longer[s.len() as int] == p);
        }
    }
    assert(longer.to_set() =~= positions(s).to_set().insert(c@));
}

/// Looking at one more coordinate adds its position to those seen.
pub proof fn lemma_seen_next(s: Seq<Coordinate>, n: int)
    requires
        0 <= n < s.len(),
    ensures
        seen(s, n + 1) == seen(s, n).insert(s[n]@),
{
    assert(s.take(n + 1) =~= s.take(n).push(s[n]));
    lemma_positions_push(s.take(n), s[n]);
}

/// Nothing has been seen before the first coordinate, and everything after
/// the last.
pub proof fn lemma_seen_ends(s: Seq<Coordinate>)
    ensures
        seen(s, 0) == Set::<Cell>::empty(),
        seen(s, s.len() as int) == positions(s).to_set(),
{
    assert(s.take(s.len() as int) =~= s);
    assert(positions(s.take(0)) =~= Seq::<Cell>::empty());
    assert(seen(s, 0) =~= Set::<Cell>::empty());
}

/// The neighbours of `p` on the grid are the cells adjacent to `p`.
pub proof fn lemma_bounded_neighborhood(p: Cell, q: Cell)
    ensures
        bounded_neighborhood(p).contains(q) <==> adjacent(p, q) && in_bounds(q),
{
    let hood = moore_neighborhood(p);
    let kept = bounded_neighborhood(p);
    lemma_neighborhood_is_adjacency(p, q);
    if kept.contains(q) {
        let i = choose|i: int| 0 <= i < kept.len() && kept[i] == q;
        hood.lemma_filter_pred(within_bounds(), i);
        hood.lemma_filter_contains_rev(within_bounds(), q);
    }
    if adjacent(p, q) && in_bounds(q) {
        let i = choose|i: int| 0 <= i < hood.len() && hood[i] == q;
        hood.lemma_filter_contains(within_bounds(), i);
    }
}

impl Coordinate {
    /// The cell in column `x` and row `y`.
    pub fn new(x: i64, y: i64) -> (c: Coordinate)
        ensures
            c@ == (x as int, y as int),
    {
        Coordinate { x, y }
    }

    /// The cell `dx` columns and `dy` rows away, or `None` where that
    /// position lies beyond the border of the grid.
    pub fn shifted(&self, dx: i64, dy: i64) -> (moved: Option<Coordinate>)
        ensures
            moved is Some <==> in_bounds((self.x + dx, self.y + dy)),
            moved matches Some(c) ==> c@ == (self.x + dx, self.y + dy),
    {
        match (self.x.checked_add(dx), self.y.checked_add(dy)) {
            (Some(x), Some(y)) => Some(Coordinate { x, y }),
            _ => None,
        }
    }

    /// The neighbours of this cell that lie on the grid: eight of them, fewer
    /// for a cell on the border.
    pub fn neighbors(&self) -> (around: Vec<Coordinate>)
        ensures
            positions(around@) == bounded_neighborhood(self@),
    {
        let ghost hood = moore_neighborhood(self@);
        let mut around: Vec<Coordinate> = Vec::new();
        let mut k: usize = 0;
        proof {
            assert(hood.take(0) =~= Seq::<Cell>::empty());
            reveal(Seq::filter);
            assert(positions(around@) =~= hood.take(0).filter(within_bounds()));
        }
        while k < 8
            invariant
                k <= 8,
                hood == moore_neighborhood(self@),
                positions(around@) == hood.take(k as int).filter(within_bounds()),
            decreases 8 - k,
        {
            let (dx, dy) = moore_offset(k);
            let ghost before = around@;
            proof {
                lemma_filter_take_next(hood, within_bounds(), k as int);
            }
            match self.shifted(dx, dy) {
                Some(c) => {
                    around.push(c);
                    assert(positions(around@) =~= positions(before).push(c@));
                },
                None => {},
            }
            k += 1;
        }
        assert(hood.take(8) =~= hood);
        around
    }
}

/// The step of [`moore_offsets`] at index `k`.
fn moore_offset(k: usize) -> (d: (i64, i64))
    requires
        k < 8,
    ensures
        (d.0 as int, d.1 as int) == moore_offsets()[k as int],
{
    match k {
        0 => (-1, 1),
        1 => (0, 1),
        2 => (1, 1),
        3 => (-1, 0),
        4 => (1, 0),
        5 => (-1, -1),
        6 => (0, -1),
        _ => (1, -1),
    }
}

} // verus!
