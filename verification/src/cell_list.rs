//! A list of grid cells in which no cell occurs twice.

use crate::coordinate::{
    in_bounds, lemma_positions_contain, lemma_positions_push, positions, Cell, Coordinate,
};
use std::collections::HashSet;
use vstd::prelude::*;

verus! {

broadcast use vstd::std_specs::hash::group_hash_axioms;

/// The number under which a coordinate is filed in the index of a list. Both
/// components are moved into the unsigned range and set side by side, so that
/// no two coordinates share a number.
spec fn code(c: Coordinate) -> u128 {
    ((c.x - i64::MIN) * 0x1_0000_0000_0000_0000 + (c.y - i64::MIN)) as u128
}

/// The numbers of all the coordinates of `s`.
spec fn codes(s: Seq<Coordinate>) -> Set<u128> {
    Set::new(|k: u128| exists|i: int| 0 <= i < s.len() && #[trigger] code(s[i]) == k)
}

/// Different coordinates have different numbers.
proof fn lemma_code_injective(a: Coordinate, b: Coordinate)
    ensures
        code(a) == code(b) <==> a == b,
{
    let ax = a.x - i64::MIN;
    let ay = a.y - i64::MIN;
    let bx = b.x - i64::MIN;
    let by = b.y - i64::MIN;
    assert(0 <= ax * 0x1_0000_0000_0000_0000 + ay <= u128::MAX);
    assert(0 <= bx * 0x1_0000_0000_0000_0000 + by <= u128::MAX);
    if code(a) == code(b) {
        assert(ax == bx);
        assert(ay == by);
    }
}

fn code_of(c: Coordinate) -> (k: u128)
    ensures
        k == code(c),
{
    let column: u128 = (c.x as i128 + 0x8000_0000_0000_0000i128) as u128;
    let row: u128 = (c.y as i128 + 0x8000_0000_0000_0000i128) as u128;
    column * 0x1_0000_0000_0000_0000u128 + row
}

/// The cells of a pattern or of a generation: a list of coordinates without
/// repetition, with an index by which membership is decided in constant
/// expected time. Its view is the set of the positions listed.
pub struct GlobalCellList {
    cells: Vec<Coordinate>,
    index: HashSet<u128>,
}

impl View for GlobalCellList {
    type V = Set<Cell>;

    open spec fn view(&self) -> Set<Cell> {
        positions(self.listing()).to_set()
    }
}

impl GlobalCellList {
    /// The coordinates of the list, in the order in which they were added.
    pub closed spec fn listing(&self) -> Seq<Coordinate> {
        self.cells@
    }

    #[verifier::type_invariant]
    spec fn well_formed(self) -> bool {
        &&& self.cells@.no_duplicates()
        &&& self.index@ == codes(self.cells@)
    }

    /// The list without cells.
    pub fn new() -> (list: GlobalCellList)
        ensures
            list.listing() == Seq::<Coordinate>::empty(),
            list@ == Set::<Cell>::empty(),
    {
        let cells: Vec<Coordinate> = Vec::new();
        let index: HashSet<u128> = HashSet::new();
        assert(index@ =~= codes(cells@));
        assert(positions(cells@).to_set() =~= Set::<Cell>::empty());
        GlobalCellList { cells, index }
    }

    /// Whether `c` is listed.
    pub fn contains(&self, c: Coordinate) -> (found: bool)
        ensures
            found == self.listing().contains(c),
            found == self@.contains(c@),
    {
        proof {
            use_type_invariant(self);
        }
        let found = self.index.contains(&code_of(c));
        proof {
            lemma_listed_iff_indexed(self.cells@, c);
            lemma_positions_contain(self.cells@, c);
        }
        found
    }

    /// Every listed position is a cell of the grid.
    pub proof fn lemma_within_grid(&self)
        ensures
            forall|p: Cell| self@.contains(p) ==> in_bounds(p),
    {
        let listed = positions(self.listing());
        assert forall|p: Cell| self@.contains(p) implies in_bounds(p) by {
            let i = choose|i: int| 0 <= i < listed.len() && listed[i] == p;
            assert(p == self.listing()[i]@);
        }
    }

    /// The coordinates of the list, each of them once, in the order in which
    /// they were added.
    pub fn cells(&self) -> (listed: &Vec<Coordinate>)
        ensures
            listed@ == self.listing(),
            listed@.no_duplicates(),
    {
        proof {
            use_type_invariant(self);
        }
        &self.cells
    }

    /// Adds `c` at the end of the list unless it is listed already, and says
    /// whether it was added.
    pub fn insert(&mut self, c: Coordinate) -> (fresh: bool)
        ensures
            fresh == !old(self).listing().contains(c),
            final(self).listing() == if fresh {
                old(self).listing().push(c)
            } else {
                old(self).listing()
            },
            final(self)@ == old(self)@.insert(c@),
    {
        proof {
            use_type_invariant(&*self);
        }
        // The list and its index change one after the other, so both are
        // taken out and put back together once they agree again.
        let mut taken = GlobalCellList::new();
        core::mem::swap(self, &mut taken);
        let GlobalCellList { mut cells, mut index } = taken;
        let ghost before = cells@;
        let fresh = index.insert(code_of(c));
        proof {
            lemma_listed_iff_indexed(before, c);
            lemma_positions_contain(before, c);
        }
        if fresh {
            cells.push(c);
            proof {
                lemma_codes_push(before, c);
                lemma_positions_push(before, c);
            }
        } else {
            assert(index@ =~= codes(before));
            assert(positions(before).to_set().insert(c@) =~= positions(before).to_set());
        }
        *self = GlobalCellList { cells, index };
        fresh
    }
}

/// A coordinate is in a sequence exactly when its number is among the numbers
/// of the sequence.
proof fn lemma_listed_iff_indexed(s: Seq<Coordinate>, c: Coordinate)
    ensures
        s.contains(c) <==> codes(s).contains(code(c)),
{
    if codes(s).contains(code(c)) {
        let i = choose|i: int| 0 <= i < s.len() && #[trigger] code(s[i]) == code(c);
        lemma_code_injective(s[i], c);
        assert(s[i] == c);
    }
    if s.contains(c) {
        let i = choose|i: int| 0 <= i < s.len() && s[i] == c;
        assert(code(s[i]) == code(c));
    }
}

/// Appending a coordinate adds its number to the numbers of the sequence.
proof fn lemma_codes_push(s: Seq<Coordinate>, c: Coordinate)
    ensures
        codes(s.push(c)) == codes(s).insert(code(c)),
{
    let t = s.push(c);
    assert forall|k: u128| codes(t).contains(k) <==> codes(s).insert(code(c)).contains(k) by {
        if codes(t).contains(k) {
            let i = choose|i: int| 0 <= i < t.len() && #[trigger] code(t[i]) == k;
            if i < s.len() {
                assert(code(s[i]) == k);
            }
        }
        if codes(s).contains(k) {
            let i = choose|i: int| 0 <= i < s.len() && #[trigger] code(s[i]) == k;
            assert(code(t[i]) == k);
        }
        if k == code(c) {
            assert(code(t[s.len() as int]) == k);
        }
    }
    assert(codes(t) =~= codes(s).insert(code(c)));
}

} // verus!
