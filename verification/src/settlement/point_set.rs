use crate::coords::Point;
use crate::object::entropy_index::{lemma_cell_index_round_trip, spec_cell_index, CELL_COUNT};
use vstd::prelude::*;

verus! {

/// A set of positions on the internal grid of a chunk: a flag per position, in row-major order. Positions outside
/// the chunk are never members.
#[derive(Debug)]
pub struct PointSet {
    pub flags: Vec<bool>,
}

impl View for PointSet {
    type V = Set<Point>;

    open spec fn view(&self) -> Set<Point> {
        Set::new(|p: Point| p.spec_is_inside_grid() && self.flags@[spec_cell_index(p)])
    }
}

impl PointSet {
    /// One flag per position of a chunk.
    pub open spec fn wf(self) -> bool {
        self.flags@.len() == CELL_COUNT
    }

    /// The empty set.
    pub fn new() -> (set: PointSet)
        ensures
            set.wf(),
            set@ == Set::<Point>::empty(),
    {
        let mut flags: Vec<bool> = Vec::new();
        while flags.len() < CELL_COUNT
            invariant
                flags@.len() <= CELL_COUNT,
                forall|i: int| 0 <= i < flags@.len() ==> !flags@[i],
            decreases CELL_COUNT - flags@.len(),
        {
            flags.push(false);
        }
        let set = PointSet { flags };
        proof {
            assert forall|p: Point| !set@.contains(p) by {
                if p.spec_is_inside_grid() {
                    lemma_cell_index_round_trip(p);
                }
            }
            assert(set@ =~= Set::<Point>::empty());
        }
        set
    }

    /// Returns whether `p` is a member.
    pub fn contains(&self, p: &Point) -> (result: bool)
        requires
            self.wf(),
        ensures
            result == self@.contains(*p),
    {
        if p.is_outside_grid() {
            return false;
        }
        proof {
            lemma_cell_index_round_trip(*p);
        }
        self.flags[(p.y * 32 + p.x) as usize]
    }

    /// Adds `p`, a position of the chunk.
    pub fn insert(&mut self, p: &Point)
        requires
            old(self).wf(),
            p.spec_is_inside_grid(),
        ensures
            final(self).wf(),
            final(self)@ == old(self)@.insert(*p),
    {
        proof {
            lemma_cell_index_round_trip(*p);
        }
        let i = (p.y * 32 + p.x) as usize;
        self.flags.set(i, true);
        proof {
            assert forall|q: Point| self@.contains(q) <==> old(self)@.insert(*p).contains(q) by {
                if q.spec_is_inside_grid() {
                    lemma_cell_index_round_trip(q);
                    if q != *p {
                        assert(spec_cell_index(q) != spec_cell_index(*p)) by {
                            lemma_cell_index_round_trip(*p);
                        }
                    }
                }
            }
            assert(self@ =~= old(self)@.insert(*p));
        }
    }

    /// Returns a copy of this set.
    pub fn copy(&self) -> (copy: PointSet)
        requires
            self.wf(),
        ensures
            copy.wf(),
            copy@ == self@,
    {
        let mut flags: Vec<bool> = Vec::new();
        let mut i: usize = 0;
        while i < self.flags.len()
            invariant
                i <= self.flags@.len(),
                flags@ == self.flags@.subrange(0, i as int),
            decreases self.flags@.len() - i,
        {
            flags.push(self.flags[i]);
            i = i + 1;
            assert(flags@ =~= self.flags@.subrange(0, i as int));
        }
        assert(self.flags@.subrange(0, self.flags@.len() as int) =~= self.flags@);
        let copy = PointSet { flags };
        assert(copy@ =~= self@);
        copy
    }
}

} // verus!
