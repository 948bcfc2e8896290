use crate::constants::CHUNK_SIZE;
use crate::coords::Point;
use crate::object::cell::Cell;
use crate::random::random_index;
use rand::rngs::StdRng;
use vstd::prelude::*;

verus! {

/// The number of cells in a chunk.
pub const CELL_COUNT: usize = 1024;

/// Where an indexed cell is kept: its entropy bucket and its position in that bucket.
#[derive(Clone, Copy, Debug, PartialEq, Eq, Structural)]
pub struct Membership {
    pub entropy: usize,
    pub position: usize,
}

/// Indexes the uncollapsed cells of a grid by entropy, so that a cell of the lowest entropy can be found without
/// scanning the grid. `buckets[e]` holds the positions of the cells with entropy `e`, `memberships` records for each
/// cell where it is kept, and `lowest` is the lowest entropy of any indexed cell (`usize::MAX` when none is indexed).
#[derive(Debug)]
pub struct CellEntropyIndex {
    pub buckets: Vec<Vec<Point>>,
    pub memberships: Vec<Option<Membership>>,
    pub lowest: usize,
}

/// The index of the membership slot of an internal grid position, in row-major order.
pub open spec fn spec_cell_index(p: Point) -> int {
    p.y * CHUNK_SIZE + p.x
}

/// The internal grid position of a membership slot.
pub open spec fn point_of(index: int) -> Point {
    Point { x: (index % CHUNK_SIZE as int) as i32, y: (index / CHUNK_SIZE as int) as i32 }
}

/// Positions and slots correspond one to one.
pub proof fn lemma_cell_index_round_trip(p: Point)
    requires
        p.spec_is_inside_grid(),
    ensures
        0 <= spec_cell_index(p) < CELL_COUNT,
        point_of(spec_cell_index(p)) == p,
{
}

/// Slots and positions correspond one to one.
pub proof fn lemma_point_of_round_trip(index: int)
    requires
        0 <= index < CELL_COUNT,
    ensures
        point_of(index).spec_is_inside_grid(),
        spec_cell_index(point_of(index)) == index,
{
}

/// Returns the membership slot of an internal grid position.
fn cell_index(ig: Point) -> (index: usize)
    requires
        ig.spec_is_inside_grid(),
    ensures
        index == spec_cell_index(ig),
        index < CELL_COUNT,
{
    (ig.y * CHUNK_SIZE + ig.x) as usize
}

impl View for CellEntropyIndex {
    type V = Map<Point, nat>;

    /// The indexed cells, each with its entropy.
    open spec fn view(&self) -> Map<Point, nat> {
        Map::new(
            |p: Point| p.spec_is_inside_grid() && self.memberships@[spec_cell_index(p)] is Some,
            |p: Point| self.memberships@[spec_cell_index(p)]->0.entropy as nat,
        )
    }
}

impl CellEntropyIndex {
    /// The lowest entropy of any non-empty bucket, or `usize::MAX` if all buckets are empty.
    pub open spec fn lowest_is_correct(buckets: Seq<Vec<Point>>, lowest: usize) -> bool {
        ||| (lowest == usize::MAX && forall|e: int| 0 <= e < buckets.len() ==> (#[trigger] buckets[e])@.len() == 0)
        ||| (1 <= lowest < buckets.len() && buckets[lowest as int]@.len() > 0 && forall|e: int|
            0 <= e < lowest ==> (#[trigger] buckets[e])@.len() == 0)
    }

    /// The index invariant: buckets and memberships describe each other, and `lowest` is the lowest non-empty bucket.
    pub open spec fn wf(self) -> bool {
        &&& self.memberships@.len() == CELL_COUNT
        &&& forall|i: int|
            0 <= i < CELL_COUNT && (#[trigger] self.memberships@[i]) is Some ==> {
                let m = self.memberships@[i]->0;
                &&& 1 <= m.entropy < self.buckets@.len()
                &&& m.position < self.buckets@[m.entropy as int]@.len()
                &&& self.buckets@[m.entropy as int]@[m.position as int] == point_of(i)
            }
        &&& forall|e: int, k: int|
            0 <= e < self.buckets@.len() && 0 <= k < self.buckets@[e]@.len() ==> {
                let p = #[trigger] self.buckets@[e]@[k];
                &&& p.spec_is_inside_grid()
                &&& self.memberships@[spec_cell_index(p)] == Some(Membership { entropy: e as usize, position: k as usize })
            }
        &&& CellEntropyIndex::lowest_is_correct(self.buckets@, self.lowest)
    }

    /// An empty index with `bucket_count` empty buckets.
    fn empty(bucket_count: usize) -> (index: CellEntropyIndex)
        ensures
            index.wf(),
            index@ == Map::<Point, nat>::empty(),
            index.buckets@.len() == bucket_count,
    {
        let mut buckets: Vec<Vec<Point>> = Vec::new();
        while buckets.len() < bucket_count
            invariant
                buckets@.len() <= bucket_count,
                forall|e: int| 0 <= e < buckets@.len() ==> (#[trigger] buckets@[e])@.len() == 0,
            decreases bucket_count - buckets@.len(),
        {
            buckets.push(Vec::new());
        }
        let mut memberships: Vec<Option<Membership>> = Vec::new();
        while memberships.len() < CELL_COUNT
            invariant
                memberships@.len() <= CELL_COUNT,
                forall|i: int| 0 <= i < memberships@.len() ==> (#[trigger] memberships@[i]) is None,
            decreases CELL_COUNT - memberships@.len(),
        {
            memberships.push(None);
        }
        let index = CellEntropyIndex { buckets, memberships, lowest: usize::MAX };
        assert(index@ =~= Map::<Point, nat>::empty());
        index
    }

    /// Builds an index of the uncollapsed cells among `cells`.
    pub fn from_cells(cells: &Vec<Cell>) -> (index: CellEntropyIndex)
        requires
            forall|i: int| 0 <= i < cells@.len() ==> (#[trigger] cells@[i]).ig.spec_is_inside_grid(),
            forall|i: int, j: int| 0 <= i < j < cells@.len() ==> cells@[i].ig != cells@[j].ig,
            forall|i: int|
                0 <= i < cells@.len() && !(#[trigger] cells@[i]).is_collapsed ==> 1 <= cells@[i].entropy
                    < usize::MAX,
        ensures
            index.wf(),
            forall|p: Point|
                index@.contains_key(p) <==> exists|i: int|
                    0 <= i < cells@.len() && !cells@[i].is_collapsed && #[trigger] cells@[i].ig == p,
            forall|i: int|
                0 <= i < cells@.len() && !(#[trigger] cells@[i]).is_collapsed ==> index@[cells@[i].ig]
                    == cells@[i].entropy,
    {
        let mut maximum_entropy: usize = 0;
        let mut i: usize = 0;
        while i < cells.len()
            invariant
                i <= cells@.len(),
                maximum_entropy < usize::MAX,
                forall|k: int|
                    0 <= k < cells@.len() && !(#[trigger] cells@[k]).is_collapsed ==> 1 <= cells@[k].entropy
                        < usize::MAX,
                forall|k: int|
                    0 <= k < i && !(#[trigger] cells@[k]).is_collapsed ==> cells@[k].entropy <= maximum_entropy,
            decreases cells@.len() - i,
        {
            if !cells[i].is_collapsed() && cells[i].get_entropy() > maximum_entropy {
                maximum_entropy = cells[i].get_entropy();
            }
            i = i + 1;
        }
        let mut index = CellEntropyIndex::empty(maximum_entropy + 1);
        let mut i: usize = 0;
        while i < cells.len()
            invariant
                index.wf(),
                i <= cells@.len(),
                forall|k: int| 0 <= k < cells@.len() ==> (#[trigger] cells@[k]).ig.spec_is_inside_grid(),
                forall|a: int, b: int| 0 <= a < b < cells@.len() ==> cells@[a].ig != cells@[b].ig,
                forall|k: int|
                    0 <= k < cells@.len() && !(#[trigger] cells@[k]).is_collapsed ==> 1 <= cells@[k].entropy
                        < usize::MAX,
                forall|p: Point|
                    index@.contains_key(p) <==> exists|k: int|
                        0 <= k < i && !cells@[k].is_collapsed && #[trigger] cells@[k].ig == p,
                forall|k: int|
                    0 <= k < i && !(#[trigger] cells@[k]).is_collapsed ==> index@[cells@[k].ig] == cells@[k].entropy,
            decreases cells@.len() - i,
        {
            if !cells[i].is_collapsed() {
                proof {
                    assert(!index@.contains_key(cells@[i as int].ig)) by {
                        if index@.contains_key(cells@[i as int].ig) {
                            let k = choose|k: int|
                                0 <= k < i && !cells@[k].is_collapsed && #[trigger] cells@[k].ig == cells@[i as int].ig;
                        }
                    }
                }
                let ghost before = index@;
                index.insert(cells[i].ig, cells[i].get_entropy());
                proof {
                    assert forall|p: Point|
                        index@.contains_key(p) <==> exists|k: int|
                            0 <= k < i + 1 && !cells@[k].is_collapsed && #[trigger] cells@[k].ig == p by {
                        if exists|k: int| 0 <= k < i + 1 && !cells@[k].is_collapsed && #[trigger] cells@[k].ig == p {
                            let k = choose|k: int|
                                0 <= k < i + 1 && !cells@[k].is_collapsed && #[trigger] cells@[k].ig == p;
                            if k < i {
                                assert(before.contains_key(p));
                            }
                        }
                    }
                    assert forall|k: int|
                        0 <= k < i + 1 && !(#[trigger] cells@[k]).is_collapsed implies index@[cells@[k].ig]
                            == cells@[k].entropy by {
                        if k < i {
                            assert(cells@[k].ig != cells@[i as int].ig);
                        }
                    }
                }
            } else {
                proof {
                    assert forall|p: Point|
                        index@.contains_key(p) <==> exists|k: int|
                            0 <= k < i + 1 && !cells@[k].is_collapsed && #[trigger] cells@[k].ig == p by {
                        if exists|k: int| 0 <= k < i + 1 && !cells@[k].is_collapsed && #[trigger] cells@[k].ig == p {
                            let k = choose|k: int|
                                0 <= k < i + 1 && !cells@[k].is_collapsed && #[trigger] cells@[k].ig == p;
                            assert(k < i);
                        }
                    }
                }
            }
            i = i + 1;
        }
        index
    }

    /// Adds the cell at `ig` with entropy `entropy`, growing the buckets if needed.
    fn insert(&mut self, ig: Point, entropy: usize)
        requires
            old(self).wf(),
            ig.spec_is_inside_grid(),
            !old(self)@.contains_key(ig),
            1 <= entropy < usize::MAX,
        ensures
            final(self).wf(),
            final(self)@ == old(self)@.insert(ig, entropy as nat),
    {
        proof {
            lemma_cell_index_round_trip(ig);
        }
        while self.buckets.len() <= entropy
            invariant
                self.wf(),
                self@ == old(self)@,
                entropy < usize::MAX,
                self.lowest == old(self).lowest,
                self.memberships == old(self).memberships,
                self.buckets@.len() > entropy + 1 ==> self.buckets@.len() == old(self).buckets@.len(),
            decreases entropy + 1 - self.buckets@.len(),
        {
            let ghost before = self.buckets@;
            self.buckets.push(Vec::new());
            proof {
                assert forall|i: int| 0 <= i < CELL_COUNT && (#[trigger] self.memberships@[i]) is Some implies {
                    let m = self.memberships@[i]->0;
                    &&& 1 <= m.entropy < self.buckets@.len()
                    &&& m.position < self.buckets@[m.entropy as int]@.len()
                    &&& self.buckets@[m.entropy as int]@[m.position as int] == point_of(i)
                } by {
                    assert(before[self.memberships@[i]->0.entropy as int] == self.buckets@[self.memberships@[i]->0.entropy as int]);
                }
                assert forall|e: int, k: int| 0 <= e < self.buckets@.len() && 0 <= k < self.buckets@[e]@.len() implies {
                    let p = #[trigger] self.buckets@[e]@[k];
                    &&& p.spec_is_inside_grid()
                    &&& self.memberships@[spec_cell_index(p)] == Some(Membership { entropy: e as usize, position: k as usize })
                } by {
                    assert(e < before.len());
                    assert(before[e] == self.buckets@[e]);
                }
                if self.lowest != usize::MAX {
                    assert(self.buckets@[self.lowest as int] == before[self.lowest as int]);
                }
                assert(CellEntropyIndex::lowest_is_correct(self.buckets@, self.lowest));
                assert(self@ =~= old(self)@);
            }
        }
        let position = self.buckets[entropy].len();
        let slot = cell_index(ig);
        let ghost buckets_before = self.buckets@;
        let ghost memberships_before = self.memberships@;
        let bucket = &mut self.buckets[entropy];
        bucket.push(ig);
        self.memberships.set(slot, Some(Membership { entropy, position }));
        if entropy < self.lowest {
            self.lowest = entropy;
        }
        proof {
            assert forall|i: int| 0 <= i < CELL_COUNT && (#[trigger] self.memberships@[i]) is Some implies {
                let m = self.memberships@[i]->0;
                &&& 1 <= m.entropy < self.buckets@.len()
                &&& m.position < self.buckets@[m.entropy as int]@.len()
                &&& self.buckets@[m.entropy as int]@[m.position as int] == point_of(i)
            } by {
                if i != slot {
                    let m = self.memberships@[i]->0;
                    assert(memberships_before[i] == self.memberships@[i]);
                    if m.entropy == entropy {
                        assert(self.buckets@[m.entropy as int]@[m.position as int] == buckets_before[m.entropy as int]@[m.position as int]);
                    } else {
                        assert(self.buckets@[m.entropy as int] == buckets_before[m.entropy as int]);
                    }
                }
            }
            assert forall|e: int, k: int| 0 <= e < self.buckets@.len() && 0 <= k < self.buckets@[e]@.len() implies {
                let p = #[trigger] self.buckets@[e]@[k];
                &&& p.spec_is_inside_grid()
                &&& self.memberships@[spec_cell_index(p)] == Some(Membership { entropy: e as usize, position: k as usize })
            } by {
                if e == entropy && k == position {
                } else {
                    let p = self.buckets@[e]@[k];
                    if e == entropy {
                        assert(p == buckets_before[e]@[k]);
                    } else {
                        assert(self.buckets@[e] == buckets_before[e]);
                    }
                    assert(memberships_before[spec_cell_index(p)] == Some(Membership { entropy: e as usize, position: k as usize }));
                    lemma_cell_index_round_trip(p);
                    if spec_cell_index(p) == slot {
                        assert(point_of(spec_cell_index(p)) == ig);
                        assert(memberships_before[slot as int] is None);
                    }
                }
            }
            assert forall|e: int| 0 <= e < self.buckets@.len() && e != entropy implies #[trigger] self.buckets@[e]
                == buckets_before[e] by {
            }
            assert(CellEntropyIndex::lowest_is_correct(self.buckets@, self.lowest));
            assert forall|p: Point| #![auto] self@.contains_key(p) <==> old(self)@.insert(ig, entropy as nat).contains_key(p) by {
                if p.spec_is_inside_grid() {
                    lemma_cell_index_round_trip(p);
                    if spec_cell_index(p) == slot {
                        assert(point_of(spec_cell_index(p)) == p);
                    }
                }
            }
            assert forall|p: Point| #[trigger] self@.contains_key(p) implies self@[p] == old(self)@.insert(ig, entropy as nat)[p] by {
                lemma_cell_index_round_trip(p);
                if spec_cell_index(p) == slot {
                    assert(point_of(spec_cell_index(p)) == p);
                }
            }
            assert(self@ =~= old(self)@.insert(ig, entropy as nat));
        }
    }

    /// Returns the lowest entropy of any non-empty bucket, or `usize::MAX` if every bucket from the first on is empty.
    fn find_lowest(&self) -> (lowest: usize)
        requires
            self.buckets@.len() > 0 ==> self.buckets@[0]@.len() == 0,
        ensures
            CellEntropyIndex::lowest_is_correct(self.buckets@, lowest),
    {
        let mut e: usize = 1;
        while e < self.buckets.len()
            invariant
                1 <= e,
                self.buckets@.len() > 0 ==> self.buckets@[0]@.len() == 0,
                forall|k: int| 0 <= k < e && k < self.buckets@.len() ==> (#[trigger] self.buckets@[k])@.len() == 0,
            decreases self.buckets@.len() - e,
        {
            if self.buckets[e].len() > 0 {
                return e;
            }
            e = e + 1;
        }
        usize::MAX
    }

    /// Removes the cell at `ig` from the index, if it is indexed. The last cell of its bucket takes its place there.
    fn remove(&mut self, ig: Point)
        requires
            old(self).wf(),
            ig.spec_is_inside_grid(),
        ensures
            final(self).wf(),
            final(self)@ == old(self)@.remove(ig),
    {
        proof {
            lemma_cell_index_round_trip(ig);
        }
        let slot = cell_index(ig);
        let membership = match self.memberships[slot] {
            Some(m) => m,
            None => {
                assert(self@ =~= old(self)@.remove(ig));
                return ;
            },
        };
        let ghost buckets_before = self.buckets@;
        let ghost memberships_before = self.memberships@;
        let ghost last_point = buckets_before[membership.entropy as int]@.last();
        let ghost last_position = buckets_before[membership.entropy as int]@.len() - 1;
        self.memberships.set(slot, None);
        let bucket = &mut self.buckets[membership.entropy];
        bucket.swap_remove(membership.position);
        let ghost memberships_mid = self.memberships@;
        if membership.position < self.buckets[membership.entropy].len() {
            let moved = self.buckets[membership.entropy][membership.position];
            proof {
                assert(moved == last_point);
                lemma_cell_index_round_trip(moved);
                assert(memberships_before[spec_cell_index(moved)] == Some(
                    Membership { entropy: membership.entropy, position: last_position as usize },
                ));
                assert(spec_cell_index(moved) != slot) by {
                    if spec_cell_index(moved) == slot {
                        assert(last_position as usize == membership.position);
                    }
                }
            }
            let moved_slot = cell_index(moved);
            self.memberships.set(moved_slot, Some(Membership { entropy: membership.entropy, position: membership.position }));
        }
        if membership.entropy == self.lowest && self.buckets[membership.entropy].len() == 0 {
            proof {
                assert forall|e: int| 0 <= e < self.buckets@.len() && e != membership.entropy implies #[trigger] self.buckets@[e]
                    == buckets_before[e] by {
                }
            }
            self.lowest = self.find_lowest();
        }
        proof {
            let ent = membership.entropy as int;
            let pos = membership.position as int;
            assert(memberships_before[slot as int] == Some(membership));
            assert forall|e: int| 0 <= e < self.buckets@.len() && e != ent implies #[trigger] self.buckets@[e]
                == buckets_before[e] by {
            }
            assert(self.buckets@[ent]@ == buckets_before[ent]@.update(pos, last_point).drop_last());
            assert forall|i: int| 0 <= i < CELL_COUNT && (#[trigger] self.memberships@[i]) is Some implies {
                let m = self.memberships@[i]->0;
                &&& 1 <= m.entropy < self.buckets@.len()
                &&& m.position < self.buckets@[m.entropy as int]@.len()
                &&& self.buckets@[m.entropy as int]@[m.position as int] == point_of(i)
            } by {
                let m = self.memberships@[i]->0;
                if i != slot {
                    if pos < last_position && i == spec_cell_index(last_point) {
                        lemma_cell_index_round_trip(last_point);
                    } else {
                        assert(self.memberships@[i] == memberships_before[i]);
                        let mb = memberships_before[i]->0;
                        if mb.entropy as int == ent {
                            assert(mb.position != pos) by {
                                lemma_point_of_round_trip(i);
                                lemma_point_of_round_trip(slot as int);
                            }
                            if mb.position as int == last_position {
                                lemma_point_of_round_trip(i);
                                lemma_cell_index_round_trip(last_point);
                                assert(buckets_before[ent]@[last_position] == point_of(i));
                            }
                        }
                    }
                }
            }
            assert forall|e: int, k: int| 0 <= e < self.buckets@.len() && 0 <= k < self.buckets@[e]@.len() implies {
                let p = #[trigger] self.buckets@[e]@[k];
                &&& p.spec_is_inside_grid()
                &&& self.memberships@[spec_cell_index(p)] == Some(Membership { entropy: e as usize, position: k as usize })
            } by {
                let p = self.buckets@[e]@[k];
                if e == ent && k == pos {
                    assert(p == last_point);
                    lemma_cell_index_round_trip(last_point);
                } else {
                    assert(p == buckets_before[e]@[k]);
                    assert(memberships_before[spec_cell_index(p)] == Some(Membership { entropy: e as usize, position: k as usize }));
                    lemma_cell_index_round_trip(p);
                    lemma_cell_index_round_trip(ig);
                    if spec_cell_index(p) == slot as int {
                        let mp = Membership { entropy: e as usize, position: k as usize };
                        assert(e < self.buckets.len());
                        assert(k < self.buckets@[e].len());
                        assert(memberships_before[slot as int] == Some(mp));
                        assert(mp == membership);
                        assert(e == ent);
                        assert(k == pos);
                        assert(false);
                    }
                    if pos < last_position {
                        lemma_cell_index_round_trip(last_point);
                        if spec_cell_index(p) == spec_cell_index(last_point) {
                            assert(p == last_point);
                        }
                    }
                }
            }
            if self.lowest != usize::MAX && !(membership.entropy == old(self).lowest && self.buckets@[ent]@.len() == 0) {
                assert(self.lowest == old(self).lowest);
                if self.lowest as int != ent {
                    assert(self.buckets@[self.lowest as int] == buckets_before[self.lowest as int]);
                }
            }
            assert(CellEntropyIndex::lowest_is_correct(self.buckets@, self.lowest));
            assert forall|p: Point| #![auto] self@.contains_key(p) <==> old(self)@.remove(ig).contains_key(p) by {
                if p.spec_is_inside_grid() {
                    lemma_cell_index_round_trip(p);
                    if p != ig {
                        assert(spec_cell_index(p) != slot);
                        if pos < last_position && p == last_point {
                        } else {
                            assert(self.memberships@[spec_cell_index(p)] == memberships_before[spec_cell_index(p)]);
                        }
                    }
                }
            }
            assert forall|p: Point| #[trigger] self@.contains_key(p) implies self@[p] == old(self)@.remove(ig)[p] by {
                lemma_cell_index_round_trip(p);
                if pos < last_position && p == last_point {
                } else {
                    assert(self.memberships@[spec_cell_index(p)] == memberships_before[spec_cell_index(p)]);
                }
            }
            assert(self@ =~= old(self)@.remove(ig));
        }
    }

    /// Brings the index up to date after `cell` changed: it is indexed with its entropy unless it is collapsed.
    pub fn update(&mut self, cell: &Cell)
        requires
            old(self).wf(),
            cell.ig.spec_is_inside_grid(),
            !cell.is_collapsed ==> 1 <= cell.entropy < usize::MAX,
        ensures
            final(self).wf(),
            final(self)@ == if cell.is_collapsed {
                old(self)@.remove(cell.ig)
            } else {
                old(self)@.insert(cell.ig, cell.entropy as nat)
            },
    {
        self.remove(cell.ig);
        if !cell.is_collapsed() {
            self.insert(cell.ig, cell.get_entropy());
            proof {
                assert(old(self)@.remove(cell.ig).insert(cell.ig, cell.entropy as nat) =~= old(self)@.insert(
                    cell.ig,
                    cell.entropy as nat,
                ));
            }
        }
    }

    /// Replaces the whole index with an index of the uncollapsed cells among `cells`, e.g. after restoring a snapshot.
    pub fn rebuild(&mut self, cells: &Vec<Cell>)
        requires
            forall|i: int| 0 <= i < cells@.len() ==> (#[trigger] cells@[i]).ig.spec_is_inside_grid(),
            forall|i: int, j: int| 0 <= i < j < cells@.len() ==> cells@[i].ig != cells@[j].ig,
            forall|i: int|
                0 <= i < cells@.len() && !(#[trigger] cells@[i]).is_collapsed ==> 1 <= cells@[i].entropy
                    < usize::MAX,
        ensures
            final(self).wf(),
            forall|p: Point|
                final(self)@.contains_key(p) <==> exists|i: int|
                    0 <= i < cells@.len() && !cells@[i].is_collapsed && #[trigger] cells@[i].ig == p,
            forall|i: int|
                0 <= i < cells@.len() && !(#[trigger] cells@[i]).is_collapsed ==> final(self)@[cells@[i].ig]
                    == cells@[i].entropy,
    {
        *self = CellEntropyIndex::from_cells(cells);
    }

    /// Chooses one of the indexed cells of the lowest entropy at random, or `None` if no cell is indexed.
    pub fn choose_lowest_entropy_cell(&self, rng: &mut StdRng) -> (chosen: Option<Point>)
        requires
            self.wf(),
        ensures
            chosen.is_none() <==> forall|q: Point| !self@.contains_key(q),
            chosen matches Some(p) ==> self@.contains_key(p) && forall|q: Point|
                #[trigger] self@.contains_key(q) ==> self@[p] <= self@[q],
    {
        if self.lowest >= self.buckets.len() {
            proof {
                self.lemma_lowest_max_means_empty();
            }
            return None;
        }
        let bucket = &self.buckets[self.lowest];
        let index = random_index(rng, bucket.len());
        let p = bucket[index];
        proof {
            lemma_cell_index_round_trip(p);
            assert(self@.contains_key(p));
            assert forall|q: Point| #[trigger] self@.contains_key(q) implies self@[p] <= self@[q] by {
                lemma_cell_index_round_trip(q);
                let m = self.memberships@[spec_cell_index(q)]->0;
                assert(self.buckets@[m.entropy as int]@.len() > 0);
            }
        }
        Some(p)
    }

    /// When `lowest` is not a bucket, no cell is indexed.
    proof fn lemma_lowest_max_means_empty(&self)
        requires
            self.wf(),
            self.lowest >= self.buckets@.len(),
        ensures
            forall|q: Point| !self@.contains_key(q),
    {
        assert forall|p: Point| !self@.contains_key(p) by {
            if self@.contains_key(p) {
                lemma_cell_index_round_trip(p);
                let m = self.memberships@[spec_cell_index(p)]->0;
                assert(self.buckets@[m.entropy as int]@.len() > 0);
            }
        }
    }
}

} // verus!
