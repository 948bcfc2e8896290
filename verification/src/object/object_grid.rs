use crate::constants::CHUNK_SIZE;
use crate::coords::Point;
use crate::object::cell::Cell;
use crate::object::connection::{connection_order, get_connection_points, has_neighbours_in_range, Connection};
use vstd::prelude::*;

verus! {

/// The cells of an object grid, kept to be restored after a failed iteration of the wave function collapse.
#[derive(Debug)]
pub struct ObjectGridSnapshot {
    pub object_grid: Vec<Vec<Cell>>,
}

/// A grid of [`Cell`]s, one per tile of a chunk, that keeps track of the possible objects of every tile while objects
/// are generated. Row `y` holds the cells of internal grid positions `(0, y)` to `(CHUNK_SIZE - 1, y)`.
#[derive(Debug)]
pub struct ObjectGrid {
    pub cg: Point,
    pub path: Vec<Point>,
    pub object_grid: Vec<Vec<Cell>>,
    /// Stands in for neighbours outside the grid; it only permits [`crate::object::object_name::ObjectName::Empty`]
    /// next to it, which keeps multi-tile objects from being cut off at the edge.
    pub no_neighbours_tile: Cell,
    pub is_failure_log_level_increased: bool,
}

/// Whether `rows` has the shape of a grid: `CHUNK_SIZE` rows of `CHUNK_SIZE` cells, each cell at its own position.
pub open spec fn is_grid(rows: Seq<Vec<Cell>>) -> bool {
    &&& rows.len() == CHUNK_SIZE
    &&& forall|y: int| 0 <= y < CHUNK_SIZE ==> (#[trigger] rows[y])@.len() == CHUNK_SIZE
    &&& forall|y: int, x: int|
        0 <= y < CHUNK_SIZE && 0 <= x < CHUNK_SIZE ==> (#[trigger] rows[y]@[x]).ig == Point {
            x: x as i32,
            y: y as i32,
        }
}

/// The cell at `(x, y)` of a grid's rows.
pub open spec fn cell_in(rows: Seq<Vec<Cell>>, x: int, y: int) -> Cell {
    rows[y]@[x]
}

/// Whether two grids' rows hold the same values.
pub open spec fn same_rows(a: Seq<Vec<Cell>>, b: Seq<Vec<Cell>>) -> bool {
    &&& a.len() == b.len()
    &&& forall|y: int| 0 <= y < a.len() ==> (#[trigger] a[y])@.len() == b[y]@.len()
    &&& forall|y: int, x: int|
        0 <= y < a.len() && 0 <= x < a[y]@.len() ==> (#[trigger] a[y]@[x]).same_as(b[y]@[x])
}

/// Returns a copy of a row of cells.
fn copy_row(row: &Vec<Cell>) -> (copy: Vec<Cell>)
    ensures
        copy@.len() == row@.len(),
        forall|x: int| 0 <= x < row@.len() ==> (#[trigger] copy@[x]).same_as(row@[x]),
{
    let mut copy: Vec<Cell> = Vec::new();
    let mut x: usize = 0;
    while x < row.len()
        invariant
            x <= row.len(),
            copy@.len() == x,
            forall|i: int| 0 <= i < x ==> (#[trigger] copy@[i]).same_as(row@[i]),
        decreases row.len() - x,
    {
        copy.push(row[x].copy());
        x = x + 1;
    }
    copy
}

/// Returns a copy of the rows of a grid.
fn copy_rows(rows: &Vec<Vec<Cell>>) -> (copy: Vec<Vec<Cell>>)
    ensures
        same_rows(copy@, rows@),
        is_grid(rows@) ==> is_grid(copy@),
{
    let mut copy: Vec<Vec<Cell>> = Vec::new();
    let mut y: usize = 0;
    while y < rows.len()
        invariant
            y <= rows.len(),
            copy@.len() == y,
            forall|i: int| 0 <= i < y ==> (#[trigger] copy@[i])@.len() == rows@[i]@.len(),
            forall|i: int, x: int|
                0 <= i < y && 0 <= x < rows@[i]@.len() ==> (#[trigger] copy@[i]@[x]).same_as(rows@[i]@[x]),
        decreases rows.len() - y,
    {
        copy.push(copy_row(&rows[y]));
        y = y + 1;
    }
    copy
}

/// The sum of the entropies of the cells of a row, each entropy converted to an `i32` as the `as` cast does.
pub open spec fn row_entropy(row: Seq<Cell>) -> int
    decreases row.len(),
{
    if row.len() == 0 {
        0
    } else {
        row_entropy(row.drop_last()) + (row.last().entropy as i32)
    }
}

/// The sum of the entropies of all cells of the rows, each entropy converted to an `i32` as the `as` cast does.
pub open spec fn total_entropy(rows: Seq<Vec<Cell>>) -> int
    decreases rows.len(),
{
    if rows.len() == 0 {
        0
    } else {
        total_entropy(rows.drop_last()) + row_entropy(rows.last()@)
    }
}

/// Whether every partial sum of the entropies, taken row by row and cell by cell, fits in an `i32`.
pub open spec fn entropy_sums_fit(rows: Seq<Vec<Cell>>) -> bool {
    forall|y: int, x: int|
        0 <= y < rows.len() && 0 <= x <= rows[y]@.len() ==> i32::MIN <= #[trigger] total_entropy(rows.subrange(0, y))
            + #[trigger] row_entropy(rows[y]@.subrange(0, x)) <= i32::MAX
}

impl ObjectGrid {
    /// The grid invariant: the cells form a `CHUNK_SIZE` by `CHUNK_SIZE` grid, each at its own position.
    pub open spec fn wf(self) -> bool {
        is_grid(self.object_grid@)
    }

    /// The cell at internal grid position `p`, for a position inside the grid.
    pub open spec fn cell_at(self, p: Point) -> Cell {
        cell_in(self.object_grid@, p.x as int, p.y as int)
    }

    /// A grid of fresh, uninitialised cells for the chunk at `cg`.
    pub fn default(cg: Point) -> (grid: ObjectGrid)
        ensures
            grid.wf(),
            grid.cg == cg,
            grid.path@.len() == 0,
            !grid.is_failure_log_level_increased,
            grid.no_neighbours_tile.is_fresh_at(-1i32, -1i32),
            forall|x: int, y: int|
                0 <= x < CHUNK_SIZE && 0 <= y < CHUNK_SIZE ==> (#[trigger] cell_in(grid.object_grid@, x, y)).is_fresh_at(
                    x as i32,
                    y as i32,
                ),
    {
        let mut rows: Vec<Vec<Cell>> = Vec::new();
        let mut y: i32 = 0;
        while y < CHUNK_SIZE
            invariant
                0 <= y <= CHUNK_SIZE,
                rows@.len() == y,
                forall|i: int| 0 <= i < y ==> (#[trigger] rows@[i])@.len() == CHUNK_SIZE,
                forall|i: int, x: int|
                    0 <= i < y && 0 <= x < CHUNK_SIZE ==> (#[trigger] rows@[i]@[x]).is_fresh_at(x as i32, i as i32),
            decreases CHUNK_SIZE - y,
        {
            let mut row: Vec<Cell> = Vec::new();
            let mut x: i32 = 0;
            while x < CHUNK_SIZE
                invariant
                    0 <= x <= CHUNK_SIZE,
                    0 <= y < CHUNK_SIZE,
                    row@.len() == x,
                    forall|j: int| 0 <= j < x ==> (#[trigger] row@[j]).is_fresh_at(j as i32, y),
                decreases CHUNK_SIZE - x,
            {
                row.push(Cell::new(x, y));
                x = x + 1;
            }
            rows.push(row);
            y = y + 1;
        }
        ObjectGrid {
            cg,
            path: Vec::new(),
            object_grid: rows,
            no_neighbours_tile: Cell::new(-1, -1),
            is_failure_log_level_increased: false,
        }
    }

    /// Returns the cell at `ig`, or `None` if `ig` lies outside the grid.
    pub fn get_cell(&self, ig: &Point) -> (cell: Option<&Cell>)
        requires
            self.wf(),
        ensures
            cell.is_some() <==> ig.spec_is_inside_grid(),
            cell matches Some(c) ==> *c == self.cell_at(*ig),
    {
        if ig.is_outside_grid() {
            return None;
        }
        Some(&self.object_grid[ig.y as usize][ig.x as usize])
    }

    /// Returns the cell at `ig` for updating in place, or `None` if `ig` lies outside the grid.
    pub fn get_cell_mut(&mut self, ig: &Point) -> (cell: Option<&mut Cell>)
        requires
            old(self).wf(),
        ensures
            cell.is_some() <==> ig.spec_is_inside_grid(),
            cell.is_none() ==> *final(self) == *old(self),
            cell matches Some(c) ==> {
                &&& *c == old(self).cell_at(*ig)
                &&& final(self).cell_at(*ig) == *final(c)
                &&& final(self).object_grid@.len() == old(self).object_grid@.len()
                &&& forall|y: int| 0 <= y < CHUNK_SIZE ==> (#[trigger] final(self).object_grid@[y])@.len() == CHUNK_SIZE
                &&& forall|x: int, y: int|
                    0 <= x < CHUNK_SIZE && 0 <= y < CHUNK_SIZE && (x != ig.x || y != ig.y) ==> #[trigger] cell_in(
                        final(self).object_grid@,
                        x,
                        y,
                    ) == cell_in(old(self).object_grid@, x, y)
                &&& final(self).cg == old(self).cg
                &&& final(self).path == old(self).path
                &&& final(self).no_neighbours_tile == old(self).no_neighbours_tile
                &&& final(self).is_failure_log_level_increased == old(self).is_failure_log_level_increased
            },
    {
        if ig.is_outside_grid() {
            return None;
        }
        let row = &mut self.object_grid[ig.y as usize];
        Some(&mut row[ig.x as usize])
    }

    /// Replaces the cell at the position of `cell` with `cell`. A cell outside the grid is ignored.
    pub fn set_cell(&mut self, cell: Cell)
        requires
            old(self).wf(),
        ensures
            final(self).wf(),
            final(self).cg == old(self).cg,
            final(self).path@ == old(self).path@,
            final(self).no_neighbours_tile == old(self).no_neighbours_tile,
            final(self).is_failure_log_level_increased == old(self).is_failure_log_level_increased,
            forall|x: int, y: int|
                0 <= x < CHUNK_SIZE && 0 <= y < CHUNK_SIZE ==> #[trigger] cell_in(final(self).object_grid@, x, y)
                    == if cell.ig.spec_is_inside_grid() && x == cell.ig.x && y == cell.ig.y {
                    cell
                } else {
                    cell_in(old(self).object_grid@, x, y)
                },
    {
        let ig = cell.ig;
        if ig.is_outside_grid() {
            return;
        }
        let y = ig.y as usize;
        let x = ig.x as usize;
        let row = &mut self.object_grid[y];
        row.set(x, cell);
    }

    /// Returns the four neighbours of `cell`, each with the side of the neighbour on which `cell` lies, in the order
    /// top, right, bottom, left. Neighbours outside the grid are represented by the placeholder cell that only
    /// permits empty neighbours.
    pub fn get_neighbours(&self, cell: &Cell) -> (neighbours: Vec<(Connection, &Cell)>)
        requires
            self.wf(),
            has_neighbours_in_range(cell.ig),
        ensures
            neighbours@.len() == 4,
            forall|i: int|
                0 <= i < 4 ==> {
                    let side = connection_order()[i];
                    let p = Point { x: (cell.ig.x + side.dx()) as i32, y: (cell.ig.y + side.dy()) as i32 };
                    &&& (#[trigger] neighbours@[i]).0 == side.spec_opposite()
                    &&& *neighbours@[i].1 == if p.spec_is_inside_grid() {
                        self.cell_at(p)
                    } else {
                        self.no_neighbours_tile
                    }
                },
    {
        let points = get_connection_points(&cell.ig);
        let mut neighbours: Vec<(Connection, &Cell)> = Vec::new();
        let mut i: usize = 0;
        while i < 4
            invariant
                self.wf(),
                has_neighbours_in_range(cell.ig),
                i <= 4,
                neighbours@.len() == i,
                forall|k: int|
                    0 <= k < 4 ==> {
                        &&& (#[trigger] points@[k]).0 == connection_order()[k]
                        &&& points@[k].1.x == cell.ig.x + points@[k].0.dx()
                        &&& points@[k].1.y == cell.ig.y + points@[k].0.dy()
                    },
                forall|k: int|
                    0 <= k < i ==> {
                        let side = connection_order()[k];
                        let p = Point { x: (cell.ig.x + side.dx()) as i32, y: (cell.ig.y + side.dy()) as i32 };
                        &&& (#[trigger] neighbours@[k]).0 == side.spec_opposite()
                        &&& *neighbours@[k].1 == if p.spec_is_inside_grid() {
                            self.cell_at(p)
                        } else {
                            self.no_neighbours_tile
                        }
                    },
            decreases 4 - i,
        {
            let (connection, ig) = points[i];
            let neighbour = match self.get_cell(&ig) {
                Some(c) => c,
                None => &self.no_neighbours_tile,
            };
            neighbours.push((connection.opposite(), neighbour));
            i = i + 1;
        }
        neighbours
    }

    /// Sets the path found by path finding, for use by later generation steps.
    pub fn set_generated_path(&mut self, path: Vec<Point>)
        ensures
            final(self).path@ == path@,
            final(self).object_grid == old(self).object_grid,
            final(self).cg == old(self).cg,
            final(self).no_neighbours_tile == old(self).no_neighbours_tile,
    {
        self.path = path;
    }

    /// Returns the path found by path finding.
    pub fn get_generated_path(&self) -> (path: &Vec<Point>)
        ensures
            path@ == self.path@,
    {
        &self.path
    }

    /// The sum of the entropies of all cells, each converted to an `i32`; the partial sums must fit in an `i32`.
    pub fn calculate_total_entropy(&self) -> (total: i32)
        requires
            entropy_sums_fit(self.object_grid@),
        ensures
            total == total_entropy(self.object_grid@),
    {
        let rows = &self.object_grid;
        let mut total: i32 = 0;
        let mut y: usize = 0;
        while y < rows.len()
            invariant
                y <= rows@.len(),
                total == total_entropy(rows@.subrange(0, y as int)),
                entropy_sums_fit(rows@),
            decreases rows@.len() - y,
        {
            let row = &rows[y];
            let mut x: usize = 0;
            proof {
                assert(row@.subrange(0, 0) =~= Seq::<Cell>::empty());
            }
            while x < row.len()
                invariant
                    y < rows@.len(),
                    row == rows@[y as int],
                    x <= row@.len(),
                    total == total_entropy(rows@.subrange(0, y as int)) + row_entropy(row@.subrange(0, x as int)),
                    entropy_sums_fit(rows@),
                decreases row@.len() - x,
            {
                proof {
                    assert(row@.subrange(0, x as int + 1).drop_last() =~= row@.subrange(0, x as int));
                    assert(row_entropy(row@.subrange(0, x as int + 1)) == row_entropy(row@.subrange(0, x as int))
                        + (row@[x as int].entropy as i32));
                    assert(i32::MIN <= total_entropy(rows@.subrange(0, y as int)) + row_entropy(
                        rows@[y as int]@.subrange(0, x as int + 1),
                    ) <= i32::MAX);
                }
                let entropy = row[x].get_entropy();
                #[verifier::truncate]
                let converted = entropy as i32;
                total = total + converted;
                x = x + 1;
            }
            proof {
                assert(row@.subrange(0, x as int) =~= row@);
                assert(rows@.subrange(0, y as int + 1).drop_last() =~= rows@.subrange(0, y as int));
            }
            y = y + 1;
        }
        proof {
            assert(rows@.subrange(0, y as int) =~= rows@);
        }
        total
    }

    /// Returns a copy of the cells.
    pub fn snapshot(&self) -> (snapshot: ObjectGridSnapshot)
        ensures
            same_rows(snapshot.object_grid@, self.object_grid@),
            self.wf() ==> is_grid(snapshot.object_grid@),
    {
        ObjectGridSnapshot { object_grid: copy_rows(&self.object_grid) }
    }

    /// Replaces the cells with a copy of the snapshot's cells; nothing else changes.
    pub fn restore_from_snapshot(&mut self, snapshot: &ObjectGridSnapshot)
        ensures
            same_rows(final(self).object_grid@, snapshot.object_grid@),
            is_grid(snapshot.object_grid@) ==> final(self).wf(),
            final(self).cg == old(self).cg,
            final(self).path == old(self).path,
            final(self).no_neighbours_tile == old(self).no_neighbours_tile,
            final(self).is_failure_log_level_increased == old(self).is_failure_log_level_increased,
    {
        self.object_grid = copy_rows(&snapshot.object_grid);
    }

    pub fn is_failure_log_level_increased(&self) -> (result: bool)
        ensures
            result == self.is_failure_log_level_increased,
    {
        self.is_failure_log_level_increased
    }

    pub fn increase_failure_log_level(&mut self)
        ensures
            final(self).is_failure_log_level_increased,
            final(self).object_grid == old(self).object_grid,
            final(self).cg == old(self).cg,
            final(self).path == old(self).path,
            final(self).no_neighbours_tile == old(self).no_neighbours_tile,
    {
        self.is_failure_log_level_increased = true;
    }
}

/// Restoring a snapshot gives back the cells the grid had when the snapshot was taken.
pub proof fn lemma_snapshot_restore(initial: Seq<Vec<Cell>>, snapshot: Seq<Vec<Cell>>, restored: Seq<Vec<Cell>>)
    requires
        same_rows(snapshot, initial),
        same_rows(restored, snapshot),
    ensures
        same_rows(restored, initial),
{
    assert forall|y: int, x: int| 0 <= y < restored.len() && 0 <= x < restored[y]@.len() implies (
    #[trigger] restored[y]@[x]).same_as(initial[y]@[x]) by {
        assert(snapshot[y]@[x].same_as(initial[y]@[x]));
    }
}

/// A grid in which only the cell at `p` changed, keeping its position, is still a grid.
pub proof fn lemma_grid_after_cell_update(before: ObjectGrid, after: ObjectGrid, p: Point)
    requires
        before.wf(),
        p.spec_is_inside_grid(),
        after.object_grid@.len() == before.object_grid@.len(),
        forall|y: int| 0 <= y < CHUNK_SIZE ==> (#[trigger] after.object_grid@[y])@.len() == CHUNK_SIZE,
        forall|x: int, y: int|
            0 <= x < CHUNK_SIZE && 0 <= y < CHUNK_SIZE && (x != p.x || y != p.y) ==> #[trigger] cell_in(
                after.object_grid@,
                x,
                y,
            ) == cell_in(before.object_grid@, x, y),
        after.cell_at(p).ig == before.cell_at(p).ig,
    ensures
        after.wf(),
        forall|q: Point| q.spec_is_inside_grid() && q != p ==> #[trigger] after.cell_at(q) == before.cell_at(q),
{
    assert forall|y: int, x: int|
        0 <= y < CHUNK_SIZE && 0 <= x < CHUNK_SIZE implies (#[trigger] after.object_grid@[y]@[x]).ig == Point {
        x: x as i32,
        y: y as i32,
    } by {
        assert(after.object_grid@[y]@[x] == cell_in(after.object_grid@, x, y));
        assert(before.object_grid@[y]@[x] == cell_in(before.object_grid@, x, y));
    }
    assert forall|q: Point| q.spec_is_inside_grid() && q != p implies #[trigger] after.cell_at(q) == before.cell_at(q) by {
        assert(cell_in(after.object_grid@, q.x as int, q.y as int) == cell_in(before.object_grid@, q.x as int, q.y as int));
    }
}

} // verus!
