use crate::constants::CHUNK_SIZE;
use crate::coords::{is_before, Point};
use crate::object::cell::{lemma_push_contains, lemma_reduced_members, permits, reduced, total_weight, Cell, StateView};
use crate::object::connection::{connection_order, has_neighbours_in_range, Connection};
use crate::object::object_grid::{cell_in, is_grid, same_rows, ObjectGrid, ObjectGridSnapshot};
use crate::object::object_name::ObjectName;
use crate::random::random_index;
use rand::rngs::StdRng;
use vstd::prelude::*;

verus! {

/// The outcome of one iteration of the wave function collapse: every cell was already collapsed, a cell was
/// collapsed and its consequences propagated, or the propagation ran into a contradiction.
#[derive(Clone, Copy, Debug, PartialEq, Eq, Structural)]
pub enum IterationResult {
    Done,
    Incomplete,
    Failure,
}

/// Whether every state has a weight of at least one.
pub open spec fn has_positive_weights(states: Seq<StateView>) -> bool {
    forall|i: int| 0 <= i < states.len() ==> (#[trigger] states[i]).2 >= 1
}

/// Whether every state of `a` is one of the states of `b`.
pub open spec fn states_within(a: Seq<StateView>, b: Seq<StateView>) -> bool {
    forall|i: int| 0 <= i < a.len() ==> b.contains(#[trigger] a[i])
}

/// Whether a cell can take part in the wave function collapse: it has a state, and, while it is not collapsed, each
/// of its states has a positive weight and the weights add up to at most `i32::MAX`, so that one can be drawn at
/// random.
pub open spec fn is_ready_cell(c: Cell) -> bool {
    &&& c.states().len() >= 1
    &&& !c.is_collapsed ==> has_positive_weights(c.states()) && total_weight(c.states()) <= i32::MAX
}

/// Whether the wave function collapse can run on a grid: every cell, and the placeholder for neighbours outside the
/// grid, is ready, and the placeholder lies outside the grid.
pub open spec fn is_ready(grid: ObjectGrid) -> bool {
    &&& grid.wf()
    &&& is_ready_cell(grid.no_neighbours_tile)
    &&& !grid.no_neighbours_tile.ig.spec_is_inside_grid()
    &&& -1000 <= grid.no_neighbours_tile.ig.x <= 1000
    &&& -1000 <= grid.no_neighbours_tile.ig.y <= 1000
    &&& forall|p: Point| p.spec_is_inside_grid() ==> is_ready_cell(#[trigger] grid.cell_at(p))
}

/// Whether the cell at `p` lies within the grid and is not collapsed yet.
pub open spec fn is_open(grid: ObjectGrid, p: Point) -> bool {
    p.spec_is_inside_grid() && !grid.cell_at(p).is_collapsed
}

/// Whether the cell at `p` is open and no open cell has a lower entropy.
pub open spec fn is_lowest_entropy_cell(grid: ObjectGrid, p: Point) -> bool {
    &&& is_open(grid, p)
    &&& forall|q: Point| #[trigger] is_open(grid, q) ==> grid.cell_at(p).entropy <= grid.cell_at(q).entropy
}

/// Whether every cell of the grid is collapsed.
pub open spec fn all_collapsed(grid: ObjectGrid) -> bool {
    forall|p: Point| p.spec_is_inside_grid() ==> (#[trigger] grid.cell_at(p)).is_collapsed
}

/// Whether `p` is among the cells visited before `(x, y)` in row-major order.
pub open spec fn visited(p: Point, x: int, y: int) -> bool {
    p.spec_is_inside_grid() && (p.y < y || (p.y == y && p.x < x))
}

/// A sequence of states with positive weights adds up to at least one, if it is not empty.
pub proof fn lemma_positive_total_weight(states: Seq<StateView>)
    requires
        has_positive_weights(states),
    ensures
        total_weight(states) >= states.len(),
    decreases states.len(),
{
    if states.len() > 0 {
        let init = states.drop_last();
        assert(has_positive_weights(init)) by {
            assert forall|i: int| 0 <= i < init.len() implies (#[trigger] init[i]).2 >= 1 by {
                assert(init[i] == states[i]);
            }
        }
        lemma_positive_total_weight(init);
        assert(states.last() == states[states.len() - 1]);
    }
}

/// Reducing states with positive weights keeps positive weights and does not increase their total.
pub proof fn lemma_reduced_weights(states: Seq<StateView>, reference: Seq<StateView>, side: Connection)
    requires
        has_positive_weights(states),
    ensures
        has_positive_weights(reduced(states, reference, side)),
        total_weight(reduced(states, reference, side)) <= total_weight(states),
        states_within(reduced(states, reference, side), states),
    decreases states.len(),
{
    lemma_reduced_members(states, reference, side);
    let r = reduced(states, reference, side);
    assert forall|i: int| 0 <= i < r.len() implies (#[trigger] r[i]).2 >= 1 by {
        assert(states.contains(r[i]));
        let j = choose|j: int| 0 <= j < states.len() && states[j] == r[i];
        assert(states[j].2 >= 1);
    }
    if states.len() > 0 {
        let init = states.drop_last();
        assert(has_positive_weights(init)) by {
            assert forall|i: int| 0 <= i < init.len() implies (#[trigger] init[i]).2 >= 1 by {
                assert(init[i] == states[i]);
            }
        }
        lemma_reduced_weights(init, reference, side);
        let rest = reduced(init, reference, side);
        assert(states.last() == states[states.len() - 1]);
        if r.len() > rest.len() {
            assert(r == rest.push(states.last()));
            assert(r.drop_last() =~= rest);
        }
    }
}

/// Returns the lowest entropy of an open cell, or `None` if every cell is collapsed.
fn lowest_open_entropy(grid: &ObjectGrid) -> (lowest: Option<usize>)
    requires
        grid.wf(),
    ensures
        lowest is None <==> all_collapsed(*grid),
        lowest matches Some(e) ==> (exists|p: Point| #[trigger] is_open(*grid, p) && grid.cell_at(p).entropy == e)
            && forall|q: Point| #[trigger] is_open(*grid, q) ==> e <= grid.cell_at(q).entropy,
{
    let mut lowest: Option<usize> = None;
    let mut y: i32 = 0;
    while y < CHUNK_SIZE
        invariant
            grid.wf(),
            0 <= y <= CHUNK_SIZE,
            lowest is None ==> forall|q: Point| #[trigger] is_open(*grid, q) ==> !visited(q, 0, y as int),
            lowest matches Some(e) ==> (exists|p: Point| #[trigger] is_open(*grid, p) && visited(p, 0, y as int)
                && grid.cell_at(p).entropy == e) && forall|q: Point|
                #[trigger] is_open(*grid, q) && visited(q, 0, y as int) ==> e <= grid.cell_at(q).entropy,
        decreases CHUNK_SIZE - y,
    {
        let mut x: i32 = 0;
        while x < CHUNK_SIZE
            invariant
                grid.wf(),
                0 <= y < CHUNK_SIZE,
                0 <= x <= CHUNK_SIZE,
                lowest is None ==> forall|q: Point| #[trigger] is_open(*grid, q) ==> !visited(q, x as int, y as int),
                lowest matches Some(e) ==> (exists|p: Point| #[trigger] is_open(*grid, p) && visited(p, x as int, y as int)
                    && grid.cell_at(p).entropy == e) && forall|q: Point|
                    #[trigger] is_open(*grid, q) && visited(q, x as int, y as int) ==> e <= grid.cell_at(q).entropy,
            decreases CHUNK_SIZE - x,
        {
            let ig = Point::new_internal_grid(x, y);
            let cell = &grid.object_grid[y as usize][x as usize];
            proof {
                assert(*cell == grid.cell_at(ig));
            }
            if !cell.is_collapsed {
                let e = cell.entropy;
                match lowest {
                    None => {
                        lowest = Some(e);
                        proof {
                            assert(is_open(*grid, ig) && visited(ig, x + 1, y as int));
                        }
                    },
                    Some(current) => {
                        if e < current {
                            lowest = Some(e);
                            proof {
                                assert(is_open(*grid, ig) && visited(ig, x + 1, y as int));
                            }
                        }
                    },
                }
            }
            x = x + 1;
        }
        y = y + 1;
    }
    proof {
        if lowest is None {
            assert forall|q: Point| q.spec_is_inside_grid() implies (#[trigger] grid.cell_at(q)).is_collapsed by {
                assert(visited(q, 0, CHUNK_SIZE as int));
                if !grid.cell_at(q).is_collapsed {
                    assert(is_open(*grid, q));
                }
            }
        } else {
            assert forall|q: Point| #[trigger] is_open(*grid, q) implies lowest->0 <= grid.cell_at(q).entropy by {
                assert(visited(q, 0, CHUNK_SIZE as int));
            }
            let p = choose|p: Point| #[trigger] is_open(*grid, p) && visited(p, 0, CHUNK_SIZE as int)
                && grid.cell_at(p).entropy == lowest->0;
            assert(is_open(*grid, p));
            if all_collapsed(*grid) {
                assert(grid.cell_at(p).is_collapsed);
            }
        }
    }
    lowest
}

/// Returns the positions of the open cells with the lowest entropy, in row-major order; none if every cell is
/// collapsed.
pub fn get_cells_with_lowest_entropy(grid: &ObjectGrid) -> (cells: Vec<Point>)
    requires
        grid.wf(),
    ensures
        forall|i: int, j: int| 0 <= i < j < cells@.len() ==> is_before(cells@[i], cells@[j]),
        forall|p: Point| #[trigger] cells@.contains(p) <==> is_lowest_entropy_cell(*grid, p),
        cells@.len() == 0 <==> all_collapsed(*grid),
{
    let lowest = lowest_open_entropy(grid);
    let mut cells: Vec<Point> = Vec::new();
    let e = match lowest {
        None => {
            proof {
                assert forall|p: Point| #[trigger] cells@.contains(p) <==> is_lowest_entropy_cell(*grid, p) by {
                    if is_lowest_entropy_cell(*grid, p) {
                        assert(grid.cell_at(p).is_collapsed);
                    }
                }
            }
            return cells;
        },
        Some(e) => e,
    };
    let mut y: i32 = 0;
    while y < CHUNK_SIZE
        invariant
            grid.wf(),
            0 <= y <= CHUNK_SIZE,
            forall|q: Point| #[trigger] is_open(*grid, q) ==> e <= grid.cell_at(q).entropy,
            forall|i: int, j: int| 0 <= i < j < cells@.len() ==> is_before(cells@[i], cells@[j]),
            forall|i: int| 0 <= i < cells@.len() ==> (#[trigger] cells@[i]).y < y,
            forall|p: Point|
                #[trigger] cells@.contains(p) <==> (is_open(*grid, p) && grid.cell_at(p).entropy == e && p.y < y),
        decreases CHUNK_SIZE - y,
    {
        let mut x: i32 = 0;
        while x < CHUNK_SIZE
            invariant
                grid.wf(),
                0 <= y < CHUNK_SIZE,
                0 <= x <= CHUNK_SIZE,
                forall|q: Point| #[trigger] is_open(*grid, q) ==> e <= grid.cell_at(q).entropy,
                forall|i: int, j: int| 0 <= i < j < cells@.len() ==> is_before(cells@[i], cells@[j]),
                forall|i: int| 0 <= i < cells@.len() ==> is_before(#[trigger] cells@[i], Point { x, y }),
                forall|p: Point|
                    #[trigger] cells@.contains(p) <==> (is_open(*grid, p) && grid.cell_at(p).entropy == e && (p.y < y
                        || (p.y == y && p.x < x))),
            decreases CHUNK_SIZE - x,
        {
            let ig = Point::new_internal_grid(x, y);
            let ghost before = cells@;
            let cell = &grid.object_grid[y as usize][x as usize];
            proof {
                assert(*cell == grid.cell_at(ig));
            }
            if !cell.is_collapsed && cell.entropy == e {
                cells.push(ig);
            }
            proof {
                assert forall|p: Point|
                    #[trigger] cells@.contains(p) <==> (is_open(*grid, p) && grid.cell_at(p).entropy == e && (p.y < y
                        || (p.y == y && p.x < x + 1))) by {
                    lemma_push_contains(before, ig, p);
                }
                assert forall|i: int| 0 <= i < cells@.len() implies is_before(
                    #[trigger] cells@[i],
                    Point { x: (x + 1) as i32, y },
                ) by {
                    if i < before.len() {
                        assert(cells@[i] == before[i]);
                        assert(is_before(before[i], Point { x, y }));
                    }
                }
            }
            x = x + 1;
        }
        proof {
            assert forall|p: Point|
                #[trigger] cells@.contains(p) <==> (is_open(*grid, p) && grid.cell_at(p).entropy == e && p.y < y + 1) by {
            }
            assert forall|i: int| 0 <= i < cells@.len() implies (#[trigger] cells@[i]).y < y + 1 by {
                assert(is_before(cells@[i], Point { x: CHUNK_SIZE, y }));
            }
        }
        y = y + 1;
    }
    proof {
        assert forall|p: Point| #[trigger] cells@.contains(p) <==> is_lowest_entropy_cell(*grid, p) by {
            if is_lowest_entropy_cell(*grid, p) {
                assert(e <= grid.cell_at(p).entropy);
                let w = choose|w: Point| #[trigger] is_open(*grid, w) && grid.cell_at(w).entropy == e;
                assert(grid.cell_at(p).entropy <= grid.cell_at(w).entropy);
            }
        }
        let w = choose|w: Point| #[trigger] is_open(*grid, w) && grid.cell_at(w).entropy == e;
        assert(cells@.contains(w));
    }
    cells
}

/// The most cells one iteration propagates a change from before it gives up with [`IterationResult::Failure`].
pub const PROPAGATION_LIMIT: u32 = 1_000_000;

/// Whether the cell at `p` of `grid` is collapsed to one of the states it had in `start`.
pub open spec fn collapsed_to_own_state(start: ObjectGrid, grid: ObjectGrid, p: Point) -> bool {
    &&& grid.cell_at(p).is_collapsed
    &&& grid.cell_at(p).states().len() == 1
    &&& start.cell_at(p).states().contains(grid.cell_at(p).states()[0])
}

/// What a step of the wave function collapse keeps of the grid `start` it began with: the grid stays ready, every
/// cell keeps a selection of its states, collapsed cells are left alone, and no cell but the one at `chosen` becomes
/// collapsed.
pub open spec fn keeps_cells(start: ObjectGrid, grid: ObjectGrid, chosen: Point) -> bool {
    &&& is_ready(grid)
    &&& grid.cg == start.cg
    &&& grid.path@ == start.path@
    &&& grid.no_neighbours_tile == start.no_neighbours_tile
    &&& forall|q: Point|
        q.spec_is_inside_grid() ==> states_within((#[trigger] grid.cell_at(q)).states(), start.cell_at(q).states())
    &&& forall|q: Point|
        q.spec_is_inside_grid() && start.cell_at(q).is_collapsed ==> #[trigger] grid.cell_at(q) == start.cell_at(q)
    &&& forall|q: Point|
        q.spec_is_inside_grid() && q != chosen ==> (#[trigger] grid.cell_at(q)).is_collapsed == start.cell_at(
            q,
        ).is_collapsed
}

/// Whether `s`, pushed for propagation from a cell of `grid`, is a ready, open reduction of the neighbour at its
/// position, or of the placeholder for neighbours outside the grid.
pub open spec fn is_reduced_neighbour(grid: ObjectGrid, s: Cell) -> bool {
    &&& is_ready_cell(s)
    &&& !s.is_collapsed
    &&& if s.ig.spec_is_inside_grid() {
        &&& !grid.cell_at(s.ig).is_collapsed
        &&& states_within(s.states(), grid.cell_at(s.ig).states())
    } else {
        s.ig == grid.no_neighbours_tile.ig
    }
}

/// Whether every cell waiting on the propagation stack may be written to the grid without breaking [`keeps_cells`].
pub open spec fn stack_ok(stack: Seq<Cell>, start: ObjectGrid, chosen: Point) -> bool {
    forall|k: int|
        0 <= k < stack.len() ==> {
            let s = #[trigger] stack[k];
            &&& is_ready_cell(s)
            &&& !s.is_collapsed
            &&& -1000 <= s.ig.x <= 1000
            &&& -1000 <= s.ig.y <= 1000
            &&& s.ig != chosen
            &&& s.ig.spec_is_inside_grid() ==> !start.cell_at(s.ig).is_collapsed && states_within(
                s.states(),
                start.cell_at(s.ig).states(),
            )
        }
}

/// Being a selection of states is transitive.
pub proof fn lemma_states_within_transitive(a: Seq<StateView>, b: Seq<StateView>, c: Seq<StateView>)
    requires
        states_within(a, b),
        states_within(b, c),
    ensures
        states_within(a, c),
{
    assert forall|i: int| 0 <= i < a.len() implies c.contains(#[trigger] a[i]) by {
        assert(b.contains(a[i]));
        let j = choose|j: int| 0 <= j < b.len() && b[j] == a[i];
        assert(c.contains(b[j]));
    }
}

/// The neighbour of `cell` on side `j` of [`connection_order`]: the cell of the grid there, or the placeholder for
/// neighbours outside the grid.
pub open spec fn neighbour_at(grid: ObjectGrid, cell: Cell, j: int) -> Cell {
    let side = connection_order()[j];
    let p = Point { x: (cell.ig.x + side.dx()) as i32, y: (cell.ig.y + side.dy()) as i32 };
    if p.spec_is_inside_grid() {
        grid.cell_at(p)
    } else {
        grid.no_neighbours_tile
    }
}

/// The states that the open neighbour on side `j` of `cell` keeps when reduced against it.
pub open spec fn neighbour_kept(grid: ObjectGrid, cell: Cell, j: int) -> Seq<StateView> {
    reduced(neighbour_at(grid, cell, j).states(), cell.states(), connection_order()[j])
}

/// Whether `cell` agrees with its neighbour on side `j`: an open neighbour keeps a state when reduced against it,
/// and `cell` permits the state of a collapsed neighbour on that side.
pub open spec fn agrees_with_neighbour(grid: ObjectGrid, cell: Cell, j: int) -> bool {
    let n = neighbour_at(grid, cell, j);
    if !n.is_collapsed {
        neighbour_kept(grid, cell, j).len() > 0
    } else {
        permits(cell.states(), connection_order()[j], n.states()[0].0)
    }
}

/// Whether the neighbour on side `j` of `cell` is open and loses a state when reduced against it.
pub open spec fn loses_state(grid: ObjectGrid, cell: Cell, j: int) -> bool {
    let n = neighbour_at(grid, cell, j);
    !n.is_collapsed && neighbour_kept(grid, cell, j).len() != n.states().len()
}

/// The sides among the first `j` on which the neighbour of `cell` loses a state, in order.
pub open spec fn losing_sides(grid: ObjectGrid, cell: Cell, j: int) -> Seq<int>
    decreases j,
{
    if j <= 0 {
        Seq::empty()
    } else if loses_state(grid, cell, j - 1) {
        losing_sides(grid, cell, j - 1).push(j - 1)
    } else {
        losing_sides(grid, cell, j - 1)
    }
}

/// Whether `s` is the neighbour `n` with only the states it keeps when reduced against `cell` on side `side`.
pub open spec fn is_reduced_copy(s: Cell, n: Cell, cell: Cell, side: Connection) -> bool {
    &&& s.states() == reduced(n.states(), cell.states(), side)
    &&& s.entropy == s.states().len()
    &&& s.same_as(Cell { possible_states: s.possible_states, entropy: s.entropy, ..n })
}

/// Reduces the open neighbours of `cell` against it and checks its collapsed neighbours against it, pushing every
/// neighbour that lost a state onto `stack`. Returns `false` as soon as a neighbour is left without a state or a
/// collapsed neighbour does not permit `cell`.
fn propagate_from(grid: &ObjectGrid, cell: &Cell, stack: &mut Vec<Cell>) -> (ok: bool)
    requires
        is_ready(*grid),
        has_neighbours_in_range(cell.ig),
    ensures
        final(stack)@.len() >= old(stack)@.len(),
        final(stack)@.subrange(0, old(stack)@.len() as int) == old(stack)@,
        forall|k: int|
            old(stack)@.len() <= k < final(stack)@.len() ==> is_reduced_neighbour(*grid, #[trigger] final(stack)@[k]),
        ok == forall|j: int| 0 <= j < 4 ==> #[trigger] agrees_with_neighbour(*grid, *cell, j),
        ok ==> final(stack)@.len() == old(stack)@.len() + losing_sides(*grid, *cell, 4).len(),
        ok ==> forall|k: int|
            old(stack)@.len() <= k < final(stack)@.len() ==> is_reduced_copy(
                #[trigger] final(stack)@[k],
                neighbour_at(*grid, *cell, losing_sides(*grid, *cell, 4)[k - old(stack)@.len()]),
                *cell,
                connection_order()[losing_sides(*grid, *cell, 4)[k - old(stack)@.len()]],
            ),
{
    let neighbours = grid.get_neighbours(cell);
    let ghost start = stack@;
    let mut i: usize = 0;
    while i < neighbours.len()
        invariant
            is_ready(*grid),
            has_neighbours_in_range(cell.ig),
            neighbours@.len() == 4,
            forall|j: int|
                0 <= j < 4 ==> {
                    let n = *(#[trigger] neighbours@[j]).1;
                    ||| n == grid.no_neighbours_tile
                    ||| (n.ig.spec_is_inside_grid() && n == grid.cell_at(n.ig))
                },
            i <= 4,
            start == old(stack)@,
            stack@.len() >= start.len(),
            stack@.subrange(0, start.len() as int) == start,
            forall|k: int| start.len() <= k < stack@.len() ==> is_reduced_neighbour(*grid, #[trigger] stack@[k]),
            forall|j: int| 0 <= j < i ==> #[trigger] agrees_with_neighbour(*grid, *cell, j),
            stack@.len() == start.len() + losing_sides(*grid, *cell, i as int).len(),
            forall|k: int|
                start.len() <= k < stack@.len() ==> is_reduced_copy(
                    #[trigger] stack@[k],
                    neighbour_at(*grid, *cell, losing_sides(*grid, *cell, i as int)[k - start.len()]),
                    *cell,
                    connection_order()[losing_sides(*grid, *cell, i as int)[k - start.len()]],
                ),
            forall|j: int|
                0 <= j < 4 ==> (#[trigger] neighbours@[j]).0 == connection_order()[j].spec_opposite() && *neighbours@[j].1
                    == neighbour_at(*grid, *cell, j),
        decreases 4 - i,
    {
        let (connection, neighbour) = neighbours[i];
        let ghost n = *neighbour;
        let ghost sides = losing_sides(*grid, *cell, i as int);
        proof {
            assert(n == *neighbours@[i as int].1);
            if n.ig.spec_is_inside_grid() {
                assert(n == grid.cell_at(n.ig));
            }
            assert(n == neighbour_at(*grid, *cell, i as int));
            assert(connection.spec_opposite() == connection_order()[i as int]);
        }
        if !neighbour.is_collapsed {
            match neighbour.clone_and_reduce(cell, &connection) {
                Ok((changed, reduced_cell)) => {
                    if changed {
                        let ghost before = stack@;
                        proof {
                            lemma_reduced_weights(n.states(), cell.states(), connection.spec_opposite());
                        }
                        stack.push(reduced_cell);
                        proof {
                            assert(stack@.subrange(0, start.len() as int) =~= before.subrange(0, start.len() as int));
                            assert forall|k: int| start.len() <= k < stack@.len() implies is_reduced_neighbour(
                                *grid,
                                #[trigger] stack@[k],
                            ) by {
                                if k < before.len() {
                                    assert(stack@[k] == before[k]);
                                }
                            }
                            assert(loses_state(*grid, *cell, i as int));
                            assert(losing_sides(*grid, *cell, i + 1) == sides.push(i as int));
                            assert forall|k: int| start.len() <= k < stack@.len() implies is_reduced_copy(
                                #[trigger] stack@[k],
                                neighbour_at(*grid, *cell, losing_sides(*grid, *cell, i + 1)[k - start.len()]),
                                *cell,
                                connection_order()[losing_sides(*grid, *cell, i + 1)[k - start.len()]],
                            ) by {
                                if k < before.len() {
                                    assert(stack@[k] == before[k]);
                                }
                            }
                        }
                    } else {
                        proof {
                            assert(!loses_state(*grid, *cell, i as int));
                            assert(losing_sides(*grid, *cell, i + 1) == sides);
                        }
                    }
                },
                Err(_) => {
                    proof {
                        assert(!agrees_with_neighbour(*grid, *cell, i as int));
                    }
                    return false;
                },
            }
        } else {
            match neighbour.verify(cell, &connection) {
                Ok(()) => {},
                Err(_) => {
                    proof {
                        assert(!agrees_with_neighbour(*grid, *cell, i as int));
                    }
                    return false;
                },
            }
            proof {
                assert(!loses_state(*grid, *cell, i as int));
                assert(losing_sides(*grid, *cell, i + 1) == sides);
            }
        }
        i = i + 1;
    }
    true
}

/// One iteration of the wave function collapse. Observation: finds the open cells with the lowest entropy and
/// returns [`IterationResult::Done`] if there are none. Collapse: collapses one of them, chosen at random, to one of
/// its states. Propagation: writes each changed cell to the grid and reduces its open neighbours against it, again
/// and again, checking collapsed neighbours on the way; a neighbour left without a state, a collapsed neighbour that
/// does not permit the cell, or more than [`PROPAGATION_LIMIT`] propagation steps give
/// [`IterationResult::Failure`], otherwise the result is [`IterationResult::Incomplete`].
pub fn iterate(rng: &mut StdRng, grid: &mut ObjectGrid) -> (result: IterationResult)
    requires
        is_ready(*old(grid)),
    ensures
        is_ready(*final(grid)),
        (result == IterationResult::Done) <==> all_collapsed(*old(grid)),
        result == IterationResult::Done ==> *final(grid) == *old(grid),
        result != IterationResult::Done ==> exists|p: Point|
            #[trigger] is_lowest_entropy_cell(*old(grid), p) && collapsed_to_own_state(*old(grid), *final(grid), p)
                && keeps_cells(*old(grid), *final(grid), p),
        harmonious(*old(grid)) && !all_collapsed(*old(grid)) ==> result == IterationResult::Incomplete && harmonious(
            *final(grid),
        ) && open_count(*final(grid)) + 1 == open_count(*old(grid)),
{
    let ghost start = *grid;
    let cells = get_cells_with_lowest_entropy(grid);
    if cells.len() == 0 {
        return IterationResult::Done;
    }
    let index = random_index(rng, cells.len());
    let p = cells[index];
    proof {
        assert(cells@.contains(p));
    }
    let mut chosen = match grid.get_cell(&p) {
        Some(c) => c.copy(),
        None => {
            return IterationResult::Done;
        },
    };
    proof {
        assert(is_ready_cell(start.cell_at(p)));
        lemma_positive_total_weight(chosen.states());
    }
    chosen.collapse(rng);
    proof {
        let choice = choose|choice: int|
            {
                &&& 0 <= choice < start.cell_at(p).states().len()
                &&& (start.cell_at(p).states().len() == 1 ==> choice == 0)
                &&& chosen.states() == seq![start.cell_at(p).states()[choice]]
                &&& chosen.index == start.cell_at(p).states()[choice].1
            };
        assert(chosen.states()[0] == start.cell_at(p).states()[choice]);
    }
    grid.set_cell(chosen.copy());
    proof {
        assert forall|q: Point| q.spec_is_inside_grid() implies is_ready_cell(#[trigger] grid.cell_at(q)) by {
            assert(is_ready_cell(start.cell_at(q)));
        }
        assert forall|q: Point| q.spec_is_inside_grid() implies states_within(
            (#[trigger] grid.cell_at(q)).states(),
            start.cell_at(q).states(),
        ) by {
            if q == p {
                assert(grid.cell_at(q).states()[0] == chosen.states()[0]);
            }
        }
        assert(keeps_cells(start, *grid, p));
    }
    let mut stack: Vec<Cell> = Vec::new();
    proof {
        lemma_open_cell_means_not_all_collapsed(start, p);
        if harmonious(start) {
            let c0 = start.cell_at(p);
            assert(c0.states().len() == 1);
            assert(chosen.states() =~= c0.states());
            assert(grid.cell_at(p).same_as(chosen));
            assert forall|q: Point| q.spec_is_inside_grid() && q != p implies #[trigger] grid.cell_at(q)
                == start.cell_at(q) by {
                assert(cell_in(grid.object_grid@, q.x as int, q.y as int) == cell_in(
                    start.object_grid@,
                    q.x as int,
                    q.y as int,
                ));
            }
            lemma_harmony_step(start, *grid, chosen, p);
        }
    }
    if !propagate_from(grid, &chosen, &mut stack) {
        return IterationResult::Failure;
    }
    proof {
        assert forall|k: int| 0 <= k < stack@.len() implies {
            let s = #[trigger] stack@[k];
            &&& -1000 <= s.ig.x <= 1000
            &&& -1000 <= s.ig.y <= 1000
            &&& s.ig != p
            &&& s.ig.spec_is_inside_grid() ==> !start.cell_at(s.ig).is_collapsed && states_within(
                s.states(),
                start.cell_at(s.ig).states(),
            )
        } by {
            let s = stack@[k];
            assert(is_reduced_neighbour(*grid, s));
            if s.ig.spec_is_inside_grid() {
                lemma_states_within_transitive(s.states(), grid.cell_at(s.ig).states(), start.cell_at(s.ig).states());
            }
        }
    }
    if stack.len() == 0 {
        return IterationResult::Incomplete;
    }
    proof {
        if harmonious(start) {
            assert(stack@.len() == 0);
        }
    }
    let mut budget: u32 = PROPAGATION_LIMIT;
    while stack.len() > 0
        invariant
            start == *old(grid),
            !harmonious(start),
            is_ready_cell(chosen),
            keeps_cells(start, *grid, p),
            collapsed_to_own_state(start, *grid, p),
            is_lowest_entropy_cell(start, p),
            stack_ok(stack@, start, p),
        decreases budget,
    {
        if budget == 0 {
            proof {
                lemma_open_cell_means_not_all_collapsed(start, p);
            }
            return IterationResult::Failure;
        }
        budget = budget - 1;
        let cell = match stack.pop() {
            Some(c) => c,
            None => {
                return IterationResult::Incomplete;
            },
        };
        let ghost before = *grid;
        grid.set_cell(cell.copy());
        proof {
            assert(stack_ok(stack@, start, p));
            assert forall|q: Point| q.spec_is_inside_grid() implies is_ready_cell(#[trigger] grid.cell_at(q)) by {
                assert(is_ready_cell(before.cell_at(q)));
            }
            assert forall|q: Point| q.spec_is_inside_grid() implies states_within(
                (#[trigger] grid.cell_at(q)).states(),
                start.cell_at(q).states(),
            ) by {
                assert(states_within(before.cell_at(q).states(), start.cell_at(q).states()));
            }
            assert forall|q: Point| q.spec_is_inside_grid() && start.cell_at(q).is_collapsed implies #[trigger] grid.cell_at(q)
                == start.cell_at(q) by {
                assert(before.cell_at(q) == start.cell_at(q));
            }
            assert forall|q: Point| q.spec_is_inside_grid() && q != p implies (#[trigger] grid.cell_at(q)).is_collapsed
                == start.cell_at(q).is_collapsed by {
                assert(before.cell_at(q).is_collapsed == start.cell_at(q).is_collapsed);
            }
            assert(keeps_cells(start, *grid, p));
        }
        let ghost kept = stack@;
        if !propagate_from(grid, &cell, &mut stack) {
            proof {
                lemma_open_cell_means_not_all_collapsed(start, p);
            }
            return IterationResult::Failure;
        }
        proof {
            assert forall|k: int| 0 <= k < stack@.len() implies {
                let s = #[trigger] stack@[k];
                &&& is_ready_cell(s)
                &&& !s.is_collapsed
                &&& -1000 <= s.ig.x <= 1000
                &&& -1000 <= s.ig.y <= 1000
                &&& s.ig != p
                &&& s.ig.spec_is_inside_grid() ==> !start.cell_at(s.ig).is_collapsed && states_within(
                    s.states(),
                    start.cell_at(s.ig).states(),
                )
            } by {
                let s = stack@[k];
                if k < kept.len() {
                    assert(s == kept[k]);
                } else {
                    assert(is_reduced_neighbour(*grid, s));
                    if s.ig.spec_is_inside_grid() {
                        lemma_states_within_transitive(
                            s.states(),
                            grid.cell_at(s.ig).states(),
                            start.cell_at(s.ig).states(),
                        );
                    }
                }
            }
        }
    }
    proof {
        lemma_open_cell_means_not_all_collapsed(start, p);
    }
    IterationResult::Incomplete
}

/// Whether the collapse has nothing left to decide: every cell holds exactly one state and agrees with each of its
/// neighbours (see [`agrees_with_neighbour`]) without taking a state from an open one.
pub open spec fn harmonious(grid: ObjectGrid) -> bool {
    &&& forall|p: Point| p.spec_is_inside_grid() ==> (#[trigger] grid.cell_at(p)).states().len() == 1
    &&& forall|p: Point, j: int|
        p.spec_is_inside_grid() && 0 <= j < 4 ==> #[trigger] agrees_with_neighbour(grid, grid.cell_at(p), j)
            && !loses_state(grid, grid.cell_at(p), j)
}

/// The number of open cells among the first `n` cells of a grid's rows, in row-major order.
pub open spec fn open_upto(rows: Seq<Vec<Cell>>, n: int) -> nat
    decreases n,
{
    if n <= 0 {
        0
    } else {
        open_upto(rows, n - 1) + if cell_in(rows, (n - 1) % CHUNK_SIZE as int, (n - 1) / CHUNK_SIZE as int).is_collapsed {
            0nat
        } else {
            1nat
        }
    }
}

/// The number of open cells of a grid.
pub open spec fn open_count(grid: ObjectGrid) -> nat {
    open_upto(grid.object_grid@, CHUNK_SIZE * CHUNK_SIZE)
}

/// Collapsing one open cell lowers the number of open cells of every prefix that holds it by one.
proof fn lemma_open_after_collapse(before: Seq<Vec<Cell>>, after: Seq<Vec<Cell>>, p: Point, n: int)
    requires
        p.spec_is_inside_grid(),
        0 <= n <= CHUNK_SIZE * CHUNK_SIZE,
        forall|x: int, y: int|
            0 <= x < CHUNK_SIZE && 0 <= y < CHUNK_SIZE && (x != p.x || y != p.y) ==> #[trigger] cell_in(after, x, y)
                == cell_in(before, x, y),
        !cell_in(before, p.x as int, p.y as int).is_collapsed,
        cell_in(after, p.x as int, p.y as int).is_collapsed,
    ensures
        n <= p.y * CHUNK_SIZE + p.x ==> open_upto(after, n) == open_upto(before, n),
        n > p.y * CHUNK_SIZE + p.x ==> open_upto(after, n) + 1 == open_upto(before, n),
    decreases n,
{
    if n > 0 {
        lemma_open_after_collapse(before, after, p, n - 1);
        let x = (n - 1) % CHUNK_SIZE as int;
        let y = (n - 1) / CHUNK_SIZE as int;
        assert(0 <= x < CHUNK_SIZE && 0 <= y < CHUNK_SIZE);
        assert(n - 1 == y * CHUNK_SIZE + x);
        if x != p.x || y != p.y {
            assert(cell_in(after, x, y) == cell_in(before, x, y));
        }
    }
}

/// There are at most `n` open cells among the first `n`.
proof fn lemma_open_upto_bounded(rows: Seq<Vec<Cell>>, n: int)
    requires
        0 <= n,
    ensures
        open_upto(rows, n) <= n,
    decreases n,
{
    if n > 0 {
        lemma_open_upto_bounded(rows, n - 1);
    }
}

/// Where no cell among the first `n` is open, each of them is collapsed.
proof fn lemma_no_open_cells(rows: Seq<Vec<Cell>>, n: int, q: Point)
    requires
        0 <= n <= CHUNK_SIZE * CHUNK_SIZE,
        open_upto(rows, n) == 0,
        q.spec_is_inside_grid(),
        q.y * CHUNK_SIZE + q.x < n,
    ensures
        cell_in(rows, q.x as int, q.y as int).is_collapsed,
    decreases n,
{
    let x = (n - 1) % CHUNK_SIZE as int;
    let y = (n - 1) / CHUNK_SIZE as int;
    assert(0 <= x < CHUNK_SIZE && 0 <= y < CHUNK_SIZE);
    assert(n - 1 == y * CHUNK_SIZE + x);
    if q.y * CHUNK_SIZE + q.x < n - 1 {
        lemma_no_open_cells(rows, n - 1, q);
    } else {
        assert(q.x == x && q.y == y);
    }
}

/// A grid without open cells is entirely collapsed.
proof fn lemma_open_count_zero(grid: ObjectGrid)
    requires
        open_count(grid) == 0,
    ensures
        all_collapsed(grid),
{
    assert forall|q: Point| q.spec_is_inside_grid() implies (#[trigger] grid.cell_at(q)).is_collapsed by {
        lemma_no_open_cells(grid.object_grid@, CHUNK_SIZE * CHUNK_SIZE, q);
    }
}

/// No side is a losing side where no neighbour loses a state.
proof fn lemma_no_losing_sides(grid: ObjectGrid, cell: Cell, j: int)
    requires
        forall|i: int| 0 <= i < j ==> !loses_state(grid, cell, i),
    ensures
        losing_sides(grid, cell, j).len() == 0,
    decreases j,
{
    if j > 0 {
        lemma_no_losing_sides(grid, cell, j - 1);
    }
}

/// Collapsing an open cell of a grid with nothing left to decide to its only state: it agrees with its neighbours
/// without taking a state from any, and the grid still has nothing left to decide, with one open cell fewer.
proof fn lemma_harmony_step(start: ObjectGrid, grid: ObjectGrid, chosen: Cell, p: Point)
    requires
        start.wf(),
        grid.wf(),
        harmonious(start),
        is_open(start, p),
        chosen.ig == p,
        chosen.states() == start.cell_at(p).states(),
        grid.cell_at(p).ig == p,
        grid.cell_at(p).states() == chosen.states(),
        grid.cell_at(p).is_collapsed,
        grid.no_neighbours_tile == start.no_neighbours_tile,
        forall|q: Point| q.spec_is_inside_grid() && q != p ==> #[trigger] grid.cell_at(q) == start.cell_at(q),
    ensures
        forall|j: int| 0 <= j < 4 ==> #[trigger] agrees_with_neighbour(grid, chosen, j),
        losing_sides(grid, chosen, 4).len() == 0,
        harmonious(grid),
        open_count(grid) + 1 == open_count(start),
{
    let c0 = start.cell_at(p);
    assert(c0.ig == p);
    assert forall|j: int| 0 <= j < 4 implies neighbour_at(grid, chosen, j) == neighbour_at(start, c0, j) by {
        let side = connection_order()[j];
        let q = Point { x: (p.x + side.dx()) as i32, y: (p.y + side.dy()) as i32 };
        assert(q != p);
    }
    assert forall|j: int| 0 <= j < 4 implies #[trigger] agrees_with_neighbour(grid, chosen, j) && !loses_state(
        grid,
        chosen,
        j,
    ) by {
        assert(agrees_with_neighbour(start, start.cell_at(p), j));
        assert(neighbour_at(grid, chosen, j) == neighbour_at(start, c0, j));
    }
    assert forall|i: int| 0 <= i < 4 implies !loses_state(grid, chosen, i) by {
        assert(agrees_with_neighbour(grid, chosen, i) && !loses_state(grid, chosen, i));
    }
    lemma_no_losing_sides(grid, chosen, 4);
    assert forall|q: Point| q.spec_is_inside_grid() implies (#[trigger] grid.cell_at(q)).states().len() == 1 by {
        assert(start.cell_at(q).states().len() == 1);
    }
    assert forall|q: Point, j: int|
        q.spec_is_inside_grid() && 0 <= j < 4 implies #[trigger] agrees_with_neighbour(grid, grid.cell_at(q), j)
        && !loses_state(grid, grid.cell_at(q), j) by {
        let c = grid.cell_at(q);
        assert(agrees_with_neighbour(start, start.cell_at(q), j));
        let side = connection_order()[j];
        let n = Point { x: (q.x + side.dx()) as i32, y: (q.y + side.dy()) as i32 };
        if q == p {
            assert(neighbour_at(grid, c, j) == neighbour_at(grid, chosen, j));
        } else {
            assert(c == start.cell_at(q));
            if n != p || !n.spec_is_inside_grid() {
                assert(neighbour_at(grid, c, j) == neighbour_at(start, c, j));
            } else {
                let before = start.cell_at(p).states();
                lemma_reduced_members(before, c.states(), side);
                assert(reduced(before, c.states(), side).len() == 1);
                let r0 = reduced(before, c.states(), side)[0];
                assert(before.contains(r0));
                assert(before.len() == 1);
                assert(r0 == before[0]);
                assert(grid.cell_at(p).states()[0] == before[0]);
                assert(neighbour_at(grid, c, j) == grid.cell_at(p));
            }
        }
    }
    assert forall|x: int, y: int|
        0 <= x < CHUNK_SIZE && 0 <= y < CHUNK_SIZE && (x != p.x || y != p.y) implies #[trigger] cell_in(
        grid.object_grid@,
        x,
        y,
    ) == cell_in(start.object_grid@, x, y) by {
        let q = Point { x: x as i32, y: y as i32 };
        assert(grid.cell_at(q) == start.cell_at(q));
    }
    lemma_open_after_collapse(start.object_grid@, grid.object_grid@, p, CHUNK_SIZE * CHUNK_SIZE);
}

/// A grid with an open cell is not entirely collapsed.
proof fn lemma_open_cell_means_not_all_collapsed(grid: ObjectGrid, p: Point)
    requires
        is_open(grid, p),
    ensures
        !all_collapsed(grid),
{
    if all_collapsed(grid) {
        assert(grid.cell_at(p).is_collapsed);
    }
}

/// The most iterations [`determine_objects_in_grid`] runs the wave function collapse for.
pub const WFC_ITERATION_LIMIT: u32 = 1_000_000;

/// What the wave function collapse keeps of the grid `start` it began with, for the cells `rows` of a later grid or
/// of a snapshot: every cell is ready and keeps a selection of its states, a collapsed cell of `start` is unchanged,
/// and every other collapsed cell has a single state.
pub open spec fn keeps_rows(start: ObjectGrid, rows: Seq<Vec<Cell>>) -> bool {
    &&& is_grid(rows)
    &&& forall|q: Point|
        q.spec_is_inside_grid() ==> {
            let c = #[trigger] cell_in(rows, q.x as int, q.y as int);
            let s = start.cell_at(q);
            &&& is_ready_cell(c)
            &&& states_within(c.states(), s.states())
            &&& s.is_collapsed ==> c.same_as(s)
            &&& !s.is_collapsed && c.is_collapsed ==> c.states().len() == 1
        }
}

/// Whether a grid is a later state of the wave function collapse that began with `start`.
pub open spec fn continues(start: ObjectGrid, grid: ObjectGrid) -> bool {
    &&& is_ready(grid)
    &&& grid.cg == start.cg
    &&& grid.path@ == start.path@
    &&& grid.no_neighbours_tile == start.no_neighbours_tile
    &&& keeps_rows(start, grid.object_grid@)
}

/// A grid continues its own collapse.
pub proof fn lemma_continues_itself(grid: ObjectGrid)
    requires
        is_ready(grid),
    ensures
        continues(grid, grid),
{
    assert forall|q: Point| q.spec_is_inside_grid() implies {
        let c = #[trigger] cell_in(grid.object_grid@, q.x as int, q.y as int);
        let s = grid.cell_at(q);
        &&& is_ready_cell(c)
        &&& states_within(c.states(), s.states())
        &&& s.is_collapsed ==> c.same_as(s)
        &&& !s.is_collapsed && c.is_collapsed ==> c.states().len() == 1
    } by {
        assert(is_ready_cell(grid.cell_at(q)));
        let c = grid.cell_at(q);
        assert forall|i: int| 0 <= i < c.states().len() implies c.states().contains(#[trigger] c.states()[i]) by {}
    }
}

/// An iteration keeps a grid a continuation of the collapse it belongs to.
pub proof fn lemma_iteration_continues(start: ObjectGrid, before: ObjectGrid, after: ObjectGrid, chosen: Point)
    requires
        continues(start, before),
        is_open(before, chosen),
        collapsed_to_own_state(before, after, chosen),
        keeps_cells(before, after, chosen),
    ensures
        continues(start, after),
{
    assert forall|q: Point| q.spec_is_inside_grid() implies {
        let c = #[trigger] cell_in(after.object_grid@, q.x as int, q.y as int);
        let s = start.cell_at(q);
        &&& is_ready_cell(c)
        &&& states_within(c.states(), s.states())
        &&& s.is_collapsed ==> c.same_as(s)
        &&& !s.is_collapsed && c.is_collapsed ==> c.states().len() == 1
    } by {
        let b = cell_in(before.object_grid@, q.x as int, q.y as int);
        assert(b == before.cell_at(q));
        assert(is_ready_cell(after.cell_at(q)));
        lemma_states_within_transitive(after.cell_at(q).states(), b.states(), start.cell_at(q).states());
        if start.cell_at(q).is_collapsed {
            assert(b.is_collapsed);
            assert(after.cell_at(q) == b);
        }
    }
}

/// Restoring a snapshot of a continuation gives a continuation.
pub proof fn lemma_restore_continues(start: ObjectGrid, before: ObjectGrid, snapshot: Seq<Vec<Cell>>, after: ObjectGrid)
    requires
        continues(start, before),
        keeps_rows(start, snapshot),
        same_rows(after.object_grid@, snapshot),
        after.cg == before.cg,
        after.path == before.path,
        after.no_neighbours_tile == before.no_neighbours_tile,
    ensures
        continues(start, after),
{
    assert forall|y: int, x: int|
        0 <= y < CHUNK_SIZE && 0 <= x < CHUNK_SIZE implies (#[trigger] after.object_grid@[y]@[x]).ig == Point {
        x: x as i32,
        y: y as i32,
    } by {
        assert(snapshot[y]@[x] == cell_in(snapshot, x, y));
        assert(after.object_grid@[y]@[x].same_as(snapshot[y]@[x]));
    }
    assert forall|q: Point| q.spec_is_inside_grid() implies {
        let c = #[trigger] cell_in(after.object_grid@, q.x as int, q.y as int);
        let s = start.cell_at(q);
        &&& is_ready_cell(c)
        &&& states_within(c.states(), s.states())
        &&& s.is_collapsed ==> c.same_as(s)
        &&& !s.is_collapsed && c.is_collapsed ==> c.states().len() == 1
    } by {
        let c = cell_in(after.object_grid@, q.x as int, q.y as int);
        let k = cell_in(snapshot, q.x as int, q.y as int);
        assert(c.same_as(k));
    }
    assert forall|p: Point| p.spec_is_inside_grid() implies is_ready_cell(#[trigger] after.cell_at(p)) by {
        assert(is_ready_cell(cell_in(after.object_grid@, p.x as int, p.y as int)));
    }
}

/// Handles a failed iteration: counts the failure and goes back to an earlier snapshot, the further back the more
/// failures followed one another, dropping that snapshot and all later ones. With no snapshot to go back to, the grid
/// stays as the failed iteration left it.
pub fn handle_failure(grid: &mut ObjectGrid, snapshots: &mut Vec<ObjectGridSnapshot>, iter_error_count: &mut usize)
    requires
        *old(iter_error_count) < usize::MAX,
    ensures
        *final(iter_error_count) == *old(iter_error_count) + 1,
        ({
            let index = if old(snapshots)@.len() >= *final(iter_error_count) {
                old(snapshots)@.len() - *final(iter_error_count)
            } else {
                0
            };
            &&& final(snapshots)@ == old(snapshots)@.subrange(0, index)
            &&& index < old(snapshots)@.len() ==> same_rows(
                final(grid).object_grid@,
                old(snapshots)@[index].object_grid@,
            )
            &&& index >= old(snapshots)@.len() ==> *final(grid) == *old(grid)
        }),
        final(grid).cg == old(grid).cg,
        final(grid).path == old(grid).path,
        final(grid).no_neighbours_tile == old(grid).no_neighbours_tile,
{
    *iter_error_count = *iter_error_count + 1;
    let snapshot_index = snapshots.len().saturating_sub(*iter_error_count);
    if snapshot_index < snapshots.len() {
        grid.restore_from_snapshot(&snapshots[snapshot_index]);
    }
    snapshots.truncate(snapshot_index);
}

/// Handles a successful iteration: every tenth iteration the grid is kept as a snapshot, the collapse goes on while
/// the iteration left open cells, the iteration count goes up and the run of failures ends.
pub fn handle_success(
    grid: &ObjectGrid,
    snapshots: &mut Vec<ObjectGridSnapshot>,
    iter_count: &mut u32,
    has_entropy: &mut bool,
    iter_error_count: &mut usize,
    result: IterationResult,
)
    requires
        *old(iter_count) < u32::MAX,
    ensures
        *old(iter_count) % 10 == 0 ==> final(snapshots)@.len() == old(snapshots)@.len() + 1
            && final(snapshots)@.subrange(0, old(snapshots)@.len() as int) == old(snapshots)@
            && same_rows(final(snapshots)@.last().object_grid@, grid.object_grid@),
        *old(iter_count) % 10 != 0 ==> final(snapshots)@ == old(snapshots)@,
        *final(has_entropy) == (result == IterationResult::Incomplete),
        *final(iter_count) == *old(iter_count) + 1,
        *final(iter_error_count) == 0,
{
    if *iter_count % 10 == 0 {
        snapshots.push(grid.snapshot());
        proof {
            assert(snapshots@.subrange(0, old(snapshots)@.len() as int) =~= old(snapshots)@);
        }
    }
    *has_entropy = result == IterationResult::Incomplete;
    *iter_count = *iter_count + 1;
    *iter_error_count = 0;
}

/// Runs the wave function collapse on the grid: iterates until no open cell is left, handling each failed iteration
/// by going back to a snapshot and each successful one by counting it, for at most `max_iterations` iterations.
/// Returns whether every cell is collapsed, and how many iterations ran: all of `max_iterations` whenever the grid is
/// left incomplete. Pre-collapsed cells are never changed and every other cell keeps a selection of its states,
/// ending with exactly one of them once collapsed.
pub fn collapse_grid(rng: &mut StdRng, grid: &mut ObjectGrid, max_iterations: u32) -> (outcome: (bool, u32))
    requires
        is_ready(*old(grid)),
        max_iterations < u32::MAX,
    ensures
        continues(*old(grid), *final(grid)),
        outcome.0 == all_collapsed(*final(grid)),
        outcome.1 <= max_iterations,
        !outcome.0 ==> outcome.1 == max_iterations,
        all_collapsed(*old(grid)) ==> *final(grid) == *old(grid),
        harmonious(*old(grid)) && max_iterations >= open_count(*old(grid)) ==> outcome.0,
{
    let ghost start = *grid;
    proof {
        lemma_continues_itself(start);
    }
    let mut snapshots: Vec<ObjectGridSnapshot> = Vec::new();
    let mut iter_count: u32 = 1;
    let mut has_entropy = true;
    let mut iter_error_count: usize = 0;
    let mut iterations: u32 = 0;
    while has_entropy && iterations < max_iterations
        invariant
            start == *old(grid),
            continues(start, *grid),
            forall|k: int| 0 <= k < snapshots@.len() ==> keeps_rows(start, (#[trigger] snapshots@[k]).object_grid@),
            iterations <= max_iterations,
            max_iterations < u32::MAX,
            1 <= iter_count <= iterations + 1,
            iter_error_count <= iterations,
            !has_entropy ==> all_collapsed(*grid),
            all_collapsed(start) ==> *grid == start,
            harmonious(start) && has_entropy ==> harmonious(*grid) && iterations + open_count(*grid) == open_count(
                start,
            ),
        decreases max_iterations - iterations,
    {
        let ghost before = *grid;
        let result = iterate(rng, grid);
        proof {
            if result != IterationResult::Done {
                let p = choose|p: Point|
                    #[trigger] is_lowest_entropy_cell(before, p) && collapsed_to_own_state(before, *grid, p)
                        && keeps_cells(before, *grid, p);
                lemma_iteration_continues(start, before, *grid, p);
            }
        }
        if result == IterationResult::Failure {
            let ghost failed = *grid;
            let ghost saved = snapshots@;
            handle_failure(grid, &mut snapshots, &mut iter_error_count);
            proof {
                let index = if saved.len() >= iter_error_count {
                    saved.len() - iter_error_count
                } else {
                    0
                };
                if index < saved.len() {
                    assert(keeps_rows(start, saved[index].object_grid@));
                    lemma_restore_continues(start, failed, saved[index].object_grid@, *grid);
                }
                assert forall|k: int| 0 <= k < snapshots@.len() implies keeps_rows(
                    start,
                    (#[trigger] snapshots@[k]).object_grid@,
                ) by {
                    assert(snapshots@[k] == saved[k]);
                }
            }
        } else {
            let ghost saved = snapshots@;
            handle_success(grid, &mut snapshots, &mut iter_count, &mut has_entropy, &mut iter_error_count, result);
            proof {
                assert forall|k: int| 0 <= k < snapshots@.len() implies keeps_rows(
                    start,
                    (#[trigger] snapshots@[k]).object_grid@,
                ) by {
                    if k < saved.len() {
                        assert(snapshots@[k] == snapshots@.subrange(0, saved.len() as int)[k]);
                    } else {
                        let rows = snapshots@[k].object_grid@;
                        assert(same_rows(rows, grid.object_grid@));
                        assert forall|y: int, x: int|
                            0 <= y < CHUNK_SIZE && 0 <= x < CHUNK_SIZE implies (#[trigger] rows[y]@[x]).ig == Point {
                            x: x as i32,
                            y: y as i32,
                        } by {
                            assert(grid.object_grid@[y]@[x] == cell_in(grid.object_grid@, x, y));
                        }
                        assert forall|q: Point| q.spec_is_inside_grid() implies {
                            let c = #[trigger] cell_in(rows, q.x as int, q.y as int);
                            let s = start.cell_at(q);
                            &&& is_ready_cell(c)
                            &&& states_within(c.states(), s.states())
                            &&& s.is_collapsed ==> c.same_as(s)
                            &&& !s.is_collapsed && c.is_collapsed ==> c.states().len() == 1
                        } by {
                            assert(cell_in(rows, q.x as int, q.y as int).same_as(
                                cell_in(grid.object_grid@, q.x as int, q.y as int),
                            ));
                        }
                    }
                }
            }
        }
        iterations = iterations + 1;
    }
    if has_entropy {
        proof {
            assert(grid.wf());
            if harmonious(start) && max_iterations >= open_count(start) {
                lemma_open_count_zero(*grid);
            }
        }
        (get_cells_with_lowest_entropy(grid).len() == 0, iterations)
    } else {
        (true, iterations)
    }
}

/// Once the collapse has collapsed every cell, each cell shows an object its tile allowed from the start: a cell that
/// was collapsed beforehand is unchanged, and every other cell has exactly one state, one of those it started with.
pub proof fn lemma_completed_collapse(start: ObjectGrid, grid: ObjectGrid)
    requires
        continues(start, grid),
        all_collapsed(grid),
    ensures
        forall|q: Point|
            q.spec_is_inside_grid() ==> {
                let c = #[trigger] grid.cell_at(q);
                let s = start.cell_at(q);
                &&& c.is_collapsed
                &&& s.is_collapsed ==> c.same_as(s)
                &&& !s.is_collapsed ==> c.states().len() == 1 && s.states().contains(c.states()[0])
            },
{
    assert forall|q: Point| q.spec_is_inside_grid() implies {
        let c = #[trigger] grid.cell_at(q);
        let s = start.cell_at(q);
        &&& c.is_collapsed
        &&& s.is_collapsed ==> c.same_as(s)
        &&& !s.is_collapsed ==> c.states().len() == 1 && s.states().contains(c.states()[0])
    } by {
        let c = cell_in(grid.object_grid@, q.x as int, q.y as int);
        assert(c == grid.cell_at(q));
        assert(c.is_collapsed);
    }
}

/// The tile an object may be placed on: the chunk it belongs to and its internal grid position.
#[derive(Clone, Copy, Debug, PartialEq, Eq, Structural)]
pub struct TileData {
    pub chunk_entity: u64,
    pub ig: Point,
}

impl TileData {
    pub fn new(parent_entity: u64, ig: Point) -> (tile_data: TileData)
        ensures
            tile_data == (TileData { chunk_entity: parent_entity, ig }),
    {
        TileData { chunk_entity: parent_entity, ig }
    }
}

/// What is needed to draw the object of a collapsed cell on its tile.
#[derive(Clone, Copy, Debug, PartialEq, Eq, Structural)]
pub struct ObjectData {
    pub name: Option<ObjectName>,
    pub sprite_index: i32,
    pub is_large_sprite: bool,
    pub tile_data: TileData,
}

/// The object of a cell on a tile: the name of its first state, its sprite index, and whether its sprite spans
/// several tiles.
pub open spec fn spec_object_data(cell: Cell, tile_data: TileData) -> ObjectData {
    ObjectData {
        name: Some(cell.states()[0].0),
        sprite_index: cell.index,
        is_large_sprite: cell.states()[0].0.spec_is_multi_tile(),
        tile_data,
    }
}

impl ObjectData {
    /// Returns the object of a cell on a tile (see [`spec_object_data`]).
    pub fn from(cell: &Cell, tile_data: &TileData) -> (object_data: ObjectData)
        requires
            cell.states().len() >= 1,
        ensures
            object_data == spec_object_data(*cell, *tile_data),
    {
        proof {
            assert(cell.states()[0].0 == cell.possible_states@[0].name);
        }
        let object_name = cell.possible_states[0].name;
        ObjectData {
            tile_data: *tile_data,
            sprite_index: cell.index,
            is_large_sprite: object_name.is_multi_tile(),
            name: Some(object_name),
        }
    }
}

/// Whether the tile gets an object: its cell lies in the grid, does not have the transparent sprite index `0`, and,
/// unless the wave function collapse ran, was collapsed beforehand.
pub open spec fn yields_object(grid: ObjectGrid, tile_data: TileData, is_decoration_enabled: bool) -> bool {
    &&& tile_data.ig.spec_is_inside_grid()
    &&& grid.cell_at(tile_data.ig).index != 0
    &&& is_decoration_enabled || grid.cell_at(tile_data.ig).is_collapsed
}

/// The objects of the tiles that get one (see [`yields_object`]), in the order of the tiles.
pub open spec fn objects_of(grid: ObjectGrid, tiles: Seq<TileData>, is_decoration_enabled: bool) -> Seq<ObjectData>
    decreases tiles.len(),
{
    if tiles.len() == 0 {
        Seq::empty()
    } else {
        let rest = objects_of(grid, tiles.drop_last(), is_decoration_enabled);
        if yields_object(grid, tiles.last(), is_decoration_enabled) {
            rest.push(spec_object_data(grid.cell_at(tiles.last().ig), tiles.last()))
        } else {
            rest
        }
    }
}

/// Returns the objects of the tiles that get one (see [`objects_of`]).
pub fn create_object_data(grid: &ObjectGrid, tile_data: &Vec<TileData>, is_decoration_enabled: bool) -> (objects: Vec<
    ObjectData,
>)
    requires
        grid.wf(),
        forall|i: int|
            0 <= i < tile_data@.len() && yields_object(*grid, #[trigger] tile_data@[i], is_decoration_enabled)
                ==> grid.cell_at(tile_data@[i].ig).states().len() >= 1,
    ensures
        objects@ == objects_of(*grid, tile_data@, is_decoration_enabled),
{
    let mut objects: Vec<ObjectData> = Vec::new();
    let mut i: usize = 0;
    while i < tile_data.len()
        invariant
            grid.wf(),
            i <= tile_data@.len(),
            forall|j: int|
                0 <= j < tile_data@.len() && yields_object(*grid, #[trigger] tile_data@[j], is_decoration_enabled)
                    ==> grid.cell_at(tile_data@[j].ig).states().len() >= 1,
            objects@ == objects_of(*grid, tile_data@.subrange(0, i as int), is_decoration_enabled),
        decreases tile_data@.len() - i,
    {
        let td = &tile_data[i];
        proof {
            assert(tile_data@.subrange(0, i + 1).drop_last() =~= tile_data@.subrange(0, i as int));
            assert(tile_data@.subrange(0, i + 1).last() == tile_data@[i as int]);
        }
        match grid.get_cell(&td.ig) {
            Some(cell) => {
                if cell.index != 0 && (is_decoration_enabled || cell.is_collapsed) {
                    proof {
                        assert(yields_object(*grid, tile_data@[i as int], is_decoration_enabled));
                    }
                    objects.push(ObjectData::from(cell, td));
                }
            },
            None => {},
        }
        i = i + 1;
    }
    proof {
        assert(tile_data@.subrange(0, tile_data@.len() as int) =~= tile_data@);
    }
    objects
}

/// Determines the objects of a chunk: runs the wave function collapse on the grid if decoration is enabled (see
/// [`collapse_grid`], for at most [`WFC_ITERATION_LIMIT`] iterations) and returns the objects of the tiles (see
/// [`create_object_data`]). Without decoration the grid is left as it is and only its pre-collapsed cells give
/// objects.
pub fn determine_objects_in_grid(
    rng: &mut StdRng,
    grid: &mut ObjectGrid,
    tile_data: &Vec<TileData>,
    is_decoration_enabled: bool,
) -> (objects: Vec<ObjectData>)
    requires
        is_decoration_enabled ==> is_ready(*old(grid)),
        !is_decoration_enabled ==> old(grid).wf() && forall|i: int|
            0 <= i < tile_data@.len() && yields_object(*old(grid), #[trigger] tile_data@[i], false)
                ==> old(grid).cell_at(tile_data@[i].ig).states().len() >= 1,
    ensures
        !is_decoration_enabled ==> *final(grid) == *old(grid),
        is_decoration_enabled ==> continues(*old(grid), *final(grid)),
        is_decoration_enabled && harmonious(*old(grid)) ==> all_collapsed(*final(grid)),
        objects@ == objects_of(*final(grid), tile_data@, is_decoration_enabled),
{
    if is_decoration_enabled {
        proof {
            lemma_open_upto_bounded(grid.object_grid@, CHUNK_SIZE * CHUNK_SIZE);
        }
        collapse_grid(rng, grid, WFC_ITERATION_LIMIT);
        proof {
            assert forall|i: int|
                0 <= i < tile_data@.len() && yields_object(*grid, #[trigger] tile_data@[i], true)
                    implies grid.cell_at(tile_data@[i].ig).states().len() >= 1 by {
                assert(is_ready_cell(grid.cell_at(tile_data@[i].ig)));
            }
        }
    }
    create_object_data(grid, tile_data, is_decoration_enabled)
}

/// Where the object generation of a chunk stands.
#[derive(Clone, Copy, Debug, PartialEq, Eq, Structural)]
pub enum ObjectGenerationStatus {
    Pending,
    Done,
    Failure,
}

impl Default for ObjectGenerationStatus {
    fn default() -> (status: ObjectGenerationStatus)
        ensures
            status == ObjectGenerationStatus::Pending,
    {
        ObjectGenerationStatus::Pending
    }
}

/// The object grid and tiles of a chunk waiting for its objects to be generated, with the status of that work.
#[derive(Debug)]
pub struct ObjectGenerationDataComponent {
    pub status: ObjectGenerationStatus,
    pub object_grid: ObjectGrid,
    pub tile_data: Vec<TileData>,
}

impl ObjectGenerationDataComponent {
    /// The data of a chunk whose object generation is pending.
    pub fn new(object_grid: ObjectGrid, tile_data: Vec<TileData>) -> (component: ObjectGenerationDataComponent)
        ensures
            component.status == ObjectGenerationStatus::Pending,
            component.object_grid == object_grid,
            component.tile_data == tile_data,
    {
        ObjectGenerationDataComponent { object_grid, tile_data, status: ObjectGenerationStatus::default() }
    }
}

/// The weights of a prefix of states with positive weights add up to at most the weights of all of them.
proof fn lemma_prefix_weight(states: Seq<StateView>, i: int)
    requires
        has_positive_weights(states),
        0 <= i <= states.len(),
    ensures
        total_weight(states.subrange(0, i)) <= total_weight(states),
    decreases states.len(),
{
    if i < states.len() {
        let init = states.drop_last();
        assert(has_positive_weights(init)) by {
            assert forall|j: int| 0 <= j < init.len() implies (#[trigger] init[j]).2 >= 1 by {
                assert(init[j] == states[j]);
            }
        }
        lemma_prefix_weight(init, i);
        assert(init.subrange(0, i) =~= states.subrange(0, i));
        assert(states.last() == states[states.len() - 1]);
    } else {
        assert(states.subrange(0, i) =~= states);
    }
}

/// Returns whether a cell can take part in the wave function collapse (see [`is_ready_cell`]).
pub fn is_cell_ready(cell: &Cell) -> (ready: bool)
    ensures
        ready == is_ready_cell(*cell),
{
    let ghost states = cell.states();
    let n = cell.possible_states.len();
    if n == 0 {
        return false;
    }
    if cell.is_collapsed {
        return true;
    }
    let mut total: i64 = 0;
    let mut i: usize = 0;
    while i < n
        invariant
            states == cell.states(),
            !cell.is_collapsed,
            n == states.len(),
            i <= n,
            0 <= total <= i32::MAX,
            total == total_weight(states.subrange(0, i as int)),
            has_positive_weights(states.subrange(0, i as int)),
        decreases n - i,
    {
        let w = cell.possible_states[i].weight;
        proof {
            assert(states[i as int].2 == w);
            assert(states.subrange(0, i + 1).drop_last() =~= states.subrange(0, i as int));
            assert(states.subrange(0, i + 1).last() == states[i as int]);
        }
        if w < 1 {
            proof {
                assert(!has_positive_weights(states)) by {
                    assert(states[i as int].2 < 1);
                }
            }
            return false;
        }
        total = total + w as i64;
        if total > i32::MAX as i64 {
            proof {
                assert(total_weight(states.subrange(0, i + 1)) == total_weight(states.subrange(0, i as int)) + w);
                if has_positive_weights(states) {
                    lemma_prefix_weight(states, i + 1);
                }
            }
            return false;
        }
        proof {
            assert forall|j: int| 0 <= j < i + 1 implies (#[trigger] states.subrange(0, i + 1)[j]).2 >= 1 by {
                if j < i {
                    assert(states.subrange(0, i + 1)[j] == states.subrange(0, i as int)[j]);
                }
            }
        }
        i = i + 1;
    }
    proof {
        assert(states.subrange(0, n as int) =~= states);
    }
    true
}

/// Returns whether the wave function collapse can run on a grid (see [`is_ready`]).
pub fn is_grid_ready(grid: &ObjectGrid) -> (ready: bool)
    ensures
        ready == is_ready(*grid),
{
    let nnt = &grid.no_neighbours_tile;
    if !is_cell_ready(nnt) || !nnt.ig.is_outside_grid() || nnt.ig.x < -1000 || nnt.ig.x > 1000 || nnt.ig.y < -1000
        || nnt.ig.y > 1000 {
        return false;
    }
    if grid.object_grid.len() != 32 {
        return false;
    }
    let mut y: usize = 0;
    while y < 32
        invariant
            grid.object_grid@.len() == CHUNK_SIZE,
            y <= 32,
            forall|j: int| 0 <= j < y ==> (#[trigger] grid.object_grid@[j])@.len() == CHUNK_SIZE,
            forall|j: int, x: int|
                0 <= j < y && 0 <= x < CHUNK_SIZE ==> (#[trigger] grid.object_grid@[j]@[x]).ig == (Point {
                    x: x as i32,
                    y: j as i32,
                }) && is_ready_cell(grid.object_grid@[j]@[x]),
        decreases 32 - y,
    {
        let row = &grid.object_grid[y];
        if row.len() != 32 {
            return false;
        }
        let mut x: usize = 0;
        while x < 32
            invariant
                grid.object_grid@.len() == CHUNK_SIZE,
                y < 32,
                *row == grid.object_grid@[y as int],
                row@.len() == CHUNK_SIZE,
                x <= 32,
                forall|j: int| 0 <= j < y ==> (#[trigger] grid.object_grid@[j])@.len() == CHUNK_SIZE,
                forall|j: int, c: int|
                    0 <= j < y && 0 <= c < CHUNK_SIZE ==> (#[trigger] grid.object_grid@[j]@[c]).ig == (Point {
                        x: c as i32,
                        y: j as i32,
                    }) && is_ready_cell(grid.object_grid@[j]@[c]),
                forall|c: int|
                    0 <= c < x ==> (#[trigger] row@[c]).ig == (Point { x: c as i32, y: y as i32 }) && is_ready_cell(
                        row@[c],
                    ),
            decreases 32 - x,
        {
            let cell = &row[x];
            if cell.ig.x != x as i32 || cell.ig.y != y as i32 || !is_cell_ready(cell) {
                proof {
                    assert(!is_ready(*grid)) by {
                        if is_ready(*grid) {
                            let q = Point { x: x as i32, y: y as i32 };
                            assert(grid.object_grid@[y as int]@[x as int].ig == q);
                            assert(is_ready_cell(grid.cell_at(q)));
                        }
                    }
                }
                return false;
            }
            x = x + 1;
        }
        y = y + 1;
    }
    proof {
        assert forall|p: Point| p.spec_is_inside_grid() implies is_ready_cell(#[trigger] grid.cell_at(p)) by {
            assert(grid.object_grid@[p.y as int]@[p.x as int] == grid.cell_at(p));
        }
    }
    true
}

} // verus!
