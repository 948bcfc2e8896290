use crate::constants::CHUNK_SIZE;
use crate::coords::Point;
use crate::object::cell::{lemma_reduced_members, permits, reduced, Cell, PropagationFailure, StateView};
use crate::object::connection::{connection_order, get_connection_points, has_neighbours_in_range, Connection};
use crate::object::object_grid::{cell_in, ObjectGrid};
use crate::object::object_name::ObjectName;
use crate::object::wfc::{
    is_ready, is_ready_cell, is_reduced_copy, lemma_reduced_weights, lemma_states_within_transitive, states_within,
};
use std::collections::VecDeque;
use vstd::prelude::*;

verus! {

/// The number of possible states of the first `n` cells of a grid's rows, in row-major order.
pub open spec fn count_states_upto(rows: Seq<Vec<Cell>>, n: int) -> nat
    decreases n,
{
    if n <= 0 {
        0
    } else {
        count_states_upto(rows, n - 1) + cell_in(rows, (n - 1) % CHUNK_SIZE as int, (n - 1) / CHUNK_SIZE as int).states().len()
    }
}

/// The number of possible states of all cells of a grid.
pub open spec fn count_states(grid: ObjectGrid) -> nat {
    count_states_upto(grid.object_grid@, CHUNK_SIZE * CHUNK_SIZE)
}

/// What validation keeps of the grid `start` it began with: the grid keeps its shape, every cell keeps a selection of
/// its states, collapsed cells are left alone, no cell becomes collapsed, and a grid ready for the wave function
/// collapse stays ready.
pub open spec fn validation_keeps(start: ObjectGrid, grid: ObjectGrid) -> bool {
    &&& grid.wf()
    &&& grid.cg == start.cg
    &&& grid.path@ == start.path@
    &&& grid.no_neighbours_tile == start.no_neighbours_tile
    &&& forall|q: Point|
        q.spec_is_inside_grid() ==> states_within((#[trigger] grid.cell_at(q)).states(), start.cell_at(q).states())
    &&& forall|q: Point|
        q.spec_is_inside_grid() && start.cell_at(q).is_collapsed ==> #[trigger] grid.cell_at(q) == start.cell_at(q)
    &&& forall|q: Point|
        q.spec_is_inside_grid() ==> (#[trigger] grid.cell_at(q)).is_collapsed == start.cell_at(q).is_collapsed
    &&& is_ready(start) ==> is_ready(grid)
}

/// Whether `c` is a reduction of the open cell at its position in `grid` that lost at least one state.
pub open spec fn is_reduction_of(grid: ObjectGrid, c: Cell) -> bool {
    &&& c.ig.spec_is_inside_grid()
    &&& !grid.cell_at(c.ig).is_collapsed
    &&& !c.is_collapsed
    &&& states_within(c.states(), grid.cell_at(c.ig).states())
    &&& c.states().len() < grid.cell_at(c.ig).states().len()
    &&& is_ready_cell(grid.cell_at(c.ig)) ==> is_ready_cell(c)
}

/// Changing one cell of a grid to one with fewer states lowers the number of states of every prefix that holds it,
/// and leaves the others alone.
proof fn lemma_count_after_reduction(before: Seq<Vec<Cell>>, after: Seq<Vec<Cell>>, p: Point, n: int)
    requires
        p.spec_is_inside_grid(),
        0 <= n <= CHUNK_SIZE * CHUNK_SIZE,
        forall|x: int, y: int|
            0 <= x < CHUNK_SIZE && 0 <= y < CHUNK_SIZE && (x != p.x || y != p.y) ==> #[trigger] cell_in(after, x, y)
                == cell_in(before, x, y),
        cell_in(after, p.x as int, p.y as int).states().len() < cell_in(before, p.x as int, p.y as int).states().len(),
    ensures
        n <= p.y * CHUNK_SIZE + p.x ==> count_states_upto(after, n) == count_states_upto(before, n),
        n > p.y * CHUNK_SIZE + p.x ==> count_states_upto(after, n) < count_states_upto(before, n),
    decreases n,
{
    if n > 0 {
        lemma_count_after_reduction(before, after, p, n - 1);
        let x = (n - 1) % CHUNK_SIZE as int;
        let y = (n - 1) / CHUNK_SIZE as int;
        assert(0 <= x < CHUNK_SIZE && 0 <= y < CHUNK_SIZE);
        assert(n - 1 == y * CHUNK_SIZE + x);
        if x != p.x || y != p.y {
            assert(cell_in(after, x, y) == cell_in(before, x, y));
        }
    }
}

/// Validation of one grid followed by validation of the result is a validation of the first grid.
proof fn lemma_validation_keeps_transitive(a: ObjectGrid, b: ObjectGrid, c: ObjectGrid)
    requires
        validation_keeps(a, b),
        validation_keeps(b, c),
    ensures
        validation_keeps(a, c),
{
    assert forall|q: Point| q.spec_is_inside_grid() implies states_within(
        (#[trigger] c.cell_at(q)).states(),
        a.cell_at(q).states(),
    ) by {
        lemma_states_within_transitive(c.cell_at(q).states(), b.cell_at(q).states(), a.cell_at(q).states());
    }
    assert forall|q: Point| q.spec_is_inside_grid() && a.cell_at(q).is_collapsed implies #[trigger] c.cell_at(q)
        == a.cell_at(q) by {
        assert(b.cell_at(q) == a.cell_at(q));
    }
    assert forall|q: Point| q.spec_is_inside_grid() implies (#[trigger] c.cell_at(q)).is_collapsed == a.cell_at(
        q,
    ).is_collapsed by {
        assert(b.cell_at(q).is_collapsed == a.cell_at(q).is_collapsed);
    }
}

/// Writing a reduction of an open cell to the grid is a validation step.
proof fn lemma_reduction_step(before: ObjectGrid, after: ObjectGrid, updated: Cell)
    requires
        before.wf(),
        is_reduction_of(before, updated),
        after.wf(),
        after.cg == before.cg,
        after.path@ == before.path@,
        after.no_neighbours_tile == before.no_neighbours_tile,
        forall|x: int, y: int|
            0 <= x < CHUNK_SIZE && 0 <= y < CHUNK_SIZE ==> #[trigger] cell_in(after.object_grid@, x, y)
                == if x == updated.ig.x && y == updated.ig.y {
                updated
            } else {
                cell_in(before.object_grid@, x, y)
            },
    ensures
        validation_keeps(before, after),
{
    assert forall|q: Point| q.spec_is_inside_grid() implies states_within(
        (#[trigger] after.cell_at(q)).states(),
        before.cell_at(q).states(),
    ) by {
        let c = after.cell_at(q);
        if q != updated.ig {
            assert(c == before.cell_at(q));
            assert forall|i: int| 0 <= i < c.states().len() implies c.states().contains(#[trigger] c.states()[i]) by {}
        }
    }
    if is_ready(before) {
        assert forall|q: Point| q.spec_is_inside_grid() implies is_ready_cell(#[trigger] after.cell_at(q)) by {
            assert(is_ready_cell(before.cell_at(q)));
        }
    }
}

/// Writing a reduction of an open cell of `base` to a validation of `base` is a validation of `base`.
proof fn lemma_edge_step(base: ObjectGrid, before: ObjectGrid, after: ObjectGrid, updated: Cell)
    requires
        validation_keeps(base, before),
        updated.ig.spec_is_inside_grid(),
        !base.cell_at(updated.ig).is_collapsed,
        !updated.is_collapsed,
        states_within(updated.states(), base.cell_at(updated.ig).states()),
        is_ready_cell(base.cell_at(updated.ig)) ==> is_ready_cell(updated),
        after.wf(),
        after.cg == before.cg,
        after.path@ == before.path@,
        after.no_neighbours_tile == before.no_neighbours_tile,
        forall|x: int, y: int|
            0 <= x < CHUNK_SIZE && 0 <= y < CHUNK_SIZE ==> #[trigger] cell_in(after.object_grid@, x, y)
                == if x == updated.ig.x && y == updated.ig.y {
                updated
            } else {
                cell_in(before.object_grid@, x, y)
            },
    ensures
        validation_keeps(base, after),
{
    assert forall|q: Point| q.spec_is_inside_grid() && q != updated.ig implies #[trigger] after.cell_at(q)
        == before.cell_at(q) by {}
    assert forall|q: Point| q.spec_is_inside_grid() implies states_within(
        (#[trigger] after.cell_at(q)).states(),
        base.cell_at(q).states(),
    ) by {
        if q != updated.ig {
            assert(after.cell_at(q) == before.cell_at(q));
        }
    }
    assert forall|q: Point| q.spec_is_inside_grid() implies (#[trigger] after.cell_at(q)).is_collapsed == base.cell_at(
        q,
    ).is_collapsed by {
        if q != updated.ig {
            assert(after.cell_at(q) == before.cell_at(q));
        }
    }
    assert forall|q: Point| q.spec_is_inside_grid() && base.cell_at(q).is_collapsed implies #[trigger] after.cell_at(q)
        == base.cell_at(q) by {
        assert(q != updated.ig);
        assert(after.cell_at(q) == before.cell_at(q));
    }
    if is_ready(base) {
        assert forall|q: Point| q.spec_is_inside_grid() implies is_ready_cell(#[trigger] after.cell_at(q)) by {
            if q != updated.ig {
                assert(after.cell_at(q) == before.cell_at(q));
                assert(is_ready_cell(before.cell_at(q)));
            } else {
                assert(is_ready_cell(base.cell_at(q)));
            }
        }
    }
}

/// The point next to `p` on side `j` of [`connection_order`].
pub open spec fn side_point(p: Point, j: int) -> Point {
    Point { x: (p.x + connection_order()[j].dx()) as i32, y: (p.y + connection_order()[j].dy()) as i32 }
}

/// The states that the edge cell `c` keeps when reduced against the placeholder for neighbours outside the grid,
/// lying on side `j` of it.
pub open spec fn edge_kept(c: Cell, placeholder: Cell, j: int) -> Seq<StateView> {
    reduced(c.states(), placeholder.states(), connection_order()[j].spec_opposite())
}

/// Whether the edge cell `c` keeps a state on each of its sides that face outside the grid.
pub open spec fn edge_cell_ok(c: Cell, placeholder: Cell) -> bool {
    forall|j: int|
        0 <= j < 4 && !side_point(c.ig, j).spec_is_inside_grid() ==> #[trigger] edge_kept(c, placeholder, j).len() > 0
}

/// Whether the edge cell `c` loses a state on side `j`, which faces outside the grid.
pub open spec fn edge_changes(c: Cell, placeholder: Cell, j: int) -> bool {
    !side_point(c.ig, j).spec_is_inside_grid() && edge_kept(c, placeholder, j).len() != c.states().len()
}

/// The last of the first `n` sides on which the edge cell `c` loses a state, or `-1` if there is none.
pub open spec fn last_edge_change(c: Cell, placeholder: Cell, n: int) -> int
    decreases n,
{
    if n <= 0 {
        -1
    } else if edge_changes(c, placeholder, n - 1) {
        n - 1
    } else {
        last_edge_change(c, placeholder, n - 1)
    }
}

/// Whether none of the first `n` queued cells lies at `q`.
pub open spec fn not_queued_before(queue: Seq<Cell>, n: int, q: Point) -> bool {
    forall|k: int| 0 <= k < n ==> queue[k].ig != q
}

/// Whether no two cells lie at the same position.
pub open spec fn distinct_positions(cells: Seq<Cell>) -> bool {
    forall|i: int, j: int| 0 <= i < j < cells.len() ==> cells[i].ig != cells[j].ig
}

/// The cell at the position of the edge cell `c` after it is reduced against the placeholder on each of its sides
/// that face outside the grid, each time starting from `c`: the reduction on the last side that removed a state, or
/// the cell `before` if none did.
pub open spec fn edge_result(cell: Cell, c: Cell, placeholder: Cell, before: Cell) -> bool {
    let s = last_edge_change(c, placeholder, 4);
    if s >= 0 {
        is_reduced_copy(cell, c, placeholder, connection_order()[s].spec_opposite())
    } else {
        cell == before
    }
}

/// Whether `reference` permits every one of `states` on side `side`.
pub open spec fn permits_all(reference: Seq<StateView>, side: Connection, states: Seq<StateView>) -> bool {
    forall|i: int| 0 <= i < states.len() ==> permits(reference, side, #[trigger] states[i].0)
}

/// Whether the cell at `q` permits every state of its open neighbours on its first `n` sides.
pub open spec fn settled_upto(grid: ObjectGrid, q: Point, n: int) -> bool {
    forall|j: int|
        0 <= j < n && side_point(q, j).spec_is_inside_grid() && !grid.cell_at(side_point(q, j)).is_collapsed
            ==> #[trigger] permits_all(
            grid.cell_at(q).states(),
            connection_order()[j],
            grid.cell_at(side_point(q, j)).states(),
        )
}

/// Whether the cell at `q` permits every state of all its open neighbours: reducing them against it removes
/// nothing.
pub open spec fn settled_at(grid: ObjectGrid, q: Point) -> bool {
    settled_upto(grid, q, 4)
}

/// Whether a queued cell lies at `q` with the states that the grid holds there.
pub open spec fn pending(queue: Seq<Cell>, grid: ObjectGrid, q: Point) -> bool {
    exists|k: int| 0 <= k < queue.len() && queue[k].ig == q && #[trigger] queue[k].states() == grid.cell_at(q).states()
}

/// Whether propagation has to settle the cell at `q`: it lost states since `start`, or it was queued with the
/// states it had then.
pub open spec fn touched(start: ObjectGrid, queue: Seq<Cell>, grid: ObjectGrid, q: Point) -> bool {
    ||| grid.cell_at(q).states() != start.cell_at(q).states()
    ||| exists|k: int| 0 <= k < queue.len() && queue[k].ig == q && #[trigger] queue[k].states() == start.cell_at(q).states()
}

/// What holds while the neighbours of the dequeued cell `c` are reduced against it, after its first `i` sides:
/// every cell to settle is queued with its states, or settled, or it is `c`, still current, with its first `i` sides
/// settled.
pub open spec fn settling(
    start: ObjectGrid,
    queue0: Seq<Cell>,
    grid: ObjectGrid,
    queue: Seq<Cell>,
    c: Cell,
    i: int,
) -> bool {
    forall|q: Point|
        q.spec_is_inside_grid() && #[trigger] touched(start, queue0, grid, q) ==> pending(queue, grid, q) || settled_at(
            grid,
            q,
        ) || (q == c.ig && c.states() == grid.cell_at(c.ig).states() && settled_upto(grid, c.ig, i))
}

/// A reduction keeps all states exactly when each of them is permitted.
proof fn lemma_reduced_keeps_all(states: Seq<StateView>, reference: Seq<StateView>, side: Connection)
    requires
        reduced(states, reference, side).len() == states.len(),
    ensures
        permits_all(reference, side, states),
    decreases states.len(),
{
    if states.len() > 0 {
        lemma_reduced_members(states.drop_last(), reference, side);
        if !permits(reference, side, states.last().0) {
            assert(false);
        }
        lemma_reduced_keeps_all(states.drop_last(), reference, side);
        assert forall|i: int| 0 <= i < states.len() implies permits(reference, side, #[trigger] states[i].0) by {
            if i < states.len() - 1 {
                assert(states.drop_last()[i] == states[i]);
            }
        }
    }
}

/// A reduction keeps only states the reference permits.
proof fn lemma_reduced_permitted(states: Seq<StateView>, reference: Seq<StateView>, side: Connection)
    ensures
        permits_all(reference, side, reduced(states, reference, side)),
{
    lemma_reduced_members(states, reference, side);
}

/// A reduction of permitted states keeps only permitted states.
proof fn lemma_permits_all_reduced(
    reference: Seq<StateView>,
    side: Connection,
    states: Seq<StateView>,
    other: Seq<StateView>,
    other_side: Connection,
)
    requires
        permits_all(reference, side, states),
    ensures
        permits_all(reference, side, reduced(states, other, other_side)),
{
    lemma_reduced_members(states, other, other_side);
    let r = reduced(states, other, other_side);
    assert forall|i: int| 0 <= i < r.len() implies permits(reference, side, #[trigger] r[i].0) by {
        assert(states.contains(r[i]));
        let j = choose|j: int| 0 <= j < states.len() && states[j] == r[i];
        assert(permits(reference, side, states[j].0));
    }
}

/// The sides of a point lie at different points.
proof fn lemma_side_points_differ(p: Point, i: int, j: int)
    requires
        0 <= i < 4,
        0 <= j < 4,
        i != j,
        has_neighbours_in_range(p),
    ensures
        side_point(p, i) != side_point(p, j),
        side_point(p, i) != p,
{
}

/// Writing the reduction of the open neighbour on side `i` of the dequeued cell `c` and queueing it keeps
/// [`settling`] and settles side `i`.
proof fn lemma_settling_after_reduction(
    start: ObjectGrid,
    queue0: Seq<Cell>,
    before: ObjectGrid,
    after: ObjectGrid,
    queue: Seq<Cell>,
    updated: Cell,
    c: Cell,
    i: int,
)
    requires
        0 <= i < 4,
        c.ig.spec_is_inside_grid(),
        side_point(c.ig, i).spec_is_inside_grid(),
        !before.cell_at(side_point(c.ig, i)).is_collapsed,
        updated.ig == side_point(c.ig, i),
        updated.states() == reduced(before.cell_at(updated.ig).states(), c.states(), connection_order()[i]),
        after.cell_at(updated.ig).states() == updated.states(),
        after.cell_at(updated.ig).is_collapsed == before.cell_at(updated.ig).is_collapsed,
        forall|q: Point| q.spec_is_inside_grid() && q != updated.ig ==> #[trigger] after.cell_at(q) == before.cell_at(q),
        settling(start, queue0, before, queue, c, i),
    ensures
        settling(start, queue0, after, queue.push(updated), c, i + 1),
{
    let p = updated.ig;
    let qa = queue.push(updated);
    lemma_reduced_members(before.cell_at(p).states(), c.states(), connection_order()[i]);
    assert forall|q: Point|
        q.spec_is_inside_grid() && #[trigger] touched(start, queue0, after, q) implies pending(qa, after, q) || settled_at(
        after,
        q,
    ) || (q == c.ig && c.states() == after.cell_at(c.ig).states() && settled_upto(after, c.ig, i + 1)) by {
        if q == p {
            assert(qa[queue.len() as int] == updated);
            assert(pending(qa, after, q));
        } else {
            assert(after.cell_at(q) == before.cell_at(q));
            assert(touched(start, queue0, before, q));
            if pending(queue, before, q) {
                let k = choose|k: int|
                    0 <= k < queue.len() && queue[k].ig == q && #[trigger] queue[k].states() == before.cell_at(q).states();
                assert(qa[k] == queue[k]);
                assert(pending(qa, after, q));
            } else if settled_at(before, q) {
                assert forall|j: int|
                    0 <= j < 4 && side_point(q, j).spec_is_inside_grid() && !after.cell_at(side_point(q, j)).is_collapsed
                        implies #[trigger] permits_all(
                    after.cell_at(q).states(),
                    connection_order()[j],
                    after.cell_at(side_point(q, j)).states(),
                ) by {
                    assert(permits_all(
                        before.cell_at(q).states(),
                        connection_order()[j],
                        before.cell_at(side_point(q, j)).states(),
                    ));
                    if side_point(q, j) == p {
                        lemma_permits_all_reduced(
                            before.cell_at(q).states(),
                            connection_order()[j],
                            before.cell_at(p).states(),
                            c.states(),
                            connection_order()[i],
                        );
                    }
                }
                assert(settled_at(after, q));
            } else {
                assert(q == c.ig);
                assert forall|j: int|
                    0 <= j < i + 1 && side_point(q, j).spec_is_inside_grid() && !after.cell_at(
                        side_point(q, j),
                    ).is_collapsed implies #[trigger] permits_all(
                    after.cell_at(q).states(),
                    connection_order()[j],
                    after.cell_at(side_point(q, j)).states(),
                ) by {
                    if j < i {
                        lemma_side_points_differ(c.ig, i, j);
                        assert(side_point(q, j) != p);
                    } else {
                        lemma_reduced_permitted(before.cell_at(p).states(), c.states(), connection_order()[i]);
                    }
                }
            }
        }
    }
}

/// Leaving the neighbour on side `i` of the dequeued cell `c` as it is keeps [`settling`] where `c` already
/// permits every state of that neighbour, or the neighbour is collapsed or outside the grid.
proof fn lemma_settling_unchanged(
    start: ObjectGrid,
    queue0: Seq<Cell>,
    grid: ObjectGrid,
    queue: Seq<Cell>,
    c: Cell,
    i: int,
)
    requires
        0 <= i < 4,
        settling(start, queue0, grid, queue, c, i),
        side_point(c.ig, i).spec_is_inside_grid() && !grid.cell_at(side_point(c.ig, i)).is_collapsed ==> permits_all(
            c.states(),
            connection_order()[i],
            grid.cell_at(side_point(c.ig, i)).states(),
        ),
    ensures
        settling(start, queue0, grid, queue, c, i + 1),
{
}

/// Whether every cell that propagation has to settle is queued with its states or settled.
pub open spec fn propagated(start: ObjectGrid, queue0: Seq<Cell>, grid: ObjectGrid, queue: Seq<Cell>) -> bool {
    forall|q: Point|
        q.spec_is_inside_grid() && #[trigger] touched(start, queue0, grid, q) ==> pending(queue, grid, q) || settled_at(
            grid,
            q,
        )
}

/// Whether each queued cell holds every state that the grid keeps at its position.
pub open spec fn queue_covers(grid: ObjectGrid, queue: Seq<Cell>) -> bool {
    forall|k: int|
        0 <= k < queue.len() ==> states_within(grid.cell_at((#[trigger] queue[k]).ig).states(), queue[k].states())
}

/// Whether the open neighbour on side `j` of the cell at `q` keeps no state when reduced against that cell.
pub open spec fn contradicts(grid: ObjectGrid, q: Point, j: int) -> bool {
    &&& q.spec_is_inside_grid()
    &&& 0 <= j < 4
    &&& side_point(q, j).spec_is_inside_grid()
    &&& !grid.cell_at(side_point(q, j)).is_collapsed
    &&& reduced(grid.cell_at(side_point(q, j)).states(), grid.cell_at(q).states(), connection_order()[j]).len() == 0
}

/// A reduction keeps no state exactly when none of the states is permitted.
proof fn lemma_reduced_empty(states: Seq<StateView>, reference: Seq<StateView>, side: Connection)
    ensures
        reduced(states, reference, side).len() == 0 <==> forall|i: int|
            0 <= i < states.len() ==> !permits(reference, side, #[trigger] states[i].0),
    decreases states.len(),
{
    if states.len() > 0 {
        let rest = states.drop_last();
        lemma_reduced_empty(rest, reference, side);
        lemma_reduced_members(rest, reference, side);
        if reduced(states, reference, side).len() == 0 {
            assert(!permits(reference, side, states.last().0));
            assert forall|i: int| 0 <= i < states.len() implies !permits(reference, side, #[trigger] states[i].0) by {
                if i < states.len() - 1 {
                    assert(rest[i] == states[i]);
                }
            }
        }
        if forall|i: int| 0 <= i < states.len() ==> !permits(reference, side, #[trigger] states[i].0) {
            assert(!permits(reference, side, states[states.len() - 1].0));
            assert forall|i: int| 0 <= i < rest.len() implies !permits(reference, side, #[trigger] rest[i].0) by {
                assert(rest[i] == states[i]);
            }
        }
    }
}

/// What a selection of the reference states permits, the reference permits too.
proof fn lemma_permits_within(small: Seq<StateView>, big: Seq<StateView>, side: Connection, name: ObjectName)
    requires
        states_within(small, big),
        permits(small, side, name),
    ensures
        permits(big, side, name),
{
    let (i, j, k) = choose|i: int, j: int, k: int|
        0 <= i < small.len() && 0 <= j < small[i].3.len() && small[i].3[j].0 == side && 0 <= k < small[i].3[j].1.len()
            && #[trigger] small[i].3[j].1[k] == name;
    assert(big.contains(small[i]));
    let m = choose|m: int| 0 <= m < big.len() && big[m] == small[i];
    assert(big[m].3[j].1[k] == name);
}

/// A reduction against a selection of the reference states keeps nothing where the reduction against the reference
/// keeps nothing.
proof fn lemma_reduced_empty_within(
    states: Seq<StateView>,
    small: Seq<StateView>,
    big: Seq<StateView>,
    side: Connection,
)
    requires
        states_within(small, big),
        reduced(states, big, side).len() == 0,
    ensures
        reduced(states, small, side).len() == 0,
{
    lemma_reduced_empty(states, big, side);
    lemma_reduced_empty(states, small, side);
    assert forall|i: int| 0 <= i < states.len() implies !permits(small, side, #[trigger] states[i].0) by {
        if permits(small, side, states[i].0) {
            lemma_permits_within(small, big, side, states[i].0);
        }
    }
}

/// Every sequence of states is a selection of itself.
proof fn lemma_states_within_self(states: Seq<StateView>)
    ensures
        states_within(states, states),
{
    assert forall|i: int| 0 <= i < states.len() implies states.contains(#[trigger] states[i]) by {}
}

/// The position of `q` in row-major order.
pub open spec fn row_major(q: Point) -> int {
    q.y * CHUNK_SIZE + q.x
}

/// Whether the cell at `q` is an open cell on the edge of the grid.
pub open spec fn is_open_edge(grid: ObjectGrid, q: Point) -> bool {
    &&& q.spec_is_inside_grid()
    &&& !grid.cell_at(q).is_collapsed
    &&& q.spec_is_touching_edge()
}

/// Whether `mid` is a validation of `start` in which every collapsed cell, and every cell that lost a state, permits
/// every state of its open neighbours.
pub open spec fn neighbours_settled(start: ObjectGrid, mid: ObjectGrid) -> bool {
    &&& validation_keeps(start, mid)
    &&& forall|q: Point|
        q.spec_is_inside_grid() && (start.cell_at(q).is_collapsed || mid.cell_at(q).states() != start.cell_at(q).states())
            ==> #[trigger] settled_at(mid, q)
}

/// Whether `grid` is `mid` with each open edge cell of `start` reduced against the placeholder for neighbours outside
/// the grid on its sides that face outside, each of them keeping a state there, and every other cell left as it is.
pub open spec fn edges_reduced(start: ObjectGrid, mid: ObjectGrid, grid: ObjectGrid) -> bool {
    &&& forall|q: Point|
        #[trigger] is_open_edge(start, q) ==> edge_cell_ok(start.cell_at(q), start.no_neighbours_tile) && edge_result(
            grid.cell_at(q),
            start.cell_at(q),
            start.no_neighbours_tile,
            mid.cell_at(q),
        )
    &&& forall|q: Point|
        q.spec_is_inside_grid() && !is_open_edge(start, q) ==> #[trigger] grid.cell_at(q) == mid.cell_at(q)
}

/// Cells with the same position and states lose states on the same sides.
proof fn lemma_last_edge_change_same(c: Cell, d: Cell, placeholder: Cell, n: int)
    requires
        c.ig == d.ig,
        c.states() == d.states(),
    ensures
        last_edge_change(c, placeholder, n) == last_edge_change(d, placeholder, n),
    decreases n,
{
    if n > 0 {
        lemma_last_edge_change_same(c, d, placeholder, n - 1);
        assert(edge_changes(c, placeholder, n - 1) == edge_changes(d, placeholder, n - 1));
    }
}

/// Reducing an edge cell against the placeholder depends only on the values the cell holds.
proof fn lemma_edge_same(cell: Cell, c: Cell, d: Cell, placeholder: Cell, before: Cell)
    requires
        c.same_as(d),
    ensures
        edge_result(cell, c, placeholder, before) == edge_result(cell, d, placeholder, before),
        edge_cell_ok(c, placeholder) == edge_cell_ok(d, placeholder),
{
    lemma_last_edge_change_same(c, d, placeholder, 4);
    assert forall|j: int| 0 <= j < 4 implies #[trigger] edge_kept(c, placeholder, j) == edge_kept(d, placeholder, j) by {}
    if edge_cell_ok(c, placeholder) {
        assert forall|j: int|
            0 <= j < 4 && !side_point(d.ig, j).spec_is_inside_grid() implies #[trigger] edge_kept(d, placeholder, j).len()
            > 0 by {
            assert(edge_kept(c, placeholder, j) == edge_kept(d, placeholder, j));
        }
    }
    if edge_cell_ok(d, placeholder) {
        assert forall|j: int|
            0 <= j < 4 && !side_point(c.ig, j).spec_is_inside_grid() implies #[trigger] edge_kept(c, placeholder, j).len()
            > 0 by {
            assert(edge_kept(c, placeholder, j) == edge_kept(d, placeholder, j));
        }
    }
}

impl ObjectGrid {
    /// Reduces the open neighbours of the queued collapsed cells against them, queueing every neighbour that lost a
    /// state so that its own neighbours are reduced in turn. Fails if a neighbour is left without a state.
    fn update_neighbours_of_collapsed_cells(&mut self, collapsed_cells: &mut VecDeque<Cell>) -> (result: Result<
        (),
        PropagationFailure,
    >)
        requires
            old(self).wf(),
            forall|k: int|
                0 <= k < old(collapsed_cells)@.len() ==> (#[trigger] old(collapsed_cells)@[k]).ig.spec_is_inside_grid(),
            queue_covers(*old(self), old(collapsed_cells)@),
        ensures
            validation_keeps(*old(self), *final(self)),
            result.is_ok() ==> final(collapsed_cells)@.len() == 0,
            result.is_ok() ==> forall|q: Point|
                q.spec_is_inside_grid() && #[trigger] touched(*old(self), old(collapsed_cells)@, *final(self), q)
                    ==> settled_at(*final(self), q),
            result.is_err() ==> exists|q: Point, j: int| contradicts(*final(self), q, j),
    {
        let ghost start = *self;
        let ghost queue0 = collapsed_cells@;
        proof {
            assert forall|q: Point| q.spec_is_inside_grid() implies states_within(
                (#[trigger] start.cell_at(q)).states(),
                start.cell_at(q).states(),
            ) by {
                lemma_states_within_self(start.cell_at(q).states());
            }
            assert forall|q: Point| q.spec_is_inside_grid() && #[trigger] touched(start, queue0, start, q) implies pending(
                queue0,
                start,
                q,
            ) by {}
        }
        while collapsed_cells.len() > 0
            invariant
                start == *old(self),
                queue0 == old(collapsed_cells)@,
                validation_keeps(start, *self),
                forall|k: int| 0 <= k < collapsed_cells@.len() ==> (#[trigger] collapsed_cells@[k]).ig.spec_is_inside_grid(),
                queue_covers(*self, collapsed_cells@),
                propagated(start, queue0, *self, collapsed_cells@),
            decreases count_states(*self), collapsed_cells@.len(),
        {
            let ghost queue_before = collapsed_cells@;
            let cell = match collapsed_cells.pop_front() {
                Some(c) => c,
                None => {
                    return Ok(());
                },
            };
            let ghost popped = *self;
            let ghost queued = collapsed_cells@.len();
            proof {
                assert(cell == queue_before[0]);
                assert forall|k: int| 0 <= k < collapsed_cells@.len() implies #[trigger] collapsed_cells@[k]
                    == queue_before[k + 1] by {}
                assert forall|q: Point|
                    q.spec_is_inside_grid() && #[trigger] touched(start, queue0, *self, q) implies pending(
                    collapsed_cells@,
                    *self,
                    q,
                ) || settled_at(*self, q) || (q == cell.ig && cell.states() == self.cell_at(cell.ig).states()
                    && settled_upto(*self, cell.ig, 0)) by {
                    if pending(queue_before, *self, q) && !settled_at(*self, q) {
                        let k = choose|k: int|
                            0 <= k < queue_before.len() && queue_before[k].ig == q && #[trigger] queue_before[k].states()
                                == self.cell_at(q).states();
                        if k > 0 {
                            assert(collapsed_cells@[k - 1] == queue_before[k]);
                        }
                    }
                }
                assert(states_within(self.cell_at(cell.ig).states(), cell.states()));
            }
            let points = get_connection_points(&cell.ig);
            let mut i: usize = 0;
            while i < 4
                invariant
                    start == *old(self),
                    queue0 == old(collapsed_cells)@,
                    validation_keeps(start, *self),
                    validation_keeps(popped, *self),
                    forall|k: int|
                        0 <= k < collapsed_cells@.len() ==> (#[trigger] collapsed_cells@[k]).ig.spec_is_inside_grid(),
                    collapsed_cells@.len() >= queued,
                    count_states(*self) <= count_states(popped),
                    collapsed_cells@.len() - queued <= count_states(popped) - count_states(*self),
                    i <= 4,
                    cell.ig.spec_is_inside_grid(),
                    forall|j: int|
                        0 <= j < 4 ==> (#[trigger] points@[j]).0 == connection_order()[j] && points@[j].1
                            == side_point(cell.ig, j),
                    queue_covers(*self, collapsed_cells@),
                    states_within(self.cell_at(cell.ig).states(), cell.states()),
                    settling(start, queue0, *self, collapsed_cells@, cell, i as int),
                decreases 4 - i,
            {
                let (connection, neighbour_ig) = points[i];
                proof {
                    assert(connection == connection_order()[i as int]);
                    assert(neighbour_ig == side_point(cell.ig, i as int));
                    assert(connection.spec_opposite().spec_opposite() == connection);
                }
                let ghost before = *self;
                let mut updated_cell: Option<Cell> = None;
                match self.get_cell(&neighbour_ig) {
                    Some(neighbour) => {
                        if !neighbour.is_collapsed {
                            match neighbour.clone_and_reduce(&cell, &connection.opposite()) {
                                Ok((changed, updated)) => {
                                    if changed {
                                        proof {
                                            lemma_reduced_members(neighbour.states(), cell.states(), connection);
                                            if is_ready_cell(*neighbour) {
                                                lemma_reduced_weights(neighbour.states(), cell.states(), connection);
                                            }
                                            assert(is_reduction_of(before, updated));
                                        }
                                        updated_cell = Some(updated);
                                    } else {
                                        proof {
                                            lemma_reduced_keeps_all(neighbour.states(), cell.states(), connection);
                                            lemma_settling_unchanged(
                                                start,
                                                queue0,
                                                *self,
                                                collapsed_cells@,
                                                cell,
                                                i as int,
                                            );
                                        }
                                    }
                                },
                                Err(e) => {
                                    proof {
                                        lemma_reduced_empty_within(
                                            neighbour.states(),
                                            self.cell_at(cell.ig).states(),
                                            cell.states(),
                                            connection,
                                        );
                                        assert(contradicts(*self, cell.ig, i as int));
                                    }
                                    return Err(e);
                                },
                            }
                        } else {
                            proof {
                                lemma_settling_unchanged(start, queue0, *self, collapsed_cells@, cell, i as int);
                            }
                        }
                    },
                    None => {
                        proof {
                            lemma_settling_unchanged(start, queue0, *self, collapsed_cells@, cell, i as int);
                        }
                    },
                }
                match updated_cell {
                    Some(updated) => {
                        let written = updated.copy();
                        let ghost w = written;
                        let ghost queue_mid = collapsed_cells@;
                        self.set_cell(written);
                        proof {
                            assert(is_reduction_of(before, w));
                            lemma_reduction_step(before, *self, w);
                            lemma_validation_keeps_transitive(start, before, *self);
                            lemma_validation_keeps_transitive(popped, before, *self);
                            assert forall|x: int, y: int|
                                0 <= x < CHUNK_SIZE && 0 <= y < CHUNK_SIZE && (x != w.ig.x || y != w.ig.y)
                                    implies #[trigger] cell_in(self.object_grid@, x, y) == cell_in(before.object_grid@, x, y) by {}
                            assert(cell_in(self.object_grid@, w.ig.x as int, w.ig.y as int) == w);
                            lemma_count_after_reduction(before.object_grid@, self.object_grid@, w.ig, CHUNK_SIZE * CHUNK_SIZE);
                            assert forall|q: Point| q.spec_is_inside_grid() && q != updated.ig implies #[trigger] self.cell_at(q)
                                == before.cell_at(q) by {
                                assert(cell_in(self.object_grid@, q.x as int, q.y as int) == cell_in(
                                    before.object_grid@,
                                    q.x as int,
                                    q.y as int,
                                ));
                            }
                            lemma_settling_after_reduction(
                                start,
                                queue0,
                                before,
                                *self,
                                queue_mid,
                                updated,
                                cell,
                                i as int,
                            );
                            assert forall|k: int| 0 <= k < queue_mid.len() implies states_within(
                                self.cell_at((#[trigger] queue_mid[k]).ig).states(),
                                queue_mid[k].states(),
                            ) by {
                                lemma_states_within_transitive(
                                    self.cell_at(queue_mid[k].ig).states(),
                                    before.cell_at(queue_mid[k].ig).states(),
                                    queue_mid[k].states(),
                                );
                            }
                            lemma_states_within_self(updated.states());
                            lemma_states_within_transitive(
                                self.cell_at(cell.ig).states(),
                                before.cell_at(cell.ig).states(),
                                cell.states(),
                            );
                        }
                        collapsed_cells.push_back(updated);
                        proof {
                            assert forall|k: int| 0 <= k < collapsed_cells@.len() implies states_within(
                                self.cell_at((#[trigger] collapsed_cells@[k]).ig).states(),
                                collapsed_cells@[k].states(),
                            ) by {
                                if k < queue_mid.len() {
                                    assert(collapsed_cells@[k] == queue_mid[k]);
                                } else {
                                    assert(collapsed_cells@[k] == updated);
                                }
                            }
                        }
                    },
                    None => {},
                }
                i = i + 1;
            }
            proof {
                assert forall|q: Point|
                    q.spec_is_inside_grid() && #[trigger] touched(start, queue0, *self, q) implies pending(
                    collapsed_cells@,
                    *self,
                    q,
                ) || settled_at(*self, q) by {}
            }
        }
        Ok(())
    }

    /// Reduces the edge cell `cell` against the placeholder for neighbours outside the grid on each of its sides that
    /// face outside, each time starting from `cell`, and writes each reduction that removed a state to the grid.
    /// Fails if a reduction leaves no state.
    fn reduce_edge_cell(&mut self, cell: &Cell, Ghost(base): Ghost<ObjectGrid>) -> (result: Result<(), PropagationFailure>)
        requires
            validation_keeps(base, *old(self)),
            cell.ig.spec_is_inside_grid(),
            !base.cell_at(cell.ig).is_collapsed,
            cell.same_as(base.cell_at(cell.ig)),
        ensures
            validation_keeps(base, *final(self)),
            final(self).no_neighbours_tile == old(self).no_neighbours_tile,
            result.is_ok() == edge_cell_ok(*cell, old(self).no_neighbours_tile),
            result.is_ok() ==> edge_result(
                final(self).cell_at(cell.ig),
                *cell,
                old(self).no_neighbours_tile,
                old(self).cell_at(cell.ig),
            ),
            forall|q: Point|
                q.spec_is_inside_grid() && q != cell.ig ==> #[trigger] final(self).cell_at(q) == old(self).cell_at(q),
    {
        let ghost ph = self.no_neighbours_tile;
        let ghost entry_start = *self;
        let points = get_connection_points(&cell.ig);
        let mut i: usize = 0;
        while i < 4
            invariant
                self.no_neighbours_tile == ph,
                ph == old(self).no_neighbours_tile,
                entry_start == *old(self),
                forall|j: int|
                    0 <= j < i && !side_point(cell.ig, j).spec_is_inside_grid() ==> #[trigger] edge_kept(*cell, ph, j).len()
                        > 0,
                forall|j: int|
                    0 <= j < 4 ==> (#[trigger] points@[j]).0 == connection_order()[j] && points@[j].1 == side_point(
                        cell.ig,
                        j,
                    ),
                forall|q: Point| q.spec_is_inside_grid() && q != cell.ig ==> #[trigger] self.cell_at(q) == entry_start.cell_at(q),
                last_edge_change(*cell, ph, i as int) >= 0 ==> is_reduced_copy(
                    self.cell_at(cell.ig),
                    *cell,
                    ph,
                    connection_order()[last_edge_change(*cell, ph, i as int)].spec_opposite(),
                ),
                last_edge_change(*cell, ph, i as int) < 0 ==> self.cell_at(cell.ig) == entry_start.cell_at(cell.ig),
                validation_keeps(base, *self),
                cell.ig.spec_is_inside_grid(),
                !base.cell_at(cell.ig).is_collapsed,
                cell.same_as(base.cell_at(cell.ig)),
                i <= 4,
            decreases 4 - i,
        {
            let (connection, point) = points[i];
            let ghost before_side = *self;
            proof {
                assert(connection == connection_order()[i as int]);
                assert(point == side_point(cell.ig, i as int));
            }
            if point.is_outside_grid() {
                match cell.clone_and_reduce(&self.no_neighbours_tile, &connection) {
                    Ok((changed, updated)) => {
                        if changed {
                            proof {
                                let side = connection.spec_opposite();
                                lemma_reduced_members(cell.states(), self.no_neighbours_tile.states(), side);
                                assert forall|j: int| 0 <= j < updated.states().len() implies base.cell_at(
                                    cell.ig,
                                ).states().contains(#[trigger] updated.states()[j]) by {
                                    assert(cell.states().contains(updated.states()[j]));
                                }
                                if is_ready_cell(base.cell_at(cell.ig)) {
                                    lemma_reduced_weights(cell.states(), self.no_neighbours_tile.states(), side);
                                }
                            }
                            let ghost before = *self;
                            let written = updated.copy();
                            let ghost w = written;
                            self.set_cell(written);
                            proof {
                                lemma_edge_step(base, before, *self, w);
                                assert(edge_changes(*cell, ph, i as int));
                                assert(last_edge_change(*cell, ph, i + 1) == i);
                                assert(self.cell_at(cell.ig) == w);
                                assert forall|q: Point| q.spec_is_inside_grid() && q != cell.ig implies #[trigger] self.cell_at(q)
                                    == entry_start.cell_at(q) by {
                                    assert(self.cell_at(q) == before.cell_at(q));
                                }
                            }
                        } else {
                            proof {
                                assert(!edge_changes(*cell, ph, i as int));
                                assert(last_edge_change(*cell, ph, i + 1) == last_edge_change(*cell, ph, i as int));
                            }
                        }
                    },
                    Err(e) => {
                        proof {
                            assert(edge_kept(*cell, ph, i as int).len() == 0);
                            assert(!edge_cell_ok(*cell, ph));
                        }
                        return Err(e);
                    },
                }
            } else {
                proof {
                    assert(!edge_changes(*cell, ph, i as int));
                    assert(last_edge_change(*cell, ph, i + 1) == last_edge_change(*cell, ph, i as int));
                }
            }
            i = i + 1;
        }
        proof {
            assert(edge_cell_ok(*cell, ph));
        }
        Ok(())
    }

    /// Reduces each queued edge cell against the placeholder for neighbours outside the grid, once for each of its
    /// sides that face outside, writing each reduction that removed a state to the grid. Each reduction starts from
    /// the queued cell, so a later one replaces an earlier one. Fails if a cell is left without a state.
    fn update_edge_cells(&mut self, edge_cells: &mut VecDeque<Cell>, Ghost(base): Ghost<ObjectGrid>) -> (result: Result<
        (),
        PropagationFailure,
    >)
        requires
            validation_keeps(base, *old(self)),
            forall|k: int|
                0 <= k < old(edge_cells)@.len() ==> {
                    let c = #[trigger] old(edge_cells)@[k];
                    &&& c.ig.spec_is_inside_grid()
                    &&& !base.cell_at(c.ig).is_collapsed
                    &&& c.same_as(base.cell_at(c.ig))
                },
        ensures
            validation_keeps(base, *final(self)),
            result.is_ok() == forall|k: int|
                0 <= k < old(edge_cells)@.len() ==> edge_cell_ok(#[trigger] old(edge_cells)@[k], old(self).no_neighbours_tile),
            result.is_ok() && distinct_positions(old(edge_cells)@) ==> forall|k: int|
                0 <= k < old(edge_cells)@.len() ==> edge_result(
                    final(self).cell_at((#[trigger] old(edge_cells)@[k]).ig),
                    old(edge_cells)@[k],
                    old(self).no_neighbours_tile,
                    old(self).cell_at(old(edge_cells)@[k].ig),
                ),
            result.is_ok() && distinct_positions(old(edge_cells)@) ==> forall|q: Point|
                q.spec_is_inside_grid() && not_queued_before(old(edge_cells)@, old(edge_cells)@.len() as int, q)
                    ==> #[trigger] final(self).cell_at(q) == old(self).cell_at(q),
    {
        let ghost start = *self;
        let ghost queue = edge_cells@;
        let ghost ph = self.no_neighbours_tile;
        while edge_cells.len() > 0
            invariant
                validation_keeps(base, *self),
                self.no_neighbours_tile == ph,
                start == *old(self),
                queue == old(edge_cells)@,
                ph == old(self).no_neighbours_tile,
                edge_cells@.len() <= queue.len(),
                edge_cells@ == queue.subrange(queue.len() - edge_cells@.len(), queue.len() as int),
                forall|k: int| 0 <= k < queue.len() ==> (#[trigger] queue[k]).ig.spec_is_inside_grid(),
                forall|k: int| 0 <= k < queue.len() - edge_cells@.len() ==> edge_cell_ok(#[trigger] queue[k], ph),
                distinct_positions(queue) ==> forall|k: int|
                    0 <= k < queue.len() - edge_cells@.len() ==> edge_result(
                        self.cell_at((#[trigger] queue[k]).ig),
                        queue[k],
                        ph,
                        start.cell_at(queue[k].ig),
                    ),
                distinct_positions(queue) ==> forall|q: Point|
                    q.spec_is_inside_grid() && not_queued_before(queue, queue.len() - edge_cells@.len(), q)
                        ==> #[trigger] self.cell_at(q) == start.cell_at(q),
                forall|k: int|
                    0 <= k < edge_cells@.len() ==> {
                        let c = #[trigger] edge_cells@[k];
                        &&& c.ig.spec_is_inside_grid()
                        &&& !base.cell_at(c.ig).is_collapsed
                        &&& c.same_as(base.cell_at(c.ig))
                    },
            decreases edge_cells@.len(),
        {
            let ghost m0 = queue.len() - edge_cells@.len();
            let ghost entry_start = *self;
            let cell = match edge_cells.pop_front() {
                Some(c) => c,
                None => {
                    return Ok(());
                },
            };
            proof {
                assert(cell == queue[m0]);
                assert(edge_cells@ =~= queue.subrange(m0 + 1, queue.len() as int));
                if distinct_positions(queue) {
                    assert forall|k: int| 0 <= k < m0 implies queue[k].ig != cell.ig by {}
                    assert(not_queued_before(queue, m0, cell.ig));
                    assert(entry_start.cell_at(cell.ig) == start.cell_at(cell.ig));
                }
            }
            let ghost before_entry = *self;
            match self.reduce_edge_cell(&cell, Ghost(base)) {
                Ok(()) => {},
                Err(e) => {
                    proof {
                        assert(!edge_cell_ok(queue[m0], ph));
                    }
                    return Err(e);
                },
            }
            proof {
                assert(edge_cell_ok(cell, ph));
                if distinct_positions(queue) {
                    assert(edge_result(self.cell_at(cell.ig), cell, ph, start.cell_at(cell.ig)));
                    assert forall|k: int| 0 <= k < m0 + 1 implies edge_result(
                        self.cell_at((#[trigger] queue[k]).ig),
                        queue[k],
                        ph,
                        start.cell_at(queue[k].ig),
                    ) by {
                        if k < m0 {
                            assert(queue[k].ig != cell.ig);
                            assert(self.cell_at(queue[k].ig) == entry_start.cell_at(queue[k].ig));
                        }
                    }
                    assert forall|q: Point|
                        q.spec_is_inside_grid() && not_queued_before(queue, m0 + 1, q) implies #[trigger] self.cell_at(q)
                            == start.cell_at(q) by {
                        assert(queue[m0].ig != q);
                        assert(not_queued_before(queue, m0, q));
                        assert(self.cell_at(q) == entry_start.cell_at(q));
                    }
                }
            }
        }
        proof {
            assert(queue.len() - edge_cells@.len() == queue.len());
        }
        Ok(())
    }

    /// Makes the grid consistent before the wave function collapse: the open neighbours of collapsed cells (such as
    /// path pieces) are reduced against them, repeatedly, and then the open cells on the edge of the grid are reduced
    /// against the placeholder for neighbours outside it. Fails if a cell is left without a state.
    pub fn validate(&mut self) -> (result: Result<(), PropagationFailure>)
        requires
            old(self).wf(),
        ensures
            validation_keeps(*old(self), *final(self)),
            result.is_ok() ==> exists|mid: ObjectGrid|
                neighbours_settled(*old(self), mid) && #[trigger] edges_reduced(*old(self), mid, *final(self)),
            result.is_err() ==> (exists|q: Point, j: int| contradicts(*final(self), q, j)) || (exists|q: Point|
                #[trigger] is_open_edge(*old(self), q) && !edge_cell_ok(
                    old(self).cell_at(q),
                    old(self).no_neighbours_tile,
                )),
    {
        let ghost base = *self;
        let mut collapsed_cells: VecDeque<Cell> = VecDeque::new();
        let mut edge_cells: VecDeque<Cell> = VecDeque::new();
        let mut y: usize = 0;
        while y < self.object_grid.len()
            invariant
                base == *self,
                self.wf(),
                y <= CHUNK_SIZE,
                forall|k: int|
                    0 <= k < collapsed_cells@.len() ==> (#[trigger] collapsed_cells@[k]).ig.spec_is_inside_grid(),
                queue_covers(base, collapsed_cells@),
                forall|k: int|
                    0 <= k < edge_cells@.len() ==> {
                        let c = #[trigger] edge_cells@[k];
                        &&& c.ig.spec_is_inside_grid()
                        &&& !base.cell_at(c.ig).is_collapsed
                        &&& c.same_as(base.cell_at(c.ig))
                        &&& row_major(c.ig) < y * CHUNK_SIZE
                        &&& c.ig.spec_is_touching_edge()
                    },
                forall|i: int, j: int|
                    0 <= i < j < edge_cells@.len() ==> row_major((#[trigger] edge_cells@[i]).ig) < row_major(
                        (#[trigger] edge_cells@[j]).ig,
                    ),
                forall|q: Point|
                    q.spec_is_inside_grid() && row_major(q) < y * CHUNK_SIZE && base.cell_at(q).is_collapsed ==> exists|
                        k: int,
                    |
                        0 <= k < collapsed_cells@.len() && collapsed_cells@[k].ig == q && #[trigger] collapsed_cells@[k].states()
                            == base.cell_at(q).states(),
                forall|q: Point|
                    #[trigger] is_open_edge(base, q) && row_major(q) < y * CHUNK_SIZE ==> exists|k: int|
                        0 <= k < edge_cells@.len() && #[trigger] edge_cells@[k].ig == q,
            decreases self.object_grid@.len() - y,
        {
            let row = &self.object_grid[y];
            let mut x: usize = 0;
            while x < row.len()
                invariant
                    base == *self,
                    self.wf(),
                    y < CHUNK_SIZE,
                    x <= CHUNK_SIZE,
                    *row == self.object_grid@[y as int],
                    forall|k: int|
                        0 <= k < collapsed_cells@.len() ==> (#[trigger] collapsed_cells@[k]).ig.spec_is_inside_grid(),
                    queue_covers(base, collapsed_cells@),
                    forall|k: int|
                        0 <= k < edge_cells@.len() ==> {
                            let c = #[trigger] edge_cells@[k];
                            &&& c.ig.spec_is_inside_grid()
                            &&& !base.cell_at(c.ig).is_collapsed
                            &&& c.same_as(base.cell_at(c.ig))
                            &&& row_major(c.ig) < y * CHUNK_SIZE + x
                            &&& c.ig.spec_is_touching_edge()
                        },
                    forall|i: int, j: int|
                        0 <= i < j < edge_cells@.len() ==> row_major((#[trigger] edge_cells@[i]).ig) < row_major(
                            (#[trigger] edge_cells@[j]).ig,
                        ),
                    forall|q: Point|
                        q.spec_is_inside_grid() && row_major(q) < y * CHUNK_SIZE + x && base.cell_at(q).is_collapsed
                            ==> exists|k: int|
                            0 <= k < collapsed_cells@.len() && collapsed_cells@[k].ig == q
                                && #[trigger] collapsed_cells@[k].states() == base.cell_at(q).states(),
                    forall|q: Point|
                        #[trigger] is_open_edge(base, q) && row_major(q) < y * CHUNK_SIZE + x ==> exists|k: int|
                            0 <= k < edge_cells@.len() && #[trigger] edge_cells@[k].ig == q,
                decreases row@.len() - x,
            {
                let c = &row[x];
                let ghost here = Point { x: x as i32, y: y as i32 };
                proof {
                    assert(*c == cell_in(self.object_grid@, x as int, y as int));
                    assert(c.ig == here);
                    assert(*c == base.cell_at(c.ig));
                    assert(row_major(here) == y * CHUNK_SIZE + x);
                }
                let ghost collapsed_before = collapsed_cells@;
                let ghost edge_before = edge_cells@;
                if c.is_collapsed {
                    let copied = c.copy();
                    proof {
                        lemma_states_within_self(copied.states());
                    }
                    collapsed_cells.push_back(copied);
                    proof {
                        assert forall|k: int| 0 <= k < collapsed_cells@.len() implies states_within(
                            base.cell_at((#[trigger] collapsed_cells@[k]).ig).states(),
                            collapsed_cells@[k].states(),
                        ) by {
                            if k < collapsed_before.len() {
                                assert(collapsed_cells@[k] == collapsed_before[k]);
                            }
                        }
                        assert(collapsed_cells@[collapsed_before.len() as int] == copied);
                    }
                } else if c.ig.is_touching_edge() {
                    let copied = c.copy();
                    edge_cells.push_back(copied);
                    proof {
                        assert(edge_cells@[edge_before.len() as int] == copied);
                    }
                }
                proof {
                    assert forall|q: Point|
                        q.spec_is_inside_grid() && row_major(q) < y * CHUNK_SIZE + x + 1 && base.cell_at(q).is_collapsed
                            implies exists|k: int|
                        0 <= k < collapsed_cells@.len() && collapsed_cells@[k].ig == q
                            && #[trigger] collapsed_cells@[k].states() == base.cell_at(q).states() by {
                        if row_major(q) < y * CHUNK_SIZE + x {
                            let k = choose|k: int|
                                0 <= k < collapsed_before.len() && collapsed_before[k].ig == q
                                    && #[trigger] collapsed_before[k].states() == base.cell_at(q).states();
                            assert(collapsed_cells@[k] == collapsed_before[k]);
                        } else {
                            assert(q == here);
                            assert(collapsed_cells@[collapsed_before.len() as int].states() == base.cell_at(q).states());
                        }
                    }
                    assert forall|q: Point|
                        #[trigger] is_open_edge(base, q) && row_major(q) < y * CHUNK_SIZE + x + 1 implies exists|k: int|
                        0 <= k < edge_cells@.len() && #[trigger] edge_cells@[k].ig == q by {
                        if row_major(q) < y * CHUNK_SIZE + x {
                            let k = choose|k: int| 0 <= k < edge_before.len() && #[trigger] edge_before[k].ig == q;
                            assert(edge_cells@[k] == edge_before[k]);
                        } else {
                            assert(q == here);
                            assert(edge_cells@[edge_before.len() as int].ig == q);
                        }
                    }
                }
                x = x + 1;
            }
            y = y + 1;
        }
        let ghost queue0 = collapsed_cells@;
        let ghost edges = edge_cells@;
        proof {
            assert forall|q: Point| q.spec_is_inside_grid() implies row_major(q) < CHUNK_SIZE * CHUNK_SIZE by {}
        }
        match self.update_neighbours_of_collapsed_cells(&mut collapsed_cells) {
            Ok(()) => {},
            Err(e) => {
                return Err(e);
            },
        }
        let ghost mid = *self;
        proof {
            assert forall|q: Point|
                q.spec_is_inside_grid() && (base.cell_at(q).is_collapsed || mid.cell_at(q).states() != base.cell_at(
                    q,
                ).states()) implies #[trigger] settled_at(mid, q) by {
                if base.cell_at(q).is_collapsed {
                    assert(row_major(q) < CHUNK_SIZE * CHUNK_SIZE);
                    let k = choose|k: int|
                        0 <= k < queue0.len() && queue0[k].ig == q && #[trigger] queue0[k].states() == base.cell_at(
                            q,
                        ).states();
                    assert(touched(base, queue0, mid, q));
                } else {
                    assert(touched(base, queue0, mid, q));
                }
            }
            assert(neighbours_settled(base, mid));
            assert forall|i: int, j: int| 0 <= i < j < edges.len() implies edges[i].ig != edges[j].ig by {
                assert(row_major(edges[i].ig) < row_major(edges[j].ig));
            }
            assert(distinct_positions(edges));
        }
        let result = self.update_edge_cells(&mut edge_cells, Ghost(base));
        proof {
            let ph = base.no_neighbours_tile;
            if result.is_ok() {
                assert forall|q: Point| #[trigger] is_open_edge(base, q) implies edge_cell_ok(base.cell_at(q), ph)
                    && edge_result(self.cell_at(q), base.cell_at(q), ph, mid.cell_at(q)) by {
                    assert(row_major(q) < CHUNK_SIZE * CHUNK_SIZE);
                    let k = choose|k: int| 0 <= k < edges.len() && #[trigger] edges[k].ig == q;
                    assert(edge_cell_ok(edges[k], ph));
                    assert(edge_result(self.cell_at(edges[k].ig), edges[k], ph, mid.cell_at(edges[k].ig)));
                    lemma_edge_same(self.cell_at(q), edges[k], base.cell_at(q), ph, mid.cell_at(q));
                }
                assert forall|q: Point| q.spec_is_inside_grid() && !is_open_edge(base, q) implies #[trigger] self.cell_at(q)
                    == mid.cell_at(q) by {
                    assert forall|k: int| 0 <= k < edges.len() implies edges[k].ig != q by {
                        assert(is_open_edge(base, edges[k].ig));
                    }
                    assert(not_queued_before(edges, edges.len() as int, q));
                }
                assert(edges_reduced(base, mid, *self));
            } else {
                let k = choose|k: int| 0 <= k < edges.len() && !edge_cell_ok(#[trigger] edges[k], ph);
                lemma_edge_same(self.cell_at(edges[k].ig), edges[k], base.cell_at(edges[k].ig), ph, mid.cell_at(edges[k].ig));
                assert(is_open_edge(base, edges[k].ig));
            }
        }
        result
    }
}

} // verus!
