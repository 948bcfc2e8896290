use crate::constants::CHUNK_SIZE;
use crate::coords::{Direction, Point};
use crate::object::cell::Cell;
use crate::object::object_grid::{cell_in, ObjectGrid};
use crate::object::object_name::ObjectName;
use crate::object::path::{
    is_back_step, is_path_back, is_path_step, is_path_walk, path_reachable, run_algorithm, unconnected_path,
};
use crate::object::path_names::{
    completed_directions, determine_path_object_name, determine_path_object_name_from_neighbours,
    direction_to_neighbour_chunk, is_edge_connection_point, is_nameable, is_nameable_from_neighbours,
    path_name_for_directions, spec_determine_path_object_name,
    spec_direction_to_neighbour_chunk, spec_is_edge_connection_point,
};
use crate::random::random_index;
use crate::settlement::road::is_collapsed_path_cell;
use rand::rngs::StdRng;
use vstd::prelude::*;

verus! {

/// Returned where a path cell joins exactly two other path cells away from the edge of the chunk: no path piece
/// has that shape, and the path network cannot be completed.
#[derive(Debug)]
pub struct UnnameablePathCell {
    pub ig: Point,
}

/// Whether a path may start or end at `p`: it lies within the grid and its cell is walkable.
pub open spec fn is_valid_connection_point(grid: ObjectGrid, p: Point) -> bool {
    p.spec_is_inside_grid() && grid.cell_at(p).is_walkable
}

/// Whether `after` is `before` collapsed to a path piece, everything else about the tile kept.
pub open spec fn is_path_collapse(before: Cell, after: Cell) -> bool {
    &&& after.ig == before.ig
    &&& after.is_walkable == before.is_walkable
    &&& after.terrain == before.terrain
    &&& after.is_collapsed
    &&& after.entropy == 0
    &&& after.states().len() == 1
    &&& after.states()[0].0.spec_is_path()
    &&& after.index == after.states()[0].0.spec_path_index()
}

/// Whether `after` is `before` with some walkable cells collapsed to path pieces and nothing else changed.
pub open spec fn only_paths_added(before: ObjectGrid, after: ObjectGrid) -> bool {
    &&& after.wf()
    &&& after.cg == before.cg
    &&& after.path == before.path
    &&& after.no_neighbours_tile == before.no_neighbours_tile
    &&& after.is_failure_log_level_increased == before.is_failure_log_level_increased
    &&& forall|x: int, y: int|
        0 <= x < CHUNK_SIZE && 0 <= y < CHUNK_SIZE ==> {
            let b = cell_in(before.object_grid@, x, y);
            let a = #[trigger] cell_in(after.object_grid@, x, y);
            a == b || (b.is_walkable && is_path_collapse(b, a))
        }
}

/// Adding paths twice adds paths, and leaves every cell as walkable as it was.
pub proof fn lemma_only_paths_added_transitive(a: ObjectGrid, b: ObjectGrid, c: ObjectGrid)
    requires
        a.wf(),
        only_paths_added(a, b),
        only_paths_added(b, c),
    ensures
        only_paths_added(a, c),
{
    assert forall|x: int, y: int| 0 <= x < CHUNK_SIZE && 0 <= y < CHUNK_SIZE implies {
        let ca = cell_in(a.object_grid@, x, y);
        let cc = #[trigger] cell_in(c.object_grid@, x, y);
        cc == ca || (ca.is_walkable && is_path_collapse(ca, cc))
    } by {
        let cb = cell_in(b.object_grid@, x, y);
        assert(cell_in(b.object_grid@, x, y) == cb);
    }
}

/// Adding paths keeps every cell exactly as walkable as it was.
pub proof fn lemma_only_paths_added_keeps_walkable(a: ObjectGrid, b: ObjectGrid, p: Point)
    requires
        only_paths_added(a, b),
        p.spec_is_inside_grid(),
    ensures
        b.cell_at(p).is_walkable == a.cell_at(p).is_walkable,
        is_path_step(b, p, p) == is_path_step(a, p, p),
        is_valid_connection_point(b, p) == is_valid_connection_point(a, p),
{
    assert(cell_in(b.object_grid@, p.x as int, p.y as int) == b.cell_at(p));
}

/// Collapses the cell at `p` to the path piece `name`.
fn collapse_to_path(grid: &mut ObjectGrid, p: &Point, name: ObjectName)
    requires
        old(grid).wf(),
        is_valid_connection_point(*old(grid), *p),
        name.spec_is_path(),
    ensures
        only_paths_added(*old(grid), *final(grid)),
        is_path_collapse(old(grid).cell_at(*p), final(grid).cell_at(*p)),
        final(grid).cell_at(*p).states()[0].0 == name,
        forall|q: Point|
            q.spec_is_inside_grid() && q != *p ==> #[trigger] final(grid).cell_at(q) == old(grid).cell_at(q),
{
    let ghost before = *grid;
    match grid.get_cell_mut(p) {
        Some(cell) => {
            cell.pre_collapse(name);
        },
        None => {},
    }
    proof {
        assert forall|x: int, y: int| 0 <= x < CHUNK_SIZE && 0 <= y < CHUNK_SIZE implies {
            let b = cell_in(before.object_grid@, x, y);
            let a = #[trigger] cell_in(grid.object_grid@, x, y);
            a == b || (b.is_walkable && is_path_collapse(b, a))
        } by {
        }
        assert forall|y: int| 0 <= y < CHUNK_SIZE implies (#[trigger] grid.object_grid@[y])@.len() == CHUNK_SIZE by {
        }
        assert forall|y: int, x: int|
            0 <= y < CHUNK_SIZE && 0 <= x < CHUNK_SIZE implies (#[trigger] grid.object_grid@[y]@[x]).ig == Point {
            x: x as i32,
            y: y as i32,
        } by {
            assert(grid.object_grid@[y]@[x] == cell_in(grid.object_grid@, x, y));
            assert(before.object_grid@[y]@[x] == cell_in(before.object_grid@, x, y));
        }
        assert forall|q: Point| q.spec_is_inside_grid() && q != *p implies #[trigger] grid.cell_at(q) == before.cell_at(
            q,
        ) by {
            assert(cell_in(grid.object_grid@, q.x as int, q.y as int) == cell_in(before.object_grid@, q.x as int, q.y as int));
        }
    }
}

/// Returns the index of the point of `points` nearest to `from`, the first of several equally near ones.
pub fn closest_index(points: &Vec<Point>, from: &Point) -> (index: usize)
    requires
        points@.len() > 0,
        forall|k: int| 0 <= k < points@.len() ==> (#[trigger] points@[k]).spec_is_inside_grid(),
        from.spec_is_inside_grid(),
    ensures
        index < points@.len(),
        forall|k: int|
            0 <= k < points@.len() ==> from.spec_squared_distance(points@[index as int])
                <= from.spec_squared_distance(#[trigger] points@[k]),
        forall|k: int|
            0 <= k < index ==> from.spec_squared_distance(points@[index as int]) < from.spec_squared_distance(
                #[trigger] points@[k],
            ),
{
    let mut best: usize = 0;
    let mut best_distance = squared_distance(from, &points[0]);
    let mut k: usize = 1;
    while k < points.len()
        invariant
            1 <= k <= points@.len(),
            best < k,
            forall|j: int| 0 <= j < points@.len() ==> (#[trigger] points@[j]).spec_is_inside_grid(),
            from.spec_is_inside_grid(),
            best_distance == from.spec_squared_distance(points@[best as int]),
            forall|j: int|
                0 <= j < k ==> from.spec_squared_distance(points@[best as int]) <= from.spec_squared_distance(
                    #[trigger] points@[j],
                ),
            forall|j: int|
                0 <= j < best ==> from.spec_squared_distance(points@[best as int]) < from.spec_squared_distance(
                    #[trigger] points@[j],
                ),
        decreases points@.len() - k,
    {
        let d = squared_distance(from, &points[k]);
        if d < best_distance {
            best = k;
            best_distance = d;
        }
        k = k + 1;
    }
    best
}

/// Returns the squared distance between two points of a chunk.
fn squared_distance(a: &Point, b: &Point) -> (d: i64)
    requires
        a.spec_is_inside_grid(),
        b.spec_is_inside_grid(),
    ensures
        d == a.spec_squared_distance(*b),
{
    let dx = (a.x - b.x) as i64;
    let dy = (a.y - b.y) as i64;
    proof {
        assert(dx * dx <= 1024) by (nonlinear_arith)
            requires -32 < dx < 32;
        assert(dy * dy <= 1024) by (nonlinear_arith)
            requires -32 < dy < 32;
        assert(dx * dx >= 0) by (nonlinear_arith);
        assert(dy * dy >= 0) by (nonlinear_arith);
    }
    dx * dx + dy * dy
}

/// The direction of the entry before entry `k` of a segment, as seen from entry `k`; [`Direction::Center`] for the
/// first entry.
pub open spec fn previous_direction(segment: Seq<(Point, Direction)>, k: int) -> Direction {
    if k == 0 {
        Direction::Center
    } else {
        segment[k - 1].1.spec_opposite()
    }
}

/// Whether no entry of `path` after entry `k` lies at the same position, among the first `n`.
#[verifier::opaque]
pub open spec fn is_last_before(path: Seq<(Point, Direction)>, k: int, n: int) -> bool {
    forall|j: int| k < j < n ==> #[trigger] path[j].0 != path[k].0
}

/// Whether the cell of each of the first `n` entries of a segment that no later one among them shares a position
/// with holds the path piece named after the directions of the entries before and after it.
#[verifier::opaque]
pub open spec fn named_prefix(grid: ObjectGrid, segment: Seq<(Point, Direction)>, n: int) -> bool {
    forall|k: int|
        0 <= k < n && is_last_before(segment, k, n) ==> grid.cell_at((#[trigger] segment[k]).0).states()[0].0
            == spec_determine_path_object_name(previous_direction(segment, k), segment[k].1, segment[k].0)
}

/// No entry among none is unnamed.
proof fn lemma_named_empty(grid: ObjectGrid, segment: Seq<(Point, Direction)>)
    ensures
        named_prefix(grid, segment, 0),
{
    reveal(named_prefix);
}

/// Naming the cell of entry `i` keeps the earlier entries named.
#[verifier::rlimit(100)]
proof fn lemma_named_step(mid: ObjectGrid, after: ObjectGrid, segment: Seq<(Point, Direction)>, i: int)
    requires
        named_prefix(mid, segment, i),
        0 <= i < segment.len(),
        segment[i].0.spec_is_inside_grid(),
        forall|k: int| 0 <= k < segment.len() ==> (#[trigger] segment[k]).0.spec_is_inside_grid(),
        after.cell_at(segment[i].0).states()[0].0 == spec_determine_path_object_name(
            previous_direction(segment, i),
            segment[i].1,
            segment[i].0,
        ),
        forall|q: Point| q.spec_is_inside_grid() && q != segment[i].0 ==> #[trigger] after.cell_at(q) == mid.cell_at(q),
    ensures
        named_prefix(after, segment, i + 1),
{
    reveal(named_prefix);
    assert forall|k: int|
        0 <= k < i + 1 && is_last_before(segment, k, i + 1) implies after.cell_at((#[trigger] segment[k]).0).states()[0].0
        == spec_determine_path_object_name(previous_direction(segment, k), segment[k].1, segment[k].0) by {
        if k < i {
            lemma_last_before_shorter(segment, k, i);
            assert(after.cell_at(segment[k].0) == mid.cell_at(segment[k].0));
        }
    }
}

/// An entry that no later one among the first `n + 1` shares a position with is such among the first `n`, and does
/// not share a position with entry `n`.
proof fn lemma_last_before_shorter(path: Seq<(Point, Direction)>, k: int, n: int)
    requires
        0 <= k < n < path.len(),
        is_last_before(path, k, n + 1),
    ensures
        is_last_before(path, k, n),
        path[n].0 != path[k].0,
{
    reveal(is_last_before);
}

/// Collapses the cells of one path segment, each to the piece that joins the directions of its neighbours in the
/// segment (see [`determine_path_object_name`]).
#[verifier::rlimit(50)]
fn collapse_segment(grid: &mut ObjectGrid, segment: &Vec<(Point, Direction)>)
    requires
        old(grid).wf(),
        forall|k: int| 0 <= k < segment@.len() ==> is_valid_connection_point(*old(grid), (#[trigger] segment@[k]).0),
    ensures
        only_paths_added(*old(grid), *final(grid)),
        forall|k: int| 0 <= k < segment@.len() ==> is_collapsed_path_cell(final(grid).cell_at((#[trigger] segment@[k]).0)),
        forall|q: Point|
            q.spec_is_inside_grid() && #[trigger] final(grid).cell_at(q) != old(grid).cell_at(q) ==> exists|k: int|
                0 <= k < segment@.len() && segment@[k].0 == q,
        named_prefix(*final(grid), segment@, segment@.len() as int),
{
    let ghost before = *grid;
    let mut i: usize = 0;
    proof {
        lemma_only_paths_added_refl(before);
        lemma_named_empty(before, segment@);
    }
    while i < segment.len()
        invariant
            before.wf(),
            only_paths_added(before, *grid),
            i <= segment@.len(),
            forall|k: int| 0 <= k < segment@.len() ==> is_valid_connection_point(before, (#[trigger] segment@[k]).0),
            forall|k: int| 0 <= k < i ==> is_collapsed_path_cell(grid.cell_at((#[trigger] segment@[k]).0)),
            forall|q: Point|
                q.spec_is_inside_grid() && #[trigger] grid.cell_at(q) != before.cell_at(q) ==> exists|k: int|
                    0 <= k < i && segment@[k].0 == q,
            named_prefix(*grid, segment@, i as int),
        decreases segment@.len() - i,
    {
        let previous = if i > 0 {
            segment[i - 1].1.to_opposite()
        } else {
            Direction::Center
        };
        let (point, next) = segment[i];
        let name = determine_path_object_name(&previous, &next, &point);
        let ghost mid = *grid;
        proof {
            assert(is_valid_connection_point(before, segment@[i as int].0));
            lemma_only_paths_added_keeps_walkable(before, mid, point);
        }
        collapse_to_path(grid, &point, name);
        proof {
            lemma_only_paths_added_transitive(before, mid, *grid);
            assert forall|k: int| 0 <= k < i + 1 implies is_collapsed_path_cell(grid.cell_at((#[trigger] segment@[k]).0)) by {
                if segment@[k].0 != point {
                    assert(segment@[k].0.spec_is_inside_grid());
                    lemma_only_paths_added_keeps_paths(mid, *grid, segment@[k].0);
                }
            }
            assert forall|q: Point|
                q.spec_is_inside_grid() && #[trigger] grid.cell_at(q) != before.cell_at(q) implies exists|k: int|
                0 <= k < i + 1 && segment@[k].0 == q by {
                if q == point {
                    assert(segment@[i as int].0 == q);
                } else {
                    assert(grid.cell_at(q) == mid.cell_at(q));
                }
            }
            assert(previous == previous_direction(segment@, i as int));
            assert forall|k: int| 0 <= k < segment@.len() implies (#[trigger] segment@[k]).0.spec_is_inside_grid() by {
                assert(is_valid_connection_point(before, segment@[k].0));
            }
            lemma_named_step(mid, *grid, segment@, i as int);
        }
        i = i + 1;
    }
}


/// The point next to `p` in direction `d`.
pub open spec fn neighbour_in(p: Point, d: Direction) -> Point {
    Point { x: (p.x + d.dx()) as i32, y: (p.y + d.dy()) as i32 }
}

/// Whether the neighbour of `p` in direction `d` lies within the grid and is collapsed.
pub open spec fn has_collapsed_neighbour(grid: ObjectGrid, p: Point, d: Direction) -> bool {
    neighbour_in(p, d).spec_is_inside_grid() && grid.cell_at(neighbour_in(p, d)).is_collapsed
}

/// The cardinal directions in which the cell at `p` has a collapsed neighbour.
pub open spec fn collapsed_neighbour_directions(grid: ObjectGrid, p: Point) -> Set<Direction> {
    let with = |s: Set<Direction>, d: Direction|
        if has_collapsed_neighbour(grid, p, d) {
            s.insert(d)
        } else {
            s
        };
    with(with(with(with(Set::empty(), Direction::Top), Direction::Right), Direction::Bottom), Direction::Left)
}

/// How often `p` occurs among the positions of `path`.
pub open spec fn count_point(path: Seq<(Point, Direction)>, p: Point) -> nat
    decreases path.len(),
{
    if path.len() == 0 {
        0
    } else {
        count_point(path.drop_last(), p) + if path.last().0 == p {
            1nat
        } else {
            0nat
        }
    }
}

/// Whether the path cell at `p` must be renamed once all segments are laid: the path passes it more than once and
/// it has more than one collapsed neighbour.
pub open spec fn is_junction(grid: ObjectGrid, path: Seq<(Point, Direction)>, p: Point) -> bool {
    count_point(path, p) > 1 && collapsed_neighbour_directions(grid, p).len() > 1
}

/// The path piece of a junction at `p`: the one that joins the directions of its collapsed neighbours.
pub open spec fn junction_name(grid: ObjectGrid, p: Point) -> ObjectName {
    path_name_for_directions(completed_directions(collapsed_neighbour_directions(grid, p), p))
}

/// A point that occurs in a path is one of its positions.
proof fn lemma_count_point_positive(path: Seq<(Point, Direction)>, p: Point)
    requires
        count_point(path, p) > 0,
    ensures
        exists|k: int| 0 <= k < path.len() && (#[trigger] path[k]).0 == p,
    decreases path.len(),
{
    if path.last().0 != p {
        lemma_count_point_positive(path.drop_last(), p);
        let k = choose|k: int| 0 <= k < path.drop_last().len() && (#[trigger] path.drop_last()[k]).0 == p;
        assert(path[k] == path.drop_last()[k]);
    } else {
        assert(path[path.len() - 1].0 == p);
    }
}

/// Returns how often `p` occurs among the positions of `path`.
fn count_point_in(path: &Vec<(Point, Direction)>, p: &Point) -> (count: usize)
    ensures
        count == count_point(path@, *p),
{
    let mut count: usize = 0;
    let mut i: usize = 0;
    while i < path.len()
        invariant
            i <= path@.len(),
            count == count_point(path@.subrange(0, i as int), *p),
            count <= i,
        decreases path@.len() - i,
    {
        assert(path@.subrange(0, i + 1).drop_last() =~= path@.subrange(0, i as int));
        if path[i].0 == *p {
            count = count + 1;
        }
        i = i + 1;
    }
    assert(path@.subrange(0, path@.len() as int) =~= path@);
    count
}

/// Appends `d` to `directions` if the cell at `p` has a collapsed neighbour in direction `d`.
fn push_if_collapsed(grid: &ObjectGrid, p: &Point, d: Direction, directions: &mut Vec<Direction>)
    requires
        grid.wf(),
        p.spec_is_inside_grid(),
        d.is_cardinal(),
    ensures
        final(directions)@ == if has_collapsed_neighbour(*grid, *p, d) {
            old(directions)@.push(d)
        } else {
            old(directions)@
        },
{
    let offset = d.to_point();
    let q = Point::new_internal_grid(p.x + offset.x, p.y + offset.y);
    if let Some(cell) = grid.get_cell(&q) {
        if cell.is_collapsed() {
            directions.push(d);
        }
    }
}

/// Returns, once each, the cardinal directions in which the cell at `p` has a collapsed neighbour.
pub fn collapsed_neighbour_directions_of(grid: &ObjectGrid, p: &Point) -> (directions: Vec<Direction>)
    requires
        grid.wf(),
        p.spec_is_inside_grid(),
    ensures
        directions@.no_duplicates(),
        directions@.to_set() == collapsed_neighbour_directions(*grid, *p),
{
    let mut directions: Vec<Direction> = Vec::new();
    push_if_collapsed(grid, p, Direction::Top, &mut directions);
    let ghost s1 = directions@;
    push_if_collapsed(grid, p, Direction::Right, &mut directions);
    let ghost s2 = directions@;
    push_if_collapsed(grid, p, Direction::Bottom, &mut directions);
    let ghost s3 = directions@;
    push_if_collapsed(grid, p, Direction::Left, &mut directions);
    proof {
        let target = collapsed_neighbour_directions(*grid, *p);
        assert forall|d: Direction| directions@.to_set().contains(d) <==> target.contains(d) by {
            crate::object::cell::lemma_push_contains(Seq::<Direction>::empty(), Direction::Top, d);
            crate::object::cell::lemma_push_contains(s1, Direction::Right, d);
            crate::object::cell::lemma_push_contains(s2, Direction::Bottom, d);
            crate::object::cell::lemma_push_contains(s3, Direction::Left, d);
        }
        assert(directions@.to_set() =~= target);
        assert forall|a: int, b: int| 0 <= a < b < directions@.len() implies directions@[a] != directions@[b] by {
        }
    }
    directions
}

/// What renaming the junctions of the path network `path` laid in `grid` gives: a failure exactly when some
/// junction's neighbours name no path piece, naming such a junction; otherwise `grid` with every junction collapsed
/// to the path piece its neighbours name and every other cell kept.
pub open spec fn junctions_renamed(
    grid: ObjectGrid,
    path: Seq<(Point, Direction)>,
    result: Result<ObjectGrid, UnnameablePathCell>,
) -> bool {
    &&& result is Err <==> exists|q: Point|
        q.spec_is_inside_grid() && #[trigger] is_junction(grid, path, q) && !is_nameable(
            completed_directions(collapsed_neighbour_directions(grid, q), q),
        )
    &&& match result {
        Ok(g) => {
            &&& only_paths_added(grid, g)
            &&& forall|q: Point|
                q.spec_is_inside_grid() ==> if is_junction(grid, path, q) {
                    is_path_collapse(grid.cell_at(q), #[trigger] g.cell_at(q)) && g.cell_at(q).states()[0].0
                        == junction_name(grid, q)
                } else {
                    g.cell_at(q) == grid.cell_at(q)
                }
        },
        Err(e) => {
            &&& e.ig.spec_is_inside_grid()
            &&& is_junction(grid, path, e.ig)
            &&& !is_nameable(completed_directions(collapsed_neighbour_directions(grid, e.ig), e.ig))
        },
    }
}

/// Whether the cell of each entry of `path` that no later entry shares a position with holds the path piece named
/// after the direction `prevs` gives for it and the direction of its next entry.
#[verifier::opaque]
pub open spec fn path_named(grid: ObjectGrid, path: Seq<(Point, Direction)>, prevs: Seq<Direction>) -> bool {
    forall|k: int|
        0 <= k < path.len() && is_last_before(path, k, path.len() as int) ==> grid.cell_at((#[trigger] path[k]).0).states()[0].0
            == spec_determine_path_object_name(prevs[k], path[k].1, path[k].0)
}

/// Whether each direction of `prevs` is that of the entry before in `path`, or none where a segment starts.
pub open spec fn prevs_ok(path: Seq<(Point, Direction)>, prevs: Seq<Direction>) -> bool {
    &&& prevs.len() == path.len()
    &&& forall|k: int|
        0 <= k < prevs.len() ==> #[trigger] prevs[k] == Direction::Center || (k > 0 && prevs[k] == path[k
            - 1].1.spec_opposite())
}

/// An empty path is named.
proof fn lemma_path_named_empty(grid: ObjectGrid)
    ensures
        path_named(grid, Seq::empty(), Seq::empty()),
{
    reveal(path_named);
}

/// Laying a named segment after a named path gives a named path.
#[verifier::rlimit(100)]
proof fn lemma_path_named_append(
    before: ObjectGrid,
    after: ObjectGrid,
    path: Seq<(Point, Direction)>,
    prevs: Seq<Direction>,
    segment: Seq<(Point, Direction)>,
)
    requires
        path_named(before, path, prevs),
        prevs_ok(path, prevs),
        named_prefix(after, segment, segment.len() as int),
        forall|k: int| 0 <= k < path.len() ==> (#[trigger] path[k]).0.spec_is_inside_grid(),
        forall|q: Point|
            q.spec_is_inside_grid() && #[trigger] after.cell_at(q) != before.cell_at(q) ==> exists|k: int|
                0 <= k < segment.len() && segment[k].0 == q,
    ensures
        path_named(
            after,
            path + segment,
            prevs + Seq::new(segment.len(), |k: int| previous_direction(segment, k)),
        ),
        prevs_ok(path + segment, prevs + Seq::new(segment.len(), |k: int| previous_direction(segment, k))),
{
    reveal(path_named);
    reveal(named_prefix);
    reveal(is_last_before);
    let full = path + segment;
    let ps = prevs + Seq::new(segment.len(), |k: int| previous_direction(segment, k));
    let n = path.len() as int;
    assert forall|k: int|
        0 <= k < full.len() && is_last_before(full, k, full.len() as int) implies after.cell_at((#[trigger] full[k]).0).states()[0].0
        == spec_determine_path_object_name(ps[k], full[k].1, full[k].0) by {
        if k < n {
            assert(full[k] == path[k]);
            assert(is_last_before(path, k, n)) by {
                assert forall|j: int| k < j < n implies #[trigger] path[j].0 != path[k].0 by {
                    assert(full[j] == path[j]);
                }
            }
            if after.cell_at(path[k].0) != before.cell_at(path[k].0) {
                let j = choose|j: int| 0 <= j < segment.len() && segment[j].0 == path[k].0;
                assert(full[n + j] == segment[j]);
                assert(false);
            }
        } else {
            let k2 = k - n;
            assert(full[k] == segment[k2]);
            assert(is_last_before(segment, k2, segment.len() as int)) by {
                assert forall|j: int| k2 < j < segment.len() implies #[trigger] segment[j].0 != segment[k2].0 by {
                    assert(full[n + j] == segment[j]);
                }
            }
        }
    }
    assert forall|k: int| 0 <= k < ps.len() implies #[trigger] ps[k] == Direction::Center || (k > 0 && ps[k]
        == full[k - 1].1.spec_opposite()) by {
        if k < n {
            assert(ps[k] == prevs[k]);
            if k > 0 {
                assert(full[k - 1] == path[k - 1]);
            }
        } else if k > n {
            assert(full[k - 1] == segment[k - n - 1]);
        }
    }
}

/// Whether `laid` is `grid` with the path network `path` laid between `points`: only path pieces are added, every
/// position of the network is a valid connection point, each of them is a path cell in `laid` named after the
/// directions of the entries before (as `prevs` gives them) and after its last entry, no other cell changes, and,
/// where there are two or more points and all of them can reach each other, every point is a path cell.
pub open spec fn network_laid(
    grid: ObjectGrid,
    points: Seq<Point>,
    laid: ObjectGrid,
    path: Seq<(Point, Direction)>,
    prevs: Seq<Direction>,
) -> bool {
    &&& only_paths_added(grid, laid)
    &&& prevs_ok(path, prevs)
    &&& path_named(laid, path, prevs)
    &&& forall|k: int| 0 <= k < path.len() ==> is_valid_connection_point(grid, (#[trigger] path[k]).0)
    &&& forall|k: int| 0 <= k < path.len() ==> is_collapsed_path_cell(laid.cell_at((#[trigger] path[k]).0))
    &&& forall|q: Point|
        q.spec_is_inside_grid() && #[trigger] laid.cell_at(q) != grid.cell_at(q) ==> exists|k: int|
            0 <= k < path.len() && path[k].0 == q
    &&& points.len() >= 2 && mutually_reachable(grid, points) ==> forall|k: int|
        0 <= k < points.len() ==> is_collapsed_path_cell(laid.cell_at(#[trigger] points[k]))
}

/// Renames the junctions of a path network laid in `grid` (see [`is_junction`]) after their collapsed neighbours,
/// all judged before any is renamed. Fails, changing nothing, if a junction's neighbours name no path piece.
pub fn update_junctions(grid: ObjectGrid, path: &Vec<(Point, Direction)>) -> (result: Result<ObjectGrid, UnnameablePathCell>)
    requires
        grid.wf(),
        forall|k: int| 0 <= k < path@.len() ==> is_valid_connection_point(grid, (#[trigger] path@[k]).0),
    ensures
        junctions_renamed(grid, path@, result),
{
    let mut updates: Vec<(Point, Vec<Direction>)> = Vec::new();
    let mut k: usize = 0;
    while k < path.len()
        invariant
            grid.wf(),
            k <= path@.len(),
            forall|j: int| 0 <= j < path@.len() ==> is_valid_connection_point(grid, (#[trigger] path@[j]).0),
            forall|u: int|
                0 <= u < updates@.len() ==> {
                    let q = (#[trigger] updates@[u]).0;
                    &&& q.spec_is_inside_grid()
                    &&& is_junction(grid, path@, q)
                    &&& updates@[u].1@.no_duplicates()
                    &&& updates@[u].1@.to_set() == collapsed_neighbour_directions(grid, q)
                },
            forall|j: int|
                0 <= j < k && is_junction(grid, path@, (#[trigger] path@[j]).0) ==> exists|u: int|
                    0 <= u < updates@.len() && (#[trigger] updates@[u]).0 == path@[j].0,
        decreases path@.len() - k,
    {
        let p = path[k].0;
        let ghost before = updates@;
        proof {
            assert(is_valid_connection_point(grid, path@[k as int].0));
        }
        if count_point_in(path, &p) > 1 {
            let directions = collapsed_neighbour_directions_of(&grid, &p);
            proof {
                directions@.unique_seq_to_set();
            }
            if directions.len() > 1 {
                updates.push((p, directions));
                proof {
                    assert(updates@[updates@.len() - 1].0 == p);
                }
            } else {
                proof {
                    assert(!is_junction(grid, path@, p));
                }
            }
        }
        proof {
            assert(updates@.len() > before.len() ==> updates@[updates@.len() - 1].0 == p);
            assert(updates@.len() == before.len() ==> !is_junction(grid, path@, p));
            assert forall|j: int|
                0 <= j < k + 1 && is_junction(grid, path@, (#[trigger] path@[j]).0) implies exists|u: int|
                    0 <= u < updates@.len() && (#[trigger] updates@[u]).0 == path@[j].0 by {
                if j < k {
                    let u = choose|u: int| 0 <= u < before.len() && (#[trigger] before[u]).0 == path@[j].0;
                    assert(updates@[u] == before[u]);
                } else {
                    assert(updates@[updates@.len() - 1].0 == p);
                }
            }
        }
        k = k + 1;
    }
    let mut i: usize = 0;
    while i < updates.len()
        invariant
            i <= updates@.len(),
            forall|u: int|
                0 <= u < updates@.len() ==> {
                    let q = (#[trigger] updates@[u]).0;
                    &&& q.spec_is_inside_grid()
                    &&& is_junction(grid, path@, q)
                    &&& updates@[u].1@.no_duplicates()
                    &&& updates@[u].1@.to_set() == collapsed_neighbour_directions(grid, q)
                },
            forall|u: int|
                0 <= u < i ==> is_nameable(
                    completed_directions(collapsed_neighbour_directions(grid, (#[trigger] updates@[u]).0), updates@[u].0),
                ),
        decreases updates@.len() - i,
    {
        if !is_nameable_from_neighbours(&updates[i].1, &updates[i].0) {
            return Err(UnnameablePathCell { ig: updates[i].0 });
        }
        i = i + 1;
    }
    let ghost initial = grid;
    let mut g = grid;
    proof {
        lemma_only_paths_added_refl(initial);
        assert forall|q: Point|
            q.spec_is_inside_grid() && #[trigger] is_junction(initial, path@, q) implies is_nameable(
            completed_directions(collapsed_neighbour_directions(initial, q), q),
        ) by {
            lemma_count_point_positive(path@, q);
            let j = choose|j: int| 0 <= j < path@.len() && (#[trigger] path@[j]).0 == q;
            let u = choose|u: int| 0 <= u < updates@.len() && (#[trigger] updates@[u]).0 == path@[j].0;
        }
    }
    let mut i: usize = 0;
    while i < updates.len()
        invariant
            initial.wf(),
            i <= updates@.len(),
            only_paths_added(initial, g),
            forall|j: int| 0 <= j < path@.len() ==> is_valid_connection_point(initial, (#[trigger] path@[j]).0),
            forall|u: int|
                0 <= u < updates@.len() ==> {
                    let q = (#[trigger] updates@[u]).0;
                    &&& q.spec_is_inside_grid()
                    &&& is_junction(initial, path@, q)
                    &&& updates@[u].1@.no_duplicates()
                    &&& updates@[u].1@.to_set() == collapsed_neighbour_directions(initial, q)
                    &&& is_nameable(completed_directions(collapsed_neighbour_directions(initial, q), q))
                },
            forall|q: Point|
                q.spec_is_inside_grid() ==> if exists|u: int| 0 <= u < i && (#[trigger] updates@[u]).0 == q {
                    is_path_collapse(initial.cell_at(q), #[trigger] g.cell_at(q)) && g.cell_at(q).states()[0].0
                        == junction_name(initial, q)
                } else {
                    g.cell_at(q) == initial.cell_at(q)
                },
        decreases updates@.len() - i,
    {
        let name = determine_path_object_name_from_neighbours(&updates[i].1, &updates[i].0);
        let p = updates[i].0;
        let ghost before = g;
        proof {
            assert(is_junction(initial, path@, p));
            lemma_count_point_positive(path@, p);
            let j = choose|j: int| 0 <= j < path@.len() && (#[trigger] path@[j]).0 == p;
            assert(is_valid_connection_point(initial, path@[j].0));
            lemma_only_paths_added_keeps_walkable(initial, before, p);
        }
        collapse_to_path(&mut g, &p, name);
        proof {
            lemma_only_paths_added_transitive(initial, before, g);
            assert forall|q: Point| q.spec_is_inside_grid() implies if exists|u: int|
                0 <= u < i + 1 && (#[trigger] updates@[u]).0 == q {
                is_path_collapse(initial.cell_at(q), #[trigger] g.cell_at(q)) && g.cell_at(q).states()[0].0
                    == junction_name(initial, q)
            } else {
                g.cell_at(q) == initial.cell_at(q)
            } by {
                if q != p {
                    assert(g.cell_at(q) == before.cell_at(q));
                    if exists|u: int| 0 <= u < i + 1 && (#[trigger] updates@[u]).0 == q {
                        let u = choose|u: int| 0 <= u < i + 1 && (#[trigger] updates@[u]).0 == q;
                        assert(u < i);
                    }
                } else {
                    assert(updates@[i as int].0 == q);
                }
            }
        }
        i = i + 1;
    }
    proof {
        assert forall|q: Point| q.spec_is_inside_grid() implies if is_junction(initial, path@, q) {
            is_path_collapse(initial.cell_at(q), #[trigger] g.cell_at(q)) && g.cell_at(q).states()[0].0
                == junction_name(initial, q)
        } else {
            g.cell_at(q) == initial.cell_at(q)
        } by {
            if is_junction(initial, path@, q) {
                lemma_count_point_positive(path@, q);
                let j = choose|j: int| 0 <= j < path@.len() && (#[trigger] path@[j]).0 == q;
                let u = choose|u: int| 0 <= u < updates@.len() && (#[trigger] updates@[u]).0 == path@[j].0;
            } else {
                if exists|u: int| 0 <= u < updates@.len() && (#[trigger] updates@[u]).0 == q {
                    let u = choose|u: int| 0 <= u < updates@.len() && (#[trigger] updates@[u]).0 == q;
                }
            }
        }
    }
    Ok(g)
}

/// Every position of a path leading back from the target to a valid start is a valid connection point.
proof fn lemma_path_back_valid(grid: ObjectGrid, segment: Seq<(Point, Direction)>, start: Point, target: Point)
    requires
        is_valid_connection_point(grid, start),
        is_path_back(grid, segment, start, target),
    ensures
        forall|k: int| 0 <= k < segment.len() ==> is_valid_connection_point(grid, (#[trigger] segment[k]).0),
{
    assert forall|k: int| 0 <= k < segment.len() implies is_valid_connection_point(grid, (#[trigger] segment[k]).0) by {
        if k < segment.len() - 1 {
            assert(is_back_step(grid, segment, k));
        }
    }
}

/// The positions of an unconnected path are its valid ends.
proof fn lemma_unconnected_valid(grid: ObjectGrid, start: Point, target: Point)
    requires
        is_valid_connection_point(grid, start),
        is_valid_connection_point(grid, target),
    ensures
        forall|k: int|
            0 <= k < unconnected_path(start, target).len() ==> is_valid_connection_point(
                grid,
                (#[trigger] unconnected_path(start, target)[k]).0,
            ),
{
}

/// Every position of a segment found by [`run_algorithm`] is a valid connection point.
proof fn lemma_segment_valid(
    grid: ObjectGrid,
    segment: Seq<(Point, Direction)>,
    start: Point,
    target: Point,
    reachable: bool,
)
    requires
        is_valid_connection_point(grid, start),
        is_valid_connection_point(grid, target),
        reachable ==> is_path_back(grid, segment, start, target),
        !reachable ==> segment == unconnected_path(start, target),
    ensures
        forall|k: int| 0 <= k < segment.len() ==> is_valid_connection_point(grid, (#[trigger] segment[k]).0),
{
    if reachable {
        lemma_path_back_valid(grid, segment, start, target);
    } else {
        lemma_unconnected_valid(grid, start, target);
    }
}

/// Returns a copy of a list of points.
pub fn copy_points(points: &Vec<Point>) -> (copy: Vec<Point>)
    ensures
        copy@ == points@,
{
    let mut copy: Vec<Point> = Vec::new();
    let mut i: usize = 0;
    while i < points.len()
        invariant
            i <= points@.len(),
            copy@ == points@.subrange(0, i as int),
        decreases points@.len() - i,
    {
        copy.push(points[i]);
        i = i + 1;
        assert(copy@ =~= points@.subrange(0, i as int));
    }
    assert(points@.subrange(0, points@.len() as int) =~= points@);
    copy
}

/// Whether every two of the points can reach each other through walkable cells.
pub open spec fn mutually_reachable(grid: ObjectGrid, points: Seq<Point>) -> bool {
    forall|i: int, j: int|
        0 <= i < points.len() && 0 <= j < points.len() ==> path_reachable(grid, #[trigger] points[i], #[trigger] points[j])
}

/// Lays a path network between connection points: starting at the point at `start_index`, it repeatedly finds a
/// path (see [`run_algorithm`]) to the nearest point not yet connected (the first of several equally near ones),
/// collapses the cells along it to path pieces and continues from there; finally it renames the junctions (see
/// [`update_junctions`]). Fails where a junction's neighbours name no path piece.
#[verifier::rlimit(50)]
pub fn connect_points(grid: ObjectGrid, points: &Vec<Point>, start_index: usize) -> (result: Result<ObjectGrid, UnnameablePathCell>)
    requires
        grid.wf(),
        start_index < points@.len(),
        forall|k: int| 0 <= k < points@.len() ==> is_valid_connection_point(grid, #[trigger] points@[k]),
    ensures
        match result {
            Ok(g) => {
                &&& only_paths_added(grid, g)
                &&& points@.len() >= 2 && mutually_reachable(grid, points@) ==> forall|k: int|
                    0 <= k < points@.len() ==> is_collapsed_path_cell(g.cell_at(#[trigger] points@[k]))
            },
            Err(e) => e.ig.spec_is_inside_grid(),
        },
        exists|laid: ObjectGrid, path: Seq<(Point, Direction)>, prevs: Seq<Direction>|
            #[trigger] network_laid(grid, points@, laid, path, prevs) && junctions_renamed(laid, path, result),
{
    let ghost initial = grid;
    let mut remaining = copy_points(points);
    let ghost copied = remaining@;
    let mut current = remaining.remove(start_index);
    let mut g = grid;
    let mut path: Vec<(Point, Direction)> = Vec::new();
    let ghost mut segments_laid = false;
    let ghost mut prevs: Seq<Direction> = Seq::empty();
    proof {
        lemma_path_named_empty(grid);
        assert(path@ =~= Seq::<(Point, Direction)>::empty());
    }
    proof {
        assert(points@.contains(points@[start_index as int]));
        assert forall|x: Point| remaining@.contains(x) implies points@.contains(x) by {
            let j = choose|j: int| 0 <= j < remaining@.len() && remaining@[j] == x;
            if j < start_index {
                assert(copied[j] == x);
            } else {
                assert(copied[j + 1] == x);
            }
        }
        assert forall|k: int| 0 <= k < points@.len() implies remaining@.contains(#[trigger] points@[k]) || points@[k]
            == current by {
            assert(copied.contains(points@[k]));
            crate::object::cell::lemma_remove_contains(copied, start_index as int, points@[k]);
        }
        lemma_only_paths_added_refl(initial);
        assert forall|k: int| 0 <= k < remaining@.len() implies is_valid_connection_point(initial, #[trigger] remaining@[k]) by {
            if k < start_index {
                assert(remaining@[k] == points@[k]);
            } else {
                assert(remaining@[k] == points@[k + 1]);
            }
        }
    }
    while remaining.len() > 0
        invariant
            initial.wf(),
            only_paths_added(initial, g),
            is_valid_connection_point(initial, current),
            forall|k: int| 0 <= k < remaining@.len() ==> is_valid_connection_point(initial, #[trigger] remaining@[k]),
            forall|k: int| 0 <= k < path@.len() ==> is_valid_connection_point(initial, (#[trigger] path@[k]).0),
            forall|k: int| 0 <= k < path@.len() ==> is_collapsed_path_cell(g.cell_at((#[trigger] path@[k]).0)),
            forall|q: Point|
                q.spec_is_inside_grid() && #[trigger] g.cell_at(q) != initial.cell_at(q) ==> exists|k: int|
                    0 <= k < path@.len() && path@[k].0 == q,
            prevs_ok(path@, prevs),
            path_named(g, path@, prevs),
            points@.contains(current),
            forall|x: Point| remaining@.contains(x) ==> points@.contains(x),
            segments_laid || remaining@.len() + 1 == points@.len(),
            mutually_reachable(initial, points@) ==> forall|k: int|
                0 <= k < points@.len() ==> remaining@.contains(#[trigger] points@[k]) || (points@[k] == current && !segments_laid)
                    || is_collapsed_path_cell(g.cell_at(points@[k])),
            mutually_reachable(initial, points@) && segments_laid ==> is_collapsed_path_cell(g.cell_at(current)),
        decreases remaining@.len(),
    {
        let closest = closest_index(&remaining, &current);
        let ghost before_remove = remaining@;
        let ghost g_before = g;
        let ghost current_before = current;
        let ghost laid_before = segments_laid;
        let target = remaining.remove(closest);
        proof {
            assert(is_valid_connection_point(initial, before_remove[closest as int]));
            lemma_only_paths_added_keeps_walkable(initial, g, current);
            lemma_only_paths_added_keeps_walkable(initial, g, target);
            assert forall|k: int| 0 <= k < remaining@.len() implies is_valid_connection_point(initial, #[trigger] remaining@[k]) by {
                if k < closest {
                    assert(remaining@[k] == before_remove[k]);
                } else {
                    assert(remaining@[k] == before_remove[k + 1]);
                }
            }
        }
        let segment = run_algorithm(&g, &current, &target);
        proof {
            lemma_segment_valid(g, segment@, current, target, path_reachable(g, current, target));
            assert forall|k: int| 0 <= k < segment@.len() implies is_valid_connection_point(initial, (#[trigger] segment@[k]).0) by {
                assert(is_valid_connection_point(g, segment@[k].0));
                lemma_only_paths_added_keeps_walkable(initial, g, segment@[k].0);
            }
        }
        let ghost before_segment = g;
        collapse_segment(&mut g, &segment);
        proof {
            lemma_only_paths_added_transitive(initial, before_segment, g);
            assert forall|j: int| 0 <= j < path@.len() implies is_collapsed_path_cell(g.cell_at((#[trigger] path@[j]).0)) by {
                assert(is_collapsed_path_cell(before_segment.cell_at(path@[j].0)));
                assert(is_valid_connection_point(initial, path@[j].0));
                lemma_only_paths_added_keeps_paths(before_segment, g, path@[j].0);
            }
            assert forall|q: Point|
                q.spec_is_inside_grid() && #[trigger] g.cell_at(q) != initial.cell_at(q) implies (exists|j: int|
                0 <= j < path@.len() && path@[j].0 == q) || (exists|j: int| 0 <= j < segment@.len() && segment@[j].0 == q) by {
                if g.cell_at(q) != before_segment.cell_at(q) {
                    let j = choose|j: int| 0 <= j < segment@.len() && segment@[j].0 == q;
                } else {
                    let j = choose|j: int| 0 <= j < path@.len() && path@[j].0 == q;
                }
            }
        }
        let ghost path_start = path@;
        let mut k: usize = 0;
        while k < segment.len()
            invariant
                k <= segment@.len(),
                forall|j: int| 0 <= j < segment@.len() ==> is_valid_connection_point(initial, (#[trigger] segment@[j]).0),
                forall|j: int| 0 <= j < path@.len() ==> is_valid_connection_point(initial, (#[trigger] path@[j]).0),
                forall|j: int| 0 <= j < segment@.len() ==> is_collapsed_path_cell(g.cell_at((#[trigger] segment@[j]).0)),
                forall|j: int| 0 <= j < path@.len() ==> is_collapsed_path_cell(g.cell_at((#[trigger] path@[j]).0)),
                path@ == path_start + segment@.subrange(0, k as int),
            decreases segment@.len() - k,
        {
            let ghost path_before = path@;
            path.push(segment[k]);
            proof {
                assert(is_valid_connection_point(initial, segment@[k as int].0));
                assert forall|j: int| 0 <= j < path@.len() implies is_collapsed_path_cell(g.cell_at((#[trigger] path@[j]).0)) by {
                    if j < path_before.len() {
                        assert(path@[j] == path_before[j]);
                    } else {
                        assert(path@[j] == segment@[k as int]);
                    }
                }
                assert(path@ =~= path_start + segment@.subrange(0, k + 1));
            }
            k = k + 1;
        }
        proof {
            assert(segment@.subrange(0, k as int) =~= segment@);
            assert forall|j: int| 0 <= j < path_start.len() implies (#[trigger] path_start[j]).0.spec_is_inside_grid() by {
                assert(is_valid_connection_point(initial, path@[j].0));
                assert(path@[j] == path_start[j]);
            }
            lemma_path_named_append(before_segment, g, path_start, prevs, segment@);
            prevs = prevs + Seq::new(segment@.len(), |j: int| previous_direction(segment@, j));
            assert forall|q: Point|
                q.spec_is_inside_grid() && #[trigger] g.cell_at(q) != initial.cell_at(q) implies exists|j: int|
                0 <= j < path@.len() && path@[j].0 == q by {
                if exists|j: int| 0 <= j < path_start.len() && path_start[j].0 == q {
                    let j = choose|j: int| 0 <= j < path_start.len() && path_start[j].0 == q;
                    assert(path@[j] == path_start[j]);
                } else {
                    let j = choose|j: int| 0 <= j < segment@.len() && segment@[j].0 == q;
                    assert(path@[path_start.len() + j] == segment@[j]);
                }
            }
        }
        proof {
            assert(before_remove.contains(before_remove[closest as int]));
            assert(points@.contains(target));
            assert forall|x: Point| remaining@.contains(x) implies points@.contains(x) by {
                let j = choose|j: int| 0 <= j < remaining@.len() && remaining@[j] == x;
                if j < closest {
                    assert(before_remove[j] == x);
                } else {
                    assert(before_remove[j + 1] == x);
                }
                assert(before_remove.contains(x));
            }
            if mutually_reachable(initial, points@) {
                let ci = choose|i: int| 0 <= i < points@.len() && points@[i] == current_before;
                let ti = choose|i: int| 0 <= i < points@.len() && points@[i] == target;
                assert(path_reachable(initial, points@[ci], points@[ti]));
                lemma_only_paths_added_keeps_reachability(initial, g_before, current_before, target);
                assert(is_path_back(g_before, segment@, current_before, target));
                assert(segment@[0].0 == target);
                assert(segment@[segment@.len() - 1].0 == current_before);
                assert(is_collapsed_path_cell(g.cell_at(target)));
                assert(is_collapsed_path_cell(g.cell_at(current_before)));
                assert forall|k: int| 0 <= k < points@.len() implies remaining@.contains(#[trigger] points@[k]) || (
                points@[k] == target && !true) || is_collapsed_path_cell(g.cell_at(points@[k])) by {
                    let p = points@[k];
                    if before_remove.contains(p) {
                        crate::object::cell::lemma_remove_contains(before_remove, closest as int, p);
                    } else if p != current_before {
                        assert(is_collapsed_path_cell(g_before.cell_at(p)));
                        lemma_only_paths_added_keeps_paths(g_before, g, p);
                    }
                }
            }
            segments_laid = true;
        }
        current = target;
    }
    proof {
        if mutually_reachable(initial, points@) && points@.len() >= 2 {
            assert(segments_laid);
        }
    }
    proof {
        assert forall|k: int| 0 <= k < path@.len() implies is_valid_connection_point(g, (#[trigger] path@[k]).0) by {
            lemma_only_paths_added_keeps_walkable(initial, g, path@[k].0);
        }
    }
    let ghost laid = g;
    proof {
        if mutually_reachable(initial, points@) && points@.len() >= 2 {
            assert forall|k: int| 0 <= k < points@.len() implies is_collapsed_path_cell(laid.cell_at(#[trigger] points@[k])) by {
                assert(!remaining@.contains(points@[k]));
            }
        }
        assert(network_laid(initial, points@, laid, path@, prevs));
    }
    let result = update_junctions(g, &path);
    proof {
        assert(network_laid(initial, points@, laid, path@, prevs) && junctions_renamed(laid, path@, result));
    }
    match result {
        Ok(updated) => {
            proof {
                lemma_only_paths_added_transitive(initial, laid, updated);
                if mutually_reachable(initial, points@) && points@.len() >= 2 {
                    assert forall|k: int| 0 <= k < points@.len() implies is_collapsed_path_cell(
                        updated.cell_at(#[trigger] points@[k]),
                    ) by {
                        assert(!remaining@.contains(points@[k]));
                        assert(is_collapsed_path_cell(laid.cell_at(points@[k])));
                        assert(is_valid_connection_point(initial, points@[k]));
                        lemma_only_paths_added_keeps_paths(laid, updated, points@[k]);
                    }
                }
            }
            Ok(updated)
        },
        Err(e) => Err(e),
    }
}

/// Keeps the connection points that are valid (see [`is_valid_connection_point`]), in order.
pub fn valid_connection_points(grid: &ObjectGrid, connection_points: &Vec<Point>) -> (points: Vec<Point>)
    requires
        grid.wf(),
    ensures
        points@ == connection_points@.filter(|p: Point| is_valid_connection_point(*grid, p)),
{
    let ghost pred = |p: Point| is_valid_connection_point(*grid, p);
    let mut points: Vec<Point> = Vec::new();
    let mut i: usize = 0;
    proof {
        reveal(Seq::filter);
        assert(connection_points@.subrange(0, 0).filter(pred) =~= Seq::<Point>::empty());
    }
    while i < connection_points.len()
        invariant
            grid.wf(),
            i <= connection_points@.len(),
            pred == (|p: Point| is_valid_connection_point(*grid, p)),
            points@ == connection_points@.subrange(0, i as int).filter(pred),
        decreases connection_points@.len() - i,
    {
        let p = connection_points[i];
        let keep = match grid.get_cell(&p) {
            Some(cell) => cell.is_walkable(),
            None => false,
        };
        if keep {
            points.push(p);
        }
        proof {
            reveal(Seq::filter);
            let next = connection_points@.subrange(0, i + 1);
            assert(next.drop_last() =~= connection_points@.subrange(0, i as int));
            assert(next.last() == p);
            assert(keep == pred(p));
        }
        i = i + 1;
    }
    assert(connection_points@.subrange(0, connection_points@.len() as int) =~= connection_points@);
    points
}

/// Lays the paths of a chunk between its connection points, if path generation is enabled. Only connection points
/// within the grid on walkable cells are used. Without any nothing changes; a single one on the edge of the chunk
/// becomes a dead end facing the neighbouring chunk; from two on, the network starts at a random one (see
/// [`connect_points`]).
pub fn calculate_paths(
    generate_paths: bool,
    connection_points: &Vec<Point>,
    object_grid: ObjectGrid,
    rng: &mut StdRng,
) -> (result: Result<ObjectGrid, UnnameablePathCell>)
    requires
        object_grid.wf(),
    ensures
        ({
            let valid = connection_points@.filter(|p: Point| is_valid_connection_point(object_grid, p));
            &&& !generate_paths ==> (result matches Ok(g) && g == object_grid)
            &&& generate_paths && valid.len() == 0 ==> (result matches Ok(g) && g == object_grid)
            &&& generate_paths && valid.len() == 1 && !spec_is_edge_connection_point(valid[0]) ==> (result matches Ok(g)
                && g == object_grid)
            &&& generate_paths && valid.len() == 1 && spec_is_edge_connection_point(valid[0]) ==> (result matches Ok(g)
                && only_paths_added(object_grid, g) && is_path_collapse(object_grid.cell_at(valid[0]), g.cell_at(valid[0]))
                && g.cell_at(valid[0]).states()[0].0 == path_name_for_directions(
                set![spec_direction_to_neighbour_chunk(valid[0])],
            ) && forall|q: Point|
                q.spec_is_inside_grid() && q != valid[0] ==> #[trigger] g.cell_at(q) == object_grid.cell_at(q))
            &&& generate_paths && valid.len() >= 2 ==> match result {
                Ok(g) => {
                    &&& only_paths_added(object_grid, g)
                    &&& mutually_reachable(object_grid, valid) ==> forall|k: int|
                        0 <= k < valid.len() ==> is_collapsed_path_cell(g.cell_at(#[trigger] valid[k]))
                },
                Err(e) => e.ig.spec_is_inside_grid(),
            }
            &&& generate_paths && valid.len() >= 2 ==> exists|
                laid: ObjectGrid,
                path: Seq<(Point, Direction)>,
                prevs: Seq<Direction>,
            |
                #[trigger] network_laid(object_grid, valid, laid, path, prevs) && junctions_renamed(laid, path, result)
        }),
{
    if !generate_paths {
        return Ok(object_grid);
    }
    let points = valid_connection_points(&object_grid, connection_points);
    let ghost pred = |p: Point| is_valid_connection_point(object_grid, p);
    proof {
        assert forall|k: int| 0 <= k < points@.len() implies is_valid_connection_point(object_grid, #[trigger] points@[k]) by {
            connection_points@.lemma_filter_pred(pred, k);
        }
    }
    if points.len() == 0 {
        return Ok(object_grid);
    }
    if points.len() == 1 {
        let p = points[0];
        if !is_edge_connection_point(&p) {
            return Ok(object_grid);
        }
        let mut grid = object_grid;
        let mut directions: Vec<Direction> = Vec::new();
        directions.push(direction_to_neighbour_chunk(&p));
        let ghost d = spec_direction_to_neighbour_chunk(p);
        proof {
            assert(directions@ == seq![d]);
            assert forall|x: Direction| directions@.to_set().contains(x) <==> set![d].contains(x) by {
                crate::object::cell::lemma_push_contains(Seq::<Direction>::empty(), d, x);
            }
            assert(directions@.to_set() =~= set![d]);
            assert(set![d].len() == 1);
            assert(completed_directions(set![d], p) == set![d]);
        }
        let name = determine_path_object_name_from_neighbours(&directions, &p);
        collapse_to_path(&mut grid, &p, name);
        return Ok(grid);
    }
    let start_index = random_index(rng, points.len());
    connect_points(object_grid, &points, start_index)
}
/// Adding paths keeps every path cell a path cell.
pub proof fn lemma_only_paths_added_keeps_paths(a: ObjectGrid, b: ObjectGrid, p: Point)
    requires
        only_paths_added(a, b),
        p.spec_is_inside_grid(),
        is_collapsed_path_cell(a.cell_at(p)),
    ensures
        is_collapsed_path_cell(b.cell_at(p)),
{
    assert(cell_in(b.object_grid@, p.x as int, p.y as int) == b.cell_at(p));
}

/// Adding paths leaves every cell as walkable as it was, so the same positions can reach each other.
pub proof fn lemma_only_paths_added_keeps_reachability(a: ObjectGrid, b: ObjectGrid, p: Point, q: Point)
    requires
        only_paths_added(a, b),
    ensures
        path_reachable(a, p, q) == path_reachable(b, p, q),
{
    assert forall|w: Seq<Point>| #[trigger] is_path_walk(a, w) <==> is_path_walk(b, w) by {
        assert forall|i: int| 0 <= i < w.len() - 1 implies is_path_step(a, #[trigger] w[i], w[i + 1]) == is_path_step(
            b,
            w[i],
            w[i + 1],
        ) by {
            if w[i + 1].spec_is_inside_grid() {
                lemma_only_paths_added_keeps_walkable(a, b, w[i + 1]);
            }
        }
    }
    if path_reachable(a, p, q) {
        let w = choose|w: Seq<Point>| #[trigger] is_path_walk(a, w) && w[0] == p && w.last() == q;
        assert(is_path_walk(b, w));
    }
    if path_reachable(b, p, q) {
        let w = choose|w: Seq<Point>| #[trigger] is_path_walk(b, w) && w[0] == p && w.last() == q;
        assert(is_path_walk(a, w));
    }
}

/// A grid has added nothing to itself.
pub proof fn lemma_only_paths_added_refl(grid: ObjectGrid)
    requires
        grid.wf(),
    ensures
        only_paths_added(grid, grid),
{
}

} // verus!
