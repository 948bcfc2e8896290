use crate::constants::CHUNK_SIZE;
use crate::coords::{Direction, Point};
use crate::object::entropy_index::{
    lemma_cell_index_round_trip, lemma_point_of_round_trip, point_of, spec_cell_index, CELL_COUNT,
};
use crate::object::object_grid::ObjectGrid;
use crate::object::path_names::{is_edge_connection_point, spec_is_edge_connection_point};
use crate::object::pathfinding::{chain_walk, distance_cost, Node, PathGraph};
use vstd::prelude::*;

verus! {

/// Whether a path may step from `a` to `b`: both lie within the grid, `b` is a horizontal or vertical neighbour of
/// `a`, and the cell at `b` is walkable.
pub open spec fn is_path_step(grid: ObjectGrid, a: Point, b: Point) -> bool {
    &&& a.spec_is_inside_grid()
    &&& b.spec_is_inside_grid()
    &&& ((b.x == a.x && (b.y == a.y + 1 || b.y == a.y - 1)) || (b.y == a.y && (b.x == a.x + 1 || b.x == a.x - 1)))
    &&& grid.cell_at(b).is_walkable
}

/// Whether `walk` is a sequence of grid positions, each a path step from the one before.
pub open spec fn is_path_walk(grid: ObjectGrid, walk: Seq<Point>) -> bool {
    &&& walk.len() >= 1
    &&& walk[0].spec_is_inside_grid()
    &&& forall|i: int| 0 <= i < walk.len() - 1 ==> is_path_step(grid, #[trigger] walk[i], walk[i + 1])
}

/// Whether a path can lead from `a` to `b` through walkable cells.
pub open spec fn path_reachable(grid: ObjectGrid, a: Point, b: Point) -> bool {
    exists|walk: Seq<Point>| #[trigger] is_path_walk(grid, walk) && walk[0] == a && walk.last() == b
}

/// Whether `path` leads back from `target` to `start`: each entry holds a position and the direction of the next
/// entry's position, which is a path step away from it towards the start, and the last entry, at the start, holds
/// [`Direction::Center`].
pub open spec fn is_path_back(grid: ObjectGrid, path: Seq<(Point, Direction)>, start: Point, target: Point) -> bool {
    &&& path.len() >= 1
    &&& path[0].0 == target
    &&& path.last().0 == start
    &&& path.last().1 == Direction::Center
    &&& forall|k: int| 0 <= k < path.len() - 1 ==> #[trigger] is_back_step(grid, path, k)
}

/// Whether entry `k` of `path` is a path step away from entry `k + 1` and holds the direction of it.
pub open spec fn is_back_step(grid: ObjectGrid, path: Seq<(Point, Direction)>, k: int) -> bool {
    &&& is_path_step(grid, path[k + 1].0, path[k].0)
    &&& path[k].1 == Direction::spec_from_points(path[k].0, path[k + 1].0)
}

/// What is left when no path joins `start` and `target`: each of them that lies on the edge of the chunk, as a path
/// of its own.
pub open spec fn unconnected_path(start: Point, target: Point) -> Seq<(Point, Direction)> {
    let s: Seq<(Point, Direction)> = if spec_is_edge_connection_point(start) {
        seq![(start, Direction::Center)]
    } else {
        Seq::empty()
    };
    if spec_is_edge_connection_point(target) {
        s.push((target, Direction::Center))
    } else {
        s
    }
}

/// Appends the index of `q` to `neighbours` if `q` lies within the grid and its cell is walkable.
fn push_if_walkable(grid: &ObjectGrid, q: Point, neighbours: &mut Vec<usize>)
    requires
        grid.wf(),
    ensures
        final(neighbours)@ == if q.spec_is_inside_grid() && grid.cell_at(q).is_walkable {
            old(neighbours)@.push(spec_cell_index(q) as usize)
        } else {
            old(neighbours)@
        },
{
    if let Some(cell) = grid.get_cell(&q) {
        if cell.is_walkable() {
            neighbours.push((q.y * CHUNK_SIZE + q.x) as usize);
        }
    }
}

/// Pushing `q`'s index if its cell is walkable extends a list that holds, once each, the indices of the walkable
/// cells among `qs` to one that holds those among `qs` and `q`, provided `q` is not among `qs`.
pub proof fn lemma_push_step(before: Seq<usize>, after: Seq<usize>, qs: Seq<Point>, q: Point, ok: spec_fn(Point) -> bool)
    requires
        before.no_duplicates(),
        forall|v: usize| before.contains(v) <==> exists|m: int| 0 <= m < qs.len() && ok(#[trigger] qs[m]) && v == spec_cell_index(qs[m]) as usize,
        after == if ok(q) { before.push(spec_cell_index(q) as usize) } else { before },
        forall|m: int| 0 <= m < qs.len() ==> (#[trigger] qs[m]) != q,
        forall|m: int| 0 <= m < qs.len() && ok(#[trigger] qs[m]) ==> qs[m].spec_is_inside_grid(),
        ok(q) ==> q.spec_is_inside_grid(),
    ensures
        after.no_duplicates(),
        forall|v: usize| after.contains(v) <==> exists|m: int| 0 <= m < qs.push(q).len() && ok(#[trigger] qs.push(q)[m]) && v == spec_cell_index(qs.push(q)[m]) as usize,
{
    let qs2 = qs.push(q);
    if ok(q) {
        lemma_cell_index_round_trip(q);
        let x = spec_cell_index(q) as usize;
        assert(!before.contains(x)) by {
            if before.contains(x) {
                let m = choose|m: int| 0 <= m < qs.len() && ok(#[trigger] qs[m]) && x == spec_cell_index(qs[m]) as usize;
                lemma_cell_index_round_trip(qs[m]);
            }
        }
        assert forall|a: int, b: int| 0 <= a < b < after.len() implies after[a] != after[b] by {
            if b == before.len() {
                assert(before.contains(after[a]));
            }
        }
    }
    assert forall|v: usize| after.contains(v) implies exists|m: int|
        0 <= m < qs2.len() && ok(#[trigger] qs2[m]) && v == spec_cell_index(qs2[m]) as usize by {
        if ok(q) {
            crate::object::cell::lemma_push_contains(before, spec_cell_index(q) as usize, v);
        }
        if ok(q) && v == spec_cell_index(q) as usize {
            assert(qs2[qs.len() as int] == q);
        } else {
            assert(before.contains(v));
            let m = choose|m: int| 0 <= m < qs.len() && ok(#[trigger] qs[m]) && v == spec_cell_index(qs[m]) as usize;
            assert(qs2[m] == qs[m]);
        }
    }
    assert forall|v: usize| (exists|m: int| 0 <= m < qs2.len() && ok(#[trigger] qs2[m]) && v == spec_cell_index(qs2[m]) as usize) implies after.contains(v) by {
        let m = choose|m: int| 0 <= m < qs2.len() && ok(#[trigger] qs2[m]) && v == spec_cell_index(qs2[m]) as usize;
        if m < qs.len() {
            assert(qs2[m] == qs[m]);
            assert(before.contains(v));
            if ok(q) {
                crate::object::cell::lemma_push_contains(before, spec_cell_index(q) as usize, v);
            }
        } else {
            assert(qs2[m] == q);
            crate::object::cell::lemma_push_contains(before, spec_cell_index(q) as usize, v);
        }
    }
}

/// Returns the indices of the positions a path may step to from `p`, below, left, right and above it in that order.
fn path_neighbours(grid: &ObjectGrid, p: Point) -> (neighbours: Vec<usize>)
    requires
        grid.wf(),
        p.spec_is_inside_grid(),
    ensures
        neighbours@.no_duplicates(),
        forall|k: int|
            0 <= k < neighbours@.len() ==> (#[trigger] neighbours@[k]) < CELL_COUNT && is_path_step(*grid,
                p,
                point_of(neighbours@[k] as int),
            ),
        forall|j: int|
            0 <= j < CELL_COUNT && is_path_step(*grid, p, #[trigger] point_of(j)) ==> neighbours@.contains(j as usize),
{
    let below = Point::new_internal_grid(p.x, p.y + 1);
    let left = Point::new_internal_grid(p.x - 1, p.y);
    let right = Point::new_internal_grid(p.x + 1, p.y);
    let above = Point::new_internal_grid(p.x, p.y - 1);
    let mut neighbours: Vec<usize> = Vec::new();
    let ghost ok = |q: Point| q.spec_is_inside_grid() && grid.cell_at(q).is_walkable;
    let ghost member = |s: Seq<usize>, qs: Seq<Point>|
        forall|v: usize| s.contains(v) <==> exists|m: int| 0 <= m < qs.len() && ok(#[trigger] qs[m]) && v == spec_cell_index(qs[m]) as usize;
    proof {
        lemma_cell_index_round_trip(p);
        if ok(below) { lemma_cell_index_round_trip(below); }
        if ok(left) { lemma_cell_index_round_trip(left); }
        if ok(right) { lemma_cell_index_round_trip(right); }
        if ok(above) { lemma_cell_index_round_trip(above); }
        assert(member(neighbours@, Seq::empty()));
    }
    let ghost s0 = neighbours@;
    push_if_walkable(grid, below, &mut neighbours);
    proof {
        lemma_push_step(s0, neighbours@, Seq::empty(), below, ok);
        assert(Seq::<Point>::empty().push(below) =~= seq![below]);
    }
    let ghost s1 = neighbours@;
    push_if_walkable(grid, left, &mut neighbours);
    proof {
        lemma_push_step(s1, neighbours@, seq![below], left, ok);
        assert(seq![below].push(left) =~= seq![below, left]);
    }
    let ghost s2 = neighbours@;
    push_if_walkable(grid, right, &mut neighbours);
    proof {
        lemma_push_step(s2, neighbours@, seq![below, left], right, ok);
        assert(seq![below, left].push(right) =~= seq![below, left, right]);
    }
    let ghost s3 = neighbours@;
    push_if_walkable(grid, above, &mut neighbours);
    proof {
        lemma_push_step(s3, neighbours@, seq![below, left, right], above, ok);
        let qs = seq![below, left, right, above];
        assert(seq![below, left, right].push(above) =~= qs);
        assert forall|k: int| 0 <= k < neighbours@.len() implies (#[trigger] neighbours@[k]) < CELL_COUNT
            && is_path_step(*grid, p, point_of(neighbours@[k] as int)) by {
            assert(neighbours@.contains(neighbours@[k]));
            let m = choose|m: int| 0 <= m < qs.len() && ok(#[trigger] qs[m]) && neighbours@[k] == spec_cell_index(qs[m]) as usize;
            lemma_cell_index_round_trip(qs[m]);
        }
        assert forall|j: int|
            0 <= j < CELL_COUNT && is_path_step(*grid, p, #[trigger] point_of(j)) implies neighbours@.contains(
            j as usize,
        ) by {
            lemma_point_of_round_trip(j);
            let q = point_of(j);
            let m: int = if q == below { 0 } else if q == left { 1 } else if q == right { 2 } else { 3 };
            assert(qs[m] == q);
            assert(ok(qs[m]) && j as usize == spec_cell_index(qs[m]) as usize);
        }
    }
    neighbours
}

/// Returns the path finding graph of a grid: one node per position, in row-major order, linked to the positions a
/// path may step to from it.
pub fn build_path_graph(grid: &ObjectGrid) -> (graph: PathGraph)
    requires
        grid.wf(),
    ensures
        graph.wf(),
        graph.is_fresh(),
        graph.nodes@.len() == CELL_COUNT,
        forall|i: int| 0 <= i < CELL_COUNT ==> (#[trigger] graph.nodes@[i]).ig == point_of(i),
        forall|i: int, j: int|
            0 <= i < CELL_COUNT && 0 <= j < CELL_COUNT ==> (graph.has_edge(i, j) <==> is_path_step(*grid,
                point_of(i),
                point_of(j),
            )),
{
    let mut nodes: Vec<Node> = Vec::new();
    let mut i: usize = 0;
    while i < CELL_COUNT
        invariant
            grid.wf(),
            i <= CELL_COUNT,
            nodes@.len() == i,
            forall|a: int|
                0 <= a < i ==> {
                    let node = #[trigger] nodes@[a];
                    &&& node.ig == point_of(a)
                    &&& node.connection.is_none()
                    &&& node.g == 0
                    &&& node.h == 0
                    &&& forall|k: int|
                        0 <= k < node.neighbours@.len() ==> (#[trigger] node.neighbours@[k]) < CELL_COUNT
                            && is_path_step(*grid, point_of(a), point_of(node.neighbours@[k] as int))
                    &&& forall|j: int|
                        0 <= j < CELL_COUNT && is_path_step(*grid, point_of(a), #[trigger] point_of(j))
                            ==> node.neighbours@.contains(j as usize)
                },
        decreases CELL_COUNT - i,
    {
        let p = Point::new_internal_grid((i % 32) as i32, (i / 32) as i32);
        proof {
            lemma_point_of_round_trip(i as int);
        }
        let mut node = Node::new(p);
        node.neighbours = path_neighbours(grid, p);
        nodes.push(node);
        i = i + 1;
    }
    let graph = PathGraph { nodes };
    proof {
        assert forall|a: int, k: int|
            0 <= a < graph.nodes@.len() && 0 <= k < graph.nodes@[a].neighbours@.len() implies {
                let j = #[trigger] graph.nodes@[a].neighbours@[k];
                &&& j < graph.nodes@.len()
                &&& graph.nodes@[j as int].ig != graph.nodes@[a].ig
            } by {
            let j = graph.nodes@[a].neighbours@[k];
            assert(is_path_step(*grid, point_of(a), point_of(j as int)));
        }
        assert forall|a: int| 0 <= a < graph.nodes@.len() implies (#[trigger] graph.nodes@[a]).ig.spec_is_inside_grid() by {
            lemma_point_of_round_trip(a);
        }
        assert forall|a: int, j: int|
            0 <= a < CELL_COUNT && 0 <= j < CELL_COUNT implies (graph.has_edge(a, j) <==> is_path_step(*grid,
                point_of(a),
                point_of(j),
            )) by {
            let node = graph.nodes@[a];
            if graph.has_edge(a, j) {
                let k = choose|k: int| 0 <= k < node.neighbours@.len() && node.neighbours@[k] == j as usize;
                assert(is_path_step(*grid, point_of(a), point_of(node.neighbours@[k] as int)));
            }
        }
    }
    graph
}

/// A walk through the graph of a grid is a walk through the grid's positions, and the other way round.
proof fn lemma_reachable_in_graph(grid: ObjectGrid, graph: PathGraph, s: int, t: int)
    requires
        graph.nodes@.len() == CELL_COUNT,
        forall|i: int, j: int|
            0 <= i < CELL_COUNT && 0 <= j < CELL_COUNT ==> (graph.has_edge(i, j) <==> is_path_step(
                grid,
                point_of(i),
                point_of(j),
            )),
        0 <= s < CELL_COUNT,
        0 <= t < CELL_COUNT,
    ensures
        graph.reachable(s, t) <==> path_reachable(grid, point_of(s), point_of(t)),
{
    if graph.reachable(s, t) {
        let walk = choose|walk: Seq<int>| #[trigger] graph.is_walk(walk) && walk[0] == s && walk.last() == t;
        let points = walk.map_values(|i: int| point_of(i));
        assert forall|i: int| 0 <= i < points.len() - 1 implies is_path_step(grid, #[trigger] points[i], points[i + 1]) by {
            assert(graph.has_edge(walk[i], walk[i + 1]));
        }
        lemma_point_of_round_trip(s);
        assert(is_path_walk(grid, points));
    }
    if path_reachable(grid, point_of(s), point_of(t)) {
        let points = choose|walk: Seq<Point>| #[trigger] is_path_walk(grid, walk) && walk[0] == point_of(s)
            && walk.last() == point_of(t);
        let walk = points.map_values(|p: Point| spec_cell_index(p));
        assert forall|i: int| 0 <= i < points.len() implies (#[trigger] points[i]).spec_is_inside_grid() by {
            if i > 0 {
                assert(is_path_step(grid, points[i - 1], points[i - 1 + 1]));
            }
        }
        assert forall|i: int| 0 <= i < walk.len() implies 0 <= #[trigger] walk[i] < graph.nodes@.len()
            && point_of(walk[i]) == points[i] by {
            lemma_cell_index_round_trip(points[i]);
        }
        assert forall|i: int| 0 <= i < walk.len() - 1 implies graph.has_edge(#[trigger] walk[i], walk[i + 1]) by {
            assert(point_of(walk[i]) == points[i]);
            assert(point_of(walk[i + 1]) == points[i + 1]);
            assert(is_path_step(grid, points[i], points[i + 1]));
        }
        lemma_point_of_round_trip(s);
        lemma_point_of_round_trip(t);
        assert(walk[0] == s);
        assert(walk.last() == t);
        assert(graph.is_walk(walk));
    }
}

/// In the path finding graph of a grid every step is a horizontal or vertical one, so a walk costs `10` per step.
proof fn lemma_grid_walk_cost(grid: ObjectGrid, graph: PathGraph, walk: Seq<int>)
    requires
        graph.nodes@.len() == CELL_COUNT,
        forall|i: int| 0 <= i < CELL_COUNT ==> (#[trigger] graph.nodes@[i]).ig == point_of(i),
        forall|i: int, j: int|
            0 <= i < CELL_COUNT && 0 <= j < CELL_COUNT ==> (graph.has_edge(i, j) <==> is_path_step(
                grid,
                point_of(i),
                point_of(j),
            )),
        graph.is_walk(walk),
    ensures
        graph.walk_cost(walk) == 10 * (walk.len() - 1),
    decreases walk.len(),
{
    if walk.len() > 1 {
        let rest = walk.drop_last();
        assert(graph.is_walk(rest)) by {
            assert forall|i: int| 0 <= i < rest.len() - 1 implies graph.has_edge(#[trigger] rest[i], rest[i + 1]) by {
                assert(graph.has_edge(walk[i], walk[i + 1]));
            }
        }
        lemma_grid_walk_cost(grid, graph, rest);
        let a = walk[walk.len() - 2];
        let b = walk.last();
        assert(graph.has_edge(walk[walk.len() - 2], walk[walk.len() - 2 + 1]));
        assert(is_path_step(grid, point_of(a), point_of(b)));
        assert(distance_cost(graph.nodes@[a].ig, graph.nodes@[b].ig) == 10);
    }
}

/// A walk between grid positions is a walk in the path finding graph of the grid, of the same length.
proof fn lemma_walk_in_graph(grid: ObjectGrid, graph: PathGraph, points: Seq<Point>) -> (walk: Seq<int>)
    requires
        graph.nodes@.len() == CELL_COUNT,
        forall|i: int, j: int|
            0 <= i < CELL_COUNT && 0 <= j < CELL_COUNT ==> (graph.has_edge(i, j) <==> is_path_step(
                grid,
                point_of(i),
                point_of(j),
            )),
        is_path_walk(grid, points),
    ensures
        graph.is_walk(walk),
        walk.len() == points.len(),
        walk[0] == spec_cell_index(points[0]),
        walk.last() == spec_cell_index(points.last()),
{
    let walk = points.map_values(|p: Point| spec_cell_index(p));
    assert forall|i: int| 0 <= i < points.len() implies (#[trigger] points[i]).spec_is_inside_grid() by {
        if i > 0 {
            assert(is_path_step(grid, points[i - 1], points[i - 1 + 1]));
        }
    }
    assert forall|i: int| 0 <= i < walk.len() implies 0 <= #[trigger] walk[i] < graph.nodes@.len() && point_of(walk[i])
        == points[i] by {
        lemma_cell_index_round_trip(points[i]);
    }
    assert forall|i: int| 0 <= i < walk.len() - 1 implies graph.has_edge(#[trigger] walk[i], walk[i + 1]) by {
        assert(point_of(walk[i]) == points[i]);
        assert(point_of(walk[i + 1]) == points[i + 1]);
        assert(is_path_step(grid, points[i], points[i + 1]));
    }
    walk
}

/// Returns the positions of the nodes of `chain`, each with the direction of the next one (the last with
/// [`Direction::Center`]).
fn path_from_chain(graph: &PathGraph, chain: &Vec<usize>) -> (path: Vec<(Point, Direction)>)
    requires
        graph.nodes@.len() == CELL_COUNT,
        forall|i: int| 0 <= i < CELL_COUNT ==> (#[trigger] graph.nodes@[i]).ig == point_of(i),
        forall|i: int| 0 <= i < chain@.len() ==> (#[trigger] chain@[i]) < CELL_COUNT,
    ensures
        path@.len() == chain@.len(),
        forall|i: int|
            0 <= i < chain@.len() ==> {
                &&& (#[trigger] path@[i]).0 == point_of(chain@[i] as int)
                &&& path@[i].1 == if i + 1 < chain@.len() {
                    Direction::spec_from_points(path@[i].0, point_of(chain@[i + 1] as int))
                } else {
                    Direction::Center
                }
            },
{
    let mut path: Vec<(Point, Direction)> = Vec::new();
    let mut k: usize = 0;
    while k < chain.len()
        invariant
            k <= chain@.len(),
            path@.len() == k,
            graph.nodes@.len() == CELL_COUNT,
            forall|i: int| 0 <= i < CELL_COUNT ==> (#[trigger] graph.nodes@[i]).ig == point_of(i),
            forall|i: int| 0 <= i < chain@.len() ==> (#[trigger] chain@[i]) < CELL_COUNT,
            forall|i: int|
                0 <= i < k ==> {
                    &&& (#[trigger] path@[i]).0 == point_of(chain@[i] as int)
                    &&& path@[i].1 == if i + 1 < chain@.len() {
                        Direction::spec_from_points(path@[i].0, point_of(chain@[i + 1] as int))
                    } else {
                        Direction::Center
                    }
                },
        decreases chain@.len() - k,
    {
        let here = graph.nodes[chain[k]].ig;
        let direction = if k + 1 < chain.len() {
            Direction::from_points(&here, &graph.nodes[chain[k + 1]].ig)
        } else {
            Direction::Center
        };
        path.push((here, direction));
        k = k + 1;
    }
    path
}

/// Finds a path from `start` to `target` through walkable cells with the A* algorithm (see
/// [`PathGraph::find_path`]) and returns it from the target back to the start, each position with the direction of
/// the next one towards the start. Where no path exists, the start and the target are returned on their own, each
/// only if it lies on the edge of the chunk.
pub fn run_algorithm(grid: &ObjectGrid, start: &Point, target: &Point) -> (path: Vec<(Point, Direction)>)
    requires
        grid.wf(),
        start.spec_is_inside_grid(),
        target.spec_is_inside_grid(),
    ensures
        path_reachable(*grid, *start, *target) ==> is_path_back(*grid, path@, *start, *target),
        path_reachable(*grid, *start, *target) ==> forall|walk: Seq<Point>|
            #[trigger] is_path_walk(*grid, walk) && walk[0] == *start && walk.last() == *target ==> path@.len()
                <= walk.len(),
        !path_reachable(*grid, *start, *target) ==> path@ == unconnected_path(*start, *target),
{
    let mut graph = build_path_graph(grid);
    let ghost initial = graph;
    let s = (start.y * CHUNK_SIZE + start.x) as usize;
    let t = (target.y * CHUNK_SIZE + target.x) as usize;
    proof {
        lemma_cell_index_round_trip(*start);
        lemma_cell_index_round_trip(*target);
        lemma_reachable_in_graph(*grid, graph, s as int, t as int);
    }
    match graph.find_path(s, t) {
        Some(chain) => {
            let path = path_from_chain(&graph, &chain);
            proof {
                assert forall|i: int| 0 <= i < path@.len() - 1 implies #[trigger] is_back_step(*grid, path@, i) by {
                    assert(initial.has_edge(chain@[i + 1] as int, chain@[i] as int));
                    assert(path@[i + 1].0 == point_of(chain@[i + 1] as int));
                }
                lemma_cell_index_round_trip(*start);
                lemma_cell_index_round_trip(*target);
                lemma_grid_walk_cost(*grid, initial, chain_walk(chain@));
                assert forall|walk: Seq<Point>|
                    #[trigger] is_path_walk(*grid, walk) && walk[0] == *start && walk.last() == *target implies path@.len()
                        <= walk.len() by {
                    let w = lemma_walk_in_graph(*grid, initial, walk);
                    lemma_grid_walk_cost(*grid, initial, w);
                    assert(initial.walk_cost(chain_walk(chain@)) <= initial.walk_cost(w));
                }
            }
            path
        },
        None => {
            let mut path: Vec<(Point, Direction)> = Vec::new();
            if is_edge_connection_point(start) {
                path.push((*start, Direction::Center));
            }
            if is_edge_connection_point(target) {
                path.push((*target, Direction::Center));
            }
            proof {
                assert(path@ =~= unconnected_path(*start, *target));
            }
            path
        },
    }
}

} // verus!
