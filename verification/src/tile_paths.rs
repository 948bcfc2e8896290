//! Paths across the tiles of a chunk between its two connection points, found with the A* algorithm on a grid in
//! which every tile is linked to its eight surrounding tiles.

use crate::constants::CHUNK_SIZE;
use crate::coords::Point;
use crate::object::entropy_index::{
    lemma_cell_index_round_trip, lemma_point_of_round_trip, point_of, spec_cell_index, CELL_COUNT,
};
use crate::object::path::lemma_push_step;
use crate::object::pathfinding::{chain_walk, distance_cost, Node, PathGraph};
use vstd::prelude::*;

verus! {

/// Whether the chunk has a tile at `p`; `present[x][y]` says whether there is a tile at `(x, y)`.
pub open spec fn has_tile(present: Seq<Vec<bool>>, p: Point) -> bool {
    p.spec_is_inside_grid() && present[p.x as int]@[p.y as int]
}

/// Whether a path may step from the tile at `a` to the tile at `b`, one of the eight tiles around it.
pub open spec fn is_tile_step(present: Seq<Vec<bool>>, a: Point, b: Point) -> bool {
    &&& has_tile(present, a)
    &&& has_tile(present, b)
    &&& a != b
    &&& -1 <= b.x - a.x <= 1
    &&& -1 <= b.y - a.y <= 1
}

/// Whether `walk` is a sequence of tiles, each a step from the one before.
pub open spec fn is_tile_walk(present: Seq<Vec<bool>>, walk: Seq<Point>) -> bool {
    &&& walk.len() >= 1
    &&& has_tile(present, walk[0])
    &&& forall|i: int| 0 <= i < walk.len() - 1 ==> is_tile_step(present, #[trigger] walk[i], walk[i + 1])
}

/// Whether a path can lead from the tile at `a` to the tile at `b`.
pub open spec fn tile_reachable(present: Seq<Vec<bool>>, a: Point, b: Point) -> bool {
    exists|walk: Seq<Point>| #[trigger] is_tile_walk(present, walk) && walk[0] == a && walk.last() == b
}

/// Whether the presence flags cover a whole chunk.
pub open spec fn covers_chunk(present: Seq<Vec<bool>>) -> bool {
    &&& present.len() == CHUNK_SIZE
    &&& forall|x: int| 0 <= x < CHUNK_SIZE ==> (#[trigger] present[x])@.len() == CHUNK_SIZE
}

/// Appends the index of `q` to `neighbours` if the chunk has a tile at `q`.
fn push_if_tile(present: &Vec<Vec<bool>>, q: Point, neighbours: &mut Vec<usize>)
    requires
        covers_chunk(present@),
    ensures
        final(neighbours)@ == if has_tile(present@, q) {
            old(neighbours)@.push(spec_cell_index(q) as usize)
        } else {
            old(neighbours)@
        },
{
    if !q.is_outside_grid() && present[q.x as usize][q.y as usize] {
        neighbours.push((q.y * CHUNK_SIZE + q.x) as usize);
    }
}

/// Returns the indices of the tiles around the tile at `p`, in the order lower left, below, lower right, left,
/// right, upper left, above and upper right.
fn tile_neighbours(present: &Vec<Vec<bool>>, p: Point) -> (neighbours: Vec<usize>)
    requires
        covers_chunk(present@),
        has_tile(present@, p),
    ensures
        forall|k: int|
            0 <= k < neighbours@.len() ==> (#[trigger] neighbours@[k]) < CELL_COUNT && is_tile_step(
                present@,
                p,
                point_of(neighbours@[k] as int),
            ),
        forall|j: int|
            0 <= j < CELL_COUNT && is_tile_step(present@, p, #[trigger] point_of(j)) ==> neighbours@.contains(j as usize),
{
    let offsets: [(i32, i32); 8] = [(-1, 1), (0, 1), (1, 1), (-1, 0), (1, 0), (-1, -1), (0, -1), (1, -1)];
    let ghost ok = |q: Point| has_tile(present@, q);
    let ghost around = Seq::new(8, |m: int| Point { x: (p.x + offsets@[m].0) as i32, y: (p.y + offsets@[m].1) as i32 });
    let mut neighbours: Vec<usize> = Vec::new();
    proof {
        assert(offsets@ == seq![(-1i32, 1i32), (0i32, 1i32), (1i32, 1i32), (-1i32, 0i32), (1i32, 0i32), (-1i32, -1i32), (0i32, -1i32), (1i32, -1i32)]);
    }
    let mut m: usize = 0;
    while m < 8
        invariant
            covers_chunk(present@),
            has_tile(present@, p),
            m <= 8,
            ok == (|q: Point| has_tile(present@, q)),
            around == Seq::new(8, |m: int| Point { x: (p.x + offsets@[m].0) as i32, y: (p.y + offsets@[m].1) as i32 }),
            offsets@ == seq![(-1i32, 1i32), (0i32, 1i32), (1i32, 1i32), (-1i32, 0i32), (1i32, 0i32), (-1i32, -1i32), (0i32, -1i32), (1i32, -1i32)],
            neighbours@.no_duplicates(),
            forall|v: usize|
                neighbours@.contains(v) <==> exists|i: int|
                    0 <= i < around.subrange(0, m as int).len() && ok(#[trigger] around.subrange(0, m as int)[i])
                        && v == spec_cell_index(around.subrange(0, m as int)[i]) as usize,
        decreases 8 - m,
    {
        let (dx, dy) = offsets[m];
        let q = Point::new_internal_grid(p.x + dx, p.y + dy);
        let ghost before = neighbours@;
        push_if_tile(present, q, &mut neighbours);
        proof {
            assert(q == around[m as int]);
            assert(around.subrange(0, m as int).push(q) =~= around.subrange(0, m + 1));
            assert forall|i: int| 0 <= i < around.subrange(0, m as int).len() implies (#[trigger] around.subrange(
                0,
                m as int,
            )[i]) != q by {
                assert(around.subrange(0, m as int)[i] == around[i]);
            }
        }
        proof {
            lemma_push_step(before, neighbours@, around.subrange(0, m as int), q, ok);
        }
        m = m + 1;
    }
    proof {
        assert(around.subrange(0, 8) =~= around);
        assert forall|k: int| 0 <= k < neighbours@.len() implies (#[trigger] neighbours@[k]) < CELL_COUNT && is_tile_step(
            present@,
            p,
            point_of(neighbours@[k] as int),
        ) by {
            assert(neighbours@.contains(neighbours@[k]));
            let i = choose|i: int| 0 <= i < around.len() && ok(#[trigger] around[i]) && neighbours@[k] == spec_cell_index(
                around[i],
            ) as usize;
            lemma_cell_index_round_trip(around[i]);
        }
        assert forall|j: int|
            0 <= j < CELL_COUNT && is_tile_step(present@, p, #[trigger] point_of(j)) implies neighbours@.contains(
            j as usize,
        ) by {
            lemma_point_of_round_trip(j);
            let q = point_of(j);
            let dx = q.x - p.x;
            let dy = q.y - p.y;
            let i: int = if dy == 1 {
                dx + 1
            } else if dy == 0 {
                if dx == -1 {
                    3
                } else {
                    4
                }
            } else {
                dx + 6
            };
            assert(around[i] == q);
            assert(ok(around[i]) && j as usize == spec_cell_index(around[i]) as usize);
        }
    }
    neighbours
}

/// Returns the path finding graph of the tiles of a chunk: one node per position, in row-major order, linked to the
/// tiles around it, and without links where there is no tile.
fn build_tile_graph(present: &Vec<Vec<bool>>) -> (graph: PathGraph)
    requires
        covers_chunk(present@),
    ensures
        graph.wf(),
        graph.is_fresh(),
        graph.nodes@.len() == CELL_COUNT,
        forall|i: int| 0 <= i < CELL_COUNT ==> (#[trigger] graph.nodes@[i]).ig == point_of(i),
        forall|i: int, j: int|
            0 <= i < CELL_COUNT && 0 <= j < CELL_COUNT ==> (graph.has_edge(i, j) <==> is_tile_step(
                present@,
                point_of(i),
                point_of(j),
            )),
{
    let mut nodes: Vec<Node> = Vec::new();
    let mut i: usize = 0;
    while i < CELL_COUNT
        invariant
            covers_chunk(present@),
            i <= CELL_COUNT,
            nodes@.len() == i,
            forall|a: int|
                0 <= a < i ==> {
                    let node = #[trigger] nodes@[a];
                    &&& node.ig == point_of(a)
                    &&& node.connection.is_none()
                    &&& node.g == 0
                    &&& node.h == 0
                    &&& forall|k: int|
                        0 <= k < node.neighbours@.len() ==> (#[trigger] node.neighbours@[k]) < CELL_COUNT
                            && is_tile_step(present@, point_of(a), point_of(node.neighbours@[k] as int))
                    &&& forall|j: int|
                        0 <= j < CELL_COUNT && is_tile_step(present@, point_of(a), #[trigger] point_of(j))
                            ==> node.neighbours@.contains(j as usize)
                },
        decreases CELL_COUNT - i,
    {
        let p = Point::new_internal_grid((i % 32) as i32, (i / 32) as i32);
        proof {
            lemma_point_of_round_trip(i as int);
        }
        let mut node = Node::new(p);
        if present[p.x as usize][p.y as usize] {
            node.neighbours = tile_neighbours(present, p);
        }
        nodes.push(node);
        i = i + 1;
    }
    let graph = PathGraph { nodes };
    proof {
        assert forall|a: int, k: int|
            0 <= a < graph.nodes@.len() && 0 <= k < graph.nodes@[a].neighbours@.len() implies {
                let j = #[trigger] graph.nodes@[a].neighbours@[k];
                &&& j < graph.nodes@.len()
                &&& graph.nodes@[j as int].ig != graph.nodes@[a].ig
            } by {
            let j = graph.nodes@[a].neighbours@[k];
            assert(is_tile_step(present@, point_of(a), point_of(j as int)));
        }
        assert forall|a: int| 0 <= a < graph.nodes@.len() implies (#[trigger] graph.nodes@[a]).ig.spec_is_inside_grid() by {
            lemma_point_of_round_trip(a);
        }
        assert forall|a: int, j: int|
            0 <= a < CELL_COUNT && 0 <= j < CELL_COUNT implies (graph.has_edge(a, j) <==> is_tile_step(
                present@,
                point_of(a),
                point_of(j),
            )) by {
            let node = graph.nodes@[a];
            if graph.has_edge(a, j) {
                let k = choose|k: int| 0 <= k < node.neighbours@.len() && node.neighbours@[k] == j as usize;
                assert(is_tile_step(present@, point_of(a), point_of(node.neighbours@[k] as int)));
            }
        }
    }
    graph
}

/// A walk through the tile graph is a walk across the tiles, and the other way round.
proof fn lemma_tile_reachable_in_graph(present: Seq<Vec<bool>>, graph: PathGraph, s: int, t: int)
    requires
        graph.nodes@.len() == CELL_COUNT,
        forall|i: int, j: int|
            0 <= i < CELL_COUNT && 0 <= j < CELL_COUNT ==> (graph.has_edge(i, j) <==> is_tile_step(
                present,
                point_of(i),
                point_of(j),
            )),
        0 <= s < CELL_COUNT,
        0 <= t < CELL_COUNT,
        has_tile(present, point_of(s)),
    ensures
        graph.reachable(s, t) <==> tile_reachable(present, point_of(s), point_of(t)),
{
    if graph.reachable(s, t) {
        let walk = choose|walk: Seq<int>| #[trigger] graph.is_walk(walk) && walk[0] == s && walk.last() == t;
        let points = walk.map_values(|i: int| point_of(i));
        assert forall|i: int| 0 <= i < points.len() - 1 implies is_tile_step(present, #[trigger] points[i], points[i + 1]) by {
            assert(graph.has_edge(walk[i], walk[i + 1]));
        }
        assert(is_tile_walk(present, points));
    }
    if tile_reachable(present, point_of(s), point_of(t)) {
        let points = choose|walk: Seq<Point>| #[trigger] is_tile_walk(present, walk) && walk[0] == point_of(s)
            && walk.last() == point_of(t);
        let walk = points.map_values(|p: Point| spec_cell_index(p));
        assert forall|i: int| 0 <= i < points.len() implies (#[trigger] points[i]).spec_is_inside_grid() by {
            if i > 0 {
                assert(is_tile_step(present, points[i - 1], points[i - 1 + 1]));
            }
        }
        assert forall|i: int| 0 <= i < walk.len() implies 0 <= #[trigger] walk[i] < graph.nodes@.len()
            && point_of(walk[i]) == points[i] by {
            lemma_cell_index_round_trip(points[i]);
        }
        assert forall|i: int| 0 <= i < walk.len() - 1 implies graph.has_edge(#[trigger] walk[i], walk[i + 1]) by {
            assert(point_of(walk[i]) == points[i]);
            assert(point_of(walk[i + 1]) == points[i + 1]);
            assert(is_tile_step(present, points[i], points[i + 1]));
        }
        lemma_point_of_round_trip(s);
        lemma_point_of_round_trip(t);
        assert(walk[0] == s);
        assert(walk.last() == t);
        assert(graph.is_walk(walk));
    }
}

/// The cost of a walk across tiles: `14` per diagonal and `10` per horizontal or vertical step (see
/// [`distance_cost`]).
pub open spec fn tile_walk_cost(walk: Seq<Point>) -> int
    decreases walk.len(),
{
    if walk.len() <= 1 {
        0
    } else {
        tile_walk_cost(walk.drop_last()) + distance_cost(walk[walk.len() - 2], walk.last())
    }
}

/// A walk through the nodes of a graph costs what the walk through their positions costs.
proof fn lemma_walk_cost_of_positions(graph: PathGraph, walk: Seq<int>, points: Seq<Point>)
    requires
        walk.len() == points.len(),
        forall|i: int| 0 <= i < walk.len() ==> 0 <= #[trigger] walk[i] < graph.nodes@.len() && graph.nodes@[walk[i]].ig
            == points[i],
    ensures
        graph.walk_cost(walk) == tile_walk_cost(points),
    decreases walk.len(),
{
    if walk.len() > 1 {
        lemma_walk_cost_of_positions(graph, walk.drop_last(), points.drop_last());
        assert(graph.nodes@[walk[walk.len() - 2]].ig == points[points.len() - 2]);
        assert(graph.nodes@[walk.last()].ig == points.last());
    }
}

/// A walk across tiles is a walk in the tile graph through the nodes at its positions.
proof fn lemma_tile_walk_in_graph(present: Seq<Vec<bool>>, graph: PathGraph, points: Seq<Point>) -> (walk: Seq<int>)
    requires
        graph.nodes@.len() == CELL_COUNT,
        forall|i: int| 0 <= i < CELL_COUNT ==> (#[trigger] graph.nodes@[i]).ig == point_of(i),
        forall|i: int, j: int|
            0 <= i < CELL_COUNT && 0 <= j < CELL_COUNT ==> (graph.has_edge(i, j) <==> is_tile_step(
                present,
                point_of(i),
                point_of(j),
            )),
        is_tile_walk(present, points),
    ensures
        graph.is_walk(walk),
        walk.len() == points.len(),
        forall|i: int| 0 <= i < walk.len() ==> 0 <= #[trigger] walk[i] < graph.nodes@.len() && graph.nodes@[walk[i]].ig
            == points[i],
        walk[0] == spec_cell_index(points[0]),
        walk.last() == spec_cell_index(points.last()),
{
    let walk = points.map_values(|p: Point| spec_cell_index(p));
    assert forall|i: int| 0 <= i < points.len() implies (#[trigger] points[i]).spec_is_inside_grid() by {
        if i > 0 {
            assert(is_tile_step(present, points[i - 1], points[i - 1 + 1]));
        }
    }
    assert forall|i: int| 0 <= i < walk.len() implies 0 <= #[trigger] walk[i] < graph.nodes@.len() && point_of(walk[i])
        == points[i] by {
        lemma_cell_index_round_trip(points[i]);
    }
    assert forall|i: int| 0 <= i < walk.len() - 1 implies graph.has_edge(#[trigger] walk[i], walk[i + 1]) by {
        assert(point_of(walk[i]) == points[i]);
        assert(point_of(walk[i + 1]) == points[i + 1]);
        assert(is_tile_step(present, points[i], points[i + 1]));
    }
    walk
}

/// Returns a path across the tiles of a chunk from its first to its second connection point: the positions from the
/// start to the target, each a step from the one before, found with the A* algorithm (see
/// [`PathGraph::find_path`]). No path is returned if the chunk does not have exactly two connection points or if no
/// path joins them.
pub fn generate_paths(connection_points: &Vec<Point>, present: &Vec<Vec<bool>>) -> (path: Vec<Point>)
    requires
        covers_chunk(present@),
        connection_points@.len() == 2 ==> has_tile(present@, connection_points@[0]) && has_tile(
            present@,
            connection_points@[1],
        ),
    ensures
        connection_points@.len() != 2 ==> path@.len() == 0,
        connection_points@.len() == 2 ==> {
            let start = connection_points@[0];
            let target = connection_points@[1];
            &&& path@.len() == 0 <==> !tile_reachable(present@, start, target)
            &&& path@.len() > 0 ==> is_tile_walk(present@, path@) && path@[0] == start && path@.last() == target
            &&& path@.len() > 0 ==> forall|w: Seq<Point>|
                #[trigger] is_tile_walk(present@, w) && w[0] == start && w.last() == target ==> tile_walk_cost(path@)
                    <= tile_walk_cost(w)
        },
{
    if connection_points.len() != 2 {
        return Vec::new();
    }
    let start = connection_points[0];
    let target = connection_points[1];
    let mut graph = build_tile_graph(present);
    let ghost initial = graph;
    let s = (start.y * CHUNK_SIZE + start.x) as usize;
    let t = (target.y * CHUNK_SIZE + target.x) as usize;
    proof {
        lemma_cell_index_round_trip(start);
        lemma_cell_index_round_trip(target);
        lemma_tile_reachable_in_graph(present@, graph, s as int, t as int);
    }
    match graph.find_path(s, t) {
        Some(chain) => {
            let mut path: Vec<Point> = Vec::new();
            let mut k: usize = chain.len();
            while k > 0
                invariant
                    k <= chain@.len(),
                    chain@.len() >= 1,
                    initial.nodes@.len() == CELL_COUNT,
                    graph.nodes@.len() == CELL_COUNT,
                    forall|i: int| 0 <= i < CELL_COUNT ==> (#[trigger] graph.nodes@[i]).ig == point_of(i),
                    forall|i: int| 0 <= i < chain@.len() ==> (#[trigger] chain@[i]) < CELL_COUNT,
                    path@.len() == chain@.len() - k,
                    forall|i: int|
                        0 <= i < path@.len() ==> #[trigger] path@[i] == point_of(chain@[chain@.len() - 1 - i] as int),
                decreases k,
            {
                k = k - 1;
                path.push(graph.nodes[chain[k]].ig);
            }
            proof {
                let n = chain@.len();
                assert forall|i: int| 0 <= i < path@.len() - 1 implies is_tile_step(
                    present@,
                    #[trigger] path@[i],
                    path@[i + 1],
                ) by {
                    let a = n - 1 - i;
                    assert(initial.has_edge(chain@[a - 1 + 1] as int, chain@[a - 1] as int));
                }
                lemma_point_of_round_trip(s as int);
                lemma_point_of_round_trip(t as int);
                assert(path@[0] == start);
                assert(path@.last() == target);
                let cw = chain_walk(chain@);
                assert forall|i: int| 0 <= i < cw.len() implies 0 <= #[trigger] cw[i] < initial.nodes@.len()
                    && initial.nodes@[cw[i]].ig == path@[i] by {}
                lemma_walk_cost_of_positions(initial, cw, path@);
                assert forall|w: Seq<Point>|
                    #[trigger] is_tile_walk(present@, w) && w[0] == start && w.last() == target implies tile_walk_cost(path@)
                        <= tile_walk_cost(w) by {
                    let v = lemma_tile_walk_in_graph(present@, initial, w);
                    lemma_walk_cost_of_positions(initial, v, w);
                    assert(initial.walk_cost(cw) <= initial.walk_cost(v));
                }
            }
            path
        },
        None => Vec::new(),
    }
}

} // verus!
