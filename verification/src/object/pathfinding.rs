use crate::coords::Point;
use vstd::prelude::*;
use vstd::set_lib::{lemma_len_subset, lemma_int_range, set_int_range};

verus! {

/// The largest distance cost between two points of a chunk's internal grid.
pub const MAX_STEP_COST: u64 = 434;

/// The cost of moving between two points: `14` per diagonal step and `10` per horizontal or vertical step, taking as
/// many diagonal steps as possible.
pub open spec fn distance_cost(a: Point, b: Point) -> int {
    let x_diff = if a.x >= b.x { a.x - b.x } else { b.x - a.x };
    let y_diff = if a.y >= b.y { a.y - b.y } else { b.y - a.y };
    if x_diff > y_diff {
        14 * y_diff + 10 * (x_diff - y_diff)
    } else {
        14 * x_diff + 10 * (y_diff - x_diff)
    }
}

/// Between two points of a chunk the cost is at most [`MAX_STEP_COST`], and it is at least `10` between distinct points.
pub proof fn lemma_distance_cost_bounds(a: Point, b: Point)
    requires
        a.spec_is_inside_grid(),
        b.spec_is_inside_grid(),
    ensures
        0 <= distance_cost(a, b) <= MAX_STEP_COST,
        a != b ==> distance_cost(a, b) >= 10,
        a == b ==> distance_cost(a, b) == 0,
{
}

/// The distance cost is the same in both directions.
pub proof fn lemma_distance_cost_symmetric(a: Point, b: Point)
    ensures
        distance_cost(a, b) == distance_cost(b, a),
{
}

/// Returns the cost of moving between two points: `14` per diagonal step and `10` per horizontal or vertical step.
pub fn calculate_distance_cost(a: &Point, b: &Point) -> (cost: u64)
    ensures
        cost == distance_cost(*a, *b),
        a.spec_is_inside_grid() && b.spec_is_inside_grid() ==> cost <= MAX_STEP_COST,
{
    let x_diff: u64 = if a.x >= b.x { (a.x as i64 - b.x as i64) as u64 } else { (b.x as i64 - a.x as i64) as u64 };
    let y_diff: u64 = if a.y >= b.y { (a.y as i64 - b.y as i64) as u64 } else { (b.y as i64 - a.y as i64) as u64 };
    if x_diff > y_diff {
        14 * y_diff + 10 * (x_diff - y_diff)
    } else {
        14 * x_diff + 10 * (y_diff - x_diff)
    }
}

/// A node of a path finding graph: a position, the indices of its neighbours, the node it was reached from, and its
/// costs. `g` is the cost from the start, `h` the estimated cost to the target.
#[derive(Debug)]
pub struct Node {
    pub ig: Point,
    pub neighbours: Vec<usize>,
    pub connection: Option<usize>,
    pub g: u64,
    pub h: u64,
}

impl Node {
    /// A node at `ig` without neighbours, connection or costs.
    pub fn new(ig: Point) -> (node: Node)
        ensures
            node.ig == ig,
            node.neighbours@.len() == 0,
            node.connection.is_none(),
            node.g == 0,
            node.h == 0,
    {
        Node { ig, neighbours: Vec::new(), connection: None, g: 0, h: 0 }
    }

    pub fn get_ig(&self) -> (ig: &Point)
        ensures
            *ig == self.ig,
    {
        &self.ig
    }

    /// Adds `neighbour` unless it is already a neighbour.
    pub fn add_neighbour(&mut self, neighbour: usize)
        ensures
            final(self).neighbours@ == if old(self).neighbours@.contains(neighbour) {
                old(self).neighbours@
            } else {
                old(self).neighbours@.push(neighbour)
            },
            final(self).ig == old(self).ig,
            final(self).connection == old(self).connection,
            final(self).g == old(self).g,
            final(self).h == old(self).h,
    {
        let mut i: usize = 0;
        while i < self.neighbours.len()
            invariant
                i <= self.neighbours.len(),
                forall|j: int| 0 <= j < i ==> self.neighbours@[j] != neighbour,
            decreases self.neighbours.len() - i,
        {
            if self.neighbours[i] == neighbour {
                return ;
            }
            i = i + 1;
        }
        self.neighbours.push(neighbour);
    }

    /// Adds each of `neighbours` that is not yet a neighbour, in order.
    pub fn add_neighbours(&mut self, neighbours: Vec<usize>)
        ensures
            forall|n: usize| #![auto] final(self).neighbours@.contains(n) <==> (old(self).neighbours@.contains(n)
                || neighbours@.contains(n)),
            old(self).neighbours@.no_duplicates() ==> final(self).neighbours@.no_duplicates(),
            final(self).ig == old(self).ig,
            final(self).connection == old(self).connection,
            final(self).g == old(self).g,
            final(self).h == old(self).h,
    {
        let mut i: usize = 0;
        while i < neighbours.len()
            invariant
                i <= neighbours.len(),
                forall|n: usize| #![auto]
                    self.neighbours@.contains(n) <==> (old(self).neighbours@.contains(n) || neighbours@.subrange(
                        0,
                        i as int,
                    ).contains(n)),
                old(self).neighbours@.no_duplicates() ==> self.neighbours@.no_duplicates(),
                self.ig == old(self).ig,
                self.connection == old(self).connection,
                self.g == old(self).g,
                self.h == old(self).h,
            decreases neighbours.len() - i,
        {
            let ghost before = self.neighbours@;
            self.add_neighbour(neighbours[i]);
            proof {
                assert(neighbours@.subrange(0, i + 1) =~= neighbours@.subrange(0, i as int).push(neighbours@[i as int]));
                assert forall|n: usize| #![auto]
                    self.neighbours@.contains(n) <==> (old(self).neighbours@.contains(n) || neighbours@.subrange(
                        0,
                        i + 1,
                    ).contains(n)) by {
                    crate::object::cell::lemma_push_contains(before, neighbours@[i as int], n);
                    crate::object::cell::lemma_push_contains(neighbours@.subrange(0, i as int), neighbours@[i as int], n);
                }
                if old(self).neighbours@.no_duplicates() && !before.contains(neighbours@[i as int]) {
                    assert forall|a: int, b: int|
                        0 <= a < b < self.neighbours@.len() implies self.neighbours@[a] != self.neighbours@[b] by {
                        if b == before.len() {
                            assert(before[a] == self.neighbours@[a]);
                        } else {
                            assert(before[a] == self.neighbours@[a] && before[b] == self.neighbours@[b]);
                        }
                    }
                }
            }
            i = i + 1;
        }
        assert(neighbours@.subrange(0, neighbours@.len() as int) =~= neighbours@);
    }

    pub fn get_neighbours(&self) -> (neighbours: &Vec<usize>)
        ensures
            neighbours@ == self.neighbours@,
    {
        &self.neighbours
    }

    /// The node this node was reached from, used to walk back from the target to the start.
    pub fn get_connection(&self) -> (connection: Option<usize>)
        ensures
            connection == self.connection,
    {
        self.connection
    }

    pub fn set_connection(&mut self, connection: usize)
        ensures
            final(self).connection == Some(connection),
            final(self).ig == old(self).ig,
            final(self).neighbours == old(self).neighbours,
            final(self).g == old(self).g,
            final(self).h == old(self).h,
    {
        self.connection = Some(connection);
    }

    pub fn get_g(&self) -> (g: u64)
        ensures
            g == self.g,
    {
        self.g
    }

    pub fn set_g(&mut self, g: u64)
        ensures
            final(self).g == g,
            final(self).ig == old(self).ig,
            final(self).neighbours == old(self).neighbours,
            final(self).connection == old(self).connection,
            final(self).h == old(self).h,
    {
        self.g = g;
    }

    pub fn get_h(&self) -> (h: u64)
        ensures
            h == self.h,
    {
        self.h
    }

    pub fn set_h(&mut self, h: u64)
        ensures
            final(self).h == h,
            final(self).ig == old(self).ig,
            final(self).neighbours == old(self).neighbours,
            final(self).connection == old(self).connection,
            final(self).g == old(self).g,
    {
        self.h = h;
    }

    /// The total cost: the cost from the start plus the estimate to the target.
    pub fn get_f(&self) -> (f: u64)
        requires
            self.g + self.h <= u64::MAX,
        ensures
            f == self.g + self.h,
    {
        self.g + self.h
    }

    /// Consumes the node and returns its position.
    pub fn to_ig(self) -> (ig: Point)
        ensures
            ig == self.ig,
    {
        self.ig
    }
}

/// A graph of path finding nodes, addressed by their index.
#[derive(Debug)]
pub struct PathGraph {
    pub nodes: Vec<Node>,
}

impl PathGraph {
    /// Every neighbour index names a node at another position, and every node lies within a chunk.
    pub open spec fn wf(self) -> bool {
        &&& self.nodes@.len() < 0x1_0000_0000
        &&& forall|i: int| 0 <= i < self.nodes@.len() ==> (#[trigger] self.nodes@[i]).ig.spec_is_inside_grid()
        &&& forall|i: int, k: int|
            0 <= i < self.nodes@.len() && 0 <= k < self.nodes@[i].neighbours@.len() ==> {
                let j = #[trigger] self.nodes@[i].neighbours@[k];
                &&& j < self.nodes@.len()
                &&& self.nodes@[j as int].ig != self.nodes@[i].ig
            }
    }

    /// Every node is as [`Node::new`] left it, apart from its neighbours.
    pub open spec fn is_fresh(self) -> bool {
        forall|i: int|
            0 <= i < self.nodes@.len() ==> (#[trigger] self.nodes@[i]).connection.is_none() && self.nodes@[i].g == 0
                && self.nodes@[i].h == 0
    }

    /// Whether node `b` is a neighbour of node `a`.
    pub open spec fn has_edge(self, a: int, b: int) -> bool {
        0 <= a < self.nodes@.len() && self.nodes@[a].neighbours@.contains(b as usize)
    }

    /// Whether `walk` is a sequence of nodes, each a neighbour of the one before.
    pub open spec fn is_walk(self, walk: Seq<int>) -> bool {
        &&& walk.len() >= 1
        &&& forall|i: int| 0 <= i < walk.len() ==> 0 <= #[trigger] walk[i] < self.nodes@.len()
        &&& forall|i: int| 0 <= i < walk.len() - 1 ==> self.has_edge(#[trigger] walk[i], walk[i + 1])
    }

    /// Whether node `b` can be reached from node `a` along neighbour links.
    pub open spec fn reachable(self, a: int, b: int) -> bool {
        exists|walk: Seq<int>| #[trigger] self.is_walk(walk) && walk[0] == a && walk.last() == b
    }

    /// The positions and neighbours of the nodes, which path finding leaves unchanged.
    pub open spec fn same_structure(self, other: PathGraph) -> bool {
        &&& self.nodes@.len() == other.nodes@.len()
        &&& forall|i: int|
            0 <= i < self.nodes@.len() ==> (#[trigger] self.nodes@[i]).ig == other.nodes@[i].ig
                && self.nodes@[i].neighbours@ == other.nodes@[i].neighbours@
    }
}

/// The distance cost obeys the triangle inequality: going through a third point costs at least as much.
pub proof fn lemma_distance_triangle(a: Point, b: Point, c: Point)
    ensures
        distance_cost(a, c) <= distance_cost(a, b) + distance_cost(b, c),
{
}

impl PathGraph {
    /// The cost of a walk: the distance costs of its steps, added up.
    pub open spec fn walk_cost(self, walk: Seq<int>) -> int
        decreases walk.len(),
    {
        if walk.len() <= 1 {
            0
        } else {
            self.walk_cost(walk.drop_last()) + distance_cost(
                self.nodes@[walk[walk.len() - 2]].ig,
                self.nodes@[walk.last()].ig,
            )
        }
    }

    /// A walk costs at least the distance cost between its ends.
    proof fn lemma_walk_cost_at_least(self, walk: Seq<int>)
        requires
            walk.len() >= 1,
        ensures
            self.walk_cost(walk) >= distance_cost(self.nodes@[walk[0]].ig, self.nodes@[walk.last()].ig),
        decreases walk.len(),
    {
        if walk.len() > 1 {
            let rest = walk.drop_last();
            self.lemma_walk_cost_at_least(rest);
            lemma_distance_triangle(
                self.nodes@[walk[0]].ig,
                self.nodes@[walk[walk.len() - 2]].ig,
                self.nodes@[walk.last()].ig,
            );
        }
    }

    /// The cost of a walk is the cost up to its `i`-th node plus the cost from there on.
    proof fn lemma_walk_cost_split(self, walk: Seq<int>, i: int)
        requires
            0 <= i < walk.len(),
        ensures
            self.walk_cost(walk) == self.walk_cost(walk.subrange(0, i + 1)) + self.walk_cost(
                walk.subrange(i, walk.len() as int),
            ),
        decreases walk.len(),
    {
        let n = walk.len() as int;
        if i == n - 1 {
            assert(walk.subrange(0, i + 1) =~= walk);
            assert(walk.subrange(i, n).len() == 1);
        } else {
            let rest = walk.drop_last();
            self.lemma_walk_cost_split(rest, i);
            assert(rest.subrange(0, i + 1) =~= walk.subrange(0, i + 1));
            let tail = walk.subrange(i, n);
            assert(tail.drop_last() =~= rest.subrange(i, rest.len() as int));
            assert(tail[tail.len() - 2] == walk[n - 2]);
            assert(tail.last() == walk.last());
        }
    }

    /// Putting node `a` before a walk adds the distance cost to the walk's first node.
    proof fn lemma_walk_cost_prepend(self, a: int, walk: Seq<int>)
        requires
            walk.len() >= 1,
        ensures
            self.walk_cost(seq![a] + walk) == distance_cost(self.nodes@[a].ig, self.nodes@[walk[0]].ig)
                + self.walk_cost(walk),
        decreases walk.len(),
    {
        let longer = seq![a] + walk;
        if walk.len() == 1 {
            assert(longer.drop_last() =~= seq![a]);
            assert(longer.len() == 2 && longer[0] == a && longer[1] == walk[0]);
            assert(self.walk_cost(seq![a]) == 0);
            assert(self.walk_cost(walk) == 0);
        } else {
            let rest = walk.drop_last();
            self.lemma_walk_cost_prepend(a, rest);
            assert(longer.drop_last() =~= seq![a] + rest);
            assert(longer[longer.len() - 2] == walk[walk.len() - 2]);
            assert(longer.last() == walk.last());
            assert(rest[0] == walk[0]);
        }
    }
}

/// The walk from the start that a chain of nodes found from the target back to the start takes.
pub open spec fn chain_walk(chain: Seq<usize>) -> Seq<int> {
    Seq::new(chain.len(), |i: int| chain[chain.len() - 1 - i] as int)
}

/// A set closed under neighbour links that holds the start of a walk holds the whole walk.
proof fn lemma_closed_set_holds_walk(graph: PathGraph, closed: Seq<bool>, walk: Seq<int>)
    requires
        graph.wf(),
        graph.is_walk(walk),
        closed.len() == graph.nodes@.len(),
        closed[walk[0]],
        forall|p: int, k: int|
            0 <= p < graph.nodes@.len() && closed[p] && 0 <= k < graph.nodes@[p].neighbours@.len() ==> closed[(
            #[trigger] graph.nodes@[p].neighbours@[k]) as int],
    ensures
        closed[walk.last()],
    decreases walk.len(),
{
    if walk.len() > 1 {
        let rest = walk.drop_last();
        assert(graph.is_walk(rest)) by {
            assert forall|i: int| 0 <= i < rest.len() - 1 implies graph.has_edge(#[trigger] rest[i], rest[i + 1]) by {
                assert(graph.has_edge(walk[i], walk[i + 1]));
            }
        }
        lemma_closed_set_holds_walk(graph, closed, rest);
        let a = walk[walk.len() - 2];
        let b = walk.last();
        assert(graph.has_edge(walk[walk.len() - 2], walk[walk.len() - 2 + 1]));
        let k = choose|k: int| 0 <= k < graph.nodes@[a].neighbours@.len() && graph.nodes@[a].neighbours@[k] == b as usize;
        assert(closed[(graph.nodes@[a].neighbours@[k]) as int]);
        assert(0 <= b < graph.nodes@.len());
        assert((graph.nodes@[a].neighbours@[k]) as int == b);
    } else {
        assert(walk.last() == walk[0]);
    }
}

/// The index into `to_search` of the node with the lowest total cost, ties broken by the lowest estimate, and among
/// equal nodes the first.
fn select_current(graph: &PathGraph, to_search: &Vec<usize>) -> (selected: usize)
    requires
        to_search@.len() > 0,
        forall|k: int| 0 <= k < to_search@.len() ==> (#[trigger] to_search@[k]) < graph.nodes@.len(),
        forall|i: int| 0 <= i < graph.nodes@.len() ==> (#[trigger] graph.nodes@[i]).g + graph.nodes@[i].h <= u64::MAX,
    ensures
        selected < to_search@.len(),
        forall|k: int|
            0 <= k < to_search@.len() ==> {
                let best = graph.nodes@[to_search@[selected as int] as int];
                let other = #[trigger] graph.nodes@[to_search@[k] as int];
                &&& best.g + best.h <= other.g + other.h
                &&& (best.g + best.h == other.g + other.h ==> best.h <= other.h)
                &&& (k < selected ==> (best.g + best.h < other.g + other.h || (best.g + best.h == other.g
                    + other.h && best.h < other.h)))
            },
{
    let mut current: usize = 0;
    let mut k: usize = 0;
    while k < to_search.len()
        invariant
            k <= to_search@.len(),
            current < to_search@.len(),
            current <= k || (k == 0 && current == 0),
            forall|k2: int| 0 <= k2 < to_search@.len() ==> (#[trigger] to_search@[k2]) < graph.nodes@.len(),
            forall|i: int| 0 <= i < graph.nodes@.len() ==> (#[trigger] graph.nodes@[i]).g + graph.nodes@[i].h <= u64::MAX,
            forall|j: int|
                0 <= j < k ==> {
                    let best = graph.nodes@[to_search@[current as int] as int];
                    let other = #[trigger] graph.nodes@[to_search@[j] as int];
                    &&& best.g + best.h <= other.g + other.h
                    &&& (best.g + best.h == other.g + other.h ==> best.h <= other.h)
                    &&& (j < current ==> (best.g + best.h < other.g + other.h || (best.g + best.h == other.g
                        + other.h && best.h < other.h)))
                },
        decreases to_search@.len() - k,
    {
        let node = &graph.nodes[to_search[k]];
        let best = &graph.nodes[to_search[current]];
        let node_f = node.get_f();
        let node_h = node.get_h();
        let current_f = best.get_f();
        let current_h = best.get_h();
        if node_f < current_f || (node_f == current_f && node_h < current_h) {
            current = k;
        }
        k = k + 1;
    }
    current
}

/// A list of `n` copies of `value`.
fn filled(n: usize, value: bool) -> (v: Vec<bool>)
    ensures
        v@.len() == n,
        forall|i: int| 0 <= i < n ==> v@[i] == value,
{
    let mut v: Vec<bool> = Vec::new();
    while v.len() < n
        invariant
            v@.len() <= n,
            forall|i: int| 0 <= i < v@.len() ==> v@[i] == value,
        decreases n - v@.len(),
    {
        v.push(value);
    }
    v
}

/// The nodes still to search are listed once each in `to_search` and marked in `in_search`, and none of them is
/// processed.
#[verifier::opaque]
pub open spec fn queue_ok(to_search: Seq<usize>, in_search: Seq<bool>, processed: Seq<bool>, n: int) -> bool {
    &&& 0 <= n <= usize::MAX
    &&& in_search.len() == n
    &&& processed.len() == n
    &&& to_search.no_duplicates()
    &&& forall|k: int| 0 <= k < to_search.len() ==> (#[trigger] to_search[k]) < n && in_search[to_search[k] as int]
    &&& forall|i: int| 0 <= i < n && #[trigger] in_search[i] ==> to_search.contains(i as usize)
    &&& forall|i: int| 0 <= i < n ==> !(#[trigger] in_search[i] && processed[i])
}

/// Taking the `selected` node off the list and marking it processed keeps the list in order.
proof fn lemma_queue_take(to_search: Seq<usize>, in_search: Seq<bool>, processed: Seq<bool>, n: int, selected: int)
    requires
        queue_ok(to_search, in_search, processed, n),
        0 <= selected < to_search.len(),
    ensures
        ({
            let current = to_search[selected] as int;
            &&& 0 <= current < n
            &&& in_search[current]
            &&& queue_ok(to_search.remove(selected), in_search.update(current, false), processed.update(current, true), n)
        }),
{
    reveal(queue_ok);
    let current = to_search[selected] as int;
    let ts = to_search.remove(selected);
    let ins = in_search.update(current, false);
    let pr = processed.update(current, true);
    assert forall|k: int| 0 <= k < ts.len() implies (#[trigger] ts[k]) < n && ins[ts[k] as int] by {
        if k < selected {
            assert(ts[k] == to_search[k]);
        } else {
            assert(ts[k] == to_search[k + 1]);
        }
    }
    assert forall|i: int| 0 <= i < n && #[trigger] ins[i] implies ts.contains(i as usize) by {
        assert(in_search[i]);
        assert(i != current);
        let k = choose|k: int| 0 <= k < to_search.len() && to_search[k] == i as usize;
        assert(k != selected);
        if k < selected {
            assert(ts[k] == i as usize);
        } else {
            assert(ts[k - 1] == i as usize);
        }
    }
    assert forall|i: int| 0 <= i < n implies !(#[trigger] ins[i] && pr[i]) by {
        if i != current {
            assert(!(in_search[i] && processed[i]));
        }
    }
}

/// Adding a node that is neither listed nor processed keeps the list in order.
proof fn lemma_queue_push(to_search: Seq<usize>, in_search: Seq<bool>, processed: Seq<bool>, n: int, w: int)
    requires
        queue_ok(to_search, in_search, processed, n),
        0 <= w < n,
        !in_search[w],
        !processed[w],
    ensures
        queue_ok(to_search.push(w as usize), in_search.update(w, true), processed, n),
{
    reveal(queue_ok);
    let ts = to_search.push(w as usize);
    let ins = in_search.update(w, true);
    assert(!to_search.contains(w as usize)) by {
        if to_search.contains(w as usize) {
            let k = choose|k: int| 0 <= k < to_search.len() && to_search[k] == w as usize;
            assert(in_search[to_search[k] as int]);
        }
    }
    assert forall|k: int| 0 <= k < ts.len() implies (#[trigger] ts[k]) < n && ins[ts[k] as int] by {
        if k < to_search.len() {
            assert(ts[k] == to_search[k]);
        }
    }
    assert forall|i: int| 0 <= i < n && #[trigger] ins[i] implies ts.contains(i as usize) by {
        if i != w {
            assert(in_search[i]);
            let k = choose|k: int| 0 <= k < to_search.len() && to_search[k] == i as usize;
            assert(ts[k] == i as usize);
        } else {
            assert(ts[to_search.len() as int] == w as usize);
        }
    }
    assert forall|i: int| 0 <= i < n implies !(#[trigger] ins[i] && processed[i]) by {
        if i != w {
            assert(!(in_search[i] && processed[i]));
        }
    }
}

/// An empty list means that no node is marked as still to search.
proof fn lemma_queue_empty(in_search: Seq<bool>, processed: Seq<bool>, n: int, i: int)
    requires
        queue_ok(Seq::empty(), in_search, processed, n),
        0 <= i < n,
    ensures
        !in_search[i],
{
    reveal(queue_ok);
    if in_search[i] {
        assert(Seq::<usize>::empty().contains(i as usize));
    }
}

/// Every processed node other than `except` has each of its neighbours processed or still to search.
#[verifier::opaque]
pub open spec fn closed_except(graph: PathGraph, in_search: Seq<bool>, processed: Seq<bool>, except: int) -> bool {
    forall|p: int, k: int|
        0 <= p < graph.nodes@.len() && p != except && processed[p] && 0 <= k < graph.nodes@[p].neighbours@.len()
            ==> {
            let w = (#[trigger] graph.nodes@[p].neighbours@[k]) as int;
            processed[w] || in_search[w]
        }
}

/// The first `j` neighbours of `current` are processed or still to search.
#[verifier::opaque]
pub open spec fn prefix_closed(graph: PathGraph, in_search: Seq<bool>, processed: Seq<bool>, current: int, j: int) -> bool {
    forall|k: int|
        0 <= k < j ==> {
            let w = (#[trigger] graph.nodes@[current].neighbours@[k]) as int;
            processed[w] || in_search[w]
        }
}

impl PathGraph {
    /// Each connection leads to a processed node of strictly lower cost that has the connected node as a neighbour
    /// in `initial`.
    #[verifier::opaque]
    pub open spec fn tree_ok(self, initial: PathGraph, processed: Seq<bool>) -> bool {
        forall|v: int|
            0 <= v < self.nodes@.len() && (#[trigger] self.nodes@[v]).connection is Some ==> {
                let c = self.nodes@[v].connection->0 as int;
                &&& 0 <= c < self.nodes@.len()
                &&& processed[c]
                &&& initial.nodes@[c].neighbours@.contains(v as usize)
                &&& self.nodes@[c].g < self.nodes@[v].g
                &&& self.nodes@[v].g == self.nodes@[c].g + distance_cost(initial.nodes@[c].ig, initial.nodes@[v].ig)
            }
    }

    /// The cost from the start of each processed node is at most the cost of any walk from the start to it.
    #[verifier::opaque]
    pub open spec fn optimal_done(self, initial: PathGraph, processed: Seq<bool>, start: int) -> bool {
        forall|walk: Seq<int>|
            #[trigger] initial.is_walk(walk) && walk[0] == start && processed[walk.last()] ==> self.nodes@[walk.last()].g
                <= initial.walk_cost(walk)
    }

    /// The estimate of each found node is its distance cost to the target; that of the start is `0`.
    #[verifier::opaque]
    pub open spec fn estimates_ok(self, in_search: Seq<bool>, processed: Seq<bool>, start: int, target: int) -> bool {
        forall|v: int|
            0 <= v < self.nodes@.len() && (in_search[v] || processed[v]) ==> (#[trigger] self.nodes@[v]).h == if v
                == start {
                0
            } else {
                distance_cost(self.nodes@[v].ig, self.nodes@[target].ig)
            }
    }

    /// Every unprocessed neighbour of a processed node other than `except` costs at most the cost of that node plus
    /// the step to it.
    #[verifier::opaque]
    pub open spec fn relaxed_except(self, initial: PathGraph, processed: Seq<bool>, except: int) -> bool {
        forall|p: int, k: int|
            0 <= p < initial.nodes@.len() && p != except && processed[p] && 0 <= k < initial.nodes@[p].neighbours@.len()
                ==> {
                let w = (#[trigger] initial.nodes@[p].neighbours@[k]) as int;
                !processed[w] ==> self.nodes@[w].g <= self.nodes@[p].g + distance_cost(
                    initial.nodes@[p].ig,
                    initial.nodes@[w].ig,
                )
            }
    }

    /// Each of the first `j` neighbours of `current`, if unprocessed, costs at most the cost of `current` plus the
    /// step to it.
    #[verifier::opaque]
    pub open spec fn relaxed_prefix(self, initial: PathGraph, processed: Seq<bool>, current: int, j: int) -> bool {
        forall|k: int|
            0 <= k < j ==> {
                let w = (#[trigger] initial.nodes@[current].neighbours@[k]) as int;
                !processed[w] ==> self.nodes@[w].g <= self.nodes@[current].g + distance_cost(
                    initial.nodes@[current].ig,
                    initial.nodes@[w].ig,
                )
            }
    }

    /// The start has no connection and cost `0` and is found; every other found node has a connection.
    #[verifier::opaque]
    pub open spec fn marked_ok(self, in_search: Seq<bool>, processed: Seq<bool>, start: int) -> bool {
        &&& self.nodes@[start].connection is None
        &&& self.nodes@[start].g == 0
        &&& (in_search[start] || processed[start])
        &&& forall|v: int|
            #![trigger in_search[v]]
            #![trigger processed[v]]
            0 <= v < self.nodes@.len() && (in_search[v] || processed[v]) && v != start
                ==> self.nodes@[v].connection is Some
    }

    /// Every cost from the start is at most `bound`, every estimate at most [`MAX_STEP_COST`].
    #[verifier::opaque]
    pub open spec fn costs_bounded(self, bound: int) -> bool {
        forall|v: int|
            0 <= v < self.nodes@.len() ==> (#[trigger] self.nodes@[v]).g <= bound && self.nodes@[v].h <= MAX_STEP_COST
    }

    /// What holds throughout the search of [`PathGraph::find_path`]: `initial` is the graph searched, `done` the
    /// set of processed nodes.
    pub open spec fn common_state(
        self,
        initial: PathGraph,
        start: int,
        target: int,
        to_search: Seq<usize>,
        in_search: Seq<bool>,
        processed: Seq<bool>,
        done: Set<int>,
    ) -> bool {
        let n = self.nodes@.len();
        &&& initial.wf()
        &&& self.same_structure(initial)
        &&& 0 <= start < n
        &&& 0 <= target < n
        &&& queue_ok(to_search, in_search, processed, n as int)
        &&& self.tree_ok(initial, processed)
        &&& self.marked_ok(in_search, processed, start)
        &&& self.optimal_done(initial, processed, start)
        &&& self.estimates_ok(in_search, processed, start, target)
        &&& done.finite()
        &&& forall|i: int| #[trigger] done.contains(i) <==> (0 <= i < n && processed[i])
    }

    /// The invariant of the search loop of [`PathGraph::find_path`].
    pub open spec fn search_state(
        self,
        initial: PathGraph,
        start: int,
        target: int,
        to_search: Seq<usize>,
        in_search: Seq<bool>,
        processed: Seq<bool>,
        done: Set<int>,
    ) -> bool {
        &&& self.common_state(initial, start, target, to_search, in_search, processed, done)
        &&& self.costs_bounded(MAX_STEP_COST * done.len())
        &&& closed_except(initial, in_search, processed, -1)
        &&& self.relaxed_except(initial, processed, -1)
        &&& !processed[target]
    }

    /// The state while the neighbours of the node `current` are updated, the first `j` of them already.
    pub open spec fn relax_state(
        self,
        initial: PathGraph,
        start: int,
        target: int,
        current: int,
        j: int,
        to_search: Seq<usize>,
        in_search: Seq<bool>,
        processed: Seq<bool>,
        done: Set<int>,
    ) -> bool {
        let n = self.nodes@.len();
        &&& self.common_state(initial, start, target, to_search, in_search, processed, done)
        &&& 0 <= current < n
        &&& processed[current]
        &&& 0 <= j <= initial.nodes@[current].neighbours@.len()
        &&& 1 <= done.len() <= n
        &&& self.nodes@[current].g <= MAX_STEP_COST * (done.len() - 1)
        &&& self.costs_bounded(MAX_STEP_COST * done.len())
        &&& closed_except(initial, in_search, processed, current)
        &&& prefix_closed(initial, in_search, processed, current, j)
        &&& self.relaxed_except(initial, processed, current)
        &&& self.relaxed_prefix(initial, processed, current, j)
    }

    /// Sets the cost from the start, the node reached from and the estimate of node `w`.
    fn set_costs(&mut self, w: usize, g: u64, connection: usize, h: u64)
        requires
            w < old(self).nodes@.len(),
        ensures
            final(self).nodes@.len() == old(self).nodes@.len(),
            forall|v: int| 0 <= v < old(self).nodes@.len() && v != w ==> #[trigger] final(self).nodes@[v] == old(self).nodes@[v],
            final(self).nodes@[w as int].ig == old(self).nodes@[w as int].ig,
            final(self).nodes@[w as int].neighbours == old(self).nodes@[w as int].neighbours,
            final(self).nodes@[w as int].g == g,
            final(self).nodes@[w as int].h == h,
            final(self).nodes@[w as int].connection == Some(connection),
    {
        let node = &mut self.nodes[w];
        node.g = g;
        node.h = h;
        node.connection = Some(connection);
    }

    /// After node `w`, unprocessed, gets `current` as its connection at a higher cost than `current`, the
    /// connections still lead to processed nodes of lower cost.
    proof fn lemma_connect_tree(
        self,
        before: PathGraph,
        initial: PathGraph,
        processed: Seq<bool>,
        current: usize,
        w: usize,
    )
        requires
            before.tree_ok(initial, processed),
            self.nodes@.len() == before.nodes@.len(),
            0 <= w < self.nodes@.len(),
            0 <= current < self.nodes@.len(),
            forall|v: int| 0 <= v < self.nodes@.len() && v != w ==> #[trigger] self.nodes@[v] == before.nodes@[v],
            self.nodes@[w as int].connection == Some(current),
            before.nodes@[current as int].g < self.nodes@[w as int].g,
            self.nodes@[w as int].g == before.nodes@[current as int].g + distance_cost(
                initial.nodes@[current as int].ig,
                initial.nodes@[w as int].ig,
            ),
            processed[current as int],
            !processed[w as int],
            initial.nodes@[current as int].neighbours@.contains(w),
        ensures
            self.tree_ok(initial, processed),
    {
        reveal(PathGraph::tree_ok);
        assert forall|v: int| 0 <= v < self.nodes@.len() && (#[trigger] self.nodes@[v]).connection is Some implies {
            let c = self.nodes@[v].connection->0 as int;
            &&& 0 <= c < self.nodes@.len()
            &&& processed[c]
            &&& initial.nodes@[c].neighbours@.contains(v as usize)
            &&& self.nodes@[c].g < self.nodes@[v].g
            &&& self.nodes@[v].g == self.nodes@[c].g + distance_cost(initial.nodes@[c].ig, initial.nodes@[v].ig)
        } by {
            if v != w {
                let bv = before.nodes@[v];
                assert(self.nodes@[v] == bv);
                let c = bv.connection->0 as int;
                assert(processed[c]);
                assert(c != w);
                assert(self.nodes@[c] == before.nodes@[c]);
            } else {
                assert(current != w);
                assert(self.nodes@[current as int] == before.nodes@[current as int]);
            }
        }
    }

    /// After node `w`, not the start, gets a connection, every found node still has one, also once `w` is marked
    /// as found.
    proof fn lemma_connect_marked(
        self,
        before: PathGraph,
        in_search: Seq<bool>,
        processed: Seq<bool>,
        start: int,
        w: int,
    )
        requires
            before.marked_ok(in_search, processed, start),
            self.nodes@.len() == before.nodes@.len(),
            in_search.len() == self.nodes@.len(),
            processed.len() == self.nodes@.len(),
            0 <= w < self.nodes@.len(),
            0 <= start < self.nodes@.len(),
            forall|v: int| 0 <= v < self.nodes@.len() && v != w ==> #[trigger] self.nodes@[v] == before.nodes@[v],
            self.nodes@[w].connection is Some,
            w != start,
        ensures
            self.marked_ok(in_search, processed, start),
            self.marked_ok(in_search.update(w, true), processed, start),
    {
        reveal(PathGraph::marked_ok);
        let ins2 = in_search.update(w, true);
        assert(self.nodes@[start] == before.nodes@[start]);
        assert forall|v: int|
            #![trigger ins2[v]]
            #![trigger processed[v]]
            0 <= v < self.nodes@.len() && (ins2[v] || processed[v]) && v != start implies self.nodes@[v].connection is Some by {
            if v != w {
                assert(self.nodes@[v] == before.nodes@[v]);
                assert(in_search[v] || processed[v]);
            }
        }
        assert forall|v: int|
            #![trigger in_search[v]]
            #![trigger processed[v]]
            0 <= v < self.nodes@.len() && (in_search[v] || processed[v]) && v != start implies self.nodes@[v].connection is Some by {
            if v != w {
                assert(self.nodes@[v] == before.nodes@[v]);
            }
        }
    }

    /// Raising the costs of node `w` to values within the bounds keeps every cost within them.
    proof fn lemma_costs_update(self, before: PathGraph, bound: int, w: int)
        requires
            before.costs_bounded(bound),
            self.nodes@.len() == before.nodes@.len(),
            0 <= w < self.nodes@.len(),
            forall|v: int| 0 <= v < self.nodes@.len() && v != w ==> #[trigger] self.nodes@[v] == before.nodes@[v],
            self.nodes@[w].g <= bound,
            self.nodes@[w].h <= MAX_STEP_COST,
        ensures
            self.costs_bounded(bound),
    {
        reveal(PathGraph::costs_bounded);
        assert forall|v: int| 0 <= v < self.nodes@.len() implies (#[trigger] self.nodes@[v]).g <= bound
            && self.nodes@[v].h <= MAX_STEP_COST by {
            if v != w {
                assert(self.nodes@[v] == before.nodes@[v]);
            }
        }
    }

    /// A graph whose nodes have the same positions and neighbours as a well-formed graph is well formed.
    proof fn lemma_same_structure_wf(self, initial: PathGraph)
        requires
            initial.wf(),
            self.same_structure(initial),
        ensures
            self.wf(),
    {
        assert forall|i: int, k: int|
            0 <= i < self.nodes@.len() && 0 <= k < self.nodes@[i].neighbours@.len() implies {
                let j = #[trigger] self.nodes@[i].neighbours@[k];
                &&& j < self.nodes@.len()
                &&& self.nodes@[j as int].ig != self.nodes@[i].ig
            } by {
            let j = self.nodes@[i].neighbours@[k];
            assert(initial.nodes@[i].neighbours@[k] == j);
            assert(self.nodes@[j as int].ig == initial.nodes@[j as int].ig);
        }
        assert forall|i: int| 0 <= i < self.nodes@.len() implies (#[trigger] self.nodes@[i]).ig.spec_is_inside_grid() by {
            assert(initial.nodes@[i].ig == self.nodes@[i].ig);
        }
    }

    /// Updating the unprocessed `j`-th neighbour `w` of the processed node `current` to the cost through `current`
    /// keeps the costs of processed nodes and the estimates, and relaxes the first `j + 1` neighbours of `current`.
    proof fn lemma_relax_costs(
        self,
        before: PathGraph,
        initial: PathGraph,
        in_search: Seq<bool>,
        processed: Seq<bool>,
        start: int,
        target: int,
        current: int,
        j: int,
        w: int,
    )
        requires
            initial.wf(),
            before.same_structure(initial),
            self.same_structure(initial),
            before.optimal_done(initial, processed, start),
            before.estimates_ok(in_search, processed, start, target),
            before.relaxed_except(initial, processed, current),
            before.relaxed_prefix(initial, processed, current, j),
            closed_except(initial, in_search, processed, current),
            in_search.len() == self.nodes@.len(),
            processed.len() == self.nodes@.len(),
            0 <= start < self.nodes@.len(),
            0 <= target < self.nodes@.len(),
            0 <= current < self.nodes@.len(),
            in_search[start] || processed[start],
            processed[current],
            0 <= j < initial.nodes@[current].neighbours@.len(),
            w == initial.nodes@[current].neighbours@[j] as int,
            !processed[w],
            forall|v: int| 0 <= v < self.nodes@.len() && v != w ==> #[trigger] self.nodes@[v] == before.nodes@[v],
            self.nodes@[w].g == before.nodes@[current].g + distance_cost(initial.nodes@[current].ig, initial.nodes@[w].ig),
            !in_search[w] ==> self.nodes@[w].h == distance_cost(initial.nodes@[w].ig, initial.nodes@[target].ig),
            in_search[w] ==> self.nodes@[w].h == before.nodes@[w].h && self.nodes@[w].g < before.nodes@[w].g,
        ensures
            self.optimal_done(initial, processed, start),
            self.estimates_ok(in_search.update(w, true), processed, start, target),
            self.relaxed_except(initial, processed, current),
            self.relaxed_prefix(initial, processed, current, j + 1),
    {
        reveal(PathGraph::optimal_done);
        reveal(PathGraph::estimates_ok);
        reveal(PathGraph::relaxed_except);
        reveal(PathGraph::relaxed_prefix);
        reveal(closed_except);
        let n = self.nodes@.len();
        assert(0 <= w < n) by {
            assert(initial.nodes@[current].neighbours@[j] < initial.nodes@.len());
        }
        assert(current != w);
        assert forall|walk: Seq<int>|
            #[trigger] initial.is_walk(walk) && walk[0] == start && processed[walk.last()] implies self.nodes@[walk.last()].g
                <= initial.walk_cost(walk) by {
            assert(0 <= walk.last() < n);
            assert(walk.last() != w);
            assert(self.nodes@[walk.last()] == before.nodes@[walk.last()]);
            assert(initial.is_walk(walk));
        }
        let ins = in_search.update(w, true);
        assert forall|v: int| 0 <= v < n && (ins[v] || processed[v]) implies (#[trigger] self.nodes@[v]).h == if v
            == start {
            0
        } else {
            distance_cost(self.nodes@[v].ig, self.nodes@[target].ig)
        } by {
            assert(self.nodes@[v].ig == initial.nodes@[v].ig);
            assert(self.nodes@[target].ig == initial.nodes@[target].ig);
            assert(before.nodes@[v].ig == initial.nodes@[v].ig);
            assert(before.nodes@[target].ig == initial.nodes@[target].ig);
            if v != w {
                assert(self.nodes@[v] == before.nodes@[v]);
                assert(in_search[v] || processed[v]);
                assert(before.nodes@[v].h == if v == start {
                    0
                } else {
                    distance_cost(before.nodes@[v].ig, before.nodes@[target].ig)
                });
            } else if in_search[w] {
                assert(before.nodes@[v].h == if v == start {
                    0
                } else {
                    distance_cost(before.nodes@[v].ig, before.nodes@[target].ig)
                });
            } else {
                assert(w != start);
            }
        }
        assert forall|p: int, k: int|
            0 <= p < initial.nodes@.len() && p != current && processed[p] && 0 <= k < initial.nodes@[p].neighbours@.len()
                implies {
                let w2 = (#[trigger] initial.nodes@[p].neighbours@[k]) as int;
                !processed[w2] ==> self.nodes@[w2].g <= self.nodes@[p].g + distance_cost(
                    initial.nodes@[p].ig,
                    initial.nodes@[w2].ig,
                )
            } by {
            let w2 = initial.nodes@[p].neighbours@[k] as int;
            assert(p != w);
            assert(self.nodes@[p] == before.nodes@[p]);
            assert(0 <= w2 < n);
            if !processed[w2] {
                if w2 != w {
                    assert(self.nodes@[w2] == before.nodes@[w2]);
                } else {
                    assert(processed[w2] || in_search[w2]);
                }
            }
        }
        assert forall|k: int| 0 <= k < j + 1 implies {
            let w2 = (#[trigger] initial.nodes@[current].neighbours@[k]) as int;
            !processed[w2] ==> self.nodes@[w2].g <= self.nodes@[current].g + distance_cost(
                initial.nodes@[current].ig,
                initial.nodes@[w2].ig,
            )
        } by {
            let w2 = initial.nodes@[current].neighbours@[k] as int;
            assert(self.nodes@[current] == before.nodes@[current]);
            assert(0 <= w2 < n);
            if w2 != w && k < j {
                assert(self.nodes@[w2] == before.nodes@[w2]);
            }
        }
    }

    /// Leaving the `j`-th neighbour of `current` as it is relaxes the first `j + 1` neighbours where it is processed
    /// or costs no more than the cost through `current`.
    proof fn lemma_prefix_step_unchanged(self, initial: PathGraph, processed: Seq<bool>, current: int, j: int)
        requires
            self.relaxed_prefix(initial, processed, current, j),
            0 <= j,
            ({
                let w = initial.nodes@[current].neighbours@[j] as int;
                !processed[w] ==> self.nodes@[w].g <= self.nodes@[current].g + distance_cost(
                    initial.nodes@[current].ig,
                    initial.nodes@[w].ig,
                )
            }),
        ensures
            self.relaxed_prefix(initial, processed, current, j + 1),
    {
        reveal(PathGraph::relaxed_prefix);
    }

    /// Updates the `j`-th neighbour of `current`: a neighbour found for the first time gets `current` as its
    /// connection, its cost and its estimate, and joins the nodes to search; one found before is updated when the
    /// path through `current` is cheaper; a processed one is left alone.
    fn relax_neighbour(
        &mut self,
        start: usize,
        target: usize,
        current: usize,
        j: usize,
        to_search: &mut Vec<usize>,
        in_search: &mut Vec<bool>,
        processed: &Vec<bool>,
        Ghost(initial): Ghost<PathGraph>,
        Ghost(done): Ghost<Set<int>>,
    )
        requires
            old(self).relax_state(initial, start as int, target as int, current as int, j as int, old(to_search)@,
                old(in_search)@, processed@, done),
            j < initial.nodes@[current as int].neighbours@.len(),
        ensures
            final(self).relax_state(initial, start as int, target as int, current as int, j + 1, final(to_search)@,
                final(in_search)@, processed@, done),
    {
        let ghost n = self.nodes@.len();
        let ghost before = *self;
        let w = self.nodes[current].neighbours[j];
        proof {
            reveal(queue_ok);
            reveal(prefix_closed);
            assert(self.nodes@[current as int].neighbours@[j as int] == w);
            assert(initial.nodes@[current as int].neighbours@[j as int] == w);
            assert(w < n);
            assert(self.nodes@[w as int].ig == initial.nodes@[w as int].ig);
            assert(self.nodes@[current as int].ig == initial.nodes@[current as int].ig);
            assert(self.nodes@[target as int].ig == initial.nodes@[target as int].ig);
        }
        if processed[w] {
            proof {
                self.lemma_prefix_step_unchanged(initial, processed@, current as int, j as int);
            }
            return;
        }
        let not_in_search = !in_search[w];
        let cost = calculate_distance_cost(&self.nodes[current].ig, &self.nodes[w].ig);
        let ghost d = done.len();
        proof {
            reveal(PathGraph::marked_ok);
            if w == start {
                assert(in_search@[start as int]);
            }
            lemma_distance_cost_bounds(self.nodes@[current as int].ig, self.nodes@[w as int].ig);
            assert(MAX_STEP_COST * (d - 1) + MAX_STEP_COST == MAX_STEP_COST * d);
            assert(MAX_STEP_COST * d <= MAX_STEP_COST * n) by (nonlinear_arith)
                requires d <= n;
        }
        let g_new = self.nodes[current].g + cost;
        if not_in_search || g_new < self.nodes[w].g {
            let h = if not_in_search {
                calculate_distance_cost(&self.nodes[w].ig, &self.nodes[target].ig)
            } else {
                self.nodes[w].h
            };
            proof {
                reveal(PathGraph::costs_bounded);
                if not_in_search {
                    lemma_distance_cost_bounds(self.nodes@[w as int].ig, self.nodes@[target as int].ig);
                } else {
                    assert(self.nodes@[w as int].h <= MAX_STEP_COST);
                }
            }
            let ghost ins0 = in_search@;
            self.set_costs(w, g_new, current, h);
            proof {
                assert(initial.nodes@[current as int].neighbours@.contains(w));
                assert(self.nodes@[current as int].ig == initial.nodes@[current as int].ig);
                assert(self.nodes@[w as int].ig == initial.nodes@[w as int].ig);
                self.lemma_connect_tree(before, initial, processed@, current, w);
                self.lemma_connect_marked(before, in_search@, processed@, start as int, w as int);
                self.lemma_costs_update(before, MAX_STEP_COST * done.len(), w as int);
                assert(self.nodes@[current as int] == before.nodes@[current as int]);
                assert forall|i: int| 0 <= i < n implies (#[trigger] self.nodes@[i]).ig == initial.nodes@[i].ig
                    && self.nodes@[i].neighbours@ == initial.nodes@[i].neighbours@ by {
                    if i != w {
                        assert(self.nodes@[i] == before.nodes@[i]);
                    }
                }
                assert(self.same_structure(initial));
                reveal(PathGraph::marked_ok);
                self.lemma_relax_costs(
                    before,
                    initial,
                    ins0,
                    processed@,
                    start as int,
                    target as int,
                    current as int,
                    j as int,
                    w as int,
                );
                if !not_in_search {
                    assert(ins0.update(w as int, true) =~= ins0);
                }
            }
            if not_in_search {
                let ghost ts = to_search@;
                let ghost ins = in_search@;
                to_search.push(w);
                in_search.set(w, true);
                proof {
                    lemma_queue_push(ts, ins, processed@, n as int, w as int);
                    reveal(closed_except);
                }
            }
        } else {
            proof {
                self.lemma_prefix_step_unchanged(initial, processed@, current as int, j as int);
            }
        }
        proof {
            reveal(prefix_closed);
            reveal(closed_except);
        }
    }

    /// Along a walk from the start to an unprocessed node lies a node still to search whose cost from the start is at
    /// most the cost of the walk up to it.
    proof fn lemma_frontier(
        self,
        initial: PathGraph,
        start: int,
        target: int,
        to_search: Seq<usize>,
        in_search: Seq<bool>,
        processed: Seq<bool>,
        done: Set<int>,
        walk: Seq<int>,
    ) -> (i: int)
        requires
            self.search_state(initial, start, target, to_search, in_search, processed, done),
            initial.is_walk(walk),
            walk[0] == start,
            !processed[walk.last()],
        ensures
            0 <= i < walk.len(),
            in_search[walk[i]],
            self.nodes@[walk[i]].g <= initial.walk_cost(walk.subrange(0, i + 1)),
        decreases walk.len(),
    {
        reveal(queue_ok);
        if walk.len() == 1 {
            reveal(PathGraph::marked_ok);
            assert(walk.subrange(0, 1).len() == 1);
            0
        } else {
            let rest = walk.drop_last();
            assert(initial.is_walk(rest)) by {
                assert forall|i: int| 0 <= i < rest.len() - 1 implies initial.has_edge(#[trigger] rest[i], rest[i + 1]) by {
                    assert(initial.has_edge(walk[i], walk[i + 1]));
                }
            }
            let u = rest.last();
            let x = walk.last();
            assert(u == walk[walk.len() - 2]);
            if processed[u] {
                reveal(PathGraph::optimal_done);
                reveal(PathGraph::relaxed_except);
                reveal(closed_except);
                assert(initial.is_walk(rest));
                assert(self.nodes@[u].g <= initial.walk_cost(rest));
                assert(initial.has_edge(walk[walk.len() - 2], walk[walk.len() - 2 + 1]));
                let k = choose|k: int|
                    0 <= k < initial.nodes@[u].neighbours@.len() && initial.nodes@[u].neighbours@[k] == x as usize;
                assert(0 <= x < initial.nodes@.len());
                assert((initial.nodes@[u].neighbours@[k]) as int == x);
                assert(processed[x] || in_search[x]);
                assert(walk.subrange(0, walk.len() as int) =~= walk);
                (walk.len() - 1) as int
            } else {
                let i = self.lemma_frontier(initial, start, target, to_search, in_search, processed, done, rest);
                assert(rest.subrange(0, i + 1) =~= walk.subrange(0, i + 1));
                assert(rest[i] == walk[i]);
                i
            }
        }
    }

    /// The node to search with the lowest total cost costs no more from the start than any walk from the start to
    /// it: the estimates never exceed the cost still to go.
    proof fn lemma_pop_optimal(
        self,
        initial: PathGraph,
        start: int,
        target: int,
        to_search: Seq<usize>,
        in_search: Seq<bool>,
        processed: Seq<bool>,
        done: Set<int>,
        selected: int,
        walk: Seq<int>,
    )
        requires
            self.search_state(initial, start, target, to_search, in_search, processed, done),
            0 <= selected < to_search.len(),
            forall|k: int|
                0 <= k < to_search.len() ==> self.nodes@[to_search[selected] as int].g + self.nodes@[to_search[selected] as int].h
                    <= (#[trigger] self.nodes@[to_search[k] as int]).g + self.nodes@[to_search[k] as int].h,
            initial.is_walk(walk),
            walk[0] == start,
            walk.last() == to_search[selected] as int,
        ensures
            self.nodes@[walk.last()].g <= initial.walk_cost(walk),
    {
        reveal(queue_ok);
        reveal(PathGraph::marked_ok);
        reveal(PathGraph::estimates_ok);
        let x = walk.last();
        assert(in_search[x] && !processed[x]);
        let i = self.lemma_frontier(initial, start, target, to_search, in_search, processed, done, walk);
        let y = walk[i];
        assert(0 <= y < self.nodes@.len());
        assert(to_search.contains(y as usize));
        let k = choose|k: int| 0 <= k < to_search.len() && to_search[k] == y as usize;
        assert(self.nodes@[x].g + self.nodes@[x].h <= self.nodes@[to_search[k] as int].g + self.nodes@[to_search[k] as int].h);
        initial.lemma_walk_cost_split(walk, i);
        let head = walk.subrange(0, i + 1);
        let tail = walk.subrange(i, walk.len() as int);
        initial.lemma_walk_cost_at_least(tail);
        initial.lemma_walk_cost_at_least(head);
        assert(tail[0] == y && tail.last() == x);
        let iy = initial.nodes@[y].ig;
        let ix = initial.nodes@[x].ig;
        let it = initial.nodes@[target].ig;
        assert(self.nodes@[y].ig == iy && self.nodes@[x].ig == ix && self.nodes@[target].ig == it);
        assert(distance_cost(iy, ix) >= 0);
        assert(distance_cost(initial.nodes@[head[0]].ig, initial.nodes@[head.last()].ig) >= 0);
        if x != start && y != start {
            lemma_distance_triangle(iy, ix, it);
        }
    }

    /// Entering the update of the neighbours of the node just taken from the nodes to search.
    proof fn lemma_take_current(
        self,
        initial: PathGraph,
        start: int,
        target: int,
        selected: int,
        to_search: Seq<usize>,
        in_search: Seq<bool>,
        processed: Seq<bool>,
        done: Set<int>,
    )
        requires
            self.search_state(initial, start, target, to_search, in_search, processed, done),
            0 <= selected < to_search.len(),
            forall|k: int|
                0 <= k < to_search.len() ==> self.nodes@[to_search[selected] as int].g + self.nodes@[to_search[selected] as int].h
                    <= (#[trigger] self.nodes@[to_search[k] as int]).g + self.nodes@[to_search[k] as int].h,
        ensures
            ({
                let current = to_search[selected] as int;
                let done2 = done.insert(current);
                let to_search2 = to_search.remove(selected);
                let in_search2 = in_search.update(current, false);
                let processed2 = processed.update(current, true);
                &&& self.relax_state(initial, start, target, current, 0, to_search2, in_search2, processed2, done2)
                &&& done2.len() == done.len() + 1
                &&& (processed2[target] <==> current == target)
            }),
    {
        let n = self.nodes@.len();
        let current = to_search[selected] as int;
        let done2 = done.insert(current);
        let to_search2 = to_search.remove(selected);
        let in_search2 = in_search.update(current, false);
        let processed2 = processed.update(current, true);
        lemma_queue_take(to_search, in_search, processed, n as int, selected);
        reveal(queue_ok);
        assert(!processed[current]);
        assert(!done.contains(current));
        lemma_int_range(0, n as int);
        lemma_len_subset(done2, set_int_range(0, n as int));
        assert(self.tree_ok(initial, processed2)) by {
            reveal(PathGraph::tree_ok);
        }
        assert(self.marked_ok(in_search2, processed2, start)) by {
            reveal(PathGraph::marked_ok);
            assert forall|v: int|
                #![trigger in_search2[v]]
                #![trigger processed2[v]]
                0 <= v < n && (in_search2[v] || processed2[v]) && v != start implies self.nodes@[v].connection is Some by {
                assert(in_search[v] || processed[v]);
            }
        }
        assert(self.costs_bounded(MAX_STEP_COST * done2.len())) by {
            reveal(PathGraph::costs_bounded);
            assert(MAX_STEP_COST * done.len() <= MAX_STEP_COST * done2.len());
        }
        assert(self.nodes@[current].g <= MAX_STEP_COST * (done2.len() - 1)) by {
            reveal(PathGraph::costs_bounded);
        }
        assert(closed_except(initial, in_search2, processed2, current)) by {
            reveal(closed_except);
            assert forall|p: int, k: int|
                0 <= p < initial.nodes@.len() && p != current && processed2[p] && 0 <= k
                    < initial.nodes@[p].neighbours@.len() implies {
                    let w = (#[trigger] initial.nodes@[p].neighbours@[k]) as int;
                    processed2[w] || in_search2[w]
                } by {
                let w = initial.nodes@[p].neighbours@[k] as int;
                assert(processed[p]);
                assert(processed[w] || in_search[w]);
            }
        }
        assert(prefix_closed(initial, in_search2, processed2, current, 0)) by {
            reveal(prefix_closed);
        }
        assert(self.optimal_done(initial, processed2, start)) by {
            reveal(PathGraph::optimal_done);
            assert forall|walk: Seq<int>|
                #[trigger] initial.is_walk(walk) && walk[0] == start && processed2[walk.last()] implies self.nodes@[walk.last()].g
                    <= initial.walk_cost(walk) by {
                if walk.last() == current {
                    self.lemma_pop_optimal(initial, start, target, to_search, in_search, processed, done, selected, walk);
                } else {
                    assert(processed[walk.last()]);
                }
            }
        }
        assert(self.estimates_ok(in_search2, processed2, start, target)) by {
            reveal(PathGraph::estimates_ok);
            assert forall|v: int| 0 <= v < n && (in_search2[v] || processed2[v]) implies (#[trigger] self.nodes@[v]).h == if v
                == start {
                0
            } else {
                distance_cost(self.nodes@[v].ig, self.nodes@[target].ig)
            } by {
                assert(in_search[v] || processed[v]);
            }
        }
        assert(self.relaxed_except(initial, processed2, current)) by {
            reveal(PathGraph::relaxed_except);
            assert forall|p: int, k: int|
                0 <= p < initial.nodes@.len() && p != current && processed2[p] && 0 <= k
                    < initial.nodes@[p].neighbours@.len() implies {
                    let w = (#[trigger] initial.nodes@[p].neighbours@[k]) as int;
                    !processed2[w] ==> self.nodes@[w].g <= self.nodes@[p].g + distance_cost(
                        initial.nodes@[p].ig,
                        initial.nodes@[w].ig,
                    )
                } by {
                assert(processed[p]);
            }
        }
        assert(self.relaxed_prefix(initial, processed2, current, 0)) by {
            reveal(PathGraph::relaxed_prefix);
        }
        assert forall|i: int| #[trigger] done2.contains(i) <==> (0 <= i < n && processed2[i]) by {
            assert(done.contains(i) <==> (0 <= i < n && processed[i]));
        }
    }

    /// Leaving the update of the neighbours: the search state holds again.
    proof fn lemma_neighbours_done(
        self,
        initial: PathGraph,
        start: int,
        target: int,
        current: int,
        to_search: Seq<usize>,
        in_search: Seq<bool>,
        processed: Seq<bool>,
        done: Set<int>,
    )
        requires
            self.relax_state(initial, start, target, current, initial.nodes@[current].neighbours@.len() as int,
                to_search, in_search, processed, done),
            !processed[target],
        ensures
            self.search_state(initial, start, target, to_search, in_search, processed, done),
    {
        reveal(closed_except);
        reveal(prefix_closed);
        assert(self.relaxed_except(initial, processed, -1)) by {
            reveal(PathGraph::relaxed_except);
            reveal(PathGraph::relaxed_prefix);
            assert forall|p: int, k: int|
                0 <= p < initial.nodes@.len() && p != -1 && processed[p] && 0 <= k < initial.nodes@[p].neighbours@.len()
                    implies {
                    let w = (#[trigger] initial.nodes@[p].neighbours@[k]) as int;
                    !processed[w] ==> self.nodes@[w].g <= self.nodes@[p].g + distance_cost(
                        initial.nodes@[p].ig,
                        initial.nodes@[w].ig,
                    )
                } by {
                if p == current {
                    assert(initial.nodes@[current].neighbours@[k] == initial.nodes@[p].neighbours@[k]);
                }
            }
        }
        assert forall|p: int, k: int|
            0 <= p < initial.nodes@.len() && p != -1 && processed[p] && 0 <= k < initial.nodes@[p].neighbours@.len()
                implies {
                let w = (#[trigger] initial.nodes@[p].neighbours@[k]) as int;
                processed[w] || in_search[w]
            } by {
            if p == current {
                assert(initial.nodes@[current].neighbours@[k] == initial.nodes@[p].neighbours@[k]);
            }
        }
    }

    /// When no node is left to search, every node reachable from the start is processed, the target among them.
    proof fn lemma_search_exhausted(
        self,
        initial: PathGraph,
        start: int,
        target: int,
        in_search: Seq<bool>,
        processed: Seq<bool>,
        done: Set<int>,
    )
        requires
            self.search_state(initial, start, target, Seq::empty(), in_search, processed, done),
        ensures
            !initial.reachable(start, target),
    {
        let n = self.nodes@.len();
        reveal(queue_ok);
        assert(processed[start]) by {
            reveal(PathGraph::marked_ok);
            lemma_queue_empty(in_search, processed, n as int, start);
        }
        if initial.reachable(start, target) {
            let walk = choose|walk: Seq<int>| #[trigger] initial.is_walk(walk) && walk[0] == start && walk.last()
                == target;
            assert forall|p: int, k: int|
                0 <= p < n && processed[p] && 0 <= k < initial.nodes@[p].neighbours@.len() implies processed[(
                #[trigger] initial.nodes@[p].neighbours@[k]) as int] by {
                reveal(closed_except);
                let w = initial.nodes@[p].neighbours@[k] as int;
                assert(processed[w] || in_search[w]);
                lemma_queue_empty(in_search, processed, n as int, w);
            }
            lemma_closed_set_holds_walk(initial, processed, walk);
        }
    }

    /// Finds a path from node `start` to node `target` with the A* algorithm: it repeatedly processes the node with
    /// the lowest total cost (ties broken by the lowest estimate, then by the order nodes were found in), updating
    /// the costs and connections of its unprocessed neighbours, until it processes the target. Returns the nodes of
    /// the path from the target back to the start, or `None` if the target cannot be reached from the start.
    pub fn find_path(&mut self, start: usize, target: usize) -> (chain: Option<Vec<usize>>)
        requires
            old(self).wf(),
            old(self).is_fresh(),
            start < old(self).nodes@.len(),
            target < old(self).nodes@.len(),
        ensures
            final(self).wf(),
            final(self).same_structure(*old(self)),
            chain.is_none() <==> !old(self).reachable(start as int, target as int),
            chain matches Some(c) ==> {
                &&& c@.len() >= 1
                &&& c@[0] == target
                &&& c@.last() == start
                &&& forall|i: int| 0 <= i < c@.len() ==> (#[trigger] c@[i]) < old(self).nodes@.len()
                &&& forall|i: int|
                    0 <= i < c@.len() - 1 ==> old(self).has_edge(#[trigger] c@[i + 1] as int, c@[i] as int)
                &&& old(self).is_walk(chain_walk(c@))
                &&& forall|walk: Seq<int>|
                    #[trigger] old(self).is_walk(walk) && walk[0] == start && walk.last() == target ==> old(self).walk_cost(
                        chain_walk(c@),
                    ) <= old(self).walk_cost(walk)
            },
    {
        let ghost initial = *self;
        let n = self.nodes.len();
        let mut to_search: Vec<usize> = Vec::new();
        to_search.push(start);
        let mut in_search = filled(n, false);
        in_search.set(start, true);
        let mut processed = filled(n, false);
        let ghost mut done: Set<int> = Set::empty();
        proof {
            reveal(queue_ok);
            reveal(PathGraph::tree_ok);
            reveal(PathGraph::marked_ok);
            reveal(PathGraph::costs_bounded);
            reveal(closed_except);
            reveal(PathGraph::optimal_done);
            reveal(PathGraph::estimates_ok);
            reveal(PathGraph::relaxed_except);
            assert(to_search@ == seq![start]);
            assert forall|i: int| 0 <= i < n && #[trigger] in_search@[i] implies to_search@.contains(i as usize) by {
                assert(i == start);
                assert(to_search@[0] == start);
            }
            assert(self.same_structure(initial));
            assert(self.search_state(initial, start as int, target as int, to_search@, in_search@, processed@, done));
        }
        while to_search.len() > 0
            invariant
                self.search_state(initial, start as int, target as int, to_search@, in_search@, processed@, done),
                initial == *old(self),
                n == self.nodes@.len(),
            decreases n - done.len(),
        {
            proof {
                lemma_int_range(0, n as int);
                lemma_len_subset(done, set_int_range(0, n as int));
                reveal(PathGraph::costs_bounded);
                reveal(queue_ok);
                assert(MAX_STEP_COST * done.len() <= MAX_STEP_COST * n) by (nonlinear_arith)
                    requires done.len() <= n;
            }
            let selected = select_current(self, &to_search);
            let current = to_search[selected];
            proof {
                self.lemma_take_current(initial, start as int, target as int, selected as int, to_search@,
                    in_search@, processed@, done);
                done = done.insert(current as int);
            }
            processed.set(current, true);
            in_search.set(current, false);
            to_search.remove(selected);
            if current == target {
                proof {
                    self.lemma_same_structure_wf(initial);
                }
                let chain = self.reconstruct(start, target, &in_search, &processed, Ghost(initial));
                proof {
                    let len = chain@.len();
                    let walk = chain_walk(chain@);
                    assert(initial.is_walk(walk)) by {
                        assert forall|i: int| 0 <= i < walk.len() - 1 implies initial.has_edge(
                            #[trigger] walk[i],
                            walk[i + 1],
                        ) by {
                            assert(initial.has_edge(chain@[(len - 2 - i) + 1] as int, chain@[len - 2 - i] as int));
                        }
                    }
                    assert(walk[0] == start as int);
                    assert(walk.last() == target as int);
                    reveal(PathGraph::optimal_done);
                    assert forall|w2: Seq<int>|
                        #[trigger] initial.is_walk(w2) && w2[0] == start && w2.last() == target implies initial.walk_cost(
                            walk,
                        ) <= initial.walk_cost(w2) by {
                        assert(processed@[w2.last()]);
                    }
                }
                return Some(chain);
            }
            let degree = self.nodes[current].neighbours.len();
            let mut j: usize = 0;
            while j < degree
                invariant
                    self.relax_state(initial, start as int, target as int, current as int, j as int, to_search@,
                        in_search@, processed@, done),
                    degree == initial.nodes@[current as int].neighbours@.len(),
                    !processed@[target as int],
                    initial == *old(self),
                    n == self.nodes@.len(),
                decreases degree - j,
            {
                self.relax_neighbour(start, target, current, j, &mut to_search, &mut in_search, &processed,
                    Ghost(initial), Ghost(done));
                j = j + 1;
            }
            proof {
                self.lemma_neighbours_done(initial, start as int, target as int, current as int, to_search@,
                    in_search@, processed@, done);
            }
        }
        proof {
            assert(to_search@ =~= Seq::<usize>::empty());
            self.lemma_search_exhausted(initial, start as int, target as int, in_search@, processed@, done);
            self.lemma_same_structure_wf(initial);
        }
        None
    }

    /// Walks the connections back from the target to the start.
    fn reconstruct(
        &self,
        start: usize,
        target: usize,
        in_search: &Vec<bool>,
        processed: &Vec<bool>,
        Ghost(initial): Ghost<PathGraph>,
    ) -> (chain: Vec<usize>)
        requires
            self.same_structure(initial),
            start < self.nodes@.len(),
            target < self.nodes@.len(),
            processed@[target as int],
            self.tree_ok(initial, processed@),
            self.marked_ok(in_search@, processed@, start as int),
        ensures
            chain@.len() >= 1,
            chain@[0] == target,
            chain@.last() == start,
            forall|i: int| 0 <= i < chain@.len() ==> (#[trigger] chain@[i]) < self.nodes@.len(),
            forall|i: int| 0 <= i < chain@.len() - 1 ==> initial.has_edge(#[trigger] chain@[i + 1] as int, chain@[i] as int),
            initial.walk_cost(chain_walk(chain@)) == self.nodes@[target as int].g,
    {
        proof {
            reveal(PathGraph::tree_ok);
            reveal(PathGraph::marked_ok);
            assert(chain_walk(seq![target]).len() == 1);
        }
        let mut chain: Vec<usize> = Vec::new();
        chain.push(target);
        let mut node = target;
        let mut next = self.nodes[node].connection;
        while next.is_some()
            invariant
                self.same_structure(initial),
                start < self.nodes@.len(),
                self.tree_ok(initial, processed@),
                self.marked_ok(in_search@, processed@, start as int),
                node < self.nodes@.len(),
                processed@[node as int],
                next == self.nodes@[node as int].connection,
                chain@.len() >= 1,
                chain@[0] == target,
                chain@.last() == node,
                forall|i: int| 0 <= i < chain@.len() ==> (#[trigger] chain@[i]) < self.nodes@.len(),
                forall|i: int| 0 <= i < chain@.len() - 1 ==> initial.has_edge(#[trigger] chain@[i + 1] as int, chain@[i] as int),
                initial.walk_cost(chain_walk(chain@)) + self.nodes@[node as int].g == self.nodes@[target as int].g,
            decreases self.nodes@[node as int].g,
        {
            let c = next.unwrap();
            let ghost before = chain@;
            chain.push(c);
            proof {
                reveal(PathGraph::tree_ok);
                assert(initial.nodes@[c as int].neighbours@.contains(node));
                assert forall|i: int| 0 <= i < chain@.len() - 1 implies initial.has_edge(
                    #[trigger] chain@[i + 1] as int,
                    chain@[i] as int,
                ) by {
                    if i < before.len() - 1 {
                        assert(chain@[i + 1] == before[i + 1] && chain@[i] == before[i]);
                    } else {
                        assert(chain@[i] == node && chain@[i + 1] == c);
                    }
                }
                assert(chain_walk(chain@) =~= seq![c as int] + chain_walk(before));
                assert(chain_walk(before)[0] == node as int);
                initial.lemma_walk_cost_prepend(c as int, chain_walk(before));
                assert(self.nodes@[c as int].ig == initial.nodes@[c as int].ig);
                assert(self.nodes@[node as int].ig == initial.nodes@[node as int].ig);
            }
            node = c;
            next = self.nodes[node].connection;
        }
        proof {
            reveal(PathGraph::marked_ok);
            if node != start {
                assert(in_search@[node as int] || processed@[node as int]);
            }
        }
        chain
    }
}

} // verus!
