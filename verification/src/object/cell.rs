use crate::coords::Point;
use crate::object::connection::Connection;
use crate::object::object_name::ObjectName;
use crate::object::terrain::{TerrainType, TileType};
use crate::object::terrain_state::TerrainState;
use crate::random::random_below;
use rand::rngs::StdRng;
use vstd::prelude::*;

verus! {

/// A terrain state as plain values: name, sprite index, weight, and the permitted neighbour names per side.
pub type StateView = (ObjectName, i32, i32, Seq<(Connection, Seq<ObjectName>)>);

/// The plain values of a list of terrain states.
pub open spec fn views_of(states: Seq<TerrainState>) -> Seq<StateView> {
    states.map_values(|s: TerrainState| s.spec_view())
}

/// Whether some state among `reference` permits a neighbour named `name` on side `side`.
pub open spec fn permits(reference: Seq<StateView>, side: Connection, name: ObjectName) -> bool {
    exists|i: int, j: int, k: int|
        0 <= i < reference.len() && 0 <= j < reference[i].3.len() && reference[i].3[j].0 == side && 0 <= k
            < reference[i].3[j].1.len() && #[trigger] reference[i].3[j].1[k] == name
}

/// The states of `states` whose name some state of `reference` permits on side `side`, in their initial order.
pub open spec fn reduced(states: Seq<StateView>, reference: Seq<StateView>, side: Connection) -> Seq<StateView>
    decreases states.len(),
{
    if states.len() == 0 {
        states
    } else {
        let rest = reduced(states.drop_last(), reference, side);
        if permits(reference, side, states.last().0) {
            rest.push(states.last())
        } else {
            rest
        }
    }
}

/// Every state kept by [`reduced`] is one of the initial states and is permitted.
pub proof fn lemma_reduced_members(states: Seq<StateView>, reference: Seq<StateView>, side: Connection)
    ensures
        reduced(states, reference, side).len() <= states.len(),
        forall|i: int|
            0 <= i < reduced(states, reference, side).len() ==> states.contains(
                #[trigger] reduced(states, reference, side)[i],
            ) && permits(reference, side, reduced(states, reference, side)[i].0),
    decreases states.len(),
{
    if states.len() > 0 {
        lemma_reduced_members(states.drop_last(), reference, side);
        let rest = reduced(states.drop_last(), reference, side);
        assert forall|i: int| 0 <= i < rest.len() implies states.contains(#[trigger] rest[i]) by {
            let j = choose|j: int| 0 <= j < states.drop_last().len() && states.drop_last()[j] == rest[i];
            assert(states[j] == rest[i]);
        }
        assert(states[states.len() - 1] == states.last());
    }
}

/// The sum of the weights of a list of states.
pub open spec fn total_weight(states: Seq<StateView>) -> int
    decreases states.len(),
{
    if states.len() == 0 {
        0
    } else {
        total_weight(states.drop_last()) + states.last().2
    }
}

/// The neighbour rules of a state that permits only [`ObjectName::Empty`] on every side.
pub open spec fn only_empty_rules() -> Seq<(Connection, Seq<ObjectName>)> {
    seq![
        (Connection::Top, seq![ObjectName::Empty]),
        (Connection::Right, seq![ObjectName::Empty]),
        (Connection::Bottom, seq![ObjectName::Empty]),
        (Connection::Left, seq![ObjectName::Empty]),
    ]
}

/// The index of the state selected by walking through `states` with `target`: the first state whose weight exceeds
/// what is left of the target after subtracting the weights of the states before it.
pub open spec fn weighted_choice(states: Seq<StateView>, target: int) -> int
    decreases states.len(),
{
    if states.len() == 0 {
        0
    } else if target < states[0].2 {
        0
    } else {
        1 + weighted_choice(states.subrange(1, states.len() as int), target - states[0].2)
    }
}

/// The sprite index an object placed by a settlement is drawn with: the path or building sprite index, `0` for any
/// other object.
pub open spec fn marked_index(name: ObjectName) -> i32 {
    if name.spec_is_path() {
        name.spec_path_index()
    } else if name.spec_is_building() {
        name.spec_building_index()
    } else {
        0
    }
}

/// Returned when propagating a change leaves a cell without any possible state, or when a collapsed cell is not
/// permitted next to its neighbour.
#[derive(Debug)]
pub struct PropagationFailure {}

/// A placeholder for the object on one tile of a chunk. The wave function collapse reduces its possible states until
/// it is collapsed to a single state; path finding uses its neighbours, connection and costs.
#[derive(Debug)]
pub struct Cell {
    pub ig: Point,
    pub index: i32,
    pub neighbours: Vec<Point>,
    pub connection: Option<Point>,
    pub g: u32,
    pub h: u32,
    pub is_collapsed: bool,
    pub is_initialised: bool,
    pub is_walkable: bool,
    pub terrain: TerrainType,
    pub tile_type: TileType,
    pub entropy: usize,
    pub possible_states: Vec<TerrainState>,
}

/// Returns whether `names` holds `name`.
pub fn contains_name(names: &Vec<ObjectName>, name: ObjectName) -> (result: bool)
    ensures
        result == names@.contains(name),
{
    let mut i: usize = 0;
    while i < names.len()
        invariant
            i <= names.len(),
            forall|j: int| 0 <= j < i ==> names@[j] != name,
        decreases names.len() - i,
    {
        if names[i] == name {
            return true;
        }
        i = i + 1;
    }
    false
}

/// Returns whether `points` holds `point`.
pub fn contains_point(points: &Vec<Point>, point: Point) -> (result: bool)
    ensures
        result == points@.contains(point),
{
    let mut i: usize = 0;
    while i < points.len()
        invariant
            i <= points.len(),
            forall|j: int| 0 <= j < i ==> points@[j] != point,
        decreases points.len() - i,
    {
        if points[i] == point {
            return true;
        }
        i = i + 1;
    }
    false
}

/// The names that the rules permit on side `side`, concatenated in rule order.
pub open spec fn side_names(rules: Seq<(Connection, Seq<ObjectName>)>, side: Connection) -> Seq<ObjectName>
    decreases rules.len(),
{
    if rules.len() == 0 {
        Seq::empty()
    } else {
        side_names(rules.drop_last(), side) + if rules.last().0 == side {
            rules.last().1
        } else {
            Seq::empty()
        }
    }
}

/// The names that the states permit on side `side`, concatenated in state order.
pub open spec fn all_side_names(states: Seq<StateView>, side: Connection) -> Seq<ObjectName>
    decreases states.len(),
{
    if states.len() == 0 {
        Seq::empty()
    } else {
        all_side_names(states.drop_last(), side) + side_names(states.last().3, side)
    }
}

/// A concatenation contains exactly what its parts contain.
pub proof fn lemma_concat_contains<T>(a: Seq<T>, b: Seq<T>, x: T)
    ensures
        (a + b).contains(x) <==> (a.contains(x) || b.contains(x)),
{
    if a.contains(x) {
        let i = choose|i: int| 0 <= i < a.len() && a[i] == x;
        assert((a + b)[i] == x);
    }
    if b.contains(x) {
        let i = choose|i: int| 0 <= i < b.len() && b[i] == x;
        assert((a + b)[a.len() + i] == x);
    }
    if (a + b).contains(x) {
        let i = choose|i: int| 0 <= i < (a + b).len() && (a + b)[i] == x;
        if i < a.len() {
            assert(a[i] == x);
        } else {
            assert(b[i - a.len()] == x);
        }
    }
}

/// The names of matching rules are exactly the names some rule for that side lists.
proof fn lemma_side_names_contains(rules: Seq<(Connection, Seq<ObjectName>)>, side: Connection, name: ObjectName)
    ensures
        side_names(rules, side).contains(name) <==> exists|j: int, k: int|
            0 <= j < rules.len() && rules[j].0 == side && 0 <= k < rules[j].1.len() && #[trigger] rules[j].1[k]
                == name,
    decreases rules.len(),
{
    if rules.len() > 0 {
        let init = rules.drop_last();
        let tail = if rules.last().0 == side {
            rules.last().1
        } else {
            Seq::empty()
        };
        lemma_side_names_contains(init, side, name);
        lemma_concat_contains(side_names(init, side), tail, name);
        if side_names(rules, side).contains(name) {
            if side_names(init, side).contains(name) {
                let (j, k) = choose|j: int, k: int|
                    0 <= j < init.len() && init[j].0 == side && 0 <= k < init[j].1.len() && #[trigger] init[j].1[k]
                        == name;
                assert(rules[j] == init[j]);
                assert(rules[j].1[k] == name);
            } else {
                let k = choose|k: int| 0 <= k < tail.len() && tail[k] == name;
                assert(rules[rules.len() - 1].1[k] == name);
            }
        }
        if exists|j: int, k: int|
            0 <= j < rules.len() && rules[j].0 == side && 0 <= k < rules[j].1.len() && #[trigger] rules[j].1[k]
                == name {
            let (j, k) = choose|j: int, k: int|
                0 <= j < rules.len() && rules[j].0 == side && 0 <= k < rules[j].1.len() && #[trigger] rules[j].1[k]
                    == name;
            if j < rules.len() - 1 {
                assert(init[j].1[k] == name);
            } else {
                assert(tail[k] == name);
            }
        }
    }
}

/// The names of all states for a side are exactly the names the states permit on that side.
proof fn lemma_all_side_names_contains(states: Seq<StateView>, side: Connection, name: ObjectName)
    ensures
        all_side_names(states, side).contains(name) <==> permits(states, side, name),
    decreases states.len(),
{
    if states.len() > 0 {
        let init = states.drop_last();
        lemma_all_side_names_contains(init, side, name);
        lemma_side_names_contains(states.last().3, side, name);
        lemma_concat_contains(all_side_names(init, side), side_names(states.last().3, side), name);
        if all_side_names(states, side).contains(name) {
            if all_side_names(init, side).contains(name) {
                let (i, j, k) = choose|i: int, j: int, k: int|
                    0 <= i < init.len() && 0 <= j < init[i].3.len() && init[i].3[j].0 == side && 0 <= k
                        < init[i].3[j].1.len() && #[trigger] init[i].3[j].1[k] == name;
                assert(states[i] == init[i]);
                assert(states[i].3[j].1[k] == name);
            } else {
                let last = states.last();
                let (j, k) = choose|j: int, k: int|
                    0 <= j < last.3.len() && last.3[j].0 == side && 0 <= k < last.3[j].1.len()
                        && #[trigger] last.3[j].1[k] == name;
                assert(states[states.len() - 1].3[j].1[k] == name);
            }
        }
        if permits(states, side, name) {
            let (i, j, k) = choose|i: int, j: int, k: int|
                0 <= i < states.len() && 0 <= j < states[i].3.len() && states[i].3[j].0 == side && 0 <= k
                    < states[i].3[j].1.len() && #[trigger] states[i].3[j].1[k] == name;
            if i < states.len() - 1 {
                assert(init[i].3[j].1[k] == name);
            } else {
                assert(states.last().3[j].1[k] == name);
            }
        }
    }
}

/// Appends `names` to `out`.
fn append_names(out: &mut Vec<ObjectName>, names: &Vec<ObjectName>)
    ensures
        final(out)@ == old(out)@ + names@,
{
    let mut k: usize = 0;
    while k < names.len()
        invariant
            k <= names.len(),
            out@ == old(out)@ + names@.subrange(0, k as int),
        decreases names.len() - k,
    {
        out.push(names[k]);
        k = k + 1;
        assert(out@ =~= old(out)@ + names@.subrange(0, k as int));
    }
    assert(names@.subrange(0, names.len() as int) =~= names@);
}

/// Appends to `out` the names that `state` permits on side `side`.
fn append_permitted_names(state: &TerrainState, side: Connection, out: &mut Vec<ObjectName>)
    ensures
        final(out)@ == old(out)@ + side_names(state.spec_view().3, side),
{
    let ghost rules = state.spec_view().3;
    let mut j: usize = 0;
    while j < state.permitted_neighbours.len()
        invariant
            rules == state.spec_view().3,
            j <= state.permitted_neighbours.len(),
            out@ == old(out)@ + side_names(rules.subrange(0, j as int), side),
        decreases state.permitted_neighbours.len() - j,
    {
        assert(rules.subrange(0, j + 1).drop_last() =~= rules.subrange(0, j as int));
        assert(rules[j as int] == (state.permitted_neighbours@[j as int].0, state.permitted_neighbours@[j as int].1@));
        if state.permitted_neighbours[j].0 == side {
            append_names(out, &state.permitted_neighbours[j].1);
        }
        j = j + 1;
        assert(out@ =~= old(out)@ + side_names(rules.subrange(0, j as int), side));
    }
    assert(rules.subrange(0, rules.len() as int) =~= rules);
}

/// Returns the names that the states of `reference` permit on side `side` of the reference cell.
pub fn get_permitted_new_states(reference: &Cell, side: Connection) -> (names: Vec<ObjectName>)
    ensures
        names@ == all_side_names(reference.states(), side),
        forall|name: ObjectName| names@.contains(name) <==> permits(reference.states(), side, name),
{
    let ghost states = reference.states();
    let mut names: Vec<ObjectName> = Vec::new();
    let mut i: usize = 0;
    while i < reference.possible_states.len()
        invariant
            states == reference.states(),
            i <= reference.possible_states.len(),
            names@ == all_side_names(states.subrange(0, i as int), side),
        decreases reference.possible_states.len() - i,
    {
        assert(states.subrange(0, i + 1).drop_last() =~= states.subrange(0, i as int));
        assert(states[i as int] == reference.possible_states@[i as int].spec_view());
        append_permitted_names(&reference.possible_states[i], side, &mut names);
        i = i + 1;
        assert(names@ =~= all_side_names(states.subrange(0, i as int), side));
    }
    assert(states.subrange(0, states.len() as int) =~= states);
    proof {
        assert forall|name: ObjectName| names@.contains(name) <==> permits(states, side, name) by {
            lemma_all_side_names_contains(states, side, name);
        }
    }
    names
}

impl Cell {
    /// The possible states of this cell as plain values.
    pub open spec fn states(self) -> Seq<StateView> {
        views_of(self.possible_states@)
    }

    /// Whether two cells hold the same values.
    pub open spec fn same_as(self, other: Cell) -> bool {
        &&& self.ig == other.ig
        &&& self.index == other.index
        &&& self.neighbours@ == other.neighbours@
        &&& self.connection == other.connection
        &&& self.g == other.g
        &&& self.h == other.h
        &&& self.is_collapsed == other.is_collapsed
        &&& self.is_initialised == other.is_initialised
        &&& self.is_walkable == other.is_walkable
        &&& self.terrain == other.terrain
        &&& self.tile_type == other.tile_type
        &&& self.entropy == other.entropy
        &&& self.states() == other.states()
    }

    /// A fresh, uninitialised cell at internal grid position `(x, y)`.
    pub open spec fn is_fresh_at(self, x: i32, y: i32) -> bool {
        &&& self.ig == Point { x, y }
        &&& self.index == -1
        &&& self.neighbours@.len() == 0
        &&& self.connection.is_none()
        &&& self.g == 0
        &&& self.h == 0
        &&& !self.is_collapsed
        &&& !self.is_initialised
        &&& !self.is_walkable
        &&& self.terrain == TerrainType::Any
        &&& self.tile_type == TileType::Unknown
        &&& self.entropy == usize::MAX
        &&& self.possible_states@.len() == 0
    }

    /// Returns an uninitialised, uncollapsed cell at internal grid position `(x, y)` without possible states.
    pub fn new(x: i32, y: i32) -> (cell: Cell)
        ensures
            cell.is_fresh_at(x, y),
    {
        Cell {
            ig: Point::new_internal_grid(x, y),
            index: -1,
            neighbours: Vec::new(),
            connection: None,
            g: 0,
            h: 0,
            is_collapsed: false,
            is_initialised: false,
            is_walkable: false,
            terrain: TerrainType::Any,
            tile_type: TileType::Unknown,
            entropy: usize::MAX,
            possible_states: Vec::new(),
        }
    }

    /// Returns a copy of this cell.
    pub fn copy(&self) -> (copy: Cell)
        ensures
            copy.same_as(*self),
    {
        let mut neighbours: Vec<Point> = Vec::new();
        let mut i: usize = 0;
        while i < self.neighbours.len()
            invariant
                i <= self.neighbours.len(),
                neighbours@ == self.neighbours@.subrange(0, i as int),
            decreases self.neighbours.len() - i,
        {
            neighbours.push(self.neighbours[i]);
            i = i + 1;
            assert(neighbours@ =~= self.neighbours@.subrange(0, i as int));
        }
        assert(self.neighbours@.subrange(0, self.neighbours.len() as int) =~= self.neighbours@);
        let states = copy_states(&self.possible_states);
        Cell {
            ig: self.ig,
            index: self.index,
            neighbours,
            connection: self.connection,
            g: self.g,
            h: self.h,
            is_collapsed: self.is_collapsed,
            is_initialised: self.is_initialised,
            is_walkable: self.is_walkable,
            terrain: self.terrain,
            tile_type: self.tile_type,
            entropy: self.entropy,
            possible_states: states,
        }
    }

    /// Initialises the cell with its terrain, tile type and the states it may collapse to; its entropy becomes the
    /// number of states. A cell is initialised once only.
    pub fn initialise(&mut self, terrain: TerrainType, tile_type: TileType, states: &Vec<TerrainState>)
        requires
            !old(self).is_initialised,
        ensures
            final(self).is_initialised,
            final(self).terrain == terrain,
            final(self).tile_type == tile_type,
            final(self).states() == views_of(states@),
            final(self).entropy == states@.len(),
            final(self).ig == old(self).ig,
            final(self).index == old(self).index,
            final(self).is_collapsed == old(self).is_collapsed,
            final(self).is_walkable == old(self).is_walkable,
            final(self).neighbours@ == old(self).neighbours@,
            final(self).connection == old(self).connection,
            final(self).g == old(self).g,
            final(self).h == old(self).h,
    {
        self.is_initialised = true;
        self.terrain = terrain;
        self.tile_type = tile_type;
        self.possible_states = copy_states(states);
        self.entropy = self.possible_states.len();
    }

    pub fn get_ig(&self) -> (ig: &Point)
        ensures
            *ig == self.ig,
    {
        &self.ig
    }

    pub fn get_index(&self) -> (index: i32)
        ensures
            index == self.index,
    {
        self.index
    }

    pub fn terrain(&self) -> (terrain: TerrainType)
        ensures
            terrain == self.terrain,
    {
        self.terrain
    }

    /// Adds each of `neighbours` that is not yet a neighbour, in order.
    pub fn add_neighbours(&mut self, neighbours: Vec<Point>)
        ensures
            forall|p: Point| final(self).neighbours@.contains(p) <==> (old(self).neighbours@.contains(p)
                || neighbours@.contains(p)),
            old(self).neighbours@.no_duplicates() ==> final(self).neighbours@.no_duplicates(),
            final(self).ig == old(self).ig,
            final(self).states() == old(self).states(),
            final(self).entropy == old(self).entropy,
            final(self).is_collapsed == old(self).is_collapsed,
    {
        let mut i: usize = 0;
        while i < neighbours.len()
            invariant
                i <= neighbours.len(),
                forall|p: Point|
                    self.neighbours@.contains(p) <==> (old(self).neighbours@.contains(p) || exists|j: int|
                        0 <= j < i && #[trigger] neighbours@[j] == p),
                old(self).neighbours@.no_duplicates() ==> self.neighbours@.no_duplicates(),
                self.ig == old(self).ig,
                self.states() == old(self).states(),
                self.entropy == old(self).entropy,
                self.is_collapsed == old(self).is_collapsed,
            decreases neighbours.len() - i,
        {
            let ghost before = self.neighbours@;
            self.add_neighbour(neighbours[i]);
            proof {
                assert forall|p: Point|
                    self.neighbours@.contains(p) <==> (old(self).neighbours@.contains(p) || exists|j: int|
                        0 <= j < i + 1 && #[trigger] neighbours@[j] == p) by {
                    lemma_push_contains(before, neighbours@[i as int], p);
                    if exists|j: int| 0 <= j < i + 1 && #[trigger] neighbours@[j] == p {
                        let j = choose|j: int| 0 <= j < i + 1 && #[trigger] neighbours@[j] == p;
                        if j < i {
                        }
                    }
                }
                if old(self).neighbours@.no_duplicates() && !before.contains(neighbours@[i as int]) {
                    assert forall|a: int, b: int|
                        0 <= a < b < self.neighbours@.len() implies self.neighbours@[a] != self.neighbours@[b] by {
                        if b == before.len() {
                            assert(before[a] == self.neighbours@[a]);
                        } else {
                            assert(before[a] == self.neighbours@[a] && before[b] == self.neighbours@[b]);
                        }
                    }
                }
            }
            i = i + 1;
        }
        proof {
            assert forall|p: Point|
                self.neighbours@.contains(p) <==> (old(self).neighbours@.contains(p) || neighbours@.contains(
                    p,
                )) by {
                if neighbours@.contains(p) {
                    let j = choose|j: int| 0 <= j < neighbours@.len() && neighbours@[j] == p;
                    assert(neighbours@[j] == p);
                }
            }
        }
    }

    /// Adds `neighbour` unless a neighbour at the same position is already present.
    pub fn add_neighbour(&mut self, neighbour: Point)
        ensures
            final(self).neighbours@ == if old(self).neighbours@.contains(neighbour) {
                old(self).neighbours@
            } else {
                old(self).neighbours@.push(neighbour)
            },
            final(self).ig == old(self).ig,
            final(self).states() == old(self).states(),
            final(self).entropy == old(self).entropy,
            final(self).is_collapsed == old(self).is_collapsed,
    {
        if !contains_point(&self.neighbours, neighbour) {
            self.neighbours.push(neighbour);
        }
    }

    pub fn get_neighbours(&self) -> (neighbours: &Vec<Point>)
        ensures
            neighbours@ == self.neighbours@,
    {
        &self.neighbours
    }

    /// The position of the cell this cell was reached from during path finding, if any.
    pub fn get_connection(&self) -> (connection: Option<Point>)
        ensures
            connection == self.connection,
    {
        self.connection
    }

    /// Records the position of the cell this cell was reached from during path finding.
    pub fn set_connection(&mut self, connection: &Point)
        ensures
            final(self).connection == Some(*connection),
            final(self).same_as(Cell { connection: Some(*connection), ..*old(self) }),
    {
        self.connection = Some(*connection);
    }

    /// The cost of the path from the start cell to this cell.
    pub fn get_g(&self) -> (g: u32)
        ensures
            g == self.g,
    {
        self.g
    }

    pub fn set_g(&mut self, g: u32)
        ensures
            final(self).g == g,
            final(self).same_as(Cell { g, ..*old(self) }),
    {
        self.g = g;
    }

    /// The estimated cost from this cell to the target cell, never more than the real cost.
    pub fn get_h(&self) -> (h: u32)
        ensures
            h == self.h,
    {
        self.h
    }

    pub fn set_h(&mut self, h: u32)
        ensures
            final(self).h == h,
            final(self).same_as(Cell { h, ..*old(self) }),
    {
        self.h = h;
    }

    /// The total cost of this cell: the cost from the start plus the estimate to the target.
    pub fn get_f(&self) -> (f: u64)
        ensures
            f == self.g + self.h,
    {
        self.g as u64 + self.h as u64
    }

    pub fn is_collapsed(&self) -> (result: bool)
        ensures
            result == self.is_collapsed,
    {
        self.is_collapsed
    }

    pub fn is_walkable(&self) -> (result: bool)
        ensures
            result == self.is_walkable,
    {
        self.is_walkable
    }

    /// Marks whether path finding may pass through this cell.
    pub fn set_walkable(&mut self, walkable: bool)
        ensures
            final(self).is_walkable == walkable,
            final(self).same_as(Cell { is_walkable: walkable, ..*old(self) }),
    {
        self.is_walkable = walkable;
    }

    pub fn get_entropy(&self) -> (entropy: usize)
        ensures
            entropy == self.entropy,
    {
        self.entropy
    }

    pub fn get_possible_states(&self) -> (states: &Vec<TerrainState>)
        ensures
            views_of(states@) == self.states(),
    {
        &self.possible_states
    }

    /// Replaces the possible states without updating the entropy, which may leave the cell inconsistent; the wave
    /// function collapse itself only changes states through [`Cell::clone_and_reduce`] and [`Cell::collapse`].
    pub fn override_possible_states(&mut self, states: Vec<TerrainState>)
        ensures
            final(self).states() == views_of(states@),
            final(self).entropy == old(self).entropy,
            final(self).ig == old(self).ig,
            final(self).is_collapsed == old(self).is_collapsed,
            final(self).index == old(self).index,
    {
        self.possible_states = states;
    }

    /// Forgets the path finding data: neighbours, connection and costs.
    pub fn clear_references(&mut self)
        ensures
            final(self).neighbours@.len() == 0,
            final(self).connection.is_none(),
            final(self).g == 0,
            final(self).h == 0,
            final(self).ig == old(self).ig,
            final(self).states() == old(self).states(),
            final(self).entropy == old(self).entropy,
            final(self).is_collapsed == old(self).is_collapsed,
            final(self).index == old(self).index,
    {
        self.neighbours.clear();
        self.connection = None;
        self.g = 0;
        self.h = 0;
    }

    /// Collapses the cell to a path piece ahead of the wave function collapse: its sprite index becomes the path
    /// sprite index of `object_name` and its only state permits empty neighbours on every side.
    pub fn pre_collapse(&mut self, object_name: ObjectName)
        ensures
            final(self).is_collapsed,
            final(self).entropy == 0,
            final(self).index == object_name.spec_path_index(),
            final(self).states().len() == 1,
            final(self).states()[0].0 == object_name,
            final(self).states()[0].1 == object_name.spec_path_index(),
            final(self).states()[0].2 == 1,
            final(self).states()[0].3 == only_empty_rules(),
            final(self).ig == old(self).ig,
            final(self).terrain == old(self).terrain,
            final(self).tile_type == old(self).tile_type,
            final(self).is_initialised == old(self).is_initialised,
            final(self).is_walkable == old(self).is_walkable,
            final(self).neighbours == old(self).neighbours,
            final(self).connection == old(self).connection,
            final(self).g == old(self).g,
            final(self).h == old(self).h,
    {
        let i = object_name.get_index_for_path();
        self.index = i;
        self.is_collapsed = true;
        self.entropy = 0;
        let mut states: Vec<TerrainState> = Vec::new();
        states.push(TerrainState::new_with_no_neighbours(object_name, i, 1));
        self.possible_states = states;
    }

    /// Collapses the cell to the object `object_name` as a settlement structure is placed: its sprite index becomes
    /// the object's (see [`marked_index`]) and its only state permits empty neighbours on every side.
    pub fn mark_as_collapsed(&mut self, object_name: ObjectName)
        ensures
            final(self).is_collapsed,
            final(self).entropy == 0,
            final(self).index == marked_index(object_name),
            final(self).states().len() == 1,
            final(self).states()[0].0 == object_name,
            final(self).states()[0].1 == marked_index(object_name),
            final(self).states()[0].2 == 1,
            final(self).states()[0].3 == only_empty_rules(),
            final(self).ig == old(self).ig,
            final(self).terrain == old(self).terrain,
            final(self).tile_type == old(self).tile_type,
            final(self).is_initialised == old(self).is_initialised,
            final(self).is_walkable == old(self).is_walkable,
            final(self).neighbours == old(self).neighbours,
            final(self).connection == old(self).connection,
            final(self).g == old(self).g,
            final(self).h == old(self).h,
    {
        let i = if object_name.is_path() {
            object_name.get_index_for_path()
        } else if object_name.is_building() {
            object_name.get_index_for_building()
        } else {
            0
        };
        self.index = i;
        self.is_collapsed = true;
        self.entropy = 0;
        let mut states: Vec<TerrainState> = Vec::new();
        states.push(TerrainState::new_with_no_neighbours(object_name, i, 1));
        self.possible_states = states;
    }

    /// Whether a settlement structure may be placed on this cell: it is initialised with a fill tile.
    pub open spec fn spec_is_suitable_for_building_placement(self) -> bool {
        self.is_initialised && self.tile_type == TileType::Fill
    }

    /// Returns whether a settlement structure may be placed on this cell.
    pub fn is_suitable_for_building_placement(&self) -> (result: bool)
        ensures
            result == self.spec_is_suitable_for_building_placement(),
            result == (self.is_initialised && self.tile_type == TileType::Fill),
    {
        self.is_initialised && self.tile_type == TileType::Fill
    }

    /// Returns a copy of this cell whose possible states are reduced to those that the reference cell, lying on side
    /// `where_is_reference` of this cell, permits on its facing side. The copy's entropy is its new number of states.
    /// Fails if no state is left; otherwise also says whether any state was removed.
    pub fn clone_and_reduce(&self, reference_cell: &Cell, where_is_reference: &Connection) -> (result: Result<
        (bool, Cell),
        PropagationFailure,
    >)
        ensures
            ({
                let kept = reduced(self.states(), reference_cell.states(), where_is_reference.spec_opposite());
                &&& result.is_err() <==> kept.len() == 0
                &&& result matches Ok((changed, cell)) ==> {
                    &&& changed == (kept.len() != self.states().len())
                    &&& cell.states() == kept
                    &&& cell.entropy == kept.len()
                    &&& cell.same_as(Cell { possible_states: cell.possible_states, entropy: cell.entropy, ..*self })
                }
            }),
    {
        let where_is_self_for_reference = where_is_reference.opposite();
        let permitted_state_names = get_permitted_new_states(reference_cell, where_is_self_for_reference);
        let ghost states = self.states();
        let ghost reference = reference_cell.states();
        let mut updated_possible_states: Vec<TerrainState> = Vec::new();
        let mut i: usize = 0;
        while i < self.possible_states.len()
            invariant
                states == self.states(),
                reference == reference_cell.states(),
                i <= self.possible_states.len(),
                forall|name: ObjectName|
                    permitted_state_names@.contains(name) <==> permits(reference, where_is_self_for_reference, name),
                views_of(updated_possible_states@) == reduced(
                    states.subrange(0, i as int),
                    reference,
                    where_is_self_for_reference,
                ),
            decreases self.possible_states.len() - i,
        {
            let ghost before = views_of(updated_possible_states@);
            assert(states.subrange(0, i + 1).drop_last() =~= states.subrange(0, i as int));
            if contains_name(&permitted_state_names, self.possible_states[i].name) {
                updated_possible_states.push(self.possible_states[i].copy());
                assert(views_of(updated_possible_states@) =~= before.push(states[i as int]));
            }
            i = i + 1;
        }
        assert(states.subrange(0, states.len() as int) =~= states);
        let mut clone = self.copy();
        let changed = self.possible_states.len() != updated_possible_states.len();
        let count = updated_possible_states.len();
        clone.possible_states = updated_possible_states;
        clone.entropy = count;
        if count == 0 {
            Err(PropagationFailure {})
        } else {
            Ok((changed, clone))
        }
    }

    /// Collapses the cell to the state selected by walking through the states with `target`: the only state if there
    /// is just one, otherwise the first state whose weight exceeds what is left of `target` after subtracting the
    /// weights of the states before it.
    pub fn collapse_with_target(&mut self, target: i32)
        requires
            old(self).states().len() >= 1,
            old(self).states().len() > 1 ==> 0 <= target < total_weight(old(self).states()),
            old(self).states().len() > 1 ==> forall|i: int|
                0 <= i < old(self).states().len() ==> (#[trigger] old(self).states()[i]).2 >= 0,
        ensures
            ({
                let choice = if old(self).states().len() == 1 {
                    0
                } else {
                    weighted_choice(old(self).states(), target as int)
                };
                &&& 0 <= choice < old(self).states().len()
                &&& final(self).states() == seq![old(self).states()[choice]]
                &&& final(self).index == old(self).states()[choice].1
                &&& final(self).is_collapsed
                &&& final(self).entropy == 0
                &&& final(self).ig == old(self).ig
                &&& final(self).terrain == old(self).terrain
                &&& final(self).is_initialised == old(self).is_initialised
            }),
    {
        let ghost states = self.states();
        let chosen: usize = if self.possible_states.len() == 1 {
            0
        } else {
            select_weighted(&self.possible_states, target)
        };
        let state = self.possible_states[chosen].copy();
        self.index = state.index;
        self.is_collapsed = true;
        self.entropy = 0;
        let mut states_after: Vec<TerrainState> = Vec::new();
        states_after.push(state);
        self.possible_states = states_after;
        assert(self.states() =~= seq![states[chosen as int]]);
    }

    /// Collapses the cell to one of its states, chosen at random with probability proportional to its weight.
    pub fn collapse(&mut self, rng: &mut StdRng)
        requires
            old(self).states().len() >= 1,
            old(self).states().len() > 1 ==> 0 < total_weight(old(self).states()) <= i32::MAX,
            old(self).states().len() > 1 ==> forall|i: int|
                0 <= i < old(self).states().len() ==> (#[trigger] old(self).states()[i]).2 >= 0,
        ensures
            exists|choice: int|
                {
                    &&& 0 <= choice < old(self).states().len()
                    &&& (old(self).states().len() == 1 ==> choice == 0)
                    &&& (old(self).states().len() > 1 ==> old(self).states()[choice].2 > 0)
                    &&& final(self).states() == seq![old(self).states()[choice]]
                    &&& final(self).index == old(self).states()[choice].1
                },
            old(self).states().len() == 1 ==> *final(rng) == *old(rng),
            final(self).is_collapsed,
            final(self).entropy == 0,
            final(self).ig == old(self).ig,
            final(self).terrain == old(self).terrain,
            final(self).is_initialised == old(self).is_initialised,
    {
        if self.possible_states.len() == 1 {
            self.collapse_with_target(0);
        } else {
            let total = sum_weights(&self.possible_states);
            let target = random_below(rng, total);
            proof {
                lemma_weighted_choice_positive(self.states(), target as int);
            }
            self.collapse_with_target(target);
        }
    }

    /// Checks that the reference cell, lying on side `where_is_reference` of this collapsed cell, permits this cell's
    /// state on its facing side.
    pub fn verify(&self, reference_cell: &Cell, where_is_reference: &Connection) -> (result: Result<
        (),
        PropagationFailure,
    >)
        requires
            self.states().len() >= 1,
        ensures
            result.is_ok() <==> permits(
                reference_cell.states(),
                where_is_reference.spec_opposite(),
                self.states()[0].0,
            ),
    {
        let where_is_self_for_reference = where_is_reference.opposite();
        let permitted_state_names = get_permitted_new_states(reference_cell, where_is_self_for_reference);
        assert(self.states()[0].0 == self.possible_states@[0].name);
        if !contains_name(&permitted_state_names, self.possible_states[0].name) {
            Err(PropagationFailure {})
        } else {
            Ok(())
        }
    }
}

/// The views of a list with one more state are the views of the list with one more view.
pub proof fn lemma_views_of_push(states: Seq<TerrainState>, state: TerrainState)
    ensures
        views_of(states.push(state)) == views_of(states).push(state.spec_view()),
{
    assert(views_of(states.push(state)) =~= views_of(states).push(state.spec_view()));
}

/// Pushing adds exactly the pushed element.
pub proof fn lemma_push_contains<T>(s: Seq<T>, x: T, y: T)
    ensures
        s.push(x).contains(y) <==> (s.contains(y) || x == y),
{
    if s.contains(y) {
        let i = choose|i: int| 0 <= i < s.len() && s[i] == y;
        assert(s.push(x)[i] == y);
    }
    if x == y {
        assert(s.push(x)[s.len() as int] == y);
    }
    if s.push(x).contains(y) {
        let i = choose|i: int| 0 <= i < s.push(x).len() && s.push(x)[i] == y;
        if i < s.len() {
            assert(s[i] == y);
        }
    }
}

/// Taking one more element into a prefix adds exactly that element.
pub proof fn lemma_prefix_contains<T>(s: Seq<T>, i: int, q: T)
    requires
        0 <= i < s.len(),
    ensures
        s.subrange(0, i + 1).contains(q) <==> (s.subrange(0, i).contains(q) || q == s[i]),
{
    assert(s.subrange(0, i + 1) =~= s.subrange(0, i).push(s[i]));
    lemma_push_contains(s.subrange(0, i), s[i], q);
}

/// Removing the element at `i` keeps every other element.
pub proof fn lemma_remove_contains<T>(s: Seq<T>, i: int, x: T)
    requires
        0 <= i < s.len(),
        s.contains(x),
    ensures
        s.remove(i).contains(x) || x == s[i],
{
    let j = choose|j: int| 0 <= j < s.len() && s[j] == x;
    if j < i {
        assert(s.remove(i)[j] == x);
    } else if j > i {
        assert(s.remove(i)[j - 1] == x);
    }
}

/// Returns copies of `states`.
pub fn copy_states(states: &Vec<TerrainState>) -> (copy: Vec<TerrainState>)
    ensures
        views_of(copy@) == views_of(states@),
{
    let mut copy: Vec<TerrainState> = Vec::new();
    let mut i: usize = 0;
    while i < states.len()
        invariant
            i <= states.len(),
            views_of(copy@) == views_of(states@).subrange(0, i as int),
        decreases states.len() - i,
    {
        let ghost before = copy@;
        let c = states[i].copy();
        copy.push(c);
        proof {
            lemma_views_of_push(before, c);
            assert(views_of(states@)[i as int] == states@[i as int].spec_view());
            assert(views_of(states@).subrange(0, i + 1) =~= views_of(states@).subrange(0, i as int).push(
                views_of(states@)[i as int],
            ));
        }
        i = i + 1;
        assert(views_of(copy@) =~= views_of(states@).subrange(0, i as int));
    }
    assert(views_of(states@).subrange(0, states.len() as int) =~= views_of(states@));
    copy
}

/// Returns the sum of the weights of `states`.
fn sum_weights(states: &Vec<TerrainState>) -> (total: i32)
    requires
        0 < total_weight(views_of(states@)) <= i32::MAX,
        forall|i: int| 0 <= i < states@.len() ==> (#[trigger] views_of(states@)[i]).2 >= 0,
    ensures
        total == total_weight(views_of(states@)),
{
    let ghost views = views_of(states@);
    let mut total: i32 = 0;
    let mut i: usize = 0;
    while i < states.len()
        invariant
            views == views_of(states@),
            i <= states.len(),
            total == total_weight(views.subrange(0, i as int)),
            0 < total_weight(views) <= i32::MAX,
            forall|k: int| 0 <= k < views.len() ==> (#[trigger] views[k]).2 >= 0,
        decreases states.len() - i,
    {
        proof {
            assert(views.subrange(0, i + 1).drop_last() =~= views.subrange(0, i as int));
            lemma_total_weight_prefix_bounded(views, i as int + 1);
        }
        total = total + states[i].weight;
        i = i + 1;
    }
    assert(views.subrange(0, views.len() as int) =~= views);
    total
}

/// With non-negative weights, the total weight of a prefix is at most the total weight.
proof fn lemma_total_weight_prefix_bounded(views: Seq<StateView>, n: int)
    requires
        0 <= n <= views.len(),
        forall|k: int| 0 <= k < views.len() ==> (#[trigger] views[k]).2 >= 0,
    ensures
        0 <= total_weight(views.subrange(0, n)) <= total_weight(views),
    decreases views.len(),
{
    if n == views.len() {
        assert(views.subrange(0, n) =~= views);
        if views.len() > 0 {
            lemma_total_weight_prefix_bounded(views.drop_last(), views.len() - 1);
            assert(views.drop_last().subrange(0, views.len() - 1) =~= views.drop_last());
        }
    } else {
        lemma_total_weight_prefix_bounded(views.drop_last(), n);
        assert(views.drop_last().subrange(0, n) =~= views.subrange(0, n));
        assert(views[views.len() - 1].2 >= 0);
    }
}

/// Returns the index chosen by [`weighted_choice`].
fn select_weighted(states: &Vec<TerrainState>, target: i32) -> (chosen: usize)
    requires
        0 <= target < total_weight(views_of(states@)),
        forall|i: int| 0 <= i < states@.len() ==> (#[trigger] views_of(states@)[i]).2 >= 0,
    ensures
        chosen == weighted_choice(views_of(states@), target as int),
        chosen < states@.len(),
{
    let ghost views = views_of(states@);
    let mut remaining = target;
    let mut i: usize = 0;
    proof {
        assert(views.subrange(0, views.len() as int) =~= views);
    }
    while i < states.len()
        invariant
            views == views_of(states@),
            i <= states.len(),
            0 <= remaining,
            remaining < total_weight(views.subrange(i as int, views.len() as int)),
            weighted_choice(views, target as int) == i + weighted_choice(
                views.subrange(i as int, views.len() as int),
                remaining as int,
            ),
            forall|k: int| 0 <= k < views.len() ==> (#[trigger] views[k]).2 >= 0,
        decreases states.len() - i,
    {
        let ghost rest = views.subrange(i as int, views.len() as int);
        assert(rest[0] == views[i as int]);
        if remaining < states[i].weight {
            return i;
        }
        proof {
            assert(rest.subrange(1, rest.len() as int) =~= views.subrange(i + 1, views.len() as int));
            lemma_total_weight_first(rest);
        }
        remaining = remaining - states[i].weight;
        i = i + 1;
    }
    proof {
        assert(views.subrange(i as int, views.len() as int).len() == 0);
    }
    i
}

/// The state selected by walking through states of non-negative weight with a target below their total weight has a
/// positive weight.
proof fn lemma_weighted_choice_positive(views: Seq<StateView>, target: int)
    requires
        0 <= target < total_weight(views),
        forall|i: int| 0 <= i < views.len() ==> (#[trigger] views[i]).2 >= 0,
    ensures
        0 <= weighted_choice(views, target) < views.len(),
        views[weighted_choice(views, target)].2 > 0,
    decreases views.len(),
{
    if views.len() == 0 {
        assert(total_weight(views) == 0);
    } else {
        lemma_total_weight_first(views);
        if target >= views[0].2 {
            let rest = views.subrange(1, views.len() as int);
            assert forall|i: int| 0 <= i < rest.len() implies (#[trigger] rest[i]).2 >= 0 by {
                assert(rest[i] == views[i + 1]);
            }
            lemma_weighted_choice_positive(rest, target - views[0].2);
            assert(rest[weighted_choice(rest, target - views[0].2)] == views[weighted_choice(views, target)]);
        }
    }
}

/// The total weight is the first weight plus the total weight of the rest.
proof fn lemma_total_weight_first(views: Seq<StateView>)
    requires
        views.len() > 0,
    ensures
        total_weight(views) == views[0].2 + total_weight(views.subrange(1, views.len() as int)),
    decreases views.len(),
{
    if views.len() == 1 {
        assert(views.drop_last() =~= seq![]);
        assert(views.subrange(1, 1) =~= seq![]);
    } else {
        lemma_total_weight_first(views.drop_last());
        assert(views.drop_last().subrange(1, views.len() - 1) =~= views.subrange(1, views.len() as int).drop_last());
        assert(views.subrange(1, views.len() as int).last() == views.last());
    }
}

} // verus!
