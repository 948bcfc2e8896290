use crate::constants::CHUNK_SIZE;
use crate::coords::{Direction, Point};
use crate::object::object_name::ObjectName;
use crate::settlement::road::road_branches;
use vstd::prelude::*;

verus! {

/// Whether an internal grid point lies on the edge of its chunk, where a path may continue into the neighbouring
/// chunk.
pub open spec fn spec_is_edge_connection_point(ig: Point) -> bool {
    ig.x == 0 || ig.x == CHUNK_SIZE - 1 || ig.y == 0 || ig.y == CHUNK_SIZE - 1
}

/// Returns whether the point lies on the edge of its chunk.
pub fn is_edge_connection_point(ig: &Point) -> (result: bool)
    ensures
        result == spec_is_edge_connection_point(*ig),
{
    ig.x == 0 || ig.x == CHUNK_SIZE - 1 || ig.y == 0 || ig.y == CHUNK_SIZE - 1
}

/// The direction of the neighbouring chunk that an edge point faces: the left and right edges take precedence over
/// the top and bottom ones, and a point off the edges faces none ([`Direction::Center`]).
pub open spec fn spec_direction_to_neighbour_chunk(ig: Point) -> Direction {
    if ig.x == 0 {
        Direction::Left
    } else if ig.x == CHUNK_SIZE - 1 {
        Direction::Right
    } else if ig.y == 0 {
        Direction::Top
    } else if ig.y == CHUNK_SIZE - 1 {
        Direction::Bottom
    } else {
        Direction::Center
    }
}

/// Returns the direction of the neighbouring chunk that an edge point faces.
pub fn direction_to_neighbour_chunk(ig: &Point) -> (direction: Direction)
    ensures
        direction == spec_direction_to_neighbour_chunk(*ig),
{
    if ig.x == 0 {
        Direction::Left
    } else if ig.x == CHUNK_SIZE - 1 {
        Direction::Right
    } else if ig.y == 0 {
        Direction::Top
    } else if ig.y == CHUNK_SIZE - 1 {
        Direction::Bottom
    } else {
        Direction::Center
    }
}

/// A path that starts or ends on the edge of a chunk continues into the neighbouring chunk, so there the missing
/// direction ([`Direction::Center`]) becomes the direction of that chunk.
pub open spec fn spec_update_if_edge_connection(ig: Point, direction: Direction) -> Direction {
    if direction == Direction::Center {
        spec_direction_to_neighbour_chunk(ig)
    } else {
        direction
    }
}

/// Returns the direction a path piece at `point` connects to: `direction`, or, where that is
/// [`Direction::Center`] on the edge of the chunk, the direction of the neighbouring chunk.
pub fn update_if_edge_connection(point: &Point, direction: &Direction) -> (updated: Direction)
    ensures
        updated == spec_update_if_edge_connection(*point, *direction),
{
    if *direction == Direction::Center {
        direction_to_neighbour_chunk(point)
    } else {
        *direction
    }
}

/// The path piece that joins the two given directions (in either order); a single direction, given alone, twice or
/// with [`Direction::Center`], gives a dead end; anything else is [`ObjectName::PathUndefined`].
pub open spec fn path_name_for(a: Direction, b: Direction) -> ObjectName {
    let joins = |x: Direction, y: Direction| (a == x && b == y) || (a == y && b == x);
    let ends = |x: Direction| joins(x, Direction::Center) || (a == x && b == x);
    if joins(Direction::Top, Direction::Right) {
        ObjectName::PathTopRight
    } else if joins(Direction::Top, Direction::Bottom) {
        ObjectName::PathVertical
    } else if joins(Direction::Right, Direction::Left) {
        ObjectName::PathHorizontal
    } else if joins(Direction::Bottom, Direction::Left) {
        ObjectName::PathBottomLeft
    } else if joins(Direction::Bottom, Direction::Right) {
        ObjectName::PathBottomRight
    } else if joins(Direction::Top, Direction::Left) {
        ObjectName::PathTopLeft
    } else if ends(Direction::Top) {
        ObjectName::PathTop
    } else if ends(Direction::Right) {
        ObjectName::PathRight
    } else if ends(Direction::Bottom) {
        ObjectName::PathBottom
    } else if ends(Direction::Left) {
        ObjectName::PathLeft
    } else {
        ObjectName::PathUndefined
    }
}

/// The path piece for a path cell at `ig` whose previous cell lies in `previous` and whose next cell lies in `next`
/// (each [`Direction::Center`] where there is none).
pub open spec fn spec_determine_path_object_name(previous: Direction, next: Direction, ig: Point) -> ObjectName {
    path_name_for(spec_update_if_edge_connection(ig, previous), spec_update_if_edge_connection(ig, next))
}

/// Whether the road piece `name` connects exactly to the directions `a` and `b`: to both where both are cardinal
/// (to the one where they are the same), and to the cardinal one alone where the other is [`Direction::Center`];
/// any other pair names no road piece ([`ObjectName::PathUndefined`]).
pub open spec fn connects_exactly(name: ObjectName, a: Direction, b: Direction) -> bool {
    &&& a.is_cardinal() && b.is_cardinal() ==> road_branches(name) == set![a, b]
    &&& a.is_cardinal() && b == Direction::Center ==> road_branches(name) == set![a]
    &&& a == Direction::Center && b.is_cardinal() ==> road_branches(name) == set![b]
    &&& !(a.is_cardinal() || a == Direction::Center) || !(b.is_cardinal() || b == Direction::Center) || (a
        == Direction::Center && b == Direction::Center) ==> name == ObjectName::PathUndefined
}

/// The path piece named for a path cell connects exactly to the directions of its previous and next cell: two
/// distinct cardinal directions give the piece that turns or runs between them (Bottom and Left give a piece whose
/// branches are Bottom and Left), and a single direction gives a dead end towards it. On the edge of the chunk a
/// missing direction is first replaced by that of the neighbouring chunk; any cardinal direction is kept as given.
pub proof fn lemma_path_piece_connects_its_directions(previous: Direction, next: Direction, ig: Point)
    ensures
        previous.is_cardinal() ==> spec_update_if_edge_connection(ig, previous) == previous,
        next.is_cardinal() ==> spec_update_if_edge_connection(ig, next) == next,
        connects_exactly(
            spec_determine_path_object_name(previous, next, ig),
            spec_update_if_edge_connection(ig, previous),
            spec_update_if_edge_connection(ig, next),
        ),
        previous.is_cardinal() && next.is_cardinal() ==> road_branches(
            spec_determine_path_object_name(previous, next, ig),
        ) == set![previous, next],
{
    let a = spec_update_if_edge_connection(ig, previous);
    let b = spec_update_if_edge_connection(ig, next);
    let name = path_name_for(a, b);
    assert(name == spec_determine_path_object_name(previous, next, ig));
    match a {
        Direction::Top => match b {
            Direction::Top => assert(road_branches(name) =~= set![a, b]),
            Direction::Right => assert(road_branches(name) =~= set![a, b]),
            Direction::Bottom => assert(road_branches(name) =~= set![a, b]),
            Direction::Left => assert(road_branches(name) =~= set![a, b]),
            Direction::Center => assert(road_branches(name) =~= set![a]),
            _ => {},
        },
        Direction::Right => match b {
            Direction::Top => assert(road_branches(name) =~= set![a, b]),
            Direction::Right => assert(road_branches(name) =~= set![a, b]),
            Direction::Bottom => assert(road_branches(name) =~= set![a, b]),
            Direction::Left => assert(road_branches(name) =~= set![a, b]),
            Direction::Center => assert(road_branches(name) =~= set![a]),
            _ => {},
        },
        Direction::Bottom => match b {
            Direction::Top => assert(road_branches(name) =~= set![a, b]),
            Direction::Right => assert(road_branches(name) =~= set![a, b]),
            Direction::Bottom => assert(road_branches(name) =~= set![a, b]),
            Direction::Left => assert(road_branches(name) =~= set![a, b]),
            Direction::Center => assert(road_branches(name) =~= set![a]),
            _ => {},
        },
        Direction::Left => match b {
            Direction::Top => assert(road_branches(name) =~= set![a, b]),
            Direction::Right => assert(road_branches(name) =~= set![a, b]),
            Direction::Bottom => assert(road_branches(name) =~= set![a, b]),
            Direction::Left => assert(road_branches(name) =~= set![a, b]),
            Direction::Center => assert(road_branches(name) =~= set![a]),
            _ => {},
        },
        Direction::Center => match b {
            Direction::Top => assert(road_branches(name) =~= set![b]),
            Direction::Right => assert(road_branches(name) =~= set![b]),
            Direction::Bottom => assert(road_branches(name) =~= set![b]),
            Direction::Left => assert(road_branches(name) =~= set![b]),
            _ => {},
        },
        _ => {},
    }
}

/// Returns the path piece for a path cell at `ig` from the directions of the previous and the next cell of the
/// path.
pub fn determine_path_object_name(previous_cell_direction: &Direction, next_cell_direction: &Direction, ig: &Point) -> (name: ObjectName)
    ensures
        name == spec_determine_path_object_name(*previous_cell_direction, *next_cell_direction, *ig),
        name.spec_is_path(),
        connects_exactly(
            name,
            spec_update_if_edge_connection(*ig, *previous_cell_direction),
            spec_update_if_edge_connection(*ig, *next_cell_direction),
        ),
        previous_cell_direction.is_cardinal() && next_cell_direction.is_cardinal() ==> road_branches(name) == set![
            *previous_cell_direction,
            *next_cell_direction,
        ],
{
    proof {
        lemma_path_piece_connects_its_directions(*previous_cell_direction, *next_cell_direction, *ig);
    }
    let next = update_if_edge_connection(ig, next_cell_direction);
    let previous = update_if_edge_connection(ig, previous_cell_direction);
    match (previous, next) {
        (Direction::Top, Direction::Right) | (Direction::Right, Direction::Top) => ObjectName::PathTopRight,
        (Direction::Top, Direction::Bottom) | (Direction::Bottom, Direction::Top) => ObjectName::PathVertical,
        (Direction::Right, Direction::Left) | (Direction::Left, Direction::Right) => ObjectName::PathHorizontal,
        (Direction::Bottom, Direction::Left) | (Direction::Left, Direction::Bottom) => ObjectName::PathBottomLeft,
        (Direction::Bottom, Direction::Right) | (Direction::Right, Direction::Bottom) => ObjectName::PathBottomRight,
        (Direction::Top, Direction::Left) | (Direction::Left, Direction::Top) => ObjectName::PathTopLeft,
        (Direction::Top, Direction::Center) | (Direction::Center, Direction::Top) | (Direction::Top, Direction::Top) => {
            ObjectName::PathTop
        },
        (Direction::Right, Direction::Center) | (Direction::Center, Direction::Right) | (
            Direction::Right,
            Direction::Right,
        ) => ObjectName::PathRight,
        (Direction::Bottom, Direction::Center) | (Direction::Center, Direction::Bottom) | (
            Direction::Bottom,
            Direction::Bottom,
        ) => ObjectName::PathBottom,
        (Direction::Left, Direction::Center) | (Direction::Center, Direction::Left) | (
            Direction::Left,
            Direction::Left,
        ) => ObjectName::PathLeft,
        _ => ObjectName::PathUndefined,
    }
}

/// The set of directions a path cell connects to, completed for a cell on the edge of the chunk: a cell with
/// exactly two neighbouring path cells also connects to the neighbouring chunk.
pub open spec fn completed_directions(directions: Set<Direction>, ig: Point) -> Set<Direction> {
    if directions.len() == 2 {
        directions.insert(spec_direction_to_neighbour_chunk(ig))
    } else {
        directions
    }
}

/// The path piece for a set of connected directions: one cardinal direction gives a dead end, three a junction,
/// four a cross; other sets give [`ObjectName::PathUndefined`].
pub open spec fn path_name_for_directions(directions: Set<Direction>) -> ObjectName {
    let has = |d: Direction| directions.contains(d);
    if directions.len() == 1 {
        if has(Direction::Top) {
            ObjectName::PathTop
        } else if has(Direction::Right) {
            ObjectName::PathRight
        } else if has(Direction::Bottom) {
            ObjectName::PathBottom
        } else {
            ObjectName::PathLeft
        }
    } else if directions.len() == 3 {
        if has(Direction::Top) && has(Direction::Right) && has(Direction::Bottom) {
            ObjectName::PathRightVertical
        } else if has(Direction::Top) && has(Direction::Left) && has(Direction::Bottom) {
            ObjectName::PathLeftVertical
        } else if has(Direction::Left) && has(Direction::Top) && has(Direction::Right) {
            ObjectName::PathTopHorizontal
        } else {
            ObjectName::PathBottomHorizontal
        }
    } else if directions.len() == 4 {
        ObjectName::PathCross
    } else {
        ObjectName::PathUndefined
    }
}

/// Whether a set of connected directions names a path piece: a single direction must be cardinal and three must
/// form a junction (a `T` of three cardinal directions).
pub open spec fn is_nameable(directions: Set<Direction>) -> bool {
    let has = |d: Direction| directions.contains(d);
    &&& directions.len() == 1 ==> (has(Direction::Top) || has(Direction::Right) || has(Direction::Bottom) || has(
        Direction::Left,
    ))
    &&& directions.len() == 3 ==> ((has(Direction::Top) && has(Direction::Bottom) && (has(Direction::Right) || has(
        Direction::Left,
    ))) || (has(Direction::Left) && has(Direction::Right) && (has(Direction::Top) || has(Direction::Bottom))))
}

/// Returns whether `directions` holds `direction`.
fn contains_direction(directions: &Vec<Direction>, direction: Direction) -> (result: bool)
    ensures
        result == directions@.contains(direction),
{
    let mut i: usize = 0;
    while i < directions.len()
        invariant
            i <= directions.len(),
            forall|j: int| 0 <= j < i ==> directions@[j] != direction,
        decreases directions.len() - i,
    {
        if directions[i] == direction {
            return true;
        }
        i = i + 1;
    }
    false
}

/// Returns the path piece for a path cell at `ig` that connects to the given directions (listed once each),
/// completing the directions of a cell on the edge of the chunk first (see [`completed_directions`]).
pub fn determine_path_object_name_from_neighbours(neighbour_directions: &Vec<Direction>, ig: &Point) -> (name: ObjectName)
    requires
        neighbour_directions@.no_duplicates(),
        is_nameable(completed_directions(neighbour_directions@.to_set(), *ig)),
    ensures
        name == path_name_for_directions(completed_directions(neighbour_directions@.to_set(), *ig)),
        name.spec_is_path(),
{
    let ghost given = neighbour_directions@.to_set();
    proof {
        neighbour_directions@.unique_seq_to_set();
    }
    let mut top = contains_direction(neighbour_directions, Direction::Top);
    let mut right = contains_direction(neighbour_directions, Direction::Right);
    let mut bottom = contains_direction(neighbour_directions, Direction::Bottom);
    let mut left = contains_direction(neighbour_directions, Direction::Left);
    let mut count = neighbour_directions.len();
    if count == 2 {
        let extra = direction_to_neighbour_chunk(ig);
        if !contains_direction(neighbour_directions, extra) {
            count = 3;
            match extra {
                Direction::Top => top = true,
                Direction::Right => right = true,
                Direction::Bottom => bottom = true,
                Direction::Left => left = true,
                _ => {},
            }
        }
    }
    let ghost completed = completed_directions(given, *ig);
    proof {
        assert(completed.len() == count);
        assert(completed.contains(Direction::Top) == top);
        assert(completed.contains(Direction::Right) == right);
        assert(completed.contains(Direction::Bottom) == bottom);
        assert(completed.contains(Direction::Left) == left);
    }
    if count == 1 {
        if top {
            ObjectName::PathTop
        } else if right {
            ObjectName::PathRight
        } else if bottom {
            ObjectName::PathBottom
        } else {
            ObjectName::PathLeft
        }
    } else if count == 3 {
        if top && right && bottom {
            ObjectName::PathRightVertical
        } else if top && left && bottom {
            ObjectName::PathLeftVertical
        } else if left && top && right {
            ObjectName::PathTopHorizontal
        } else {
            ObjectName::PathBottomHorizontal
        }
    } else if count == 4 {
        ObjectName::PathCross
    } else {
        ObjectName::PathUndefined
    }
}


/// Returns whether the directions (listed once each) of a path cell at `ig`, completed as in
/// [`determine_path_object_name_from_neighbours`], name a path piece.
pub fn is_nameable_from_neighbours(neighbour_directions: &Vec<Direction>, ig: &Point) -> (result: bool)
    requires
        neighbour_directions@.no_duplicates(),
    ensures
        result == is_nameable(completed_directions(neighbour_directions@.to_set(), *ig)),
{
    let ghost given = neighbour_directions@.to_set();
    proof {
        neighbour_directions@.unique_seq_to_set();
    }
    let mut top = contains_direction(neighbour_directions, Direction::Top);
    let mut right = contains_direction(neighbour_directions, Direction::Right);
    let mut bottom = contains_direction(neighbour_directions, Direction::Bottom);
    let mut left = contains_direction(neighbour_directions, Direction::Left);
    let mut count = neighbour_directions.len();
    if count == 2 {
        let extra = direction_to_neighbour_chunk(ig);
        if !contains_direction(neighbour_directions, extra) {
            count = 3;
            match extra {
                Direction::Top => top = true,
                Direction::Right => right = true,
                Direction::Bottom => bottom = true,
                Direction::Left => left = true,
                _ => {},
            }
        }
    }
    let ghost completed = completed_directions(given, *ig);
    proof {
        assert(completed.len() == count);
        assert(completed.contains(Direction::Top) == top);
        assert(completed.contains(Direction::Right) == right);
        assert(completed.contains(Direction::Bottom) == bottom);
        assert(completed.contains(Direction::Left) == left);
    }
    let single_ok = count != 1 || top || right || bottom || left;
    let triple_ok = count != 3 || (top && bottom && (right || left)) || (left && right && (top || bottom));
    single_ok && triple_ok
}

} // verus!
