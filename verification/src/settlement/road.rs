use crate::coords::{Direction, Point};
use crate::object::cell::Cell;
use crate::object::object_grid::ObjectGrid;
use crate::object::object_name::ObjectName;
use vstd::prelude::*;

verus! {

/// The cardinal directions a road piece connects to; empty for anything that is not a road piece.
pub open spec fn road_branches(name: ObjectName) -> Set<Direction> {
    match name {
        ObjectName::PathTop => set![Direction::Top],
        ObjectName::PathRight => set![Direction::Right],
        ObjectName::PathBottom => set![Direction::Bottom],
        ObjectName::PathLeft => set![Direction::Left],
        ObjectName::PathTopRight => set![Direction::Top, Direction::Right],
        ObjectName::PathTopLeft => set![Direction::Top, Direction::Left],
        ObjectName::PathBottomRight => set![Direction::Bottom, Direction::Right],
        ObjectName::PathBottomLeft => set![Direction::Bottom, Direction::Left],
        ObjectName::PathVertical => set![Direction::Top, Direction::Bottom],
        ObjectName::PathHorizontal => set![Direction::Left, Direction::Right],
        ObjectName::PathTopHorizontal => set![Direction::Top, Direction::Left, Direction::Right],
        ObjectName::PathBottomHorizontal => set![Direction::Bottom, Direction::Left, Direction::Right],
        ObjectName::PathLeftVertical => set![Direction::Top, Direction::Bottom, Direction::Left],
        ObjectName::PathRightVertical => set![Direction::Top, Direction::Bottom, Direction::Right],
        ObjectName::PathCross => set![Direction::Top, Direction::Right, Direction::Bottom, Direction::Left],
        _ => Set::empty(),
    }
}

/// Returns whether a road piece connects to at least one side; anything that is not a road piece connects nowhere.
pub fn connects_somewhere(name: ObjectName) -> (result: bool)
    ensures
        result == (road_branches(name).len() > 0),
{
    match name {
        ObjectName::PathTop | ObjectName::PathRight | ObjectName::PathBottom | ObjectName::PathLeft
        | ObjectName::PathTopRight | ObjectName::PathTopLeft | ObjectName::PathBottomRight | ObjectName::PathBottomLeft
        | ObjectName::PathVertical | ObjectName::PathHorizontal | ObjectName::PathTopHorizontal
        | ObjectName::PathBottomHorizontal | ObjectName::PathLeftVertical | ObjectName::PathRightVertical
        | ObjectName::PathCross => {
            proof {
                let b = road_branches(name);
                assert(b.contains(Direction::Top) || b.contains(Direction::Bottom) || b.contains(Direction::Left)
                    || b.contains(Direction::Right));
                if b.len() == 0 {
                    b.lemma_len0_is_empty();
                }
            }
            true
        },
        _ => false,
    }
}

/// Whether a road piece at `road` can be joined by an entrance at `entrance`: the road piece connects somewhere, and
/// the entrance lies straight above, below, left or right of it.
pub open spec fn is_supported_road_connection(name: ObjectName, road: Point, entrance: Point) -> bool {
    road_branches(name).len() > 0 && Direction::spec_from_points(road, entrance).is_cardinal()
}

/// Whether a cell is collapsed to a single path piece.
pub open spec fn is_collapsed_path_cell(cell: Cell) -> bool {
    cell.is_collapsed && cell.states().len() == 1 && cell.states()[0].0.spec_is_path()
}

/// The road piece that also connects towards the entrance: the branches of `name` with the direction of `entrance`
/// as seen from `road` added.
pub open spec fn spec_road_joining(name: ObjectName, road: Point, entrance: Point) -> ObjectName {
    let d = Direction::spec_from_points(road, entrance);
    let b = road_branches(name).insert(d);
    let has = |x: Direction| b.contains(x);
    if has(Direction::Top) && has(Direction::Right) && has(Direction::Bottom) && has(Direction::Left) {
        ObjectName::PathCross
    } else if has(Direction::Top) && has(Direction::Bottom) && has(Direction::Left) {
        ObjectName::PathLeftVertical
    } else if has(Direction::Top) && has(Direction::Bottom) && has(Direction::Right) {
        ObjectName::PathRightVertical
    } else if has(Direction::Left) && has(Direction::Right) && has(Direction::Top) {
        ObjectName::PathTopHorizontal
    } else if has(Direction::Left) && has(Direction::Right) && has(Direction::Bottom) {
        ObjectName::PathBottomHorizontal
    } else if has(Direction::Top) && has(Direction::Bottom) {
        ObjectName::PathVertical
    } else if has(Direction::Left) && has(Direction::Right) {
        ObjectName::PathHorizontal
    } else if has(Direction::Top) && has(Direction::Right) {
        ObjectName::PathTopRight
    } else if has(Direction::Top) && has(Direction::Left) {
        ObjectName::PathTopLeft
    } else if has(Direction::Bottom) && has(Direction::Right) {
        ObjectName::PathBottomRight
    } else if has(Direction::Bottom) && has(Direction::Left) {
        ObjectName::PathBottomLeft
    } else if has(Direction::Top) {
        ObjectName::PathTop
    } else if has(Direction::Right) {
        ObjectName::PathRight
    } else if has(Direction::Bottom) {
        ObjectName::PathBottom
    } else {
        ObjectName::PathLeft
    }
}

/// Returns the name the road piece in `cell`, at `path_connection_ig`, takes once a structure with its entrance at
/// `absolute_entrance_ig` joins it: the piece that connects to its old branches and towards the entrance. A cell that
/// is not collapsed to a single path piece gives [`ObjectName::PathUndefined`].
pub fn determine_updated_object_name(cell: &Cell, path_connection_ig: &Point, absolute_entrance_ig: &Point) -> (name: ObjectName)
    requires
        is_collapsed_path_cell(*cell) ==> is_supported_road_connection(
            cell.states()[0].0,
            *path_connection_ig,
            *absolute_entrance_ig,
        ),
    ensures
        !is_collapsed_path_cell(*cell) ==> name == ObjectName::PathUndefined,
        is_collapsed_path_cell(*cell) ==> name == spec_road_joining(
            cell.states()[0].0,
            *path_connection_ig,
            *absolute_entrance_ig,
        ),
        is_collapsed_path_cell(*cell) ==> road_branches(name) == road_branches(cell.states()[0].0).insert(
            Direction::spec_from_points(*path_connection_ig, *absolute_entrance_ig),
        ),
{
    if !cell.is_collapsed() || cell.possible_states.len() != 1 {
        return ObjectName::PathUndefined;
    }
    let current = cell.possible_states[0].name;
    if !current.is_path() {
        return ObjectName::PathUndefined;
    }
    let missing_direction = Direction::from_points(path_connection_ig, absolute_entrance_ig);
    road_joining(current, missing_direction)
}

/// Returns the road piece with the branches of `name` and `direction`.
fn road_joining(name: ObjectName, direction: Direction) -> (joined: ObjectName)
    requires
        road_branches(name).len() > 0,
        direction.is_cardinal(),
    ensures
        road_branches(joined) == road_branches(name).insert(direction),
        forall|road: Point, entrance: Point|
            Direction::spec_from_points(road, entrance) == direction ==> joined == #[trigger] spec_road_joining(
                name,
                road,
                entrance,
            ),
{
    match (name, direction) {
        (ObjectName::PathTop, Direction::Left) => ObjectName::PathTopLeft,
        (ObjectName::PathTop, Direction::Right) => ObjectName::PathTopRight,
        (ObjectName::PathTop, Direction::Bottom) => ObjectName::PathVertical,
        (ObjectName::PathRight, Direction::Top) => ObjectName::PathTopRight,
        (ObjectName::PathRight, Direction::Bottom) => ObjectName::PathBottomRight,
        (ObjectName::PathRight, Direction::Left) => ObjectName::PathHorizontal,
        (ObjectName::PathBottom, Direction::Left) => ObjectName::PathBottomLeft,
        (ObjectName::PathBottom, Direction::Right) => ObjectName::PathBottomRight,
        (ObjectName::PathBottom, Direction::Top) => ObjectName::PathVertical,
        (ObjectName::PathTopRight, Direction::Bottom) => ObjectName::PathRightVertical,
        (ObjectName::PathTopRight, Direction::Left) => ObjectName::PathTopHorizontal,
        (ObjectName::PathTopLeft, Direction::Bottom) => ObjectName::PathLeftVertical,
        (ObjectName::PathTopLeft, Direction::Right) => ObjectName::PathTopHorizontal,
        (ObjectName::PathBottomLeft, Direction::Top) => ObjectName::PathLeftVertical,
        (ObjectName::PathBottomLeft, Direction::Right) => ObjectName::PathBottomHorizontal,
        (ObjectName::PathBottomRight, Direction::Top) => ObjectName::PathRightVertical,
        (ObjectName::PathBottomRight, Direction::Left) => ObjectName::PathBottomHorizontal,
        (ObjectName::PathLeft, Direction::Top) => ObjectName::PathTopLeft,
        (ObjectName::PathLeft, Direction::Bottom) => ObjectName::PathBottomLeft,
        (ObjectName::PathLeft, Direction::Right) => ObjectName::PathHorizontal,
        (ObjectName::PathVertical, Direction::Left) => ObjectName::PathLeftVertical,
        (ObjectName::PathVertical, Direction::Right) => ObjectName::PathRightVertical,
        (ObjectName::PathHorizontal, Direction::Top) => ObjectName::PathTopHorizontal,
        (ObjectName::PathHorizontal, Direction::Bottom) => ObjectName::PathBottomHorizontal,
        (ObjectName::PathTopHorizontal, Direction::Bottom) => ObjectName::PathCross,
        (ObjectName::PathBottomHorizontal, Direction::Top) => ObjectName::PathCross,
        (ObjectName::PathLeftVertical, Direction::Right) => ObjectName::PathCross,
        (ObjectName::PathRightVertical, Direction::Left) => ObjectName::PathCross,
        _ => name,
    }
}

/// Updates the road piece at `path_connection_ig` so that it also connects to the entrance at
/// `absolute_entrance_ig` (see [`determine_updated_object_name`]); a position outside the grid is ignored.
pub fn update_path_in_front_of_entrance(
    path_connection_ig: &Point,
    absolute_entrance_ig: &Point,
    object_grid: &mut ObjectGrid,
)
    requires
        old(object_grid).wf(),
        path_connection_ig.spec_is_inside_grid() && is_collapsed_path_cell(old(object_grid).cell_at(*path_connection_ig))
            ==> is_supported_road_connection(
            old(object_grid).cell_at(*path_connection_ig).states()[0].0,
            *path_connection_ig,
            *absolute_entrance_ig,
        ),
    ensures
        !path_connection_ig.spec_is_inside_grid() ==> *final(object_grid) == *old(object_grid),
        path_connection_ig.spec_is_inside_grid() ==> {
            let before = old(object_grid).cell_at(*path_connection_ig);
            let after = final(object_grid).cell_at(*path_connection_ig);
            &&& final(object_grid).wf()
            &&& final(object_grid).cg == old(object_grid).cg
            &&& final(object_grid).path == old(object_grid).path
            &&& final(object_grid).no_neighbours_tile == old(object_grid).no_neighbours_tile
            &&& after.is_collapsed
            &&& after.states().len() == 1
            &&& after.states()[0].0 == if is_collapsed_path_cell(before) {
                spec_road_joining(before.states()[0].0, *path_connection_ig, *absolute_entrance_ig)
            } else {
                ObjectName::PathUndefined
            }
            &&& after.ig == before.ig
            &&& after.terrain == before.terrain
            &&& after.is_walkable == before.is_walkable
            &&& forall|q: Point|
                q.spec_is_inside_grid() && q != *path_connection_ig ==> #[trigger] final(object_grid).cell_at(q)
                    == old(object_grid).cell_at(q)
        },
{
    let ghost before = *object_grid;
    match object_grid.get_cell_mut(path_connection_ig) {
        Some(cell) => {
            let name = determine_updated_object_name(cell, path_connection_ig, absolute_entrance_ig);
            cell.mark_as_collapsed(name);
        },
        None => {},
    }
    proof {
        if path_connection_ig.spec_is_inside_grid() {
            crate::object::object_grid::lemma_grid_after_cell_update(before, *object_grid, *path_connection_ig);
        }
    }
}

/// A road piece is identified by its branches: joining a road towards a direction it already connects to leaves it
/// as it is, and joining it towards a new direction adds exactly that branch.
pub proof fn lemma_road_joining_adds_only_the_requested_branch(name: ObjectName, road: Point, entrance: Point)
    requires
        is_supported_road_connection(name, road, entrance),
    ensures
        road_branches(spec_road_joining(name, road, entrance)) == road_branches(name).insert(
            Direction::spec_from_points(road, entrance),
        ),
        road_branches(name).contains(Direction::spec_from_points(road, entrance)) ==> spec_road_joining(
            name,
            road,
            entrance,
        ) == name,
{
    let d = Direction::spec_from_points(road, entrance);
    assert(road_branches(name).insert(d) =~= road_branches(name) <== road_branches(name).contains(d));
}

} // verus!
