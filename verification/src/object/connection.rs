use crate::constants::{CHUNK_SIZE, TILE_SIZE};
use crate::coords::{CoordKind, Point};
use vstd::prelude::*;

verus! {

/// A side of a cell through which it connects to one of its four cardinal neighbours.
#[derive(Clone, Copy, Debug, PartialEq, Eq, Hash, Structural)]
pub enum Connection {
    Top,
    Right,
    Bottom,
    Left,
}

impl Connection {
    /// The side facing the other way.
    pub open spec fn spec_opposite(self) -> Connection {
        match self {
            Connection::Top => Connection::Bottom,
            Connection::Right => Connection::Left,
            Connection::Bottom => Connection::Top,
            Connection::Left => Connection::Right,
        }
    }

    /// Returns the side facing the other way: top and bottom swap, as do left and right.
    pub fn opposite(&self) -> (opposite: Connection)
        ensures
            opposite == self.spec_opposite(),
    {
        match self {
            Connection::Top => Connection::Bottom,
            Connection::Right => Connection::Left,
            Connection::Bottom => Connection::Top,
            Connection::Left => Connection::Right,
        }
    }

    /// The x offset of the neighbour on this side (the internal grid's `y` grows downwards).
    pub open spec fn dx(self) -> int {
        match self {
            Connection::Right => 1,
            Connection::Left => -1,
            _ => 0,
        }
    }

    /// The y offset of the neighbour on this side.
    pub open spec fn dy(self) -> int {
        match self {
            Connection::Top => -1,
            Connection::Bottom => 1,
            _ => 0,
        }
    }
}

/// Turning a side around twice gives the side back.
pub proof fn lemma_connection_opposite_involution(connection: Connection)
    ensures
        connection.spec_opposite().spec_opposite() == connection,
{
}

/// The sides, in the order in which [`get_connection_points`] lists them.
pub open spec fn connection_order() -> Seq<Connection> {
    seq![Connection::Top, Connection::Right, Connection::Bottom, Connection::Left]
}

/// Whether a point can be moved by one in every direction without leaving the range of `i32`.
pub open spec fn has_neighbours_in_range(point: Point) -> bool {
    i32::MIN < point.x < i32::MAX && i32::MIN < point.y < i32::MAX
}

/// Returns the four cardinal neighbours of an internal grid point, each with the side of `point` on which it lies, in
/// the order top, right, bottom, left.
pub fn get_connection_points(point: &Point) -> (points: [(Connection, Point); 4])
    requires
        has_neighbours_in_range(*point),
    ensures
        forall|i: int|
            0 <= i < 4 ==> {
                &&& (#[trigger] points@[i]).0 == connection_order()[i]
                &&& points@[i].1.x == point.x + points@[i].0.dx()
                &&& points@[i].1.y == point.y + points@[i].0.dy()
            },
{
    [
        (Connection::Top, Point::new(point.x, point.y - 1)),
        (Connection::Right, Point::new(point.x + 1, point.y)),
        (Connection::Bottom, Point::new(point.x, point.y + 1)),
        (Connection::Left, Point::new(point.x - 1, point.y)),
    ]
}

/// The distance between neighbouring points on a grid of the given kind, measured in that grid's units.
pub open spec fn spec_neighbour_offset(kind: CoordKind) -> int {
    match kind {
        CoordKind::WorldGrid => CHUNK_SIZE as int,
        CoordKind::World => TILE_SIZE * CHUNK_SIZE,
        CoordKind::ChunkGrid => 1,
    }
}

/// Returns the distance between the points of neighbouring chunks on a grid of the given kind.
pub fn neighbour_offset(kind: CoordKind) -> (offset: i32)
    ensures
        offset == spec_neighbour_offset(kind),
{
    match kind {
        CoordKind::WorldGrid => CHUNK_SIZE,
        CoordKind::World => TILE_SIZE as i32 * CHUNK_SIZE,
        CoordKind::ChunkGrid => 1,
    }
}

/// Returns the points of the four chunks adjacent to the chunk at `point`, in the order top, left, right, bottom.
/// On every grid kind the top neighbour has the smaller `y`.
pub fn get_connection_points_for(kind: CoordKind, point: &Point) -> (points: [(Connection, Point); 4])
    requires
        i32::MIN + spec_neighbour_offset(kind) <= point.x <= i32::MAX - spec_neighbour_offset(kind),
        i32::MIN + spec_neighbour_offset(kind) <= point.y <= i32::MAX - spec_neighbour_offset(kind),
    ensures
        points@[0] == (Connection::Top, Point { x: point.x, y: (point.y - spec_neighbour_offset(kind)) as i32 }),
        points@[1] == (Connection::Left, Point { x: (point.x - spec_neighbour_offset(kind)) as i32, y: point.y }),
        points@[2] == (Connection::Right, Point { x: (point.x + spec_neighbour_offset(kind)) as i32, y: point.y }),
        points@[3] == (Connection::Bottom, Point { x: point.x, y: (point.y + spec_neighbour_offset(kind)) as i32 }),
{
    let offset = neighbour_offset(kind);
    [
        (Connection::Top, Point::new(point.x, point.y - offset)),
        (Connection::Left, Point::new(point.x - offset, point.y)),
        (Connection::Right, Point::new(point.x + offset, point.y)),
        (Connection::Bottom, Point::new(point.x, point.y + offset)),
    ]
}

} // verus!
