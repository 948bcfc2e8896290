use crate::constants::CHUNK_SIZE;
use vstd::prelude::*;

verus! {

/// A point on one of the integer grids of the world (chunk grid, internal grid of a chunk, tile grid or world).
#[derive(Clone, Copy, Debug, PartialEq, Eq, Hash, Structural)]
pub struct Point {
    pub x: i32,
    pub y: i32,
}

/// The kind of grid a [`Point`] lives on, where the distance between two neighbouring points differs.
#[derive(Clone, Copy, Debug, PartialEq, Eq, Hash, Structural)]
pub enum CoordKind {
    World,
    WorldGrid,
    ChunkGrid,
}

impl Point {
    pub fn new(x: i32, y: i32) -> (point: Point)
        ensures
            point.x == x,
            point.y == y,
    {
        Point { x, y }
    }

    /// A point on the internal grid of a chunk, i.e. a tile position within one chunk.
    pub fn new_internal_grid(x: i32, y: i32) -> (point: Point)
        ensures
            point.x == x,
            point.y == y,
    {
        Point { x, y }
    }

    /// A point on the chunk grid, i.e. the position of a chunk.
    pub fn new_chunk_grid(x: i32, y: i32) -> (point: Point)
        ensures
            point.x == x,
            point.y == y,
    {
        Point { x, y }
    }

    /// Whether this internal grid point lies within a chunk.
    pub open spec fn spec_is_inside_grid(self) -> bool {
        0 <= self.x < CHUNK_SIZE && 0 <= self.y < CHUNK_SIZE
    }

    /// Returns whether this internal grid point lies outside a chunk.
    pub fn is_outside_grid(&self) -> (result: bool)
        ensures
            result == !self.spec_is_inside_grid(),
    {
        self.x < 0 || self.y < 0 || self.x >= CHUNK_SIZE || self.y >= CHUNK_SIZE
    }

    /// Whether this internal grid point lies on the outermost ring of a chunk.
    pub open spec fn spec_is_touching_edge(self) -> bool {
        self.x == 0 || self.y == 0 || self.x == CHUNK_SIZE - 1 || self.y == CHUNK_SIZE - 1
    }

    /// Returns whether this internal grid point lies on the outermost ring of a chunk.
    pub fn is_touching_edge(&self) -> (result: bool)
        ensures
            result == self.spec_is_touching_edge(),
    {
        self.x == 0 || self.y == 0 || self.x == CHUNK_SIZE - 1 || self.y == CHUNK_SIZE - 1
    }

    /// The squared euclidean distance between two points.
    pub open spec fn spec_squared_distance(self, other: Point) -> int {
        (self.x - other.x) * (self.x - other.x) + (self.y - other.y) * (self.y - other.y)
    }
}

/// Whether `a` comes before `b` in row-major order: in an earlier row, or further left in the same row.
pub open spec fn is_before(a: Point, b: Point) -> bool {
    a.y < b.y || (a.y == b.y && a.x < b.x)
}

impl Default for Point {
    fn default() -> (point: Point)
        ensures
            point.x == 0,
            point.y == 0,
    {
        Point { x: 0, y: 0 }
    }
}

/// The eight compass directions of a grid plus the centre. On the internal grid `y` grows downwards, so
/// [`Direction::Top`] is the offset `(0, -1)`.
#[derive(Clone, Copy, Debug, PartialEq, Eq, Hash, Structural)]
pub enum Direction {
    TopLeft,
    Top,
    TopRight,
    Left,
    Center,
    Right,
    BottomLeft,
    Bottom,
    BottomRight,
}

impl Direction {
    /// The x offset of this direction.
    pub open spec fn dx(self) -> int {
        match self {
            Direction::TopLeft | Direction::Left | Direction::BottomLeft => -1,
            Direction::Top | Direction::Center | Direction::Bottom => 0,
            Direction::TopRight | Direction::Right | Direction::BottomRight => 1,
        }
    }

    /// The y offset of this direction.
    pub open spec fn dy(self) -> int {
        match self {
            Direction::TopLeft | Direction::Top | Direction::TopRight => -1,
            Direction::Left | Direction::Center | Direction::Right => 0,
            Direction::BottomLeft | Direction::Bottom | Direction::BottomRight => 1,
        }
    }

    /// Whether this is one of the four cardinal directions.
    pub open spec fn is_cardinal(self) -> bool {
        self == Direction::Top || self == Direction::Right || self == Direction::Bottom || self == Direction::Left
    }

    /// Returns the offset of this direction as a point.
    pub fn to_point(&self) -> (point: Point)
        ensures
            point.x == self.dx(),
            point.y == self.dy(),
    {
        match self {
            Direction::TopLeft => Point::new(-1, -1),
            Direction::Top => Point::new(0, -1),
            Direction::TopRight => Point::new(1, -1),
            Direction::Left => Point::new(-1, 0),
            Direction::Center => Point::new(0, 0),
            Direction::Right => Point::new(1, 0),
            Direction::BottomLeft => Point::new(-1, 1),
            Direction::Bottom => Point::new(0, 1),
            Direction::BottomRight => Point::new(1, 1),
        }
    }

    /// The direction with the negated offset.
    pub open spec fn spec_opposite(self) -> Direction {
        match self {
            Direction::TopLeft => Direction::BottomRight,
            Direction::Top => Direction::Bottom,
            Direction::TopRight => Direction::BottomLeft,
            Direction::Left => Direction::Right,
            Direction::Center => Direction::Center,
            Direction::Right => Direction::Left,
            Direction::BottomLeft => Direction::TopRight,
            Direction::Bottom => Direction::Top,
            Direction::BottomRight => Direction::TopLeft,
        }
    }

    /// Returns the direction pointing the other way.
    pub fn to_opposite(&self) -> (opposite: Direction)
        ensures
            opposite == self.spec_opposite(),
            opposite.dx() == -self.dx(),
            opposite.dy() == -self.dy(),
    {
        match self {
            Direction::TopLeft => Direction::BottomRight,
            Direction::Top => Direction::Bottom,
            Direction::TopRight => Direction::BottomLeft,
            Direction::Left => Direction::Right,
            Direction::Center => Direction::Center,
            Direction::Right => Direction::Left,
            Direction::BottomLeft => Direction::TopRight,
            Direction::Bottom => Direction::Top,
            Direction::BottomRight => Direction::TopLeft,
        }
    }

    /// The sign of an integer: `-1`, `0` or `1`.
    pub open spec fn sign(v: int) -> int {
        if v < 0 {
            -1
        } else if v == 0 {
            0
        } else {
            1
        }
    }

    /// The direction whose offset has the signs of the offset from `from` to `to`.
    pub open spec fn spec_from_points(from: Point, to: Point) -> Direction {
        let sx = Direction::sign(to.x - from.x);
        let sy = Direction::sign(to.y - from.y);
        if sy < 0 {
            if sx < 0 {
                Direction::TopLeft
            } else if sx == 0 {
                Direction::Top
            } else {
                Direction::TopRight
            }
        } else if sy == 0 {
            if sx < 0 {
                Direction::Left
            } else if sx == 0 {
                Direction::Center
            } else {
                Direction::Right
            }
        } else {
            if sx < 0 {
                Direction::BottomLeft
            } else if sx == 0 {
                Direction::Bottom
            } else {
                Direction::BottomRight
            }
        }
    }

    /// Returns the direction in which `to` lies as seen from `from`, e.g. [`Direction::Top`] if `to` is straight
    /// above `from` (at any distance) and [`Direction::Center`] if both are the same point.
    pub fn from_points(from: &Point, to: &Point) -> (direction: Direction)
        ensures
            direction == Direction::spec_from_points(*from, *to),
            direction.dx() == Direction::sign(to.x - from.x),
            direction.dy() == Direction::sign(to.y - from.y),
    {
        if to.y < from.y {
            if to.x < from.x {
                Direction::TopLeft
            } else if to.x == from.x {
                Direction::Top
            } else {
                Direction::TopRight
            }
        } else if to.y == from.y {
            if to.x < from.x {
                Direction::Left
            } else if to.x == from.x {
                Direction::Center
            } else {
                Direction::Right
            }
        } else {
            if to.x < from.x {
                Direction::BottomLeft
            } else if to.x == from.x {
                Direction::Bottom
            } else {
                Direction::BottomRight
            }
        }
    }
}

/// Turning a direction around twice gives the direction back.
pub proof fn lemma_direction_opposite_involution(direction: Direction)
    ensures
        direction.spec_opposite().spec_opposite() == direction,
{
}

/// The direction from a point to its neighbour in some direction is that direction.
pub proof fn lemma_from_points_of_offset(from: Point, to: Point, direction: Direction)
    requires
        to.x == from.x + direction.dx(),
        to.y == from.y + direction.dy(),
    ensures
        Direction::spec_from_points(from, to) == direction,
{
}

} // verus!
