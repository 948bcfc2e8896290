use crate::constants::CHUNK_SIZE;
use crate::coords::{Direction, Point};
use crate::object::object_name::ObjectName;
use crate::random::random_index;
use crate::settlement::point_set::PointSet;
use rand::rngs::StdRng;
use vstd::prelude::*;

verus! {

/// The largest width or height of a building template, and the largest distance from the origin of a chunk at which
/// a building may be considered.
pub const TEMPLATE_LIMIT: i32 = 0x1000_0000;

/// Whether a point is near enough to the chunk that offsets of a building template can be added to it.
pub open spec fn is_near(p: Point) -> bool {
    -TEMPLATE_LIMIT <= p.x <= TEMPLATE_LIMIT && -TEMPLATE_LIMIT <= p.y <= TEMPLATE_LIMIT
}

/// A resolved building layout ready for placement: `tile_variants[y][x]` lists the objects the tile in row `y` and
/// column `x` may show, the door lies at `relative_door_ig` from the top-left corner, and the path the building is
/// entered from lies in `connection_direction` of the door.
#[derive(Debug)]
pub struct BuildingTemplate {
    pub id: String,
    pub width: i32,
    pub height: i32,
    pub tile_variants: Vec<Vec<Vec<ObjectName>>>,
    pub relative_door_ig: Point,
    pub connection_direction: Direction,
}

impl BuildingTemplate {
    /// The template invariant: a non-empty `height` by `width` layout with at least one variant per tile, the door
    /// on a tile of the building, and a cardinal connection direction.
    pub open spec fn wf(self) -> bool {
        &&& 0 < self.width <= TEMPLATE_LIMIT
        &&& 0 < self.height <= TEMPLATE_LIMIT
        &&& self.tile_variants@.len() == self.height
        &&& forall|y: int| 0 <= y < self.height ==> (#[trigger] self.tile_variants@[y])@.len() == self.width
        &&& forall|y: int, x: int|
            0 <= y < self.height && 0 <= x < self.width ==> (#[trigger] self.tile_variants@[y]@[x])@.len() > 0
        &&& 0 <= self.relative_door_ig.x < self.width
        &&& 0 <= self.relative_door_ig.y < self.height
        &&& self.connection_direction.is_cardinal()
    }

    pub fn new(
        id: String,
        width: i32,
        height: i32,
        tile_variants: Vec<Vec<Vec<ObjectName>>>,
        relative_door_ig: Point,
        connection_direction: Direction,
    ) -> (template: BuildingTemplate)
        ensures
            template.id@ == id@,
            template.width == width,
            template.height == height,
            template.tile_variants == tile_variants,
            template.relative_door_ig == relative_door_ig,
            template.connection_direction == connection_direction,
    {
        BuildingTemplate { id, width, height, tile_variants, relative_door_ig, connection_direction }
    }

    /// Returns whether the template satisfies its invariant (see [`BuildingTemplate::wf`]).
    pub fn is_valid(&self) -> (valid: bool)
        ensures
            valid == self.wf(),
    {
        if self.width <= 0 || self.width > TEMPLATE_LIMIT || self.height <= 0 || self.height > TEMPLATE_LIMIT {
            return false;
        }
        if self.tile_variants.len() != self.height as usize {
            return false;
        }
        if self.relative_door_ig.x < 0 || self.relative_door_ig.x >= self.width || self.relative_door_ig.y < 0
            || self.relative_door_ig.y >= self.height {
            return false;
        }
        match self.connection_direction {
            Direction::Top | Direction::Right | Direction::Bottom | Direction::Left => {},
            _ => {
                return false;
            },
        }
        let mut y: usize = 0;
        while y < self.tile_variants.len()
            invariant
                0 < self.width <= TEMPLATE_LIMIT,
                0 < self.height <= TEMPLATE_LIMIT,
                self.tile_variants@.len() == self.height,
                y <= self.tile_variants@.len(),
                forall|j: int| 0 <= j < y ==> (#[trigger] self.tile_variants@[j])@.len() == self.width,
                forall|j: int, x: int|
                    0 <= j < y && 0 <= x < self.width ==> (#[trigger] self.tile_variants@[j]@[x])@.len() > 0,
            decreases self.tile_variants@.len() - y,
        {
            let row = &self.tile_variants[y];
            if row.len() != self.width as usize {
                return false;
            }
            let mut x: usize = 0;
            while x < row.len()
                invariant
                    0 < self.width <= TEMPLATE_LIMIT,
                    self.tile_variants@.len() == self.height,
                    y < self.tile_variants@.len(),
                    *row == self.tile_variants@[y as int],
                    row@.len() == self.width,
                    x <= row@.len(),
                    forall|j: int| 0 <= j < y ==> (#[trigger] self.tile_variants@[j])@.len() == self.width,
                    forall|j: int, c: int|
                        0 <= j < y && 0 <= c < self.width ==> (#[trigger] self.tile_variants@[j]@[c])@.len() > 0,
                    forall|c: int| 0 <= c < x ==> (#[trigger] row@[c])@.len() > 0,
                decreases row@.len() - x,
            {
                if row[x].len() == 0 {
                    proof {
                        assert(!self.wf()) by {
                            assert(self.tile_variants@[y as int]@[x as int]@.len() == 0);
                        }
                    }
                    return false;
                }
                x = x + 1;
            }
            y = y + 1;
        }
        true
    }

    /// The door of a building entered from the path at `path_ig`: the tile next to it, away from the connection
    /// direction.
    pub open spec fn spec_absolute_door_ig(self, path_ig: Point) -> Point {
        let d = self.connection_direction;
        Point { x: (path_ig.x - d.dx()) as i32, y: (path_ig.y - d.dy()) as i32 }
    }

    /// The top-left corner of the building whose door is at `door_ig`.
    pub open spec fn spec_origin_from_door(self, door_ig: Point) -> Point {
        Point { x: (door_ig.x - self.relative_door_ig.x) as i32, y: (door_ig.y - self.relative_door_ig.y) as i32 }
    }

    /// Returns the position of the door of a building entered from the path at `path_ig`.
    pub fn calculate_absolute_door_ig(&self, path_ig: Point) -> (door_ig: Point)
        requires
            self.wf(),
            is_near(path_ig),
        ensures
            door_ig == self.spec_absolute_door_ig(path_ig),
    {
        match self.connection_direction {
            Direction::Top => Point::new_internal_grid(path_ig.x, path_ig.y + 1),
            Direction::Bottom => Point::new_internal_grid(path_ig.x, path_ig.y - 1),
            Direction::Left => Point::new_internal_grid(path_ig.x + 1, path_ig.y),
            _ => Point::new_internal_grid(path_ig.x - 1, path_ig.y),
        }
    }

    /// Returns the top-left corner of the building whose door is at `absolute_door_ig`.
    pub fn calculate_origin_ig_from_absolute_door(&self, absolute_door_ig: Point) -> (origin: Point)
        requires
            self.wf(),
            -TEMPLATE_LIMIT - 1 <= absolute_door_ig.x <= TEMPLATE_LIMIT + 1,
            -TEMPLATE_LIMIT - 1 <= absolute_door_ig.y <= TEMPLATE_LIMIT + 1,
        ensures
            origin == self.spec_origin_from_door(absolute_door_ig),
    {
        Point::new_internal_grid(
            absolute_door_ig.x - self.relative_door_ig.x,
            absolute_door_ig.y - self.relative_door_ig.y,
        )
    }

    /// The top-left corner of the building entered from the path at `path_ig`.
    pub open spec fn spec_origin_from_connection(self, path_ig: Point) -> Point {
        self.spec_origin_from_door(self.spec_absolute_door_ig(path_ig))
    }

    /// Returns the top-left corner of the building entered from the path at `connection_ig`.
    pub fn calculate_origin_ig_from_connection_point(&self, connection_ig: Point) -> (origin: Point)
        requires
            self.wf(),
            is_near(connection_ig),
        ensures
            origin == self.spec_origin_from_connection(connection_ig),
            -2 * TEMPLATE_LIMIT - 1 <= origin.x <= TEMPLATE_LIMIT + 1,
            -2 * TEMPLATE_LIMIT - 1 <= origin.y <= TEMPLATE_LIMIT + 1,
    {
        let absolute_door_ig = self.calculate_absolute_door_ig(connection_ig);
        self.calculate_origin_ig_from_absolute_door(absolute_door_ig)
    }

    /// Whether the tile at `(x, y)` of the building with its top-left corner at `origin` lies at `p`.
    pub open spec fn covers(self, origin: Point, p: Point) -> bool {
        origin.x <= p.x < origin.x + self.width && origin.y <= p.y < origin.y + self.height
    }

    /// Whether the building entered from the path at `path_ig` lies within the chunk, on available positions only,
    /// with its door next to the path.
    pub open spec fn spec_is_placeable_at_path(self, path_ig: Point, available_space: Set<Point>) -> bool {
        let origin = self.spec_origin_from_connection(path_ig);
        let door = Point {
            x: (origin.x + self.relative_door_ig.x) as i32,
            y: (origin.y + self.relative_door_ig.y) as i32,
        };
        let d = self.connection_direction.spec_opposite();
        &&& origin.x >= 0
        &&& origin.y >= 0
        &&& origin.x + self.width <= CHUNK_SIZE
        &&& origin.y + self.height <= CHUNK_SIZE
        &&& forall|p: Point| #[trigger] self.covers(origin, p) ==> available_space.contains(p)
        &&& door == Point { x: (path_ig.x + d.dx()) as i32, y: (path_ig.y + d.dy()) as i32 }
    }

    /// Returns whether the building entered from the path at `path_ig` can be placed: it lies within the chunk, all
    /// its tiles are available, and its door is next to the path and facing it.
    pub fn is_placeable_at_path(&self, path_ig: Point, available_space: &PointSet) -> (result: bool)
        requires
            self.wf(),
            available_space.wf(),
            is_near(path_ig),
        ensures
            result == self.spec_is_placeable_at_path(path_ig, available_space@),
    {
        let origin = self.calculate_origin_ig_from_connection_point(path_ig);
        if origin.x < 0 || origin.y < 0 || origin.x + self.width > CHUNK_SIZE || origin.y + self.height > CHUNK_SIZE {
            return false;
        }
        let mut y: i32 = 0;
        while y < self.height
            invariant
                self.wf(),
                available_space.wf(),
                origin == self.spec_origin_from_connection(path_ig),
                0 <= origin.x && origin.x + self.width <= CHUNK_SIZE,
                0 <= origin.y && origin.y + self.height <= CHUNK_SIZE,
                0 <= y <= self.height,
                forall|p: Point|
                    #[trigger] self.covers(origin, p) && p.y < origin.y + y ==> available_space@.contains(p),
            decreases self.height - y,
        {
            let mut x: i32 = 0;
            while x < self.width
                invariant
                    self.wf(),
                    available_space.wf(),
                    origin == self.spec_origin_from_connection(path_ig),
                    0 <= origin.x && origin.x + self.width <= CHUNK_SIZE,
                    0 <= origin.y && origin.y + self.height <= CHUNK_SIZE,
                    0 <= y < self.height,
                    0 <= x <= self.width,
                    forall|p: Point|
                        #[trigger] self.covers(origin, p) && p.y < origin.y + y ==> available_space@.contains(p),
                    forall|p: Point|
                        #[trigger] self.covers(origin, p) && p.y == origin.y + y && p.x < origin.x + x
                            ==> available_space@.contains(p),
                decreases self.width - x,
            {
                let tile_ig = Point::new_internal_grid(origin.x + x, origin.y + y);
                if !available_space.contains(&tile_ig) {
                    proof {
                        assert(self.covers(origin, tile_ig));
                    }
                    return false;
                }
                x = x + 1;
            }
            y = y + 1;
        }
        let door_ig = Point::new_internal_grid(origin.x + self.relative_door_ig.x, origin.y + self.relative_door_ig.y);
        let offset = self.connection_direction.to_opposite().to_point();
        let expected_door_ig = Point::new_internal_grid(path_ig.x + offset.x, path_ig.y + offset.y);
        door_ig == expected_door_ig
    }

    /// Returns the objects of one building from this template: for each tile one of its variants, chosen at random.
    pub fn generate_tiles(&self, rng: &mut StdRng) -> (tiles: Vec<Vec<ObjectName>>)
        requires
            self.wf(),
        ensures
            tiles@.len() == self.height,
            forall|y: int| 0 <= y < self.height ==> (#[trigger] tiles@[y])@.len() == self.width,
            forall|y: int, x: int|
                0 <= y < self.height && 0 <= x < self.width ==> self.tile_variants@[y]@[x]@.contains(
                    #[trigger] tiles@[y]@[x],
                ),
    {
        let mut tiles: Vec<Vec<ObjectName>> = Vec::new();
        let mut y: usize = 0;
        while y < self.tile_variants.len()
            invariant
                self.wf(),
                y <= self.tile_variants@.len(),
                tiles@.len() == y,
                forall|j: int| 0 <= j < y ==> (#[trigger] tiles@[j])@.len() == self.width,
                forall|j: int, x: int|
                    0 <= j < y && 0 <= x < self.width ==> self.tile_variants@[j]@[x]@.contains(#[trigger] tiles@[j]@[x]),
            decreases self.tile_variants@.len() - y,
        {
            let row = &self.tile_variants[y];
            let mut chosen: Vec<ObjectName> = Vec::new();
            let mut x: usize = 0;
            while x < row.len()
                invariant
                    self.wf(),
                    y < self.height,
                    *row == self.tile_variants@[y as int],
                    x <= row@.len(),
                    chosen@.len() == x,
                    forall|i: int| 0 <= i < x ==> row@[i]@.contains(#[trigger] chosen@[i]),
                decreases row@.len() - x,
            {
                let variants = &row[x];
                let index = random_index(rng, variants.len());
                chosen.push(variants[index]);
                x = x + 1;
            }
            tiles.push(chosen);
            y = y + 1;
        }
        tiles
    }
}

} // verus!
