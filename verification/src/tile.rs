use crate::constants::{CHUNK_SIZE, TILE_SIZE};
use crate::coords::Point;
use crate::object::terrain::{TerrainType, TileType};
use vstd::prelude::*;

verus! {

/// The positions of a tile or chunk on the grids of the world: in pixels, on the world grid of tiles, on the chunk
/// grid and on the tile grid.
#[derive(Clone, Copy, Debug, PartialEq, Eq, Hash, Structural)]
pub struct Coords {
    pub world: Point,
    pub world_grid: Point,
    pub chunk_grid: Point,
    pub tile_grid: Point,
}

/// A single tile of the world: its coordinates, terrain, layer and tile type.
#[derive(Clone, Copy, Debug, PartialEq, Eq, Hash, Structural)]
pub struct Tile {
    pub coords: Coords,
    pub terrain: TerrainType,
    pub layer: i32,
    pub tile_type: TileType,
}

/// The world position of the chunk a tile lies in: the tile's world grid position moved back by its position in the
/// chunk, in pixels.
pub open spec fn parent_chunk_world(coords: Coords) -> (int, int) {
    (
        (coords.world_grid.x - coords.chunk_grid.x) * TILE_SIZE as int,
        (coords.world_grid.y + coords.chunk_grid.y) * TILE_SIZE as int,
    )
}

impl Tile {
    /// Returns the world position of the chunk the tile lies in.
    pub fn get_parent_chunk_world(&self) -> (w: Point)
        requires
            i32::MIN <= parent_chunk_world(self.coords).0 <= i32::MAX,
            i32::MIN <= parent_chunk_world(self.coords).1 <= i32::MAX,
        ensures
            w.x == parent_chunk_world(self.coords).0,
            w.y == parent_chunk_world(self.coords).1,
    {
        let x = (self.coords.world_grid.x as i64 - self.coords.chunk_grid.x as i64) * TILE_SIZE as i64;
        let y = (self.coords.world_grid.y as i64 + self.coords.chunk_grid.y as i64) * TILE_SIZE as i64;
        Point::new(x as i32, y as i32)
    }
}

/// Returns whether a tile at `chunk_grid` within its chunk lies outside the chunk (beyond either edge), so that it
/// is dropped.
pub fn is_marked_for_deletion(chunk_grid: &Point) -> (result: bool)
    ensures
        result == (chunk_grid.x < 0 || chunk_grid.y < 0 || chunk_grid.x > CHUNK_SIZE || chunk_grid.y > CHUNK_SIZE),
{
    chunk_grid.x < 0 || chunk_grid.y < 0 || chunk_grid.x > CHUNK_SIZE || chunk_grid.y > CHUNK_SIZE
}

/// The chunk the camera is on: its centre in world pixels and its coordinates.
#[derive(Clone, Copy, Debug)]
pub struct CurrentChunk {
    center_w: Point,
    coords: Coords,
}

impl CurrentChunk {
    /// The centre of the chunk, in world pixels.
    pub closed spec fn spec_center_world(self) -> Point {
        self.center_w
    }

    /// The coordinates of the chunk.
    pub closed spec fn spec_coords(self) -> Coords {
        self.coords
    }

    /// A current chunk with the given centre and coordinates.
    pub fn new(center_w: Point, coords: Coords) -> (chunk: CurrentChunk)
        ensures
            chunk.spec_center_world() == center_w,
            chunk.spec_coords() == coords,
    {
        CurrentChunk { center_w, coords }
    }

    /// Returns the centre of the chunk, in world pixels.
    pub fn get_center_world(&self) -> (w: Point)
        ensures
            w == self.spec_center_world(),
    {
        self.center_w
    }

    /// Returns the world position of the chunk.
    pub fn get_world(&self) -> (w: Point)
        ensures
            w == self.spec_coords().world,
    {
        self.coords.world
    }

    /// Returns the tile grid position of the chunk.
    pub fn get_tile_grid(&self) -> (tg: Point)
        ensures
            tg == self.spec_coords().tile_grid,
    {
        self.coords.tile_grid
    }

    /// Returns the chunk grid position of the chunk.
    pub fn get_chunk_grid(&self) -> (cg: Point)
        ensures
            cg == self.spec_coords().chunk_grid,
    {
        self.coords.chunk_grid
    }

    /// Returns whether the tile grid position `tg` lies in the chunk: at most `CHUNK_SIZE` tiles to the right of the
    /// chunk's tile grid position and, as the bounds are written, between that position and `CHUNK_SIZE` tiles above
    /// it.
    pub fn contains(&self, tg: Point) -> (result: bool)
        ensures
            result == (tg.x >= self.spec_coords().tile_grid.x && tg.x < self.spec_coords().tile_grid.x + CHUNK_SIZE
                && tg.y >= self.spec_coords().tile_grid.y && tg.y < self.spec_coords().tile_grid.y - CHUNK_SIZE),
    {
        let origin = self.coords.tile_grid;
        tg.x as i64 >= origin.x as i64 && (tg.x as i64) < origin.x as i64 + CHUNK_SIZE as i64 && tg.y as i64
            >= origin.y as i64 && (tg.y as i64) < origin.y as i64 - CHUNK_SIZE as i64
    }
}

} // verus!
