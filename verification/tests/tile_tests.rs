use procedural_generation::coords::Point;
use procedural_generation::object::terrain::{TerrainType, TileType};
use procedural_generation::tile::{is_marked_for_deletion, Coords, CurrentChunk, Tile};

fn coords(world_grid: Point, chunk_grid: Point, tile_grid: Point) -> Coords {
    Coords { world: Point::new(0, 0), world_grid, chunk_grid, tile_grid }
}

#[test]
fn tiles_outside_the_chunk_are_marked_for_deletion() {
    assert!(!is_marked_for_deletion(&Point::new_chunk_grid(0, 0)));
    assert!(!is_marked_for_deletion(&Point::new_chunk_grid(32, 32)));
    assert!(is_marked_for_deletion(&Point::new_chunk_grid(-1, 5)));
    assert!(is_marked_for_deletion(&Point::new_chunk_grid(5, 33)));
}

#[test]
fn parent_chunk_world_moves_back_by_the_position_in_the_chunk() {
    let tile = Tile {
        coords: coords(Point::new(40, -10), Point::new_chunk_grid(8, 2), Point::new(0, 0)),
        terrain: TerrainType::Land1,
        layer: 0,
        tile_type: TileType::Fill,
    };
    assert_eq!(tile.get_parent_chunk_world(), Point::new(32 * 32, -8 * 32));
}

#[test]
fn current_chunk_reports_its_coordinates() {
    let c = coords(Point::new(1, 2), Point::new_chunk_grid(3, 4), Point::new(64, 32));
    let chunk = CurrentChunk::new(Point::new(512, -512), c);
    assert_eq!(chunk.get_center_world(), Point::new(512, -512));
    assert_eq!(chunk.get_world(), c.world);
    assert_eq!(chunk.get_chunk_grid(), Point::new_chunk_grid(3, 4));
    assert_eq!(chunk.get_tile_grid(), Point::new(64, 32));
    // As its bounds are written, no tile satisfies both conditions on the y axis.
    assert!(!chunk.contains(Point::new(70, 40)));
    assert!(!chunk.contains(Point::new(70, 0)));
}
