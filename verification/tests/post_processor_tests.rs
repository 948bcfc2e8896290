use procedural_generation::coords::Point;
use procedural_generation::object::terrain::{Climate, TerrainType, TileType};
use procedural_generation::post_processor::{process, Chunk, LayerTile, LayeredPlane, Plane, TERRAIN_LAYER_COUNT};

const SIZE: usize = 5;
const CENTRE: i32 = 2;

fn tile(terrain: TerrainType, tile_type: TileType) -> Option<LayerTile> {
    Some(LayerTile { terrain, tile_type })
}

fn empty_plane() -> Plane {
    Plane { data: vec![vec![None; SIZE]; SIZE] }
}

fn plane_with_centre(centre: Option<LayerTile>) -> Plane {
    let mut plane = empty_plane();
    plane.data[CENTRE as usize][CENTRE as usize] = centre;
    plane
}

/// The layers of a chunk of water with a single land tile in its centre: water fills every position, and the
/// centre holds a single shore tile under a single land tile.
fn chunk_with_single_land_tile() -> Chunk {
    let water = Plane { data: vec![vec![tile(TerrainType::Water, TileType::Fill); SIZE]; SIZE] };
    let shore = plane_with_centre(tile(TerrainType::Shore, TileType::Single));
    let land = plane_with_centre(tile(TerrainType::Land1, TileType::Single));
    let mut flat = Plane { data: vec![vec![tile(TerrainType::Water, TileType::Fill); SIZE]; SIZE] };
    flat.data[CENTRE as usize][CENTRE as usize] = tile(TerrainType::Land1, TileType::Single);
    Chunk {
        cg: Point::new_chunk_grid(0, 0),
        climate: Climate::Moderate,
        layered_plane: LayeredPlane { planes: vec![water, shore, land, empty_plane(), empty_plane()], flat },
    }
}

fn centre() -> Point {
    Point::new_internal_grid(CENTRE, CENTRE)
}

#[test]
fn process_clears_a_single_tile_with_no_fill_tile_below() {
    let chunk = chunk_with_single_land_tile();
    let internal_grid = centre();
    let chunk = process(chunk, 0, TERRAIN_LAYER_COUNT - 1);
    assert!(chunk.layered_plane.planes[TerrainType::Land1 as usize].get_tile(&internal_grid).is_none());

    let flat_tile = chunk.layered_plane.flat.get_tile(&internal_grid).expect("Flat plane retains the highest remaining tile");
    assert_eq!(flat_tile.terrain, TerrainType::Shore);
    assert_eq!(flat_tile.tile_type, TileType::Single);
}

#[test]
fn process_keeps_single_tiles_on_a_fill_tile_and_skips_disabled_layers() {
    let kept = process(chunk_with_single_land_tile(), 0, TERRAIN_LAYER_COUNT - 1);
    assert_eq!(kept.layered_plane.planes[1].get_tile(&centre()), tile(TerrainType::Shore, TileType::Single));
    assert_eq!(kept.layered_plane.planes[0].get_tile(&centre()), tile(TerrainType::Water, TileType::Fill));

    let untouched = process(chunk_with_single_land_tile(), 3, TERRAIN_LAYER_COUNT - 1);
    assert_eq!(untouched.layered_plane.planes[2].get_tile(&centre()), tile(TerrainType::Land1, TileType::Single));
    assert_eq!(untouched.layered_plane.flat.get_tile(&centre()), tile(TerrainType::Land1, TileType::Single));
}

#[test]
fn process_shows_the_highest_tile_left_on_the_flat_plane() {
    let mut chunk = chunk_with_single_land_tile();
    chunk.layered_plane.planes[3].data[CENTRE as usize][CENTRE as usize] = tile(TerrainType::Land2, TileType::Single);
    chunk.layered_plane.flat.data[CENTRE as usize][CENTRE as usize] = tile(TerrainType::Land2, TileType::Single);
    let processed = process(chunk, 0, TERRAIN_LAYER_COUNT - 1);
    assert!(processed.layered_plane.planes[3].get_tile(&centre()).is_none());
    assert!(processed.layered_plane.planes[2].get_tile(&centre()).is_none());
    assert_eq!(processed.layered_plane.flat.get_tile(&centre()), tile(TerrainType::Shore, TileType::Single));
    let corner = Point::new_internal_grid(0, 0);
    assert_eq!(processed.layered_plane.flat.get_tile(&corner), tile(TerrainType::Water, TileType::Fill));
}
