use procedural_generation::biome::{chunk_key, BiomeMetadata, BiomeMetadataSet, Metadata};
use procedural_generation::coords::{Direction, Point};
use procedural_generation::object::terrain::Climate;

fn metadata_around(centre: Point, climate_of: impl Fn(i32, i32) -> Climate) -> Metadata {
    let mut metadata = Metadata::new(centre);
    for dy in -1..=1 {
        for dx in -1..=1 {
            let cg = Point::new_chunk_grid(centre.x + dx, centre.y + dy);
            metadata.insert_biome(BiomeMetadata::new(cg, dx == 0, dy + 2, climate_of(dx, dy)));
        }
    }
    metadata
}

#[test]
fn get_biome_metadata_for_collects_the_nine_chunks() {
    let centre = Point::new_chunk_grid(5, -3);
    let set = metadata_around(centre, |_, _| Climate::Moderate).get_biome_metadata_for(&centre);
    assert_eq!(set.this.cg, centre);
    assert_eq!(set.top.cg, Point::new_chunk_grid(5, -4));
    assert_eq!(set.top_right.cg, Point::new_chunk_grid(6, -4));
    assert_eq!(set.right.cg, Point::new_chunk_grid(6, -3));
    assert_eq!(set.bottom_right.cg, Point::new_chunk_grid(6, -2));
    assert_eq!(set.bottom.cg, Point::new_chunk_grid(5, -2));
    assert_eq!(set.bottom_left.cg, Point::new_chunk_grid(4, -2));
    assert_eq!(set.left.cg, Point::new_chunk_grid(4, -3));
    assert_eq!(set.top_left.cg, Point::new_chunk_grid(4, -4));
    assert_eq!(set.get(&Direction::Left).cg, Point::new_chunk_grid(4, -3));
    assert_eq!(set.get(&Direction::Center).max_layer, 2);
}

#[test]
fn is_same_climate_checks_the_chunks_towards_a_direction() {
    let centre = Point::new_chunk_grid(0, 0);
    let set: BiomeMetadataSet = metadata_around(centre, |dx, dy| if (dx, dy) == (1, 0) { Climate::Dry } else { Climate::Humid })
        .get_biome_metadata_for(&centre);
    assert!(set.is_same_climate(&Direction::Center));
    assert!(set.is_same_climate(&Direction::Top));
    assert!(!set.is_same_climate(&Direction::Right));
    assert!(!set.is_same_climate(&Direction::TopRight));
    assert!(!set.is_same_climate(&Direction::BottomRight));
    assert!(set.is_same_climate(&Direction::TopLeft));
    assert!(set.is_same_climate(&Direction::BottomLeft));
}

#[test]
fn insert_biome_replaces_the_biome_of_a_chunk() {
    let cg = Point::new_chunk_grid(-7, 12);
    let mut metadata = Metadata::new(cg);
    metadata.insert_biome(BiomeMetadata::new(cg, false, 1, Climate::Dry));
    metadata.insert_biome(BiomeMetadata::new(cg, true, 3, Climate::Humid));
    assert_eq!(metadata.biome.len(), 1);
    assert_eq!(metadata.biome[&chunk_key(cg)].climate, Climate::Humid);
}

#[test]
fn chunk_keys_differ_between_chunks() {
    assert_ne!(chunk_key(Point::new_chunk_grid(0, 1)), chunk_key(Point::new_chunk_grid(1, 0)));
    assert_ne!(chunk_key(Point::new_chunk_grid(-1, 0)), chunk_key(Point::new_chunk_grid(0, -1)));
    assert_eq!(chunk_key(Point::new_chunk_grid(0, 0)), 0x8000_0000_8000_0000);
}
