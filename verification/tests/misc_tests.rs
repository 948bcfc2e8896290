use procedural_generation::constants::{CHUNK_SIZE, TILE_SIZE};
use procedural_generation::coords::Point;
use procedural_generation::messages::{PruneWorldMessage, RefreshMetadataMessage, UpdateWorldMessage};
use procedural_generation::seed::calculate_seed;
use procedural_generation::states::{AppState, GenerationState};

#[test]
fn states_start_loading_and_done() {
    assert_eq!(AppState::default(), AppState::Loading);
    assert_eq!(GenerationState::default(), GenerationState::Done);
    assert_eq!(AppState::name(), "AppState");
    assert_eq!(GenerationState::name(), "GenerationState");
}

#[test]
fn calculate_seed_combines_both_coordinates_and_the_world_seed() {
    assert_eq!(calculate_seed(Point::new_chunk_grid(0, 0), 0), 0x7fff_ffff_7fff_ffff);
    assert_eq!(calculate_seed(Point::new_chunk_grid(1, 2), 5), 0x8000_0000_8000_0006);
    assert_eq!(calculate_seed(Point::new_chunk_grid(-1, -1), 0), 0x7fff_fffe_7fff_fffe);
}

#[test]
fn calculate_seed_differs_between_neighbouring_chunks() {
    let seed = 1234;
    let centre = calculate_seed(Point::new_chunk_grid(3, 3), seed);
    for (dx, dy) in [(0, 1), (1, 0), (0, -1), (-1, 0), (1, 1)] {
        assert_ne!(calculate_seed(Point::new_chunk_grid(3 + dx, 3 + dy), seed), centre);
    }
}

#[test]
fn constants_describe_a_square_chunk_of_square_tiles() {
    assert_eq!(CHUNK_SIZE, 32);
    assert_eq!(TILE_SIZE, 32);
}

#[test]
fn messages_carry_their_fields() {
    let refresh = RefreshMetadataMessage { regenerate_world_after: true, prune_then_update_world_after: false };
    assert!(refresh.regenerate_world_after);
    let prune = PruneWorldMessage { despawn_all_chunks: false, update_world_after: true };
    assert_eq!(prune, PruneWorldMessage { despawn_all_chunks: false, update_world_after: true });
    let update = UpdateWorldMessage { is_forced_update: true, w: Point::new(1, 2), tg: Point::new(3, 4) };
    assert_eq!(update.tg, Point::new(3, 4));
}
