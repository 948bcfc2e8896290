use procedural_generation::coords::Point;
use procedural_generation::object::cell::Cell;
use procedural_generation::object::connection::Connection;
use procedural_generation::object::object_grid::{ObjectGrid, ObjectGridSnapshot};
use procedural_generation::object::object_name::ObjectName;
use procedural_generation::object::terrain::{TerrainType, TileType};
use procedural_generation::object::terrain_state::TerrainState;
use procedural_generation::object::wfc::{
    collapse_grid, create_object_data, determine_objects_in_grid, get_cells_with_lowest_entropy, handle_failure,
    handle_success, iterate, IterationResult, ObjectData, TileData,
};
use procedural_generation::random::seeded_rng;
use procedural_generation::object::wfc::{ObjectGenerationDataComponent, ObjectGenerationStatus};
use procedural_generation::object::wfc::{is_cell_ready, is_grid_ready};

const STONE: ObjectName = ObjectName::Land1IndividualObject1;

fn state(name: ObjectName, index: i32, weight: i32, permitted: &[ObjectName]) -> TerrainState {
    let sides = [Connection::Top, Connection::Right, Connection::Bottom, Connection::Left];
    TerrainState {
        name,
        index,
        weight,
        permitted_neighbours: sides.iter().map(|side| (*side, permitted.to_vec())).collect(),
    }
}

/// Grass may be next to anything; a stone only next to grass.
fn states() -> Vec<TerrainState> {
    vec![state(ObjectName::Empty, 0, 3, &[ObjectName::Empty, STONE]), state(STONE, 7, 1, &[ObjectName::Empty])]
}

fn ready_grid() -> ObjectGrid {
    let mut grid = ObjectGrid::default(Point::new_chunk_grid(0, 0));
    grid.no_neighbours_tile.override_possible_states(vec![state(ObjectName::Empty, 0, 1, &[ObjectName::Empty, STONE])]);
    for y in 0..32 {
        for x in 0..32 {
            let mut cell = Cell::new(x, y);
            cell.initialise(TerrainType::Land1, TileType::Fill, &states());
            grid.set_cell(cell);
        }
    }
    grid
}

fn cell(grid: &ObjectGrid, x: i32, y: i32) -> &Cell {
    grid.get_cell(&Point::new_internal_grid(x, y)).unwrap()
}

fn tiles() -> Vec<TileData> {
    let mut tiles = Vec::new();
    for y in 0..32 {
        for x in 0..32 {
            tiles.push(TileData::new(99, Point::new_internal_grid(x, y)));
        }
    }
    tiles
}

#[test]
fn lowest_entropy_cells_are_the_open_cells_with_fewest_states() {
    let mut grid = ready_grid();
    let mut reduced = Cell::new(3, 4);
    reduced.initialise(TerrainType::Land1, TileType::Fill, &vec![states().remove(0)]);
    grid.set_cell(reduced);
    let mut collapsed = Cell::new(1, 1);
    collapsed.mark_as_collapsed(STONE);
    grid.set_cell(collapsed);
    assert_eq!(get_cells_with_lowest_entropy(&grid), vec![Point::new_internal_grid(3, 4)]);
    assert_eq!(get_cells_with_lowest_entropy(&ready_grid()).len(), 32 * 32);
}

#[test]
fn iterate_collapses_exactly_one_cell() {
    let mut grid = ready_grid();
    let result = iterate(&mut seeded_rng(1), &mut grid);
    assert_eq!(result, IterationResult::Incomplete);
    let collapsed = (0..32)
        .flat_map(|y| (0..32).map(move |x| (x, y)))
        .filter(|&(x, y)| cell(&grid, x, y).is_collapsed())
        .count();
    assert_eq!(collapsed, 1);
}

#[test]
fn iterate_is_done_on_a_collapsed_grid() {
    let mut grid = ObjectGrid::default(Point::new_chunk_grid(0, 0));
    for y in 0..32 {
        for x in 0..32 {
            let mut c = Cell::new(x, y);
            c.mark_as_collapsed(ObjectName::Empty);
            grid.set_cell(c);
        }
    }
    grid.no_neighbours_tile.override_possible_states(states());
    assert_eq!(iterate(&mut seeded_rng(1), &mut grid), IterationResult::Done);
}

#[test]
fn collapse_grid_collapses_every_cell_and_keeps_stones_apart() {
    let mut grid = ready_grid();
    let (completed, iterations) = collapse_grid(&mut seeded_rng(42), &mut grid, 100_000);
    assert!(completed);
    assert!(iterations < 100_000);
    let mut stones = 0;
    for y in 0..32 {
        for x in 0..32 {
            let c = cell(&grid, x, y);
            assert!(c.is_collapsed());
            assert_eq!(c.get_possible_states().len(), 1);
            if c.get_possible_states()[0].name == STONE {
                stones += 1;
                assert_eq!(c.get_index(), 7);
                for (dx, dy) in [(0, 1), (1, 0), (0, -1), (-1, 0)] {
                    if let Some(n) = grid.get_cell(&Point::new_internal_grid(x + dx, y + dy)) {
                        assert_eq!(n.get_possible_states()[0].name, ObjectName::Empty);
                    }
                }
            }
        }
    }
    assert!(stones > 0);
}

#[test]
fn collapse_grid_keeps_pre_collapsed_cells() {
    let mut grid = ready_grid();
    let mut path = Cell::new(10, 10);
    path.mark_as_collapsed(ObjectName::PathCross);
    grid.set_cell(path);
    collapse_grid(&mut seeded_rng(5), &mut grid, 100_000);
    assert_eq!(cell(&grid, 10, 10).get_possible_states()[0].name, ObjectName::PathCross);
}

#[test]
fn determine_objects_in_grid_returns_an_object_for_each_stone() {
    let mut grid = ready_grid();
    let objects = determine_objects_in_grid(&mut seeded_rng(7), &mut grid, &tiles(), true);
    let stones = (0..32)
        .flat_map(|y| (0..32).map(move |x| (x, y)))
        .filter(|&(x, y)| cell(&grid, x, y).get_possible_states()[0].name == STONE)
        .count();
    assert_eq!(objects.len(), stones);
    for object in &objects {
        assert_eq!(object.name, Some(STONE));
        assert_eq!(object.sprite_index, 7);
        assert!(!object.is_large_sprite);
        assert_eq!(object.tile_data.chunk_entity, 99);
    }
}

#[test]
fn determine_objects_in_grid_without_decoration_only_reports_pre_collapsed_cells() {
    let mut grid = ready_grid();
    let mut path = Cell::new(2, 3);
    path.mark_as_collapsed(ObjectName::PathCross);
    grid.set_cell(path);
    let objects = determine_objects_in_grid(&mut seeded_rng(7), &mut grid, &tiles(), false);
    assert_eq!(objects.len(), 1);
    assert_eq!(objects[0].name, Some(ObjectName::PathCross));
    assert_eq!(objects[0].tile_data, TileData::new(99, Point::new_internal_grid(2, 3)));
    assert!(!cell(&grid, 0, 0).is_collapsed());
}

#[test]
fn create_object_data_skips_transparent_and_outside_tiles() {
    let mut grid = ready_grid();
    let mut path = Cell::new(2, 3);
    path.mark_as_collapsed(ObjectName::PathCross);
    grid.set_cell(path);
    let mut empty = Cell::new(4, 4);
    empty.mark_as_collapsed(ObjectName::Empty);
    grid.set_cell(empty);
    let tiles = vec![
        TileData::new(1, Point::new_internal_grid(2, 3)),
        TileData::new(1, Point::new_internal_grid(4, 4)),
        TileData::new(1, Point::new_internal_grid(40, 4)),
    ];
    let objects = create_object_data(&grid, &tiles, false);
    assert_eq!(objects.len(), 1);
    let expected = ObjectData::from(cell(&grid, 2, 3), &tiles[0]);
    assert_eq!(objects[0], expected);
}

#[test]
fn handle_success_keeps_every_tenth_grid() {
    let grid = ready_grid();
    let mut snapshots: Vec<ObjectGridSnapshot> = Vec::new();
    let mut iter_count = 9;
    let mut has_entropy = true;
    let mut errors = 3;
    handle_success(&grid, &mut snapshots, &mut iter_count, &mut has_entropy, &mut errors, IterationResult::Incomplete);
    assert_eq!((snapshots.len(), iter_count, has_entropy, errors), (0, 10, true, 0));
    handle_success(&grid, &mut snapshots, &mut iter_count, &mut has_entropy, &mut errors, IterationResult::Done);
    assert_eq!((snapshots.len(), iter_count, has_entropy, errors), (1, 11, false, 0));
}

#[test]
fn handle_failure_goes_back_further_after_each_failure() {
    let mut grid = ready_grid();
    let mut snapshots = vec![grid.snapshot(), grid.snapshot(), grid.snapshot()];
    let mut collapsed = Cell::new(0, 0);
    collapsed.mark_as_collapsed(STONE);
    grid.set_cell(collapsed);
    let mut errors = 0;
    handle_failure(&mut grid, &mut snapshots, &mut errors);
    assert_eq!((errors, snapshots.len()), (1, 2));
    assert!(!cell(&grid, 0, 0).is_collapsed());
    handle_failure(&mut grid, &mut snapshots, &mut errors);
    assert_eq!((errors, snapshots.len()), (2, 0));
    handle_failure(&mut grid, &mut snapshots, &mut errors);
    assert_eq!((errors, snapshots.len()), (3, 0));
}

#[test]
fn validate_reduces_the_neighbours_of_collapsed_cells() {
    let mut grid = ready_grid();
    let mut stone = Cell::new(5, 5);
    stone.mark_as_collapsed(STONE);
    grid.set_cell(stone);
    assert!(grid.validate().is_ok());
    for (x, y) in [(5, 4), (6, 5), (5, 6), (4, 5)] {
        let names: Vec<ObjectName> = cell(&grid, x, y).get_possible_states().iter().map(|s| s.name).collect();
        assert_eq!(names, vec![ObjectName::Empty]);
        assert_eq!(cell(&grid, x, y).get_entropy(), 1);
    }
    assert_eq!(cell(&grid, 7, 7).get_possible_states().len(), 2);
    assert_eq!(cell(&grid, 5, 5).get_possible_states()[0].name, STONE);
}

#[test]
fn validate_fails_when_a_neighbour_has_no_permitted_state() {
    let mut grid = ready_grid();
    let mut lonely = Cell::new(8, 8);
    lonely.initialise(TerrainType::Land1, TileType::Fill, &vec![states().remove(1)]);
    grid.set_cell(lonely);
    let mut stone = Cell::new(8, 9);
    stone.mark_as_collapsed(STONE);
    grid.set_cell(stone);
    assert!(grid.validate().is_err());
}

#[test]
fn validate_reduces_edge_cells_against_the_placeholder() {
    let mut grid = ready_grid();
    grid.no_neighbours_tile.override_possible_states(vec![state(ObjectName::Empty, 0, 1, &[ObjectName::Empty])]);
    assert!(grid.validate().is_ok());
    for (x, y) in [(0, 0), (0, 17), (31, 5), (12, 31)] {
        let names: Vec<ObjectName> = cell(&grid, x, y).get_possible_states().iter().map(|s| s.name).collect();
        assert_eq!(names, vec![ObjectName::Empty]);
    }
    assert_eq!(cell(&grid, 1, 1).get_possible_states().len(), 2);
}

#[test]
fn validate_fails_when_an_edge_cell_has_no_state_the_placeholder_permits() {
    let mut grid = ready_grid();
    grid.no_neighbours_tile.override_possible_states(vec![state(ObjectName::Empty, 0, 1, &[ObjectName::Empty])]);
    let mut stone_only = Cell::new(0, 9);
    stone_only.initialise(TerrainType::Land1, TileType::Fill, &vec![states().remove(1)]);
    grid.set_cell(stone_only);
    assert!(grid.validate().is_err());
}

#[test]
fn object_generation_data_starts_pending() {
    let component = ObjectGenerationDataComponent::new(ready_grid(), tiles());
    assert_eq!(component.status, ObjectGenerationStatus::Pending);
    assert_eq!(ObjectGenerationStatus::default(), ObjectGenerationStatus::Pending);
    assert_eq!(component.tile_data.len(), 1024);
}

#[test]
fn readiness_checks_states_weights_and_the_placeholder() {
    assert!(is_grid_ready(&ready_grid()));
    assert!(!is_grid_ready(&ObjectGrid::default(Point::new_chunk_grid(0, 0))));
    let mut zero_weight = Cell::new(0, 0);
    zero_weight.initialise(TerrainType::Land1, TileType::Fill, &vec![state(STONE, 7, 0, &[ObjectName::Empty])]);
    assert!(!is_cell_ready(&zero_weight));
    let mut heavy = Cell::new(0, 0);
    heavy.initialise(
        TerrainType::Land1,
        TileType::Fill,
        &vec![state(STONE, 7, i32::MAX, &[]), state(ObjectName::Empty, 0, 1, &[])],
    );
    assert!(!is_cell_ready(&heavy));
    let mut collapsed = Cell::new(0, 0);
    collapsed.mark_as_collapsed(STONE);
    assert!(is_cell_ready(&collapsed));
    assert!(!is_cell_ready(&Cell::new(0, 0)));
}

#[test]
fn collapse_grid_completes_within_one_iteration_per_open_cell_when_nothing_is_left_to_chance() {
    let only_grass = || vec![state(ObjectName::Empty, 0, 1, &[ObjectName::Empty])];
    let mut grid = ObjectGrid::default(Point::new_chunk_grid(0, 0));
    grid.no_neighbours_tile.override_possible_states(only_grass());
    for y in 0..32 {
        for x in 0..32 {
            let mut cell = Cell::new(x, y);
            cell.initialise(TerrainType::Land1, TileType::Fill, &only_grass());
            grid.set_cell(cell);
        }
    }
    assert_eq!(collapse_grid(&mut seeded_rng(3), &mut grid, 32 * 32), (true, 32 * 32));
    for y in 0..32 {
        for x in 0..32 {
            assert!(cell(&grid, x, y).is_collapsed());
            assert_eq!(cell(&grid, x, y).get_possible_states()[0].name, ObjectName::Empty);
        }
    }
}

#[test]
fn collapse_grid_uses_every_iteration_when_it_stops_short() {
    let mut grid = ready_grid();
    assert_eq!(collapse_grid(&mut seeded_rng(8), &mut grid, 10), (false, 10));
}
