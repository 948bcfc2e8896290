use procedural_generation::coords::{Direction, Point};
use procedural_generation::object::cell::Cell;
use procedural_generation::object::connection::{get_connection_points, Connection};
use procedural_generation::object::entropy_index::CellEntropyIndex;
use procedural_generation::object::object_grid::ObjectGrid;
use procedural_generation::object::object_name::ObjectName;
use procedural_generation::object::permitted_object_names::PermittedObjectNames;
use procedural_generation::object::terrain::{TerrainType, TileType};
use procedural_generation::object::terrain_state::TerrainState;
use procedural_generation::random::seeded_rng;

#[test]
fn cell_new_sets_correct_ig() {
    let ig = Point::default();
    let cell = Cell::new(ig.x, ig.y);
    assert_eq!(cell.get_ig(), &ig);
}

#[test]
fn cell_add_neighbour_only_adds_unique_neighbours() {
    let mut cell = Cell::new(0, 0);
    let neighbour = Point::new_internal_grid(0, 0);
    cell.add_neighbour(neighbour);
    cell.add_neighbour(neighbour);
    assert_eq!(cell.get_neighbours().len(), 1);
}

#[test]
fn cell_add_neighbours_adds_multiple_unique_neighbours() {
    let mut cell = Cell::new(0, 0);
    let neighbour1 = Point::new_internal_grid(1, 1);
    let neighbour2 = Point::new_internal_grid(2, 2);
    let neighbours = vec![neighbour1, neighbour2, neighbour1];
    cell.add_neighbours(neighbours);
    assert_eq!(cell.get_neighbours().len(), 2);
}

#[test]
fn add_neighbours_adds_multiple_unique_neighbours_old() {
    let mut cell = Cell::new(0, 0);
    let neighbour1 = Point::new_internal_grid(1, 1);
    let neighbour2 = Point::new_internal_grid(2, 2);
    cell.add_neighbours(vec![neighbour1, neighbour2, neighbour1]);
    assert_eq!(cell.get_neighbours().len(), 2);
}

#[test]
fn set_connection_sets_and_then_updates_connection() {
    let mut cell = Cell::new(1, 1);
    let connection1 = Point::new_internal_grid(2, 2);
    cell.set_connection(&connection1);
    assert_eq!(cell.get_connection(), Some(connection1));

    let connection2 = Point::new_internal_grid(4, 8);
    cell.set_connection(&connection2);
    assert_eq!(cell.get_connection(), Some(connection2));
}

#[test]
fn opposite_of_top_is_bottom() {
    assert_eq!(Connection::Top.opposite(), Connection::Bottom);
}

#[test]
fn opposite_of_bottom_is_top() {
    assert_eq!(Connection::Bottom.opposite(), Connection::Top);
}

#[test]
fn opposite_of_right_is_left() {
    assert_eq!(Connection::Right.opposite(), Connection::Left);
}

#[test]
fn opposite_of_left_is_right() {
    assert_eq!(Connection::Left.opposite(), Connection::Right);
}

#[test]
fn opposite_twice_gives_the_connection_back() {
    for connection in [Connection::Top, Connection::Right, Connection::Bottom, Connection::Left] {
        assert_eq!(connection.opposite().opposite(), connection);
    }
}

#[test]
fn connection_points_are_top_right_bottom_left() {
    let points = get_connection_points(&Point::new_internal_grid(5, 5));
    assert_eq!(points[0], (Connection::Top, Point::new_internal_grid(5, 4)));
    assert_eq!(points[1], (Connection::Right, Point::new_internal_grid(6, 5)));
    assert_eq!(points[2], (Connection::Bottom, Point::new_internal_grid(5, 6)));
    assert_eq!(points[3], (Connection::Left, Point::new_internal_grid(4, 5)));
}

#[test]
fn set_cell_replaces_the_cell_at_matching_coordinates() {
    let mut grid = ObjectGrid::default(Point::new_chunk_grid(0, 0));
    let mut cell = Cell::new(3, 4);
    cell.mark_as_collapsed(ObjectName::PathTop);

    grid.set_cell(cell);

    assert!(grid.get_cell(&Point::new_internal_grid(3, 4)).unwrap().is_collapsed());
}

#[test]
fn get_neighbours_returns_grid_cells_and_out_of_bounds_placeholders() {
    let grid = ObjectGrid::default(Point::new_chunk_grid(0, 0));
    let cell = grid.get_cell(&Point::new_internal_grid(0, 0)).unwrap();

    let neighbours = grid.get_neighbours(cell);

    assert_eq!(neighbours.len(), 4);
    assert_eq!(neighbours[0].1.get_ig(), &Point::new_internal_grid(-1, -1));
    assert_eq!(neighbours[1].1.get_ig(), &Point::new_internal_grid(1, 0));
    assert_eq!(neighbours[2].1.get_ig(), &Point::new_internal_grid(0, 1));
    assert_eq!(neighbours[3].1.get_ig(), &Point::new_internal_grid(-1, -1));
}

#[test]
fn restore_from_snapshot_only_restores_object_cells() {
    let mut grid = ObjectGrid::default(Point::new_chunk_grid(0, 0));
    let snapshot = grid.snapshot();
    let mut cell = Cell::new(2, 2);
    cell.mark_as_collapsed(ObjectName::PathTop);
    grid.set_cell(cell);

    grid.restore_from_snapshot(&snapshot);

    assert!(!grid.get_cell(&Point::new_internal_grid(2, 2)).unwrap().is_collapsed());
}

#[test]
fn insert_keeps_every_object_and_settlement_tile_distinct() {
    let names = ObjectName::all();
    for &inserted in &names {
        let mut permitted = PermittedObjectNames::default();
        assert!(!permitted.contains(inserted));
        permitted.insert(inserted);
        permitted.insert(inserted);
        for &candidate in &names {
            assert_eq!(
                permitted.contains(candidate),
                inserted == candidate,
                "Inserted {inserted:?}, checked {candidate:?}"
            );
        }
    }
}

#[test]
fn insert_preserves_names_across_word_boundaries() {
    let mut permitted = PermittedObjectNames::default();
    let names = ObjectName::all();
    for &name in &names {
        permitted.insert(name);
    }
    for name in names {
        assert!(permitted.contains(name), "Missing {name:?}");
    }
}

#[test]
fn create_terrain_state_with_no_neighbours() {
    let terrain_state = TerrainState::new_with_no_neighbours(ObjectName::Land1IndividualObject1, 1, 10);
    assert_eq!(terrain_state.name, ObjectName::Land1IndividualObject1);
    assert_eq!(terrain_state.index, 1);
    assert_eq!(terrain_state.weight, 10);
    assert_eq!(terrain_state.permitted_neighbours.len(), 4);
    for (_, neighbours) in terrain_state.permitted_neighbours {
        assert_eq!(neighbours, vec![ObjectName::Empty]);
    }
}

fn cell_with_entropy(x: i32, entropy: usize) -> Cell {
    let states = (0..entropy)
        .map(|_| TerrainState::new_with_no_neighbours(ObjectName::Empty, 0, 1))
        .collect::<Vec<_>>();
    let mut cell = Cell::new(x, 0);
    cell.initialise(TerrainType::Any, TileType::Fill, &states);
    cell
}

#[test]
fn chooses_a_cell_from_the_lowest_non_empty_entropy_bucket() {
    let cells = vec![cell_with_entropy(0, 3), cell_with_entropy(1, 1), cell_with_entropy(2, 2)];
    let entropy_index = CellEntropyIndex::from_cells(&cells);
    let mut rng = seeded_rng(1);

    assert_eq!(entropy_index.choose_lowest_entropy_cell(&mut rng), Some(cells[1].ig));
}

#[test]
fn moves_a_cell_when_its_entropy_changes() {
    let cells = vec![cell_with_entropy(0, 1), cell_with_entropy(1, 2)];
    let mut entropy_index = CellEntropyIndex::from_cells(&cells);
    entropy_index.update(&cell_with_entropy(0, 3));
    let mut rng = seeded_rng(1);

    assert_eq!(entropy_index.choose_lowest_entropy_cell(&mut rng), Some(cells[1].ig));
}

#[test]
fn updates_the_membership_of_a_cell_moved_by_swap_remove() {
    let cells = vec![cell_with_entropy(0, 1), cell_with_entropy(1, 1), cell_with_entropy(2, 2)];
    let mut entropy_index = CellEntropyIndex::from_cells(&cells);
    entropy_index.update(&cell_with_entropy(0, 3));
    entropy_index.update(&cell_with_entropy(1, 4));
    let mut rng = seeded_rng(1);

    assert_eq!(entropy_index.choose_lowest_entropy_cell(&mut rng), Some(cells[2].ig));
}

#[test]
fn removes_a_cell_when_it_collapses() {
    let mut cell = cell_with_entropy(0, 1);
    let mut entropy_index = CellEntropyIndex::from_cells(&vec![cell.copy()]);
    let mut rng = seeded_rng(1);
    cell.collapse(&mut rng);
    entropy_index.update(&cell);

    assert_eq!(entropy_index.choose_lowest_entropy_cell(&mut rng), None);
}

#[test]
fn rebuild_replaces_all_tracked_cells() {
    let initial_cell = cell_with_entropy(0, 1);
    let replacement_cell = cell_with_entropy(1, 2);
    let mut entropy_index = CellEntropyIndex::from_cells(&vec![initial_cell]);
    entropy_index.rebuild(&vec![replacement_cell.copy()]);
    let mut rng = seeded_rng(1);

    assert_eq!(entropy_index.choose_lowest_entropy_cell(&mut rng), Some(replacement_cell.ig));
}

#[test]
fn entropy_index_of_only_collapsed_cells_is_empty() {
    let mut cell = cell_with_entropy(0, 2);
    cell.collapse_with_target(1);
    let entropy_index = CellEntropyIndex::from_cells(&vec![cell]);
    let mut rng = seeded_rng(3);
    assert_eq!(entropy_index.choose_lowest_entropy_cell(&mut rng), None);
}

#[test]
fn collapse_with_target_walks_through_the_weights() {
    let states = vec![
        TerrainState::new_with_no_neighbours(ObjectName::GrassBush1, 7, 2),
        TerrainState::new_with_no_neighbours(ObjectName::GrassBush2, 8, 3),
    ];
    let mut cell = Cell::new(0, 0);
    cell.initialise(TerrainType::Land2, TileType::Fill, &states);
    cell.collapse_with_target(2);
    assert!(cell.is_collapsed());
    assert_eq!(cell.get_entropy(), 0);
    assert_eq!(cell.get_index(), 8);
    assert_eq!(cell.get_possible_states()[0].name, ObjectName::GrassBush2);
}

#[test]
fn clone_and_reduce_keeps_only_states_the_reference_permits() {
    let states = vec![
        TerrainState::new_with_no_neighbours(ObjectName::Empty, 0, 1),
        TerrainState::new_with_no_neighbours(ObjectName::GrassBush1, 1, 1),
    ];
    let mut cell = Cell::new(1, 1);
    cell.initialise(TerrainType::Land2, TileType::Fill, &states);
    let mut reference = Cell::new(1, 0);
    reference.mark_as_collapsed(ObjectName::GrassBush2);
    let (changed, reduced) = cell.clone_and_reduce(&reference, &Connection::Top).unwrap();
    assert!(changed);
    assert_eq!(reduced.get_entropy(), 1);
    assert_eq!(reduced.get_possible_states()[0].name, ObjectName::Empty);
}

#[test]
fn clone_and_reduce_fails_when_no_state_is_left() {
    let states = vec![TerrainState::new_with_no_neighbours(ObjectName::GrassBush1, 1, 1)];
    let mut cell = Cell::new(1, 1);
    cell.initialise(TerrainType::Land2, TileType::Fill, &states);
    let mut reference = Cell::new(1, 0);
    reference.mark_as_collapsed(ObjectName::GrassBush2);
    assert!(cell.clone_and_reduce(&reference, &Connection::Top).is_err());
}

#[test]
fn verify_accepts_a_permitted_neighbour_and_rejects_another() {
    let mut empty = Cell::new(1, 1);
    empty.mark_as_collapsed(ObjectName::Empty);
    let mut bush = Cell::new(1, 1);
    bush.mark_as_collapsed(ObjectName::GrassBush1);
    let mut reference = Cell::new(1, 0);
    reference.mark_as_collapsed(ObjectName::GrassBush2);
    assert!(empty.verify(&reference, &Connection::Top).is_ok());
    assert!(bush.verify(&reference, &Connection::Top).is_err());
}

#[test]
fn object_name_indices_for_paths_and_buildings() {
    assert!(ObjectName::PathCross.is_path());
    assert!(!ObjectName::PathCross.is_building());
    assert_eq!(ObjectName::PathRight.get_index_for_path(), 32);
    assert_eq!(ObjectName::PathRight.get_sprite_index(), 32);
    assert_eq!(ObjectName::GrassBush1.get_index_for_path(), 47);
    assert!(ObjectName::ForestTree1.is_multi_tile());
    assert!(!ObjectName::GrassBush1.is_multi_tile());
    assert!(ObjectName::WheatFieldFill.is_wheat_field());
    assert!(ObjectName::PastureFill.is_pasture());
    assert!(ObjectName::PastureFill.is_field());
}

#[test]
fn object_names_round_trip_through_their_index() {
    for name in ObjectName::all() {
        assert_eq!(ObjectName::from_index(name.to_index()), Some(name));
    }
    assert_eq!(ObjectName::from_index(ObjectName::all().len()), None);
}

#[test]
fn direction_from_points_and_opposite() {
    let a = Point::new_internal_grid(3, 3);
    assert_eq!(Direction::from_points(&a, &Point::new_internal_grid(3, 1)), Direction::Top);
    assert_eq!(Direction::from_points(&a, &Point::new_internal_grid(5, 3)), Direction::Right);
    assert_eq!(Direction::from_points(&a, &Point::new_internal_grid(4, 4)), Direction::BottomRight);
    assert_eq!(Direction::from_points(&a, &a), Direction::Center);
    assert_eq!(Direction::TopLeft.to_opposite(), Direction::BottomRight);
    assert_eq!(Direction::Top.to_opposite().to_opposite(), Direction::Top);
    assert_eq!(Direction::Left.to_point(), Point::new(-1, 0));
}

#[test]
fn point_edges_and_bounds() {
    assert!(Point::new_internal_grid(0, 5).is_touching_edge());
    assert!(Point::new_internal_grid(31, 5).is_touching_edge());
    assert!(!Point::new_internal_grid(5, 5).is_touching_edge());
    assert!(Point::new_internal_grid(-1, 5).is_outside_grid());
    assert!(Point::new_internal_grid(5, 32).is_outside_grid());
    assert!(!Point::new_internal_grid(31, 31).is_outside_grid());
}

#[test]
fn calculate_total_entropy_sums_the_entropy_of_every_cell() {
    let mut grid = ObjectGrid::default(Point::new_chunk_grid(0, 0));
    // A fresh cell has the largest entropy, which becomes -1 as an `i32`.
    assert_eq!(grid.calculate_total_entropy(), -1024);
    let states = vec![
        TerrainState::new_with_no_neighbours(ObjectName::Empty, 0, 1),
        TerrainState::new_with_no_neighbours(ObjectName::GrassBush1, 1, 1),
    ];
    let mut first = Cell::new(3, 4);
    first.initialise(TerrainType::Land1, TileType::Fill, &states);
    grid.set_cell(first);
    let mut second = Cell::new(31, 31);
    second.initialise(TerrainType::Land1, TileType::Fill, &vec![states[0].copy()]);
    grid.set_cell(second);
    assert_eq!(grid.calculate_total_entropy(), -1022 + 3);
}

#[test]
fn collapsing_a_cell_with_one_state_keeps_it_and_draws_nothing() {
    let mut cell = Cell::new(1, 1);
    cell.initialise(TerrainType::Land1, TileType::Fill, &vec![TerrainState::new_with_no_neighbours(ObjectName::Empty, 0, 3)]);
    let mut rng = seeded_rng(5);
    let untouched = rng.clone();
    cell.collapse(&mut rng);
    assert!(rng == untouched);
    assert_eq!(cell.get_possible_states()[0].name, ObjectName::Empty);
    assert_eq!(cell.get_entropy(), 0);
}

#[test]
fn collapsing_never_picks_a_state_of_weight_zero() {
    for seed in 0..20 {
        let mut cell = Cell::new(1, 1);
        cell.initialise(
            TerrainType::Land1,
            TileType::Fill,
            &vec![
                TerrainState::new_with_no_neighbours(ObjectName::Empty, 0, 0),
                TerrainState::new_with_no_neighbours(ObjectName::PathCross, 1, 4),
            ],
        );
        cell.collapse(&mut seeded_rng(seed));
        assert_eq!(cell.get_possible_states()[0].name, ObjectName::PathCross);
    }
}

#[test]
fn pre_collapsed_paths_permit_only_empty_neighbours() {
    let mut cell = Cell::new(2, 2);
    cell.pre_collapse(ObjectName::PathHorizontal);
    let state = &cell.get_possible_states()[0];
    let expected = TerrainState::new_with_no_neighbours(ObjectName::PathHorizontal, state.index, 1);
    assert_eq!(state.permitted_neighbours, expected.permitted_neighbours);
    assert_eq!(state.weight, 1);
}
