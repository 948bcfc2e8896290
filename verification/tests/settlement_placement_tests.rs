use procedural_generation::constants::CHUNK_SIZE;
use procedural_generation::coords::{Direction, Point};
use procedural_generation::object::cell::Cell;
use procedural_generation::object::object_grid::ObjectGrid;
use procedural_generation::object::object_name::ObjectName;
use procedural_generation::object::terrain::{TerrainType, TileType};
use procedural_generation::random::seeded_rng;
use procedural_generation::settlement::building_template::BuildingTemplate;
use procedural_generation::settlement::field_shapes::FieldShape;
use procedural_generation::settlement::settlement_generation::place_settlement_on_grid;
use rand::rngs::StdRng;
use std::collections::HashSet;

/// The settings and metadata that the settlement of a test chunk depends on.
struct TestSettings {
    generate_paths: bool,
    generate_settlements: bool,
    is_settled: bool,
}

fn medium_house(id: &str, connection_direction: Direction, door: Point) -> BuildingTemplate {
    let roof = vec![
        vec![ObjectName::HouseMediumRoofLeft1, ObjectName::HouseMediumRoofLeft2, ObjectName::HouseMediumRoofLeft3],
        vec![ObjectName::HouseMediumRoofMiddle1, ObjectName::HouseMediumRoofMiddle2],
        vec![ObjectName::HouseMediumRoofRight1, ObjectName::HouseMediumRoofRight2],
    ];
    let walls = vec![
        vec![ObjectName::HouseMediumDoorLeft1, ObjectName::HouseMediumDoorLeft2],
        vec![ObjectName::HouseMediumDoorMiddle],
        vec![ObjectName::HouseMediumDoorRight1, ObjectName::HouseMediumDoorRight2],
    ];
    BuildingTemplate::new(id.to_string(), 3, 2, vec![roof, walls], door, connection_direction)
}

fn rectangle(width: i32, height: i32) -> Vec<(i32, i32)> {
    let mut tiles = Vec::new();
    for y in 0..height {
        for x in 0..width {
            tiles.push((x, y));
        }
    }
    tiles
}

/// An L of two full rows of eight tiles over two rows of three tiles.
fn wide_l_shape() -> Vec<(i32, i32)> {
    let mut tiles = rectangle(8, 2);
    for y in 2..4 {
        for x in 0..3 {
            tiles.push((x, y));
        }
    }
    tiles
}

fn building_templates() -> Vec<BuildingTemplate> {
    vec![
        medium_house("medium_house_facing_north", Direction::Bottom, Point::new_internal_grid(1, 1)),
        medium_house("medium_house_facing_south", Direction::Top, Point::new_internal_grid(1, 0)),
    ]
}

fn field_shapes() -> Vec<FieldShape> {
    vec![FieldShape::new(rectangle(4, 3)), FieldShape::new(rectangle(8, 2)), FieldShape::new(wide_l_shape())]
}

fn initialise_land(cell: &mut Cell, terrain: TerrainType) {
    cell.initialise(terrain, TileType::Fill, &Vec::new());
}

fn test_settlement(width: i32) -> (ObjectGrid, TestSettings) {
    let mut grid = ObjectGrid::default(Point::new_chunk_grid(0, 0));
    for y in 2..10 {
        for x in 1..width {
            initialise_land(grid.get_cell_mut(&Point::new_internal_grid(x, y)).unwrap(), TerrainType::Land2);
        }
    }
    let path: Vec<Point> = (1..width).map(|x| Point::new_internal_grid(x, 6)).collect();
    for point in &path {
        grid.get_cell_mut(point).unwrap().mark_as_collapsed(ObjectName::PathHorizontal);
    }
    grid.set_generated_path(path);
    (grid, TestSettings { generate_paths: true, generate_settlements: true, is_settled: true })
}

fn object_names(grid: &ObjectGrid) -> Vec<ObjectName> {
    let mut names = Vec::new();
    for y in 0..CHUNK_SIZE {
        for x in 0..CHUNK_SIZE {
            if let Some(state) = grid.get_cell(&Point::new_internal_grid(x, y)).unwrap().get_possible_states().first() {
                names.push(state.name);
            }
        }
    }
    names
}

/// Places a settlement along every point of the generated path, as a settlement density of one does.
fn place_test_settlement(grid: &mut ObjectGrid, settings: &TestSettings, rng: &mut StdRng) {
    let sampled_path_points = grid.get_generated_path().clone();
    place_settlement_on_grid(
        grid,
        settings.generate_paths,
        settings.generate_settlements,
        settings.is_settled,
        &Vec::new(),
        &sampled_path_points,
        &building_templates(),
        &field_shapes(),
        rng,
    );
}

fn first_name(grid: &ObjectGrid, point: &Point) -> ObjectName {
    grid.get_cell(point).unwrap().get_possible_states()[0].name
}

#[test]
fn place_settlement_on_grid_small_settlement_includes_a_field() {
    let (mut grid, settings) = test_settlement(8);
    place_test_settlement(&mut grid, &settings, &mut seeded_rng(7));
    let field_tiles = object_names(&grid).iter().filter(|name| name.is_field()).count();
    assert!((12..=24).contains(&field_tiles));
}

#[test]
fn place_settlement_on_grid_respects_generation_switches_and_unsettled_chunks() {
    for disabled in 0..3 {
        let (mut grid, mut settings) = test_settlement(16);
        match disabled {
            0 => settings.generate_settlements = false,
            1 => settings.generate_paths = false,
            _ => settings.is_settled = false,
        }
        let before = object_names(&grid);
        place_test_settlement(&mut grid, &settings, &mut seeded_rng(7));
        assert_eq!(object_names(&grid), before);
    }
}

#[test]
fn place_settlement_on_grid_is_repeatable_despite_path_insertion_order() {
    let (mut first, settings) = test_settlement(16);
    let (mut second, _) = test_settlement(16);
    second.set_generated_path((1..16).rev().map(|x| Point::new_internal_grid(x, 6)).collect());
    place_test_settlement(&mut first, &settings, &mut seeded_rng(42));
    place_test_settlement(&mut second, &settings, &mut seeded_rng(42));
    assert_eq!(object_names(&first), object_names(&second));
}

#[test]
fn place_settlement_on_grid_preserves_existing_objects_with_fields() {
    for seed in 0..20 {
        let (mut grid, settings) = test_settlement(16);
        let obstacle = Point::new_internal_grid(7, 4);
        grid.get_cell_mut(&obstacle).unwrap().mark_as_collapsed(ObjectName::HouseSmallWallLeft);
        place_test_settlement(&mut grid, &settings, &mut seeded_rng(seed));
        assert_eq!(first_name(&grid, &obstacle), ObjectName::HouseSmallWallLeft);
        let names = object_names(&grid);
        assert!(names.iter().any(ObjectName::is_wheat_field));
        assert!(names.iter().any(ObjectName::is_pasture));
    }
}

#[test]
fn place_settlement_on_grid_cramped_site_never_places_partial_fields() {
    let (mut grid, settings) = test_settlement(3);
    place_test_settlement(&mut grid, &settings, &mut seeded_rng(7));
    assert!(!object_names(&grid).iter().any(ObjectName::is_field));
}

#[test]
fn place_settlement_on_grid_medium_settlement_has_wheat_fields_and_pastures() {
    let (mut grid, settings) = test_settlement(11);
    place_test_settlement(&mut grid, &settings, &mut seeded_rng(7));
    let names = object_names(&grid);
    assert!(names.iter().any(ObjectName::is_wheat_field));
    assert!(names.iter().any(ObjectName::is_pasture));
}

#[test]
fn place_settlement_on_grid_large_settlement_has_fields_and_buildings() {
    let (mut grid, settings) = test_settlement(16);
    place_test_settlement(&mut grid, &settings, &mut seeded_rng(7));
    let names = object_names(&grid);
    assert!(names.iter().any(ObjectName::is_wheat_field));
    assert!(names.iter().any(ObjectName::is_pasture));
    assert!(names.iter().any(ObjectName::is_building));
    for point in grid.get_generated_path() {
        assert!(first_name(&grid, point).is_path());
    }
}

#[test]
fn fields_avoid_existing_objects_and_elevation_changes() {
    for seed in 0..20 {
        let (mut grid, settings) = test_settlement(16);
        let obstacle = Point::new_internal_grid(7, 4);
        grid.get_cell_mut(&obstacle).unwrap().mark_as_collapsed(ObjectName::HouseSmallWallLeft);
        let raised = grid.get_cell_mut(&Point::new_internal_grid(8, 4)).unwrap();
        *raised = Cell::new(8, 4);
        initialise_land(raised, TerrainType::Land3);
        place_test_settlement(&mut grid, &settings, &mut seeded_rng(seed));
        assert_eq!(first_name(&grid, &obstacle), ObjectName::HouseSmallWallLeft);
        let mut field_count = 0;
        for y in 0..CHUNK_SIZE {
            for x in 0..CHUNK_SIZE {
                let cell = grid.get_cell(&Point::new_internal_grid(x, y)).unwrap();
                if cell.get_possible_states().first().is_some_and(|state| state.name.is_field()) {
                    field_count += 1;
                    assert_eq!(cell.terrain(), TerrainType::Land2);
                }
            }
        }
        assert!(field_count >= 12);
    }
}

#[test]
fn fields_vary_in_size_and_open_onto_the_path() {
    let sides = [(0, -1), (1, 0), (0, 1), (-1, 0)];
    let mut areas = HashSet::new();
    let mut field_sides = HashSet::new();
    let mut has_non_rectangular = false;
    for seed in 0..80 {
        let (mut grid, settings) = test_settlement(12);
        place_test_settlement(&mut grid, &settings, &mut seeded_rng(seed));
        let is_wheat_field = object_names(&grid).into_iter().find(ObjectName::is_field).unwrap().is_wheat_field();
        let mut cells: Vec<(Point, ObjectName)> = Vec::new();
        for y in 0..CHUNK_SIZE {
            for x in 0..CHUNK_SIZE {
                let point = Point::new_internal_grid(x, y);
                if let Some(state) = grid.get_cell(&point).unwrap().get_possible_states().first() {
                    let name = state.name;
                    if (is_wheat_field && name.is_wheat_field()) || (!is_wheat_field && name.is_pasture()) {
                        cells.push((point, name));
                    }
                }
            }
        }
        assert!((12..=24).contains(&cells.len()));
        areas.insert(cells.len());
        let positions: HashSet<(i32, i32)> = cells.iter().map(|(point, _)| (point.x, point.y)).collect();
        let width = positions.iter().map(|p| p.0).max().unwrap() - positions.iter().map(|p| p.0).min().unwrap() + 1;
        let height = positions.iter().map(|p| p.1).max().unwrap() - positions.iter().map(|p| p.1).min().unwrap() + 1;
        has_non_rectangular |= cells.len() < (width * height) as usize;
        let start = (cells[0].0.x, cells[0].0.y);
        let mut reached = HashSet::from([start]);
        let mut frontier = vec![start];
        while let Some(point) = frontier.pop() {
            for (dx, dy) in sides {
                let neighbour = (point.0 + dx, point.1 + dy);
                if positions.contains(&neighbour) && reached.insert(neighbour) {
                    frontier.push(neighbour);
                }
            }
        }
        assert_eq!(reached, positions);

        let mut path_edges: Vec<(usize, ObjectName)> = Vec::new();
        for (point, name) in &cells {
            for (side, (dx, dy)) in sides.iter().enumerate() {
                let neighbour = Point::new_internal_grid(point.x + dx, point.y + dy);
                if grid.get_generated_path().contains(&neighbour) {
                    path_edges.push((side, *name));
                }
            }
        }
        assert!(!path_edges.is_empty());
        // The entrance is the one fill tile of the fence, and it borders the road.
        assert!(path_edges.iter().any(|(_, name)| matches!(name, ObjectName::WheatFieldFill | ObjectName::PastureFill)));
        field_sides.extend(path_edges.into_iter().map(|(side, _)| side));
    }
    assert!(areas.len() >= 3, "Expected several field sizes, found {areas:?}");
    assert!(has_non_rectangular, "Expected an L-shaped field");
    assert!(field_sides.len() >= 2, "Expected fields on both sides of the road");
}
