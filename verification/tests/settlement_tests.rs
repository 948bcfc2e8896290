use procedural_generation::coords::{Direction, Point};
use procedural_generation::object::cell::Cell;
use procedural_generation::object::object_grid::ObjectGrid;
use procedural_generation::object::object_name::ObjectName;
use procedural_generation::object::terrain::{TerrainType, TileType};
use procedural_generation::random::seeded_rng;
use procedural_generation::settlement::building_template::BuildingTemplate;
use procedural_generation::settlement::buildings::{estimated_building_capacity, place_buildings, select_fitting_building};
use procedural_generation::settlement::field_shapes::{
    absolute_tiles, classify_tile, entrances, layout_from_entrance, outside, rotations, FieldShape, FieldType,
    TileShape,
};
use procedural_generation::settlement::fields::{layouts, permitted_field_types, place_fields};
use procedural_generation::settlement::point_set::PointSet;
use procedural_generation::settlement::registry::{
    BuildingComponentRegistry, BuildingType, Level, StructureType, Variants,
};
use procedural_generation::settlement::road::{determine_updated_object_name, update_path_in_front_of_entrance};
use procedural_generation::settlement::settlement_generation::{
    add_valid_connection_points, clean_up_path_points, compute_available_space_map, place_settlement_on_grid,
};
use procedural_generation::settlement::fields::is_usable;
use procedural_generation::settlement::buildings::all_templates_valid;
use procedural_generation::settlement::road::connects_somewhere;
use procedural_generation::settlement::settlement_generation::are_settlement_points_joinable;

fn medium_house(id: &str, connection_direction: Direction, door: Point) -> BuildingTemplate {
    let roof = vec![
        vec![ObjectName::HouseMediumRoofLeft1, ObjectName::HouseMediumRoofLeft2, ObjectName::HouseMediumRoofLeft3],
        vec![ObjectName::HouseMediumRoofMiddle1, ObjectName::HouseMediumRoofMiddle2],
        vec![ObjectName::HouseMediumRoofRight1, ObjectName::HouseMediumRoofRight2],
    ];
    let walls = vec![
        vec![ObjectName::HouseMediumDoorLeft1, ObjectName::HouseMediumDoorLeft2],
        vec![ObjectName::HouseMediumDoorMiddle],
        vec![ObjectName::HouseMediumDoorRight1, ObjectName::HouseMediumDoorRight2],
    ];
    BuildingTemplate::new(id.to_string(), 3, 2, vec![roof, walls], door, connection_direction)
}

fn template(id: &str) -> BuildingTemplate {
    match id {
        "medium_house_facing_north" => medium_house(id, Direction::Bottom, Point::new_internal_grid(1, 1)),
        "medium_house_facing_south" => medium_house(id, Direction::Top, Point::new_internal_grid(1, 0)),
        _ => panic!("Unknown template {id}"),
    }
}

fn rectangle(width: i32, height: i32) -> Vec<(i32, i32)> {
    let mut tiles = Vec::new();
    for y in 0..height {
        for x in 0..width {
            tiles.push((x, y));
        }
    }
    tiles
}

fn collapsed_cell(x: i32, y: i32, name: ObjectName) -> Cell {
    let mut cell = Cell::new(x, y);
    cell.mark_as_collapsed(name);
    cell
}

/// A grid of initialised land fill cells with a straight horizontal road along row `road_y`.
fn land_grid_with_road(road_y: i32) -> ObjectGrid {
    let mut grid = ObjectGrid::default(Point::new_chunk_grid(0, 0));
    for y in 0..32 {
        for x in 0..32 {
            let mut cell = Cell::new(x, y);
            cell.initialise(TerrainType::Land1, TileType::Fill, &Vec::new());
            if y == road_y {
                cell.mark_as_collapsed(ObjectName::PathHorizontal);
            }
            grid.set_cell(cell);
        }
    }
    grid
}

fn road_points(road_y: i32) -> Vec<Point> {
    (0..32).map(|x| Point::new_internal_grid(x, road_y)).collect()
}

fn first_state(grid: &ObjectGrid, x: i32, y: i32) -> ObjectName {
    grid.get_cell(&Point::new_internal_grid(x, y)).unwrap().get_possible_states()[0].name
}

#[test]
fn calculate_origin_ig_from_connection_point_correctly_calculates_origin() {
    let origin =
        template("medium_house_facing_north").calculate_origin_ig_from_connection_point(Point::new_internal_grid(5, 5));

    assert_eq!(origin, Point::new_internal_grid(4, 3));
}

#[test]
fn calculate_origin_ig_from_absolute_door_correctly_calculates_origin() {
    let origin =
        template("medium_house_facing_north").calculate_origin_ig_from_absolute_door(Point::new_internal_grid(6, 6));

    assert_eq!(origin, Point::new_internal_grid(5, 5));
}

#[test]
fn calculate_absolute_door_ig_correctly_calculates_door_position() {
    let door = template("medium_house_facing_north").calculate_absolute_door_ig(Point::new_internal_grid(5, 5));

    assert_eq!(door, Point::new_internal_grid(5, 4));
}

#[test]
fn is_placeable_at_path_returns_true_for_valid_placement() {
    let template = template("medium_house_facing_north");
    let mut available_space = PointSet::new();
    for y in 3..5 {
        for x in 4..7 {
            available_space.insert(&Point::new_internal_grid(x, y));
        }
    }

    assert!(template.is_placeable_at_path(Point::new_internal_grid(5, 5), &available_space));
}

#[test]
fn is_placeable_at_path_returns_false_for_out_of_bounds() {
    assert!(!template("medium_house_facing_north").is_placeable_at_path(Point::new_internal_grid(-1, -1), &PointSet::new()));
}

#[test]
fn is_placeable_at_path_returns_false_if_space_is_unavailable() {
    assert!(!template("medium_house_facing_north").is_placeable_at_path(Point::new_internal_grid(5, 5), &PointSet::new()));
}

#[test]
fn is_placeable_at_path_needs_every_tile_of_the_building() {
    let template = template("medium_house_facing_north");
    let mut available_space = PointSet::new();
    for y in 3..5 {
        for x in 4..7 {
            if (x, y) != (6, 3) {
                available_space.insert(&Point::new_internal_grid(x, y));
            }
        }
    }

    assert!(!template.is_placeable_at_path(Point::new_internal_grid(5, 5), &available_space));
}

#[test]
fn generate_tiles_creates_configured_layout() {
    let tiles = template("medium_house_facing_north").generate_tiles(&mut seeded_rng(42));

    assert_eq!(tiles.len(), 2);
    assert_eq!(tiles[0].len(), 3);
    assert!(matches!(
        tiles[0][0],
        ObjectName::HouseMediumRoofLeft1 | ObjectName::HouseMediumRoofLeft2 | ObjectName::HouseMediumRoofLeft3
    ));
    assert!(matches!(tiles[1][1], ObjectName::HouseMediumDoorMiddle));
}

#[test]
fn rotations_include_all_four_orientations() {
    let shape = vec![(0, 0), (1, 0), (0, 1)];

    assert_eq!(
        rotations(&shape),
        vec![
            vec![(0, 0), (1, 0), (0, 1)],
            vec![(0, 0), (0, 1), (-1, 0)],
            vec![(0, 0), (-1, 0), (0, -1)],
            vec![(0, 0), (0, -1), (1, 0)],
        ]
    );
}

#[test]
fn layouts_mark_the_boundary_tile_next_to_the_road_as_the_entrance() {
    let shapes = vec![FieldShape::new(rectangle(3, 3)), FieldShape::new(rectangle(4, 2)), l_shape()];
    let result = layouts(&mut seeded_rng(7), &shapes);
    assert!(!result.is_empty());
    for layout in result {
        assert!(layout.tiles.contains(&(layout.entrance, TileShape::Fill)));
        assert_eq!(layout.entrance.x.abs() + layout.entrance.y.abs(), 1);
    }
}

fn l_shape() -> FieldShape {
    FieldShape::new(vec![(0, 0), (1, 0), (2, 0), (0, 1), (1, 1), (2, 1), (0, 2), (1, 2), (0, 3), (1, 3)])
}

fn all_tile_shapes() -> [TileShape; 13] {
    [
        TileShape::Fill,
        TileShape::EdgeTop,
        TileShape::EdgeRight,
        TileShape::EdgeBottom,
        TileShape::EdgeLeft,
        TileShape::OuterCornerTopLeft,
        TileShape::OuterCornerTopRight,
        TileShape::OuterCornerBottomRight,
        TileShape::OuterCornerBottomLeft,
        TileShape::InnerCornerTopLeft,
        TileShape::InnerCornerTopRight,
        TileShape::InnerCornerBottomRight,
        TileShape::InnerCornerBottomLeft,
    ]
}

#[test]
fn field_type_maps_every_tile_shape_to_its_own_artwork() {
    for tile_shape in all_tile_shapes() {
        assert!(FieldType::Wheat.object_name(tile_shape).is_wheat_field());
        assert!(FieldType::Pasture.object_name(tile_shape).is_pasture());
    }
}

#[test]
fn field_type_gives_distinct_artwork_for_distinct_tile_shapes() {
    let shapes = all_tile_shapes();
    for a in 0..shapes.len() {
        for b in 0..shapes.len() {
            if a != b {
                assert_ne!(FieldType::Wheat.object_name(shapes[a]), FieldType::Wheat.object_name(shapes[b]));
            }
        }
    }
    assert_eq!(FieldType::Wheat.object_name(TileShape::EdgeTop), ObjectName::WheatFieldSideTop);
    assert_eq!(FieldType::Pasture.object_name(TileShape::Fill), ObjectName::PastureFill);
}

#[test]
fn permitted_field_types_follow_housing_capacity() {
    let mut rng = seeded_rng(7);

    assert!(permitted_field_types(&mut rng, 0).is_empty());
    assert_eq!(permitted_field_types(&mut rng, 1).len(), 1);
    assert_eq!(permitted_field_types(&mut rng, 3), vec![FieldType::Wheat, FieldType::Pasture]);
}

#[test]
fn classify_tile_can_classify_every_field_shape() {
    for shape in [FieldShape::new(rectangle(3, 3)), FieldShape::new(rectangle(5, 3)), l_shape()] {
        for &(x, y) in shape.tiles() {
            classify_tile(shape.tiles(), x, y);
        }
    }
}

#[test]
fn classify_tile_maps_fill_edges_and_outer_corners() {
    let shape = rectangle(4, 4);
    assert_eq!(classify_tile(&shape, 1, 1), TileShape::Fill);
    assert_eq!(classify_tile(&shape, 1, 0), TileShape::EdgeTop);
    assert_eq!(classify_tile(&shape, 3, 1), TileShape::EdgeRight);
    assert_eq!(classify_tile(&shape, 1, 3), TileShape::EdgeBottom);
    assert_eq!(classify_tile(&shape, 0, 1), TileShape::EdgeLeft);
    assert_eq!(classify_tile(&shape, 0, 0), TileShape::OuterCornerTopLeft);
    assert_eq!(classify_tile(&shape, 3, 0), TileShape::OuterCornerTopRight);
    assert_eq!(classify_tile(&shape, 3, 3), TileShape::OuterCornerBottomRight);
    assert_eq!(classify_tile(&shape, 0, 3), TileShape::OuterCornerBottomLeft);
}

#[test]
fn classify_tile_maps_fill_sides_and_outer_corners() {
    let shape = rectangle(4, 4);
    assert_eq!(classify_tile(&shape, 1, 1), TileShape::Fill);
    assert_eq!(classify_tile(&shape, 1, 0), TileShape::EdgeTop);
    assert_eq!(classify_tile(&shape, 3, 1), TileShape::EdgeRight);
    assert_eq!(classify_tile(&shape, 1, 3), TileShape::EdgeBottom);
    assert_eq!(classify_tile(&shape, 0, 1), TileShape::EdgeLeft);
    assert_eq!(classify_tile(&shape, 0, 0), TileShape::OuterCornerTopLeft);
    assert_eq!(classify_tile(&shape, 3, 0), TileShape::OuterCornerTopRight);
    assert_eq!(classify_tile(&shape, 3, 3), TileShape::OuterCornerBottomRight);
    assert_eq!(classify_tile(&shape, 0, 3), TileShape::OuterCornerBottomLeft);
}

#[test]
fn fields_classify_tile_maps_each_missing_diagonal_to_an_inner_corner() {
    let cases = [
        ((0, 0), TileShape::InnerCornerTopLeft),
        ((2, 0), TileShape::InnerCornerTopRight),
        ((2, 2), TileShape::InnerCornerBottomRight),
        ((0, 2), TileShape::InnerCornerBottomLeft),
    ];
    for (missing, expected) in cases {
        let mut shape = rectangle(3, 3);
        shape.retain(|point| *point != missing);
        assert_eq!(classify_tile(&shape, 1, 1), expected);
    }
}

#[test]
fn layouts_use_only_the_thirteen_modular_tiles() {
    let shapes = vec![FieldShape::new(rectangle(3, 3)), l_shape()];
    let names: Vec<ObjectName> = layouts(&mut seeded_rng(7), &shapes)
        .iter()
        .flat_map(|layout| layout.tiles.iter())
        .map(|(_, tile_shape)| FieldType::Wheat.object_name(*tile_shape))
        .collect();
    let modular: Vec<ObjectName> = all_tile_shapes().iter().map(|s| FieldType::Wheat.object_name(*s)).collect();

    assert_eq!(modular.len(), 13);
    assert!(names.iter().all(|name| modular.contains(name)));
}

#[test]
fn outside_lists_the_open_sides_of_a_tile() {
    let shape = rectangle(3, 3);
    assert_eq!(outside(&shape, 0, 0), vec![Direction::Top, Direction::Left]);
    assert!(outside(&shape, 1, 1).is_empty());
    assert_eq!(outside(&shape, 1, 2), vec![Direction::Bottom]);
}

#[test]
fn entrances_are_the_middle_tiles_of_each_side() {
    let candidates = entrances(&rectangle(3, 3));
    for (tile, direction) in &candidates {
        assert_eq!(outside(&rectangle(3, 3), tile.0, tile.1), vec![*direction]);
    }
    assert!(candidates.contains(&((1, 0), Direction::Top)));
    assert!(candidates.contains(&((2, 1), Direction::Right)));
    assert!(candidates.contains(&((1, 2), Direction::Bottom)));
    assert!(candidates.contains(&((0, 1), Direction::Left)));
    assert_eq!(candidates.len(), 4);
}

#[test]
fn layout_from_entrance_places_the_road_at_the_origin() {
    let layout = layout_from_entrance(&rectangle(3, 3), (1, 0), Direction::Top);
    assert_eq!(layout.entrance, Point::new(0, 1));
    assert_eq!(layout.tiles.len(), 9);
    assert!(layout.tiles.contains(&(Point::new(0, 1), TileShape::Fill)));
    assert!(layout.tiles.contains(&(Point::new(-1, 1), TileShape::OuterCornerTopLeft)));
    assert!(layout.tiles.contains(&(Point::new(1, 3), TileShape::OuterCornerBottomRight)));
    let tiles = absolute_tiles(&layout, Point::new_internal_grid(10, 10), FieldType::Pasture);
    assert!(tiles.contains(&(Point::new_internal_grid(10, 11), ObjectName::PastureFill)));
    assert!(tiles.contains(&(Point::new_internal_grid(9, 11), ObjectName::PastureOuterCornerTopLeft)));
}

#[test]
fn road_connection_adds_only_the_requested_cardinal_branch() {
    // Indices encode Top=1, Right=2, Bottom=4, Left=8.
    let paths = [
        ObjectName::PathUndefined,
        ObjectName::PathTop,
        ObjectName::PathRight,
        ObjectName::PathTopRight,
        ObjectName::PathBottom,
        ObjectName::PathVertical,
        ObjectName::PathBottomRight,
        ObjectName::PathRightVertical,
        ObjectName::PathLeft,
        ObjectName::PathTopLeft,
        ObjectName::PathHorizontal,
        ObjectName::PathTopHorizontal,
        ObjectName::PathBottomLeft,
        ObjectName::PathLeftVertical,
        ObjectName::PathBottomHorizontal,
        ObjectName::PathCross,
    ];
    let point = Point::new_internal_grid(5, 5);
    for mask in 1..paths.len() {
        for (bit, dx, dy) in [(1, 0, -1), (2, 1, 0), (4, 0, 1), (8, -1, 0)] {
            let cell = collapsed_cell(5, 5, paths[mask]);
            let entrance = Point::new_internal_grid(point.x + dx, point.y + dy);
            assert_eq!(
                determine_updated_object_name(&cell, &point, &entrance),
                paths[mask | bit],
                "Road {:?}, direction ({dx}, {dy})",
                paths[mask]
            );
        }
    }
}

#[test]
fn connecting_an_already_connected_road_does_not_add_spurs() {
    let point = Point::new_internal_grid(5, 5);
    let entrance = Point::new_internal_grid(5, 4);
    for name in [ObjectName::PathTop, ObjectName::PathTopHorizontal, ObjectName::PathCross] {
        let cell = collapsed_cell(5, 5, name);
        assert_eq!(determine_updated_object_name(&cell, &point, &entrance), name);
    }
}

#[test]
fn road_connection_of_a_cell_that_is_not_a_road_is_undefined() {
    let point = Point::new_internal_grid(5, 5);
    let entrance = Point::new_internal_grid(5, 4);
    assert_eq!(determine_updated_object_name(&Cell::new(5, 5), &point, &entrance), ObjectName::PathUndefined);
    let house = collapsed_cell(5, 5, ObjectName::HouseMediumWallLeft);
    assert_eq!(determine_updated_object_name(&house, &point, &entrance), ObjectName::PathUndefined);
}

#[test]
fn update_path_in_front_of_entrance_joins_the_road_to_the_door() {
    let mut grid = land_grid_with_road(10);
    update_path_in_front_of_entrance(&Point::new_internal_grid(4, 10), &Point::new_internal_grid(4, 9), &mut grid);
    assert_eq!(first_state(&grid, 4, 10), ObjectName::PathTopHorizontal);
    assert_eq!(first_state(&grid, 5, 10), ObjectName::PathHorizontal);
    update_path_in_front_of_entrance(&Point::new_internal_grid(4, 10), &Point::new_internal_grid(4, 11), &mut grid);
    assert_eq!(first_state(&grid, 4, 10), ObjectName::PathCross);
}

#[test]
fn point_set_holds_inserted_points_only() {
    let mut set = PointSet::new();
    let p = Point::new_internal_grid(3, 4);
    assert!(!set.contains(&p));
    set.insert(&p);
    assert!(set.contains(&p));
    assert!(!set.contains(&Point::new_internal_grid(4, 3)));
    assert!(!set.contains(&Point::new_internal_grid(-1, 0)));
    let copy = set.copy();
    assert!(copy.contains(&p));
}

#[test]
fn available_space_is_every_free_land_fill_tile() {
    let grid = land_grid_with_road(10);
    let available = compute_available_space_map(&grid);
    assert!(available.contains(&Point::new_internal_grid(0, 0)));
    assert!(available.contains(&Point::new_internal_grid(31, 31)));
    assert!(!available.contains(&Point::new_internal_grid(3, 10)));
    assert!(!available.contains(&Point::new_internal_grid(32, 0)));
}

#[test]
fn clean_up_path_points_keeps_sorted_unique_road_points() {
    let grid = land_grid_with_road(10);
    let mut points = vec![
        Point::new_internal_grid(7, 10),
        Point::new_internal_grid(2, 10),
        Point::new_internal_grid(7, 10),
        Point::new_internal_grid(2, 3),
        Point::new_internal_grid(40, 10),
    ];
    clean_up_path_points(&mut points, &grid);
    assert_eq!(points, vec![Point::new_internal_grid(2, 10), Point::new_internal_grid(7, 10)]);
}

#[test]
fn add_valid_connection_points_drops_edge_points_when_there_are_several() {
    let mut points = vec![Point::new_internal_grid(5, 5)];
    add_valid_connection_points(
        &mut points,
        &vec![Point::new_internal_grid(0, 10), Point::new_internal_grid(10, 10), Point::new_internal_grid(31, 4)],
    );
    assert_eq!(points, vec![Point::new_internal_grid(5, 5), Point::new_internal_grid(10, 10)]);

    let mut single = Vec::new();
    add_valid_connection_points(&mut single, &vec![Point::new_internal_grid(0, 10)]);
    assert_eq!(single, vec![Point::new_internal_grid(0, 10)]);
}

#[test]
fn select_fitting_building_only_returns_a_template_that_fits() {
    let grid = land_grid_with_road(10);
    let available = compute_available_space_map(&grid);
    let templates = vec![template("medium_house_facing_north"), template("medium_house_facing_south")];
    let selected = select_fitting_building(
        &templates,
        Point::new_internal_grid(5, 10),
        &available,
        &PointSet::new(),
        &mut seeded_rng(3),
    );
    assert!(selected.is_some());

    let none = select_fitting_building(
        &templates,
        Point::new_internal_grid(5, 10),
        &PointSet::new(),
        &PointSet::new(),
        &mut seeded_rng(3),
    );
    assert!(none.is_none());
}

#[test]
fn estimated_building_capacity_is_zero_without_space() {
    let templates = vec![template("medium_house_facing_north")];
    let capacity = estimated_building_capacity(&road_points(10), &PointSet::new(), PointSet::new(), &templates);
    assert_eq!(capacity, 0);

    let grid = land_grid_with_road(10);
    let available = compute_available_space_map(&grid);
    let capacity = estimated_building_capacity(&road_points(10), &available, PointSet::new(), &templates);
    assert!(capacity >= 1);
    assert!(capacity <= 32);
}

#[test]
fn place_buildings_keeps_the_road_and_builds_beside_it() {
    let mut grid = land_grid_with_road(10);
    let available = compute_available_space_map(&grid);
    let templates = vec![template("medium_house_facing_north"), template("medium_house_facing_south")];
    let mut occupied = PointSet::new();
    let placed = place_buildings(&mut grid, &road_points(10), &available, &templates, &mut occupied, &mut seeded_rng(5));
    assert!(placed >= 1);
    for x in 0..32 {
        assert!(first_state(&grid, x, 10).is_path());
    }
    let buildings = (0..32)
        .flat_map(|y| (0..32).map(move |x| (x, y)))
        .filter(|&(x, y)| grid.get_cell(&Point::new_internal_grid(x, y)).unwrap().is_collapsed())
        .filter(|&(x, y)| first_state(&grid, x, y).is_building())
        .count();
    assert!(buildings >= 6);
}

#[test]
fn place_fields_keeps_the_road() {
    let mut grid = land_grid_with_road(10);
    let available = compute_available_space_map(&grid);
    let templates = vec![template("medium_house_facing_north")];
    let shapes = vec![FieldShape::new(rectangle(3, 3)), l_shape()];
    let mut occupied = PointSet::new();
    let placed =
        place_fields(&mut grid, &road_points(10), &available, &templates, &shapes, &mut occupied, &mut seeded_rng(9));
    assert!(placed <= 2);
    for x in 0..32 {
        assert!(first_state(&grid, x, 10).is_path());
    }
}

#[test]
fn place_settlement_on_grid_respects_generation_switches() {
    let templates = vec![template("medium_house_facing_north")];
    let shapes = vec![FieldShape::new(rectangle(3, 3))];
    for (paths, settlements, settled) in [(false, true, true), (true, false, true), (true, true, false)] {
        let mut grid = land_grid_with_road(10);
        place_settlement_on_grid(
            &mut grid,
            paths,
            settlements,
            settled,
            &Vec::new(),
            &road_points(10),
            &templates,
            &shapes,
            &mut seeded_rng(16),
        );
        let untouched = (0..32).all(|y| {
            (0..32).all(|x| {
                let cell = grid.get_cell(&Point::new_internal_grid(x, y)).unwrap();
                if y == 10 {
                    cell.get_possible_states()[0].name == ObjectName::PathHorizontal
                } else {
                    !cell.is_collapsed()
                }
            })
        });
        assert!(untouched);
    }
}

#[test]
fn place_settlement_on_grid_builds_along_the_road() {
    let templates = vec![template("medium_house_facing_north"), template("medium_house_facing_south")];
    let shapes = vec![FieldShape::new(rectangle(3, 3)), l_shape()];
    let mut grid = land_grid_with_road(10);
    place_settlement_on_grid(
        &mut grid,
        true,
        true,
        true,
        &Vec::new(),
        &road_points(10),
        &templates,
        &shapes,
        &mut seeded_rng(42),
    );
    let mut buildings = 0;
    for y in 0..32 {
        for x in 0..32 {
            let cell = grid.get_cell(&Point::new_internal_grid(x, y)).unwrap();
            if y == 10 {
                assert!(first_state(&grid, x, y).is_path());
            } else if cell.is_collapsed() {
                let name = first_state(&grid, x, y);
                assert!(name.is_building() || name.is_field());
                if name.is_building() {
                    buildings += 1;
                }
            }
        }
    }
    assert!(buildings >= 6);
}

#[test]
fn variants_hold_the_given_objects() {
    assert!(Variants::empty().variants.is_empty());
    let v = Variants::new(vec![ObjectName::HouseMediumWallLeft]);
    assert_eq!(v.variants, vec![ObjectName::HouseMediumWallLeft]);
}

#[test]
fn registry_returns_the_variants_of_each_structure() {
    let registry = BuildingComponentRegistry::new_initialised();
    assert_eq!(
        registry.get_variants_for(&BuildingType::MediumHouse, &Level::GroundFloor, &StructureType::MiddleDoor),
        vec![ObjectName::HouseMediumDoorMiddle]
    );
    let roof = registry.get_variants_for(&BuildingType::MediumHouse, &Level::Roof, &StructureType::Left);
    assert!(roof.contains(&ObjectName::HouseMediumRoofLeft1));
    assert!(BuildingComponentRegistry::default()
        .get_variants_for(&BuildingType::MediumHouse, &Level::Roof, &StructureType::Left)
        .is_empty());
}

#[test]
fn field_shapes_with_one_tile_wide_sections_are_not_usable() {
    assert!(is_usable(&FieldShape::new(rectangle(3, 3))));
    assert!(is_usable(&l_shape()));
    let mut with_tail = rectangle(3, 3);
    with_tail.push((3, 1));
    assert!(!is_usable(&FieldShape::new(with_tail)));
    // A strip has no entrance, so it is never laid out and never classified.
    assert!(is_usable(&FieldShape::new(rectangle(3, 1))));
    assert!(!is_usable(&FieldShape::new(vec![(0, 0), (0x2000, 0)])));
}

#[test]
fn building_templates_are_checked_before_use() {
    assert!(template("medium_house_facing_north").is_valid());
    let mut broken = template("medium_house_facing_south");
    broken.relative_door_ig = Point::new_internal_grid(3, 0);
    assert!(!broken.is_valid());
    let mut diagonal = template("medium_house_facing_north");
    diagonal.connection_direction = Direction::TopLeft;
    assert!(!diagonal.is_valid());
    assert!(all_templates_valid(&vec![template("medium_house_facing_north"), template("medium_house_facing_south")]));
    assert!(!all_templates_valid(&vec![template("medium_house_facing_north"), broken]));
}

#[test]
fn settlement_points_are_joinable_unless_one_holds_a_road_piece_that_connects_nowhere() {
    let mut grid = land_grid_with_road(10);
    let sampled = vec![Point::new_internal_grid(5, 10)];
    assert!(are_settlement_points_joinable(&grid, &Vec::new(), &sampled));
    grid.set_cell(collapsed_cell(3, 10, ObjectName::PathUndefined));
    assert!(are_settlement_points_joinable(&grid, &Vec::new(), &sampled));
    assert!(!are_settlement_points_joinable(&grid, &Vec::new(), &vec![Point::new_internal_grid(3, 10)]));
    assert!(!are_settlement_points_joinable(&grid, &vec![Point::new_internal_grid(3, 10)], &sampled));
    assert!(connects_somewhere(ObjectName::PathCross));
    assert!(!connects_somewhere(ObjectName::PathUndefined));
    assert!(!connects_somewhere(ObjectName::Empty));
}

#[test]
fn clean_up_path_points_ignores_order_and_repetition() {
    let grid = land_grid_with_road(10);
    let mut first: Vec<Point> = (0..32).map(|x| Point::new_internal_grid(x, 10)).collect();
    let mut second: Vec<Point> = (0..32).rev().map(|x| Point::new_internal_grid(x, 10)).collect();
    second.extend((5..9).map(|x| Point::new_internal_grid(x, 10)));
    clean_up_path_points(&mut first, &grid);
    clean_up_path_points(&mut second, &grid);
    assert_eq!(first, second);
    assert_eq!(first.len(), 32);
}

#[test]
fn layouts_hold_every_rotation_entered_through_every_entrance() {
    let shapes = vec![FieldShape::new(rectangle(3, 3)), l_shape()];
    let result = layouts(&mut seeded_rng(11), &shapes);
    let mut expected = 0;
    for shape in &shapes {
        for rotated in rotations(&shape.tiles().to_vec()) {
            for (entrance, outside) in entrances(&rotated) {
                expected += 1;
                let layout = layout_from_entrance(&rotated, entrance, outside);
                assert!(result.iter().any(|l| l.tiles == layout.tiles && l.entrance == layout.entrance));
            }
        }
    }
    assert_eq!(result.len(), expected);
}

#[test]
fn layouts_are_shuffled_by_the_generator() {
    let shapes = vec![FieldShape::new(rectangle(3, 3)), l_shape()];
    let first: Vec<_> = (0..8).map(|seed| {
        let layouts = layouts(&mut seeded_rng(seed), &shapes);
        (layouts[0].tiles.clone(), layouts[0].entrance)
    }).collect();
    assert!(first.iter().any(|layout| *layout != first[0]));
}

#[test]
fn place_settlement_on_grid_leaves_the_generator_alone_when_switched_off() {
    let templates = vec![template("medium_house_facing_north")];
    let shapes = vec![FieldShape::new(rectangle(3, 3))];
    for (paths, settlements, settled) in [(false, true, true), (true, false, true), (true, true, false)] {
        let mut grid = land_grid_with_road(10);
        let mut rng = seeded_rng(16);
        let untouched = rng.clone();
        place_settlement_on_grid(
            &mut grid,
            paths,
            settlements,
            settled,
            &Vec::new(),
            &road_points(10),
            &templates,
            &shapes,
            &mut rng,
        );
        assert!(rng == untouched);
    }
}

#[test]
fn place_settlement_on_grid_places_a_field_along_a_long_road() {
    let templates = vec![template("medium_house_facing_north"), template("medium_house_facing_south")];
    let shapes = vec![FieldShape::new(rectangle(3, 3))];
    let mut grid = land_grid_with_road(10);
    place_settlement_on_grid(
        &mut grid,
        true,
        true,
        true,
        &Vec::new(),
        &road_points(10),
        &templates,
        &shapes,
        &mut seeded_rng(3),
    );
    let fields = (0..32)
        .flat_map(|y| (0..32).map(move |x| (x, y)))
        .filter(|(x, y)| {
            let cell = grid.get_cell(&Point::new_internal_grid(*x, *y)).unwrap();
            cell.is_collapsed() && first_state(&grid, *x, *y).is_field()
        })
        .count();
    assert!(fields > 0);
}

#[test]
fn settlement_points_from_which_no_structure_can_be_entered_need_no_joinable_road_piece() {
    let mut grid = land_grid_with_road(10);
    grid.set_cell(collapsed_cell(3, 10, ObjectName::PathUndefined));
    let sampled = vec![Point::new_internal_grid(3, 10)];
    assert!(!are_settlement_points_joinable(&grid, &Vec::new(), &sampled));
    grid.set_cell(collapsed_cell(3, 9, ObjectName::PathVertical));
    grid.set_cell(collapsed_cell(3, 11, ObjectName::PathVertical));
    assert!(are_settlement_points_joinable(&grid, &Vec::new(), &sampled));
}
