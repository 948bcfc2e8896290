use procedural_generation::coords::Point;
use procedural_generation::object::cell::Cell;
use procedural_generation::object::initialisation::{FlatTile, MissingRuleSet, TerrainClimateStateMap};
use procedural_generation::object::object_grid::ObjectGrid;
use procedural_generation::object::object_name::ObjectName;
use procedural_generation::object::rules::{
    resolve_rules_to_terrain_states_map, terrain_rules, tile_type_rules, TerrainStateMap,
};
use procedural_generation::object::terrain::{Climate, TerrainType, TileType};
use procedural_generation::object::terrain_state::TerrainState;

fn state(name: ObjectName) -> TerrainState {
    TerrainState::new_with_no_neighbours(name, 1, 1)
}

fn names(states: &[TerrainState]) -> Vec<ObjectName> {
    states.iter().map(|s| s.name).collect()
}

const TREE: ObjectName = ObjectName::ForestTree1;
const STONE: ObjectName = ObjectName::Land1IndividualObject1;

#[test]
fn terrain_rules_put_the_any_rules_first_and_drop_them() {
    let loaded = vec![
        (TerrainType::Land1, vec![state(TREE)]),
        (TerrainType::Any, vec![state(ObjectName::Empty)]),
        (TerrainType::Water, vec![state(STONE)]),
    ];
    let rules = terrain_rules(&loaded);
    let land1 = rules.by_terrain[2].as_ref().unwrap();
    assert_eq!(names(land1), vec![ObjectName::Empty, TREE]);
    let water = rules.by_terrain[0].as_ref().unwrap();
    assert_eq!(names(water), vec![ObjectName::Empty, STONE]);
    assert!(rules.by_terrain[5].is_none());
    assert!(rules.by_terrain[1].is_none());
}

#[test]
fn terrain_rules_keep_the_last_rule_set_of_a_terrain() {
    let loaded = vec![(TerrainType::Shore, vec![state(TREE)]), (TerrainType::Shore, vec![state(STONE)])];
    let rules = terrain_rules(&loaded);
    assert_eq!(names(rules.by_terrain[1].as_ref().unwrap()), vec![STONE]);
}

#[test]
fn tile_type_rules_map_each_tile_type_to_its_objects() {
    let rules = tile_type_rules(&vec![(TileType::Fill, vec![TREE, STONE]), (TileType::TopFill, vec![STONE])]);
    assert_eq!(rules.by_tile_type[0], Some(vec![TREE, STONE]));
    assert_eq!(rules.by_tile_type[11], Some(vec![STONE]));
    assert_eq!(rules.by_tile_type[17], None);
}

fn all_tile_types() -> Vec<TileType> {
    vec![
        TileType::Fill,
        TileType::InnerCornerBottomLeft,
        TileType::InnerCornerBottomRight,
        TileType::InnerCornerTopLeft,
        TileType::InnerCornerTopRight,
        TileType::OuterCornerBottomLeft,
        TileType::OuterCornerBottomRight,
        TileType::OuterCornerTopLeft,
        TileType::OuterCornerTopRight,
        TileType::TopLeftToBottomRightBridge,
        TileType::TopRightToBottomLeftBridge,
        TileType::TopFill,
        TileType::BottomFill,
        TileType::RightFill,
        TileType::LeftFill,
        TileType::Single,
        TileType::Empty,
    ]
}

#[test]
fn resolve_keeps_the_states_each_tile_type_permits() {
    let terrains = [TerrainType::Water, TerrainType::Shore, TerrainType::Land1, TerrainType::Land2, TerrainType::Land3];
    let loaded: Vec<(TerrainType, Vec<TerrainState>)> =
        terrains.iter().map(|t| (*t, vec![state(ObjectName::Empty), state(TREE), state(STONE)])).collect();
    let tile_rules: Vec<(TileType, Vec<ObjectName>)> = all_tile_types()
        .into_iter()
        .map(|t| if t == TileType::Fill { (t, vec![STONE, TREE]) } else { (t, vec![ObjectName::Empty]) })
        .collect();
    let map = resolve_rules_to_terrain_states_map(&terrain_rules(&loaded), &tile_type_rules(&tile_rules));
    assert_eq!(names(map.get(TerrainType::Land2, TileType::Fill).unwrap()), vec![TREE, STONE]);
    assert_eq!(names(map.get(TerrainType::Water, TileType::TopFill).unwrap()), vec![ObjectName::Empty]);
    assert!(map.get(TerrainType::Any, TileType::Fill).is_none());
    assert!(map.get(TerrainType::Land1, TileType::Unknown).is_none());
}

#[test]
fn terrain_state_map_insert_replaces_one_entry() {
    let mut map = TerrainStateMap::new();
    assert!(map.get(TerrainType::Land1, TileType::Fill).is_none());
    map.insert(TerrainType::Land1, TileType::Fill, vec![state(TREE)]);
    assert_eq!(names(map.get(TerrainType::Land1, TileType::Fill).unwrap()), vec![TREE]);
    assert!(map.get(TerrainType::Land1, TileType::TopFill).is_none());
}

fn climate_map() -> TerrainClimateStateMap {
    let mut map = TerrainClimateStateMap::new();
    map.insert(TerrainType::Any, Climate::Humid, TileType::Fill, vec![state(ObjectName::Empty)]);
    map.insert(TerrainType::Land1, Climate::Humid, TileType::Fill, vec![state(ObjectName::Empty), state(TREE)]);
    map
}

#[test]
fn new_initialised_initialises_the_cells_of_the_tiles() {
    let tiles = vec![
        FlatTile { ig: Point::new_internal_grid(1, 2), terrain: TerrainType::Land1, tile_type: TileType::Fill },
        FlatTile { ig: Point::new_internal_grid(40, 2), terrain: TerrainType::Water, tile_type: TileType::Fill },
    ];
    let grid = ObjectGrid::new_initialised(Point::new_chunk_grid(3, 4), Climate::Humid, &climate_map(), &tiles).unwrap();
    assert_eq!(grid.cg, Point::new_chunk_grid(3, 4));
    let cell: &Cell = grid.get_cell(&Point::new_internal_grid(1, 2)).unwrap();
    assert_eq!(cell.terrain(), TerrainType::Land1);
    assert_eq!(cell.get_entropy(), 2);
    assert_eq!(names(cell.get_possible_states()), vec![ObjectName::Empty, TREE]);
    assert_eq!(names(&grid.no_neighbours_tile.possible_states), vec![ObjectName::Empty]);
    assert_eq!(grid.get_cell(&Point::new_internal_grid(0, 0)).unwrap().get_possible_states().len(), 0);
}

#[test]
fn new_initialised_fails_without_rules_for_a_tile() {
    let tiles =
        vec![FlatTile { ig: Point::new_internal_grid(1, 2), terrain: TerrainType::Land2, tile_type: TileType::Fill }];
    let result = ObjectGrid::new_initialised(Point::new_chunk_grid(0, 0), Climate::Humid, &climate_map(), &tiles);
    assert_eq!(
        result.err(),
        Some(MissingRuleSet { terrain: TerrainType::Land2, climate: Climate::Humid, tile_type: TileType::Fill })
    );
    let result = ObjectGrid::new_initialised(Point::new_chunk_grid(0, 0), Climate::Dry, &climate_map(), &vec![]);
    assert_eq!(
        result.err(),
        Some(MissingRuleSet { terrain: TerrainType::Any, climate: Climate::Dry, tile_type: TileType::Fill })
    );
}
