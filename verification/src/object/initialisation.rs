use crate::coords::Point;
use crate::object::cell::{copy_states, views_of, Cell, StateView};
use crate::object::object_grid::{lemma_grid_after_cell_update, ObjectGrid};
use crate::object::rules::{entry_states, terrain_index, tile_type_index, TerrainStateMap};
use crate::object::terrain::{Climate, TerrainType, TileType};
use crate::object::terrain_state::TerrainState;
use vstd::prelude::*;

verus! {

/// A tile of the flattened terrain of a chunk: its internal grid position, terrain and tile type.
#[derive(Clone, Copy, Debug, PartialEq, Eq, Structural)]
pub struct FlatTile {
    pub ig: Point,
    pub terrain: TerrainType,
    pub tile_type: TileType,
}

/// Returned when no states are known for a terrain type, climate and tile type.
#[derive(Clone, Copy, Debug, PartialEq, Eq, Structural)]
pub struct MissingRuleSet {
    pub terrain: TerrainType,
    pub climate: Climate,
    pub tile_type: TileType,
}

/// The states each terrain type and tile type may collapse to, for each climate.
#[derive(Debug)]
pub struct TerrainClimateStateMap {
    pub dry: TerrainStateMap,
    pub moderate: TerrainStateMap,
    pub humid: TerrainStateMap,
}

impl TerrainClimateStateMap {
    /// One well-formed map per climate.
    pub open spec fn wf(self) -> bool {
        self.dry.wf() && self.moderate.wf() && self.humid.wf()
    }

    /// The states of a terrain type, climate and tile type, if there are any.
    pub open spec fn states_for(self, t: TerrainType, c: Climate, tt: TileType) -> Option<Seq<StateView>> {
        match c {
            Climate::Dry => self.dry.states_for(t, tt),
            Climate::Moderate => self.moderate.states_for(t, tt),
            Climate::Humid => self.humid.states_for(t, tt),
        }
    }

    /// A map without states.
    pub fn new() -> (map: TerrainClimateStateMap)
        ensures
            map.wf(),
            forall|t: TerrainType, c: Climate, tt: TileType| #[trigger] map.states_for(t, c, tt) is None,
    {
        TerrainClimateStateMap {
            dry: TerrainStateMap::new(),
            moderate: TerrainStateMap::new(),
            humid: TerrainStateMap::new(),
        }
    }

    /// Sets the states of a terrain type, climate and tile type.
    pub fn insert(&mut self, t: TerrainType, c: Climate, tt: TileType, states: Vec<TerrainState>)
        requires
            old(self).wf(),
        ensures
            final(self).wf(),
            forall|t2: TerrainType, c2: Climate, tt2: TileType|
                #[trigger] final(self).states_for(t2, c2, tt2) == if t2 == t && c2 == c && tt2 == tt {
                    Some(views_of(states@))
                } else {
                    old(self).states_for(t2, c2, tt2)
                },
    {
        match c {
            Climate::Dry => self.dry.insert(t, tt, states),
            Climate::Moderate => self.moderate.insert(t, tt, states),
            Climate::Humid => self.humid.insert(t, tt, states),
        }
    }

    /// Returns the states of a terrain type, climate and tile type, if there are any.
    pub fn get(&self, t: TerrainType, c: Climate, tt: TileType) -> (states: Option<&Vec<TerrainState>>)
        requires
            self.wf(),
        ensures
            match states {
                Some(v) => self.states_for(t, c, tt) == Some(views_of(v@)),
                None => self.states_for(t, c, tt) is None,
            },
    {
        match c {
            Climate::Dry => self.dry.get(t, tt),
            Climate::Moderate => self.moderate.get(t, tt),
            Climate::Humid => self.humid.get(t, tt),
        }
    }
}

/// Whether the cell at the position of `tile` was initialised from it with the states `states`.
pub open spec fn initialised_from(cell: Cell, tile: FlatTile, states: Seq<StateView>) -> bool {
    &&& cell.is_initialised
    &&& cell.terrain == tile.terrain
    &&& cell.tile_type == tile.tile_type
    &&& cell.states() == states
    &&& cell.entropy == states.len()
    &&& cell.ig == tile.ig
}

/// Whether no tile among the first `n` of `tiles` lies at `q`.
pub open spec fn not_among(tiles: Seq<FlatTile>, n: int, q: Point) -> bool {
    forall|j: int| 0 <= j < n ==> (#[trigger] tiles[j]).ig != q
}

impl ObjectGrid {
    /// Initialises the cell of each tile that lies in the grid with the tile's terrain and tile type and the states
    /// the map holds for them and the climate. Fails as soon as the map holds no states for a tile.
    pub fn initialise_cells(
        &mut self,
        terrain_climate_state_map: &TerrainClimateStateMap,
        climate: Climate,
        tiles: &Vec<FlatTile>,
    ) -> (result: Result<(), MissingRuleSet>)
        requires
            old(self).wf(),
            terrain_climate_state_map.wf(),
            forall|i: int, j: int| 0 <= i < j < tiles@.len() ==> tiles@[i].ig != tiles@[j].ig,
            forall|i: int|
                0 <= i < tiles@.len() && (#[trigger] tiles@[i]).ig.spec_is_inside_grid() ==> !old(self).cell_at(
                    tiles@[i].ig,
                ).is_initialised,
        ensures
            final(self).wf(),
            final(self).cg == old(self).cg,
            final(self).path == old(self).path,
            final(self).no_neighbours_tile == old(self).no_neighbours_tile,
            result.is_ok() <==> forall|i: int|
                0 <= i < tiles@.len() && (#[trigger] tiles@[i]).ig.spec_is_inside_grid()
                    ==> terrain_climate_state_map.states_for(tiles@[i].terrain, climate, tiles@[i].tile_type) is Some,
            result.is_ok() ==> forall|i: int|
                0 <= i < tiles@.len() && (#[trigger] tiles@[i]).ig.spec_is_inside_grid() ==> initialised_from(
                    final(self).cell_at(tiles@[i].ig),
                    tiles@[i],
                    terrain_climate_state_map.states_for(tiles@[i].terrain, climate, tiles@[i].tile_type)->0,
                ),
            result.is_ok() ==> forall|q: Point|
                q.spec_is_inside_grid() && not_among(tiles@, tiles@.len() as int, q) ==> #[trigger] final(self).cell_at(q)
                    == old(self).cell_at(q),
    {
        let ghost start = *self;
        let mut i: usize = 0;
        while i < tiles.len()
            invariant
                start == *old(self),
                self.wf(),
                terrain_climate_state_map.wf(),
                self.cg == start.cg,
                self.path == start.path,
                self.no_neighbours_tile == start.no_neighbours_tile,
                i <= tiles@.len(),
                forall|a: int, b: int| 0 <= a < b < tiles@.len() ==> tiles@[a].ig != tiles@[b].ig,
                forall|j: int|
                    0 <= j < tiles@.len() && (#[trigger] tiles@[j]).ig.spec_is_inside_grid() ==> !start.cell_at(
                        tiles@[j].ig,
                    ).is_initialised,
                forall|j: int|
                    0 <= j < i && (#[trigger] tiles@[j]).ig.spec_is_inside_grid() ==> terrain_climate_state_map.states_for(
                        tiles@[j].terrain,
                        climate,
                        tiles@[j].tile_type,
                    ) is Some && initialised_from(
                        self.cell_at(tiles@[j].ig),
                        tiles@[j],
                        terrain_climate_state_map.states_for(tiles@[j].terrain, climate, tiles@[j].tile_type)->0,
                    ),
                forall|q: Point|
                    q.spec_is_inside_grid() && not_among(tiles@, i as int, q) ==> #[trigger] self.cell_at(q)
                        == start.cell_at(q),
            decreases tiles@.len() - i,
        {
            let tile = tiles[i];
            let ghost before = *self;
            proof {
                if tile.ig.spec_is_inside_grid() {
                    assert(not_among(tiles@, i as int, tile.ig));
                    assert(self.cell_at(tile.ig) == start.cell_at(tile.ig));
                }
            }
            if !tile.ig.is_outside_grid() {
                let states = match terrain_climate_state_map.get(tile.terrain, climate, tile.tile_type) {
                    Some(s) => s,
                    None => {
                        return Err(MissingRuleSet { terrain: tile.terrain, climate, tile_type: tile.tile_type });
                    },
                };
                match self.get_cell_mut(&tile.ig) {
                    Some(cell) => {
                        cell.initialise(tile.terrain, tile.tile_type, states);
                    },
                    None => {},
                }
            }
            proof {
                if tile.ig.spec_is_inside_grid() {
                    lemma_grid_after_cell_update(before, *self, tile.ig);
                    assert forall|j: int|
                        0 <= j < i + 1 && (#[trigger] tiles@[j]).ig.spec_is_inside_grid()
                            implies terrain_climate_state_map.states_for(
                        tiles@[j].terrain,
                        climate,
                        tiles@[j].tile_type,
                    ) is Some && initialised_from(
                        self.cell_at(tiles@[j].ig),
                        tiles@[j],
                        terrain_climate_state_map.states_for(tiles@[j].terrain, climate, tiles@[j].tile_type)->0,
                    ) by {
                        if j < i {
                            assert(tiles@[j].ig != tile.ig);
                        }
                    }
                }
                assert forall|q: Point|
                    q.spec_is_inside_grid() && not_among(tiles@, i + 1, q) implies #[trigger] self.cell_at(q)
                        == start.cell_at(q) by {
                    assert(not_among(tiles@, i as int, q));
                    assert(tiles@[i as int].ig != q);
                }
            }
            i = i + 1;
        }
        Ok(())
    }

    /// Returns the object grid of the chunk at `cg`: a fresh grid whose placeholder for neighbours outside it takes
    /// the states the map holds for [`TerrainType::Any`] fill tiles, and whose cells are initialised from the tiles
    /// (see [`ObjectGrid::initialise_cells`]). Fails if the map lacks the states of the placeholder or of a tile.
    pub fn new_initialised(
        cg: Point,
        climate: Climate,
        terrain_climate_state_map: &TerrainClimateStateMap,
        tiles: &Vec<FlatTile>,
    ) -> (result: Result<ObjectGrid, MissingRuleSet>)
        requires
            terrain_climate_state_map.wf(),
            forall|i: int, j: int| 0 <= i < j < tiles@.len() ==> tiles@[i].ig != tiles@[j].ig,
        ensures
            result.is_ok() <==> terrain_climate_state_map.states_for(TerrainType::Any, climate, TileType::Fill) is Some
                && forall|i: int|
                0 <= i < tiles@.len() && (#[trigger] tiles@[i]).ig.spec_is_inside_grid()
                    ==> terrain_climate_state_map.states_for(tiles@[i].terrain, climate, tiles@[i].tile_type) is Some,
            result matches Ok(grid) ==> {
                &&& grid.wf()
                &&& grid.cg == cg
                &&& grid.path@.len() == 0
                &&& grid.no_neighbours_tile.states() == terrain_climate_state_map.states_for(
                    TerrainType::Any,
                    climate,
                    TileType::Fill,
                )->0
                &&& grid.no_neighbours_tile.ig == Point { x: -1i32, y: -1i32 }
                &&& !grid.no_neighbours_tile.is_collapsed
                &&& forall|i: int|
                    0 <= i < tiles@.len() && (#[trigger] tiles@[i]).ig.spec_is_inside_grid() ==> initialised_from(
                        grid.cell_at(tiles@[i].ig),
                        tiles@[i],
                        terrain_climate_state_map.states_for(tiles@[i].terrain, climate, tiles@[i].tile_type)->0,
                    )
                &&& forall|q: Point|
                    q.spec_is_inside_grid() && not_among(tiles@, tiles@.len() as int, q) ==> (#[trigger] grid.cell_at(
                        q,
                    )).is_fresh_at(q.x, q.y)
            },
    {
        let mut grid = ObjectGrid::default(cg);
        let permitted_neighbours_of_empty = match terrain_climate_state_map.get(TerrainType::Any, climate, TileType::Fill) {
            Some(states) => copy_states(states),
            None => {
                return Err(MissingRuleSet { terrain: TerrainType::Any, climate, tile_type: TileType::Fill });
            },
        };
        grid.no_neighbours_tile.override_possible_states(permitted_neighbours_of_empty);
        let ghost fresh = grid;
        proof {
            assert forall|i: int|
                0 <= i < tiles@.len() && (#[trigger] tiles@[i]).ig.spec_is_inside_grid() implies !grid.cell_at(
                tiles@[i].ig,
            ).is_initialised by {
                let q = tiles@[i].ig;
                assert(crate::object::object_grid::cell_in(grid.object_grid@, q.x as int, q.y as int).is_fresh_at(
                    q.x,
                    q.y,
                ));
            }
        }
        match grid.initialise_cells(terrain_climate_state_map, climate, tiles) {
            Ok(()) => {},
            Err(e) => {
                return Err(e);
            },
        }
        proof {
            assert forall|q: Point|
                q.spec_is_inside_grid() && not_among(tiles@, tiles@.len() as int, q) implies (#[trigger] grid.cell_at(
                q,
            )).is_fresh_at(q.x, q.y) by {
                assert(grid.cell_at(q) == fresh.cell_at(q));
                assert(crate::object::object_grid::cell_in(fresh.object_grid@, q.x as int, q.y as int).is_fresh_at(
                    q.x,
                    q.y,
                ));
            }
        }
        Ok(grid)
    }
}

} // verus!
