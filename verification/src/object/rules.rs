use crate::object::cell::{contains_name, copy_states, lemma_views_of_push, views_of, StateView};
use crate::object::object_name::ObjectName;
use crate::object::terrain::{TerrainType, TileType};
use crate::object::terrain_state::{copy_names, TerrainState};
use vstd::prelude::*;

verus! {

/// The number of terrain types, [`TerrainType::Any`] included.
pub const TERRAIN_COUNT: usize = 6;

/// The number of tile types, [`TileType::Unknown`] included.
pub const TILE_TYPE_COUNT: usize = 18;

/// The position of a terrain type in declaration order.
pub open spec fn terrain_index(t: TerrainType) -> int {
    match t {
        TerrainType::Water => 0,
        TerrainType::Shore => 1,
        TerrainType::Land1 => 2,
        TerrainType::Land2 => 3,
        TerrainType::Land3 => 4,
        TerrainType::Any => 5,
    }
}

/// The position of a tile type in declaration order.
pub open spec fn tile_type_index(t: TileType) -> int {
    match t {
        TileType::Fill => 0,
        TileType::InnerCornerBottomLeft => 1,
        TileType::InnerCornerBottomRight => 2,
        TileType::InnerCornerTopLeft => 3,
        TileType::InnerCornerTopRight => 4,
        TileType::OuterCornerBottomLeft => 5,
        TileType::OuterCornerBottomRight => 6,
        TileType::OuterCornerTopLeft => 7,
        TileType::OuterCornerTopRight => 8,
        TileType::TopLeftToBottomRightBridge => 9,
        TileType::TopRightToBottomLeftBridge => 10,
        TileType::TopFill => 11,
        TileType::BottomFill => 12,
        TileType::RightFill => 13,
        TileType::LeftFill => 14,
        TileType::Single => 15,
        TileType::Empty => 16,
        TileType::Unknown => 17,
    }
}

/// Returns the position of a terrain type in declaration order.
pub fn terrain_ordinal(t: TerrainType) -> (i: usize)
    ensures
        i == terrain_index(t),
{
    match t {
        TerrainType::Water => 0,
        TerrainType::Shore => 1,
        TerrainType::Land1 => 2,
        TerrainType::Land2 => 3,
        TerrainType::Land3 => 4,
        TerrainType::Any => 5,
    }
}

/// Returns the position of a tile type in declaration order.
pub fn tile_type_ordinal(t: TileType) -> (i: usize)
    ensures
        i == tile_type_index(t),
{
    match t {
        TileType::Fill => 0,
        TileType::InnerCornerBottomLeft => 1,
        TileType::InnerCornerBottomRight => 2,
        TileType::InnerCornerTopLeft => 3,
        TileType::InnerCornerTopRight => 4,
        TileType::OuterCornerBottomLeft => 5,
        TileType::OuterCornerBottomRight => 6,
        TileType::OuterCornerTopLeft => 7,
        TileType::OuterCornerTopRight => 8,
        TileType::TopLeftToBottomRightBridge => 9,
        TileType::TopRightToBottomLeftBridge => 10,
        TileType::TopFill => 11,
        TileType::BottomFill => 12,
        TileType::RightFill => 13,
        TileType::LeftFill => 14,
        TileType::Single => 15,
        TileType::Empty => 16,
        TileType::Unknown => 17,
    }
}

/// Returns every terrain type, in declaration order.
pub fn all_terrain_types() -> (types: Vec<TerrainType>)
    ensures
        types@.len() == TERRAIN_COUNT,
        forall|i: int| 0 <= i < TERRAIN_COUNT ==> terrain_index(#[trigger] types@[i]) == i,
{
    vec![
        TerrainType::Water,
        TerrainType::Shore,
        TerrainType::Land1,
        TerrainType::Land2,
        TerrainType::Land3,
        TerrainType::Any,
    ]
}

/// Returns every tile type, in declaration order.
pub fn all_tile_types() -> (types: Vec<TileType>)
    ensures
        types@.len() == TILE_TYPE_COUNT,
        forall|i: int| 0 <= i < TILE_TYPE_COUNT ==> tile_type_index(#[trigger] types@[i]) == i,
{
    vec![
        TileType::Fill,
        TileType::InnerCornerBottomLeft,
        TileType::InnerCornerBottomRight,
        TileType::InnerCornerTopLeft,
        TileType::InnerCornerTopRight,
        TileType::OuterCornerBottomLeft,
        TileType::OuterCornerBottomRight,
        TileType::OuterCornerTopLeft,
        TileType::OuterCornerTopRight,
        TileType::TopLeftToBottomRightBridge,
        TileType::TopRightToBottomLeftBridge,
        TileType::TopFill,
        TileType::BottomFill,
        TileType::RightFill,
        TileType::LeftFill,
        TileType::Single,
        TileType::Empty,
        TileType::Unknown,
    ]
}

/// The states of a terrain rule set entry, if there is one.
pub open spec fn entry_states(entry: Option<Vec<TerrainState>>) -> Option<Seq<StateView>> {
    match entry {
        Some(v) => Some(views_of(v@)),
        None => None,
    }
}

/// The objects of a tile type rule entry, if there is one.
pub open spec fn entry_names(entry: Option<Vec<ObjectName>>) -> Option<Seq<ObjectName>> {
    match entry {
        Some(v) => Some(v@),
        None => None,
    }
}

/// The states of the rule set for each terrain type, as loaded.
#[derive(Debug)]
pub struct TerrainRuleSets {
    pub by_terrain: Vec<Option<Vec<TerrainState>>>,
}

impl TerrainRuleSets {
    /// One entry per terrain type.
    pub open spec fn wf(self) -> bool {
        self.by_terrain@.len() == TERRAIN_COUNT
    }

    /// The states of the rule set of a terrain type, if there is one.
    pub open spec fn rules_for(self, t: TerrainType) -> Option<Seq<StateView>> {
        entry_states(self.by_terrain@[terrain_index(t)])
    }
}

/// The names of the objects each tile type permits, as loaded.
#[derive(Debug)]
pub struct TileTypeRules {
    pub by_tile_type: Vec<Option<Vec<ObjectName>>>,
}

impl TileTypeRules {
    /// One entry per tile type.
    pub open spec fn wf(self) -> bool {
        self.by_tile_type@.len() == TILE_TYPE_COUNT
    }

    /// The objects a tile type permits, if its rule was loaded.
    pub open spec fn permitted_for(self, t: TileType) -> Option<Seq<ObjectName>> {
        entry_names(self.by_tile_type@[tile_type_index(t)])
    }
}

/// The states each combination of a terrain type and a tile type may collapse to.
#[derive(Debug)]
pub struct TerrainStateMap {
    pub states: Vec<Option<Vec<TerrainState>>>,
}

impl TerrainStateMap {
    /// One entry per terrain type and tile type.
    pub open spec fn wf(self) -> bool {
        self.states@.len() == TERRAIN_COUNT * TILE_TYPE_COUNT
    }

    /// The states of a terrain type and tile type, if there are any.
    pub open spec fn states_for(self, t: TerrainType, tt: TileType) -> Option<Seq<StateView>> {
        entry_states(self.states@[terrain_index(t) * TILE_TYPE_COUNT + tile_type_index(tt)])
    }

    /// A map without states.
    pub fn new() -> (map: TerrainStateMap)
        ensures
            map.wf(),
            forall|t: TerrainType, tt: TileType| #[trigger] map.states_for(t, tt) is None,
    {
        TerrainStateMap { states: empty_entries(TERRAIN_COUNT * TILE_TYPE_COUNT) }
    }

    /// Sets the states of a terrain type and tile type.
    pub fn insert(&mut self, t: TerrainType, tt: TileType, states: Vec<TerrainState>)
        requires
            old(self).wf(),
        ensures
            final(self).wf(),
            forall|t2: TerrainType, tt2: TileType|
                #[trigger] final(self).states_for(t2, tt2) == if t2 == t && tt2 == tt {
                    Some(views_of(states@))
                } else {
                    old(self).states_for(t2, tt2)
                },
    {
        let k = terrain_ordinal(t) * TILE_TYPE_COUNT + tile_type_ordinal(tt);
        let ghost before = self.states@;
        self.states.set(k, Some(states));
        proof {
            assert forall|t2: TerrainType, tt2: TileType|
                #[trigger] self.states_for(t2, tt2) == if t2 == t && tt2 == tt {
                    Some(views_of(states@))
                } else {
                    old(self).states_for(t2, tt2)
                } by {
                let k2 = terrain_index(t2) * TILE_TYPE_COUNT + tile_type_index(tt2);
                if k2 == k {
                    assert(terrain_index(t2) == terrain_index(t) && tile_type_index(tt2) == tile_type_index(tt))
                        by (nonlinear_arith)
                        requires
                            k2 == terrain_index(t2) * 18 + tile_type_index(tt2),
                            k == terrain_index(t) * 18 + tile_type_index(tt),
                            k2 == k,
                            0 <= tile_type_index(tt2) < 18,
                            0 <= tile_type_index(tt) < 18,
                    ;
                } else {
                    assert(self.states@[k2] == before[k2]);
                }
            }
        }
    }

    /// Returns the states of a terrain type and tile type, if there are any.
    pub fn get(&self, t: TerrainType, tt: TileType) -> (states: Option<&Vec<TerrainState>>)
        requires
            self.wf(),
        ensures
            match states {
                Some(v) => self.states_for(t, tt) == Some(views_of(v@)),
                None => self.states_for(t, tt) is None,
            },
    {
        let k = terrain_ordinal(t) * TILE_TYPE_COUNT + tile_type_ordinal(tt);
        match &self.states[k] {
            Some(v) => Some(v),
            None => None,
        }
    }
}

/// The states of the last loaded rule set of terrain type `t`, if any was loaded.
pub open spec fn last_loaded_states(loaded: Seq<(TerrainType, Vec<TerrainState>)>, t: TerrainType) -> Option<
    Seq<StateView>,
>
    decreases loaded.len(),
{
    if loaded.len() == 0 {
        None
    } else if loaded.last().0 == t {
        Some(views_of(loaded.last().1@))
    } else {
        last_loaded_states(loaded.drop_last(), t)
    }
}

/// The rule set of terrain type `t` after the [`TerrainType::Any`] rule set, if one was loaded, is put in front of
/// every other loaded rule set and then dropped.
pub open spec fn extended_rules(loaded: Seq<(TerrainType, Vec<TerrainState>)>, t: TerrainType) -> Option<Seq<StateView>> {
    if t == TerrainType::Any {
        None
    } else {
        match last_loaded_states(loaded, t) {
            None => None,
            Some(s) => Some(
                match last_loaded_states(loaded, TerrainType::Any) {
                    Some(a) => a + s,
                    None => s,
                },
            ),
        }
    }
}

/// The objects of the last loaded rule of tile type `t`, if any was loaded.
pub open spec fn last_loaded_names(loaded: Seq<(TileType, Vec<ObjectName>)>, t: TileType) -> Option<Seq<ObjectName>>
    decreases loaded.len(),
{
    if loaded.len() == 0 {
        None
    } else if loaded.last().0 == t {
        Some(loaded.last().1@)
    } else {
        last_loaded_names(loaded.drop_last(), t)
    }
}

/// The states among `states` whose object `names` holds, in their order.
pub open spec fn with_names(states: Seq<StateView>, names: Seq<ObjectName>) -> Seq<StateView> {
    states.filter(|s: StateView| names.contains(s.0))
}

/// Returns a vector of `n` empty entries.
fn empty_entries<T>(n: usize) -> (entries: Vec<Option<T>>)
    ensures
        entries@.len() == n,
        forall|i: int| 0 <= i < n ==> (#[trigger] entries@[i]) is None,
{
    let mut entries: Vec<Option<T>> = Vec::new();
    while entries.len() < n
        invariant
            entries@.len() <= n,
            forall|i: int| 0 <= i < entries@.len() ==> (#[trigger] entries@[i]) is None,
        decreases n - entries@.len(),
    {
        entries.push(None);
    }
    entries
}

/// Returns the rule sets of the terrain types from the loaded ones: a later rule set of a terrain type replaces an
/// earlier one, the states of the [`TerrainType::Any`] rule set, if one was loaded, are put in front of the states of
/// every other rule set, and the [`TerrainType::Any`] rule set itself is dropped.
pub fn terrain_rules(loaded: &Vec<(TerrainType, Vec<TerrainState>)>) -> (rules: TerrainRuleSets)
    ensures
        rules.wf(),
        forall|t: TerrainType| #[trigger] rules.rules_for(t) == extended_rules(loaded@, t),
{
    let mut by_terrain: Vec<Option<Vec<TerrainState>>> = empty_entries(TERRAIN_COUNT);
    let mut i: usize = 0;
    while i < loaded.len()
        invariant
            i <= loaded@.len(),
            by_terrain@.len() == TERRAIN_COUNT,
            forall|t: TerrainType| #[trigger] entry_states(by_terrain@[terrain_index(t)]) == last_loaded_states(
                loaded@.subrange(0, i as int),
                t,
            ),
        decreases loaded@.len() - i,
    {
        let k = terrain_ordinal(loaded[i].0);
        let states = copy_states(&loaded[i].1);
        by_terrain.set(k, Some(states));
        proof {
            assert(loaded@.subrange(0, i + 1).drop_last() =~= loaded@.subrange(0, i as int));
            assert forall|t: TerrainType| #[trigger] entry_states(by_terrain@[terrain_index(t)]) == last_loaded_states(
                loaded@.subrange(0, i + 1),
                t,
            ) by {
                if t != loaded@[i as int].0 {
                    assert(terrain_index(t) != k);
                }
            }
        }
        i = i + 1;
    }
    proof {
        assert(loaded@.subrange(0, loaded@.len() as int) =~= loaded@);
    }
    proof {
        assert(entry_states(by_terrain@[terrain_index(TerrainType::Any)]) == last_loaded_states(
            loaded@,
            TerrainType::Any,
        ));
    }
    let any_states: Option<Vec<TerrainState>> = match &by_terrain[5] {
        Some(v) => Some(copy_states(v)),
        None => None,
    };
    let ghost loaded_entries = by_terrain@;
    by_terrain.set(5, None);
    proof {
        assert forall|t: TerrainType| t != TerrainType::Any implies #[trigger] entry_states(
            by_terrain@[terrain_index(t)],
        ) == last_loaded_states(loaded@, t) by {
            assert(by_terrain@[terrain_index(t)] == loaded_entries[terrain_index(t)]);
            assert(entry_states(loaded_entries[terrain_index(t)]) == last_loaded_states(loaded@, t));
        }
    }
    match any_states {
        Some(any) => {
            let mut k: usize = 0;
            while k < 5
                invariant
                    k <= 5,
                    by_terrain@.len() == TERRAIN_COUNT,
                    by_terrain@[5] is None,
                    last_loaded_states(loaded@, TerrainType::Any) == Some(views_of(any@)),
                    forall|t: TerrainType|
                        t != TerrainType::Any ==> #[trigger] entry_states(by_terrain@[terrain_index(t)]) == if terrain_index(t)
                            < k {
                            extended_rules(loaded@, t)
                        } else {
                            last_loaded_states(loaded@, t)
                        },
                decreases 5 - k,
            {
                let ghost old_entry = by_terrain@[k as int];
                let ghost before_set = by_terrain@;
                let extended: Option<Vec<TerrainState>> = match &by_terrain[k] {
                    Some(states) => {
                        let mut combined = copy_states(&any);
                        let mut j: usize = 0;
                        while j < states.len()
                            invariant
                                j <= states@.len(),
                                views_of(combined@) == views_of(any@) + views_of(states@).subrange(0, j as int),
                            decreases states@.len() - j,
                        {
                            let ghost before = combined@;
                            let c = states[j].copy();
                            combined.push(c);
                            proof {
                                lemma_views_of_push(before, c);
                                assert(views_of(states@)[j as int] == states@[j as int].spec_view());
                                assert(views_of(combined@) =~= views_of(any@) + views_of(states@).subrange(
                                    0,
                                    j + 1,
                                ));
                            }
                            j = j + 1;
                        }
                        proof {
                            assert(views_of(states@).subrange(0, states@.len() as int) =~= views_of(states@));
                        }
                        proof {
                            assert(Some(*states) == old_entry);
                        }
                        Some(combined)
                    },
                    None => None,
                };
                by_terrain.set(k, extended);
                proof {
                    assert forall|t: TerrainType|
                        t != TerrainType::Any implies #[trigger] entry_states(by_terrain@[terrain_index(t)]) == if terrain_index(
                        t,
                    ) < k + 1 {
                        extended_rules(loaded@, t)
                    } else {
                        last_loaded_states(loaded@, t)
                    } by {
                        if terrain_index(t) == k {
                            assert(entry_states(before_set[terrain_index(t)]) == last_loaded_states(loaded@, t));
                        } else {
                            assert(by_terrain@[terrain_index(t)] == before_set[terrain_index(t)]);
                        }
                    }
                }
                k = k + 1;
            }
        },
        None => {},
    }
    let rules = TerrainRuleSets { by_terrain };
    proof {
        assert forall|t: TerrainType| #[trigger] rules.rules_for(t) == extended_rules(loaded@, t) by {
            if t != TerrainType::Any {
                assert(terrain_index(t) < 5);
            }
        }
    }
    rules
}

/// Returns the objects each tile type permits from the loaded tile type rules; a later rule of a tile type replaces
/// an earlier one.
pub fn tile_type_rules(loaded: &Vec<(TileType, Vec<ObjectName>)>) -> (rules: TileTypeRules)
    ensures
        rules.wf(),
        forall|t: TileType| #[trigger] rules.permitted_for(t) == last_loaded_names(loaded@, t),
{
    let mut by_tile_type: Vec<Option<Vec<ObjectName>>> = empty_entries(TILE_TYPE_COUNT);
    let mut i: usize = 0;
    while i < loaded.len()
        invariant
            i <= loaded@.len(),
            by_tile_type@.len() == TILE_TYPE_COUNT,
            forall|t: TileType|
                #[trigger] entry_names(by_tile_type@[tile_type_index(t)]) == last_loaded_names(
                    loaded@.subrange(0, i as int),
                    t,
                ),
        decreases loaded@.len() - i,
    {
        let k = tile_type_ordinal(loaded[i].0);
        let names = copy_names(&loaded[i].1);
        by_tile_type.set(k, Some(names));
        proof {
            assert(loaded@.subrange(0, i + 1).drop_last() =~= loaded@.subrange(0, i as int));
            assert forall|t: TileType|
                #[trigger] entry_names(by_tile_type@[tile_type_index(t)]) == last_loaded_names(
                    loaded@.subrange(0, i + 1),
                    t,
                ) by {
                if t != loaded@[i as int].0 {
                    assert(tile_type_index(t) != k);
                }
            }
        }
        i = i + 1;
    }
    proof {
        assert(loaded@.subrange(0, loaded@.len() as int) =~= loaded@);
    }
    let rules = TileTypeRules { by_tile_type };
    proof {
        assert forall|t: TileType| #[trigger] rules.permitted_for(t) == last_loaded_names(loaded@, t) by {
            assert(rules.by_tile_type@[tile_type_index(t)] == by_tile_type@[tile_type_index(t)]);
        }
    }
    rules
}

/// Returns the states among `states` whose object `names` holds, in their order.
fn states_with_names(states: &Vec<TerrainState>, names: &Vec<ObjectName>) -> (kept: Vec<TerrainState>)
    ensures
        views_of(kept@) == with_names(views_of(states@), names@),
{
    let ghost all = views_of(states@);
    let ghost pred = |s: StateView| names@.contains(s.0);
    let mut kept: Vec<TerrainState> = Vec::new();
    let mut i: usize = 0;
    proof {
        reveal(Seq::filter);
        assert(all.subrange(0, 0).filter(pred) =~= Seq::<StateView>::empty());
    }
    while i < states.len()
        invariant
            i <= states@.len(),
            all == views_of(states@),
            pred == (|s: StateView| names@.contains(s.0)),
            views_of(kept@) == all.subrange(0, i as int).filter(pred),
        decreases states@.len() - i,
    {
        let ghost before = kept@;
        proof {
            reveal(Seq::filter);
            assert(all.subrange(0, i + 1).drop_last() =~= all.subrange(0, i as int));
            assert(all[i as int] == states@[i as int].spec_view());
        }
        if contains_name(names, states[i].name) {
            let c = states[i].copy();
            kept.push(c);
            proof {
                lemma_views_of_push(before, c);
            }
        }
        i = i + 1;
    }
    proof {
        assert(all.subrange(0, states@.len() as int) =~= all);
    }
    kept
}

/// Resolves the rule sets of the terrain types and the rules of the tile types into the states of each terrain type
/// and tile type: the states of the terrain's rule set whose object the tile type permits, in their order.
/// [`TerrainType::Any`] and [`TileType::Unknown`] get no states. Every other terrain type needs a rule set, and every
/// other tile type a rule.
pub fn resolve_rules_to_terrain_states_map(terrain_rules: &TerrainRuleSets, tile_type_rules: &TileTypeRules) -> (map:
    TerrainStateMap)
    requires
        terrain_rules.wf(),
        tile_type_rules.wf(),
        forall|t: TerrainType| t != TerrainType::Any ==> (#[trigger] terrain_rules.rules_for(t)) is Some,
        forall|t: TileType| t != TileType::Unknown ==> (#[trigger] tile_type_rules.permitted_for(t)) is Some,
    ensures
        map.wf(),
        forall|t: TerrainType, tt: TileType|
            #[trigger] map.states_for(t, tt) == if t != TerrainType::Any && tt != TileType::Unknown {
                Some(with_names(terrain_rules.rules_for(t)->0, tile_type_rules.permitted_for(tt)->0))
            } else {
                None
            },
{
    let mut states: Vec<Option<Vec<TerrainState>>> = empty_entries(TERRAIN_COUNT * TILE_TYPE_COUNT);
    let terrains = all_terrain_types();
    let tile_types = all_tile_types();
    let mut a: usize = 0;
    while a < TERRAIN_COUNT
        invariant
            a <= TERRAIN_COUNT,
            terrain_rules.wf(),
            tile_type_rules.wf(),
            forall|t: TerrainType| t != TerrainType::Any ==> (#[trigger] terrain_rules.rules_for(t)) is Some,
            forall|t: TileType| t != TileType::Unknown ==> (#[trigger] tile_type_rules.permitted_for(t)) is Some,
            terrains@.len() == TERRAIN_COUNT,
            forall|i: int| 0 <= i < TERRAIN_COUNT ==> terrain_index(#[trigger] terrains@[i]) == i,
            tile_types@.len() == TILE_TYPE_COUNT,
            forall|i: int| 0 <= i < TILE_TYPE_COUNT ==> tile_type_index(#[trigger] tile_types@[i]) == i,
            states@.len() == TERRAIN_COUNT * TILE_TYPE_COUNT,
            forall|t: TerrainType, tt: TileType|
                #[trigger] entry_states(states@[terrain_index(t) * TILE_TYPE_COUNT + tile_type_index(tt)]) == if t
                    != TerrainType::Any && tt != TileType::Unknown && terrain_index(t) < a {
                    Some(with_names(terrain_rules.rules_for(t)->0, tile_type_rules.permitted_for(tt)->0))
                } else {
                    None
                },
        decreases TERRAIN_COUNT - a,
    {
        let terrain = terrains[a];
        if terrain != TerrainType::Any {
            let terrain_states = match &terrain_rules.by_terrain[a] {
                Some(v) => v,
                None => {
                    proof {
                        assert(terrain_rules.rules_for(terrain) is Some);
                    }
                    return TerrainStateMap { states };
                },
            };
            let mut b: usize = 0;
            while b < TILE_TYPE_COUNT
                invariant
                    a < TERRAIN_COUNT,
                    b <= TILE_TYPE_COUNT,
                    terrain_index(terrain) == a,
                    terrain != TerrainType::Any,
                    terrain_rules.wf(),
                    tile_type_rules.wf(),
                    terrain_rules.rules_for(terrain) == Some(views_of(terrain_states@)),
                    forall|t: TileType| t != TileType::Unknown ==> (#[trigger] tile_type_rules.permitted_for(t)) is Some,
                    tile_types@.len() == TILE_TYPE_COUNT,
                    forall|i: int| 0 <= i < TILE_TYPE_COUNT ==> tile_type_index(#[trigger] tile_types@[i]) == i,
                    states@.len() == TERRAIN_COUNT * TILE_TYPE_COUNT,
                    forall|t: TerrainType, tt: TileType|
                        #[trigger] entry_states(states@[terrain_index(t) * TILE_TYPE_COUNT + tile_type_index(tt)]) == if t
                            != TerrainType::Any && tt != TileType::Unknown && (terrain_index(t) < a || (terrain_index(
                            t,
                        ) == a && tile_type_index(tt) < b)) {
                            Some(with_names(terrain_rules.rules_for(t)->0, tile_type_rules.permitted_for(tt)->0))
                        } else {
                            None
                        },
                decreases TILE_TYPE_COUNT - b,
            {
                let tile_type = tile_types[b];
                if tile_type != TileType::Unknown {
                    let names = match &tile_type_rules.by_tile_type[b] {
                        Some(v) => v,
                        None => {
                            proof {
                                assert(tile_type_rules.permitted_for(tile_type) is Some);
                            }
                            return TerrainStateMap { states };
                        },
                    };
                    let kept = states_with_names(terrain_states, names);
                    let ghost before = states@;
                    states.set(a * TILE_TYPE_COUNT + b, Some(kept));
                    proof {
                        assert forall|t: TerrainType, tt: TileType|
                            #[trigger] entry_states(states@[terrain_index(t) * TILE_TYPE_COUNT + tile_type_index(tt)])
                                == if t != TerrainType::Any && tt != TileType::Unknown && (terrain_index(t) < a || (
                            terrain_index(t) == a && tile_type_index(tt) < b + 1)) {
                            Some(with_names(terrain_rules.rules_for(t)->0, tile_type_rules.permitted_for(tt)->0))
                        } else {
                            None
                        } by {
                            let k = terrain_index(t) * TILE_TYPE_COUNT + tile_type_index(tt);
                            if k == a * TILE_TYPE_COUNT + b {
                                assert(terrain_index(t) == a && tile_type_index(tt) == b) by (nonlinear_arith)
                                    requires
                                        k == terrain_index(t) * 18 + tile_type_index(tt),
                                        k == a * 18 + b,
                                        0 <= tile_type_index(tt) < 18,
                                        0 <= b < 18,
                                ;
                                assert(t == terrain);
                                assert(tt == tile_type);
                            } else {
                                assert(states@[k] == before[k]);
                            }
                        }
                    }
                }
                b = b + 1;
            }
        }
        a = a + 1;
    }
    TerrainStateMap { states }
}

} // verus!
