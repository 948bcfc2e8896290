use crate::object::object_name::ObjectName;
use crate::object::terrain_state::copy_names;
use std::collections::HashMap;
use vstd::prelude::*;

verus! {

broadcast use vstd::std_specs::hash::group_hash_axioms;

/// The kinds of building a settlement has.
#[derive(Clone, Copy, Debug, PartialEq, Eq, Hash, Structural)]
pub enum BuildingType {
    SmallHouse,
    MediumHouse,
}

/// The storeys of a building.
#[derive(Clone, Copy, Debug, PartialEq, Eq, Hash, Structural)]
pub enum Level {
    GroundFloor,
    Roof,
}

/// The parts of a storey, from left to right, with or without a door.
#[derive(Clone, Copy, Debug, PartialEq, Eq, Hash, Structural)]
pub enum StructureType {
    Left,
    Middle,
    Right,
    LeftDoor,
    MiddleDoor,
    RightDoor,
}

/// The objects that may be drawn for one part of a building.
#[derive(Debug)]
pub struct Variants {
    pub variants: Vec<ObjectName>,
}

impl Variants {
    pub fn empty() -> (v: Variants)
        ensures
            v.variants@ == Seq::<ObjectName>::empty(),
    {
        Variants { variants: Vec::new() }
    }

    pub fn new(variants: Vec<ObjectName>) -> (v: Variants)
        ensures
            v.variants@ == variants@,
    {
        Variants { variants }
    }
}

/// The key under which the variants of a part of a building are kept.
pub open spec fn spec_registry_key(building_type: BuildingType, level: Level, structure_type: StructureType) -> u64 {
    let b: u64 = match building_type {
        BuildingType::SmallHouse => 0,
        BuildingType::MediumHouse => 1,
    };
    let l: u64 = match level {
        Level::GroundFloor => 0,
        Level::Roof => 1,
    };
    let s: u64 = match structure_type {
        StructureType::Left => 0,
        StructureType::Middle => 1,
        StructureType::Right => 2,
        StructureType::LeftDoor => 3,
        StructureType::MiddleDoor => 4,
        StructureType::RightDoor => 5,
    };
    (b * 100 + l * 10 + s) as u64
}

/// Returns the key under which the variants of a part of a building are kept.
fn registry_key(building_type: BuildingType, level: Level, structure_type: StructureType) -> (key: u64)
    ensures
        key == spec_registry_key(building_type, level, structure_type),
{
    let b: u64 = match building_type {
        BuildingType::SmallHouse => 0,
        BuildingType::MediumHouse => 1,
    };
    let l: u64 = match level {
        Level::GroundFloor => 0,
        Level::Roof => 1,
    };
    let s: u64 = match structure_type {
        StructureType::Left => 0,
        StructureType::Middle => 1,
        StructureType::Right => 2,
        StructureType::LeftDoor => 3,
        StructureType::MiddleDoor => 4,
        StructureType::RightDoor => 5,
    };
    b * 100 + l * 10 + s
}

/// The variants of each part of each building.
#[derive(Debug)]
pub struct BuildingComponentRegistry {
    pub variants: HashMap<u64, Variants>,
}

/// The variants the registry starts with.
pub open spec fn initial_variants(building_type: BuildingType, level: Level, structure_type: StructureType) -> Seq<
    ObjectName,
> {
    match (building_type, level, structure_type) {
        (BuildingType::SmallHouse, Level::GroundFloor, StructureType::LeftDoor) => seq![
            ObjectName::HouseSmallDoorLeft1,
            ObjectName::HouseSmallDoorLeft2,
        ],
        (BuildingType::SmallHouse, Level::GroundFloor, StructureType::MiddleDoor) => seq![ObjectName::HouseSmallDoorMiddle],
        (BuildingType::SmallHouse, Level::GroundFloor, StructureType::RightDoor) => seq![
            ObjectName::HouseSmallDoorRight1,
            ObjectName::HouseSmallDoorRight2,
        ],
        (BuildingType::SmallHouse, Level::GroundFloor, StructureType::Left) => seq![ObjectName::HouseSmallWallLeft],
        (BuildingType::SmallHouse, Level::GroundFloor, StructureType::Middle) => seq![
            ObjectName::HouseSmallWallMiddle1,
            ObjectName::HouseSmallWallMiddle2,
        ],
        (BuildingType::SmallHouse, Level::GroundFloor, StructureType::Right) => seq![ObjectName::HouseSmallWallRight],
        (BuildingType::SmallHouse, Level::Roof, StructureType::Left) => seq![
            ObjectName::HouseSmallRoofLeft1,
            ObjectName::HouseSmallRoofLeft2,
            ObjectName::HouseSmallRoofLeft3,
        ],
        (BuildingType::SmallHouse, Level::Roof, StructureType::Middle) => seq![
            ObjectName::HouseSmallRoofMiddle1,
            ObjectName::HouseSmallRoofMiddle2,
            ObjectName::HouseSmallRoofMiddle3,
        ],
        (BuildingType::SmallHouse, Level::Roof, StructureType::Right) => seq![
            ObjectName::HouseSmallRoofRight1,
            ObjectName::HouseSmallRoofRight2,
            ObjectName::HouseSmallRoofRight3,
        ],
        (BuildingType::MediumHouse, Level::GroundFloor, StructureType::LeftDoor) => seq![
            ObjectName::HouseMediumDoorLeft1,
            ObjectName::HouseMediumDoorLeft2,
        ],
        (BuildingType::MediumHouse, Level::GroundFloor, StructureType::MiddleDoor) => seq![
            ObjectName::HouseMediumDoorMiddle,
        ],
        (BuildingType::MediumHouse, Level::GroundFloor, StructureType::RightDoor) => seq![
            ObjectName::HouseMediumDoorRight1,
            ObjectName::HouseMediumDoorRight2,
        ],
        (BuildingType::MediumHouse, Level::GroundFloor, StructureType::Left) => seq![ObjectName::HouseMediumWallLeft],
        (BuildingType::MediumHouse, Level::GroundFloor, StructureType::Middle) => seq![
            ObjectName::HouseMediumWallMiddle1,
            ObjectName::HouseMediumWallMiddle2,
        ],
        (BuildingType::MediumHouse, Level::GroundFloor, StructureType::Right) => seq![ObjectName::HouseMediumWallRight],
        (BuildingType::MediumHouse, Level::Roof, StructureType::Left) => seq![
            ObjectName::HouseMediumRoofLeft1,
            ObjectName::HouseMediumRoofLeft2,
            ObjectName::HouseMediumRoofLeft3,
        ],
        (BuildingType::MediumHouse, Level::Roof, StructureType::Middle) => seq![
            ObjectName::HouseMediumRoofMiddle1,
            ObjectName::HouseMediumRoofMiddle2,
            ObjectName::HouseMediumRoofMiddle3,
        ],
        (BuildingType::MediumHouse, Level::Roof, StructureType::Right) => seq![
            ObjectName::HouseMediumRoofRight1,
            ObjectName::HouseMediumRoofRight2,
            ObjectName::HouseMediumRoofRight3,
        ],
        _ => Seq::empty(),
    }
}

impl BuildingComponentRegistry {
    /// The variants kept for a part of a building; none where nothing is kept.
    pub open spec fn variants_for(self, building_type: BuildingType, level: Level, structure_type: StructureType) -> Seq<
        ObjectName,
    > {
        let key = spec_registry_key(building_type, level, structure_type);
        if self.variants@.contains_key(key) {
            self.variants@[key].variants@
        } else {
            Seq::empty()
        }
    }

    /// An empty registry.
    pub fn default() -> (registry: BuildingComponentRegistry)
        ensures
            forall|b: BuildingType, l: Level, s: StructureType| #[trigger] registry.variants_for(b, l, s) == Seq::<
                ObjectName,
            >::empty(),
    {
        BuildingComponentRegistry { variants: HashMap::new() }
    }

    /// The registry with the variants of the small and the medium house.
    pub fn new_initialised() -> (registry: BuildingComponentRegistry)
        ensures
            forall|b: BuildingType, l: Level, s: StructureType| #[trigger] registry.variants_for(b, l, s)
                == initial_variants(b, l, s),
    {
        let mut registry = BuildingComponentRegistry::default();
        registry.insert_doors_with_3_structures(
            BuildingType::SmallHouse,
            Level::GroundFloor,
            vec![ObjectName::HouseSmallDoorLeft1, ObjectName::HouseSmallDoorLeft2],
            vec![ObjectName::HouseSmallDoorMiddle],
            vec![ObjectName::HouseSmallDoorRight1, ObjectName::HouseSmallDoorRight2],
        );
        registry.insert_level_with_3_structures(
            BuildingType::SmallHouse,
            Level::GroundFloor,
            vec![ObjectName::HouseSmallWallLeft],
            vec![ObjectName::HouseSmallWallMiddle1, ObjectName::HouseSmallWallMiddle2],
            vec![ObjectName::HouseSmallWallRight],
        );
        registry.insert_level_with_3_structures(
            BuildingType::SmallHouse,
            Level::Roof,
            vec![ObjectName::HouseSmallRoofLeft1, ObjectName::HouseSmallRoofLeft2, ObjectName::HouseSmallRoofLeft3],
            vec![
                ObjectName::HouseSmallRoofMiddle1,
                ObjectName::HouseSmallRoofMiddle2,
                ObjectName::HouseSmallRoofMiddle3,
            ],
            vec![ObjectName::HouseSmallRoofRight1, ObjectName::HouseSmallRoofRight2, ObjectName::HouseSmallRoofRight3],
        );
        registry.insert_doors_with_3_structures(
            BuildingType::MediumHouse,
            Level::GroundFloor,
            vec![ObjectName::HouseMediumDoorLeft1, ObjectName::HouseMediumDoorLeft2],
            vec![ObjectName::HouseMediumDoorMiddle],
            vec![ObjectName::HouseMediumDoorRight1, ObjectName::HouseMediumDoorRight2],
        );
        registry.insert_level_with_3_structures(
            BuildingType::MediumHouse,
            Level::GroundFloor,
            vec![ObjectName::HouseMediumWallLeft],
            vec![ObjectName::HouseMediumWallMiddle1, ObjectName::HouseMediumWallMiddle2],
            vec![ObjectName::HouseMediumWallRight],
        );
        registry.insert_level_with_3_structures(
            BuildingType::MediumHouse,
            Level::Roof,
            vec![ObjectName::HouseMediumRoofLeft1, ObjectName::HouseMediumRoofLeft2, ObjectName::HouseMediumRoofLeft3],
            vec![
                ObjectName::HouseMediumRoofMiddle1,
                ObjectName::HouseMediumRoofMiddle2,
                ObjectName::HouseMediumRoofMiddle3,
            ],
            vec![
                ObjectName::HouseMediumRoofRight1,
                ObjectName::HouseMediumRoofRight2,
                ObjectName::HouseMediumRoofRight3,
            ],
        );
        registry
    }

    /// Keeps `variants` for the part `structure_type` of storey `level` of `building_type`.
    fn insert(&mut self, building_type: BuildingType, level: Level, structure_type: StructureType, variants: Vec<ObjectName>)
        ensures
            forall|b: BuildingType, l: Level, s: StructureType| #[trigger] final(self).variants_for(b, l, s) == if (b, l, s) == (
                building_type,
                level,
                structure_type,
            ) {
                variants@
            } else {
                old(self).variants_for(b, l, s)
            },
    {
        let key = registry_key(building_type, level, structure_type);
        self.variants.insert(key, Variants::new(variants));
        proof {
            assert forall|b: BuildingType, l: Level, s: StructureType| #[trigger] self.variants_for(b, l, s) == if (b, l, s)
                == (building_type, level, structure_type) {
                variants@
            } else {
                old(self).variants_for(b, l, s)
            } by {
                if (b, l, s) != (building_type, level, structure_type) {
                    assert(spec_registry_key(b, l, s) != key);
                }
            }
        }
    }

    /// Keeps the variants of the left, middle and right part of storey `level` of `building_type`.
    fn insert_level_with_3_structures(
        &mut self,
        building_type: BuildingType,
        level: Level,
        left: Vec<ObjectName>,
        middle: Vec<ObjectName>,
        right: Vec<ObjectName>,
    )
        ensures
            forall|b: BuildingType, l: Level, s: StructureType| #[trigger] final(self).variants_for(b, l, s) == if b
                == building_type && l == level && s == StructureType::Left {
                left@
            } else if b == building_type && l == level && s == StructureType::Middle {
                middle@
            } else if b == building_type && l == level && s == StructureType::Right {
                right@
            } else {
                old(self).variants_for(b, l, s)
            },
    {
        self.insert(building_type, level, StructureType::Left, left);
        self.insert(building_type, level, StructureType::Middle, middle);
        self.insert(building_type, level, StructureType::Right, right);
    }

    /// Keeps the variants of the left, middle and right door part of storey `level` of `building_type`.
    fn insert_doors_with_3_structures(
        &mut self,
        building_type: BuildingType,
        level: Level,
        left: Vec<ObjectName>,
        middle: Vec<ObjectName>,
        right: Vec<ObjectName>,
    )
        ensures
            forall|b: BuildingType, l: Level, s: StructureType| #[trigger] final(self).variants_for(b, l, s) == if b
                == building_type && l == level && s == StructureType::LeftDoor {
                left@
            } else if b == building_type && l == level && s == StructureType::MiddleDoor {
                middle@
            } else if b == building_type && l == level && s == StructureType::RightDoor {
                right@
            } else {
                old(self).variants_for(b, l, s)
            },
    {
        self.insert(building_type, level, StructureType::LeftDoor, left);
        self.insert(building_type, level, StructureType::MiddleDoor, middle);
        self.insert(building_type, level, StructureType::RightDoor, right);
    }

    /// Returns the variants kept for a part of a building; none where nothing is kept.
    pub fn get_variants_for(&self, building_type: &BuildingType, level_type: &Level, structure_type: &StructureType) -> (variants: Vec<ObjectName>)
        ensures
            variants@ == self.variants_for(*building_type, *level_type, *structure_type),
    {
        let key = registry_key(*building_type, *level_type, *structure_type);
        match self.variants.get(&key) {
            Some(v) => copy_names(&v.variants),
            None => Vec::new(),
        }
    }
}

} // verus!
