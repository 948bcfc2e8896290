use vstd::prelude::*;

verus! {

/// The terrain of a tile, from the lowest layer up. [`TerrainType::Any`] stands for rules shared by all terrains.
#[derive(Clone, Copy, Debug, PartialEq, Eq, Hash, Structural)]
pub enum TerrainType {
    Water,
    Shore,
    Land1,
    Land2,
    Land3,
    Any,
}

/// The shape of a tile relative to its neighbours of the same terrain.
#[derive(Clone, Copy, Debug, PartialEq, Eq, Hash, Structural)]
pub enum TileType {
    Fill,
    InnerCornerBottomLeft,
    InnerCornerBottomRight,
    InnerCornerTopLeft,
    InnerCornerTopRight,
    OuterCornerBottomLeft,
    OuterCornerBottomRight,
    OuterCornerTopLeft,
    OuterCornerTopRight,
    TopLeftToBottomRightBridge,
    TopRightToBottomLeftBridge,
    TopFill,
    BottomFill,
    RightFill,
    LeftFill,
    Single,
    Empty,
    Unknown,
}

/// The climate of a chunk, derived from its rainfall.
#[derive(Clone, Copy, Debug, PartialEq, Eq, Hash, Structural)]
pub enum Climate {
    Dry,
    Moderate,
    Humid,
}

} // verus!
