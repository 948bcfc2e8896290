use crate::coords::Point;
use vstd::prelude::*;

verus! {

/// Refreshes the metadata of the world, then regenerates the world or prunes and updates it.
#[derive(Clone, Copy, Debug, PartialEq, Eq, Structural)]
pub struct RefreshMetadataMessage {
    pub regenerate_world_after: bool,
    pub prune_then_update_world_after: bool,
}

/// Removes the world and generates an entirely new one from the current settings.
#[derive(Clone, Copy, Debug, PartialEq, Eq, Structural)]
pub struct RegenerateWorldMessage {}

/// Evaluates the world: generates new chunks and prunes distant ones where needed. A forced update happens even if
/// the current chunk is unchanged and does not prune afterwards.
#[derive(Clone, Copy, Debug, PartialEq, Eq, Structural)]
pub struct UpdateWorldMessage {
    pub is_forced_update: bool,
    pub w: Point,
    pub tg: Point,
}

/// Despawns chunks: all of them, or the distant ones, optionally updating the world afterwards.
#[derive(Clone, Copy, Debug, PartialEq, Eq, Structural)]
pub struct PruneWorldMessage {
    pub despawn_all_chunks: bool,
    pub update_world_after: bool,
}

/// Resets the camera's zoom, and its position if `reset_position` is set.
#[derive(Clone, Copy, Debug, PartialEq, Eq, Structural)]
pub struct ResetCameraMessage {
    pub reset_position: bool,
}

/// Turns the display of diagnostics on or off.
#[derive(Clone, Copy, Debug, PartialEq, Eq, Structural)]
pub struct ToggleDiagnosticsMessage {}

/// Turns the display of debug information about tiles on or off.
#[derive(Clone, Copy, Debug, PartialEq, Eq, Structural)]
pub struct ToggleDebugInfoMessage {}

/// The user right-clicked at a tile of the world.
#[derive(Clone, Copy, Debug, PartialEq, Eq, Structural)]
pub struct MouseRightClickMessage {
    pub tile_w: Point,
    pub cg: Point,
    pub tg: Point,
}

} // verus!
