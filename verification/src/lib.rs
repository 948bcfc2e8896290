//! Procedural generation of a chunked, tile-based 2D world: wave function collapse over object grids, A* path
//! finding, path piece selection, and settlement placement (buildings and fenced fields).

pub mod biome;
pub mod component_index;
pub mod constants;
pub mod coords;
pub mod messages;
pub mod object;
pub mod post_processor;
pub mod random;
pub mod seed;
pub mod settlement;
pub mod states;
pub mod tile;
pub mod tile_paths;
