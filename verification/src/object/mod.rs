//! Objects placed on top of the terrain: their names, the cells and grids the wave function collapse runs on, and the
//! placement of paths, buildings and fields.

pub mod cell;
pub mod connection;
pub mod entropy_index;
pub mod initialisation;
pub mod object_grid;
pub mod object_name;
pub mod path;
pub mod path_names;
pub mod path_network;
pub mod pathfinding;
pub mod rules;
pub mod permitted_object_names;
pub mod terrain;
pub mod terrain_state;
pub mod validation;
pub mod wfc;
