//! Settlements beside the paths of a chunk: road pieces joined by entrances, building templates, fenced fields and
//! their placement.

pub mod building_template;
pub mod buildings;
pub mod field_shapes;
pub mod fields;
pub mod point_set;
pub mod registry;
pub mod road;
pub mod settlement_generation;
