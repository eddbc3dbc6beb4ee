//! A verified 2D signed-distance-field (SDF) engine.
//!
//! Shapes (disks, tori, rectangles, crosses, line segments, planes, rays) are
//! combined with boolean operators (union, intersect, subtract, xor) into a
//! tree, flattened into a postfix instruction tape, evaluated per-cell into a
//! dense distance grid, and queried for rendering and picking.
//!
//! All coordinates and distances are fixed-point integers: one world unit is
//! `math::UNIT` integer units, so the scalar field and every geometric formula
//! are exact integer functions that the contracts pin down completely.

pub mod controller;
pub mod grid;
pub mod gridref;
pub mod instructions;
pub mod math;
pub mod primitives;
pub mod primitives_enum;
pub mod resize;
pub mod sdf;
pub mod sdf_builder_tree;
pub mod sdf_interpreter;
pub mod sdf_wrapper;
pub mod stack;
pub mod ui;
