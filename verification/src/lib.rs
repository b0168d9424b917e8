//! A voxel occupancy grid with a face-culled mesh generator.
//!
//! The grid (`grid::Cubes`) stores one occupancy flag per unit cube inside
//! an axis-aligned bounding box, addressed through a fixed flattening
//! formula.  From the grid, `mesh` derives triangle geometry: one block of
//! eight corner vertices per occupied cell, and two triangles for every
//! face whose neighbouring cell is empty or outside the box.  Edits only
//! ever clear flags; the box never shrinks.
//!
//! Around the core sit small pure helpers for the interactive host that
//! drives it: launch configuration and switch validators (`config`),
//! key-state bitmaps (`keys`), and HRESULT error-code mapping (`hresult`).

pub mod config;
pub mod coord;
pub mod grid;
pub mod hresult;
pub mod keys;
pub mod mesh;
