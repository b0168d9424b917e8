//! The coordinate triple shared by grid input and mesh output.

use vstd::prelude::*;

verus! {

/// A 3-component coordinate.  Grid construction takes world coordinates as
/// `Coord<i32>`; the mesh generator hands vertex positions back as
/// `Coord<i64>`, wide enough for every corner of a cube whose cell
/// coordinate is an `i32`.
#[derive(Clone, Copy, Debug, PartialEq, Eq)]
pub struct Coord<T> {
    pub x: T,
    pub y: T,
    pub z: T,
}

} // verus!
