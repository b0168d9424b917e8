//! The voxel occupancy grid: bounds extraction, dense storage and the
//! destructive edit operations.
//!
//! A grid covers an axis-aligned bounding box of unit cells.  `origin`
//! (`start_x`, `start_y`, `start_z`) is the world coordinate of the box's
//! minimum corner; `len_x`, `len_y`, `len_z` are the box's inclusive extents.
//! One byte per cell (0 = empty, 1 = occupied) sits in `positions`, addressed
//! by the flattening formula `x + len_x * z + len_x * len_z * y` over
//! grid-local coordinates.

use vstd::arithmetic::div_mod::{
    lemma_fundamental_div_mod, lemma_fundamental_div_mod_converse_div,
    lemma_fundamental_div_mod_converse_mod, lemma_mod_division_less_than_divisor,
    lemma_multiply_divide_lt,
};
use vstd::prelude::*;

use crate::coord::Coord;

verus! {

/// A flag byte is 0 (empty) or 1 (occupied).
pub open spec fn is_flag(v: u8) -> bool {
    v == 0 || v == 1
}

/// The flattening formula: grid-local `(x, y, z)` to a flat storage index,
/// for a grid whose x-extent is `lx` and whose z-extent is `lz`.
pub open spec fn flat_index(x: int, y: int, z: int, lx: int, lz: int) -> int {
    x + lx * z + lx * lz * y
}

#[derive(Debug, PartialEq, Eq)]
pub struct Cubes {
    pub positions: Vec<u8>,
    pub start_x: i32,
    pub start_y: i32,
    pub start_z: i32,
    pub len_x: usize,
    pub len_y: usize,
    pub len_z: usize,
}

impl Cubes {
    /// Index step between cells that differ by one in grid-local z.
    pub open spec fn stride_z(self) -> int {
        self.len_x as int
    }

    /// Index step between cells that differ by one in grid-local y.
    pub open spec fn stride_y(self) -> int {
        self.len_x * self.len_z
    }

    /// Number of cells the bounding box holds.
    pub open spec fn total(self) -> int {
        self.len_x * self.len_z * self.len_y
    }

    /// Well-formedness: the storage length matches the box volume, every
    /// byte is a flag, the extents are all zero (structurally empty grid) or
    /// all positive, and every world cell coordinate fits in `i32`.
    pub open spec fn wf(self) -> bool {
        &&& self.positions@.len() == self.total()
        &&& forall|i: int|
            0 <= i < self.positions@.len() ==> is_flag(#[trigger] self.positions@[i])
        &&& (self.len_x == 0 && self.len_y == 0 && self.len_z == 0) || (self.len_x > 0
            && self.len_y > 0 && self.len_z > 0)
        &&& self.start_x + self.len_x <= i32::MAX + 1
        &&& self.start_y + self.len_y <= i32::MAX + 1
        &&& self.start_z + self.len_z <= i32::MAX + 1
    }

    /// The flat index of the grid-local coordinate `(x, y, z)`.
    pub open spec fn flat(self, x: int, y: int, z: int) -> int {
        flat_index(x, y, z, self.len_x as int, self.len_z as int)
    }

    /// Whether `(x, y, z)` is a grid-local coordinate inside the box.
    pub open spec fn in_bounds(self, x: int, y: int, z: int) -> bool {
        0 <= x < self.len_x && 0 <= y < self.len_y && 0 <= z < self.len_z
    }

    /// Whether the cell at grid-local `(x, y, z)` is occupied.
    pub open spec fn occupied(self, x: int, y: int, z: int) -> bool {
        self.positions@[self.flat(x, y, z)] == 1
    }

    /// Grid-local x of the cell at flat index `i`.
    pub open spec fn cell_x(self, i: int) -> int {
        i % (self.len_x as int)
    }

    /// Grid-local y of the cell at flat index `i`.
    pub open spec fn cell_y(self, i: int) -> int {
        i / self.stride_y()
    }

    /// Grid-local z of the cell at flat index `i`.
    pub open spec fn cell_z(self, i: int) -> int {
        (i % self.stride_y()) / (self.len_x as int)
    }
}

/// The flattening formula maps every in-bounds coordinate into the storage
/// range.
pub proof fn lemma_flat_bounds(x: int, y: int, z: int, lx: int, ly: int, lz: int)
    by (nonlinear_arith)
    requires
        0 <= x < lx,
        0 <= y < ly,
        0 <= z < lz,
    ensures
        0 <= flat_index(x, y, z, lx, lz) < lx * lz * ly,
{
}

/// The coordinate decomposition of a flat index built from an in-bounds
/// coordinate recovers exactly that coordinate.
pub proof fn lemma_flat_decompose(x: int, y: int, z: int, lx: int, ly: int, lz: int)
    requires
        0 <= x < lx,
        0 <= y < ly,
        0 <= z < lz,
    ensures
        flat_index(x, y, z, lx, lz) % lx == x,
        flat_index(x, y, z, lx, lz) % (lx * lz) == x + lx * z,
        flat_index(x, y, z, lx, lz) / (lx * lz) == y,
        (x + lx * z) / lx == z,
{
    let f = flat_index(x, y, z, lx, lz);
    assert(x + lx * z + lx * lz * y == (z + lz * y) * lx + x) by (nonlinear_arith);
    lemma_fundamental_div_mod_converse_mod(f, lx, z + lz * y, x);
    assert(0 <= x + lx * z < lx * lz) by (nonlinear_arith)
        requires
            0 <= x < lx,
            0 <= z < lz,
    ;
    assert(x + lx * z + lx * lz * y == y * (lx * lz) + (x + lx * z)) by (nonlinear_arith);
    lemma_fundamental_div_mod_converse_mod(f, lx * lz, y, x + lx * z);
    lemma_fundamental_div_mod_converse_div(f, lx * lz, y, x + lx * z);
    assert(x + lx * z == z * lx + x) by (nonlinear_arith);
    lemma_fundamental_div_mod_converse_div(x + lx * z, lx, z, x);
}

/// Every flat index inside the storage range decomposes into an in-bounds
/// coordinate that flattens back to it.
pub proof fn lemma_index_coords(i: int, lx: int, ly: int, lz: int)
    requires
        lx > 0,
        ly > 0,
        lz > 0,
        0 <= i < lx * lz * ly,
    ensures
        0 <= i % lx < lx,
        0 <= i / (lx * lz) < ly,
        0 <= (i % (lx * lz)) / lx < lz,
        i == flat_index(i % lx, i / (lx * lz), (i % (lx * lz)) / lx, lx, lz),
        i % (lx * lz) == i % lx + lx * ((i % (lx * lz)) / lx),
{
    assert(lx * lz > 0) by (nonlinear_arith)
        requires
            lx > 0,
            lz > 0,
    ;
    let sy = lx * lz;
    let y = i / sy;
    let r = i % sy;
    lemma_fundamental_div_mod(i, sy);
    lemma_mod_division_less_than_divisor(i, sy);
    assert(y >= 0) by (nonlinear_arith)
        requires
            i >= 0,
            sy > 0,
            i == sy * y + r,
            0 <= r < sy,
    ;
    assert(i < sy * ly);
    lemma_multiply_divide_lt(i, sy, ly);
    let z = r / lx;
    let x = r % lx;
    lemma_fundamental_div_mod(r, lx);
    lemma_mod_division_less_than_divisor(r, lx);
    assert(z >= 0) by (nonlinear_arith)
        requires
            r >= 0,
            lx > 0,
            r == lx * z + x,
            0 <= x < lx,
    ;
    lemma_multiply_divide_lt(r, lx, lz);
    // i % lx == x: i == (lz * y + z) * lx + x
    assert(i == (lz * y + z) * lx + x) by (nonlinear_arith)
        requires
            i == sy * y + r,
            r == lx * z + x,
            sy == lx * lz,
    ;
    lemma_fundamental_div_mod_converse_mod(i, lx, lz * y + z, x);
    assert(i == flat_index(x, y, z, lx, lz)) by (nonlinear_arith)
        requires
            i == sy * y + r,
            r == lx * z + x,
            sy == lx * lz,
    ;
}

/// The flattening formula is injective on in-bounds coordinates.
pub proof fn lemma_flat_injective(
    x1: int,
    y1: int,
    z1: int,
    x2: int,
    y2: int,
    z2: int,
    lx: int,
    ly: int,
    lz: int,
)
    requires
        0 <= x1 < lx,
        0 <= y1 < ly,
        0 <= z1 < lz,
        0 <= x2 < lx,
        0 <= y2 < ly,
        0 <= z2 < lz,
        flat_index(x1, y1, z1, lx, lz) == flat_index(x2, y2, z2, lx, lz),
    ensures
        x1 == x2,
        y1 == y2,
        z1 == z2,
{
    lemma_flat_decompose(x1, y1, z1, lx, ly, lz);
    lemma_flat_decompose(x2, y2, z2, lx, ly, lz);
}

/// Smallest x among the coordinates of a non-empty list.
pub open spec fn min_x(list: Seq<Coord<i32>>) -> int
    decreases list.len(),
{
    if list.len() <= 1 {
        list[0].x as int
    } else {
        let m = min_x(list.drop_last());
        if list[list.len() - 1].x < m {
            list[list.len() - 1].x as int
        } else {
            m
        }
    }
}

/// Smallest y among the coordinates of a non-empty list.
pub open spec fn min_y(list: Seq<Coord<i32>>) -> int
    decreases list.len(),
{
    if list.len() <= 1 {
        list[0].y as int
    } else {
        let m = min_y(list.drop_last());
        if list[list.len() - 1].y < m {
            list[list.len() - 1].y as int
        } else {
            m
        }
    }
}

/// Smallest z among the coordinates of a non-empty list.
pub open spec fn min_z(list: Seq<Coord<i32>>) -> int
    decreases list.len(),
{
    if list.len() <= 1 {
        list[0].z as int
    } else {
        let m = min_z(list.drop_last());
        if list[list.len() - 1].z < m {
            list[list.len() - 1].z as int
        } else {
            m
        }
    }
}

/// Largest x among the coordinates of a non-empty list.
pub open spec fn max_x(list: Seq<Coord<i32>>) -> int
    decreases list.len(),
{
    if list.len() <= 1 {
        list[0].x as int
    } else {
        let m = max_x(list.drop_last());
        if list[list.len() - 1].x > m {
            list[list.len() - 1].x as int
        } else {
            m
        }
    }
}

/// Largest y among the coordinates of a non-empty list.
pub open spec fn max_y(list: Seq<Coord<i32>>) -> int
    decreases list.len(),
{
    if list.len() <= 1 {
        list[0].y as int
    } else {
        let m = max_y(list.drop_last());
        if list[list.len() - 1].y > m {
            list[list.len() - 1].y as int
        } else {
            m
        }
    }
}

/// Largest z among the coordinates of a non-empty list.
pub open spec fn max_z(list: Seq<Coord<i32>>) -> int
    decreases list.len(),
{
    if list.len() <= 1 {
        list[0].z as int
    } else {
        let m = max_z(list.drop_last());
        if list[list.len() - 1].z > m {
            list[list.len() - 1].z as int
        } else {
            m
        }
    }
}

/// `min_x` is a lower bound on every x in the list and is attained.
pub proof fn lemma_min_x_properties(list: Seq<Coord<i32>>)
    requires
        list.len() > 0,
    ensures
        forall|k: int| 0 <= k < list.len() ==> min_x(list) <= (#[trigger] list[k]).x,
        exists|k: int| 0 <= k < list.len() && (#[trigger] list[k]).x == min_x(list),
    decreases list.len(),
{
    if list.len() == 1 {
        assert(list[0].x == min_x(list));
    } else {
        lemma_min_x_properties(list.drop_last());
        let last = list.len() - 1;
        if list[last].x < min_x(list.drop_last()) {
            assert(list[last].x == min_x(list));
        } else {
            let k0 = choose|k: int|
                0 <= k < list.drop_last().len() && (#[trigger] list.drop_last()[k]).x == min_x(
                    list.drop_last(),
                );
            assert(list[k0] == list.drop_last()[k0]);
            assert(0 <= k0 < list.len() && list[k0].x == min_x(list));
        }
        assert forall|k: int| 0 <= k < list.len() implies min_x(list) <= (#[trigger] list[k]).x by {
            if k < last {
                assert(list.drop_last()[k] == list[k]);
            }
        }
    }
}

/// `min_y` is a lower bound on every y in the list and is attained.
pub proof fn lemma_min_y_properties(list: Seq<Coord<i32>>)
    requires
        list.len() > 0,
    ensures
        forall|k: int| 0 <= k < list.len() ==> min_y(list) <= (#[trigger] list[k]).y,
        exists|k: int| 0 <= k < list.len() && (#[trigger] list[k]).y == min_y(list),
    decreases list.len(),
{
    if list.len() == 1 {
        assert(list[0].y == min_y(list));
    } else {
        lemma_min_y_properties(list.drop_last());
        let last = list.len() - 1;
        if list[last].y < min_y(list.drop_last()) {
            assert(list[last].y == min_y(list));
        } else {
            let k0 = choose|k: int|
                0 <= k < list.drop_last().len() && (#[trigger] list.drop_last()[k]).y == min_y(
                    list.drop_last(),
                );
            assert(list[k0] == list.drop_last()[k0]);
            assert(0 <= k0 < list.len() && list[k0].y == min_y(list));
        }
        assert forall|k: int| 0 <= k < list.len() implies min_y(list) <= (#[trigger] list[k]).y by {
            if k < last {
                assert(list.drop_last()[k] == list[k]);
            }
        }
    }
}

/// `min_z` is a lower bound on every z in the list and is attained.
pub proof fn lemma_min_z_properties(list: Seq<Coord<i32>>)
    requires
        list.len() > 0,
    ensures
        forall|k: int| 0 <= k < list.len() ==> min_z(list) <= (#[trigger] list[k]).z,
        exists|k: int| 0 <= k < list.len() && (#[trigger] list[k]).z == min_z(list),
    decreases list.len(),
{
    if list.len() == 1 {
        assert(list[0].z == min_z(list));
    } else {
        lemma_min_z_properties(list.drop_last());
        let last = list.len() - 1;
        if list[last].z < min_z(list.drop_last()) {
            assert(list[last].z == min_z(list));
        } else {
            let k0 = choose|k: int|
                0 <= k < list.drop_last().len() && (#[trigger] list.drop_last()[k]).z == min_z(
                    list.drop_last(),
                );
            assert(list[k0] == list.drop_last()[k0]);
            assert(0 <= k0 < list.len() && list[k0].z == min_z(list));
        }
        assert forall|k: int| 0 <= k < list.len() implies min_z(list) <= (#[trigger] list[k]).z by {
            if k < last {
                assert(list.drop_last()[k] == list[k]);
            }
        }
    }
}

/// `max_x` is an upper bound on every x in the list and is attained.
pub proof fn lemma_max_x_properties(list: Seq<Coord<i32>>)
    requires
        list.len() > 0,
    ensures
        forall|k: int| 0 <= k < list.len() ==> (#[trigger] list[k]).x <= max_x(list),
        exists|k: int| 0 <= k < list.len() && (#[trigger] list[k]).x == max_x(list),
    decreases list.len(),
{
    if list.len() == 1 {
        assert(list[0].x == max_x(list));
    } else {
        lemma_max_x_properties(list.drop_last());
        let last = list.len() - 1;
        if list[last].x > max_x(list.drop_last()) {
            assert(list[last].x == max_x(list));
        } else {
            let k0 = choose|k: int|
                0 <= k < list.drop_last().len() && (#[trigger] list.drop_last()[k]).x == max_x(
                    list.drop_last(),
                );
            assert(list[k0] == list.drop_last()[k0]);
            assert(0 <= k0 < list.len() && list[k0].x == max_x(list));
        }
        assert forall|k: int| 0 <= k < list.len() implies (#[trigger] list[k]).x <= max_x(list) by {
            if k < last {
                assert(list.drop_last()[k] == list[k]);
            }
        }
    }
}

/// `max_y` is an upper bound on every y in the list and is attained.
pub proof fn lemma_max_y_properties(list: Seq<Coord<i32>>)
    requires
        list.len() > 0,
    ensures
        forall|k: int| 0 <= k < list.len() ==> (#[trigger] list[k]).y <= max_y(list),
        exists|k: int| 0 <= k < list.len() && (#[trigger] list[k]).y == max_y(list),
    decreases list.len(),
{
    if list.len() == 1 {
        assert(list[0].y == max_y(list));
    } else {
        lemma_max_y_properties(list.drop_last());
        let last = list.len() - 1;
        if list[last].y > max_y(list.drop_last()) {
            assert(list[last].y == max_y(list));
        } else {
            let k0 = choose|k: int|
                0 <= k < list.drop_last().len() && (#[trigger] list.drop_last()[k]).y == max_y(
                    list.drop_last(),
                );
            assert(list[k0] == list.drop_last()[k0]);
            assert(0 <= k0 < list.len() && list[k0].y == max_y(list));
        }
        assert forall|k: int| 0 <= k < list.len() implies (#[trigger] list[k]).y <= max_y(list) by {
            if k < last {
                assert(list.drop_last()[k] == list[k]);
            }
        }
    }
}

/// `max_z` is an upper bound on every z in the list and is attained.
pub proof fn lemma_max_z_properties(list: Seq<Coord<i32>>)
    requires
        list.len() > 0,
    ensures
        forall|k: int| 0 <= k < list.len() ==> (#[trigger] list[k]).z <= max_z(list),
        exists|k: int| 0 <= k < list.len() && (#[trigger] list[k]).z == max_z(list),
    decreases list.len(),
{
    if list.len() == 1 {
        assert(list[0].z == max_z(list));
    } else {
        lemma_max_z_properties(list.drop_last());
        let last = list.len() - 1;
        if list[last].z > max_z(list.drop_last()) {
            assert(list[last].z == max_z(list));
        } else {
            let k0 = choose|k: int|
                0 <= k < list.drop_last().len() && (#[trigger] list.drop_last()[k]).z == max_z(
                    list.drop_last(),
                );
            assert(list[k0] == list.drop_last()[k0]);
            assert(0 <= k0 < list.len() && list[k0].z == max_z(list));
        }
        assert forall|k: int| 0 <= k < list.len() implies (#[trigger] list[k]).z <= max_z(list) by {
            if k < last {
                assert(list.drop_last()[k] == list[k]);
            }
        }
    }
}

impl Cubes {
    /// What `new_list` builds from a non-empty coordinate list: per axis the
    /// origin is the minimum and the extent is maximum − minimum + 1, and a
    /// cell is occupied exactly when some list entry rebases to it.
    pub open spec fn built_from(self, list: Seq<Coord<i32>>) -> bool {
        &&& self.wf()
        &&& self.start_x == min_x(list)
        &&& self.start_y == min_y(list)
        &&& self.start_z == min_z(list)
        &&& self.len_x == max_x(list) - min_x(list) + 1
        &&& self.len_y == max_y(list) - min_y(list) + 1
        &&& self.len_z == max_z(list) - min_z(list) + 1
        &&& forall|x: int, y: int, z: int|
            self.in_bounds(x, y, z) ==> (#[trigger] self.occupied(x, y, z) <==> exists|k: int|
                0 <= k < list.len() && (#[trigger] list[k]).x == self.start_x + x && list[k].y
                    == self.start_y + y && list[k].z == self.start_z + z)
    }
}

impl Cubes {
    /// An empty grid: no storage, zero origin and extents.
    pub fn new() -> (r: Self)
        ensures
            r.wf(),
            r.positions@.len() == 0,
            r.start_x == 0 && r.start_y == 0 && r.start_z == 0,
            r.len_x == 0 && r.len_y == 0 && r.len_z == 0,
    {
        Self {
            positions: Vec::new(),
            start_x: 0,
            start_y: 0,
            start_z: 0,
            len_x: 0,
            len_y: 0,
            len_z: 0,
        }
    }

    /// Builds the grid for a non-empty coordinate list: the bounding box is
    /// the per-axis minimum and maximum of the list, the storage covers the
    /// whole box, and exactly the listed coordinates are occupied.  Returns
    /// `None` exactly when the list is empty.  The box volume must fit in
    /// `usize`, or the storage could not be allocated.
    #[verifier::loop_isolation(false)]
    pub fn new_list(list: Vec<Coord<i32>>) -> (r: Option<Cubes>)
        requires
            list@.len() > 0 ==> (max_x(list@) - min_x(list@) + 1) * (max_z(list@) - min_z(list@)
                + 1) * (max_y(list@) - min_y(list@) + 1) <= usize::MAX,
        ensures
            (r is Some) <==> list@.len() > 0,
            r matches Some(g) ==> {
                &&& g.built_from(list@)
                &&& forall|k: int|
                    0 <= k < list@.len() ==> g.occupied(
                        (#[trigger] list@[k]).x - g.start_x,
                        list@[k].y - g.start_y,
                        list@[k].z - g.start_z,
                    )
            },
    {
        let n: usize = list.len();
        if n == 0 {
            return None;
        }
        let first: Coord<i32> = list[0];
        let mut mn_x: i32 = first.x;
        let mut mx_x: i32 = first.x;
        let mut mn_y: i32 = first.y;
        let mut mx_y: i32 = first.y;
        let mut mn_z: i32 = first.z;
        let mut mx_z: i32 = first.z;
        let mut k: usize = 1;
        while k < n
            invariant
                1 <= k <= n,
                forall|j: int|
                    0 <= j < k ==> {
                        let c = #[trigger] list@[j];
                        mn_x <= c.x <= mx_x && mn_y <= c.y <= mx_y && mn_z <= c.z <= mx_z
                    },
                exists|j: int| 0 <= j < k && (#[trigger] list@[j]).x == mn_x,
                exists|j: int| 0 <= j < k && (#[trigger] list@[j]).x == mx_x,
                exists|j: int| 0 <= j < k && (#[trigger] list@[j]).y == mn_y,
                exists|j: int| 0 <= j < k && (#[trigger] list@[j]).y == mx_y,
                exists|j: int| 0 <= j < k && (#[trigger] list@[j]).z == mn_z,
                exists|j: int| 0 <= j < k && (#[trigger] list@[j]).z == mx_z,
            decreases n - k,
        {
            let c: Coord<i32> = list[k];
            if c.x < mn_x {
                mn_x = c.x;
            }
            if c.x > mx_x {
                mx_x = c.x;
            }
            if c.y < mn_y {
                mn_y = c.y;
            }
            if c.y > mx_y {
                mx_y = c.y;
            }
            if c.z < mn_z {
                mn_z = c.z;
            }
            if c.z > mx_z {
                mx_z = c.z;
            }
            k = k + 1;
        }
        proof {
            lemma_min_x_properties(list@);
            lemma_min_y_properties(list@);
            lemma_min_z_properties(list@);
            lemma_max_x_properties(list@);
            lemma_max_y_properties(list@);
            lemma_max_z_properties(list@);
            let ka = choose|j: int| 0 <= j < list@.len() && (#[trigger] list@[j]).x == min_x(list@);
            let kb = choose|j: int| 0 <= j < list@.len() && (#[trigger] list@[j]).x == mn_x;
            assert(mn_x <= list@[ka].x && min_x(list@) <= list@[kb].x);
            let kc = choose|j: int| 0 <= j < list@.len() && (#[trigger] list@[j]).y == min_y(list@);
            let kd = choose|j: int| 0 <= j < list@.len() && (#[trigger] list@[j]).y == mn_y;
            assert(mn_y <= list@[kc].y && min_y(list@) <= list@[kd].y);
            let ke = choose|j: int| 0 <= j < list@.len() && (#[trigger] list@[j]).z == min_z(list@);
            let kf = choose|j: int| 0 <= j < list@.len() && (#[trigger] list@[j]).z == mn_z;
            assert(mn_z <= list@[ke].z && min_z(list@) <= list@[kf].z);
            let kg = choose|j: int| 0 <= j < list@.len() && (#[trigger] list@[j]).x == max_x(list@);
            let kh = choose|j: int| 0 <= j < list@.len() && (#[trigger] list@[j]).x == mx_x;
            assert(list@[kg].x <= mx_x && list@[kh].x <= max_x(list@));
            let ki = choose|j: int| 0 <= j < list@.len() && (#[trigger] list@[j]).y == max_y(list@);
            let kj = choose|j: int| 0 <= j < list@.len() && (#[trigger] list@[j]).y == mx_y;
            assert(list@[ki].y <= mx_y && list@[kj].y <= max_y(list@));
            let kk = choose|j: int| 0 <= j < list@.len() && (#[trigger] list@[j]).z == max_z(list@);
            let kl = choose|j: int| 0 <= j < list@.len() && (#[trigger] list@[j]).z == mx_z;
            assert(list@[kk].z <= mx_z && list@[kl].z <= max_z(list@));
            assert(mn_x == min_x(list@) && mx_x == max_x(list@));
            assert(mn_y == min_y(list@) && mx_y == max_y(list@));
            assert(mn_z == min_z(list@) && mx_z == max_z(list@));
        }
        let ex: i64 = mx_x as i64 - mn_x as i64 + 1;
        let ey: i64 = mx_y as i64 - mn_y as i64 + 1;
        let ez: i64 = mx_z as i64 - mn_z as i64 + 1;
        proof {
            assert(ex <= usize::MAX && ez <= usize::MAX && ey <= usize::MAX && ex * ez
                <= usize::MAX && ex * ez * ey <= usize::MAX) by (nonlinear_arith)
                requires
                    1 <= ex,
                    1 <= ey,
                    1 <= ez,
                    ex * ez * ey <= usize::MAX,
            ;
        }
        let lx: usize = ex as usize;
        let ly: usize = ey as usize;
        let lz: usize = ez as usize;
        let sy: usize = lx * lz;
        let len_vec: usize = sy * ly;
        let mut positions: Vec<u8> = Vec::new();
        while positions.len() < len_vec
            invariant
                positions@.len() <= len_vec,
                forall|i: int| 0 <= i < positions@.len() ==> #[trigger] positions@[i] == 0,
            decreases len_vec - positions@.len(),
        {
            positions.push(0u8);
        }
        let mut k2: usize = 0;
        while k2 < n
            invariant
                k2 <= n,
                positions@.len() == len_vec,
                forall|i: int|
                    0 <= i < len_vec ==> ((#[trigger] positions@[i]) == 1 <==> exists|j: int|
                        0 <= j < k2 && flat_index(
                            (#[trigger] list@[j]).x - mn_x,
                            list@[j].y - mn_y,
                            list@[j].z - mn_z,
                            lx as int,
                            lz as int,
                        ) == i),
                forall|i: int| 0 <= i < len_vec ==> is_flag(#[trigger] positions@[i]),
            decreases n - k2,
        {
            let c: Coord<i32> = list[k2];
            let px: usize = (c.x as i64 - mn_x as i64) as usize;
            let py: usize = (c.y as i64 - mn_y as i64) as usize;
            let pz: usize = (c.z as i64 - mn_z as i64) as usize;
            proof {
                lemma_flat_bounds(px as int, py as int, pz as int, lx as int, ly as int, lz as int);
                assert(lx * pz <= lx * lz * ly && lx * lz <= lx * lz * ly && lx * lz * py <= lx * lz
                    * ly) by (nonlinear_arith)
                    requires
                        px < lx,
                        py < ly,
                        pz < lz,
                ;
            }
            let pos: usize = px + lx * pz + sy * py;
            positions[pos] = 1;
            proof {
                assert forall|i: int| 0 <= i < len_vec implies ((#[trigger] positions@[i]) == 1
                    <==> exists|j: int|
                    0 <= j < k2 + 1 && flat_index(
                        (#[trigger] list@[j]).x - mn_x,
                        list@[j].y - mn_y,
                        list@[j].z - mn_z,
                        lx as int,
                        lz as int,
                    ) == i) by {
                    if i == pos {
                        assert(flat_index(
                            (list@[k2 as int]).x - mn_x,
                            list@[k2 as int].y - mn_y,
                            list@[k2 as int].z - mn_z,
                            lx as int,
                            lz as int,
                        ) == i);
                    }
                }
            }
            k2 = k2 + 1;
        }
        let g = Cubes {
            positions,
            start_x: mn_x,
            start_y: mn_y,
            start_z: mn_z,
            len_x: lx,
            len_y: ly,
            len_z: lz,
        };
        proof {
            assert(g.wf());
            assert forall|x: int, y: int, z: int| g.in_bounds(x, y, z) implies ((
            #[trigger] g.occupied(x, y, z)) <==> exists|kw: int|
                0 <= kw < list@.len() && (#[trigger] list@[kw]).x == g.start_x + x && list@[kw].y
                    == g.start_y + y && list@[kw].z == g.start_z + z) by {
                lemma_flat_bounds(x, y, z, lx as int, ly as int, lz as int);
                if g.occupied(x, y, z) {
                    let j = choose|j: int|
                        0 <= j < n && flat_index(
                            (#[trigger] list@[j]).x - mn_x,
                            list@[j].y - mn_y,
                            list@[j].z - mn_z,
                            lx as int,
                            lz as int,
                        ) == g.flat(x, y, z);
                    lemma_flat_injective(
                        list@[j].x - mn_x,
                        list@[j].y - mn_y,
                        list@[j].z - mn_z,
                        x,
                        y,
                        z,
                        lx as int,
                        ly as int,
                        lz as int,
                    );
                    assert(list@[j].x == g.start_x + x && list@[j].y == g.start_y + y && list@[j].z
                        == g.start_z + z);
                }
                if exists|kw: int|
                    0 <= kw < list@.len() && (#[trigger] list@[kw]).x == g.start_x + x
                        && list@[kw].y == g.start_y + y && list@[kw].z == g.start_z + z {
                    let kw = choose|kw: int|
                        0 <= kw < list@.len() && (#[trigger] list@[kw]).x == g.start_x + x
                            && list@[kw].y == g.start_y + y && list@[kw].z == g.start_z + z;
                    assert(flat_index(
                        (list@[kw]).x - mn_x,
                        list@[kw].y - mn_y,
                        list@[kw].z - mn_z,
                        lx as int,
                        lz as int,
                    ) == g.flat(x, y, z));
                    assert(g.occupied(x, y, z));
                }
            }
            assert forall|kw: int| 0 <= kw < list@.len() implies g.occupied(
                (#[trigger] list@[kw]).x - g.start_x,
                list@[kw].y - g.start_y,
                list@[kw].z - g.start_z,
            ) by {
                let x = list@[kw].x - g.start_x;
                let y = list@[kw].y - g.start_y;
                let z = list@[kw].z - g.start_z;
                lemma_flat_bounds(x, y, z, lx as int, ly as int, lz as int);
                assert(flat_index(
                    (list@[kw]).x - mn_x,
                    list@[kw].y - mn_y,
                    list@[kw].z - mn_z,
                    lx as int,
                    lz as int,
                ) == g.flat(x, y, z));
            }
        }
        Some(g)
    }

    /// Clears the cell at grid-local `(x, y, z)` and reports whether it had
    /// been occupied.  The coordinate must lie inside the box; `try_remove`
    /// is the checked entry for coordinates that may not.
    pub fn remove(&mut self, x: usize, y: usize, z: usize) -> (r: bool)
        requires
            old(self).wf(),
            x < old(self).len_x,
            y < old(self).len_y,
            z < old(self).len_z,
        ensures
            final(self).wf(),
            r == old(self).occupied(x as int, y as int, z as int),
            final(self).positions@ == old(self).positions@.update(
                old(self).flat(x as int, y as int, z as int),
                0,
            ),
            final(self).start_x == old(self).start_x,
            final(self).start_y == old(self).start_y,
            final(self).start_z == old(self).start_z,
            final(self).len_x == old(self).len_x,
            final(self).len_y == old(self).len_y,
            final(self).len_z == old(self).len_z,
    {
        let n: usize = self.positions.len();
        proof {
            lemma_flat_bounds(
                x as int,
                y as int,
                z as int,
                self.len_x as int,
                self.len_y as int,
                self.len_z as int,
            );
            assert(self.len_x * z <= self.len_x * self.len_z * self.len_y && self.len_x
                * self.len_z <= self.len_x * self.len_z * self.len_y && self.len_x * self.len_z
                * y <= self.len_x * self.len_z * self.len_y) by (nonlinear_arith)
                requires
                    x < self.len_x,
                    y < self.len_y,
                    z < self.len_z,
            ;
        }
        let pos: usize = x + self.len_x * z + self.len_x * self.len_z * y;
        let state: u8 = self.positions[pos];
        self.positions[pos] = 0;
        state > 0
    }

    /// `remove` behind an explicit bounds check: `None` when the coordinate
    /// falls outside the box, otherwise `Some` of what `remove` reports.
    pub fn try_remove(&mut self, x: usize, y: usize, z: usize) -> (r: Option<bool>)
        requires
            old(self).wf(),
        ensures
            final(self).wf(),
            (r is Some) <==> (x < old(self).len_x && y < old(self).len_y && z < old(
                self,
            ).len_z),
            r is None ==> *final(self) == *old(self),
            r matches Some(b) ==> {
                &&& b == old(self).occupied(x as int, y as int, z as int)
                &&& final(self).positions@ == old(self).positions@.update(
                    old(self).flat(x as int, y as int, z as int),
                    0,
                )
                &&& final(self).start_x == old(self).start_x
                &&& final(self).start_y == old(self).start_y
                &&& final(self).start_z == old(self).start_z
                &&& final(self).len_x == old(self).len_x
                &&& final(self).len_y == old(self).len_y
                &&& final(self).len_z == old(self).len_z
            },
    {
        if x < self.len_x && y < self.len_y && z < self.len_z {
            Some(self.remove(x, y, z))
        } else {
            None
        }
    }
}

/// The highest index holding an occupied flag, or -1 when there is none.
pub open spec fn last_one(s: Seq<u8>) -> int
    decreases s.len(),
{
    if s.len() == 0 {
        -1
    } else if s[s.len() - 1] == 1 {
        s.len() - 1
    } else {
        last_one(s.drop_last())
    }
}

/// What `last_one` returns: -1 exactly when no flag is set, otherwise the
/// position of a set flag above which every flag is clear.
pub proof fn lemma_last_one_properties(s: Seq<u8>)
    ensures
        last_one(s) == -1 <==> forall|j: int| 0 <= j < s.len() ==> (#[trigger] s[j]) != 1,
        last_one(s) >= 0 ==> {
            &&& last_one(s) < s.len()
            &&& s[last_one(s)] == 1
            &&& forall|j: int| last_one(s) < j < s.len() ==> (#[trigger] s[j]) != 1
        },
    decreases s.len(),
{
    if s.len() > 0 && s[s.len() - 1] != 1 {
        lemma_last_one_properties(s.drop_last());
        assert forall|j: int| 0 <= j < s.len() - 1 implies s.drop_last()[j] == (
        #[trigger] s[j]) by {}
        if last_one(s) == -1 {
            assert(forall|j: int| 0 <= j < s.len() - 1 ==> (#[trigger] s[j]) != 1);
        }
    }
}

/// `last_one` is pinned by its characterization: a set flag with only clear
/// flags above it sits at index `p` exactly when `last_one` is `p`.
pub proof fn lemma_last_one_unique(s: Seq<u8>, p: int)
    requires
        0 <= p < s.len(),
        s[p] == 1,
        forall|j: int| p < j < s.len() ==> (#[trigger] s[j]) != 1,
    ensures
        last_one(s) == p,
    decreases s.len(),
{
    if p < s.len() - 1 {
        assert forall|j: int| p < j < s.len() - 1 implies s.drop_last()[j] != 1 by {
            assert(s.drop_last()[j] == s[j]);
        }
        assert(s.drop_last()[p] == s[p]);
        lemma_last_one_unique(s.drop_last(), p);
    }
}

impl Cubes {
    /// Clears the occupied cell with the highest flat index.  Returns `None`,
    /// changing nothing, when every cell is empty.  This is a scan-order
    /// "pop": the cleared cell is the last one in storage order, not the one
    /// added most recently.
    #[verifier::loop_isolation(false)]
    pub fn pop(&mut self) -> (r: Option<()>)
        requires
            old(self).wf(),
        ensures
            final(self).wf(),
            (r is Some) <==> exists|i: int|
                0 <= i < old(self).positions@.len() && (#[trigger] old(self).positions@[i]) == 1,
            r is None ==> *final(self) == *old(self),
            r is Some ==> {
                &&& last_one(old(self).positions@) >= 0
                &&& final(self).positions@ == old(self).positions@.update(
                    last_one(old(self).positions@),
                    0,
                )
                &&& final(self).start_x == old(self).start_x
                &&& final(self).start_y == old(self).start_y
                &&& final(self).start_z == old(self).start_z
                &&& final(self).len_x == old(self).len_x
                &&& final(self).len_y == old(self).len_y
                &&& final(self).len_z == old(self).len_z
            },
    {
        let ghost g0 = *self;
        let mut k: usize = self.positions.len();
        while k > 0
            invariant
                *self == g0,
                k <= self.positions@.len(),
                forall|j: int|
                    k <= j < self.positions@.len() ==> (#[trigger] self.positions@[j]) != 1,
            decreases k,
        {
            k = k - 1;
            if self.positions[k] == 1 {
                self.positions[k] = 0;
                proof {
                    assert(g0 == *old(self));
                    assert(old(self).positions@[k as int] == 1);
                    lemma_last_one_unique(old(self).positions@, k as int);
                    assert(last_one(old(self).positions@) == k as int);
                }
                return Some(());
            }
        }
        proof {
            lemma_last_one_properties(self.positions@);
        }
        None
    }
}

impl Default for Cubes {
    /// The empty grid, as `new` builds it.
    fn default() -> (r: Self)
        ensures
            r.wf(),
            r.positions@.len() == 0,
            r.start_x == 0 && r.start_y == 0 && r.start_z == 0,
            r.len_x == 0 && r.len_y == 0 && r.len_z == 0,
    {
        Self::new()
    }
}

/// Clearing an in-bounds cell leaves a well-formed grid in which that cell
/// is empty and every other cell is as it was: a second removal of the same
/// coordinate reports `false`.
pub proof fn lemma_remove_round_trip(g: Cubes, h: Cubes, x: int, y: int, z: int)
    requires
        g.wf(),
        g.in_bounds(x, y, z),
        h.positions@ == g.positions@.update(g.flat(x, y, z), 0),
        h.start_x == g.start_x,
        h.start_y == g.start_y,
        h.start_z == g.start_z,
        h.len_x == g.len_x,
        h.len_y == g.len_y,
        h.len_z == g.len_z,
    ensures
        h.wf(),
        !h.occupied(x, y, z),
        forall|a: int, b: int, c: int|
            h.in_bounds(a, b, c) && !(a == x && b == y && c == z) ==> h.occupied(a, b, c)
                == g.occupied(a, b, c),
{
    lemma_flat_bounds(x, y, z, g.len_x as int, g.len_y as int, g.len_z as int);
    assert forall|a: int, b: int, c: int|
        h.in_bounds(a, b, c) && !(a == x && b == y && c == z) implies h.occupied(a, b, c)
        == g.occupied(a, b, c) by {
        lemma_flat_bounds(a, b, c, g.len_x as int, g.len_y as int, g.len_z as int);
        if g.flat(a, b, c) == g.flat(x, y, z) {
            lemma_flat_injective(
                a,
                b,
                c,
                x,
                y,
                z,
                g.len_x as int,
                g.len_y as int,
                g.len_z as int,
            );
        }
    }
}

} // verus!
