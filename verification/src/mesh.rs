//! Mesh synthesis: one linear scan of the occupancy array that emits, for
//! every occupied cell, a block of eight corner vertices and, for every face
//! whose neighbouring cell is empty or outside the box, six triangle indices.
//!
//! Vertices are not shared between cells: each occupied cell contributes its
//! own eight, so index arithmetic stays uniform (a running shift of 8 per
//! occupied cell).  Faces are emitted in a fixed order — -X, +X, -Z, +Z,
//! +Y, -Y — each as two triangles over a fixed corner template.

use vstd::arithmetic::div_mod::lemma_mod_multiples_basic;
use vstd::prelude::*;
use vstd::seq_lib::lemma_concat_associative;

use crate::coord::Coord;
use crate::grid::{lemma_flat_bounds, lemma_flat_decompose, lemma_index_coords, Cubes};

verus! {

/// Corner `j` of the unit-cube template: x offset.
pub open spec fn corner_dx(j: int) -> int {
    if 4 <= j {
        1
    } else {
        0
    }
}

/// Corner `j` of the unit-cube template: y offset.
pub open spec fn corner_dy(j: int) -> int {
    if 2 <= j <= 5 {
        1
    } else {
        0
    }
}

/// Corner `j` of the unit-cube template: z offset.
pub open spec fn corner_dz(j: int) -> int {
    if j == 1 || j == 2 || j == 5 || j == 6 {
        1
    } else {
        0
    }
}

/// Entry `j` of the six-index triangle template of face `f` (faces in
/// emission order -X, +X, -Z, +Z, +Y, -Y), naming a corner 0..=7.
pub open spec fn face_corner(f: int, j: int) -> int {
    if f == 0 {
        // -X
        if j == 0 {
            0
        } else if j == 1 {
            1
        } else if j == 2 {
            2
        } else if j == 3 {
            0
        } else if j == 4 {
            2
        } else {
            3
        }
    } else if f == 1 {
        // +X
        if j == 0 {
            4
        } else if j == 1 {
            5
        } else if j == 2 {
            6
        } else if j == 3 {
            4
        } else if j == 4 {
            6
        } else {
            7
        }
    } else if f == 2 {
        // -Z
        if j == 0 {
            0
        } else if j == 1 {
            3
        } else if j == 2 {
            4
        } else if j == 3 {
            0
        } else if j == 4 {
            4
        } else {
            7
        }
    } else if f == 3 {
        // +Z
        if j == 0 {
            1
        } else if j == 1 {
            6
        } else if j == 2 {
            5
        } else if j == 3 {
            1
        } else if j == 4 {
            5
        } else {
            2
        }
    } else if f == 4 {
        // +Y
        if j == 0 {
            2
        } else if j == 1 {
            4
        } else if j == 2 {
            3
        } else if j == 3 {
            2
        } else if j == 4 {
            5
        } else {
            4
        }
    } else {
        // -Y
        if j == 0 {
            0
        } else if j == 1 {
            6
        } else if j == 2 {
            1
        } else if j == 3 {
            0
        } else if j == 4 {
            7
        } else {
            6
        }
    }
}

/// The six indices of face `f`, shifted into the vertex block of the cell
/// being emitted.  Exact (no truncation) whenever `shift + 7 <= u16::MAX`,
/// which `to_vertices` guarantees through its occupied-cell budget.
pub open spec fn face_indices(f: int, shift: int) -> Seq<u16> {
    Seq::new(6, |j: int| ((face_corner(f, j) + shift) as u16))
}

/// Corner `j` of a unit cube whose minimum corner sits at `(xw, yw, zw)`.
pub open spec fn corner_vertex(xw: int, yw: int, zw: int, j: int) -> Coord<i64> {
    Coord {
        x: (xw + corner_dx(j)) as i64,
        y: (yw + corner_dy(j)) as i64,
        z: (zw + corner_dz(j)) as i64,
    }
}

/// Appends the six triangle indices of face `f`, shifted by `shift`.
fn push_face(idx_all: &mut Vec<u16>, shift: usize, f: usize)
    requires
        f < 6,
        shift + 7 <= u16::MAX,
    ensures
        final(idx_all)@ == old(idx_all)@ + face_indices(f as int, shift as int),
{
    if f == 0 {
        idx_all.push((shift + 0) as u16);
        idx_all.push((shift + 1) as u16);
        idx_all.push((shift + 2) as u16);
        idx_all.push((shift + 0) as u16);
        idx_all.push((shift + 2) as u16);
        idx_all.push((shift + 3) as u16);
    } else if f == 1 {
        idx_all.push((shift + 4) as u16);
        idx_all.push((shift + 5) as u16);
        idx_all.push((shift + 6) as u16);
        idx_all.push((shift + 4) as u16);
        idx_all.push((shift + 6) as u16);
        idx_all.push((shift + 7) as u16);
    } else if f == 2 {
        idx_all.push((shift + 0) as u16);
        idx_all.push((shift + 3) as u16);
        idx_all.push((shift + 4) as u16);
        idx_all.push((shift + 0) as u16);
        idx_all.push((shift + 4) as u16);
        idx_all.push((shift + 7) as u16);
    } else if f == 3 {
        idx_all.push((shift + 1) as u16);
        idx_all.push((shift + 6) as u16);
        idx_all.push((shift + 5) as u16);
        idx_all.push((shift + 1) as u16);
        idx_all.push((shift + 5) as u16);
        idx_all.push((shift + 2) as u16);
    } else if f == 4 {
        idx_all.push((shift + 2) as u16);
        idx_all.push((shift + 4) as u16);
        idx_all.push((shift + 3) as u16);
        idx_all.push((shift + 2) as u16);
        idx_all.push((shift + 5) as u16);
        idx_all.push((shift + 4) as u16);
    } else {
        idx_all.push((shift + 0) as u16);
        idx_all.push((shift + 6) as u16);
        idx_all.push((shift + 1) as u16);
        idx_all.push((shift + 0) as u16);
        idx_all.push((shift + 7) as u16);
        idx_all.push((shift + 6) as u16);
    }
    proof {
        assert(idx_all@ =~= old(idx_all)@ + face_indices(f as int, shift as int));
    }
}

/// Appends the eight corner vertices of a unit cube whose minimum corner
/// sits at `(xw, yw, zw)`.
fn push_cell_vertices(verts: &mut Vec<Coord<i64>>, xw: i64, yw: i64, zw: i64)
    requires
        xw < i64::MAX,
        yw < i64::MAX,
        zw < i64::MAX,
    ensures
        final(verts)@ == old(verts)@ + Seq::new(
            8,
            |j: int| corner_vertex(xw as int, yw as int, zw as int, j),
        ),
{
    verts.push(Coord { x: xw, y: yw, z: zw });
    verts.push(Coord { x: xw, y: yw, z: zw + 1 });
    verts.push(Coord { x: xw, y: yw + 1, z: zw + 1 });
    verts.push(Coord { x: xw, y: yw + 1, z: zw });
    verts.push(Coord { x: xw + 1, y: yw + 1, z: zw });
    verts.push(Coord { x: xw + 1, y: yw + 1, z: zw + 1 });
    verts.push(Coord { x: xw + 1, y: yw, z: zw + 1 });
    verts.push(Coord { x: xw + 1, y: yw, z: zw });
    proof {
        assert(verts@ =~= old(verts)@ + Seq::new(
            8,
            |j: int| corner_vertex(xw as int, yw as int, zw as int, j),
        ));
    }
}

impl Cubes {
    /// Whether face `f` of the cell at grid-local `(x, y, z)` is visible:
    /// the face-adjacent neighbour is outside the box or empty.
    pub open spec fn face_visible(self, x: int, y: int, z: int, f: int) -> bool {
        if f == 0 {
            x == 0 || !self.occupied(x - 1, y, z)
        } else if f == 1 {
            x == self.len_x - 1 || !self.occupied(x + 1, y, z)
        } else if f == 2 {
            z == 0 || !self.occupied(x, y, z - 1)
        } else if f == 3 {
            z == self.len_z - 1 || !self.occupied(x, y, z + 1)
        } else if f == 4 {
            y == self.len_y - 1 || !self.occupied(x, y + 1, z)
        } else {
            y == 0 || !self.occupied(x, y - 1, z)
        }
    }

    /// Face visibility of the cell at flat index `i`.
    pub open spec fn cell_visible(self, i: int, f: int) -> bool {
        self.face_visible(self.cell_x(i), self.cell_y(i), self.cell_z(i), f)
    }

    /// How many of the six faces of the cell at flat index `i` are visible.
    pub open spec fn cell_vis_count(self, i: int) -> int {
        (if self.cell_visible(i, 0) {
            1int
        } else {
            0int
        }) + (if self.cell_visible(i, 1) {
            1int
        } else {
            0int
        }) + (if self.cell_visible(i, 2) {
            1int
        } else {
            0int
        }) + (if self.cell_visible(i, 3) {
            1int
        } else {
            0int
        }) + (if self.cell_visible(i, 4) {
            1int
        } else {
            0int
        }) + (if self.cell_visible(i, 5) {
            1int
        } else {
            0int
        })
    }

    /// Corner vertex `j` of the cell at flat index `i`, translated by the
    /// cell's rebased (grid-local) coordinate.
    pub open spec fn cell_vertex(self, i: int, j: int) -> Coord<i64> {
        corner_vertex(self.cell_x(i), self.cell_y(i), self.cell_z(i), j)
    }

    /// The eight-vertex block of the cell at flat index `i`.
    pub open spec fn cell_vertices(self, i: int) -> Seq<Coord<i64>> {
        Seq::new(8, |j: int| self.cell_vertex(i, j))
    }

    /// The indices the cell at flat index `i` contributes: six per visible
    /// face, in face order, shifted by `shift`.
    pub open spec fn cell_indices(self, i: int, shift: int) -> Seq<u16> {
        (if self.cell_visible(i, 0) {
            face_indices(0, shift)
        } else {
            Seq::<u16>::empty()
        }) + (if self.cell_visible(i, 1) {
            face_indices(1, shift)
        } else {
            Seq::<u16>::empty()
        }) + (if self.cell_visible(i, 2) {
            face_indices(2, shift)
        } else {
            Seq::<u16>::empty()
        }) + (if self.cell_visible(i, 3) {
            face_indices(3, shift)
        } else {
            Seq::<u16>::empty()
        }) + (if self.cell_visible(i, 4) {
            face_indices(4, shift)
        } else {
            Seq::<u16>::empty()
        }) + (if self.cell_visible(i, 5) {
            face_indices(5, shift)
        } else {
            Seq::<u16>::empty()
        })
    }

    /// How many of the first `n` cells are occupied.
    pub open spec fn occ_count(self, n: int) -> int
        decreases n,
    {
        if n <= 0 {
            0
        } else {
            self.occ_count(n - 1) + (if self.positions@[n - 1] == 1 {
                1int
            } else {
                0int
            })
        }
    }

    /// Total visible faces over the occupied cells among the first `n`.
    pub open spec fn vis_upto(self, n: int) -> int
        decreases n,
    {
        if n <= 0 {
            0
        } else {
            self.vis_upto(n - 1) + (if self.positions@[n - 1] == 1 {
                self.cell_vis_count(n - 1)
            } else {
                0int
            })
        }
    }

    /// The vertices the first `n` cells emit, in scan order.
    pub open spec fn verts_upto(self, n: int) -> Seq<Coord<i64>>
        decreases n,
    {
        if n <= 0 {
            Seq::<Coord<i64>>::empty()
        } else {
            self.verts_upto(n - 1) + (if self.positions@[n - 1] == 1 {
                self.cell_vertices(n - 1)
            } else {
                Seq::<Coord<i64>>::empty()
            })
        }
    }

    /// The indices the first `n` cells emit, in scan order.
    pub open spec fn idx_upto(self, n: int) -> Seq<u16>
        decreases n,
    {
        if n <= 0 {
            Seq::<u16>::empty()
        } else {
            self.idx_upto(n - 1) + (if self.positions@[n - 1] == 1 {
                self.cell_indices(n - 1, 8 * self.occ_count(n - 1))
            } else {
                Seq::<u16>::empty()
            })
        }
    }

    /// The full vertex output of mesh synthesis.
    pub open spec fn mesh_vertices(self) -> Seq<Coord<i64>> {
        self.verts_upto(self.total())
    }

    /// The full index output of mesh synthesis.
    pub open spec fn mesh_indices(self) -> Seq<u16> {
        self.idx_upto(self.total())
    }

    /// Occupied-cell counts grow with the scan.
    pub proof fn lemma_occ_count_monotone(self, m: int, n: int)
        requires
            m <= n,
        ensures
            self.occ_count(m) <= self.occ_count(n),
        decreases n - m,
    {
        if m < n {
            self.lemma_occ_count_monotone(m, n - 1);
        }
    }

    /// Each prefix emits eight vertices per occupied cell.
    pub proof fn lemma_verts_upto_len(self, n: int)
        ensures
            self.verts_upto(n).len() == 8 * self.occ_count(n),
        decreases n,
    {
        if n > 0 {
            self.lemma_verts_upto_len(n - 1);
        }
    }

    /// Each prefix emits six indices per visible face.
    pub proof fn lemma_idx_upto_len(self, n: int)
        ensures
            self.idx_upto(n).len() == 6 * self.vis_upto(n),
            self.vis_upto(n) >= 0,
        decreases n,
    {
        if n > 0 {
            self.lemma_idx_upto_len(n - 1);
        }
    }

    /// Every index a cell contributes lies in its own vertex block:
    /// `[shift, shift + 8)`.
    pub proof fn lemma_cell_indices_values(self, i: int, shift: int)
        requires
            0 <= shift,
            shift + 7 <= u16::MAX,
        ensures
            forall|t: int|
                0 <= t < self.cell_indices(i, shift).len() ==> shift <= (
                #[trigger] self.cell_indices(i, shift)[t]) < shift + 8,
    {
        assert(forall|f: int, j: int| 0 <= #[trigger] face_corner(f, j) <= 7);
        assert(forall|f: int, j: int|
            0 <= j < 6 ==> shift <= (#[trigger] face_indices(f, shift)[j]) < shift + 8);
        let c0 = if self.cell_visible(i, 0) {
            face_indices(0, shift)
        } else {
            Seq::<u16>::empty()
        };
        let c1 = if self.cell_visible(i, 1) {
            face_indices(1, shift)
        } else {
            Seq::<u16>::empty()
        };
        let c2 = if self.cell_visible(i, 2) {
            face_indices(2, shift)
        } else {
            Seq::<u16>::empty()
        };
        let c3 = if self.cell_visible(i, 3) {
            face_indices(3, shift)
        } else {
            Seq::<u16>::empty()
        };
        let c4 = if self.cell_visible(i, 4) {
            face_indices(4, shift)
        } else {
            Seq::<u16>::empty()
        };
        let c5 = if self.cell_visible(i, 5) {
            face_indices(5, shift)
        } else {
            Seq::<u16>::empty()
        };
        assert(self.cell_indices(i, shift) == c0 + c1 + c2 + c3 + c4 + c5);
        assert forall|t: int| 0 <= t < self.cell_indices(i, shift).len() implies shift <= (
        #[trigger] self.cell_indices(i, shift)[t]) < shift + 8 by {
            let s2 = c0 + c1;
            let s3 = s2 + c2;
            let s4 = s3 + c3;
            let s5 = s4 + c4;
            let s6 = s5 + c5;
            assert(self.cell_indices(i, shift)[t] == s6[t]);
            if t < s5.len() {
                if t < s4.len() {
                    if t < s3.len() {
                        if t < s2.len() {
                            if t < c0.len() {
                                assert(s6[t] == c0[t]);
                            } else {
                                assert(s6[t] == c1[t - c0.len()]);
                            }
                        } else {
                            assert(s6[t] == c2[t - s2.len()]);
                        }
                    } else {
                        assert(s6[t] == c3[t - s3.len()]);
                    }
                } else {
                    assert(s6[t] == c4[t - s4.len()]);
                }
            } else {
                assert(s6[t] == c5[t - s5.len()]);
            }
        }
    }

    /// The coordinate decomposition of a flat index inside the storage
    /// range: in bounds, flattening back to the index, with the middle
    /// remainder splitting into x plus `len_x` times z.
    pub proof fn lemma_cell_decomposition(self, i: int)
        requires
            self.wf(),
            0 <= i < self.total(),
        ensures
            self.in_bounds(self.cell_x(i), self.cell_y(i), self.cell_z(i)),
            self.flat(self.cell_x(i), self.cell_y(i), self.cell_z(i)) == i,
            i % self.stride_y() == self.cell_x(i) + self.len_x * self.cell_z(i),
    {
        lemma_index_coords(i, self.len_x as int, self.len_y as int, self.len_z as int);
    }

    /// Each of the six flat-index visibility tests that the mesh scan runs
    /// (a boundary comparison, short-circuiting an adjacent-slot read)
    /// decides exactly the coordinate-level face visibility, and whenever
    /// the boundary comparison fails the adjacent slot is in range.
    pub proof fn lemma_face_tests(self, i: int)
        requires
            self.wf(),
            0 <= i < self.total(),
        ensures
            self.cell_visible(i, 0) == (i % self.stride_z() == 0 || self.positions@[i - 1] == 0),
            !(i % self.stride_z() == 0) ==> 1 <= i,
            self.cell_visible(i, 1) == (i % self.stride_z() == self.stride_z() - 1
                || self.positions@[i + 1] == 0),
            !(i % self.stride_z() == self.stride_z() - 1) ==> i + 1 < self.total(),
            self.cell_visible(i, 2) == (i % self.stride_y() < self.stride_z()
                || self.positions@[i - self.stride_z()] == 0),
            !(i % self.stride_y() < self.stride_z()) ==> self.stride_z() <= i,
            self.cell_visible(i, 3) == (i % self.stride_y() >= self.stride_y() - self.stride_z()
                || self.positions@[i + self.stride_z()] == 0),
            !(i % self.stride_y() >= self.stride_y() - self.stride_z()) ==> i + self.stride_z()
                < self.total(),
            self.cell_visible(i, 4) == (i >= self.total() - self.stride_y() || self.positions@[i
                + self.stride_y()] == 0),
            !(i >= self.total() - self.stride_y()) ==> i + self.stride_y() < self.total(),
            self.cell_visible(i, 5) == (i < self.stride_y() || self.positions@[i - self.stride_y()]
                == 0),
            !(i < self.stride_y()) ==> 0 <= i - self.stride_y(),
    {
        self.lemma_cell_decomposition(i);
        let lx = self.len_x as int;
        let ly = self.len_y as int;
        let lz = self.len_z as int;
        let sy = self.stride_y();
        let x = self.cell_x(i);
        let y = self.cell_y(i);
        let z = self.cell_z(i);
        let r = i % sy;
        assert(i == x + lx * z + lx * lz * y);
        assert(r == x + lx * z);
        assert(sy * ly == lx * lz * ly) by (nonlinear_arith)
            requires
                sy == lx * lz,
        ;
        // -X and +X: the row position is x itself, and the neighbours sit
        // one slot away.
        assert(x >= 1 ==> self.flat(x - 1, y, z) == i - 1);
        assert(x < lx - 1 ==> self.flat(x + 1, y, z) == i + 1);
        if x < lx - 1 {
            lemma_flat_bounds(x + 1, y, z, lx, ly, lz);
        }
        // -Z and +Z: the row position r tells whether z is extremal, and the
        // neighbours sit one row away.
        assert(lx * (z - 1) == lx * z - lx && lx * (z + 1) == lx * z + lx) by (nonlinear_arith);
        assert(z == 0 ==> r < lx) by (nonlinear_arith)
            requires
                r == x + lx * z,
                x < lx,
        ;
        assert(z >= 1 ==> r >= lx) by (nonlinear_arith)
            requires
                r == x + lx * z,
                0 <= x,
                0 < lx,
        ;
        assert(z == lz - 1 ==> r >= sy - lx) by (nonlinear_arith)
            requires
                r == x + lx * z,
                sy == lx * lz,
                0 <= x,
        ;
        assert(z < lz - 1 ==> r < sy - lx) by (nonlinear_arith)
            requires
                r == x + lx * z,
                sy == lx * lz,
                x < lx,
                0 < lx,
        ;
        assert(z >= 1 ==> self.flat(x, y, z - 1) == i - lx);
        assert(z < lz - 1 ==> self.flat(x, y, z + 1) == i + lx);
        if z < lz - 1 {
            lemma_flat_bounds(x, y, z + 1, lx, ly, lz);
        }
        // -Y and +Y: the index against the slab size tells whether y is
        // extremal, and the neighbours sit one slab away.
        assert(lx * lz * (y - 1) == lx * lz * y - sy && lx * lz * (y + 1) == lx * lz * y + sy)
            by (nonlinear_arith)
            requires
                sy == lx * lz,
        ;
        assert(y == 0 ==> i < sy) by (nonlinear_arith)
            requires
                i == r + sy * y,
                r < sy,
        ;
        assert(y >= 1 ==> i >= sy) by (nonlinear_arith)
            requires
                i == r + sy * y,
                0 <= r,
                0 < sy,
        ;
        assert(y == ly - 1 ==> i >= sy * ly - sy) by (nonlinear_arith)
            requires
                i == r + sy * y,
                0 <= r,
        ;
        assert(y < ly - 1 ==> i < sy * ly - sy) by (nonlinear_arith)
            requires
                i == r + sy * y,
                r < sy,
                0 < sy,
        ;
        assert(y >= 1 ==> self.flat(x, y - 1, z) == i - sy);
        assert(y < ly - 1 ==> self.flat(x, y + 1, z) == i + sy);
        if y < ly - 1 {
            lemma_flat_bounds(x, y + 1, z, lx, ly, lz);
        }
        if x >= 1 {
            lemma_flat_bounds(x - 1, y, z, lx, ly, lz);
        }
        if z >= 1 {
            lemma_flat_bounds(x, y, z - 1, lx, ly, lz);
        }
        if y >= 1 {
            lemma_flat_bounds(x, y - 1, z, lx, ly, lz);
        }
    }

    /// Every emitted index points into the vertex blocks emitted so far:
    /// with at most 8192 occupied cells no index reaches `8 * occ_count`.
    pub proof fn lemma_idx_upto_values(self, n: int)
        requires
            self.occ_count(n) <= 8192,
        ensures
            forall|t: int|
                0 <= t < self.idx_upto(n).len() ==> (#[trigger] self.idx_upto(n)[t]) < 8
                    * self.occ_count(n),
        decreases n,
    {
        if n > 0 {
            self.lemma_idx_upto_values(n - 1);
            let prev = self.idx_upto(n - 1);
            let shift = 8 * self.occ_count(n - 1);
            if self.positions@[n - 1] == 1 {
                self.lemma_occ_count_monotone(0, n - 1);
                self.lemma_cell_indices_values(n - 1, shift);
            }
            assert forall|t: int| 0 <= t < self.idx_upto(n).len() implies (
            #[trigger] self.idx_upto(n)[t]) < 8 * self.occ_count(n) by {
                if t < prev.len() {
                    assert(self.idx_upto(n)[t] == prev[t]);
                } else {
                    assert(self.positions@[n - 1] == 1);
                    assert(self.idx_upto(n)[t] == self.cell_indices(n - 1, shift)[t - prev.len()]);
                }
            }
        }
    }
}

impl Cubes {
    /// Occupancy and visible-face counts of a grid whose only occupied cell
    /// is at flat index `p`.
    pub proof fn lemma_single_occupied_counts(self, p: int, n: int)
        requires
            0 <= p < self.positions@.len(),
            self.positions@[p] == 1,
            forall|i: int|
                0 <= i < self.positions@.len() && i != p ==> (#[trigger] self.positions@[i]) == 0,
            0 <= n <= self.positions@.len(),
        ensures
            self.occ_count(n) == if n > p {
                1int
            } else {
                0int
            },
            self.vis_upto(n) == if n > p {
                self.cell_vis_count(p)
            } else {
                0int
            },
        decreases n,
    {
        if n > 0 {
            self.lemma_single_occupied_counts(p, n - 1);
        }
    }

    /// Occupancy and visible-face counts of a grid whose only occupied
    /// cells are at flat indices `p` and `q`.
    pub proof fn lemma_two_occupied_counts(self, p: int, q: int, n: int)
        requires
            0 <= p < q < self.positions@.len(),
            self.positions@[p] == 1,
            self.positions@[q] == 1,
            forall|i: int|
                0 <= i < self.positions@.len() && i != p && i != q ==> (
                #[trigger] self.positions@[i]) == 0,
            0 <= n <= self.positions@.len(),
        ensures
            self.occ_count(n) == (if n > p {
                1int
            } else {
                0int
            }) + (if n > q {
                1int
            } else {
                0int
            }),
            self.vis_upto(n) == (if n > p {
                self.cell_vis_count(p)
            } else {
                0int
            }) + (if n > q {
                self.cell_vis_count(q)
            } else {
                0int
            }),
        decreases n,
    {
        if n > 0 {
            self.lemma_two_occupied_counts(p, q, n - 1);
        }
    }
}

/// An isolated occupied cell keeps all six faces: when `(x, y, z)` is the
/// grid's only occupied cell, mesh synthesis emits exactly its 8 vertices
/// and all 6 faces — 36 indices, 12 triangles.
pub proof fn lemma_isolated_cube_mesh(g: Cubes, x: int, y: int, z: int)
    requires
        g.wf(),
        g.in_bounds(x, y, z),
        g.occupied(x, y, z),
        forall|i: int|
            0 <= i < g.positions@.len() && i != g.flat(x, y, z) ==> (#[trigger] g.positions@[i])
                == 0,
    ensures
        g.mesh_vertices().len() == 8,
        g.mesh_indices().len() == 36,
{
    let lx = g.len_x as int;
    let ly = g.len_y as int;
    let lz = g.len_z as int;
    let p = g.flat(x, y, z);
    lemma_flat_bounds(x, y, z, lx, ly, lz);
    lemma_flat_decompose(x, y, z, lx, ly, lz);
    assert(lx * (z - 1) == lx * z - lx && lx * (z + 1) == lx * z + lx && lx * lz * (y - 1) == lx
        * lz * y - lx * lz && lx * lz * (y + 1) == lx * lz * y + lx * lz && lx * lz >= 1)
        by (nonlinear_arith)
        requires
            lx >= 1,
            lz >= 1,
    ;
    assert(g.face_visible(x, y, z, 0)) by {
        if x != 0 {
            lemma_flat_bounds(x - 1, y, z, lx, ly, lz);
            assert(g.positions@[g.flat(x - 1, y, z)] == 0);
        }
    }
    assert(g.face_visible(x, y, z, 1)) by {
        if x != lx - 1 {
            lemma_flat_bounds(x + 1, y, z, lx, ly, lz);
            assert(g.positions@[g.flat(x + 1, y, z)] == 0);
        }
    }
    assert(g.face_visible(x, y, z, 2)) by {
        if z != 0 {
            lemma_flat_bounds(x, y, z - 1, lx, ly, lz);
            assert(g.flat(x, y, z - 1) == p - lx);
            assert(g.positions@[g.flat(x, y, z - 1)] == 0);
        }
    }
    assert(g.face_visible(x, y, z, 3)) by {
        if z != lz - 1 {
            lemma_flat_bounds(x, y, z + 1, lx, ly, lz);
            assert(g.flat(x, y, z + 1) == p + lx);
            assert(g.positions@[g.flat(x, y, z + 1)] == 0);
        }
    }
    assert(g.face_visible(x, y, z, 4)) by {
        if y != ly - 1 {
            lemma_flat_bounds(x, y + 1, z, lx, ly, lz);
            assert(g.flat(x, y + 1, z) == p + lx * lz);
            assert(g.positions@[g.flat(x, y + 1, z)] == 0);
        }
    }
    assert(g.face_visible(x, y, z, 5)) by {
        if y != 0 {
            lemma_flat_bounds(x, y - 1, z, lx, ly, lz);
            assert(g.flat(x, y - 1, z) == p - lx * lz);
            assert(g.positions@[g.flat(x, y - 1, z)] == 0);
        }
    }
    assert(g.cell_x(p) == x && g.cell_y(p) == y && g.cell_z(p) == z);
    assert(g.cell_vis_count(p) == 6);
    g.lemma_single_occupied_counts(p, g.total());
    g.lemma_verts_upto_len(g.total());
    g.lemma_idx_upto_len(g.total());
}

/// The two-cube face count when the cells are adjacent along x.
proof fn lemma_adjacent_cubes_mesh_x(g: Cubes, x: int, y: int, z: int)
    requires
        g.wf(),
        g.in_bounds(x, y, z),
        g.in_bounds(x + 1, y, z),
        g.occupied(x, y, z),
        g.occupied(x + 1, y, z),
        forall|i: int|
            0 <= i < g.positions@.len() && i != g.flat(x, y, z) && i != g.flat(x + 1, y, z) ==> (
            #[trigger] g.positions@[i]) == 0,
    ensures
        g.mesh_vertices().len() == 16,
        g.mesh_indices().len() == 60,
{
    let lx = g.len_x as int;
    let ly = g.len_y as int;
    let lz = g.len_z as int;
    let p = g.flat(x, y, z);
    let q = g.flat(x + 1, y, z);
    lemma_flat_bounds(x, y, z, lx, ly, lz);
    lemma_flat_bounds(x + 1, y, z, lx, ly, lz);
    lemma_flat_decompose(x, y, z, lx, ly, lz);
    lemma_flat_decompose(x + 1, y, z, lx, ly, lz);
    assert(q == p + 1);
    assert(lx >= 2);
    assert(lx * (z - 1) == lx * z - lx && lx * (z + 1) == lx * z + lx && lx * lz * (y - 1) == lx
        * lz * y - lx * lz && lx * lz * (y + 1) == lx * lz * y + lx * lz && lx * lz >= 2)
        by (nonlinear_arith)
        requires
            lx >= 2,
            lz >= 1,
    ;
    // Faces of the left cell: the +X face is occluded by the right cell,
    // the other five see an empty or absent neighbour.
    assert(!g.face_visible(x, y, z, 1));
    assert(g.face_visible(x, y, z, 0)) by {
        if x != 0 {
            lemma_flat_bounds(x - 1, y, z, lx, ly, lz);
            assert(g.positions@[g.flat(x - 1, y, z)] == 0);
        }
    }
    assert(g.face_visible(x, y, z, 2)) by {
        if z != 0 {
            lemma_flat_bounds(x, y, z - 1, lx, ly, lz);
            assert(g.flat(x, y, z - 1) == p - lx);
            assert(g.positions@[g.flat(x, y, z - 1)] == 0);
        }
    }
    assert(g.face_visible(x, y, z, 3)) by {
        if z != lz - 1 {
            lemma_flat_bounds(x, y, z + 1, lx, ly, lz);
            assert(g.flat(x, y, z + 1) == p + lx);
            assert(g.positions@[g.flat(x, y, z + 1)] == 0);
        }
    }
    assert(g.face_visible(x, y, z, 4)) by {
        if y != ly - 1 {
            lemma_flat_bounds(x, y + 1, z, lx, ly, lz);
            assert(g.flat(x, y + 1, z) == p + lx * lz);
            assert(g.positions@[g.flat(x, y + 1, z)] == 0);
        }
    }
    assert(g.face_visible(x, y, z, 5)) by {
        if y != 0 {
            lemma_flat_bounds(x, y - 1, z, lx, ly, lz);
            assert(g.flat(x, y - 1, z) == p - lx * lz);
            assert(g.positions@[g.flat(x, y - 1, z)] == 0);
        }
    }
    // Faces of the right cell: mirror image.
    assert(!g.face_visible(x + 1, y, z, 0));
    assert(g.face_visible(x + 1, y, z, 1)) by {
        if x + 1 != lx - 1 {
            lemma_flat_bounds(x + 2, y, z, lx, ly, lz);
            assert(g.positions@[g.flat(x + 2, y, z)] == 0);
        }
    }
    assert(g.face_visible(x + 1, y, z, 2)) by {
        if z != 0 {
            lemma_flat_bounds(x + 1, y, z - 1, lx, ly, lz);
            assert(g.flat(x + 1, y, z - 1) == q - lx);
            assert(g.positions@[g.flat(x + 1, y, z - 1)] == 0);
        }
    }
    assert(g.face_visible(x + 1, y, z, 3)) by {
        if z != lz - 1 {
            lemma_flat_bounds(x + 1, y, z + 1, lx, ly, lz);
            assert(g.flat(x + 1, y, z + 1) == q + lx);
            assert(g.positions@[g.flat(x + 1, y, z + 1)] == 0);
        }
    }
    assert(g.face_visible(x + 1, y, z, 4)) by {
        if y != ly - 1 {
            lemma_flat_bounds(x + 1, y + 1, z, lx, ly, lz);
            assert(g.flat(x + 1, y + 1, z) == q + lx * lz);
            assert(g.positions@[g.flat(x + 1, y + 1, z)] == 0);
        }
    }
    assert(g.face_visible(x + 1, y, z, 5)) by {
        if y != 0 {
            lemma_flat_bounds(x + 1, y - 1, z, lx, ly, lz);
            assert(g.flat(x + 1, y - 1, z) == q - lx * lz);
            assert(g.positions@[g.flat(x + 1, y - 1, z)] == 0);
        }
    }
    assert(g.cell_x(p) == x && g.cell_y(p) == y && g.cell_z(p) == z);
    assert(g.cell_x(q) == x + 1 && g.cell_y(q) == y && g.cell_z(q) == z);
    assert(g.cell_vis_count(p) == 5);
    assert(g.cell_vis_count(q) == 5);
    g.lemma_two_occupied_counts(p, q, g.total());
    g.lemma_verts_upto_len(g.total());
    g.lemma_idx_upto_len(g.total());
}

/// The two-cube face count when the cells are adjacent along y.
proof fn lemma_adjacent_cubes_mesh_y(g: Cubes, x: int, y: int, z: int)
    requires
        g.wf(),
        g.in_bounds(x, y, z),
        g.in_bounds(x, y + 1, z),
        g.occupied(x, y, z),
        g.occupied(x, y + 1, z),
        forall|i: int|
            0 <= i < g.positions@.len() && i != g.flat(x, y, z) && i != g.flat(x, y + 1, z) ==> (
            #[trigger] g.positions@[i]) == 0,
    ensures
        g.mesh_vertices().len() == 16,
        g.mesh_indices().len() == 60,
{
    let lx = g.len_x as int;
    let ly = g.len_y as int;
    let lz = g.len_z as int;
    let sy = lx * lz;
    let p = g.flat(x, y, z);
    let q = g.flat(x, y + 1, z);
    lemma_flat_bounds(x, y, z, lx, ly, lz);
    lemma_flat_bounds(x, y + 1, z, lx, ly, lz);
    lemma_flat_decompose(x, y, z, lx, ly, lz);
    lemma_flat_decompose(x, y + 1, z, lx, ly, lz);
    assert(lx * (z - 1) == lx * z - lx && lx * (z + 1) == lx * z + lx && lx * lz * (y - 1) == lx
        * lz * y - lx * lz && lx * lz * (y + 1) == lx * lz * y + lx * lz && lx * lz * (y + 2) == lx
        * lz * y + 2 * (lx * lz) && lx * lz >= 1) by (nonlinear_arith)
        requires
            lx >= 1,
            lz >= 1,
    ;
    assert(q == p + sy);
    // Faces of the lower cell: the +Y face is occluded by the upper cell.
    assert(!g.face_visible(x, y, z, 4));
    assert(g.face_visible(x, y, z, 0)) by {
        if x != 0 {
            lemma_flat_bounds(x - 1, y, z, lx, ly, lz);
            assert(g.positions@[g.flat(x - 1, y, z)] == 0);
        }
    }
    assert(g.face_visible(x, y, z, 1)) by {
        if x != lx - 1 {
            assert(sy >= 2) by (nonlinear_arith)
                requires
                    lx >= 2,
                    lz >= 1,
                    sy == lx * lz,
            ;
            lemma_flat_bounds(x + 1, y, z, lx, ly, lz);
            assert(g.positions@[g.flat(x + 1, y, z)] == 0);
        }
    }
    assert(g.face_visible(x, y, z, 2)) by {
        if z != 0 {
            assert(sy > lx) by (nonlinear_arith)
                requires
                    lx >= 1,
                    lz >= 2,
                    sy == lx * lz,
            ;
            lemma_flat_bounds(x, y, z - 1, lx, ly, lz);
            assert(g.flat(x, y, z - 1) == p - lx);
            assert(g.positions@[g.flat(x, y, z - 1)] == 0);
        }
    }
    assert(g.face_visible(x, y, z, 3)) by {
        if z != lz - 1 {
            assert(sy > lx) by (nonlinear_arith)
                requires
                    lx >= 1,
                    lz >= 2,
                    sy == lx * lz,
            ;
            lemma_flat_bounds(x, y, z + 1, lx, ly, lz);
            assert(g.flat(x, y, z + 1) == p + lx);
            assert(g.positions@[g.flat(x, y, z + 1)] == 0);
        }
    }
    assert(g.face_visible(x, y, z, 5)) by {
        if y != 0 {
            lemma_flat_bounds(x, y - 1, z, lx, ly, lz);
            assert(g.flat(x, y - 1, z) == p - sy);
            assert(g.positions@[g.flat(x, y - 1, z)] == 0);
        }
    }
    // Faces of the upper cell: the -Y face is occluded by the lower cell.
    assert(!g.face_visible(x, y + 1, z, 5));
    assert(g.face_visible(x, y + 1, z, 0)) by {
        if x != 0 {
            assert(sy >= 2) by (nonlinear_arith)
                requires
                    lx >= 2,
                    lz >= 1,
                    sy == lx * lz,
            ;
            lemma_flat_bounds(x - 1, y + 1, z, lx, ly, lz);
            assert(g.flat(x - 1, y + 1, z) == q - 1);
            assert(g.positions@[g.flat(x - 1, y + 1, z)] == 0);
        }
    }
    assert(g.face_visible(x, y + 1, z, 1)) by {
        if x != lx - 1 {
            lemma_flat_bounds(x + 1, y + 1, z, lx, ly, lz);
            assert(g.flat(x + 1, y + 1, z) == q + 1);
            assert(g.positions@[g.flat(x + 1, y + 1, z)] == 0);
        }
    }
    assert(g.face_visible(x, y + 1, z, 2)) by {
        if z != 0 {
            assert(sy > lx) by (nonlinear_arith)
                requires
                    lx >= 1,
                    lz >= 2,
                    sy == lx * lz,
            ;
            lemma_flat_bounds(x, y + 1, z - 1, lx, ly, lz);
            assert(g.flat(x, y + 1, z - 1) == q - lx);
            assert(g.positions@[g.flat(x, y + 1, z - 1)] == 0);
        }
    }
    assert(g.face_visible(x, y + 1, z, 3)) by {
        if z != lz - 1 {
            lemma_flat_bounds(x, y + 1, z + 1, lx, ly, lz);
            assert(g.flat(x, y + 1, z + 1) == q + lx);
            assert(g.positions@[g.flat(x, y + 1, z + 1)] == 0);
        }
    }
    assert(g.face_visible(x, y + 1, z, 4)) by {
        if y + 1 != ly - 1 {
            lemma_flat_bounds(x, y + 2, z, lx, ly, lz);
            assert(g.flat(x, y + 2, z) == q + sy);
            assert(g.positions@[g.flat(x, y + 2, z)] == 0);
        }
    }
    assert(g.cell_x(p) == x && g.cell_y(p) == y && g.cell_z(p) == z);
    assert(g.cell_x(q) == x && g.cell_y(q) == y + 1 && g.cell_z(q) == z);
    assert(g.cell_vis_count(p) == 5);
    assert(g.cell_vis_count(q) == 5);
    g.lemma_two_occupied_counts(p, q, g.total());
    g.lemma_verts_upto_len(g.total());
    g.lemma_idx_upto_len(g.total());
}

/// The two-cube face count when the cells are adjacent along z.
proof fn lemma_adjacent_cubes_mesh_z(g: Cubes, x: int, y: int, z: int)
    requires
        g.wf(),
        g.in_bounds(x, y, z),
        g.in_bounds(x, y, z + 1),
        g.occupied(x, y, z),
        g.occupied(x, y, z + 1),
        forall|i: int|
            0 <= i < g.positions@.len() && i != g.flat(x, y, z) && i != g.flat(x, y, z + 1) ==> (
            #[trigger] g.positions@[i]) == 0,
    ensures
        g.mesh_vertices().len() == 16,
        g.mesh_indices().len() == 60,
{
    let lx = g.len_x as int;
    let ly = g.len_y as int;
    let lz = g.len_z as int;
    let sy = lx * lz;
    let p = g.flat(x, y, z);
    let q = g.flat(x, y, z + 1);
    lemma_flat_bounds(x, y, z, lx, ly, lz);
    lemma_flat_bounds(x, y, z + 1, lx, ly, lz);
    lemma_flat_decompose(x, y, z, lx, ly, lz);
    lemma_flat_decompose(x, y, z + 1, lx, ly, lz);
    assert(lz >= 2);
    assert(lx * (z - 1) == lx * z - lx && lx * (z + 1) == lx * z + lx && lx * (z + 2) == lx * z + 2
        * lx && lx * lz * (y - 1) == lx * lz * y - lx * lz && lx * lz * (y + 1) == lx * lz * y + lx
        * lz && lx * lz >= 2 * lx) by (nonlinear_arith)
        requires
            lx >= 1,
            lz >= 2,
    ;
    assert(q == p + lx);
    // Faces of the near cell: the +Z face is occluded by the far cell.
    assert(!g.face_visible(x, y, z, 3));
    assert(g.face_visible(x, y, z, 0)) by {
        if x != 0 {
            lemma_flat_bounds(x - 1, y, z, lx, ly, lz);
            assert(g.positions@[g.flat(x - 1, y, z)] == 0);
        }
    }
    assert(g.face_visible(x, y, z, 1)) by {
        if x != lx - 1 {
            lemma_flat_bounds(x + 1, y, z, lx, ly, lz);
            assert(g.positions@[g.flat(x + 1, y, z)] == 0);
        }
    }
    assert(g.face_visible(x, y, z, 2)) by {
        if z != 0 {
            lemma_flat_bounds(x, y, z - 1, lx, ly, lz);
            assert(g.flat(x, y, z - 1) == p - lx);
            assert(g.positions@[g.flat(x, y, z - 1)] == 0);
        }
    }
    assert(g.face_visible(x, y, z, 4)) by {
        if y != ly - 1 {
            lemma_flat_bounds(x, y + 1, z, lx, ly, lz);
            assert(g.flat(x, y + 1, z) == p + sy);
            assert(g.positions@[g.flat(x, y + 1, z)] == 0);
        }
    }
    assert(g.face_visible(x, y, z, 5)) by {
        if y != 0 {
            lemma_flat_bounds(x, y - 1, z, lx, ly, lz);
            assert(g.flat(x, y - 1, z) == p - sy);
            assert(g.positions@[g.flat(x, y - 1, z)] == 0);
        }
    }
    // Faces of the far cell: the -Z face is occluded by the near cell.
    assert(!g.face_visible(x, y, z + 1, 2));
    assert(g.face_visible(x, y, z + 1, 0)) by {
        if x != 0 {
            lemma_flat_bounds(x - 1, y, z + 1, lx, ly, lz);
            assert(g.flat(x - 1, y, z + 1) == q - 1);
            assert(g.positions@[g.flat(x - 1, y, z + 1)] == 0);
        }
    }
    assert(g.face_visible(x, y, z + 1, 1)) by {
        if x != lx - 1 {
            lemma_flat_bounds(x + 1, y, z + 1, lx, ly, lz);
            assert(g.flat(x + 1, y, z + 1) == q + 1);
            assert(g.positions@[g.flat(x + 1, y, z + 1)] == 0);
        }
    }
    assert(g.face_visible(x, y, z + 1, 3)) by {
        if z + 1 != lz - 1 {
            lemma_flat_bounds(x, y, z + 2, lx, ly, lz);
            assert(g.flat(x, y, z + 2) == q + lx);
            assert(g.positions@[g.flat(x, y, z + 2)] == 0);
        }
    }
    assert(g.face_visible(x, y, z + 1, 4)) by {
        if y != ly - 1 {
            lemma_flat_bounds(x, y + 1, z + 1, lx, ly, lz);
            assert(g.flat(x, y + 1, z + 1) == q + sy);
            assert(g.positions@[g.flat(x, y + 1, z + 1)] == 0);
        }
    }
    assert(g.face_visible(x, y, z + 1, 5)) by {
        if y != 0 {
            lemma_flat_bounds(x, y - 1, z + 1, lx, ly, lz);
            assert(g.flat(x, y - 1, z + 1) == q - sy);
            assert(g.positions@[g.flat(x, y - 1, z + 1)] == 0);
        }
    }
    assert(g.cell_x(p) == x && g.cell_y(p) == y && g.cell_z(p) == z);
    assert(g.cell_x(q) == x && g.cell_y(q) == y && g.cell_z(q) == z + 1);
    assert(g.cell_vis_count(p) == 5);
    assert(g.cell_vis_count(q) == 5);
    g.lemma_two_occupied_counts(p, q, g.total());
    g.lemma_verts_upto_len(g.total());
    g.lemma_idx_upto_len(g.total());
}

/// Two face-adjacent occupied cells occlude each other's shared face: when
/// they are the grid's only occupied cells, mesh synthesis emits their 16
/// vertices but only 10 visible faces — 60 indices — in total.
pub proof fn lemma_adjacent_cubes_mesh(g: Cubes, x: int, y: int, z: int, dx: int, dy: int, dz: int)
    requires
        g.wf(),
        (dx == 1 && dy == 0 && dz == 0) || (dx == 0 && dy == 1 && dz == 0) || (dx == 0 && dy == 0
            && dz == 1),
        g.in_bounds(x, y, z),
        g.in_bounds(x + dx, y + dy, z + dz),
        g.occupied(x, y, z),
        g.occupied(x + dx, y + dy, z + dz),
        forall|i: int|
            0 <= i < g.positions@.len() && i != g.flat(x, y, z) && i != g.flat(
                x + dx,
                y + dy,
                z + dz,
            ) ==> (#[trigger] g.positions@[i]) == 0,
    ensures
        g.mesh_vertices().len() == 16,
        g.mesh_indices().len() == 60,
{
    if dx == 1 {
        lemma_adjacent_cubes_mesh_x(g, x, y, z);
    } else if dy == 1 {
        lemma_adjacent_cubes_mesh_y(g, x, y, z);
    } else {
        lemma_adjacent_cubes_mesh_z(g, x, y, z);
    }
}

/// On a structurally empty grid, mesh synthesis yields two empty sequences.
pub proof fn lemma_empty_grid_mesh(g: Cubes)
    requires
        g.wf(),
        g.positions@.len() == 0,
    ensures
        g.mesh_vertices().len() == 0,
        g.mesh_indices().len() == 0,
{
}

/// Mesh synthesis is a function of the grid's contents alone: two grids
/// with equal occupancy, origin and extents yield equal meshes, so repeated
/// calls on an unmodified grid yield identical output.
pub proof fn lemma_mesh_deterministic(g1: Cubes, g2: Cubes)
    requires
        g1.positions@ == g2.positions@,
        g1.start_x == g2.start_x,
        g1.start_y == g2.start_y,
        g1.start_z == g2.start_z,
        g1.len_x == g2.len_x,
        g1.len_y == g2.len_y,
        g1.len_z == g2.len_z,
    ensures
        g1.mesh_vertices() == g2.mesh_vertices(),
        g1.mesh_indices() == g2.mesh_indices(),
{
    lemma_mesh_upto_equal(g1, g2, g1.total());
}

/// Induction behind [`lemma_mesh_deterministic`]: every scan prefix agrees.
proof fn lemma_mesh_upto_equal(g1: Cubes, g2: Cubes, n: int)
    requires
        g1.positions@ == g2.positions@,
        g1.start_x == g2.start_x,
        g1.start_y == g2.start_y,
        g1.start_z == g2.start_z,
        g1.len_x == g2.len_x,
        g1.len_y == g2.len_y,
        g1.len_z == g2.len_z,
    ensures
        g1.occ_count(n) == g2.occ_count(n),
        g1.verts_upto(n) == g2.verts_upto(n),
        g1.idx_upto(n) == g2.idx_upto(n),
    decreases n,
{
    if n > 0 {
        lemma_mesh_upto_equal(g1, g2, n - 1);
        assert(forall|f: int| #[trigger] g1.cell_visible(n - 1, f) == g2.cell_visible(n - 1, f));
        assert(g1.cell_vertices(n - 1) =~= g2.cell_vertices(n - 1));
        assert(g1.cell_indices(n - 1, 8 * g1.occ_count(n - 1)) == g2.cell_indices(
            n - 1,
            8 * g2.occ_count(n - 1),
        ));
    }
}

impl Cubes {
    /// Emits the indices of one occupied cell of the scan: six per visible
    /// face, in face order, shifted by `shift`.
    #[verifier::rlimit(100)]
    fn emit_cell_indices(&self, i: usize, shift: usize, idx_all: &mut Vec<u16>)
        requires
            self.wf(),
            i < self.total(),
            shift + 8 <= 65536,
        ensures
            final(idx_all)@ == old(idx_all)@ + self.cell_indices(i as int, shift as int),
    {
        proof {
            if self.len_x == 0 && self.len_y == 0 && self.len_z == 0 {
                assert(self.total() == 0) by (nonlinear_arith)
                    requires
                        self.len_x == 0,
                ;
            }
            assert(0 < self.len_x && 0 < self.len_y && 0 < self.len_z);
            assert(self.len_x <= self.len_x * self.len_z && self.len_x * self.len_z <= self.len_x
                * self.len_z * self.len_y) by (nonlinear_arith)
                requires
                    0 < self.len_y,
                    0 < self.len_z,
            ;
            self.lemma_face_tests(i as int);
        }
        let len_vec: usize = self.positions.len();
        let lx: usize = self.len_x;
        let sy: usize = lx * self.len_z;
        let vis0: bool = i % lx == 0 || self.positions[i - 1] == 0;
        let vis1: bool = i % lx == lx - 1 || self.positions[i + 1] == 0;
        let vis2: bool = i % sy < lx || self.positions[i - lx] == 0;
        let vis3: bool = i % sy >= sy - lx || self.positions[i + lx] == 0;
        let vis4: bool = i >= len_vec - sy || self.positions[i + sy] == 0;
        let vis5: bool = i < sy || self.positions[i - sy] == 0;
        let ghost shf = shift as int;
        let ghost pre_idx = idx_all@;
        let ghost c0 = if self.cell_visible(i as int, 0) {
            face_indices(0, shf)
        } else {
            Seq::<u16>::empty()
        };
        let ghost c1 = if self.cell_visible(i as int, 1) {
            face_indices(1, shf)
        } else {
            Seq::<u16>::empty()
        };
        let ghost c2 = if self.cell_visible(i as int, 2) {
            face_indices(2, shf)
        } else {
            Seq::<u16>::empty()
        };
        let ghost c3 = if self.cell_visible(i as int, 3) {
            face_indices(3, shf)
        } else {
            Seq::<u16>::empty()
        };
        let ghost c4 = if self.cell_visible(i as int, 4) {
            face_indices(4, shf)
        } else {
            Seq::<u16>::empty()
        };
        let ghost c5 = if self.cell_visible(i as int, 5) {
            face_indices(5, shf)
        } else {
            Seq::<u16>::empty()
        };
        proof {
            assert(vis0 == self.cell_visible(i as int, 0));
            assert(vis1 == self.cell_visible(i as int, 1));
            assert(vis2 == self.cell_visible(i as int, 2));
            assert(vis3 == self.cell_visible(i as int, 3));
            assert(vis4 == self.cell_visible(i as int, 4));
            assert(vis5 == self.cell_visible(i as int, 5));
        }
        if vis0 {
            push_face(idx_all, shift, 0);
        }
        proof {
            if !vis0 {
                Seq::add_empty_right(pre_idx, c0);
            }
            assert(idx_all@ == pre_idx + c0);
        }
        if vis1 {
            push_face(idx_all, shift, 1);
        }
        proof {
            if !vis1 {
                Seq::add_empty_right(pre_idx + c0, c1);
            }
            assert(idx_all@ == pre_idx + c0 + c1);
        }
        if vis2 {
            push_face(idx_all, shift, 2);
        }
        proof {
            if !vis2 {
                Seq::add_empty_right(pre_idx + c0 + c1, c2);
            }
            assert(idx_all@ == pre_idx + c0 + c1 + c2);
        }
        if vis3 {
            push_face(idx_all, shift, 3);
        }
        proof {
            if !vis3 {
                Seq::add_empty_right(pre_idx + c0 + c1 + c2, c3);
            }
            assert(idx_all@ == pre_idx + c0 + c1 + c2 + c3);
        }
        if vis4 {
            push_face(idx_all, shift, 4);
        }
        proof {
            if !vis4 {
                Seq::add_empty_right(pre_idx + c0 + c1 + c2 + c3, c4);
            }
            assert(idx_all@ == pre_idx + c0 + c1 + c2 + c3 + c4);
        }
        if vis5 {
            push_face(idx_all, shift, 5);
        }
        proof {
            if !vis5 {
                Seq::add_empty_right(pre_idx + c0 + c1 + c2 + c3 + c4, c5);
            }
            assert(idx_all@ == pre_idx + c0 + c1 + c2 + c3 + c4 + c5);
            lemma_concat_associative(pre_idx, c0, c1);
            lemma_concat_associative(pre_idx, c0 + c1, c2);
            lemma_concat_associative(pre_idx, c0 + c1 + c2, c3);
            lemma_concat_associative(pre_idx, c0 + c1 + c2 + c3, c4);
            lemma_concat_associative(pre_idx, c0 + c1 + c2 + c3 + c4, c5);
            assert(idx_all@ == pre_idx + self.cell_indices(i as int, shf));
        }
    }

    /// Emits the eight corner vertices of one occupied cell of the scan,
    /// translated to world space.
    #[verifier::rlimit(100)]
    fn emit_cell_vertices(&self, i: usize, verts: &mut Vec<Coord<i64>>)
        requires
            self.wf(),
            i < self.total(),
        ensures
            final(verts)@ == old(verts)@ + self.cell_vertices(i as int),
    {
        proof {
            if self.len_x == 0 && self.len_y == 0 && self.len_z == 0 {
                assert(self.total() == 0) by (nonlinear_arith)
                    requires
                        self.len_x == 0,
                ;
            }
            assert(0 < self.len_x && 0 < self.len_y && 0 < self.len_z);
            assert(self.len_x <= self.len_x * self.len_z && self.len_x * self.len_z <= self.len_x
                * self.len_z * self.len_y) by (nonlinear_arith)
                requires
                    0 < self.len_y,
                    0 < self.len_z,
            ;
            self.lemma_cell_decomposition(i as int);
        }
        let len_vec: usize = self.positions.len();
        let lx: usize = self.len_x;
        let sy: usize = lx * self.len_z;
        let cx_: usize = i % lx;
        let cz_: usize = (i % sy) / lx;
        let cy_: usize = i / sy;
        let xw: i64 = cx_ as i64;
        let yw: i64 = cy_ as i64;
        let zw: i64 = cz_ as i64;
        let ghost pre_v = verts@;
        push_cell_vertices(verts, xw, yw, zw);
        proof {
            assert(verts@ =~= pre_v + self.cell_vertices(i as int));
        }
    }
}

impl Cubes {
    /// Derives the triangle mesh of the grid: a full ascending scan of the
    /// occupancy array that, for every occupied cell, appends the cell's
    /// eight corner vertices (translated to world space) and, for each of
    /// its six faces whose neighbour is outside the box or empty, the
    /// face's six triangle indices, shifted by eight per occupied cell
    /// already emitted.  `vert_len` and `idx_len` only pre-size the output
    /// buffers.  The occupied-cell budget keeps every index inside `u16`.
    #[verifier::loop_isolation(false)]
    #[verifier::rlimit(60)]
    pub fn to_vertices(&self, vert_len: usize, idx_len: usize) -> (r: (Vec<Coord<i64>>, Vec<u16>))
        requires
            self.wf(),
            self.occ_count(self.total()) <= 8192,
        ensures
            r.0@ == self.mesh_vertices(),
            r.1@ == self.mesh_indices(),
            r.0@.len() == 8 * self.occ_count(self.total()),
            forall|t: int| 0 <= t < r.1@.len() ==> (#[trigger] r.1@[t]) < r.0@.len(),
            r.1@.len() % 6 == 0,
    {
        if self.positions.is_empty() {
            proof {
                self.lemma_verts_upto_len(self.total());
                self.lemma_idx_upto_len(self.total());
                lemma_mod_multiples_basic(self.vis_upto(self.total()), 6);
            }
            return (Vec::new(), Vec::new());
        }
        let len_vec: usize = self.positions.len();
        let mut verts: Vec<Coord<i64>> = Vec::with_capacity(vert_len);
        let mut idx_all: Vec<u16> = Vec::with_capacity(idx_len);
        let mut shift: usize = 0;
        let mut i: usize = 0;
        while i < len_vec
            invariant
                i <= len_vec,
                shift == 8 * self.occ_count(i as int),
                verts@ == self.verts_upto(i as int),
                idx_all@ == self.idx_upto(i as int),
            decreases len_vec - i,
        {
            if self.positions[i] == 1 {
                proof {
                    self.lemma_occ_count_monotone(i as int + 1, self.total());
                    assert(self.occ_count(i as int + 1) == self.occ_count(i as int) + 1);
                    assert(shift + 8 <= 8 * 8192);
                }
                self.emit_cell_indices(i, shift, &mut idx_all);
                self.emit_cell_vertices(i, &mut verts);
                shift = shift + 8;
                proof {
                    assert(idx_all@ == self.idx_upto(i as int + 1));
                    assert(verts@ == self.verts_upto(i as int + 1));
                }
            } else {
                proof {
                    assert(self.idx_upto(i as int + 1) =~= self.idx_upto(i as int));
                    assert(self.verts_upto(i as int + 1) =~= self.verts_upto(i as int));
                }
            }
            i = i + 1;
        }
        proof {
            self.lemma_verts_upto_len(self.total());
            self.lemma_idx_upto_len(self.total());
            self.lemma_idx_upto_values(self.total());
            lemma_mod_multiples_basic(self.vis_upto(self.total()), 6);
        }
        (verts, idx_all)
    }
}

} // verus!
