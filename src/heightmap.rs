//! The height field: a grid of elevation samples, and the closed mesh built over it.
use vstd::prelude::*;
use crate::float_bits::{grid_coordinate, grid_point, is_finite, is_finite_bits, is_positive, is_positive_bits};
use crate::triangle::{add_rect, quad, Point, Triangle};

verus! {

/// A `width` by `height` grid of elevations, stored row by row.
///
/// `scale_x`, `scale_y` and the samples are bit patterns of single-precision values.
/// When `invert_y` holds, logical row `j` is stored at row `height - 1 - j`.
pub struct Heightmap {
    pub width: i32,
    pub height: i32,
    pub scale_x: u32,
    pub scale_y: u32,
    pub samples: Vec<u32>,
    pub invert_y: bool,
}

impl Heightmap {
    /// Both sizes are non-negative, there is exactly one sample per grid point,
    /// and both scales are finite.
    pub open spec fn wf(&self) -> bool {
        &&& is_finite_bits(self.scale_x)
        &&& is_finite_bits(self.scale_y)
        &&& self.width >= 0
        &&& self.height >= 0
        &&& self.samples@.len() == self.width as int * self.height as int
    }

    /// Whether `(i, j)` lies on the grid.
    pub open spec fn in_grid(&self, i: int, j: int) -> bool {
        0 <= i < self.width && 0 <= j < self.height
    }

    /// Position in `samples` of the grid point `(i, j)`.
    pub open spec fn index_of(&self, i: int, j: int) -> int {
        if self.invert_y {
            (self.height - 1 - j) * self.width + i
        } else {
            j * self.width + i
        }
    }

    /// The elevation at `(i, j)`: the stored sample on the grid, `0.0` off it.
    pub open spec fn sample_spec(&self, i: int, j: int) -> u32 {
        if self.in_grid(i, j) {
            self.samples@[self.index_of(i, j)]
        } else {
            0
        }
    }

    /// Builds a height field, or `None` when the sizes are negative, the
    /// number of samples is not `width * height`, or a scale is not finite.
    pub fn new(width: i32, height: i32, scale_x: u32, scale_y: u32, samples: Vec<u32>, invert_y: bool)
        -> (r: Option<Heightmap>)
        ensures
            r.is_some() <==> (width >= 0 && height >= 0 && samples@.len() == width as int * height as int
                && is_finite_bits(scale_x) && is_finite_bits(scale_y)),
            r matches Some(h) ==> h.wf() && h.width == width && h.height == height
                && h.scale_x == scale_x && h.scale_y == scale_y && h.samples@ == samples@
                && h.invert_y == invert_y,
    {
        if width < 0 || height < 0 || !is_finite(scale_x) || !is_finite(scale_y) {
            return None;
        }
        proof {
            let (w, h) = (width as int, height as int);
            assert(w * h <= 0x7FFF_FFFF * 0x7FFF_FFFF) by (nonlinear_arith)
                requires 0 <= w <= 0x7FFF_FFFF, 0 <= h <= 0x7FFF_FFFF;
        }
        let cells: u64 = width as u64 * height as u64;
        if samples.len() as u64 != cells {
            return None;
        }
        Some(Heightmap { width, height, scale_x, scale_y, samples, invert_y })
    }

    /// The elevation at column `i`, row `j`; `0.0` (bit pattern `0`) off the grid.
    pub fn sample(&self, i: i32, j: i32) -> (r: u32)
        requires
            self.wf(),
        ensures
            r == self.sample_spec(i as int, j as int),
            !self.in_grid(i as int, j as int) ==> r == 0,
    {
        if i < 0 || j < 0 || i >= self.width || j >= self.height {
            0
        } else {
            let n: usize = self.samples.len();
            let row: i32 = if self.invert_y { self.height - j - 1 } else { j };
            proof {
                assert(0 <= row < self.height);
                let (r, w, h, c) = (row as int, self.width as int, self.height as int, i as int);
                assert(r * w + c < w * h) by (nonlinear_arith)
                    requires 0 <= r < h, 0 <= c < w;
                assert(r * w + c >= 0) by (nonlinear_arith)
                    requires 0 <= r, 0 <= c, 0 <= w;
                assert(r * w <= w * h) by (nonlinear_arith)
                    requires 0 <= r < h, 0 <= w;
            }
            let index: usize = row as usize * self.width as usize + i as usize;
            self.samples[index]
        }
    }
}


impl Heightmap {
    /// The vertex over grid point `(i, j)` at elevation `z`.
    pub open spec fn corner(&self, i: int, j: int, z: u32) -> Point {
        Point { x: grid_coordinate(i, self.scale_x), y: grid_coordinate(j, self.scale_y), z }
    }

    /// The first column `k' >= k` of row `j` whose elevation differs from `z`
    /// (bit for bit), or `width` when there is none.
    pub open spec fn scan_end(&self, z: u32, k: int, j: int) -> int
        decreases self.width - k,
    {
        if k >= self.width {
            self.width as int
        } else if self.sample_spec(k, j) != z {
            k
        } else {
            self.scan_end(z, k + 1, j)
        }
    }

    /// One past the last column of the run of equal elevations that begins at `(i, j)`.
    pub open spec fn run_end(&self, i: int, j: int) -> int {
        self.scan_end(self.sample_spec(i, j), i + 1, j)
    }

    /// A run of equal, positive elevations begins at `(i, j)`: the elevation is
    /// positive and the cell to its left (if any) has another elevation.
    pub open spec fn starts_run(&self, i: int, j: int) -> bool {
        &&& self.in_grid(i, j)
        &&& is_positive_bits(self.sample_spec(i, j))
        &&& (i == 0 || self.sample_spec(i - 1, j) != self.sample_spec(i, j))
    }

    /// The top of the run that begins at `(i, j)`, and the floor beneath it.
    pub open spec fn run_faces(&self, i: int, j: int) -> Seq<Triangle> {
        let z = self.sample_spec(i, j);
        let e = self.run_end(i, j);
        quad(self.corner(i, j, z), self.corner(e, j, z), self.corner(e, j + 1, z), self.corner(i, j + 1, z))
            + quad(self.corner(e, j, 0), self.corner(i, j, 0), self.corner(i, j + 1, 0), self.corner(e, j + 1, 0))
    }

    /// The wall between rows `j - 1` and `j`, then the wall between columns
    /// `i - 1` and `i`, each spanning one cell edge from the neighbour's elevation
    /// to the elevation at `(i, j)`.
    pub open spec fn wall_faces(&self, i: int, j: int) -> Seq<Triangle> {
        let z = self.sample_spec(i, j);
        let bz = self.sample_spec(i, j - 1);
        let lz = self.sample_spec(i - 1, j);
        quad(self.corner(i, j, bz), self.corner(i + 1, j, bz), self.corner(i + 1, j, z), self.corner(i, j, z))
            + quad(self.corner(i, j + 1, lz), self.corner(i, j, lz), self.corner(i, j, z), self.corner(i, j + 1, z))
    }

    /// Everything emitted at `(i, j)`: a run's top and floor where one begins, then the walls.
    pub open spec fn cell_faces(&self, i: int, j: int) -> Seq<Triangle> {
        if self.starts_run(i, j) {
            self.run_faces(i, j) + self.wall_faces(i, j)
        } else {
            self.wall_faces(i, j)
        }
    }

    /// The cells `0 .. n` of row `j`, in order.
    pub open spec fn row_faces(&self, j: int, n: int) -> Seq<Triangle>
        decreases n,
    {
        if n <= 0 {
            Seq::empty()
        } else {
            self.row_faces(j, n - 1) + self.cell_faces(n - 1, j)
        }
    }

    /// The rows `0 .. n`, each over the columns `0 ..= width`.
    pub open spec fn rows_faces(&self, n: int) -> Seq<Triangle>
        decreases n,
    {
        if n <= 0 {
            Seq::empty()
        } else {
            self.rows_faces(n - 1) + self.row_faces(n - 1, self.width + 1)
        }
    }

    /// The whole mesh: every row `0 ..= height`.
    pub open spec fn mesh(&self) -> Seq<Triangle> {
        self.rows_faces(self.height + 1)
    }

    proof fn lemma_scan_end_bounds(&self, z: u32, k: int, j: int)
        requires
            self.width >= 0,
            k <= self.width,
        ensures
            k <= self.scan_end(z, k, j) <= self.width,
        decreases self.width - k,
    {
        if k < self.width && self.sample_spec(k, j) == z {
            self.lemma_scan_end_bounds(z, k + 1, j);
        }
    }

    fn corner_at(&self, i: i64, j: i64, z: u32) -> (r: Point)
        requires
            self.wf(),
        ensures
            r == self.corner(i as int, j as int, z),
    {
        let (x, y) = grid_point(i, j, self.scale_x, self.scale_y);
        Point { x, y, z }
    }

    /// One past the last column of the run of equal elevations that begins at `(i, j)`.
    fn find_run_end(&self, i: i32, j: i32) -> (e: i32)
        requires
            self.wf(),
            self.in_grid(i as int, j as int),
        ensures
            e as int == self.run_end(i as int, j as int),
            i < e <= self.width,
    {
        let z = self.sample(i, j);
        let mut k: i32 = i + 1;
        proof {
            self.lemma_scan_end_bounds(z, k as int, j as int);
        }
        while k < self.width && self.sample(k, j) == z
            invariant
                self.wf(),
                i < k <= self.width,
                self.scan_end(z, k as int, j as int) == self.scan_end(z, i + 1, j as int),
            decreases self.width - k,
        {
            k = k + 1;
        }
        k
    }

    /// Appends to `out` everything emitted at `(i, j)`.
    fn emit_cell(&self, out: &mut Vec<Triangle>, i: i32, j: i32)
        requires
            self.wf(),
            0 <= i <= self.width,
            0 <= j <= self.height,
        ensures
            final(out)@ == old(out)@ + self.cell_faces(i as int, j as int),
    {
        let z = self.sample(i, j);
        let (ci, cj) = (i as i64, j as i64);
        let starts = i < self.width && j < self.height && is_positive(z)
            && (i == 0 || self.sample(i - 1, j) != z);
        if starts {
            let e = self.find_run_end(i, j) as i64;
            add_rect(out, self.corner_at(ci, cj, z), self.corner_at(e, cj, z),
                self.corner_at(e, cj + 1, z), self.corner_at(ci, cj + 1, z));
            add_rect(out, self.corner_at(e, cj, 0), self.corner_at(ci, cj, 0),
                self.corner_at(ci, cj + 1, 0), self.corner_at(e, cj + 1, 0));
        }
        let bz = self.sample(i, j - 1);
        add_rect(out, self.corner_at(ci, cj, bz), self.corner_at(ci + 1, cj, bz),
            self.corner_at(ci + 1, cj, z), self.corner_at(ci, cj, z));
        let lz = self.sample(i - 1, j);
        add_rect(out, self.corner_at(ci, cj + 1, lz), self.corner_at(ci, cj, lz),
            self.corner_at(ci, cj, z), self.corner_at(ci, cj + 1, z));
        assert(final(out)@ =~= old(out)@ + self.cell_faces(i as int, j as int));
    }

    /// The closed mesh over the height field.
    ///
    /// Rows `0 ..= height` are visited in order and, within each, columns
    /// `0 ..= width`. A run of equal positive elevations in a row gets one top
    /// quadrilateral and one floor quadrilateral at elevation zero; cells of
    /// elevation zero get neither, so only the runs are floored. Every cell
    /// then gets its two walls, down (or up) to the neighbour's elevation,
    /// which is zero beyond the grid. Vertex `(i, j)` lies at
    /// `(i * scale_x, j * scale_y)`.
    pub fn get_triangles(&self) -> (r: Vec<Triangle>)
        requires
            self.wf(),
        ensures
            r@ == self.mesh(),
    {
        let mut result: Vec<Triangle> = Vec::new();
        let mut j: i64 = 0;
        while j <= self.height as i64
            invariant
                self.wf(),
                0 <= j <= self.height + 1,
                result@ == self.rows_faces(j as int),
            decreases self.height + 1 - j,
        {
            let mut i: i64 = 0;
            while i <= self.width as i64
                invariant
                    self.wf(),
                    0 <= j <= self.height,
                    0 <= i <= self.width + 1,
                    result@ == self.rows_faces(j as int) + self.row_faces(j as int, i as int),
                decreases self.width + 1 - i,
            {
                self.emit_cell(&mut result, i as i32, j as i32);
                proof {
                    assert(self.row_faces(j as int, i + 1) == self.row_faces(j as int, i as int)
                        + self.cell_faces(i as int, j as int));
                    assert(result@ =~= self.rows_faces(j as int) + self.row_faces(j as int, i + 1));
                }
                i = i + 1;
            }
            proof {
                assert(self.rows_faces(j + 1) == self.rows_faces(j as int) + self.row_faces(j as int, self.width + 1));
            }
            j = j + 1;
        }
        result
    }
}


/// The two height fields hold the same values: sizes, scales, samples and row order.
pub open spec fn same_field(a: &Heightmap, b: &Heightmap) -> bool {
    &&& a.width == b.width
    &&& a.height == b.height
    &&& a.scale_x == b.scale_x
    &&& a.scale_y == b.scale_y
    &&& a.samples@ == b.samples@
    &&& a.invert_y == b.invert_y
}

proof fn lemma_same_scan_end(a: &Heightmap, b: &Heightmap, z: u32, k: int, j: int)
    requires
        same_field(a, b),
    ensures
        a.scan_end(z, k, j) == b.scan_end(z, k, j),
    decreases a.width - k,
{
    if k < a.width && a.sample_spec(k, j) == z {
        lemma_same_scan_end(a, b, z, k + 1, j);
    }
}

proof fn lemma_same_row(a: &Heightmap, b: &Heightmap, j: int, n: int)
    requires
        same_field(a, b),
    ensures
        a.row_faces(j, n) == b.row_faces(j, n),
    decreases n,
{
    if n > 0 {
        lemma_same_row(a, b, j, n - 1);
        lemma_same_scan_end(a, b, a.sample_spec(n - 1, j), n, j);
        assert(a.cell_faces(n - 1, j) == b.cell_faces(n - 1, j));
    }
}

proof fn lemma_same_rows(a: &Heightmap, b: &Heightmap, n: int)
    requires
        same_field(a, b),
    ensures
        a.rows_faces(n) == b.rows_faces(n),
    decreases n,
{
    if n > 0 {
        lemma_same_rows(a, b, n - 1);
        lemma_same_row(a, b, n - 1, a.width + 1);
    }
}

/// Triangulation is deterministic: height fields that hold the same values
/// (the same field triangulated twice, or a copy of it) give the same
/// triangle list, triangle for triangle.
pub proof fn lemma_mesh_deterministic(a: &Heightmap, b: &Heightmap)
    requires
        same_field(a, b),
    ensures
        a.mesh() == b.mesh(),
{
    lemma_same_rows(a, b, a.height + 1);
}


impl Heightmap {
    /// A run holds one elevation throughout.
    proof fn lemma_scan_inside(&self, z: u32, m: int, j: int, k: int)
        requires
            m <= k < self.scan_end(z, m, j),
        ensures
            self.sample_spec(k, j) == z,
        decreases self.width - m,
    {
        if m < self.width && self.sample_spec(m, j) == z && m < k {
            self.lemma_scan_inside(z, m + 1, j, k);
        }
    }

    /// A run reaches past every column up to which the elevation holds.
    proof fn lemma_scan_passes(&self, z: u32, m: int, j: int, k: int)
        requires
            0 <= m <= k < self.width,
            forall|q: int| m <= q <= k ==> #[trigger] self.sample_spec(q, j) == z,
        ensures
            self.scan_end(z, m, j) > k,
        decreases self.width - m,
    {
        assert(self.sample_spec(m, j) == z);
        if m < k {
            self.lemma_scan_passes(z, m + 1, j, k);
        } else {
            self.lemma_scan_end_bounds(z, m + 1, j);
        }
    }

    /// Every cell of positive elevation lies under the top of a run: one that
    /// begins at or left of it in its row, with the same elevation, and ends after it.
    pub proof fn lemma_run_covers(&self, i: int, j: int) -> (s: int)
        requires
            self.wf(),
            self.in_grid(i, j),
            is_positive_bits(self.sample_spec(i, j)),
        ensures
            0 <= s <= i < self.run_end(s, j),
            self.starts_run(s, j),
            self.sample_spec(s, j) == self.sample_spec(i, j),
        decreases i,
    {
        let z = self.sample_spec(i, j);
        if i == 0 || self.sample_spec(i - 1, j) != z {
            self.lemma_scan_end_bounds(z, i + 1, j);
            i
        } else {
            let s = self.lemma_run_covers(i - 1, j);
            assert forall|q: int| s + 1 <= q <= i implies #[trigger] self.sample_spec(q, j) == z by {
                if q < i {
                    self.lemma_scan_inside(z, s + 1, j, q);
                }
            }
            self.lemma_scan_passes(z, s + 1, j, i);
            s
        }
    }

    /// No cell lies under two runs' tops: a run that covers a cell is the only
    /// one beginning at or left of it that reaches it.
    pub proof fn lemma_runs_disjoint(&self, s1: int, s2: int, i: int, j: int)
        requires
            self.wf(),
            self.starts_run(s1, j),
            self.starts_run(s2, j),
            s1 <= i < self.run_end(s1, j),
            s2 <= i < self.run_end(s2, j),
        ensures
            s1 == s2,
    {
        if s1 < s2 {
            self.lemma_scan_inside(self.sample_spec(s1, j), s1 + 1, j, s2);
            if s1 < s2 - 1 {
                self.lemma_scan_inside(self.sample_spec(s1, j), s1 + 1, j, s2 - 1);
            }
        } else if s2 < s1 {
            self.lemma_scan_inside(self.sample_spec(s2, j), s2 + 1, j, s1);
            if s2 < s1 - 1 {
                self.lemma_scan_inside(self.sample_spec(s2, j), s2 + 1, j, s1 - 1);
            }
        }
    }
}

} // verus!
