//! Uniform spatial grid over the simulation domain.
//!
//! World coordinates are given floored to whole length units. The grid maps a
//! point to a cell by `floor((coordinate + offset) / cell_size)` on each axis,
//! clamped to the grid's extent, so that every point lands in exactly one cell.
use vstd::prelude::*;
use vstd::arithmetic::div_mod::{lemma_div_is_ordered, lemma_div_plus_one};

verus! {

/// Largest domain extent, and largest cell size, the grid accepts.
pub const MAX_EXTENT: u64 = 32768;

/// Extra cells added on each axis around the domain (two on each side).
pub const PADDING_CELLS: u64 = 4;

/// The cell coordinate of `v` on one axis: `floor((v + offset) / cell_size)`,
/// clamped into `[0, n)`.
pub open spec fn axis_cell(v: int, offset: int, cell_size: int, n: int) -> int {
    let c = (v + offset) / cell_size;
    if c < 0 {
        0
    } else if c >= n {
        n - 1
    } else {
        c
    }
}

/// Number of cells that cover `extent` with cells of `cell_size`, plus padding.
pub open spec fn cells_for(extent: int, cell_size: int) -> int {
    (extent + cell_size - 1) / cell_size + PADDING_CELLS
}

/// Covering `extent` with cells of size at least one takes at most `extent` cells.
proof fn lemma_ceil_div_le(extent: int, cell_size: int)
    requires
        0 <= extent,
        1 <= cell_size,
    ensures
        (extent + cell_size - 1) / cell_size <= extent,
{
    if extent == 0 {
        vstd::arithmetic::div_mod::lemma_basic_div(cell_size - 1, cell_size);
    } else {
        assert(extent + cell_size - 1 <= cell_size * extent) by (nonlinear_arith)
            requires
                1 <= extent,
                1 <= cell_size,
        ;
        lemma_div_is_ordered(extent + cell_size - 1, cell_size * extent, cell_size);
        vstd::arithmetic::div_mod::lemma_div_multiples_vanish(extent, cell_size);
    }
}

/// The linear index of a cell of the grid is below the number of cells, which
/// fits in a `u32`.
proof fn lemma_index_in_range(cx: int, cy: int, w: int, h: int)
    requires
        0 <= cx < w <= MAX_EXTENT + PADDING_CELLS,
        0 <= cy < h <= MAX_EXTENT + PADDING_CELLS,
    ensures
        0 <= cy * w + cx < w * h <= u32::MAX,
{
    assert(0 <= cy * w + cx < w * h) by (nonlinear_arith)
        requires
            0 <= cx < w,
            0 <= cy < h,
    ;
    assert(w * h <= (MAX_EXTENT + PADDING_CELLS) * (MAX_EXTENT + PADDING_CELLS)) by (nonlinear_arith)
        requires
            0 < w <= MAX_EXTENT + PADDING_CELLS,
            0 < h <= MAX_EXTENT + PADDING_CELLS,
    ;
    assert((MAX_EXTENT + PADDING_CELLS) * (MAX_EXTENT + PADDING_CELLS) <= u32::MAX) by (
    nonlinear_arith)
        requires
            MAX_EXTENT == 32768,
            PADDING_CELLS == 4,
    ;
}

/// The linear index `cy * w + cx` of a cell gives back its row and column.
proof fn lemma_index_decode(cx: int, cy: int, w: int)
    requires
        0 <= cx < w,
        0 <= cy,
    ensures
        (cy * w + cx) / w == cy,
        (cy * w + cx) % w == cx,
{
    vstd::arithmetic::div_mod::lemma_fundamental_div_mod_converse(cy * w + cx, w, cy, cx);
}

/// Exact cell coordinate of `v` along one axis, as `axis_cell` states it.
fn axis_cell_exec(v: i64, offset: i64, cell_size: u64, n: usize) -> (r: usize)
    requires
        0 < cell_size,
        1 <= n,
    ensures
        r == axis_cell(v as int, offset as int, cell_size as int, n as int),
        r < n,
{
    let s: i128 = v as i128 + offset as i128;
    if s < 0 {
        proof {
            vstd::arithmetic::div_mod::lemma_fundamental_div_mod(s as int, cell_size as int);
            vstd::arithmetic::div_mod::lemma_mod_bound(s as int, cell_size as int);
            let q = (s as int) / (cell_size as int);
            let m = (s as int) % (cell_size as int);
            assert(q < 0) by (nonlinear_arith)
                requires
                    s == cell_size * q + m,
                    0 <= m < cell_size,
                    s < 0,
                    cell_size > 0,
            ;
        }
        0
    } else {
        let q: u128 = (s as u128) / (cell_size as u128);
        if q >= n as u128 {
            n - 1
        } else {
            q as usize
        }
    }
}

/// Buckets of particle indices, one per cell, laid out row by row.
pub struct SpatialGrid {
    /// Side of a square cell, in length units.
    pub cell_size: u64,
    /// Number of cell columns.
    pub width_cells: usize,
    /// Number of cell rows.
    pub height_cells: usize,
    /// Added to an x coordinate before it is divided into cells.
    pub offset_x: i64,
    /// Added to a y coordinate before it is divided into cells.
    pub offset_y: i64,
    /// Particle indices of each cell; cell `(cx, cy)` is `buckets[cy * width_cells + cx]`.
    pub buckets: Vec<Vec<usize>>,
    /// Cell of each particle, as recorded by the last rebuild.
    pub particle_cells: Vec<usize>,
}

impl SpatialGrid {
    pub open spec fn spec_cell_size(&self) -> int {
        self.cell_size as int
    }

    pub open spec fn spec_width(&self) -> int {
        self.width_cells as int
    }

    pub open spec fn spec_height(&self) -> int {
        self.height_cells as int
    }

    pub open spec fn spec_offset_x(&self) -> int {
        self.offset_x as int
    }

    pub open spec fn spec_offset_y(&self) -> int {
        self.offset_y as int
    }

    /// Number of cells.
    pub open spec fn spec_num_cells(&self) -> int {
        self.buckets@.len() as int
    }

    /// Particle indices held by cell `c`.
    pub open spec fn spec_bucket(&self, c: int) -> Seq<usize> {
        self.buckets@[c]@
    }

    /// Cell of each particle indexed by the last rebuild.
    pub open spec fn spec_particle_cells(&self) -> Seq<usize> {
        self.particle_cells@
    }

    pub open spec fn spec_cell_x(&self, x: int) -> int {
        axis_cell(x, self.offset_x as int, self.cell_size as int, self.width_cells as int)
    }

    pub open spec fn spec_cell_y(&self, y: int) -> int {
        axis_cell(y, self.offset_y as int, self.cell_size as int, self.height_cells as int)
    }

    /// Linear index of the cell at column `cx` and row `cy`.
    pub open spec fn spec_index(&self, cx: int, cy: int) -> int {
        cy * self.width_cells + cx
    }

    /// Linear index of the cell that holds point `p`.
    pub open spec fn spec_cell_of_point(&self, p: (i64, i64)) -> int {
        self.spec_index(self.spec_cell_x(p.0 as int), self.spec_cell_y(p.1 as int))
    }

    /// Some bucket holds the particle index `i`.
    pub open spec fn holds_particle(&self, i: usize) -> bool {
        exists|c: int, k: int|
            0 <= c < self.spec_num_cells() && 0 <= k < self.spec_bucket(c).len()
                && #[trigger] self.spec_bucket(c)[k] == i
    }

    /// Cell `(cx, cy)` is a cell of the grid within one column and one row of
    /// `(gx, gy)`.
    pub open spec fn in_block(&self, gx: int, gy: int, cx: int, cy: int) -> bool {
        &&& 0 <= cx < self.width_cells
        &&& 0 <= cy < self.height_cells
        &&& gx - 1 <= cx <= gx + 1
        &&& gy - 1 <= cy <= gy + 1
    }

    /// Particle `j` is held by a cell of the 3x3 block of cells around `(gx, gy)`.
    pub open spec fn block_holds(&self, gx: int, gy: int, j: usize) -> bool {
        exists|cx: int, cy: int|
            self.in_block(gx, gy, cx, cy) && #[trigger] self.spec_bucket(
                self.spec_index(cx, cy),
            ).contains(j)
    }

    /// Like `block_holds`, over the cells of the block that come before position
    /// `t` when the block is read row by row (`t` runs from 0 to 9).
    pub open spec fn block_holds_before(&self, gx: int, gy: int, t: int, j: usize) -> bool {
        exists|cx: int, cy: int|
            self.in_block(gx, gy, cx, cy) && (cy - gy + 1) * 3 + (cx - gx + 1) < t
                && #[trigger] self.spec_bucket(self.spec_index(cx, cy)).contains(j)
    }

    /// Position, in the row-by-row reading of the 3x3 block around `(gx, gy)`, of
    /// the cell with linear index `c`.
    pub open spec fn block_pos(&self, gx: int, gy: int, c: int) -> int {
        (c / (self.width_cells as int) - gy + 1) * 3 + (c % (self.width_cells as int) - gx + 1)
    }

    /// Shape invariant: positive cell size, non-empty extent, one bucket per cell,
    /// and every particle's recorded cell is a cell of the grid.
    pub open spec fn wf(&self) -> bool {
        &&& 0 < self.cell_size <= MAX_EXTENT
        &&& 1 <= self.width_cells <= MAX_EXTENT + PADDING_CELLS
        &&& 1 <= self.height_cells <= MAX_EXTENT + PADDING_CELLS
        &&& self.buckets@.len() == self.width_cells * self.height_cells
        &&& forall|i: int|
            0 <= i < self.particle_cells@.len() ==> #[trigger] self.particle_cells@[i]
                < self.buckets@.len()
    }

    /// The buckets hold exactly the indexed particles: every entry of cell `c` is a
    /// particle whose recorded cell is `c`, each bucket is strictly increasing, and
    /// every particle appears in the bucket of its recorded cell.
    pub open spec fn buckets_exact(&self) -> bool {
        &&& forall|c: int, k: int|
            0 <= c < self.buckets@.len() && 0 <= k < self.buckets@[c]@.len() ==> {
                let j = #[trigger] self.buckets@[c]@[k];
                &&& j < self.particle_cells@.len()
                &&& self.particle_cells@[j as int] == c
            }
        &&& forall|c: int, k1: int, k2: int|
            0 <= c < self.buckets@.len() && 0 <= k1 < k2 < self.buckets@[c]@.len()
                ==> #[trigger] self.buckets@[c]@[k1] < #[trigger] self.buckets@[c]@[k2]
        &&& forall|i: int|
            0 <= i < self.particle_cells@.len() ==> #[trigger] self.buckets@[
                self.particle_cells@[i] as int
            ]@.contains(i as usize)
    }

    /// The grid was last rebuilt from the points `pts`.
    pub open spec fn indexes(&self, pts: Seq<(i64, i64)>) -> bool {
        &&& self.wf()
        &&& self.buckets_exact()
        &&& self.particle_cells@.len() == pts.len()
        &&& forall|i: int|
            0 <= i < pts.len() ==> #[trigger] self.particle_cells@[i] == self.spec_cell_of_point(
                pts[i],
            )
    }

    /// Cell column and row of the point `(x, y)`.
    pub fn cell_coords(&self, x: i64, y: i64) -> (r: (usize, usize))
        requires
            self.wf(),
        ensures
            r.0 == self.spec_cell_x(x as int),
            r.1 == self.spec_cell_y(y as int),
            r.0 < self.width_cells,
            r.1 < self.height_cells,
    {
        (
            axis_cell_exec(x, self.offset_x, self.cell_size, self.width_cells),
            axis_cell_exec(y, self.offset_y, self.cell_size, self.height_cells),
        )
    }

    /// Linear index of the cell at column `cx` and row `cy`.
    pub fn cell_index(&self, cx: usize, cy: usize) -> (r: usize)
        requires
            self.wf(),
            cx < self.width_cells,
            cy < self.height_cells,
        ensures
            r == self.spec_index(cx as int, cy as int),
            r < self.spec_num_cells(),
    {
        proof {
            lemma_index_in_range(cx as int, cy as int, self.width_cells as int, self.height_cells as int);
        }
        cy * self.width_cells + cx
    }

    /// Linear index of the cell that holds the point `(x, y)`.
    pub fn cell_of_point(&self, x: i64, y: i64) -> (r: usize)
        requires
            self.wf(),
        ensures
            r == self.spec_cell_of_point((x, y)),
            r < self.spec_num_cells(),
    {
        let (cx, cy) = self.cell_coords(x, y);
        self.cell_index(cx, cy)
    }

    /// A grid covering a `domain_width` by `domain_height` rectangle centred at the
    /// origin, with square cells of side `cell_size` and two cells of padding on
    /// every side. It indexes no particle yet.
    pub fn new(domain_width: u64, domain_height: u64, cell_size: u64) -> (r: Self)
        requires
            0 < cell_size <= MAX_EXTENT,
            domain_width <= MAX_EXTENT,
            domain_height <= MAX_EXTENT,
        ensures
            r.wf(),
            r.buckets_exact(),
            r.indexes(Seq::empty()),
            r.spec_cell_size() == cell_size,
            r.spec_width() == cells_for(domain_width as int, cell_size as int),
            r.spec_height() == cells_for(domain_height as int, cell_size as int),
            r.spec_offset_x() == domain_width / 2 + 2 * cell_size,
            r.spec_offset_y() == domain_height / 2 + 2 * cell_size,
            forall|c: int| 0 <= c < r.spec_num_cells() ==> #[trigger] r.spec_bucket(c).len() == 0,
    {
        let width = (domain_width + cell_size - 1) / cell_size + PADDING_CELLS;
        let height = (domain_height + cell_size - 1) / cell_size + PADDING_CELLS;
        proof {
            assert(width <= MAX_EXTENT + PADDING_CELLS) by {
                lemma_ceil_div_le(domain_width as int, cell_size as int);
            }
            assert(height <= MAX_EXTENT + PADDING_CELLS) by {
                lemma_ceil_div_le(domain_height as int, cell_size as int);
            }
            assert(width * height <= (MAX_EXTENT + PADDING_CELLS) * (MAX_EXTENT + PADDING_CELLS))
                by (nonlinear_arith)
                requires
                    1 <= width <= MAX_EXTENT + PADDING_CELLS,
                    1 <= height <= MAX_EXTENT + PADDING_CELLS,
            ;
        }
        let n = (width * height) as usize;
        let mut buckets: Vec<Vec<usize>> = Vec::new();
        let mut c: usize = 0;
        while c < n
            invariant
                c <= n,
                buckets@.len() == c,
                forall|k: int| 0 <= k < c ==> #[trigger] buckets@[k]@.len() == 0,
            decreases n - c,
        {
            buckets.push(Vec::new());
            c = c + 1;
        }
        SpatialGrid {
            cell_size,
            width_cells: width as usize,
            height_cells: height as usize,
            offset_x: (domain_width / 2 + 2 * cell_size) as i64,
            offset_y: (domain_height / 2 + 2 * cell_size) as i64,
            buckets,
            particle_cells: Vec::new(),
        }
    }

    /// Empties every bucket and refills the grid from the points `pts`: particle
    /// `i` goes to the cell of `pts[i]`. The geometry of the grid is unchanged.
    pub fn rebuild(&mut self, pts: &Vec<(i64, i64)>)
        requires
            old(self).wf(),
        ensures
            final(self).indexes(pts@),
            final(self).cell_size == old(self).cell_size,
            final(self).width_cells == old(self).width_cells,
            final(self).height_cells == old(self).height_cells,
            final(self).offset_x == old(self).offset_x,
            final(self).offset_y == old(self).offset_y,
    {
        let n = pts.len();
        let mut cells: Vec<usize> = Vec::new();
        let mut i: usize = 0;
        while i < n
            invariant
                self.wf(),
                n == pts@.len(),
                i <= n,
                cells@.len() == i,
                forall|k: int|
                    0 <= k < i ==> #[trigger] cells@[k] == self.spec_cell_of_point(pts@[k])
                        && cells@[k] < self.buckets@.len(),
            decreases n - i,
        {
            let p = pts[i];
            let c = self.cell_of_point(p.0, p.1);
            cells.push(c);
            i = i + 1;
        }
        let nb = self.buckets.len();
        let mut c: usize = 0;
        while c < nb
            invariant
                nb == self.buckets@.len(),
                c <= nb,
                self.cell_size == old(self).cell_size,
                self.width_cells == old(self).width_cells,
                self.height_cells == old(self).height_cells,
                self.offset_x == old(self).offset_x,
                self.offset_y == old(self).offset_y,
                self.buckets@.len() == old(self).buckets@.len(),
                self.particle_cells == old(self).particle_cells,
                forall|k: int| 0 <= k < c ==> #[trigger] self.buckets@[k]@.len() == 0,
            decreases nb - c,
        {
            let mut b: Vec<usize> = Vec::new();
            self.buckets.set_and_swap(c, &mut b);
            b.clear();
            self.buckets.set_and_swap(c, &mut b);
            c = c + 1;
        }
        self.particle_cells = cells;
        let mut i: usize = 0;
        while i < n
            invariant
                self.wf(),
                n == pts@.len(),
                i <= n,
                self.cell_size == old(self).cell_size,
                self.width_cells == old(self).width_cells,
                self.height_cells == old(self).height_cells,
                self.offset_x == old(self).offset_x,
                self.offset_y == old(self).offset_y,
                self.particle_cells@.len() == n,
                forall|k: int|
                    0 <= k < n ==> #[trigger] self.particle_cells@[k] == self.spec_cell_of_point(
                        pts@[k],
                    ),
                forall|c: int, k: int|
                    0 <= c < self.buckets@.len() && 0 <= k < self.buckets@[c]@.len() ==> {
                        let j = #[trigger] self.buckets@[c]@[k];
                        &&& j < i
                        &&& self.particle_cells@[j as int] == c
                    },
                forall|c: int, k1: int, k2: int|
                    0 <= c < self.buckets@.len() && 0 <= k1 < k2 < self.buckets@[c]@.len()
                        ==> #[trigger] self.buckets@[c]@[k1] < #[trigger] self.buckets@[c]@[k2],
                forall|j: int|
                    0 <= j < i ==> #[trigger] self.buckets@[
                        self.particle_cells@[j] as int
                    ]@.contains(j as usize),
            decreases n - i,
        {
            let c = self.particle_cells[i];
            let ghost before = self.buckets@;
            let ghost pc = self.particle_cells@;
            assert(forall|j: int| 0 <= j < i ==> #[trigger] before[pc[j] as int]@.contains(j as usize));
            let mut b: Vec<usize> = Vec::new();
            self.buckets.set_and_swap(c, &mut b);
            b.push(i);
            self.buckets.set_and_swap(c, &mut b);
            proof {
                assert(self.buckets@[c as int]@ == before[c as int]@.push(i));
                assert forall|j: int|
                    0 <= j < i + 1 implies #[trigger] self.buckets@[
                        self.particle_cells@[j] as int
                    ]@.contains(j as usize) by {
                    let cj = self.particle_cells@[j] as int;
                    assert(cj == pc[j] as int);
                    if j < i {
                        assert(before[pc[j] as int]@.contains(j as usize));
                        let k = choose|k: int|
                            0 <= k < before[cj]@.len() && before[cj]@[k] == j as usize;
                        if cj == c as int {
                            assert(self.buckets@[cj]@[k] == j as usize);
                        } else {
                            assert(self.buckets@[cj] == before[cj]);
                        }
                    } else {
                        assert(self.buckets@[cj]@[before[cj]@.len() as int] == j as usize);
                    }
                }
            }
            i = i + 1;
        }
    }

    /// Candidate neighbours of the point `(x, y)`: the particles of the 3x3 block
    /// of cells centred on the point's cell, cells outside the grid skipped. The
    /// block is read row by row, each bucket in its order.
    pub fn neighbors_near(&self, x: i64, y: i64) -> (r: Vec<usize>)
        requires
            self.wf(),
        ensures
            forall|j: usize|
                r@.contains(j) <==> self.block_holds(
                    self.spec_cell_x(x as int),
                    self.spec_cell_y(y as int),
                    j,
                ),
            self.buckets_exact() ==> r@.no_duplicates(),
    {
        let (gx, gy) = self.cell_coords(x, y);
        let mut r: Vec<usize> = Vec::new();
        let mut t: usize = 0;
        while t < 9
            invariant
                self.wf(),
                gx == self.spec_cell_x(x as int),
                gy == self.spec_cell_y(y as int),
                gx < self.width_cells,
                gy < self.height_cells,
                t <= 9,
                forall|j: usize|
                    r@.contains(j) <==> self.block_holds_before(gx as int, gy as int, t as int, j),
                self.buckets_exact() ==> r@.no_duplicates(),
                self.buckets_exact() ==> forall|m: int|
                    0 <= m < r@.len() ==> {
                        &&& (#[trigger] r@[m] as int) < self.particle_cells@.len()
                        &&& self.block_pos(
                            gx as int,
                            gy as int,
                            self.particle_cells@[r@[m] as int] as int,
                        ) < t
                    },
            decreases 9 - t,
        {
            let dx = t % 3;
            let dy = t / 3;
            if gx + dx >= 1 && gx + dx - 1 < self.width_cells && gy + dy >= 1 && gy + dy - 1
                < self.height_cells {
                let cx = gx + dx - 1;
                let cy = gy + dy - 1;
                let c = self.cell_index(cx, cy);
                let b: &Vec<usize> = &self.buckets[c];
                let ghost r0 = r@;
                let mut k: usize = 0;
                while k < b.len()
                    invariant
                        k <= b@.len(),
                        r@ == r0 + b@.subrange(0, k as int),
                    decreases b@.len() - k,
                {
                    r.push(b[k]);
                    k = k + 1;
                }
                proof {
                    assert(b@.subrange(0, b@.len() as int) == b@);
                    if self.buckets_exact() {
                        lemma_index_decode(cx as int, cy as int, self.width_cells as int);
                        assert(self.block_pos(gx as int, gy as int, c as int) == t);
                        assert forall|m: int| 0 <= m < r@.len() implies {
                            &&& (#[trigger] r@[m] as int) < self.particle_cells@.len()
                            &&& self.block_pos(
                                gx as int,
                                gy as int,
                                self.particle_cells@[r@[m] as int] as int,
                            ) < t + 1
                        } by {
                            if m >= r0.len() {
                                assert(r@[m] == b@[m - r0.len()]);
                                assert(self.buckets@[c as int]@[m - r0.len()] == b@[m - r0.len()]);
                            } else {
                                assert(r@[m] == r0[m]);
                            }
                        }
                        assert forall|m1: int, m2: int|
                            0 <= m1 < r@.len() && 0 <= m2 < r@.len() && m1 != m2 implies r@[m1]
                            != r@[m2] by {
                            if m1 < r0.len() && m2 < r0.len() {
                                assert(r@[m1] == r0[m1] && r@[m2] == r0[m2]);
                            } else if m1 >= r0.len() && m2 >= r0.len() {
                                let k1 = m1 - r0.len();
                                let k2 = m2 - r0.len();
                                assert(r@[m1] == b@[k1] && r@[m2] == b@[k2]);
                                assert(self.buckets@[c as int]@[k1] == b@[k1]);
                                assert(self.buckets@[c as int]@[k2] == b@[k2]);
                                if k1 < k2 {
                                    assert(self.buckets@[c as int]@[k1] < self.buckets@[c as int]@[k2]);
                                } else {
                                    assert(self.buckets@[c as int]@[k2] < self.buckets@[c as int]@[k1]);
                                }
                            } else if m1 < r0.len() {
                                let k2 = m2 - r0.len();
                                assert(r@[m1] == r0[m1]);
                                assert(r@[m2] == b@[k2]);
                                assert(self.buckets@[c as int]@[k2] == b@[k2]);
                                assert(self.particle_cells@[b@[k2] as int] == c);
                            } else {
                                let k1 = m1 - r0.len();
                                assert(r@[m2] == r0[m2]);
                                assert(r@[m1] == b@[k1]);
                                assert(self.buckets@[c as int]@[k1] == b@[k1]);
                                assert(self.particle_cells@[b@[k1] as int] == c);
                            }
                        }
                    }
                    assert forall|j: usize|
                        r@.contains(j) <==> self.block_holds_before(
                            gx as int,
                            gy as int,
                            t + 1,
                            j,
                        ) by {
                        if r@.contains(j) {
                            let m = choose|m: int| 0 <= m < r@.len() && r@[m] == j;
                            if m < r0.len() {
                                assert(r0.contains(j));
                            } else {
                                assert(b@[m - r0.len()] == j);
                                assert(self.spec_bucket(self.spec_index(cx as int, cy as int)).contains(
                                    j,
                                ));
                            }
                        }
                        if self.block_holds_before(gx as int, gy as int, t + 1, j) {
                            let (ex, ey) = choose|ex: int, ey: int|
                                self.in_block(gx as int, gy as int, ex, ey) && (ey - gy + 1) * 3 + (
                                ex - gx + 1) < t + 1 && #[trigger] self.spec_bucket(
                                    self.spec_index(ex, ey),
                                ).contains(j);
                            if (ey - gy + 1) * 3 + (ex - gx + 1) < t {
                                assert(self.block_holds_before(gx as int, gy as int, t as int, j));
                                assert(r0.contains(j));
                                let m = choose|m: int| 0 <= m < r0.len() && r0[m] == j;
                                assert(r@[m] == j);
                            } else {
                                assert(ex == cx && ey == cy);
                                let m = choose|m: int| 0 <= m < b@.len() && b@[m] == j;
                                assert(r@[r0.len() + m] == j);
                            }
                        }
                    }
                }
            } else {
                proof {
                    assert forall|j: usize|
                        self.block_holds_before(gx as int, gy as int, t + 1, j)
                            implies self.block_holds_before(gx as int, gy as int, t as int, j) by {
                        let (ex, ey) = choose|ex: int, ey: int|
                            self.in_block(gx as int, gy as int, ex, ey) && (ey - gy + 1) * 3 + (ex
                                - gx + 1) < t + 1 && #[trigger] self.spec_bucket(
                                self.spec_index(ex, ey),
                            ).contains(j);
                    }
                }
            }
            t = t + 1;
        }
        proof {
            assert forall|j: usize|
                self.block_holds(gx as int, gy as int, j) implies self.block_holds_before(
                    gx as int,
                    gy as int,
                    9,
                    j,
                ) by {
                let (ex, ey) = choose|ex: int, ey: int|
                    self.in_block(gx as int, gy as int, ex, ey) && #[trigger] self.spec_bucket(
                        self.spec_index(ex, ey),
                    ).contains(j);
                assert((ey - gy + 1) * 3 + (ex - gx + 1) < 9);
            }
        }
        r
    }
}

/// Along one axis, two coordinates at most one cell apart fall in the same or
/// adjacent cells, clamping included.
pub proof fn lemma_axis_cells_adjacent(a: int, b: int, offset: int, cell_size: int, n: int)
    requires
        0 < cell_size,
        1 <= n,
        a <= b <= a + cell_size,
    ensures
        axis_cell(a, offset, cell_size, n) <= axis_cell(b, offset, cell_size, n) <= axis_cell(
            a,
            offset,
            cell_size,
            n,
        ) + 1,
{
    lemma_div_is_ordered(a + offset, b + offset, cell_size);
    lemma_div_is_ordered(b + offset, cell_size + (a + offset), cell_size);
    lemma_div_plus_one(a + offset, cell_size);
}

impl SpatialGrid {
    /// After a rebuild the buckets partition the particles: each particle index
    /// below the number of points is held by exactly one bucket, exactly once, and
    /// no bucket holds any other value.
    pub proof fn lemma_rebuild_partition(&self, pts: Seq<(i64, i64)>)
        requires
            self.indexes(pts),
        ensures
            forall|c: int, k: int|
                0 <= c < self.spec_num_cells() && 0 <= k < self.spec_bucket(c).len() ==> (
                #[trigger] self.spec_bucket(c)[k] as int) < pts.len(),
            forall|i: int| 0 <= i < pts.len() ==> #[trigger] self.holds_particle(i as usize),
            forall|c1: int, k1: int, c2: int, k2: int|
                0 <= c1 < self.spec_num_cells() && 0 <= k1 < self.spec_bucket(c1).len() && 0 <= c2
                    < self.spec_num_cells() && 0 <= k2 < self.spec_bucket(c2).len()
                    && #[trigger] self.spec_bucket(c1)[k1] == #[trigger] self.spec_bucket(c2)[k2]
                    ==> c1 == c2 && k1 == k2,
    {
        assert forall|i: int| 0 <= i < pts.len() implies #[trigger] self.holds_particle(
            i as usize,
        ) by {
            let c = self.particle_cells@[i] as int;
            assert(self.buckets@[c]@.contains(i as usize));
            let k = choose|k: int| 0 <= k < self.buckets@[c]@.len() && self.buckets@[c]@[k] == i as usize;
            assert(self.spec_bucket(c)[k] == i as usize);
        }
        assert forall|c1: int, k1: int, c2: int, k2: int|
            0 <= c1 < self.spec_num_cells() && 0 <= k1 < self.spec_bucket(c1).len() && 0 <= c2
                < self.spec_num_cells() && 0 <= k2 < self.spec_bucket(c2).len()
                && #[trigger] self.spec_bucket(c1)[k1] == #[trigger] self.spec_bucket(c2)[k2]
                implies c1 == c2 && k1 == k2 by {
            let j = self.buckets@[c1]@[k1];
            assert(self.particle_cells@[j as int] == c1);
            assert(self.particle_cells@[self.buckets@[c2]@[k2] as int] == c2);
            if k1 < k2 {
                assert(self.buckets@[c1]@[k1] < self.buckets@[c1]@[k2]);
            } else if k2 < k1 {
                assert(self.buckets@[c1]@[k2] < self.buckets@[c1]@[k1]);
            }
        }
    }

    /// Every particle within one cell size of a point on both axes is held by the
    /// 3x3 block of cells around that point's cell, so it is among the candidates
    /// that `neighbors_near` returns for the point. A particle closer than the
    /// smoothing radius is such a particle whenever the cell size is at least that
    /// radius.
    pub proof fn lemma_neighbor_superset(&self, pts: Seq<(i64, i64)>, p: (i64, i64), j: usize)
        requires
            self.indexes(pts),
            j < pts.len(),
            -self.spec_cell_size() <= pts[j as int].0 - p.0 <= self.spec_cell_size(),
            -self.spec_cell_size() <= pts[j as int].1 - p.1 <= self.spec_cell_size(),
        ensures
            self.block_holds(self.spec_cell_x(p.0 as int), self.spec_cell_y(p.1 as int), j),
    {
        let q = pts[j as int];
        let cs = self.cell_size as int;
        if p.0 <= q.0 {
            lemma_axis_cells_adjacent(p.0 as int, q.0 as int, self.offset_x as int, cs, self.width_cells as int);
        } else {
            lemma_axis_cells_adjacent(q.0 as int, p.0 as int, self.offset_x as int, cs, self.width_cells as int);
        }
        if p.1 <= q.1 {
            lemma_axis_cells_adjacent(p.1 as int, q.1 as int, self.offset_y as int, cs, self.height_cells as int);
        } else {
            lemma_axis_cells_adjacent(q.1 as int, p.1 as int, self.offset_y as int, cs, self.height_cells as int);
        }
        let cx = self.spec_cell_x(q.0 as int);
        let cy = self.spec_cell_y(q.1 as int);
        assert(self.particle_cells@[j as int] == self.spec_index(cx, cy));
        let ji: int = j as int;
        assert(self.buckets@[self.particle_cells@[ji] as int]@.contains(ji as usize));
        assert(self.spec_bucket(self.spec_index(cx, cy)).contains(j));
        assert(self.in_block(self.spec_cell_x(p.0 as int), self.spec_cell_y(p.1 as int), cx, cy));
    }
}

} // verus!
