//! Regular layout used to reset the particle set onto a grid: a near-square
//! block of columns and rows, filled row by row, centred at the origin.
use vstd::prelude::*;

verus! {

/// `c` is the ceiling of the square root of `n`: the least `c` with `c * c >= n`.
pub open spec fn is_ceil_sqrt(c: int, n: int) -> bool {
    &&& 0 <= c
    &&& c * c >= n
    &&& (c == 0 || (c - 1) * (c - 1) < n)
}

/// Columns of the layout for `n` particles: the ceiling of the square root of `n`.
pub open spec fn layout_cols(n: int) -> int {
    choose|c: int| is_ceil_sqrt(c, n)
}

/// At most one value is the ceiling of a square root.
proof fn lemma_ceil_sqrt_unique(c1: int, c2: int, n: int)
    requires
        is_ceil_sqrt(c1, n),
        is_ceil_sqrt(c2, n),
    ensures
        c1 == c2,
{
    if c1 < c2 {
        assert((c2 - 1) * (c2 - 1) >= c1 * c1) by (nonlinear_arith)
            requires
                0 <= c1 <= c2 - 1,
        ;
    } else if c2 < c1 {
        assert((c1 - 1) * (c1 - 1) >= c2 * c2) by (nonlinear_arith)
            requires
                0 <= c2 <= c1 - 1,
        ;
    }
}

/// Rows needed for `n` slots in rows of `cols`: `ceil(n / cols)`, or none without
/// columns.
pub open spec fn rows_for(n: int, cols: int) -> int {
    if cols == 0 {
        0
    } else {
        (n + cols - 1) / cols
    }
}

/// Offset of slot `i` from the centre of a run of `count` slots, in half-spacing
/// units: `2 * i - (count - 1)`.
pub open spec fn centred_half_offset(i: int, count: int) -> int {
    2 * i - (count - 1)
}

/// The smallest `c` with `c * c >= n`.
pub fn ceil_sqrt(n: usize) -> (c: usize)
    ensures
        is_ceil_sqrt(c as int, n as int),
{
    let mut c: usize = 0;
    proof {
        assert(usize::MAX * usize::MAX <= u128::MAX) by (nonlinear_arith)
            requires
                usize::MAX <= u64::MAX,
                u64::MAX * u64::MAX <= u128::MAX,
        ;
    }
    while (c as u128) * (c as u128) < n as u128
        invariant
            c == 0 || (c - 1) * (c - 1) < n,
            c <= n,
            c * c <= usize::MAX * usize::MAX,
            usize::MAX * usize::MAX <= u128::MAX,
        decreases n - c,
    {
        proof {
            assert(c < n) by (nonlinear_arith)
                requires
                    c * c < n,
            ;
            assert((c + 1) * (c + 1) <= usize::MAX * usize::MAX) by (nonlinear_arith)
                requires
                    0 <= c < n <= usize::MAX,
            ;
        }
        c = c + 1;
    }
    c
}

/// Columns and rows of the layout for `n` particles: `cols = ceil(sqrt(n))` and
/// `rows = ceil(n / cols)`. The block has room for every particle and no empty
/// row.
pub fn layout_dims(n: usize) -> (r: (usize, usize))
    ensures
        is_ceil_sqrt(r.0 as int, n as int),
        r.0 == layout_cols(n as int),
        r.1 == rows_for(n as int, r.0 as int),
        r.0 * r.1 >= n,
        r.0 <= r.1 + 1,
        r.1 <= r.0,
{
    let cols = ceil_sqrt(n);
    proof {
        lemma_ceil_sqrt_unique(cols as int, layout_cols(n as int), n as int);
    }
    if cols == 0 {
        (0, 0)
    } else {
        let q = n / cols;
        proof {
            vstd::arithmetic::div_mod::lemma_fundamental_div_mod(n as int, cols as int);
            assert(n % cols != 0 ==> q < n) by (nonlinear_arith)
                requires
                    n == cols * q + n % cols,
                    1 <= cols,
                    0 <= q,
                    0 <= n % cols,
            ;
        }
        let rows = if n % cols == 0 { q } else { q + 1 };
        proof {
            lemma_rows_bounds(n as int, cols as int, rows as int);
        }
        (cols, rows)
    }
}

proof fn lemma_rows_bounds(n: int, cols: int, rows: int)
    requires
        1 <= cols,
        is_ceil_sqrt(cols, n),
        rows == n / cols + if n % cols == 0 { 0int } else { 1int },
    ensures
        rows == rows_for(n, cols),
        cols * rows >= n,
        cols <= rows + 1,
        rows <= cols,
{
    let q = n / cols;
    let m = n % cols;
    vstd::arithmetic::div_mod::lemma_fundamental_div_mod(n, cols);
    vstd::arithmetic::div_mod::lemma_mod_bound(n, cols);
    vstd::arithmetic::div_mod::lemma_fundamental_div_mod(n + cols - 1, cols);
    vstd::arithmetic::div_mod::lemma_mod_bound(n + cols - 1, cols);
    let q2 = (n + cols - 1) / cols;
    let m2 = (n + cols - 1) % cols;
    assert(q2 == rows) by (nonlinear_arith)
        requires
            n == cols * q + m,
            0 <= m < cols,
            n + cols - 1 == cols * q2 + m2,
            0 <= m2 < cols,
            rows == q + if m == 0 { 0int } else { 1int },
    ;
    assert(cols * rows >= n) by (nonlinear_arith)
        requires
            n == cols * q + m,
            0 <= m < cols,
            rows == q + if m == 0 { 0int } else { 1int },
    ;
    assert(rows <= cols) by (nonlinear_arith)
        requires
            n == cols * q + m,
            0 <= m < cols,
            rows == q + if m == 0 { 0int } else { 1int },
            cols * cols >= n,
            1 <= cols,
    ;
    assert(cols <= rows + 1) by (nonlinear_arith)
        requires
            n == cols * q + m,
            0 <= m < cols,
            rows == q + if m == 0 { 0int } else { 1int },
            (cols - 1) * (cols - 1) < n,
            1 <= cols,
    ;
}

/// Column and row of every particle in the layout for `n` particles: particle
/// `k` sits at column `k % cols` of row `k / cols`, so the block is filled row by
/// row and slots past the last particle stay empty.
pub fn layout_slots(n: usize) -> (r: Vec<(usize, usize)>)
    ensures
        r@.len() == n,
        forall|k: int|
            0 <= k < n ==> {
                let cols = layout_cols(n as int);
                &&& #[trigger] r@[k].0 == k % cols
                &&& r@[k].1 == k / cols
                &&& r@[k].1 < rows_for(n as int, cols)
            },
{
    let (cols, rows) = layout_dims(n);
    proof {
        assert(cols >= 1 || n == 0) by (nonlinear_arith)
            requires
                cols * cols >= n,
                0 <= n,
        ;
    }
    let mut r: Vec<(usize, usize)> = Vec::new();
    let mut k: usize = 0;
    while k < n
        invariant
            k <= n,
            r@.len() == k,
            cols >= 1 || n == 0,
            cols * rows >= n,
            rows == rows_for(n as int, cols as int),
            forall|m: int|
                0 <= m < k ==> {
                    &&& #[trigger] r@[m].0 == m % (cols as int)
                    &&& r@[m].1 == m / (cols as int)
                    &&& r@[m].1 < rows
                },
        decreases n - k,
    {
        proof {
            vstd::arithmetic::div_mod::lemma_fundamental_div_mod(k as int, cols as int);
            vstd::arithmetic::div_mod::lemma_mod_bound(k as int, cols as int);
            let q = (k as int) / (cols as int);
            let m = (k as int) % (cols as int);
            assert(q < rows) by (nonlinear_arith)
                requires
                    k == cols * q + m,
                    0 <= m < cols,
                    k < n,
                    n <= cols * rows,
            ;
        }
        r.push((k % cols, k / cols));
        k = k + 1;
    }
    r
}

/// Offset of every particle from the centre of the layout for `n` particles, in
/// half-spacing units: particle `k` at column `col` of row `row` sits at
/// `(2 * col - (cols - 1), 2 * row - (rows - 1))`, so the block of slots is
/// centred at the origin. Multiplying by half the spacing gives the position.
pub fn layout_offsets(n: usize) -> (r: Vec<(i64, i64)>)
    ensures
        r@.len() == n,
        forall|k: int|
            0 <= k < n ==> {
                let cols = layout_cols(n as int);
                let rows = rows_for(n as int, cols);
                &&& #[trigger] r@[k].0 == centred_half_offset(k % cols, cols)
                &&& r@[k].1 == centred_half_offset(k / cols, rows)
            },
{
    let (cols, rows) = layout_dims(n);
    let slots = layout_slots(n);
    proof {
        // Offsets fit in i64: (cols - 1)^2 < n <= usize::MAX keeps cols within 2^32.
        if cols > 0x1_0000_0000 {
            assert((cols - 1) * (cols - 1) >= 0x1_0000_0000 * 0x1_0000_0000) by (nonlinear_arith)
                requires
                    cols - 1 >= 0x1_0000_0000,
            ;
        }
    }
    let mut r: Vec<(i64, i64)> = Vec::new();
    let mut k: usize = 0;
    while k < n
        invariant
            k <= n,
            n == slots@.len(),
            r@.len() == k,
            cols == layout_cols(n as int),
            rows == rows_for(n as int, cols as int),
            cols <= 0x1_0000_0000,
            rows <= cols,
            forall|m: int|
                0 <= m < n ==> {
                    &&& #[trigger] slots@[m].0 == m % (cols as int)
                    &&& slots@[m].1 == m / (cols as int)
                    &&& slots@[m].1 < rows
                },
            forall|m: int|
                0 <= m < k ==> {
                    &&& #[trigger] r@[m].0 == centred_half_offset(m % (cols as int), cols as int)
                    &&& r@[m].1 == centred_half_offset(m / (cols as int), rows as int)
                },
        decreases n - k,
    {
        let (col, row) = slots[k];
        proof {
            vstd::arithmetic::div_mod::lemma_mod_bound(k as int, cols as int);
        }
        let x = 2 * (col as i64) - (cols as i64 - 1);
        let y = 2 * (row as i64) - (rows as i64 - 1);
        r.push((x, y));
        k = k + 1;
    }
    r
}

/// The layout is centred: along an axis of `count` slots, slot `i` and its mirror
/// `count - 1 - i` lie at opposite offsets.
pub proof fn lemma_layout_centred(i: int, count: int)
    requires
        0 <= i < count,
    ensures
        centred_half_offset(count - 1 - i, count) == -centred_half_offset(i, count),
{
}

} // verus!
