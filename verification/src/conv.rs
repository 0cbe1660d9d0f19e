//! Flat row-major grids and circular (toroidal) convolution.
//!
//! A grid of `width * height` cells is stored row-major. Convolution wraps
//! at the edges: the neighborhood of a cell near a border samples from the
//! opposite border, so patterns can cross edges without boundary decay.

use vstd::prelude::*;

use crate::fixed::{KSCALE, SCALE};

verus! {

/// Largest accepted cell count of a grid (keeps every per-grid sum and
/// index computation far inside the i64 and usize ranges).
pub const GRID_CELL_LIMIT: usize = 4_000_000;

/// Sum of the first k entries of s.
pub open spec fn sum_prefix(s: Seq<i64>, k: int) -> int
    decreases k,
{
    if k <= 0 {
        0
    } else {
        sum_prefix(s, k - 1) + s[k - 1]
    }
}

/// Sum of all entries of s.
pub open spec fn seq_total(s: Seq<i64>) -> int {
    sum_prefix(s, s.len() as int)
}

/// All entries of s lie in [lo, hi].
pub open spec fn entries_in(s: Seq<i64>, lo: int, hi: int) -> bool {
    forall|i: int| 0 <= i < s.len() ==> lo <= #[trigger] s[i] <= hi
}

pub proof fn lemma_sum_prefix_bounds(s: Seq<i64>, k: int, lo: int, hi: int)
    requires
        0 <= k <= s.len(),
        entries_in(s, lo, hi),
    ensures
        k * lo <= sum_prefix(s, k) <= k * hi,
    decreases k,
{
    if k > 0 {
        lemma_sum_prefix_bounds(s, k - 1, lo, hi);
        assert((k - 1) * lo + lo == k * lo) by (nonlinear_arith);
        assert((k - 1) * hi + hi == k * hi) by (nonlinear_arith);
    } else {
        assert(k * lo == 0 && k * hi == 0) by (nonlinear_arith)
            requires k == 0;
    }
}

/// For sequences of non-negative entries, prefix sums grow with the prefix.
pub proof fn lemma_sum_prefix_monotone(s: Seq<i64>, k1: int, k2: int)
    requires
        0 <= k1 <= k2 <= s.len(),
        forall|i: int| 0 <= i < s.len() ==> 0 <= #[trigger] s[i],
    ensures
        sum_prefix(s, k1) <= sum_prefix(s, k2),
    decreases k2 - k1,
{
    if k1 < k2 {
        lemma_sum_prefix_monotone(s, k1, k2 - 1);
    }
}

/// In a sequence of non-negative entries, every entry is at most the total.
pub proof fn lemma_entry_le_total(s: Seq<i64>, i: int)
    requires
        0 <= i < s.len(),
        forall|j: int| 0 <= j < s.len() ==> 0 <= #[trigger] s[j],
    ensures
        s[i] <= seq_total(s),
        0 <= seq_total(s),
{
    lemma_sum_prefix_bounds(s, i, 0, i64::MAX as int);
    assert(i * 0 == 0) by (nonlinear_arith);
    lemma_sum_prefix_monotone(s, i + 1, s.len() as int);
    lemma_sum_prefix_monotone(s, 0, s.len() as int);
}

/// Floor division distributes over addition up to one unit:
/// a/d + b/d <= (a+b)/d <= a/d + b/d + 1.
pub proof fn lemma_div_superadd(a: int, b: int, d: int)
    requires
        1 <= d,
        0 <= a,
        0 <= b,
    ensures
        a / d + b / d <= (a + b) / d,
        (a + b) / d <= a / d + b / d + 1,
{
    vstd::arithmetic::div_mod::lemma_fundamental_div_mod(a, d);
    vstd::arithmetic::div_mod::lemma_fundamental_div_mod(b, d);
    vstd::arithmetic::div_mod::lemma_mod_bound(a, d);
    vstd::arithmetic::div_mod::lemma_mod_bound(b, d);
    vstd::arithmetic::div_mod::lemma_div_pos_is_pos(a, d);
    vstd::arithmetic::div_mod::lemma_div_pos_is_pos(b, d);
    let qa = a / d;
    let ra = a % d;
    let qb = b / d;
    let rb = b % d;
    assert(a + b == d * (qa + qb) + (ra + rb)) by (nonlinear_arith)
        requires a == d * qa + ra, b == d * qb + rb;
    if ra + rb < d {
        vstd::arithmetic::div_mod::lemma_fundamental_div_mod_converse_div(
            a + b, d, qa + qb, ra + rb);
    } else {
        assert(a + b == d * (qa + qb + 1) + (ra + rb - d)) by (nonlinear_arith)
            requires a + b == d * (qa + qb) + (ra + rb);
        vstd::arithmetic::div_mod::lemma_fundamental_div_mod_converse_div(
            a + b, d, qa + qb + 1, ra + rb - d);
    }
}

/// Relates the prefix sums of a table of non-negative weights and of its
/// normalization by `t` (in kk-units): the normalized sum is the scaled raw
/// sum, up to one rounding unit per entry.
pub proof fn lemma_norm_sum(raw: Seq<i64>, norm: Seq<i64>, t: int, kk: int, k: int)
    requires
        raw.len() == norm.len(),
        entries_in(raw, 0, SCALE as int),
        1 <= t,
        1 <= kk,
        forall|j: int| 0 <= j < norm.len() ==> #[trigger] norm[j] == raw[j] * kk / t,
        0 <= k <= raw.len(),
    ensures
        sum_prefix(norm, k) <= sum_prefix(raw, k) * kk / t,
        sum_prefix(raw, k) * kk / t <= sum_prefix(norm, k) + k,
    decreases k,
{
    if k == 0 {
        vstd::arithmetic::div_mod::lemma_div_of0(t);
        assert(sum_prefix(raw, 0) * kk == 0) by (nonlinear_arith);
    } else {
        lemma_norm_sum(raw, norm, t, kk, k - 1);
        lemma_sum_prefix_bounds(raw, k - 1, 0, SCALE as int);
        let sr = sum_prefix(raw, k - 1);
        let e = raw[k - 1] as int;
        assert(0 <= sr * kk) by (nonlinear_arith)
            requires 0 <= sr, 1 <= kk;
        assert(0 <= e * kk) by (nonlinear_arith)
            requires 0 <= e, 1 <= kk;
        assert((sr + e) * kk == sr * kk + e * kk) by (nonlinear_arith);
        lemma_div_superadd(sr * kk, e * kk, t);
    }
}

/// The toroidal index: position i shifted by the kernel offset d - r,
/// wrapped into [0, n).
pub open spec fn wrap_spec(i: int, d: int, r: int, n: int) -> int {
    (i + d + n - r) % n
}

pub fn wrap(i: usize, d: usize, r: usize, n: usize) -> (w: usize)
    requires
        i < n,
        d <= 2 * r,
        r < n,
        n <= GRID_CELL_LIMIT,
    ensures
        w == wrap_spec(i as int, d as int, r as int, n as int),
        w < n,
{
    proof {
        vstd::arithmetic::div_mod::lemma_mod_bound(
            i + d + n - r, n as int);
    }
    (i + d + n - r) % n
}

/// Weighted sum of the first k kernel cells over the toroidally shifted
/// neighborhood of cell (y, x): kernel cell k covers the offset
/// (k % side - r, k / side - r) from (y, x), wrapping at the edges.
pub open spec fn conv_prefix(
    cells: Seq<i64>, width: int, height: int, lookup: Seq<i64>, r: int, y: int, x: int, k: int,
) -> int
    decreases k,
{
    if k <= 0 {
        0
    } else {
        let side = 2 * r + 1;
        let dy = (k - 1) / side;
        let dx = (k - 1) % side;
        conv_prefix(cells, width, height, lookup, r, y, x, k - 1)
            + lookup[k - 1] * cells[wrap_spec(y, dy, r, height) * width + wrap_spec(x, dx, r, width)]
    }
}

/// The full circular convolution of the kernel table with the grid, at
/// cell (y, x), in KSCALE * SCALE units.
pub open spec fn conv_at(
    cells: Seq<i64>, width: int, height: int, lookup: Seq<i64>, r: int, y: int, x: int,
) -> int {
    conv_prefix(cells, width, height, lookup, r, y, x, (2 * r + 1) * (2 * r + 1))
}

/// Convolution over an all-zero grid is zero, whatever the kernel.
pub proof fn lemma_conv_prefix_zero(
    cells: Seq<i64>, width: int, height: int, lookup: Seq<i64>, r: int, y: int, x: int, k: int,
)
    requires
        1 <= width,
        1 <= height,
        cells.len() == width * height,
        forall|i: int| 0 <= i < cells.len() ==> #[trigger] cells[i] == 0,
    ensures
        conv_prefix(cells, width, height, lookup, r, y, x, k) == 0,
    decreases k,
{
    if k > 0 {
        lemma_conv_prefix_zero(cells, width, height, lookup, r, y, x, k - 1);
        let side = 2 * r + 1;
        let dy = (k - 1) / side;
        let dx = (k - 1) % side;
        let wy = wrap_spec(y, dy, r, height);
        let wx = wrap_spec(x, dx, r, width);
        vstd::arithmetic::div_mod::lemma_mod_bound(y + dy + height - r, height);
        vstd::arithmetic::div_mod::lemma_mod_bound(x + dx + width - r, width);
        assert(0 <= wy * width + wx < width * height) by (nonlinear_arith)
            requires 0 <= wy < height, 0 <= wx < width, 1 <= width;
        assert(cells[wy * width + wx] == 0);
        assert(lookup[k - 1] * 0 == 0) by (nonlinear_arith);
    }
}

/// An element-for-element copy of a cell array.
pub fn copy_cells(v: &Vec<i64>) -> (r: Vec<i64>)
    ensures
        r@ == v@,
{
    let mut r: Vec<i64> = Vec::new();
    let mut i: usize = 0;
    while i < v.len()
        invariant
            0 <= i <= v@.len(),
            r@.len() == i,
            forall|j: int| 0 <= j < i ==> #[trigger] r@[j] == v@[j],
        decreases v@.len() - i,
    {
        r.push(v[i]);
        i = i + 1;
    }
    proof {
        assert(r@ =~= v@);
    }
    r
}

/// Dimensional validity of a grid and a kernel table over it.
pub open spec fn grid_dims_ok(width: int, height: int) -> bool {
    &&& 1 <= width
    &&& 1 <= height
    &&& width * height <= GRID_CELL_LIMIT
}

pub open spec fn kernel_dims_ok(radius: int, width: int, height: int) -> bool {
    &&& 1 <= radius
    &&& radius < width
    &&& radius < height
}

/// One cell of the circular convolution, computed by walking the kernel
/// table once.
#[verifier::loop_isolation(false)]
pub fn conv_cell(
    cells: &Vec<i64>, width: usize, height: usize, lookup: &Vec<i64>, radius: usize, y: usize,
    x: usize,
) -> (s: i64)
    requires
        grid_dims_ok(width as int, height as int),
        kernel_dims_ok(radius as int, width as int, height as int),
        cells@.len() == width * height,
        entries_in(cells@, 0, SCALE as int),
        lookup@.len() == (2 * radius + 1) * (2 * radius + 1),
        entries_in(lookup@, 0, KSCALE as int),
        seq_total(lookup@) <= KSCALE,
        y < height,
        x < width,
    ensures
        s == conv_at(cells@, width as int, height as int, lookup@, radius as int, y as int, x as int),
        0 <= s <= KSCALE * SCALE,
{
    proof {
        assert(width <= GRID_CELL_LIMIT && height <= GRID_CELL_LIMIT) by (nonlinear_arith)
            requires
                1 <= width,
                1 <= height,
                width * height <= GRID_CELL_LIMIT;
    }
    let side: usize = 2 * radius + 1;
    let klen: usize = lookup.len();
    proof {
        assert(klen == (side as int) * (side as int));
    }
    let mut acc: i64 = 0;
    let mut k: usize = 0;
    while k < klen
        invariant
            0 <= k <= klen,
            acc == conv_prefix(cells@, width as int, height as int, lookup@, radius as int,
                y as int, x as int, k as int),
            0 <= acc,
            acc <= sum_prefix(lookup@, k as int) * SCALE,
        decreases klen - k,
    {
        proof {
            assert(k < klen ==> (k as int) / (side as int) < side) by {
                if k < klen {
                    vstd::arithmetic::div_mod::lemma_multiply_divide_lt(
                        k as int, side as int, side as int);
                }
            }
            vstd::arithmetic::div_mod::lemma_mod_bound(k as int, side as int);
            vstd::arithmetic::div_mod::lemma_div_pos_is_pos(k as int, side as int);
        }
        let dy: usize = k / side;
        let dx: usize = k % side;
        let wy: usize = wrap(y, dy, radius, height);
        let wx: usize = wrap(x, dx, radius, width);
        proof {
            assert(wy * width + wx < width * height) by (nonlinear_arith)
                requires wy < height, wx < width, 1 <= width;
        }
        let idx: usize = wy * width + wx;
        let cell: i64 = cells[idx];
        let wgt: i64 = lookup[k];
        proof {
            assert(0 <= wgt * cell <= KSCALE * SCALE) by (nonlinear_arith)
                requires 0 <= wgt <= KSCALE, 0 <= cell <= SCALE;
            lemma_sum_prefix_monotone(lookup@, k + 1, lookup@.len() as int);
            assert(sum_prefix(lookup@, k as int) * SCALE + wgt * SCALE
                == sum_prefix(lookup@, k + 1) * SCALE) by (nonlinear_arith)
                requires sum_prefix(lookup@, k + 1) == sum_prefix(lookup@, k as int) + wgt;
            assert(wgt * cell <= wgt * SCALE) by (nonlinear_arith)
                requires 0 <= wgt, cell <= SCALE;
            assert(sum_prefix(lookup@, lookup@.len() as int) * SCALE <= KSCALE * SCALE)
                by (nonlinear_arith)
                requires sum_prefix(lookup@, lookup@.len() as int) <= KSCALE;
        }
        acc = acc + wgt * cell;
        k = k + 1;
    }
    proof {
        lemma_sum_prefix_monotone(lookup@, klen as int, lookup@.len() as int);
        assert(sum_prefix(lookup@, klen as int) * SCALE <= KSCALE * SCALE) by (nonlinear_arith)
            requires sum_prefix(lookup@, klen as int) <= KSCALE;
    }
    acc
}

} // verus!
