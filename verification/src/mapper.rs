use vstd::prelude::*;
use vstd::arithmetic::div_mod::{
    lemma_div_is_ordered, lemma_fundamental_div_mod, lemma_fundamental_div_mod_converse,
    lemma_mod_division_less_than_divisor,
};
use vstd::arithmetic::mul::lemma_mul_inequality;
use crate::config::MAX_GRID_SPAN;

verus! {

/// First source pixel row (or column) of the window of grid cell `t`
/// out of `n`, against a source axis of `size` pixels:
/// `floor((size - 1) * (t / n))`.
pub open spec fn window_lo(t: int, n: int, size: int) -> int {
    (size - 1) * t / n
}

/// Last source pixel row (or column), inclusive, of the window of grid
/// cell `t`: `floor((size - 1) * ((t + 1) / n))`. The inclusive upper
/// bound guarantees at least one pixel per window and makes adjacent
/// windows touch at the shared boundary pixel.
pub open spec fn window_hi(t: int, n: int, size: int) -> int {
    (size - 1) * (t + 1) / n
}

/// The source window of one grid cell never leaves the source axis:
/// `0 <= lo <= hi < size`, so every window holds at least one pixel
/// and the final cell still reaches the final source pixel.
pub proof fn lemma_window_within_bounds(t: int, n: int, size: int)
    requires
        0 < n,
        0 <= t < n,
        1 <= size,
    ensures
        0 <= window_lo(t, n, size),
        window_lo(t, n, size) <= window_hi(t, n, size),
        window_hi(t, n, size) < size,
{
    lemma_mul_inequality(t, t + 1, size - 1);
    assert((size - 1) * t == t * (size - 1)) by (nonlinear_arith);
    assert((size - 1) * (t + 1) == (t + 1) * (size - 1)) by (nonlinear_arith);
    lemma_div_is_ordered((size - 1) * t, (size - 1) * (t + 1), n);
    assert(0 <= (size - 1) * t) by (nonlinear_arith)
        requires
            0 <= t,
            1 <= size,
    ;
    assert(window_lo(t, n, size) >= 0) by {
        vstd::arithmetic::div_mod::lemma_div_pos_is_pos((size - 1) * t, n);
    }
    assert((size - 1) * (t + 1) <= n * (size - 1)) by {
        lemma_mul_inequality(t + 1, n, size - 1);
        assert((t + 1) * (size - 1) == (size - 1) * (t + 1)) by (nonlinear_arith);
        assert(n * (size - 1) == (size - 1) * n) by (nonlinear_arith);
    }
    assert(n * (size - 1) / n == size - 1) by {
        vstd::arithmetic::div_mod::lemma_div_multiples_vanish(size - 1, n);
    }
    lemma_div_is_ordered((size - 1) * (t + 1), n * (size - 1), n);
}

/// Adjacent grid cells' windows share exactly their boundary pixel:
/// the next cell starts on the pixel row where this cell ends.
pub proof fn lemma_adjacent_windows_share_boundary(t: int, n: int, size: int)
    ensures
        window_lo(t + 1, n, size) == window_hi(t, n, size),
{
}

/// The inclusive source window `[lo, hi]` of grid cell `t` out of `n`
/// cells along an axis, against a source axis of `size` pixels.
pub fn source_window(t: usize, n: usize, size: usize) -> (w: (usize, usize))
    requires
        1 <= n <= MAX_GRID_SPAN,
        t < n,
        1 <= size <= MAX_GRID_SPAN,
    ensures
        w.0 == window_lo(t as int, n as int, size as int),
        w.1 == window_hi(t as int, n as int, size as int),
        w.0 <= w.1 < size,
{
    proof {
        lemma_window_within_bounds(t as int, n as int, size as int);
        assert((size - 1) * (t + 1) <= MAX_GRID_SPAN * MAX_GRID_SPAN) by (nonlinear_arith)
            requires
                1 <= size <= MAX_GRID_SPAN,
                t + 1 <= MAX_GRID_SPAN,
        ;
        assert((size - 1) * t <= (size - 1) * (t + 1)) by (nonlinear_arith)
            requires
                1 <= size,
                0 <= t,
        ;
    }
    let lo: usize = (size - 1) * t / n;
    let hi: usize = (size - 1) * (t + 1) / n;
    (lo, hi)
}

/// Round-to-nearest of the rational `num / den`, `den > 0`; exact
/// halves round away from zero.
pub open spec fn round_nearest(num: int, den: int) -> int {
    if num >= 0 {
        (2 * num + den) / (2 * den)
    } else {
        -((2 * -num + den) / (2 * den))
    }
}

/// Numerator, over denominator `n`, of a tile's representative
/// coordinate along one axis: `lo + (hi - lo) * (t / n)` expressed as
/// one fraction.
pub open spec fn coord_numerator(t: int, n: int, lo: int, hi: int) -> int {
    lo * n + (hi - lo) * t
}

/// Rounding a rational bounded by integer multiples of the denominator
/// stays within those integer bounds.
pub proof fn lemma_round_nearest_bounds(num: int, den: int, a: int, b: int)
    requires
        0 < den,
        a * den <= num,
        num <= b * den,
    ensures
        a <= round_nearest(num, den) <= b,
{
    if num >= 0 {
        assert(2 * num + den <= 2 * den * b + (2 * den - 1)) by (nonlinear_arith)
            requires
                num <= b * den,
                0 < den,
        ;
        vstd::arithmetic::div_mod::lemma_div_multiples_vanish_fancy(b, 2 * den - 1, 2 * den);
        lemma_div_is_ordered(2 * num + den, 2 * den * b + (2 * den - 1), 2 * den);
        assert(2 * den * a <= 2 * num + den) by (nonlinear_arith)
            requires
                a * den <= num,
                0 < den,
        ;
        vstd::arithmetic::div_mod::lemma_div_multiples_vanish(a, 2 * den);
        lemma_div_is_ordered(2 * den * a, 2 * num + den, 2 * den);
    } else {
        let m = -num;
        assert(2 * m + den <= 2 * den * -a + (2 * den - 1)) by (nonlinear_arith)
            requires
                a * den <= num,
                m == -num,
                0 < den,
        ;
        vstd::arithmetic::div_mod::lemma_div_multiples_vanish_fancy(-a, 2 * den - 1, 2 * den);
        lemma_div_is_ordered(2 * m + den, 2 * den * -a + (2 * den - 1), 2 * den);
        if b < 0 {
            assert(2 * den * -b <= 2 * m + den) by (nonlinear_arith)
                requires
                    num <= b * den,
                    m == -num,
                    0 < den,
            ;
            vstd::arithmetic::div_mod::lemma_div_multiples_vanish(-b, 2 * den);
            lemma_div_is_ordered(2 * den * -b, 2 * m + den, 2 * den);
        } else {
            assert(0 <= 2 * m + den);
            vstd::arithmetic::div_mod::lemma_div_pos_is_pos(2 * m + den, 2 * den);
        }
    }
}

/// A tile's representative coordinate along one axis: the axis runs
/// from `lo_deg` (cell 0) to `hi_deg` (cell `n`), and cell `t` sits at
/// `lo + (hi - lo) * (t / n)`, rounded to the nearest integer degree.
/// For latitude `lo_deg` is the top edge and exceeds `hi_deg`.
pub fn tile_coordinate(t: usize, n: usize, lo_deg: i32, hi_deg: i32) -> (c: i32)
    requires
        1 <= n <= MAX_GRID_SPAN,
        t < n,
        -(MAX_GRID_SPAN as int) <= lo_deg <= MAX_GRID_SPAN,
        -(MAX_GRID_SPAN as int) <= hi_deg <= MAX_GRID_SPAN,
    ensures
        c == round_nearest(coord_numerator(t as int, n as int, lo_deg as int, hi_deg as int),
            n as int),
        lo_deg <= hi_deg ==> lo_deg <= c <= hi_deg,
        hi_deg <= lo_deg ==> hi_deg <= c <= lo_deg,
{
    let ghost numg = coord_numerator(t as int, n as int, lo_deg as int, hi_deg as int);
    proof {
        let span = MAX_GRID_SPAN as int;
        assert(-(span * span) <= lo_deg * n <= span * span && -(2 * span * span) <= (hi_deg
            - lo_deg) * t <= 2 * span * span) by (nonlinear_arith)
            requires
                -span <= lo_deg <= span,
                -span <= hi_deg <= span,
                0 <= t < n <= span,
        ;
    }
    let den: i64 = n as i64;
    let num: i64 = (lo_deg as i64) * den + ((hi_deg as i64) - (lo_deg as i64)) * (t as i64);
    proof {
        assert(num == numg);
        if lo_deg <= hi_deg {
            assert(lo_deg * n <= numg <= hi_deg * n) by (nonlinear_arith)
                requires
                    numg == lo_deg * n + (hi_deg - lo_deg) * t,
                    lo_deg <= hi_deg,
                    0 <= t < n,
            ;
            lemma_round_nearest_bounds(numg, n as int, lo_deg as int, hi_deg as int);
        } else {
            assert(hi_deg * n <= numg <= lo_deg * n) by (nonlinear_arith)
                requires
                    numg == lo_deg * n + (hi_deg - lo_deg) * t,
                    hi_deg <= lo_deg,
                    0 <= t < n,
            ;
            lemma_round_nearest_bounds(numg, n as int, hi_deg as int, lo_deg as int);
        }
    }
    if num >= 0 {
        let q: u64 = (2 * (num as u64) + (den as u64)) / (2 * (den as u64));
        q as i32
    } else {
        let q: u64 = (2 * ((-num) as u64) + (den as u64)) / (2 * (den as u64));
        -(q as i32)
    }
}

/// The unique id of the grid cell at `(row, col)` in a grid `w` cells
/// wide: row-major, row 0 at the northern edge.
pub open spec fn tile_id_spec(row: int, col: int, w: int) -> int {
    row * w + col
}

/// Ids and grid positions form a bijection: dividing an id by the grid
/// width recovers the row, the remainder recovers the column.
pub proof fn lemma_tile_id_round_trip(row: int, col: int, w: int)
    requires
        0 < w,
        0 <= row,
        0 <= col < w,
    ensures
        tile_id_spec(row, col, w) / w == row,
        tile_id_spec(row, col, w) % w == col,
        0 <= tile_id_spec(row, col, w),
{
    lemma_fundamental_div_mod_converse(row * w + col, w, row, col);
    assert(0 <= row * w) by (nonlinear_arith)
        requires
            0 <= row,
            0 < w,
    ;
}

/// Every id below `w * h` lies on exactly one grid cell, and that
/// cell's id is the id itself: the other direction of the bijection.
pub proof fn lemma_tile_position_round_trip(id: int, w: int, h: int)
    requires
        0 < w,
        0 < h,
        0 <= id < w * h,
    ensures
        0 <= id / w < h,
        0 <= id % w < w,
        tile_id_spec(id / w, id % w, w) == id,
{
    lemma_fundamental_div_mod(id, w);
    lemma_mod_division_less_than_divisor(id, w);
    assert((id / w) * w == w * (id / w)) by (nonlinear_arith);
    vstd::arithmetic::div_mod::lemma_div_pos_is_pos(id, w);
    assert(id / w < h) by {
        if id / w >= h {
            lemma_mul_inequality(h, id / w, w);
            assert(h * w == w * h) by (nonlinear_arith);
            assert((id / w) * w == w * (id / w)) by (nonlinear_arith);
        }
    }
}

/// The id of the grid cell at `(row, col)`.
pub fn tile_id(row: usize, col: usize, w: usize, h: usize) -> (id: u32)
    requires
        1 <= w <= MAX_GRID_SPAN,
        1 <= h <= MAX_GRID_SPAN,
        row < h,
        col < w,
    ensures
        id == tile_id_spec(row as int, col as int, w as int),
        id < w * h,
{
    proof {
        assert(row * w + col < w * h && row * w + col <= MAX_GRID_SPAN * MAX_GRID_SPAN)
            by (nonlinear_arith)
            requires
                1 <= w <= MAX_GRID_SPAN,
                1 <= h <= MAX_GRID_SPAN,
                row < h,
                col < w,
        ;
    }
    (row * w + col) as u32
}

/// The grid position `(row, col)` of a tile id.
pub fn tile_position(id: u32, w: usize, h: usize) -> (pos: (usize, usize))
    requires
        1 <= w <= MAX_GRID_SPAN,
        1 <= h <= MAX_GRID_SPAN,
        id < w * h,
    ensures
        pos.0 < h,
        pos.1 < w,
        tile_id_spec(pos.0 as int, pos.1 as int, w as int) == id,
{
    proof {
        lemma_tile_position_round_trip(id as int, w as int, h as int);
    }
    ((id as usize) / w, (id as usize) % w)
}

} // verus!
