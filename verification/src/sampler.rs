use vstd::prelude::*;
use vstd::arithmetic::div_mod::{
    lemma_div_multiples_vanish, lemma_fundamental_div_mod, lemma_mod_division_less_than_divisor,
};
use vstd::arithmetic::mul::lemma_mul_inequality;
use crate::config::{MAX_GRID_SPAN, MAX_TILE_EDGE};

verus! {

/// Nearest source index for output position `p` of `s`: the fractional
/// position `p / (s - 1)` scaled onto a source axis of `win` pixels,
/// `floor((p / (s - 1)) * (win - 1))`. With a single output sample the
/// fraction is taken as zero.
pub open spec fn nearest_index(p: int, s: int, win: int) -> int {
    if s <= 1 {
        0
    } else {
        p * (win - 1) / (s - 1)
    }
}

/// The nearest source index always lands inside the source axis.
pub proof fn lemma_nearest_index_in_range(p: int, s: int, win: int)
    requires
        1 <= s,
        0 <= p < s,
        1 <= win,
    ensures
        0 <= nearest_index(p, s, win) < win,
{
    if s > 1 {
        assert(0 <= p * (win - 1)) by (nonlinear_arith)
            requires
                0 <= p,
                1 <= win,
        ;
        vstd::arithmetic::div_mod::lemma_div_pos_is_pos(p * (win - 1), s - 1);
        lemma_mul_inequality(p, s - 1, win - 1);
        vstd::arithmetic::div_mod::lemma_div_multiples_vanish(win - 1, s - 1);
        assert((s - 1) * (win - 1) == (win - 1) * (s - 1)) by (nonlinear_arith);
        vstd::arithmetic::div_mod::lemma_div_is_ordered(p * (win - 1), (s - 1) * (win - 1),
            s - 1);
    }
}

/// Resampling an axis onto itself moves nothing: with `win == s` the
/// nearest source index of every output position is that position.
pub proof fn lemma_nearest_index_identity(p: int, s: int)
    requires
        1 <= s,
        0 <= p < s,
    ensures
        nearest_index(p, s, s) == p,
{
    if s > 1 {
        lemma_div_multiples_vanish(p, s - 1);
        assert(p * (s - 1) == (s - 1) * p) by (nonlinear_arith);
    }
}

/// Nearest source index for output position `p` of `s` against a
/// source axis of `win` pixels.
pub fn nearest_source_index(p: usize, s: usize, win: usize) -> (i: usize)
    requires
        1 <= s <= MAX_TILE_EDGE,
        p < s,
        1 <= win <= MAX_GRID_SPAN,
    ensures
        i == nearest_index(p as int, s as int, win as int),
        i < win,
{
    proof {
        lemma_nearest_index_in_range(p as int, s as int, win as int);
        assert(p * (win - 1) <= MAX_TILE_EDGE * MAX_GRID_SPAN) by (nonlinear_arith)
            requires
                0 <= p < MAX_TILE_EDGE,
                0 <= win <= MAX_GRID_SPAN,
        ;
    }
    if s == 1 {
        0
    } else {
        p * (win - 1) / (s - 1)
    }
}

/// The nearest-neighbor resampling of a row-major `win_w x win_h`
/// source block onto an `s x s` output block: output position
/// `(py, px)` carries the source sample at the nearest index pair.
pub open spec fn resampled<T>(src: Seq<T>, win_w: int, win_h: int, s: int) -> Seq<T> {
    Seq::new((s * s) as nat,
        |i: int| src[nearest_index(i / s, s, win_h) * win_w + nearest_index(i % s, s, win_w)])
}

/// Row-major position arithmetic: `(py, px)` with `px < s` maps to a
/// flat index below `s * s` that decodes back to `(py, px)`.
pub proof fn lemma_row_major_index(py: int, px: int, s: int)
    requires
        0 < s,
        0 <= py,
        0 <= px < s,
    ensures
        py * s <= py * s + px < (py + 1) * s,
        (py * s + px) / s == py,
        (py * s + px) % s == px,
{
    assert(py * s <= py * s + px < (py + 1) * s) by (nonlinear_arith)
        requires
            0 < s,
            0 <= py,
            0 <= px < s,
    ;
    vstd::arithmetic::div_mod::lemma_fundamental_div_mod_converse(py * s + px, s, py, px);
}

/// One tile's elevation block: `src` is the source window, row-major
/// `win_w x win_h`; the result is the `s x s` nearest-neighbor block.
/// The output extent is `s x s` whatever the window extent.
pub fn resample_block_i16(src: &Vec<i16>, win_w: usize, win_h: usize, s: usize) -> (out: Vec<
    i16,
>)
    requires
        1 <= win_w <= MAX_GRID_SPAN,
        1 <= win_h <= MAX_GRID_SPAN,
        src.len() == win_w * win_h,
        1 <= s <= MAX_TILE_EDGE,
    ensures
        out.len() == s * s,
        out@ == resampled(src@, win_w as int, win_h as int, s as int),
{
    let mut out: Vec<i16> = Vec::new();
    let ghost target = resampled(src@, win_w as int, win_h as int, s as int);
    proof {
        assert(s * s <= MAX_TILE_EDGE * MAX_TILE_EDGE) by (nonlinear_arith)
            requires
                1 <= s <= MAX_TILE_EDGE,
        ;
    }
    let mut py: usize = 0;
    while py < s
        invariant
            py <= s,
            out.len() == py * s,
            1 <= s <= MAX_TILE_EDGE,
            1 <= win_w <= MAX_GRID_SPAN,
            1 <= win_h <= MAX_GRID_SPAN,
            src.len() == win_w * win_h,
            target == resampled(src@, win_w as int, win_h as int, s as int),
            forall|i: int| 0 <= i < out.len() ==> out[i] == target[i],
        decreases s - py,
    {
        let sy = nearest_source_index(py, s, win_h);
        let mut px: usize = 0;
        proof {
            lemma_row_major_index(py as int, 0, s as int);
        }
        while px < s
            invariant
                px <= s,
                py < s,
                out.len() == py * s + px,
                sy == nearest_index(py as int, s as int, win_h as int),
                sy < win_h,
                1 <= s <= MAX_TILE_EDGE,
                1 <= win_w <= MAX_GRID_SPAN,
                1 <= win_h <= MAX_GRID_SPAN,
                src.len() == win_w * win_h,
                target == resampled(src@, win_w as int, win_h as int, s as int),
                forall|i: int| 0 <= i < out.len() ==> out[i] == target[i],
            decreases s - px,
        {
            let sx = nearest_source_index(px, s, win_w);
            proof {
                lemma_row_major_index(py as int, px as int, s as int);
                lemma_mul_inequality(py as int + 1, s as int, s as int);
                assert(sy * win_w + sx < win_w * win_h) by (nonlinear_arith)
                    requires
                        0 <= sy < win_h,
                        0 <= sx < win_w,
                ;
            }
            out.push(src[sy * win_w + sx]);
            px = px + 1;
        }
        py = py + 1;
        proof {
            assert((py - 1) * s + s == py * s) by (nonlinear_arith);
        }
    }
    proof {
        lemma_mul_inequality(s as int, s as int, s as int);
        assert(out@ =~= target);
    }
    out
}

/// One tile's imagery block: the three channel windows (red, green,
/// blue), each row-major `win_w x win_h`, resampled onto an `s x s`
/// block of interleaved red/green/blue triples. The output extent is
/// `3 * s * s` whatever the window extent.
pub fn resample_block_rgb(
    red: &Vec<u8>,
    green: &Vec<u8>,
    blue: &Vec<u8>,
    win_w: usize,
    win_h: usize,
    s: usize,
) -> (out: Vec<u8>)
    requires
        1 <= win_w <= MAX_GRID_SPAN,
        1 <= win_h <= MAX_GRID_SPAN,
        red.len() == win_w * win_h,
        green.len() == win_w * win_h,
        blue.len() == win_w * win_h,
        1 <= s <= MAX_TILE_EDGE,
    ensures
        out.len() == 3 * (s * s),
        out@ == interleaved_rgb(resampled(red@, win_w as int, win_h as int, s as int),
            resampled(green@, win_w as int, win_h as int, s as int),
            resampled(blue@, win_w as int, win_h as int, s as int)),
{
    let ghost target = interleaved_rgb(resampled(red@, win_w as int, win_h as int, s as int),
        resampled(green@, win_w as int, win_h as int, s as int),
        resampled(blue@, win_w as int, win_h as int, s as int));
    let mut out: Vec<u8> = Vec::new();
    proof {
        assert(s * s <= MAX_TILE_EDGE * MAX_TILE_EDGE) by (nonlinear_arith)
            requires
                1 <= s <= MAX_TILE_EDGE,
        ;
    }
    let mut py: usize = 0;
    while py < s
        invariant
            py <= s,
            out.len() == 3 * (py * s),
            1 <= s <= MAX_TILE_EDGE,
            1 <= win_w <= MAX_GRID_SPAN,
            1 <= win_h <= MAX_GRID_SPAN,
            red.len() == win_w * win_h,
            green.len() == win_w * win_h,
            blue.len() == win_w * win_h,
            target == interleaved_rgb(resampled(red@, win_w as int, win_h as int, s as int),
                resampled(green@, win_w as int, win_h as int, s as int),
                resampled(blue@, win_w as int, win_h as int, s as int)),
            forall|i: int| 0 <= i < out.len() ==> out[i] == target[i],
        decreases s - py,
    {
        let sy = nearest_source_index(py, s, win_h);
        let mut px: usize = 0;
        proof {
            lemma_row_major_index(py as int, 0, s as int);
        }
        while px < s
            invariant
                px <= s,
                py < s,
                out.len() == 3 * (py * s + px),
                sy == nearest_index(py as int, s as int, win_h as int),
                sy < win_h,
                1 <= s <= MAX_TILE_EDGE,
                1 <= win_w <= MAX_GRID_SPAN,
                1 <= win_h <= MAX_GRID_SPAN,
                red.len() == win_w * win_h,
                green.len() == win_w * win_h,
                blue.len() == win_w * win_h,
                target == interleaved_rgb(resampled(red@, win_w as int, win_h as int, s as int),
                    resampled(green@, win_w as int, win_h as int, s as int),
                    resampled(blue@, win_w as int, win_h as int, s as int)),
                forall|i: int| 0 <= i < out.len() ==> out[i] == target[i],
            decreases s - px,
        {
            let sx = nearest_source_index(px, s, win_w);
            let ghost flat = (py * s + px) as int;
            proof {
                lemma_row_major_index(py as int, px as int, s as int);
                lemma_mul_inequality(py as int + 1, s as int, s as int);
                assert(sy * win_w + sx < win_w * win_h) by (nonlinear_arith)
                    requires
                        0 <= sy < win_h,
                        0 <= sx < win_w,
                ;
                assert((3 * flat) / 3 == flat && (3 * flat) % 3 == 0) by (nonlinear_arith);
                assert((3 * flat + 1) / 3 == flat && (3 * flat + 1) % 3 == 1) by (nonlinear_arith);
                assert((3 * flat + 2) / 3 == flat && (3 * flat + 2) % 3 == 2) by (nonlinear_arith);
            }
            let si = sy * win_w + sx;
            out.push(red[si]);
            out.push(green[si]);
            out.push(blue[si]);
            px = px + 1;
        }
        py = py + 1;
        proof {
            assert(3 * ((py - 1) * s + s) == 3 * (py * s)) by (nonlinear_arith);
        }
    }
    proof {
        lemma_mul_inequality(s as int, s as int, s as int);
        assert(out@ =~= target);
    }
    out
}

/// Three equal-length channel planes interleaved into red/green/blue
/// triples, row-major.
pub open spec fn interleaved_rgb(r: Seq<u8>, g: Seq<u8>, b: Seq<u8>) -> Seq<u8> {
    Seq::new((3 * r.len()) as nat,
        |i: int|
            if i % 3 == 0 {
                r[i / 3]
            } else if i % 3 == 1 {
                g[i / 3]
            } else {
                b[i / 3]
            },
    )
}

/// Nearest-neighbor resampling is idempotent: a block whose window is
/// already `s x s` comes out unchanged.
pub proof fn lemma_resample_identity<T>(src: Seq<T>, s: int)
    requires
        1 <= s,
        src.len() == s * s,
    ensures
        resampled(src, s, s, s) =~= src,
{
    let out = resampled(src, s, s, s);
    assert forall|i: int| 0 <= i < s * s implies out[i] == src[i] by {
        lemma_fundamental_div_mod(i, s);
        lemma_mod_division_less_than_divisor(i, s);
        vstd::arithmetic::div_mod::lemma_div_pos_is_pos(i, s);
        assert(i / s < s) by {
            if i / s >= s {
                lemma_mul_inequality(s, i / s, s);
                assert((i / s) * s == s * (i / s)) by (nonlinear_arith);
            }
        }
        lemma_nearest_index_identity(i / s, s);
        lemma_nearest_index_identity(i % s, s);
        assert((i / s) * s == s * (i / s)) by (nonlinear_arith);
    }
}

} // verus!
