//! Interpolation kernels over row-major N-dimensional grids.
//!
//! All three kernels share one calling convention: a flat row-major data
//! array, the grid shape, and one fixed-point fractional index per axis.
//! Values and indices are fixed-point integers (see [`crate::fx::SCALE`]),
//! so every kernel result is defined exactly by a spec function.

use vstd::prelude::*;
use vstd::string::StringExecFns;
use crate::error::{Result, RossbyError};
use crate::fx::{SCALE, FX_VAL_MAX, ediv_i128};

verus! {

/// Largest axis length the kernels accept; keeps `(size - 1) * SCALE` within
/// `i64`.
pub const MAX_AXIS: usize = 1_000_000_000;

/// Most axes a grid handled by the kernels may have.  The cubic kernel can
/// overshoot the data range by at most a factor of two per axis, so this
/// cap keeps every intermediate value within `i64`.
pub const MAX_DIMS: usize = 8;

/// Denominator of the cubic weights: `2 * SCALE^3`.
pub const CUBIC_DEN: i128 = 2_000_000_000_000_000_000;

/// Number of cells of a grid of this shape.
pub open spec fn spec_prod(shape: Seq<usize>) -> int
    decreases shape.len(),
{
    if shape.len() == 0 {
        1
    } else {
        shape[0] * spec_prod(shape.subrange(1, shape.len() as int))
    }
}

/// Row-major flat offset of the integer index tuple `idx` in a grid of this
/// shape.
pub open spec fn spec_flat(idx: Seq<usize>, shape: Seq<usize>) -> int
    decreases idx.len(),
{
    if idx.len() == 0 {
        0
    } else {
        idx[0] * spec_prod(shape.subrange(1, shape.len() as int)) + spec_flat(
            idx.subrange(1, idx.len() as int),
            shape.subrange(1, shape.len() as int),
        )
    }
}

/// A well-formed grid: every axis is non-empty and of bounded length, the
/// flat array has exactly one cell per index tuple, and every value is a
/// bounded fixed-point number.
pub open spec fn wf_grid(data: Seq<i64>, shape: Seq<usize>) -> bool {
    &&& spec_prod(shape) == data.len()
    &&& forall|k: int| 0 <= k < shape.len() ==> 1 <= #[trigger] shape[k] <= MAX_AXIS
    &&& forall|i: int| 0 <= i < data.len() ==> -FX_VAL_MAX <= #[trigger] data[i] <= FX_VAL_MAX
}

pub proof fn lemma_prod_nonneg(shape: Seq<usize>)
    ensures
        spec_prod(shape) >= 0,
    decreases shape.len(),
{
    if shape.len() > 0 {
        lemma_prod_nonneg(shape.subrange(1, shape.len() as int));
        vstd::arithmetic::mul::lemma_mul_nonnegative(
            shape[0] as int,
            spec_prod(shape.subrange(1, shape.len() as int)),
        );
    }
}

pub proof fn lemma_prod_pos(shape: Seq<usize>)
    requires
        forall|k: int| 0 <= k < shape.len() ==> 1 <= #[trigger] shape[k],
    ensures
        spec_prod(shape) >= 1,
    decreases shape.len(),
{
    if shape.len() > 0 {
        let tail = shape.subrange(1, shape.len() as int);
        assert(forall|k: int| 0 <= k < tail.len() ==> 1 <= #[trigger] tail[k]);
        lemma_prod_pos(tail);
        vstd::arithmetic::mul::lemma_mul_inequality(1, shape[0] as int, spec_prod(tail));
    }
}

/// Every suffix product divides into the whole product, so it is bounded by
/// it when the axes are non-empty.
pub proof fn lemma_suffix_prod_le(shape: Seq<usize>, k: int)
    requires
        forall|j: int| 0 <= j < shape.len() ==> 1 <= #[trigger] shape[j],
        0 <= k <= shape.len(),
    ensures
        spec_prod(shape.subrange(k, shape.len() as int)) <= spec_prod(shape),
        spec_prod(shape.subrange(k, shape.len() as int)) >= 1,
    decreases k,
{
    let suff = shape.subrange(k, shape.len() as int);
    assert(forall|j: int| 0 <= j < suff.len() ==> 1 <= #[trigger] suff[j]);
    lemma_prod_pos(suff);
    if k == 0 {
        assert(shape.subrange(0, shape.len() as int) =~= shape);
    } else {
        lemma_suffix_prod_le(shape, k - 1);
        let prev = shape.subrange(k - 1, shape.len() as int);
        assert(prev.subrange(1, prev.len() as int) =~= suff);
        assert(spec_prod(prev) == prev[0] * spec_prod(suff));
        vstd::arithmetic::mul::lemma_mul_inequality(1, prev[0] as int, spec_prod(suff));
    }
}

/// The flat offset of an in-bounds index tuple lies within the grid.
pub proof fn lemma_flat_bounds(idx: Seq<usize>, shape: Seq<usize>)
    requires
        idx.len() == shape.len(),
        forall|k: int| 0 <= k < idx.len() ==> #[trigger] idx[k] < shape[k],
    ensures
        0 <= spec_flat(idx, shape) < spec_prod(shape),
    decreases idx.len(),
{
    if idx.len() == 0 {
    } else {
        let idxt = idx.subrange(1, idx.len() as int);
        let st = shape.subrange(1, shape.len() as int);
        assert(forall|k: int| 0 <= k < idxt.len() ==> #[trigger] idxt[k] < st[k]);
        lemma_flat_bounds(idxt, st);
        lemma_prod_nonneg(st);
        let p = spec_prod(st);
        let i0 = idx[0] as int;
        let s0 = shape[0] as int;
        assert(i0 * p + spec_flat(idxt, st) < s0 * p) by (nonlinear_arith)
            requires
                i0 < s0,
                0 <= spec_flat(idxt, st) < p,
        ;
        vstd::arithmetic::mul::lemma_mul_nonnegative(i0, p);
    }
}

/// Compute the row-major flat offset of an integer index tuple, rejecting a
/// tuple of the wrong arity or with an index past the end of its axis.
pub fn flat_index(indices: &Vec<usize>, shape: &Vec<usize>) -> (r: Result<usize>)
    requires
        forall|k: int| 0 <= k < shape@.len() ==> 1 <= #[trigger] shape@[k],
        spec_prod(shape@) <= usize::MAX,
    ensures
        match r {
            Ok(v) => indices@.len() == shape@.len() && (forall|k: int|
                0 <= k < indices@.len() ==> #[trigger] indices@[k] < shape@[k]) && v
                == spec_flat(indices@, shape@),
            Err(e) => (indices@.len() != shape@.len() || exists|k: int|
                0 <= k < indices@.len() && #[trigger] indices@[k] >= shape@[k]) && e
                is Interpolation,
        },
{
    proof {
        reveal_strlit("Dimension mismatch between indices and shape");
        reveal_strlit("Index out of bounds for its axis");
    }
    if indices.len() != shape.len() {
        return Err(
            RossbyError::Interpolation {
                message: "Dimension mismatch between indices and shape".to_owned(),
            },
        );
    }
    let n = shape.len();
    let mut index: usize = 0;
    let mut stride: usize = 1;
    let mut i: usize = n;
    while i > 0
        invariant
            indices@.len() == n,
            shape@.len() == n,
            0 <= i <= n,
            forall|k: int| 0 <= k < n ==> 1 <= #[trigger] shape@[k],
            spec_prod(shape@) <= usize::MAX,
            forall|k: int| i <= k < n ==> #[trigger] indices@[k] < shape@[k],
            stride == spec_prod(shape@.subrange(i as int, n as int)),
            index == spec_flat(
                indices@.subrange(i as int, n as int),
                shape@.subrange(i as int, n as int),
            ),
        decreases i,
    {
        let k = i - 1;
        if indices[k] >= shape[k] {
            return Err(
                RossbyError::Interpolation {
                    message: "Index out of bounds for its axis".to_owned(),
                },
            );
        }
        proof {
            let pre = shape@.subrange(k as int, n as int);
            let idxpre = indices@.subrange(k as int, n as int);
            assert(pre.subrange(1, pre.len() as int) =~= shape@.subrange(i as int, n as int));
            assert(idxpre.subrange(1, idxpre.len() as int) =~= indices@.subrange(
                i as int,
                n as int,
            ));
            assert(forall|j: int| k <= j < n ==> #[trigger] indices@[j] < shape@[j]);
            lemma_flat_bounds(idxpre, pre);
            lemma_suffix_prod_le(shape@, k as int);
            lemma_prod_nonneg(pre);
        }
        index = indices[k] * stride + index;
        stride = shape[k] * stride;
        i = k;
    }
    proof {
        assert(indices@.subrange(0, n as int) =~= indices@);
        assert(shape@.subrange(0, n as int) =~= shape@);
    }
    Ok(index)
}

/// The index tuple that `flat_index` maps to the given flat offset: each
/// entry is the offset divided by its axis stride, modulo the axis length.
pub open spec fn spec_unflat(flat: int, shape: Seq<usize>) -> Seq<usize>
    decreases shape.len(),
{
    if shape.len() == 0 {
        Seq::<usize>::empty()
    } else {
        spec_unflat(flat / shape.last() as int, shape.drop_last()).push(
            (flat % shape.last() as int) as usize,
        )
    }
}

/// Fill `indices` with the index tuple for a flat row-major offset.
pub fn compute_indices(indices: &mut Vec<usize>, flat_index: usize, shape: &Vec<usize>)
    requires
        old(indices)@.len() == shape@.len(),
        forall|k: int| 0 <= k < shape@.len() ==> 1 <= #[trigger] shape@[k],
    ensures
        final(indices)@ == spec_unflat(flat_index as int, shape@),
{
    let n = shape.len();
    let mut remaining: usize = flat_index;
    let mut i: usize = n;
    proof {
        assert(shape@.subrange(0, n as int) =~= shape@);
        assert(indices@.subrange(n as int, n as int) =~= Seq::<usize>::empty());
        assert(spec_unflat(flat_index as int, shape@) + Seq::<usize>::empty()
            =~= spec_unflat(flat_index as int, shape@));
    }
    while i > 0
        invariant
            indices@.len() == n,
            shape@.len() == n,
            0 <= i <= n,
            forall|k: int| 0 <= k < shape@.len() ==> 1 <= #[trigger] shape@[k],
            spec_unflat(flat_index as int, shape@) == spec_unflat(
                remaining as int,
                shape@.subrange(0, i as int),
            ) + indices@.subrange(i as int, n as int),
        decreases i,
    {
        let k = i - 1;
        let ghost rem0 = remaining as int;
        let ghost idx0 = indices@;
        indices.set(k, remaining % shape[k]);
        remaining = remaining / shape[k];
        i = k;
        proof {
            let skk = shape@[k as int] as int;
            let pre_i = shape@.subrange(0, k as int + 1);
            let pre_k = shape@.subrange(0, k as int);
            assert(pre_i.drop_last() =~= pre_k);
            assert(pre_i.last() as int == skk);
            assert(spec_unflat(rem0, pre_i) == spec_unflat(rem0 / skk, pre_k).push(
                (rem0 % skk) as usize,
            ));
            assert(remaining as int == rem0 / skk);
            assert(indices@.subrange(k as int, n as int) =~= seq![(rem0 % skk) as usize]
                + idx0.subrange(k as int + 1, n as int));
            assert(spec_unflat(rem0 / skk, pre_k).push((rem0 % skk) as usize) + idx0.subrange(
                k as int + 1,
                n as int,
            ) =~= spec_unflat(rem0 / skk, pre_k) + indices@.subrange(k as int, n as int));
        }
    }
    proof {
        assert(shape@.subrange(0, 0) =~= Seq::<usize>::empty());
        assert(indices@.subrange(0, n as int) =~= indices@);
        assert(spec_unflat(remaining as int, Seq::<usize>::empty()) + indices@
            =~= indices@);
        assert(indices@ =~= spec_unflat(flat_index as int, shape@));
    }
}

/// The fractional index clamped to the axis: at most `(size - 1) * SCALE`
/// and at least 0.
pub open spec fn spec_clamp(x: int, size: int) -> int {
    if x < 0 {
        0
    } else if x > (size - 1) * SCALE {
        (size - 1) * SCALE
    } else {
        x
    }
}

/// Clamp a fixed-point fractional index to the valid range of an axis.
pub fn clamp_index(index: i64, size: usize) -> (r: i64)
    requires
        1 <= size <= MAX_AXIS,
    ensures
        r == spec_clamp(index as int, size as int),
        0 <= r <= (size - 1) * SCALE,
{
    let hi: i64 = ((size - 1) as i64) * SCALE;
    if index < 0 {
        0
    } else if index > hi {
        hi
    } else {
        index
    }
}

/// The pair of linear interpolation weights for a fraction: they sum to one
/// whole unit.
pub fn linear_weight(fraction: i64) -> (r: (i64, i64))
    requires
        0 <= fraction <= SCALE,
    ensures
        r.0 == SCALE - fraction,
        r.1 == fraction,
        r.0 + r.1 == SCALE,
{
    (SCALE - fraction, fraction)
}

/// Numerator of the first Catmull-Rom weight, over denominator `CUBIC_DEN`:
/// `-t(1-t)^2 / 2` for `t = f / SCALE`.
pub open spec fn cubic_n0(f: int) -> int {
    -f * ((SCALE - f) * (SCALE - f))
}

/// Numerator of the second Catmull-Rom weight: `1 - 2.5 t^2 + 1.5 t^3`.
pub open spec fn cubic_n1(f: int) -> int {
    2 * (SCALE as int) * SCALE * SCALE - 5 * (f * f) * SCALE + 3 * ((f * f) * f)
}

/// Numerator of the third Catmull-Rom weight: `0.5 t + 2 t^2 - 1.5 t^3`.
pub open spec fn cubic_n2(f: int) -> int {
    f * ((SCALE as int) * SCALE) + 4 * ((f * f) * SCALE) - 3 * ((f * f) * f)
}

/// Numerator of the fourth Catmull-Rom weight: `-0.5 t^2 + 0.5 t^3`.
pub open spec fn cubic_n3(f: int) -> int {
    -(f * f) * (SCALE - f)
}

/// The four Catmull-Rom weight numerators; dividing by `CUBIC_DEN` yields
/// the usual real-valued weights, which sum to one.
pub fn cubic_weights(fraction: i64) -> (r: [i64; 4])
    requires
        0 <= fraction <= SCALE,
    ensures
        r[0] == cubic_n0(fraction as int),
        r[1] == cubic_n1(fraction as int),
        r[2] == cubic_n2(fraction as int),
        r[3] == cubic_n3(fraction as int),
{
    let f = fraction as i128;
    let s = SCALE as i128;
    proof {
        lemma_cubic_weight_bounds(fraction as int);
        let fi = fraction as int;
        let si = SCALE as int;
        assert(0 <= (si - fi) * (si - fi) <= 1000000000000) by (nonlinear_arith)
            requires
                0 <= fi <= si,
                si == 1000000,
        ;
        assert(0 <= fi * fi <= 1000000000000) by (nonlinear_arith)
            requires
                0 <= fi <= 1000000,
        ;
        assert(0 <= fi * ((si - fi) * (si - fi)) <= 1000000000000000000) by (nonlinear_arith)
            requires
                0 <= fi <= 1000000,
                0 <= (si - fi) * (si - fi) <= 1000000000000,
        ;
        assert(0 <= (fi * fi) * fi <= 1000000000000000000) by (nonlinear_arith)
            requires
                0 <= fi <= 1000000,
                0 <= fi * fi <= 1000000000000,
        ;
        assert(0 <= (fi * fi) * (si - fi) <= 1000000000000000000) by (nonlinear_arith)
            requires
                0 <= si - fi <= 1000000,
                0 <= fi * fi <= 1000000000000,
        ;
    }
    let sf = s - f;
    let sf2 = sf * sf;
    let f2 = f * f;
    let f3 = f2 * f;
    let n0 = -(f * sf2);
    let n1 = 2 * s * s * s - 5 * f2 * s + 3 * f3;
    let n2 = f * (s * s) + 4 * (f2 * s) - 3 * f3;
    let n3 = -(f2 * sf);
    proof {
        let fi = fraction as int;
        let si = SCALE as int;
        assert(n0 as int == cubic_n0(fi)) by (nonlinear_arith)
            requires
                n0 as int == -(fi * ((si - fi) * (si - fi))),
                cubic_n0(fi) == -fi * ((si - fi) * (si - fi)),
        ;
        assert(n2 as int == cubic_n2(fi)) by (nonlinear_arith)
            requires
                n2 as int == fi * (si * si) + 4 * ((fi * fi) * si) - 3 * ((fi * fi) * fi),
                cubic_n2(fi) == fi * (si * si) + 4 * ((fi * fi) * si) - 3 * ((fi * fi) * fi),
        ;
        assert(n3 as int == cubic_n3(fi)) by (nonlinear_arith)
            requires
                n3 as int == -((fi * fi) * (si - fi)),
                cubic_n3(fi) == -(fi * fi) * (si - fi),
        ;
    }
    [n0 as i64, n1 as i64, n2 as i64, n3 as i64]
}

/// Bounds on the Catmull-Rom weight numerators for a fraction within one
/// unit: the outer weights are small, the inner two are bounded by the
/// denominator, and all four sum to the denominator.
pub proof fn lemma_cubic_weight_bounds(f: int)
    requires
        0 <= f <= SCALE,
    ensures
        -(CUBIC_DEN as int) / 8 <= cubic_n0(f) <= 0,
        0 <= cubic_n1(f) <= CUBIC_DEN,
        0 <= cubic_n2(f) <= CUBIC_DEN,
        -(CUBIC_DEN as int) / 8 <= cubic_n3(f) <= 0,
        cubic_n0(f) + cubic_n1(f) + cubic_n2(f) + cubic_n3(f) == CUBIC_DEN,
        cubic_n1(f) + cubic_n2(f) <= CUBIC_DEN + (CUBIC_DEN as int) / 8,
{
    let s = SCALE as int;
    let n0 = cubic_n0(f);
    let n1 = cubic_n1(f);
    let n2 = cubic_n2(f);
    let n3 = cubic_n3(f);
    assert(n0 == -f * ((s - f) * (s - f)));
    assert(n1 == 2 * s * s * s - 5 * (f * f) * s + 3 * ((f * f) * f));
    assert(n2 == f * (s * s) + 4 * ((f * f) * s) - 3 * ((f * f) * f));
    assert(n3 == -(f * f) * (s - f));
    assert(0 <= f * (s - f) <= 250000000000) by (nonlinear_arith)
        requires
            0 <= f <= s,
            s == 1000000,
    ;
    assert(-250000000000000000 <= n0 <= 0) by (nonlinear_arith)
        requires
            n0 == -f * ((s - f) * (s - f)),
            0 <= f * (s - f) <= 250000000000,
            0 <= s - f <= 1000000,
            s == 1000000,
            0 <= f <= s,
    ;
    assert(-250000000000000000 <= n3 <= 0) by (nonlinear_arith)
        requires
            n3 == -(f * f) * (s - f),
            0 <= f * (s - f) <= 250000000000,
            s == 1000000,
            0 <= f <= s,
    ;
    assert(n1 == (s - f) * (2 * s * s + 2 * s * f - 3 * (f * f))) by (nonlinear_arith)
        requires
            n1 == 2 * s * s * s - 5 * (f * f) * s + 3 * ((f * f) * f),
    ;
    assert(0 <= n1 <= 2 * s * s * s) by (nonlinear_arith)
        requires
            0 <= f <= s,
            s == 1000000,
            n1 == 2 * s * s * s - 5 * (f * f) * s + 3 * ((f * f) * f),
            n1 == (s - f) * (2 * s * s + 2 * s * f - 3 * (f * f)),
    ;
    assert(2 * s * s * s - n2 == (s - f) * (2 * s * s + s * f - 3 * (f * f)))
        by (nonlinear_arith)
        requires
            n2 == f * (s * s) + 4 * ((f * f) * s) - 3 * ((f * f) * f),
    ;
    assert(0 <= n2 <= 2 * s * s * s) by (nonlinear_arith)
        requires
            0 <= f <= s,
            s == 1000000,
            n2 == f * (s * s) + 4 * ((f * f) * s) - 3 * ((f * f) * f),
            2 * s * s * s - n2 == (s - f) * (2 * s * s + s * f - 3 * (f * f)),
    ;
    assert(n0 + n1 + n2 + n3 == 2 * s * s * s) by (nonlinear_arith)
        requires
            n0 == -f * ((s - f) * (s - f)),
            n1 == 2 * s * s * s - 5 * (f * f) * s + 3 * ((f * f) * f),
            n2 == f * (s * s) + 4 * ((f * f) * s) - 3 * ((f * f) * f),
            n3 == -(f * f) * (s - f),
    ;
    assert(n1 + n2 <= 2 * s * s * s + 250000000000 * s) by (nonlinear_arith)
        requires
            n1 == 2 * s * s * s - 5 * (f * f) * s + 3 * ((f * f) * f),
            n2 == f * (s * s) + 4 * ((f * f) * s) - 3 * ((f * f) * f),
            0 <= f * (s - f) <= 250000000000,
            s == 1000000,
    ;
    assert(2 * s * s * s == CUBIC_DEN);
}

/// A copy of `idx` with position `at` replaced by `val`.
fn vec_update(idx: &Vec<i64>, at: usize, val: i64) -> (r: Vec<i64>)
    requires
        at < idx@.len(),
    ensures
        r@ == idx@.update(at as int, val),
{
    let mut out: Vec<i64> = Vec::new();
    let n = idx.len();
    let mut j: usize = 0;
    while j < n
        invariant
            n == idx@.len(),
            at < n,
            0 <= j <= n,
            out@.len() == j,
            forall|t: int|
                0 <= t < j ==> out@[t] == (if t == at {
                    val
                } else {
                    idx@[t]
                }),
        decreases n - j,
    {
        if j == at {
            out.push(val);
        } else {
            out.push(idx[j]);
        }
        j += 1;
    }
    proof {
        assert(out@ =~= idx@.update(at as int, val));
    }
    out
}

/// The whole-grid position of each fractional index, for indices that sit
/// exactly on grid points.
pub open spec fn spec_floor_all(idx: Seq<i64>) -> Seq<usize> {
    Seq::new(idx.len(), |k: int| (idx[k] as int / (SCALE as int)) as usize)
}

/// The index of the grid point nearest to a fractional index, after
/// clamping; ties round up.
pub open spec fn spec_round_idx(x: int, size: int) -> int {
    (spec_clamp(x, size) + SCALE / 2) / (SCALE as int)
}

/// What nearest-neighbour interpolation returns: the stored value at the
/// nearest grid point along every axis.
pub open spec fn spec_nearest(data: Seq<i64>, shape: Seq<usize>, idx: Seq<i64>) -> i64 {
    let rounded = Seq::new(idx.len(), |k: int| spec_round_idx(idx[k] as int, shape[k] as int) as usize);
    data[spec_flat(rounded, shape)]
}

/// What linear interpolation returns, one axis at a time from axis `dim`
/// on: each axis blends the two bracketing grid points by the fractional
/// part, in fixed-point arithmetic with flooring division.
pub open spec fn spec_bilinear(data: Seq<i64>, shape: Seq<usize>, idx: Seq<i64>, dim: int) -> int
    decreases idx.len() - dim,
{
    if !(0 <= dim < idx.len()) {
        data[spec_flat(spec_floor_all(idx), shape)] as int
    } else {
        let size = shape[dim] as int;
        let cl = spec_clamp(idx[dim] as int, size);
        let i0 = cl / (SCALE as int);
        let i1 = if i0 + 1 < size {
            i0 + 1
        } else {
            size - 1
        };
        let f = cl - i0 * SCALE;
        if i0 == i1 {
            spec_bilinear(data, shape, idx.update(dim, (i0 * SCALE) as i64), dim + 1)
        } else {
            ((SCALE - f) * spec_bilinear(data, shape, idx.update(dim, (i0 * SCALE) as i64), dim + 1)
                + f * spec_bilinear(data, shape, idx.update(dim, (i1 * SCALE) as i64), dim + 1))
                / (SCALE as int)
        }
    }
}

/// What cubic (Catmull-Rom) interpolation returns, one axis at a time from
/// axis `dim` on: each axis blends four control points by the cubic weight
/// numerators, in fixed-point arithmetic with flooring division.
pub open spec fn spec_cubic(data: Seq<i64>, shape: Seq<usize>, idx: Seq<i64>, dim: int) -> int
    decreases idx.len() - dim,
{
    if !(0 <= dim < idx.len()) {
        data[spec_flat(spec_floor_all(idx), shape)] as int
    } else {
        let size = shape[dim] as int;
        let cl = spec_clamp(idx[dim] as int, size);
        let i0 = cl / (SCALE as int);
        let f = cl - i0 * SCALE;
        let p0 = if i0 > 0 {
            i0 - 1
        } else {
            0
        };
        let p2 = if i0 + 1 < size {
            i0 + 1
        } else {
            size - 1
        };
        let p3 = if i0 + 2 < size {
            i0 + 2
        } else {
            size - 1
        };
        let v0 = spec_cubic(data, shape, idx.update(dim, (p0 * SCALE) as i64), dim + 1);
        let v1 = spec_cubic(data, shape, idx.update(dim, (i0 * SCALE) as i64), dim + 1);
        let v2 = spec_cubic(data, shape, idx.update(dim, (p2 * SCALE) as i64), dim + 1);
        let v3 = spec_cubic(data, shape, idx.update(dim, (p3 * SCALE) as i64), dim + 1);
        (cubic_n0(f) * v0 + cubic_n1(f) * v1 + cubic_n2(f) * v2 + cubic_n3(f) * v3) / (
        CUBIC_DEN as int)
    }
}

/// Whether every fractional index before `dim` sits exactly on a grid point
/// of its axis.
pub open spec fn grid_prefix(idx: Seq<i64>, shape: Seq<usize>, dim: int) -> bool {
    forall|k: int|
        0 <= k < dim ==> (#[trigger] idx[k]) as int % (SCALE as int) == 0 && 0 <= idx[k]
            && idx[k] as int <= (shape[k] - 1) * SCALE
}

/// Nearest-neighbour interpolation.
pub struct NearestInterpolator;

/// Linear interpolation generalized over every axis.
pub struct BilinearInterpolator;

/// Catmull-Rom cubic interpolation generalized over every axis.
pub struct BicubicInterpolator;

impl NearestInterpolator {
    /// Interpolate at the given fractional indices by taking the value of
    /// the nearest grid point; fails exactly when the number of indices
    /// does not match the number of axes.
    pub fn interpolate(&self, data: &Vec<i64>, shape: &Vec<usize>, indices: &Vec<i64>) -> (r:
        Result<i64>)
        requires
            wf_grid(data@, shape@),
        ensures
            match r {
                Ok(v) => indices@.len() == shape@.len() && v == spec_nearest(
                    data@,
                    shape@,
                    indices@,
                ),
                Err(e) => indices@.len() != shape@.len() && e is Interpolation,
            },
    {
        proof {
            reveal_strlit("Dimension mismatch between indices and shape");
        }
        if indices.len() != shape.len() {
            return Err(
                RossbyError::Interpolation {
                    message: "Dimension mismatch between indices and shape".to_owned(),
                },
            );
        }
        let n = shape.len();
        let ghost rounded_spec = Seq::new(
            indices@.len(),
            |k: int| spec_round_idx(indices@[k] as int, shape@[k] as int) as usize,
        );
        let mut rounded: Vec<usize> = Vec::new();
        let mut k: usize = 0;
        while k < n
            invariant
                n == shape@.len(),
                n == indices@.len(),
                wf_grid(data@, shape@),
                0 <= k <= n,
                rounded@.len() == k,
                rounded_spec == Seq::new(
                    indices@.len(),
                    |k: int| spec_round_idx(indices@[k] as int, shape@[k] as int) as usize,
                ),
                forall|j: int| 0 <= j < k ==> rounded@[j] == rounded_spec[j],
                forall|j: int| 0 <= j < k ==> #[trigger] rounded@[j] < shape@[j],
            decreases n - k,
        {
            let cl = clamp_index(indices[k], shape[k]);
            let rk: u64 = ((cl as u64) + 500000) / 1000000;
            proof {
                assert(cl as int + 500000 < (shape@[k as int] as int) * 1000000) by {
                    assert(cl <= (shape@[k as int] - 1) * SCALE);
                }
                vstd::arithmetic::div_mod::lemma_multiply_divide_lt(
                    cl as int + 500000,
                    shape@[k as int] as int,
                    1000000,
                );
                vstd::arithmetic::div_mod::lemma_div_pos_is_pos(cl as int + 500000, 1000000);
            }
            rounded.push(rk as usize);
            k += 1;
        }
        proof {
            assert(rounded@ =~= rounded_spec);
            lemma_prod_pos(shape@);
        }
        let dlen = data.len();
        proof {
            assert(spec_prod(shape@) == dlen as int);
        }
        match flat_index(&rounded, shape) {
            Ok(fi) => {
                proof {
                    lemma_flat_bounds(rounded@, shape@);
                }
                Ok(data[fi])
            },
            Err(e) => {
                proof {
                    assert(false);
                }
                Err(e)
            },
        }
    }
}

/// Recursive axis-by-axis linear interpolation; the axes before `dim` have
/// already been fixed to grid points.
fn bilinear_nd(data: &Vec<i64>, shape: &Vec<usize>, indices: &Vec<i64>, dim: usize) -> (r: i64)
    requires
        wf_grid(data@, shape@),
        indices@.len() == shape@.len(),
        dim <= indices@.len(),
        grid_prefix(indices@, shape@, dim as int),
    ensures
        r as int == spec_bilinear(data@, shape@, indices@, dim as int),
        -FX_VAL_MAX <= r <= FX_VAL_MAX,
    decreases indices@.len() - dim,
{
    let n = shape.len();
    if dim >= n {
        let mut floors: Vec<usize> = Vec::new();
        let mut k: usize = 0;
        while k < n
            invariant
                n == shape@.len(),
                n == indices@.len(),
                wf_grid(data@, shape@),
                grid_prefix(indices@, shape@, n as int),
                0 <= k <= n,
                floors@.len() == k,
                forall|j: int| 0 <= j < k ==> floors@[j] == spec_floor_all(indices@)[j],
                forall|j: int| 0 <= j < k ==> #[trigger] floors@[j] < shape@[j],
            decreases n - k,
        {
            let fk: u64 = (indices[k] as u64) / 1000000;
            proof {
                assert(indices@[k as int] as int <= (shape@[k as int] - 1) * SCALE);
                vstd::arithmetic::div_mod::lemma_multiply_divide_lt(
                    indices@[k as int] as int,
                    shape@[k as int] as int,
                    1000000,
                );
                vstd::arithmetic::div_mod::lemma_div_pos_is_pos(
                    indices@[k as int] as int,
                    1000000,
                );
            }
            floors.push(fk as usize);
            k += 1;
        }
        proof {
            assert(floors@ =~= spec_floor_all(indices@));
            lemma_flat_bounds(floors@, shape@);
        }
        let dlen = data.len();
        proof {
            assert(spec_prod(shape@) == dlen as int);
        }
        match flat_index(&floors, shape) {
            Ok(fi) => data[fi],
            Err(_) => {
                proof {
                    assert(false);
                }
                0
            },
        }
    } else {
        let size = shape[dim];
        let cl = clamp_index(indices[dim], size);
        let i0: u64 = (cl as u64) / 1000000;
        proof {
            vstd::arithmetic::div_mod::lemma_multiply_divide_lt(
                cl as int,
                size as int,
                1000000,
            );
            vstd::arithmetic::div_mod::lemma_div_pos_is_pos(cl as int, 1000000);
            vstd::arithmetic::div_mod::lemma_fundamental_div_mod(cl as int, 1000000);
        }
        let i1: u64 = if i0 + 1 < size as u64 {
            i0 + 1
        } else {
            (size as u64) - 1
        };
        let f: i64 = cl - (i0 as i64) * SCALE;
        proof {
            assert(0 <= f < SCALE);
        }
        let idx0 = vec_update(indices, dim, (i0 as i64) * SCALE);
        proof {
            assert(grid_prefix(idx0@, shape@, dim as int + 1)) by {
                vstd::arithmetic::div_mod::lemma_mod_multiples_basic(i0 as int, SCALE as int);
                assert(forall|k: int|
                    0 <= k < dim ==> idx0@[k] == #[trigger] indices@[k]);
                assert(i0 as int * SCALE <= (size - 1) * SCALE) by (nonlinear_arith)
                    requires
                        i0 < size,
                        SCALE > 0,
                ;
            }
        }
        let v0 = bilinear_nd(data, shape, &idx0, dim + 1);
        if i0 == i1 {
            v0
        } else {
            let idx1 = vec_update(indices, dim, (i1 as i64) * SCALE);
            proof {
                assert(grid_prefix(idx1@, shape@, dim as int + 1)) by {
                    vstd::arithmetic::div_mod::lemma_mod_multiples_basic(
                        i1 as int,
                        SCALE as int,
                    );
                    assert(forall|k: int|
                        0 <= k < dim ==> idx1@[k] == #[trigger] indices@[k]);
                    assert(i1 as int * SCALE <= (size - 1) * SCALE) by (nonlinear_arith)
                        requires
                            i1 < size,
                            SCALE > 0,
                    ;
                }
            }
            let v1 = bilinear_nd(data, shape, &idx1, dim + 1);
            proof {
                assert(-4000000000000000000000 <= ((SCALE - f) as int) * (v0 as int)
                    <= 4000000000000000000000) by (nonlinear_arith)
                    requires
                        0 <= f < SCALE,
                        SCALE == 1000000,
                        -FX_VAL_MAX <= v0 as int <= FX_VAL_MAX,
                        FX_VAL_MAX == 4000000000000000,
                ;
                assert(-4000000000000000000000 <= (f as int) * (v1 as int)
                    <= 4000000000000000000000) by (nonlinear_arith)
                    requires
                        0 <= f < SCALE,
                        SCALE == 1000000,
                        -FX_VAL_MAX <= v1 as int <= FX_VAL_MAX,
                        FX_VAL_MAX == 4000000000000000,
                ;
            }
            let num: i128 = ((SCALE - f) as i128) * (v0 as i128) + (f as i128) * (v1 as i128);
            proof {
                assert(num <= (SCALE as int) * FX_VAL_MAX && num >= -((SCALE as int)
                    * FX_VAL_MAX)) by (nonlinear_arith)
                    requires
                        num == ((SCALE - f) as int) * (v0 as int) + (f as int) * (v1 as int),
                        0 <= f < SCALE,
                        -FX_VAL_MAX <= v0 as int <= FX_VAL_MAX,
                        -FX_VAL_MAX <= v1 as int <= FX_VAL_MAX,
                ;
            }
            let q = ediv_i128(num, SCALE as i128);
            proof {
                vstd::arithmetic::div_mod::lemma_div_is_ordered(
                    num as int,
                    (SCALE as int) * FX_VAL_MAX,
                    SCALE as int,
                );
                vstd::arithmetic::div_mod::lemma_div_is_ordered(
                    -((SCALE as int) * FX_VAL_MAX),
                    num as int,
                    SCALE as int,
                );
                vstd::arithmetic::div_mod::lemma_fundamental_div_mod_converse(
                    (SCALE as int) * FX_VAL_MAX,
                    SCALE as int,
                    FX_VAL_MAX as int,
                    0,
                );
                vstd::arithmetic::div_mod::lemma_fundamental_div_mod_converse(
                    -((SCALE as int) * FX_VAL_MAX),
                    SCALE as int,
                    -(FX_VAL_MAX as int),
                    0,
                );
                assert((SCALE as int) * FX_VAL_MAX == (FX_VAL_MAX as int) * SCALE)
                    by (nonlinear_arith);
                assert(-((SCALE as int) * FX_VAL_MAX) == (-(FX_VAL_MAX as int)) * SCALE)
                    by (nonlinear_arith);
            }
            q as i64
        }
    }
}

/// Powers of two, for bounding cubic overshoot across axes.
pub open spec fn pow2_of(k: int) -> int
    decreases k,
{
    if k <= 0 {
        1
    } else {
        2 * pow2_of(k - 1)
    }
}

/// Replacing the axis-`dim` index by a grid position extends the grid
/// prefix by one axis.
proof fn lemma_grid_prefix_update(idx: Seq<i64>, shape: Seq<usize>, dim: int, m: int)
    requires
        grid_prefix(idx, shape, dim),
        0 <= dim < idx.len(),
        idx.len() == shape.len(),
        0 <= m < shape[dim],
        shape[dim] <= MAX_AXIS,
    ensures
        grid_prefix(idx.update(dim, (m * SCALE) as i64), shape, dim + 1),
{
    let upd = idx.update(dim, (m * SCALE) as i64);
    vstd::arithmetic::div_mod::lemma_mod_multiples_basic(m, SCALE as int);
    assert(m * SCALE <= (shape[dim] - 1) * SCALE) by (nonlinear_arith)
        requires
            m < shape[dim],
            SCALE > 0,
    ;
    assert(m * SCALE >= 0) by (nonlinear_arith)
        requires
            m >= 0,
            SCALE > 0,
    ;
    assert(forall|k: int| 0 <= k < dim ==> upd[k] == #[trigger] idx[k]);
}

/// Recursive axis-by-axis cubic interpolation; the axes before `dim` have
/// already been fixed to grid points.  Each level can overshoot the data
/// range by at most a factor of two.
#[verifier::rlimit(100)]
fn cubic_nd(data: &Vec<i64>, shape: &Vec<usize>, indices: &Vec<i64>, dim: usize) -> (r: i64)
    requires
        wf_grid(data@, shape@),
        indices@.len() == shape@.len(),
        indices@.len() <= MAX_DIMS,
        dim <= indices@.len(),
        grid_prefix(indices@, shape@, dim as int),
    ensures
        r as int == spec_cubic(data@, shape@, indices@, dim as int),
        -FX_VAL_MAX * pow2_of(indices@.len() - dim) <= r as int <= FX_VAL_MAX * pow2_of(
            indices@.len() - dim,
        ),
    decreases indices@.len() - dim,
{
    let n = shape.len();
    if dim >= n {
        let mut floors: Vec<usize> = Vec::new();
        let mut k: usize = 0;
        while k < n
            invariant
                n == shape@.len(),
                n == indices@.len(),
                wf_grid(data@, shape@),
                grid_prefix(indices@, shape@, n as int),
                0 <= k <= n,
                floors@.len() == k,
                forall|j: int| 0 <= j < k ==> floors@[j] == spec_floor_all(indices@)[j],
                forall|j: int| 0 <= j < k ==> #[trigger] floors@[j] < shape@[j],
            decreases n - k,
        {
            let fk: u64 = (indices[k] as u64) / 1000000;
            proof {
                assert(indices@[k as int] as int <= (shape@[k as int] - 1) * SCALE);
                vstd::arithmetic::div_mod::lemma_multiply_divide_lt(
                    indices@[k as int] as int,
                    shape@[k as int] as int,
                    1000000,
                );
                vstd::arithmetic::div_mod::lemma_div_pos_is_pos(
                    indices@[k as int] as int,
                    1000000,
                );
            }
            floors.push(fk as usize);
            k += 1;
        }
        proof {
            assert(floors@ =~= spec_floor_all(indices@));
            lemma_flat_bounds(floors@, shape@);
        }
        let dlen = data.len();
        proof {
            assert(spec_prod(shape@) == dlen as int);
        }
        match flat_index(&floors, shape) {
            Ok(fi) => data[fi],
            Err(_) => {
                proof {
                    assert(false);
                }
                0
            },
        }
    } else {
        let size = shape[dim];
        let cl = clamp_index(indices[dim], size);
        let i0: u64 = (cl as u64) / 1000000;
        proof {
            vstd::arithmetic::div_mod::lemma_multiply_divide_lt(
                cl as int,
                size as int,
                1000000,
            );
            vstd::arithmetic::div_mod::lemma_div_pos_is_pos(cl as int, 1000000);
            vstd::arithmetic::div_mod::lemma_fundamental_div_mod(cl as int, 1000000);
        }
        let f: i64 = cl - (i0 as i64) * SCALE;
        let p0: u64 = if i0 > 0 {
            i0 - 1
        } else {
            0
        };
        let p2: u64 = if i0 + 1 < size as u64 {
            i0 + 1
        } else {
            (size as u64) - 1
        };
        let p3: u64 = if i0 + 2 < size as u64 {
            i0 + 2
        } else {
            (size as u64) - 1
        };
        proof {
            lemma_grid_prefix_update(indices@, shape@, dim as int, p0 as int);
            lemma_grid_prefix_update(indices@, shape@, dim as int, i0 as int);
            lemma_grid_prefix_update(indices@, shape@, dim as int, p2 as int);
            lemma_grid_prefix_update(indices@, shape@, dim as int, p3 as int);
        }
        let idx0 = vec_update(indices, dim, (p0 as i64) * SCALE);
        let v0 = cubic_nd(data, shape, &idx0, dim + 1);
        let idx1 = vec_update(indices, dim, (i0 as i64) * SCALE);
        let v1 = cubic_nd(data, shape, &idx1, dim + 1);
        let idx2 = vec_update(indices, dim, (p2 as i64) * SCALE);
        let v2 = cubic_nd(data, shape, &idx2, dim + 1);
        let idx3 = vec_update(indices, dim, (p3 as i64) * SCALE);
        let v3 = cubic_nd(data, shape, &idx3, dim + 1);
        let w = cubic_weights(f);
        let ghost mp: int = FX_VAL_MAX * pow2_of(indices@.len() - dim - 1);
        proof {
            lemma_cubic_weight_bounds(f as int);
            lemma_pow2_le_256(indices@.len() - dim - 1);
            assert(0 <= mp <= 1024000000000000000) by (nonlinear_arith)
                requires
                    mp == FX_VAL_MAX * pow2_of(indices@.len() - dim - 1),
                    1 <= pow2_of(indices@.len() - dim - 1) <= 256,
                    FX_VAL_MAX == 4000000000000000,
            ;
            lemma_cubic_product_bounds(w@[0] as int, v0 as int, mp);
            lemma_cubic_product_bounds(w@[1] as int, v1 as int, mp);
            lemma_cubic_product_bounds(w@[2] as int, v2 as int, mp);
            lemma_cubic_product_bounds(w@[3] as int, v3 as int, mp);
        }
        let a0: i128 = (w[0] as i128) * (v0 as i128);
        let a1: i128 = (w[1] as i128) * (v1 as i128);
        let a2: i128 = (w[2] as i128) * (v2 as i128);
        let a3: i128 = (w[3] as i128) * (v3 as i128);
        proof {
            assert(a1 as int + a2 as int <= (cubic_n1(f as int) + cubic_n2(f as int)) * mp
                && a1 as int + a2 as int >= -((cubic_n1(f as int) + cubic_n2(f as int)) * mp))
                by (nonlinear_arith)
                requires
                    a1 as int <= cubic_n1(f as int) * mp,
                    a1 as int >= -(cubic_n1(f as int) * mp),
                    a2 as int <= cubic_n2(f as int) * mp,
                    a2 as int >= -(cubic_n2(f as int) * mp),
            ;
            assert((cubic_n1(f as int) + cubic_n2(f as int)) * mp <= 2250000000000000000 * mp)
                by (nonlinear_arith)
                requires
                    cubic_n1(f as int) + cubic_n2(f as int) <= 2250000000000000000,
                    mp >= 0,
            ;
        }
        let num: i128 = a0 + a1 + a2 + a3;
        proof {
            assert(-(4000000000000000000 as int) * mp <= num as int
                <= (4000000000000000000 as int) * mp) by (nonlinear_arith)
                requires
                    num as int == a0 as int + a1 as int + a2 as int + a3 as int,
                    a1 as int + a2 as int <= 2250000000000000000 * mp,
                    a1 as int + a2 as int >= -(2250000000000000000 * mp),
                    a0 as int <= 250000000000000000 * mp,
                    a0 as int >= -(250000000000000000 * mp),
                    a3 as int <= 250000000000000000 * mp,
                    a3 as int >= -(250000000000000000 * mp),
                    mp >= 0,
            ;
        }
        let q = ediv_i128(num, CUBIC_DEN);
        proof {
            vstd::arithmetic::div_mod::lemma_div_is_ordered(
                num as int,
                4000000000000000000 * mp,
                CUBIC_DEN as int,
            );
            vstd::arithmetic::div_mod::lemma_div_is_ordered(
                -(4000000000000000000 as int) * mp,
                num as int,
                CUBIC_DEN as int,
            );
            vstd::arithmetic::div_mod::lemma_fundamental_div_mod_converse(
                4000000000000000000 * mp,
                CUBIC_DEN as int,
                2 * mp,
                0,
            );
            vstd::arithmetic::div_mod::lemma_fundamental_div_mod_converse(
                -(4000000000000000000 as int) * mp,
                CUBIC_DEN as int,
                -(2 * mp),
                0,
            );
            assert(4000000000000000000 * mp == (2 * mp) * (CUBIC_DEN as int)
                && -(4000000000000000000 as int) * mp == (-(2 * mp)) * (CUBIC_DEN as int))
                by (nonlinear_arith)
                requires
                    CUBIC_DEN == 2000000000000000000,
            ;
            assert(2 * mp == FX_VAL_MAX * pow2_of(indices@.len() - dim)) by (nonlinear_arith)
                requires
                    mp == FX_VAL_MAX * pow2_of(indices@.len() - dim - 1),
                    pow2_of(indices@.len() - dim) == 2 * pow2_of(indices@.len() - dim - 1),
            ;
        }
        q as i64
    }
}

/// Bound on the product of a cubic weight numerator and a recursive value.
proof fn lemma_cubic_product_bounds(w: int, v: int, mp: int)
    requires
        -250000000000000000 <= w <= 2000000000000000000,
        -mp <= v <= mp,
        0 <= mp <= 1024000000000000000,
    ensures
        w >= 0 ==> -(w * mp) <= w * v <= w * mp,
        w <= 0 ==> -(250000000000000000 * mp) <= w * v <= 250000000000000000 * mp,
        -2048000000000000000000000000000000000 <= w * v
            <= 2048000000000000000000000000000000000,
{
    assert(-2048000000000000000000000000000000000 <= w * v
        <= 2048000000000000000000000000000000000) by (nonlinear_arith)
        requires
            -250000000000000000 <= w <= 2000000000000000000,
            -mp <= v <= mp,
            0 <= mp <= 1024000000000000000,
    ;
    assert(w >= 0 ==> -(w * mp) <= w * v <= w * mp) by (nonlinear_arith)
        requires
            -mp <= v <= mp,
            0 <= mp,
    ;
    assert(w <= 0 ==> -((-w) * mp) <= w * v <= (-w) * mp) by (nonlinear_arith)
        requires
            -mp <= v <= mp,
            0 <= mp,
    ;
    assert(w <= 0 ==> (-w) * mp <= 250000000000000000 * mp) by (nonlinear_arith)
        requires
            -250000000000000000 <= w,
            0 <= mp,
    ;
}

proof fn lemma_pow2_pos(k: int)
    ensures
        pow2_of(k) >= 1,
    decreases (if k > 0 { k } else { 0 }),
{
    if k > 0 {
        lemma_pow2_pos(k - 1);
    }
}

proof fn lemma_pow2_monotone(k: int, b: int)
    requires
        k <= b,
        0 <= b,
    ensures
        1 <= pow2_of(k) <= pow2_of(b),
    decreases b,
{
    lemma_pow2_pos(k);
    if b > 0 && k < b {
        lemma_pow2_monotone(k, b - 1);
        lemma_pow2_pos(b - 1);
    }
}

proof fn lemma_pow2_le_256(k: int)
    requires
        k <= 8,
    ensures
        1 <= pow2_of(k) <= 256,
{
    lemma_pow2_monotone(k, 8);
    reveal_with_fuel(pow2_of, 10);
    assert(pow2_of(8) == 256);
}

/// The rejection message for a grid axis too small for the cubic kernel,
/// naming the first such axis and its size.
pub open spec fn spec_cubic_small_axis(k: int, size: int) -> Seq<char> {
    "Cubic interpolation requires at least 4 points per axis; axis "@ + crate::text::spec_dec(
        k,
    ) + " has only "@ + crate::text::spec_dec(size) + "; consider bilinear instead"@
}

impl BicubicInterpolator {
    /// Interpolate at the given fractional indices with a Catmull-Rom
    /// cubic along every axis; fails exactly when the number of indices
    /// does not match the number of axes or some axis has fewer than four
    /// grid points.
    pub fn interpolate(&self, data: &Vec<i64>, shape: &Vec<usize>, indices: &Vec<i64>) -> (r:
        Result<i64>)
        requires
            wf_grid(data@, shape@),
            shape@.len() <= MAX_DIMS,
        ensures
            match r {
                Ok(v) => indices@.len() == shape@.len() && (forall|k: int|
                    0 <= k < shape@.len() ==> #[trigger] shape@[k] >= 4) && v as int
                    == spec_cubic(data@, shape@, indices@, 0),
                Err(e) => e matches RossbyError::Interpolation { message } && ((
                indices@.len() != shape@.len() && message@
                    == "Dimension mismatch between indices and shape"@) || (indices@.len()
                    == shape@.len() && exists|k: int|
                    0 <= k < shape@.len() && #[trigger] shape@[k] < 4 && (forall|j: int|
                        0 <= j < k ==> shape@[j] >= 4) && message@ == spec_cubic_small_axis(
                        k,
                        shape@[k] as int,
                    ))),
            },
    {
        proof {
            reveal_strlit("Dimension mismatch between indices and shape");
            reveal_strlit(
                "Cubic interpolation requires at least 4 points per axis; axis ",
            );
            reveal_strlit(" has only ");
            reveal_strlit("; consider bilinear instead");
        }
        if indices.len() != shape.len() {
            return Err(
                RossbyError::Interpolation {
                    message: "Dimension mismatch between indices and shape".to_owned(),
                },
            );
        }
        let n = shape.len();
        let mut k: usize = 0;
        while k < n
            invariant
                n == shape@.len(),
                indices@.len() == shape@.len(),
                0 <= k <= n,
                forall|j: int| 0 <= j < k ==> #[trigger] shape@[j] >= 4,
            decreases n - k,
        {
            if shape[k] < 4 {
                let mut msg = String::new();
                msg.append("Cubic interpolation requires at least 4 points per axis; axis ");
                let t = crate::text::fmt_usize(k);
                msg.append(t.as_str());
                msg.append(" has only ");
                let t = crate::text::fmt_usize(shape[k]);
                msg.append(t.as_str());
                msg.append("; consider bilinear instead");
                proof {
                    assert(msg@ =~= spec_cubic_small_axis(k as int, shape@[k as int] as int));
                    assert((k as int) < shape@.len() && shape@[k as int] < 4 && (forall|
                        j: int,
                    |
                        0 <= j < k as int ==> shape@[j] >= 4) && msg@
                        == spec_cubic_small_axis(k as int, shape@[k as int] as int));
                    assert(exists|k2: int|
                        0 <= k2 < shape@.len() && #[trigger] shape@[k2] < 4 && (forall|
                            j: int,
                        |
                            0 <= j < k2 ==> shape@[j] >= 4) && msg@ == spec_cubic_small_axis(
                            k2,
                            shape@[k2] as int,
                        ));
                }
                return Err(
                    RossbyError::Interpolation {
                        message: msg,
                    },
                );
            }
            k += 1;
        }
        Ok(cubic_nd(data, shape, indices, 0))
    }
}

impl BilinearInterpolator {
    /// Interpolate at the given fractional indices by blending the two
    /// bracketing grid points linearly along every axis; fails exactly when
    /// the number of indices does not match the number of axes.
    pub fn interpolate(&self, data: &Vec<i64>, shape: &Vec<usize>, indices: &Vec<i64>) -> (r:
        Result<i64>)
        requires
            wf_grid(data@, shape@),
        ensures
            match r {
                Ok(v) => indices@.len() == shape@.len() && v as int == spec_bilinear(
                    data@,
                    shape@,
                    indices@,
                    0,
                ),
                Err(e) => indices@.len() != shape@.len() && e is Interpolation,
            },
    {
        proof {
            reveal_strlit("Dimension mismatch between indices and shape");
        }
        if indices.len() != shape.len() {
            return Err(
                RossbyError::Interpolation {
                    message: "Dimension mismatch between indices and shape".to_owned(),
                },
            );
        }
        Ok(bilinear_nd(data, shape, indices, 0))
    }
}

/// The interpolation kernel a request selected by name.
#[derive(Clone, Copy, Debug, PartialEq, Eq, Structural)]
pub enum InterpolatorKind {
    Nearest,
    Bilinear,
    Bicubic,
}

impl InterpolatorKind {
    /// Interpolate with the selected kernel; the success conditions are
    /// those of the kernel.
    pub fn interpolate(&self, data: &Vec<i64>, shape: &Vec<usize>, indices: &Vec<i64>) -> (r:
        Result<i64>)
        requires
            wf_grid(data@, shape@),
            shape@.len() <= MAX_DIMS,
        ensures
            *self is Nearest ==> match r {
                Ok(v) => indices@.len() == shape@.len() && v == spec_nearest(
                    data@,
                    shape@,
                    indices@,
                ),
                Err(e) => indices@.len() != shape@.len() && e is Interpolation,
            },
            *self is Bilinear ==> match r {
                Ok(v) => indices@.len() == shape@.len() && v as int == spec_bilinear(
                    data@,
                    shape@,
                    indices@,
                    0,
                ),
                Err(e) => indices@.len() != shape@.len() && e is Interpolation,
            },
            *self is Bicubic ==> match r {
                Ok(v) => indices@.len() == shape@.len() && (forall|k: int|
                    0 <= k < shape@.len() ==> #[trigger] shape@[k] >= 4) && v as int
                    == spec_cubic(data@, shape@, indices@, 0),
                Err(e) => (indices@.len() != shape@.len() || exists|k: int|
                    0 <= k < shape@.len() && #[trigger] shape@[k] < 4) && e is Interpolation,
            },
    {
        match self {
            InterpolatorKind::Nearest => NearestInterpolator.interpolate(data, shape, indices),
            InterpolatorKind::Bilinear => BilinearInterpolator.interpolate(
                data,
                shape,
                indices,
            ),
            InterpolatorKind::Bicubic => BicubicInterpolator.interpolate(data, shape, indices),
        }
    }

    /// The name this kernel is selected by.
    pub fn name(&self) -> (r: &'static str)
        ensures
            *self is Nearest ==> r@ == "nearest"@,
            *self is Bilinear ==> r@ == "bilinear"@,
            *self is Bicubic ==> r@ == "bicubic"@,
    {
        match self {
            InterpolatorKind::Nearest => "nearest",
            InterpolatorKind::Bilinear => "bilinear",
            InterpolatorKind::Bicubic => "bicubic",
        }
    }
}

/// Select an interpolation kernel by case-insensitive name; any name other
/// than the three kernels is rejected.
pub fn get_interpolator(name: &str) -> (r: Result<InterpolatorKind>)
    ensures
        match r {
            Ok(k) => (crate::text::lower_seq(name@) == "nearest"@ && k
                == InterpolatorKind::Nearest) || (crate::text::lower_seq(name@) == "bilinear"@
                && k == InterpolatorKind::Bilinear) || (crate::text::lower_seq(name@)
                == "bicubic"@ && k == InterpolatorKind::Bicubic),
            Err(e) => crate::text::lower_seq(name@) != "nearest"@ && crate::text::lower_seq(
                name@,
            ) != "bilinear"@ && crate::text::lower_seq(name@) != "bicubic"@ && (e matches
                RossbyError::InvalidParameter { param, .. } && param@ == "interpolation"@),
        },
{
    proof {
        reveal_strlit("nearest");
        reveal_strlit("bilinear");
        reveal_strlit("bicubic");
        reveal_strlit("interpolation");
        reveal_strlit("Unknown interpolation method");
        assert(crate::text::lower_seq("nearest"@) =~= "nearest"@);
        assert(crate::text::lower_seq("bilinear"@) =~= "bilinear"@);
        assert(crate::text::lower_seq("bicubic"@) =~= "bicubic"@);
    }
    if crate::text::str_eq_ignore_case(name, "nearest") {
        Ok(InterpolatorKind::Nearest)
    } else if crate::text::str_eq_ignore_case(name, "bilinear") {
        Ok(InterpolatorKind::Bilinear)
    } else if crate::text::str_eq_ignore_case(name, "bicubic") {
        Ok(InterpolatorKind::Bicubic)
    } else {
        Err(
            RossbyError::InvalidParameter {
                param: "interpolation".to_owned(),
                message: "Unknown interpolation method".to_owned(),
            },
        )
    }
}

/// The fractional index tuple that sits exactly on the grid point `ks`.
pub open spec fn grid_indices(ks: Seq<usize>) -> Seq<i64> {
    Seq::new(ks.len(), |k: int| (ks[k] * SCALE) as i64)
}

/// Nearest-neighbour interpolation at a grid point returns exactly the
/// stored value.
pub proof fn lemma_nearest_reproduces_grid(data: Seq<i64>, shape: Seq<usize>, ks: Seq<usize>)
    requires
        wf_grid(data, shape),
        ks.len() == shape.len(),
        forall|k: int| 0 <= k < ks.len() ==> #[trigger] ks[k] < shape[k],
    ensures
        spec_nearest(data, shape, grid_indices(ks)) == data[spec_flat(ks, shape)],
{
    let idx = grid_indices(ks);
    let rounded = Seq::new(
        idx.len(),
        |k: int| spec_round_idx(idx[k] as int, shape[k] as int) as usize,
    );
    assert forall|k: int| 0 <= k < ks.len() implies rounded[k] == ks[k] by {
        let m = ks[k] as int;
        let size = shape[k] as int;
        assert(0 <= m * SCALE <= (size - 1) * SCALE) by (nonlinear_arith)
            requires
                0 <= m < size,
                SCALE > 0,
        ;
        assert(idx[k] as int == m * SCALE);
        assert(spec_clamp(m * SCALE, size) == m * SCALE);
        assert(m * SCALE + 500000 == m * 1000000 + 500000);
        vstd::arithmetic::div_mod::lemma_fundamental_div_mod_converse(
            m * SCALE + 500000,
            1000000,
            m,
            500000,
        );
    }
    assert(rounded =~= ks);
}

proof fn lemma_bilinear_grid_rec(data: Seq<i64>, shape: Seq<usize>, ks: Seq<usize>, dim: int)
    requires
        wf_grid(data, shape),
        ks.len() == shape.len(),
        forall|k: int| 0 <= k < ks.len() ==> #[trigger] ks[k] < shape[k],
        0 <= dim <= ks.len(),
    ensures
        spec_bilinear(data, shape, grid_indices(ks), dim) == data[spec_flat(ks, shape)],
    decreases ks.len() - dim,
{
    let idx = grid_indices(ks);
    if dim >= idx.len() {
        assert forall|k: int| 0 <= k < ks.len() implies spec_floor_all(idx)[k] == ks[k] by {
            let m = ks[k] as int;
            assert(idx[k] as int == m * SCALE) by (nonlinear_arith)
                requires
                    0 <= m <= 1000000000,
                    idx[k] as int == m * SCALE,
            ;
            vstd::arithmetic::div_mod::lemma_div_by_multiple(m, SCALE as int);
        }
        assert(spec_floor_all(idx) =~= ks);
    } else {
        let m = ks[dim] as int;
        let size = shape[dim] as int;
        assert(0 <= m * SCALE <= (size - 1) * SCALE) by (nonlinear_arith)
            requires
                0 <= m < size,
                SCALE > 0,
        ;
        let cl = spec_clamp(idx[dim] as int, size);
        assert(cl == m * SCALE);
        vstd::arithmetic::div_mod::lemma_div_by_multiple(m, SCALE as int);
        let i0 = cl / (SCALE as int);
        assert(i0 == m);
        let f = cl - i0 * SCALE;
        assert(f == 0);
        assert(idx.update(dim, (i0 * SCALE) as i64) =~= idx);
        lemma_bilinear_grid_rec(data, shape, ks, dim + 1);
        let i1 = if i0 + 1 < size {
            i0 + 1
        } else {
            size - 1
        };
        if i0 != i1 {
            let v0 = spec_bilinear(data, shape, idx.update(dim, (i0 * SCALE) as i64), dim + 1);
            let v1 = spec_bilinear(data, shape, idx.update(dim, (i1 * SCALE) as i64), dim + 1);
            assert((SCALE - f) * v0 + f * v1 == v0 * SCALE) by (nonlinear_arith)
                requires
                    f == 0,
            ;
            vstd::arithmetic::div_mod::lemma_fundamental_div_mod_converse(
                v0 * SCALE,
                SCALE as int,
                v0,
                0,
            );
        }
    }
}

/// Linear interpolation at a grid point returns exactly the stored value.
pub proof fn lemma_bilinear_reproduces_grid(data: Seq<i64>, shape: Seq<usize>, ks: Seq<usize>)
    requires
        wf_grid(data, shape),
        ks.len() == shape.len(),
        forall|k: int| 0 <= k < ks.len() ==> #[trigger] ks[k] < shape[k],
    ensures
        spec_bilinear(data, shape, grid_indices(ks), 0) == data[spec_flat(ks, shape)],
{
    lemma_bilinear_grid_rec(data, shape, ks, 0);
}

proof fn lemma_cubic_grid_rec(data: Seq<i64>, shape: Seq<usize>, ks: Seq<usize>, dim: int)
    requires
        wf_grid(data, shape),
        ks.len() == shape.len(),
        forall|k: int| 0 <= k < ks.len() ==> #[trigger] ks[k] < shape[k],
        0 <= dim <= ks.len(),
    ensures
        spec_cubic(data, shape, grid_indices(ks), dim) == data[spec_flat(ks, shape)],
    decreases ks.len() - dim,
{
    let idx = grid_indices(ks);
    if dim >= idx.len() {
        assert forall|k: int| 0 <= k < ks.len() implies spec_floor_all(idx)[k] == ks[k] by {
            let m = ks[k] as int;
            vstd::arithmetic::div_mod::lemma_div_by_multiple(m, SCALE as int);
        }
        assert(spec_floor_all(idx) =~= ks);
    } else {
        let m = ks[dim] as int;
        let size = shape[dim] as int;
        assert(0 <= m * SCALE <= (size - 1) * SCALE) by (nonlinear_arith)
            requires
                0 <= m < size,
                SCALE > 0,
        ;
        let cl = spec_clamp(idx[dim] as int, size);
        assert(cl == m * SCALE);
        vstd::arithmetic::div_mod::lemma_div_by_multiple(m, SCALE as int);
        let i0 = cl / (SCALE as int);
        assert(i0 == m);
        let f = cl - i0 * SCALE;
        assert(f == 0);
        assert(cubic_n0(0) == 0 && cubic_n1(0) == CUBIC_DEN && cubic_n2(0) == 0 && cubic_n3(0)
            == 0) by (nonlinear_arith)
            requires
                CUBIC_DEN == 2000000000000000000,
                SCALE == 1000000,
        ;
        assert(idx.update(dim, (i0 * SCALE) as i64) =~= idx);
        lemma_cubic_grid_rec(data, shape, ks, dim + 1);
        let v1 = spec_cubic(data, shape, idx.update(dim, (i0 * SCALE) as i64), dim + 1);
        let p0 = if i0 > 0 {
            i0 - 1
        } else {
            0
        };
        let p2 = if i0 + 1 < size {
            i0 + 1
        } else {
            size - 1
        };
        let p3 = if i0 + 2 < size {
            i0 + 2
        } else {
            size - 1
        };
        let v0 = spec_cubic(data, shape, idx.update(dim, (p0 * SCALE) as i64), dim + 1);
        let v2 = spec_cubic(data, shape, idx.update(dim, (p2 * SCALE) as i64), dim + 1);
        let v3 = spec_cubic(data, shape, idx.update(dim, (p3 * SCALE) as i64), dim + 1);
        assert(cubic_n0(f) * v0 + cubic_n1(f) * v1 + cubic_n2(f) * v2 + cubic_n3(f) * v3 == v1
            * CUBIC_DEN) by (nonlinear_arith)
            requires
                f == 0,
                cubic_n0(0) == 0,
                cubic_n1(0) == CUBIC_DEN,
                cubic_n2(0) == 0,
                cubic_n3(0) == 0,
        ;
        vstd::arithmetic::div_mod::lemma_fundamental_div_mod_converse(
            v1 * (CUBIC_DEN as int),
            CUBIC_DEN as int,
            v1,
            0,
        );
    }
}

/// Cubic interpolation at a grid point returns exactly the stored value.
pub proof fn lemma_bicubic_reproduces_grid(data: Seq<i64>, shape: Seq<usize>, ks: Seq<usize>)
    requires
        wf_grid(data, shape),
        ks.len() == shape.len(),
        forall|k: int| 0 <= k < ks.len() ==> #[trigger] ks[k] < shape[k],
    ensures
        spec_cubic(data, shape, grid_indices(ks), 0) == data[spec_flat(ks, shape)],
{
    lemma_cubic_grid_rec(data, shape, ks, 0);
}

} // verus!
