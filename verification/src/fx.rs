//! Fixed-point arithmetic helpers.
//!
//! Physical values (coordinates, data values, longitudes, fractional grid
//! indices) are represented as `i64` counts of micro-units: the fixed-point
//! value `v` stands for the real number `v / SCALE`.

use vstd::prelude::*;

verus! {

/// Number of fixed-point units in one physical unit.
pub const SCALE: i64 = 1_000_000;

/// One full turn of longitude, in fixed-point units.
pub const FULL_TURN: i64 = 360_000_000;

/// Half a turn of longitude, in fixed-point units.
pub const HALF_TURN: i64 = 180_000_000;

/// Largest magnitude a fixed-point value handled by the library may have
/// (4 * 10^9 physical units); keeps all kernel arithmetic in range.
pub const FX_VAL_MAX: i64 = 4_000_000_000_000_000;

/// Euclidean remainder of `a` modulo `m`, as the mathematical `%` on `int`.
pub fn emod_i64(a: i64, m: u64) -> (r: u64)
    requires
        0 < m <= i64::MAX,
    ensures
        r as int == (a as int) % (m as int),
        r < m,
{
    if a >= 0 {
        (a as u64) % m
    } else {
        let neg: u64 = (-(a as i128)) as u64;
        let r0: u64 = neg % m;
        proof {
            assert(neg as int == -(a as int));
            assert(neg as int == (neg as int / m as int) * (m as int) + r0) by {
                vstd::arithmetic::div_mod::lemma_fundamental_div_mod(
                    neg as int,
                    m as int,
                );
            }
            let q = neg as int / m as int;
            if r0 == 0 {
                assert((a as int) == (-q) * (m as int)) by (nonlinear_arith)
                    requires
                        a as int == -(q * (m as int)),
                ;
                assert((a as int) % (m as int) == 0) by {
                    vstd::arithmetic::div_mod::lemma_mod_multiples_basic(-q, m as int);
                }
            } else {
                assert((a as int) == (-q - 1) * (m as int) + (m - r0)) by (nonlinear_arith)
                    requires
                        a as int == -(q * (m as int) + r0),
                ;
                assert((a as int) % (m as int) == (m - r0) as int) by {
                    vstd::arithmetic::div_mod::lemma_fundamental_div_mod_converse(
                        a as int,
                        m as int,
                        -q - 1,
                        (m - r0) as int,
                    );
                }
            }
        }
        if r0 == 0 {
            0
        } else {
            m - r0
        }
    }
}

/// Absolute value.
pub open spec fn iabs(x: int) -> int {
    if x < 0 {
        -x
    } else {
        x
    }
}

/// Euclidean (flooring) quotient of `a` by the positive divisor `d`, as the
/// mathematical `/` on `int`.
pub fn ediv_i128(a: i128, d: i128) -> (r: i128)
    requires
        0 < d,
        i128::MIN < a,
    ensures
        r as int == (a as int) / (d as int),
{
    if a >= 0 {
        let q = (a as u128) / (d as u128);
        proof {
            assert(q as int == (a as int) / (d as int));
        }
        q as i128
    } else {
        let na: u128 = (-a) as u128;
        let du: u128 = d as u128;
        let q: u128 = na / du;
        let re: u128 = na % du;
        proof {
            vstd::arithmetic::div_mod::lemma_fundamental_div_mod(na as int, du as int);
            if re == 0 {
                assert((a as int) == (-(q as int)) * (d as int)) by (nonlinear_arith)
                    requires
                        a as int == -((q as int) * (d as int)),
                ;
                vstd::arithmetic::div_mod::lemma_fundamental_div_mod_converse(
                    a as int,
                    d as int,
                    -(q as int),
                    0,
                );
            } else {
                assert((a as int) == (-(q as int) - 1) * (d as int) + (d - re)) by (nonlinear_arith)
                    requires
                        a as int == -((q as int) * (d as int) + re),
                ;
                vstd::arithmetic::div_mod::lemma_fundamental_div_mod_converse(
                    a as int,
                    d as int,
                    -(q as int) - 1,
                    (d - re) as int,
                );
            }
        }
        if re == 0 {
            -(q as i128)
        } else {
            -(q as i128) - 1
        }
    }
}

/// The longitude in `[-180, 180)` (fixed-point) that `x` normalizes to;
/// exactly `+180` maps to `-180`.
pub open spec fn norm_lon(x: int) -> int {
    (x + HALF_TURN) % (FULL_TURN as int) - HALF_TURN
}

/// Normalize a fixed-point longitude to the range `[-180, 180)` degrees,
/// with exactly `+180` mapping to `-180`.
pub fn normalize_longitude(lon: i64) -> (r: i64)
    ensures
        r == norm_lon(lon as int),
        -HALF_TURN <= r < HALF_TURN,
{
    let m: u64 = FULL_TURN as u64;
    let e: u64 = emod_i64(lon, m);
    proof {
        vstd::arithmetic::div_mod::lemma_mod_adds(lon as int, HALF_TURN as int, m as int);
        vstd::arithmetic::div_mod::lemma_mod_self_0(m as int);
        vstd::arithmetic::div_mod::lemma_mod_bound(lon as int + HALF_TURN, m as int);
        vstd::arithmetic::div_mod::lemma_mod_bound(lon as int, m as int);
        if e as int + HALF_TURN < m {
            vstd::arithmetic::div_mod::lemma_small_mod((e + HALF_TURN as u64) as nat, m as nat);
        } else {
            vstd::arithmetic::div_mod::lemma_mod_sub_multiples_vanish(
                e as int + HALF_TURN,
                m as int,
            );
            vstd::arithmetic::div_mod::lemma_small_mod(
                (e as int + HALF_TURN - m) as nat,
                m as nat,
            );
        }
    }
    let shifted: u64 = e + HALF_TURN as u64;
    let wrapped: u64 = if shifted >= m {
        shifted - m
    } else {
        shifted
    };
    (wrapped as i64) - HALF_TURN
}

/// Normalizing is a projection: applying it twice is the same as applying it
/// once.
pub proof fn lemma_normalize_longitude_idempotent(x: int)
    ensures
        norm_lon(norm_lon(x)) == norm_lon(x),
{
    vstd::arithmetic::div_mod::lemma_mod_bound(x + HALF_TURN, FULL_TURN as int);
    vstd::arithmetic::div_mod::lemma_small_mod(
        ((x + HALF_TURN) % (FULL_TURN as int)) as nat,
        FULL_TURN as nat,
    );
}

/// Normalizing is periodic: longitudes a whole number of turns apart
/// normalize to the same value.
pub proof fn lemma_normalize_longitude_periodic(x: int, k: int)
    ensures
        norm_lon(x + k * FULL_TURN) == norm_lon(x),
{
    vstd::arithmetic::div_mod::lemma_mod_multiples_vanish(k, x + HALF_TURN, FULL_TURN as int);
    assert(x + k * FULL_TURN + HALF_TURN == (FULL_TURN as int) * k + (x + HALF_TURN));
}

} // verus!
