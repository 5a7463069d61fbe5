//! Colormaps: named piecewise-linear RGB ramps over normalized values.
//!
//! A colormap takes a normalized fixed-point value in `[0, 1]` to an RGBA
//! colour by linear interpolation over a fixed palette; `map` first
//! normalizes a raw value against a data range.

use vstd::prelude::*;
use vstd::string::StringExecFns;
use crate::error::{Result, RossbyError};
use crate::fx::{SCALE, FX_VAL_MAX, ediv_i128};
use crate::text::{str_eq_ignore_case, lower_seq};

verus! {

/// One linearly interpolated colour channel: `a` weighted by the remainder
/// of the fraction, `b` by the fraction.
pub open spec fn spec_lerp_channel(a: u8, b: u8, t: int) -> int {
    (a * (SCALE - t) + b * t) / (SCALE as int)
}

/// The colour a palette assigns to a normalized fixed-point value.
pub open spec fn spec_map_normalized(p: Seq<(u8, u8, u8)>, t: int) -> (u8, u8, u8, u8) {
    let pos = t * (p.len() - 1);
    let idx = pos / (SCALE as int);
    if idx >= p.len() - 1 {
        (p.last().0, p.last().1, p.last().2, 255)
    } else {
        let f = pos - idx * SCALE;
        (
            spec_lerp_channel(p[idx].0, p[idx + 1].0, f) as u8,
            spec_lerp_channel(p[idx].1, p[idx + 1].1, f) as u8,
            spec_lerp_channel(p[idx].2, p[idx + 1].2, f) as u8,
            255,
        )
    }
}

/// The normalized position of `v` within `[min, max]`, clamped to one unit;
/// a degenerate range maps everything to the middle.
pub open spec fn spec_norm_t(v: int, min: int, max: int) -> int {
    if max > min {
        let t = (v - min) * (SCALE as int) / (max - min);
        if t < 0 {
            0
        } else if t > SCALE {
            SCALE as int
        } else {
            t
        }
    } else {
        (SCALE as int) / 2
    }
}

/// Linear interpolation between two colours.
pub fn lerp_color(c1: [u8; 3], c2: [u8; 3], t: i64) -> (r: [u8; 3])
    requires
        0 <= t <= SCALE,
    ensures
        r[0] == spec_lerp_channel(c1[0], c2[0], t as int),
        r[1] == spec_lerp_channel(c1[1], c2[1], t as int),
        r[2] == spec_lerp_channel(c1[2], c2[2], t as int),
{
    let r0 = lerp_channel(c1[0], c2[0], t);
    let r1 = lerp_channel(c1[1], c2[1], t);
    let r2 = lerp_channel(c1[2], c2[2], t);
    [r0, r1, r2]
}

fn lerp_channel(a: u8, b: u8, t: i64) -> (r: u8)
    requires
        0 <= t <= SCALE,
    ensures
        r == spec_lerp_channel(a, b, t as int),
{
    proof {
        assert(0 <= (a as int) * (SCALE - t) <= 255000000 && 0 <= (b as int) * (t as int)
            <= 255000000) by (nonlinear_arith)
            requires
                0 <= t <= SCALE,
                a <= 255,
                b <= 255,
                SCALE == 1000000,
        ;
    }
    let num: u64 = (a as u64) * ((SCALE - t) as u64) + (b as u64) * (t as u64);
    let q: u64 = num / (SCALE as u64);
    proof {
        assert(num <= 255 * (SCALE as int)) by (nonlinear_arith)
            requires
                num == (a as int) * (SCALE - t) + (b as int) * (t as int),
                0 <= t <= SCALE,
                a <= 255,
                b <= 255,
                SCALE == 1000000,
        ;
        vstd::arithmetic::div_mod::lemma_div_is_ordered(
            num as int,
            255 * (SCALE as int),
            SCALE as int,
        );
        vstd::arithmetic::div_mod::lemma_fundamental_div_mod_converse(
            255 * (SCALE as int),
            SCALE as int,
            255,
            0,
        );
    }
    q as u8
}

/// Interpolate a palette at a normalized fixed-point value.
fn palette_color(p: &Vec<(u8, u8, u8)>, t: i64) -> (r: [u8; 4])
    requires
        0 <= t <= SCALE,
        2 <= p@.len() <= 100,
    ensures
        ({
            let c = spec_map_normalized(p@, t as int);
            r[0] == c.0 && r[1] == c.1 && r[2] == c.2 && r[3] == c.3
        }),
{
    let n = p.len();
    proof {
        assert(0 <= (t as int) * ((n - 1) as int) <= 100000000) by (nonlinear_arith)
            requires
                0 <= t <= 1000000,
                1 <= (n - 1) as int <= 99,
        ;
    }
    let pos: i64 = t * ((n - 1) as i64);
    let idx: u64 = (pos as u64) / (SCALE as u64);
    proof {
        vstd::arithmetic::div_mod::lemma_fundamental_div_mod(pos as int, 1000000);
    }
    if idx >= (n - 1) as u64 {
        let last = p[n - 1];
        [last.0, last.1, last.2, 255]
    } else {
        let f: i64 = pos - (idx as i64) * SCALE;
        proof {
            assert(0 <= f < SCALE);
        }
        let c1 = p[idx as usize];
        let c2 = p[idx as usize + 1];
        let r0 = lerp_channel(c1.0, c2.0, f);
        let r1 = lerp_channel(c1.1, c2.1, f);
        let r2 = lerp_channel(c1.2, c2.2, f);
        [r0, r1, r2, 255]
    }
}

/// Normalize a raw value against a data range.
fn norm_t(v: i64, min: i64, max: i64) -> (r: i64)
    requires
        -FX_VAL_MAX <= v <= FX_VAL_MAX,
        -FX_VAL_MAX <= min <= FX_VAL_MAX,
        -FX_VAL_MAX <= max <= FX_VAL_MAX,
    ensures
        r == spec_norm_t(v as int, min as int, max as int),
        0 <= r <= SCALE,
{
    if max > min {
        proof {
            assert(-8000000000000000000000 <= ((v - min) as int) * (SCALE as int)
                <= 8000000000000000000000) by (nonlinear_arith)
                requires
                    -8000000000000000 <= (v - min) as int <= 8000000000000000,
                    SCALE == 1000000,
            ;
        }
        let num: i128 = ((v - min) as i128) * (SCALE as i128);
        let q: i128 = ediv_i128(num, (max - min) as i128);
        if q < 0 {
            0
        } else if q > SCALE as i128 {
            SCALE
        } else {
            q as i64
        }
    } else {
        SCALE / 2
    }
}


/// The viridis colormap.
pub struct Viridis;

/// The viridis palette.
pub open spec fn viridis_palette() -> Seq<(u8, u8, u8)> {
    seq![(68u8, 1u8, 84u8), (72u8, 33u8, 115u8), (64u8, 67u8, 135u8), (52u8, 94u8, 141u8), (41u8, 120u8, 142u8), (32u8, 144u8, 140u8), (34u8, 167u8, 132u8), (68u8, 190u8, 112u8), (121u8, 209u8, 81u8), (189u8, 222u8, 38u8), (253u8, 231u8, 36u8)]
}

fn viridis_colors() -> (r: Vec<(u8, u8, u8)>)
    ensures
        r@ == viridis_palette(),
        2 <= r@.len() <= 100,
{
    let v: Vec<(u8, u8, u8)> = vec![(68u8, 1u8, 84u8), (72u8, 33u8, 115u8), (64u8, 67u8, 135u8), (52u8, 94u8, 141u8), (41u8, 120u8, 142u8), (32u8, 144u8, 140u8), (34u8, 167u8, 132u8), (68u8, 190u8, 112u8), (121u8, 209u8, 81u8), (189u8, 222u8, 38u8), (253u8, 231u8, 36u8)];
    proof {
        assert(v@ =~= viridis_palette());
    }
    v
}

impl Viridis {
    /// Map a normalized fixed-point value to an RGBA colour.
    pub fn map_normalized(&self, value: i64) -> (r: [u8; 4])
        requires
            0 <= value <= SCALE,
        ensures
            ({
                let c = spec_map_normalized(viridis_palette(), value as int);
                r[0] == c.0 && r[1] == c.1 && r[2] == c.2 && r[3] == c.3
            }),
    {
        let p = viridis_colors();
        palette_color(&p, value)
    }

    /// Map a raw value against a data range to an RGBA colour.
    pub fn map(&self, value: i64, min: i64, max: i64) -> (r: [u8; 4])
        requires
            -FX_VAL_MAX <= value <= FX_VAL_MAX,
            -FX_VAL_MAX <= min <= FX_VAL_MAX,
            -FX_VAL_MAX <= max <= FX_VAL_MAX,
        ensures
            ({
                let c = spec_map_normalized(
                    viridis_palette(),
                    spec_norm_t(value as int, min as int, max as int),
                );
                r[0] == c.0 && r[1] == c.1 && r[2] == c.2 && r[3] == c.3
            }),
    {
        let t = norm_t(value, min, max);
        self.map_normalized(t)
    }

    /// The name this colormap is selected by.
    pub fn name(&self) -> (r: &'static str)
        ensures
            r@ == "viridis"@,
    {
        "viridis"
    }
}


/// The plasma colormap.
pub struct Plasma;

/// The plasma palette.
pub open spec fn plasma_palette() -> Seq<(u8, u8, u8)> {
    seq![(13u8, 8u8, 135u8), (75u8, 3u8, 161u8), (125u8, 3u8, 168u8), (168u8, 13u8, 155u8), (203u8, 30u8, 129u8), (228u8, 55u8, 97u8), (246u8, 82u8, 66u8), (251u8, 118u8, 35u8), (246u8, 157u8, 8u8), (232u8, 197u8, 0u8), (240u8, 249u8, 33u8)]
}

fn plasma_colors() -> (r: Vec<(u8, u8, u8)>)
    ensures
        r@ == plasma_palette(),
        2 <= r@.len() <= 100,
{
    let v: Vec<(u8, u8, u8)> = vec![(13u8, 8u8, 135u8), (75u8, 3u8, 161u8), (125u8, 3u8, 168u8), (168u8, 13u8, 155u8), (203u8, 30u8, 129u8), (228u8, 55u8, 97u8), (246u8, 82u8, 66u8), (251u8, 118u8, 35u8), (246u8, 157u8, 8u8), (232u8, 197u8, 0u8), (240u8, 249u8, 33u8)];
    proof {
        assert(v@ =~= plasma_palette());
    }
    v
}

impl Plasma {
    /// Map a normalized fixed-point value to an RGBA colour.
    pub fn map_normalized(&self, value: i64) -> (r: [u8; 4])
        requires
            0 <= value <= SCALE,
        ensures
            ({
                let c = spec_map_normalized(plasma_palette(), value as int);
                r[0] == c.0 && r[1] == c.1 && r[2] == c.2 && r[3] == c.3
            }),
    {
        let p = plasma_colors();
        palette_color(&p, value)
    }

    /// Map a raw value against a data range to an RGBA colour.
    pub fn map(&self, value: i64, min: i64, max: i64) -> (r: [u8; 4])
        requires
            -FX_VAL_MAX <= value <= FX_VAL_MAX,
            -FX_VAL_MAX <= min <= FX_VAL_MAX,
            -FX_VAL_MAX <= max <= FX_VAL_MAX,
        ensures
            ({
                let c = spec_map_normalized(
                    plasma_palette(),
                    spec_norm_t(value as int, min as int, max as int),
                );
                r[0] == c.0 && r[1] == c.1 && r[2] == c.2 && r[3] == c.3
            }),
    {
        let t = norm_t(value, min, max);
        self.map_normalized(t)
    }

    /// The name this colormap is selected by.
    pub fn name(&self) -> (r: &'static str)
        ensures
            r@ == "plasma"@,
    {
        "plasma"
    }
}


/// The inferno colormap.
pub struct Inferno;

/// The inferno palette.
pub open spec fn inferno_palette() -> Seq<(u8, u8, u8)> {
    seq![(0u8, 0u8, 4u8), (22u8, 11u8, 57u8), (66u8, 10u8, 104u8), (106u8, 23u8, 110u8), (147u8, 38u8, 103u8), (186u8, 54u8, 85u8), (221u8, 73u8, 64u8), (243u8, 106u8, 39u8), (251u8, 150u8, 24u8), (246u8, 196u8, 40u8), (252u8, 255u8, 164u8)]
}

fn inferno_colors() -> (r: Vec<(u8, u8, u8)>)
    ensures
        r@ == inferno_palette(),
        2 <= r@.len() <= 100,
{
    let v: Vec<(u8, u8, u8)> = vec![(0u8, 0u8, 4u8), (22u8, 11u8, 57u8), (66u8, 10u8, 104u8), (106u8, 23u8, 110u8), (147u8, 38u8, 103u8), (186u8, 54u8, 85u8), (221u8, 73u8, 64u8), (243u8, 106u8, 39u8), (251u8, 150u8, 24u8), (246u8, 196u8, 40u8), (252u8, 255u8, 164u8)];
    proof {
        assert(v@ =~= inferno_palette());
    }
    v
}

impl Inferno {
    /// Map a normalized fixed-point value to an RGBA colour.
    pub fn map_normalized(&self, value: i64) -> (r: [u8; 4])
        requires
            0 <= value <= SCALE,
        ensures
            ({
                let c = spec_map_normalized(inferno_palette(), value as int);
                r[0] == c.0 && r[1] == c.1 && r[2] == c.2 && r[3] == c.3
            }),
    {
        let p = inferno_colors();
        palette_color(&p, value)
    }

    /// Map a raw value against a data range to an RGBA colour.
    pub fn map(&self, value: i64, min: i64, max: i64) -> (r: [u8; 4])
        requires
            -FX_VAL_MAX <= value <= FX_VAL_MAX,
            -FX_VAL_MAX <= min <= FX_VAL_MAX,
            -FX_VAL_MAX <= max <= FX_VAL_MAX,
        ensures
            ({
                let c = spec_map_normalized(
                    inferno_palette(),
                    spec_norm_t(value as int, min as int, max as int),
                );
                r[0] == c.0 && r[1] == c.1 && r[2] == c.2 && r[3] == c.3
            }),
    {
        let t = norm_t(value, min, max);
        self.map_normalized(t)
    }

    /// The name this colormap is selected by.
    pub fn name(&self) -> (r: &'static str)
        ensures
            r@ == "inferno"@,
    {
        "inferno"
    }
}


/// The magma colormap.
pub struct Magma;

/// The magma palette.
pub open spec fn magma_palette() -> Seq<(u8, u8, u8)> {
    seq![(0u8, 0u8, 4u8), (28u8, 16u8, 68u8), (79u8, 18u8, 123u8), (129u8, 37u8, 129u8), (181u8, 54u8, 122u8), (229u8, 80u8, 100u8), (251u8, 135u8, 97u8), (254u8, 194u8, 135u8), (252u8, 253u8, 191u8)]
}

fn magma_colors() -> (r: Vec<(u8, u8, u8)>)
    ensures
        r@ == magma_palette(),
        2 <= r@.len() <= 100,
{
    let v: Vec<(u8, u8, u8)> = vec![(0u8, 0u8, 4u8), (28u8, 16u8, 68u8), (79u8, 18u8, 123u8), (129u8, 37u8, 129u8), (181u8, 54u8, 122u8), (229u8, 80u8, 100u8), (251u8, 135u8, 97u8), (254u8, 194u8, 135u8), (252u8, 253u8, 191u8)];
    proof {
        assert(v@ =~= magma_palette());
    }
    v
}

impl Magma {
    /// Map a normalized fixed-point value to an RGBA colour.
    pub fn map_normalized(&self, value: i64) -> (r: [u8; 4])
        requires
            0 <= value <= SCALE,
        ensures
            ({
                let c = spec_map_normalized(magma_palette(), value as int);
                r[0] == c.0 && r[1] == c.1 && r[2] == c.2 && r[3] == c.3
            }),
    {
        let p = magma_colors();
        palette_color(&p, value)
    }

    /// Map a raw value against a data range to an RGBA colour.
    pub fn map(&self, value: i64, min: i64, max: i64) -> (r: [u8; 4])
        requires
            -FX_VAL_MAX <= value <= FX_VAL_MAX,
            -FX_VAL_MAX <= min <= FX_VAL_MAX,
            -FX_VAL_MAX <= max <= FX_VAL_MAX,
        ensures
            ({
                let c = spec_map_normalized(
                    magma_palette(),
                    spec_norm_t(value as int, min as int, max as int),
                );
                r[0] == c.0 && r[1] == c.1 && r[2] == c.2 && r[3] == c.3
            }),
    {
        let t = norm_t(value, min, max);
        self.map_normalized(t)
    }

    /// The name this colormap is selected by.
    pub fn name(&self) -> (r: &'static str)
        ensures
            r@ == "magma"@,
    {
        "magma"
    }
}


/// The cividis colormap.
pub struct Cividis;

/// The cividis palette.
pub open spec fn cividis_palette() -> Seq<(u8, u8, u8)> {
    seq![(0u8, 32u8, 76u8), (0u8, 42u8, 102u8), (0u8, 52u8, 110u8), (25u8, 63u8, 115u8), (46u8, 73u8, 114u8), (67u8, 84u8, 107u8), (90u8, 96u8, 98u8), (115u8, 106u8, 85u8), (143u8, 117u8, 70u8), (172u8, 129u8, 54u8), (206u8, 142u8, 36u8), (237u8, 158u8, 16u8), (255u8, 172u8, 0u8)]
}

fn cividis_colors() -> (r: Vec<(u8, u8, u8)>)
    ensures
        r@ == cividis_palette(),
        2 <= r@.len() <= 100,
{
    let v: Vec<(u8, u8, u8)> = vec![(0u8, 32u8, 76u8), (0u8, 42u8, 102u8), (0u8, 52u8, 110u8), (25u8, 63u8, 115u8), (46u8, 73u8, 114u8), (67u8, 84u8, 107u8), (90u8, 96u8, 98u8), (115u8, 106u8, 85u8), (143u8, 117u8, 70u8), (172u8, 129u8, 54u8), (206u8, 142u8, 36u8), (237u8, 158u8, 16u8), (255u8, 172u8, 0u8)];
    proof {
        assert(v@ =~= cividis_palette());
    }
    v
}

impl Cividis {
    /// Map a normalized fixed-point value to an RGBA colour.
    pub fn map_normalized(&self, value: i64) -> (r: [u8; 4])
        requires
            0 <= value <= SCALE,
        ensures
            ({
                let c = spec_map_normalized(cividis_palette(), value as int);
                r[0] == c.0 && r[1] == c.1 && r[2] == c.2 && r[3] == c.3
            }),
    {
        let p = cividis_colors();
        palette_color(&p, value)
    }

    /// Map a raw value against a data range to an RGBA colour.
    pub fn map(&self, value: i64, min: i64, max: i64) -> (r: [u8; 4])
        requires
            -FX_VAL_MAX <= value <= FX_VAL_MAX,
            -FX_VAL_MAX <= min <= FX_VAL_MAX,
            -FX_VAL_MAX <= max <= FX_VAL_MAX,
        ensures
            ({
                let c = spec_map_normalized(
                    cividis_palette(),
                    spec_norm_t(value as int, min as int, max as int),
                );
                r[0] == c.0 && r[1] == c.1 && r[2] == c.2 && r[3] == c.3
            }),
    {
        let t = norm_t(value, min, max);
        self.map_normalized(t)
    }

    /// The name this colormap is selected by.
    pub fn name(&self) -> (r: &'static str)
        ensures
            r@ == "cividis"@,
    {
        "cividis"
    }
}


/// The coolwarm colormap.
pub struct Coolwarm;

/// The coolwarm palette.
pub open spec fn coolwarm_palette() -> Seq<(u8, u8, u8)> {
    seq![(59u8, 76u8, 192u8), (68u8, 90u8, 204u8), (77u8, 104u8, 215u8), (87u8, 117u8, 225u8), (98u8, 130u8, 234u8), (108u8, 142u8, 241u8), (119u8, 154u8, 247u8), (130u8, 165u8, 251u8), (141u8, 176u8, 254u8), (152u8, 185u8, 255u8), (163u8, 194u8, 255u8), (174u8, 201u8, 253u8), (184u8, 208u8, 249u8), (194u8, 213u8, 244u8), (204u8, 217u8, 238u8), (213u8, 219u8, 230u8), (221u8, 221u8, 221u8), (229u8, 216u8, 209u8), (236u8, 211u8, 197u8), (241u8, 204u8, 185u8), (245u8, 196u8, 173u8), (247u8, 187u8, 160u8), (247u8, 177u8, 148u8), (247u8, 166u8, 135u8), (244u8, 154u8, 123u8), (241u8, 141u8, 111u8), (236u8, 127u8, 99u8), (229u8, 112u8, 88u8), (222u8, 96u8, 77u8), (213u8, 80u8, 66u8), (203u8, 62u8, 56u8), (192u8, 40u8, 47u8)]
}

fn coolwarm_colors() -> (r: Vec<(u8, u8, u8)>)
    ensures
        r@ == coolwarm_palette(),
        2 <= r@.len() <= 100,
{
    let v: Vec<(u8, u8, u8)> = vec![(59u8, 76u8, 192u8), (68u8, 90u8, 204u8), (77u8, 104u8, 215u8), (87u8, 117u8, 225u8), (98u8, 130u8, 234u8), (108u8, 142u8, 241u8), (119u8, 154u8, 247u8), (130u8, 165u8, 251u8), (141u8, 176u8, 254u8), (152u8, 185u8, 255u8), (163u8, 194u8, 255u8), (174u8, 201u8, 253u8), (184u8, 208u8, 249u8), (194u8, 213u8, 244u8), (204u8, 217u8, 238u8), (213u8, 219u8, 230u8), (221u8, 221u8, 221u8), (229u8, 216u8, 209u8), (236u8, 211u8, 197u8), (241u8, 204u8, 185u8), (245u8, 196u8, 173u8), (247u8, 187u8, 160u8), (247u8, 177u8, 148u8), (247u8, 166u8, 135u8), (244u8, 154u8, 123u8), (241u8, 141u8, 111u8), (236u8, 127u8, 99u8), (229u8, 112u8, 88u8), (222u8, 96u8, 77u8), (213u8, 80u8, 66u8), (203u8, 62u8, 56u8), (192u8, 40u8, 47u8)];
    proof {
        assert(v@ =~= coolwarm_palette());
    }
    v
}

impl Coolwarm {
    /// Map a normalized fixed-point value to an RGBA colour.
    pub fn map_normalized(&self, value: i64) -> (r: [u8; 4])
        requires
            0 <= value <= SCALE,
        ensures
            ({
                let c = spec_map_normalized(coolwarm_palette(), value as int);
                r[0] == c.0 && r[1] == c.1 && r[2] == c.2 && r[3] == c.3
            }),
    {
        let p = coolwarm_colors();
        palette_color(&p, value)
    }

    /// Map a raw value against a data range to an RGBA colour.
    pub fn map(&self, value: i64, min: i64, max: i64) -> (r: [u8; 4])
        requires
            -FX_VAL_MAX <= value <= FX_VAL_MAX,
            -FX_VAL_MAX <= min <= FX_VAL_MAX,
            -FX_VAL_MAX <= max <= FX_VAL_MAX,
        ensures
            ({
                let c = spec_map_normalized(
                    coolwarm_palette(),
                    spec_norm_t(value as int, min as int, max as int),
                );
                r[0] == c.0 && r[1] == c.1 && r[2] == c.2 && r[3] == c.3
            }),
    {
        let t = norm_t(value, min, max);
        self.map_normalized(t)
    }

    /// The name this colormap is selected by.
    pub fn name(&self) -> (r: &'static str)
        ensures
            r@ == "coolwarm"@,
    {
        "coolwarm"
    }
}


/// The rdbu colormap.
pub struct RdBu;

/// The rdbu palette.
pub open spec fn rdbu_palette() -> Seq<(u8, u8, u8)> {
    seq![(192u8, 40u8, 47u8), (203u8, 62u8, 56u8), (213u8, 80u8, 66u8), (222u8, 96u8, 77u8), (229u8, 112u8, 88u8), (236u8, 127u8, 99u8), (241u8, 141u8, 111u8), (244u8, 154u8, 123u8), (247u8, 166u8, 135u8), (247u8, 177u8, 148u8), (247u8, 187u8, 160u8), (245u8, 196u8, 173u8), (241u8, 204u8, 185u8), (236u8, 211u8, 197u8), (229u8, 216u8, 209u8), (221u8, 221u8, 221u8), (213u8, 219u8, 230u8), (204u8, 217u8, 238u8), (194u8, 213u8, 244u8), (184u8, 208u8, 249u8), (174u8, 201u8, 253u8), (163u8, 194u8, 255u8), (152u8, 185u8, 255u8), (141u8, 176u8, 254u8), (130u8, 165u8, 251u8), (119u8, 154u8, 247u8), (108u8, 142u8, 241u8), (98u8, 130u8, 234u8), (87u8, 117u8, 225u8), (77u8, 104u8, 215u8), (68u8, 90u8, 204u8), (59u8, 76u8, 192u8)]
}

fn rdbu_colors() -> (r: Vec<(u8, u8, u8)>)
    ensures
        r@ == rdbu_palette(),
        2 <= r@.len() <= 100,
{
    let v: Vec<(u8, u8, u8)> = vec![(192u8, 40u8, 47u8), (203u8, 62u8, 56u8), (213u8, 80u8, 66u8), (222u8, 96u8, 77u8), (229u8, 112u8, 88u8), (236u8, 127u8, 99u8), (241u8, 141u8, 111u8), (244u8, 154u8, 123u8), (247u8, 166u8, 135u8), (247u8, 177u8, 148u8), (247u8, 187u8, 160u8), (245u8, 196u8, 173u8), (241u8, 204u8, 185u8), (236u8, 211u8, 197u8), (229u8, 216u8, 209u8), (221u8, 221u8, 221u8), (213u8, 219u8, 230u8), (204u8, 217u8, 238u8), (194u8, 213u8, 244u8), (184u8, 208u8, 249u8), (174u8, 201u8, 253u8), (163u8, 194u8, 255u8), (152u8, 185u8, 255u8), (141u8, 176u8, 254u8), (130u8, 165u8, 251u8), (119u8, 154u8, 247u8), (108u8, 142u8, 241u8), (98u8, 130u8, 234u8), (87u8, 117u8, 225u8), (77u8, 104u8, 215u8), (68u8, 90u8, 204u8), (59u8, 76u8, 192u8)];
    proof {
        assert(v@ =~= rdbu_palette());
    }
    v
}

impl RdBu {
    /// Map a normalized fixed-point value to an RGBA colour.
    pub fn map_normalized(&self, value: i64) -> (r: [u8; 4])
        requires
            0 <= value <= SCALE,
        ensures
            ({
                let c = spec_map_normalized(rdbu_palette(), value as int);
                r[0] == c.0 && r[1] == c.1 && r[2] == c.2 && r[3] == c.3
            }),
    {
        let p = rdbu_colors();
        palette_color(&p, value)
    }

    /// Map a raw value against a data range to an RGBA colour.
    pub fn map(&self, value: i64, min: i64, max: i64) -> (r: [u8; 4])
        requires
            -FX_VAL_MAX <= value <= FX_VAL_MAX,
            -FX_VAL_MAX <= min <= FX_VAL_MAX,
            -FX_VAL_MAX <= max <= FX_VAL_MAX,
        ensures
            ({
                let c = spec_map_normalized(
                    rdbu_palette(),
                    spec_norm_t(value as int, min as int, max as int),
                );
                r[0] == c.0 && r[1] == c.1 && r[2] == c.2 && r[3] == c.3
            }),
    {
        let t = norm_t(value, min, max);
        self.map_normalized(t)
    }

    /// The name this colormap is selected by.
    pub fn name(&self) -> (r: &'static str)
        ensures
            r@ == "rdbu"@,
    {
        "rdbu"
    }
}


/// The seismic colormap.
pub struct Seismic;

/// The seismic palette.
pub open spec fn seismic_palette() -> Seq<(u8, u8, u8)> {
    seq![(0u8, 0u8, 127u8), (0u8, 0u8, 191u8), (0u8, 63u8, 255u8), (0u8, 127u8, 255u8), (0u8, 191u8, 255u8), (127u8, 223u8, 255u8), (191u8, 239u8, 255u8), (255u8, 255u8, 255u8), (255u8, 239u8, 191u8), (255u8, 223u8, 127u8), (255u8, 191u8, 0u8), (255u8, 127u8, 0u8), (255u8, 63u8, 0u8), (191u8, 0u8, 0u8), (127u8, 0u8, 0u8)]
}

fn seismic_colors() -> (r: Vec<(u8, u8, u8)>)
    ensures
        r@ == seismic_palette(),
        2 <= r@.len() <= 100,
{
    let v: Vec<(u8, u8, u8)> = vec![(0u8, 0u8, 127u8), (0u8, 0u8, 191u8), (0u8, 63u8, 255u8), (0u8, 127u8, 255u8), (0u8, 191u8, 255u8), (127u8, 223u8, 255u8), (191u8, 239u8, 255u8), (255u8, 255u8, 255u8), (255u8, 239u8, 191u8), (255u8, 223u8, 127u8), (255u8, 191u8, 0u8), (255u8, 127u8, 0u8), (255u8, 63u8, 0u8), (191u8, 0u8, 0u8), (127u8, 0u8, 0u8)];
    proof {
        assert(v@ =~= seismic_palette());
    }
    v
}

impl Seismic {
    /// Map a normalized fixed-point value to an RGBA colour.
    pub fn map_normalized(&self, value: i64) -> (r: [u8; 4])
        requires
            0 <= value <= SCALE,
        ensures
            ({
                let c = spec_map_normalized(seismic_palette(), value as int);
                r[0] == c.0 && r[1] == c.1 && r[2] == c.2 && r[3] == c.3
            }),
    {
        let p = seismic_colors();
        palette_color(&p, value)
    }

    /// Map a raw value against a data range to an RGBA colour.
    pub fn map(&self, value: i64, min: i64, max: i64) -> (r: [u8; 4])
        requires
            -FX_VAL_MAX <= value <= FX_VAL_MAX,
            -FX_VAL_MAX <= min <= FX_VAL_MAX,
            -FX_VAL_MAX <= max <= FX_VAL_MAX,
        ensures
            ({
                let c = spec_map_normalized(
                    seismic_palette(),
                    spec_norm_t(value as int, min as int, max as int),
                );
                r[0] == c.0 && r[1] == c.1 && r[2] == c.2 && r[3] == c.3
            }),
    {
        let t = norm_t(value, min, max);
        self.map_normalized(t)
    }

    /// The name this colormap is selected by.
    pub fn name(&self) -> (r: &'static str)
        ensures
            r@ == "seismic"@,
    {
        "seismic"
    }
}


/// A colormap selected by name.
#[derive(Clone, Copy, Debug, PartialEq, Eq, Structural)]
pub enum ColormapKind {
    Viridis,
    Plasma,
    Inferno,
    Magma,
    Cividis,
    Coolwarm,
    RdBu,
    Seismic,
}

/// The name of a selected colormap.
pub open spec fn spec_kind_name(k: ColormapKind) -> Seq<char> {
    match k {
        ColormapKind::Viridis => "viridis"@,
        ColormapKind::Plasma => "plasma"@,
        ColormapKind::Inferno => "inferno"@,
        ColormapKind::Magma => "magma"@,
        ColormapKind::Cividis => "cividis"@,
        ColormapKind::Coolwarm => "coolwarm"@,
        ColormapKind::RdBu => "rdbu"@,
        ColormapKind::Seismic => "seismic"@,
    }
}

/// The palette of a selected colormap.
pub open spec fn kind_palette(k: ColormapKind) -> Seq<(u8, u8, u8)> {
    match k {
        ColormapKind::Viridis => viridis_palette(),
        ColormapKind::Plasma => plasma_palette(),
        ColormapKind::Inferno => inferno_palette(),
        ColormapKind::Magma => magma_palette(),
        ColormapKind::Cividis => cividis_palette(),
        ColormapKind::Coolwarm => coolwarm_palette(),
        ColormapKind::RdBu => rdbu_palette(),
        ColormapKind::Seismic => seismic_palette(),
    }
}

impl ColormapKind {
    /// The name of the selected colormap.
    pub fn name(&self) -> (r: &'static str)
        ensures
            r@ == spec_kind_name(*self),
    {
        match self {
            ColormapKind::Viridis => Viridis.name(),
            ColormapKind::Plasma => Plasma.name(),
            ColormapKind::Inferno => Inferno.name(),
            ColormapKind::Magma => Magma.name(),
            ColormapKind::Cividis => Cividis.name(),
            ColormapKind::Coolwarm => Coolwarm.name(),
            ColormapKind::RdBu => RdBu.name(),
            ColormapKind::Seismic => Seismic.name(),
        }
    }

    /// Map a normalized fixed-point value to an RGBA colour.
    pub fn map_normalized(&self, value: i64) -> (r: [u8; 4])
        requires
            0 <= value <= SCALE,
        ensures
            ({
                let c = spec_map_normalized(kind_palette(*self), value as int);
                r[0] == c.0 && r[1] == c.1 && r[2] == c.2 && r[3] == c.3
            }),
    {
        match self {
            ColormapKind::Viridis => Viridis.map_normalized(value),
            ColormapKind::Plasma => Plasma.map_normalized(value),
            ColormapKind::Inferno => Inferno.map_normalized(value),
            ColormapKind::Magma => Magma.map_normalized(value),
            ColormapKind::Cividis => Cividis.map_normalized(value),
            ColormapKind::Coolwarm => Coolwarm.map_normalized(value),
            ColormapKind::RdBu => RdBu.map_normalized(value),
            ColormapKind::Seismic => Seismic.map_normalized(value),
        }
    }

    /// Map a raw value against a data range to an RGBA colour.
    pub fn map(&self, value: i64, min: i64, max: i64) -> (r: [u8; 4])
        requires
            -FX_VAL_MAX <= value <= FX_VAL_MAX,
            -FX_VAL_MAX <= min <= FX_VAL_MAX,
            -FX_VAL_MAX <= max <= FX_VAL_MAX,
        ensures
            ({
                let c = spec_map_normalized(
                    kind_palette(*self),
                    spec_norm_t(value as int, min as int, max as int),
                );
                r[0] == c.0 && r[1] == c.1 && r[2] == c.2 && r[3] == c.3
            }),
    {
        match self {
            ColormapKind::Viridis => Viridis.map(value, min, max),
            ColormapKind::Plasma => Plasma.map(value, min, max),
            ColormapKind::Inferno => Inferno.map(value, min, max),
            ColormapKind::Magma => Magma.map(value, min, max),
            ColormapKind::Cividis => Cividis.map(value, min, max),
            ColormapKind::Coolwarm => Coolwarm.map(value, min, max),
            ColormapKind::RdBu => RdBu.map(value, min, max),
            ColormapKind::Seismic => Seismic.map(value, min, max),
        }
    }
}

/// Select a colormap by case-insensitive name; any unknown name is
/// rejected.
pub fn get_colormap(name: &str) -> (r: Result<ColormapKind>)
    ensures
        match r {
            Ok(k) => (lower_seq(name@) == "viridis"@ && k == ColormapKind::Viridis) || (
            lower_seq(name@) == "plasma"@ && k == ColormapKind::Plasma) || (lower_seq(name@)
                == "inferno"@ && k == ColormapKind::Inferno) || (lower_seq(name@) == "magma"@
                && k == ColormapKind::Magma) || (lower_seq(name@) == "cividis"@ && k
                == ColormapKind::Cividis) || (lower_seq(name@) == "coolwarm"@ && k
                == ColormapKind::Coolwarm) || (lower_seq(name@) == "rdbu"@ && k
                == ColormapKind::RdBu) || (lower_seq(name@) == "seismic"@ && k
                == ColormapKind::Seismic),
            Err(e) => lower_seq(name@) != "viridis"@ && lower_seq(name@) != "plasma"@
                && lower_seq(name@) != "inferno"@ && lower_seq(name@) != "magma"@ && lower_seq(
                name@,
            ) != "cividis"@ && lower_seq(name@) != "coolwarm"@ && lower_seq(name@) != "rdbu"@
                && lower_seq(name@) != "seismic"@ && (e matches RossbyError::InvalidParameter {
                param,
                ..
            } && param@ == "colormap"@),
        },
{
    proof {
        reveal_strlit("viridis");
        reveal_strlit("plasma");
        reveal_strlit("inferno");
        reveal_strlit("magma");
        reveal_strlit("cividis");
        reveal_strlit("coolwarm");
        reveal_strlit("rdbu");
        reveal_strlit("seismic");
        reveal_strlit("colormap");
        reveal_strlit("Unknown colormap");
        assert(lower_seq("viridis"@) =~= "viridis"@);
        assert(lower_seq("plasma"@) =~= "plasma"@);
        assert(lower_seq("inferno"@) =~= "inferno"@);
        assert(lower_seq("magma"@) =~= "magma"@);
        assert(lower_seq("cividis"@) =~= "cividis"@);
        assert(lower_seq("coolwarm"@) =~= "coolwarm"@);
        assert(lower_seq("rdbu"@) =~= "rdbu"@);
        assert(lower_seq("seismic"@) =~= "seismic"@);
    }
    if str_eq_ignore_case(name, "viridis") {
        Ok(ColormapKind::Viridis)
    } else if str_eq_ignore_case(name, "plasma") {
        Ok(ColormapKind::Plasma)
    } else if str_eq_ignore_case(name, "inferno") {
        Ok(ColormapKind::Inferno)
    } else if str_eq_ignore_case(name, "magma") {
        Ok(ColormapKind::Magma)
    } else if str_eq_ignore_case(name, "cividis") {
        Ok(ColormapKind::Cividis)
    } else if str_eq_ignore_case(name, "coolwarm") {
        Ok(ColormapKind::Coolwarm)
    } else if str_eq_ignore_case(name, "rdbu") {
        Ok(ColormapKind::RdBu)
    } else if str_eq_ignore_case(name, "seismic") {
        Ok(ColormapKind::Seismic)
    } else {
        Err(
            RossbyError::InvalidParameter {
                param: "colormap".to_owned(),
                message: "Unknown colormap".to_owned(),
            },
        )
    }
}

} // verus!
