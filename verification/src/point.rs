//! The point-interpolation query: resolve the requested position to
//! fractional grid indices and interpolate each requested variable there.

use vstd::prelude::*;
use vstd::string::StrSliceExecFns;
use vstd::string::StringExecFns;
use crate::error::{Result, RossbyError};
use crate::fx::{SCALE, FX_VAL_MAX, ediv_i128};
use crate::interpolation::{
    get_interpolator, wf_grid, spec_prod, InterpolatorKind, MAX_AXIS, MAX_DIMS,
};
use crate::state::{AppState, lemma_key_index, var_names, dim_names};
use crate::text::{fmt_fixed, spec_fmt_fixed, str_eq};

verus! {

/// Query parameters of a `/point` request, already split out of the URL;
/// positions may come as physical values under file-specific or canonical
/// names, or as raw indices.
pub struct PointQuery {
    /// Longitude as a physical value, under the file-specific name.
    pub lon: Option<i64>,
    /// Latitude as a physical value, under the file-specific name.
    pub lat: Option<i64>,
    /// Time as a physical value, under the file-specific name.
    pub time: Option<i64>,
    /// Longitude as a physical value, under the prefixed canonical name.
    pub canonical_longitude: Option<i64>,
    /// Latitude as a physical value, under the prefixed canonical name.
    pub canonical_latitude: Option<i64>,
    /// Time as a physical value, under the prefixed canonical name.
    pub canonical_time: Option<i64>,
    /// Longitude as a raw index.
    pub longitude_index: Option<usize>,
    /// Latitude as a raw index.
    pub latitude_index: Option<usize>,
    /// Time as a raw index.
    pub time_raw_index: Option<usize>,
    /// Time as a raw index, in the deprecated spelling.
    pub time_index: Option<usize>,
    /// Comma-separated list of variables to interpolate.
    pub vars: String,
    /// Interpolation method name.
    pub interpolation: Option<String>,
}

/// Whether `f` is the fractional index of `coord` on the axis `c`: zero or
/// the final position when out of range, and otherwise placed
/// proportionally between a bracketing pair.
pub open spec fn frac_index_post(c: Seq<i64>, coord: i64, f: i64) -> bool {
    &&& c.len() > 0
    &&& 0 <= f <= (c.len() - 1) * SCALE
    &&& (coord <= c[0] ==> f == 0)
    &&& (coord >= c[c.len() - 1] && coord > c[0] ==> f == (c.len() - 1) * SCALE)
    &&& (c[0] < coord < c[c.len() - 1] ==> exists|lo: int|
        0 <= lo < c.len() - 1 && (#[trigger] c[lo]) <= coord < c[lo + 1] && f == lo * SCALE
            + ((coord - c[lo]) * (SCALE as int)) / (c[lo + 1] - c[lo]))
}

/// The fractional index of a physical value on a sorted axis: clamped to
/// the ends outside the range, and otherwise placed proportionally between
/// the bracketing pair found by bisection.
pub fn coord_to_index(coord: i64, coord_values: &Vec<i64>) -> (r: Result<i64>)
    requires
        coord_values@.len() <= MAX_AXIS,
        forall|i: int|
            0 <= i < coord_values@.len() ==> -FX_VAL_MAX <= #[trigger] coord_values@[i]
                <= FX_VAL_MAX,
        -FX_VAL_MAX <= coord <= FX_VAL_MAX,
    ensures
        match r {
            Ok(f) => frac_index_post(coord_values@, coord, f),
            Err(e) => coord_values@.len() == 0 && e is Interpolation,
        },
{
    proof {
        reveal_strlit("Empty coordinate values array");
    }
    let n = coord_values.len();
    if n == 0 {
        return Err(
            RossbyError::Interpolation {
                message: "Empty coordinate values array".to_owned(),
            },
        );
    }
    if coord <= coord_values[0] {
        return Ok(0);
    }
    if coord >= coord_values[n - 1] {
        proof {
            assert(0 <= ((n - 1) as int) * SCALE <= 1000000000000000) by (nonlinear_arith)
                requires
                    0 <= (n - 1) as int <= 1000000000,
                    SCALE == 1000000,
            ;
        }
        return Ok(((n - 1) as i64) * SCALE);
    }
    let mut low: usize = 0;
    let mut high: usize = n - 1;
    while high - low > 1
        invariant
            n == coord_values@.len(),
            0 <= low < high < n,
            coord_values@[low as int] <= coord,
            coord < coord_values@[high as int],
        decreases high - low,
    {
        let mid = low + (high - low) / 2;
        proof {
            vstd::arithmetic::div_mod::lemma_fundamental_div_mod((high - low) as int, 2);
        }
        if coord_values[mid] <= coord {
            low = mid;
        } else {
            high = mid;
        }
    }
    let clo = coord_values[low];
    let chi = coord_values[high];
    proof {
        assert(chi - clo >= 1);
        assert(0 <= ((coord - clo) as int) * (SCALE as int) <= 8000000000000000000000)
            by (nonlinear_arith)
            requires
                0 <= (coord - clo) as int <= 8000000000000000,
                SCALE == 1000000,
        ;
    }
    let num: i128 = ((coord - clo) as i128) * (SCALE as i128);
    let frac: i128 = ediv_i128(num, (chi - clo) as i128);
    proof {
        vstd::arithmetic::div_mod::lemma_div_pos_is_pos(num as int, (chi - clo) as int);
        assert(num < ((chi - clo) as int) * (SCALE as int)) by (nonlinear_arith)
            requires
                num == ((coord - clo) as int) * (SCALE as int),
                coord - clo < chi - clo,
                SCALE == 1000000,
                0 <= coord - clo,
        ;
        vstd::arithmetic::div_mod::lemma_multiply_divide_lt(
            num as int,
            (chi - clo) as int,
            SCALE as int,
        );
        assert(0 <= (low as int) * SCALE <= 999999999000000) by (nonlinear_arith)
            requires
                0 <= low as int <= 999999999,
                SCALE == 1000000,
        ;
        assert((low as int) * SCALE + frac <= ((n - 1) as int) * SCALE) by (nonlinear_arith)
            requires
                low as int <= (n - 2) as int,
                frac < SCALE,
                frac >= 0,
                n >= 2,
                SCALE == 1000000,
        ;
    }
    let f: i64 = (low as i64) * SCALE + (frac as i64);
    Ok(f)
}

/// How the resolved longitude source relates to the request: a raw index
/// in range wins; otherwise the physical value, file-specific name first.
pub open spec fn lon_src_rel(state: AppState, params: PointQuery, src: (
    Option<usize>,
    Option<i64>,
)) -> bool {
    match params.longitude_index {
        Some(i) => src.0 == Some(i) && src.1 is None && (match state.lon_coords() {
            Some(c) => (i as int) < c.len(),
            None => false,
        }),
        None => src.0 is None && src.1 == (if params.lon is Some {
            params.lon
        } else {
            params.canonical_longitude
        }) && src.1 is Some,
    }
}

/// How the resolved latitude source relates to the request.
pub open spec fn lat_src_rel(state: AppState, params: PointQuery, src: (
    Option<usize>,
    Option<i64>,
)) -> bool {
    match params.latitude_index {
        Some(i) => src.0 == Some(i) && src.1 is None && (match state.lat_coords() {
            Some(c) => (i as int) < c.len(),
            None => false,
        }),
        None => src.0 is None && src.1 == (if params.lat is Some {
            params.lat
        } else {
            params.canonical_latitude
        }) && src.1 is Some,
    }
}

/// How the resolved time index relates to the request: a raw index wins
/// over a physical value with an exact coordinate match, which wins over
/// the legacy index spelling; absent all three the index is zero.
pub open spec fn time_idx_rel(state: AppState, params: PointQuery, tidx: usize) -> bool {
    match params.time_raw_index {
        Some(i) => tidx == i && (i as int) < state.spec_time_size(),
        None => {
            let tv = if params.time is Some {
                params.time
            } else {
                params.canonical_time
            };
            match tv {
                Some(v) => exact_time_rel(state, v, tidx),
                None => match params.time_index {
                    Some(i) => tidx == i && (i as int) < state.spec_time_size(),
                    None => tidx == 0,
                },
            }
        },
    }
}

/// Whether `i` is the first exact match of `v` on the time axis.
pub open spec fn exact_time_rel(state: AppState, v: i64, i: usize) -> bool {
    match state.spec_resolve("time"@) {
        Some(t) => state.coord_idx(t) >= 0 && {
            let c = state.metadata.coordinates@[state.coord_idx(t)].values@;
            (i as int) < c.len() && c[i as int] == v && (forall|j: int|
                0 <= j < i ==> #[trigger] c[j] != v)
        },
        None => false,
    }
}

/// The kernel a request selects: the named one, bilinear by default.
pub open spec fn method_rel(params: PointQuery, m: InterpolatorKind) -> bool {
    let name = match params.interpolation {
        Some(n) => crate::text::lower_seq(n@),
        None => "bilinear"@,
    };
    ||| (name == "nearest"@ && m == InterpolatorKind::Nearest)
    ||| (name == "bilinear"@ && m == InterpolatorKind::Bilinear)
    ||| (name == "bicubic"@ && m == InterpolatorKind::Bicubic)
}

/// Marker that groups one point evaluation's intermediate values.
pub open spec fn point_witness(indices: Seq<i64>, m: InterpolatorKind, lon_f: i64, lat_f: i64)
    -> bool {
    true
}

/// How a returned value relates to the request: it is the selected
/// kernel's result for the variable at the fractional indices that the
/// request's position resolves to.
pub open spec fn point_value_rel(
    state: AppState,
    params: PointQuery,
    var: Seq<char>,
    tidx: usize,
    value: i64,
) -> bool {
    exists|indices: Seq<i64>, m: InterpolatorKind, lon_f: i64, lat_f: i64|
        {
            &&& #[trigger] point_witness(indices, m, lon_f, lat_f)
            &&& state.var_idx(var) >= 0
            &&& {
                let v = state.metadata.variables@[state.var_idx(var)];
                let vals = state.data@[state.data_idx(v.name@)].values@;
                let latp = state.spec_lat_axis(v.dimensions@);
                let lonp = state.spec_lon_axis(v.dimensions@);
                let timep = state.spec_time_axis(v.dimensions@);
                &&& latp >= 0
                &&& lonp >= 0
                &&& method_rel(params, m)
                &&& (match params.longitude_index {
                    Some(i) => lon_f == i * SCALE,
                    None => {
                        let lv = (if params.lon is Some {
                            params.lon
                        } else {
                            params.canonical_longitude
                        })->Some_0;
                        state.lon_coords() is Some && frac_index_post(
                            state.lon_coords()->Some_0,
                            lv,
                            lon_f,
                        )
                    },
                })
                &&& (match params.latitude_index {
                    Some(i) => lat_f == i * SCALE,
                    None => {
                        let lv = (if params.lat is Some {
                            params.lat
                        } else {
                            params.canonical_latitude
                        })->Some_0;
                        state.lat_coords() is Some && frac_index_post(
                            state.lat_coords()->Some_0,
                            lv,
                            lat_f,
                        )
                    },
                })
                &&& indices.len() == v.shape@.len()
                &&& (forall|k: int|
                    0 <= k < indices.len() ==> #[trigger] indices[k] == (if k == lonp {
                        lon_f
                    } else if k == latp {
                        lat_f
                    } else if k == timep {
                        (tidx * SCALE) as i64
                    } else {
                        0i64
                    }))
                &&& (match m {
                    InterpolatorKind::Nearest => value == crate::interpolation::spec_nearest(
                        vals,
                        v.shape@,
                        indices,
                    ),
                    InterpolatorKind::Bilinear => value as int
                        == crate::interpolation::spec_bilinear(vals, v.shape@, indices, 0),
                    InterpolatorKind::Bicubic => value as int
                        == crate::interpolation::spec_cubic(vals, v.shape@, indices, 0),
                })
            }
        }
}

/// Whether the request supplies a usable longitude: a raw index within
/// the axis, or a physical value within its range.
pub open spec fn lon_gate(state: AppState, params: PointQuery) -> bool {
    match params.longitude_index {
        Some(i) => state.lon_coords() matches Some(c) && (i as int) < c.len(),
        None => (params.lon is Some || params.canonical_longitude is Some) && (
        state.lon_coords() matches Some(c) && c.len() > 0 && {
            let lv = (if params.lon is Some {
                params.lon
            } else {
                params.canonical_longitude
            })->Some_0;
            c[0] <= lv <= c[c.len() - 1]
        }),
    }
}

/// Whether the request supplies a usable latitude.
pub open spec fn lat_gate(state: AppState, params: PointQuery) -> bool {
    match params.latitude_index {
        Some(i) => state.lat_coords() matches Some(c) && (i as int) < c.len(),
        None => (params.lat is Some || params.canonical_latitude is Some) && (
        state.lat_coords() matches Some(c) && c.len() > 0 && {
            let lv = (if params.lat is Some {
                params.lat
            } else {
                params.canonical_latitude
            })->Some_0;
            c[0] <= lv <= c[c.len() - 1]
        }),
    }
}

/// Whether the request supplies a usable time selection under the
/// precedence order: a raw index in bounds; else an exact physical match;
/// else a legacy index in bounds; else nothing, meaning index zero.
pub open spec fn time_gate(state: AppState, params: PointQuery) -> bool {
    match params.time_raw_index {
        Some(i) => (i as int) < state.spec_time_size(),
        None => {
            let tv = if params.time is Some {
                params.time
            } else {
                params.canonical_time
            };
            match tv {
                Some(v) => state.spec_resolve("time"@) matches Some(t) && state.coord_idx(t)
                    >= 0 && (exists|j: int|
                    0 <= j < state.metadata.coordinates@[state.coord_idx(t)].values@.len()
                        && state.metadata.coordinates@[state.coord_idx(t)].values@[j] == v),
                None => match params.time_index {
                    Some(i) => (i as int) < state.spec_time_size(),
                    None => true,
                },
            }
        },
    }
}

/// The conditions under which a point query succeeds: usable positions,
/// a usable time selection, a non-empty list of known variables each with
/// horizontal axes and a bounded axis count, and a known kernel that every
/// requested grid supports.
pub open spec fn point_ok(state: AppState, params: PointQuery) -> bool {
    &&& lon_gate(state, params)
    &&& lat_gate(state, params)
    &&& time_gate(state, params)
    &&& crate::data::spec_vars_of(params.vars@).len() > 0
    &&& (forall|t: int|
        0 <= t < crate::data::spec_vars_of(params.vars@).len() ==> {
            let var = #[trigger] crate::data::spec_vars_of(params.vars@)[t];
            state.var_idx(var) >= 0 && {
                let v = state.metadata.variables@[state.var_idx(var)];
                state.spec_lat_axis(v.dimensions@) >= 0 && state.spec_lon_axis(
                    v.dimensions@,
                ) >= 0 && v.shape@.len() <= MAX_DIMS
            }
        })
    &&& (exists|m: InterpolatorKind| method_rel(params, m))
    &&& (method_rel(params, InterpolatorKind::Bicubic) ==> forall|t: int, k: int|
        0 <= t < crate::data::spec_vars_of(params.vars@).len() && 0 <= k
            < state.metadata.variables@[state.var_idx(
            #[trigger] crate::data::spec_vars_of(params.vars@)[t],
        )].shape@.len() ==> #[trigger] state.metadata.variables@[state.var_idx(
            crate::data::spec_vars_of(params.vars@)[t],
        )].shape@[k] >= 4)
}

/// Interpolate each requested variable at the requested position; the
/// result pairs each variable name with the selected kernel's value there,
/// in request order.  A well-formed request is owed an answer, and an
/// out-of-range raw index is owed its rejection.
pub fn process_point_query(state: &AppState, params: &PointQuery) -> (r: Result<
    Vec<(String, i64)>,
>)
    requires
        state.wf(),
    ensures
        point_ok(*state, *params) ==> r is Ok,
        (params.longitude_index matches Some(i) && state.lon_coords() matches Some(c) && i
            as int >= c.len()) ==> (r matches Err(RossbyError::IndexOutOfBounds { param, .. })
            && param@ == "__longitude_index"@),
        lon_gate(*state, *params) && (params.latitude_index matches Some(i)
            && state.lat_coords() matches Some(c) && i as int >= c.len()) ==> (r matches Err(
            RossbyError::IndexOutOfBounds { param, .. },
        ) && param@ == "__latitude_index"@),
        match r {
            Ok(pairs) => exists|tidx: usize|
                {
                    &&& #[trigger] time_idx_rel(*state, *params, tidx)
                    &&& pairs@.len() == crate::data::spec_vars_of(params.vars@).len()
                    &&& pairs@.len() >= 1
                    &&& (forall|t: int|
                        0 <= t < pairs@.len() ==> (#[trigger] pairs@[t]).0@
                            == crate::data::spec_vars_of(params.vars@)[t]
                            && point_value_rel(
                            *state,
                            *params,
                            pairs@[t].0@,
                            tidx,
                            pairs@[t].1,
                        ))
                },
            Err(e) => e is InvalidParameter || e is InvalidCoordinates || e
                is IndexOutOfBounds || e is VariableNotFound || e is DataNotFound || e
                is PhysicalValueNotFound || e is DimensionNotFound || e is Interpolation,
        },
        r matches Err(RossbyError::InvalidParameter { param, .. }) && param@ == "vars"@
            ==> crate::data::spec_vars_of(params.vars@).len() == 0,
        r matches Err(RossbyError::InvalidParameter { param, .. }) && param@ == "longitude"@
            ==> params.longitude_index is None && params.lon is None
            && params.canonical_longitude is None,
        r matches Err(RossbyError::InvalidParameter { param, .. }) && param@ == "latitude"@
            ==> params.latitude_index is None && params.lat is None
            && params.canonical_latitude is None,
        r matches Err(RossbyError::VariableNotFound { name }) ==> state.var_idx(name@) < 0,
{
    proof {
        reveal_strlit("longitude");
        reveal_strlit("latitude");
        reveal_strlit("vars");
        reveal_strlit("time");
        reveal_strlit("lat");
        reveal_strlit("lon");
        reveal_strlit("__longitude_index");
        reveal_strlit("__latitude_index");
        reveal_strlit("__time_index");
        reveal_strlit("time_index");
        reveal_strlit("bilinear");
        reveal_strlit("Missing longitude coordinate");
        reveal_strlit("Missing latitude coordinate");
        reveal_strlit("No variables specified");
        reveal_strlit("Longitude coordinates not found");
        reveal_strlit("Latitude coordinates not found");
        reveal_strlit("Variable has no latitude axis");
        reveal_strlit("Variable has no longitude axis");
        reveal_strlit("The requested position is outside the axis range");
        reveal_strlit("index");
        reveal_strlit("Variable has too many axes");
        reveal_strlit("interpolation");
        assert("longitude"@.len() == 9 && "latitude"@.len() == 8 && "vars"@.len() == 4
            && "interpolation"@.len() == 13);
        assert("__longitude_index"@.len() == 17 && "__latitude_index"@.len() == 16
            && "__time_index"@.len() == 12 && "time_index"@.len() == 10
            && "index"@.len() == 5);
        assert("longitude"@ != "vars"@ && "longitude"@ != "latitude"@ && "latitude"@
            != "vars"@ && "interpolation"@ != "vars"@ && "interpolation"@ != "longitude"@
            && "interpolation"@ != "latitude"@);
    }
    // Resolve the longitude position: a raw index wins over physical values.
    let lon_spec: (Option<usize>, Option<i64>) = match params.longitude_index {
        Some(idx) => {
            let lon_coords = match state.get_lon_coords() {
                Some(c) => c,
                None => {
                    return Err(
                        RossbyError::DataNotFound {
                            message: "Longitude coordinates not found".to_owned(),
                        },
                    );
                },
            };
            if idx >= lon_coords.len() {
                let m = if lon_coords.len() > 0 {
                    lon_coords.len() - 1
                } else {
                    0
                };
                return Err(
                    RossbyError::IndexOutOfBounds {
                        param: "__longitude_index".to_owned(),
                        value: "index".to_owned(),
                        max: m,
                    },
                );
            }
            proof {
                lemma_coords_by_names_bounded(
                    state,
                    seq!["lon"@, "_longitude"@, "longitude"@],
                );
            }
            (Some(idx), None)
        },
        None => {
            let v = match (params.lon, params.canonical_longitude) {
                (Some(v), _) => v,
                (None, Some(v)) => v,
                (None, None) => {
                    return Err(
                        RossbyError::InvalidParameter {
                            param: "longitude".to_owned(),
                            message: "Missing longitude coordinate".to_owned(),
                        },
                    );
                },
            };
            (None, Some(v))
        },
    };
    let lat_spec: (Option<usize>, Option<i64>) = match params.latitude_index {
        Some(idx) => {
            let lat_coords = match state.get_lat_coords() {
                Some(c) => c,
                None => {
                    return Err(
                        RossbyError::DataNotFound {
                            message: "Latitude coordinates not found".to_owned(),
                        },
                    );
                },
            };
            if idx >= lat_coords.len() {
                let m = if lat_coords.len() > 0 {
                    lat_coords.len() - 1
                } else {
                    0
                };
                return Err(
                    RossbyError::IndexOutOfBounds {
                        param: "__latitude_index".to_owned(),
                        value: "index".to_owned(),
                        max: m,
                    },
                );
            }
            proof {
                lemma_coords_by_names_bounded(
                    state,
                    seq!["lat"@, "_latitude"@, "latitude"@],
                );
            }
            (Some(idx), None)
        },
        None => {
            let v = match (params.lat, params.canonical_latitude) {
                (Some(v), _) => v,
                (None, Some(v)) => v,
                (None, None) => {
                    return Err(
                        RossbyError::InvalidParameter {
                            param: "latitude".to_owned(),
                            message: "Missing latitude coordinate".to_owned(),
                        },
                    );
                },
            };
            (None, Some(v))
        },
    };
    // A raw index wins over a physical value, which wins over the legacy
    // index spelling.
    let time_index: usize = match params.time_raw_index {
        Some(idx) => {
            if idx >= state.time_dim_size() {
                let m = if state.time_dim_size() > 0 {
                    state.time_dim_size() - 1
                } else {
                    0
                };
                return Err(
                    RossbyError::IndexOutOfBounds {
                        param: "__time_index".to_owned(),
                        value: "index".to_owned(),
                        max: m,
                    },
                );
            }
            idx
        },
        None => {
            let tv = match (params.time, params.canonical_time) {
                (Some(v), _) => Some(v),
                (None, Some(v)) => Some(v),
                (None, None) => None,
            };
            match tv {
                Some(v) => state.find_coordinate_index_exact("time", v)?,
                None => match params.time_index {
                    Some(idx) => {
                        if idx >= state.time_dim_size() {
                            let m = if state.time_dim_size() > 0 {
                                state.time_dim_size() - 1
                            } else {
                                0
                            };
                            return Err(
                                RossbyError::IndexOutOfBounds {
                                    param: "time_index".to_owned(),
                                    value: "index".to_owned(),
                                    max: m,
                                },
                            );
                        }
                        idx
                    },
                    None => 0,
                },
            }
        },
    };
    proof {
        lemma_time_dim_bounded(state);
        if state.spec_resolve("time"@) is Some {
            let t = state.spec_resolve("time"@)->Some_0;
            if state.coord_idx(t) >= 0 {
                crate::state::lemma_key_index(
                    crate::state::coord_names(state.metadata.coordinates@),
                    t,
                );
            }
        }
    }
    let variables = crate::data::parse_vars(params.vars.as_str());
    if variables.len() == 0 {
        return Err(
            RossbyError::InvalidParameter {
                param: "vars".to_owned(),
                message: "No variables specified".to_owned(),
            },
        );
    }
    proof {
        reveal_strlit("nearest");
        reveal_strlit("bicubic");
        assert(crate::text::lower_seq("bilinear"@) =~= "bilinear"@);
    }
    let method: InterpolatorKind = match &params.interpolation {
        Some(m) => get_interpolator(m.as_str())?,
        None => get_interpolator("bilinear")?,
    };
    proof {
        assert(method_rel(*params, method));
    }
    let mut out: Vec<(String, i64)> = Vec::new();
    let nv = variables.len();
    let mut j: usize = 0;
    while j < nv
        invariant
            state.wf(),
            nv == variables@.len(),
            variables@.map_values(|t: String| t@) == crate::data::spec_vars_of(
                params.vars@,
            ),
            lon_src_rel(*state, *params, lon_spec),
            lat_src_rel(*state, *params, lat_spec),
            time_idx_rel(*state, *params, time_index),
            method_rel(*params, method),
            0 <= j <= nv,
            out@.len() == j,
            forall|t: int|
                0 <= t < j ==> (#[trigger] out@[t]).0@ == variables@[t]@
                    && point_value_rel(*state, *params, out@[t].0@, time_index, out@[t].1),
            time_index <= MAX_AXIS,
            lon_spec.0 is Some || lon_spec.1 is Some,
            lat_spec.0 is Some || lat_spec.1 is Some,
            match lon_spec.0 {
                Some(v) => v <= MAX_AXIS,
                None => true,
            },
            match lat_spec.0 {
                Some(v) => v <= MAX_AXIS,
                None => true,
            },
        decreases nv - j,
    {
        proof {
            reveal_strlit("lat");
            reveal_strlit("lon");
            reveal_strlit("latitude");
            reveal_strlit("longitude");
            reveal_strlit("Variable has no latitude axis");
            reveal_strlit("Variable has no longitude axis");
            reveal_strlit("Longitude coordinates not found");
            reveal_strlit("Latitude coordinates not found");
            reveal_strlit("The requested position is outside the axis range");
            reveal_strlit("Variable has too many axes");
            reveal_strlit("time");
        }
        let var_name = variables[j].as_str();
        proof {
            assert(crate::data::spec_vars_of(params.vars@)[j as int]
                == variables@[j as int]@);
        }
        if !state.has_variable(var_name) {
            return Err(RossbyError::VariableNotFound { name: variables[j].clone() });
        }
        let var_meta = state.get_variable_metadata_checked(var_name)?;
        let ghost vi = state.var_idx(var_name@);
        let ghost v = state.metadata.variables@[vi];
        proof {
            lemma_key_index(var_names(state.metadata.variables@), var_name@);
            assert(state.wf_variable(state.metadata.variables@[vi]));
            assert forall|t: int| 0 <= t < v.shape@.len() implies 1 <= #[trigger] v.shape@[t]
                && v.shape@[t] <= MAX_AXIS by {
                assert(state.dim_idx(v.dimensions@[t]@) >= 0 && state.metadata.dimensions@[
                    state.dim_idx(v.dimensions@[t]@)].size == v.shape@[t]);
                lemma_key_index(dim_names(state.metadata.dimensions@), v.dimensions@[t]@);
            }
        }
        let latp = match state.find_lat_axis(&var_meta.dimensions) {
            Some(i) => i,
            None => {
                return Err(
                    RossbyError::DataNotFound {
                        message: "Variable has no latitude axis".to_owned(),
                    },
                );
            },
        };
        let lonp = match state.find_lon_axis(&var_meta.dimensions) {
            Some(i) => i,
            None => {
                return Err(
                    RossbyError::DataNotFound {
                        message: "Variable has no longitude axis".to_owned(),
                    },
                );
            },
        };
        let timep = state.find_time_axis(&var_meta.dimensions);
        let var_data = state.get_variable_checked(var_meta.name.as_str())?;
        let lon_f: i64 = match lon_spec.0 {
            Some(idx) => {
                proof {
                    assert(0 <= (idx as int) * SCALE <= 1000000000000000) by (nonlinear_arith)
                        requires
                            0 <= idx as int <= 1000000000,
                            SCALE == 1000000,
                    ;
                }
                (idx as i64) * SCALE
            },
            None => {
                let lv = lon_spec.1.unwrap();
                let lon_coords = match state.get_lon_coords() {
                    Some(c) => c,
                    None => {
                        return Err(
                            RossbyError::DataNotFound {
                                message: "Longitude coordinates not found".to_owned(),
                            },
                        );
                    },
                };
                if lon_coords.len() == 0 {
                    return Err(
                        RossbyError::DataNotFound {
                            message: "Longitude coordinates not found".to_owned(),
                        },
                    );
                }
                if lv < lon_coords[0] || lv > lon_coords[lon_coords.len() - 1] {
                    return Err(
                        RossbyError::InvalidCoordinates {
                            message: "The requested position is outside the axis range".to_owned(),
                        },
                    );
                }
                proof {
                    lemma_coords_by_names_bounded(
                        state,
                        seq!["lon"@, "_longitude"@, "longitude"@],
                    );
                }
                coord_to_index(lv, lon_coords)?
            },
        };
        let lat_f: i64 = match lat_spec.0 {
            Some(idx) => {
                proof {
                    assert(0 <= (idx as int) * SCALE <= 1000000000000000) by (nonlinear_arith)
                        requires
                            0 <= idx as int <= 1000000000,
                            SCALE == 1000000,
                    ;
                }
                (idx as i64) * SCALE
            },
            None => {
                let lv = lat_spec.1.unwrap();
                let lat_coords = match state.get_lat_coords() {
                    Some(c) => c,
                    None => {
                        return Err(
                            RossbyError::DataNotFound {
                                message: "Latitude coordinates not found".to_owned(),
                            },
                        );
                    },
                };
                if lat_coords.len() == 0 {
                    return Err(
                        RossbyError::DataNotFound {
                            message: "Latitude coordinates not found".to_owned(),
                        },
                    );
                }
                if lv < lat_coords[0] || lv > lat_coords[lat_coords.len() - 1] {
                    return Err(
                        RossbyError::InvalidCoordinates {
                            message: "The requested position is outside the axis range".to_owned(),
                        },
                    );
                }
                proof {
                    lemma_coords_by_names_bounded(
                        state,
                        seq!["lat"@, "_latitude"@, "latitude"@],
                    );
                }
                coord_to_index(lv, lat_coords)?
            },
        };
        let nd = var_meta.shape.len();
        if nd > MAX_DIMS {
            return Err(
                RossbyError::DataNotFound {
                    message: "Variable has too many axes".to_owned(),
                },
            );
        }
        let mut indices: Vec<i64> = Vec::new();
        let mut shape: Vec<usize> = Vec::new();
        let mut t: usize = 0;
        while t < nd
            invariant
                *var_meta == v,
                nd == v.shape@.len(),
                nd == v.dimensions@.len(),
                latp < nd,
                lonp < nd,
                latp as int == state.spec_lat_axis(v.dimensions@),
                lonp as int == state.spec_lon_axis(v.dimensions@),
                match timep {
                    Some(tp) => tp as int == state.spec_time_axis(v.dimensions@),
                    None => state.spec_time_axis(v.dimensions@) == -1,
                },
                time_index <= MAX_AXIS,
                -2000000000000000 <= lon_f <= 2000000000000000,
                -2000000000000000 <= lat_f <= 2000000000000000,
                forall|u: int|
                    0 <= u < v.shape@.len() ==> 1 <= #[trigger] v.shape@[u] <= MAX_AXIS,
                0 <= t <= nd,
                indices@.len() == t,
                shape@.len() == t,
                forall|u: int| 0 <= u < t ==> #[trigger] shape@[u] == v.shape@[u],
                forall|u: int|
                    0 <= u < t ==> #[trigger] indices@[u] == (if u == lonp as int {
                        lon_f
                    } else if u == latp as int {
                        lat_f
                    } else if u == state.spec_time_axis(v.dimensions@) {
                        (time_index * SCALE) as i64
                    } else {
                        0i64
                    }),
            decreases nd - t,
        {
            shape.push(var_meta.shape[t]);
            if t == lonp {
                indices.push(lon_f);
            } else if t == latp {
                indices.push(lat_f);
            } else {
                match timep {
                    Some(tp) => {
                        if t == tp {
                            proof {
                                assert(0 <= (time_index as int) * SCALE <= 1000000000000000)
                                    by (nonlinear_arith)
                                    requires
                                        0 <= time_index as int <= 1000000000,
                                        SCALE == 1000000,
                                ;
                            }
                            indices.push((time_index as i64) * SCALE);
                        } else {
                            indices.push(0);
                        }
                    },
                    None => {
                        indices.push(0);
                    },
                }
            }
            t += 1;
        }
        proof {
            assert(shape@ =~= v.shape@);
            assert(state.wf_variable(state.metadata.variables@[vi]));
            assert(wf_grid(var_data.values@, shape@));
        }
        let value = method.interpolate(&var_data.values, &shape, &indices)?;
        proof {
            assert(point_witness(indices@, method, lon_f, lat_f));
            assert(point_value_rel(
                *state,
                *params,
                variables@[j as int]@,
                time_index,
                value,
            ));
        }
        out.push((variables[j].clone(), value));
        j += 1;
    }
    proof {
        assert(time_idx_rel(*state, *params, time_index));
    }
    Ok(out)
}

/// The time dimension's size is bounded in a well-formed state.
proof fn lemma_time_dim_bounded(state: &AppState)
    requires
        state.wf(),
    ensures
        state.dim_idx("time"@) >= 0 ==> state.metadata.dimensions@[state.dim_idx(
            "time"@,
        )].size <= MAX_AXIS,
{
    if state.dim_idx("time"@) >= 0 {
        crate::state::lemma_key_index(
            crate::state::dim_names(state.metadata.dimensions@),
            "time"@,
        );
    }
}

/// Coordinate arrays found by name in a well-formed state hold bounded
/// values and have bounded length.
pub proof fn lemma_coords_by_names_bounded(state: &AppState, names: Seq<Seq<char>>)
    requires
        state.wf(),
    ensures
        match state.coords_by_names(names) {
            Some(c) => (forall|i: int|
                0 <= i < c.len() ==> -FX_VAL_MAX <= #[trigger] c[i] <= FX_VAL_MAX) && c.len()
                <= MAX_AXIS,
            None => true,
        },
    decreases names.len(),
{
    if names.len() > 0 {
        match state.spec_resolve(names[0]) {
            Some(t) => {
                if state.coord_idx(t) >= 0 {
                    crate::state::lemma_key_index(
                        crate::state::coord_names(state.metadata.coordinates@),
                        t,
                    );
                    let ci = state.coord_idx(t);
                    let c = state.metadata.coordinates@[ci].values@;
                    assert(c.len() <= MAX_AXIS);
                    assert forall|i: int| 0 <= i < c.len() implies -FX_VAL_MAX
                        <= #[trigger] c[i] <= FX_VAL_MAX by {
                        assert(state.metadata.coordinates@[ci].values@[i] == c[i]);
                    }
                } else {
                    lemma_coords_by_names_bounded(state, names.subrange(1, names.len() as int));
                }
            },
            None => {
                lemma_coords_by_names_bounded(state, names.subrange(1, names.len() as int));
            },
        }
    }
}

/// The JSON body of a point response: each variable name paired with its
/// value.
pub open spec fn spec_point_body(pairs: Seq<(Seq<char>, i64)>) -> Seq<char>
    decreases pairs.len(),
{
    if pairs.len() == 0 {
        "{}"@
    } else if pairs.len() == 1 {
        "{\""@ + pairs[0].0 + "\":"@ + spec_fmt_fixed(pairs[0].1 as int) + "}"@
    } else {
        spec_point_body(pairs.drop_last()).drop_last() + ",\""@ + pairs.last().0 + "\":"@
            + spec_fmt_fixed(pairs.last().1 as int) + "}"@
    }
}

/// Render a point response as JSON.
pub fn point_response_body(pairs: &Vec<(String, i64)>) -> (r: String)
    ensures
        r@ == spec_point_body(
            pairs@.map_values(|p: (String, i64)| (p.0@, p.1)),
        ),
{
    proof {
        reveal_strlit("{}");
        reveal_strlit("{\"");
        reveal_strlit(",\"");
        reveal_strlit("\":");
        reveal_strlit("}");
    }
    let ghost gp = pairs@.map_values(|p: (String, i64)| (p.0@, p.1));
    proof {
        assert(forall|j: int|
            0 <= j < pairs@.len() ==> #[trigger] gp[j] == (pairs@[j].0@, pairs@[j].1));
    }
    if pairs.len() == 0 {
        return "{}".to_owned();
    }
    let mut s = String::new();
    let mut i: usize = 0;
    while i < pairs.len()
        invariant
            0 < pairs@.len(),
            gp.len() == pairs@.len(),
            forall|j: int|
                0 <= j < pairs@.len() ==> #[trigger] gp[j] == (pairs@[j].0@, pairs@[j].1),
            0 <= i <= pairs@.len(),
            i > 0 ==> s@ + "}"@ == spec_point_body(gp.subrange(0, i as int)),
            i == 0 ==> s@ == Seq::<char>::empty(),
        decreases pairs@.len() - i,
    {
        proof {
            reveal_strlit("{\"");
            reveal_strlit(",\"");
            reveal_strlit("\":");
            reveal_strlit("}");
        }
        if i > 0 {
            s.append(",\"");
        } else {
            s.append("{\"");
        }
        s.append(pairs[i].0.as_str());
        s.append("\":");
        let t = fmt_fixed(pairs[i].1);
        s.append(t.as_str());
        proof {
            let pre = gp.subrange(0, i + 1);
            assert(pre.drop_last() =~= gp.subrange(0, i as int));
            assert(pre.last() == gp[i as int]);
            assert(s@ + "}"@ =~= spec_point_body(pre));
        }
        i += 1;
    }
    s.append("}");
    proof {
        assert(gp.subrange(0, gp.len() as int) =~= gp);
        assert(s@ =~= spec_point_body(gp));
    }
    s
}

} // verus!
