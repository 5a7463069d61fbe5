//! Geographic utilities: map projections, bounding boxes, the dateline
//! seam, and grid resampling.

use vstd::prelude::*;
use vstd::string::StrSliceExecFns;
use vstd::string::StringExecFns;
use crate::error::{Result, RossbyError};
use crate::fx::{SCALE, FX_VAL_MAX, FULL_TURN, norm_lon, normalize_longitude, ediv_i128};
use crate::grid::Grid2;
use crate::interpolation::MAX_AXIS;
use crate::text::{
    lower_seq, spec_find, spec_parse_fixed, spec_split, str_eq_ignore_case, str_starts_with,
    find_char, parse_fixed, split_by,
};

verus! {

/// A map centering for rendered imagery.
#[derive(Clone, Copy, Debug, PartialEq, Eq, Structural)]
pub enum MapProjection {
    /// Centered on the Greenwich meridian.
    Eurocentric,
    /// Centered on the Americas (-90 degrees).
    Americas,
    /// Centered on the dateline.
    Pacific,
    /// Centered on a custom longitude (fixed-point).
    Custom(i64),
}

/// The center longitude of a projection.
pub open spec fn spec_center_longitude(p: MapProjection) -> int {
    match p {
        MapProjection::Eurocentric => 0,
        MapProjection::Americas => -90000000,
        MapProjection::Pacific => 180000000,
        MapProjection::Custom(lon) => lon as int,
    }
}

/// A projection whose center is a bounded fixed-point longitude.
pub open spec fn proj_wf(p: MapProjection) -> bool {
    -FX_VAL_MAX <= spec_center_longitude(p) <= FX_VAL_MAX
}

/// The projection a `center` parameter denotes: one of the named
/// centerings, or `custom:<longitude>`.
pub open spec fn spec_parse_projection(s: Seq<char>) -> Option<MapProjection> {
    if lower_seq(s) == "eurocentric"@ {
        Some(MapProjection::Eurocentric)
    } else if lower_seq(s) == "americas"@ {
        Some(MapProjection::Americas)
    } else if lower_seq(s) == "pacific"@ {
        Some(MapProjection::Pacific)
    } else if crate::text::spec_starts_with(s, "custom:"@) && spec_split(s, ':').len() == 2
        && spec_parse_fixed(spec_split(s, ':')[1]) is Some {
        Some(MapProjection::Custom(spec_parse_fixed(spec_split(s, ':')[1])->Some_0))
    } else {
        None
    }
}

impl MapProjection {
    /// The center longitude of this projection, in fixed-point degrees.
    pub fn center_longitude(&self) -> (r: i64)
        ensures
            r == spec_center_longitude(*self),
    {
        match self {
            MapProjection::Eurocentric => 0,
            MapProjection::Americas => -90000000,
            MapProjection::Pacific => 180000000,
            MapProjection::Custom(lon) => *lon,
        }
    }

    /// Parse a projection name; unknown names are rejected.
    pub fn parse_projection(s: &str) -> (r: Result<MapProjection>)
        ensures
            match r {
                Ok(p) => spec_parse_projection(s@) == Some(p) && proj_wf(p),
                Err(e) => spec_parse_projection(s@) is None && (e matches
                    RossbyError::InvalidParameter { param, .. } && param@ == "center"@),
            },
    {
        proof {
            reveal_strlit("eurocentric");
            reveal_strlit("americas");
            reveal_strlit("pacific");
            reveal_strlit("custom:");
            reveal_strlit("center");
            reveal_strlit("Unknown or malformed map projection");
            assert(lower_seq("eurocentric"@) =~= "eurocentric"@);
            assert(lower_seq("americas"@) =~= "americas"@);
            assert(lower_seq("pacific"@) =~= "pacific"@);
        }
        if str_eq_ignore_case(s, "eurocentric") {
            return Ok(MapProjection::Eurocentric);
        }
        if str_eq_ignore_case(s, "americas") {
            return Ok(MapProjection::Americas);
        }
        if str_eq_ignore_case(s, "pacific") {
            return Ok(MapProjection::Pacific);
        }
        if str_starts_with(s, "custom:") {
            let parts = split_by(s, ':');
            if parts.len() == 2 {
                match parse_fixed(parts[1].as_str()) {
                    Some(center_lon) => {
                        proof {
                            crate::text::lemma_parse_fixed_bounded(parts@[1]@);
                        }
                        return Ok(MapProjection::Custom(center_lon));
                    },
                    None => {},
                }
            }
        }
        Err(
            RossbyError::InvalidParameter {
                param: "center".to_owned(),
                message: "Unknown or malformed map projection".to_owned(),
            },
        )
    }
}

/// The bounding box a `bbox` parameter denotes: four comma-separated
/// numbers `min_lon,min_lat,max_lon,max_lat` with latitudes within
/// `[-90, 90]` and not inverted; longitudes are unconstrained.
pub open spec fn spec_parse_bbox(s: Seq<char>) -> Option<(i64, i64, i64, i64)> {
    let parts = spec_split(s, ',');
    if parts.len() != 4 {
        None
    } else {
        match (
            spec_parse_fixed(parts[0]),
            spec_parse_fixed(parts[1]),
            spec_parse_fixed(parts[2]),
            spec_parse_fixed(parts[3]),
        ) {
            (Some(min_lon), Some(min_lat), Some(max_lon), Some(max_lat)) => {
                if min_lat > max_lat || min_lat < -90000000 || min_lat > 90000000 || max_lat
                    < -90000000 || max_lat > 90000000 {
                    None
                } else {
                    Some((min_lon, min_lat, max_lon, max_lat))
                }
            },
            _ => None,
        }
    }
}

/// Parse a bounding box parameter.
pub fn parse_bbox(bbox: &str) -> (r: Result<(i64, i64, i64, i64)>)
    ensures
        match r {
            Ok(t) => spec_parse_bbox(bbox@) == Some(t),
            Err(e) => spec_parse_bbox(bbox@) is None && (e matches
                RossbyError::InvalidParameter { param, .. } && param@ == "bbox"@),
        },
{
    proof {
        reveal_strlit("bbox");
        reveal_strlit("Bounding box must be 'min_lon,min_lat,max_lon,max_lat'");
        reveal_strlit("Bounding box has a malformed number");
        reveal_strlit("min_lat must be at most max_lat");
        reveal_strlit("Latitude must be in the range -90 to 90");
    }
    let parts = split_by(bbox, ',');
    if parts.len() != 4 {
        return Err(
            RossbyError::InvalidParameter {
                param: "bbox".to_owned(),
                message: "Bounding box must be 'min_lon,min_lat,max_lon,max_lat'".to_owned(),
            },
        );
    }
    let min_lon = match parse_fixed(parts[0].as_str()) {
        Some(v) => v,
        None => {
            return Err(
                RossbyError::InvalidParameter {
                    param: "bbox".to_owned(),
                    message: "Bounding box has a malformed number".to_owned(),
                },
            );
        },
    };
    let min_lat = match parse_fixed(parts[1].as_str()) {
        Some(v) => v,
        None => {
            return Err(
                RossbyError::InvalidParameter {
                    param: "bbox".to_owned(),
                    message: "Bounding box has a malformed number".to_owned(),
                },
            );
        },
    };
    let max_lon = match parse_fixed(parts[2].as_str()) {
        Some(v) => v,
        None => {
            return Err(
                RossbyError::InvalidParameter {
                    param: "bbox".to_owned(),
                    message: "Bounding box has a malformed number".to_owned(),
                },
            );
        },
    };
    let max_lat = match parse_fixed(parts[3].as_str()) {
        Some(v) => v,
        None => {
            return Err(
                RossbyError::InvalidParameter {
                    param: "bbox".to_owned(),
                    message: "Bounding box has a malformed number".to_owned(),
                },
            );
        },
    };
    if min_lat > max_lat {
        return Err(
            RossbyError::InvalidParameter {
                param: "bbox".to_owned(),
                message: "min_lat must be at most max_lat".to_owned(),
            },
        );
    }
    if min_lat < -90000000 || min_lat > 90000000 || max_lat < -90000000 || max_lat > 90000000 {
        return Err(
            RossbyError::InvalidParameter {
                param: "bbox".to_owned(),
                message: "Latitude must be in the range -90 to 90".to_owned(),
            },
        );
    }
    Ok((min_lon, min_lat, max_lon, max_lat))
}

/// The adjusted bounding box and dateline flag: a box that is not inverted
/// in longitude passes through unchanged; an inverted box is kept and
/// flagged for the Pacific centering, and otherwise re-centered, keeping
/// the original and flagging it when still inverted.
pub open spec fn spec_handle_dateline(
    min_lon: i64,
    min_lat: i64,
    max_lon: i64,
    max_lat: i64,
    p: MapProjection,
) -> ((int, int, int, int), bool) {
    if min_lon <= max_lon {
        ((min_lon as int, min_lat as int, max_lon as int, max_lat as int), false)
    } else if p is Pacific {
        ((min_lon as int, min_lat as int, max_lon as int, max_lat as int), true)
    } else {
        let c = spec_center_longitude(p);
        let nmin = norm_lon(min_lon - c) + c;
        let nmax = norm_lon(max_lon - c) + c;
        if nmin <= nmax {
            ((nmin, min_lat as int, nmax, max_lat as int), false)
        } else {
            ((min_lon as int, min_lat as int, max_lon as int, max_lat as int), true)
        }
    }
}

/// Classify and adjust a bounding box that may cross the dateline seam
/// under the given projection.
pub fn handle_dateline_crossing_bbox(
    min_lon: i64,
    min_lat: i64,
    max_lon: i64,
    max_lat: i64,
    projection: &MapProjection,
) -> (r: Result<((i64, i64, i64, i64), bool)>)
    requires
        -FX_VAL_MAX <= min_lon <= FX_VAL_MAX,
        -FX_VAL_MAX <= max_lon <= FX_VAL_MAX,
        proj_wf(*projection),
    ensures
        r is Ok,
        ({
            let ((a, b, c, d), f) = r->Ok_0;
            spec_handle_dateline(min_lon, min_lat, max_lon, max_lat, *projection) == (
                (a as int, b as int, c as int, d as int),
                f,
            )
        }),
{
    if min_lon <= max_lon {
        return Ok(((min_lon, min_lat, max_lon, max_lat), false));
    }
    match projection {
        MapProjection::Pacific => Ok(((min_lon, min_lat, max_lon, max_lat), true)),
        _ => {
            let center_lon = projection.center_longitude();
            let nmin = normalize_longitude(min_lon - center_lon) + center_lon;
            let nmax = normalize_longitude(max_lon - center_lon) + center_lon;
            if nmin <= nmax {
                Ok(((nmin, min_lat, nmax, max_lat), false))
            } else {
                Ok(((min_lon, min_lat, max_lon, max_lat), true))
            }
        },
    }
}

/// The position where the wrapped side of the longitude axis begins: on an
/// ascending axis the first coordinate in `[0, 180]`, on a descending axis
/// the first in `[-180, 0]`; 0 when there is none.
pub open spec fn spec_dateline_idx(lons: Seq<i64>) -> int {
    let asc = lons[0] <= lons[lons.len() - 1];
    let i = if asc {
        first_in_range_idx(lons, 0i64, 180000000i64)
    } else {
        first_in_range_idx(lons, -180000000i64, 0i64)
    };
    if i >= 0 {
        i
    } else {
        0
    }
}

/// The first position with a value within `[lo, hi]`, or -1.
pub open spec fn first_in_range_idx(s: Seq<i64>, lo: i64, hi: i64) -> int
    decreases s.len(),
{
    if s.len() == 0 {
        -1
    } else if lo <= s[0] <= hi {
        0
    } else {
        let r = first_in_range_idx(s.subrange(1, s.len() as int), lo, hi);
        if r < 0 {
            -1
        } else {
            r + 1
        }
    }
}

fn first_in_range(s: &Vec<i64>, lo: i64, hi: i64) -> (r: Option<usize>)
    ensures
        match r {
            Some(i) => first_in_range_idx(s@, lo, hi) == i as int && i < s@.len(),
            None => first_in_range_idx(s@, lo, hi) == -1,
        },
    decreases s@.len(),
{
    let mut i: usize = 0;
    while i < s.len()
        invariant
            0 <= i <= s@.len(),
            forall|j: int| 0 <= j < i ==> !(lo <= #[trigger] s@[j] <= hi),
        decreases s@.len() - i,
    {
        if lo <= s[i] && s[i] <= hi {
            proof {
                lemma_first_in_range(s@, lo, hi);
            }
            return Some(i);
        }
        i += 1;
    }
    proof {
        lemma_first_in_range(s@, lo, hi);
    }
    None
}

proof fn lemma_first_in_range(s: Seq<i64>, lo: i64, hi: i64)
    ensures
        first_in_range_idx(s, lo, hi) == -1 <==> (forall|j: int|
            0 <= j < s.len() ==> !(lo <= #[trigger] s[j] <= hi)),
        first_in_range_idx(s, lo, hi) >= 0 ==> 0 <= first_in_range_idx(s, lo, hi) < s.len()
            && lo <= s[first_in_range_idx(s, lo, hi)] <= hi && (forall|j: int|
            0 <= j < first_in_range_idx(s, lo, hi) ==> !(lo <= #[trigger] s[j] <= hi)),
    decreases s.len(),
{
    if s.len() > 0 {
        lemma_first_in_range(s.subrange(1, s.len() as int), lo, hi);
        assert(forall|j: int|
            1 <= j < s.len() ==> #[trigger] s[j] == s.subrange(1, s.len() as int)[j - 1]);
    }
}

/// Replicate the wrapped side of a latitude/longitude grid past its right
/// edge, with the wrapped coordinates advanced one turn.  With no crossing
/// or no coordinates, the grid passes through unchanged.
pub fn adjust_for_dateline_crossing(data: &Grid2, lon_coords: &Vec<i64>, crosses_dateline: bool)
    -> (r: Result<(Grid2, Vec<i64>)>)
    requires
        data.wf(),
        forall|i: int|
            0 <= i < lon_coords@.len() ==> -FX_VAL_MAX <= #[trigger] lon_coords@[i]
                <= FX_VAL_MAX,
        lon_coords@.len() <= MAX_AXIS,
    ensures
        r is Ok,
        ({
            let (g, lons) = r->Ok_0;
            &&& g.wf()
            &&& !crosses_dateline || lon_coords@.len() == 0 || data.rows * data.cols == 0
                ==> g.rows == data.rows && g.cols == data.cols && g.values@ == data.values@
                && lons@ == lon_coords@
            &&& g.rows == data.rows
            &&& g.cols >= data.cols
            &&& forall|rr: int, cc: int|
                0 <= rr < g.rows && 0 <= cc < data.cols ==> #[trigger] g.cell(rr, cc)
                    == data.cell(rr, cc)
            &&& (crosses_dateline && lon_coords@.len() > 0 && data.rows * data.cols > 0 ==> {
                let r1 = if lon_coords@.len() - spec_dateline_idx(lon_coords@)
                    <= data.cols as int {
                    lon_coords@.len() - spec_dateline_idx(lon_coords@)
                } else {
                    data.cols as int
                };
                let right = if r1 <= MAX_AXIS - data.cols {
                    r1
                } else {
                    MAX_AXIS - data.cols
                };
                &&& g.cols == data.cols + right
                &&& lons@.len() == lon_coords@.len() + right
                &&& (forall|i: int|
                    0 <= i < lon_coords@.len() ==> #[trigger] lons@[i] == lon_coords@[i])
                &&& (forall|i: int|
                    lon_coords@.len() <= i < lons@.len() ==> #[trigger] lons@[i]
                        == lon_coords@[(if lon_coords@.len() > right {
                        lon_coords@.len() - right + (i - lon_coords@.len())
                    } else {
                        lon_coords@.len() - 1
                    })] + FULL_TURN)
                &&& (forall|rr: int, cc: int|
                    0 <= rr < g.rows && data.cols <= cc < g.cols ==> #[trigger] g.cell(rr, cc)
                        == data.cell(rr, data.cols - right + (cc - data.cols)))
            })
        }),
{
    let rows = data.rows;
    let cols = data.cols;
    let n = lon_coords.len();
    if !crosses_dateline || n == 0 || rows == 0 || cols == 0 {
        let mut values: Vec<i64> = Vec::new();
        let mut p: usize = 0;
        let dlen = data.values.len();
        while p < dlen
            invariant
                dlen == data.values@.len(),
                0 <= p <= dlen,
                values@ == data.values@.subrange(0, p as int),
            decreases dlen - p,
        {
            values.push(data.values[p]);
            proof {
                assert(values@ =~= data.values@.subrange(0, p + 1));
            }
            p += 1;
        }
        let mut lons: Vec<i64> = Vec::new();
        let mut p: usize = 0;
        while p < n
            invariant
                n == lon_coords@.len(),
                0 <= p <= n,
                lons@ == lon_coords@.subrange(0, p as int),
            decreases n - p,
        {
            lons.push(lon_coords[p]);
            proof {
                assert(lons@ =~= lon_coords@.subrange(0, p + 1));
            }
            p += 1;
        }
        proof {
            assert(values@ =~= data.values@);
            assert(lons@ =~= lon_coords@);
            assert(rows * cols == 0 ==> data.values@.len() == 0) by (nonlinear_arith)
                requires
                    data.values@.len() == rows * cols,
                    rows == data.rows,
                    cols == data.cols,
            ;
            assert(rows == 0 || cols == 0 ==> (rows as int) * (cols as int) == 0)
                by (nonlinear_arith);
        }
        let g = Grid2 { rows, cols, values };
        proof {
            assert forall|rr: int, cc: int|
                0 <= rr < g.rows && 0 <= cc < data.cols implies #[trigger] g.cell(rr, cc)
                == data.cell(rr, cc) by {
                crate::grid::lemma_cell_in_range(rows as int, cols as int, rr, cc);
            }
        }
        return Ok((g, lons));
    }
    let dateline_idx: usize = if lon_coords[0] <= lon_coords[n - 1] {
        match first_in_range(lon_coords, 0, 180000000) {
            Some(i) => i,
            None => 0,
        }
    } else {
        match first_in_range(lon_coords, -180000000, 0) {
            Some(i) => i,
            None => 0,
        }
    };
    let right_size = n - dateline_idx;
    let mut validated: usize = if right_size <= cols {
        right_size
    } else {
        cols
    };
    if validated > MAX_AXIS - cols {
        validated = MAX_AXIS - cols;
    }
    let new_cols = cols + validated;
    let mut values: Vec<i64> = Vec::new();
    let mut rr: usize = 0;
    while rr < rows
        invariant
            data.wf(),
            rows == data.rows,
            cols == data.cols,
            cols >= 1,
            rows >= 1,
            validated <= cols,
            new_cols == cols + validated,
            0 <= rr <= rows,
            values@.len() == rr * new_cols,
            forall|r2: int, c2: int|
                0 <= r2 < rr && 0 <= c2 < new_cols ==> #[trigger] values@[r2 * new_cols + c2]
                    == (if c2 < cols {
                    data.cell(r2, c2)
                } else {
                    data.cell(r2, cols - validated + (c2 - cols))
                }),
        decreases rows - rr,
    {
        let mut cc: usize = 0;
        while cc < new_cols
            invariant
                data.wf(),
                rows == data.rows,
                cols == data.cols,
                cols >= 1,
                rows >= 1,
                validated <= cols,
                new_cols == cols + validated,
                0 <= rr < rows,
                0 <= cc <= new_cols,
                values@.len() == rr * new_cols + cc,
                forall|r2: int, c2: int|
                    (0 <= r2 < rr && 0 <= c2 < new_cols) || (r2 == rr && 0 <= c2 < cc)
                        ==> #[trigger] values@[r2 * new_cols + c2] == (if c2 < cols {
                        data.cell(r2, c2)
                    } else {
                        data.cell(r2, cols - validated + (c2 - cols))
                    }),
            decreases new_cols - cc,
        {
            let v = if cc < cols {
                data.get(rr, cc)
            } else {
                data.get(rr, cols - validated + (cc - cols))
            };
            values.push(v);
            proof {
                assert forall|r2: int, c2: int|
                    ((0 <= r2 < rr && 0 <= c2 < new_cols) || (r2 == rr && 0 <= c2 < cc))
                        implies #[trigger] (r2 * new_cols + c2) < rr * new_cols + cc by {
                    crate::state::lemma_rowmajor_lt(r2, c2, rr as int, cc as int, new_cols as int);
                }
            }
            cc += 1;
        }
        proof {
            assert((rr + 1) * new_cols == rr * new_cols + new_cols) by (nonlinear_arith);
        }
        rr += 1;
    }
    let mut lons: Vec<i64> = Vec::new();
    let mut p: usize = 0;
    while p < n
        invariant
            n == lon_coords@.len(),
            0 <= p <= n,
            lons@ == lon_coords@.subrange(0, p as int),
        decreases n - p,
    {
        lons.push(lon_coords[p]);
        proof {
            assert(lons@ =~= lon_coords@.subrange(0, p + 1));
        }
        p += 1;
    }
    proof {
        assert(lons@ =~= lon_coords@);
    }
    let mut p: usize = 0;
    while p < validated
        invariant
            n == lon_coords@.len(),
            n >= 1,
            validated <= n,
            forall|i: int|
                0 <= i < lon_coords@.len() ==> -FX_VAL_MAX <= #[trigger] lon_coords@[i]
                    <= FX_VAL_MAX,
            0 <= p <= validated,
            lons@.len() == n + p,
            forall|i: int| 0 <= i < n ==> #[trigger] lons@[i] == lon_coords@[i],
            forall|i: int|
                n <= i < lons@.len() ==> #[trigger] lons@[i] == lon_coords@[(if n > validated {
                    n - validated + (i - n)
                } else {
                    n - 1
                })] + FULL_TURN,
        decreases validated - p,
    {
        let orig_idx = if n > validated {
            n - validated + p
        } else {
            n - 1
        };
        let wrapped = lon_coords[orig_idx] + FULL_TURN;
        lons.push(wrapped);
        p += 1;
    }
    let g = Grid2 { rows, cols: new_cols, values };
    proof {
        assert((data.rows as int) * (data.cols as int) > 0) by (nonlinear_arith)
            requires
                data.rows >= 1,
                data.cols >= 1,
        ;
        assert(g.cols <= MAX_AXIS);
        assert forall|rr2: int, cc2: int|
            0 <= rr2 < g.rows && 0 <= cc2 < data.cols implies #[trigger] g.cell(rr2, cc2)
            == data.cell(rr2, cc2) by {
            crate::grid::lemma_cell_in_range(g.rows as int, g.cols as int, rr2, cc2);
        }
        assert(g.wf()) by {
            assert forall|i: int|
                0 <= i < g.values@.len() implies -FX_VAL_MAX <= #[trigger] g.values@[i]
                <= FX_VAL_MAX by {
                let r2 = i / (new_cols as int);
                let c2 = i % (new_cols as int);
                vstd::arithmetic::div_mod::lemma_fundamental_div_mod(i, new_cols as int);
                vstd::arithmetic::div_mod::lemma_mod_bound(i, new_cols as int);
                vstd::arithmetic::div_mod::lemma_div_pos_is_pos(i, new_cols as int);
                assert(i == r2 * new_cols + c2) by (nonlinear_arith)
                    requires
                        i == (new_cols as int) * r2 + c2,
                ;
                assert(r2 < rows) by (nonlinear_arith)
                    requires
                        i == r2 * new_cols + c2,
                        i < rows * new_cols,
                        0 <= c2 < new_cols,
                        r2 >= 0,
                        new_cols >= 1,
                ;
                assert(g.values@[r2 * new_cols + c2] == (if c2 < cols {
                    data.cell(r2, c2)
                } else {
                    data.cell(r2, cols - validated + (c2 - cols))
                }));
                if c2 < cols {
                    crate::grid::lemma_cell_in_range(rows as int, cols as int, r2, c2);
                } else {
                    crate::grid::lemma_cell_in_range(
                        rows as int,
                        cols as int,
                        r2,
                        cols - validated + (c2 - cols),
                    );
                }
            }
        }
    }
    Ok((g, lons))
}

/// The value a bilinear resize assigns to target cell `(y, x)`: the source
/// position is scaled proportionally and the four bracketing cells are
/// blended in fixed point with flooring division.
pub open spec fn spec_resample_cell(data: Grid2, tw: int, th: int, y: int, x: int) -> int {
    let sx = x * ((data.cols - 1) * SCALE) / (tw - 1);
    let sy = y * ((data.rows - 1) * SCALE) / (th - 1);
    let x0 = sx / (SCALE as int);
    let y0 = sy / (SCALE as int);
    let x1 = if x0 + 1 < data.cols {
        x0 + 1
    } else {
        data.cols - 1
    };
    let y1 = if y0 + 1 < data.rows {
        y0 + 1
    } else {
        data.rows - 1
    };
    let wx = sx - x0 * SCALE;
    let wy = sy - y0 * SCALE;
    let top = ((SCALE - wx) * data.cell(y0, x0) + wx * data.cell(y0, x1)) / (SCALE as int);
    let bottom = ((SCALE - wx) * data.cell(y1, x0) + wx * data.cell(y1, x1)) / (SCALE as int);
    ((SCALE - wy) * top + wy * bottom) / (SCALE as int)
}

/// Resize a grid to the target extent with bilinear interpolation.
pub fn resample_data(data: &Grid2, target_width: usize, target_height: usize) -> (r: Result<
    Grid2,
>)
    requires
        data.wf(),
        data.rows >= 1,
        data.cols >= 1,
        2 <= target_width <= MAX_AXIS,
        2 <= target_height <= MAX_AXIS,
    ensures
        r is Ok,
        ({
            let g = r->Ok_0;
            &&& g.wf()
            &&& g.rows == target_height
            &&& g.cols == target_width
            &&& forall|y: int, x: int|
                0 <= y < g.rows && 0 <= x < g.cols ==> #[trigger] g.cell(y, x)
                    == spec_resample_cell(*data, target_width as int, target_height as int, y, x)
        }),
{
    let rows = target_height;
    let cols = target_width;
    let mut values: Vec<i64> = Vec::new();
    let mut yy: usize = 0;
    while yy < rows
        invariant
            data.wf(),
            data.rows >= 1,
            data.cols >= 1,
            2 <= cols <= MAX_AXIS,
            2 <= rows <= MAX_AXIS,
            0 <= yy <= rows,
            values@.len() == yy * cols,
            forall|p: int|
                0 <= p < values@.len() ==> -FX_VAL_MAX <= #[trigger] values@[p] <= FX_VAL_MAX,
            forall|y: int, x: int|
                0 <= y < yy && 0 <= x < cols ==> #[trigger] values@[y * cols + x]
                    == spec_resample_cell(*data, cols as int, rows as int, y, x),
        decreases rows - yy,
    {
        let mut xx: usize = 0;
        while xx < cols
            invariant
                data.wf(),
                data.rows >= 1,
                data.cols >= 1,
                2 <= cols <= MAX_AXIS,
                2 <= rows <= MAX_AXIS,
                0 <= yy < rows,
                0 <= xx <= cols,
                values@.len() == yy * cols + xx,
                forall|p: int|
                    0 <= p < values@.len() ==> -FX_VAL_MAX <= #[trigger] values@[p]
                        <= FX_VAL_MAX,
                forall|y: int, x: int|
                    (0 <= y < yy && 0 <= x < cols) || (y == yy && 0 <= x < xx)
                        ==> #[trigger] values@[y * cols + x] == spec_resample_cell(
                        *data,
                        cols as int,
                        rows as int,
                        y,
                        x,
                    ),
            decreases cols - xx,
        {
            let v = resample_cell(data, cols, rows, yy, xx);
            values.push(v);
            proof {
                assert forall|y: int, x: int|
                    ((0 <= y < yy && 0 <= x < cols) || (y == yy && 0 <= x < xx))
                        implies #[trigger] (y * cols + x) < yy * cols + xx by {
                    crate::state::lemma_rowmajor_lt(y, x, yy as int, xx as int, cols as int);
                }
            }
            xx += 1;
        }
        proof {
            assert((yy + 1) * cols == yy * cols + cols) by (nonlinear_arith);
        }
        yy += 1;
    }
    let g = Grid2 { rows, cols, values };
    proof {
        assert forall|y: int, x: int|
            0 <= y < g.rows && 0 <= x < g.cols implies 0 <= #[trigger] (y * g.cols + x)
            < g.values@.len() by {
            crate::grid::lemma_cell_in_range(g.rows as int, g.cols as int, y, x);
        }
    }
    Ok(g)
}

/// Compute one resampled cell.
fn resample_cell(data: &Grid2, tw: usize, th: usize, y: usize, x: usize) -> (r: i64)
    requires
        data.wf(),
        data.rows >= 1,
        data.cols >= 1,
        2 <= tw <= MAX_AXIS,
        2 <= th <= MAX_AXIS,
        y < th,
        x < tw,
    ensures
        r as int == spec_resample_cell(*data, tw as int, th as int, y as int, x as int),
        -FX_VAL_MAX <= r <= FX_VAL_MAX,
{
    proof {
        assert(0 <= (x as int) * (((data.cols - 1) as int) * SCALE)
            <= 1000000000000000000000000) by (nonlinear_arith)
            requires
                0 <= x < tw <= 1000000000,
                0 <= (data.cols - 1) as int <= 1000000000,
                SCALE == 1000000,
        ;
        assert(0 <= (y as int) * (((data.rows - 1) as int) * SCALE)
            <= 1000000000000000000000000) by (nonlinear_arith)
            requires
                0 <= y < th <= 1000000000,
                0 <= (data.rows - 1) as int <= 1000000000,
                SCALE == 1000000,
        ;
    }
    let sxn: i128 = (x as i128) * (((data.cols - 1) as i128) * (SCALE as i128));
    let syn: i128 = (y as i128) * (((data.rows - 1) as i128) * (SCALE as i128));
    let sx: i128 = ediv_i128(sxn, (tw - 1) as i128);
    let sy: i128 = ediv_i128(syn, (th - 1) as i128);
    proof {
        vstd::arithmetic::div_mod::lemma_div_pos_is_pos(sxn as int, (tw - 1) as int);
        vstd::arithmetic::div_mod::lemma_div_pos_is_pos(syn as int, (th - 1) as int);
        vstd::arithmetic::div_mod::lemma_fundamental_div_mod(sx as int, SCALE as int);
        vstd::arithmetic::div_mod::lemma_fundamental_div_mod(sy as int, SCALE as int);
        vstd::arithmetic::div_mod::lemma_div_pos_is_pos(sx as int, SCALE as int);
        vstd::arithmetic::div_mod::lemma_div_pos_is_pos(sy as int, SCALE as int);
        lemma_resample_src_bound(x as int, data.cols as int, tw as int);
        lemma_resample_src_bound(y as int, data.rows as int, th as int);
    }
    let x0: i128 = sx / (SCALE as i128);
    let y0: i128 = sy / (SCALE as i128);
    let x1: usize = if (x0 + 1) < data.cols as i128 {
        (x0 + 1) as usize
    } else {
        data.cols - 1
    };
    let y1: usize = if (y0 + 1) < data.rows as i128 {
        (y0 + 1) as usize
    } else {
        data.rows - 1
    };
    let wx: i64 = (sx - x0 * (SCALE as i128)) as i64;
    let wy: i64 = (sy - y0 * (SCALE as i128)) as i64;
    let c00 = data.get(y0 as usize, x0 as usize);
    let c01 = data.get(y0 as usize, x1);
    let c10 = data.get(y1, x0 as usize);
    let c11 = data.get(y1, x1);
    let top = blend(c00, c01, wx);
    let bottom = blend(c10, c11, wx);
    blend(top, bottom, wy)
}

/// One fixed-point linear blend with flooring division; the result stays
/// within the range of its inputs' bound.
fn blend(a: i64, b: i64, w: i64) -> (r: i64)
    requires
        0 <= w < SCALE,
        -FX_VAL_MAX <= a <= FX_VAL_MAX,
        -FX_VAL_MAX <= b <= FX_VAL_MAX,
    ensures
        r as int == ((SCALE - w) * a + w * b) / (SCALE as int),
        -FX_VAL_MAX <= r <= FX_VAL_MAX,
{
    proof {
        assert(-4000000000000000000000 <= ((SCALE - w) as int) * (a as int)
            <= 4000000000000000000000 && -4000000000000000000000 <= (w as int) * (b as int)
            <= 4000000000000000000000) by (nonlinear_arith)
            requires
                0 <= w < SCALE,
                SCALE == 1000000,
                -FX_VAL_MAX <= a <= FX_VAL_MAX,
                -FX_VAL_MAX <= b <= FX_VAL_MAX,
                FX_VAL_MAX == 4000000000000000,
        ;
    }
    let num: i128 = ((SCALE - w) as i128) * (a as i128) + (w as i128) * (b as i128);
    proof {
        assert(num <= (SCALE as int) * FX_VAL_MAX && num >= -((SCALE as int) * FX_VAL_MAX))
            by (nonlinear_arith)
            requires
                num == ((SCALE - w) as int) * (a as int) + (w as int) * (b as int),
                0 <= w < SCALE,
                -FX_VAL_MAX <= a as int <= FX_VAL_MAX,
                -FX_VAL_MAX <= b as int <= FX_VAL_MAX,
        ;
    }
    let q = ediv_i128(num, SCALE as i128);
    proof {
        vstd::arithmetic::div_mod::lemma_div_is_ordered(
            num as int,
            (SCALE as int) * FX_VAL_MAX,
            SCALE as int,
        );
        vstd::arithmetic::div_mod::lemma_div_is_ordered(
            -((SCALE as int) * FX_VAL_MAX),
            num as int,
            SCALE as int,
        );
        vstd::arithmetic::div_mod::lemma_fundamental_div_mod_converse(
            (SCALE as int) * FX_VAL_MAX,
            SCALE as int,
            FX_VAL_MAX as int,
            0,
        );
        vstd::arithmetic::div_mod::lemma_fundamental_div_mod_converse(
            -((SCALE as int) * FX_VAL_MAX),
            SCALE as int,
            -(FX_VAL_MAX as int),
            0,
        );
        assert((SCALE as int) * FX_VAL_MAX == (FX_VAL_MAX as int) * SCALE
            && -((SCALE as int) * FX_VAL_MAX) == (-(FX_VAL_MAX as int)) * SCALE)
            by (nonlinear_arith);
    }
    q as i64
}

/// The scaled source position of a target cell stays on the source axis.
pub proof fn lemma_resample_src_bound(x: int, src: int, tw: int)
    requires
        0 <= x < tw,
        1 <= src <= 1000000000,
        2 <= tw <= 1000000000,
    ensures
        0 <= x * ((src - 1) * SCALE) / (tw - 1) <= (src - 1) * SCALE,
        x * ((src - 1) * SCALE) / (tw - 1) / (SCALE as int) <= src - 1,
{
    let m = (src - 1) * SCALE;
    assert(0 <= x * m && x * m <= (tw - 1) * m) by (nonlinear_arith)
        requires
            0 <= x <= tw - 1,
            m >= 0,
    ;
    vstd::arithmetic::div_mod::lemma_div_pos_is_pos(x * m, tw - 1);
    vstd::arithmetic::div_mod::lemma_div_is_ordered(x * m, (tw - 1) * m, tw - 1);
    vstd::arithmetic::div_mod::lemma_fundamental_div_mod_converse(
        (tw - 1) * m,
        tw - 1,
        m,
        0,
    );
    assert((tw - 1) * m == m * (tw - 1)) by (nonlinear_arith);
    let s = x * m / (tw - 1);
    vstd::arithmetic::div_mod::lemma_div_is_ordered(s, m, SCALE as int);
    vstd::arithmetic::div_mod::lemma_fundamental_div_mod_converse(
        (src - 1) * SCALE,
        SCALE as int,
        src - 1,
        0,
    );
}

} // verus!
