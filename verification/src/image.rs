//! The map-rendering pipeline: validate the request, slice the variable,
//! handle the dateline, optionally resample, render through a colormap,
//! and encode the pixels.

use vstd::prelude::*;
use vstd::string::StrSliceExecFns;
use vstd::string::StringExecFns;
use crate::colormaps::{get_colormap, ColormapKind};
use crate::error::{Result, RossbyError};
use crate::fx::{SCALE, FX_VAL_MAX, ediv_i128};
use crate::geo::{
    adjust_for_dateline_crossing, handle_dateline_crossing_bbox, parse_bbox, resample_data,
    MapProjection,
};
use crate::grid::Grid2;
use crate::interpolation::{
    wf_grid, InterpolatorKind, BicubicInterpolator, BilinearInterpolator, NearestInterpolator,
    MAX_AXIS,
};
use crate::state::{AppState, min_max_of};
use crate::text::{lower_seq, parse_fixed, str_eq, str_eq_ignore_case};

verus! {

/// Query parameters of an `/image` request, already split out of the URL.
pub struct ImageQuery {
    /// Variable to render.
    pub var: String,
    /// Time as a raw index, in the deprecated spelling.
    pub time_index: Option<usize>,
    /// Time as a physical value.
    pub time: Option<i64>,
    /// Time as a raw index.
    pub time_raw_index: Option<usize>,
    /// Bounding box text `min_lon,min_lat,max_lon,max_lat`.
    pub bbox: Option<String>,
    /// Output width in pixels.
    pub width: Option<u32>,
    /// Output height in pixels.
    pub height: Option<u32>,
    /// Colormap name.
    pub colormap: Option<String>,
    /// Resampling method, in the deprecated spelling.
    pub interpolation: Option<String>,
    /// Output format (`png` or `jpeg`).
    pub format: Option<String>,
    /// Map centering name.
    pub center: Option<String>,
    /// Whether a bounding box may cross the dateline seam.
    pub wrap_longitude: Option<bool>,
    /// Resampling method (`auto`, `nearest`, `bilinear`, `bicubic`, `none`).
    pub resampling: Option<String>,
}

/// A rendered image: its content type name and encoded bytes.
#[derive(Debug)]
pub struct ImageResponse {
    /// `png` or `jpeg`.
    pub format: String,
    /// The encoded image bytes.
    pub bytes: Vec<u8>,
}

/// The PNG encoding of an RGBA pixel buffer; it depends on the extent and
/// the pixels alone.
pub uninterp spec fn png_of(width: u32, height: u32, rgba: Seq<u8>) -> Seq<u8>;

/// The JPEG encoding of an RGBA pixel buffer; it depends on the extent and
/// the pixels alone.
pub uninterp spec fn jpeg_of(width: u32, height: u32, rgba: Seq<u8>) -> Seq<u8>;

/// Relies on `image::ImageBuffer::from_raw` and the `image` crate's PNG
/// encoder: encodes an RGBA pixel buffer of the given extent as PNG bytes.
/// `from_raw` accepts a buffer of exactly the expected length, and the PNG
/// encoder writing to an in-memory buffer rejects only a zero width or
/// height, so encoding a non-empty buffer succeeds.
#[verifier::external_body]
fn encode_png(width: u32, height: u32, rgba: &Vec<u8>) -> (r: Result<Vec<u8>>)
    requires
        rgba@.len() == 4 * width * height,
    ensures
        r is Ok ==> (r->Ok_0)@ == png_of(width, height, rgba@) && (r->Ok_0)@.len() > 0,
        r is Err ==> r->Err_0 is ImageGeneration,
        1 <= width && 1 <= height ==> r is Ok,
{
    let buf: image::ImageBuffer<image::Rgba<u8>, Vec<u8>> =
        match image::ImageBuffer::from_raw(width, height, rgba.clone()) {
            Some(b) => b,
            None => {
                return Err(
                    RossbyError::ImageGeneration { message: "pixel buffer size mismatch".to_owned() },
                );
            },
        };
    let mut out = std::io::Cursor::new(Vec::new());
    match buf.write_to(&mut out, image::ImageFormat::Png) {
        Ok(()) => Ok(out.into_inner()),
        Err(e) => Err(RossbyError::ImageGeneration { message: e.to_string() }),
    }
}

/// Relies on `image::ImageBuffer::from_raw` and the `image` crate's JPEG
/// encoder: encodes an RGBA pixel buffer of the given extent as JPEG bytes.
/// `from_raw` accepts a buffer of exactly the expected length, and the JPEG
/// encoder writing to an in-memory buffer rejects only extents of zero or
/// above 65535, so encoding within those bounds succeeds.
#[verifier::external_body]
fn encode_jpeg(width: u32, height: u32, rgba: &Vec<u8>) -> (r: Result<Vec<u8>>)
    requires
        rgba@.len() == 4 * width * height,
    ensures
        r is Ok ==> (r->Ok_0)@ == jpeg_of(width, height, rgba@) && (r->Ok_0)@.len() > 0,
        r is Err ==> r->Err_0 is ImageGeneration,
        1 <= width <= 65535 && 1 <= height <= 65535 ==> r is Ok,
{
    let buf: image::ImageBuffer<image::Rgba<u8>, Vec<u8>> =
        match image::ImageBuffer::from_raw(width, height, rgba.clone()) {
            Some(b) => b,
            None => {
                return Err(
                    RossbyError::ImageGeneration { message: "pixel buffer size mismatch".to_owned() },
                );
            },
        };
    let mut out = std::io::Cursor::new(Vec::new());
    let rgb = image::DynamicImage::ImageRgba8(buf).to_rgb8();
    match rgb.write_to(&mut out, image::ImageFormat::Jpeg) {
        Ok(()) => Ok(out.into_inner()),
        Err(e) => Err(RossbyError::ImageGeneration { message: e.to_string() }),
    }
}

/// Marker that groups one rendering's value range, so that a quantifier
/// over both bounds can be instantiated from one term.
pub open spec fn pixel_bounds(minv: i64, maxv: i64) -> bool {
    true
}

/// Marker for the pixel buffer behind an encoded image.
pub open spec fn image_payload(buf: Seq<u8>) -> bool {
    true
}

/// The kernel a resampling name selects: `auto` picks the cubic kernel for
/// strong upscaling of a grid large enough for it, and the linear kernel
/// otherwise; unknown names fall back to the linear kernel.
pub open spec fn spec_kernel_choice(
    resampling: Seq<char>,
    width: int,
    height: int,
    g: Grid2,
) -> InterpolatorKind {
    if resampling == "nearest"@ {
        InterpolatorKind::Nearest
    } else if resampling == "bicubic"@ {
        InterpolatorKind::Bicubic
    } else if resampling == "auto"@ {
        if (width > 2 * g.cols || height > 2 * g.rows) && g.rows >= 4 && g.cols >= 4 {
            InterpolatorKind::Bicubic
        } else {
            InterpolatorKind::Bilinear
        }
    } else {
        InterpolatorKind::Bilinear
    }
}

/// The colour of one output pixel: the kernel's sample at the
/// proportionally scaled grid position, clamped and coloured against the
/// given value range; a cubic sample of a grid with an axis under four
/// points is transparent black.
pub open spec fn spec_pixel(
    g: Grid2,
    width: int,
    height: int,
    cm: ColormapKind,
    kern: InterpolatorKind,
    minv: i64,
    maxv: i64,
    x: int,
    y: int,
) -> (u8, u8, u8, u8) {
    let dx = x * ((g.cols - 1) * SCALE) / (width - 1);
    let dy = y * ((g.rows - 1) * SCALE) / (height - 1);
    let idx = seq![dy as i64, dx as i64];
    let shape = seq![g.rows, g.cols];
    let sample: Option<int> = match kern {
        InterpolatorKind::Nearest => Some(
            crate::interpolation::spec_nearest(g.values@, shape, idx) as int,
        ),
        InterpolatorKind::Bilinear => Some(
            crate::interpolation::spec_bilinear(g.values@, shape, idx, 0),
        ),
        InterpolatorKind::Bicubic => if g.rows >= 4 && g.cols >= 4 {
            Some(crate::interpolation::spec_cubic(g.values@, shape, idx, 0))
        } else {
            None
        },
    };
    match sample {
        Some(v) => {
            let cv = if v > FX_VAL_MAX {
                FX_VAL_MAX as int
            } else if v < -FX_VAL_MAX {
                -(FX_VAL_MAX as int)
            } else {
                v
            };
            crate::colormaps::spec_map_normalized(
                crate::colormaps::kind_palette(cm),
                crate::colormaps::spec_norm_t(cv, minv as int, maxv as int),
            )
        },
        None => (0u8, 0u8, 0u8, 0u8),
    }
}

/// Render a grid to an RGBA pixel buffer: sample the grid at each output
/// pixel with the selected kernel and colour the value against the grid's
/// value range of smallest and largest stored value; a failed sample is
/// transparent black.
#[verifier::rlimit(100)]
#[verifier::spinoff_prover]
pub fn generate_image(
    data: &Grid2,
    width: u32,
    height: u32,
    colormap: ColormapKind,
    resampling: &str,
) -> (r: Result<Vec<u8>>)
    requires
        data.wf(),
        data.rows >= 1,
        data.cols >= 1,
        2 <= width <= 16384,
        2 <= height <= 16384,
    ensures
        match r {
            Ok(buf) => buf@.len() == 4 * (width as int) * (height as int) && exists|
                minv: i64,
                maxv: i64,
            |
                {
                    &&& #[trigger] pixel_bounds(minv, maxv)
                    &&& data.values@.contains(minv)
                    &&& data.values@.contains(maxv)
                    &&& (forall|q: int|
                        0 <= q < data.values@.len() ==> minv <= #[trigger] data.values@[q]
                            <= maxv)
                    &&& (forall|y2: int, x2: int|
                        0 <= y2 < height as int && 0 <= x2 < width as int ==> {
                            let c = spec_pixel(
                                *data,
                                width as int,
                                height as int,
                                colormap,
                                spec_kernel_choice(
                                    resampling@,
                                    width as int,
                                    height as int,
                                    *data,
                                ),
                                minv,
                                maxv,
                                x2,
                                y2,
                            );
                            #[trigger] buf@[4 * (y2 * (width as int) + x2)] == c.0 && buf@[4
                                * (y2 * (width as int) + x2) + 1] == c.1 && buf@[4 * (y2 * (
                            width as int) + x2) + 2] == c.2 && buf@[4 * (y2 * (width as int)
                                + x2) + 3] == c.3
                        })
                },
            Err(e) => false,
        },
        r is Ok,
{
    proof {
        reveal_strlit("nearest");
        reveal_strlit("bilinear");
        reveal_strlit("bicubic");
        reveal_strlit("auto");
    }
    proof {
        assert((data.rows as int) * (data.cols as int) >= 1) by (nonlinear_arith)
            requires
                data.rows >= 1,
                data.cols >= 1,
        ;
    }
    let (min_val, max_val) = min_max_of(&data.values);
    let kernel: InterpolatorKind = if str_eq(resampling, "nearest") {
        InterpolatorKind::Nearest
    } else if str_eq(resampling, "bicubic") {
        InterpolatorKind::Bicubic
    } else if str_eq(resampling, "auto") {
        let scale_x_big = (width as u64) > 2 * (data.cols as u64);
        let scale_y_big = (height as u64) > 2 * (data.rows as u64);
        if (scale_x_big || scale_y_big) && data.rows >= 4 && data.cols >= 4 {
            InterpolatorKind::Bicubic
        } else {
            InterpolatorKind::Bilinear
        }
    } else {
        InterpolatorKind::Bilinear
    };
    proof {
        assert(kernel == spec_kernel_choice(
            resampling@,
            width as int,
            height as int,
            *data,
        ));
    }
    let mut shape: Vec<usize> = Vec::new();
    shape.push(data.rows);
    shape.push(data.cols);
    proof {
        assert(shape@ =~= seq![data.rows, data.cols]);
        assert(spec_prod_pair(data.rows as int, data.cols as int) == (data.rows as int) * (
        data.cols as int));
        lemma_pair_prod(data.rows, data.cols);
        assert(wf_grid(data.values@, shape@));
    }
    let mut buf: Vec<u8> = Vec::new();
    let w = width as usize;
    let h = height as usize;
    let mut y: usize = 0;
    proof {
        assert(0 * w == 0) by (nonlinear_arith);
    }
    while y < h
        invariant
            data.wf(),
            data.rows >= 1,
            data.cols >= 1,
            2 <= w <= 16384,
            2 <= h <= 16384,
            shape@ == seq![data.rows, data.cols],
            wf_grid(data.values@, shape@),
            -FX_VAL_MAX <= min_val <= FX_VAL_MAX,
            -FX_VAL_MAX <= max_val <= FX_VAL_MAX,
            w == width as int,
            h == height as int,
            kernel == spec_kernel_choice(resampling@, width as int, height as int, *data),
            forall|q: int|
                0 <= q < data.values@.len() ==> min_val <= #[trigger] data.values@[q]
                    <= max_val,
            0 <= y <= h,
            buf@.len() == 4 * (y * w),
            forall|y2: int, x2: int|
                0 <= y2 < y && 0 <= x2 < w ==> {
                    let c = spec_pixel(
                        *data,
                        w as int,
                        h as int,
                        colormap,
                        kernel,
                        min_val,
                        max_val,
                        x2,
                        y2,
                    );
                    #[trigger] buf@[4 * (y2 * w + x2)] == c.0 && buf@[4 * (y2 * w + x2) + 1]
                        == c.1 && buf@[4 * (y2 * w + x2) + 2] == c.2 && buf@[4 * (y2 * w
                        + x2) + 3] == c.3
                },
        decreases h - y,
    {
        let mut x: usize = 0;
        while x < w
            invariant
                data.wf(),
                data.rows >= 1,
                data.cols >= 1,
                2 <= w <= 16384,
                2 <= h <= 16384,
                shape@ == seq![data.rows, data.cols],
                wf_grid(data.values@, shape@),
                -FX_VAL_MAX <= min_val <= FX_VAL_MAX,
                -FX_VAL_MAX <= max_val <= FX_VAL_MAX,
                w == width as int,
                h == height as int,
                kernel == spec_kernel_choice(
                    resampling@,
                    width as int,
                    height as int,
                    *data,
                ),
                forall|q: int|
                    0 <= q < data.values@.len() ==> min_val <= #[trigger] data.values@[q]
                        <= max_val,
                0 <= y < h,
                0 <= x <= w,
                buf@.len() == 4 * (y * w + x),
                forall|y2: int, x2: int|
                    (0 <= y2 < y && 0 <= x2 < w) || (y2 == y && 0 <= x2 < x) ==> {
                        let c = spec_pixel(
                            *data,
                            w as int,
                            h as int,
                            colormap,
                            kernel,
                            min_val,
                            max_val,
                            x2,
                            y2,
                        );
                        #[trigger] buf@[4 * (y2 * w + x2)] == c.0 && buf@[4 * (y2 * w + x2)
                            + 1] == c.1 && buf@[4 * (y2 * w + x2) + 2] == c.2 && buf@[4 * (
                        y2 * w + x2) + 3] == c.3
                    },
            decreases w - x,
        {
            let data_x: i64 = scaled_index(x, data.cols, w);
            let data_y: i64 = scaled_index(y, data.rows, h);
            let mut indices: Vec<i64> = Vec::new();
            indices.push(data_y);
            indices.push(data_x);
            let color: [u8; 4] = match kernel.interpolate(&data.values, &shape, &indices) {
                Ok(v) => {
                    let cv = if v > FX_VAL_MAX {
                        FX_VAL_MAX
                    } else if v < -FX_VAL_MAX {
                        -FX_VAL_MAX
                    } else {
                        v
                    };
                    colormap.map(cv, min_val, max_val)
                },
                Err(_) => [0, 0, 0, 0],
            };
            proof {
                let c = spec_pixel(
                    *data,
                    w as int,
                    h as int,
                    colormap,
                    kernel,
                    min_val,
                    max_val,
                    x as int,
                    y as int,
                );
                assert(seq![data_y, data_x] =~= indices@);
                assert(color[0] == c.0 && color[1] == c.1 && color[2] == c.2 && color[3]
                    == c.3);
            }
            let ghost old_buf = buf@;
            buf.push(color[0]);
            buf.push(color[1]);
            buf.push(color[2]);
            buf.push(color[3]);
            proof {
                let p0 = (y * w + x) as int;
                assert(buf@.len() == 4 * p0 + 4);
                assert(buf@[4 * p0] == color[0] && buf@[4 * p0 + 1] == color[1] && buf@[4
                    * p0 + 2] == color[2] && buf@[4 * p0 + 3] == color[3]);
                assert forall|y2: int, x2: int|
                    (0 <= y2 < y && 0 <= x2 < w) || (y2 == y as int && 0 <= x2 < x + 1)
                        implies {
                    let c = spec_pixel(
                        *data,
                        w as int,
                        h as int,
                        colormap,
                        kernel,
                        min_val,
                        max_val,
                        x2,
                        y2,
                    );
                    #[trigger] buf@[4 * (y2 * w + x2)] == c.0 && buf@[4 * (y2 * w + x2) + 1]
                        == c.1 && buf@[4 * (y2 * w + x2) + 2] == c.2 && buf@[4 * (y2 * w
                        + x2) + 3] == c.3
                } by {
                    if y2 == y as int && x2 == x as int {
                        assert(4 * (y2 * w + x2) == 4 * p0);
                    } else {
                        crate::state::lemma_rowmajor_lt(
                            y2,
                            x2,
                            y as int,
                            x as int,
                            w as int,
                        );
                        assert((4 * (y2 * w + x2)) + 3 < 4 * p0);
                        assert(old_buf[4 * (y2 * w + x2)] == buf@[4 * (y2 * w + x2)]
                            && old_buf[4 * (y2 * w + x2) + 1] == buf@[4 * (y2 * w + x2) + 1]
                            && old_buf[4 * (y2 * w + x2) + 2] == buf@[4 * (y2 * w + x2) + 2]
                            && old_buf[4 * (y2 * w + x2) + 3] == buf@[4 * (y2 * w + x2)
                            + 3]);
                    }
                }
            }
            x += 1;
        }
        proof {
            assert(4 * ((y + 1) * w) == 4 * (y * w + w)) by (nonlinear_arith);
        }
        y += 1;
    }
    proof {
        assert(4 * ((h as int) * (w as int)) == 4 * (w as int) * (h as int))
            by (nonlinear_arith);
        assert((h as int) * (w as int) == (w as int) * (h as int)) by (nonlinear_arith);
        assert(pixel_bounds(min_val, max_val));
    }
    Ok(buf)
}

/// The product of a two-axis shape.
pub open spec fn spec_prod_pair(rows: int, cols: int) -> int {
    rows * cols
}

proof fn lemma_pair_prod(rows: usize, cols: usize)
    ensures
        crate::interpolation::spec_prod(seq![rows, cols]) == rows * cols,
{
    let s = seq![rows, cols];
    let t = seq![cols];
    assert(s.subrange(1, 2) =~= t);
    assert(t.subrange(1, 1) =~= Seq::<usize>::empty());
    assert(crate::interpolation::spec_prod(t) == (cols as int) * crate::interpolation::spec_prod(
        t.subrange(1, 1),
    ));
    assert(crate::interpolation::spec_prod(s) == (rows as int)
        * crate::interpolation::spec_prod(s.subrange(1, 2)));
    assert((rows as int) * ((cols as int) * 1) == (rows as int) * (cols as int))
        by (nonlinear_arith);
}

/// The fixed-point source position of an output pixel, scaled
/// proportionally along the axis.
fn scaled_index(x: usize, src: usize, target: usize) -> (r: i64)
    requires
        x < target,
        2 <= target <= 16384,
        1 <= src <= MAX_AXIS,
    ensures
        0 <= r <= (src - 1) * SCALE,
        r as int == (x as int) * (((src - 1) as int) * SCALE) / ((target - 1) as int),
{
    proof {
        assert(0 <= (x as int) * (((src - 1) as int) * SCALE) <= 20000000000000000000)
            by (nonlinear_arith)
            requires
                0 <= x as int <= 16383,
                0 <= (src - 1) as int <= 1000000000,
                SCALE == 1000000,
        ;
    }
    let num: i128 = (x as i128) * (((src - 1) as i128) * (SCALE as i128));
    let q = ediv_i128(num, (target - 1) as i128);
    proof {
        crate::geo::lemma_resample_src_bound(x as int, src as int, target as int);
    }
    q as i64
}

/// Whether the requested variable exists and carries both geographic
/// axes.
pub open spec fn img_var_ok(state: AppState, params: ImageQuery) -> bool {
    &&& state.var_idx(params.var@) >= 0
    &&& state.spec_lat_axis(
        state.metadata.variables@[state.var_idx(params.var@)].dimensions@,
    ) >= 0
    &&& state.spec_lon_axis(
        state.metadata.variables@[state.var_idx(params.var@)].dimensions@,
    ) >= 0
}

/// Whether the time selection resolves to an index within the time
/// dimension: a raw or legacy index must be in range, a physical time must
/// match a stored coordinate exactly, and the default index 0 must exist.
pub open spec fn img_time_ok(state: AppState, params: ImageQuery) -> bool {
    match params.time_raw_index {
        Some(i) => (i as int) < state.spec_time_size(),
        None => match params.time {
            Some(tv) => match state.spec_resolve("time"@) {
                Some(t) => state.coord_idx(t) >= 0 && {
                    let c = state.metadata.coordinates@[state.coord_idx(t)].values@;
                    exists|j: int|
                        0 <= j < c.len() && #[trigger] c[j] == tv && (forall|q: int|
                            0 <= q < j ==> c[q] != tv) && j < state.spec_time_size()
                },
                None => false,
            },
            None => match params.time_index {
                Some(i) => (i as int) < state.spec_time_size(),
                None => 0 < state.spec_time_size(),
            },
        },
    }
}

/// The resolved time index of a request whose time selection resolves.
pub open spec fn img_time_index(state: AppState, params: ImageQuery) -> int {
    match params.time_raw_index {
        Some(i) => i as int,
        None => match params.time {
            Some(tv) => {
                let c = state.metadata.coordinates@[state.coord_idx(
                    state.spec_resolve("time"@)->Some_0,
                )].values@;
                choose|j: int|
                    0 <= j < c.len() && #[trigger] c[j] == tv && (forall|q: int|
                        0 <= q < j ==> c[q] != tv)
            },
            None => match params.time_index {
                Some(i) => i as int,
                None => 0,
            },
        },
    }
}

/// Whether the map centre parameter is a projection name or a longitude.
pub open spec fn img_center_ok(params: ImageQuery) -> bool {
    match params.center {
        Some(c) => crate::geo::spec_parse_projection(c@) is Some
            || crate::text::spec_parse_fixed(c@) is Some,
        None => true,
    }
}

/// The gates a request passes before its bounding box is examined.
pub open spec fn img_gate(state: AppState, params: ImageQuery) -> bool {
    &&& img_var_ok(state, params)
    &&& img_time_ok(state, params)
    &&& img_center_ok(params)
}

/// Marker that fixes one bounding box and axis selection for a request.
pub open spec fn img_witness(bb: (i64, i64, i64, i64), sel: Seq<(String, usize)>) -> bool {
    true
}

/// How a bounding box relates to the request: the parsed parameter, or the
/// full extent of the stored coordinates when none was given.
pub open spec fn img_bb_rel(state: AppState, params: ImageQuery, bb: (i64, i64, i64, i64)) -> bool {
    match params.bbox {
        Some(b) => crate::geo::spec_parse_bbox(b@) == Some(bb),
        None => match (state.lon_coords(), state.lat_coords()) {
            (Some(lons), Some(lats)) => {
                &&& lons.len() > 0
                &&& lats.len() > 0
                &&& lons.contains(bb.0) && (forall|j: int|
                    0 <= j < lons.len() ==> bb.0 <= #[trigger] lons[j])
                &&& lons.contains(bb.2) && (forall|j: int|
                    0 <= j < lons.len() ==> bb.2 >= #[trigger] lons[j])
                &&& lats.contains(bb.1) && (forall|j: int|
                    0 <= j < lats.len() ==> bb.1 <= #[trigger] lats[j])
                &&& lats.contains(bb.3) && (forall|j: int|
                    0 <= j < lats.len() ==> bb.3 >= #[trigger] lats[j])
            },
            _ => false,
        },
    }
}

/// Whether the request's bounding box selects a non-empty sub-grid of the
/// variable at the resolved time index.
pub open spec fn img_slice_ok(state: AppState, params: ImageQuery) -> bool {
    exists|bb: (i64, i64, i64, i64), sel: Seq<(String, usize)>|
        {
            &&& #[trigger] img_witness(bb, sel)
            &&& img_bb_rel(state, params, bb)
            &&& sel.len() == 1
            &&& sel[0].0@ == "time"@
            &&& sel[0].1 as int == img_time_index(state, params)
            &&& state.pick_lon() matches Some(lons) && lons.len() > 0
            &&& state.pick_lat() matches Some(lats) && lats.len() > 0
            &&& state.slice_ok(params.var@, bb.0, bb.1, bb.2, bb.3, sel)
        }
}

/// The conditions under which an `/image` request succeeds: the variable
/// and its axes exist, the time, centre, bounding box, extent, colormap
/// and format parameters are well-formed, the box is not inverted, and the
/// selection is a non-empty sub-grid.
pub open spec fn img_ok(state: AppState, params: ImageQuery) -> bool {
    &&& img_gate(state, params)
    &&& (match params.bbox {
        Some(b) => crate::geo::spec_parse_bbox(b@) matches Some(t) && t.0 <= t.2,
        None => true,
    })
    &&& {
        let wr: u32 = match params.width {
            Some(v) => v,
            None => 800,
        };
        let hr: u32 = match params.height {
            Some(v) => v,
            None => 600,
        };
        2 <= wr <= 16384 && 2 <= hr <= 16384
    }
    &&& (match params.colormap {
        Some(c) => lower_seq(c@) == "viridis"@ || lower_seq(c@) == "plasma"@ || lower_seq(
            c@,
        ) == "inferno"@ || lower_seq(c@) == "magma"@ || lower_seq(c@) == "cividis"@
            || lower_seq(c@) == "coolwarm"@ || lower_seq(c@) == "rdbu"@ || lower_seq(c@)
            == "seismic"@,
        None => true,
    })
    &&& (match params.format {
        Some(f) => lower_seq(f@) == "png"@ || lower_seq(f@) == "jpeg"@,
        None => true,
    })
    &&& img_slice_ok(state, params)
}

/// Answer an `/image` request: the variable must exist and have latitude
/// and longitude axes, the parameters must be well-formed, and a bounding
/// box inverted in longitude is only accepted when longitude wrapping was
/// requested.
pub fn generate_image_response(state: &AppState, params: &ImageQuery) -> (r: Result<
    ImageResponse,
>)
    requires
        state.wf(),
    ensures
        state.var_idx(params.var@) < 0 ==> r is Err && r->Err_0 is InvalidVariables,
        (state.var_idx(params.var@) >= 0 && !(state.spec_lat_axis(
            state.metadata.variables@[state.var_idx(params.var@)].dimensions@,
        ) >= 0 && state.spec_lon_axis(
            state.metadata.variables@[state.var_idx(params.var@)].dimensions@,
        ) >= 0)) ==> r is Err && (r->Err_0 matches RossbyError::VariableNotSuitableForImage {
            name,
        } && name@ == params.var@),
        r is Ok ==> ((r->Ok_0).format@ == "png"@ || (r->Ok_0).format@ == "jpeg"@) && (
        r->Ok_0).bytes@.len() > 0,
        r is Ok ==> ({
            let wr: u32 = match params.width {
                Some(v) => v,
                None => 800,
            };
            let hr: u32 = match params.height {
                Some(v) => v,
                None => 600,
            };
            let is_png = match params.format {
                Some(f) => lower_seq(f@) == "png"@,
                None => true,
            };
            &&& (r->Ok_0).format@ == (if is_png {
                "png"@
            } else {
                "jpeg"@
            })
            &&& exists|buf: Seq<u8>|
                #[trigger] image_payload(buf) && buf.len() == 4 * (wr as int) * (hr as int)
                    && (r->Ok_0).bytes@ == (if is_png {
                    png_of(wr, hr, buf)
                } else {
                    jpeg_of(wr, hr, buf)
                })
        }),
        r matches Err(RossbyError::InvalidParameter { param, .. }) && param@ == "bbox"@
            ==> params.bbox is Some && (match crate::geo::spec_parse_bbox(
            (params.bbox->Some_0)@,
        ) {
            Some(t) => t.0 > t.2 && params.wrap_longitude != Some(true),
            None => true,
        }),
        r matches Err(RossbyError::InvalidParameter { param, .. }) && param@ == "format"@
            ==> params.format is Some && lower_seq((params.format->Some_0)@) != "png"@
            && lower_seq((params.format->Some_0)@) != "jpeg"@,
        r matches Err(RossbyError::InvalidParameter { param, .. }) && (param@ == "width"@
            || param@ == "height"@) ==> !{
            let wr: u32 = match params.width {
                Some(v) => v,
                None => 800,
            };
            let hr: u32 = match params.height {
                Some(v) => v,
                None => 600,
            };
            2 <= wr <= 16384 && 2 <= hr <= 16384
        },
        r matches Err(RossbyError::IndexOutOfBounds { param, .. }) && param@ == "time_index"@
            ==> (params.time_raw_index matches Some(i) && i as int >= state.spec_time_size())
            || params.time is Some || (params.time_index matches Some(i) && i as int
            >= state.spec_time_size()),
        img_ok(*state, *params) ==> r is Ok,
        (img_gate(*state, *params) && (params.bbox matches Some(b)
            && crate::geo::spec_parse_bbox(b@) matches Some(t) && t.0 > t.2)
            && params.wrap_longitude != Some(true)) ==> (r matches Err(
            RossbyError::InvalidParameter { param, .. },
        ) && param@ == "bbox"@),
        (img_gate(*state, *params) && (match params.bbox {
            Some(b) => crate::geo::spec_parse_bbox(b@) matches Some(t) && (t.0 <= t.2
                || params.wrap_longitude == Some(true)),
            None => (state.lon_coords() matches Some(lons) && lons.len() > 0)
                && (state.lat_coords() matches Some(lats) && lats.len() > 0),
        }) && ({
            let wr: u32 = match params.width {
                Some(v) => v,
                None => 800,
            };
            let hr: u32 = match params.height {
                Some(v) => v,
                None => 600,
            };
            2 <= wr <= 16384 && 2 <= hr <= 16384
        }) && (match params.colormap {
            Some(c) => lower_seq(c@) == "viridis"@ || lower_seq(c@) == "plasma"@
                || lower_seq(c@) == "inferno"@ || lower_seq(c@) == "magma"@ || lower_seq(c@)
                == "cividis"@ || lower_seq(c@) == "coolwarm"@ || lower_seq(c@) == "rdbu"@
                || lower_seq(c@) == "seismic"@,
            None => true,
        }) && (params.format matches Some(f) && lower_seq(f@) != "png"@ && lower_seq(f@)
            != "jpeg"@)) ==> (r matches Err(RossbyError::InvalidParameter { param, .. })
            && param@ == "format"@),
        (img_gate(*state, *params) && (match params.bbox {
            Some(b) => crate::geo::spec_parse_bbox(b@) matches Some(t) && (t.0 <= t.2
                || params.wrap_longitude == Some(true)),
            None => (state.lon_coords() matches Some(lons) && lons.len() > 0)
                && (state.lat_coords() matches Some(lats) && lats.len() > 0),
        }) && !{
            let wr: u32 = match params.width {
                Some(v) => v,
                None => 800,
            };
            2 <= wr <= 16384
        }) ==> (r matches Err(RossbyError::InvalidParameter { param, .. }) && param@
            == "width"@),
        (img_gate(*state, *params) && (match params.bbox {
            Some(b) => crate::geo::spec_parse_bbox(b@) matches Some(t) && (t.0 <= t.2
                || params.wrap_longitude == Some(true)),
            None => (state.lon_coords() matches Some(lons) && lons.len() > 0)
                && (state.lat_coords() matches Some(lats) && lats.len() > 0),
        }) && ({
            let wr: u32 = match params.width {
                Some(v) => v,
                None => 800,
            };
            2 <= wr <= 16384
        }) && !{
            let hr: u32 = match params.height {
                Some(v) => v,
                None => 600,
            };
            2 <= hr <= 16384
        }) ==> (r matches Err(RossbyError::InvalidParameter { param, .. }) && param@
            == "height"@),
{
    proof {
        reveal_strlit("png");
        reveal_strlit("jpeg");
        reveal_strlit("format");
        reveal_strlit("bbox");
        reveal_strlit("center");
        reveal_strlit("width");
        reveal_strlit("height");
        reveal_strlit("time_index");
        reveal_strlit("time");
        reveal_strlit("viridis");
        reveal_strlit("auto");
        reveal_strlit("none");
        reveal_strlit("eurocentric");
        reveal_strlit("index");
        reveal_strlit("The bounding box crosses the dateline; set wrap_longitude=true");
        reveal_strlit("The selected slice is empty");
        reveal_strlit("The image width must be between 2 and 16384 pixels");
        reveal_strlit("The image height must be between 2 and 16384 pixels");
        reveal_strlit("The image format must be png or jpeg");
        reveal_strlit("colormap");
        reveal_strlit("bounding box");
        reveal_strlit("dimension index");
        assert(lower_seq("png"@) =~= "png"@);
        assert(lower_seq("jpeg"@) =~= "jpeg"@);
        assert(lower_seq("viridis"@) =~= "viridis"@);
        assert("bounding box"@.len() == 12 && "dimension index"@.len() == 15);
        assert("bbox"@.len() == 4 && "format"@.len() == 6 && "width"@.len() == 5
            && "height"@.len() == 6 && "time_index"@.len() == 10 && "center"@.len() == 6
            && "colormap"@.len() == 8);
        assert("format"@[0] == 'f' && "height"@[0] == 'h' && "center"@[0] == 'c');
        assert("format"@ != "height"@ && "format"@ != "center"@ && "height"@ != "center"@);
    }
    let var_name = params.var.as_str();
    if !state.has_variable(var_name) {
        let mut names: Vec<String> = Vec::new();
        names.push(params.var.clone());
        return Err(RossbyError::InvalidVariables { names });
    }
    let var_meta = state.get_variable_metadata_checked(var_name)?;
    let has_lat = state.find_lat_axis(&var_meta.dimensions).is_some();
    let has_lon = state.find_lon_axis(&var_meta.dimensions).is_some();
    if !has_lat || !has_lon {
        return Err(
            RossbyError::VariableNotSuitableForImage { name: params.var.clone() },
        );
    }
    let time_index: usize = match params.time_raw_index {
        Some(idx) => idx,
        None => match params.time {
            Some(tv) => match state.find_coordinate_index_exact("time", tv) {
                Ok(idx) => idx,
                Err(RossbyError::PhysicalValueNotFound { dimension, value, available }) => {
                    return Err(
                        RossbyError::PhysicalValueNotFound { dimension, value, available },
                    );
                },
                Err(_) => state.find_coordinate_index("time", tv)?,
            },
            None => match params.time_index {
                Some(idx) => idx,
                None => 0,
            },
        },
    };
    proof {
        if img_time_ok(*state, *params) {
            match params.time_raw_index {
                Some(_) => {},
                None => match params.time {
                    Some(tv) => {
                        let t = state.spec_resolve("time"@)->Some_0;
                        let c = state.metadata.coordinates@[state.coord_idx(t)].values@;
                        let j = choose|j: int|
                            0 <= j < c.len() && #[trigger] c[j] == tv && (forall|q: int|
                                0 <= q < j ==> c[q] != tv);
                        assert(c[time_index as int] == tv);
                        if j < time_index {
                            assert(c[j] == tv);
                            assert(false);
                        }
                        if time_index < j {
                            assert(c[time_index as int] != tv);
                            assert(false);
                        }
                        assert(time_index as int == img_time_index(*state, *params));
                        let jg = choose|j: int|
                            0 <= j < c.len() && #[trigger] c[j] == tv && (forall|q: int|
                                0 <= q < j ==> c[q] != tv) && j < state.spec_time_size();
                        if jg < time_index {
                            assert(c[jg] == tv);
                            assert(false);
                        }
                        if time_index < jg {
                            assert(c[time_index as int] != tv);
                            assert(false);
                        }
                    },
                    None => {},
                },
            }
            assert(time_index as int == img_time_index(*state, *params));
            assert((time_index as int) < state.spec_time_size());
        }
    }
    if time_index >= state.time_dim_size() {
        proof {
            if state.dim_idx("time"@) >= 0 {
                crate::state::lemma_key_index(
                    crate::state::dim_names(state.metadata.dimensions@),
                    "time"@,
                );
            }
        }
        let m = if state.time_dim_size() > 0 {
            state.time_dim_size() - 1
        } else {
            0
        };
        return Err(
            RossbyError::IndexOutOfBounds {
                param: "time_index".to_owned(),
                value: "index".to_owned(),
                max: m,
            },
        );
    }
    let projection: MapProjection = match &params.center {
        Some(c) => match MapProjection::parse_projection(c.as_str()) {
            Ok(p) => p,
            Err(e) => match parse_fixed(c.as_str()) {
                Some(center_lon) => {
                    proof {
                        crate::text::lemma_parse_fixed_bounded(c@);
                    }
                    MapProjection::Custom(center_lon)
                },
                None => {
                    return Err(e);
                },
            },
        },
        None => MapProjection::Eurocentric,
    };
    let wrap_longitude = match params.wrap_longitude {
        Some(b) => b,
        None => false,
    };
    let (min_lon, min_lat, max_lon, max_lat) = match &params.bbox {
        Some(b) => {
            let t = parse_bbox(b.as_str())?;
            proof {
                lemma_bbox_bounded(b@);
            }
            t
        },
        None => {
            let (a, b, c, d) = state.get_lat_lon_bounds()?;
            proof {
                crate::point::lemma_coords_by_names_bounded(
                    state,
                    seq!["lon"@, "_longitude"@, "longitude"@],
                );
                crate::point::lemma_coords_by_names_bounded(
                    state,
                    seq!["lat"@, "_latitude"@, "latitude"@],
                );
            }
            (a, b, c, d)
        },
    };
    let ((adj_min_lon, adj_min_lat, adj_max_lon, adj_max_lat), crosses_dateline) = if
        wrap_longitude {
        handle_dateline_crossing_bbox(min_lon, min_lat, max_lon, max_lat, &projection)?
    } else if min_lon > max_lon {
        return Err(
            RossbyError::InvalidParameter {
                param: "bbox".to_owned(),
                message:
                    "The bounding box crosses the dateline; set wrap_longitude=true".to_owned(),
            },
        );
    } else {
        ((min_lon, min_lat, max_lon, max_lat), false)
    };
    let width: u32 = match params.width {
        Some(v) => v,
        None => 800,
    };
    let height: u32 = match params.height {
        Some(v) => v,
        None => 600,
    };
    // 16384 by 16384 RGBA pixels is already a gibibyte of buffer; the cap
    // also keeps 4 * width * height within a 32-bit usize.
    if width < 2 || width > 16384 {
        return Err(
            RossbyError::InvalidParameter {
                param: "width".to_owned(),
                message: "The image width must be between 2 and 16384 pixels".to_owned(),
            },
        );
    }
    if height < 2 || height > 16384 {
        return Err(
            RossbyError::InvalidParameter {
                param: "height".to_owned(),
                message: "The image height must be between 2 and 16384 pixels".to_owned(),
            },
        );
    }
    let colormap: ColormapKind = match &params.colormap {
        Some(c) => get_colormap(c.as_str())?,
        None => get_colormap("viridis")?,
    };
    let resampling: String = match &params.resampling {
        Some(rname) => rname.clone(),
        None => match &params.interpolation {
            Some(rname) => rname.clone(),
            None => "auto".to_owned(),
        },
    };
    let format: String = match &params.format {
        Some(f) => f.clone(),
        None => "png".to_owned(),
    };
    let is_png = str_eq_ignore_case(format.as_str(), "png");
    let is_jpeg = str_eq_ignore_case(format.as_str(), "jpeg");
    if !is_png && !is_jpeg {
        return Err(
            RossbyError::InvalidParameter {
                param: "format".to_owned(),
                message: "The image format must be png or jpeg".to_owned(),
            },
        );
    }
    let dr = state.get_data_slice(
        var_name,
        time_index,
        adj_min_lon,
        adj_min_lat,
        adj_max_lon,
        adj_max_lat,
    );
    proof {
        if img_ok(*state, *params) {
            let (bb, sel) = choose|bb: (i64, i64, i64, i64), sel: Seq<(String, usize)>|
                {
                    &&& #[trigger] img_witness(bb, sel)
                    &&& img_bb_rel(*state, *params, bb)
                    &&& sel.len() == 1
                    &&& sel[0].0@ == "time"@
                    &&& sel[0].1 as int == img_time_index(*state, *params)
                    &&& state.pick_lon() matches Some(lons) && lons.len() > 0
                    &&& state.pick_lat() matches Some(lats) && lats.len() > 0
                    &&& state.slice_ok(params.var@, bb.0, bb.1, bb.2, bb.3, sel)
                };
            assert(bb == (adj_min_lon, adj_min_lat, adj_max_lon, adj_max_lat));
            assert(sel[0].1 == time_index);
            assert(state.slice_ok(
                params.var@,
                adj_min_lon,
                adj_min_lat,
                adj_max_lon,
                adj_max_lat,
                sel,
            ));
            assert(exists|s1: Seq<(String, usize)>|
                s1.len() == 1 && (#[trigger] s1[0]).0@ == "time"@ && s1[0].1 == time_index
                    && state.slice_ok(
                    params.var@,
                    adj_min_lon,
                    adj_min_lat,
                    adj_max_lon,
                    adj_max_lat,
                    s1,
                ));
            assert(dr is Ok);
        }
    }
    let mut data = match dr {
        Ok(g) => g,
        Err(e) => {
            return Err(e);
        },
    };
    if crosses_dateline && data.rows > 0 && data.cols > 0 {
        match state.get_lon_coords() {
            Some(lon_coords) => {
                proof {
                    crate::point::lemma_coords_by_names_bounded(
                        state,
                        seq!["lon"@, "_longitude"@, "longitude"@],
                    );
                }
                let (new_data, _new_lons) = adjust_for_dateline_crossing(
                    &data,
                    lon_coords,
                    crosses_dateline,
                )?;
                data = new_data;
            },
            None => {},
        }
    }
    if data.rows == 0 || data.cols == 0 {
        return Err(
            RossbyError::ImageGeneration {
                message: "The selected slice is empty".to_owned(),
            },
        );
    }
    if !str_eq(resampling.as_str(), "none") {
        let too_wide = (data.cols as u64) > 2 * (width as u64);
        let too_tall = (data.rows as u64) > 2 * (height as u64);
        if too_wide || too_tall {
            let tw0 = ((width as u64) * 4 / 5) as usize;
            let th0 = ((height as u64) * 4 / 5) as usize;
            let tw = if tw0 < data.cols {
                tw0
            } else {
                data.cols
            };
            let th = if th0 < data.rows {
                th0
            } else {
                data.rows
            };
            if tw >= 2 && th >= 2 {
                proof {
                    assert(tw <= 16384);
                    assert(th <= 16384);
                }
                data = resample_data(&data, tw, th)?;
            }
        }
    }
    let buf = generate_image(&data, width, height, colormap, resampling.as_str())?;
    let bytes = if is_png {
        encode_png(width, height, &buf)?
    } else {
        encode_jpeg(width, height, &buf)?
    };
    proof {
        assert(image_payload(buf@));
    }
    Ok(
        ImageResponse {
            format: if is_png {
                "png".to_owned()
            } else {
                "jpeg".to_owned()
            },
            bytes,
        },
    )
}

/// A parsed bounding box has bounded components.
proof fn lemma_bbox_bounded(s: Seq<char>)
    ensures
        match crate::geo::spec_parse_bbox(s) {
            Some((a, b, c, d)) => -FX_VAL_MAX <= a <= FX_VAL_MAX && -FX_VAL_MAX <= c
                <= FX_VAL_MAX,
            None => true,
        },
{
    let parts = crate::text::spec_split(s, ',');
    if parts.len() == 4 {
        crate::text::lemma_parse_fixed_bounded(parts[0]);
        crate::text::lemma_parse_fixed_bounded(parts[2]);
    }
}

} // verus!
