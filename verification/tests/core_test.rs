//! Unit tests for the numeric core: configuration, indexing, kernels,
//! colormaps, geographic helpers, and text rendering.

use rossby::colormaps::{
    get_colormap, lerp_color, Cividis, ColormapKind, Coolwarm, Inferno, Magma, Plasma, RdBu,
    Seismic, Viridis,
};
use rossby::config::Config;
use rossby::error::RossbyError;
use rossby::fx::{normalize_longitude, SCALE};
use rossby::geo::{handle_dateline_crossing_bbox, parse_bbox, MapProjection};
use rossby::grid::Grid2;
use rossby::interpolation::{
    clamp_index, compute_indices, cubic_weights, flat_index, get_interpolator, linear_weight,
    BicubicInterpolator, BilinearInterpolator, InterpolatorKind, NearestInterpolator,
};
use rossby::logging::{generate_request_id, log_timed_operation, start_timed_operation};
use rossby::point::coord_to_index;

fn fx(v: f64) -> i64 {
    (v * 1_000_000.0).round() as i64
}

#[test]
fn test_default_config() {
    let config = Config::default();
    assert_eq!(config.server.host, "127.0.0.1");
    assert_eq!(config.server.port, 8000);
    assert_eq!(config.data.interpolation_method, "bilinear");
    assert_eq!(config.log_level, "info");
}

#[test]
fn test_config_merge() {
    let mut config1 = Config::default();
    let mut config2 = Config::default();

    config2.server.port = 9000;
    config2.server.workers = Some(4);

    config1.merge(config2);

    assert_eq!(config1.server.port, 9000);
    assert_eq!(config1.server.workers, Some(4));
}

#[test]
fn test_config_validation() {
    let config = Config::default();
    assert!(config.validate().is_ok());

    let mut config = Config::default();
    config.server.host = "".to_string();
    assert!(config.validate().is_err());

    let mut config = Config::default();
    config.server.port = 0;
    assert!(config.validate().is_err());

    let mut config = Config::default();
    config.log_level = "invalid".to_string();
    assert!(config.validate().is_err());

    let mut config = Config::default();
    config.data.interpolation_method = "invalid".to_string();
    assert!(config.validate().is_err());
}

#[test]
fn test_flat_index_1d() {
    let shape = vec![5];
    assert_eq!(flat_index(&vec![0], &shape).unwrap(), 0);
    assert_eq!(flat_index(&vec![3], &shape).unwrap(), 3);
    assert_eq!(flat_index(&vec![4], &shape).unwrap(), 4);
}

#[test]
fn test_flat_index_2d() {
    let shape = vec![3, 4];
    assert_eq!(flat_index(&vec![0, 0], &shape).unwrap(), 0);
    assert_eq!(flat_index(&vec![0, 1], &shape).unwrap(), 1);
    assert_eq!(flat_index(&vec![1, 0], &shape).unwrap(), 4);
    assert_eq!(flat_index(&vec![2, 3], &shape).unwrap(), 11);
}

#[test]
fn test_flat_index_3d() {
    let shape = vec![2, 3, 4];
    assert_eq!(flat_index(&vec![0, 0, 0], &shape).unwrap(), 0);
    assert_eq!(flat_index(&vec![0, 0, 1], &shape).unwrap(), 1);
    assert_eq!(flat_index(&vec![0, 1, 0], &shape).unwrap(), 4);
    assert_eq!(flat_index(&vec![1, 0, 0], &shape).unwrap(), 12);
    assert_eq!(flat_index(&vec![1, 2, 3], &shape).unwrap(), 23);
}

#[test]
fn test_flat_index_out_of_bounds() {
    let shape = vec![2, 3];
    let result = flat_index(&vec![2, 0], &shape);
    assert!(result.is_err());

    let result = flat_index(&vec![0, 3], &shape);
    assert!(result.is_err());
}

#[test]
fn test_flat_index_dimension_mismatch() {
    let shape = vec![2, 3];
    let result = flat_index(&vec![1], &shape);
    assert!(result.is_err());

    let result = flat_index(&vec![1, 1, 1], &shape);
    assert!(result.is_err());
}

#[test]
fn test_compute_indices_inverts_flat_index() {
    let shape = vec![2, 3, 4];
    for flat in 0..24usize {
        let mut idx = vec![0usize; 3];
        compute_indices(&mut idx, flat, &shape);
        assert_eq!(flat_index(&idx, &shape).unwrap(), flat);
    }
}

#[test]
fn test_log_timed_operation() {
    let result = log_timed_operation("test_operation", || Ok::<_, ()>(42));
    assert_eq!(result.unwrap(), 42);

    let error_result: Result<(), &str> = log_timed_operation("failing_operation", || {
        Err("test error")
    });
    assert_eq!(error_result.unwrap_err(), "test error");
}

#[test]
fn test_start_timed_operation() {
    let guard = start_timed_operation("load", None);
    assert_eq!(guard.operation, "load");
}

#[test]
fn test_generate_request_id() {
    let id1 = generate_request_id();
    let id2 = generate_request_id();
    assert_eq!(id1.len(), 36);
    assert_eq!(id2.len(), 36);
    assert_ne!(id1, id2);
}

fn assert_approx_eq(actual: f32, expected: f32, epsilon: Option<f32>) {
    let epsilon = epsilon.unwrap_or(1e-6);
    let diff = (actual - expected).abs();
    assert!(
        diff <= epsilon,
        "Values not approximately equal: actual = {}, expected = {}",
        actual,
        expected
    );
}

fn assert_array_approx_eq(actual: &[f32], expected: &[f32], epsilon: Option<f32>) {
    assert_eq!(actual.len(), expected.len());
    for (a, e) in actual.iter().zip(expected.iter()) {
        let diff = (a - e).abs();
        assert!(diff <= epsilon.unwrap_or(1e-6));
    }
}

fn assert_in_range(actual: f32, min: f32, max: f32) {
    assert!(actual >= min && actual <= max);
}

#[test]
fn test_assert_approx_eq() {
    assert_approx_eq(1.0, 1.0, None);
    assert_approx_eq(1.0, 1.0000001, None);
    assert_approx_eq(1.0, 1.001, Some(0.01));
}

#[test]
fn test_assert_array_approx_eq() {
    assert_array_approx_eq(&[1.0, 2.0, 3.0], &[1.0, 2.0, 3.0], None);
    assert_array_approx_eq(&[1.0, 2.0, 3.0], &[1.0000001, 2.0000001, 3.0000001], None);
    assert_array_approx_eq(&[1.0, 2.0, 3.0], &[1.001, 2.001, 3.001], Some(0.01));
}

#[test]
fn test_assert_in_range() {
    assert_in_range(5.0, 0.0, 10.0);
    assert_in_range(0.0, 0.0, 10.0);
    assert_in_range(10.0, 0.0, 10.0);
}

fn assert_image_dimensions(
    img: &image::DynamicImage,
    width: u32,
    height: u32,
) -> Result<(), String> {
    if image::GenericImageView::dimensions(img) != (width, height) {
        return Err(format!(
            "Image dimensions differ: actual = {:?}, expected = {:?}",
            image::GenericImageView::dimensions(img),
            (width, height)
        ));
    }
    Ok(())
}

#[test]
fn test_assert_image_dimensions() {
    let img = image::DynamicImage::new_rgb8(10, 20);
    assert!(assert_image_dimensions(&img, 10, 20).is_ok());
    assert!(assert_image_dimensions(&img, 11, 20).is_err());
    assert!(assert_image_dimensions(&img, 10, 21).is_err());
}

#[test]
fn test_colormap_names() {
    assert_eq!(Coolwarm.name(), "coolwarm");
    assert_eq!(RdBu.name(), "rdbu");
    assert_eq!(Seismic.name(), "seismic");
}

#[test]
fn sequential_test_colormap_names() {
    assert_eq!(Viridis.name(), "viridis");
    assert_eq!(Plasma.name(), "plasma");
    assert_eq!(Inferno.name(), "inferno");
    assert_eq!(Magma.name(), "magma");
    assert_eq!(Cividis.name(), "cividis");
}

#[test]
fn test_viridis_bounds() {
    let low = Viridis.map_normalized(0);
    assert_eq!(low, [68, 1, 84, 255]);
    let high = Viridis.map_normalized(SCALE);
    assert_eq!(high, [253, 231, 36, 255]);
    assert_eq!(low[3], 255);
    assert_eq!(high[3], 255);
}

#[test]
fn test_coolwarm_bounds() {
    let low = Coolwarm.map_normalized(0);
    let high = Coolwarm.map_normalized(SCALE);
    assert_eq!(low, [59, 76, 192, 255]);
    assert_eq!(high, [192, 40, 47, 255]);
    assert!(low[2] > low[0]);
    assert!(high[0] > high[2]);
    assert!(low[2] > 180);
}

#[test]
fn test_seismic_middle() {
    let mid = Seismic.map_normalized(SCALE / 2);
    assert_eq!(mid, [255, 255, 255, 255]);
}

#[test]
fn test_lerp_color() {
    let black = [0, 0, 0];
    let white = [255, 255, 255];
    let mid = lerp_color(black, white, SCALE / 2);
    assert_eq!(mid[0], 127);
    assert_eq!(mid[1], 127);
    assert_eq!(mid[2], 127);
}

#[test]
fn test_get_colormap_names() {
    assert!(matches!(get_colormap("viridis"), Ok(ColormapKind::Viridis)));
    assert!(matches!(get_colormap("RDBU"), Ok(ColormapKind::RdBu)));
    assert!(matches!(
        get_colormap("unknown"),
        Err(RossbyError::InvalidParameter { .. })
    ));
}

#[test]
fn test_normalize_longitude() {
    assert_eq!(normalize_longitude(0), 0);
    assert_eq!(normalize_longitude(fx(180.0)), fx(-180.0));
    assert_eq!(normalize_longitude(fx(-180.0)), fx(-180.0));
    assert_eq!(normalize_longitude(fx(190.0)), fx(-170.0));
    assert_eq!(normalize_longitude(fx(-190.0)), fx(170.0));
    assert_eq!(normalize_longitude(fx(370.0)), fx(10.0));
    assert_eq!(normalize_longitude(fx(-370.0)), fx(-10.0));
}

#[test]
fn test_normalize_longitude_idempotent() {
    for v in [-1234567890i64, -400000000, -5, 0, 7, 123456789, 987654321] {
        assert_eq!(normalize_longitude(normalize_longitude(v)), normalize_longitude(v));
        assert_eq!(normalize_longitude(v + 360_000_000), normalize_longitude(v));
    }
}

#[test]
fn test_parse_bbox() {
    let result = parse_bbox("10.5,20.5,30.5,40.5");
    assert!(result.is_ok());
    let (min_lon, min_lat, max_lon, max_lat) = result.unwrap();
    assert_eq!(min_lon, fx(10.5));
    assert_eq!(min_lat, fx(20.5));
    assert_eq!(max_lon, fx(30.5));
    assert_eq!(max_lat, fx(40.5));

    assert!(parse_bbox("10.5,20.5,30.5").is_err());
    assert!(parse_bbox("10.5,20.5,not_a_number,40.5").is_err());
    assert!(parse_bbox("10.5,-91.0,30.5,40.5").is_err());
    assert!(parse_bbox("10.5,20.5,30.5,91.0").is_err());
    assert!(parse_bbox("10.5,40.5,30.5,20.5").is_err());
}

#[test]
fn image_test_parse_bbox() {
    let result = parse_bbox("10.5,20.5,30.5,40.5");
    assert!(result.is_ok());
    let (min_lon, min_lat, max_lon, max_lat) = result.unwrap();
    assert_eq!(min_lon, fx(10.5));
    assert_eq!(min_lat, fx(20.5));
    assert_eq!(max_lon, fx(30.5));
    assert_eq!(max_lat, fx(40.5));
    assert!(parse_bbox("10.5,20.5,30.5").is_err());
    assert!(parse_bbox("10.5,20.5,not_a_number,40.5").is_err());
    assert!(parse_bbox("10.5,40.5,30.5,20.5").is_err());
}

#[test]
fn test_map_projection() {
    assert_eq!(
        MapProjection::parse_projection("eurocentric").unwrap(),
        MapProjection::Eurocentric
    );
    assert_eq!(
        MapProjection::parse_projection("americas").unwrap(),
        MapProjection::Americas
    );
    assert_eq!(
        MapProjection::parse_projection("pacific").unwrap(),
        MapProjection::Pacific
    );
    assert_eq!(
        MapProjection::parse_projection("custom:45.0").unwrap(),
        MapProjection::Custom(fx(45.0))
    );

    assert_eq!(MapProjection::Eurocentric.center_longitude(), 0);
    assert_eq!(MapProjection::Americas.center_longitude(), fx(-90.0));
    assert_eq!(MapProjection::Pacific.center_longitude(), fx(180.0));
    assert_eq!(MapProjection::Custom(fx(45.0)).center_longitude(), fx(45.0));

    assert!(MapProjection::parse_projection("invalid").is_err());
}

#[test]
fn test_handle_dateline_crossing_bbox() {
    let result =
        handle_dateline_crossing_bbox(fx(-10.0), fx(10.0), fx(10.0), fx(20.0), &MapProjection::Eurocentric);
    let ((min_lon, min_lat, max_lon, max_lat), crosses) = result.unwrap();
    assert_eq!(min_lon, fx(-10.0));
    assert_eq!(min_lat, fx(10.0));
    assert_eq!(max_lon, fx(10.0));
    assert_eq!(max_lat, fx(20.0));
    assert!(!crosses);

    let result =
        handle_dateline_crossing_bbox(fx(170.0), fx(10.0), fx(-170.0), fx(20.0), &MapProjection::Eurocentric);
    let ((min_lon, _min_lat, max_lon, _max_lat), crosses) = result.unwrap();
    assert_eq!(min_lon, fx(170.0));
    assert_eq!(max_lon, fx(-170.0));
    assert!(crosses);

    let result =
        handle_dateline_crossing_bbox(fx(-10.0), fx(10.0), fx(10.0), fx(20.0), &MapProjection::Pacific);
    let ((min_lon, _, max_lon, _), crosses) = result.unwrap();
    assert_eq!(min_lon, fx(-10.0));
    assert_eq!(max_lon, fx(10.0));
    assert!(!crosses);
}

#[test]
fn test_dateline_crossing() {
    let result =
        handle_dateline_crossing_bbox(fx(170.0), fx(20.0), fx(-170.0), fx(40.0), &MapProjection::Pacific);
    let (_, crosses) = result.unwrap();
    assert!(crosses);
}

#[test]
fn test_clamp_index() {
    assert_eq!(clamp_index(fx(-1.0), 10), 0);
    assert_eq!(clamp_index(fx(5.5), 10), fx(5.5));
    assert_eq!(clamp_index(fx(15.0), 10), fx(9.0));
}

#[test]
fn test_linear_weight() {
    let (w0, w1) = linear_weight(fx(0.3));
    assert_eq!(w0, fx(0.7));
    assert_eq!(w1, fx(0.3));
    assert_eq!(w0 + w1, SCALE);
}

#[test]
fn test_cubic_weights() {
    let den = 2_000_000_000_000_000_000i64;
    let w = cubic_weights(SCALE / 2);
    assert_eq!(w[0], -125_000_000_000_000_000);
    assert_eq!(w[1], 1_125_000_000_000_000_000);
    assert_eq!(w[2], 1_125_000_000_000_000_000);
    assert_eq!(w[3], -125_000_000_000_000_000);
    assert_eq!(w[0] + w[1] + w[2] + w[3], den);

    let w = cubic_weights(0);
    assert_eq!(w[1], den);

    let w = cubic_weights(SCALE);
    assert_eq!(w[2], den);
}

#[test]
fn test_coord_to_index_empty_array() {
    let result = coord_to_index(fx(5.0), &vec![]);
    assert!(result.is_err());
}

#[test]
fn test_coord_to_index_below_range() {
    let coords = vec![fx(10.0), fx(20.0), fx(30.0), fx(40.0)];
    assert_eq!(coord_to_index(fx(5.0), &coords).unwrap(), 0);
}

#[test]
fn test_coord_to_index_above_range() {
    let coords = vec![fx(10.0), fx(20.0), fx(30.0), fx(40.0)];
    assert_eq!(coord_to_index(fx(45.0), &coords).unwrap(), fx(3.0));
}

#[test]
fn test_coord_to_index_exact_match() {
    let coords = vec![fx(10.0), fx(20.0), fx(30.0), fx(40.0)];
    assert_eq!(coord_to_index(fx(20.0), &coords).unwrap(), fx(1.0));
}

#[test]
fn test_coord_to_index_interpolation() {
    let coords = vec![fx(10.0), fx(20.0), fx(30.0), fx(40.0)];
    assert_eq!(coord_to_index(fx(25.0), &coords).unwrap(), fx(1.5));
}

#[test]
fn test_coord_to_index_non_uniform() {
    let coords = vec![fx(10.0), fx(15.0), fx(30.0), fx(50.0)];
    let result = coord_to_index(fx(20.0), &coords).unwrap();
    assert!((result - 1_333_333).abs() <= 1);
}

#[test]
fn test_nearest_interpolation_1d() {
    let data = vec![fx(1.0), fx(2.0), fx(3.0), fx(4.0), fx(5.0)];
    let shape = vec![5];
    let interpolator = NearestInterpolator;

    assert_eq!(interpolator.interpolate(&data, &shape, &vec![0]).unwrap(), fx(1.0));
    assert_eq!(interpolator.interpolate(&data, &shape, &vec![fx(2.0)]).unwrap(), fx(3.0));
    assert_eq!(interpolator.interpolate(&data, &shape, &vec![fx(4.0)]).unwrap(), fx(5.0));
    assert_eq!(interpolator.interpolate(&data, &shape, &vec![fx(0.2)]).unwrap(), fx(1.0));
    assert_eq!(interpolator.interpolate(&data, &shape, &vec![fx(2.2)]).unwrap(), fx(3.0));
    assert_eq!(interpolator.interpolate(&data, &shape, &vec![fx(0.7)]).unwrap(), fx(2.0));
    assert_eq!(interpolator.interpolate(&data, &shape, &vec![fx(2.7)]).unwrap(), fx(4.0));
    assert_eq!(interpolator.interpolate(&data, &shape, &vec![fx(-1.0)]).unwrap(), fx(1.0));
    assert_eq!(interpolator.interpolate(&data, &shape, &vec![fx(5.5)]).unwrap(), fx(5.0));
}

#[test]
fn test_nearest_interpolation_2d() {
    let data = vec![
        fx(1.0), fx(2.0), fx(3.0),
        fx(4.0), fx(5.0), fx(6.0),
        fx(7.0), fx(8.0), fx(9.0),
    ];
    let shape = vec![3, 3];
    let interpolator = NearestInterpolator;

    assert_eq!(interpolator.interpolate(&data, &shape, &vec![0, 0]).unwrap(), fx(1.0));
    assert_eq!(interpolator.interpolate(&data, &shape, &vec![0, fx(2.0)]).unwrap(), fx(3.0));
    assert_eq!(interpolator.interpolate(&data, &shape, &vec![fx(2.0), 0]).unwrap(), fx(7.0));
    assert_eq!(
        interpolator.interpolate(&data, &shape, &vec![fx(2.0), fx(2.0)]).unwrap(),
        fx(9.0)
    );
    assert_eq!(
        interpolator.interpolate(&data, &shape, &vec![fx(1.0), fx(1.0)]).unwrap(),
        fx(5.0)
    );
    assert_eq!(
        interpolator.interpolate(&data, &shape, &vec![fx(0.7), fx(1.3)]).unwrap(),
        fx(5.0)
    );
    assert_eq!(
        interpolator.interpolate(&data, &shape, &vec![fx(1.2), fx(1.7)]).unwrap(),
        fx(6.0)
    );
}

#[test]
fn test_nearest_interpolation_error_cases() {
    let data = vec![fx(1.0), fx(2.0), fx(3.0), fx(4.0)];
    let shape = vec![2, 2];
    let interpolator = NearestInterpolator;

    assert!(interpolator.interpolate(&data, &shape, &vec![fx(1.0)]).is_err());
    assert!(interpolator
        .interpolate(&data, &shape, &vec![fx(1.0), fx(1.0), fx(1.0)])
        .is_err());
}

#[test]
fn test_bilinear_interpolation_1d() {
    let data = vec![fx(1.0), fx(2.0), fx(3.0), fx(4.0), fx(5.0)];
    let shape = vec![5];
    let interpolator = BilinearInterpolator;

    assert_eq!(interpolator.interpolate(&data, &shape, &vec![0]).unwrap(), fx(1.0));
    assert_eq!(interpolator.interpolate(&data, &shape, &vec![fx(4.0)]).unwrap(), fx(5.0));
    assert_eq!(interpolator.interpolate(&data, &shape, &vec![fx(0.5)]).unwrap(), fx(1.5));
    assert_eq!(interpolator.interpolate(&data, &shape, &vec![fx(2.5)]).unwrap(), fx(3.5));
    assert_eq!(interpolator.interpolate(&data, &shape, &vec![fx(1.25)]).unwrap(), fx(2.25));
}

#[test]
fn test_bilinear_interpolation_2d() {
    let data = vec![
        fx(1.0), fx(2.0), fx(3.0),
        fx(4.0), fx(5.0), fx(6.0),
        fx(7.0), fx(8.0), fx(9.0),
    ];
    let shape = vec![3, 3];
    let interpolator = BilinearInterpolator;

    assert_eq!(interpolator.interpolate(&data, &shape, &vec![0, 0]).unwrap(), fx(1.0));
    assert_eq!(
        interpolator.interpolate(&data, &shape, &vec![fx(2.0), fx(2.0)]).unwrap(),
        fx(9.0)
    );
    assert_eq!(
        interpolator.interpolate(&data, &shape, &vec![fx(0.5), fx(0.5)]).unwrap(),
        fx(3.0)
    );
    assert_eq!(
        interpolator.interpolate(&data, &shape, &vec![fx(1.5), fx(1.5)]).unwrap(),
        fx(7.0)
    );
}

#[test]
fn test_bilinear_interpolation_3d() {
    let mut data = Vec::new();
    for t in 0..2 {
        for la in 0..2 {
            for lo in 0..2 {
                data.push(fx((t * 4 + la * 2 + lo) as f64));
            }
        }
    }
    let shape = vec![2, 2, 2];
    let interpolator = BilinearInterpolator;

    assert_eq!(interpolator.interpolate(&data, &shape, &vec![0, 0, 0]).unwrap(), 0);
    assert_eq!(
        interpolator
            .interpolate(&data, &shape, &vec![fx(1.0), fx(1.0), fx(1.0)])
            .unwrap(),
        fx(7.0)
    );
    assert_eq!(
        interpolator
            .interpolate(&data, &shape, &vec![fx(0.5), fx(0.5), fx(0.5)])
            .unwrap(),
        fx(3.5)
    );
}

#[test]
fn test_bilinear_interpolation_error_cases() {
    let data = vec![fx(1.0), fx(2.0), fx(3.0), fx(4.0)];
    let shape = vec![2, 2];
    let interpolator = BilinearInterpolator;

    assert!(interpolator.interpolate(&data, &shape, &vec![fx(1.0)]).is_err());
    assert!(interpolator
        .interpolate(&data, &shape, &vec![fx(1.0), fx(1.0), fx(1.0)])
        .is_err());
}

#[test]
fn test_bicubic_interpolation_1d() {
    let data = vec![fx(1.0), fx(2.0), fx(3.0), fx(4.0), fx(5.0)];
    let shape = vec![5];
    let interpolator = BicubicInterpolator;

    assert_eq!(interpolator.interpolate(&data, &shape, &vec![0]).unwrap(), fx(1.0));
    assert_eq!(interpolator.interpolate(&data, &shape, &vec![fx(2.0)]).unwrap(), fx(3.0));
    assert_eq!(interpolator.interpolate(&data, &shape, &vec![fx(4.0)]).unwrap(), fx(5.0));
    // A linear ramp is reproduced by the cubic kernel away from the ends.
    let v = interpolator.interpolate(&data, &shape, &vec![fx(1.5)]).unwrap();
    assert!((v - fx(2.5)).abs() <= 2);
    let v = interpolator.interpolate(&data, &shape, &vec![fx(2.5)]).unwrap();
    assert!((v - fx(3.5)).abs() <= 2);
    assert!(interpolator.interpolate(&data, &shape, &vec![fx(1.0), fx(1.0)]).is_err());
}

#[test]
fn test_bicubic_interpolation_2d() {
    let mut data = Vec::new();
    for r in 0..4 {
        for c in 0..4 {
            data.push(fx((10 + r + c) as f64));
        }
    }
    let shape = vec![4, 4];
    let interpolator = BicubicInterpolator;

    assert_eq!(interpolator.interpolate(&data, &shape, &vec![0, 0]).unwrap(), fx(10.0));
    assert_eq!(
        interpolator.interpolate(&data, &shape, &vec![fx(3.0), fx(3.0)]).unwrap(),
        fx(16.0)
    );
    assert_eq!(
        interpolator.interpolate(&data, &shape, &vec![fx(1.0), fx(2.0)]).unwrap(),
        fx(13.0)
    );
    let v = interpolator
        .interpolate(&data, &shape, &vec![fx(1.5), fx(1.5)])
        .unwrap();
    assert!((v - fx(13.0)).abs() <= 2);
}

#[test]
fn test_bicubic_error_cases() {
    let data = vec![fx(10.0), fx(11.0), fx(12.0), fx(13.0)];
    let shape = vec![2, 2];
    let interpolator = BicubicInterpolator;
    // Axes shorter than four points are rejected.
    assert!(interpolator.interpolate(&data, &shape, &vec![fx(1.0), fx(1.0)]).is_err());
    let shape1 = vec![4];
    assert!(BicubicInterpolator
        .interpolate(&vec![fx(14.0), fx(15.0), fx(16.0), fx(10.0)], &shape1, &vec![0, 0])
        .is_err());
}

#[test]
fn test_get_interpolator() {
    assert!(matches!(get_interpolator("nearest"), Ok(InterpolatorKind::Nearest)));
    assert!(matches!(get_interpolator("BILINEAR"), Ok(InterpolatorKind::Bilinear)));
    assert!(matches!(get_interpolator("bicubic"), Ok(InterpolatorKind::Bicubic)));
    assert!(matches!(
        get_interpolator("sinc"),
        Err(RossbyError::InvalidParameter { .. })
    ));
}

#[test]
fn test_resample_data() {
    let data = Grid2 {
        rows: 2,
        cols: 3,
        values: vec![fx(1.0), fx(2.0), fx(3.0), fx(4.0), fx(5.0), fx(6.0)],
    };
    let result = rossby::geo::resample_data(&data, 6, 4);
    assert!(result.is_ok());
    let resampled = result.unwrap();
    assert_eq!(resampled.rows, 4);
    assert_eq!(resampled.cols, 6);
    assert_eq!(resampled.get(0, 0), fx(1.0));
    assert_eq!(resampled.get(0, 5), fx(3.0));
    assert_eq!(resampled.get(3, 0), fx(4.0));
    assert_eq!(resampled.get(3, 5), fx(6.0));
    let actual = resampled.get(1, 2);
    assert!((actual - fx(2.8)).abs() < fx(0.1), "Expected value near {}, got {}", fx(2.8), actual);
}

#[test]
fn test_error_conversions() {
    let err: RossbyError = RossbyError::from("test error".to_string());
    match err {
        RossbyError::Server { message } => assert_eq!(message, "test error"),
        _ => panic!("Wrong error variant"),
    }
}

#[test]
fn test_error_message_and_status() {
    let e = RossbyError::PayloadTooLarge {
        message: "too big".to_string(),
        requested: 60,
        max_allowed: 10,
    };
    assert_eq!(e.status_code(), 413);
    let m = e.message();
    assert!(m.contains("60"));
    assert!(m.contains("10"));
    let e2 = RossbyError::VariableNotFound { name: "t2m".to_string() };
    assert_eq!(e2.status_code(), 400);
    assert_eq!(e2.message(), "Variable not found: t2m");
}

#[test]
fn test_fixed_point_text() {
    assert_eq!(rossby::text::fmt_fixed(fx(5.5)), "5.5");
    assert_eq!(rossby::text::fmt_fixed(0), "0");
    assert_eq!(rossby::text::fmt_fixed(fx(-170.25)), "-170.25");
    assert_eq!(rossby::text::parse_fixed("1672531200"), Some(1_672_531_200_000_000));
    assert_eq!(rossby::text::parse_fixed("-12.75"), Some(fx(-12.75)));
    assert_eq!(rossby::text::parse_fixed("abc"), None);
}

#[test]
fn test_colormap_kind_name() {
    assert_eq!(rossby::colormaps::get_colormap("viridis").unwrap().name(), "viridis");
    assert_eq!(rossby::colormaps::get_colormap("RdBu").unwrap().name(), "rdbu");
    assert_eq!(rossby::colormaps::get_colormap("Seismic").unwrap().name(), "seismic");
}

#[test]
fn test_bicubic_rejection_names_axis() {
    let data = vec![0i64; 12];
    let shape = vec![4usize, 3usize];
    let indices = vec![0i64, 0i64];
    match rossby::interpolation::BicubicInterpolator.interpolate(&data, &shape, &indices) {
        Err(rossby::error::RossbyError::Interpolation { message }) => {
            assert_eq!(
                message,
                "Cubic interpolation requires at least 4 points per axis; axis 1 has only 3; consider bilinear instead"
            );
        }
        other => panic!("expected an interpolation rejection, got {:?}", other),
    }
}
