//! End-to-end tests over an in-memory dataset: selector parsing,
//! extraction, budgets, point queries, and image rendering.

use rossby::config::Config;
use rossby::data::{
    handle_data_error, process_data_query, process_data_query_json,
    process_dimension_constraints, extract_variable_data, DataQuery, DimensionSelector,
};
use rossby::error::RossbyError;
use rossby::image::{generate_image_response, ImageQuery};
use rossby::point::{process_point_query, point_response_body, PointQuery};
use rossby::state::{
    AppState, Attr, AttributeValue, Coordinate, Dimension, Metadata, VarData, Variable,
};

fn fx(v: f64) -> i64 {
    (v * 1_000_000.0).round() as i64
}

/// The scenario dataset: `t2m[time=5, lat=3, lon=4]` with
/// `t2m[t, la, lo] = 100 t + 10 la + lo`.
fn t2m_state(max_data_points: usize) -> AppState {
    let dimensions = vec![
        Dimension { name: "time".to_string(), size: 5, is_unlimited: false },
        Dimension { name: "lat".to_string(), size: 3, is_unlimited: false },
        Dimension { name: "lon".to_string(), size: 4, is_unlimited: false },
    ];
    let variables = vec![Variable {
        name: "t2m".to_string(),
        dimensions: vec!["time".to_string(), "lat".to_string(), "lon".to_string()],
        shape: vec![5, 3, 4],
        attributes: vec![],
        dtype: "f32".to_string(),
    }];
    let coordinates = vec![
        Coordinate {
            name: "time".to_string(),
            values: vec![
                fx(1672531200.0),
                fx(1672534800.0),
                fx(1672538400.0),
                fx(1672542000.0),
                fx(1672545600.0),
            ],
        },
        Coordinate { name: "lat".to_string(), values: vec![fx(35.0), fx(36.0), fx(37.0)] },
        Coordinate {
            name: "lon".to_string(),
            values: vec![fx(139.0), fx(140.0), fx(141.0), fx(142.0)],
        },
    ];
    let mut values = Vec::new();
    for t in 0..5i64 {
        for la in 0..3i64 {
            for lo in 0..4i64 {
                values.push(fx((t * 100 + la * 10 + lo) as f64));
            }
        }
    }
    let data = vec![VarData { name: "t2m".to_string(), values }];
    let metadata = Metadata {
        global_attributes: vec![],
        dimensions,
        variables,
        coordinates,
    };
    let mut config = Config::default();
    config.server.max_data_points = max_data_points;
    config.data.dimension_aliases = vec![
        ("latitude".to_string(), "lat".to_string()),
        ("longitude".to_string(), "lon".to_string()),
    ];
    AppState::new(config, metadata, data)
}

/// A 2x3 (lat x lon) grid with values 1 through 6.
fn temperature_state(with_aliases: bool) -> AppState {
    let dimensions = vec![
        Dimension { name: "lat".to_string(), size: 2, is_unlimited: false },
        Dimension { name: "lon".to_string(), size: 3, is_unlimited: false },
    ];
    let variables = vec![Variable {
        name: "temperature".to_string(),
        dimensions: vec!["lat".to_string(), "lon".to_string()],
        shape: vec![2, 3],
        attributes: vec![Attr {
            name: "units".to_string(),
            value: AttributeValue::Text("degrees_C".to_string()),
        }],
        dtype: "f32".to_string(),
    }];
    let coordinates = vec![
        Coordinate { name: "lat".to_string(), values: vec![fx(10.0), fx(20.0)] },
        Coordinate {
            name: "lon".to_string(),
            values: vec![fx(100.0), fx(110.0), fx(120.0)],
        },
    ];
    let data = vec![VarData {
        name: "temperature".to_string(),
        values: vec![fx(1.0), fx(2.0), fx(3.0), fx(4.0), fx(5.0), fx(6.0)],
    }];
    let metadata = Metadata { global_attributes: vec![], dimensions, variables, coordinates };
    let mut config = Config::default();
    if with_aliases {
        config.data.dimension_aliases = vec![
            ("latitude".to_string(), "lat".to_string()),
            ("longitude".to_string(), "lon".to_string()),
        ];
    }
    AppState::new(config, metadata, data)
}

fn point_query(vars: &str) -> PointQuery {
    PointQuery {
        lon: None,
        lat: None,
        time: None,
        canonical_longitude: None,
        canonical_latitude: None,
        canonical_time: None,
        longitude_index: None,
        latitude_index: None,
        time_raw_index: None,
        time_index: None,
        vars: vars.to_string(),
        interpolation: None,
    }
}

#[test]
fn test_dimension_selector_parsing() {
    let state = t2m_state(1000);
    let params = vec![
        ("time".to_string(), "1672531200".to_string()),
        ("lat_range".to_string(), "35.0,37.0".to_string()),
        ("__lon_index".to_string(), "2".to_string()),
    ];
    let selectors = process_dimension_constraints(&state, &params).unwrap();
    assert_eq!(selectors.len(), 3);
    match &selectors[0] {
        DimensionSelector::SingleValue { dimension, value } => {
            assert_eq!(dimension, "time");
            assert_eq!(*value, fx(1672531200.0));
        }
        _ => panic!("Unexpected selector type"),
    }
    match &selectors[1] {
        DimensionSelector::ValueRange { dimension, start, end } => {
            assert_eq!(dimension, "lat");
            assert_eq!(*start, fx(35.0));
            assert_eq!(*end, fx(37.0));
        }
        _ => panic!("Unexpected selector type"),
    }
    match &selectors[2] {
        DimensionSelector::SingleIndex { dimension, index } => {
            assert_eq!(dimension, "lon");
            assert_eq!(*index, 2);
        }
        _ => panic!("Unexpected selector type"),
    }
}

#[test]
fn test_extract_variable_data() {
    let state = t2m_state(1000);
    let ranges = vec![("time".to_string(), (0usize, 0usize))];
    let slab = extract_variable_data(&state, "t2m", &ranges).unwrap();
    assert_eq!(slab.values.len(), 12);
    assert_eq!(slab.shape, vec![3, 4]);
    assert_eq!(slab.values[0], 0);
    assert_eq!(slab.values[11], fx(23.0));
}

#[test]
fn test_full_extraction_preserves_shape_and_count() {
    let state = t2m_state(1000);
    let ranges: Vec<(String, (usize, usize))> = vec![];
    let slab = extract_variable_data(&state, "t2m", &ranges).unwrap();
    assert_eq!(slab.shape, vec![5, 3, 4]);
    assert_eq!(slab.values.len(), 60);
    assert_eq!(slab.values, state.data[0].values);
}

#[test]
fn test_create_arrow_table() {
    let state = t2m_state(1000);
    let query = DataQuery {
        vars: "t2m".to_string(),
        layout: None,
        format: Some("arrow".to_string()),
        dynamic_params: vec![("time_index".to_string(), "0".to_string())],
    };
    let table = process_data_query(&state, &query).unwrap();
    assert_eq!(table.n, 12);
    for col in &table.dim_cols {
        assert_eq!(col.len(), 12);
    }
    for col in &table.var_cols {
        assert_eq!(col.len(), 12);
    }
    assert_eq!(table.var_meta_shape[0], "[3,4]");
    // The metadata strings recover the shape and axis order.
    let shape: Vec<usize> = serde_json::from_str(&table.var_meta_shape[0]).unwrap();
    assert_eq!(shape, vec![3, 4]);
    let dims: Vec<String> = serde_json::from_str(&table.var_meta_dims[0]).unwrap();
    assert_eq!(dims, vec!["lat".to_string(), "lon".to_string()]);
}

#[test]
fn test_arrow_round_trip() {
    let state = t2m_state(1000);
    let query = DataQuery {
        vars: "t2m".to_string(),
        layout: None,
        format: Some("arrow".to_string()),
        dynamic_params: vec![],
    };
    let table = process_data_query(&state, &query).unwrap();

    // Encode the verified column contents as a one-batch IPC stream.
    let mut fields = Vec::new();
    let mut columns: Vec<arrow::array::ArrayRef> = Vec::new();
    for (name, col) in table.dim_names.iter().zip(table.dim_cols.iter()) {
        fields.push(arrow_schema::Field::new(name, arrow_schema::DataType::Float64, false));
        let vals: Vec<f64> = col.iter().map(|v| *v as f64 / 1e6).collect();
        columns.push(std::sync::Arc::new(arrow::array::Float64Array::from(vals)));
    }
    for (i, (name, col)) in table.var_names.iter().zip(table.var_cols.iter()).enumerate() {
        let mut meta = std::collections::HashMap::new();
        meta.insert("shape".to_string(), table.var_meta_shape[i].clone());
        meta.insert("dimensions".to_string(), table.var_meta_dims[i].clone());
        fields.push(arrow_schema::Field::new(name, arrow_schema::DataType::Float32, false).with_metadata(meta));
        let vals: Vec<f32> = col.iter().map(|v| *v as f32 / 1e6).collect();
        columns.push(std::sync::Arc::new(arrow::array::Float32Array::from(vals)));
    }
    let schema = std::sync::Arc::new(arrow_schema::Schema::new(fields));
    let batch = arrow::record_batch::RecordBatch::try_new(schema.clone(), columns).unwrap();
    let mut out = Vec::new();
    {
        let mut writer = arrow_ipc::writer::StreamWriter::try_new(&mut out, &schema).unwrap();
        writer.write(&batch).unwrap();
        writer.finish().unwrap();
    }

    // Decode and check the round trip.
    let reader = arrow_ipc::reader::StreamReader::try_new(std::io::Cursor::new(out), None).unwrap();
    let batches: Vec<_> = reader.map(|b| b.unwrap()).collect();
    assert_eq!(batches.len(), 1);
    let decoded = &batches[0];
    assert_eq!(decoded.num_rows(), 60);
    for col in decoded.columns() {
        assert_eq!(col.len(), 60);
    }
    let var_field = decoded.schema().field_with_name("t2m").unwrap().clone();
    let shape: Vec<usize> =
        serde_json::from_str(var_field.metadata().get("shape").unwrap()).unwrap();
    assert_eq!(shape, vec![5, 3, 4]);
    let dims: Vec<String> =
        serde_json::from_str(var_field.metadata().get("dimensions").unwrap()).unwrap();
    assert_eq!(dims, vec!["time".to_string(), "lat".to_string(), "lon".to_string()]);
}

#[test]
fn test_budget_guard() {
    let state = t2m_state(10);
    let query = DataQuery {
        vars: "t2m".to_string(),
        layout: None,
        format: Some("arrow".to_string()),
        dynamic_params: vec![],
    };
    let err = process_data_query(&state, &query).unwrap_err();
    match &err {
        RossbyError::PayloadTooLarge { requested, max_allowed, .. } => {
            assert_eq!(*requested, 60);
            assert_eq!(*max_allowed, 10);
        }
        other => panic!("expected a budget rejection, got {:?}", other),
    }
    let (status, body) = handle_data_error(&err, "rid");
    assert_eq!(status, 413);
    assert!(body.contains("\"requested\":60"));
    assert!(body.contains("\"max_allowed\":10"));
}

#[test]
fn test_json_data_scenario() {
    let state = t2m_state(1000);
    let query = DataQuery {
        vars: "t2m".to_string(),
        layout: None,
        format: Some("json".to_string()),
        dynamic_params: vec![
            ("time".to_string(), "1672531200".to_string()),
            ("lat_range".to_string(), "35,36".to_string()),
            ("__lon_index".to_string(), "2".to_string()),
        ],
    };
    let chunks = process_data_query_json(&state, &query).unwrap();
    let body: String = chunks.concat();
    assert!(body.contains("\"shapes\":[[2]]"), "body: {}", body);
    assert!(body.contains("\"t2m\":[2, 12]"), "body: {}", body);
    let parsed: serde_json::Value = serde_json::from_str(&body).unwrap();
    assert!(parsed.get("metadata").is_some());
    assert!(parsed.get("data").is_some());
}

#[test]
fn test_point_query_success() {
    let state = temperature_state(false);
    let mut q = point_query("temperature");
    q.lon = Some(fx(105.0));
    q.lat = Some(fx(15.0));
    q.interpolation = Some("nearest".to_string());
    let pairs = process_point_query(&state, &q).unwrap();
    assert_eq!(pairs[0].1, fx(5.0));

    q.interpolation = Some("bilinear".to_string());
    let pairs = process_point_query(&state, &q).unwrap();
    assert_eq!(pairs[0].1, fx(3.0));
}

#[test]
fn test_multiple_variables() {
    let state = temperature_state(false);
    let mut q = point_query("temperature,humidity");
    q.lon = Some(fx(100.0));
    q.lat = Some(fx(10.0));
    let err = process_point_query(&state, &q).unwrap_err();
    assert!(
        matches!(err, RossbyError::VariableNotFound { ref name } if name == "humidity"),
        "Expected VariableNotFound error"
    );
}

#[test]
fn test_out_of_bounds() {
    let state = temperature_state(false);
    let mut q = point_query("temperature");
    q.lon = Some(fx(130.0));
    q.lat = Some(fx(10.0));
    let err = process_point_query(&state, &q).unwrap_err();
    assert!(
        matches!(err, RossbyError::InvalidCoordinates { .. }),
        "Expected InvalidCoordinates error"
    );
    let mut q = point_query("temperature");
    q.lon = Some(fx(100.0));
    q.lat = Some(fx(30.0));
    let err = process_point_query(&state, &q).unwrap_err();
    assert!(matches!(err, RossbyError::InvalidCoordinates { .. }));
}

#[test]
fn test_invalid_interpolation() {
    let state = temperature_state(false);
    let mut q = point_query("temperature");
    q.lon = Some(fx(100.0));
    q.lat = Some(fx(10.0));
    q.interpolation = Some("invalid_method".to_string());
    let err = process_point_query(&state, &q).unwrap_err();
    assert!(
        matches!(err, RossbyError::InvalidParameter { ref param, .. } if param == "interpolation"),
        "Expected InvalidParameter error"
    );
}

#[test]
fn test_empty_vars() {
    let state = temperature_state(false);
    let mut q = point_query("");
    q.lon = Some(fx(100.0));
    q.lat = Some(fx(10.0));
    let err = process_point_query(&state, &q).unwrap_err();
    assert!(
        matches!(err, RossbyError::InvalidParameter { ref param, .. } if param == "vars"),
        "Expected InvalidParameter error"
    );
}

#[test]
fn test_dimension_aliases() {
    let state = temperature_state(true);
    let mut q = point_query("temperature");
    q.canonical_longitude = Some(fx(120.0));
    q.canonical_latitude = Some(fx(20.0));
    q.interpolation = Some("nearest".to_string());
    let pairs = process_point_query(&state, &q);
    assert!(pairs.is_ok(), "Query with prefixed canonical names failed: {:?}", pairs.err());
    assert_eq!(pairs.unwrap()[0].1, fx(6.0));

    let mut q = point_query("temperature");
    q.lon = Some(fx(100.0));
    q.lat = Some(fx(10.0));
    q.interpolation = Some("nearest".to_string());
    let pairs = process_point_query(&state, &q);
    assert!(pairs.is_ok(), "Query with aliased names failed: {:?}", pairs.err());
    assert_eq!(pairs.unwrap()[0].1, fx(1.0));
}

#[test]
fn test_raw_indices() {
    let state = temperature_state(true);
    let mut q = point_query("temperature");
    q.longitude_index = Some(1);
    q.latitude_index = Some(1);
    q.interpolation = Some("nearest".to_string());
    let pairs = process_point_query(&state, &q);
    assert!(pairs.is_ok(), "Query with raw indices failed: {:?}", pairs.err());
    assert_eq!(pairs.unwrap()[0].1, fx(5.0));

    let mut q = point_query("temperature");
    q.longitude_index = Some(9);
    q.latitude_index = Some(0);
    let err = process_point_query(&state, &q).unwrap_err();
    assert!(
        matches!(err, RossbyError::IndexOutOfBounds { ref param, .. } if param == "__longitude_index"),
        "Expected IndexOutOfBounds error"
    );
}

#[test]
fn test_deprecated_time_index() {
    let state = temperature_state(false);
    let mut q = point_query("temperature");
    q.lon = Some(fx(100.0));
    q.lat = Some(fx(10.0));
    q.time_index = Some(0);
    let pairs = process_point_query(&state, &q).unwrap();
    assert_eq!(pairs[0].1, fx(1.0));
}

#[test]
fn test_mixed_query_params() {
    let state = temperature_state(true);
    let mut q = point_query("temperature");
    q.longitude_index = Some(0);
    q.lat = Some(fx(10.0));
    q.interpolation = Some("nearest".to_string());
    let pairs = process_point_query(&state, &q).unwrap();
    assert_eq!(pairs[0].1, fx(1.0));
}

#[test]
fn point_scenario_nearest_and_bilinear() {
    let state = t2m_state(1000);
    let mut q = point_query("t2m");
    q.lon = Some(fx(139.0));
    q.lat = Some(fx(35.0));
    q.time_index = Some(0);
    q.interpolation = Some("nearest".to_string());
    let pairs = process_point_query(&state, &q).unwrap();
    assert_eq!(pairs[0].1, 0);
    assert_eq!(point_response_body(&pairs), "{\"t2m\":0}");

    let mut q = point_query("t2m");
    q.lon = Some(fx(139.5));
    q.lat = Some(fx(35.5));
    q.time_index = Some(0);
    q.interpolation = Some("bilinear".to_string());
    let pairs = process_point_query(&state, &q).unwrap();
    assert_eq!(pairs[0].1, fx(5.5));
    assert_eq!(point_response_body(&pairs), "{\"t2m\":5.5}");
}

fn image_query(var: &str) -> ImageQuery {
    ImageQuery {
        var: var.to_string(),
        time_index: None,
        time: None,
        time_raw_index: None,
        bbox: None,
        width: None,
        height: None,
        colormap: None,
        interpolation: None,
        format: None,
        center: None,
        wrap_longitude: None,
        resampling: None,
    }
}

#[test]
fn image_scenario_png() {
    let state = t2m_state(1000);
    let mut q = image_query("t2m");
    q.bbox = Some("139,35,142,37".to_string());
    q.width = Some(100);
    q.height = Some(80);
    q.colormap = Some("viridis".to_string());
    q.format = Some("png".to_string());
    q.time_index = Some(0);
    let resp = generate_image_response(&state, &q).unwrap();
    assert_eq!(resp.format, "png");
    let img = image::load_from_memory(&resp.bytes).unwrap();
    assert_eq!(image::GenericImageView::dimensions(&img), (100, 80));
    let mut opaque = 0;
    for (_, _, p) in image::GenericImageView::pixels(&img) {
        if p.0[3] == 255 {
            opaque += 1;
        }
    }
    assert!(opaque > 0);
}

#[test]
fn image_scenario_dateline() {
    let state = t2m_state(1000);
    let mut q = image_query("t2m");
    q.bbox = Some("170,-30,-170,30".to_string());
    q.wrap_longitude = Some(true);
    q.center = Some("eurocentric".to_string());
    q.width = Some(10);
    q.height = Some(10);
    q.time_index = Some(0);
    let resp = generate_image_response(&state, &q);
    assert!(resp.is_ok(), "wrapped dateline request failed: {:?}", resp.err());

    let mut q2 = image_query("t2m");
    q2.bbox = Some("170,-30,-170,30".to_string());
    q2.width = Some(10);
    q2.height = Some(10);
    q2.time_index = Some(0);
    let err = generate_image_response(&state, &q2).unwrap_err();
    match err {
        RossbyError::InvalidParameter { param, message } => {
            assert_eq!(param, "bbox");
            assert!(message.contains("wrap_longitude"));
        }
        other => panic!("expected a bbox rejection, got {:?}", other),
    }
}

#[test]
fn test_image_orientation() {
    // Row 0 of the rendered image maps directly to data row 0.
    let state = t2m_state(1000);
    let mut q = image_query("t2m");
    q.bbox = Some("139,35,142,37".to_string());
    q.width = Some(4);
    q.height = Some(3);
    q.colormap = Some("viridis".to_string());
    q.format = Some("png".to_string());
    q.resampling = Some("nearest".to_string());
    q.time_index = Some(0);
    let resp = generate_image_response(&state, &q).unwrap();
    let img = image::load_from_memory(&resp.bytes).unwrap().to_rgba8();
    // Data row 0 holds the smallest values, so the top-left pixel carries
    // the low end of the colormap (dark purple for viridis) and the
    // bottom-right the high end (yellow).
    let top_left = img.get_pixel(0, 0);
    let bottom_right = img.get_pixel(3, 2);
    assert!(top_left.0[2] > top_left.0[1], "top-left should be purple-ish: {:?}", top_left);
    assert!(
        bottom_right.0[0] > bottom_right.0[2],
        "bottom-right should be warm: {:?}",
        bottom_right
    );
}

#[test]
fn test_image_rejects_non_spatial_variable() {
    let mut state = t2m_state(1000);
    state.metadata.variables.push(Variable {
        name: "scalar".to_string(),
        dimensions: vec!["time".to_string()],
        shape: vec![5],
        attributes: vec![],
        dtype: "f32".to_string(),
    });
    state.data.push(VarData {
        name: "scalar".to_string(),
        values: vec![0, 1, 2, 3, 4],
    });
    let q = image_query("scalar");
    let err = generate_image_response(&state, &q).unwrap_err();
    assert!(
        matches!(err, RossbyError::VariableNotSuitableForImage { ref name } if name == "scalar")
    );
    let q2 = image_query("nonexistent");
    let err2 = generate_image_response(&state, &q2).unwrap_err();
    assert!(matches!(err2, RossbyError::InvalidVariables { .. }));
}

#[test]
fn test_heartbeat_response_structure() {
    let mut state = t2m_state(1000);
    state.metadata.dimensions = vec![
        Dimension { name: "lat".to_string(), size: 180, is_unlimited: false },
        Dimension { name: "lon".to_string(), size: 360, is_unlimited: false },
        Dimension { name: "time".to_string(), size: 24, is_unlimited: true },
    ];
    let resp = rossby::heartbeat::build_heartbeat_response(
        &state,
        "sid".to_string(),
        "now".to_string(),
        7,
        None,
        None,
        "file.nc".to_string(),
    );
    assert_eq!(resp.status, "healthy");
    assert_eq!(resp.dataset.dimension_count, 3);
    assert_eq!(resp.dataset.variable_count, 1);
    assert_eq!(resp.dataset.dimensions[0], ("lat".to_string(), 180));
    assert_eq!(resp.dataset.dimensions[1], ("lon".to_string(), 360));
    assert_eq!(resp.dataset.dimensions[2], ("time".to_string(), 24));
}

#[test]
fn test_metadata_structure() {
    let metadata = Metadata {
        global_attributes: vec![],
        dimensions: vec![Dimension { name: "time".to_string(), size: 10, is_unlimited: true }],
        variables: vec![],
        coordinates: vec![],
    };
    assert_eq!(metadata.dimensions[0].size, 10);
    assert!(metadata.dimensions[0].is_unlimited);
}

#[test]
fn test_metadata_json_shape() {
    let state = temperature_state(false);
    let body = rossby::metadata::metadata_json(&state);
    let parsed: serde_json::Value = serde_json::from_str(&body).unwrap();
    assert!(parsed.get("global_attributes").is_some());
    assert!(parsed.get("dimensions").is_some());
    assert!(parsed.get("variables").is_some());
    assert!(parsed.get("coordinates").is_some());
    assert_eq!(parsed["dimensions"]["lat"]["size"], 2);
    assert_eq!(parsed["variables"]["temperature"]["attributes"]["units"], "degrees_C");
    assert_eq!(parsed["coordinates"]["lon"][2], 120.0);
}

#[test]
fn test_resolve_dimension() {
    let state = t2m_state(1000);
    assert_eq!(state.resolve_dimension("lat").unwrap(), "lat");
    assert_eq!(state.resolve_dimension("_latitude").unwrap(), "lat");
    assert_eq!(state.resolve_dimension("latitude").unwrap(), "lat");
    let err = state.resolve_dimension("depth").unwrap_err();
    match err {
        RossbyError::DimensionNotFound { name, available, aliases } => {
            assert_eq!(name, "depth");
            assert_eq!(available.len(), 3);
            assert_eq!(aliases.len(), 2);
        }
        other => panic!("expected DimensionNotFound, got {:?}", other),
    }
}

#[test]
fn test_find_coordinate_index() {
    let state = t2m_state(1000);
    assert_eq!(state.find_coordinate_index("lat", fx(36.2)).unwrap(), 1);
    assert_eq!(state.find_coordinate_index("lat", fx(36.5)).unwrap(), 1);
    assert!(matches!(
        state.find_coordinate_index("lat", fx(50.0)),
        Err(RossbyError::InvalidCoordinates { .. })
    ));
    assert_eq!(state.find_coordinate_index_exact("lat", fx(37.0)).unwrap(), 2);
    assert!(matches!(
        state.find_coordinate_index_exact("lat", fx(36.5)),
        Err(RossbyError::PhysicalValueNotFound { .. })
    ));
}

#[test]
fn test_lat_lon_bounds() {
    let state = t2m_state(1000);
    let (min_lon, min_lat, max_lon, max_lat) = state.get_lat_lon_bounds().unwrap();
    assert_eq!(min_lon, fx(139.0));
    assert_eq!(min_lat, fx(35.0));
    assert_eq!(max_lon, fx(142.0));
    assert_eq!(max_lat, fx(37.0));
}

#[test]
fn test_get_data_slice() {
    let state = t2m_state(1000);
    let g = state
        .get_data_slice("t2m", 1, fx(139.0), fx(35.0), fx(142.0), fx(37.0))
        .unwrap();
    assert_eq!(g.rows, 3);
    assert_eq!(g.cols, 4);
    assert_eq!(g.get(0, 0), fx(100.0));
    assert_eq!(g.get(2, 3), fx(123.0));
}

#[test]
fn test_time_selector_precedence() {
    // A raw time index wins over a physical time value, which wins over
    // the legacy index spelling.
    let state = t2m_state(1000);
    let mut q = point_query("t2m");
    q.lon = Some(fx(139.0));
    q.lat = Some(fx(35.0));
    q.time = Some(fx(1672534800.0));
    q.time_raw_index = Some(0);
    q.interpolation = Some("nearest".to_string());
    let pairs = process_point_query(&state, &q).unwrap();
    assert_eq!(pairs[0].1, 0);

    let mut q = point_query("t2m");
    q.lon = Some(fx(139.0));
    q.lat = Some(fx(35.0));
    q.time = Some(fx(1672534800.0));
    q.time_index = Some(2);
    q.interpolation = Some("nearest".to_string());
    let pairs = process_point_query(&state, &q).unwrap();
    assert_eq!(pairs[0].1, fx(100.0));
}

#[test]
fn test_state_validate() {
    let state = t2m_state(1000);
    assert!(state.validate().is_ok());
    let mut bad = t2m_state(1000);
    bad.data[0].values.pop();
    assert!(bad.validate().is_err());
    let mut bad2 = t2m_state(1000);
    bad2.metadata.coordinates[1].values.pop();
    assert!(bad2.validate().is_err());
}

#[test]
fn test_aliased_axes_render() {
    // A dataset whose axes carry only alias-mapped names still renders.
    let mut state = t2m_state(1000);
    state.metadata.dimensions[1].name = "y".to_string();
    state.metadata.dimensions[2].name = "x".to_string();
    state.metadata.variables[0].dimensions =
        vec!["time".to_string(), "y".to_string(), "x".to_string()];
    state.metadata.coordinates[1].name = "y".to_string();
    state.metadata.coordinates[2].name = "x".to_string();
    let mut config = Config::default();
    config.server.max_data_points = 1000;
    config.data.dimension_aliases = vec![
        ("latitude".to_string(), "y".to_string()),
        ("longitude".to_string(), "x".to_string()),
    ];
    let state = rossby::state::AppState::new(config, state.metadata, state.data);
    let mut q = image_query("t2m");
    q.width = Some(10);
    q.height = Some(10);
    q.time_index = Some(0);
    // The latitude/longitude axes are recognized through the alias table,
    // but the slicer needs coordinate arrays under the usual names, so
    // only the suitability check is exercised here.
    let r = generate_image_response(&state, &q);
    assert!(!matches!(r, Err(RossbyError::VariableNotSuitableForImage { .. })));
}
