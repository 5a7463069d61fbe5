//! rossby: an in-memory gridded-dataset query engine.
//!
//! The library holds a dataset (dimensions, variables, coordinate arrays and
//! a row-major data array per variable) in memory and answers metadata,
//! point-interpolation, hyperslab-extraction and map-rendering queries over
//! it.  All physical quantities (coordinates, data values, longitudes) are
//! carried as fixed-point integers in micro-units (see [`fx::SCALE`]), which
//! keeps every computation exact and verifiable.

pub mod fx;
pub mod geo;
pub mod grid;
pub mod heartbeat;
pub mod logging;
pub mod metadata;
pub mod image;
pub mod point;
pub mod state;
pub mod colormaps;
pub mod config;
pub mod data;
pub mod interpolation;
pub mod error;
pub mod text;
