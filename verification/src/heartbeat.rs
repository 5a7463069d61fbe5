//! The heartbeat report: server identity and uptime supplied by the
//! caller, dataset statistics computed here.

use vstd::prelude::*;
use vstd::string::StringExecFns;
use crate::state::AppState;

verus! {

/// The heartbeat report body.
pub struct HeartbeatResponse {
    /// Unique identifier of this server process.
    pub server_id: String,
    /// Current time, rendered by the caller.
    pub timestamp: String,
    /// Seconds since startup.
    pub uptime_seconds: u64,
    /// Resident memory of the process, when known.
    pub memory_usage_bytes: Option<u64>,
    /// Available system memory, when known.
    pub available_memory_bytes: Option<u64>,
    /// Statistics of the served dataset.
    pub dataset: DatasetInfo,
    /// Health marker.
    pub status: String,
}

/// Statistics of the served dataset.
pub struct DatasetInfo {
    /// Path of the dataset file.
    pub file_path: String,
    /// Number of variables.
    pub variable_count: usize,
    /// The variable names.
    pub variables: Vec<String>,
    /// Number of dimensions.
    pub dimension_count: usize,
    /// Each dimension's name and size.
    pub dimensions: Vec<(String, usize)>,
    /// Approximate bytes held by the data arrays.
    pub data_memory_bytes: usize,
}

/// Approximate memory held by the data arrays: eight bytes per stored
/// value, saturating at the address-space limit.
pub fn calculate_data_memory_usage(state: &AppState) -> (r: usize)
{
    let mut total: usize = 0;
    let n = state.data.len();
    let mut i: usize = 0;
    while i < n
        invariant
            n == state.data@.len(),
            0 <= i <= n,
        decreases n - i,
    {
        let len = state.data[i].values.len();
        let add = if len <= usize::MAX / 8 {
            len * 8
        } else {
            usize::MAX
        };
        total = if total <= usize::MAX - add {
            total + add
        } else {
            usize::MAX
        };
        i += 1;
    }
    total
}

/// Assemble the dataset statistics.
pub fn build_dataset_info(state: &AppState, file_path: String) -> (r: DatasetInfo)
    ensures
        r.variable_count == state.metadata.variables@.len(),
        r.variables@.len() == state.metadata.variables@.len(),
        forall|i: int|
            0 <= i < r.variables@.len() ==> #[trigger] r.variables@[i]@
                == state.metadata.variables@[i].name@,
        r.dimension_count == state.metadata.dimensions@.len(),
        r.dimensions@.len() == state.metadata.dimensions@.len(),
        forall|i: int|
            0 <= i < r.dimensions@.len() ==> #[trigger] r.dimensions@[i].0@
                == state.metadata.dimensions@[i].name@ && r.dimensions@[i].1
                == state.metadata.dimensions@[i].size,
        r.file_path == file_path,
{
    let mut variables: Vec<String> = Vec::new();
    let nv = state.metadata.variables.len();
    let mut i: usize = 0;
    while i < nv
        invariant
            nv == state.metadata.variables@.len(),
            0 <= i <= nv,
            variables@.len() == i,
            forall|j: int|
                0 <= j < i ==> #[trigger] variables@[j]@
                    == state.metadata.variables@[j].name@,
        decreases nv - i,
    {
        variables.push(state.metadata.variables[i].name.clone());
        i += 1;
    }
    let mut dimensions: Vec<(String, usize)> = Vec::new();
    let nd = state.metadata.dimensions.len();
    let mut i: usize = 0;
    while i < nd
        invariant
            nd == state.metadata.dimensions@.len(),
            0 <= i <= nd,
            dimensions@.len() == i,
            forall|j: int|
                0 <= j < i ==> #[trigger] dimensions@[j].0@
                    == state.metadata.dimensions@[j].name@ && dimensions@[j].1
                    == state.metadata.dimensions@[j].size,
        decreases nd - i,
    {
        dimensions.push(
            (state.metadata.dimensions[i].name.clone(), state.metadata.dimensions[i].size),
        );
        i += 1;
    }
    let data_memory_bytes = calculate_data_memory_usage(state);
    DatasetInfo {
        file_path,
        variable_count: nv,
        variables,
        dimension_count: nd,
        dimensions,
        data_memory_bytes,
    }
}

/// Assemble the heartbeat report from caller-supplied identity and timing
/// and the dataset statistics.
pub fn build_heartbeat_response(
    state: &AppState,
    server_id: String,
    timestamp: String,
    uptime_seconds: u64,
    memory_usage_bytes: Option<u64>,
    available_memory_bytes: Option<u64>,
    file_path: String,
) -> (r: HeartbeatResponse)
    ensures
        r.server_id == server_id,
        r.timestamp == timestamp,
        r.uptime_seconds == uptime_seconds,
        r.status@ == "healthy"@,
        r.dataset.variable_count == state.metadata.variables@.len(),
{
    proof {
        reveal_strlit("healthy");
    }
    let dataset = build_dataset_info(state, file_path);
    HeartbeatResponse {
        server_id,
        timestamp,
        uptime_seconds,
        memory_usage_bytes,
        available_memory_bytes,
        dataset,
        status: "healthy".to_owned(),
    }
}

} // verus!
