//! Request identifiers and structured log lines.  The library composes the
//! text of each line; emitting it is the caller's concern.

use vstd::prelude::*;
use vstd::string::StringExecFns;
use crate::text::{fmt_u64, fmt_usize, spec_dec};

verus! {

/// Relies on `uuid::Uuid::new_v4` and its hyphenated `Display` form: a
/// fresh random identifier, rendered as 36 characters.
#[verifier::external_body]
pub fn generate_request_id() -> (r: String)
    ensures
        r@.len() == 36,
{
    uuid::Uuid::new_v4().to_string()
}

/// Run an operation and hand its result through unchanged; the operation
/// name only labels the log line the caller may emit around the call.
pub fn log_timed_operation<T, E, F: FnOnce() -> core::result::Result<T, E>>(
    operation: &str,
    f: F,
) -> (r: core::result::Result<T, E>)
    requires
        f.requires(()),
    ensures
        f.ensures((), r),
{
    let _ = operation;
    f()
}

/// A marker for an operation in progress; the caller logs around its
/// lifetime.
pub struct TimedOperationGuard {
    /// Name of the operation.
    pub operation: String,
}

/// Begin a timed operation.
pub fn start_timed_operation(operation: &str, details: Option<&str>) -> (r: TimedOperationGuard)
    ensures
        r.operation@ == operation@,
{
    let _ = details;
    TimedOperationGuard { operation: operation.to_owned() }
}

/// The log line for a completed dataset load.
pub fn log_data_loaded(
    file_path: &str,
    var_count: usize,
    vars: &Vec<String>,
    dim_count: usize,
    dims: &Vec<(String, usize)>,
    memory_mb: usize,
) -> (r: String)
    ensures
        r@.len() > 0,
{
    proof {
        reveal_strlit("data_load file=");
        reveal_strlit(" vars=");
        reveal_strlit(" dims=");
        reveal_strlit(" memory_mb=");
        reveal_strlit(",");
        reveal_strlit("=");
    }
    let mut s = String::new();
    s.append("data_load file=");
    s.append(file_path);
    s.append(" vars=");
    let t = fmt_usize(var_count);
    s.append(t.as_str());
    let mut i: usize = 0;
    while i < vars.len()
        invariant
            0 <= i <= vars@.len(),
            s@.len() > 0,
        decreases vars@.len() - i,
    {
        proof {
            reveal_strlit(",");
        }
        s.append(",");
        s.append(vars[i].as_str());
        i += 1;
    }
    s.append(" dims=");
    let t = fmt_usize(dim_count);
    s.append(t.as_str());
    let mut i: usize = 0;
    while i < dims.len()
        invariant
            0 <= i <= dims@.len(),
            s@.len() > 0,
        decreases dims@.len() - i,
    {
        proof {
            reveal_strlit(",");
            reveal_strlit("=");
        }
        s.append(",");
        s.append(dims[i].0.as_str());
        s.append("=");
        let t = fmt_usize(dims[i].1);
        s.append(t.as_str());
        i += 1;
    }
    s.append(" memory_mb=");
    let t = fmt_usize(memory_mb);
    s.append(t.as_str());
    s
}

/// The log line for a received request.
pub fn log_request(endpoint: &str, request_id: &str, method: &str, path: &str, query: Option<
    &str,
>) -> (r: String)
    ensures
        r@.len() >= endpoint@.len(),
{
    proof {
        reveal_strlit("request endpoint=");
        reveal_strlit(" id=");
        reveal_strlit(" method=");
        reveal_strlit(" path=");
        reveal_strlit(" query=");
    }
    let mut s = String::new();
    s.append("request endpoint=");
    s.append(endpoint);
    s.append(" id=");
    s.append(request_id);
    s.append(" method=");
    s.append(method);
    s.append(" path=");
    s.append(path);
    match query {
        Some(q) => {
            s.append(" query=");
            s.append(q);
        },
        None => {},
    }
    s
}

/// The log line for a completed request.
pub fn log_request_success(endpoint: &str, request_id: &str, status: u16, duration_ms: u64)
    -> (r: String)
    ensures
        r@.len() >= endpoint@.len(),
{
    proof {
        reveal_strlit("request_done endpoint=");
        reveal_strlit(" id=");
        reveal_strlit(" status=");
        reveal_strlit(" duration_ms=");
    }
    let mut s = String::new();
    s.append("request_done endpoint=");
    s.append(endpoint);
    s.append(" id=");
    s.append(request_id);
    s.append(" status=");
    let t = fmt_u64(status as u64);
    s.append(t.as_str());
    s.append(" duration_ms=");
    let t = fmt_u64(duration_ms);
    s.append(t.as_str());
    s
}

/// The log line for a failed request.
pub fn log_request_error(
    error: &crate::error::RossbyError,
    endpoint: &str,
    request_id: &str,
    details: Option<&str>,
) -> (r: String)
    ensures
        r@.len() >= endpoint@.len(),
{
    proof {
        reveal_strlit("request_error endpoint=");
        reveal_strlit(" id=");
        reveal_strlit(" error=");
        reveal_strlit(" context=");
    }
    let mut s = String::new();
    s.append("request_error endpoint=");
    s.append(endpoint);
    s.append(" id=");
    s.append(request_id);
    s.append(" error=");
    let msg = error.message();
    s.append(msg.as_str());
    match details {
        Some(d) => {
            s.append(" context=");
            s.append(d);
        },
        None => {},
    }
    s
}

} // verus!
