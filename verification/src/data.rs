//! The hyperslab extraction pipeline behind the `/data` endpoint: selector
//! parsing, budget enforcement, slicing, and the Arrow-style and JSON
//! output shapes.

use vstd::prelude::*;
use vstd::string::StrSliceExecFns;
use vstd::string::StringExecFns;
use crate::error::{Result, RossbyError};
use crate::fx::{SCALE, FX_VAL_MAX, ediv_i128};
use crate::interpolation::{spec_prod, spec_flat, spec_unflat, flat_index, compute_indices};
use crate::state::{
    AppState, AttributeValue, Variable, spec_key_index, sel_names, lemma_key_index,
    find_attr, attr_names,
};
use crate::text::{
    fmt_fixed, fmt_usize, spec_fmt_fixed, spec_dec, parse_fixed, parse_index, split_by,
    trim_spaces, str_eq, str_starts_with, spec_split, spec_trim, spec_parse_fixed,
    spec_parse_index,
};

verus! {

/// Query parameters of a `/data` request, already split out of the URL.
pub struct DataQuery {
    /// Comma-separated list of variables to extract.
    pub vars: String,
    /// Optional axis ordering for the output.
    pub layout: Option<String>,
    /// Output format name (`arrow` or `json`).
    pub format: Option<String>,
    /// All other parameters, in order.
    pub dynamic_params: Vec<(String, String)>,
}

/// One dimension constraint recognized in the parameters.
pub enum DimensionSelector {
    /// One slice at the physical value nearest to `value`.
    SingleValue { dimension: String, value: i64 },
    /// The inclusive physical range from `start` to `end`.
    ValueRange { dimension: String, start: i64, end: i64 },
    /// One slice at a raw index.
    SingleIndex { dimension: String, index: usize },
    /// The inclusive raw index range from `start` to `end`.
    IndexRange { dimension: String, start: usize, end: usize },
}

/// The dimension a selector constrains.
pub open spec fn sel_dimension(s: DimensionSelector) -> Seq<char> {
    match s {
        DimensionSelector::SingleValue { dimension, .. } => dimension@,
        DimensionSelector::ValueRange { dimension, .. } => dimension@,
        DimensionSelector::SingleIndex { dimension, .. } => dimension@,
        DimensionSelector::IndexRange { dimension, .. } => dimension@,
    }
}

/// The mathematical content of a selector: its dimension's characters and
/// its numbers.
pub ghost enum SelectorSpec {
    Value(Seq<char>, i64),
    Range(Seq<char>, i64, i64),
    Index(Seq<char>, usize),
    IndexRange(Seq<char>, usize, usize),
}

/// The content of an executable selector.
pub open spec fn sel_view(s: DimensionSelector) -> SelectorSpec {
    match s {
        DimensionSelector::SingleValue { dimension, value } => SelectorSpec::Value(
            dimension@,
            value,
        ),
        DimensionSelector::ValueRange { dimension, start, end } => SelectorSpec::Range(
            dimension@,
            start,
            end,
        ),
        DimensionSelector::SingleIndex { dimension, index } => SelectorSpec::Index(
            dimension@,
            index,
        ),
        DimensionSelector::IndexRange { dimension, start, end } => SelectorSpec::IndexRange(
            dimension@,
            start,
            end,
        ),
    }
}

/// What one request parameter contributes: `None` rejects the request,
/// `Some(None)` is an ignored parameter, `Some(Some(s))` is a recognized
/// selector.  The forms are those of the selector table: a resolvable name
/// with a physical value; the legacy `time_index`; `<dim>_range` with two
/// physical values; `__<dim>_index` and `__<dim>_index_range` with raw
/// indices.
pub open spec fn spec_selector_of(state: AppState, key: Seq<char>, value: Seq<char>) -> Option<
    Option<SelectorSpec>,
> {
    if state.spec_resolve(key) is Some {
        match spec_parse_fixed(value) {
            Some(v) => Some(Some(SelectorSpec::Value(state.spec_resolve(key)->Some_0, v))),
            None => None,
        }
    } else if key == "time_index"@ {
        match spec_parse_index(value) {
            None => None,
            Some(idx) => {
                if state.spec_resolve("time"@) is Some {
                    Some(Some(SelectorSpec::Index(state.spec_resolve("time"@)->Some_0, idx)))
                } else if state.spec_resolve("t"@) is Some {
                    Some(Some(SelectorSpec::Index(state.spec_resolve("t"@)->Some_0, idx)))
                } else if state.metadata.dimensions@.len() > 0 {
                    Some(Some(SelectorSpec::Index(state.metadata.dimensions@[0].name@, idx)))
                } else {
                    Some(None)
                }
            },
        }
    } else if key.len() >= 6 && key.subrange(key.len() - 6, key.len() as int) == "_range"@
        && state.spec_resolve(key.subrange(0, key.len() - 6)) is Some {
        let t = state.spec_resolve(key.subrange(0, key.len() - 6))->Some_0;
        let parts = spec_split(value, ',');
        if parts.len() != 2 {
            None
        } else {
            match (
                spec_parse_fixed(spec_trim(parts[0])),
                spec_parse_fixed(spec_trim(parts[1])),
            ) {
                (Some(a), Some(b)) => Some(Some(SelectorSpec::Range(t, a, b))),
                _ => None,
            }
        }
    } else if key.len() >= 2 && key.subrange(0, 2) == "__"@ {
        let rest = key.subrange(2, key.len() as int);
        if rest.len() >= 6 && rest.subrange(rest.len() - 6, rest.len() as int) == "_index"@
            && spec_index_dim(state, rest.subrange(0, rest.len() - 6)) is Some {
            let t = spec_index_dim(state, rest.subrange(0, rest.len() - 6))->Some_0;
            match spec_parse_index(value) {
                Some(idx) => Some(Some(SelectorSpec::Index(t, idx))),
                None => None,
            }
        } else if rest.len() >= 12 && rest.subrange(rest.len() - 12, rest.len() as int)
            == "_index_range"@ && spec_index_dim(state, rest.subrange(0, rest.len() - 12))
            is Some {
            let t = spec_index_dim(state, rest.subrange(0, rest.len() - 12))->Some_0;
            let parts = spec_split(value, ',');
            if parts.len() != 2 {
                None
            } else {
                match (
                    spec_parse_index(spec_trim(parts[0])),
                    spec_parse_index(spec_trim(parts[1])),
                ) {
                    (Some(a), Some(b)) => Some(Some(SelectorSpec::IndexRange(t, a, b))),
                    _ => None,
                }
            }
        } else {
            Some(None)
        }
    } else {
        Some(None)
    }
}

/// The selectors the whole parameter list yields, in order; `None` when
/// some recognized parameter is malformed.
pub open spec fn spec_selectors(state: AppState, params: Seq<(String, String)>) -> Option<
    Seq<SelectorSpec>,
>
    decreases params.len(),
{
    if params.len() == 0 {
        Some(Seq::<SelectorSpec>::empty())
    } else {
        match spec_selectors(state, params.drop_last()) {
            None => None,
            Some(pre) => match spec_selector_of(
                state,
                params.last().0@,
                params.last().1@,
            ) {
                None => None,
                Some(None) => Some(pre),
                Some(Some(sel)) => Some(pre.push(sel)),
            },
        }
    }
}

/// Recognize the dimension selectors among the request parameters, in
/// order; unrecognized parameters are ignored and malformed values of
/// recognized ones are rejected.  The result is exactly what
/// `spec_selectors` yields from the parameter list.
/// The precedence class of a dimension parameter: with a later selector
/// winning first-match lookups, the legacy `time_index` spelling sorts
/// first, physical values next, and `__`-prefixed raw indices last.
pub open spec fn spec_param_precedence(name: Seq<char>) -> u8 {
    if name == "time_index"@ {
        0
    } else if crate::text::spec_starts_with(name, "__"@) {
        2
    } else {
        1
    }
}

/// The precedence class that orders one dimension parameter.
pub fn param_precedence(name: &str) -> (r: u8)
    ensures
        r == spec_param_precedence(name@),
{
    proof {
        reveal_strlit("time_index");
        reveal_strlit("__");
    }
    if crate::text::str_eq(name, "time_index") {
        0
    } else if crate::text::str_starts_with(name, "__") {
        2
    } else {
        1
    }
}

pub fn process_dimension_constraints(
    state: &AppState,
    dynamic_params: &Vec<(String, String)>,
) -> (r: Result<Vec<DimensionSelector>>)
    requires
        state.wf(),
    ensures
        match r {
            Ok(sels) => spec_selectors(*state, dynamic_params@) == Some(
                sels@.map_values(|s: DimensionSelector| sel_view(s)),
            ) && (forall|i: int|
                0 <= i < sels@.len() ==> state.has_dim(sel_dimension(#[trigger] sels@[i]))),
            Err(e) => spec_selectors(*state, dynamic_params@) is None && e
                is InvalidParameter,
        },
{
    let mut selectors: Vec<DimensionSelector> = Vec::new();
    let n = dynamic_params.len();
    let mut i: usize = 0;
    proof {
        assert(dynamic_params@.subrange(0, 0) =~= Seq::<(String, String)>::empty());
        assert(selectors@.map_values(|s: DimensionSelector| sel_view(s))
            =~= Seq::<SelectorSpec>::empty());
    }
    while i < n
        invariant
            state.wf(),
            n == dynamic_params@.len(),
            0 <= i <= n,
            spec_selectors(*state, dynamic_params@.subrange(0, i as int)) == Some(
                selectors@.map_values(|s: DimensionSelector| sel_view(s)),
            ),
            forall|j: int|
                0 <= j < selectors@.len() ==> state.has_dim(
                    sel_dimension(#[trigger] selectors@[j]),
                ),
        decreases n - i,
    {
        let ghost pre = dynamic_params@.subrange(0, i as int);
        let ghost pre1 = dynamic_params@.subrange(0, i as int + 1);
        proof {
            assert(pre1.drop_last() =~= pre);
            assert(pre1.last() == dynamic_params@[i as int]);
        }
        let key = dynamic_params[i].0.as_str();
        let value = dynamic_params[i].1.as_str();
        match selector_of(state, key, value) {
            Ok(Some(sel)) => {
                let ghost old_sels = selectors@;
                selectors.push(sel);
                proof {
                    assert(selectors@.map_values(|s: DimensionSelector| sel_view(s))
                        =~= old_sels.map_values(|s: DimensionSelector| sel_view(s)).push(
                        sel_view(sel),
                    ));
                }
            },
            Ok(None) => {},
            Err(e) => {
                proof {
                    lemma_selectors_prefix_none(*state, dynamic_params@, i as int);
                }
                return Err(e);
            },
        }
        i += 1;
    }
    proof {
        assert(dynamic_params@.subrange(0, n as int) =~= dynamic_params@);
    }
    Ok(selectors)
}

/// A rejected parameter rejects every extension of the list.
proof fn lemma_selectors_prefix_none(state: AppState, params: Seq<(String, String)>, i: int)
    requires
        0 <= i < params.len(),
        spec_selectors(state, params.subrange(0, i)) is Some,
        spec_selector_of(state, params[i].0@, params[i].1@) is None,
    ensures
        spec_selectors(state, params) is None,
{
    lemma_selectors_none_from(state, params, i, params.len() as int);
    assert(params.subrange(0, params.len() as int) =~= params);
}

proof fn lemma_selectors_none_from(state: AppState, params: Seq<(String, String)>, i: int, k: int)
    requires
        0 <= i < k <= params.len(),
        spec_selectors(state, params.subrange(0, i)) is Some,
        spec_selector_of(state, params[i].0@, params[i].1@) is None,
    ensures
        spec_selectors(state, params.subrange(0, k)) is None,
    decreases k,
{
    let prek = params.subrange(0, k);
    if k == i + 1 {
        assert(prek.drop_last() =~= params.subrange(0, i));
        assert(prek.last() == params[i]);
    } else {
        lemma_selectors_none_from(state, params, i, k - 1);
        assert(prek.drop_last() =~= params.subrange(0, k - 1));
    }
    if k == params.len() {
        assert(params.subrange(0, k) =~= params);
    }
}

/// Recognize one request parameter: a selector, an ignored parameter, or a
/// rejection.
fn selector_of(state: &AppState, key: &str, value: &str) -> (r: Result<
    Option<DimensionSelector>,
>)
    requires
        state.wf(),
    ensures
        match r {
            Ok(Some(sel)) => spec_selector_of(*state, key@, value@) == Some(
                Some(sel_view(sel)),
            ) && state.has_dim(sel_dimension(sel)),
            Ok(None) => spec_selector_of(*state, key@, value@) == Some(
                None::<SelectorSpec>,
            ),
            Err(e) => spec_selector_of(*state, key@, value@) is None && e
                is InvalidParameter,
        },
{
    proof {
        reveal_strlit("time_index");
        reveal_strlit("time");
        reveal_strlit("t");
        reveal_strlit("_range");
        reveal_strlit("__");
        reveal_strlit("_index");
        reveal_strlit("_index_range");
        reveal_strlit("Could not parse the value as a number");
        reveal_strlit("Could not parse the value as an integer index");
        reveal_strlit("Range parameter must hold exactly two comma-separated values");
    }
    match state.resolve_dimension(key) {
        Ok(file_specific) => {
            proof {
                lemma_resolve_target_has_dim(state, key@);
            }
            return match parse_fixed(value) {
                Some(v) => Ok(
                    Some(DimensionSelector::SingleValue { dimension: file_specific, value: v }),
                ),
                None => Err(
                    RossbyError::InvalidParameter {
                        param: key.to_owned(),
                        message: "Could not parse the value as a number".to_owned(),
                    },
                ),
            };
        },
        Err(_) => {},
    }
    if str_eq(key, "time_index") {
        let index = match parse_index(value) {
            Some(v) => v,
            None => {
                return Err(
                    RossbyError::InvalidParameter {
                        param: key.to_owned(),
                        message: "Could not parse the value as an integer index".to_owned(),
                    },
                );
            },
        };
        match state.resolve_dimension("time") {
            Ok(time_dim) => {
                proof {
                    lemma_resolve_target_has_dim(state, "time"@);
                }
                return Ok(
                    Some(DimensionSelector::SingleIndex { dimension: time_dim, index }),
                );
            },
            Err(_) => {},
        }
        match state.resolve_dimension("t") {
            Ok(time_dim) => {
                proof {
                    lemma_resolve_target_has_dim(state, "t"@);
                }
                return Ok(
                    Some(DimensionSelector::SingleIndex { dimension: time_dim, index }),
                );
            },
            Err(_) => {},
        }
        if state.metadata.dimensions.len() > 0 {
            let first_name = state.metadata.dimensions[0].name.clone();
            proof {
                assert(crate::state::dim_names(state.metadata.dimensions@)[0] == first_name@);
            }
            return Ok(
                Some(DimensionSelector::SingleIndex { dimension: first_name, index }),
            );
        }
        return Ok(None);
    }
    match strip_suffix(key, "_range") {
        Some(dim_name) => {
            match state.resolve_dimension(dim_name.as_str()) {
                Ok(file_specific) => {
                    proof {
                        lemma_resolve_target_has_dim(state, dim_name@);
                    }
                    let parts = split_by(value, ',');
                    if parts.len() != 2 {
                        return Err(
                            RossbyError::InvalidParameter {
                                param: key.to_owned(),
                                message:
                                    "Range parameter must hold exactly two comma-separated values".to_owned(),
                            },
                        );
                    }
                    let t0 = trim_spaces(parts[0].as_str());
                    let t1 = trim_spaces(parts[1].as_str());
                    let start = match parse_fixed(t0.as_str()) {
                        Some(v) => v,
                        None => {
                            return Err(
                                RossbyError::InvalidParameter {
                                    param: key.to_owned(),
                                    message: "Could not parse the value as a number".to_owned(),
                                },
                            );
                        },
                    };
                    let end = match parse_fixed(t1.as_str()) {
                        Some(v) => v,
                        None => {
                            return Err(
                                RossbyError::InvalidParameter {
                                    param: key.to_owned(),
                                    message: "Could not parse the value as a number".to_owned(),
                                },
                            );
                        },
                    };
                    return Ok(
                        Some(
                            DimensionSelector::ValueRange {
                                dimension: file_specific,
                                start,
                                end,
                            },
                        ),
                    );
                },
                Err(_) => {},
            }
        },
        None => {},
    }
    match strip_prefix(key, "__") {
        Some(rest) => {
            match strip_suffix(rest.as_str(), "_index") {
                Some(dim_name) => {
                    match resolve_index_dimension(state, dim_name.as_str()) {
                        Some(file_specific) => {
                            return match parse_index(value) {
                                Some(index) => Ok(
                                    Some(
                                        DimensionSelector::SingleIndex {
                                            dimension: file_specific,
                                            index,
                                        },
                                    ),
                                ),
                                None => Err(
                                    RossbyError::InvalidParameter {
                                        param: key.to_owned(),
                                        message:
                                            "Could not parse the value as an integer index".to_owned(),
                                    },
                                ),
                            };
                        },
                        None => {},
                    }
                },
                None => {},
            }
            match strip_suffix(rest.as_str(), "_index_range") {
                Some(dim_name) => {
                    match resolve_index_dimension(state, dim_name.as_str()) {
                        Some(file_specific) => {
                            let parts = split_by(value, ',');
                            if parts.len() != 2 {
                                return Err(
                                    RossbyError::InvalidParameter {
                                        param: key.to_owned(),
                                        message:
                                            "Range parameter must hold exactly two comma-separated values".to_owned(),
                                    },
                                );
                            }
                            let t0 = trim_spaces(parts[0].as_str());
                            let t1 = trim_spaces(parts[1].as_str());
                            let start = match parse_index(t0.as_str()) {
                                Some(v) => v,
                                None => {
                                    return Err(
                                        RossbyError::InvalidParameter {
                                            param: key.to_owned(),
                                            message:
                                                "Could not parse the value as an integer index".to_owned(),
                                        },
                                    );
                                },
                            };
                            let end = match parse_index(t1.as_str()) {
                                Some(v) => v,
                                None => {
                                    return Err(
                                        RossbyError::InvalidParameter {
                                            param: key.to_owned(),
                                            message:
                                                "Could not parse the value as an integer index".to_owned(),
                                        },
                                    );
                                },
                            };
                            return Ok(
                                Some(
                                    DimensionSelector::IndexRange {
                                        dimension: file_specific,
                                        start,
                                        end,
                                    },
                                ),
                            );
                        },
                        None => {},
                    }
                },
                None => {},
            }
        },
        None => {},
    }
    Ok(None)
}

/// The dimension a raw-index parameter denotes: its canonical alias when
/// the alias map knows the name and the alias resolves, or else the name
/// itself when that resolves.
pub open spec fn spec_index_dim(state: AppState, n: Seq<char>) -> Option<Seq<char>> {
    match state.spec_canonical_of(n) {
        Some(c) => match state.spec_resolve(c) {
            Some(t) => Some(t),
            None => state.spec_resolve(n),
        },
        None => state.spec_resolve(n),
    }
}

/// Resolve the dimension a raw-index parameter names.
fn resolve_index_dimension(state: &AppState, dim_name: &str) -> (r: Option<String>)
    ensures
        match r {
            Some(t) => spec_index_dim(*state, dim_name@) == Some(t@) && state.has_dim(t@),
            None => spec_index_dim(*state, dim_name@) is None,
        },
{
    match state.get_canonical_dimension_name(dim_name) {
        Some(canonical) => {
            match state.resolve_dimension(canonical.as_str()) {
                Ok(fs) => {
                    proof {
                        lemma_resolve_target_has_dim(state, canonical@);
                    }
                    return Some(fs);
                },
                Err(_) => {},
            }
        },
        None => {},
    }
    match state.resolve_dimension(dim_name) {
        Ok(fs) => {
            proof {
                lemma_resolve_target_has_dim(state, dim_name@);
            }
            Some(fs)
        },
        Err(_) => None,
    }
}

/// A name that resolves does so to an existing dimension.
pub proof fn lemma_resolve_target_has_dim(state: &AppState, name: Seq<char>)
    ensures
        state.spec_resolve(name) is Some ==> state.has_dim(state.spec_resolve(name)->Some_0),
{
}

/// Strip a literal suffix from a string, if present.
fn strip_suffix(s: &str, suffix: &str) -> (r: Option<String>)
    ensures
        match r {
            Some(t) => s@.len() >= suffix@.len() && t@ == s@.subrange(
                0,
                s@.len() - suffix@.len(),
            ) && s@.subrange(s@.len() - suffix@.len(), s@.len() as int) == suffix@,
            None => !(s@.len() >= suffix@.len() && s@.subrange(
                s@.len() - suffix@.len(),
                s@.len() as int,
            ) == suffix@),
        },
{
    let slen = s.unicode_len();
    let plen = suffix.unicode_len();
    if slen < plen {
        return None;
    }
    let head = s.substring_char(0, slen - plen);
    let tail = s.substring_char(slen - plen, slen);
    if str_eq(tail, suffix) {
        Some(head.to_owned())
    } else {
        None
    }
}

/// Strip a literal prefix from a string, if present.
fn strip_prefix(s: &str, prefix: &str) -> (r: Option<String>)
    ensures
        match r {
            Some(t) => s@.len() >= prefix@.len() && t@ == s@.subrange(
                prefix@.len() as int,
                s@.len() as int,
            ) && s@.subrange(0, prefix@.len() as int) == prefix@,
            None => !(s@.len() >= prefix@.len() && s@.subrange(0, prefix@.len() as int)
                == prefix@),
        },
{
    let slen = s.unicode_len();
    let plen = prefix.unicode_len();
    if slen < plen {
        return None;
    }
    let head = s.substring_char(0, plen);
    let tail = s.substring_char(plen, slen);
    if str_eq(head, prefix) {
        Some(tail.to_owned())
    } else {
        None
    }
}

/// The extracted hyperslab of one variable: the per-axis extents, the
/// surviving axes (those not contracted to one point), and the row-major
/// values.
pub struct Hyperslab {
    /// Names of the surviving axes, in the variable's order.
    pub dims: Vec<String>,
    /// Extents of the surviving axes.
    pub shape: Vec<usize>,
    /// Extent of every axis of the variable, contracted ones included.
    pub extents: Vec<usize>,
    /// First selected index of every axis.
    pub starts: Vec<usize>,
    /// The values, row-major over `extents`.
    pub values: Vec<i64>,
}

/// The inclusive range selected for a named axis, or the full axis.
pub open spec fn spec_range_of(
    ranges: Seq<(String, (usize, usize))>,
    name: Seq<char>,
    size: usize,
) -> (usize, usize) {
    let i = spec_key_index(range_names(ranges), name);
    if i >= 0 {
        ranges[i].1
    } else {
        (0usize, (size - 1) as usize)
    }
}

/// The names of the selected ranges, in order.
pub open spec fn range_names(ranges: Seq<(String, (usize, usize))>) -> Seq<Seq<char>> {
    Seq::new(ranges.len(), |i: int| ranges[i].0@)
}

fn range_of(ranges: &Vec<(String, (usize, usize))>, name: &str, size: usize) -> (r: (
    usize,
    usize,
))
    requires
        size >= 1,
    ensures
        r == spec_range_of(ranges@, name@, size),
{
    let mut i: usize = 0;
    while i < ranges.len()
        invariant
            0 <= i <= ranges@.len(),
            forall|j: int| 0 <= j < i ==> #[trigger] range_names(ranges@)[j] != name@,
        decreases ranges@.len() - i,
    {
        if str_eq(ranges[i].0.as_str(), name) {
            proof {
                assert(range_names(ranges@)[i as int] == name@);
                lemma_key_index(range_names(ranges@), name@);
            }
            return (ranges[i].1.0, ranges[i].1.1);
        }
        i += 1;
    }
    proof {
        lemma_key_index(range_names(ranges@), name@);
    }
    (0, size - 1)
}

/// The index tuple of cell `p` of the hyperslab within the source array.
pub open spec fn spec_slab_index(p: int, extents: Seq<usize>, starts: Seq<usize>) -> Seq<
    usize,
> {
    let rel = spec_unflat(p, extents);
    Seq::new(extents.len(), |k: int| (rel[k] + starts[k]) as usize)
}

/// The extents that survive contraction: every axis of extent one is
/// removed.
pub open spec fn kept_extents(extents: Seq<usize>) -> Seq<usize>
    decreases extents.len(),
{
    if extents.len() == 0 {
        Seq::<usize>::empty()
    } else if extents.last() == 1 {
        kept_extents(extents.drop_last())
    } else {
        kept_extents(extents.drop_last()).push(extents.last())
    }
}

/// The axis names that survive contraction, parallel to `kept_extents`.
pub open spec fn kept_names(names: Seq<Seq<char>>, extents: Seq<usize>) -> Seq<Seq<char>>
    decreases extents.len(),
{
    if extents.len() == 0 || names.len() != extents.len() {
        Seq::<Seq<char>>::empty()
    } else if extents.last() == 1 {
        kept_names(names.drop_last(), extents.drop_last())
    } else {
        kept_names(names.drop_last(), extents.drop_last()).push(names.last())
    }
}

/// The names of a variable's axes.
pub open spec fn axis_names(v: Variable) -> Seq<Seq<char>> {
    Seq::new(v.dimensions@.len(), |k: int| v.dimensions@[k]@)
}

/// What a successful extraction holds: per-axis starts and extents exactly
/// the selected (or full) ranges, one value per cell taken row-major from
/// the source at the shifted index tuple, and the surviving shape and axis
/// names those of the axes not contracted to one point.
pub open spec fn hyperslab_post(
    state: AppState,
    var_name: Seq<char>,
    ranges: Seq<(String, (usize, usize))>,
    h: Hyperslab,
) -> bool {
    &&& state.var_idx(var_name) >= 0
    &&& {
        let v = state.metadata.variables@[state.var_idx(var_name)];
        let vals = state.data@[state.data_idx(v.name@)].values@;
        &&& h.extents@.len() == v.shape@.len()
        &&& h.starts@.len() == v.shape@.len()
        &&& (forall|k: int|
            0 <= k < v.shape@.len() ==> (#[trigger] h.starts@[k],
            (h.starts@[k] + h.extents@[k] - 1) as usize) == spec_range_of(
                ranges,
                v.dimensions@[k]@,
                v.shape@[k],
            ))
        &&& (forall|k: int|
            0 <= k < v.shape@.len() ==> #[trigger] h.starts@[k] + h.extents@[k]
                <= v.shape@[k] && h.extents@[k] >= 1)
        &&& h.values@.len() == spec_prod(h.extents@)
        &&& (forall|p: int|
            0 <= p < h.values@.len() ==> #[trigger] h.values@[p] == vals[spec_flat(
                spec_slab_index(p, h.extents@, h.starts@),
                v.shape@,
            )])
        &&& (forall|p: int|
            0 <= p < h.values@.len() ==> -FX_VAL_MAX <= #[trigger] h.values@[p]
                <= FX_VAL_MAX)
        &&& h.shape@ == kept_extents(h.extents@)
        &&& h.dims@.map_values(|d: String| d@) == kept_names(axis_names(v), h.extents@)
        &&& h.dims@.len() == h.shape@.len()
    }
}

/// The conditions under which extraction succeeds: the variable exists and
/// every selected (or full) range is non-empty and within its axis.
pub open spec fn extract_ok(
    state: AppState,
    var_name: Seq<char>,
    ranges: Seq<(String, (usize, usize))>,
) -> bool {
    &&& state.var_idx(var_name) >= 0
    &&& {
        let v = state.metadata.variables@[state.var_idx(var_name)];
        forall|k: int|
            0 <= k < v.shape@.len() ==> {
                let se = spec_range_of(ranges, (#[trigger] v.dimensions@[k])@, v.shape@[k]);
                se.0 <= se.1 < v.shape@[k]
            }
    }
}

/// Extract the hyperslab of one variable selected by per-axis ranges;
/// axes without a selected range are taken in full, and axes contracted to
/// one point are removed from the surviving shape.
#[verifier::rlimit(100)]
#[verifier::spinoff_prover]
pub fn extract_variable_data(
    state: &AppState,
    var_name: &str,
    selected_ranges: &Vec<(String, (usize, usize))>,
) -> (r: Result<Hyperslab>)
    requires
        state.wf(),
    ensures
        match r {
            Ok(h) => hyperslab_post(*state, var_name@, selected_ranges@, h),
            Err(e) => e is DataNotFound || e is IndexOutOfBounds,
        },
        extract_ok(*state, var_name@, selected_ranges@) ==> r is Ok,
{
    proof {
        reveal_strlit("hyperslab range");
    }
    let var_meta = self_meta(state, var_name)?;
    let ghost v = state.metadata.variables@[state.var_idx(var_name@)];
    proof {
        lemma_key_index(
            crate::state::var_names(state.metadata.variables@),
            var_name@,
        );
        assert(state.wf_variable(state.metadata.variables@[state.var_idx(var_name@)]));
        assert forall|t: int| 0 <= t < v.shape@.len() implies 1
            <= #[trigger] v.shape@[t] by {
            assert(state.dim_idx(v.dimensions@[t]@) >= 0 && state.metadata.dimensions@[
                state.dim_idx(v.dimensions@[t]@)].size == v.shape@[t]);
            lemma_key_index(
                crate::state::dim_names(state.metadata.dimensions@),
                v.dimensions@[t]@,
            );
        }
    }
    let var_data = state.get_variable_checked(var_meta.name.as_str())?;
    let nd = var_meta.shape.len();
    let mut extents: Vec<usize> = Vec::new();
    let mut starts: Vec<usize> = Vec::new();
    let mut k: usize = 0;
    let mut bad: bool = false;
    while k < nd && !bad
        invariant
            state.wf(),
            v == state.metadata.variables@[state.var_idx(var_name@)],
            state.var_idx(var_name@) >= 0,
            *var_meta == v,
            nd == v.shape@.len(),
            nd == v.dimensions@.len(),
            forall|t: int| 0 <= t < v.shape@.len() ==> 1 <= #[trigger] v.shape@[t],
            0 <= k <= nd,
            !bad ==> extents@.len() == k && starts@.len() == k,
            !bad ==> forall|t: int|
                0 <= t < k ==> (#[trigger] starts@[t],
                (starts@[t] + extents@[t] - 1) as usize) == spec_range_of(
                    selected_ranges@,
                    v.dimensions@[t]@,
                    v.shape@[t],
                ),
            !bad ==> forall|t: int|
                0 <= t < k ==> #[trigger] starts@[t] + extents@[t] <= v.shape@[t]
                    && extents@[t] >= 1,
            bad ==> k < nd && !{
                let se = spec_range_of(selected_ranges@, v.dimensions@[k as int]@, v.shape@[
                    k as int]);
                se.0 <= se.1 < v.shape@[k as int]
            },
        decreases nd - k, (if bad { 0int } else { 1int }),
    {
        let (s, e) = range_of(selected_ranges, var_meta.dimensions[k].as_str(), var_meta.shape[k]);
        if s > e || e >= var_meta.shape[k] {
            bad = true;
        } else {
            starts.push(s);
            extents.push(e - s + 1);
            proof {
                assert(starts@[k as int] + extents@[k as int] <= v.shape@[k as int]);
                assert(extents@[k as int] >= 1);
                assert((starts@[k as int], (starts@[k as int] + extents@[k as int] - 1) as usize)
                    == spec_range_of(selected_ranges@, v.dimensions@[k as int]@, v.shape@[k as int]));
            }
            k += 1;
        }
    }
    if bad {
        return Err(
            RossbyError::IndexOutOfBounds {
                param: "hyperslab range".to_owned(),
                value: var_meta.name.clone(),
                max: 0,
            },
        );
    }
    let ghost gextents = extents@;
    let ghost gstarts = starts@;
    let mut total: usize = 1;
    let mut k2: usize = 0;
    proof {
        assert forall|t: int| 0 <= t < nd implies 1 <= #[trigger] gextents[t] by {
            assert(starts@[t] + extents@[t] <= v.shape@[t] && extents@[t] >= 1);
        }
        assert(gextents.subrange(0, 0) =~= Seq::<usize>::empty());
        crate::interpolation::lemma_prod_pos(gextents);
        assert forall|t: int| 0 <= t < nd implies #[trigger] gextents[t]
            <= v.shape@[t] by {
            assert(starts@[t] + extents@[t] <= v.shape@[t]);
        }
        lemma_prod_le(gextents, v.shape@);
    }
    let dlen0 = var_data.values.len();
    proof {
        assert(state.wf_variable(state.metadata.variables@[state.var_idx(var_name@)]));
        assert(spec_prod(v.shape@) == dlen0 as int);
    }
    while k2 < nd
        invariant
            nd == gextents.len(),
            extents@ == gextents,
            0 <= k2 <= nd,
            total as int == spec_prod(gextents.subrange(0, k2 as int)),
            forall|t: int| 0 <= t < nd ==> 1 <= #[trigger] gextents[t],
            spec_prod(gextents) <= usize::MAX,
        decreases nd - k2,
    {
        proof {
            let pre1 = gextents.subrange(0, k2 as int + 1);
            assert(pre1 =~= gextents.subrange(0, k2 as int).push(gextents[k2 as int]));
            lemma_prod_snoc(gextents.subrange(0, k2 as int), gextents[k2 as int]);
            lemma_prod_split(gextents, k2 as int + 1);
            crate::interpolation::lemma_prod_nonneg(gextents.subrange(0, k2 as int + 1));
            assert(forall|t: int|
                0 <= t < gextents.subrange(k2 as int + 1, nd as int).len() ==> 1
                    <= #[trigger] gextents.subrange(k2 as int + 1, nd as int)[t]);
            crate::interpolation::lemma_prod_pos(gextents.subrange(k2 as int + 1, nd as int));
            assert(spec_prod(pre1) <= spec_prod(pre1) * spec_prod(
                gextents.subrange(k2 as int + 1, nd as int),
            )) by (nonlinear_arith)
                requires
                    spec_prod(pre1) >= 0,
                    spec_prod(gextents.subrange(k2 as int + 1, nd as int)) >= 1,
            ;
        }
        total = total * extents[k2];
        k2 += 1;
    }
    proof {
        assert(gextents.subrange(0, nd as int) =~= gextents);
    }
    let mut values: Vec<i64> = Vec::new();
    let mut p: usize = 0;
    let dlen = var_data.values.len();
    let mut scratch: Vec<usize> = Vec::new();
    let mut t: usize = 0;
    while t < nd
        invariant
            0 <= t <= nd,
            scratch@.len() == t,
        decreases nd - t,
    {
        scratch.push(0);
        t += 1;
    }
    while p < total
        invariant
            state.wf(),
            v == state.metadata.variables@[state.var_idx(var_name@)],
            0 <= state.var_idx(var_name@) < state.metadata.variables@.len(),
            state.data_idx(v.name@) >= 0,
            *var_data == state.data@[state.data_idx(v.name@)],
            dlen == var_data.values@.len(),
            dlen as int == spec_prod(v.shape@),
            *var_meta == v,
            nd == v.shape@.len(),
            forall|u: int| 0 <= u < v.shape@.len() ==> 1 <= #[trigger] v.shape@[u],
            extents@ == gextents,
            starts@ == gstarts,
            gextents.len() == nd,
            gstarts.len() == nd,
            scratch@.len() == nd,
            forall|u: int| 0 <= u < nd ==> 1 <= #[trigger] gextents[u],
            forall|u: int|
                0 <= u < nd ==> #[trigger] gstarts[u] + gextents[u] <= v.shape@[u],
            total as int == spec_prod(gextents),
            0 <= p <= total,
            values@.len() == p,
            forall|q: int|
                0 <= q < p ==> #[trigger] values@[q] == var_data.values@[spec_flat(
                    spec_slab_index(q, gextents, gstarts),
                    v.shape@,
                )],
            forall|q: int|
                0 <= q < p ==> -FX_VAL_MAX <= #[trigger] values@[q] <= FX_VAL_MAX,
        decreases total - p,
    {
        compute_indices(&mut scratch, p, &extents);
        proof {
            lemma_unflat_in_bounds(p as int, gextents);
        }
        let mut idx: Vec<usize> = Vec::new();
        let mut u: usize = 0;
        while u < nd
            invariant
                nd == gextents.len(),
                nd == gstarts.len(),
                starts@ == gstarts,
                scratch@ == spec_unflat(p as int, gextents),
                scratch@.len() == nd,
                nd == v.shape@.len(),
                forall|w: int|
                    0 <= w < nd ==> #[trigger] scratch@[w] < gextents[w],
                forall|w: int|
                    0 <= w < nd ==> #[trigger] gstarts[w] + gextents[w] <= v.shape@[w],
                0 <= u <= nd,
                idx@.len() == u,
                forall|w: int|
                    0 <= w < u ==> #[trigger] idx@[w] == spec_slab_index(
                        p as int,
                        gextents,
                        gstarts,
                    )[w],
                forall|w: int| 0 <= w < u ==> #[trigger] idx@[w] < v.shape@[w],
            decreases nd - u,
        {
            idx.push(scratch[u] + starts[u]);
            u += 1;
        }
        proof {
            assert(idx@ =~= spec_slab_index(p as int, gextents, gstarts));
            crate::interpolation::lemma_flat_bounds(idx@, v.shape@);
        }
        match flat_index(&idx, &var_meta.shape) {
            Ok(fi) => {
                proof {
                    assert(state.wf_variable(
                        state.metadata.variables@[state.var_idx(var_name@)],
                    ));
                    assert(-FX_VAL_MAX <= var_data.values@[fi as int] <= FX_VAL_MAX);
                }
                values.push(var_data.values[fi]);
            },
            Err(_) => {
                proof {
                    assert(false);
                }
            },
        }
        p += 1;
    }
    let mut dims: Vec<String> = Vec::new();
    let mut shape: Vec<usize> = Vec::new();
    let mut k3: usize = 0;
    proof {
        assert(gextents.subrange(0, 0) =~= Seq::<usize>::empty());
        assert(axis_names(v).subrange(0, 0) =~= Seq::<Seq<char>>::empty());
        assert(dims@.map_values(|d: String| d@) =~= Seq::<Seq<char>>::empty());
    }
    while k3 < nd
        invariant
            nd == gextents.len(),
            extents@ == gextents,
            *var_meta == v,
            nd == v.dimensions@.len(),
            0 <= k3 <= nd,
            dims@.len() == shape@.len(),
            shape@ == kept_extents(gextents.subrange(0, k3 as int)),
            dims@.map_values(|d: String| d@) == kept_names(
                axis_names(v).subrange(0, k3 as int),
                gextents.subrange(0, k3 as int),
            ),
        decreases nd - k3,
    {
        let ghost olddims = dims@;
        let ghost oldshape = shape@;
        if extents[k3] != 1 {
            dims.push(var_meta.dimensions[k3].clone());
            shape.push(extents[k3]);
        }
        proof {
            let pe = gextents.subrange(0, k3 as int + 1);
            let pn = axis_names(v).subrange(0, k3 as int + 1);
            assert(pe.drop_last() =~= gextents.subrange(0, k3 as int));
            assert(pn.drop_last() =~= axis_names(v).subrange(0, k3 as int));
            assert(pe.last() == gextents[k3 as int]);
            assert(pn.last() == v.dimensions@[k3 as int]@);
            if gextents[k3 as int] != 1 {
                assert(dims@.map_values(|d: String| d@) =~= olddims.map_values(
                    |d: String| d@,
                ).push(v.dimensions@[k3 as int]@));
                assert(shape@ =~= oldshape.push(gextents[k3 as int]));
            }
        }
        k3 += 1;
    }
    proof {
        assert(gextents.subrange(0, nd as int) =~= gextents);
        assert(axis_names(v).subrange(0, nd as int) =~= axis_names(v));
    }
    Ok(Hyperslab { dims, shape, extents, starts, values })
}

fn self_meta<'a>(state: &'a AppState, var_name: &str) -> (r: Result<&'a Variable>)
    ensures
        match r {
            Ok(v) => state.var_idx(var_name@) >= 0 && *v == state.metadata.variables@[
                state.var_idx(var_name@)],
            Err(e) => state.var_idx(var_name@) < 0 && e is DataNotFound,
        },
{
    state.get_variable_metadata_checked(var_name)
}

/// A product splits across any cut point.
pub proof fn lemma_prod_split(s: Seq<usize>, k: int)
    requires
        0 <= k <= s.len(),
    ensures
        spec_prod(s) == spec_prod(s.subrange(0, k)) * spec_prod(s.subrange(k, s.len() as int)),
    decreases k,
{
    if k == 0 {
        assert(s.subrange(0, s.len() as int) =~= s);
        assert(spec_prod(s.subrange(0, 0)) == 1);
        assert(1 * spec_prod(s.subrange(0, s.len() as int)) == spec_prod(
            s.subrange(0, s.len() as int),
        )) by (nonlinear_arith);
    } else {
        let tail = s.subrange(1, s.len() as int);
        lemma_prod_split(tail, k - 1);
        assert(tail.subrange(0, k - 1) =~= s.subrange(1, k));
        assert(tail.subrange(k - 1, tail.len() as int) =~= s.subrange(k, s.len() as int));
        lemma_prod_cons(s, k);
        assert((s[0] as int) * (spec_prod(s.subrange(1, k)) * spec_prod(
            s.subrange(k, s.len() as int),
        )) == ((s[0] as int) * spec_prod(s.subrange(1, k))) * spec_prod(
            s.subrange(k, s.len() as int),
        )) by (nonlinear_arith);
    }
}

proof fn lemma_prod_cons(s: Seq<usize>, k: int)
    requires
        1 <= k <= s.len(),
    ensures
        spec_prod(s.subrange(0, k)) == s[0] * spec_prod(s.subrange(1, k)),
        spec_prod(s) == s[0] * spec_prod(s.subrange(1, s.len() as int)),
{
    let pre = s.subrange(0, k);
    assert(pre[0] == s[0]);
    assert(pre.subrange(1, pre.len() as int) =~= s.subrange(1, k));
}

/// Appending one extent multiplies the product.
pub proof fn lemma_prod_snoc(s: Seq<usize>, x: usize)
    ensures
        spec_prod(s.push(x)) == spec_prod(s) * x,
    decreases s.len(),
{
    if s.len() == 0 {
        let ps = s.push(x);
        assert(ps.subrange(1, ps.len() as int) =~= Seq::<usize>::empty());
        assert(spec_prod(ps.subrange(1, ps.len() as int)) == 1);
        assert(spec_prod(ps) == (ps[0] as int) * spec_prod(ps.subrange(1, ps.len() as int)));
        assert((x as int) * 1 == 1 * (x as int)) by (nonlinear_arith);
    } else {
        let ps = s.push(x);
        assert(ps.subrange(1, ps.len() as int) =~= s.subrange(1, s.len() as int).push(x));
        lemma_prod_snoc(s.subrange(1, s.len() as int), x);
        assert(spec_prod(ps) == (ps[0] as int) * spec_prod(ps.subrange(1, ps.len() as int)));
        assert(ps[0] == s[0]);
        assert((s[0] as int) * (spec_prod(s.subrange(1, s.len() as int)) * (x as int)) == ((
        s[0] as int) * spec_prod(s.subrange(1, s.len() as int))) * (x as int))
            by (nonlinear_arith);
    }
}

/// The Arrow-style record-batch contents of an extraction: one column per
/// dimension in layout order, one per variable, all of one shared length,
/// with per-variable metadata strings recording the shape and axis order.
#[derive(Debug)]
pub struct ArrowTable {
    /// Dimension column names, in layout order.
    pub dim_names: Vec<String>,
    /// Dimension columns; each has length `n`.
    pub dim_cols: Vec<Vec<i64>>,
    /// Variable column names.
    pub var_names: Vec<String>,
    /// Variable columns; each has length `n`.
    pub var_cols: Vec<Vec<i64>>,
    /// Per-variable metadata: the surviving shape as a JSON array.
    pub var_meta_shape: Vec<String>,
    /// Per-variable metadata: the axis names as a JSON array.
    pub var_meta_dims: Vec<String>,
    /// The shared column length.
    pub n: usize,
}

/// The JSON rendering of an array of sizes.
pub open spec fn spec_json_usize_array(s: Seq<usize>) -> Seq<char>
    decreases s.len(),
{
    if s.len() == 0 {
        "[]"@
    } else if s.len() == 1 {
        "["@ + spec_dec(s[0] as int) + "]"@
    } else {
        spec_json_usize_array(s.drop_last()).drop_last() + ","@ + spec_dec(s.last() as int)
            + "]"@
    }
}

/// The JSON rendering of an array of names.
pub open spec fn spec_json_name_array(s: Seq<Seq<char>>) -> Seq<char>
    decreases s.len(),
{
    if s.len() == 0 {
        "[]"@
    } else if s.len() == 1 {
        "[\""@ + s[0] + "\"]"@
    } else {
        spec_json_name_array(s.drop_last()).drop_last().drop_last() + "\",\""@ + s.last()
            + "\"]"@
    }
}

/// Render an array of sizes as JSON.
pub fn json_usize_array(v: &Vec<usize>) -> (r: String)
    ensures
        r@ == spec_json_usize_array(v@),
{
    proof {
        reveal_strlit("[]");
        reveal_strlit("[");
        reveal_strlit("]");
        reveal_strlit(",");
    }
    if v.len() == 0 {
        return "[]".to_owned();
    }
    let mut s = String::new();
    s.append("[");
    let mut i: usize = 0;
    while i < v.len()
        invariant
            0 < v@.len(),
            0 <= i <= v@.len(),
            i > 0 ==> s@ + "]"@ == spec_json_usize_array(v@.subrange(0, i as int)),
            i == 0 ==> s@ == "["@,
        decreases v@.len() - i,
    {
        proof {
            reveal_strlit("[");
            reveal_strlit("]");
            reveal_strlit(",");
        }
        if i > 0 {
            s.append(",");
        }
        let t = fmt_usize(v[i]);
        s.append(t.as_str());
        proof {
            let pre = v@.subrange(0, i + 1);
            assert(pre.drop_last() =~= v@.subrange(0, i as int));
            assert(pre.last() == v@[i as int]);
            assert(s@ + "]"@ =~= spec_json_usize_array(pre));
        }
        i += 1;
    }
    s.append("]");
    proof {
        assert(v@.subrange(0, v@.len() as int) =~= v@);
        assert(s@ =~= spec_json_usize_array(v@));
    }
    s
}

/// Render an array of names as JSON.
pub fn json_name_array(v: &Vec<String>) -> (r: String)
    ensures
        r@ == spec_json_name_array(v@.map_values(|t: String| t@)),
{
    proof {
        reveal_strlit("[]");
        reveal_strlit("[\"");
        reveal_strlit("\"]");
        reveal_strlit("\",\"");
    }
    let ghost names = v@.map_values(|t: String| t@);
    proof {
        assert(forall|j: int| 0 <= j < v@.len() ==> #[trigger] names[j] == v@[j]@);
    }
    if v.len() == 0 {
        return "[]".to_owned();
    }
    let mut s = String::new();
    s.append("[\"");
    let mut i: usize = 0;
    while i < v.len()
        invariant
            0 < v@.len(),
            0 <= i <= v@.len(),
            names.len() == v@.len(),
            forall|j: int| 0 <= j < v@.len() ==> #[trigger] names[j] == v@[j]@,
            i > 0 ==> s@ + "\"]"@ == spec_json_name_array(names.subrange(0, i as int)),
            i == 0 ==> s@ == "[\""@,
        decreases v@.len() - i,
    {
        proof {
            reveal_strlit("[\"");
            reveal_strlit("\"]");
            reveal_strlit("\",\"");
        }
        if i > 0 {
            s.append("\",\"");
        }
        s.append(v[i].as_str());
        proof {
            let pre = names.subrange(0, i + 1);
            assert(pre.drop_last() =~= names.subrange(0, i as int));
            assert(pre.last() == names[i as int]);
            assert(s@ + "\"]"@ =~= spec_json_name_array(pre));
        }
        i += 1;
    }
    s.append("\"]");
    proof {
        assert(names.subrange(0, names.len() as int) =~= names);
        assert(s@ =~= spec_json_name_array(names));
    }
    s
}

/// Assemble the Arrow-style table: dimension columns are repeated in a
/// row-major cycle to the shared length (a singleton broadcasts, a
/// full-length column passes through), variable columns are the flattened
/// hyperslabs, and each variable's metadata records its shape and the
/// layout order.
pub fn create_arrow_table(
    variables: &Vec<String>,
    slabs: &Vec<Hyperslab>,
    dimension_names: &Vec<String>,
    coordinate_arrays: &Vec<Vec<i64>>,
    layout: Option<&Vec<String>>,
) -> (r: Result<ArrowTable>)
    requires
        slabs@.len() == variables@.len(),
        coordinate_arrays@.len() == dimension_names@.len(),
        forall|d: int|
            0 <= d < coordinate_arrays@.len() ==> #[trigger] coordinate_arrays@[d]@.len()
                >= 1,
    ensures
        match r {
            Ok(t) => {
                &&& slabs@.len() > 0
                &&& t.n == slabs@[0].values@.len()
                &&& t.dim_cols@.len() == dimension_names@.len()
                &&& t.var_cols@.len() == variables@.len()
                &&& (forall|d: int|
                    0 <= d < t.dim_cols@.len() ==> #[trigger] t.dim_cols@[d]@.len() == t.n)
                &&& (forall|d: int, i: int|
                    0 <= d < t.dim_cols@.len() && 0 <= i < t.n
                        ==> #[trigger] t.dim_cols@[d]@[i] == coordinate_arrays@[d]@[i % (
                    coordinate_arrays@[d]@.len() as int)])
                &&& (forall|j: int|
                    0 <= j < t.var_cols@.len() ==> #[trigger] t.var_cols@[j]@
                        == slabs@[j].values@)
                &&& (forall|j: int|
                    0 <= j < t.var_cols@.len() ==> (#[trigger] t.var_cols@[j])@.len() == t.n)
                &&& t.dim_names@.len() == dimension_names@.len()
                &&& t.var_names@.len() == variables@.len()
                &&& (forall|j: int|
                    0 <= j < t.var_meta_shape@.len() ==> #[trigger] t.var_meta_shape@[j]@
                        == spec_json_usize_array(slabs@[j].shape@))
                &&& (forall|j: int|
                    0 <= j < t.var_meta_dims@.len() ==> #[trigger] t.var_meta_dims@[j]@
                        == (match layout {
                        Some(l) => spec_json_name_array(l@.map_values(|d: String| d@)),
                        None => spec_json_name_array(
                            slabs@[j].dims@.map_values(|d: String| d@),
                        ),
                    }))
                &&& (forall|j: int|
                    0 <= j < t.var_names@.len() ==> (#[trigger] t.var_names@[j])@
                        == variables@[j]@)
                &&& (forall|d: int|
                    0 <= d < t.dim_names@.len() ==> (#[trigger] t.dim_names@[d])@
                        == dimension_names@[d]@)
                &&& t.var_meta_shape@.len() == variables@.len()
                &&& t.var_meta_dims@.len() == variables@.len()
            },
            Err(e) => (slabs@.len() == 0 || exists|j: int|
                0 <= j < slabs@.len() && (#[trigger] slabs@[j].values)@.len()
                    != slabs@[0].values@.len()) && e is Conversion,
        },
{
    proof {
        reveal_strlit("No data arrays for the table");
        reveal_strlit("Variable columns differ in length");
    }
    if slabs.len() == 0 {
        return Err(
            RossbyError::Conversion { message: "No data arrays for the table".to_owned() },
        );
    }
    let n = slabs[0].values.len();
    let mut jc: usize = 0;
    while jc < slabs.len()
        invariant
            0 <= jc <= slabs@.len(),
            slabs@.len() > 0,
            n == slabs@[0].values@.len(),
            forall|t: int|
                0 <= t < jc ==> (#[trigger] slabs@[t].values)@.len() == n,
        decreases slabs@.len() - jc,
    {
        if slabs[jc].values.len() != n {
            return Err(
                RossbyError::Conversion {
                    message: "Variable columns differ in length".to_owned(),
                },
            );
        }
        jc += 1;
    }
    let mut dim_cols: Vec<Vec<i64>> = Vec::new();
    let mut dim_names_out: Vec<String> = Vec::new();
    let nd = dimension_names.len();
    let mut d: usize = 0;
    while d < nd
        invariant
            nd == dimension_names@.len(),
            coordinate_arrays@.len() == nd,
            forall|t: int|
                0 <= t < nd ==> #[trigger] coordinate_arrays@[t]@.len() >= 1,
            0 <= d <= nd,
            dim_cols@.len() == d,
            dim_names_out@.len() == d,
            forall|t: int|
                0 <= t < d ==> (#[trigger] dim_names_out@[t])@ == dimension_names@[t]@,
            forall|t: int| 0 <= t < d ==> #[trigger] dim_cols@[t]@.len() == n,
            forall|t: int, i: int|
                0 <= t < d && 0 <= i < n ==> #[trigger] dim_cols@[t]@[i]
                    == coordinate_arrays@[t]@[i % (coordinate_arrays@[t]@.len() as int)],
        decreases nd - d,
    {
        let coords = &coordinate_arrays[d];
        let clen = coords.len();
        let mut col: Vec<i64> = Vec::new();
        let mut i: usize = 0;
        while i < n
            invariant
                clen == coords@.len(),
                clen >= 1,
                0 <= i <= n,
                col@.len() == i,
                forall|q: int|
                    0 <= q < i ==> #[trigger] col@[q] == coords@[q % (clen as int)],
            decreases n - i,
        {
            col.push(coords[i % clen]);
            i += 1;
        }
        dim_cols.push(col);
        dim_names_out.push(dimension_names[d].clone());
        d += 1;
    }
    let mut var_cols: Vec<Vec<i64>> = Vec::new();
    let mut var_names_out: Vec<String> = Vec::new();
    let mut var_meta_shape: Vec<String> = Vec::new();
    let mut var_meta_dims: Vec<String> = Vec::new();
    let nv = variables.len();
    let mut j: usize = 0;
    while j < nv
        invariant
            nv == variables@.len(),
            slabs@.len() == nv,
            0 <= j <= nv,
            var_cols@.len() == j,
            var_names_out@.len() == j,
            var_meta_shape@.len() == j,
            var_meta_dims@.len() == j,
            forall|t: int|
                0 <= t < j ==> #[trigger] var_cols@[t]@ == slabs@[t].values@,
            forall|t: int|
                0 <= t < j ==> (#[trigger] var_names_out@[t])@ == variables@[t]@,
            forall|t: int|
                0 <= t < j ==> #[trigger] var_meta_shape@[t]@ == spec_json_usize_array(
                    slabs@[t].shape@,
                ),
            forall|t: int|
                0 <= t < j ==> #[trigger] var_meta_dims@[t]@ == (match layout {
                    Some(l) => spec_json_name_array(l@.map_values(|dd: String| dd@)),
                    None => spec_json_name_array(
                        slabs@[t].dims@.map_values(|dd: String| dd@),
                    ),
                }),
        decreases nv - j,
    {
        let mut col: Vec<i64> = Vec::new();
        let slab_vals = &slabs[j].values;
        let m = slab_vals.len();
        let mut q: usize = 0;
        while q < m
            invariant
                m == slab_vals@.len(),
                0 <= q <= m,
                col@ == slab_vals@.subrange(0, q as int),
            decreases m - q,
        {
            col.push(slab_vals[q]);
            proof {
                assert(col@ =~= slab_vals@.subrange(0, q + 1));
            }
            q += 1;
        }
        proof {
            assert(col@ =~= slab_vals@);
        }
        var_cols.push(col);
        var_names_out.push(variables[j].clone());
        var_meta_shape.push(json_usize_array(&slabs[j].shape));
        match layout {
            Some(l) => {
                var_meta_dims.push(json_name_array(l));
            },
            None => {
                var_meta_dims.push(json_name_array(&slabs[j].dims));
            },
        }
        j += 1;
    }
    Ok(
        ArrowTable {
            dim_names: dim_names_out,
            dim_cols,
            var_names: var_names_out,
            var_cols,
            var_meta_shape,
            var_meta_dims,
            n,
        },
    )
}

/// A value with `_FillValue`, `scale_factor` and `add_offset` applied: the
/// fill value maps to `None` (rendered as JSON null), any other raw value
/// is scaled and offset in fixed point, clamped to the representable
/// range.
pub open spec fn spec_scaled(raw: i64, fill: Option<i64>, scale: i64, offset: i64) -> Option<
    int,
> {
    if fill == Some(raw) {
        None
    } else {
        let x = (raw * scale) / (SCALE as int) + offset;
        if x > FX_VAL_MAX {
            Some(FX_VAL_MAX as int)
        } else if x < -FX_VAL_MAX {
            Some(-FX_VAL_MAX as int)
        } else {
            Some(x)
        }
    }
}

/// Apply fill, scale and offset to one raw value.
pub fn apply_scaling(raw: i64, fill: Option<i64>, scale: i64, offset: i64) -> (r: Option<i64>)
    requires
        -FX_VAL_MAX <= raw <= FX_VAL_MAX,
        -FX_VAL_MAX <= scale <= FX_VAL_MAX,
        -FX_VAL_MAX <= offset <= FX_VAL_MAX,
    ensures
        match r {
            Some(v) => spec_scaled(raw, fill, scale, offset) == Some(v as int),
            None => spec_scaled(raw, fill, scale, offset) is None,
        },
{
    match fill {
        Some(f) => {
            if f == raw {
                return None;
            }
        },
        None => {},
    }
    proof {
        assert(-16000000000000000000000000000000 <= (raw as int) * (scale as int)
            <= 16000000000000000000000000000000) by (nonlinear_arith)
            requires
                -FX_VAL_MAX <= raw as int <= FX_VAL_MAX,
                -FX_VAL_MAX <= scale as int <= FX_VAL_MAX,
                FX_VAL_MAX == 4000000000000000,
        ;
    }
    let num: i128 = (raw as i128) * (scale as i128);
    let q: i128 = ediv_i128(num, SCALE as i128);
    proof {
        vstd::arithmetic::div_mod::lemma_div_is_ordered(
            num as int,
            16000000000000000000000000000000,
            SCALE as int,
        );
        vstd::arithmetic::div_mod::lemma_div_is_ordered(
            -16000000000000000000000000000000,
            num as int,
            SCALE as int,
        );
        vstd::arithmetic::div_mod::lemma_fundamental_div_mod_converse(
            16000000000000000000000000000000,
            SCALE as int,
            16000000000000000000000000,
            0,
        );
        vstd::arithmetic::div_mod::lemma_fundamental_div_mod_converse(
            -16000000000000000000000000000000,
            SCALE as int,
            -16000000000000000000000000,
            0,
        );
    }
    let x: i128 = q + (offset as i128);
    if x > FX_VAL_MAX as i128 {
        Some(FX_VAL_MAX)
    } else if x < -(FX_VAL_MAX as i128) {
        Some(-FX_VAL_MAX)
    } else {
        Some(x as i64)
    }
}

/// The JSON rendering of a list of scaled data values.
pub open spec fn spec_json_values(
    vals: Seq<i64>,
    fill: Option<i64>,
    scale: i64,
    offset: i64,
) -> Seq<char>
    decreases vals.len(),
{
    if vals.len() == 0 {
        Seq::<char>::empty()
    } else {
        let prev = if vals.len() == 1 {
            Seq::<char>::empty()
        } else {
            spec_json_values(vals.drop_last(), fill, scale, offset) + ", "@
        };
        prev + (match spec_scaled(vals.last(), fill, scale, offset) {
            Some(v) => spec_fmt_fixed(v),
            None => "null"@,
        })
    }
}

/// Render a variable's values as comma-separated JSON numbers, in chunks
/// of at most 1000 values each; the chunks concatenate to the full
/// rendering.
pub fn json_values_chunks(vals: &Vec<i64>, fill: Option<i64>, scale: i64, offset: i64) -> (r:
    Vec<String>)
    requires
        forall|i: int| 0 <= i < vals@.len() ==> -FX_VAL_MAX <= #[trigger] vals@[i] <= FX_VAL_MAX,
        -FX_VAL_MAX <= scale <= FX_VAL_MAX,
        -FX_VAL_MAX <= offset <= FX_VAL_MAX,
    ensures
        spec_concat_all(r@.map_values(|t: String| t@)) == spec_json_values(
            vals@,
            fill,
            scale,
            offset,
        ),
{
    proof {
        reveal_strlit(", ");
        reveal_strlit("null");
    }
    let mut chunks: Vec<String> = Vec::new();
    let mut cur = String::new();
    let mut in_cur: usize = 0;
    let n = vals.len();
    let mut i: usize = 0;
    while i < n
        invariant
            n == vals@.len(),
            forall|t: int|
                0 <= t < vals@.len() ==> -FX_VAL_MAX <= #[trigger] vals@[t] <= FX_VAL_MAX,
            -FX_VAL_MAX <= scale <= FX_VAL_MAX,
            -FX_VAL_MAX <= offset <= FX_VAL_MAX,
            0 <= i <= n,
            in_cur <= 1000,
            spec_concat_all(chunks@.map_values(|t: String| t@)) + cur@ == spec_json_values(
                vals@.subrange(0, i as int),
                fill,
                scale,
                offset,
            ),
        decreases n - i,
    {
        proof {
            reveal_strlit(", ");
            reveal_strlit("null");
        }
        if in_cur >= 1000 {
            let done = cur;
            cur = String::new();
            in_cur = 0;
            let ghost old_chunks = chunks@;
            chunks.push(done);
            proof {
                lemma_concat_all_snoc(old_chunks.map_values(|t: String| t@), done@);
                assert(chunks@.map_values(|t: String| t@) =~= old_chunks.map_values(
                    |t: String| t@,
                ).push(done@));
            }
        }
        if i > 0 {
            cur.append(", ");
        }
        match apply_scaling(vals[i], fill, scale, offset) {
            Some(v) => {
                let t = fmt_fixed(v);
                cur.append(t.as_str());
            },
            None => {
                cur.append("null");
            },
        }
        proof {
            let pre = vals@.subrange(0, i + 1);
            assert(pre.drop_last() =~= vals@.subrange(0, i as int));
            assert(pre.last() == vals@[i as int]);
            assert(spec_concat_all(chunks@.map_values(|t: String| t@)) + cur@
                =~= spec_json_values(pre, fill, scale, offset));
        }
        in_cur += 1;
        i += 1;
    }
    let ghost old_chunks = chunks@;
    chunks.push(cur);
    proof {
        lemma_concat_all_snoc(old_chunks.map_values(|t: String| t@), cur@);
        assert(chunks@.map_values(|t: String| t@) =~= old_chunks.map_values(
            |t: String| t@,
        ).push(cur@));
        assert(vals@.subrange(0, n as int) =~= vals@);
    }
    chunks
}

/// The concatenation of a sequence of strings.
pub open spec fn spec_concat_all(parts: Seq<Seq<char>>) -> Seq<char>
    decreases parts.len(),
{
    if parts.len() == 0 {
        Seq::<char>::empty()
    } else {
        spec_concat_all(parts.drop_last()) + parts.last()
    }
}

/// Appending one part appends its text.
pub proof fn lemma_concat_all_snoc(parts: Seq<Seq<char>>, x: Seq<char>)
    ensures
        spec_concat_all(parts.push(x)) == spec_concat_all(parts) + x,
{
    assert(parts.push(x).drop_last() =~= parts);
    assert(parts.push(x).last() == x);
}

/// The error body of a failed data request: the message and request id,
/// and for a budget rejection also the requested and allowed point counts.
pub open spec fn spec_error_body(e: RossbyError, request_id: Seq<char>) -> Seq<char> {
    let base = "{\"error\":\""@ + crate::error::spec_message(e) + "\",\"request_id\":\""@
        + request_id + "\""@;
    match e {
        RossbyError::PayloadTooLarge { requested, max_allowed, .. } => base + ",\"requested\":"@
            + spec_dec(requested as int) + ",\"max_allowed\":"@ + spec_dec(max_allowed as int)
            + "}"@,
        _ => base + "}"@,
    }
}

/// Render a failed request: HTTP 413 for a budget rejection and 400 for
/// every other failure, with a JSON body naming the error.
pub fn handle_data_error(error: &RossbyError, request_id: &str) -> (r: (u16, String))
    ensures
        r.0 == 413 <==> crate::error::spec_is_payload_too_large(*error),
        r.0 == 413 || r.0 == 400,
        r.1@ == spec_error_body(*error, request_id@),
{
    proof {
        reveal_strlit("{\"error\":\"");
        reveal_strlit("\",\"request_id\":\"");
        reveal_strlit("\"");
        reveal_strlit(",\"requested\":");
        reveal_strlit(",\"max_allowed\":");
        reveal_strlit("}");
    }
    let status = error.status_code();
    let mut s = String::new();
    s.append("{\"error\":\"");
    let msg = error.message();
    s.append(msg.as_str());
    s.append("\",\"request_id\":\"");
    s.append(request_id);
    s.append("\"");
    match error {
        RossbyError::PayloadTooLarge { requested, max_allowed, .. } => {
            s.append(",\"requested\":");
            let t = fmt_usize(*requested);
            s.append(t.as_str());
            s.append(",\"max_allowed\":");
            let t = fmt_usize(*max_allowed);
            s.append(t.as_str());
            s.append("}");
        },
        _ => {
            s.append("}");
        },
    }
    proof {
        assert(s@ =~= spec_error_body(*error, request_id@));
    }
    (status, s)
}

/// The trimmed, non-empty pieces of a comma-separated list.
pub open spec fn spec_vars_rec(parts: Seq<Seq<char>>) -> Seq<Seq<char>>
    decreases parts.len(),
{
    if parts.len() == 0 {
        Seq::<Seq<char>>::empty()
    } else {
        let pre = spec_vars_rec(parts.drop_last());
        let t = spec_trim(parts.last());
        if t.len() > 0 {
            pre.push(t)
        } else {
            pre
        }
    }
}

/// The names a comma-separated list denotes.
pub open spec fn spec_vars_of(s: Seq<char>) -> Seq<Seq<char>> {
    spec_vars_rec(spec_split(s, ','))
}

/// Split a comma-separated variable list into trimmed, non-empty names.
pub fn parse_vars(vars: &str) -> (r: Vec<String>)
    ensures
        r@.map_values(|t: String| t@) == spec_vars_of(vars@),
        forall|i: int| 0 <= i < r@.len() ==> #[trigger] r@[i]@.len() > 0,
{
    let parts = split_by(vars, ',');
    let ghost pview = spec_split(vars@, ',');
    let mut out: Vec<String> = Vec::new();
    let mut i: usize = 0;
    proof {
        assert(pview.subrange(0, 0) =~= Seq::<Seq<char>>::empty());
        assert(out@.map_values(|t: String| t@) =~= Seq::<Seq<char>>::empty());
    }
    while i < parts.len()
        invariant
            parts@.len() == pview.len(),
            pview == spec_split(vars@, ','),
            forall|j: int| 0 <= j < pview.len() ==> #[trigger] parts@[j]@ == pview[j],
            0 <= i <= parts@.len(),
            out@.map_values(|t: String| t@) == spec_vars_rec(pview.subrange(0, i as int)),
            forall|j: int| 0 <= j < out@.len() ==> #[trigger] out@[j]@.len() > 0,
        decreases parts@.len() - i,
    {
        let ghost oldout = out@;
        let t = trim_spaces(parts[i].as_str());
        if t.as_str().unicode_len() > 0 {
            out.push(t);
        }
        proof {
            let pre1 = pview.subrange(0, i as int + 1);
            assert(pre1.drop_last() =~= pview.subrange(0, i as int));
            assert(pre1.last() == pview[i as int]);
            if spec_trim(pview[i as int]).len() > 0 {
                assert(out@.map_values(|x: String| x@) =~= oldout.map_values(
                    |x: String| x@,
                ).push(spec_trim(pview[i as int])));
            }
        }
        i += 1;
    }
    proof {
        assert(pview.subrange(0, pview.len() as int) =~= pview);
    }
    out
}

/// Resolve the selectors into one inclusive index range per constrained
/// dimension, in selector order; a later selector for the same dimension
/// The coordinate array of a dimension name that itself names a dimension.
pub open spec fn coords_of(state: AppState, d: Seq<char>) -> Seq<i64> {
    state.metadata.coordinates@[state.coord_idx(d)].values@
}

/// Whether `i` is the nearest-lowest index of `v` on `c`: the value is in
/// range and no position is strictly closer, ties going to the lower index.
pub open spec fn nearest_post(c: Seq<i64>, v: i64, i: usize) -> bool {
    &&& c.len() > 0
    &&& c[0] <= v <= c[c.len() - 1]
    &&& (i as int) < c.len()
    &&& forall|j: int|
        0 <= j < c.len() ==> crate::fx::iabs(c[i as int] - v) < crate::fx::iabs(
            #[trigger] c[j] - v,
        ) || (crate::fx::iabs(c[i as int] - v) == crate::fx::iabs(c[j] - v) && i <= j)
}

/// How one selector resolves to one range entry.
pub open spec fn range_entry_rel(
    state: AppState,
    sel: SelectorSpec,
    entry: (String, (usize, usize)),
) -> bool {
    match sel {
        SelectorSpec::Value(d, v) => entry.0@ == d && entry.1.1 == entry.1.0 && nearest_post(
            coords_of(state, d),
            v,
            entry.1.0,
        ),
        SelectorSpec::Range(d, a, b) => entry.0@ == d && nearest_post(
            coords_of(state, d),
            a,
            entry.1.0,
        ) && nearest_post(coords_of(state, d), b, entry.1.1),
        SelectorSpec::Index(d, i) => entry.0@ == d && entry.1 == (i, i) && (i as int)
            < coords_of(state, d).len(),
        SelectorSpec::IndexRange(d, a, b) => entry.0@ == d && entry.1 == (a, b) && (a as int)
            < coords_of(state, d).len() && (b as int) < coords_of(state, d).len(),
    }
}

/// How the whole selector list resolves: one entry per selector, the later
/// selectors stored in front so that a later selector for the same
/// dimension wins first-match lookups.
pub open spec fn ranges_post(
    state: AppState,
    sels: Seq<DimensionSelector>,
    ranges: Seq<(String, (usize, usize))>,
) -> bool {
    &&& ranges.len() == sels.len()
    &&& forall|k: int|
        0 <= k < sels.len() ==> range_entry_rel(
            state,
            sel_view(#[trigger] sels[k]),
            ranges[sels.len() - 1 - k],
        )
}

/// Whether one selector can resolve to a range: its coordinate array
/// exists, and a physical value lies within the axis or a raw index within
/// its length.
pub open spec fn sel_range_ok(state: AppState, sel: SelectorSpec) -> bool {
    match sel {
        SelectorSpec::Value(d, v) => state.coord_idx(d) >= 0 && {
            let c = coords_of(state, d);
            c.len() > 0 && c[0] <= v <= c[c.len() - 1]
        },
        SelectorSpec::Range(d, a, b) => state.coord_idx(d) >= 0 && {
            let c = coords_of(state, d);
            c.len() > 0 && c[0] <= a <= c[c.len() - 1] && c[0] <= b <= c[c.len() - 1]
        },
        SelectorSpec::Index(d, i) => state.coord_idx(d) >= 0 && (i as int) < coords_of(
            state,
            d,
        ).len(),
        SelectorSpec::IndexRange(d, a, b) => state.coord_idx(d) >= 0 && (a as int)
            < coords_of(state, d).len() && (b as int) < coords_of(state, d).len(),
    }
}

/// The nearest-lowest index is unique.
pub proof fn lemma_nearest_unique(c: Seq<i64>, v: i64, i1: usize, i2: usize)
    requires
        nearest_post(c, v, i1),
        nearest_post(c, v, i2),
    ensures
        i1 == i2,
{
    assert(crate::fx::iabs(c[i1 as int] - v) < crate::fx::iabs(c[i2 as int] - v)
        || (crate::fx::iabs(c[i1 as int] - v) == crate::fx::iabs(c[i2 as int] - v) && i1
        <= i2));
    assert(crate::fx::iabs(c[i2 as int] - v) < crate::fx::iabs(c[i1 as int] - v)
        || (crate::fx::iabs(c[i2 as int] - v) == crate::fx::iabs(c[i1 as int] - v) && i2
        <= i1));
}

/// A resolved range list satisfies the selector-level relation.
pub proof fn lemma_ranges_post_rel(
    state: AppState,
    sels: Seq<DimensionSelector>,
    ranges: Seq<(String, (usize, usize))>,
)
    requires
        ranges_post(state, sels, ranges),
    ensures
        range_rel_spec(state, sels.map_values(|x: DimensionSelector| sel_view(x)), ranges),
{
    let m = sels.map_values(|x: DimensionSelector| sel_view(x));
    assert forall|k: int| 0 <= k < m.len() implies range_entry_rel(
        state,
        #[trigger] m[k],
        ranges[m.len() - 1 - k],
    ) by {
        assert(m[k] == sel_view(sels[k]));
        assert(range_entry_rel(state, sel_view(sels[k]), ranges[sels.len() - 1 - k]));
    }
}

/// Two range lists that both resolve the same selector contents are equal.
pub proof fn lemma_range_rel_unique(
    state: AppState,
    sels: Seq<SelectorSpec>,
    r1: Seq<(String, (usize, usize))>,
    r2: Seq<(String, (usize, usize))>,
)
    requires
        range_rel_spec(state, sels, r1),
        range_rel_spec(state, sels, r2),
    ensures
        r1.len() == r2.len(),
        forall|q: int| 0 <= q < r1.len() ==> (#[trigger] r1[q]).1 == r2[q].1 && r1[q].0@
            == r2[q].0@,
{
    assert forall|q: int| 0 <= q < r1.len() implies (#[trigger] r1[q]).1 == r2[q].1
        && r1[q].0@ == r2[q].0@ by {
        let k = sels.len() - 1 - q;
        assert(range_entry_rel(state, sels[k], r1[sels.len() - 1 - k]));
        assert(range_entry_rel(state, sels[k], r2[sels.len() - 1 - k]));
        match sels[k] {
            SelectorSpec::Value(d, v) => {
                lemma_nearest_unique(coords_of(state, d), v, r1[q].1.0, r2[q].1.0);
            },
            SelectorSpec::Range(d, a, b) => {
                lemma_nearest_unique(coords_of(state, d), a, r1[q].1.0, r2[q].1.0);
                lemma_nearest_unique(coords_of(state, d), b, r1[q].1.1, r2[q].1.1);
            },
            SelectorSpec::Index(..) => {},
            SelectorSpec::IndexRange(..) => {},
        }
    }
}

/// Two range lists that both resolve the same selectors are equal.
pub proof fn lemma_ranges_post_unique(
    state: AppState,
    sels: Seq<DimensionSelector>,
    r1: Seq<(String, (usize, usize))>,
    r2: Seq<(String, (usize, usize))>,
)
    requires
        ranges_post(state, sels, r1),
        ranges_post(state, sels, r2),
    ensures
        r1.len() == r2.len(),
        forall|q: int| 0 <= q < r1.len() ==> (#[trigger] r1[q]).1 == r2[q].1 && r1[q].0@
            == r2[q].0@,
{
    assert forall|q: int| 0 <= q < r1.len() implies (#[trigger] r1[q]).1 == r2[q].1
        && r1[q].0@ == r2[q].0@ by {
        let k = sels.len() - 1 - q;
        assert(range_entry_rel(state, sel_view(sels[k]), r1[sels.len() - 1 - k]));
        assert(range_entry_rel(state, sel_view(sels[k]), r2[sels.len() - 1 - k]));
        match sel_view(sels[k]) {
            SelectorSpec::Value(d, v) => {
                lemma_nearest_unique(coords_of(state, d), v, r1[q].1.0, r2[q].1.0);
            },
            SelectorSpec::Range(d, a, b) => {
                lemma_nearest_unique(coords_of(state, d), a, r1[q].1.0, r2[q].1.0);
                lemma_nearest_unique(coords_of(state, d), b, r1[q].1.1, r2[q].1.1);
            },
            SelectorSpec::Index(..) => {},
            SelectorSpec::IndexRange(..) => {},
        }
    }
}

/// Equal range lists select equal ranges for every axis.
pub proof fn lemma_range_of_congruence(
    r1: Seq<(String, (usize, usize))>,
    r2: Seq<(String, (usize, usize))>,
    name: Seq<char>,
    size: usize,
)
    requires
        r1.len() == r2.len(),
        forall|q: int| 0 <= q < r1.len() ==> (#[trigger] r1[q]).1 == r2[q].1 && r1[q].0@
            == r2[q].0@,
    ensures
        spec_range_of(r1, name, size) == spec_range_of(r2, name, size),
{
    assert(range_names(r1) =~= range_names(r2));
    lemma_key_index(range_names(r1), name);
    let i = spec_key_index(range_names(r1), name);
    if i >= 0 {
        assert(r1[i].1 == r2[i].1);
    }
}



/// wins at lookup time, since lookups take the first entry and later
/// entries are pushed behind a fresh binding for that name.
fn build_selected_ranges(state: &AppState, selectors: &Vec<DimensionSelector>) -> (r: Result<
    Vec<(String, (usize, usize))>,
>)
    requires
        state.wf(),
        forall|k: int|
            0 <= k < selectors@.len() ==> state.has_dim(
                sel_dimension(#[trigger] selectors@[k]),
            ),
    ensures
        match r {
            Ok(ranges) => ranges_post(*state, selectors@, ranges@),
            Err(e) => e is DataNotFound || e is DimensionNotFound || e is InvalidCoordinates
                || e is PhysicalValueNotFound || e is IndexOutOfBounds,
        },
        (forall|k: int|
            0 <= k < selectors@.len() ==> sel_range_ok(
                *state,
                sel_view(#[trigger] selectors@[k]),
            )) ==> r is Ok,
{
    proof {
        reveal_strlit("index range");
    }
    let mut ranges: Vec<(String, (usize, usize))> = Vec::new();
    let n = selectors.len();
    let mut i: usize = 0;
    while i < n
        invariant
            state.wf(),
            n == selectors@.len(),
            forall|k: int|
                0 <= k < selectors@.len() ==> state.has_dim(
                    sel_dimension(#[trigger] selectors@[k]),
                ),
            0 <= i <= n,
            ranges@.len() == i,
            forall|k: int|
                0 <= k < i ==> range_entry_rel(
                    *state,
                    sel_view(#[trigger] selectors@[k]),
                    ranges@[i - 1 - k],
                ),
        decreases n - i,
    {
        proof {
            reveal_strlit("index range");
        }
        let ghost oldranges = ranges@;
        proof {
            assert(state.has_dim(sel_dimension(selectors@[i as int])));
        }
        match &selectors[i] {
            DimensionSelector::SingleValue { dimension, value } => {
                let idx = state.find_coordinate_index(dimension.as_str(), *value)?;
                ranges.insert(0, (dimension.clone(), (idx, idx)));
            },
            DimensionSelector::ValueRange { dimension, start, end } => {
                let s0 = state.find_coordinate_index(dimension.as_str(), *start)?;
                let e0 = state.find_coordinate_index(dimension.as_str(), *end)?;
                ranges.insert(0, (dimension.clone(), (s0, e0)));
            },
            DimensionSelector::SingleIndex { dimension, index } => {
                let coords = state.get_coordinate_checked(dimension.as_str())?;
                if *index >= coords.len() {
                    let m = if coords.len() > 0 { coords.len() - 1 } else { 0 };
                    return Err(
                        RossbyError::IndexOutOfBounds {
                            param: dimension.clone(),
                            value: "index range".to_owned(),
                            max: m,
                        },
                    );
                }
                ranges.insert(0, (dimension.clone(), (*index, *index)));
            },
            DimensionSelector::IndexRange { dimension, start, end } => {
                let coords = state.get_coordinate_checked(dimension.as_str())?;
                if *start >= coords.len() || *end >= coords.len() {
                    let m = if coords.len() > 0 { coords.len() - 1 } else { 0 };
                    return Err(
                        RossbyError::IndexOutOfBounds {
                            param: dimension.clone(),
                            value: "index range".to_owned(),
                            max: m,
                        },
                    );
                }
                ranges.insert(0, (dimension.clone(), (*start, *end)));
            },
        }
        proof {
            assert(ranges@[0].0@ == sel_dimension(selectors@[i as int]));
            assert(forall|t: int|
                0 <= t < oldranges.len() ==> #[trigger] ranges@[t + 1] == oldranges[t]);
            assert(range_entry_rel(
                *state,
                sel_view(selectors@[i as int]),
                ranges@[0],
            ));
        }
        i += 1;
    }
    Ok(ranges)
}

/// The number of points the selection takes from a variable: the product
/// over its axes of the selected extent, an inverted range counting one.
pub open spec fn spec_points(
    v: Variable,
    ranges: Seq<(String, (usize, usize))>,
    k: int,
) -> int
    decreases v.shape@.len() - k,
{
    if k < 0 || k >= v.shape@.len() {
        1
    } else {
        let se = spec_range_of(ranges, v.dimensions@[k]@, v.shape@[k]);
        (if se.1 >= se.0 {
            se.1 - se.0 + 1int
        } else {
            1int
        }) * spec_points(v, ranges, k + 1)
    }
}

/// The total point count of a request: the product of the selected extents
/// over the first requested variable's axes.
pub open spec fn spec_total_points(
    state: AppState,
    var_name: Seq<char>,
    ranges: Seq<(String, (usize, usize))>,
) -> int {
    spec_points(state.metadata.variables@[state.var_idx(var_name)], ranges, 0)
}

/// The selected point count is at least one.
pub proof fn lemma_points_pos(v: Variable, ranges: Seq<(String, (usize, usize))>, k: int)
    ensures
        spec_points(v, ranges, k) >= 1,
    decreases v.shape@.len() - k,
{
    if 0 <= k < v.shape@.len() {
        lemma_points_pos(v, ranges, k + 1);
        let se = spec_range_of(ranges, v.dimensions@[k]@, v.shape@[k]);
        let e = if se.1 >= se.0 {
            se.1 - se.0 + 1int
        } else {
            1int
        };
        assert(e * spec_points(v, ranges, k + 1) >= 1) by (nonlinear_arith)
            requires
                e >= 1,
                spec_points(v, ranges, k + 1) >= 1,
        ;
    }
}

/// Enforce the extraction budget: the total point count of the selection
/// over the first requested variable may not exceed the configured
/// maximum; an over-budget request is rejected before any data is copied.
fn check_budget(state: &AppState, var_name: &str, ranges: &Vec<(String, (usize, usize))>)
    -> (r: Result<()>)
    requires
        state.wf(),
        state.var_idx(var_name@) >= 0,
    ensures
        r is Ok <==> spec_total_points(*state, var_name@, ranges@)
            <= state.config.server.max_data_points,
        r is Err ==> (r->Err_0 matches RossbyError::PayloadTooLarge {
            requested,
            max_allowed,
            ..
        } && max_allowed == state.config.server.max_data_points && spec_total_points(
            *state,
            var_name@,
            ranges@,
        ) > max_allowed && (requested as int == spec_total_points(*state, var_name@, ranges@)
            || (spec_total_points(*state, var_name@, ranges@) > usize::MAX && requested
            == usize::MAX))),
{
    proof {
        reveal_strlit("The requested data would exceed the maximum allowed size");
    }
    let max = state.config.server.max_data_points;
    let var_meta = match state.get_variable_metadata_checked(var_name) {
        Ok(m) => m,
        Err(_) => {
            proof {
                assert(false);
            }
            return Ok(());
        },
    };
    let ghost v = state.metadata.variables@[state.var_idx(var_name@)];
    proof {
        lemma_key_index(crate::state::var_names(state.metadata.variables@), var_name@);
        assert(state.wf_variable(state.metadata.variables@[state.var_idx(var_name@)]));
        assert forall|t: int| 0 <= t < v.shape@.len() implies 1
            <= #[trigger] v.shape@[t] by {
            assert(state.dim_idx(v.dimensions@[t]@) >= 0 && state.metadata.dimensions@[
                state.dim_idx(v.dimensions@[t]@)].size == v.shape@[t]);
            lemma_key_index(
                crate::state::dim_names(state.metadata.dimensions@),
                v.dimensions@[t]@,
            );
        }
    }
    let nd = var_meta.shape.len();
    let mut total: u128 = 1;
    let mut sat: bool = false;
    let mut k: usize = nd;
    while k > 0
        invariant
            *var_meta == v,
            nd == v.shape@.len(),
            nd == v.dimensions@.len(),
            forall|t: int| 0 <= t < v.shape@.len() ==> 1 <= #[trigger] v.shape@[t],
            0 <= k <= nd,
            !sat ==> total as int == spec_points(v, ranges@, k as int),
            !sat ==> total <= 18446744073709551615u128,
            sat ==> spec_points(v, ranges@, k as int) > 18446744073709551615,
            total >= 1,
        decreases k,
    {
        let kk = k - 1;
        let (s0, e0) = range_of(ranges, var_meta.dimensions[kk].as_str(), var_meta.shape[kk]);
        let ext: u128 = if e0 >= s0 {
            (e0 as u128) - (s0 as u128) + 1
        } else {
            1
        };
        proof {
            let se = spec_range_of(ranges@, v.dimensions@[kk as int]@, v.shape@[kk as int]);
            assert(se.0 == s0 && se.1 == e0);
            assert(ext as int == (if se.1 >= se.0 {
                se.1 - se.0 + 1int
            } else {
                1int
            }));
            assert(spec_points(v, ranges@, kk as int) == (ext as int) * spec_points(
                v,
                ranges@,
                kk as int + 1,
            ));
            lemma_points_pos(v, ranges@, kk as int + 1);
        }
        if sat {
            proof {
                assert((ext as int) * spec_points(v, ranges@, kk as int + 1)
                    > 18446744073709551615) by (nonlinear_arith)
                    requires
                        ext >= 1,
                        spec_points(v, ranges@, kk as int + 1) > 18446744073709551615,
                ;
            }
        } else {
            proof {
                assert(1 <= (total as int) * (ext as int)
                    <= 340282366920938463463374607431768211455) by (nonlinear_arith)
                    requires
                        1 <= total as int <= 18446744073709551615,
                        1 <= ext as int <= 18446744073709551616,
                ;
            }
            let next = total * ext;
            proof {
                assert(next as int == (ext as int) * spec_points(v, ranges@, kk as int + 1))
                    by (nonlinear_arith)
                    requires
                        next as int == (total as int) * (ext as int),
                        total as int == spec_points(v, ranges@, kk as int + 1),
                ;
            }
            if next > 18446744073709551615u128 {
                sat = true;
            } else {
                total = next;
            }
        }
        k = kk;
    }
    let ghost points = spec_total_points(*state, var_name@, ranges@);
    if sat {
        let requested: usize = usize::MAX;
        return Err(
            RossbyError::PayloadTooLarge {
                message: "The requested data would exceed the maximum allowed size".to_owned(),
                requested,
                max_allowed: max,
            },
        );
    }
    if total > max as u128 {
        let requested: usize = if total > usize::MAX as u128 {
            usize::MAX
        } else {
            total as usize
        };
        return Err(
            RossbyError::PayloadTooLarge {
                message: "The requested data would exceed the maximum allowed size".to_owned(),
                requested,
                max_allowed: max,
            },
        );
    }
    Ok(())
}

/// How a produced table relates to the request: the parameters parse to
/// selectors, the selectors resolve to ranges, the selection fits the
/// budget, each variable column is the extracted hyperslab's values, and
/// the per-variable metadata records the surviving shape and the layout.
/// Marker that groups one pipeline run's intermediate values, so that a
/// quantifier over all four can be instantiated from one term.
pub open spec fn query_chain(
    sels: Seq<DimensionSelector>,
    ranges: Seq<(String, (usize, usize))>,
    slabs: Seq<Hyperslab>,
    cs: Seq<Seq<i64>>,
) -> bool {
    true
}

pub open spec fn data_query_post(state: AppState, params: DataQuery, t: ArrowTable) -> bool {
    exists|
        sels: Seq<DimensionSelector>,
        ranges: Seq<(String, (usize, usize))>,
        slabs: Seq<Hyperslab>,
        cs: Seq<Seq<i64>>,
    |
        {
            &&& #[trigger] query_chain(sels, ranges, slabs, cs)
            &&& spec_selectors(state, params.dynamic_params@) == Some(
                sels.map_values(|x: DimensionSelector| sel_view(x)),
            )
            &&& ranges_post(state, sels, ranges)
            &&& slabs.len() == t.var_names@.len()
            &&& slabs.len() > 0
            &&& (forall|j: int|
                0 <= j < slabs.len() ==> hyperslab_post(
                    state,
                    t.var_names@[j]@,
                    ranges,
                    #[trigger] slabs[j],
                ))
            &&& spec_total_points(state, t.var_names@[0]@, ranges)
                <= state.config.server.max_data_points
            &&& t.n == slabs[0].values@.len()
            &&& (forall|j: int|
                0 <= j < t.var_cols@.len() ==> (#[trigger] t.var_cols@[j])@
                    == slabs[j].values@)
            &&& (forall|j: int|
                0 <= j < t.var_meta_shape@.len() ==> (#[trigger] t.var_meta_shape@[j])@
                    == spec_json_usize_array(slabs[j].shape@))
            &&& (forall|j: int|
                0 <= j < t.var_meta_dims@.len() ==> (#[trigger] t.var_meta_dims@[j])@
                    == (match params.layout {
                    Some(l) => spec_json_name_array(spec_vars_of(l@)),
                    None => spec_json_name_array(
                        slabs[j].dims@.map_values(|dd: String| dd@),
                    ),
                }))
            &&& cs.len() == t.dim_cols@.len()
            &&& (forall|d: int| 0 <= d < cs.len() ==> (#[trigger] cs[d]).len() >= 1)
            &&& (forall|d: int, i: int|
                0 <= d < t.dim_cols@.len() && 0 <= i < t.n
                    ==> #[trigger] t.dim_cols@[d]@[i] == cs[d][i % (cs[d].len() as int)])
        }
}

/// Within one extraction, the flat length is the selected point count.
#[verifier::rlimit(100)]
#[verifier::spinoff_prover]
pub proof fn lemma_slab_points(
    state: AppState,
    var: Seq<char>,
    ranges: Seq<(String, (usize, usize))>,
    h: Hyperslab,
)
    requires
        hyperslab_post(state, var, ranges, h),
    ensures
        h.values@.len() == spec_points(
            state.metadata.variables@[state.var_idx(var)],
            ranges,
            0,
        ),
{
    let v = state.metadata.variables@[state.var_idx(var)];
    assert forall|j: int| 0 <= j < v.shape@.len() implies #[trigger] h.starts@[j]
        + h.extents@[j] <= v.shape@[j] && h.extents@[j] >= 1 by {
        assert(h.starts@[j] + h.extents@[j] <= v.shape@[j] && h.extents@[j] >= 1);
    }
    lemma_prod_is_points(v, ranges, h.extents@, h.starts@, 0);
    assert(h.extents@.subrange(0, h.extents@.len() as int) =~= h.extents@);
}

proof fn lemma_prod_is_points(
    v: Variable,
    ranges: Seq<(String, (usize, usize))>,
    extents: Seq<usize>,
    starts: Seq<usize>,
    k: int,
)
    requires
        extents.len() == v.shape@.len(),
        starts.len() == v.shape@.len(),
        forall|j: int|
            0 <= j < v.shape@.len() ==> (#[trigger] starts[j],
            (starts[j] + extents[j] - 1) as usize) == spec_range_of(
                ranges,
                v.dimensions@[j]@,
                v.shape@[j],
            ),
        forall|j: int|
            0 <= j < v.shape@.len() ==> #[trigger] starts[j] + extents[j] <= v.shape@[j]
                && extents[j] >= 1,
        0 <= k <= extents.len(),
    ensures
        spec_prod(extents.subrange(k, extents.len() as int)) == spec_points(v, ranges, k),
    decreases extents.len() - k,
{
    if k == extents.len() {
        assert(extents.subrange(k, extents.len() as int) =~= Seq::<usize>::empty());
    } else {
        lemma_prod_is_points(v, ranges, extents, starts, k + 1);
        let suff = extents.subrange(k, extents.len() as int);
        assert(suff.subrange(1, suff.len() as int) =~= extents.subrange(
            k + 1,
            extents.len() as int,
        ));
        assert(suff[0] == extents[k]);
        let se = spec_range_of(ranges, v.dimensions@[k]@, v.shape@[k]);
        assert(se.0 == starts[k] && se.1 == (starts[k] + extents[k] - 1) as usize);
        assert(se.1 >= se.0 && se.1 - se.0 + 1 == extents[k]);
    }
}

/// Equal range lists give equal point counts.
pub proof fn lemma_points_congruence(
    v: Variable,
    r1: Seq<(String, (usize, usize))>,
    r2: Seq<(String, (usize, usize))>,
    k: int,
)
    requires
        r1.len() == r2.len(),
        forall|q: int| 0 <= q < r1.len() ==> (#[trigger] r1[q]).1 == r2[q].1 && r1[q].0@
            == r2[q].0@,
        0 <= k,
    ensures
        spec_points(v, r1, k) == spec_points(v, r2, k),
    decreases v.shape@.len() - k,
{
    if k < v.shape@.len() {
        lemma_points_congruence(v, r1, r2, k + 1);
        lemma_range_of_congruence(r1, r2, v.dimensions@[k]@, v.shape@[k]);
    }
}

/// Equal range lists agree on every extraction condition.
pub proof fn lemma_extract_ok_congruence(
    state: AppState,
    var: Seq<char>,
    r1: Seq<(String, (usize, usize))>,
    r2: Seq<(String, (usize, usize))>,
)
    requires
        r1.len() == r2.len(),
        forall|q: int| 0 <= q < r1.len() ==> (#[trigger] r1[q]).1 == r2[q].1 && r1[q].0@
            == r2[q].0@,
        extract_ok(state, var, r1),
    ensures
        extract_ok(state, var, r2),
{
    let v = state.metadata.variables@[state.var_idx(var)];
    assert forall|k: int| 0 <= k < v.shape@.len() implies {
        let se = spec_range_of(r2, (#[trigger] v.dimensions@[k])@, v.shape@[k]);
        se.0 <= se.1 < v.shape@[k]
    } by {
        lemma_range_of_congruence(r1, r2, v.dimensions@[k]@, v.shape@[k]);
        assert({
            let se = spec_range_of(r1, v.dimensions@[k]@, v.shape@[k]);
            se.0 <= se.1 < v.shape@[k]
        });
    }
}

/// How a range list relates to selector contents, later selectors stored
/// in front.
pub open spec fn range_rel_spec(
    state: AppState,
    sels: Seq<SelectorSpec>,
    ranges: Seq<(String, (usize, usize))>,
) -> bool {
    &&& ranges.len() == sels.len()
    &&& forall|k: int|
        0 <= k < sels.len() ==> range_entry_rel(
            state,
            #[trigger] sels[k],
            ranges[sels.len() - 1 - k],
        )
}

/// Whether the layout names all resolve or are the accepted canonical
/// names.
pub open spec fn layout_ok(state: AppState, layout: Option<String>) -> bool {
    match layout {
        Some(ls) => forall|k: int|
            0 <= k < spec_vars_of(ls@).len() ==> {
                let d = #[trigger] spec_vars_of(ls@)[k];
                state.spec_resolve(d) is Some || d == "latitude"@ || d == "longitude"@ || d
                    == "time"@ || d == "level"@
            },
        None => true,
    }
}

/// The request-parsing conditions: a non-empty list of known variables,
/// well-formed selectors, and a valid layout.
pub open spec fn pv_ok(state: AppState, params: DataQuery) -> bool {
    &&& spec_vars_of(params.vars@).len() > 0
    &&& (forall|t: int|
        0 <= t < spec_vars_of(params.vars@).len() ==> state.var_idx(
            #[trigger] spec_vars_of(params.vars@)[t],
        ) >= 0)
    &&& spec_selectors(state, params.dynamic_params@) is Some
    &&& layout_ok(state, params.layout)
}

/// Marker that fixes one resolved range list for a request.
pub open spec fn range_witness(ranges: Seq<(String, (usize, usize))>) -> bool {
    true
}

/// The conditions under which a `/data` request succeeds: it parses, every
/// selector resolves within its axis, the resolved selection fits the
/// budget, every variable's selection is extractable, and (for the tabular
/// representation) every variable yields the same point count.
pub open spec fn data_request_ok(state: AppState, params: DataQuery, same_count: bool) -> bool {
    &&& pv_ok(state, params)
    &&& {
        let sels = spec_selectors(state, params.dynamic_params@)->Some_0;
        &&& (forall|k: int| 0 <= k < sels.len() ==> sel_range_ok(state, #[trigger] sels[k]))
        &&& exists|ranges: Seq<(String, (usize, usize))>|
            {
                &&& #[trigger] range_witness(ranges)
                &&& range_rel_spec(state, sels, ranges)
                &&& spec_total_points(state, spec_vars_of(params.vars@)[0], ranges)
                    <= state.config.server.max_data_points
                &&& (forall|t: int|
                    0 <= t < spec_vars_of(params.vars@).len() ==> extract_ok(
                        state,
                        #[trigger] spec_vars_of(params.vars@)[t],
                        ranges,
                    ))
                &&& (same_count ==> forall|t: int|
                    0 <= t < spec_vars_of(params.vars@).len() ==> spec_points(
                        state.metadata.variables@[state.var_idx(
                            #[trigger] spec_vars_of(params.vars@)[t],
                        )],
                        ranges,
                        0,
                    ) == spec_points(
                        state.metadata.variables@[state.var_idx(
                            spec_vars_of(params.vars@)[0],
                        )],
                        ranges,
                        0,
                    ))
            }
    }
}

/// The conditions under which a `/data` request is owed the budget
/// rejection: it parses and resolves, and the resolved selection exceeds
/// the budget.
pub open spec fn over_budget(state: AppState, params: DataQuery) -> bool {
    &&& pv_ok(state, params)
    &&& {
        let sels = spec_selectors(state, params.dynamic_params@)->Some_0;
        &&& (forall|k: int| 0 <= k < sels.len() ==> sel_range_ok(state, #[trigger] sels[k]))
        &&& exists|ranges: Seq<(String, (usize, usize))>|
            {
                &&& #[trigger] range_witness(ranges)
                &&& range_rel_spec(state, sels, ranges)
                &&& spec_total_points(state, spec_vars_of(params.vars@)[0], ranges)
                    > state.config.server.max_data_points
            }
    }
}

/// When the resolved ranges fit the budget, no resolution of the same
/// selectors exceeds it.
proof fn lemma_not_over_budget(
    state: AppState,
    params: DataQuery,
    selectors: Seq<DimensionSelector>,
    ranges: Seq<(String, (usize, usize))>,
)
    requires
        spec_selectors(state, params.dynamic_params@) == Some(
            selectors.map_values(|x: DimensionSelector| sel_view(x)),
        ),
        ranges_post(state, selectors, ranges),
        spec_total_points(state, spec_vars_of(params.vars@)[0], ranges)
            <= state.config.server.max_data_points,
    ensures
        !over_budget(state, params),
{
    if over_budget(state, params) {
        let sels = spec_selectors(state, params.dynamic_params@)->Some_0;
        let w = choose|w: Seq<(String, (usize, usize))>|
            {
                &&& #[trigger] range_witness(w)
                &&& range_rel_spec(state, sels, w)
                &&& spec_total_points(state, spec_vars_of(params.vars@)[0], w)
                    > state.config.server.max_data_points
            };
        lemma_ranges_post_rel(state, selectors, ranges);
        lemma_range_rel_unique(state, sels, w, ranges);
        lemma_points_congruence(
            state.metadata.variables@[state.var_idx(spec_vars_of(params.vars@)[0])],
            w,
            ranges,
            0,
        );
    }
}

/// Answer a `/data` request in the Arrow-style representation: validate
/// the variables, resolve the selectors, enforce the budget, extract each
/// hyperslab, and assemble the columns.
pub fn process_data_query(state: &AppState, params: &DataQuery) -> (r: Result<ArrowTable>)
    requires
        state.wf(),
    ensures
        match r {
            Ok(t) => t.dim_cols@.len() == t.dim_names@.len() && t.var_cols@.len()
                == t.var_names@.len() && (forall|d: int|
                0 <= d < t.dim_cols@.len() ==> #[trigger] t.dim_cols@[d]@.len() == t.n) && (
            forall|j: int|
                0 <= j < t.var_cols@.len() ==> #[trigger] t.var_cols@[j]@.len() == t.n)
                && data_query_post(*state, *params, t),
            Err(e) => !(e is PayloadTooLarge) || (e matches RossbyError::PayloadTooLarge {
                requested,
                max_allowed,
                ..
            } && max_allowed == state.config.server.max_data_points && (requested
                > max_allowed || requested == usize::MAX)),
        },
        data_request_ok(*state, *params, true) ==> r is Ok,
        over_budget(*state, *params) ==> (r matches Err(RossbyError::PayloadTooLarge {
            requested,
            max_allowed,
            ..
        }) && max_allowed == state.config.server.max_data_points && (forall|
            w: Seq<(String, (usize, usize))>,
        |
            (#[trigger] range_witness(w) && range_rel_spec(
                *state,
                spec_selectors(*state, params.dynamic_params@)->Some_0,
                w,
            )) ==> {
                let tp = spec_total_points(*state, spec_vars_of(params.vars@)[0], w);
                requested as int == tp || (tp > usize::MAX && requested == usize::MAX)
            })),
{
    let (variables, selectors, layout) = parse_and_validate(state, params)?;
    let ranges = match build_selected_ranges(state, &selectors) {
        Ok(rs) => rs,
        Err(e) => {
            proof {
                let sels = spec_selectors(*state, params.dynamic_params@)->Some_0;
                let k = choose|k: int|
                    0 <= k < selectors@.len() && !sel_range_ok(
                        *state,
                        sel_view(selectors@[k]),
                    );
                assert(sels[k] == sel_view(selectors@[k]));
            }
            return Err(e);
        },
    };
    match check_budget(state, variables[0].as_str(), &ranges) {
        Ok(()) => {},
        Err(e) => {
            proof {
                let sels = spec_selectors(*state, params.dynamic_params@)->Some_0;
                assert(spec_vars_of(params.vars@)[0] == (variables@[0])@);
                assert forall|w: Seq<(String, (usize, usize))>|
                    (#[trigger] range_witness(w) && range_rel_spec(
                        *state,
                        sels,
                        w,
                    )) implies {
                    let tp = spec_total_points(*state, spec_vars_of(params.vars@)[0], w);
                    spec_total_points(*state, (variables@[0])@, ranges@) == tp
                } by {
                    lemma_ranges_post_rel(*state, selectors@, ranges@);
                    lemma_range_rel_unique(*state, sels, w, ranges@);
                    lemma_points_congruence(
                        state.metadata.variables@[state.var_idx((variables@[0])@)],
                        w,
                        ranges@,
                        0,
                    );
                }
                if data_request_ok(*state, *params, true) {
                    let w = choose|w: Seq<(String, (usize, usize))>|
                        {
                            &&& #[trigger] range_witness(w)
                            &&& range_rel_spec(*state, sels, w)
                            &&& spec_total_points(*state, spec_vars_of(params.vars@)[0], w)
                                <= state.config.server.max_data_points
                            &&& (forall|t: int|
                                0 <= t < spec_vars_of(params.vars@).len() ==> extract_ok(
                                    *state,
                                    #[trigger] spec_vars_of(params.vars@)[t],
                                    w,
                                ))
                            &&& (forall|t: int|
                                0 <= t < spec_vars_of(params.vars@).len() ==> spec_points(
                                    state.metadata.variables@[state.var_idx(
                                        #[trigger] spec_vars_of(params.vars@)[t],
                                    )],
                                    w,
                                    0,
                                ) == spec_points(
                                    state.metadata.variables@[state.var_idx(
                                        spec_vars_of(params.vars@)[0],
                                    )],
                                    w,
                                    0,
                                ))
                        };
                    assert(false);
                }
            }
            return Err(e);
        },
    }
    let mut slabs: Vec<Hyperslab> = Vec::new();
    let nv = variables.len();
    let mut j: usize = 0;
    while j < nv
        invariant
            state.wf(),
            nv == variables@.len(),
            nv > 0,
            variables@.map_values(|t: String| t@) == spec_vars_of(params.vars@),
            spec_selectors(*state, params.dynamic_params@) == Some(
                selectors@.map_values(|x: DimensionSelector| sel_view(x)),
            ),
            ranges_post(*state, selectors@, ranges@),
            spec_total_points(*state, variables@[0]@, ranges@)
                <= state.config.server.max_data_points,
            match (params.layout, layout) {
                (Some(ls), Some(l)) => l@.map_values(|t: String| t@) == spec_vars_of(ls@),
                (None, None) => true,
                _ => false,
            },
            0 <= j <= nv,
            slabs@.len() == j,
            forall|t: int|
                0 <= t < j ==> hyperslab_post(
                    *state,
                    variables@[t]@,
                    ranges@,
                    #[trigger] slabs@[t],
                ),
        decreases nv - j,
    {
        let slab = match extract_variable_data(state, variables[j].as_str(), &ranges) {
            Ok(sl) => sl,
            Err(e) => {
                proof {
                    let sels = spec_selectors(*state, params.dynamic_params@)->Some_0;
                    assert(spec_vars_of(params.vars@)[0] == (variables@[0])@);
                    lemma_not_over_budget(*state, *params, selectors@, ranges@);
                    if data_request_ok(*state, *params, true) {
                        let w = choose|w: Seq<(String, (usize, usize))>|
                            {
                                &&& #[trigger] range_witness(w)
                                &&& range_rel_spec(*state, sels, w)
                                &&& (forall|t: int|
                                    0 <= t < spec_vars_of(params.vars@).len() ==> extract_ok(
                                        *state,
                                        #[trigger] spec_vars_of(params.vars@)[t],
                                        w,
                                    ))
                            };
                        assert(spec_vars_of(params.vars@)[j as int] == (variables@[j as int])@);
                        assert(extract_ok(*state, (variables@[j as int])@, w));
                        lemma_ranges_post_rel(*state, selectors@, ranges@);
                        lemma_range_rel_unique(*state, sels, w, ranges@);
                        lemma_extract_ok_congruence(*state, (variables@[j as int])@, w, ranges@);
                    }
                }
                return Err(e);
            },
        };
        slabs.push(slab);
        j += 1;
    }
    let (ordered_names, ordered_coords) = match ordered_dimensions(
        state,
        &variables,
        &ranges,
        &layout,
    ) {
        Ok(oc) => oc,
        Err(e) => {
            proof {
                assert(spec_vars_of(params.vars@)[0] == (variables@[0])@);
                lemma_not_over_budget(*state, *params, selectors@, ranges@);
            }
            return Err(e);
        },
    };
    let tr = match &layout {
        Some(l) => create_arrow_table(&variables, &slabs, &ordered_names, &ordered_coords, Some(l)),
        None => create_arrow_table(&variables, &slabs, &ordered_names, &ordered_coords, None),
    };
    let table = match tr {
        Ok(t) => t,
        Err(e) => {
            proof {
                let sels = spec_selectors(*state, params.dynamic_params@)->Some_0;
                assert(spec_vars_of(params.vars@)[0] == (variables@[0])@);
                lemma_not_over_budget(*state, *params, selectors@, ranges@);
                if data_request_ok(*state, *params, true) {
                    let jj = choose|jj: int|
                        0 <= jj < slabs@.len() && (#[trigger] slabs@[jj].values)@.len()
                            != slabs@[0].values@.len();
                    let w = choose|w: Seq<(String, (usize, usize))>|
                        {
                            &&& #[trigger] range_witness(w)
                            &&& range_rel_spec(*state, sels, w)
                            &&& (forall|t: int|
                                0 <= t < spec_vars_of(params.vars@).len() ==> spec_points(
                                    state.metadata.variables@[state.var_idx(
                                        #[trigger] spec_vars_of(params.vars@)[t],
                                    )],
                                    w,
                                    0,
                                ) == spec_points(
                                    state.metadata.variables@[state.var_idx(
                                        spec_vars_of(params.vars@)[0],
                                    )],
                                    w,
                                    0,
                                ))
                        };
                    lemma_ranges_post_rel(*state, selectors@, ranges@);
                    lemma_range_rel_unique(*state, sels, w, ranges@);
                    assert(spec_vars_of(params.vars@)[jj] == (variables@[jj])@);
                    assert(hyperslab_post(*state, (variables@[jj])@, ranges@, slabs@[jj]));
                    assert(hyperslab_post(*state, (variables@[0])@, ranges@, slabs@[0]));
                    lemma_slab_points(*state, (variables@[jj])@, ranges@, slabs@[jj]);
                    lemma_slab_points(*state, (variables@[0])@, ranges@, slabs@[0]);
                    lemma_points_congruence(
                        state.metadata.variables@[state.var_idx((variables@[jj])@)],
                        w,
                        ranges@,
                        0,
                    );
                    lemma_points_congruence(
                        state.metadata.variables@[state.var_idx((variables@[0])@)],
                        w,
                        ranges@,
                        0,
                    );
                }
            }
            return Err(e);
        },
    };
    proof {
        assert(spec_vars_of(params.vars@)[0] == (variables@[0])@);
        lemma_not_over_budget(*state, *params, selectors@, ranges@);
        let ghost cs = Seq::new(ordered_coords@.len(), |d: int| ordered_coords@[d]@);
        assert(forall|t: int|
            0 <= t < nv ==> (#[trigger] table.var_names@[t])@ == variables@[t]@);
        assert forall|t: int| 0 <= t < slabs@.len() implies hyperslab_post(
            *state,
            table.var_names@[t]@,
            ranges@,
            #[trigger] slabs@[t],
        ) by {
            assert(hyperslab_post(*state, variables@[t]@, ranges@, slabs@[t]));
        }
        assert(forall|d: int, i: int|
            0 <= d < table.dim_cols@.len() && 0 <= i < table.n
                ==> #[trigger] table.dim_cols@[d]@[i] == cs[d][i % (cs[d].len() as int)]);
        assert(ranges_post(*state, selectors@, ranges@));
        assert(query_chain(selectors@, ranges@, slabs@, cs));
        assert(data_query_post(*state, *params, table));
    }
    Ok(table)
}

/// Parse the variable list and layout and resolve the selectors; missing
/// or unknown variables and malformed selectors are rejected.
fn parse_and_validate(state: &AppState, params: &DataQuery) -> (r: Result<
    (Vec<String>, Vec<DimensionSelector>, Option<Vec<String>>),
>)
    requires
        state.wf(),
    ensures
        r is Err ==> (r->Err_0 is InvalidParameter || r->Err_0 is InvalidVariables),
        r is Ok ==> ({
            let (vars, sels, _layout) = r->Ok_0;
            &&& vars@.len() > 0
            &&& vars@.map_values(|t: String| t@) == spec_vars_of(params.vars@)
            &&& (forall|i: int|
                0 <= i < vars@.len() ==> state.var_idx((#[trigger] vars@[i])@) >= 0)
            &&& spec_selectors(*state, params.dynamic_params@) == Some(
                sels@.map_values(|t: DimensionSelector| sel_view(t)),
            )
            &&& (forall|k: int|
                0 <= k < sels@.len() ==> state.has_dim(sel_dimension(#[trigger] sels@[k])))
            &&& (match (params.layout, (r->Ok_0).2) {
                (Some(ls), Some(l)) => l@.map_values(|t: String| t@) == spec_vars_of(ls@),
                (None, None) => true,
                _ => false,
            })
        }),
        pv_ok(*state, *params) ==> r is Ok,
{
    proof {
        reveal_strlit("vars");
        reveal_strlit("layout");
        reveal_strlit("At least one variable must be specified");
        reveal_strlit("Unknown dimension in layout");
        reveal_strlit("latitude");
        reveal_strlit("longitude");
        reveal_strlit("time");
        reveal_strlit("level");
    }
    let variables = parse_vars(params.vars.as_str());
    if variables.len() == 0 {
        return Err(
            RossbyError::InvalidParameter {
                param: "vars".to_owned(),
                message: "At least one variable must be specified".to_owned(),
            },
        );
    }
    let mut invalid: Vec<String> = Vec::new();
    let mut j: usize = 0;
    while j < variables.len()
        invariant
            0 <= j <= variables@.len(),
            variables@.map_values(|t: String| t@) == spec_vars_of(params.vars@),
            invalid@.len() == 0 ==> forall|t: int|
                0 <= t < j ==> state.var_idx((#[trigger] variables@[t])@) >= 0,
            invalid@.len() > 0 ==> exists|t: int|
                0 <= t < j && state.var_idx((#[trigger] variables@[t])@) < 0,
        decreases variables@.len() - j,
    {
        if !state.has_variable(variables[j].as_str()) {
            invalid.push(variables[j].clone());
        }
        j += 1;
    }
    if invalid.len() > 0 {
        proof {
            let t = choose|t: int|
                0 <= t < variables@.len() && state.var_idx((variables@[t])@) < 0;
            assert(spec_vars_of(params.vars@)[t] == (variables@[t])@);
        }
        return Err(RossbyError::InvalidVariables { names: invalid });
    }
    let selectors = match process_dimension_constraints(state, &params.dynamic_params) {
        Ok(s) => s,
        Err(e) => {
            return Err(
                match e {
                    RossbyError::InvalidParameter { param, message } =>
                        RossbyError::InvalidParameter { param, message },
                    _ => RossbyError::InvalidParameter {
                        param: "vars".to_owned(),
                        message: "At least one variable must be specified".to_owned(),
                    },
                },
            );
        },
    };
    let layout: Option<Vec<String>> = match &params.layout {
        Some(layout_str) => {
            let dims = parse_vars(layout_str.as_str());
            let mut k: usize = 0;
            while k < dims.len()
                invariant
                    state.wf(),
                    0 <= k <= dims@.len(),
                    variables@.map_values(|t: String| t@) == spec_vars_of(params.vars@),
                    dims@.map_values(|t: String| t@) == spec_vars_of(layout_str@),
                    forall|t: int|
                        0 <= t < variables@.len() ==> state.var_idx(
                            (#[trigger] variables@[t])@,
                        ) >= 0,
                    spec_selectors(*state, params.dynamic_params@) == Some(
                        selectors@.map_values(|t: DimensionSelector| sel_view(t)),
                    ),
                    forall|t: int|
                        0 <= t < selectors@.len() ==> state.has_dim(
                            sel_dimension(#[trigger] selectors@[t]),
                        ),
                    params.layout == Some(*layout_str),
                decreases dims@.len() - k,
            {
                proof {
                    reveal_strlit("layout");
                    reveal_strlit("Unknown dimension in layout");
                    reveal_strlit("latitude");
                    reveal_strlit("longitude");
                    reveal_strlit("time");
                    reveal_strlit("level");
                }
                let d = dims[k].as_str();
                let resolves = match state.resolve_dimension(d) {
                    Ok(_) => true,
                    Err(_) => false,
                };
                if !resolves && !(str_eq(d, "latitude") || str_eq(d, "longitude") || str_eq(
                    d,
                    "time",
                ) || str_eq(d, "level")) {
                    proof {
                        assert(spec_vars_of(layout_str@)[k as int] == (dims@[k as int])@);
                        assert(!layout_ok(*state, params.layout));
                    }
                    return Err(
                        RossbyError::InvalidParameter {
                            param: "layout".to_owned(),
                            message: "Unknown dimension in layout".to_owned(),
                        },
                    );
                }
                k += 1;
            }
            Some(dims)
        },
        None => None,
    };
    Ok((variables, selectors, layout))
}

/// The dimension names and selected coordinate slices of the output, in
/// layout order when a layout was given and in the first variable's axis
/// order otherwise.
fn ordered_dimensions(
    state: &AppState,
    variables: &Vec<String>,
    ranges: &Vec<(String, (usize, usize))>,
    layout: &Option<Vec<String>>,
) -> (r: Result<(Vec<String>, Vec<Vec<i64>>)>)
    requires
        state.wf(),
        variables@.len() > 0,
    ensures
        match r {
            Ok((names, coords)) => names@.len() == coords@.len() && (forall|d: int|
                0 <= d < coords@.len() ==> #[trigger] coords@[d]@.len() >= 1),
            Err(e) => e is DataNotFound && layout is None && state.var_idx(
                variables@[0]@,
            ) < 0,
        },
{
    let order: Vec<String> = match layout {
        Some(l) => {
            let mut o: Vec<String> = Vec::new();
            let mut k: usize = 0;
            while k < l.len()
                invariant
                    state.wf(),
                    0 <= k <= l@.len(),
                decreases l@.len() - k,
            {
                match state.resolve_dimension(l[k].as_str()) {
                    Ok(t) => {
                        o.push(t);
                    },
                    Err(_) => {
                        o.push(l[k].clone());
                    },
                }
                k += 1;
            }
            o
        },
        None => state.get_variable_dimensions(variables[0].as_str())?,
    };
    let mut names: Vec<String> = Vec::new();
    let mut coords_out: Vec<Vec<i64>> = Vec::new();
    let mut k: usize = 0;
    while k < order.len()
        invariant
            state.wf(),
            0 <= k <= order@.len(),
            names@.len() == coords_out@.len(),
            forall|d: int|
                0 <= d < coords_out@.len() ==> #[trigger] coords_out@[d]@.len() >= 1,
        decreases order@.len() - k,
    {
        match crate::state::find_coordinate(&state.metadata.coordinates, order[k].as_str()) {
            Some(ci) => {
                let coords = &state.metadata.coordinates[ci].values;
                if coords.len() > 0 {
                    let cl = coords.len();
                    let (s0, e0) = range_of(ranges, order[k].as_str(), cl);
                    let hi = if e0 < cl {
                        e0
                    } else {
                        cl - 1
                    };
                    let lo = if s0 <= hi {
                        s0
                    } else {
                        hi
                    };
                    let mut sel: Vec<i64> = Vec::new();
                    let mut q: usize = lo;
                    while q <= hi
                        invariant
                            lo <= q <= hi + 1,
                            hi < cl,
                            cl == coords@.len(),
                            sel@.len() == q - lo,
                            coords@ == state.metadata.coordinates@[ci as int].values@,
                            ci < state.metadata.coordinates@.len(),
                        decreases hi + 1 - q,
                    {
                        sel.push(coords[q]);
                        q += 1;
                    }
                    names.push(order[k].clone());
                    coords_out.push(sel);
                }
            },
            None => {},
        }
        k += 1;
    }
    Ok((names, coords_out))
}

/// Answer a `/data` request as chunked JSON: the metadata envelope, then
/// each variable's values with fill, scale and offset applied; the chunks
/// concatenate to one JSON object.
pub fn process_data_query_json(state: &AppState, params: &DataQuery) -> (r: Result<Vec<String>>)
    requires
        state.wf(),
    ensures
        match r {
            Ok(chunks) => chunks@.len() >= 2 && exists|
                vars: Seq<String>,
                sels: Seq<DimensionSelector>,
                ranges: Seq<(String, (usize, usize))>,
                slabs: Seq<Hyperslab>,
            |
                {
                    &&& #[trigger] stream_chain(*state, vars, sels, ranges, slabs)
                    &&& vars.map_values(|t: String| t@) == spec_vars_of(params.vars@)
                    &&& spec_selectors(*state, params.dynamic_params@) == Some(
                        sels.map_values(|x: DimensionSelector| sel_view(x)),
                    )
                    &&& exists|names: Seq<String>|
                        #[trigger] json_chain(ranges, slabs, names) && spec_concat_all(
                            chunks@.map_values(|t: String| t@),
                        ) == spec_json_doc(
                            *state,
                            vars,
                            slabs,
                            names,
                            match params.layout {
                                Some(ls) => Some(spec_vars_of(ls@)),
                                None => None,
                            },
                        )
                },
            Err(e) => !(e is PayloadTooLarge) || (e matches RossbyError::PayloadTooLarge {
                requested,
                max_allowed,
                ..
            } && max_allowed == state.config.server.max_data_points && (requested
                > max_allowed || requested == usize::MAX)),
        },
        data_request_ok(*state, *params, false) ==> r is Ok,
        over_budget(*state, *params) ==> (r matches Err(RossbyError::PayloadTooLarge {
            requested,
            max_allowed,
            ..
        }) && max_allowed == state.config.server.max_data_points && (forall|
            w: Seq<(String, (usize, usize))>,
        |
            (#[trigger] range_witness(w) && range_rel_spec(
                *state,
                spec_selectors(*state, params.dynamic_params@)->Some_0,
                w,
            )) ==> {
                let tp = spec_total_points(*state, spec_vars_of(params.vars@)[0], w);
                requested as int == tp || (tp > usize::MAX && requested == usize::MAX)
            })),
{
    let (variables, selectors, layout) = parse_and_validate(state, params)?;
    proof {
        let sels = spec_selectors(*state, params.dynamic_params@)->Some_0;
        assert(sels == selectors@.map_values(|x: DimensionSelector| sel_view(x)));
        assert(spec_vars_of(params.vars@)[0] == (variables@[0])@);
        assert forall|t: int| 0 <= t < variables@.len() implies (
        #[trigger] variables@[t])@ == spec_vars_of(params.vars@)[t] by {}
        if data_request_ok(*state, *params, false) {
            assert forall|k: int| 0 <= k < selectors@.len() implies sel_range_ok(
                *state,
                sel_view(#[trigger] selectors@[k]),
            ) by {
                assert(sels[k] == sel_view(selectors@[k]));
            }
            let w = choose|w: Seq<(String, (usize, usize))>|
                {
                    &&& #[trigger] range_witness(w)
                    &&& range_rel_spec(*state, sels, w)
                    &&& spec_total_points(*state, spec_vars_of(params.vars@)[0], w)
                        <= state.config.server.max_data_points
                    &&& (forall|t: int|
                        0 <= t < spec_vars_of(params.vars@).len() ==> extract_ok(
                            *state,
                            #[trigger] spec_vars_of(params.vars@)[t],
                            w,
                        ))
                };
            assert forall|t: int| 0 <= t < variables@.len() implies extract_ok(
                *state,
                (#[trigger] variables@[t])@,
                w,
            ) by {
                assert(extract_ok(*state, spec_vars_of(params.vars@)[t], w));
            }
            assert(json_args_ok(*state, variables@, selectors@));
        }
        if over_budget(*state, *params) {
            assert forall|k: int| 0 <= k < selectors@.len() implies sel_range_ok(
                *state,
                sel_view(#[trigger] selectors@[k]),
            ) by {
                assert(sels[k] == sel_view(selectors@[k]));
            }
            assert(json_over_budget(*state, variables@, selectors@));
        }
    }
    let r = create_json_stream(state, &variables, &selectors, &layout);
    proof {
        if r is Ok {
            let (ranges, slabs, names) = choose|
                ranges: Seq<(String, (usize, usize))>,
                slabs: Seq<Hyperslab>,
                names: Seq<String>,
            |
                #[trigger] json_chain(ranges, slabs, names) && stream_chain(
                    *state,
                    variables@,
                    selectors@,
                    ranges,
                    slabs,
                ) && spec_concat_all((r->Ok_0)@.map_values(|t: String| t@)) == spec_json_doc(
                    *state,
                    variables@,
                    slabs,
                    names,
                    match layout {
                        Some(l) => Some(l@.map_values(|d: String| d@)),
                        None => None,
                    },
                );
            assert(stream_chain(*state, variables@, selectors@, ranges, slabs));
            assert(json_chain(ranges, slabs, names));
            match (&params.layout, &layout) {
                (Some(ls), Some(l)) => {
                    assert(l@.map_values(|d: String| d@) == spec_vars_of(ls@));
                },
                _ => {},
            }
        }
    }
    r
}

/// Marker that groups one JSON run's intermediate values, so that a
/// quantifier over all three can be instantiated from one term.
pub open spec fn json_chain(
    ranges: Seq<(String, (usize, usize))>,
    slabs: Seq<Hyperslab>,
    names: Seq<String>,
) -> bool {
    true
}

/// How a JSON response's intermediate values relate to the request.
pub open spec fn stream_chain(
    state: AppState,
    variables: Seq<String>,
    selectors: Seq<DimensionSelector>,
    ranges: Seq<(String, (usize, usize))>,
    slabs: Seq<Hyperslab>,
) -> bool {
    &&& ranges_post(state, selectors, ranges)
    &&& slabs.len() == variables.len()
    &&& variables.len() > 0
    &&& (forall|t: int|
        0 <= t < slabs.len() ==> hyperslab_post(
            state,
            variables[t]@,
            ranges,
            #[trigger] slabs[t],
        ))
    &&& spec_total_points(state, variables[0]@, ranges)
        <= state.config.server.max_data_points
}

/// The conditions under which validated query parts yield a JSON
/// response: every selector resolves within its axis, the resolved
/// selection fits the budget, and every variable's selection is
/// extractable.
pub open spec fn json_args_ok(
    state: AppState,
    variables: Seq<String>,
    selectors: Seq<DimensionSelector>,
) -> bool {
    &&& (forall|k: int|
        0 <= k < selectors.len() ==> sel_range_ok(state, sel_view(#[trigger] selectors[k])))
    &&& exists|ranges: Seq<(String, (usize, usize))>|
        {
            &&& #[trigger] range_witness(ranges)
            &&& range_rel_spec(
                state,
                selectors.map_values(|x: DimensionSelector| sel_view(x)),
                ranges,
            )
            &&& spec_total_points(state, variables[0]@, ranges)
                <= state.config.server.max_data_points
            &&& (forall|t: int|
                0 <= t < variables.len() ==> extract_ok(
                    state,
                    (#[trigger] variables[t])@,
                    ranges,
                ))
        }
}

/// The conditions under which validated query parts are owed the budget
/// rejection: every selector resolves, and the resolved selection exceeds
/// the budget.
pub open spec fn json_over_budget(
    state: AppState,
    variables: Seq<String>,
    selectors: Seq<DimensionSelector>,
) -> bool {
    &&& (forall|k: int|
        0 <= k < selectors.len() ==> sel_range_ok(state, sel_view(#[trigger] selectors[k])))
    &&& exists|ranges: Seq<(String, (usize, usize))>|
        {
            &&& #[trigger] range_witness(ranges)
            &&& range_rel_spec(
                state,
                selectors.map_values(|x: DimensionSelector| sel_view(x)),
                ranges,
            )
            &&& spec_total_points(state, variables[0]@, ranges)
                > state.config.server.max_data_points
        }
}

/// Build the chunked JSON response body for validated query parts; the
/// value sections are flushed in groups of a thousand values, and the
/// chunks concatenate to one JSON object.
pub fn create_json_stream(
    state: &AppState,
    variables: &Vec<String>,
    selectors: &Vec<DimensionSelector>,
    layout: &Option<Vec<String>>,
) -> (r: Result<Vec<String>>)
    requires
        state.wf(),
        variables@.len() > 0,
        forall|i: int|
            0 <= i < variables@.len() ==> state.var_idx((#[trigger] variables@[i])@) >= 0,
        forall|k: int|
            0 <= k < selectors@.len() ==> state.has_dim(
                sel_dimension(#[trigger] selectors@[k]),
            ),
    ensures
        match r {
            Ok(chunks) => chunks@.len() >= 2 && exists|
                ranges: Seq<(String, (usize, usize))>,
                slabs: Seq<Hyperslab>,
                names: Seq<String>,
            |
                {
                    &&& #[trigger] json_chain(ranges, slabs, names)
                    &&& stream_chain(*state, variables@, selectors@, ranges, slabs)
                    &&& spec_concat_all(chunks@.map_values(|t: String| t@))
                        == spec_json_doc(
                        *state,
                        variables@,
                        slabs,
                        names,
                        match layout {
                            Some(l) => Some(l@.map_values(|d: String| d@)),
                            None => None,
                        },
                    )
                },
            Err(e) => !(e is PayloadTooLarge) || (e matches RossbyError::PayloadTooLarge {
                requested,
                max_allowed,
                ..
            } && max_allowed == state.config.server.max_data_points && (requested
                > max_allowed || requested == usize::MAX)),
        },
        json_args_ok(*state, variables@, selectors@) ==> r is Ok,
        json_over_budget(*state, variables@, selectors@) ==> (r matches Err(
            RossbyError::PayloadTooLarge { requested, max_allowed, .. },
        ) && max_allowed == state.config.server.max_data_points && (forall|
            w: Seq<(String, (usize, usize))>,
        |
            (#[trigger] range_witness(w) && range_rel_spec(
                *state,
                selectors@.map_values(|x: DimensionSelector| sel_view(x)),
                w,
            )) ==> {
                let tp = spec_total_points(*state, variables@[0]@, w);
                requested as int == tp || (tp > usize::MAX && requested == usize::MAX)
            })),
{
    proof {
        reveal_strlit("{\"metadata\":{\"query\":{\"vars\":");
        reveal_strlit(",\"layout\":");
        reveal_strlit("null");
        reveal_strlit(",\"format\":\"json\"},\"shapes\":[");
        reveal_strlit(",");
        reveal_strlit("],\"dimensions\":");
        reveal_strlit(",\"variables\":{");
        reveal_strlit("}},\"data\":{");
        reveal_strlit("\"");
        reveal_strlit("\":[");
        reveal_strlit("]");
        reveal_strlit(",\"");
        reveal_strlit("}}");
        reveal_strlit("_FillValue");
        reveal_strlit("scale_factor");
        reveal_strlit("add_offset");
    }
    let ranges = build_selected_ranges(state, selectors)?;
    let ghost sels = selectors@.map_values(|x: DimensionSelector| sel_view(x));
    match check_budget(state, variables[0].as_str(), &ranges) {
        Ok(()) => {},
        Err(e) => {
            proof {
                assert forall|w: Seq<(String, (usize, usize))>|
                    (#[trigger] range_witness(w) && range_rel_spec(
                        *state,
                        sels,
                        w,
                    )) implies {
                    let tp = spec_total_points(*state, variables@[0]@, w);
                    spec_total_points(*state, (variables@[0])@, ranges@) == tp
                } by {
                    lemma_ranges_post_rel(*state, selectors@, ranges@);
                    lemma_range_rel_unique(*state, sels, w, ranges@);
                    lemma_points_congruence(
                        state.metadata.variables@[state.var_idx((variables@[0])@)],
                        w,
                        ranges@,
                        0,
                    );
                }
            }
            return Err(e);
        },
    }
    let mut slabs: Vec<Hyperslab> = Vec::new();
    let nv = variables.len();
    let mut j: usize = 0;
    while j < nv
        invariant
            state.wf(),
            nv == variables@.len(),
            nv > 0,
            sels == selectors@.map_values(|x: DimensionSelector| sel_view(x)),
            ranges_post(*state, selectors@, ranges@),
            spec_total_points(*state, variables@[0]@, ranges@)
                <= state.config.server.max_data_points,
            0 <= j <= nv,
            slabs@.len() == j,
            forall|t: int|
                0 <= t < j ==> hyperslab_post(
                    *state,
                    variables@[t]@,
                    ranges@,
                    #[trigger] slabs@[t],
                ),
        decreases nv - j,
    {
        let slab = match extract_variable_data(state, variables[j].as_str(), &ranges) {
            Ok(sl) => sl,
            Err(e) => {
                proof {
                    if json_over_budget(*state, variables@, selectors@) {
                        let w = choose|w: Seq<(String, (usize, usize))>|
                            {
                                &&& #[trigger] range_witness(w)
                                &&& range_rel_spec(*state, sels, w)
                                &&& spec_total_points(*state, variables@[0]@, w)
                                    > state.config.server.max_data_points
                            };
                        lemma_ranges_post_rel(*state, selectors@, ranges@);
                        lemma_range_rel_unique(*state, sels, w, ranges@);
                        lemma_points_congruence(
                            state.metadata.variables@[state.var_idx((variables@[0])@)],
                            w,
                            ranges@,
                            0,
                        );
                    }
                    if json_args_ok(*state, variables@, selectors@) {
                        let w = choose|w: Seq<(String, (usize, usize))>|
                            {
                                &&& #[trigger] range_witness(w)
                                &&& range_rel_spec(*state, sels, w)
                                &&& spec_total_points(*state, variables@[0]@, w)
                                    <= state.config.server.max_data_points
                                &&& (forall|t: int|
                                    0 <= t < variables@.len() ==> extract_ok(
                                        *state,
                                        (#[trigger] variables@[t])@,
                                        w,
                                    ))
                            };
                        assert(extract_ok(*state, (variables@[j as int])@, w));
                        lemma_ranges_post_rel(*state, selectors@, ranges@);
                        lemma_range_rel_unique(*state, sels, w, ranges@);
                        lemma_extract_ok_congruence(
                            *state,
                            (variables@[j as int])@,
                            w,
                            ranges@,
                        );
                    }
                }
                return Err(e);
            },
        };
        slabs.push(slab);
        j += 1;
    }
    proof {
        if json_over_budget(*state, variables@, selectors@) {
            let w = choose|w: Seq<(String, (usize, usize))>|
                {
                    &&& #[trigger] range_witness(w)
                    &&& range_rel_spec(*state, sels, w)
                    &&& spec_total_points(*state, variables@[0]@, w)
                        > state.config.server.max_data_points
                };
            lemma_ranges_post_rel(*state, selectors@, ranges@);
            lemma_range_rel_unique(*state, sels, w, ranges@);
            lemma_points_congruence(
                state.metadata.variables@[state.var_idx((variables@[0])@)],
                w,
                ranges@,
                0,
            );
        }
    }
    proof {
        assert(stream_chain(*state, variables@, selectors@, ranges@, slabs@));
    }
    let (ordered_names, _ordered_coords) = ordered_dimensions(
        state,
        variables,
        &ranges,
        layout,
    )?;
    let ghost lspec: Option<Seq<Seq<char>>> = match layout {
        Some(l) => Some(l@.map_values(|d: String| d@)),
        None => None,
    };
    let ghost head_spec = spec_json_head(*state, variables@, slabs@, ordered_names@, lspec);
    let mut head = String::new();
    head.append("{\"metadata\":{\"query\":{\"vars\":");
    let vn = json_name_array(variables);
    head.append(vn.as_str());
    head.append(",\"layout\":");
    match layout {
        Some(l) => {
            let ln = json_name_array(l);
            head.append(ln.as_str());
        },
        None => {
            head.append("null");
        },
    }
    head.append(",\"format\":\"json\"},\"shapes\":[");
    let ghost h1 = head@;
    let mut j2: usize = 0;
    proof {
        assert(slabs@.subrange(0, 0) =~= Seq::<Hyperslab>::empty());
    }
    while j2 < slabs.len()
        invariant
            0 <= j2 <= slabs@.len(),
            head@ == h1 + spec_shapes_list(slabs@.subrange(0, j2 as int)),
        decreases slabs@.len() - j2,
    {
        proof {
            reveal_strlit(",");
        }
        if j2 > 0 {
            head.append(",");
        }
        let sh = json_usize_array(&slabs[j2].shape);
        head.append(sh.as_str());
        proof {
            let pre1 = slabs@.subrange(0, j2 as int + 1);
            assert(pre1.drop_last() =~= slabs@.subrange(0, j2 as int));
            assert(pre1.last() == slabs@[j2 as int]);
            assert(head@ =~= h1 + spec_shapes_list(pre1));
        }
        j2 += 1;
    }
    proof {
        assert(slabs@.subrange(0, slabs@.len() as int) =~= slabs@);
    }
    head.append("],\"dimensions\":");
    let dn = json_name_array(&ordered_names);
    head.append(dn.as_str());
    head.append(",\"variables\":{");
    let ghost h2 = head@;
    let mut j3: usize = 0;
    proof {
        assert(variables@.subrange(0, 0) =~= Seq::<String>::empty());
    }
    while j3 < variables.len()
        invariant
            state.wf(),
            0 <= j3 <= variables@.len(),
            head@ == h2 + spec_vars_meta(*state, variables@.subrange(0, j3 as int)),
        decreases variables@.len() - j3,
    {
        proof {
            reveal_strlit(",\"");
            reveal_strlit("\"");
            reveal_strlit("\":");
        }
        if j3 > 0 {
            head.append(",\"");
        } else {
            head.append("\"");
        }
        head.append(variables[j3].as_str());
        head.append("\":");
        let attrs_json = variable_attrs_json(state, variables[j3].as_str());
        head.append(attrs_json.as_str());
        proof {
            let pre1 = variables@.subrange(0, j3 as int + 1);
            assert(pre1.drop_last() =~= variables@.subrange(0, j3 as int));
            assert(pre1.last() == variables@[j3 as int]);
            assert(head@ =~= h2 + spec_vars_meta(*state, pre1));
        }
        j3 += 1;
    }
    head.append("}},\"data\":{");
    proof {
        assert(variables@.subrange(0, variables@.len() as int) =~= variables@);
        assert(head@ =~= head_spec);
    }
    let mut chunks: Vec<String> = Vec::new();
    chunks.push(head);
    let mut j4: usize = 0;
    proof {
        assert(spec_concat_all(chunks@.map_values(|t: String| t@)) =~= head_spec
            + spec_data_sections(
            *state,
            variables@.subrange(0, 0),
            slabs@.subrange(0, 0),
        )) by {
            assert(chunks@.map_values(|t: String| t@) =~= Seq::<Seq<char>>::empty().push(
                head_spec,
            ));
            lemma_concat_all_snoc(Seq::<Seq<char>>::empty(), head_spec);
            assert(variables@.subrange(0, 0).len() == 0);
        }
    }
    while j4 < variables.len()
        invariant
            state.wf(),
            variables@.len() == slabs@.len(),
            variables@.len() > 0,
            stream_chain(*state, variables@, selectors@, ranges@, slabs@),
            head_spec == spec_json_head(*state, variables@, slabs@, ordered_names@, lspec),
            0 <= j4 <= variables@.len(),
            chunks@.len() >= 1,
            spec_concat_all(chunks@.map_values(|t: String| t@)) == head_spec
                + spec_data_sections(
                *state,
                variables@.subrange(0, j4 as int),
                slabs@.subrange(0, j4 as int),
            ),
        decreases variables@.len() - j4,
    {
        proof {
            reveal_strlit("\"");
            reveal_strlit(",\"");
            reveal_strlit("\":[");
            reveal_strlit("]");
        }
        let ghost base = spec_concat_all(chunks@.map_values(|t: String| t@));
        let mut var_head = String::new();
        if j4 > 0 {
            var_head.append(",\"");
        } else {
            var_head.append("\"");
        }
        var_head.append(variables[j4].as_str());
        var_head.append("\":[");
        let ghost vh = var_head@;
        let ghost old_chunks0 = chunks@;
        chunks.push(var_head);
        proof {
            lemma_concat_all_snoc(old_chunks0.map_values(|t: String| t@), vh);
            assert(chunks@.map_values(|t: String| t@) =~= old_chunks0.map_values(
                |t: String| t@,
            ).push(vh));
        }
        let (fill, scale, offset) = scaling_attrs(state, variables[j4].as_str());
        let vals = &slabs[j4].values;
        let value_chunks = json_values_chunks_checked(vals, fill, scale, offset);
        let ghost vtext = spec_json_values(
            slabs@[j4 as int].values@.map_values(|x: i64| spec_clamp_fx(x)),
            fill,
            spec_clamp_fx(scale),
            spec_clamp_fx(offset),
        );
        let mut q: usize = 0;
        proof {
            assert(value_chunks@.map_values(|t: String| t@).subrange(0, 0)
                =~= Seq::<Seq<char>>::empty());
        }
        while q < value_chunks.len()
            invariant
                0 <= q <= value_chunks@.len(),
                chunks@.len() >= 1,
                spec_concat_all(chunks@.map_values(|t: String| t@)) == base + vh
                    + spec_concat_all(
                    value_chunks@.map_values(|t: String| t@).subrange(0, q as int),
                ),
            decreases value_chunks@.len() - q,
        {
            let ghost old_chunks1 = chunks@;
            chunks.push(value_chunks[q].clone());
            proof {
                lemma_concat_all_snoc(
                    old_chunks1.map_values(|t: String| t@),
                    value_chunks@[q as int]@,
                );
                assert(chunks@.map_values(|t: String| t@) =~= old_chunks1.map_values(
                    |t: String| t@,
                ).push(value_chunks@[q as int]@));
                let vv = value_chunks@.map_values(|t: String| t@);
                let pre1 = vv.subrange(0, q as int + 1);
                assert(pre1.drop_last() =~= vv.subrange(0, q as int));
                assert(pre1.last() == vv[q as int]);
            }
            q += 1;
        }
        proof {
            let vv = value_chunks@.map_values(|t: String| t@);
            assert(vv.subrange(0, vv.len() as int) =~= vv);
        }
        let mut var_tail = String::new();
        var_tail.append("]");
        let ghost old_chunks2 = chunks@;
        chunks.push(var_tail);
        proof {
            lemma_concat_all_snoc(old_chunks2.map_values(|t: String| t@), "]"@);
            assert(chunks@.map_values(|t: String| t@) =~= old_chunks2.map_values(
                |t: String| t@,
            ).push("]"@));
            let prev = variables@.subrange(0, j4 as int + 1);
            let pres = slabs@.subrange(0, j4 as int + 1);
            assert(prev.drop_last() =~= variables@.subrange(0, j4 as int));
            assert(pres.drop_last() =~= slabs@.subrange(0, j4 as int));
            assert(prev.last() == variables@[j4 as int]);
            assert(pres.last() == slabs@[j4 as int]);
            assert(vh =~= (if j4 == 0 {
                "\""@
            } else {
                ",\""@
            }) + variables@[j4 as int]@ + "\":["@);
            assert(spec_concat_all(chunks@.map_values(|t: String| t@)) =~= head_spec
                + spec_data_sections(*state, prev, pres));
        }
        j4 += 1;
    }
    proof {
        reveal_strlit("}}");
        assert(variables@.subrange(0, variables@.len() as int) =~= variables@);
        assert(slabs@.subrange(0, slabs@.len() as int) =~= slabs@);
    }
    let mut tail = String::new();
    tail.append("}}");
    let ghost old_chunks3 = chunks@;
    chunks.push(tail);
    proof {
        lemma_concat_all_snoc(old_chunks3.map_values(|t: String| t@), "}}"@);
        assert(chunks@.map_values(|t: String| t@) =~= old_chunks3.map_values(
            |t: String| t@,
        ).push("}}"@));
        assert(spec_concat_all(chunks@.map_values(|t: String| t@)) =~= spec_json_doc(
            *state,
            variables@,
            slabs@,
            ordered_names@,
            lspec,
        ));
        assert(json_chain(ranges@, slabs@, ordered_names@));
    }
    Ok(chunks)
}

/// Render a variable's values, first clamping any out-of-range scaling
/// inputs.
fn json_values_chunks_checked(vals: &Vec<i64>, fill: Option<i64>, scale: i64, offset: i64)
    -> (r: Vec<String>)
    ensures
        spec_concat_all(r@.map_values(|t: String| t@)) == spec_json_values(
            vals@.map_values(|x: i64| spec_clamp_fx(x)),
            fill,
            spec_clamp_fx(scale),
            spec_clamp_fx(offset),
        ),
{
    let mut clamped: Vec<i64> = Vec::new();
    let mut i: usize = 0;
    while i < vals.len()
        invariant
            0 <= i <= vals@.len(),
            clamped@.len() == i,
            forall|t: int| 0 <= t < i ==> #[trigger] clamped@[t] == spec_clamp_fx(vals@[t]),
            forall|t: int|
                0 <= t < clamped@.len() ==> -FX_VAL_MAX <= #[trigger] clamped@[t]
                    <= FX_VAL_MAX,
        decreases vals@.len() - i,
    {
        let v = vals[i];
        let c = if v > FX_VAL_MAX {
            FX_VAL_MAX
        } else if v < -FX_VAL_MAX {
            -FX_VAL_MAX
        } else {
            v
        };
        clamped.push(c);
        i += 1;
    }
    let s = if scale > FX_VAL_MAX {
        FX_VAL_MAX
    } else if scale < -FX_VAL_MAX {
        -FX_VAL_MAX
    } else {
        scale
    };
    let o = if offset > FX_VAL_MAX {
        FX_VAL_MAX
    } else if offset < -FX_VAL_MAX {
        -FX_VAL_MAX
    } else {
        offset
    };
    proof {
        assert(clamped@ =~= vals@.map_values(|x: i64| spec_clamp_fx(x)));
    }
    json_values_chunks(&clamped, fill, s, o)
}

/// Clamp a fixed-point value to the representable range.
pub open spec fn spec_clamp_fx(x: i64) -> i64 {
    if x > FX_VAL_MAX {
        FX_VAL_MAX
    } else if x < -FX_VAL_MAX {
        (-FX_VAL_MAX) as i64
    } else {
        x
    }
}

/// The attributes of a variable, or none when it does not exist.
pub open spec fn spec_var_attrs(state: AppState, var: Seq<char>) -> Seq<crate::state::Attr> {
    if state.var_idx(var) >= 0 {
        state.metadata.variables@[state.var_idx(var)].attributes@
    } else {
        Seq::<crate::state::Attr>::empty()
    }
}

/// The numeric value of a named attribute, when present.
pub open spec fn spec_num_attr(attrs: Seq<crate::state::Attr>, name: Seq<char>) -> Option<
    i64,
> {
    let i = spec_key_index(attr_names(attrs), name);
    if i >= 0 {
        match attrs[i].value {
            AttributeValue::Number(n) => Some(n),
            _ => None,
        }
    } else {
        None
    }
}

/// The fill value of a variable's attributes.
pub open spec fn spec_fill_of(state: AppState, var: Seq<char>) -> Option<i64> {
    spec_num_attr(spec_var_attrs(state, var), "_FillValue"@)
}

/// The scale factor of a variable's attributes, one by default.
pub open spec fn spec_scale_of(state: AppState, var: Seq<char>) -> i64 {
    match spec_num_attr(spec_var_attrs(state, var), "scale_factor"@) {
        Some(n) => n,
        None => SCALE,
    }
}

/// The offset of a variable's attributes, zero by default.
pub open spec fn spec_offset_of(state: AppState, var: Seq<char>) -> i64 {
    match spec_num_attr(spec_var_attrs(state, var), "add_offset"@) {
        Some(n) => n,
        None => 0,
    }
}

/// The JSON rendering of one attribute value, with its preceding
/// key-value separator.
pub open spec fn spec_attr_val(v: AttributeValue) -> Seq<char> {
    match v {
        AttributeValue::Text(t) => "\":\""@ + t@ + "\""@,
        AttributeValue::Number(n) => "\":"@ + spec_fmt_fixed(n as int),
        AttributeValue::NumberArray(a) => "\":"@ + "["@ + crate::error::spec_fixed_list(a@)
            + "]"@,
    }
}

/// The members of an attribute object, in order.
pub open spec fn spec_attrs_body(attrs: Seq<crate::state::Attr>) -> Seq<char>
    decreases attrs.len(),
{
    if attrs.len() == 0 {
        Seq::<char>::empty()
    } else {
        spec_attrs_body(attrs.drop_last()) + (if attrs.len() == 1 {
            "\""@
        } else {
            ",\""@
        }) + attrs.last().name@ + spec_attr_val(attrs.last().value)
    }
}

/// An attribute list as a JSON object.
pub open spec fn spec_attrs_obj(attrs: Seq<crate::state::Attr>) -> Seq<char> {
    "{"@ + spec_attrs_body(attrs) + "}"@
}

/// The shapes of the extracted hyperslabs as a JSON list body.
pub open spec fn spec_shapes_list(slabs: Seq<Hyperslab>) -> Seq<char>
    decreases slabs.len(),
{
    if slabs.len() == 0 {
        Seq::<char>::empty()
    } else if slabs.len() == 1 {
        spec_json_usize_array(slabs[0].shape@)
    } else {
        spec_shapes_list(slabs.drop_last()) + ","@ + spec_json_usize_array(
            slabs.last().shape@,
        )
    }
}

/// The per-variable attribute objects of the metadata envelope.
pub open spec fn spec_vars_meta(state: AppState, vars: Seq<String>) -> Seq<char>
    decreases vars.len(),
{
    if vars.len() == 0 {
        Seq::<char>::empty()
    } else {
        spec_vars_meta(state, vars.drop_last()) + (if vars.len() == 1 {
            "\""@
        } else {
            ",\""@
        }) + vars.last()@ + "\":"@ + spec_attrs_obj(spec_var_attrs(state, vars.last()@))
    }
}

/// The metadata envelope of a JSON data response, up to the opening of the
/// data object.
pub open spec fn spec_json_head(
    state: AppState,
    vars: Seq<String>,
    slabs: Seq<Hyperslab>,
    names: Seq<String>,
    layout: Option<Seq<Seq<char>>>,
) -> Seq<char> {
    "{\"metadata\":{\"query\":{\"vars\":"@ + spec_json_name_array(
        vars.map_values(|t: String| t@),
    ) + ",\"layout\":"@ + (match layout {
        Some(l) => spec_json_name_array(l),
        None => "null"@,
    }) + ",\"format\":\"json\"},\"shapes\":["@ + spec_shapes_list(slabs)
        + "],\"dimensions\":"@ + spec_json_name_array(names.map_values(|t: String| t@))
        + ",\"variables\":{"@ + spec_vars_meta(state, vars) + "}},\"data\":{"@
}

/// One variable's member of the data object.
pub open spec fn spec_data_section(
    state: AppState,
    var: String,
    slab: Hyperslab,
    first: bool,
) -> Seq<char> {
    (if first {
        "\""@
    } else {
        ",\""@
    }) + var@ + "\":["@ + spec_json_values(
        slab.values@.map_values(|x: i64| spec_clamp_fx(x)),
        spec_fill_of(state, var@),
        spec_clamp_fx(spec_scale_of(state, var@)),
        spec_clamp_fx(spec_offset_of(state, var@)),
    ) + "]"@
}

/// The data object members for a list of variables.
pub open spec fn spec_data_sections(
    state: AppState,
    vars: Seq<String>,
    slabs: Seq<Hyperslab>,
) -> Seq<char>
    decreases vars.len(),
{
    if vars.len() == 0 || slabs.len() != vars.len() {
        Seq::<char>::empty()
    } else {
        spec_data_sections(state, vars.drop_last(), slabs.drop_last()) + spec_data_section(
            state,
            vars.last(),
            slabs.last(),
            vars.len() == 1,
        )
    }
}

/// The whole JSON data response.
pub open spec fn spec_json_doc(
    state: AppState,
    vars: Seq<String>,
    slabs: Seq<Hyperslab>,
    names: Seq<String>,
    layout: Option<Seq<Seq<char>>>,
) -> Seq<char> {
    spec_json_head(state, vars, slabs, names, layout) + spec_data_sections(
        state,
        vars,
        slabs,
    ) + "}}"@
}

/// The fill value, scale factor and offset of a variable's attributes;
/// scale defaults to one and offset to zero.
pub fn scaling_attrs(state: &AppState, var_name: &str) -> (r: (Option<i64>, i64, i64))
    ensures
        r.0 == spec_fill_of(*state, var_name@),
        r.1 == spec_scale_of(*state, var_name@),
        r.2 == spec_offset_of(*state, var_name@),
{
    proof {
        reveal_strlit("_FillValue");
        reveal_strlit("scale_factor");
        reveal_strlit("add_offset");
    }
    match state.get_variable_metadata(var_name) {
        Some(var_meta) => {
            let fill = match find_attr(&var_meta.attributes, "_FillValue") {
                Some(i) => match &var_meta.attributes[i].value {
                    AttributeValue::Number(nv) => Some(*nv),
                    _ => None,
                },
                None => None,
            };
            let scale = match find_attr(&var_meta.attributes, "scale_factor") {
                Some(i) => match &var_meta.attributes[i].value {
                    AttributeValue::Number(nv) => *nv,
                    _ => SCALE,
                },
                None => SCALE,
            };
            let offset = match find_attr(&var_meta.attributes, "add_offset") {
                Some(i) => match &var_meta.attributes[i].value {
                    AttributeValue::Number(nv) => *nv,
                    _ => 0,
                },
                None => 0,
            };
            (fill, scale, offset)
        },
        None => (None, SCALE, 0),
    }
}

/// The attributes of a variable as a JSON object.
fn variable_attrs_json(state: &AppState, var_name: &str) -> (r: String)
    ensures
        r@ == spec_attrs_obj(spec_var_attrs(*state, var_name@)),
{
    proof {
        reveal_strlit("{");
        reveal_strlit("}");
        reveal_strlit("\"");
        reveal_strlit(",\"");
        reveal_strlit("\":");
        reveal_strlit("\":\"");
    }
    let mut s = String::new();
    s.append("{");
    let ghost attrs_spec = spec_var_attrs(*state, var_name@);
    match state.get_variable_metadata(var_name) {
        Some(var_meta) => {
            proof {
                assert(attrs_spec == var_meta.attributes@);
                assert(attrs_spec.subrange(0, 0) =~= Seq::<crate::state::Attr>::empty());
            }
            let mut i: usize = 0;
            while i < var_meta.attributes.len()
                invariant
                    attrs_spec == var_meta.attributes@,
                    0 <= i <= var_meta.attributes@.len(),
                    s@ == "{"@ + spec_attrs_body(attrs_spec.subrange(0, i as int)),
                decreases var_meta.attributes@.len() - i,
            {
                proof {
                    reveal_strlit("{");
                    reveal_strlit("\"");
                    reveal_strlit(",\"");
                    reveal_strlit("\":");
                    reveal_strlit("\":\"");
                    reveal_strlit("[");
                    reveal_strlit("]");
                }
                if i > 0 {
                    s.append(",\"");
                } else {
                    s.append("\"");
                }
                s.append(var_meta.attributes[i].name.as_str());
                match &var_meta.attributes[i].value {
                    AttributeValue::Text(t) => {
                        s.append("\":\"");
                        s.append(t.as_str());
                        s.append("\"");
                    },
                    AttributeValue::Number(nv) => {
                        s.append("\":");
                        let t = fmt_fixed(*nv);
                        s.append(t.as_str());
                    },
                    AttributeValue::NumberArray(arr) => {
                        s.append("\":");
                        s.append("[");
                        let t = crate::error::fmt_fixed_list(arr);
                        s.append(t.as_str());
                        s.append("]");
                    },
                }
                proof {
                    let pre1 = attrs_spec.subrange(0, i as int + 1);
                    assert(pre1.drop_last() =~= attrs_spec.subrange(0, i as int));
                    assert(pre1.last() == attrs_spec[i as int]);
                    assert(s@ =~= "{"@ + spec_attrs_body(pre1));
                }
                i += 1;
            }
            proof {
                assert(attrs_spec.subrange(0, attrs_spec.len() as int) =~= attrs_spec);
            }
        },
        None => {
            proof {
                assert(attrs_spec =~= Seq::<crate::state::Attr>::empty());
            }
        },
    }
    s.append("}");
    proof {
        assert(s@ =~= spec_attrs_obj(attrs_spec));
    }
    s
}

/// A componentwise-smaller shape has a product at most the larger one's.
pub proof fn lemma_prod_le(a: Seq<usize>, b: Seq<usize>)
    requires
        a.len() == b.len(),
        forall|k: int| 0 <= k < a.len() ==> #[trigger] a[k] <= b[k],
    ensures
        spec_prod(a) <= spec_prod(b),
    decreases a.len(),
{
    if a.len() > 0 {
        let ta = a.subrange(1, a.len() as int);
        let tb = b.subrange(1, b.len() as int);
        assert(forall|k: int|
            0 <= k < ta.len() ==> #[trigger] ta[k] <= tb[k]) by {
            assert(forall|k: int|
                0 <= k < ta.len() ==> ta[k] == a[k + 1] && #[trigger] tb[k] == b[k + 1]);
        }
        lemma_prod_le(ta, tb);
        crate::interpolation::lemma_prod_nonneg(ta);
        assert((a[0] as int) * spec_prod(ta) <= (b[0] as int) * spec_prod(tb))
            by (nonlinear_arith)
            requires
                0 <= a[0] as int <= b[0] as int,
                0 <= spec_prod(ta) <= spec_prod(tb),
        ;
    }
}

/// Every component of an in-range unflattened offset is within its extent.
pub proof fn lemma_unflat_in_bounds(p: int, extents: Seq<usize>)
    requires
        forall|u: int| 0 <= u < extents.len() ==> 1 <= #[trigger] extents[u],
        0 <= p < spec_prod(extents),
    ensures
        spec_unflat(p, extents).len() == extents.len(),
        forall|w: int|
            0 <= w < extents.len() ==> #[trigger] spec_unflat(p, extents)[w] < extents[w],
    decreases extents.len(),
{
    if extents.len() > 0 {
        let last = extents.last() as int;
        let front = extents.drop_last();
        assert(extents =~= front.push(extents.last()));
        lemma_prod_snoc(front, extents.last());
        vstd::arithmetic::div_mod::lemma_mod_bound(p, last);
        vstd::arithmetic::div_mod::lemma_div_pos_is_pos(p, last);
        assert(spec_prod(front) * last == spec_prod(extents)) by (nonlinear_arith)
            requires
                spec_prod(extents) == spec_prod(front) * (extents.last() as int),
                last == extents.last() as int,
        ;
        assert(p < last * spec_prod(front)) by (nonlinear_arith)
            requires
                p < spec_prod(front) * last,
        ;
        vstd::arithmetic::div_mod::lemma_multiply_divide_lt(p, last, spec_prod(front));
        assert(forall|u: int| 0 <= u < front.len() ==> 1 <= #[trigger] front[u]);
        lemma_unflat_in_bounds(p / last, front);
        let rel = spec_unflat(p, extents);
        assert(rel == spec_unflat(p / last, front).push((p % last) as usize));
        assert forall|w: int| 0 <= w < extents.len() implies #[trigger] rel[w]
            < extents[w] by {
            if w < extents.len() - 1 {
                assert(rel[w] == spec_unflat(p / last, front)[w]);
                assert(front[w] == extents[w]);
            }
        }
    }
}

} // verus!
