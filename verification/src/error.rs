//! The library's error type.
//!
//! Every failure a query can produce is a variant here; `status_code` gives
//! the HTTP status it maps to and `message` a human-readable rendering.

use vstd::prelude::*;
use vstd::string::StringExecFns;
use crate::text::{spec_fmt_fixed, spec_dec, fmt_fixed, fmt_usize};

verus! {

/// Everything that can go wrong while answering a query.
#[derive(Debug, Clone)]
pub enum RossbyError {
    /// Dataset-file reader failures, reported by the loader.
    NetCdf { message: String },
    /// Value conversion failures.
    Conversion { message: String },
    /// I/O failures, reported by the loader.
    Io { message: String },
    /// Configuration failures.
    Config { message: String },
    /// A physical coordinate outside the range of its axis.
    InvalidCoordinates { message: String },
    /// A physical value with no exact match on its axis.
    PhysicalValueNotFound { dimension: String, value: i64, available: Vec<i64> },
    /// A malformed or unknown request parameter.
    InvalidParameter { param: String, message: String },
    /// A lookup that found nothing.
    DataNotFound { message: String },
    /// A variable name not present in the dataset.
    VariableNotFound { name: String },
    /// An index past the end of its axis.
    IndexOutOfBounds { param: String, value: String, max: usize },
    /// Interpolation failures.
    Interpolation { message: String },
    /// Image rendering or encoding failures.
    ImageGeneration { message: String },
    /// Requested variables that do not exist.
    InvalidVariables { names: Vec<String> },
    /// A variable without both latitude and longitude axes.
    VariableNotSuitableForImage { name: String },
    /// JSON handling failures.
    Json { message: String },
    /// A dimension name that resolves to nothing.
    DimensionNotFound { name: String, available: Vec<String>, aliases: Vec<(String, String)> },
    /// Server-side failures.
    Server { message: String },
    /// A request whose hyperslab exceeds the configured budget.
    PayloadTooLarge { message: String, requested: usize, max_allowed: usize },
}

/// Convenience alias for results carrying a [`RossbyError`].
pub type Result<T> = core::result::Result<T, RossbyError>;

/// The fixed-point values of `s`, rendered like a debug list.
pub open spec fn spec_fixed_list(s: Seq<i64>) -> Seq<char>
    decreases s.len(),
{
    if s.len() == 0 {
        Seq::<char>::empty()
    } else if s.len() == 1 {
        spec_fmt_fixed(s[0] as int)
    } else {
        spec_fixed_list(s.drop_last()) + ", "@ + spec_fmt_fixed(s.last() as int)
    }
}

/// The strings of `s`, rendered like a debug list of quoted names.
pub open spec fn spec_name_list(s: Seq<Seq<char>>) -> Seq<char>
    decreases s.len(),
{
    if s.len() == 0 {
        Seq::<char>::empty()
    } else if s.len() == 1 {
        "\""@ + s[0] + "\""@
    } else {
        spec_name_list(s.drop_last()) + ", \""@ + s.last() + "\""@
    }
}

/// Render fixed-point values as a comma-separated list.
pub fn fmt_fixed_list(v: &Vec<i64>) -> (r: String)
    ensures
        r@ == spec_fixed_list(v@),
{
    let mut s = String::new();
    let mut i: usize = 0;
    while i < v.len()
        invariant
            0 <= i <= v@.len(),
            s@ == spec_fixed_list(v@.subrange(0, i as int)),
        decreases v@.len() - i,
    {
        if i > 0 {
            proof {
                reveal_strlit(", ");
            }
            s.append(", ");
        }
        let t = fmt_fixed(v[i]);
        s.append(t.as_str());
        proof {
            assert(v@.subrange(0, i + 1).drop_last() =~= v@.subrange(0, i as int));
            assert(v@.subrange(0, i + 1).last() == v@[i as int]);
            assert(s@ =~= spec_fixed_list(v@.subrange(0, i + 1)));
        }
        i += 1;
    }
    proof {
        assert(v@.subrange(0, v@.len() as int) =~= v@);
    }
    s
}

/// Render names as a comma-separated list of quoted strings.
pub fn fmt_name_list(v: &Vec<String>) -> (r: String)
    ensures
        r@ == spec_name_list(v@.map_values(|t: String| t@)),
{
    let ghost names = v@.map_values(|t: String| t@);
    let mut s = String::new();
    let mut i: usize = 0;
    while i < v.len()
        invariant
            0 <= i <= v@.len(),
            names == v@.map_values(|t: String| t@),
            names.len() == v@.len(),
            forall|j: int| 0 <= j < v@.len() ==> names[j] == v@[j]@,
            s@ == spec_name_list(names.subrange(0, i as int)),
        decreases v@.len() - i,
    {
        proof {
            reveal_strlit("\"");
            reveal_strlit(", \"");
        }
        if i > 0 {
            s.append(", \"");
        } else {
            s.append("\"");
        }
        s.append(v[i].as_str());
        s.append("\"");
        proof {
            assert(names.subrange(0, i + 1).drop_last() =~= names.subrange(0, i as int));
            assert(names.subrange(0, i + 1).last() == names[i as int]);
            assert(s@ =~= spec_name_list(names.subrange(0, i + 1)));
        }
        i += 1;
    }
    proof {
        assert(names.subrange(0, names.len() as int) =~= names);
    }
    s
}

/// The rendering that [`RossbyError::message`] produces.
pub open spec fn spec_message(e: RossbyError) -> Seq<char> {
    match e {
        RossbyError::NetCdf { message } => "NetCDF error: "@ + message@,
        RossbyError::Conversion { message } => "Conversion error: "@ + message@,
        RossbyError::Io { message } => "IO error: "@ + message@,
        RossbyError::Config { message } => "Configuration error: "@ + message@,
        RossbyError::InvalidCoordinates { message } => "Invalid coordinates: "@ + message@,
        RossbyError::PhysicalValueNotFound { dimension, value, available } =>
            "Physical value not found: "@ + dimension@ + "="@
            + spec_fmt_fixed(value as int) + ". Available values: ["@
            + spec_fixed_list(available@) + "]"@,
        RossbyError::InvalidParameter { param, message } =>
            "Invalid parameter: "@ + param@ + " - "@ + message@,
        RossbyError::DataNotFound { message } => "Data not found: "@ + message@,
        RossbyError::VariableNotFound { name } => "Variable not found: "@ + name@,
        RossbyError::IndexOutOfBounds { param, value, max } =>
            "Index out of bounds: "@ + param@ + "="@ + value@
            + ", max allowed is "@ + spec_dec(max as int),
        RossbyError::Interpolation { message } => "Interpolation error: "@ + message@,
        RossbyError::ImageGeneration { message } => "Image generation error: "@ + message@,
        RossbyError::InvalidVariables { names } =>
            "Invalid variable(s): ["@ + spec_name_list(names@.map_values(|t: String| t@))
            + "]"@,
        RossbyError::VariableNotSuitableForImage { name } =>
            "Variable "@ + name@
            + " is not suitable for image rendering. It must be a 2D grid with latitude and longitude dimensions."@,
        RossbyError::Json { message } => "JSON error: "@ + message@,
        RossbyError::DimensionNotFound { name, available, aliases } =>
            "Dimension not found: "@ + name@ + ". Available dimensions: ["@
            + spec_name_list(available@.map_values(|t: String| t@))
            + "]. If using a canonical name, try using it with an underscore prefix (e.g., '_latitude') or set up dimension_aliases in config."@,
        RossbyError::Server { message } => "Server error: "@ + message@,
        RossbyError::PayloadTooLarge { message, requested, max_allowed } =>
            "Payload too large: "@ + message@ + ". Requested points: "@
            + spec_dec(requested as int) + ", maximum allowed: "@
            + spec_dec(max_allowed as int),
    }
}

/// Whether the error maps to HTTP 413; every other error maps to 400.
pub open spec fn spec_is_payload_too_large(e: RossbyError) -> bool {
    e is PayloadTooLarge
}

impl RossbyError {
    /// The HTTP status this error is reported with.
    pub fn status_code(&self) -> (r: u16)
        ensures
            r == 413 <==> spec_is_payload_too_large(*self),
            r == 413 || r == 400,
    {
        match self {
            RossbyError::PayloadTooLarge { .. } => 413,
            _ => 400,
        }
    }

    /// A human-readable description of the error.
    pub fn message(&self) -> (r: String)
        ensures
            r@ == spec_message(*self),
    {
        proof {
            reveal_strlit("NetCDF error: ");
            reveal_strlit("Conversion error: ");
            reveal_strlit("IO error: ");
            reveal_strlit("Configuration error: ");
            reveal_strlit("Invalid coordinates: ");
            reveal_strlit("Physical value not found: ");
            reveal_strlit("=");
            reveal_strlit(". Available values: [");
            reveal_strlit("]");
            reveal_strlit("Invalid parameter: ");
            reveal_strlit(" - ");
            reveal_strlit("Data not found: ");
            reveal_strlit("Variable not found: ");
            reveal_strlit("Index out of bounds: ");
            reveal_strlit(", max allowed is ");
            reveal_strlit("Interpolation error: ");
            reveal_strlit("Image generation error: ");
            reveal_strlit("Invalid variable(s): [");
            reveal_strlit("Variable ");
            reveal_strlit(
                " is not suitable for image rendering. It must be a 2D grid with latitude and longitude dimensions.",
            );
            reveal_strlit("JSON error: ");
            reveal_strlit("Dimension not found: ");
            reveal_strlit(". Available dimensions: [");
            reveal_strlit(
                "]. If using a canonical name, try using it with an underscore prefix (e.g., '_latitude') or set up dimension_aliases in config.",
            );
            reveal_strlit("Server error: ");
            reveal_strlit("Payload too large: ");
            reveal_strlit(". Requested points: ");
            reveal_strlit(", maximum allowed: ");
        }
        let mut s = String::new();
        match self {
            RossbyError::NetCdf { message } => {
                s.append("NetCDF error: ");
                s.append(message.as_str());
            },
            RossbyError::Conversion { message } => {
                s.append("Conversion error: ");
                s.append(message.as_str());
            },
            RossbyError::Io { message } => {
                s.append("IO error: ");
                s.append(message.as_str());
            },
            RossbyError::Config { message } => {
                s.append("Configuration error: ");
                s.append(message.as_str());
            },
            RossbyError::InvalidCoordinates { message } => {
                s.append("Invalid coordinates: ");
                s.append(message.as_str());
            },
            RossbyError::PhysicalValueNotFound { dimension, value, available } => {
                s.append("Physical value not found: ");
                s.append(dimension.as_str());
                s.append("=");
                let t = fmt_fixed(*value);
                s.append(t.as_str());
                s.append(". Available values: [");
                let t = fmt_fixed_list(available);
                s.append(t.as_str());
                s.append("]");
            },
            RossbyError::InvalidParameter { param, message } => {
                s.append("Invalid parameter: ");
                s.append(param.as_str());
                s.append(" - ");
                s.append(message.as_str());
            },
            RossbyError::DataNotFound { message } => {
                s.append("Data not found: ");
                s.append(message.as_str());
            },
            RossbyError::VariableNotFound { name } => {
                s.append("Variable not found: ");
                s.append(name.as_str());
            },
            RossbyError::IndexOutOfBounds { param, value, max } => {
                s.append("Index out of bounds: ");
                s.append(param.as_str());
                s.append("=");
                s.append(value.as_str());
                s.append(", max allowed is ");
                let t = fmt_usize(*max);
                s.append(t.as_str());
            },
            RossbyError::Interpolation { message } => {
                s.append("Interpolation error: ");
                s.append(message.as_str());
            },
            RossbyError::ImageGeneration { message } => {
                s.append("Image generation error: ");
                s.append(message.as_str());
            },
            RossbyError::InvalidVariables { names } => {
                s.append("Invalid variable(s): [");
                let t = fmt_name_list(names);
                s.append(t.as_str());
                s.append("]");
            },
            RossbyError::VariableNotSuitableForImage { name } => {
                s.append("Variable ");
                s.append(name.as_str());
                s.append(
                    " is not suitable for image rendering. It must be a 2D grid with latitude and longitude dimensions.",
                );
            },
            RossbyError::Json { message } => {
                s.append("JSON error: ");
                s.append(message.as_str());
            },
            RossbyError::DimensionNotFound { name, available, aliases: _ } => {
                s.append("Dimension not found: ");
                s.append(name.as_str());
                s.append(". Available dimensions: [");
                let t = fmt_name_list(available);
                s.append(t.as_str());
                s.append(
                    "]. If using a canonical name, try using it with an underscore prefix (e.g., '_latitude') or set up dimension_aliases in config.",
                );
            },
            RossbyError::Server { message } => {
                s.append("Server error: ");
                s.append(message.as_str());
            },
            RossbyError::PayloadTooLarge { message, requested, max_allowed } => {
                s.append("Payload too large: ");
                s.append(message.as_str());
                s.append(". Requested points: ");
                let t = fmt_usize(*requested);
                s.append(t.as_str());
                s.append(", maximum allowed: ");
                let t = fmt_usize(*max_allowed);
                s.append(t.as_str());
            },
        }
        proof {
            assert(s@ =~= spec_message(*self));
        }
        s
    }
}

impl From<String> for RossbyError {
    /// A bare string becomes a server error.
    fn from(message: String) -> (r: Self) {
        RossbyError::Server { message }
    }
}

impl vstd::std_specs::convert::FromSpecImpl<String> for RossbyError {
    open spec fn obeys_from_spec() -> bool {
        true
    }

    open spec fn from_spec(message: String) -> Self {
        RossbyError::Server { message }
    }
}

} // verus!
