//! The metadata report: every dimension, variable, attribute and
//! coordinate array of the dataset, rendered as one JSON object.

use vstd::prelude::*;
use vstd::string::StringExecFns;
use crate::data::{json_name_array, json_usize_array, spec_attrs_body, spec_attrs_obj,
    spec_json_name_array, spec_json_usize_array};
use crate::error::{fmt_fixed_list, spec_fixed_list};
use crate::state::{AppState, Attr, AttributeValue, Coordinate, Dimension, Variable};
use crate::text::{fmt_fixed, fmt_usize, spec_dec};

verus! {

/// One dimension's member of the dimensions object.
pub open spec fn spec_dim_entry(d: Dimension, first: bool) -> Seq<char> {
    (if first {
        "\""@
    } else {
        ",\""@
    }) + d.name@ + "\":{\"name\":\""@ + d.name@ + "\",\"size\":"@ + spec_dec(d.size as int)
        + ",\"is_unlimited\":"@ + (if d.is_unlimited {
        "true"@
    } else {
        "false"@
    }) + "}"@
}

/// The members of the dimensions object, in order.
pub open spec fn spec_dims_body(dims: Seq<Dimension>) -> Seq<char>
    decreases dims.len(),
{
    if dims.len() == 0 {
        Seq::<char>::empty()
    } else {
        spec_dims_body(dims.drop_last()) + spec_dim_entry(dims.last(), dims.len() == 1)
    }
}

/// One variable's member of the variables object.
pub open spec fn spec_var_entry(v: Variable, first: bool) -> Seq<char> {
    (if first {
        "\""@
    } else {
        ",\""@
    }) + v.name@ + "\":{\"dimensions\":"@ + spec_json_name_array(
        v.dimensions@.map_values(|d: String| d@),
    ) + ",\"shape\":"@ + spec_json_usize_array(v.shape@) + ",\"attributes\":"@
        + spec_attrs_obj(v.attributes@) + ",\"dtype\":\""@ + v.dtype@ + "\"}"@
}

/// The members of the variables object, in order.
pub open spec fn spec_vars_body(vars: Seq<Variable>) -> Seq<char>
    decreases vars.len(),
{
    if vars.len() == 0 {
        Seq::<char>::empty()
    } else {
        spec_vars_body(vars.drop_last()) + spec_var_entry(vars.last(), vars.len() == 1)
    }
}

/// One coordinate array's member of the coordinates object.
pub open spec fn spec_coord_entry(c: Coordinate, first: bool) -> Seq<char> {
    (if first {
        "\""@
    } else {
        ",\""@
    }) + c.name@ + "\":["@ + spec_fixed_list(c.values@) + "]"@
}

/// The members of the coordinates object, in order.
pub open spec fn spec_coords_body(coords: Seq<Coordinate>) -> Seq<char>
    decreases coords.len(),
{
    if coords.len() == 0 {
        Seq::<char>::empty()
    } else {
        spec_coords_body(coords.drop_last()) + spec_coord_entry(
            coords.last(),
            coords.len() == 1,
        )
    }
}

/// The whole metadata report.
pub open spec fn spec_metadata_json(state: AppState) -> Seq<char> {
    "{\"global_attributes\":"@ + spec_attrs_obj(state.metadata.global_attributes@)
        + ",\"dimensions\":{"@ + spec_dims_body(state.metadata.dimensions@) + "}"@
        + ",\"variables\":{"@ + spec_vars_body(state.metadata.variables@) + "}"@
        + ",\"coordinates\":{"@ + spec_coords_body(state.metadata.coordinates@) + "}}"@
}

/// Render an attribute list as a JSON object.
fn attrs_json(attrs: &Vec<Attr>) -> (r: String)
    ensures
        r@ == spec_attrs_obj(attrs@),
{
    proof {
        reveal_strlit("{");
        reveal_strlit("}");
    }
    let mut s = String::new();
    s.append("{");
    proof {
        assert(attrs@.subrange(0, 0) =~= Seq::<Attr>::empty());
    }
    let mut i: usize = 0;
    while i < attrs.len()
        invariant
            0 <= i <= attrs@.len(),
            s@ == "{"@ + spec_attrs_body(attrs@.subrange(0, i as int)),
        decreases attrs@.len() - i,
    {
        proof {
            reveal_strlit("\"");
            reveal_strlit(",\"");
            reveal_strlit("\":");
            reveal_strlit("\":\"");
            reveal_strlit("[");
            reveal_strlit("]");
        }
        if i > 0 {
            s.append(",\"");
        } else {
            s.append("\"");
        }
        s.append(attrs[i].name.as_str());
        match &attrs[i].value {
            AttributeValue::Text(t) => {
                s.append("\":\"");
                s.append(t.as_str());
                s.append("\"");
            },
            AttributeValue::Number(n) => {
                s.append("\":");
                let t = fmt_fixed(*n);
                s.append(t.as_str());
            },
            AttributeValue::NumberArray(a) => {
                s.append("\":");
                s.append("[");
                let t = fmt_fixed_list(a);
                s.append(t.as_str());
                s.append("]");
            },
        }
        proof {
            let pre1 = attrs@.subrange(0, i as int + 1);
            assert(pre1.drop_last() =~= attrs@.subrange(0, i as int));
            assert(pre1.last() == attrs@[i as int]);
            assert(s@ =~= "{"@ + spec_attrs_body(pre1));
        }
        i += 1;
    }
    s.append("}");
    proof {
        assert(attrs@.subrange(0, attrs@.len() as int) =~= attrs@);
        assert(s@ =~= spec_attrs_obj(attrs@));
    }
    s
}

/// Render the dataset metadata: global attributes, dimensions, variables
/// and coordinate arrays, as one JSON object with those four keys.
#[verifier::rlimit(100)]
#[verifier::spinoff_prover]
pub fn metadata_json(state: &AppState) -> (r: String)
    ensures
        r@ == spec_metadata_json(*state),
{
    proof {
        reveal_strlit("{\"global_attributes\":");
        reveal_strlit(",\"dimensions\":{");
        reveal_strlit(",\"variables\":{");
        reveal_strlit(",\"coordinates\":{");
        reveal_strlit("}");
        reveal_strlit("}}");
    }
    let mut s = String::new();
    s.append("{\"global_attributes\":");
    let ga = attrs_json(&state.metadata.global_attributes);
    s.append(ga.as_str());
    s.append(",\"dimensions\":{");
    let ghost h1 = s@;
    let nd = state.metadata.dimensions.len();
    let mut i: usize = 0;
    proof {
        assert(state.metadata.dimensions@.subrange(0, 0) =~= Seq::<Dimension>::empty());
    }
    while i < nd
        invariant
            nd == state.metadata.dimensions@.len(),
            0 <= i <= nd,
            s@ == h1 + spec_dims_body(state.metadata.dimensions@.subrange(0, i as int)),
        decreases nd - i,
    {
        proof {
            reveal_strlit("\"");
            reveal_strlit(",\"");
            reveal_strlit("\":{\"name\":\"");
            reveal_strlit("\",\"size\":");
            reveal_strlit(",\"is_unlimited\":");
            reveal_strlit("true");
            reveal_strlit("false");
            reveal_strlit("}");
        }
        if i > 0 {
            s.append(",\"");
        } else {
            s.append("\"");
        }
        let d = &state.metadata.dimensions[i];
        s.append(d.name.as_str());
        s.append("\":{\"name\":\"");
        s.append(d.name.as_str());
        s.append("\",\"size\":");
        let t = fmt_usize(d.size);
        s.append(t.as_str());
        s.append(",\"is_unlimited\":");
        if d.is_unlimited {
            s.append("true");
        } else {
            s.append("false");
        }
        s.append("}");
        proof {
            let pre1 = state.metadata.dimensions@.subrange(0, i as int + 1);
            assert(pre1.drop_last() =~= state.metadata.dimensions@.subrange(0, i as int));
            assert(pre1.last() == state.metadata.dimensions@[i as int]);
            assert(s@ =~= h1 + spec_dims_body(pre1));
        }
        i += 1;
    }
    proof {
        assert(state.metadata.dimensions@.subrange(0, nd as int)
            =~= state.metadata.dimensions@);
    }
    s.append("}");
    s.append(",\"variables\":{");
    let ghost h2 = s@;
    let nv = state.metadata.variables.len();
    let mut i: usize = 0;
    proof {
        assert(state.metadata.variables@.subrange(0, 0) =~= Seq::<Variable>::empty());
    }
    while i < nv
        invariant
            nv == state.metadata.variables@.len(),
            0 <= i <= nv,
            s@ == h2 + spec_vars_body(state.metadata.variables@.subrange(0, i as int)),
        decreases nv - i,
    {
        proof {
            reveal_strlit("\"");
            reveal_strlit(",\"");
            reveal_strlit("\":{\"dimensions\":");
            reveal_strlit(",\"shape\":");
            reveal_strlit(",\"attributes\":");
            reveal_strlit(",\"dtype\":\"");
            reveal_strlit("\"}");
        }
        if i > 0 {
            s.append(",\"");
        } else {
            s.append("\"");
        }
        let v = &state.metadata.variables[i];
        s.append(v.name.as_str());
        s.append("\":{\"dimensions\":");
        let t = json_name_array(&v.dimensions);
        s.append(t.as_str());
        s.append(",\"shape\":");
        let t = json_usize_array(&v.shape);
        s.append(t.as_str());
        s.append(",\"attributes\":");
        let t = attrs_json(&v.attributes);
        s.append(t.as_str());
        s.append(",\"dtype\":\"");
        s.append(v.dtype.as_str());
        s.append("\"}");
        proof {
            let pre1 = state.metadata.variables@.subrange(0, i as int + 1);
            assert(pre1.drop_last() =~= state.metadata.variables@.subrange(0, i as int));
            assert(pre1.last() == state.metadata.variables@[i as int]);
            assert(s@ =~= h2 + spec_vars_body(pre1));
        }
        i += 1;
    }
    proof {
        assert(state.metadata.variables@.subrange(0, nv as int)
            =~= state.metadata.variables@);
    }
    s.append("}");
    s.append(",\"coordinates\":{");
    let ghost h3 = s@;
    let nc = state.metadata.coordinates.len();
    let mut i: usize = 0;
    proof {
        assert(state.metadata.coordinates@.subrange(0, 0) =~= Seq::<Coordinate>::empty());
    }
    while i < nc
        invariant
            nc == state.metadata.coordinates@.len(),
            0 <= i <= nc,
            s@ == h3 + spec_coords_body(state.metadata.coordinates@.subrange(0, i as int)),
        decreases nc - i,
    {
        proof {
            reveal_strlit("\"");
            reveal_strlit(",\"");
            reveal_strlit("\":[");
            reveal_strlit("]");
        }
        if i > 0 {
            s.append(",\"");
        } else {
            s.append("\"");
        }
        let c = &state.metadata.coordinates[i];
        s.append(c.name.as_str());
        s.append("\":[");
        let t = fmt_fixed_list(&c.values);
        s.append(t.as_str());
        s.append("]");
        proof {
            let pre1 = state.metadata.coordinates@.subrange(0, i as int + 1);
            assert(pre1.drop_last() =~= state.metadata.coordinates@.subrange(0, i as int));
            assert(pre1.last() == state.metadata.coordinates@[i as int]);
            assert(s@ =~= h3 + spec_coords_body(pre1));
        }
        i += 1;
    }
    proof {
        assert(state.metadata.coordinates@.subrange(0, nc as int)
            =~= state.metadata.coordinates@);
    }
    s.append("}}");
    proof {
        assert(s@ =~= spec_metadata_json(*state));
    }
    s
}

} // verus!
