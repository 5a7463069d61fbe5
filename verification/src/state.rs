//! The in-memory dataset: metadata, coordinate arrays, per-variable data
//! arrays, and dimension-name resolution.
//!
//! Name-keyed collections are association vectors; lookups take the first
//! entry whose name matches.

use vstd::prelude::*;
use vstd::string::StrSliceExecFns;
use vstd::string::StringExecFns;
use crate::config::Config;
use crate::error::{Result, RossbyError};
use crate::fx::FX_VAL_MAX;
use crate::grid::Grid2;
use crate::interpolation::{spec_prod, spec_flat, MAX_AXIS, MAX_DIMS};
use crate::text::str_eq;

verus! {

/// A dimension of the dataset.
pub struct Dimension {
    /// Name of the dimension.
    pub name: String,
    /// Number of grid points along the dimension.
    pub size: usize,
    /// Whether the dimension is unlimited in the source file.
    pub is_unlimited: bool,
}

/// An attribute value: text, one number, or a list of numbers, the numbers
/// fixed-point.
pub enum AttributeValue {
    /// Text attribute.
    Text(String),
    /// Numeric attribute.
    Number(i64),
    /// Numeric array attribute.
    NumberArray(Vec<i64>),
}

/// A named attribute.
pub struct Attr {
    /// Attribute name.
    pub name: String,
    /// Attribute value.
    pub value: AttributeValue,
}

/// A variable of the dataset: its axes, their sizes, and its attributes.
pub struct Variable {
    /// Name of the variable.
    pub name: String,
    /// Names of its axes, outermost first.
    pub dimensions: Vec<String>,
    /// Size of each axis, in the same order.
    pub shape: Vec<usize>,
    /// The variable's attributes.
    pub attributes: Vec<Attr>,
    /// Source data type tag.
    pub dtype: String,
}

/// The coordinate array labelling one dimension.
pub struct Coordinate {
    /// Name of the dimension.
    pub name: String,
    /// One fixed-point coordinate value per grid point.
    pub values: Vec<i64>,
}

/// All metadata of the dataset.
pub struct Metadata {
    /// File-level attributes.
    pub global_attributes: Vec<Attr>,
    /// The dimensions.
    pub dimensions: Vec<Dimension>,
    /// The variables.
    pub variables: Vec<Variable>,
    /// One coordinate array per dimension.
    pub coordinates: Vec<Coordinate>,
}

/// The flat row-major data array of one variable.
pub struct VarData {
    /// Name of the variable.
    pub name: String,
    /// The values, row-major in the variable's axis order.
    pub values: Vec<i64>,
}

/// The shared application state: configuration, metadata, and data, built
/// once at startup and read-only afterwards.
pub struct AppState {
    /// Configuration.
    pub config: Config,
    /// Dataset metadata.
    pub metadata: Metadata,
    /// Per-variable data arrays.
    pub data: Vec<VarData>,
    /// Map from canonical dimension names to file-specific ones.
    pub dimension_aliases_reverse: Vec<(String, String)>,
}

/// Position of the first occurrence of `name` in `keys`, or -1.
pub open spec fn spec_key_index(keys: Seq<Seq<char>>, name: Seq<char>) -> int
    decreases keys.len(),
{
    if keys.len() == 0 {
        -1
    } else if keys[0] == name {
        0
    } else {
        let r = spec_key_index(keys.subrange(1, keys.len() as int), name);
        if r < 0 {
            -1
        } else {
            r + 1
        }
    }
}

/// `spec_key_index` finds exactly the first match.
pub proof fn lemma_key_index(keys: Seq<Seq<char>>, name: Seq<char>)
    ensures
        spec_key_index(keys, name) == -1 <==> (forall|j: int|
            0 <= j < keys.len() ==> #[trigger] keys[j] != name),
        spec_key_index(keys, name) >= 0 ==> 0 <= spec_key_index(keys, name) < keys.len()
            && keys[spec_key_index(keys, name)] == name && (forall|j: int|
            0 <= j < spec_key_index(keys, name) ==> #[trigger] keys[j] != name),
    decreases keys.len(),
{
    if keys.len() > 0 {
        lemma_key_index(keys.subrange(1, keys.len() as int), name);
        assert(forall|j: int|
            1 <= j < keys.len() ==> #[trigger] keys[j] == keys.subrange(
                1,
                keys.len() as int,
            )[j - 1]);
    }
}

/// The names of the dimensions, in order.
pub open spec fn dim_names(dims: Seq<Dimension>) -> Seq<Seq<char>> {
    Seq::new(dims.len(), |i: int| dims[i].name@)
}

/// The names of the variables, in order.
pub open spec fn var_names(vars: Seq<Variable>) -> Seq<Seq<char>> {
    Seq::new(vars.len(), |i: int| vars[i].name@)
}

/// The names of the coordinate arrays, in order.
pub open spec fn coord_names(coords: Seq<Coordinate>) -> Seq<Seq<char>> {
    Seq::new(coords.len(), |i: int| coords[i].name@)
}

/// The names of the data arrays, in order.
pub open spec fn data_names(data: Seq<VarData>) -> Seq<Seq<char>> {
    Seq::new(data.len(), |i: int| data[i].name@)
}

/// The attribute names, in order.
pub open spec fn attr_names(attrs: Seq<Attr>) -> Seq<Seq<char>> {
    Seq::new(attrs.len(), |i: int| attrs[i].name@)
}

/// The canonical names of an alias map, in order.
pub open spec fn alias_names(aliases: Seq<(String, String)>) -> Seq<Seq<char>> {
    Seq::new(aliases.len(), |i: int| aliases[i].0@)
}

/// The file-specific names of an alias map, in order.
pub open spec fn alias_target_names(aliases: Seq<(String, String)>) -> Seq<Seq<char>> {
    Seq::new(aliases.len(), |i: int| aliases[i].1@)
}

/// Find a dimension by name.
pub fn find_dimension(dims: &Vec<Dimension>, name: &str) -> (r: Option<usize>)
    ensures
        match r {
            Some(i) => spec_key_index(dim_names(dims@), name@) == i as int && i < dims@.len()
                && dims@[i as int].name@ == name@,
            None => spec_key_index(dim_names(dims@), name@) == -1,
        },
{
    proof {
        lemma_key_index(dim_names(dims@), name@);
    }
    let mut i: usize = 0;
    while i < dims.len()
        invariant
            0 <= i <= dims@.len(),
            forall|j: int| 0 <= j < i ==> #[trigger] dim_names(dims@)[j] != name@,
        decreases dims@.len() - i,
    {
        if str_eq(dims[i].name.as_str(), name) {
            proof {
                assert(dim_names(dims@)[i as int] == name@);
                lemma_key_index(dim_names(dims@), name@);
            }
            return Some(i);
        }
        i += 1;
    }
    None
}

/// Find a variable by name.
pub fn find_variable(vars: &Vec<Variable>, name: &str) -> (r: Option<usize>)
    ensures
        match r {
            Some(i) => spec_key_index(var_names(vars@), name@) == i as int && i < vars@.len()
                && vars@[i as int].name@ == name@,
            None => spec_key_index(var_names(vars@), name@) == -1,
        },
{
    proof {
        lemma_key_index(var_names(vars@), name@);
    }
    let mut i: usize = 0;
    while i < vars.len()
        invariant
            0 <= i <= vars@.len(),
            forall|j: int| 0 <= j < i ==> #[trigger] var_names(vars@)[j] != name@,
        decreases vars@.len() - i,
    {
        if str_eq(vars[i].name.as_str(), name) {
            proof {
                assert(var_names(vars@)[i as int] == name@);
                lemma_key_index(var_names(vars@), name@);
            }
            return Some(i);
        }
        i += 1;
    }
    None
}

/// Find a coordinate array by dimension name.
pub fn find_coordinate(coords: &Vec<Coordinate>, name: &str) -> (r: Option<usize>)
    ensures
        match r {
            Some(i) => spec_key_index(coord_names(coords@), name@) == i as int && i
                < coords@.len() && coords@[i as int].name@ == name@,
            None => spec_key_index(coord_names(coords@), name@) == -1,
        },
{
    proof {
        lemma_key_index(coord_names(coords@), name@);
    }
    let mut i: usize = 0;
    while i < coords.len()
        invariant
            0 <= i <= coords@.len(),
            forall|j: int| 0 <= j < i ==> #[trigger] coord_names(coords@)[j] != name@,
        decreases coords@.len() - i,
    {
        if str_eq(coords[i].name.as_str(), name) {
            proof {
                assert(coord_names(coords@)[i as int] == name@);
                lemma_key_index(coord_names(coords@), name@);
            }
            return Some(i);
        }
        i += 1;
    }
    None
}

/// Find a data array by variable name.
pub fn find_data(data: &Vec<VarData>, name: &str) -> (r: Option<usize>)
    ensures
        match r {
            Some(i) => spec_key_index(data_names(data@), name@) == i as int && i < data@.len()
                && data@[i as int].name@ == name@,
            None => spec_key_index(data_names(data@), name@) == -1,
        },
{
    proof {
        lemma_key_index(data_names(data@), name@);
    }
    let mut i: usize = 0;
    while i < data.len()
        invariant
            0 <= i <= data@.len(),
            forall|j: int| 0 <= j < i ==> #[trigger] data_names(data@)[j] != name@,
        decreases data@.len() - i,
    {
        if str_eq(data[i].name.as_str(), name) {
            proof {
                assert(data_names(data@)[i as int] == name@);
                lemma_key_index(data_names(data@), name@);
            }
            return Some(i);
        }
        i += 1;
    }
    None
}

/// Find an attribute by name.
pub fn find_attr(attrs: &Vec<Attr>, name: &str) -> (r: Option<usize>)
    ensures
        match r {
            Some(i) => spec_key_index(attr_names(attrs@), name@) == i as int && i
                < attrs@.len() && attrs@[i as int].name@ == name@,
            None => spec_key_index(attr_names(attrs@), name@) == -1,
        },
{
    proof {
        lemma_key_index(attr_names(attrs@), name@);
    }
    let mut i: usize = 0;
    while i < attrs.len()
        invariant
            0 <= i <= attrs@.len(),
            forall|j: int| 0 <= j < i ==> #[trigger] attr_names(attrs@)[j] != name@,
        decreases attrs@.len() - i,
    {
        if str_eq(attrs[i].name.as_str(), name) {
            proof {
                assert(attr_names(attrs@)[i as int] == name@);
                lemma_key_index(attr_names(attrs@), name@);
            }
            return Some(i);
        }
        i += 1;
    }
    None
}

/// Find an alias entry by canonical name.
fn find_alias(aliases: &Vec<(String, String)>, name: &str) -> (r: Option<usize>)
    ensures
        match r {
            Some(i) => spec_key_index(alias_names(aliases@), name@) == i as int && i
                < aliases@.len() && aliases@[i as int].0@ == name@,
            None => spec_key_index(alias_names(aliases@), name@) == -1,
        },
{
    proof {
        lemma_key_index(alias_names(aliases@), name@);
    }
    let mut i: usize = 0;
    while i < aliases.len()
        invariant
            0 <= i <= aliases@.len(),
            forall|j: int| 0 <= j < i ==> #[trigger] alias_names(aliases@)[j] != name@,
        decreases aliases@.len() - i,
    {
        if str_eq(aliases[i].0.as_str(), name) {
            proof {
                assert(alias_names(aliases@)[i as int] == name@);
                lemma_key_index(alias_names(aliases@), name@);
            }
            return Some(i);
        }
        i += 1;
    }
    None
}

impl AppState {
    /// Position of a dimension by name, or -1.
    pub open spec fn dim_idx(&self, name: Seq<char>) -> int {
        spec_key_index(dim_names(self.metadata.dimensions@), name)
    }

    /// Whether a dimension of this name exists.
    pub open spec fn has_dim(&self, name: Seq<char>) -> bool {
        self.dim_idx(name) >= 0
    }

    /// Position of a variable by name, or -1.
    pub open spec fn var_idx(&self, name: Seq<char>) -> int {
        spec_key_index(var_names(self.metadata.variables@), name)
    }

    /// Position of a coordinate array by name, or -1.
    pub open spec fn coord_idx(&self, name: Seq<char>) -> int {
        spec_key_index(coord_names(self.metadata.coordinates@), name)
    }

    /// Position of a data array by name, or -1.
    pub open spec fn data_idx(&self, name: Seq<char>) -> int {
        spec_key_index(data_names(self.data@), name)
    }

    /// The file-specific name a canonical name maps to, when the alias map
    /// has it.
    pub open spec fn alias_target(&self, name: Seq<char>) -> Option<Seq<char>> {
        let i = spec_key_index(alias_names(self.dimension_aliases_reverse@), name);
        if i >= 0 {
            Some(self.dimension_aliases_reverse@[i].1@)
        } else {
            None
        }
    }

    /// The file-specific dimension name a client-supplied name resolves
    /// to: a dimension name as-is; otherwise an underscore-prefixed or
    /// bare canonical name whose alias target exists.
    pub open spec fn spec_resolve(&self, name: Seq<char>) -> Option<Seq<char>> {
        if self.has_dim(name) {
            Some(name)
        } else if name.len() > 0 && name[0] == '_' && match self.alias_target(
            name.subrange(1, name.len() as int),
        ) {
            Some(t) => self.has_dim(t),
            None => false,
        } {
            self.alias_target(name.subrange(1, name.len() as int))
        } else if match self.alias_target(name) {
            Some(t) => self.has_dim(t),
            None => false,
        } {
            self.alias_target(name)
        } else {
            None
        }
    }

    /// Build the state from its parts; the alias map is taken from the
    /// configuration.
    pub fn new(config: Config, metadata: Metadata, data: Vec<VarData>) -> (r: AppState)
        ensures
            r.config == config,
            r.metadata == metadata,
            r.data == data,
            r.dimension_aliases_reverse@.len() == config.data.dimension_aliases@.len(),
            forall|i: int|
                0 <= i < r.dimension_aliases_reverse@.len()
                    ==> #[trigger] r.dimension_aliases_reverse@[i].0@
                    == config.data.dimension_aliases@[i].0@
                    && r.dimension_aliases_reverse@[i].1@
                    == config.data.dimension_aliases@[i].1@,
    {
        let mut rev: Vec<(String, String)> = Vec::new();
        let n = config.data.dimension_aliases.len();
        let mut i: usize = 0;
        while i < n
            invariant
                n == config.data.dimension_aliases@.len(),
                0 <= i <= n,
                rev@.len() == i,
                forall|j: int|
                    0 <= j < i ==> #[trigger] rev@[j].0@
                        == config.data.dimension_aliases@[j].0@ && rev@[j].1@
                        == config.data.dimension_aliases@[j].1@,
            decreases n - i,
        {
            let canonical = config.data.dimension_aliases[i].0.clone();
            let file_specific = config.data.dimension_aliases[i].1.clone();
            rev.push((canonical, file_specific));
            i += 1;
        }
        AppState { config, metadata, data, dimension_aliases_reverse: rev }
    }

    /// Resolve a client-supplied dimension name to the file-specific one;
    /// an unresolvable name is rejected with the available names and the
    /// alias map.
    pub fn resolve_dimension(&self, name: &str) -> (r: Result<String>)
        ensures
            match r {
                Ok(t) => self.spec_resolve(name@) == Some(t@),
                Err(e) => self.spec_resolve(name@) is None && (e matches
                    RossbyError::DimensionNotFound { name: n, available, aliases } && n@
                    == name@ && available@.len() == self.metadata.dimensions@.len() && (
                forall|i: int|
                    0 <= i < available@.len() ==> #[trigger] available@[i]@
                        == self.metadata.dimensions@[i].name@) && aliases@.len()
                    == self.dimension_aliases_reverse@.len() && (forall|i: int|
                    0 <= i < aliases@.len() ==> #[trigger] aliases@[i].0@
                        == self.dimension_aliases_reverse@[i].0@ && aliases@[i].1@
                        == self.dimension_aliases_reverse@[i].1@)),
            },
    {
        if find_dimension(&self.metadata.dimensions, name).is_some() {
            return Ok(name.to_owned());
        }
        let len = name.unicode_len();
        if len > 0 && name.get_char(0) == '_' {
            let rest = name.substring_char(1, len);
            match find_alias(&self.dimension_aliases_reverse, rest) {
                Some(i) => {
                    let target = &self.dimension_aliases_reverse[i].1;
                    if find_dimension(&self.metadata.dimensions, target.as_str()).is_some() {
                        return Ok(target.clone());
                    }
                },
                None => {},
            }
        }
        match find_alias(&self.dimension_aliases_reverse, name) {
            Some(i) => {
                let target = &self.dimension_aliases_reverse[i].1;
                if find_dimension(&self.metadata.dimensions, target.as_str()).is_some() {
                    return Ok(target.clone());
                }
            },
            None => {},
        }
        let mut available: Vec<String> = Vec::new();
        let nd = self.metadata.dimensions.len();
        let mut i: usize = 0;
        while i < nd
            invariant
                nd == self.metadata.dimensions@.len(),
                0 <= i <= nd,
                available@.len() == i,
                forall|j: int|
                    0 <= j < i ==> #[trigger] available@[j]@
                        == self.metadata.dimensions@[j].name@,
            decreases nd - i,
        {
            available.push(self.metadata.dimensions[i].name.clone());
            i += 1;
        }
        let mut aliases: Vec<(String, String)> = Vec::new();
        let na = self.dimension_aliases_reverse.len();
        let mut i: usize = 0;
        while i < na
            invariant
                na == self.dimension_aliases_reverse@.len(),
                0 <= i <= na,
                aliases@.len() == i,
                forall|j: int|
                    0 <= j < i ==> #[trigger] aliases@[j].0@
                        == self.dimension_aliases_reverse@[j].0@ && aliases@[j].1@
                        == self.dimension_aliases_reverse@[j].1@,
            decreases na - i,
        {
            aliases.push(
                (
                    self.dimension_aliases_reverse[i].0.clone(),
                    self.dimension_aliases_reverse[i].1.clone(),
                ),
            );
            i += 1;
        }
        Err(RossbyError::DimensionNotFound { name: name.to_owned(), available, aliases })
    }

    /// Position of the first alias entry whose file-specific side is this
    /// name, or -1.
    pub open spec fn canonical_idx(&self, file_specific: Seq<char>) -> int {
        spec_key_index(alias_target_names(self.dimension_aliases_reverse@), file_specific)
    }

    /// The canonical name the alias map gives this file-specific name, when
    /// it has one.
    pub open spec fn spec_canonical_of(&self, file_specific: Seq<char>) -> Option<Seq<char>> {
        let i = self.canonical_idx(file_specific);
        if i >= 0 {
            Some(self.dimension_aliases_reverse@[i].0@)
        } else {
            None
        }
    }

    /// The canonical name that maps to this file-specific name, if any.
    pub fn get_canonical_dimension_name(&self, file_specific: &str) -> (r: Option<String>)
        ensures
            match r {
                Some(c) => self.spec_canonical_of(file_specific@) == Some(c@),
                None => self.spec_canonical_of(file_specific@) is None,
            },
    {
        let n = self.dimension_aliases_reverse.len();
        let mut i: usize = 0;
        while i < n
            invariant
                n == self.dimension_aliases_reverse@.len(),
                0 <= i <= n,
                forall|j: int|
                    0 <= j < i ==> #[trigger] alias_target_names(
                        self.dimension_aliases_reverse@,
                    )[j] != file_specific@,
            decreases n - i,
        {
            if str_eq(self.dimension_aliases_reverse[i].1.as_str(), file_specific) {
                proof {
                    assert(alias_target_names(self.dimension_aliases_reverse@)[i as int]
                        == file_specific@);
                    lemma_key_index(
                        alias_target_names(self.dimension_aliases_reverse@),
                        file_specific@,
                    );
                }
                return Some(self.dimension_aliases_reverse[i].0.clone());
            }
            i += 1;
        }
        proof {
            lemma_key_index(
                alias_target_names(self.dimension_aliases_reverse@),
                file_specific@,
            );
        }
        None
    }

    /// Whether a variable of this name exists.
    pub fn has_variable(&self, name: &str) -> (r: bool)
        ensures
            r == (self.var_idx(name@) >= 0),
    {
        proof {
            lemma_key_index(var_names(self.metadata.variables@), name@);
        }
        find_variable(&self.metadata.variables, name).is_some()
    }

    /// Whether a coordinate array of this name exists.
    pub fn has_coordinate(&self, name: &str) -> (r: bool)
        ensures
            r == (self.coord_idx(name@) >= 0),
    {
        proof {
            lemma_key_index(coord_names(self.metadata.coordinates@), name@);
        }
        find_coordinate(&self.metadata.coordinates, name).is_some()
    }

    /// The data array of a variable, if it exists.
    pub fn get_variable(&self, name: &str) -> (r: Option<&VarData>)
        ensures
            match r {
                Some(vd) => self.data_idx(name@) >= 0 && *vd == self.data@[self.data_idx(
                    name@,
                )],
                None => self.data_idx(name@) < 0,
            },
    {
        match find_data(&self.data, name) {
            Some(i) => Some(&self.data[i]),
            None => None,
        }
    }

    /// The data array of a variable, or a lookup error.
    pub fn get_variable_checked(&self, name: &str) -> (r: Result<&VarData>)
        ensures
            match r {
                Ok(vd) => self.data_idx(name@) >= 0 && *vd == self.data@[self.data_idx(name@)],
                Err(e) => self.data_idx(name@) < 0 && e is DataNotFound,
            },
    {
        proof {
            reveal_strlit("Variable not found in the data store");
        }
        match find_data(&self.data, name) {
            Some(i) => Ok(&self.data[i]),
            None => Err(
                RossbyError::DataNotFound {
                    message: "Variable not found in the data store".to_owned(),
                },
            ),
        }
    }

    /// The metadata record of a variable, if it exists.
    pub fn get_variable_metadata(&self, name: &str) -> (r: Option<&Variable>)
        ensures
            match r {
                Some(v) => self.var_idx(name@) >= 0 && *v == self.metadata.variables@[
                    self.var_idx(name@)],
                None => self.var_idx(name@) < 0,
            },
    {
        match find_variable(&self.metadata.variables, name) {
            Some(i) => Some(&self.metadata.variables[i]),
            None => None,
        }
    }

    /// The metadata record of a variable, or a lookup error.
    pub fn get_variable_metadata_checked(&self, name: &str) -> (r: Result<&Variable>)
        ensures
            match r {
                Ok(v) => self.var_idx(name@) >= 0 && *v == self.metadata.variables@[
                    self.var_idx(name@)],
                Err(e) => self.var_idx(name@) < 0 && e is DataNotFound,
            },
    {
        proof {
            reveal_strlit("Variable metadata not found");
        }
        match find_variable(&self.metadata.variables, name) {
            Some(i) => Ok(&self.metadata.variables[i]),
            None => Err(
                RossbyError::DataNotFound {
                    message: "Variable metadata not found".to_owned(),
                },
            ),
        }
    }

    /// The coordinate array a client-supplied dimension name resolves to,
    /// if the name resolves and the array exists.
    pub fn get_coordinate(&self, name: &str) -> (r: Option<&Vec<i64>>)
        ensures
            match r {
                Some(values) => match self.spec_resolve(name@) {
                    Some(t) => self.coord_idx(t) >= 0 && *values
                        == self.metadata.coordinates@[self.coord_idx(t)].values,
                    None => false,
                },
                None => match self.spec_resolve(name@) {
                    Some(t) => self.coord_idx(t) < 0,
                    None => true,
                },
            },
    {
        match self.resolve_dimension(name) {
            Ok(file_specific) => {
                match find_coordinate(&self.metadata.coordinates, file_specific.as_str()) {
                    Some(i) => Some(&self.metadata.coordinates[i].values),
                    None => None,
                }
            },
            Err(_) => None,
        }
    }

    /// The coordinate array a client-supplied dimension name resolves to,
    /// or the resolution or lookup error.
    pub fn get_coordinate_checked(&self, name: &str) -> (r: Result<&Vec<i64>>)
        ensures
            match r {
                Ok(values) => match self.spec_resolve(name@) {
                    Some(t) => self.coord_idx(t) >= 0 && *values
                        == self.metadata.coordinates@[self.coord_idx(t)].values,
                    None => false,
                },
                Err(e) => match self.spec_resolve(name@) {
                    Some(t) => self.coord_idx(t) < 0 && e is DataNotFound,
                    None => e is DimensionNotFound,
                },
            },
    {
        proof {
            reveal_strlit("Coordinate array not found");
        }
        match self.resolve_dimension(name) {
            Ok(file_specific) => {
                match find_coordinate(&self.metadata.coordinates, file_specific.as_str()) {
                    Some(i) => Ok(&self.metadata.coordinates[i].values),
                    None => Err(
                        RossbyError::DataNotFound {
                            message: "Coordinate array not found".to_owned(),
                        },
                    ),
                }
            },
            Err(e) => Err(e),
        }
    }

    /// The axis names of a variable.
    pub fn get_variable_dimensions(&self, var_name: &str) -> (r: Result<Vec<String>>)
        ensures
            match r {
                Ok(dims) => self.var_idx(var_name@) >= 0 && dims@.len()
                    == self.metadata.variables@[self.var_idx(var_name@)].dimensions@.len() && (
                forall|i: int|
                    0 <= i < dims@.len() ==> #[trigger] dims@[i]@
                        == self.metadata.variables@[self.var_idx(
                        var_name@,
                    )].dimensions@[i]@),
                Err(e) => self.var_idx(var_name@) < 0 && e is DataNotFound,
            },
    {
        let var_meta = self.get_variable_metadata_checked(var_name)?;
        let n = var_meta.dimensions.len();
        let mut dims: Vec<String> = Vec::new();
        let mut i: usize = 0;
        while i < n
            invariant
                n == var_meta.dimensions@.len(),
                0 <= i <= n,
                dims@.len() == i,
                forall|j: int|
                    0 <= j < i ==> #[trigger] dims@[j]@ == var_meta.dimensions@[j]@,
            decreases n - i,
        {
            dims.push(var_meta.dimensions[i].clone());
            i += 1;
        }
        Ok(dims)
    }

    /// A well-formed variable: axes and sizes line up, every axis is a
    /// known dimension of matching size, and a data array of the right
    /// length and bounded values exists.
    pub open spec fn wf_variable(&self, v: Variable) -> bool {
        &&& v.dimensions@.len() == v.shape@.len()
        &&& v.shape@.len() <= MAX_DIMS
        &&& forall|k: int|
            0 <= k < v.dimensions@.len() ==> self.dim_idx(#[trigger] v.dimensions@[k]@) >= 0
                && self.metadata.dimensions@[self.dim_idx(v.dimensions@[k]@)].size
                == v.shape@[k]
        &&& self.data_idx(v.name@) >= 0
        &&& self.data@[self.data_idx(v.name@)].values@.len() == spec_prod(v.shape@)
        &&& forall|i: int|
            0 <= i < self.data@[self.data_idx(v.name@)].values@.len() ==> -FX_VAL_MAX
                <= #[trigger] self.data@[self.data_idx(v.name@)].values@[i] <= FX_VAL_MAX
    }

    /// A well-formed state: every dimension is non-empty and bounded and
    /// carries a coordinate array of matching length with bounded values,
    /// and every variable is well-formed.
    pub open spec fn wf(&self) -> bool {
        &&& forall|i: int|
            0 <= i < self.metadata.dimensions@.len() ==> 1
                <= #[trigger] self.metadata.dimensions@[i].size <= MAX_AXIS
        &&& forall|i: int|
            0 <= i < self.metadata.dimensions@.len() ==> self.coord_idx(
                #[trigger] self.metadata.dimensions@[i].name@,
            ) >= 0 && self.metadata.coordinates@[self.coord_idx(
                self.metadata.dimensions@[i].name@,
            )].values@.len() == self.metadata.dimensions@[i].size
        &&& forall|i: int, j: int|
            0 <= i < self.metadata.coordinates@.len() && 0 <= j
                < self.metadata.coordinates@[i].values@.len() ==> -FX_VAL_MAX
                <= #[trigger] self.metadata.coordinates@[i].values@[j] <= FX_VAL_MAX
        &&& forall|i: int|
            0 <= i < self.metadata.coordinates@.len()
                ==> #[trigger] self.metadata.coordinates@[i].values@.len() <= MAX_AXIS
        &&& forall|i: int|
            0 <= i < self.metadata.variables@.len() ==> self.wf_variable(
                #[trigger] self.metadata.variables@[i],
            )
    }

    /// The size of the dimension named `time`, or 1 when there is none.
    pub open spec fn spec_time_size(&self) -> int {
        let i = self.dim_idx("time"@);
        if i >= 0 {
            self.metadata.dimensions@[i].size as int
        } else {
            1
        }
    }

    /// The size of the dimension named `time`, or 1 when there is none.
    pub fn time_dim_size(&self) -> (r: usize)
        ensures
            r as int == self.spec_time_size(),
    {
        match find_dimension(&self.metadata.dimensions, "time") {
            Some(i) => self.metadata.dimensions[i].size,
            None => 1,
        }
    }

    /// The coordinate array that the first of the given names resolves to,
    /// in order of preference.
    pub open spec fn coords_by_names(&self, names: Seq<Seq<char>>) -> Option<Seq<i64>>
        decreases names.len(),
    {
        if names.len() == 0 {
            None
        } else {
            match self.spec_resolve(names[0]) {
                Some(t) => if self.coord_idx(t) >= 0 {
                    Some(self.metadata.coordinates@[self.coord_idx(t)].values@)
                } else {
                    self.coords_by_names(names.subrange(1, names.len() as int))
                },
                None => self.coords_by_names(names.subrange(1, names.len() as int)),
            }
        }
    }

    /// The longitude coordinate array, found under `lon`, `_longitude` or
    /// `longitude`, in that order.
    pub open spec fn lon_coords(&self) -> Option<Seq<i64>> {
        self.coords_by_names(seq!["lon"@, "_longitude"@, "longitude"@])
    }

    /// The latitude coordinate array, found under `lat`, `_latitude` or
    /// `latitude`, in that order.
    pub open spec fn lat_coords(&self) -> Option<Seq<i64>> {
        self.coords_by_names(seq!["lat"@, "_latitude"@, "latitude"@])
    }

    /// Look up the longitude coordinate array.
    pub fn get_lon_coords(&self) -> (r: Option<&Vec<i64>>)
        ensures
            match r {
                Some(v) => self.lon_coords() == Some(v@),
                None => self.lon_coords() is None,
            },
    {
        proof {
            reveal_with_fuel(AppState::coords_by_names, 5);
            reveal_strlit("lon");
            reveal_strlit("_longitude");
            reveal_strlit("longitude");
            assert(seq!["lon"@, "_longitude"@, "longitude"@].subrange(1, 3) =~= seq![
                "_longitude"@,
                "longitude"@,
            ]);
            assert(seq!["_longitude"@, "longitude"@].subrange(1, 2) =~= seq!["longitude"@]);
            assert(seq!["longitude"@].subrange(1, 1) =~= Seq::<Seq<char>>::empty());
        }
        if let Some(v) = self.get_coordinate("lon") {
            return Some(v);
        }
        if let Some(v) = self.get_coordinate("_longitude") {
            return Some(v);
        }
        if let Some(v) = self.get_coordinate("longitude") {
            return Some(v);
        }
        None
    }

    /// Look up the latitude coordinate array.
    pub fn get_lat_coords(&self) -> (r: Option<&Vec<i64>>)
        ensures
            match r {
                Some(v) => self.lat_coords() == Some(v@),
                None => self.lat_coords() is None,
            },
    {
        proof {
            reveal_with_fuel(AppState::coords_by_names, 5);
            reveal_strlit("lat");
            reveal_strlit("_latitude");
            reveal_strlit("latitude");
            assert(seq!["lat"@, "_latitude"@, "latitude"@].subrange(1, 3) =~= seq![
                "_latitude"@,
                "latitude"@,
            ]);
            assert(seq!["_latitude"@, "latitude"@].subrange(1, 2) =~= seq!["latitude"@]);
            assert(seq!["latitude"@].subrange(1, 1) =~= Seq::<Seq<char>>::empty());
        }
        if let Some(v) = self.get_coordinate("lat") {
            return Some(v);
        }
        if let Some(v) = self.get_coordinate("_latitude") {
            return Some(v);
        }
        if let Some(v) = self.get_coordinate("latitude") {
            return Some(v);
        }
        None
    }

    /// Find the index of the coordinate value nearest to `value` on the
    /// given axis; ties go to the lower index, and values outside the
    /// axis range are rejected.
    pub fn find_coordinate_index(&self, dim_name: &str, value: i64) -> (r: Result<usize>)
        ensures
            match r {
                Ok(i) => match self.spec_resolve(dim_name@) {
                    Some(t) => {
                        let ci = self.coord_idx(t);
                        let c = self.metadata.coordinates@[ci].values@;
                        &&& ci >= 0
                        &&& c.len() > 0
                        &&& c[0] <= value <= c[c.len() - 1]
                        &&& i < c.len()
                        &&& forall|j: int|
                            0 <= j < c.len() ==> crate::fx::iabs(c[i as int] - value)
                                < crate::fx::iabs(#[trigger] c[j] - value) || (crate::fx::iabs(
                                c[i as int] - value,
                            ) == crate::fx::iabs(c[j] - value) && i <= j)
                    },
                    None => false,
                },
                Err(e) => match self.spec_resolve(dim_name@) {
                    Some(t) => {
                        let ci = self.coord_idx(t);
                        let c = self.metadata.coordinates@[ci].values@;
                        (ci < 0 && e is DataNotFound) || (ci >= 0 && c.len() == 0 && e
                            is DataNotFound) || (ci >= 0 && c.len() > 0 && !(c[0] <= value
                            <= c[c.len() - 1]) && e is InvalidCoordinates)
                    },
                    None => e is DimensionNotFound,
                },
            },
    {
        proof {
            reveal_strlit("Coordinate array is empty");
            reveal_strlit("Coordinate value is outside the range of the axis");
        }
        let _file_specific = self.resolve_dimension(dim_name)?;
        let coords = self.get_coordinate_checked(dim_name)?;
        let n = coords.len();
        if n == 0 {
            return Err(
                RossbyError::DataNotFound { message: "Coordinate array is empty".to_owned() },
            );
        }
        if value < coords[0] || value > coords[n - 1] {
            return Err(
                RossbyError::InvalidCoordinates {
                    message: "Coordinate value is outside the range of the axis".to_owned(),
                },
            );
        }
        let mut best: usize = 0;
        let mut best_diff: i128 = (coords[0] as i128) - (value as i128);
        if best_diff < 0 {
            best_diff = -best_diff;
        }
        let mut j: usize = 1;
        while j < n
            invariant
                n == coords@.len(),
                0 < n,
                0 <= best < j <= n,
                best_diff == crate::fx::iabs(coords@[best as int] - value),
                forall|k: int|
                    0 <= k < j ==> crate::fx::iabs(coords@[best as int] - value)
                        < crate::fx::iabs(#[trigger] coords@[k] - value) || (crate::fx::iabs(
                        coords@[best as int] - value,
                    ) == crate::fx::iabs(coords@[k] - value) && best <= k),
            decreases n - j,
        {
            let mut diff: i128 = (coords[j] as i128) - (value as i128);
            if diff < 0 {
                diff = -diff;
            }
            if diff < best_diff {
                best = j;
                best_diff = diff;
            }
            j += 1;
        }
        Ok(best)
    }

    /// Find the index of the coordinate value exactly equal to `value` on
    /// the given axis; when there is none, report the value together with
    /// the available coordinates.
    pub fn find_coordinate_index_exact(&self, dim_name: &str, value: i64) -> (r: Result<usize>)
        ensures
            match r {
                Ok(i) => match self.spec_resolve(dim_name@) {
                    Some(t) => {
                        let ci = self.coord_idx(t);
                        let c = self.metadata.coordinates@[ci].values@;
                        &&& ci >= 0
                        &&& i < c.len()
                        &&& c[i as int] == value
                        &&& forall|j: int| 0 <= j < i ==> #[trigger] c[j] != value
                    },
                    None => false,
                },
                Err(e) => match self.spec_resolve(dim_name@) {
                    Some(t) => {
                        let ci = self.coord_idx(t);
                        let c = self.metadata.coordinates@[ci].values@;
                        (ci < 0 && e is DataNotFound) || (ci >= 0 && c.len() == 0 && e
                            is DataNotFound) || (ci >= 0 && c.len() > 0 && (forall|j: int|
                            0 <= j < c.len() ==> #[trigger] c[j] != value) && (e matches
                            RossbyError::PhysicalValueNotFound { dimension, value: v, available }
                            && dimension@ == dim_name@ && v == value && available@ == c))
                    },
                    None => e is DimensionNotFound,
                },
            },
    {
        proof {
            reveal_strlit("Coordinate array is empty");
        }
        let file_specific = self.resolve_dimension(dim_name)?;
        let coords = self.get_coordinate_checked(file_specific.as_str())?;
        proof {
            assert(self.spec_resolve(file_specific@) == Some(file_specific@));
        }
        let n = coords.len();
        if n == 0 {
            return Err(
                RossbyError::DataNotFound { message: "Coordinate array is empty".to_owned() },
            );
        }
        let mut j: usize = 0;
        let mut found: Option<usize> = None;
        while j < n && found.is_none()
            invariant
                n == coords@.len(),
                0 <= j <= n,
                forall|k: int| 0 <= k < j ==> #[trigger] coords@[k] != value,
                match found {
                    Some(i) => i == j && i < n && coords@[i as int] == value,
                    None => true,
                },
            decreases n - j, (if found is None { 1int } else { 0int }),
        {
            if coords[j] == value {
                found = Some(j);
            } else {
                j += 1;
            }
        }
        if let Some(i) = found {
            return Ok(i);
        }
        let mut available: Vec<i64> = Vec::new();
        let mut j: usize = 0;
        while j < n
            invariant
                n == coords@.len(),
                0 <= j <= n,
                available@ == coords@.subrange(0, j as int),
            decreases n - j,
        {
            available.push(coords[j]);
            proof {
                assert(available@ =~= coords@.subrange(0, j + 1));
            }
            j += 1;
        }
        proof {
            assert(available@ =~= coords@);
        }
        Err(
            RossbyError::PhysicalValueNotFound {
                dimension: dim_name.to_owned(),
                value,
                available,
            },
        )
    }

    /// The smallest and largest longitude and latitude of the dataset:
    /// `(min_lon, min_lat, max_lon, max_lat)`.
    pub fn get_lat_lon_bounds(&self) -> (r: Result<(i64, i64, i64, i64)>)
        ensures
            match r {
                Ok((min_lon, min_lat, max_lon, max_lat)) => match (
                    self.lon_coords(),
                    self.lat_coords(),
                ) {
                    (Some(lons), Some(lats)) => {
                        &&& lons.len() > 0
                        &&& lats.len() > 0
                        &&& lons.contains(min_lon) && (forall|j: int|
                            0 <= j < lons.len() ==> min_lon <= #[trigger] lons[j])
                        &&& lons.contains(max_lon) && (forall|j: int|
                            0 <= j < lons.len() ==> max_lon >= #[trigger] lons[j])
                        &&& lats.contains(min_lat) && (forall|j: int|
                            0 <= j < lats.len() ==> min_lat <= #[trigger] lats[j])
                        &&& lats.contains(max_lat) && (forall|j: int|
                            0 <= j < lats.len() ==> max_lat >= #[trigger] lats[j])
                    },
                    _ => false,
                },
                Err(e) => e is DataNotFound && (self.lon_coords() is None || self.lat_coords()
                    is None || self.lon_coords() == Some(Seq::<i64>::empty())
                    || self.lat_coords() == Some(Seq::<i64>::empty())),
            },
    {
        proof {
            reveal_strlit("Latitude or longitude coordinates are missing or empty");
        }
        let lon_opt = self.get_lon_coords();
        let lat_opt = self.get_lat_coords();
        match (lon_opt, lat_opt) {
            (Some(lons), Some(lats)) => {
                if lons.len() == 0 || lats.len() == 0 {
                    proof {
                        if lons@.len() == 0 {
                            assert(lons@ =~= Seq::<i64>::empty());
                        } else {
                            assert(lats@ =~= Seq::<i64>::empty());
                        }
                    }
                    return Err(
                        RossbyError::DataNotFound {
                            message:
                                "Latitude or longitude coordinates are missing or empty".to_owned(),
                        },
                    );
                }
                let (min_lon, max_lon) = min_max_of(lons);
                let (min_lat, max_lat) = min_max_of(lats);
                Ok((min_lon, min_lat, max_lon, max_lat))
            },
            _ => Err(
                RossbyError::DataNotFound {
                    message: "Latitude or longitude coordinates are missing or empty".to_owned(),
                },
            ),
        }
    }
}

impl AppState {
    /// Whether a dimension name denotes the latitude axis: the usual
    /// literal names, or a name the alias table maps to `latitude`.
    pub open spec fn is_lat_axis(&self, n: Seq<char>) -> bool {
        n == "lat"@ || n == "latitude"@ || self.spec_canonical_of(n) == Some("latitude"@)
    }

    /// Whether a dimension name denotes the longitude axis.
    pub open spec fn is_lon_axis(&self, n: Seq<char>) -> bool {
        n == "lon"@ || n == "longitude"@ || self.spec_canonical_of(n) == Some("longitude"@)
    }

    /// Whether a dimension name denotes the time axis.
    pub open spec fn is_time_axis(&self, n: Seq<char>) -> bool {
        n == "time"@ || self.spec_canonical_of(n) == Some("time"@)
    }

    /// The last latitude axis among the names, or -1.
    pub open spec fn spec_lat_axis(&self, ds: Seq<String>) -> int
        decreases ds.len(),
    {
        if ds.len() == 0 {
            -1
        } else if self.is_lat_axis(ds.last()@) {
            ds.len() - 1
        } else {
            self.spec_lat_axis(ds.drop_last())
        }
    }

    /// The last longitude axis among the names, or -1.
    pub open spec fn spec_lon_axis(&self, ds: Seq<String>) -> int
        decreases ds.len(),
    {
        if ds.len() == 0 {
            -1
        } else if self.is_lon_axis(ds.last()@) {
            ds.len() - 1
        } else {
            self.spec_lon_axis(ds.drop_last())
        }
    }

    /// The last time axis among the names, or -1.
    pub open spec fn spec_time_axis(&self, ds: Seq<String>) -> int
        decreases ds.len(),
    {
        if ds.len() == 0 {
            -1
        } else if self.is_time_axis(ds.last()@) {
            ds.len() - 1
        } else {
            self.spec_time_axis(ds.drop_last())
        }
    }

    fn is_lat_axis_exec(&self, d: &str) -> (r: bool)
        ensures
            r == self.is_lat_axis(d@),
    {
        proof {
            reveal_strlit("lat");
            reveal_strlit("latitude");
        }
        if str_eq(d, "lat") || str_eq(d, "latitude") {
            return true;
        }
        match self.get_canonical_dimension_name(d) {
            Some(c) => str_eq(c.as_str(), "latitude"),
            None => false,
        }
    }

    fn is_lon_axis_exec(&self, d: &str) -> (r: bool)
        ensures
            r == self.is_lon_axis(d@),
    {
        proof {
            reveal_strlit("lon");
            reveal_strlit("longitude");
        }
        if str_eq(d, "lon") || str_eq(d, "longitude") {
            return true;
        }
        match self.get_canonical_dimension_name(d) {
            Some(c) => str_eq(c.as_str(), "longitude"),
            None => false,
        }
    }

    fn is_time_axis_exec(&self, d: &str) -> (r: bool)
        ensures
            r == self.is_time_axis(d@),
    {
        proof {
            reveal_strlit("time");
        }
        if str_eq(d, "time") {
            return true;
        }
        match self.get_canonical_dimension_name(d) {
            Some(c) => str_eq(c.as_str(), "time"),
            None => false,
        }
    }

    /// Find the last latitude axis among the names.
    pub fn find_lat_axis(&self, ds: &Vec<String>) -> (r: Option<usize>)
        ensures
            match r {
                Some(i) => self.spec_lat_axis(ds@) == i as int && i < ds@.len(),
                None => self.spec_lat_axis(ds@) == -1,
            },
    {
        proof {
            assert(ds@.subrange(0, ds@.len() as int) =~= ds@);
        }
        let n = ds.len();
        let mut i: usize = n;
        while i > 0
            invariant
                n == ds@.len(),
                0 <= i <= n,
                self.spec_lat_axis(ds@) == self.spec_lat_axis(ds@.subrange(0, i as int)),
            decreases i,
        {
            proof {
                assert(ds@.subrange(0, i as int).last() == ds@[i - 1]);
                assert(ds@.subrange(0, i as int).drop_last() =~= ds@.subrange(0, i - 1));
            }
            if self.is_lat_axis_exec(ds[i - 1].as_str()) {
                return Some(i - 1);
            }
            i -= 1;
        }
        proof {
            assert(ds@.subrange(0, 0) =~= Seq::<String>::empty());
        }
        None
    }

    /// Find the last longitude axis among the names.
    pub fn find_lon_axis(&self, ds: &Vec<String>) -> (r: Option<usize>)
        ensures
            match r {
                Some(i) => self.spec_lon_axis(ds@) == i as int && i < ds@.len(),
                None => self.spec_lon_axis(ds@) == -1,
            },
    {
        proof {
            assert(ds@.subrange(0, ds@.len() as int) =~= ds@);
        }
        let n = ds.len();
        let mut i: usize = n;
        while i > 0
            invariant
                n == ds@.len(),
                0 <= i <= n,
                self.spec_lon_axis(ds@) == self.spec_lon_axis(ds@.subrange(0, i as int)),
            decreases i,
        {
            proof {
                assert(ds@.subrange(0, i as int).last() == ds@[i - 1]);
                assert(ds@.subrange(0, i as int).drop_last() =~= ds@.subrange(0, i - 1));
            }
            if self.is_lon_axis_exec(ds[i - 1].as_str()) {
                return Some(i - 1);
            }
            i -= 1;
        }
        proof {
            assert(ds@.subrange(0, 0) =~= Seq::<String>::empty());
        }
        None
    }

    /// Find the last time axis among the names.
    pub fn find_time_axis(&self, ds: &Vec<String>) -> (r: Option<usize>)
        ensures
            match r {
                Some(i) => self.spec_time_axis(ds@) == i as int && i < ds@.len(),
                None => self.spec_time_axis(ds@) == -1,
            },
    {
        proof {
            assert(ds@.subrange(0, ds@.len() as int) =~= ds@);
        }
        let n = ds.len();
        let mut i: usize = n;
        while i > 0
            invariant
                n == ds@.len(),
                0 <= i <= n,
                self.spec_time_axis(ds@) == self.spec_time_axis(ds@.subrange(0, i as int)),
            decreases i,
        {
            proof {
                assert(ds@.subrange(0, i as int).last() == ds@[i - 1]);
                assert(ds@.subrange(0, i as int).drop_last() =~= ds@.subrange(0, i - 1));
            }
            if self.is_time_axis_exec(ds[i - 1].as_str()) {
                return Some(i - 1);
            }
            i -= 1;
        }
        proof {
            assert(ds@.subrange(0, 0) =~= Seq::<String>::empty());
        }
        None
    }
}

/// The names of the index selectors, in order.
pub open spec fn sel_names(sel: Seq<(String, usize)>) -> Seq<Seq<char>> {
    Seq::new(sel.len(), |i: int| sel[i].0@)
}

/// The index selected for an axis, or 0 when none was given.
pub open spec fn spec_sel_val(sel: Seq<(String, usize)>, name: Seq<char>) -> usize {
    let i = spec_key_index(sel_names(sel), name);
    if i >= 0 {
        sel[i].1
    } else {
        0
    }
}

/// Look up the index selected for an axis, defaulting to 0.
pub fn sel_val(sel: &Vec<(String, usize)>, name: &str) -> (r: usize)
    ensures
        r == spec_sel_val(sel@, name@),
{
    let mut i: usize = 0;
    while i < sel.len()
        invariant
            0 <= i <= sel@.len(),
            forall|j: int| 0 <= j < i ==> #[trigger] sel_names(sel@)[j] != name@,
        decreases sel@.len() - i,
    {
        if str_eq(sel[i].0.as_str(), name) {
            proof {
                assert(sel_names(sel@)[i as int] == name@);
                lemma_key_index(sel_names(sel@), name@);
            }
            return sel[i].1;
        }
        i += 1;
    }
    proof {
        lemma_key_index(sel_names(sel@), name@);
    }
    0
}

/// The first position with a value at least `v`, or -1.
pub open spec fn spec_first_ge(s: Seq<i64>, v: i64) -> int
    decreases s.len(),
{
    if s.len() == 0 {
        -1
    } else if s[0] >= v {
        0
    } else {
        let r = spec_first_ge(s.subrange(1, s.len() as int), v);
        if r < 0 {
            -1
        } else {
            r + 1
        }
    }
}

/// The last position with a value at most `v`, or -1.
pub open spec fn spec_last_le(s: Seq<i64>, v: i64) -> int
    decreases s.len(),
{
    if s.len() == 0 {
        -1
    } else if s.last() <= v {
        s.len() - 1
    } else {
        spec_last_le(s.drop_last(), v)
    }
}

/// `spec_first_ge` finds exactly the first qualifying position.
pub proof fn lemma_first_ge(s: Seq<i64>, v: i64)
    ensures
        spec_first_ge(s, v) == -1 <==> (forall|j: int| 0 <= j < s.len() ==> #[trigger] s[j] < v),
        spec_first_ge(s, v) >= 0 ==> 0 <= spec_first_ge(s, v) < s.len() && s[spec_first_ge(
            s,
            v,
        )] >= v && (forall|j: int| 0 <= j < spec_first_ge(s, v) ==> #[trigger] s[j] < v),
    decreases s.len(),
{
    if s.len() > 0 {
        lemma_first_ge(s.subrange(1, s.len() as int), v);
        assert(forall|j: int|
            1 <= j < s.len() ==> #[trigger] s[j] == s.subrange(1, s.len() as int)[j - 1]);
    }
}

/// Find the first position whose value is at least `v`.
pub fn first_ge(s: &Vec<i64>, v: i64) -> (r: Option<usize>)
    ensures
        match r {
            Some(i) => spec_first_ge(s@, v) == i as int && i < s@.len(),
            None => spec_first_ge(s@, v) == -1,
        },
{
    let mut i: usize = 0;
    while i < s.len()
        invariant
            0 <= i <= s@.len(),
            forall|j: int| 0 <= j < i ==> #[trigger] s@[j] < v,
        decreases s@.len() - i,
    {
        if s[i] >= v {
            proof {
                lemma_first_ge(s@, v);
            }
            return Some(i);
        }
        i += 1;
    }
    proof {
        lemma_first_ge(s@, v);
    }
    None
}

/// `spec_last_le` finds exactly the last qualifying position.
pub proof fn lemma_last_le(s: Seq<i64>, v: i64)
    ensures
        spec_last_le(s, v) == -1 <==> (forall|j: int| 0 <= j < s.len() ==> #[trigger] s[j] > v),
        spec_last_le(s, v) >= 0 ==> 0 <= spec_last_le(s, v) < s.len() && s[spec_last_le(s, v)]
            <= v && (forall|j: int| spec_last_le(s, v) < j < s.len() ==> #[trigger] s[j] > v),
        forall|j: int| 0 <= j < s.len() && #[trigger] s[j] <= v ==> j <= spec_last_le(s, v),
    decreases s.len(),
{
    if s.len() > 0 {
        lemma_last_le(s.drop_last(), v);
        assert(forall|j: int|
            0 <= j < s.len() - 1 ==> #[trigger] s[j] == s.drop_last()[j]);
    }
}

/// Find the last position whose value is at most `v`.
pub fn last_le(s: &Vec<i64>, v: i64) -> (r: Option<usize>)
    ensures
        match r {
            Some(i) => spec_last_le(s@, v) == i as int && i < s@.len(),
            None => spec_last_le(s@, v) == -1,
        },
{
    let mut i: usize = s.len();
    while i > 0
        invariant
            0 <= i <= s@.len(),
            forall|j: int| i <= j < s@.len() ==> #[trigger] s@[j] > v,
        decreases i,
    {
        let k = i - 1;
        if s[k] <= v {
            proof {
                lemma_last_le(s@, v);
                let idx = spec_last_le(s@, v);
                assert(s@[k as int] <= v);
                assert(k as int <= idx);
                assert(s@[idx] <= v);
                assert(idx <= k as int);
            }
            return Some(k);
        }
        i -= 1;
    }
    proof {
        lemma_last_le(s@, v);
    }
    None
}

/// The integer index tuple of one sliced cell: the latitude and longitude
/// axes carry the given positions, every other axis the selected index.
pub open spec fn slice_base(
    v: Variable,
    latp: int,
    lonp: int,
    sel: Seq<(String, usize)>,
    lat_i: int,
    lon_i: int,
) -> Seq<usize> {
    Seq::new(
        v.shape@.len(),
        |k: int|
            if k == latp {
                lat_i as usize
            } else if k == lonp {
                lon_i as usize
            } else {
                spec_sel_val(sel, v.dimensions@[k]@)
            },
    )
}

impl AppState {
    /// The longitude coordinates the slicer uses: the array named `lon`,
    /// or else the one named `longitude`.
    pub open spec fn pick_lon(&self) -> Option<Seq<i64>> {
        if self.coord_idx("lon"@) >= 0 {
            Some(self.metadata.coordinates@[self.coord_idx("lon"@)].values@)
        } else if self.coord_idx("longitude"@) >= 0 {
            Some(self.metadata.coordinates@[self.coord_idx("longitude"@)].values@)
        } else {
            None
        }
    }

    /// The latitude coordinates the slicer uses: the array named `lat`, or
    /// else the one named `latitude`.
    pub open spec fn pick_lat(&self) -> Option<Seq<i64>> {
        if self.coord_idx("lat"@) >= 0 {
            Some(self.metadata.coordinates@[self.coord_idx("lat"@)].values@)
        } else if self.coord_idx("latitude"@) >= 0 {
            Some(self.metadata.coordinates@[self.coord_idx("latitude"@)].values@)
        } else {
            None
        }
    }

    /// The first latitude position of a slice: the first coordinate at
    /// least `min_lat`, or 0.
    pub open spec fn slice_lo(coords: Seq<i64>, min_v: i64) -> int {
        if spec_first_ge(coords, min_v) >= 0 {
            spec_first_ge(coords, min_v)
        } else {
            0
        }
    }

    /// The last position of a slice: the last coordinate at most `max_v`,
    /// or the final position.
    pub open spec fn slice_hi(coords: Seq<i64>, max_v: i64) -> int {
        if spec_last_le(coords, max_v) >= 0 {
            spec_last_le(coords, max_v)
        } else {
            coords.len() - 1
        }
    }

    /// What a successful 2-D slice holds: the sub-grid of the variable over
    /// the bounding box, all other axes contracted at their selected
    /// indices; with the latitude axis stored before the longitude axis the
    /// rows are latitudes, otherwise they are longitudes.  A bounding box
    /// inverted in longitude yields a single zero column, and empty
    /// coordinate arrays yield an empty grid.
    pub open spec fn slice_post(
        &self,
        var_name: Seq<char>,
        min_lon: i64,
        min_lat: i64,
        max_lon: i64,
        max_lat: i64,
        sel: Seq<(String, usize)>,
        g: Grid2,
    ) -> bool {
        let vi = self.var_idx(var_name);
        let v = self.metadata.variables@[vi];
        let latp = self.spec_lat_axis(v.dimensions@);
        let lonp = self.spec_lon_axis(v.dimensions@);
        let vals = self.data@[self.data_idx(v.name@)].values@;
        &&& vi >= 0
        &&& latp >= 0
        &&& lonp >= 0
        &&& self.pick_lon() is Some
        &&& self.pick_lat() is Some
        &&& {
            let lons = self.pick_lon()->Some_0;
            let lats = self.pick_lat()->Some_0;
            if lons.len() == 0 || lats.len() == 0 {
                g.rows == 0 && g.cols == 0
            } else {
                let lat0 = Self::slice_lo(lats, min_lat);
                let lat1 = Self::slice_hi(lats, max_lat);
                let lon0 = Self::slice_lo(lons, min_lon);
                let lon1 = Self::slice_hi(lons, max_lon);
                if min_lon > max_lon {
                    g.rows == lat1 - lat0 + 1 && g.cols == 1 && (forall|i: int|
                        0 <= i < g.values@.len() ==> #[trigger] g.values@[i] == 0)
                } else if latp < lonp {
                    g.rows == lat1 - lat0 + 1 && g.cols == lon1 - lon0 + 1 && (forall|
                        r2: int,
                        c2: int,
                    |
                        0 <= r2 < g.rows && 0 <= c2 < g.cols ==> #[trigger] g.cell(r2, c2)
                            == vals[spec_flat(
                            slice_base(v, latp, lonp, sel, lat0 + r2, lon0 + c2),
                            v.shape@,
                        )])
                } else {
                    g.rows == lon1 - lon0 + 1 && g.cols == lat1 - lat0 + 1 && (forall|
                        r2: int,
                        c2: int,
                    |
                        0 <= r2 < g.rows && 0 <= c2 < g.cols ==> #[trigger] g.cell(r2, c2)
                            == vals[spec_flat(
                            slice_base(v, latp, lonp, sel, lat0 + c2, lon0 + r2),
                            v.shape@,
                        )])
                }
            }
        }
    }

    /// The conditions under which a 2-D slice succeeds: the variable exists
    /// with latitude and longitude axes, the coordinate arrays are found,
    /// and (unless they are empty) the selected ranges are non-empty and in
    /// bounds, as is every contracted axis index.
    pub open spec fn slice_ok(
        &self,
        var_name: Seq<char>,
        min_lon: i64,
        min_lat: i64,
        max_lon: i64,
        max_lat: i64,
        sel: Seq<(String, usize)>,
    ) -> bool {
        let vi = self.var_idx(var_name);
        let v = self.metadata.variables@[vi];
        let latp = self.spec_lat_axis(v.dimensions@);
        let lonp = self.spec_lon_axis(v.dimensions@);
        &&& vi >= 0
        &&& latp >= 0
        &&& lonp >= 0
        &&& self.pick_lon() is Some
        &&& self.pick_lat() is Some
        &&& {
            let lons = self.pick_lon()->Some_0;
            let lats = self.pick_lat()->Some_0;
            lons.len() == 0 || lats.len() == 0 || {
                let lat0 = Self::slice_lo(lats, min_lat);
                let lat1 = Self::slice_hi(lats, max_lat);
                let lon0 = Self::slice_lo(lons, min_lon);
                let lon1 = Self::slice_hi(lons, max_lon);
                &&& lat0 <= lat1 < v.shape@[latp]
                &&& (min_lon > max_lon || {
                    &&& lon0 <= lon1 < v.shape@[lonp]
                    &&& forall|k: int|
                        0 <= k < v.shape@.len() && k != latp && k != lonp ==> (
                        spec_sel_val(sel, #[trigger] v.dimensions@[k]@) as int) < v.shape@[k]
                })
            }
        }
    }

    /// Extract the 2-D latitude/longitude sub-grid of a variable over a
    /// bounding box, contracting every other axis at its selected index
    /// (default 0).
    #[verifier::rlimit(100)]
    #[verifier::spinoff_prover]
    pub fn get_data_slice_with_dims(
        &self,
        var_name: &str,
        min_lon: i64,
        min_lat: i64,
        max_lon: i64,
        max_lat: i64,
        dim_indices: &Vec<(String, usize)>,
    ) -> (r: Result<Grid2>)
        requires
            self.wf(),
        ensures
            r is Ok ==> (r->Ok_0).wf() && self.slice_post(
                var_name@,
                min_lon,
                min_lat,
                max_lon,
                max_lat,
                dim_indices@,
                r->Ok_0,
            ),
            r is Err ==> (r->Err_0 is DataNotFound || r->Err_0 is IndexOutOfBounds),
            r matches Err(RossbyError::IndexOutOfBounds { param, .. }) ==> param@
                == "bounding box"@ || param@ == "dimension index"@,
            self.slice_ok(var_name@, min_lon, min_lat, max_lon, max_lat, dim_indices@) ==> r
                is Ok,
    {
        proof {
            reveal_strlit("lon");
            reveal_strlit("longitude");
            reveal_strlit("lat");
            reveal_strlit("latitude");
            reveal_strlit("Variable has no latitude axis");
            reveal_strlit("Variable has no longitude axis");
            reveal_strlit("Longitude coordinates not found");
            reveal_strlit("Latitude coordinates not found");
            reveal_strlit("Bounding box selects no grid points");
            reveal_strlit("bounding box");
            reveal_strlit("dimension index");
        }
        let var_meta = self.get_variable_metadata_checked(var_name)?;
        let ghost vi = self.var_idx(var_name@);
        let ghost v = self.metadata.variables@[vi];
        proof {
            lemma_key_index(var_names(self.metadata.variables@), var_name@);
            assert(self.wf_variable(self.metadata.variables@[vi]));
            assert forall|t: int| 0 <= t < v.shape@.len() implies 1
                <= #[trigger] v.shape@[t] by {
                assert(self.dim_idx(v.dimensions@[t]@) >= 0 && self.metadata.dimensions@[
                    self.dim_idx(v.dimensions@[t]@)].size == v.shape@[t]);
                lemma_key_index(dim_names(self.metadata.dimensions@), v.dimensions@[t]@);
            }
        }
        let var_data = self.get_variable_checked(var_meta.name.as_str())?;
        let latp = match self.find_lat_axis(&var_meta.dimensions) {
            Some(i) => i,
            None => {
                return Err(
                    RossbyError::DataNotFound {
                        message: "Variable has no latitude axis".to_owned(),
                    },
                );
            },
        };
        let lonp = match self.find_lon_axis(&var_meta.dimensions) {
            Some(i) => i,
            None => {
                return Err(
                    RossbyError::DataNotFound {
                        message: "Variable has no longitude axis".to_owned(),
                    },
                );
            },
        };
        let lons = match find_coordinate(&self.metadata.coordinates, "lon") {
            Some(i) => &self.metadata.coordinates[i].values,
            None => match find_coordinate(&self.metadata.coordinates, "longitude") {
                Some(i) => &self.metadata.coordinates[i].values,
                None => {
                    return Err(
                        RossbyError::DataNotFound {
                            message: "Longitude coordinates not found".to_owned(),
                        },
                    );
                },
            },
        };
        let lats = match find_coordinate(&self.metadata.coordinates, "lat") {
            Some(i) => &self.metadata.coordinates[i].values,
            None => match find_coordinate(&self.metadata.coordinates, "latitude") {
                Some(i) => &self.metadata.coordinates[i].values,
                None => {
                    return Err(
                        RossbyError::DataNotFound {
                            message: "Latitude coordinates not found".to_owned(),
                        },
                    );
                },
            },
        };
        if lons.len() == 0 || lats.len() == 0 {
            let g = Grid2 { rows: 0, cols: 0, values: Vec::new() };
            proof {
                assert(g.values@.len() == g.rows * g.cols) by (nonlinear_arith)
                    requires
                        g.values@.len() == 0,
                        g.rows == 0,
                ;
            }
            return Ok(g);
        }
        let lat0 = match first_ge(lats, min_lat) {
            Some(i) => i,
            None => 0,
        };
        let lat1 = match last_le(lats, max_lat) {
            Some(i) => i,
            None => lats.len() - 1,
        };
        let lon0 = match first_ge(lons, min_lon) {
            Some(i) => i,
            None => 0,
        };
        let lon1 = match last_le(lons, max_lon) {
            Some(i) => i,
            None => lons.len() - 1,
        };
        if lat1 < lat0 || lat1 >= var_meta.shape[latp] {
            return Err(
                RossbyError::IndexOutOfBounds {
                    param: "bounding box".to_owned(),
                    value: "latitude range".to_owned(),
                    max: var_meta.shape[latp] - 1,
                },
            );
        }
        if min_lon > max_lon {
            let rows = lat1 - lat0 + 1;
            let mut values: Vec<i64> = Vec::new();
            let mut i: usize = 0;
            while i < rows
                invariant
                    0 <= i <= rows,
                    values@.len() == i,
                    forall|j: int| 0 <= j < i ==> #[trigger] values@[j] == 0,
                decreases rows - i,
            {
                values.push(0);
                i += 1;
            }
            let g = Grid2 { rows, cols: 1, values };
            proof {
                assert(g.values@.len() == g.rows * g.cols) by (nonlinear_arith)
                    requires
                        g.values@.len() == g.rows,
                        g.cols == 1,
                ;
            }
            return Ok(g);
        }
        if lon1 < lon0 || lon1 >= var_meta.shape[lonp] {
            return Err(
                RossbyError::IndexOutOfBounds {
                    param: "bounding box".to_owned(),
                    value: "longitude range".to_owned(),
                    max: var_meta.shape[lonp] - 1,
                },
            );
        }
        let nd = var_meta.dimensions.len();
        let mut k: usize = 0;
        let mut bad: Option<usize> = None;
        while k < nd && bad.is_none()
            invariant
                0 <= vi < self.metadata.variables@.len(),
                v == self.metadata.variables@[vi],
                *var_meta == v,
                nd == v.dimensions@.len(),
                nd == v.shape@.len(),
                latp < nd,
                lonp < nd,
                0 <= k <= nd,
                match bad {
                    Some(b) => b < nd && b != latp && b != lonp && (spec_sel_val(
                        dim_indices@,
                        v.dimensions@[b as int]@,
                    ) as int) >= v.shape@[b as int],
                    None => forall|t: int|
                        0 <= t < k && t != latp as int && t != lonp as int ==> (spec_sel_val(
                            dim_indices@,
                            #[trigger] v.dimensions@[t]@,
                        ) as int) < v.shape@[t],
                },
            decreases nd - k, (if bad is None { 1int } else { 0int }),
        {
            if k != latp && k != lonp {
                let sv = sel_val(dim_indices, var_meta.dimensions[k].as_str());
                if sv >= var_meta.shape[k] {
                    bad = Some(k);
                } else {
                    k += 1;
                }
            } else {
                k += 1;
            }
        }
        if let Some(b) = bad {
            return Err(
                RossbyError::IndexOutOfBounds {
                    param: "dimension index".to_owned(),
                    value: var_meta.dimensions[b].clone(),
                    max: var_meta.shape[b] - 1,
                },
            );
        }
        let lat_first = latp < lonp;
        let rows = if lat_first {
            lat1 - lat0 + 1
        } else {
            lon1 - lon0 + 1
        };
        let cols = if lat_first {
            lon1 - lon0 + 1
        } else {
            lat1 - lat0 + 1
        };
        proof {
            assert(self.wf_variable(v));
            assert(forall|t: int|
                0 <= t < v.shape@.len() ==> 1 <= #[trigger] v.shape@[t]) by {
                assert(forall|t: int|
                    0 <= t < v.dimensions@.len() ==> self.dim_idx(
                        #[trigger] v.dimensions@[t]@,
                    ) >= 0 && self.metadata.dimensions@[self.dim_idx(v.dimensions@[t]@)].size
                        == v.shape@[t]);
            }
        }
        let dlen = var_data.values.len();
        let mut values: Vec<i64> = Vec::new();
        let mut rr: usize = 0;
        while rr < rows
            invariant
                self.wf(),
                0 <= vi < self.metadata.variables@.len(),
                v == self.metadata.variables@[vi],
                *var_meta == v,
                self.data_idx(v.name@) >= 0,
                *var_data == self.data@[self.data_idx(v.name@)],
                dlen == var_data.values@.len(),
                dlen as int == spec_prod(v.shape@),
                forall|t: int| 0 <= t < v.shape@.len() ==> 1 <= #[trigger] v.shape@[t],
                latp < v.shape@.len(),
                lonp < v.shape@.len(),
                lat_first == (latp < lonp),
                lat0 + (if lat_first { rows } else { cols }) - 1 <= lat1 < v.shape@[latp as int],
                lon0 + (if lat_first { cols } else { rows }) - 1 <= lon1 < v.shape@[lonp as int],
                rows >= 1,
                cols >= 1,
                forall|t: int|
                    0 <= t < v.shape@.len() && t != latp as int && t != lonp as int ==> (
                    spec_sel_val(dim_indices@, #[trigger] v.dimensions@[t]@) as int)
                        < v.shape@[t],
                0 <= rr <= rows,
                values@.len() == rr * cols,
                forall|p: int|
                    0 <= p < values@.len() ==> -FX_VAL_MAX <= #[trigger] values@[p]
                        <= FX_VAL_MAX,
                forall|r2: int, c2: int|
                    0 <= r2 < rr && 0 <= c2 < cols ==> #[trigger] values@[r2 * cols + c2]
                        == var_data.values@[spec_flat(
                        slice_base(
                            v,
                            latp as int,
                            lonp as int,
                            dim_indices@,
                            lat0 + (if lat_first {
                                r2
                            } else {
                                c2
                            }),
                            lon0 + (if lat_first {
                                c2
                            } else {
                                r2
                            }),
                        ),
                        v.shape@,
                    )],
            decreases rows - rr,
        {
            let mut cc: usize = 0;
            while cc < cols
                invariant
                    self.wf(),
                    0 <= vi < self.metadata.variables@.len(),
                    v == self.metadata.variables@[vi],
                    *var_meta == v,
                    self.data_idx(v.name@) >= 0,
                    *var_data == self.data@[self.data_idx(v.name@)],
                    dlen == var_data.values@.len(),
                    dlen as int == spec_prod(v.shape@),
                    forall|t: int| 0 <= t < v.shape@.len() ==> 1 <= #[trigger] v.shape@[t],
                    latp < v.shape@.len(),
                    lonp < v.shape@.len(),
                    lat_first == (latp < lonp),
                    lat0 + (if lat_first { rows } else { cols }) - 1 <= lat1 < v.shape@[
                        latp as int],
                    lon0 + (if lat_first { cols } else { rows }) - 1 <= lon1 < v.shape@[
                        lonp as int],
                    rows >= 1,
                    cols >= 1,
                    forall|t: int|
                        0 <= t < v.shape@.len() && t != latp as int && t != lonp as int ==> (
                        spec_sel_val(dim_indices@, #[trigger] v.dimensions@[t]@) as int)
                            < v.shape@[t],
                    0 <= rr < rows,
                    0 <= cc <= cols,
                    values@.len() == rr * cols + cc,
                    forall|p: int|
                        0 <= p < values@.len() ==> -FX_VAL_MAX <= #[trigger] values@[p]
                            <= FX_VAL_MAX,
                    forall|r2: int, c2: int|
                        (0 <= r2 < rr && 0 <= c2 < cols) || (r2 == rr && 0 <= c2 < cc)
                            ==> #[trigger] values@[r2 * cols + c2] == var_data.values@[
                        spec_flat(
                            slice_base(
                                v,
                                latp as int,
                                lonp as int,
                                dim_indices@,
                                lat0 + (if lat_first {
                                    r2
                                } else {
                                    c2
                                }),
                                lon0 + (if lat_first {
                                    c2
                                } else {
                                    r2
                                }),
                            ),
                            v.shape@,
                        )],
                decreases cols - cc,
            {
                let lat_i: usize = lat0 + (if lat_first {
                    rr
                } else {
                    cc
                });
                let lon_i: usize = lon0 + (if lat_first {
                    cc
                } else {
                    rr
                });
                let ghost base = slice_base(
                    v,
                    latp as int,
                    lonp as int,
                    dim_indices@,
                    lat_i as int,
                    lon_i as int,
                );
                let nd2 = var_meta.shape.len();
                let mut idx: Vec<usize> = Vec::new();
                let mut t: usize = 0;
                while t < nd2
                    invariant
                        nd2 == v.shape@.len(),
                        nd2 == v.dimensions@.len(),
                        *var_meta == v,
                        base == slice_base(
                            v,
                            latp as int,
                            lonp as int,
                            dim_indices@,
                            lat_i as int,
                            lon_i as int,
                        ),
                        0 <= t <= nd2,
                        idx@.len() == t,
                        forall|u: int| 0 <= u < t ==> #[trigger] idx@[u] == base[u],
                    decreases nd2 - t,
                {
                    if t == latp {
                        idx.push(lat_i);
                    } else if t == lonp {
                        idx.push(lon_i);
                    } else {
                        let sv = sel_val(dim_indices, var_meta.dimensions[t].as_str());
                        idx.push(sv);
                    }
                    t += 1;
                }
                proof {
                    assert(idx@ =~= base);
                    assert(forall|u: int|
                        0 <= u < base.len() ==> #[trigger] base[u] < v.shape@[u]);
                    crate::interpolation::lemma_flat_bounds(base, v.shape@);
                }
                match crate::interpolation::flat_index(&idx, &var_meta.shape) {
                    Ok(fi) => {
                        values.push(var_data.values[fi]);
                    },
                    Err(_) => {
                        proof {
                            assert(false);
                        }
                    },
                }
                proof {
                    assert forall|r2: int, c2: int|
                        ((0 <= r2 < rr && 0 <= c2 < cols) || (r2 == rr && 0 <= c2 < cc))
                            implies #[trigger] (r2 * cols + c2) < rr * cols + cc by {
                        lemma_rowmajor_lt(r2, c2, rr as int, cc as int, cols as int);
                    }
                }
                cc += 1;
            }
            proof {
                assert((rr + 1) * cols == rr * cols + cols) by (nonlinear_arith);
            }
            rr += 1;
        }
        let g = Grid2 { rows, cols, values };
        proof {
            assert(lats@.len() <= MAX_AXIS);
            assert(lons@.len() <= MAX_AXIS);
            assert(g.rows <= MAX_AXIS);
            assert(g.cols <= MAX_AXIS);
            assert forall|r2: int, c2: int|
                0 <= r2 < g.rows && 0 <= c2 < g.cols implies 0 <= #[trigger] (r2 * g.cols
                + c2) < g.values@.len() by {
                crate::grid::lemma_cell_in_range(g.rows as int, g.cols as int, r2, c2);
            }
        }
        Ok(g)
    }

    /// Extract the 2-D latitude/longitude sub-grid of a variable at one
    /// time index: the other axes keep index 0; the time axis, when the
    /// variable has one, is contracted at `time_index`.
    /// Selection lists with equal names and indices select equally.
    pub proof fn lemma_sel_val_congruence(
        s1: Seq<(String, usize)>,
        s2: Seq<(String, usize)>,
        name: Seq<char>,
    )
        requires
            s1.len() == s2.len(),
            forall|q: int| 0 <= q < s1.len() ==> (#[trigger] s1[q]).0@ == s2[q].0@
                && s1[q].1 == s2[q].1,
        ensures
            spec_sel_val(s1, name) == spec_sel_val(s2, name),
    {
        assert(sel_names(s1) =~= sel_names(s2));
        lemma_key_index(sel_names(s1), name);
        let i = spec_key_index(sel_names(s1), name);
        if i >= 0 {
            assert(s1[i].1 == s2[i].1);
        }
    }

    /// The slice conditions do not depend on which list carries the
    /// selected indices.
    pub proof fn lemma_slice_ok_congruence(
        &self,
        var_name: Seq<char>,
        min_lon: i64,
        min_lat: i64,
        max_lon: i64,
        max_lat: i64,
        s1: Seq<(String, usize)>,
        s2: Seq<(String, usize)>,
    )
        requires
            s1.len() == s2.len(),
            forall|q: int| 0 <= q < s1.len() ==> (#[trigger] s1[q]).0@ == s2[q].0@
                && s1[q].1 == s2[q].1,
            self.slice_ok(var_name, min_lon, min_lat, max_lon, max_lat, s1),
        ensures
            self.slice_ok(var_name, min_lon, min_lat, max_lon, max_lat, s2),
    {
        let vi = self.var_idx(var_name);
        let v = self.metadata.variables@[vi];
        assert forall|k: int| 0 <= k < v.shape@.len() implies spec_sel_val(
            s1,
            (#[trigger] v.dimensions@[k])@,
        ) == spec_sel_val(s2, v.dimensions@[k]@) by {
            Self::lemma_sel_val_congruence(s1, s2, v.dimensions@[k]@);
        }
    }

    pub fn get_data_slice(
        &self,
        var_name: &str,
        time_index: usize,
        min_lon: i64,
        min_lat: i64,
        max_lon: i64,
        max_lat: i64,
    ) -> (r: Result<Grid2>)
        requires
            self.wf(),
        ensures
            match r {
                Ok(g) => g.wf() && exists|sel: Seq<(String, usize)>|
                    sel.len() == 1 && (#[trigger] sel[0]).0@ == "time"@ && sel[0].1
                        == time_index && self.slice_post(
                        var_name@,
                        min_lon,
                        min_lat,
                        max_lon,
                        max_lat,
                        sel,
                        g,
                    ),
                Err(e) => e is DataNotFound || e is IndexOutOfBounds,
            },
            r matches Err(RossbyError::IndexOutOfBounds { param, .. }) ==> param@
                == "bounding box"@ || param@ == "dimension index"@,
            (exists|s1: Seq<(String, usize)>|
                s1.len() == 1 && (#[trigger] s1[0]).0@ == "time"@ && s1[0].1 == time_index
                    && self.slice_ok(var_name@, min_lon, min_lat, max_lon, max_lat, s1))
                ==> r is Ok,
    {
        proof {
            reveal_strlit("time");
        }
        let mut sel: Vec<(String, usize)> = Vec::new();
        sel.push(("time".to_owned(), time_index));
        proof {
            if exists|s1: Seq<(String, usize)>|
                s1.len() == 1 && (#[trigger] s1[0]).0@ == "time"@ && s1[0].1 == time_index
                    && self.slice_ok(var_name@, min_lon, min_lat, max_lon, max_lat, s1) {
                let s1 = choose|s1: Seq<(String, usize)>|
                    s1.len() == 1 && (#[trigger] s1[0]).0@ == "time"@ && s1[0].1
                        == time_index && self.slice_ok(
                        var_name@,
                        min_lon,
                        min_lat,
                        max_lon,
                        max_lat,
                        s1,
                    );
                self.lemma_slice_ok_congruence(
                    var_name@,
                    min_lon,
                    min_lat,
                    max_lon,
                    max_lat,
                    s1,
                    sel@,
                );
            }
        }
        let r = self.get_data_slice_with_dims(
            var_name,
            min_lon,
            min_lat,
            max_lon,
            max_lat,
            &sel,
        );
        proof {
            if r is Ok {
                assert(sel@.len() == 1 && sel@[0].0@ == "time"@ && sel@[0].1 == time_index);
            }
        }
        r
    }
}

/// Row-major order: an earlier (row, column) pair has a smaller flat
/// position.
pub proof fn lemma_rowmajor_lt(r2: int, c2: int, rr: int, cc: int, cols: int)
    requires
        0 <= c2 < cols,
        0 <= cc,
        0 <= r2,
        (r2 < rr) || (r2 == rr && c2 < cc),
    ensures
        r2 * cols + c2 < rr * cols + cc,
{
    assert(r2 * cols + c2 < rr * cols + cc) by (nonlinear_arith)
        requires
            0 <= c2 < cols,
            0 <= cc,
            0 <= r2,
            (r2 < rr) || (r2 == rr && c2 < cc),
    ;
}

impl AppState {
    /// Check the dataset invariants that every query function relies on:
    /// each dimension is non-empty and of bounded length and carries a
    /// coordinate array of matching length; coordinate arrays and data
    /// arrays hold bounded values; and each variable's axes, shape and
    /// data array agree, with one stored value per index tuple.
    pub fn validate(&self) -> (r: Result<()>)
        ensures
            r is Ok <==> self.wf(),
            r is Err ==> r->Err_0 is DataNotFound,
    {
        proof {
            reveal_strlit("A dimension is empty or longer than the supported maximum");
            reveal_strlit("A dimension lacks a coordinate array of its length");
            reveal_strlit("A coordinate array is longer than the supported maximum");
            reveal_strlit("A coordinate value is out of the supported range");
            reveal_strlit("A variable's axes and shape do not agree");
            reveal_strlit("A variable's axis is not a dimension of its size");
            reveal_strlit("A variable lacks a data array of one value per cell");
            reveal_strlit("A data value is out of the supported range");
        }
        let nd = self.metadata.dimensions.len();
        let mut i: usize = 0;
        while i < nd
            invariant
                nd == self.metadata.dimensions@.len(),
                0 <= i <= nd,
                forall|j: int|
                    0 <= j < i ==> 1 <= #[trigger] self.metadata.dimensions@[j].size
                        <= MAX_AXIS,
                forall|j: int|
                    0 <= j < i ==> self.coord_idx(
                        #[trigger] self.metadata.dimensions@[j].name@,
                    ) >= 0 && self.metadata.coordinates@[self.coord_idx(
                        self.metadata.dimensions@[j].name@,
                    )].values@.len() == self.metadata.dimensions@[j].size,
            decreases nd - i,
        {
            let d = &self.metadata.dimensions[i];
            if d.size < 1 || d.size > MAX_AXIS {
                return Err(
                    RossbyError::DataNotFound {
                        message:
                            "A dimension is empty or longer than the supported maximum".to_owned(),
                    },
                );
            }
            match find_coordinate(&self.metadata.coordinates, d.name.as_str()) {
                Some(ci) => {
                    if self.metadata.coordinates[ci].values.len() != d.size {
                        return Err(
                            RossbyError::DataNotFound {
                                message:
                                    "A dimension lacks a coordinate array of its length".to_owned(),
                            },
                        );
                    }
                },
                None => {
                    return Err(
                        RossbyError::DataNotFound {
                            message:
                                "A dimension lacks a coordinate array of its length".to_owned(),
                        },
                    );
                },
            }
            i += 1;
        }
        let nc = self.metadata.coordinates.len();
        let mut i: usize = 0;
        while i < nc
            invariant
                nc == self.metadata.coordinates@.len(),
                0 <= i <= nc,
                forall|j: int|
                    0 <= j < i ==> #[trigger] self.metadata.coordinates@[j].values@.len()
                        <= MAX_AXIS,
                forall|j: int, t: int|
                    0 <= j < i && 0 <= t < self.metadata.coordinates@[j].values@.len()
                        ==> -FX_VAL_MAX <= #[trigger] self.metadata.coordinates@[j].values@[t]
                        <= FX_VAL_MAX,
            decreases nc - i,
        {
            let values = &self.metadata.coordinates[i].values;
            if values.len() > MAX_AXIS {
                return Err(
                    RossbyError::DataNotFound {
                        message:
                            "A coordinate array is longer than the supported maximum".to_owned(),
                    },
                );
            }
            let m = values.len();
            let mut t: usize = 0;
            while t < m
                invariant
                    m == values@.len(),
                    values@ == self.metadata.coordinates@[i as int].values@,
                    i < self.metadata.coordinates@.len(),
                    0 <= t <= m,
                    forall|u: int|
                        0 <= u < t ==> -FX_VAL_MAX <= #[trigger] values@[u] <= FX_VAL_MAX,
                decreases m - t,
            {
                let v = values[t];
                if v < -FX_VAL_MAX || v > FX_VAL_MAX {
                    return Err(
                        RossbyError::DataNotFound {
                            message:
                                "A coordinate value is out of the supported range".to_owned(),
                        },
                    );
                }
                t += 1;
            }
            i += 1;
        }
        let nv = self.metadata.variables.len();
        let mut i: usize = 0;
        while i < nv
            invariant
                nv == self.metadata.variables@.len(),
                0 <= i <= nv,
                forall|j: int|
                    0 <= j < self.metadata.dimensions@.len() ==> 1
                        <= #[trigger] self.metadata.dimensions@[j].size <= MAX_AXIS,
                forall|j: int|
                    0 <= j < i ==> self.wf_variable(#[trigger] self.metadata.variables@[j]),
            decreases nv - i,
        {
            let v = &self.metadata.variables[i];
            if v.dimensions.len() != v.shape.len() || v.shape.len() > MAX_DIMS {
                return Err(
                    RossbyError::DataNotFound {
                        message: "A variable's axes and shape do not agree".to_owned(),
                    },
                );
            }
            let na = v.dimensions.len();
            let mut k: usize = 0;
            while k < na
                invariant
                    na == v.dimensions@.len(),
                    na == v.shape@.len(),
                    v == self.metadata.variables@[i as int],
                    i < self.metadata.variables@.len(),
                    0 <= k <= na,
                    forall|u: int|
                        0 <= u < k ==> self.dim_idx(#[trigger] v.dimensions@[u]@) >= 0
                            && self.metadata.dimensions@[self.dim_idx(
                            v.dimensions@[u]@,
                        )].size == v.shape@[u],
                decreases na - k,
            {
                match find_dimension(&self.metadata.dimensions, v.dimensions[k].as_str()) {
                    Some(di) => {
                        if self.metadata.dimensions[di].size != v.shape[k] {
                            return Err(
                                RossbyError::DataNotFound {
                                    message:
                                        "A variable's axis is not a dimension of its size".to_owned(),
                                },
                            );
                        }
                    },
                    None => {
                        return Err(
                            RossbyError::DataNotFound {
                                message:
                                    "A variable's axis is not a dimension of its size".to_owned(),
                            },
                        );
                    },
                }
                k += 1;
            }
            let di = match find_data(&self.data, v.name.as_str()) {
                Some(di) => di,
                None => {
                    return Err(
                        RossbyError::DataNotFound {
                            message:
                                "A variable lacks a data array of one value per cell".to_owned(),
                        },
                    );
                },
            };
            let dlen = self.data[di].values.len();
            let mut prod: u128 = 1;
            let mut sat: bool = false;
            let mut k: usize = 0;
            proof {
                assert(v.shape@.subrange(0, 0) =~= Seq::<usize>::empty());
                assert forall|u: int| 0 <= u < na implies 1 <= #[trigger] v.shape@[u]
                    <= MAX_AXIS by {
                    lemma_key_index(dim_names(self.metadata.dimensions@), v.dimensions@[u]@);
                }
            }
            while k < na
                invariant
                    na == v.shape@.len(),
                    v == self.metadata.variables@[i as int],
                    i < self.metadata.variables@.len(),
                    forall|u: int| 0 <= u < na ==> 1 <= #[trigger] v.shape@[u] <= MAX_AXIS,
                    0 <= k <= na,
                    !sat ==> prod as int == spec_prod(v.shape@.subrange(0, k as int)),
                    !sat ==> prod <= 18446744073709551615u128,
                    sat ==> spec_prod(v.shape@.subrange(0, k as int))
                        > 18446744073709551615,
                    prod >= 1,
                decreases na - k,
            {
                let sz = v.shape[k];
                proof {
                    let pre1 = v.shape@.subrange(0, k as int + 1);
                    assert(pre1 =~= v.shape@.subrange(0, k as int).push(v.shape@[k as int]));
                    crate::data::lemma_prod_snoc(
                        v.shape@.subrange(0, k as int),
                        v.shape@[k as int],
                    );
                }
                if sat {
                    proof {
                        assert(spec_prod(v.shape@.subrange(0, k as int + 1))
                            >= spec_prod(v.shape@.subrange(0, k as int)))
                            by (nonlinear_arith)
                            requires
                                spec_prod(v.shape@.subrange(0, k as int + 1)) == spec_prod(
                                    v.shape@.subrange(0, k as int),
                                ) * (v.shape@[k as int] as int),
                                v.shape@[k as int] >= 1,
                                spec_prod(v.shape@.subrange(0, k as int)) >= 0,
                        ;
                    }
                } else {
                    proof {
                        assert(1 <= (prod as int) * (sz as int)
                            <= 340282366920938463463374607431768211455) by (nonlinear_arith)
                            requires
                                1 <= prod as int <= 18446744073709551615,
                                1 <= sz as int <= 1000000000,
                        ;
                    }
                    let next = prod * (sz as u128);
                    if next > 18446744073709551615u128 {
                        sat = true;
                    } else {
                        prod = next;
                    }
                }
                k += 1;
            }
            proof {
                assert(v.shape@.subrange(0, na as int) =~= v.shape@);
            }
            if sat || prod != dlen as u128 {
                return Err(
                    RossbyError::DataNotFound {
                        message:
                            "A variable lacks a data array of one value per cell".to_owned(),
                    },
                );
            }
            let vals = &self.data[di].values;
            let m = vals.len();
            let mut t: usize = 0;
            while t < m
                invariant
                    m == vals@.len(),
                    vals@ == self.data@[di as int].values@,
                    di < self.data@.len(),
                    *v == self.metadata.variables@[i as int],
                    i < self.metadata.variables@.len(),
                    di as int == spec_key_index(data_names(self.data@), v.name@),
                    0 <= t <= m,
                    forall|u: int|
                        0 <= u < t ==> -FX_VAL_MAX <= #[trigger] vals@[u] <= FX_VAL_MAX,
                decreases m - t,
            {
                let x = vals[t];
                if x < -FX_VAL_MAX || x > FX_VAL_MAX {
                    return Err(
                        RossbyError::DataNotFound {
                            message: "A data value is out of the supported range".to_owned(),
                        },
                    );
                }
                t += 1;
            }
            proof {
                assert(self.wf_variable(self.metadata.variables@[i as int]));
            }
            i += 1;
        }
        proof {
            assert(self.wf());
        }
        Ok(())
    }
}

/// The smallest and largest values of a non-empty sequence.
pub fn min_max_of(values: &Vec<i64>) -> (r: (i64, i64))
    requires
        values@.len() > 0,
    ensures
        values@.contains(r.0),
        values@.contains(r.1),
        forall|j: int| 0 <= j < values@.len() ==> r.0 <= #[trigger] values@[j],
        forall|j: int| 0 <= j < values@.len() ==> r.1 >= #[trigger] values@[j],
{
    let n = values.len();
    let mut lo = values[0];
    let mut hi = values[0];
    proof {
        assert(values@.contains(values@[0]));
    }
    let mut j: usize = 1;
    while j < n
        invariant
            n == values@.len(),
            0 < j <= n,
            values@.contains(lo),
            values@.contains(hi),
            forall|k: int| 0 <= k < j ==> lo <= #[trigger] values@[k],
            forall|k: int| 0 <= k < j ==> hi >= #[trigger] values@[k],
        decreases n - j,
    {
        let v = values[j];
        proof {
            assert(values@.contains(values@[j as int]));
        }
        if v < lo {
            lo = v;
        }
        if v > hi {
            hi = v;
        }
        j += 1;
    }
    (lo, hi)
}

} // verus!
