//! What can go wrong when a Zarr group is located and read, and how it is
//! worded.
use vstd::prelude::*;

use crate::decimal::decimal_text;
use crate::text::join_texts;

#[allow(unused_imports)]
use crate::text::{join, string_views};

verus! {

/// Every way in which locating or describing a Zarr group fails.
#[derive(Debug)]
pub enum ZarrError {
    /// A chunk anchor without `#`.
    MissingFragment { uri: String },
    /// A chunk anchor without an `array=` parameter.
    MissingArray { uri: String },
    /// A chunk anchor without a `chunk=` parameter.
    MissingChunk { uri: String },
    /// A chunk anchor whose `chunk=` parameter is empty.
    EmptyIndices { uri: String },
    /// A chunk anchor with an index that is no number.
    BadIndex { index: String, uri: String },
    /// A group URI whose scheme has no backend.
    UnsupportedScheme { scheme: String, uri: String },
    /// A group URI that is no URL.
    InvalidUri { uri: String, reason: String },
    /// A group URI without a host.
    MissingHost { uri: String },
    /// A credential option that is neither true nor false.
    NotABoolean { key: String, value: String },
    /// A group without arrays.
    NoChildArrays { group_uri: String },
    /// An array whose element type no band can hold.
    UnsupportedDataType { reason: String },
    /// An array that names none of its dimensions.
    MissingDimensionNames { path: String },
    /// An array that leaves one of its dimensions without a name.
    UnnamedDimension { path: String, dimension: usize },
    /// An array whose chunk shape cannot be told.
    UnknownChunkShape { path: String, reason: String },
    /// Two arrays of one group with different chunk grids.
    DifferentChunkGrids { first: String, other: String, first_grid: Vec<u64>, other_grid: Vec<u64> },
    /// Two arrays of one group with different chunk shapes.
    DifferentChunkShapes { first: String, other: String, first_shape: Vec<u64>, other_shape: Vec<u64> },
    /// Two arrays of one group with different dimension names.
    DifferentDimensionNames {
        first: String,
        other: String,
        first_names: Vec<String>,
        other_names: Vec<String>,
    },
    /// A declared spatial dimension that the arrays do not have.
    UnknownSpatialDimension { name: String, dim_names: Vec<String> },
    /// Too few dimensions to tell the spatial axes.
    TooFewDimensions { dim_names: Vec<String> },
    /// The last two dimensions are not `y` and `x`.
    NotYX { dim_names: Vec<String> },
}

/// A [`ZarrError`] with its texts as character sequences.
#[verifier::ext_equal]
pub ghost enum ZarrErrorView {
    MissingFragment { uri: Seq<char> },
    MissingArray { uri: Seq<char> },
    MissingChunk { uri: Seq<char> },
    EmptyIndices { uri: Seq<char> },
    BadIndex { index: Seq<char>, uri: Seq<char> },
    UnsupportedScheme { scheme: Seq<char>, uri: Seq<char> },
    InvalidUri { uri: Seq<char>, reason: Seq<char> },
    MissingHost { uri: Seq<char> },
    NotABoolean { key: Seq<char>, value: Seq<char> },
    NoChildArrays { group_uri: Seq<char> },
    UnsupportedDataType { reason: Seq<char> },
    MissingDimensionNames { path: Seq<char> },
    UnnamedDimension { path: Seq<char>, dimension: int },
    UnknownChunkShape { path: Seq<char>, reason: Seq<char> },
    DifferentChunkGrids {
        first: Seq<char>,
        other: Seq<char>,
        first_grid: Seq<u64>,
        other_grid: Seq<u64>,
    },
    DifferentChunkShapes {
        first: Seq<char>,
        other: Seq<char>,
        first_shape: Seq<u64>,
        other_shape: Seq<u64>,
    },
    DifferentDimensionNames {
        first: Seq<char>,
        other: Seq<char>,
        first_names: Seq<Seq<char>>,
        other_names: Seq<Seq<char>>,
    },
    UnknownSpatialDimension { name: Seq<char>, dim_names: Seq<Seq<char>> },
    TooFewDimensions { dim_names: Seq<Seq<char>> },
    NotYX { dim_names: Seq<Seq<char>> },
}

impl View for ZarrError {
    type V = ZarrErrorView;

    open spec fn view(&self) -> ZarrErrorView {
        match *self {
            ZarrError::MissingFragment { uri } => ZarrErrorView::MissingFragment { uri: uri@ },
            ZarrError::MissingArray { uri } => ZarrErrorView::MissingArray { uri: uri@ },
            ZarrError::MissingChunk { uri } => ZarrErrorView::MissingChunk { uri: uri@ },
            ZarrError::EmptyIndices { uri } => ZarrErrorView::EmptyIndices { uri: uri@ },
            ZarrError::BadIndex { index, uri } => ZarrErrorView::BadIndex {
                index: index@,
                uri: uri@,
            },
            ZarrError::UnsupportedScheme { scheme, uri } => ZarrErrorView::UnsupportedScheme {
                scheme: scheme@,
                uri: uri@,
            },
            ZarrError::InvalidUri { uri, reason } => ZarrErrorView::InvalidUri {
                uri: uri@,
                reason: reason@,
            },
            ZarrError::MissingHost { uri } => ZarrErrorView::MissingHost { uri: uri@ },
            ZarrError::NotABoolean { key, value } => ZarrErrorView::NotABoolean {
                key: key@,
                value: value@,
            },
            ZarrError::NoChildArrays { group_uri } => ZarrErrorView::NoChildArrays {
                group_uri: group_uri@,
            },
            ZarrError::UnsupportedDataType { reason } => ZarrErrorView::UnsupportedDataType {
                reason: reason@,
            },
            ZarrError::MissingDimensionNames { path } => ZarrErrorView::MissingDimensionNames {
                path: path@,
            },
            ZarrError::UnnamedDimension { path, dimension } => ZarrErrorView::UnnamedDimension {
                path: path@,
                dimension: dimension as int,
            },
            ZarrError::UnknownChunkShape { path, reason } => ZarrErrorView::UnknownChunkShape {
                path: path@,
                reason: reason@,
            },
            ZarrError::DifferentChunkGrids {
                first,
                other,
                first_grid,
                other_grid,
            } => ZarrErrorView::DifferentChunkGrids {
                first: first@,
                other: other@,
                first_grid: first_grid@,
                other_grid: other_grid@,
            },
            ZarrError::DifferentChunkShapes {
                first,
                other,
                first_shape,
                other_shape,
            } => ZarrErrorView::DifferentChunkShapes {
                first: first@,
                other: other@,
                first_shape: first_shape@,
                other_shape: other_shape@,
            },
            ZarrError::DifferentDimensionNames {
                first,
                other,
                first_names,
                other_names,
            } => ZarrErrorView::DifferentDimensionNames {
                first: first@,
                other: other@,
                first_names: string_views(first_names@),
                other_names: string_views(other_names@),
            },
            ZarrError::UnknownSpatialDimension { name, dim_names } =>
                ZarrErrorView::UnknownSpatialDimension {
                    name: name@,
                    dim_names: string_views(dim_names@),
                },
            ZarrError::TooFewDimensions { dim_names } => ZarrErrorView::TooFewDimensions {
                dim_names: string_views(dim_names@),
            },
            ZarrError::NotYX { dim_names } => ZarrErrorView::NotYX {
                dim_names: string_views(dim_names@),
            },
        }
    }
}

/// What `{:?}` prints for a string slice: the text in double quotes, escaped.
pub uninterp spec fn quoted(s: Seq<char>) -> Seq<char>;

/// Calls `format!("{:?}", s)` of std. The contract claims only that the
/// printed text depends on the characters of `s` alone; how std escapes them
/// is left unsaid.
#[verifier::external_body]
fn quote(s: &str) -> (r: String)
    ensures
        r@ == quoted(s@),
{
    format!("{:?}", s)
}

/// How a list of printed items is printed: `[a, b, c]`.
pub open spec fn bracketed(items: Seq<Seq<char>>) -> Seq<char> {
    "["@ + join(items, ", "@) + "]"@
}

/// A list of numbers, printed.
pub open spec fn numbers_text(v: Seq<u64>) -> Seq<char> {
    bracketed(v.map_values(|n: u64| crate::decimal::decimal(n as nat)))
}

/// A list of names, printed.
pub open spec fn names_text(v: Seq<Seq<char>>) -> Seq<char> {
    bracketed(v.map_values(|n: Seq<char>| quoted(n)))
}

impl ZarrErrorView {
    /// The wording of the error.
    pub open spec fn text(self) -> Seq<char> {
        match self {
            ZarrErrorView::MissingFragment { uri } =>
                "chunk anchor URI missing `#array=...&chunk=...` fragment: "@ + uri,
            ZarrErrorView::MissingArray { uri } =>
                "chunk anchor URI fragment missing `array=` parameter: "@ + uri,
            ZarrErrorView::MissingChunk { uri } =>
                "chunk anchor URI fragment missing `chunk=` parameter: "@ + uri,
            ZarrErrorView::EmptyIndices { uri } =>
                "chunk anchor URI has empty index list: "@ + uri,
            ZarrErrorView::BadIndex { index, uri } =>
                "chunk index `"@ + index + "` is not a non-negative integer in "@ + uri,
            ZarrErrorView::UnsupportedScheme { scheme, uri } =>
                "unsupported Zarr URI scheme "@ + quoted(scheme) + " in "@ + uri
                    + "; expected one of file/s3/gs/gcs/az/abfs/abfss/http/https or a bare path"@,
            ZarrErrorView::InvalidUri { uri, reason } =>
                "invalid Zarr URI "@ + quoted(uri) + ": "@ + reason,
            ZarrErrorView::MissingHost { uri } =>
                "Zarr URI "@ + quoted(uri) + " has no host component"@,
            ZarrErrorView::NotABoolean { key, value } =>
                "credential option "@ + quoted(key) + " must be a boolean (true/false); got "@
                    + quoted(value),
            ZarrErrorView::NoChildArrays { group_uri } =>
                "Zarr group at "@ + group_uri + " has no child arrays"@,
            ZarrErrorView::UnsupportedDataType { reason } => reason,
            ZarrErrorView::MissingDimensionNames { path } =>
                "array "@ + path
                    + ": dimension_names is absent; Phase 1 requires every Zarr array to declare dimension_names"@,
            ZarrErrorView::UnnamedDimension { path, dimension } =>
                "array "@ + path + ": dimension "@ + crate::decimal::decimal(dimension as nat)
                    + " has no name; Phase 1 requires every Zarr array dimension to be named"@,
            ZarrErrorView::UnknownChunkShape { path, reason } =>
                "array "@ + path + ": failed to query chunk shape: "@ + reason,
            ZarrErrorView::DifferentChunkGrids { first, other, first_grid, other_grid } =>
                "arrays "@ + first + " and "@ + other + " have different chunk grid shapes ("@
                    + numbers_text(first_grid) + " vs "@ + numbers_text(other_grid)
                    + "); Phase 1 requires a shared chunk grid across the group"@,
            ZarrErrorView::DifferentChunkShapes { first, other, first_shape, other_shape } =>
                "arrays "@ + first + " and "@ + other + " have different chunk shapes ("@
                    + numbers_text(first_shape) + " vs "@ + numbers_text(other_shape)
                    + "); Phase 1 requires a shared chunk shape across the group"@,
            ZarrErrorView::DifferentDimensionNames { first, other, first_names, other_names } =>
                "arrays "@ + first + " and "@ + other + " have different dimension names ("@
                    + names_text(first_names) + " vs "@ + names_text(other_names)
                    + "); Phase 1 requires identical dim_names across the group"@,
            ZarrErrorView::UnknownSpatialDimension { name, dim_names } =>
                "spatial:dims declared name "@ + quoted(name) + " not found in array dim_names "@
                    + names_text(dim_names),
            ZarrErrorView::TooFewDimensions { dim_names } =>
                "Phase 1 requires at least 2 dimensions to resolve spatial axes; got "@
                    + names_text(dim_names),
            ZarrErrorView::NotYX { dim_names } =>
                "Phase 1 expects the last two dim_names to be [\"y\", \"x\"] when `spatial:dims` is not declared; got "@
                    + names_text(dim_names),
        }
    }
}

fn print_list(items: &Vec<String>) -> (r: String)
    ensures
        r@ == bracketed(string_views(items@)),
{
    let mut r = "[".to_string();
    let inner = join_texts(items, ", ");
    r.append(inner.as_str());
    r.append("]");
    r
}

fn print_numbers(v: &Vec<u64>) -> (r: String)
    ensures
        r@ == numbers_text(v@),
{
    let mut items: Vec<String> = Vec::new();
    let mut i: usize = 0;
    while i < v.len()
        invariant
            i <= v.len(),
            string_views(items@) == v@.map_values(
                |n: u64| crate::decimal::decimal(n as nat),
            ).take(i as int),
        decreases v.len() - i,
    {
        let ghost done = string_views(items@);
        items.push(decimal_text(v[i]));
        assert(string_views(items@) =~= done.push(
            crate::decimal::decimal(v@[i as int] as nat),
        ));
        i += 1;
        assert(string_views(items@) =~= v@.map_values(
            |n: u64| crate::decimal::decimal(n as nat),
        ).take(i as int));
    }
    assert(string_views(items@) =~= v@.map_values(|n: u64| crate::decimal::decimal(n as nat)));
    print_list(&items)
}

fn print_names(v: &Vec<String>) -> (r: String)
    ensures
        r@ == names_text(string_views(v@)),
{
    let mut items: Vec<String> = Vec::new();
    let mut i: usize = 0;
    while i < v.len()
        invariant
            i <= v.len(),
            string_views(items@) == string_views(v@).map_values(
                |n: Seq<char>| quoted(n),
            ).take(i as int),
        decreases v.len() - i,
    {
        let ghost done = string_views(items@);
        items.push(quote(v[i].as_str()));
        assert(string_views(items@) =~= done.push(quoted(v@[i as int]@)));
        i += 1;
        assert(string_views(items@) =~= string_views(v@).map_values(
            |n: Seq<char>| quoted(n),
        ).take(i as int));
    }
    assert(string_views(items@) =~= string_views(v@).map_values(|n: Seq<char>| quoted(n)));
    print_list(&items)
}

impl ZarrError {
    /// The wording of the error.
    pub fn message(&self) -> (r: String)
        ensures
            r@ == self@.text(),
    {
        match self {
            ZarrError::MissingFragment { uri } =>
                "chunk anchor URI missing `#array=...&chunk=...` fragment: ".to_string().concat(
                    uri.as_str(),
                ),
            ZarrError::MissingArray { uri } =>
                "chunk anchor URI fragment missing `array=` parameter: ".to_string().concat(
                    uri.as_str(),
                ),
            ZarrError::MissingChunk { uri } =>
                "chunk anchor URI fragment missing `chunk=` parameter: ".to_string().concat(
                    uri.as_str(),
                ),
            ZarrError::EmptyIndices { uri } =>
                "chunk anchor URI has empty index list: ".to_string().concat(uri.as_str()),
            ZarrError::BadIndex { index, uri } =>
                "chunk index `".to_string().concat(index.as_str()).concat(
                    "` is not a non-negative integer in ",
                ).concat(uri.as_str()),
            ZarrError::UnsupportedScheme { scheme, uri } =>
                "unsupported Zarr URI scheme ".to_string().concat(
                    quote(scheme.as_str()).as_str(),
                ).concat(" in ").concat(uri.as_str()).concat(
                    "; expected one of file/s3/gs/gcs/az/abfs/abfss/http/https or a bare path",
                ),
            ZarrError::InvalidUri { uri, reason } =>
                "invalid Zarr URI ".to_string().concat(quote(uri.as_str()).as_str()).concat(
                    ": ",
                ).concat(reason.as_str()),
            ZarrError::MissingHost { uri } =>
                "Zarr URI ".to_string().concat(quote(uri.as_str()).as_str()).concat(
                    " has no host component",
                ),
            ZarrError::NotABoolean { key, value } =>
                "credential option ".to_string().concat(quote(key.as_str()).as_str()).concat(
                    " must be a boolean (true/false); got ",
                ).concat(quote(value.as_str()).as_str()),
            ZarrError::NoChildArrays { group_uri } =>
                "Zarr group at ".to_string().concat(group_uri.as_str()).concat(
                    " has no child arrays",
                ),
            ZarrError::UnsupportedDataType { reason } => reason.clone(),
            ZarrError::MissingDimensionNames { path } =>
                "array ".to_string().concat(path.as_str()).concat(
                    ": dimension_names is absent; Phase 1 requires every Zarr array to declare dimension_names",
                ),
            ZarrError::UnnamedDimension { path, dimension } =>
                "array ".to_string().concat(path.as_str()).concat(": dimension ").concat(
                    decimal_text(*dimension as u64).as_str(),
                ).concat(" has no name; Phase 1 requires every Zarr array dimension to be named"),
            ZarrError::UnknownChunkShape { path, reason } =>
                "array ".to_string().concat(path.as_str()).concat(
                    ": failed to query chunk shape: ",
                ).concat(reason.as_str()),
            ZarrError::DifferentChunkGrids { first, other, first_grid, other_grid } =>
                "arrays ".to_string().concat(first.as_str()).concat(" and ").concat(
                    other.as_str(),
                ).concat(" have different chunk grid shapes (").concat(
                    print_numbers(first_grid).as_str(),
                ).concat(" vs ").concat(print_numbers(other_grid).as_str()).concat(
                    "); Phase 1 requires a shared chunk grid across the group",
                ),
            ZarrError::DifferentChunkShapes { first, other, first_shape, other_shape } =>
                "arrays ".to_string().concat(first.as_str()).concat(" and ").concat(
                    other.as_str(),
                ).concat(" have different chunk shapes (").concat(
                    print_numbers(first_shape).as_str(),
                ).concat(" vs ").concat(print_numbers(other_shape).as_str()).concat(
                    "); Phase 1 requires a shared chunk shape across the group",
                ),
            ZarrError::DifferentDimensionNames { first, other, first_names, other_names } =>
                "arrays ".to_string().concat(first.as_str()).concat(" and ").concat(
                    other.as_str(),
                ).concat(" have different dimension names (").concat(
                    print_names(first_names).as_str(),
                ).concat(" vs ").concat(print_names(other_names).as_str()).concat(
                    "); Phase 1 requires identical dim_names across the group",
                ),
            ZarrError::UnknownSpatialDimension { name, dim_names } =>
                "spatial:dims declared name ".to_string().concat(
                    quote(name.as_str()).as_str(),
                ).concat(" not found in array dim_names ").concat(print_names(dim_names).as_str()),
            ZarrError::TooFewDimensions { dim_names } =>
                "Phase 1 requires at least 2 dimensions to resolve spatial axes; got ".to_string().concat(
                    print_names(dim_names).as_str(),
                ),
            ZarrError::NotYX { dim_names } =>
                "Phase 1 expects the last two dim_names to be [\"y\", \"x\"] when `spatial:dims` is not declared; got ".to_string().concat(
                    print_names(dim_names).as_str(),
                ),
        }
    }
}

} // verus!
