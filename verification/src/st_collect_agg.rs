//! `ST_Collect_Agg`: gathers the geometries of a group of rows into one
//! collection.
//!
//! Points become a multi point, line strings a multi line string, polygons a
//! multi polygon, and anything else a geometry collection. Partial results
//! travel between workers as four state columns and are merged.
use vstd::prelude::*;
use vstd::slice::slice_subrange;

use crate::decimal::decimal_text;
use crate::geometry_types::{
    Dimensions, GeometryTypeAndDimensions, GeometryTypeAndDimensionsSet, GeometryTypeId,
};
use crate::json::{read_list, write_list};
use crate::wkb::{parse_wkb, parsed_pair, write_collection_header, HeaderError, WKB_HEADER_SIZE};

#[allow(unused_imports)]
use crate::decimal::decimal;
#[allow(unused_imports)]
use crate::geometry_types::{
    all_pairs, dimensions_index, in_order, lemma_pair_name_is_plain, lemma_type_name_is_plain,
    name_of_type, named_pair, named_type, pair_name,
};
#[allow(unused_imports)]
use crate::json::{all_plain, json_list, list_text};
#[allow(unused_imports)]
use crate::text::string_views;
#[allow(unused_imports)]
use crate::wkb::{collection_header, pair_of, wkb_parts};

verus! {

/// Every way in which collecting fails.
#[derive(Debug)]
pub enum CollectError {
    /// The geometries differ in their dimensions.
    MixedDimensions,
    /// The collection has already been handed out.
    UnexpectedState,
    /// A serialized state without four columns.
    WrongFieldCount { got: usize },
    /// A state column of the wrong type.
    WrongFieldType { field: usize },
    /// A serialized state with a missing value.
    UnexpectedNulls,
    /// A value that is no geometry.
    InvalidGeometry { reason: String },
    /// A state column that is no list of names.
    InvalidList { reason: String },
    /// A name that is not that of a geometry type or of dimensions.
    UnknownName { name: String },
    /// Dimensions that cannot be told.
    UnknownDimensions { size: usize },
    /// More geometries than a collection can count.
    TooManyGeometries { count: usize },
}

/// A [`CollectError`] over mathematical sequences.
#[verifier::ext_equal]
pub ghost enum CollectErrorView {
    MixedDimensions,
    UnexpectedState,
    WrongFieldCount { got: int },
    WrongFieldType { field: int },
    UnexpectedNulls,
    InvalidGeometry { reason: Seq<char> },
    InvalidList { reason: Seq<char> },
    UnknownName { name: Seq<char> },
    UnknownDimensions { size: int },
    TooManyGeometries { count: int },
}

impl View for CollectError {
    type V = CollectErrorView;

    open spec fn view(&self) -> CollectErrorView {
        match self {
            CollectError::MixedDimensions => CollectErrorView::MixedDimensions,
            CollectError::UnexpectedState => CollectErrorView::UnexpectedState,
            CollectError::WrongFieldCount { got } => CollectErrorView::WrongFieldCount {
                got: *got as int,
            },
            CollectError::WrongFieldType { field } => CollectErrorView::WrongFieldType {
                field: *field as int,
            },
            CollectError::UnexpectedNulls => CollectErrorView::UnexpectedNulls,
            CollectError::InvalidGeometry { reason } => CollectErrorView::InvalidGeometry {
                reason: reason@,
            },
            CollectError::InvalidList { reason } => CollectErrorView::InvalidList {
                reason: reason@,
            },
            CollectError::UnknownName { name } => CollectErrorView::UnknownName { name: name@ },
            CollectError::UnknownDimensions { size } => CollectErrorView::UnknownDimensions {
                size: *size as int,
            },
            CollectError::TooManyGeometries { count } => CollectErrorView::TooManyGeometries {
                count: *count as int,
            },
        }
    }
}

impl CollectErrorView {
    /// The wording of the error.
    pub open spec fn text(self) -> Seq<char> {
        match self {
            CollectErrorView::MixedDimensions =>
                "Can't ST_Collect_Agg() mixed dimension geometries"@,
            CollectErrorView::UnexpectedState => "Unexpected internal state in ST_Collect_Agg()"@,
            CollectErrorView::WrongFieldCount { got } =>
                "Unexpected number of state fields for st_collect() (expected 4, got "@ + decimal(
                    got as nat,
                ) + ")"@,
            CollectErrorView::WrongFieldType { field } =>
                "unexpected type of st_collect() state field "@ + decimal(field as nat),
            CollectErrorView::UnexpectedNulls =>
                "unexpected nulls in st_collect() serialized state"@,
            CollectErrorView::InvalidGeometry { reason } => reason,
            CollectErrorView::InvalidList { reason } => reason,
            CollectErrorView::UnknownName { name } =>
                "unknown name in st_collect() serialized state: "@ + name,
            CollectErrorView::UnknownDimensions { size } =>
                "geometries with unknown dimensions cannot be collected: "@ + decimal(size as nat),
            CollectErrorView::TooManyGeometries { count } =>
                "too many geometries for one collection: "@ + decimal(count as nat),
        }
    }
}

impl CollectError {
    /// The wording of the error.
    pub fn message(&self) -> (r: String)
        ensures
            r@ == self@.text(),
    {
        match self {
            CollectError::MixedDimensions =>
                "Can't ST_Collect_Agg() mixed dimension geometries".to_string(),
            CollectError::UnexpectedState =>
                "Unexpected internal state in ST_Collect_Agg()".to_string(),
            CollectError::WrongFieldCount { got } =>
                "Unexpected number of state fields for st_collect() (expected 4, got ".to_string()
                .concat(decimal_text(*got as u64).as_str()).concat(")"),
            CollectError::WrongFieldType { field } =>
                "unexpected type of st_collect() state field ".to_string().concat(
                    decimal_text(*field as u64).as_str(),
                ),
            CollectError::UnexpectedNulls =>
                "unexpected nulls in st_collect() serialized state".to_string(),
            CollectError::InvalidGeometry { reason } => reason.clone(),
            CollectError::InvalidList { reason } => reason.clone(),
            CollectError::UnknownName { name } =>
                "unknown name in st_collect() serialized state: ".to_string().concat(
                    name.as_str(),
                ),
            CollectError::UnknownDimensions { size } =>
                "geometries with unknown dimensions cannot be collected: ".to_string().concat(
                    decimal_text(*size as u64).as_str(),
                ),
            CollectError::TooManyGeometries { count } =>
                "too many geometries for one collection: ".to_string().concat(
                    decimal_text(*count as u64).as_str(),
                ),
        }
    }
}

/// The geometries gathered so far.
#[derive(Debug)]
pub struct CollectionAccumulator {
    /// The combinations of geometry type and dimensions seen.
    pub type_and_dims: GeometryTypeAndDimensionsSet,
    /// How many geometries were seen.
    pub count: i64,
    /// Room for a header, and behind it the geometries one after the other.
    /// None once the collection has been handed out.
    pub item: Option<Vec<u8>>,
}

/// A [`CollectionAccumulator`] over mathematical values.
#[verifier::ext_equal]
pub ghost struct CollectionView {
    pub types: Set<GeometryTypeAndDimensions>,
    pub count: int,
    pub item: Option<Seq<u8>>,
}

/// Optional bytes as a sequence.
pub open spec fn bytes_view(item: Option<Vec<u8>>) -> Option<Seq<u8>> {
    match item {
        Some(bytes) => Some(bytes@),
        None => None,
    }
}

impl View for CollectionAccumulator {
    type V = CollectionView;

    open spec fn view(&self) -> CollectionView {
        CollectionView {
            types: self.type_and_dims@,
            count: self.count as int,
            item: bytes_view(self.item),
        }
    }
}

/// Whether all combinations have known dimensions.
pub open spec fn all_known(types: Set<GeometryTypeAndDimensions>) -> bool {
    forall|p: GeometryTypeAndDimensions| #[trigger]
        types.contains(p) ==> dimensions_index(p.dimensions) is Some
}

impl CollectionView {
    /// Whether there is room for a header before the geometries.
    pub open spec fn wf(self) -> bool {
        self.item is Some ==> self.item->0.len() >= WKB_HEADER_SIZE
    }

    /// Nothing seen yet.
    pub open spec fn fresh() -> CollectionView {
        CollectionView {
            types: Set::empty(),
            count: 0,
            item: Some(collection_header(GeometryTypeId::GeometryCollection, Dimensions::Xy, 0)),
        }
    }
}

/// A geometry: its type and dimensions, and its bytes.
#[verifier::ext_equal]
pub ghost struct GeometryView {
    pub pair: GeometryTypeAndDimensions,
    pub bytes: Seq<u8>,
}

/// One more geometry is seen.
pub open spec fn with_geometry(s: CollectionView, g: GeometryView) -> CollectionView {
    CollectionView {
        types: s.types.insert(g.pair),
        count: s.count + 1,
        item: match s.item {
            Some(item) => Some(item + g.bytes),
            None => None,
        },
    }
}

/// Geometries are seen one after the other.
pub open spec fn accumulate(s: CollectionView, items: Seq<GeometryView>) -> CollectionView
    decreases items.len(),
{
    if items.len() == 0 {
        s
    } else {
        with_geometry(accumulate(s, items.drop_last()), items.last())
    }
}

/// The values as byte sequences.
pub open spec fn value_views(values: Seq<Option<Vec<u8>>>) -> Seq<Option<Seq<u8>>> {
    values.map_values(|v: Option<Vec<u8>>| bytes_view(v))
}

/// The geometry at the front of a value, as it was parsed.
pub open spec fn geometry_in(value: Seq<u8>, kind: u8, dims: u8, size: nat) -> GeometryView {
    GeometryView { pair: pair_of(kind, dims), bytes: value.take(size as int) }
}

/// The geometries of the values up to the first that is none, without the
/// nulls; and what is wrong with that one.
pub open spec fn geometries_in(values: Seq<Option<Seq<u8>>>) -> (
    Seq<GeometryView>,
    Option<Seq<char>>,
)
    decreases values.len(),
{
    if values.len() == 0 {
        (Seq::empty(), None)
    } else {
        let (items, failure) = geometries_in(values.drop_last());
        match (failure, values.last()) {
            (Some(reason), _) => (items, Some(reason)),
            (None, None) => (items, None),
            (None, Some(value)) => match wkb_parts(value) {
                Ok((kind, dims, size)) => (
                    items.push(geometry_in(value, kind, dims, size)),
                    None,
                ),
                Err(reason) => (items, Some(reason)),
            },
        }
    }
}

/// What comes of taking in some rows: the geometries up to the first value
/// that is none, and the error for that one. Once the collection has been
/// handed out, nothing is taken in.
pub open spec fn update_values(s: CollectionView, values: Seq<Option<Seq<u8>>>) -> (
    CollectionView,
    Option<CollectErrorView>,
) {
    match s.item {
        None => (s, Some(CollectErrorView::UnexpectedState)),
        Some(_) => (
            accumulate(s, geometries_in(values).0),
            match geometries_in(values).1 {
                Some(reason) => Some(CollectErrorView::InvalidGeometry { reason }),
                None => None,
            },
        ),
    }
}

/// The error in a result, if there is one.
pub open spec fn failure_of(r: Result<(), CollectError>) -> Option<CollectErrorView> {
    match r {
        Ok(()) => None,
        Err(e) => Some(e@),
    }
}

/// The elements of a sequence, each where it first occurs.
pub open spec fn first_occurrences<T>(s: Seq<T>) -> Seq<T>
    decreases s.len(),
{
    if s.len() == 0 {
        s
    } else {
        let before = first_occurrences(s.drop_last());
        if before.contains(s.last()) {
            before
        } else {
            before.push(s.last())
        }
    }
}

/// The geometry types of some combinations, one after the other.
pub open spec fn types_of(pairs: Seq<GeometryTypeAndDimensions>) -> Seq<GeometryTypeId> {
    pairs.map_values(|p: GeometryTypeAndDimensions| p.geometry_type)
}

/// The dimensions of some combinations, one after the other.
pub open spec fn dimensions_of(pairs: Seq<GeometryTypeAndDimensions>) -> Seq<Dimensions> {
    pairs.map_values(|p: GeometryTypeAndDimensions| p.dimensions)
}

/// The distinct geometry types of a set of combinations.
pub open spec fn distinct_types(types: Set<GeometryTypeAndDimensions>) -> Seq<GeometryTypeId> {
    first_occurrences(types_of(in_order(types)))
}

/// The distinct dimensions of a set of combinations.
pub open spec fn distinct_dimensions(types: Set<GeometryTypeAndDimensions>) -> Seq<Dimensions> {
    first_occurrences(dimensions_of(in_order(types)))
}

/// The type of the collection that holds geometries of these types.
pub open spec fn collection_type(types: Seq<GeometryTypeId>) -> GeometryTypeId {
    if types.len() == 1 && types[0] == GeometryTypeId::Point {
        GeometryTypeId::MultiPoint
    } else if types.len() == 1 && types[0] == GeometryTypeId::LineString {
        GeometryTypeId::MultiLineString
    } else if types.len() == 1 && types[0] == GeometryTypeId::Polygon {
        GeometryTypeId::MultiPolygon
    } else {
        GeometryTypeId::GeometryCollection
    }
}

/// The collection of what was seen, or why there is none. Without geometries
/// the result is null.
pub open spec fn result_of(s: CollectionView) -> Result<Option<Seq<u8>>, CollectErrorView> {
    if s.count == 0 {
        Ok(None)
    } else if distinct_dimensions(s.types).len() != 1 {
        Err(CollectErrorView::MixedDimensions)
    } else if s.count > u32::MAX {
        Err(CollectErrorView::TooManyGeometries { count: s.count })
    } else {
        match s.item {
            None => Err(CollectErrorView::UnexpectedState),
            Some(item) => Ok(
                Some(
                    collection_header(
                        collection_type(distinct_types(s.types)),
                        distinct_dimensions(s.types)[0],
                        s.count,
                    ) + item.skip(WKB_HEADER_SIZE as int),
                ),
            ),
        }
    }
}

/// What is left when the collection has been handed out.
pub open spec fn after_result(s: CollectionView) -> CollectionView {
    match result_of(s) {
        Ok(Some(_)) => CollectionView { item: None, ..s },
        _ => s,
    }
}

/// A serialized partial result over mathematical values.
#[verifier::ext_equal]
pub ghost struct StateView {
    /// The names of the distinct geometry types.
    pub geometry_types: Seq<Seq<char>>,
    /// The names of the distinct dimensions, each behind `Geometry`.
    pub dimensions: Seq<Seq<char>>,
    pub count: int,
    pub item: Option<Seq<u8>>,
}

/// The names of geometry types.
pub open spec fn type_names(types: Seq<GeometryTypeId>) -> Seq<Seq<char>> {
    types.map_values(|t: GeometryTypeId| name_of_type(t))
}

/// The name of dimensions, behind `Geometry`.
pub open spec fn dimension_name(dimensions: Dimensions) -> Seq<char> {
    pair_name(
        GeometryTypeAndDimensions { geometry_type: GeometryTypeId::Geometry, dimensions },
    )
}

/// The names of dimensions, each behind `Geometry`.
pub open spec fn dimension_names(dimensions: Seq<Dimensions>) -> Seq<Seq<char>> {
    dimensions.map_values(|d: Dimensions| dimension_name(d))
}

/// The partial result that stands for what was seen.
pub open spec fn state_of(s: CollectionView) -> StateView {
    StateView {
        geometry_types: type_names(distinct_types(s.types)),
        dimensions: dimension_names(distinct_dimensions(s.types)),
        count: s.count,
        item: s.item,
    }
}

/// The fields of a serialized partial result.
#[derive(Debug)]
pub struct CollectionState {
    pub geometry_types: String,
    pub dimensions: String,
    pub count: i64,
    pub item: Option<Vec<u8>>,
}

/// What a field of a serialized partial result holds.
#[derive(Debug, Clone, Copy, PartialEq, Eq, Structural)]
pub enum FieldKind {
    Text,
    Int64,
    /// A geometry in well-known binary.
    Geometry,
}

/// A field of a serialized partial result.
#[derive(Debug, Clone, Copy)]
pub struct StateField {
    pub name: &'static str,
    pub kind: FieldKind,
    pub nullable: bool,
}

/// The fields of a serialized partial result, in the order of the columns.
pub fn state_fields() -> (r: [StateField; 4])
    ensures
        r@[0].name@ == "unique_geometry_types"@ && r@[0].kind == FieldKind::Text,
        r@[1].name@ == "unique_dimensions"@ && r@[1].kind == FieldKind::Text,
        r@[2].name@ == "count"@ && r@[2].kind == FieldKind::Int64,
        r@[3].name@ == "item"@ && r@[3].kind == FieldKind::Geometry,
        forall|i: int| 0 <= i < 4 ==> (#[trigger] r@[i]).nullable == (i == 3),
{
    [
        StateField { name: "unique_geometry_types", kind: FieldKind::Text, nullable: false },
        StateField { name: "unique_dimensions", kind: FieldKind::Text, nullable: false },
        StateField { name: "count", kind: FieldKind::Int64, nullable: false },
        StateField { name: "item", kind: FieldKind::Geometry, nullable: true },
    ]
}

/// Whether a geometry type occurs in a list.
fn has_type(types: &Vec<GeometryTypeId>, t: GeometryTypeId) -> (r: bool)
    ensures
        r == types@.contains(t),
{
    let mut i: usize = 0;
    while i < types.len()
        invariant
            i <= types.len(),
            forall|j: int| 0 <= j < i ==> types@[j] != t,
        decreases types.len() - i,
    {
        if types[i] == t {
            return true;
        }
        i += 1;
    }
    false
}

/// Whether the dimensions occur in a list.
fn has_dimensions(dimensions: &Vec<Dimensions>, d: Dimensions) -> (r: bool)
    ensures
        r == dimensions@.contains(d),
{
    let mut i: usize = 0;
    while i < dimensions.len()
        invariant
            i <= dimensions.len(),
            forall|j: int| 0 <= j < i ==> dimensions@[j] != d,
        decreases dimensions.len() - i,
    {
        if dimensions[i] == d {
            return true;
        }
        i += 1;
    }
    false
}

/// The error for a header that cannot be written.
fn header_failure(e: HeaderError) -> (r: CollectError)
    ensures
        r@ == match e {
            HeaderError::UnknownDimensions(size) => CollectErrorView::UnknownDimensions {
                size: size as int,
            },
            HeaderError::TooManyParts(count) => CollectErrorView::TooManyGeometries {
                count: count as int,
            },
        },
{
    match e {
        HeaderError::UnknownDimensions(size) => CollectError::UnknownDimensions { size },
        HeaderError::TooManyParts(count) => CollectError::TooManyGeometries { count },
    }
}

/// What stands in order is in the set, and has known dimensions.
pub proof fn lemma_in_order_members(types: Set<GeometryTypeAndDimensions>, i: int)
    requires
        0 <= i < in_order(types).len(),
    ensures
        types.contains(in_order(types)[i]),
        dimensions_index(in_order(types)[i].dimensions) is Some,
{
    let member = |p: GeometryTypeAndDimensions| types.contains(p);
    broadcast use vstd::seq_lib::group_filter_ensures;

    let p = in_order(types)[i];
    assert(member(p));
    assert(all_pairs().filter(member).contains(p));
    all_pairs().lemma_filter_contains_rev(member, p);
}

/// The first occurrences hold every element once.
pub proof fn lemma_first_occurrences<T>(s: Seq<T>)
    ensures
        first_occurrences(s).no_duplicates(),
        forall|x: T| first_occurrences(s).contains(x) <==> s.contains(x),
        s.len() > 0 ==> first_occurrences(s).len() > 0,
    decreases s.len(),
{
    if s.len() > 0 {
        let head = s.drop_last();
        let before = first_occurrences(head);
        let all = first_occurrences(s);
        lemma_first_occurrences(head);
        assert forall|x: T| all.contains(x) <==> s.contains(x) by {
            if s.contains(x) {
                let i = choose|i: int| 0 <= i < s.len() && s[i] == x;
                if i < head.len() {
                    assert(head[i] == x);
                    assert(head.contains(x));
                    let j = choose|j: int| 0 <= j < before.len() && before[j] == x;
                    assert(all[j] == x);
                } else if !before.contains(x) {
                    assert(all[before.len() as int] == x);
                }
            }
            if all.contains(x) {
                let j = choose|j: int| 0 <= j < all.len() && all[j] == x;
                if j < before.len() {
                    assert(before[j] == x);
                    assert(head.contains(x));
                    let i = choose|i: int| 0 <= i < head.len() && head[i] == x;
                    assert(s[i] == x);
                } else {
                    assert(s[s.len() - 1] == x);
                }
            }
        }
        assert(s.contains(s.last()));
        if all.len() == 0 {
            assert(!all.contains(s.last()));
        }
    }
}

impl CollectionAccumulator {
    /// Nothing seen yet, with room for a header in front.
    pub fn try_new() -> (r: Result<Self, CollectError>)
        ensures
            r is Ok,
            r->Ok_0@ == CollectionView::fresh(),
    {
        let mut item: Vec<u8> = Vec::new();
        match write_collection_header(
            &mut item,
            GeometryTypeId::GeometryCollection,
            Dimensions::Xy,
            0,
        ) {
            Ok(()) => {},
            Err(e) => return Err(header_failure(e)),
        }
        let acc = CollectionAccumulator {
            type_and_dims: GeometryTypeAndDimensionsSet::new(),
            count: 0,
            item: Some(item),
        };
        assert(acc@.item->0 =~= CollectionView::fresh().item->0);
        Ok(acc)
    }

    /// The distinct geometry types seen.
    pub fn unique_geometry_types(&self) -> (r: Vec<GeometryTypeId>)
        ensures
            r@ == distinct_types(self@.types),
    {
        let pairs = self.type_and_dims.iter();
        let mut out: Vec<GeometryTypeId> = Vec::new();
        let mut i: usize = 0;
        assert(types_of(pairs@).take(0) =~= Seq::empty());
        while i < pairs.len()
            invariant
                i <= pairs.len(),
                out@ == first_occurrences(types_of(pairs@).take(i as int)),
            decreases pairs.len() - i,
        {
            proof {
                let upto = types_of(pairs@).take(i + 1);
                assert(upto.drop_last() =~= types_of(pairs@).take(i as int));
                assert(upto.last() == pairs@[i as int].geometry_type);
            }
            if !has_type(&out, pairs[i].geometry_type) {
                out.push(pairs[i].geometry_type);
            }
            i += 1;
        }
        assert(types_of(pairs@).take(i as int) =~= types_of(pairs@));
        out
    }

    /// The distinct dimensions seen.
    pub fn unique_dimensions(&self) -> (r: Vec<Dimensions>)
        ensures
            r@ == distinct_dimensions(self@.types),
    {
        let pairs = self.type_and_dims.iter();
        let mut out: Vec<Dimensions> = Vec::new();
        let mut i: usize = 0;
        assert(dimensions_of(pairs@).take(0) =~= Seq::empty());
        while i < pairs.len()
            invariant
                i <= pairs.len(),
                out@ == first_occurrences(dimensions_of(pairs@).take(i as int)),
            decreases pairs.len() - i,
        {
            proof {
                let upto = dimensions_of(pairs@).take(i + 1);
                assert(upto.drop_last() =~= dimensions_of(pairs@).take(i as int));
                assert(upto.last() == pairs@[i as int].dimensions);
            }
            if !has_dimensions(&out, pairs[i].dimensions) {
                out.push(pairs[i].dimensions);
            }
            i += 1;
        }
        assert(dimensions_of(pairs@).take(i as int) =~= dimensions_of(pairs@));
        out
    }

    /// The collection of what was seen. It is handed out once.
    pub fn make_wkb_result(&mut self) -> (r: Result<Option<Vec<u8>>, CollectError>)
        requires
            old(self)@.wf(),
            0 <= old(self).count <= usize::MAX,
        ensures
            match result_of(old(self)@) {
                Ok(bytes) => r is Ok && bytes_view(r->Ok_0) == bytes,
                Err(e) => r is Err && r->Err_0@ == e,
            },
            final(self)@ == after_result(old(self)@),
    {
        if self.count == 0 {
            return Ok(None);
        }
        let count = self.count as usize;
        let dimensions = self.unique_dimensions();
        if dimensions.len() != 1 {
            return Err(CollectError::MixedDimensions);
        }
        proof {
            lemma_first_occurrences(dimensions_of(in_order(self@.types)));
            let d = dimensions@[0];
            assert(dimensions@.contains(d));
            let seen = dimensions_of(in_order(self@.types));
            assert(seen.contains(d));
            let i = choose|i: int| 0 <= i < seen.len() && seen[i] == d;
            lemma_in_order_members(self@.types, i);
            assert(dimensions_index(d) is Some);
        }
        let types = self.unique_geometry_types();
        let collection = if types.len() == 1 {
            match types[0] {
                GeometryTypeId::Point => GeometryTypeId::MultiPoint,
                GeometryTypeId::LineString => GeometryTypeId::MultiLineString,
                GeometryTypeId::Polygon => GeometryTypeId::MultiPolygon,
                _ => GeometryTypeId::GeometryCollection,
            }
        } else {
            GeometryTypeId::GeometryCollection
        };
        let mut out: Vec<u8> = Vec::new();
        match write_collection_header(&mut out, collection, dimensions[0], count) {
            Ok(()) => {},
            Err(e) => return Err(header_failure(e)),
        }
        match self.item.take() {
            Some(item) => {
                append_from(&mut out, item.as_slice(), WKB_HEADER_SIZE);
                assert(out@ =~= result_of(old(self)@)->Ok_0->0);
                Ok(Some(out))
            },
            None => Err(CollectError::UnexpectedState),
        }
    }
}

/// Appends the bytes from a place on.
fn append_from(out: &mut Vec<u8>, bytes: &[u8], start: usize)
    requires
        start <= bytes@.len(),
    ensures
        final(out)@ == old(out)@ + bytes@.skip(start as int),
{
    out.extend_from_slice(slice_subrange(bytes, start, bytes.len()));
    assert(out@ =~= old(out)@ + bytes@.skip(start as int));
}

proof fn lemma_geometry_count(values: Seq<Option<Seq<u8>>>, k: int)
    requires
        0 <= k <= values.len(),
    ensures
        geometries_in(values.take(k)).0.len() <= geometries_in(values).0.len() <= values.len(),
    decreases values.len() - k, values.len(),
{
    if k < values.len() {
        assert(values.take(k + 1).drop_last() =~= values.take(k));
        lemma_geometry_count(values, k + 1);
    } else {
        assert(values.take(k) =~= values);
        if values.len() > 0 {
            let head = values.drop_last();
            assert(head.take(head.len() as int) =~= head);
            lemma_geometry_count(head, head.len() as int);
        }
    }
}

proof fn lemma_first_failure(values: Seq<Option<Seq<u8>>>, k: int)
    requires
        0 <= k <= values.len(),
        geometries_in(values.take(k)).1 is Some,
    ensures
        geometries_in(values) == geometries_in(values.take(k)),
    decreases values.len() - k,
{
    if k < values.len() {
        assert(values.take(k + 1).drop_last() =~= values.take(k));
        lemma_first_failure(values, k + 1);
    } else {
        assert(values.take(k) =~= values);
    }
}

impl CollectionAccumulator {
    /// Takes in a geometry as it was parsed from the front of a value.
    pub fn add_parsed(
        &mut self,
        value: &[u8],
        parsed: Result<(u8, u8, usize), String>,
    ) -> (r: Result<(), CollectError>)
        requires
            old(self)@.item is Some ==> (parsed matches Ok((kind, dims, size)) ==> {
                &&& old(self).count < i64::MAX
                &&& kind <= 6
                &&& dims <= 3
                &&& size <= value@.len()
            }),
        ensures
            match (old(self)@.item, parsed) {
                (None, _) => {
                    &&& r is Err
                    &&& r->Err_0@ == CollectErrorView::UnexpectedState
                    &&& final(self)@ == old(self)@
                },
                (Some(_), Err(e)) => {
                    &&& r is Err
                    &&& r->Err_0@ == CollectErrorView::InvalidGeometry { reason: e@ }
                    &&& final(self)@ == old(self)@
                },
                (Some(_), Ok((kind, dims, size))) => {
                    &&& r is Ok
                    &&& final(self)@ == with_geometry(
                        old(self)@,
                        geometry_in(value@, kind, dims, size as nat),
                    )
                },
            },
    {
        if self.item.is_none() {
            return Err(CollectError::UnexpectedState);
        }
        let (kind, dims, size) = match parsed {
            Ok(parts) => parts,
            Err(reason) => return Err(CollectError::InvalidGeometry { reason }),
        };
        let pair = parsed_pair(kind, dims);
        match self.type_and_dims.insert(&pair) {
            Ok(()) => {},
            Err(e) => return Err(CollectError::UnknownDimensions { size: e.size }),
        }
        self.count += 1;
        match self.item.take() {
            Some(mut item) => {
                append_from(&mut item, slice_subrange(value, 0, size), 0);
                self.item = Some(item);
            },
            None => {},
        }
        proof {
            let bytes = value@.take(size as int);
            assert(value@.subrange(0, size as int).skip(0) =~= bytes);
        }
        Ok(())
    }

    /// Takes in the geometries of some rows. Nulls are skipped. The first value
    /// that is no geometry ends the batch with an error; those before it have
    /// been taken in.
    pub fn update_batch(&mut self, values: &[Option<Vec<u8>>]) -> (r: Result<(), CollectError>)
        requires
            old(self)@.item is Some ==> old(self).count + geometries_in(
                value_views(values@),
            ).0.len() <= i64::MAX,
        ensures
            final(self)@ == update_values(old(self)@, value_views(values@)).0,
            failure_of(r) == update_values(old(self)@, value_views(values@)).1,
    {
        if self.item.is_none() {
            return Err(CollectError::UnexpectedState);
        }
        let ghost views = value_views(values@);
        let mut i: usize = 0;
        assert(views.take(0) =~= Seq::empty());
        while i < values.len()
            invariant
                i <= values@.len(),
                views == value_views(values@),
                old(self)@.item is Some,
                self@.item is Some,
                self.count == old(self).count + geometries_in(views.take(i as int)).0.len(),
                old(self).count + geometries_in(views).0.len() <= i64::MAX,
                geometries_in(views.take(i as int)).1 is None,
                self@ == accumulate(old(self)@, geometries_in(views.take(i as int)).0),
            decreases values@.len() - i,
        {
            let ghost upto = views.take(i + 1);
            proof {
                assert(upto.drop_last() =~= views.take(i as int));
                assert(upto.last() == bytes_view(values@[i as int]));
                lemma_geometry_count(views, i + 1);
            }
            match &values[i] {
                Some(value) => {
                    let ghost items = geometries_in(views.take(i as int)).0;
                    let parsed = parse_wkb(value.as_slice());
                    let ghost parts = wkb_parts(value@);
                    match self.add_parsed(value.as_slice(), parsed) {
                        Ok(()) => {
                            proof {
                                let (kind, dims, size) = parts->Ok_0;
                                let item = geometry_in(value@, kind, dims, size);
                                assert(geometries_in(upto).0 == items.push(item));
                                assert(items.push(item).drop_last() =~= items);
                            }
                        },
                        Err(e) => {
                            proof {
                                lemma_first_failure(views, i + 1);
                            }
                            return Err(e);
                        },
                    }
                },
                None => {},
            }
            i += 1;
        }
        assert(views.take(i as int) =~= views);
        Ok(())
    }

    /// Takes in the geometries of some rows, unless there are more of them than
    /// can be counted: then nothing is taken in and the result is None.
    pub fn try_update_batch(&mut self, values: &[Option<Vec<u8>>]) -> (r: Option<
        Result<(), CollectError>,
    >)
        ensures
            match r {
                Some(result) => {
                    &&& final(self)@ == update_values(old(self)@, value_views(values@)).0
                    &&& failure_of(result) == update_values(old(self)@, value_views(values@)).1
                },
                None => {
                    &&& final(self)@ == old(self)@
                    &&& old(self)@.item is Some
                    &&& old(self).count + geometries_in(value_views(values@)).0.len() > i64::MAX
                },
            },
    {
        proof {
            lemma_geometry_count(value_views(values@), 0);
        }
        if self.item.is_some() && self.count as i128 + values.len() as i128 > i64::MAX as i128
            && self.count as i128 + count_geometries(values) as i128 > i64::MAX as i128 {
            return None;
        }
        Some(self.update_batch(values))
    }

    /// The collection of what was seen. It is handed out once.
    pub fn evaluate(&mut self) -> (r: Result<Option<Vec<u8>>, CollectError>)
        requires
            old(self)@.wf(),
            0 <= old(self).count <= usize::MAX,
        ensures
            match result_of(old(self)@) {
                Ok(bytes) => r is Ok && bytes_view(r->Ok_0) == bytes,
                Err(e) => r is Err && r->Err_0@ == e,
            },
            final(self)@ == after_result(old(self)@),
    {
        self.make_wkb_result()
    }

    /// The partial result as the fields that travel to another worker. The
    /// geometries are handed out with it.
    pub fn state(&mut self) -> (r: Result<CollectionState, CollectError>)
        ensures
            r is Ok,
            r->Ok_0.geometry_types@ == list_text(state_of(old(self)@).geometry_types),
            r->Ok_0.dimensions@ == list_text(state_of(old(self)@).dimensions),
            r->Ok_0.count == state_of(old(self)@).count,
            bytes_view(r->Ok_0.item) == state_of(old(self)@).item,
            final(self)@ == (CollectionView { item: None, ..old(self)@ }),
    {
        let types = self.unique_geometry_types();
        let mut type_list: Vec<String> = Vec::new();
        let mut i: usize = 0;
        while i < types.len()
            invariant
                i <= types.len(),
                type_list.len() == i,
                forall|j: int|
                    0 <= j < i ==> (#[trigger] type_list@[j])@ == name_of_type(types@[j]),
            decreases types.len() - i,
        {
            type_list.push(types[i].name().to_string());
            i += 1;
        }
        let dimensions = self.unique_dimensions();
        proof {
            lemma_dimensions_known(self@.types);
            assert(string_views(type_list@) =~= type_names(types@));
            assert forall|j: int| 0 <= j < type_list.len() implies crate::geometry_types::plain(
                #[trigger] string_views(type_list@)[j],
            ) by {
                lemma_type_name_is_plain(types@[j]);
            }
        }
        let mut dimension_list: Vec<String> = Vec::new();
        let mut i: usize = 0;
        while i < dimensions.len()
            invariant
                i <= dimensions.len(),
                dimension_list.len() == i,
                forall|j: int|
                    0 <= j < dimensions.len() ==> dimensions_index(#[trigger] dimensions@[j]) is Some,
                forall|j: int|
                    0 <= j < i ==> (#[trigger] dimension_list@[j])@ == dimension_name(
                        dimensions@[j],
                    ),
            decreases dimensions.len() - i,
        {
            let pair = GeometryTypeAndDimensions::new(GeometryTypeId::Geometry, dimensions[i]);
            dimension_list.push(pair.name());
            i += 1;
        }
        proof {
            assert(string_views(dimension_list@) =~= dimension_names(dimensions@));
            assert forall|j: int|
                0 <= j < dimension_list.len() implies crate::geometry_types::plain(
                #[trigger] string_views(dimension_list@)[j],
            ) by {
                lemma_pair_name_is_plain(
                    GeometryTypeAndDimensions {
                        geometry_type: GeometryTypeId::Geometry,
                        dimensions: dimensions@[j],
                    },
                );
            }
        }
        let geometry_types = match write_list(&type_list) {
            Ok(text) => text,
            Err(reason) => return Err(CollectError::InvalidList { reason }),
        };
        let dimensions = match write_list(&dimension_list) {
            Ok(text) => text,
            Err(reason) => return Err(CollectError::InvalidList { reason }),
        };
        let item = self.item.take();
        Ok(CollectionState { geometry_types, dimensions, count: self.count, item })
    }

    /// How many bytes the accumulator takes: its own, and those set aside for
    /// the geometries.
    pub fn size(&self) -> (r: usize)
        ensures
            r >= vstd::layout::size_of::<CollectionAccumulator>() + match self@.item {
                Some(item) => item.len(),
                None => 0,
            },
            r <= vstd::layout::size_of::<CollectionAccumulator>() + isize::MAX,
            self@.item is None ==> r == vstd::layout::size_of::<CollectionAccumulator>(),
    {
        match &self.item {
            Some(item) => size_with(capacity_of(item)),
            None => size_with(0),
        }
    }
}

/// How many geometries the values hold up to the first that is none.
fn count_geometries(values: &[Option<Vec<u8>>]) -> (r: usize)
    ensures
        r == geometries_in(value_views(values@)).0.len(),
{
    let ghost views = value_views(values@);
    let mut count: usize = 0;
    let mut i: usize = 0;
    assert(views.take(0) =~= Seq::empty());
    while i < values.len()
        invariant
            i <= values@.len(),
            count <= i,
            views == value_views(values@),
            geometries_in(views.take(i as int)).1 is None,
            count == geometries_in(views.take(i as int)).0.len(),
        decreases values@.len() - i,
    {
        proof {
            assert(views.take(i + 1).drop_last() =~= views.take(i as int));
            assert(views.take(i + 1).last() == bytes_view(values@[i as int]));
        }
        match &values[i] {
            Some(value) => match parse_wkb(value.as_slice()) {
                Ok(_) => {
                    count += 1;
                },
                Err(_) => {
                    proof {
                        lemma_first_failure(views, i + 1);
                    }
                    return count;
                },
            },
            None => {},
        }
        i += 1;
    }
    assert(views.take(i as int) =~= views);
    count
}

/// How many bytes an accumulator takes that has set aside so many for the
/// geometries.
pub fn size_with(item_capacity: usize) -> (r: usize)
    requires
        item_capacity <= isize::MAX,
    ensures
        r == vstd::layout::size_of::<CollectionAccumulator>() + item_capacity,
{
    vstd::layout::layout_for_type_is_valid::<CollectionAccumulator>();
    core::mem::size_of::<CollectionAccumulator>() + item_capacity
}

/// Calls `Vec::capacity` of std. The contract claims that a vector of bytes
/// has room for what it holds, and for no more than `isize::MAX` bytes. How
/// much is set aside beyond that is up to the allocator.
#[verifier::external_body]
fn capacity_of(v: &Vec<u8>) -> (r: usize)
    ensures
        v@.len() <= r <= isize::MAX,
{
    v.capacity()
}

proof fn lemma_dimensions_known(types: Set<GeometryTypeAndDimensions>)
    ensures
        forall|j: int|
            0 <= j < distinct_dimensions(types).len() ==> dimensions_index(
                #[trigger] distinct_dimensions(types)[j],
            ) is Some,
{
    let seen = dimensions_of(in_order(types));
    lemma_first_occurrences(seen);
    assert forall|j: int| 0 <= j < distinct_dimensions(types).len() implies dimensions_index(
        #[trigger] distinct_dimensions(types)[j],
    ) is Some by {
        let d = distinct_dimensions(types)[j];
        assert(distinct_dimensions(types).contains(d));
        assert(seen.contains(d));
        let i = choose|i: int| 0 <= i < seen.len() && seen[i] == d;
        lemma_in_order_members(types, i);
    }
}

/// A column of serialized partial results.
#[derive(Debug)]
pub enum StateColumn {
    Text(Vec<Option<String>>),
    Int(Vec<Option<i64>>),
    Binary(Vec<Option<Vec<u8>>>),
}

/// One row of the four state columns. What is null or missing is None.
#[verifier::ext_equal]
pub ghost struct StateRow {
    pub geometry_types: Option<Seq<char>>,
    pub dimensions: Option<Seq<char>>,
    pub count: Option<int>,
    pub item: Option<Seq<u8>>,
}

/// An entry of a text column.
pub open spec fn text_at(column: Seq<Option<String>>, i: int) -> Option<Seq<char>> {
    if 0 <= i < column.len() {
        match column[i] {
            Some(text) => Some(text@),
            None => None,
        }
    } else {
        None
    }
}

/// An entry of an integer column.
pub open spec fn count_at(column: Seq<Option<i64>>, i: int) -> Option<int> {
    if 0 <= i < column.len() {
        match column[i] {
            Some(count) => Some(count as int),
            None => None,
        }
    } else {
        None
    }
}

/// An entry of a binary column.
pub open spec fn item_at(column: Seq<Option<Vec<u8>>>, i: int) -> Option<Seq<u8>> {
    if 0 <= i < column.len() {
        bytes_view(column[i])
    } else {
        None
    }
}

/// The rows of the four state columns, as many as the first column has; or why
/// they are no state columns.
pub open spec fn state_rows(states: Seq<StateColumn>) -> Result<Seq<StateRow>, CollectErrorView> {
    if states.len() != 4 {
        Err(CollectErrorView::WrongFieldCount { got: states.len() as int })
    } else if !(states[0] is Text) {
        Err(CollectErrorView::WrongFieldType { field: 0 })
    } else if !(states[1] is Text) {
        Err(CollectErrorView::WrongFieldType { field: 1 })
    } else if !(states[2] is Int) {
        Err(CollectErrorView::WrongFieldType { field: 2 })
    } else if !(states[3] is Binary) {
        Err(CollectErrorView::WrongFieldType { field: 3 })
    } else {
        Ok(
            Seq::new(
                states[0]->Text_0@.len(),
                |i: int|
                    StateRow {
                        geometry_types: text_at(states[0]->Text_0@, i),
                        dimensions: text_at(states[1]->Text_0@, i),
                        count: count_at(states[2]->Int_0@, i),
                        item: item_at(states[3]->Binary_0@, i),
                    },
            ),
        )
    }
}

/// The geometry types with these names, or the first name that none has.
pub open spec fn types_named(names: Seq<Seq<char>>) -> Result<Seq<GeometryTypeId>, Seq<char>>
    decreases names.len(),
{
    if names.len() == 0 {
        Ok(Seq::empty())
    } else {
        match (types_named(names.drop_last()), named_type(names.last())) {
            (Err(name), _) => Err(name),
            (Ok(_), None) => Err(names.last()),
            (Ok(types), Some(t)) => Ok(types.push(t)),
        }
    }
}

/// The dimensions with these names, or the first name that none have.
pub open spec fn dimensions_named(names: Seq<Seq<char>>) -> Result<Seq<Dimensions>, Seq<char>>
    decreases names.len(),
{
    if names.len() == 0 {
        Ok(Seq::empty())
    } else {
        match (dimensions_named(names.drop_last()), named_pair(names.last())) {
            (Err(name), _) => Err(name),
            (Ok(_), None) => Err(names.last()),
            (Ok(dimensions), Some(pair)) => Ok(dimensions.push(pair.dimensions)),
        }
    }
}

/// Every combination of these geometry types and dimensions.
pub open spec fn cross(types: Seq<GeometryTypeId>, dimensions: Seq<Dimensions>) -> Set<
    GeometryTypeAndDimensions,
> {
    Set::new(
        |p: GeometryTypeAndDimensions|
            types.contains(p.geometry_type) && dimensions.contains(p.dimensions),
    )
}

/// What another worker has seen is seen too. The state tells the geometry
/// types and the dimensions apart, so every combination of them is taken in.
pub open spec fn with_partial(
    s: CollectionView,
    types: Seq<GeometryTypeId>,
    dimensions: Seq<Dimensions>,
    count: int,
    item: Seq<u8>,
) -> CollectionView {
    CollectionView {
        types: s.types.union(cross(types, dimensions)),
        count: s.count + count,
        item: match s.item {
            Some(seen) => Some(seen + item.skip(WKB_HEADER_SIZE as int)),
            None => None,
        },
    }
}

/// One row of state is merged, whose two lists have been read.
pub open spec fn merge_read(
    s: CollectionView,
    types: Result<Seq<Seq<char>>, Seq<char>>,
    dimensions: Result<Seq<Seq<char>>, Seq<char>>,
    count: int,
    item: Seq<u8>,
) -> Result<CollectionView, CollectErrorView> {
    match types {
        Err(reason) => Err(CollectErrorView::InvalidList { reason }),
        Ok(type_list) => match types_named(type_list) {
            Err(name) => Err(CollectErrorView::UnknownName { name }),
            Ok(types) => match dimensions {
                Err(reason) => Err(CollectErrorView::InvalidList { reason }),
                Ok(dimension_list) => match dimensions_named(dimension_list) {
                    Err(name) => Err(CollectErrorView::UnknownName { name }),
                    Ok(dimensions) => Ok(with_partial(s, types, dimensions, count, item)),
                },
            },
        },
    }
}

/// One row of state is merged.
pub open spec fn merge_row(s: CollectionView, row: StateRow) -> Result<
    CollectionView,
    CollectErrorView,
> {
    match (row.geometry_types, row.dimensions, row.count, row.item) {
        (Some(types), Some(dimensions), Some(count), Some(item)) => merge_read(
            s,
            json_list(types),
            json_list(dimensions),
            count,
            item,
        ),
        _ => Err(CollectErrorView::UnexpectedNulls),
    }
}

/// Rows of state are merged one after the other, up to the first that cannot
/// be.
pub open spec fn merge_rows(s: CollectionView, rows: Seq<StateRow>) -> (
    CollectionView,
    Option<CollectErrorView>,
)
    decreases rows.len(),
{
    if rows.len() == 0 {
        (s, None)
    } else {
        let (merged, failure) = merge_rows(s, rows.drop_last());
        match failure {
            Some(e) => (merged, Some(e)),
            None => match merge_row(merged, rows.last()) {
                Ok(next) => (next, None),
                Err(e) => (merged, Some(e)),
            },
        }
    }
}

/// The row that a partial result is written as.
pub open spec fn written(state: StateView) -> StateRow {
    StateRow {
        geometry_types: Some(list_text(state.geometry_types)),
        dimensions: Some(list_text(state.dimensions)),
        count: Some(state.count),
        item: state.item,
    }
}

/// The rows that partial results are written as.
pub open spec fn written_rows(states: Seq<StateView>) -> Seq<StateRow> {
    states.map_values(|state: StateView| written(state))
}

/// Whether the names in a partial result can stand in JSON as they are.
pub open spec fn plain_state(state: StateView) -> bool {
    all_plain(state.geometry_types) && all_plain(state.dimensions)
}

/// One partial result is merged.
pub open spec fn merge_state(s: CollectionView, state: StateView) -> Result<
    CollectionView,
    CollectErrorView,
> {
    match state.item {
        Some(item) => merge_read(
            s,
            Ok(state.geometry_types),
            Ok(state.dimensions),
            state.count,
            item,
        ),
        None => Err(CollectErrorView::UnexpectedNulls),
    }
}

/// Partial results are merged one after the other, up to the first that cannot
/// be.
pub open spec fn merge_states(s: CollectionView, states: Seq<StateView>) -> (
    CollectionView,
    Option<CollectErrorView>,
)
    decreases states.len(),
{
    if states.len() == 0 {
        (s, None)
    } else {
        let (merged, failure) = merge_states(s, states.drop_last());
        match failure {
            Some(e) => (merged, Some(e)),
            None => match merge_state(merged, states.last()) {
                Ok(next) => (next, None),
                Err(e) => (merged, Some(e)),
            },
        }
    }
}

/// What comes of merging four state columns. Once the collection has been
/// handed out, no column is looked at.
pub open spec fn merge_columns(s: CollectionView, states: Seq<StateColumn>) -> (
    CollectionView,
    Option<CollectErrorView>,
) {
    if states.len() != 4 {
        (s, Some(CollectErrorView::WrongFieldCount { got: states.len() as int }))
    } else if s.item is None {
        (s, Some(CollectErrorView::UnexpectedState))
    } else {
        match state_rows(states) {
            Err(e) => (s, Some(e)),
            Ok(rows) => merge_rows(s, rows),
        }
    }
}

/// Whether merging stays within what a machine integer counts, and the item of
/// every row that is merged has room for a header. Nothing is asked of a row
/// that cannot be merged, nor of those behind it.
pub open spec fn mergeable(s: CollectionView, rows: Seq<StateRow>) -> bool {
    forall|n: int|
        0 < n <= rows.len() && (#[trigger] merge_rows(s, rows.take(n))).1 is None ==> {
            &&& i64::MIN <= merge_rows(s, rows.take(n)).0.count <= i64::MAX
            &&& rows[n - 1].item->0.len() >= WKB_HEADER_SIZE
        }
}

/// Whether the lists of a row can be read and hold known names only.
pub open spec fn lists_known(
    types: Result<Seq<Seq<char>>, Seq<char>>,
    dimensions: Result<Seq<Seq<char>>, Seq<char>>,
) -> bool {
    &&& types is Ok
    &&& types_named(types->Ok_0) is Ok
    &&& dimensions is Ok
    &&& dimensions_named(dimensions->Ok_0) is Ok
}

proof fn lemma_unknown_type(names: Seq<Seq<char>>, k: int)
    requires
        0 <= k <= names.len(),
        types_named(names.take(k)) is Err,
    ensures
        types_named(names) == types_named(names.take(k)),
    decreases names.len() - k,
{
    if k < names.len() {
        assert(names.take(k + 1).drop_last() =~= names.take(k));
        lemma_unknown_type(names, k + 1);
    } else {
        assert(names.take(k) =~= names);
    }
}

proof fn lemma_unknown_dimensions(names: Seq<Seq<char>>, k: int)
    requires
        0 <= k <= names.len(),
        dimensions_named(names.take(k)) is Err,
    ensures
        dimensions_named(names) == dimensions_named(names.take(k)),
    decreases names.len() - k,
{
    if k < names.len() {
        assert(names.take(k + 1).drop_last() =~= names.take(k));
        lemma_unknown_dimensions(names, k + 1);
    } else {
        assert(names.take(k) =~= names);
    }
}

/// The geometry types with these names.
fn find_types(names: &Vec<String>) -> (r: Result<Vec<GeometryTypeId>, CollectError>)
    ensures
        match types_named(string_views(names@)) {
            Ok(types) => r is Ok && r->Ok_0@ == types,
            Err(name) => r is Err && r->Err_0@ == (CollectErrorView::UnknownName { name }),
        },
{
    let ghost views = string_views(names@);
    let mut out: Vec<GeometryTypeId> = Vec::new();
    let mut i: usize = 0;
    assert(views.take(0) =~= Seq::empty());
    while i < names.len()
        invariant
            i <= names.len(),
            views == string_views(names@),
            types_named(views.take(i as int)) == Ok::<_, Seq<char>>(out@),
        decreases names.len() - i,
    {
        proof {
            assert(views.take(i + 1).drop_last() =~= views.take(i as int));
            assert(views.take(i + 1).last() == names@[i as int]@);
        }
        match GeometryTypeId::from_name(names[i].as_str()) {
            Some(t) => out.push(t),
            None => {
                proof {
                    lemma_unknown_type(views, i + 1);
                }
                return Err(CollectError::UnknownName { name: names[i].clone() });
            },
        }
        i += 1;
    }
    assert(views.take(i as int) =~= views);
    Ok(out)
}

/// The dimensions with these names.
fn find_dimensions(names: &Vec<String>) -> (r: Result<Vec<Dimensions>, CollectError>)
    ensures
        match dimensions_named(string_views(names@)) {
            Ok(dimensions) => r is Ok && r->Ok_0@ == dimensions,
            Err(name) => r is Err && r->Err_0@ == (CollectErrorView::UnknownName { name }),
        },
{
    let ghost views = string_views(names@);
    let mut out: Vec<Dimensions> = Vec::new();
    let mut i: usize = 0;
    assert(views.take(0) =~= Seq::empty());
    while i < names.len()
        invariant
            i <= names.len(),
            views == string_views(names@),
            dimensions_named(views.take(i as int)) == Ok::<_, Seq<char>>(out@),
        decreases names.len() - i,
    {
        proof {
            assert(views.take(i + 1).drop_last() =~= views.take(i as int));
            assert(views.take(i + 1).last() == names@[i as int]@);
        }
        match GeometryTypeAndDimensions::from_name(names[i].as_str()) {
            Some(pair) => out.push(pair.dimensions),
            None => {
                proof {
                    lemma_unknown_dimensions(views, i + 1);
                }
                return Err(CollectError::UnknownName { name: names[i].clone() });
            },
        }
        i += 1;
    }
    assert(views.take(i as int) =~= views);
    Ok(out)
}

proof fn lemma_named_dimensions_known(names: Seq<Seq<char>>)
    requires
        dimensions_named(names) is Ok,
    ensures
        forall|i: int|
            0 <= i < dimensions_named(names)->Ok_0.len() ==> dimensions_index(
                #[trigger] dimensions_named(names)->Ok_0[i],
            ) is Some,
    decreases names.len(),
{
    if names.len() > 0 {
        lemma_named_dimensions_known(names.drop_last());
        let before = dimensions_named(names.drop_last())->Ok_0;
        let all = dimensions_named(names)->Ok_0;
        assert forall|i: int| 0 <= i < all.len() implies dimensions_index(
            #[trigger] all[i],
        ) is Some by {
            if i < before.len() {
                assert(all[i] == before[i]);
            }
        }
    }
}

impl CollectionAccumulator {
    /// Takes in every combination of some geometry types and dimensions.
    fn insert_all(&mut self, types: &Vec<GeometryTypeId>, dimensions: &Vec<Dimensions>) -> (r:
        Result<(), CollectError>)
        requires
            forall|i: int|
                0 <= i < dimensions.len() ==> dimensions_index(#[trigger] dimensions@[i]) is Some,
        ensures
            r is Ok,
            final(self)@.types == old(self)@.types.union(cross(types@, dimensions@)),
            final(self).count == old(self).count,
            final(self).item == old(self).item,
    {
        let mut i: usize = 0;
        assert(cross(types@.take(0), dimensions@) =~= Set::empty());
        assert(self@.types =~= old(self)@.types.union(cross(types@.take(0), dimensions@)));
        while i < types.len()
            invariant
                i <= types.len(),
                forall|j: int|
                    0 <= j < dimensions.len() ==> dimensions_index(#[trigger] dimensions@[j]) is Some,
                self@.types == old(self)@.types.union(cross(types@.take(i as int), dimensions@)),
                self.count == old(self).count,
                self.item == old(self).item,
            decreases types.len() - i,
        {
            let t = types[i];
            let ghost before = self@.types;
            let mut j: usize = 0;
            assert(cross(seq![t], dimensions@.take(0)) =~= Set::empty());
            assert(self@.types =~= before.union(cross(seq![t], dimensions@.take(0))));
            while j < dimensions.len()
                invariant
                    j <= dimensions.len(),
                    forall|k: int|
                        0 <= k < dimensions.len() ==> dimensions_index(
                            #[trigger] dimensions@[k],
                        ) is Some,
                    self@.types == before.union(cross(seq![t], dimensions@.take(j as int))),
                    self.count == old(self).count,
                    self.item == old(self).item,
                decreases dimensions.len() - j,
            {
                let d = dimensions[j];
                let ghost upto = dimensions@.take(j as int);
                match self.type_and_dims.insert(&GeometryTypeAndDimensions::new(t, d)) {
                    Ok(()) => {},
                    Err(e) => return Err(CollectError::UnknownDimensions { size: e.size }),
                }
                proof {
                    let more = dimensions@.take(j + 1);
                    assert(more =~= upto.push(d));
                    lemma_contains_push(upto, d);
                    lemma_contains_push(Seq::empty(), t);
                    assert(Seq::empty().push(t) =~= seq![t]);
                    assert(self@.types =~= before.union(cross(seq![t], more)));
                }
                j += 1;
            }
            proof {
                assert(dimensions@.take(j as int) =~= dimensions@);
                let upto = types@.take(i as int);
                let more = types@.take(i + 1);
                assert(more =~= upto.push(t));
                lemma_contains_push(upto, t);
                lemma_contains_push(Seq::empty(), t);
                assert(Seq::empty().push(t) =~= seq![t]);
                assert(self@.types =~= old(self)@.types.union(cross(more, dimensions@)));
            }
            i += 1;
        }
        assert(types@.take(i as int) =~= types@);
        Ok(())
    }

    /// Merges one row of state, whose two lists have been read.
    pub fn merge_lists(
        &mut self,
        types: Result<Vec<String>, String>,
        dimensions: Result<Vec<String>, String>,
        count: i64,
        item: &[u8],
    ) -> (r: Result<(), CollectError>)
        requires
            lists_known(list_view(types), list_view(dimensions)) ==> {
                &&& i64::MIN <= old(self).count + count <= i64::MAX
                &&& item@.len() >= WKB_HEADER_SIZE
            },
        ensures
            match merge_read(
                old(self)@,
                list_view(types),
                list_view(dimensions),
                count as int,
                item@,
            ) {
                Ok(next) => r is Ok && final(self)@ == next,
                Err(e) => r is Err && r->Err_0@ == e && final(self)@ == old(self)@,
            },
    {
        let types = match types {
            Ok(names) => find_types(&names)?,
            Err(reason) => return Err(CollectError::InvalidList { reason }),
        };
        let dimensions = match dimensions {
            Ok(names) => {
                let found = find_dimensions(&names)?;
                proof {
                    lemma_named_dimensions_known(string_views(names@));
                }
                found
            },
            Err(reason) => return Err(CollectError::InvalidList { reason }),
        };
        self.insert_all(&types, &dimensions)?;
        self.count = self.count + count;
        match self.item.take() {
            Some(mut seen) => {
                append_from(&mut seen, item, WKB_HEADER_SIZE);
                self.item = Some(seen);
            },
            None => {},
        }
        Ok(())
    }
}

/// What was read of a list of names.
pub open spec fn list_view(list: Result<Vec<String>, String>) -> Result<
    Seq<Seq<char>>,
    Seq<char>,
> {
    match list {
        Ok(names) => Ok(string_views(names@)),
        Err(reason) => Err(reason@),
    }
}

proof fn lemma_contains_push<T>(s: Seq<T>, x: T)
    ensures
        forall|y: T| #[trigger] s.push(x).contains(y) <==> s.contains(y) || y == x,
{
    assert forall|y: T| #[trigger] s.push(x).contains(y) <==> s.contains(y) || y == x by {
        if s.contains(y) {
            let i = choose|i: int| 0 <= i < s.len() && s[i] == y;
            assert(s.push(x)[i] == y);
        }
        assert(s.push(x)[s.len() as int] == x);
        if s.push(x).contains(y) && y != x {
            let i = choose|i: int| 0 <= i < s.push(x).len() && s.push(x)[i] == y;
            assert(s[i] == y);
        }
    }
}

proof fn lemma_merge_failure(s: CollectionView, rows: Seq<StateRow>, k: int)
    requires
        0 <= k <= rows.len(),
        merge_rows(s, rows.take(k)).1 is Some,
    ensures
        merge_rows(s, rows) == merge_rows(s, rows.take(k)),
    decreases rows.len() - k,
{
    if k < rows.len() {
        assert(rows.take(k + 1).drop_last() =~= rows.take(k));
        lemma_merge_failure(s, rows, k + 1);
    } else {
        assert(rows.take(k) =~= rows);
    }
}

proof fn lemma_merge_states_failure(s: CollectionView, states: Seq<StateView>, k: int)
    requires
        0 <= k <= states.len(),
        merge_states(s, states.take(k)).1 is Some,
    ensures
        merge_states(s, states) == merge_states(s, states.take(k)),
    decreases states.len() - k,
{
    if k < states.len() {
        assert(states.take(k + 1).drop_last() =~= states.take(k));
        lemma_merge_states_failure(s, states, k + 1);
    } else {
        assert(states.take(k) =~= states);
    }
}

/// Whether all partial results have names that can stand in JSON as they are.
pub open spec fn all_plain_states(states: Seq<StateView>) -> bool {
    forall|i: int| 0 <= i < states.len() ==> plain_state(#[trigger] states[i])
}

impl CollectionAccumulator {
    /// Merges one row of state.
    fn merge_texts(&mut self, types: &str, dimensions: &str, count: i64, item: &[u8]) -> (r: Result<
        (),
        CollectError,
    >)
        requires
            lists_known(json_list(types@), json_list(dimensions@)) ==> {
                &&& i64::MIN <= old(self).count + count <= i64::MAX
                &&& item@.len() >= WKB_HEADER_SIZE
            },
        ensures
            match merge_read(
                old(self)@,
                json_list(types@),
                json_list(dimensions@),
                count as int,
                item@,
            ) {
                Ok(next) => r is Ok && final(self)@ == next,
                Err(e) => r is Err && r->Err_0@ == e && final(self)@ == old(self)@,
            },
            forall|names: Seq<Seq<char>>|
                all_plain(names) && types@ == #[trigger] list_text(names) ==> json_list(types@)
                    == Ok::<_, Seq<char>>(names),
            forall|names: Seq<Seq<char>>|
                all_plain(names) && dimensions@ == #[trigger] list_text(names) ==> json_list(
                    dimensions@,
                ) == Ok::<_, Seq<char>>(names),
    {
        let type_list = read_list(types);
        let dimension_list = read_list(dimensions);
        self.merge_lists(type_list, dimension_list, count, item)
    }

    /// Merges the partial results of other workers, given as four columns: a
    /// list of geometry types, a list of dimensions, a count, and the
    /// geometries behind room for a header. The first row that cannot be merged
    /// ends the batch with an error; those before it have been merged.
    ///
    /// Rows that were written by [`CollectionAccumulator::state`] are merged as
    /// the partial results that they were written for.
    pub fn merge_batch(&mut self, states: &[StateColumn]) -> (r: Result<(), CollectError>)
        requires
            old(self)@.item is Some ==> (state_rows(states@) matches Ok(rows) ==> mergeable(
                old(self)@,
                rows,
            )),
        ensures
            final(self)@ == merge_columns(old(self)@, states@).0,
            failure_of(r) == merge_columns(old(self)@, states@).1,
            forall|written: Seq<StateView>|
                old(self)@.item is Some && all_plain_states(written) && state_rows(states@) == Ok::<
                    _,
                    CollectErrorView,
                >(#[trigger] written_rows(written)) ==> merge_columns(old(self)@, states@)
                    == merge_states(old(self)@, written),
    {
        if states.len() != 4 {
            return Err(CollectError::WrongFieldCount { got: states.len() });
        }
        if self.item.is_none() {
            return Err(CollectError::UnexpectedState);
        }
        let (types, dimensions, counts, items) = state_columns(states)?;
        let ghost rows = state_rows(states@)->Ok_0;
        let ghost start = self@;
        let mut i: usize = 0;
        assert(rows.take(0) =~= Seq::empty());
        proof {
            assert forall|written: Seq<StateView>|
                all_plain_states(written) && rows == #[trigger] written_rows(
                    written,
                ) implies merge_rows(start, rows.take(0)) == merge_states(
                start,
                written.take(0),
            ) by {
                assert(written.take(0) =~= Seq::empty());
            }
        }
        while i < types.len()
            invariant
                i <= types.len(),
                start == old(self)@,
                start.item is Some,
                self@.item is Some,
                states@.len() == 4,
                types == states@[0]->Text_0,
                dimensions == states@[1]->Text_0,
                counts == states@[2]->Int_0,
                items == states@[3]->Binary_0,
                state_rows(states@) == Ok::<_, CollectErrorView>(rows),
                rows.len() == types.len(),
                mergeable(start, rows),
                merge_rows(start, rows.take(i as int)) == (self@, None::<CollectErrorView>),
                forall|written: Seq<StateView>|
                    all_plain_states(written) && rows == #[trigger] written_rows(written)
                        ==> merge_rows(start, rows.take(i as int)) == merge_states(
                        start,
                        written.take(i as int),
                    ),
            decreases types.len() - i,
        {
            let ghost row = rows[i as int];
            let ghost upto = rows.take(i + 1);
            proof {
                assert(upto.drop_last() =~= rows.take(i as int));
                assert(upto.last() == row);
            }
            let merged = if i < dimensions.len() && i < counts.len() && i < items.len() {
                match (&types[i], &dimensions[i], &counts[i], &items[i]) {
                    (Some(t), Some(d), Some(count), Some(item)) => {
                        assert(lists_known(json_list(t@), json_list(d@)) ==> merge_rows(
                            start,
                            upto,
                        ).1 is None);
                        let r = self.merge_texts(t.as_str(), d.as_str(), *count, item.as_slice());
                        proof {
                            assert forall|written: Seq<StateView>|
                                all_plain_states(written) && rows == #[trigger] written_rows(
                                    written,
                                ) implies merge_rows(start, upto) == merge_states(
                                start,
                                written.take(i + 1),
                            ) by {
                                let state = written[i as int];
                                assert(written.take(i + 1).drop_last() =~= written.take(i as int));
                                assert(written.take(i + 1).last() == state);
                                assert(written_rows(written)[i as int] == row);
                                assert(plain_state(state));
                            }
                        }
                        r
                    },
                    _ => Err(CollectError::UnexpectedNulls),
                }
            } else {
                Err(CollectError::UnexpectedNulls)
            };
            match merged {
                Ok(()) => {},
                Err(e) => {
                    proof {
                        lemma_merge_failure(start, rows, i + 1);
                        assert forall|written: Seq<StateView>|
                            all_plain_states(written) && rows == #[trigger] written_rows(
                                written,
                            ) implies merge_rows(start, rows) == merge_states(
                            start,
                            written,
                        ) by {
                            let state = written[i as int];
                            assert(written.take(i + 1).drop_last() =~= written.take(i as int));
                            assert(written.take(i + 1).last() == state);
                            assert(written_rows(written)[i as int] == row);
                            lemma_merge_states_failure(start, written, i + 1);
                        }
                    }
                    return Err(e);
                },
            }
            i += 1;
        }
        proof {
            assert(rows.take(i as int) =~= rows);
            assert forall|written: Seq<StateView>|
                all_plain_states(written) && rows == #[trigger] written_rows(
                    written,
                ) implies merge_rows(start, rows) == merge_states(start, written) by {
                assert(written.take(i as int) =~= written);
            }
        }
        Ok(())
    }

    /// Merges the partial results of other workers, unless the count would
    /// leave what a machine integer holds or an item that is to be merged has no
    /// room for a header: then nothing is merged and the result is None.
    pub fn try_merge_batch(&mut self, states: &[StateColumn]) -> (r: Option<
        Result<(), CollectError>,
    >)
        ensures
            match r {
                Some(result) => {
                    &&& final(self)@ == merge_columns(old(self)@, states@).0
                    &&& failure_of(result) == merge_columns(old(self)@, states@).1
                    &&& forall|written: Seq<StateView>|
                        old(self)@.item is Some && all_plain_states(written) && state_rows(states@)
                            == Ok::<_, CollectErrorView>(#[trigger] written_rows(written))
                            ==> merge_columns(old(self)@, states@) == merge_states(
                            old(self)@,
                            written,
                        )
                },
                None => {
                    &&& final(self)@ == old(self)@
                    &&& old(self)@.item is Some
                    &&& state_rows(states@) matches Ok(rows) && !mergeable(old(self)@, rows)
                },
            },
    {
        if states.len() == 4 && self.item.is_some() && !self.can_merge(states) {
            return None;
        }
        Some(self.merge_batch(states))
    }

    /// Whether four state columns can be merged, or are no state columns.
    fn can_merge(&self, states: &[StateColumn]) -> (r: bool)
        requires
            states@.len() == 4,
            self@.item is Some,
        ensures
            r == (state_rows(states@) matches Ok(rows) ==> mergeable(self@, rows)),
    {
        let (types, dimensions, counts, items) = match state_columns(states) {
            Ok(columns) => columns,
            Err(_) => return true,
        };
        let ghost rows = state_rows(states@)->Ok_0;
        let ghost start = self@;
        let mut count: i64 = self.count;
        let mut i: usize = 0;
        assert(rows.take(0) =~= Seq::empty());
        while i < types.len()
            invariant
                i <= types.len(),
                start == self@,
                states@.len() == 4,
                types == states@[0]->Text_0,
                dimensions == states@[1]->Text_0,
                counts == states@[2]->Int_0,
                items == states@[3]->Binary_0,
                state_rows(states@) == Ok::<_, CollectErrorView>(rows),
                rows.len() == types.len(),
                merge_rows(start, rows.take(i as int)).1 is None,
                merge_rows(start, rows.take(i as int)).0.count == count,
                forall|n: int|
                    0 < n <= i ==> {
                        &&& i64::MIN <= (#[trigger] merge_rows(start, rows.take(n))).0.count
                            <= i64::MAX
                        &&& rows[n - 1].item->0.len() >= WKB_HEADER_SIZE
                    },
            decreases types.len() - i,
        {
            let ghost upto = rows.take(i + 1);
            proof {
                assert(upto.drop_last() =~= rows.take(i as int));
                assert(upto.last() == rows[i as int]);
            }
            let merges = if i < dimensions.len() && i < counts.len() && i < items.len() {
                match (&types[i], &dimensions[i], &counts[i], &items[i]) {
                    (Some(t), Some(d), Some(n), Some(item)) => {
                        if knows_lists(t.as_str(), d.as_str()) {
                            assert(merge_rows(start, upto).1 is None);
                            if item.len() < WKB_HEADER_SIZE {
                                return false;
                            }
                            match count.checked_add(*n) {
                                Some(next) => {
                                    count = next;
                                },
                                None => return false,
                            }
                            true
                        } else {
                            false
                        }
                    },
                    _ => false,
                }
            } else {
                false
            };
            if !merges {
                proof {
                    assert(merge_rows(start, upto).1 is Some);
                    assert forall|n: int|
                        0 < n <= rows.len() && (#[trigger] merge_rows(
                            start,
                            rows.take(n),
                        )).1 is None implies n <= i by {
                        if n > i {
                            assert(rows.take(n).take(i + 1) =~= upto);
                            lemma_merge_failure(start, rows.take(n), i + 1);
                        }
                    }
                }
                return true;
            }
            i += 1;
        }
        true
    }
}

/// Whether the lists of a row can be read and hold known names only.
fn knows_lists(types: &str, dimensions: &str) -> (r: bool)
    ensures
        r == lists_known(json_list(types@), json_list(dimensions@)),
{
    match (read_list(types), read_list(dimensions)) {
        (Ok(types), Ok(dimensions)) => find_types(&types).is_ok() && find_dimensions(
            &dimensions,
        ).is_ok(),
        _ => false,
    }
}

/// The four state columns, each of its own type.
fn state_columns<'a>(states: &'a [StateColumn]) -> (r: Result<
    (
        &'a Vec<Option<String>>,
        &'a Vec<Option<String>>,
        &'a Vec<Option<i64>>,
        &'a Vec<Option<Vec<u8>>>,
    ),
    CollectError,
>)
    requires
        states@.len() == 4,
    ensures
        match state_rows(states@) {
            Ok(_) => {
                &&& r is Ok
                &&& states@[0] == StateColumn::Text(*r->Ok_0.0)
                &&& states@[1] == StateColumn::Text(*r->Ok_0.1)
                &&& states@[2] == StateColumn::Int(*r->Ok_0.2)
                &&& states@[3] == StateColumn::Binary(*r->Ok_0.3)
            },
            Err(e) => r is Err && r->Err_0@ == e,
        },
{
    let types = match &states[0] {
        StateColumn::Text(column) => column,
        _ => return Err(CollectError::WrongFieldType { field: 0 }),
    };
    let dimensions = match &states[1] {
        StateColumn::Text(column) => column,
        _ => return Err(CollectError::WrongFieldType { field: 1 }),
    };
    let counts = match &states[2] {
        StateColumn::Int(column) => column,
        _ => return Err(CollectError::WrongFieldType { field: 2 }),
    };
    let items = match &states[3] {
        StateColumn::Binary(column) => column,
        _ => return Err(CollectError::WrongFieldType { field: 3 }),
    };
    Ok((types, dimensions, counts, items))
}

} // verus!
