//! The arrays of a Zarr group: what a raster needs of each, and whether they
//! fit together.
use vstd::prelude::*;

use crate::error::ZarrError;
use crate::text::{same_text, to_chars};

#[allow(unused_imports)]
use crate::error::ZarrErrorView;
#[allow(unused_imports)]
use crate::text::string_views;

verus! {

/// The element type of a band.
#[derive(Debug, Clone, Copy, PartialEq, Eq, Structural)]
pub enum BandDataType {
    UInt8,
    Int8,
    UInt16,
    Int16,
    UInt32,
    Int32,
    UInt64,
    Int64,
    Float32,
    Float64,
}

/// What an open array says of itself.
#[derive(Debug)]
pub struct ArrayMetadata {
    /// Which of the group's arrays this is, in the order of the listing.
    pub handle: usize,
    /// The array's path within the store.
    pub path: String,
    /// The band type of its elements, or why there is none.
    pub data_type: Result<BandDataType, String>,
    /// The names of its dimensions, as far as it declares them.
    pub dimension_names: Option<Vec<Option<String>>>,
    /// How many chunks it has along each dimension.
    pub chunk_grid_shape: Vec<u64>,
    /// How many elements a chunk has along each dimension, or why that cannot
    /// be told.
    pub chunk_shape: Result<Vec<u64>, String>,
    /// The bytes of its fill value; none if it has no fill value.
    pub fill_value: Vec<u8>,
}

/// What is kept of an array for every row.
#[derive(Debug, Clone)]
pub struct ArrayInfo {
    pub handle: usize,
    pub path: String,
    pub data_type: BandDataType,
    pub dim_names: Vec<String>,
    pub chunk_grid_shape: Vec<u64>,
    pub chunk_shape: Vec<u64>,
    pub nodata: Option<Vec<u8>>,
}

/// An [`ArrayMetadata`] over mathematical sequences.
#[verifier::ext_equal]
pub ghost struct ArrayMetadataView {
    pub handle: int,
    pub path: Seq<char>,
    pub data_type: Result<BandDataType, Seq<char>>,
    pub dimension_names: Option<Seq<Option<Seq<char>>>>,
    pub chunk_grid_shape: Seq<u64>,
    pub chunk_shape: Result<Seq<u64>, Seq<char>>,
    pub fill_value: Seq<u8>,
}

/// An [`ArrayInfo`] over mathematical sequences.
#[verifier::ext_equal]
pub ghost struct ArrayInfoView {
    pub handle: int,
    pub path: Seq<char>,
    pub data_type: BandDataType,
    pub dim_names: Seq<Seq<char>>,
    pub chunk_grid_shape: Seq<u64>,
    pub chunk_shape: Seq<u64>,
    pub nodata: Option<Seq<u8>>,
}

/// An optional name as a character sequence.
pub open spec fn name_view(n: Option<String>) -> Option<Seq<char>> {
    match n {
        Some(s) => Some(s@),
        None => None,
    }
}

/// Declared dimension names as character sequences.
pub open spec fn names_view(names: Seq<Option<String>>) -> Seq<Option<Seq<char>>> {
    names.map_values(|n: Option<String>| name_view(n))
}

impl View for ArrayMetadata {
    type V = ArrayMetadataView;

    open spec fn view(&self) -> ArrayMetadataView {
        ArrayMetadataView {
            handle: self.handle as int,
            path: self.path@,
            data_type: match self.data_type {
                Ok(t) => Ok(t),
                Err(e) => Err(e@),
            },
            dimension_names: match self.dimension_names {
                Some(names) => Some(names_view(names@)),
                None => None,
            },
            chunk_grid_shape: self.chunk_grid_shape@,
            chunk_shape: match self.chunk_shape {
                Ok(shape) => Ok(shape@),
                Err(e) => Err(e@),
            },
            fill_value: self.fill_value@,
        }
    }
}

impl View for ArrayInfo {
    type V = ArrayInfoView;

    open spec fn view(&self) -> ArrayInfoView {
        ArrayInfoView {
            handle: self.handle as int,
            path: self.path@,
            data_type: self.data_type,
            dim_names: string_views(self.dim_names@),
            chunk_grid_shape: self.chunk_grid_shape@,
            chunk_shape: self.chunk_shape@,
            nodata: match self.nodata {
                Some(bytes) => Some(bytes@),
                None => None,
            },
        }
    }
}

/// A list of arrays over mathematical sequences.
pub open spec fn metadata_views(arrays: Seq<ArrayMetadata>) -> Seq<ArrayMetadataView> {
    arrays.map_values(|a: ArrayMetadata| a@)
}

/// A list of array descriptions over mathematical sequences.
pub open spec fn info_views(infos: Seq<ArrayInfo>) -> Seq<ArrayInfoView> {
    infos.map_values(|a: ArrayInfo| a@)
}

/// Whether `a` comes before `b` or is the same, in lexicographic order.
pub open spec fn text_le(a: Seq<char>, b: Seq<char>) -> bool
    decreases a.len(),
{
    if a.len() == 0 {
        true
    } else if b.len() == 0 {
        false
    } else if a[0] != b[0] {
        a[0] < b[0]
    } else {
        text_le(a.drop_first(), b.drop_first())
    }
}

/// A sorted list with one more array in it, behind those with the same path.
pub open spec fn insert_by_path(
    sorted: Seq<ArrayMetadataView>,
    a: ArrayMetadataView,
) -> Seq<ArrayMetadataView>
    decreases sorted.len(),
{
    if sorted.len() == 0 || text_le(sorted.last().path, a.path) {
        sorted.push(a)
    } else {
        insert_by_path(sorted.drop_last(), a).push(sorted.last())
    }
}

/// The arrays in the order of their paths; those with one path keep theirs.
pub open spec fn sorted_by_path(arrays: Seq<ArrayMetadataView>) -> Seq<ArrayMetadataView>
    decreases arrays.len(),
{
    if arrays.len() == 0 {
        arrays
    } else {
        insert_by_path(sorted_by_path(arrays.drop_last()), arrays.last())
    }
}

/// The first dimension without a name, or the number of dimensions.
pub open spec fn first_unnamed(names: Seq<Option<Seq<char>>>) -> int
    decreases names.len(),
{
    if names.len() == 0 || names[0] is None {
        0
    } else {
        1 + first_unnamed(names.drop_first())
    }
}

/// What is kept of an array, or why it cannot be part of a raster.
pub open spec fn info_of(a: ArrayMetadataView) -> Result<ArrayInfoView, ZarrErrorView> {
    match (a.data_type, a.dimension_names, a.chunk_shape) {
        (Err(reason), _, _) => Err(ZarrErrorView::UnsupportedDataType { reason }),
        (Ok(_), None, _) => Err(ZarrErrorView::MissingDimensionNames { path: a.path }),
        (Ok(data_type), Some(names), shape) => if first_unnamed(names) < names.len() {
            Err(
                ZarrErrorView::UnnamedDimension { path: a.path, dimension: first_unnamed(names) },
            )
        } else {
            match shape {
                Err(reason) => Err(ZarrErrorView::UnknownChunkShape { path: a.path, reason }),
                Ok(chunk_shape) => Ok(
                    ArrayInfoView {
                        handle: a.handle,
                        path: a.path,
                        data_type,
                        dim_names: names.map_values(|n: Option<Seq<char>>| n->0),
                        chunk_grid_shape: a.chunk_grid_shape,
                        chunk_shape,
                        nodata: if a.fill_value.len() == 0 {
                            None
                        } else {
                            Some(a.fill_value)
                        },
                    },
                ),
            }
        },
    }
}

/// What is kept of every array, or why the first that cannot be part of a
/// raster cannot.
pub open spec fn infos_of(arrays: Seq<ArrayMetadataView>) -> Result<
    Seq<ArrayInfoView>,
    ZarrErrorView,
>
    decreases arrays.len(),
{
    if arrays.len() == 0 {
        Ok(Seq::empty())
    } else {
        match (infos_of(arrays.drop_last()), info_of(arrays.last())) {
            (Err(e), _) => Err(e),
            (Ok(_), Err(e)) => Err(e),
            (Ok(infos), Ok(info)) => Ok(infos.push(info)),
        }
    }
}

/// What two arrays of one group disagree on, if anything.
pub open spec fn disagreement(first: ArrayInfoView, other: ArrayInfoView) -> Option<ZarrErrorView> {
    if other.chunk_grid_shape != first.chunk_grid_shape {
        Some(
            ZarrErrorView::DifferentChunkGrids {
                first: first.path,
                other: other.path,
                first_grid: first.chunk_grid_shape,
                other_grid: other.chunk_grid_shape,
            },
        )
    } else if other.chunk_shape != first.chunk_shape {
        Some(
            ZarrErrorView::DifferentChunkShapes {
                first: first.path,
                other: other.path,
                first_shape: first.chunk_shape,
                other_shape: other.chunk_shape,
            },
        )
    } else if other.dim_names != first.dim_names {
        Some(
            ZarrErrorView::DifferentDimensionNames {
                first: first.path,
                other: other.path,
                first_names: first.dim_names,
                other_names: other.dim_names,
            },
        )
    } else {
        None
    }
}

/// What the first array that disagrees with the one at the front disagrees on.
pub open spec fn first_disagreement(infos: Seq<ArrayInfoView>) -> Option<ZarrErrorView>
    decreases infos.len(),
{
    if infos.len() < 2 {
        None
    } else {
        match first_disagreement(infos.drop_last()) {
            Some(e) => Some(e),
            None => disagreement(infos[0], infos.last()),
        }
    }
}

/// Where a name first occurs in a list, or the length of the list.
pub open spec fn name_index(names: Seq<Seq<char>>, name: Seq<char>) -> int
    decreases names.len(),
{
    if names.len() == 0 || names[0] == name {
        0
    } else {
        1 + name_index(names.drop_first(), name)
    }
}

/// The axes with the declared names, or the first name that no axis has.
pub open spec fn declared_axes(names: Seq<Seq<char>>, declared: Seq<Seq<char>>) -> Result<
    Seq<int>,
    ZarrErrorView,
>
    decreases declared.len(),
{
    if declared.len() == 0 {
        Ok(Seq::empty())
    } else {
        match declared_axes(names, declared.drop_last()) {
            Err(e) => Err(e),
            Ok(axes) => if name_index(names, declared.last()) < names.len() {
                Ok(axes.push(name_index(names, declared.last())))
            } else {
                Err(
                    ZarrErrorView::UnknownSpatialDimension {
                        name: declared.last(),
                        dim_names: names,
                    },
                )
            },
        }
    }
}

/// The spatial axes, y before x: those that are declared, or the last two if
/// they are named `y` and `x`.
pub open spec fn spatial_axes(
    names: Seq<Seq<char>>,
    declared: Option<Seq<Seq<char>>>,
) -> Result<Seq<int>, ZarrErrorView> {
    match declared {
        Some(declared) => declared_axes(names, declared),
        None => if names.len() < 2 {
            Err(ZarrErrorView::TooFewDimensions { dim_names: names })
        } else if names[names.len() - 2] != "y"@ || names[names.len() - 1] != "x"@ {
            Err(ZarrErrorView::NotYX { dim_names: names })
        } else {
            Ok(seq![names.len() - 2, names.len() - 1])
        },
    }
}

/// Axes as mathematical integers.
pub open spec fn axis_views(axes: Seq<usize>) -> Seq<int> {
    axes.map_values(|i: usize| i as int)
}

/// Optional declared names as character sequences.
pub open spec fn declared_view(declared: Option<&[String]>) -> Option<Seq<Seq<char>>> {
    match declared {
        Some(names) => Some(string_views(names@)),
        None => None,
    }
}

/// Whether `a` comes before `b` or is the same, in lexicographic order.
fn comes_no_later(a: &str, b: &str) -> (r: bool)
    ensures
        r == text_le(a@, b@),
{
    let x = to_chars(a);
    let y = to_chars(b);
    let mut i: usize = 0;
    assert(a@.skip(0) =~= a@);
    assert(b@.skip(0) =~= b@);
    while i < x.len() && i < y.len()
        invariant
            x@ == a@,
            y@ == b@,
            i <= x.len(),
            i <= y.len(),
            text_le(a@, b@) == text_le(a@.skip(i as int), b@.skip(i as int)),
        decreases x.len() - i,
    {
        assert(a@.skip(i as int)[0] == x@[i as int]);
        assert(b@.skip(i as int)[0] == y@[i as int]);
        if x[i] != y[i] {
            return x[i] < y[i];
        }
        assert(a@.skip(i as int).drop_first() =~= a@.skip(i + 1));
        assert(b@.skip(i as int).drop_first() =~= b@.skip(i + 1));
        i += 1;
    }
    i == x.len()
}

proof fn lemma_insert_split(
    head: Seq<ArrayMetadataView>,
    tail: Seq<ArrayMetadataView>,
    a: ArrayMetadataView,
)
    requires
        head.len() == 0 || text_le(head.last().path, a.path),
        forall|i: int| 0 <= i < tail.len() ==> !text_le((#[trigger] tail[i]).path, a.path),
    ensures
        insert_by_path(head + tail, a) == head.push(a) + tail,
    decreases tail.len(),
{
    if tail.len() == 0 {
        assert(head + tail =~= head);
        assert(head.push(a) + tail =~= head.push(a));
    } else {
        let all = head + tail;
        assert(all.last() == tail[tail.len() - 1]);
        assert(all.drop_last() =~= head + tail.drop_last());
        lemma_insert_split(head, tail.drop_last(), a);
        assert((head.push(a) + tail.drop_last()).push(tail.last()) =~= head.push(a) + tail);
    }
}

/// Puts one more array into a sorted list.
fn insert_array(sorted: &mut Vec<ArrayMetadata>, a: ArrayMetadata)
    ensures
        metadata_views(final(sorted)@) == insert_by_path(metadata_views(old(sorted)@), a@),
{
    let ghost before = metadata_views(sorted@);
    let n = sorted.len();
    let mut i: usize = n;
    while i > 0 && !comes_no_later(sorted[i - 1].path.as_str(), a.path.as_str())
        invariant
            i <= n,
            n == sorted.len(),
            before == metadata_views(sorted@),
            forall|j: int| i <= j < n ==> !text_le((#[trigger] before[j]).path, a@.path),
        decreases i,
    {
        assert(before[i - 1] == sorted@[i - 1]@);
        i -= 1;
    }
    proof {
        let head = before.take(i as int);
        let tail = before.skip(i as int);
        assert(before =~= head + tail);
        assert forall|j: int| 0 <= j < tail.len() implies !text_le(
            (#[trigger] tail[j]).path,
            a@.path,
        ) by {
            assert(tail[j] == before[j + i]);
        }
        if i > 0 {
            assert(head.last() == sorted@[i - 1]@);
        }
        lemma_insert_split(head, tail, a@);
        assert(before.insert(i as int, a@) =~= head.push(a@) + tail);
        assert(metadata_views(sorted@.insert(i as int, a)) =~= before.insert(i as int, a@));
    }
    sorted.insert(i, a);
}

proof fn lemma_first_unnamed(names: Seq<Option<Seq<char>>>, i: int)
    requires
        0 <= i <= names.len(),
        forall|j: int| 0 <= j < i ==> (#[trigger] names[j]) is Some,
    ensures
        i <= first_unnamed(names) <= names.len(),
        i < names.len() && names[i] is None ==> first_unnamed(names) == i,
    decreases names.len(),
{
    if names.len() > 0 {
        let rest = names.drop_first();
        if i > 0 {
            assert(names[0] is Some);
            assert forall|j: int| 0 <= j < i - 1 implies (#[trigger] rest[j]) is Some by {
                assert(rest[j] == names[j + 1]);
            }
            lemma_first_unnamed(rest, i - 1);
        } else if names[0] is Some {
            lemma_first_unnamed(rest, 0);
        }
    }
}

/// The names, if every dimension has one; else the first dimension that has
/// none.
fn all_named(names: Vec<Option<String>>) -> (r: Result<Vec<String>, usize>)
    ensures
        match r {
            Ok(v) => {
                &&& first_unnamed(names_view(names@)) == names.len()
                &&& string_views(v@) == names_view(names@).map_values(
                    |n: Option<Seq<char>>| n->0,
                )
            },
            Err(i) => i < names.len() && i == first_unnamed(names_view(names@)),
        },
{
    let ghost declared = names_view(names@);
    let mut out: Vec<String> = Vec::new();
    let mut i: usize = 0;
    while i < names.len()
        invariant
            i <= names.len(),
            declared == names_view(names@),
            forall|j: int| 0 <= j < i ==> (#[trigger] declared[j]) is Some,
            string_views(out@) == declared.take(i as int).map_values(
                |n: Option<Seq<char>>| n->0,
            ),
        decreases names.len() - i,
    {
        assert(declared[i as int] == name_view(names@[i as int]));
        match &names[i] {
            Some(name) => {
                let ghost done = string_views(out@);
                out.push(name.clone());
                assert(string_views(out@) =~= done.push(name@));
                assert(string_views(out@) =~= declared.take(i + 1).map_values(
                    |n: Option<Seq<char>>| n->0,
                ));
            },
            None => {
                proof {
                    lemma_first_unnamed(declared, i as int);
                }
                return Err(i);
            },
        }
        i += 1;
    }
    proof {
        lemma_first_unnamed(declared, i as int);
        assert(declared.take(i as int) =~= declared);
    }
    Ok(out)
}

/// Keeps what the rows need of an array.
pub fn describe_array(a: ArrayMetadata) -> (r: Result<ArrayInfo, ZarrError>)
    ensures
        match info_of(a@) {
            Ok(info) => r is Ok && r->Ok_0@ == info,
            Err(e) => r is Err && r->Err_0@ == e,
        },
{
    let data_type = match a.data_type {
        Ok(data_type) => data_type,
        Err(reason) => return Err(ZarrError::UnsupportedDataType { reason }),
    };
    let dim_names = match a.dimension_names {
        Some(names) => match all_named(names) {
            Ok(dim_names) => dim_names,
            Err(dimension) => {
                return Err(ZarrError::UnnamedDimension { path: a.path, dimension });
            },
        },
        None => return Err(ZarrError::MissingDimensionNames { path: a.path }),
    };
    let chunk_shape = match a.chunk_shape {
        Ok(shape) => shape,
        Err(reason) => return Err(ZarrError::UnknownChunkShape { path: a.path, reason }),
    };
    let nodata = if a.fill_value.len() == 0 {
        None
    } else {
        Some(a.fill_value)
    };
    Ok(
        ArrayInfo {
            handle: a.handle,
            path: a.path,
            data_type,
            dim_names,
            chunk_grid_shape: a.chunk_grid_shape,
            chunk_shape,
            nodata,
        },
    )
}

proof fn lemma_first_failure(arrays: Seq<ArrayMetadataView>, k: int)
    requires
        0 <= k <= arrays.len(),
        infos_of(arrays.take(k)) is Err,
    ensures
        infos_of(arrays) == infos_of(arrays.take(k)),
    decreases arrays.len() - k,
{
    if k < arrays.len() {
        assert(arrays.take(k + 1).drop_last() =~= arrays.take(k));
        lemma_first_failure(arrays, k + 1);
    } else {
        assert(arrays.take(k) =~= arrays);
    }
}

/// Keeps what the rows need of every array, in the order of their paths.
///
/// A store may list its arrays in any order; sorting them makes the order of
/// the bands the same from one run to the next.
pub fn collect_array_infos(arrays: Vec<ArrayMetadata>) -> (r: Result<Vec<ArrayInfo>, ZarrError>)
    ensures
        match infos_of(sorted_by_path(metadata_views(arrays@))) {
            Ok(infos) => r is Ok && info_views(r->Ok_0@) == infos,
            Err(e) => r is Err && r->Err_0@ == e,
        },
{
    let ghost listed = metadata_views(arrays@);
    let sorted = sort_arrays(arrays);
    let ghost order = metadata_views(sorted@);
    let n = sorted.len();
    let mut rest = sorted;
    let mut out: Vec<ArrayInfo> = Vec::new();
    assert(rest@ =~= sorted@.skip(0));
    assert(order.take(0) =~= Seq::empty());
    assert(info_views(out@) =~= Seq::empty());
    while rest.len() > 0
        invariant
            listed == metadata_views(arrays@),
            order.len() == n,
            order == sorted_by_path(listed),
            out.len() + rest.len() == n,
            metadata_views(rest@) == order.skip(out.len() as int),
            infos_of(order.take(out.len() as int)) == Ok::<_, ZarrErrorView>(info_views(out@)),
        decreases rest.len(),
    {
        let ghost k = out.len() as int;
        let ghost done = info_views(out@);
        let ghost before = rest@;
        let a = rest.remove(0);
        proof {
            assert(metadata_views(before)[0] == a@);
            assert(order[k] == a@);
            assert(order.take(k + 1).drop_last() =~= order.take(k));
            assert(order.take(k + 1).last() == a@);
            assert(metadata_views(rest@) =~= order.skip(k + 1)) by {
                assert forall|i: int| 0 <= i < rest.len() implies metadata_views(rest@)[i]
                    == order[k + 1 + i] by {
                    assert(rest@[i] == before[i + 1]);
                    assert(metadata_views(before)[i + 1] == order[k + 1 + i]);
                }
            }
        }
        match describe_array(a) {
            Ok(info) => {
                out.push(info);
                assert(info_views(out@) =~= done.push(info@));
            },
            Err(e) => {
                proof {
                    lemma_first_failure(order, k + 1);
                }
                return Err(e);
            },
        }
    }
    assert(order.take(n as int) =~= order);
    Ok(out)
}

/// The arrays in the order of their paths.
fn sort_arrays(arrays: Vec<ArrayMetadata>) -> (r: Vec<ArrayMetadata>)
    ensures
        metadata_views(r@) == sorted_by_path(metadata_views(arrays@)),
{
    let ghost listed = metadata_views(arrays@);
    let n = arrays.len();
    let mut rest = arrays;
    let mut sorted: Vec<ArrayMetadata> = Vec::new();
    let ghost mut k: int = 0;
    assert(listed.take(0) =~= Seq::empty());
    assert(metadata_views(sorted@) =~= Seq::empty());
    while rest.len() > 0
        invariant
            listed.len() == n,
            0 <= k <= n,
            k + rest.len() == n,
            metadata_views(rest@) == listed.skip(k),
            metadata_views(sorted@) == sorted_by_path(listed.take(k)),
        decreases rest.len(),
    {
        let ghost before = rest@;
        let a = rest.remove(0);
        proof {
            assert(metadata_views(before)[0] == a@);
            assert(listed[k] == a@);
            assert(listed.take(k + 1).drop_last() =~= listed.take(k));
            assert(listed.take(k + 1).last() == a@);
            assert(metadata_views(rest@) =~= listed.skip(k + 1)) by {
                assert forall|i: int| 0 <= i < rest.len() implies metadata_views(rest@)[i]
                    == listed[k + 1 + i] by {
                    assert(rest@[i] == before[i + 1]);
                    assert(metadata_views(before)[i + 1] == listed[k + 1 + i]);
                }
            }
            k = k + 1;
        }
        insert_array(&mut sorted, a);
    }
    assert(listed.take(k) =~= listed);
    sorted
}

/// Whether two lists of numbers are the same.
fn same_numbers(a: &[u64], b: &[u64]) -> (r: bool)
    ensures
        r == (a@ == b@),
{
    if a.len() != b.len() {
        return false;
    }
    let mut i: usize = 0;
    while i < a.len()
        invariant
            a.len() == b.len(),
            i <= a.len(),
            forall|j: int| 0 <= j < i ==> a@[j] == b@[j],
        decreases a.len() - i,
    {
        if a[i] != b[i] {
            return false;
        }
        i += 1;
    }
    assert(a@ =~= b@);
    true
}

/// Whether two lists of texts are the same.
fn same_texts(a: &[String], b: &[String]) -> (r: bool)
    ensures
        r == (string_views(a@) == string_views(b@)),
{
    if a.len() != b.len() {
        assert(string_views(a@).len() != string_views(b@).len());
        return false;
    }
    let mut i: usize = 0;
    while i < a.len()
        invariant
            a.len() == b.len(),
            i <= a.len(),
            forall|j: int| 0 <= j < i ==> string_views(a@)[j] == string_views(b@)[j],
        decreases a.len() - i,
    {
        if !same_text(a[i].as_str(), b[i].as_str()) {
            assert(string_views(a@)[i as int] != string_views(b@)[i as int]);
            return false;
        }
        i += 1;
    }
    assert(string_views(a@) =~= string_views(b@));
    true
}

proof fn lemma_first_disagreement(infos: Seq<ArrayInfoView>, k: int)
    requires
        0 <= k <= infos.len(),
        first_disagreement(infos.take(k)) is Some,
    ensures
        first_disagreement(infos) == first_disagreement(infos.take(k)),
    decreases infos.len() - k,
{
    if k < infos.len() {
        assert(infos.take(k + 1).drop_last() =~= infos.take(k));
        lemma_first_disagreement(infos, k + 1);
    } else {
        assert(infos.take(k) =~= infos);
    }
}

/// Checks that two arrays share chunk grid, chunk shape and dimension names.
fn compare_arrays(first: &ArrayInfo, other: &ArrayInfo) -> (r: Result<(), ZarrError>)
    ensures
        match disagreement(first@, other@) {
            Some(e) => r is Err && r->Err_0@ == e,
            None => r is Ok,
        },
{
    if !same_numbers(other.chunk_grid_shape.as_slice(), first.chunk_grid_shape.as_slice()) {
        return Err(
            ZarrError::DifferentChunkGrids {
                first: first.path.clone(),
                other: other.path.clone(),
                first_grid: first.chunk_grid_shape.clone(),
                other_grid: other.chunk_grid_shape.clone(),
            },
        );
    }
    if !same_numbers(other.chunk_shape.as_slice(), first.chunk_shape.as_slice()) {
        return Err(
            ZarrError::DifferentChunkShapes {
                first: first.path.clone(),
                other: other.path.clone(),
                first_shape: first.chunk_shape.clone(),
                other_shape: other.chunk_shape.clone(),
            },
        );
    }
    if !same_texts(other.dim_names.as_slice(), first.dim_names.as_slice()) {
        return Err(
            ZarrError::DifferentDimensionNames {
                first: first.path.clone(),
                other: other.path.clone(),
                first_names: clone_texts(first.dim_names.as_slice()),
                other_names: clone_texts(other.dim_names.as_slice()),
            },
        );
    }
    Ok(())
}

/// A copy of a list of texts.
fn clone_texts(texts: &[String]) -> (r: Vec<String>)
    ensures
        string_views(r@) == string_views(texts@),
{
    let mut out: Vec<String> = Vec::new();
    let mut i: usize = 0;
    while i < texts.len()
        invariant
            i <= texts.len(),
            out.len() == i,
            forall|j: int| 0 <= j < i ==> string_views(out@)[j] == string_views(texts@)[j],
        decreases texts.len() - i,
    {
        let ghost done = string_views(out@);
        out.push(texts[i].clone());
        assert(string_views(out@) =~= done.push(texts@[i as int]@));
        i += 1;
    }
    assert(string_views(out@) =~= string_views(texts@));
    out
}

/// Checks that all arrays share chunk grid, chunk shape and dimension names
/// with the first.
pub fn validate_group_constraints(infos: &[ArrayInfo]) -> (r: Result<(), ZarrError>)
    requires
        infos.len() > 0,
    ensures
        match first_disagreement(info_views(infos@)) {
            Some(e) => r is Err && r->Err_0@ == e,
            None => r is Ok,
        },
{
    let ghost views = info_views(infos@);
    let mut i: usize = 1;
    while i < infos.len()
        invariant
            1 <= i <= infos.len(),
            views == info_views(infos@),
            first_disagreement(views.take(i as int)) is None,
        decreases infos.len() - i,
    {
        proof {
            assert(views.take(i + 1).drop_last() =~= views.take(i as int));
            assert(views.take(i + 1).last() == infos@[i as int]@);
            assert(views.take(i + 1)[0] == infos@[0]@);
        }
        match compare_arrays(&infos[0], &infos[i]) {
            Ok(()) => {},
            Err(e) => {
                proof {
                    lemma_first_disagreement(views, i + 1);
                }
                return Err(e);
            },
        }
        i += 1;
    }
    assert(views.take(i as int) =~= views);
    Ok(())
}

proof fn lemma_name_index(names: Seq<Seq<char>>, name: Seq<char>, i: int)
    requires
        0 <= i <= names.len(),
        forall|j: int| 0 <= j < i ==> #[trigger] names[j] != name,
    ensures
        i <= name_index(names, name) <= names.len(),
        i < names.len() && names[i] == name ==> name_index(names, name) == i,
    decreases names.len(),
{
    if names.len() > 0 {
        let rest = names.drop_first();
        if i > 0 {
            assert(names[0] != name);
            assert forall|j: int| 0 <= j < i - 1 implies #[trigger] rest[j] != name by {
                assert(rest[j] == names[j + 1]);
            }
            lemma_name_index(rest, name, i - 1);
        } else if names[0] != name {
            lemma_name_index(rest, name, 0);
        }
    }
}

/// Where a name first occurs in a list, or the length of the list.
fn find_name(names: &[String], name: &str) -> (r: usize)
    ensures
        r == name_index(string_views(names@), name@),
        r <= names.len(),
{
    let ghost views = string_views(names@);
    let mut i: usize = 0;
    while i < names.len()
        invariant
            i <= names.len(),
            views == string_views(names@),
            forall|j: int| 0 <= j < i ==> #[trigger] views[j] != name@,
        decreases names.len() - i,
    {
        assert(views[i as int] == names@[i as int]@);
        if same_text(names[i].as_str(), name) {
            proof {
                lemma_name_index(views, name@, i as int);
            }
            return i;
        }
        i += 1;
    }
    proof {
        lemma_name_index(views, name@, i as int);
    }
    i
}

proof fn lemma_declared_failure(names: Seq<Seq<char>>, declared: Seq<Seq<char>>, k: int)
    requires
        0 <= k <= declared.len(),
        declared_axes(names, declared.take(k)) is Err,
    ensures
        declared_axes(names, declared) == declared_axes(names, declared.take(k)),
    decreases declared.len() - k,
{
    if k < declared.len() {
        assert(declared.take(k + 1).drop_last() =~= declared.take(k));
        lemma_declared_failure(names, declared, k + 1);
    } else {
        assert(declared.take(k) =~= declared);
    }
}

/// The axes with the declared names.
fn find_declared(dim_names: &[String], declared: &[String]) -> (r: Result<Vec<usize>, ZarrError>)
    ensures
        match declared_axes(string_views(dim_names@), string_views(declared@)) {
            Ok(axes) => r is Ok && axis_views(r->Ok_0@) == axes,
            Err(e) => r is Err && r->Err_0@ == e,
        },
{
    let ghost names = string_views(dim_names@);
    let ghost wanted = string_views(declared@);
    let mut axes: Vec<usize> = Vec::new();
    let mut i: usize = 0;
    assert(wanted.take(0) =~= Seq::empty());
    assert(axis_views(axes@) =~= Seq::empty());
    while i < declared.len()
        invariant
            i <= declared.len(),
            names == string_views(dim_names@),
            wanted == string_views(declared@),
            declared_axes(names, wanted.take(i as int)) == Ok::<_, ZarrErrorView>(
                axis_views(axes@),
            ),
        decreases declared.len() - i,
    {
        let ghost done = axis_views(axes@);
        proof {
            assert(wanted.take(i + 1).drop_last() =~= wanted.take(i as int));
            assert(wanted.take(i + 1).last() == declared@[i as int]@);
        }
        let axis = find_name(dim_names, declared[i].as_str());
        if axis == dim_names.len() {
            proof {
                lemma_declared_failure(names, wanted, i + 1);
            }
            return Err(
                ZarrError::UnknownSpatialDimension {
                    name: declared[i].clone(),
                    dim_names: clone_texts(dim_names),
                },
            );
        }
        axes.push(axis);
        assert(axis_views(axes@) =~= done.push(axis as int));
        i += 1;
    }
    assert(wanted.take(i as int) =~= wanted);
    Ok(axes)
}

/// The spatial axes of an array, y before x.
///
/// If the group declares its spatial dimensions, they are looked up by name.
/// Otherwise they are the last two, which must be named `y` and `x`.
pub fn resolve_spatial_dim_indices(dim_names: &[String], spatial_dims: Option<&[String]>) -> (r:
    Result<Vec<usize>, ZarrError>)
    ensures
        match spatial_axes(string_views(dim_names@), declared_view(spatial_dims)) {
            Ok(axes) => {
                &&& r is Ok
                &&& axis_views(r->Ok_0@) == axes
                &&& r->Ok_0@.len() == axes.len()
                &&& forall|i: int| 0 <= i < axes.len() ==> #[trigger] r->Ok_0@[i] == axes[i]
            },
            Err(e) => r is Err && r->Err_0@ == e,
        },
{
    match spatial_dims {
        Some(declared) => {
            let r = find_declared(dim_names, declared);
            proof {
                if r is Ok {
                    let axes = r->Ok_0@;
                    assert(forall|i: int|
                        0 <= i < axes.len() ==> axis_views(axes)[i] == #[trigger] axes[i]);
                }
            }
            r
        },
        None => {
            let n = dim_names.len();
            if n < 2 {
                return Err(ZarrError::TooFewDimensions { dim_names: clone_texts(dim_names) });
            }
            assert(string_views(dim_names@)[n - 2] == dim_names@[n - 2]@);
            assert(string_views(dim_names@)[n - 1] == dim_names@[n - 1]@);
            if !same_text(dim_names[n - 2].as_str(), "y") || !same_text(
                dim_names[n - 1].as_str(),
                "x",
            ) {
                return Err(ZarrError::NotYX { dim_names: clone_texts(dim_names) });
            }
            let axes = vec![n - 2, n - 1];
            assert(axis_views(axes@) =~= seq![n - 2, n - 1]);
            Ok(axes)
        },
    }
}

/// Sorting keeps the number of arrays.
pub proof fn lemma_sorted_len(arrays: Seq<ArrayMetadataView>)
    ensures
        sorted_by_path(arrays).len() == arrays.len(),
    decreases arrays.len(),
{
    if arrays.len() > 0 {
        lemma_sorted_len(arrays.drop_last());
        lemma_insert_len(sorted_by_path(arrays.drop_last()), arrays.last());
    }
}

proof fn lemma_insert_len(sorted: Seq<ArrayMetadataView>, a: ArrayMetadataView)
    ensures
        insert_by_path(sorted, a).len() == sorted.len() + 1,
    decreases sorted.len(),
{
    if sorted.len() > 0 {
        lemma_insert_len(sorted.drop_last(), a);
    }
}

/// What is kept of the arrays has one entry for each.
pub proof fn lemma_infos_len(arrays: Seq<ArrayMetadataView>)
    requires
        infos_of(arrays) is Ok,
    ensures
        infos_of(arrays)->Ok_0.len() == arrays.len(),
    decreases arrays.len(),
{
    if arrays.len() > 0 {
        lemma_infos_len(arrays.drop_last());
    }
}

/// Declared axes are axes of the array, one for each name.
pub proof fn lemma_declared_in_range(names: Seq<Seq<char>>, declared: Seq<Seq<char>>)
    requires
        declared_axes(names, declared) is Ok,
    ensures
        declared_axes(names, declared)->Ok_0.len() == declared.len(),
        forall|i: int|
            0 <= i < declared.len() ==> 0 <= #[trigger] declared_axes(names, declared)->Ok_0[i]
                < names.len(),
    decreases declared.len(),
{
    if declared.len() > 0 {
        lemma_declared_in_range(names, declared.drop_last());
        lemma_name_index(names, declared.last(), 0);
        let before = declared_axes(names, declared.drop_last())->Ok_0;
        let axes = declared_axes(names, declared)->Ok_0;
        assert forall|i: int| 0 <= i < declared.len() implies 0 <= #[trigger] axes[i]
            < names.len() by {
            if i < declared.len() - 1 {
                assert(axes[i] == before[i]);
            }
        }
    }
}

proof fn lemma_text_le_total(a: Seq<char>, b: Seq<char>)
    ensures
        text_le(a, b) || text_le(b, a),
        text_le(a, b) && text_le(b, a) ==> a == b,
    decreases a.len(),
{
    if a.len() > 0 && b.len() > 0 && a[0] == b[0] {
        lemma_text_le_total(a.drop_first(), b.drop_first());
        assert(a =~= seq![a[0]] + a.drop_first());
        assert(b =~= seq![b[0]] + b.drop_first());
    } else if a.len() == 0 && b.len() == 0 {
        assert(a =~= b);
    }
}

proof fn lemma_text_le_transitive(a: Seq<char>, b: Seq<char>, c: Seq<char>)
    requires
        text_le(a, b),
        text_le(b, c),
    ensures
        text_le(a, c),
    decreases a.len(),
{
    if a.len() > 0 && b.len() > 0 && c.len() > 0 && a[0] == b[0] && b[0] == c[0] {
        lemma_text_le_transitive(a.drop_first(), b.drop_first(), c.drop_first());
    }
}

/// Whether no array comes before one with a smaller path.
pub open spec fn in_path_order(arrays: Seq<ArrayMetadataView>) -> bool {
    forall|i: int, j: int|
        0 <= i <= j < arrays.len() ==> text_le(
            (#[trigger] arrays[i]).path,
            (#[trigger] arrays[j]).path,
        )
}

/// Whether no two arrays have the same path.
pub open spec fn distinct_paths(arrays: Seq<ArrayMetadataView>) -> bool {
    forall|i: int, j: int|
        0 <= i < j < arrays.len() ==> (#[trigger] arrays[i]).path != (#[trigger] arrays[j]).path
}

/// The arrays with one path.
pub open spec fn with_path(arrays: Seq<ArrayMetadataView>, path: Seq<char>) -> Seq<
    ArrayMetadataView,
>
    decreases arrays.len(),
{
    if arrays.len() == 0 {
        arrays
    } else if arrays.last().path == path {
        with_path(arrays.drop_last(), path).push(arrays.last())
    } else {
        with_path(arrays.drop_last(), path)
    }
}

proof fn lemma_drop_last_in_order(arrays: Seq<ArrayMetadataView>)
    requires
        in_path_order(arrays),
        arrays.len() > 0,
    ensures
        in_path_order(arrays.drop_last()),
        forall|i: int|
            0 <= i < arrays.len() ==> text_le(
                (#[trigger] arrays[i]).path,
                arrays.last().path,
            ),
{
    let head = arrays.drop_last();
    assert forall|i: int, j: int| 0 <= i <= j < head.len() implies text_le(
        (#[trigger] head[i]).path,
        (#[trigger] head[j]).path,
    ) by {
        assert(head[i] == arrays[i] && head[j] == arrays[j]);
    }
}

proof fn lemma_insert_in_order(sorted: Seq<ArrayMetadataView>, a: ArrayMetadataView)
    requires
        in_path_order(sorted),
    ensures
        in_path_order(insert_by_path(sorted, a)),
        forall|i: int|
            0 <= i < insert_by_path(sorted, a).len() ==> {
                ||| #[trigger] insert_by_path(sorted, a)[i] == a
                ||| sorted.contains(insert_by_path(sorted, a)[i])
            },
    decreases sorted.len(),
{
    let r = insert_by_path(sorted, a);
    lemma_text_le_total(a.path, a.path);
    if sorted.len() == 0 || text_le(sorted.last().path, a.path) {
        assert forall|i: int, j: int| 0 <= i <= j < r.len() implies text_le(
            (#[trigger] r[i]).path,
            (#[trigger] r[j]).path,
        ) by {
            if j == sorted.len() {
                if i < sorted.len() {
                    assert(r[i] == sorted[i]);
                    assert(text_le(sorted[i].path, sorted[sorted.len() - 1].path));
                    lemma_text_le_transitive(sorted[i].path, sorted.last().path, a.path);
                }
            } else {
                assert(r[i] == sorted[i] && r[j] == sorted[j]);
            }
        }
        assert forall|i: int| 0 <= i < r.len() implies #[trigger] r[i] == a || sorted.contains(
            r[i],
        ) by {
            if i < sorted.len() {
                assert(r[i] == sorted[i]);
            }
        }
    } else {
        let head = sorted.drop_last();
        lemma_drop_last_in_order(sorted);
        lemma_insert_in_order(head, a);
        let h = insert_by_path(head, a);
        lemma_text_le_total(sorted.last().path, a.path);
        assert forall|i: int| 0 <= i < r.len() implies #[trigger] r[i] == a || sorted.contains(
            r[i],
        ) by {
            if i < h.len() {
                assert(r[i] == h[i]);
                if h[i] != a {
                    let j = choose|j: int| 0 <= j < head.len() && head[j] == h[i];
                    assert(sorted[j] == h[i]);
                }
            } else {
                assert(sorted[sorted.len() - 1] == r[i]);
            }
        }
        assert forall|i: int, j: int| 0 <= i <= j < r.len() implies text_le(
            (#[trigger] r[i]).path,
            (#[trigger] r[j]).path,
        ) by {
            if j == h.len() {
                if i < h.len() {
                    assert(r[i] == h[i]);
                    if h[i] != a {
                        let m = choose|m: int| 0 <= m < head.len() && head[m] == h[i];
                        assert(sorted[m] == h[i]);
                    }
                } else {
                    lemma_text_le_total(r[i].path, r[i].path);
                }
            } else {
                assert(r[i] == h[i] && r[j] == h[j]);
            }
        }
    }
}

proof fn lemma_insert_multiset(sorted: Seq<ArrayMetadataView>, a: ArrayMetadataView)
    ensures
        insert_by_path(sorted, a).to_multiset() == sorted.to_multiset().insert(a),
    decreases sorted.len(),
{
    broadcast use vstd::seq_lib::group_to_multiset_ensures;

    if sorted.len() > 0 && !text_le(sorted.last().path, a.path) {
        let head = sorted.drop_last();
        lemma_insert_multiset(head, a);
        assert(sorted =~= head.push(sorted.last()));
        assert(insert_by_path(sorted, a).to_multiset() =~= sorted.to_multiset().insert(a));
    }
}

/// Sorting puts the arrays in path order, and neither adds nor drops any.
pub proof fn law_sorted_by_path(arrays: Seq<ArrayMetadataView>)
    ensures
        in_path_order(sorted_by_path(arrays)),
        sorted_by_path(arrays).to_multiset() == arrays.to_multiset(),
    decreases arrays.len(),
{
    broadcast use vstd::seq_lib::group_to_multiset_ensures;

    if arrays.len() > 0 {
        let head = arrays.drop_last();
        law_sorted_by_path(head);
        lemma_insert_in_order(sorted_by_path(head), arrays.last());
        lemma_insert_multiset(sorted_by_path(head), arrays.last());
        assert(arrays =~= head.push(arrays.last()));
    }
}

proof fn lemma_insert_with_path(
    sorted: Seq<ArrayMetadataView>,
    a: ArrayMetadataView,
    path: Seq<char>,
)
    requires
        in_path_order(sorted),
    ensures
        with_path(insert_by_path(sorted, a), path) == if a.path == path {
            with_path(sorted, path).push(a)
        } else {
            with_path(sorted, path)
        },
    decreases sorted.len(),
{
    if sorted.len() == 0 || text_le(sorted.last().path, a.path) {
        assert(sorted.push(a).drop_last() =~= sorted);
    } else {
        let head = sorted.drop_last();
        let h = insert_by_path(head, a);
        lemma_drop_last_in_order(sorted);
        lemma_insert_with_path(head, a, path);
        assert(h.push(sorted.last()).drop_last() =~= h);
        lemma_text_le_total(a.path, a.path);
    }
}

/// Sorting keeps the order among arrays that have the same path.
pub proof fn law_sort_is_stable(arrays: Seq<ArrayMetadataView>, path: Seq<char>)
    ensures
        with_path(sorted_by_path(arrays), path) == with_path(arrays, path),
    decreases arrays.len(),
{
    if arrays.len() > 0 {
        let head = arrays.drop_last();
        law_sort_is_stable(head, path);
        law_sorted_by_path(head);
        lemma_insert_with_path(sorted_by_path(head), arrays.last(), path);
    }
}

proof fn lemma_multiset_has_path(a: Seq<ArrayMetadataView>, b: Seq<ArrayMetadataView>)
    requires
        a.to_multiset() == b.to_multiset(),
        distinct_paths(a),
    ensures
        distinct_paths(b),
        a.len() == b.len(),
    decreases a.len(),
{
    broadcast use vstd::seq_lib::group_to_multiset_ensures;

    assert(a.to_multiset().len() == a.len());
    assert(b.to_multiset().len() == b.len());
    if a.len() > 0 {
        let last = b.last();
        assert(b.contains(last));
        assert(a.to_multiset().count(last) > 0);
        assert(a.contains(last));
        let i = choose|i: int| 0 <= i < a.len() && a[i] == last;
        let rest = a.remove(i);
        assert(b =~= b.drop_last().push(last));
        assert(rest.to_multiset() =~= a.to_multiset().remove(last));
        assert(b.drop_last().to_multiset() =~= b.to_multiset().remove(last));
        assert forall|j: int, k: int| 0 <= j < k < rest.len() implies (#[trigger] rest[j]).path
            != (#[trigger] rest[k]).path by {
            let jj = if j < i {
                j
            } else {
                j + 1
            };
            let kk = if k < i {
                k
            } else {
                k + 1
            };
            assert(rest[j] == a[jj] && rest[k] == a[kk]);
        }
        lemma_multiset_has_path(rest, b.drop_last());
        assert forall|j: int, k: int| 0 <= j < k < b.len() implies (#[trigger] b[j]).path != (
        #[trigger] b[k]).path by {
            let head = b.drop_last();
            assert(b[j] == head[j]);
            if k < head.len() {
                assert(b[k] == head[k]);
            } else {
                assert(head.contains(head[j]));
                assert(rest.to_multiset().count(head[j]) > 0);
                assert(rest.contains(head[j]));
                let m = choose|m: int| 0 <= m < rest.len() && rest[m] == head[j];
                let mm = if m < i {
                    m
                } else {
                    m + 1
                };
                assert(a[mm] == head[j]);
                assert(a[i] == b[k]);
            }
        }
    }
}

proof fn lemma_order_is_unique(a: Seq<ArrayMetadataView>, b: Seq<ArrayMetadataView>)
    requires
        in_path_order(a),
        in_path_order(b),
        distinct_paths(a),
        a.to_multiset() == b.to_multiset(),
    ensures
        a == b,
    decreases a.len(),
{
    broadcast use vstd::seq_lib::group_to_multiset_ensures;

    assert(a.to_multiset().len() == a.len());
    assert(b.to_multiset().len() == b.len());
    if a.len() > 0 {
        let x = a.last();
        let y = b.last();
        assert(a.contains(x) && b.contains(y));
        assert(b.to_multiset().count(x) > 0);
        assert(a.to_multiset().count(y) > 0);
        assert(b.contains(x) && a.contains(y));
        let i = choose|i: int| 0 <= i < a.len() && a[i] == y;
        let j = choose|j: int| 0 <= j < b.len() && b[j] == x;
        lemma_drop_last_in_order(a);
        lemma_drop_last_in_order(b);
        assert(text_le(a[i].path, x.path));
        assert(text_le(b[j].path, y.path));
        lemma_text_le_total(x.path, y.path);
        assert(a[i].path == a[a.len() - 1].path);
        assert(x == y);
        assert(a =~= a.drop_last().push(x));
        assert(b =~= b.drop_last().push(x));
        assert(a.drop_last().to_multiset() =~= a.to_multiset().remove(x));
        assert(b.drop_last().to_multiset() =~= b.to_multiset().remove(x));
        let head = a.drop_last();
        assert forall|k: int, l: int| 0 <= k < l < head.len() implies (#[trigger] head[k]).path
            != (#[trigger] head[l]).path by {
            assert(head[k] == a[k] && head[l] == a[l]);
        }
        lemma_order_is_unique(a.drop_last(), b.drop_last());
    } else {
        assert(a =~= b);
    }
}

/// An array without its place in the listing.
pub open spec fn unplaced(a: ArrayMetadataView) -> ArrayMetadataView {
    ArrayMetadataView { handle: 0, ..a }
}

/// Arrays without their places in the listing.
pub open spec fn all_unplaced(arrays: Seq<ArrayMetadataView>) -> Seq<ArrayMetadataView> {
    arrays.map_values(|a: ArrayMetadataView| unplaced(a))
}

/// What is kept of arrays, without their places in the listing.
pub open spec fn infos_unplaced(infos: Seq<ArrayInfoView>) -> Seq<ArrayInfoView> {
    infos.map_values(|info: ArrayInfoView| ArrayInfoView { handle: 0, ..info })
}

/// Whether two listings hold the same arrays, each in whatever place.
pub open spec fn list_the_same(a: Seq<ArrayMetadataView>, b: Seq<ArrayMetadataView>) -> bool {
    all_unplaced(a).to_multiset() == all_unplaced(b).to_multiset()
}

proof fn lemma_insert_unplaced(sorted: Seq<ArrayMetadataView>, a: ArrayMetadataView)
    ensures
        insert_by_path(all_unplaced(sorted), unplaced(a)) == all_unplaced(
            insert_by_path(sorted, a),
        ),
    decreases sorted.len(),
{
    let plain = all_unplaced(sorted);
    if sorted.len() == 0 || text_le(sorted.last().path, a.path) {
        assert(all_unplaced(sorted.push(a)) =~= plain.push(unplaced(a)));
    } else {
        let head = sorted.drop_last();
        lemma_insert_unplaced(head, a);
        assert(plain.drop_last() =~= all_unplaced(head));
        assert(all_unplaced(insert_by_path(head, a).push(sorted.last())) =~= all_unplaced(
            insert_by_path(head, a),
        ).push(unplaced(sorted.last())));
    }
}

proof fn lemma_sorted_unplaced(arrays: Seq<ArrayMetadataView>)
    ensures
        sorted_by_path(all_unplaced(arrays)) == all_unplaced(sorted_by_path(arrays)),
    decreases arrays.len(),
{
    if arrays.len() > 0 {
        let head = arrays.drop_last();
        lemma_sorted_unplaced(head);
        lemma_insert_unplaced(sorted_by_path(head), arrays.last());
        assert(all_unplaced(arrays).drop_last() =~= all_unplaced(head));
    } else {
        assert(all_unplaced(arrays) =~= arrays);
    }
}

/// Places in the listing do not matter for what is kept, but for the place
/// that is kept itself.
pub proof fn lemma_infos_unplaced(arrays: Seq<ArrayMetadataView>)
    ensures
        infos_of(all_unplaced(arrays)) == match infos_of(arrays) {
            Ok(infos) => Ok(infos_unplaced(infos)),
            Err(e) => Err(e),
        },
    decreases arrays.len(),
{
    if arrays.len() > 0 {
        let head = arrays.drop_last();
        lemma_infos_unplaced(head);
        assert(all_unplaced(arrays).drop_last() =~= all_unplaced(head));
        assert(all_unplaced(arrays).last() == unplaced(arrays.last()));
        match (infos_of(head), info_of(arrays.last())) {
            (Ok(infos), Ok(info)) => {
                assert(infos_unplaced(infos.push(info)) =~= infos_unplaced(infos).push(
                    ArrayInfoView { handle: 0, ..info },
                ));
            },
            _ => {},
        }
    } else {
        assert(infos_unplaced(Seq::empty()) =~= Seq::empty());
    }
}

/// Places in the listing do not matter for whether arrays agree.
pub proof fn lemma_disagreement_unplaced(infos: Seq<ArrayInfoView>)
    ensures
        first_disagreement(infos_unplaced(infos)) == first_disagreement(infos),
    decreases infos.len(),
{
    if infos.len() >= 2 {
        lemma_disagreement_unplaced(infos.drop_last());
        assert(infos_unplaced(infos).drop_last() =~= infos_unplaced(infos.drop_last()));
    }
}

/// The order of the bands does not depend on the order in which a store lists
/// its arrays: two listings of the same arrays are sorted alike, but for the
/// places in the listing that the arrays remember.
pub proof fn law_order_ignores_listing(a: Seq<ArrayMetadataView>, b: Seq<ArrayMetadataView>)
    requires
        list_the_same(a, b),
        distinct_paths(a),
    ensures
        all_unplaced(sorted_by_path(a)) == all_unplaced(sorted_by_path(b)),
{
    let x = all_unplaced(a);
    let y = all_unplaced(b);
    assert forall|i: int, j: int| 0 <= i < j < x.len() implies (#[trigger] x[i]).path != (
    #[trigger] x[j]).path by {
        assert(a[i].path != a[j].path);
    }
    law_sorted_by_path(x);
    law_sorted_by_path(y);
    lemma_multiset_has_path(x, sorted_by_path(x));
    lemma_order_is_unique(sorted_by_path(x), sorted_by_path(y));
    lemma_sorted_unplaced(a);
    lemma_sorted_unplaced(b);
}

/// Sorting does not touch the places that the arrays remember: each array that
/// comes out is one of the listing, with its place.
pub proof fn law_places_are_kept(arrays: Seq<ArrayMetadataView>, i: int)
    requires
        0 <= i < arrays.len(),
    ensures
        arrays.contains(sorted_by_path(arrays)[i]),
        sorted_by_path(arrays).contains(arrays[i]),
{
    broadcast use vstd::seq_lib::group_to_multiset_ensures;

    let sorted = sorted_by_path(arrays);
    law_sorted_by_path(arrays);
    lemma_sorted_len(arrays);
    assert(sorted.contains(sorted[i]));
    assert(sorted.to_multiset().count(sorted[i]) > 0);
    assert(arrays.to_multiset().count(sorted[i]) > 0);
    assert(arrays.contains(arrays[i]));
    assert(arrays.to_multiset().count(arrays[i]) > 0);
    assert(sorted.to_multiset().count(arrays[i]) > 0);
}

/// Whether all arrays share chunk grid, chunk shape and dimension names.
pub open spec fn all_agree(infos: Seq<ArrayInfoView>) -> bool {
    forall|i: int, j: int|
        0 <= i < infos.len() && 0 <= j < infos.len() ==> {
            &&& (#[trigger] infos[i]).chunk_grid_shape == (#[trigger] infos[j]).chunk_grid_shape
            &&& infos[i].chunk_shape == infos[j].chunk_shape
            &&& infos[i].dim_names == infos[j].dim_names
        }
}

/// Arrays pass as a group if and only if all of them agree with each other.
pub proof fn law_group_agrees(infos: Seq<ArrayInfoView>)
    ensures
        first_disagreement(infos) is None <==> all_agree(infos),
    decreases infos.len(),
{
    if infos.len() >= 2 {
        let head = infos.drop_last();
        law_group_agrees(head);
        if first_disagreement(infos) is None {
            assert forall|i: int, j: int| 0 <= i < infos.len() && 0 <= j < infos.len() implies {
                &&& (#[trigger] infos[i]).chunk_grid_shape == (
                #[trigger] infos[j]).chunk_grid_shape
                &&& infos[i].chunk_shape == infos[j].chunk_shape
                &&& infos[i].dim_names == infos[j].dim_names
            } by {
                assert(i < head.len() ==> infos[i] == head[i]);
                assert(j < head.len() ==> infos[j] == head[j]);
                assert(head[0] == infos[0]);
            }
        }
        if all_agree(infos) {
            assert forall|i: int, j: int| 0 <= i < head.len() && 0 <= j < head.len() implies {
                &&& (#[trigger] head[i]).chunk_grid_shape == (#[trigger] head[j]).chunk_grid_shape
                &&& head[i].chunk_shape == head[j].chunk_shape
                &&& head[i].dim_names == head[j].dim_names
            } by {
                assert(infos[i] == head[i] && infos[j] == head[j]);
            }
            assert(infos[infos.len() - 1] == infos.last());
        }
    }
}

/// Declared axes carry the names that were declared, in the same order.
pub proof fn law_declared_axes_carry_their_names(names: Seq<Seq<char>>, declared: Seq<Seq<char>>)
    requires
        declared_axes(names, declared) is Ok,
    ensures
        declared_axes(names, declared)->Ok_0.map_values(|i: int| names[i]) == declared,
    decreases declared.len(),
{
    if declared.len() > 0 {
        let head = declared.drop_last();
        law_declared_axes_carry_their_names(names, head);
        lemma_name_found(names, declared.last());
        let axes = declared_axes(names, head)->Ok_0;
        let axis = name_index(names, declared.last());
        let named = |i: int| names[i];
        assert(axes.push(axis).map_values(named) =~= axes.map_values(named).push(names[axis]));
        assert(head.push(declared.last()) =~= declared);
    } else {
        assert(declared =~= Seq::empty());
    }
}

proof fn lemma_name_found(names: Seq<Seq<char>>, name: Seq<char>)
    requires
        name_index(names, name) < names.len(),
    ensures
        names[name_index(names, name)] == name,
        0 <= name_index(names, name),
    decreases names.len(),
{
    if names.len() > 0 && names[0] != name {
        lemma_name_found(names.drop_first(), name);
    }
}

/// Spatial axes are resolved if and only if every declared name is a dimension
/// or, where none are declared, the dimensions end in `y` and `x`.
pub proof fn law_when_axes_are_resolved(names: Seq<Seq<char>>, declared: Option<Seq<Seq<char>>>)
    ensures
        match declared {
            Some(declared) => spatial_axes(names, Some(declared)) is Ok <==> forall|i: int|
                0 <= i < declared.len() ==> names.contains(#[trigger] declared[i]),
            None => spatial_axes(names, None) is Ok <==> names.len() >= 2 && names[names.len() - 2]
                == "y"@ && names[names.len() - 1] == "x"@,
        },
{
    if declared is Some {
        lemma_when_declared_axes_exist(names, declared->0);
    }
}

proof fn lemma_when_declared_axes_exist(names: Seq<Seq<char>>, declared: Seq<Seq<char>>)
    ensures
        declared_axes(names, declared) is Ok <==> forall|i: int|
            0 <= i < declared.len() ==> names.contains(#[trigger] declared[i]),
    decreases declared.len(),
{
    if declared.len() > 0 {
        let head = declared.drop_last();
        let last = declared.last();
        lemma_when_declared_axes_exist(names, head);
        lemma_name_index(names, last, 0);
        if name_index(names, last) < names.len() {
            lemma_name_found(names, last);
            assert(names.contains(last));
        } else if names.contains(last) {
            let k = choose|k: int| 0 <= k < names.len() && names[k] == last;
            lemma_name_absent(names, last, k);
        }
        if declared_axes(names, declared) is Ok {
            assert forall|i: int| 0 <= i < declared.len() implies names.contains(
                #[trigger] declared[i],
            ) by {
                if i < head.len() {
                    assert(declared[i] == head[i]);
                }
            }
        }
        if forall|i: int| 0 <= i < declared.len() ==> names.contains(#[trigger] declared[i]) {
            assert forall|i: int| 0 <= i < head.len() implies names.contains(
                #[trigger] head[i],
            ) by {
                assert(declared[i] == head[i]);
            }
            assert(names.contains(declared[declared.len() - 1]));
        }
    }
}

proof fn lemma_name_absent(names: Seq<Seq<char>>, name: Seq<char>, k: int)
    requires
        0 <= k < names.len(),
        name_index(names, name) == names.len(),
    ensures
        names[k] != name,
    decreases names.len(),
{
    if k > 0 {
        lemma_name_absent(names.drop_first(), name, k - 1);
    }
}

} // verus!
