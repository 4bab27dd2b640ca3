//! What is kept of each array, what is wrong with the first that does not fit,
//! and which axes are the spatial ones.
use vstd::prelude::*;

#[allow(unused_imports)]
use crate::array_info::{
    declared_axes, first_disagreement, first_unnamed, info_of, infos_of, name_index, spatial_axes,
    text_le, ArrayInfoView, ArrayMetadataView,
};
#[allow(unused_imports)]
use crate::error::ZarrErrorView;

verus! {

/// Everything that is kept of an array is what the array says of itself. The
/// nodata value is the fill value, byte for byte, or nothing if that has no
/// bytes.
pub proof fn law_descriptions_are_faithful(a: ArrayMetadataView)
    requires
        info_of(a) is Ok,
    ensures
        ({
            let info = info_of(a)->Ok_0;
            &&& info.handle == a.handle
            &&& info.path.len() == a.path.len()
            &&& forall|i: int| 0 <= i < a.path.len() ==> #[trigger] info.path[i] == a.path[i]
            &&& a.data_type matches Ok(t)
            &&& info.data_type == t
        }),
        ({
            let info = info_of(a)->Ok_0;
            &&& a.dimension_names matches Some(names)
            &&& info.dim_names.len() == names.len()
            &&& forall|i: int|
                0 <= i < names.len() ==> #[trigger] names[i] == Some(info.dim_names[i])
        }),
        ({
            let info = info_of(a)->Ok_0;
            &&& info.chunk_grid_shape.len() == a.chunk_grid_shape.len()
            &&& forall|i: int|
                0 <= i < a.chunk_grid_shape.len() ==> #[trigger] info.chunk_grid_shape[i]
                    == a.chunk_grid_shape[i]
            &&& a.chunk_shape matches Ok(shape)
            &&& info.chunk_shape.len() == shape.len()
            &&& forall|i: int|
                0 <= i < shape.len() ==> #[trigger] info.chunk_shape[i] == shape[i]
        }),
        match info_of(a)->Ok_0.nodata {
            None => a.fill_value.len() == 0,
            Some(bytes) => {
                &&& bytes.len() > 0
                &&& bytes.len() == a.fill_value.len()
                &&& forall|i: int|
                    0 <= i < a.fill_value.len() ==> #[trigger] bytes[i] == a.fill_value[i]
            },
        },
{
    let names = a.dimension_names->0;
    lemma_unnamed(names);
    let info = info_of(a)->Ok_0;
    assert forall|i: int| 0 <= i < names.len() implies #[trigger] names[i] == Some(
        info.dim_names[i],
    ) by {
        assert(names[i] is Some);
    }
}

proof fn lemma_unnamed(names: Seq<Option<Seq<char>>>)
    ensures
        0 <= first_unnamed(names) <= names.len(),
        first_unnamed(names) < names.len() ==> names[first_unnamed(names)] is None,
        forall|j: int| 0 <= j < first_unnamed(names) ==> #[trigger] names[j] is Some,
    decreases names.len(),
{
    if names.len() > 0 && names[0] is Some {
        let rest = names.drop_first();
        lemma_unnamed(rest);
        assert forall|j: int| 0 <= j < first_unnamed(names) implies #[trigger] names[j] is Some by {
            if j > 0 {
                assert(rest[j - 1] == names[j]);
            }
        }
    }
}

/// Two arrays of which the same is kept have the same fill value.
pub proof fn law_descriptions_tell_fill_values_apart(a: ArrayMetadataView, b: ArrayMetadataView)
    requires
        info_of(a) is Ok,
        info_of(b) is Ok,
        info_of(a)->Ok_0.nodata == info_of(b)->Ok_0.nodata,
    ensures
        a.fill_value == b.fill_value,
{
    law_descriptions_are_faithful(a);
    law_descriptions_are_faithful(b);
    assert(a.fill_value =~= b.fill_value);
}

/// An array is kept if and only if its element type has a band type, it names
/// all of its dimensions, and the shape of its chunks is known. The first of
/// these that fails is the error; of several dimensions without a name it is
/// the first.
pub proof fn law_which_arrays_are_kept(a: ArrayMetadataView)
    ensures
        info_of(a) is Ok <==> {
            &&& a.data_type is Ok
            &&& a.dimension_names is Some
            &&& forall|i: int|
                0 <= i < a.dimension_names->0.len() ==> #[trigger] a.dimension_names->0[i] is Some
            &&& a.chunk_shape is Ok
        },
        a.data_type matches Err(reason) ==> info_of(a) == Err::<ArrayInfoView, ZarrErrorView>(
            ZarrErrorView::UnsupportedDataType { reason },
        ),
        a.data_type is Ok && a.dimension_names is None ==> info_of(a) == Err::<
            ArrayInfoView,
            ZarrErrorView,
        >(ZarrErrorView::MissingDimensionNames { path: a.path }),
        forall|k: int|
            a.data_type is Ok && a.dimension_names is Some && 0 <= k < a.dimension_names->0.len()
                && a.dimension_names->0[k] is None && (forall|j: int|
                0 <= j < k ==> #[trigger] a.dimension_names->0[j] is Some) ==> info_of(a) == Err::<
                ArrayInfoView,
                ZarrErrorView,
            >(#[trigger] unnamed(a.path, k)),
        ({
            &&& a.data_type is Ok
            &&& a.dimension_names is Some
            &&& forall|i: int|
                0 <= i < a.dimension_names->0.len() ==> #[trigger] a.dimension_names->0[i] is Some
            &&& a.chunk_shape is Err
        }) ==> info_of(a) == Err::<ArrayInfoView, ZarrErrorView>(
            ZarrErrorView::UnknownChunkShape { path: a.path, reason: a.chunk_shape->Err_0 },
        ),
{
    if a.dimension_names is Some {
        let names = a.dimension_names->0;
        lemma_unnamed(names);
        assert forall|k: int|
            a.data_type is Ok && 0 <= k < names.len() && names[k] is None && (forall|j: int|
                0 <= j < k ==> #[trigger] names[j] is Some) implies info_of(a) == Err::<
            ArrayInfoView,
            ZarrErrorView,
        >(#[trigger] unnamed(a.path, k)) by {
            let u = first_unnamed(names);
            if u < k {
                assert(names[u] is Some);
            } else if k < u {
                assert(names[k] is Some);
            }
        }
    }
}

/// The error for a dimension without a name.
pub open spec fn unnamed(path: Seq<char>, dimension: int) -> ZarrErrorView {
    ZarrErrorView::UnnamedDimension { path, dimension }
}

/// Paths are compared at the first character in which they differ; a path
/// comes before those that it is the start of.
pub proof fn law_path_order(a: Seq<char>, b: Seq<char>, i: int)
    requires
        0 <= i <= a.len(),
        i <= b.len(),
        forall|j: int| 0 <= j < i ==> a[j] == b[j],
        i < a.len() && i < b.len() ==> a[i] != b[i],
    ensures
        i == a.len() ==> text_le(a, b),
        i < a.len() && i == b.len() ==> !text_le(a, b),
        i < a.len() && i < b.len() ==> (text_le(a, b) <==> a[i] < b[i]),
    decreases i,
{
    if i > 0 {
        assert(a[0] == b[0]);
        let (x, y) = (a.drop_first(), b.drop_first());
        assert forall|j: int| 0 <= j < i - 1 implies x[j] == y[j] by {
            assert(a[j + 1] == b[j + 1]);
        }
        law_path_order(x, y, i - 1);
    }
}

/// The descriptions of several arrays are those of each, in their order. If
/// some array cannot be described, the error is that of the first.
pub proof fn law_descriptions_of_several(arrays: Seq<ArrayMetadataView>, k: int)
    requires
        0 <= k <= arrays.len(),
        forall|j: int| 0 <= j < k ==> info_of(#[trigger] arrays[j]) is Ok,
        k < arrays.len() ==> info_of(arrays[k]) is Err,
    ensures
        k < arrays.len() ==> infos_of(arrays) == Err::<Seq<ArrayInfoView>, ZarrErrorView>(
            info_of(arrays[k])->Err_0,
        ),
        k == arrays.len() ==> {
            &&& infos_of(arrays) matches Ok(infos)
            &&& infos.len() == arrays.len()
            &&& forall|i: int|
                0 <= i < arrays.len() ==> info_of(#[trigger] arrays[i]) == Ok::<
                    ArrayInfoView,
                    ZarrErrorView,
                >(infos[i])
        },
    decreases arrays.len(),
{
    if arrays.len() > 0 {
        let rest = arrays.drop_last();
        let n = arrays.len() - 1;
        assert forall|j: int| 0 <= j < k && j < n implies info_of(#[trigger] rest[j]) is Ok by {
            assert(rest[j] == arrays[j]);
        }
        if k < n {
            assert(rest[k] == arrays[k]);
            law_descriptions_of_several(rest, k);
        } else {
            law_descriptions_of_several(rest, n);
            if k == arrays.len() {
                assert(info_of(arrays[n]) is Ok);
                let infos = infos_of(arrays)->Ok_0;
                assert forall|i: int| 0 <= i < arrays.len() implies info_of(#[trigger] arrays[i])
                    == Ok::<ArrayInfoView, ZarrErrorView>(infos[i]) by {
                    if i < n {
                        assert(rest[i] == arrays[i]);
                    }
                }
            }
        }
    }
}

/// Whether two arrays have one chunk grid, one chunk shape and the same
/// dimensions.
pub open spec fn fit(a: ArrayInfoView, b: ArrayInfoView) -> bool {
    &&& a.chunk_grid_shape == b.chunk_grid_shape
    &&& a.chunk_shape == b.chunk_shape
    &&& a.dim_names == b.dim_names
}

/// The first array that does not fit the one at the front is the one that is
/// reported, with the first of chunk grid, chunk shape and dimension names in
/// which it differs.
pub proof fn law_what_is_reported(infos: Seq<ArrayInfoView>, k: int)
    requires
        0 < k < infos.len(),
        forall|j: int| 0 < j < k ==> fit(infos[0], #[trigger] infos[j]),
        !fit(infos[0], infos[k]),
    ensures
        ({
            let (a, b) = (infos[0], infos[k]);
            &&& first_disagreement(infos) matches Some(e)
            &&& e == if a.chunk_grid_shape != b.chunk_grid_shape {
                ZarrErrorView::DifferentChunkGrids {
                    first: a.path,
                    other: b.path,
                    first_grid: a.chunk_grid_shape,
                    other_grid: b.chunk_grid_shape,
                }
            } else if a.chunk_shape != b.chunk_shape {
                ZarrErrorView::DifferentChunkShapes {
                    first: a.path,
                    other: b.path,
                    first_shape: a.chunk_shape,
                    other_shape: b.chunk_shape,
                }
            } else {
                ZarrErrorView::DifferentDimensionNames {
                    first: a.path,
                    other: b.path,
                    first_names: a.dim_names,
                    other_names: b.dim_names,
                }
            }
        }),
    decreases infos.len(),
{
    let rest = infos.drop_last();
    let n = infos.len() - 1;
    assert(rest[0] == infos[0]);
    assert forall|j: int| 0 < j < k && j < n implies fit(rest[0], #[trigger] rest[j]) by {
        assert(rest[j] == infos[j]);
    }
    if k < n {
        assert(rest[k] == infos[k]);
        law_what_is_reported(rest, k);
    } else {
        lemma_all_fit(rest);
    }
}

proof fn lemma_all_fit(infos: Seq<ArrayInfoView>)
    requires
        forall|j: int| 0 < j < infos.len() ==> fit(infos[0], #[trigger] infos[j]),
    ensures
        first_disagreement(infos) is None,
    decreases infos.len(),
{
    if infos.len() >= 2 {
        let rest = infos.drop_last();
        assert(rest[0] == infos[0]);
        assert forall|j: int| 0 < j < rest.len() implies fit(rest[0], #[trigger] rest[j]) by {
            assert(rest[j] == infos[j]);
        }
        lemma_all_fit(rest);
        assert(fit(infos[0], infos[infos.len() - 1]));
    }
}

proof fn lemma_first_name(names: Seq<Seq<char>>, name: Seq<char>)
    ensures
        0 <= name_index(names, name) <= names.len(),
        name_index(names, name) < names.len() ==> names[name_index(names, name)] == name,
        forall|j: int| 0 <= j < name_index(names, name) ==> #[trigger] names[j] != name,
    decreases names.len(),
{
    if names.len() > 0 && names[0] != name {
        let rest = names.drop_first();
        lemma_first_name(rest, name);
        assert forall|j: int| 0 <= j < name_index(names, name) implies #[trigger] names[j]
            != name by {
            if j > 0 {
                assert(rest[j - 1] == names[j]);
            }
        }
    }
}

/// Declared axes come in the order of the declaration, each the first
/// dimension with its name. If a declared name is missing, the error names the
/// first such name and the dimensions that there are.
pub proof fn law_declared_axes(names: Seq<Seq<char>>, declared: Seq<Seq<char>>, k: int)
    requires
        0 <= k <= declared.len(),
        forall|i: int| 0 <= i < k ==> names.contains(#[trigger] declared[i]),
        k < declared.len() ==> !names.contains(declared[k]),
    ensures
        k < declared.len() ==> spatial_axes(names, Some(declared)) == Err::<
            Seq<int>,
            ZarrErrorView,
        >(ZarrErrorView::UnknownSpatialDimension { name: declared[k], dim_names: names }),
        k == declared.len() ==> {
            &&& spatial_axes(names, Some(declared)) matches Ok(axes)
            &&& axes.len() == declared.len()
            &&& forall|i: int|
                0 <= i < axes.len() ==> {
                    &&& 0 <= #[trigger] axes[i] < names.len()
                    &&& names[axes[i]] == declared[i]
                    &&& forall|j: int| 0 <= j < axes[i] ==> #[trigger] names[j] != declared[i]
                }
        },
    decreases declared.len(),
{
    if declared.len() > 0 {
        let rest = declared.drop_last();
        let n = declared.len() - 1;
        assert forall|i: int| 0 <= i < k && i < n implies names.contains(#[trigger] rest[i]) by {
            assert(rest[i] == declared[i]);
        }
        lemma_first_name(names, declared[n]);
        if k < n {
            assert(rest[k] == declared[k]);
            law_declared_axes(names, rest, k);
        } else {
            law_declared_axes(names, rest, n);
            let at = name_index(names, declared[n]);
            if k < declared.len() {
                if at < names.len() {
                    assert(names.contains(names[at]));
                }
            } else {
                assert(names.contains(declared[n]));
                let j = choose|j: int| 0 <= j < names.len() && names[j] == declared[n];
                assert(at <= j);
                let axes = spatial_axes(names, Some(declared))->Ok_0;
                let before = declared_axes(names, rest)->Ok_0;
                assert(axes == before.push(at));
                assert forall|i: int| 0 <= i < axes.len() implies {
                    &&& 0 <= #[trigger] axes[i] < names.len()
                    &&& names[axes[i]] == declared[i]
                    &&& forall|j: int| 0 <= j < axes[i] ==> #[trigger] names[j] != declared[i]
                } by {
                    if i < n {
                        assert(axes[i] == before[i]);
                        assert(rest[i] == declared[i]);
                    }
                }
            }
        }
    }
}

/// Without a declaration the last two dimensions are the spatial ones, y
/// before x; they have to be called so, and there have to be two.
pub proof fn law_default_axes(names: Seq<Seq<char>>)
    ensures
        ({
            let n = names.len() as int;
            &&& n < 2 ==> spatial_axes(names, None) == Err::<Seq<int>, ZarrErrorView>(
                ZarrErrorView::TooFewDimensions { dim_names: names },
            )
            &&& n >= 2 && (names[n - 2] != seq!['y'] || names[n - 1] != seq!['x'])
                ==> spatial_axes(names, None) == Err::<Seq<int>, ZarrErrorView>(
                ZarrErrorView::NotYX { dim_names: names },
            )
            &&& n >= 2 && names[n - 2] == seq!['y'] && names[n - 1] == seq!['x'] ==> {
                &&& spatial_axes(names, None) matches Ok(axes)
                &&& axes.len() == 2
                &&& axes[0] == n - 2
                &&& axes[1] == n - 1
            }
        }),
{
    reveal_strlit("y");
    reveal_strlit("x");
    assert("y"@ =~= seq!['y']);
    assert("x"@ =~= seq!['x']);
}

} // verus!
