//! What a partial result says of a collection, and what each row of partial
//! results adds to one when it is merged.
use vstd::prelude::*;

#[allow(unused_imports)]
use crate::geometry_laws::{law_pair_names, law_type_names};
#[allow(unused_imports)]
use crate::geometry_types::{
    dimensions_index, name_of_type, named_pair, named_type, pair_name, Dimensions,
    GeometryTypeAndDimensions, GeometryTypeId,
};
#[allow(unused_imports)]
use crate::json::json_list;
#[allow(unused_imports)]
use crate::st_collect_agg::{
    all_known, dimension_name, dimensions_named, distinct_dimensions, distinct_types, merge_columns,
    merge_read, merge_rows, mergeable, state_of, state_rows, types_named, CollectErrorView,
    CollectionView, StateColumn, StateRow,
};
#[allow(unused_imports)]
use crate::st_collect_laws::{has_dimensions, has_type, law_distinct_dimensions, law_distinct_types};

verus! {

/// Dimensions alone are written as those of the type `Geometry`.
pub proof fn law_dimension_names()
    ensures
        dimension_name(Dimensions::Xy) == "Geometry"@,
        dimension_name(Dimensions::Xyz) == "Geometry"@ + " Z"@,
        dimension_name(Dimensions::Xym) == "Geometry"@ + " M"@,
        dimension_name(Dimensions::Xyzm) == "Geometry"@ + " ZM"@,
{
}

/// A partial result holds the count and the item, and names each type and each
/// kind of dimensions that was seen, once, and no other.
pub proof fn law_partial_results(s: CollectionView, t: GeometryTypeId, d: Dimensions)
    requires
        all_known(s.types),
        dimensions_index(d) is Some,
    ensures
        state_of(s).count == s.count,
        state_of(s).item == s.item,
        state_of(s).geometry_types.contains(name_of_type(t)) <==> has_type(s.types, t),
        state_of(s).dimensions.contains(dimension_name(d)) <==> has_dimensions(s.types, d),
        state_of(s).geometry_types.no_duplicates(),
        state_of(s).dimensions.no_duplicates(),
        forall|i: int|
            0 <= i < state_of(s).geometry_types.len() ==> is_type_name(
                #[trigger] state_of(s).geometry_types[i],
            ),
        forall|i: int|
            0 <= i < state_of(s).dimensions.len() ==> is_pair_name(
                #[trigger] state_of(s).dimensions[i],
            ),
{
    law_distinct_types(s.types);
    law_distinct_dimensions(s.types);
    let types = distinct_types(s.types);
    let dimensions = distinct_dimensions(s.types);
    let (names, others) = (state_of(s).geometry_types, state_of(s).dimensions);
    assert forall|i: int| 0 <= i < names.len() implies is_type_name(#[trigger] names[i]) by {
        assert(names[i] == name_of_type(types[i]));
    }
    assert forall|i: int| 0 <= i < others.len() implies is_pair_name(#[trigger] others[i])
        && dimensions_index(dimensions[i]) is Some by {
        assert(dimensions.contains(dimensions[i]));
        assert(has_dimensions(s.types, dimensions[i]));
        let p = GeometryTypeAndDimensions {
            geometry_type: GeometryTypeId::Geometry,
            dimensions: dimensions[i],
        };
        assert(others[i] == pair_name(p));
    }
    assert forall|i: int, j: int| 0 <= i < j < names.len() implies names[i] != names[j] by {
        law_type_names(types[i], names[i]);
        law_type_names(types[j], names[j]);
    }
    assert forall|i: int, j: int| 0 <= i < j < others.len() implies others[i] != others[j] by {
        assert(is_pair_name(others[i]) && is_pair_name(others[j]));
        if others[i] == others[j] {
            lemma_dimension_name(dimensions[i], dimensions[j]);
        }
    }
    if names.contains(name_of_type(t)) {
        let i = choose|i: int| 0 <= i < names.len() && names[i] == name_of_type(t);
        law_type_names(types[i], names[i]);
        law_type_names(t, names[i]);
        assert(types.contains(t));
    }
    if has_type(s.types, t) {
        assert(types.contains(t));
        let i = choose|i: int| 0 <= i < types.len() && types[i] == t;
        assert(names[i] == name_of_type(t));
    }
    if others.contains(dimension_name(d)) {
        let i = choose|i: int| 0 <= i < others.len() && others[i] == dimension_name(d);
        assert(is_pair_name(others[i]));
        lemma_dimension_name(dimensions[i], d);
        assert(dimensions.contains(d));
    }
    if has_dimensions(s.types, d) {
        assert(dimensions.contains(d));
        let i = choose|i: int| 0 <= i < dimensions.len() && dimensions[i] == d;
        assert(others[i] == dimension_name(d));
    }
}

proof fn lemma_dimension_name(d: Dimensions, e: Dimensions)
    requires
        dimensions_index(d) is Some,
        dimensions_index(e) is Some,
        dimension_name(d) == dimension_name(e),
    ensures
        d == e,
{
    let p = GeometryTypeAndDimensions { geometry_type: GeometryTypeId::Geometry, dimensions: d };
    let q = GeometryTypeAndDimensions { geometry_type: GeometryTypeId::Geometry, dimensions: e };
    law_pair_names(p, pair_name(p));
    law_pair_names(q, pair_name(p));
}

/// Whether a text is the name of a geometry type.
pub open spec fn is_type_name(name: Seq<char>) -> bool {
    exists|t: GeometryTypeId| name == #[trigger] name_of_type(t)
}

/// Whether a text is the name of a geometry type with dimensions.
pub open spec fn is_pair_name(name: Seq<char>) -> bool {
    exists|p: GeometryTypeAndDimensions|
        dimensions_index(p.dimensions) is Some && name == #[trigger] pair_name(p)
}

proof fn lemma_named_type(name: Seq<char>)
    ensures
        named_type(name) is Some <==> is_type_name(name),
        named_type(name) is Some ==> name == name_of_type(named_type(name)->0),
{
    if named_type(name) is Some {
        law_type_names(named_type(name)->0, name);
    }
    if is_type_name(name) {
        let t = choose|t: GeometryTypeId| name == #[trigger] name_of_type(t);
        law_type_names(t, name);
    }
}

proof fn lemma_named_pair(name: Seq<char>)
    ensures
        named_pair(name) is Some <==> is_pair_name(name),
        named_pair(name) is Some ==> {
            &&& dimensions_index(named_pair(name)->0.dimensions) is Some
            &&& name == pair_name(named_pair(name)->0)
        },
{
    if named_pair(name) is Some {
        law_pair_names(named_pair(name)->0, name);
    }
    if is_pair_name(name) {
        let p = choose|p: GeometryTypeAndDimensions|
            dimensions_index(p.dimensions) is Some && name == #[trigger] pair_name(p);
        law_pair_names(p, name);
    }
}

/// A list of type names is read as these types. If some text is no name of a
/// type, the first such text is reported.
pub proof fn law_reading_type_names(names: Seq<Seq<char>>, k: int)
    requires
        0 <= k <= names.len(),
        forall|i: int| 0 <= i < k ==> is_type_name(#[trigger] names[i]),
        k < names.len() ==> !is_type_name(names[k]),
    ensures
        k < names.len() ==> types_named(names) == Err::<Seq<GeometryTypeId>, _>(names[k]),
        k == names.len() ==> {
            &&& types_named(names) matches Ok(types)
            &&& types.len() == names.len()
            &&& forall|i: int|
                0 <= i < names.len() ==> #[trigger] names[i] == name_of_type(types[i])
        },
    decreases names.len(),
{
    if names.len() > 0 {
        let rest = names.drop_last();
        let n = names.len() - 1;
        assert forall|i: int| 0 <= i < k && i < n implies is_type_name(#[trigger] rest[i]) by {
            assert(rest[i] == names[i]);
        }
        lemma_named_type(names[n]);
        if k < n {
            assert(rest[k] == names[k]);
            law_reading_type_names(rest, k);
        } else {
            law_reading_type_names(rest, n);
            if k == names.len() {
                assert(is_type_name(names[n]));
                let types = types_named(names)->Ok_0;
                assert forall|i: int| 0 <= i < names.len() implies #[trigger] names[i]
                    == name_of_type(types[i]) by {
                    if i < n {
                        assert(rest[i] == names[i]);
                    }
                }
            }
        }
    }
}

/// A list of names of dimensions, each behind some type, is read as these
/// dimensions. If some text is no such name, the first one is reported.
pub proof fn law_reading_dimension_names(names: Seq<Seq<char>>, k: int)
    requires
        0 <= k <= names.len(),
        forall|i: int| 0 <= i < k ==> is_pair_name(#[trigger] names[i]),
        k < names.len() ==> !is_pair_name(names[k]),
    ensures
        k < names.len() ==> dimensions_named(names) == Err::<Seq<Dimensions>, _>(names[k]),
        k == names.len() ==> {
            &&& dimensions_named(names) matches Ok(dimensions)
            &&& dimensions.len() == names.len()
            &&& forall|i: int|
                0 <= i < names.len() ==> names_dimensions(#[trigger] names[i], dimensions[i])
        },
    decreases names.len(),
{
    if names.len() > 0 {
        let rest = names.drop_last();
        let n = names.len() - 1;
        assert forall|i: int| 0 <= i < k && i < n implies is_pair_name(#[trigger] rest[i]) by {
            assert(rest[i] == names[i]);
        }
        lemma_named_pair(names[n]);
        if k < n {
            assert(rest[k] == names[k]);
            law_reading_dimension_names(rest, k);
        } else {
            law_reading_dimension_names(rest, n);
            if k == names.len() {
                assert(is_pair_name(names[n]));
                let p = named_pair(names[n])->0;
                let dimensions = dimensions_named(names)->Ok_0;
                assert(dimensions[n] == p.dimensions);
                assert(dimensions_index(p.dimensions) is Some && names[n] == pair_name(p));
                assert forall|i: int| 0 <= i < names.len() implies names_dimensions(
                    #[trigger] names[i],
                    dimensions[i],
                ) by {
                    if i < n {
                        assert(rest[i] == names[i]);
                    }
                }
            }
        }
    }
}

/// Whether a text is the name of some type with these dimensions.
pub open spec fn names_dimensions(name: Seq<char>, d: Dimensions) -> bool {
    exists|p: GeometryTypeAndDimensions|
        dimensions_index(p.dimensions) is Some && name == #[trigger] pair_name(p) && p.dimensions
            == d
}

/// A row of a partial result adds its count, the bytes of its item behind the
/// header, and every combination of its types and dimensions.
pub proof fn law_merging_a_row(
    s: CollectionView,
    types: Seq<Seq<char>>,
    dimensions: Seq<Seq<char>>,
    count: int,
    item: Seq<u8>,
    p: GeometryTypeAndDimensions,
)
    requires
        forall|i: int| 0 <= i < types.len() ==> is_type_name(#[trigger] types[i]),
        forall|i: int| 0 <= i < dimensions.len() ==> is_pair_name(#[trigger] dimensions[i]),
    ensures
        ({
            &&& merge_read(s, Ok(types), Ok(dimensions), count, item) matches Ok(next)
            &&& next.count == s.count + count
            &&& s.item is None ==> next.item is None
            &&& s.item is Some && item.len() >= 9 ==> {
                &&& next.item is Some
                &&& next.item->0.len() == s.item->0.len() + item.len() - 9
                &&& next.item->0 == s.item->0 + item.subrange(9, item.len() as int)
            }
            &&& next.types.contains(p) <==> s.types.contains(p) || (types.contains(
                name_of_type(p.geometry_type),
            ) && exists|i: int|
                0 <= i < dimensions.len() && names_dimensions(
                    #[trigger] dimensions[i],
                    p.dimensions,
                ))
        }),
{
    law_reading_type_names(types, types.len() as int);
    law_reading_dimension_names(dimensions, dimensions.len() as int);
    let ts = types_named(types)->Ok_0;
    let ds = dimensions_named(dimensions)->Ok_0;
    if item.len() >= 9 {
        assert(item.skip(9) =~= item.subrange(9, item.len() as int));
    }
    assert(ts.contains(p.geometry_type) <==> types.contains(name_of_type(p.geometry_type))) by {
        if ts.contains(p.geometry_type) {
            let i = choose|i: int| 0 <= i < ts.len() && ts[i] == p.geometry_type;
            assert(types[i] == name_of_type(p.geometry_type));
        }
        if types.contains(name_of_type(p.geometry_type)) {
            let i = choose|i: int|
                0 <= i < types.len() && types[i] == name_of_type(p.geometry_type);
            law_type_names(ts[i], types[i]);
            law_type_names(p.geometry_type, types[i]);
            assert(ts[i] == p.geometry_type);
        }
    }
    let named = exists|i: int|
        0 <= i < dimensions.len() && names_dimensions(#[trigger] dimensions[i], p.dimensions);
    assert(ds.contains(p.dimensions) <==> named) by {
        if ds.contains(p.dimensions) {
            let i = choose|i: int| 0 <= i < ds.len() && ds[i] == p.dimensions;
            assert(names_dimensions(dimensions[i], p.dimensions));
        }
        if named {
            let i = choose|i: int|
                0 <= i < dimensions.len() && names_dimensions(
                    #[trigger] dimensions[i],
                    p.dimensions,
                );
            assert(names_dimensions(dimensions[i], ds[i]));
            lemma_one_name(dimensions[i], p.dimensions, ds[i]);
        }
    }
}

proof fn lemma_one_name(name: Seq<char>, d: Dimensions, e: Dimensions)
    requires
        names_dimensions(name, d),
        names_dimensions(name, e),
    ensures
        d == e,
{
    let p = choose|p: GeometryTypeAndDimensions|
        dimensions_index(p.dimensions) is Some && name == #[trigger] pair_name(p) && p.dimensions
            == d;
    let q = choose|q: GeometryTypeAndDimensions|
        dimensions_index(q.dimensions) is Some && name == #[trigger] pair_name(q) && q.dimensions
            == e;
    law_pair_names(p, name);
    law_pair_names(q, name);
}

/// A row that cannot be merged is answered with the first thing that is wrong
/// with it: the list of types, a name in it, the list of dimensions, a name in
/// that.
pub proof fn law_rows_that_cannot_be_merged(
    s: CollectionView,
    types: Seq<Seq<char>>,
    j: int,
    dimensions: Seq<Seq<char>>,
    k: int,
    reason: Seq<char>,
    others: Result<Seq<Seq<char>>, Seq<char>>,
    count: int,
    item: Seq<u8>,
)
    requires
        0 <= j <= types.len(),
        forall|i: int| 0 <= i < j ==> is_type_name(#[trigger] types[i]),
        j < types.len() ==> !is_type_name(types[j]),
        0 <= k <= dimensions.len(),
        forall|i: int| 0 <= i < k ==> is_pair_name(#[trigger] dimensions[i]),
        k < dimensions.len() ==> !is_pair_name(dimensions[k]),
    ensures
        merge_read(s, Err(reason), others, count, item) == Err::<CollectionView, _>(
            CollectErrorView::InvalidList { reason },
        ),
        j < types.len() ==> merge_read(s, Ok(types), others, count, item) == Err::<
            CollectionView,
            _,
        >(CollectErrorView::UnknownName { name: types[j] }),
        j == types.len() ==> merge_read(s, Ok(types), Err(reason), count, item) == Err::<
            CollectionView,
            _,
        >(CollectErrorView::InvalidList { reason }),
        j == types.len() && k < dimensions.len() ==> merge_read(
            s,
            Ok(types),
            Ok(dimensions),
            count,
            item,
        ) == Err::<CollectionView, _>(CollectErrorView::UnknownName { name: dimensions[k] }),
{
    law_reading_type_names(types, j);
    law_reading_dimension_names(dimensions, k);
}

/// A row with a null in it cannot be merged; of any other the two lists are
/// read and then merged with the count and the item.
pub proof fn law_rows_are_complete(
    s: CollectionView,
    row: StateRow,
    types: Seq<char>,
    dimensions: Seq<char>,
    count: int,
    item: Seq<u8>,
)
    ensures
        row.geometry_types is None || row.dimensions is None || row.count is None || row.item is None
            ==> merge_rows(s, seq![row]) == (s, Some(CollectErrorView::UnexpectedNulls)),
        ({
            let full = StateRow {
                geometry_types: Some(types),
                dimensions: Some(dimensions),
                count: Some(count),
                item: Some(item),
            };
            match merge_read(s, json_list(types), json_list(dimensions), count, item) {
                Ok(next) => merge_rows(s, seq![full]) == (next, None::<CollectErrorView>),
                Err(e) => merge_rows(s, seq![full]) == (s, Some(e)),
            }
        }),
{
    let full = StateRow {
        geometry_types: Some(types),
        dimensions: Some(dimensions),
        count: Some(count),
        item: Some(item),
    };
    assert(seq![row].drop_last() =~= Seq::<StateRow>::empty());
    assert(seq![full].drop_last() =~= Seq::<StateRow>::empty());
    assert(merge_rows(s, seq![row].drop_last()) == (s, None::<CollectErrorView>));
    assert(merge_rows(s, seq![full].drop_last()) == (s, None::<CollectErrorView>));
}

/// Merging rows in two batches does the same as merging them in one; after a
/// row that cannot be merged no other is.
pub proof fn law_merges_compose(s: CollectionView, a: Seq<StateRow>, b: Seq<StateRow>)
    ensures
        merge_rows(s, Seq::empty()) == (s, None::<CollectErrorView>),
        merge_rows(s, a).1 is None ==> merge_rows(merge_rows(s, a).0, b) == merge_rows(s, a + b),
        merge_rows(s, a).1 is Some ==> merge_rows(s, a + b) == merge_rows(s, a),
    decreases b.len(),
{
    if b.len() > 0 {
        law_merges_compose(s, a, b.drop_last());
        assert((a + b).drop_last() =~= a + b.drop_last());
    } else {
        assert(a + b =~= a);
    }
}

/// A partial result comes in four columns; any other number of them is the
/// error, even once the collection has been handed out.
pub proof fn law_four_columns(s: CollectionView, states: Seq<StateColumn>)
    requires
        states.len() != 4,
    ensures
        merge_columns(s, states) == (
            s,
            Some(CollectErrorView::WrongFieldCount { got: states.len() as int }),
        ),
{
}

/// The columns of a partial result are two of texts, one of numbers and one of
/// bytes; the first that is not so is reported, and nothing is merged then.
pub proof fn law_state_columns(s: CollectionView, states: Seq<StateColumn>)
    requires
        s.item is Some,
        states.len() == 4,
    ensures
        !(states[0] is Text) ==> merge_columns(s, states) == (
            s,
            Some(CollectErrorView::WrongFieldType { field: 0 }),
        ),
        states[0] is Text && !(states[1] is Text) ==> merge_columns(s, states) == (
            s,
            Some(CollectErrorView::WrongFieldType { field: 1 }),
        ),
        states[0] is Text && states[1] is Text && !(states[2] is Int) ==> merge_columns(s, states)
            == (s, Some(CollectErrorView::WrongFieldType { field: 2 })),
        states[0] is Text && states[1] is Text && states[2] is Int && !(states[3] is Binary)
            ==> merge_columns(s, states) == (
            s,
            Some(CollectErrorView::WrongFieldType { field: 3 }),
        ),
        states[0] is Text && states[1] is Text && states[2] is Int && states[3] is Binary
            ==> state_rows(states) is Ok && merge_columns(s, states) == merge_rows(
            s,
            state_rows(states)->Ok_0,
        ),
{
}

/// The rows are those of the columns: as many as the first column has, each
/// with the entries at its place, and with a null where a column is shorter.
pub proof fn law_rows_of_columns(
    types: Vec<Option<String>>,
    dimensions: Vec<Option<String>>,
    counts: Vec<Option<i64>>,
    items: Vec<Option<Vec<u8>>>,
    i: int,
)
    requires
        0 <= i < types@.len(),
    ensures
        ({
            let states = seq![
                StateColumn::Text(types),
                StateColumn::Text(dimensions),
                StateColumn::Int(counts),
                StateColumn::Binary(items),
            ];
            &&& state_rows(states) matches Ok(rows)
            &&& rows.len() == types@.len()
            &&& types@[i] is None ==> rows[i].geometry_types is None
            &&& types@[i] is Some ==> rows[i].geometry_types == Some(types@[i]->0@)
            &&& i >= dimensions@.len() || dimensions@[i] is None ==> rows[i].dimensions is None
            &&& i < dimensions@.len() && dimensions@[i] is Some ==> rows[i].dimensions == Some(
                dimensions@[i]->0@,
            )
            &&& i >= counts@.len() || counts@[i] is None ==> rows[i].count is None
            &&& i < counts@.len() && counts@[i] is Some ==> rows[i].count == Some(
                counts@[i]->0 as int,
            )
            &&& i >= items@.len() || items@[i] is None ==> rows[i].item is None
            &&& i < items@.len() && items@[i] is Some ==> rows[i].item == Some(items@[i]->0@)
        }),
{
}

/// The counts of some rows, nulls as nothing.
pub open spec fn total(rows: Seq<StateRow>) -> int
    decreases rows.len(),
{
    if rows.len() == 0 {
        0
    } else {
        total(rows.drop_last()) + match rows.last().count {
            Some(n) => n,
            None => 0,
        }
    }
}

proof fn lemma_merged_count(s: CollectionView, rows: Seq<StateRow>)
    ensures
        merge_rows(s, rows).1 is None ==> merge_rows(s, rows).0.count == s.count + total(rows),
    decreases rows.len(),
{
    if rows.len() > 0 {
        lemma_merged_count(s, rows.drop_last());
    }
}

/// Rows that were all merged add up: the count is that of the collection and
/// of all rows together.
pub proof fn law_counts_add_up(s: CollectionView, rows: Seq<StateRow>)
    requires
        merge_rows(s, rows).1 is None,
    ensures
        merge_rows(s, rows).0.count == s.count + total(rows),
{
    lemma_merged_count(s, rows);
}

/// Rows can be merged if no item is shorter than a header and no sum of the
/// counts so far is beyond what a 64-bit integer holds.
pub proof fn law_which_rows_can_be_merged(s: CollectionView, rows: Seq<StateRow>)
    requires
        forall|i: int|
            0 <= i < rows.len() && (#[trigger] rows[i]).item is Some ==> rows[i].item->0.len() >= 9,
        forall|n: int|
            0 < n <= rows.len() ==> -0x8000_0000_0000_0000 <= s.count + #[trigger] total(
                rows.take(n),
            ) <= 0x7fff_ffff_ffff_ffff,
    ensures
        mergeable(s, rows),
{
    assert forall|n: int|
        0 < n <= rows.len() && (#[trigger] merge_rows(s, rows.take(n))).1 is None implies {
        &&& i64::MIN <= merge_rows(s, rows.take(n)).0.count <= i64::MAX
        &&& rows[n - 1].item->0.len() >= 9
    } by {
        let some = rows.take(n);
        lemma_merged_count(s, some);
        assert(s.count + total(some) <= 0x7fff_ffff_ffff_ffff);
        assert(some.last() == rows[n - 1]);
        assert(rows[n - 1].item is Some);
    }
}

} // verus!
