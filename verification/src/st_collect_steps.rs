//! What each step of collecting does: reading the values of some rows, and
//! evaluating what was seen.
use vstd::prelude::*;

#[allow(unused_imports)]
use crate::geometry_laws::{law_header_bytes, law_parsed_kinds, number_at};
#[allow(unused_imports)]
use crate::geometry_types::{
    dimensions_at, dimensions_index, type_id, type_with_id, Dimensions, GeometryTypeAndDimensions,
    GeometryTypeId,
};
#[allow(unused_imports)]
use crate::st_collect_agg::{
    all_known, collection_type, distinct_dimensions, distinct_types, first_occurrences,
    geometries_in, geometry_in, lemma_first_occurrences, merge_columns, result_of, update_values,
    CollectErrorView, CollectionView, GeometryView, StateColumn,
};
#[allow(unused_imports)]
use crate::st_collect_laws::{
    concatenated, has_dimensions, has_type, law_distinct_dimensions, law_distinct_types,
    law_rows_are_read_in_batches, law_same_dimensions_are_collected, without_nulls,
};
#[allow(unused_imports)]
use crate::wkb::{collection_header, wkb_parts};

verus! {

/// A null is no geometry. A value is read as one geometry of the type and
/// dimensions that its numbers stand for, with the bytes that it takes from
/// the front of the value; or else it is what is wrong with the rows.
pub proof fn law_one_value(value: Seq<u8>)
    ensures
        geometries_in(Seq::empty()) == (Seq::<GeometryView>::empty(), None::<Seq<char>>),
        geometries_in(seq![None]) == (Seq::<GeometryView>::empty(), None::<Seq<char>>),
        match wkb_parts(value) {
            Ok((kind, dims, size)) => {
                let (items, failure) = geometries_in(seq![Some(value)]);
                &&& failure is None
                &&& items.len() == 1
                &&& kind <= 6 ==> type_id(items[0].pair.geometry_type) == kind + 1
                &&& dims <= 3 ==> dimensions_index(items[0].pair.dimensions) == Some(dims as int)
                &&& size <= value.len() ==> {
                    &&& items[0].bytes.len() == size
                    &&& forall|i: int| 0 <= i < size ==> #[trigger] items[0].bytes[i] == value[i]
                }
            },
            Err(reason) => geometries_in(seq![Some(value)]) == (
                Seq::<GeometryView>::empty(),
                Some(reason),
            ),
        },
{
    let none: Seq<Option<Seq<u8>>> = seq![None];
    let one = seq![Some(value)];
    assert(none.drop_last() =~= Seq::<Option<Seq<u8>>>::empty());
    assert(one.drop_last() =~= Seq::<Option<Seq<u8>>>::empty());
    assert(geometries_in(none.drop_last()) == (Seq::<GeometryView>::empty(), None::<Seq<char>>));
    assert(geometries_in(one.drop_last()) == (Seq::<GeometryView>::empty(), None::<Seq<char>>));
    if let Ok((kind, dims, size)) = wkb_parts(value) {
        let item = geometry_in(value, kind, dims, size);
        assert(geometries_in(one).0 =~= seq![item]);
    }
}

/// Reading stops at the first value that is no geometry: what came before it
/// is kept, and what is wrong with it is reported.
pub proof fn law_reading_stops_at_the_first_failure(
    s: CollectionView,
    values: Seq<Option<Seq<u8>>>,
    k: int,
)
    requires
        0 <= k < values.len(),
        geometries_in(values.take(k)).1 is None,
        values[k] is Some,
        wkb_parts(values[k]->0) is Err,
        s.item is Some,
    ensures
        update_values(s, values).0 == update_values(s, values.take(k)).0,
        update_values(s, values.take(k)).1 is None,
        update_values(s, values).1 == Some(
            CollectErrorView::InvalidGeometry { reason: wkb_parts(values[k]->0)->Err_0 },
        ),
{
    let head = values.take(k);
    let upto = values.take(k + 1);
    let rest = values.skip(k + 1);
    assert(values =~= upto + rest);
    assert(upto.drop_last() =~= head);
    assert(upto.last() == values[k]);
    law_rows_are_read_in_batches(upto, rest);
}

/// Once the collection has been handed out, nothing more is taken in.
pub proof fn law_nothing_is_added_after_the_result(
    s: CollectionView,
    values: Seq<Option<Seq<u8>>>,
    states: Seq<StateColumn>,
)
    requires
        s.item is None,
    ensures
        update_values(s, values) == (s, Some(CollectErrorView::UnexpectedState)),
        states.len() == 4 ==> merge_columns(s, states) == (
            s,
            Some(CollectErrorView::UnexpectedState),
        ),
{
}

/// Nothing has been seen at the start, and the item is the header of an empty
/// geometry collection.
pub proof fn law_a_fresh_collection()
    ensures
        CollectionView::fresh().count == 0,
        forall|p: GeometryTypeAndDimensions| !#[trigger] CollectionView::fresh().types.contains(p),
        CollectionView::fresh().item is Some,
        CollectionView::fresh().item->0 == seq![1u8, 7, 0, 0, 0, 0, 0, 0, 0],
{
    assert(CollectionView::fresh().item->0 =~= seq![1u8, 7, 0, 0, 0, 0, 0, 0, 0]);
}

/// Whether every value but the nulls is a geometry with these dimensions.
pub open spec fn all_with_dimensions(values: Seq<Option<Seq<u8>>>, dims: u8) -> bool {
    forall|i: int|
        0 <= i < values.len() && #[trigger] values[i] is Some ==> {
            &&& wkb_parts(values[i]->0) matches Ok((kind, d, size))
            &&& kind <= 6
            &&& d == dims
        }
}

/// Whether every value but the nulls has this kind of geometry.
pub open spec fn all_of_kind(values: Seq<Option<Seq<u8>>>, kind: u8) -> bool {
    forall|i: int|
        0 <= i < values.len() && #[trigger] values[i] is Some ==> wkb_parts(values[i]->0)->Ok_0.0
            == kind
}

proof fn lemma_items_of_rows(values: Seq<Option<Seq<u8>>>, dims: u8, kind: u8)
    requires
        dims <= 3,
        kind <= 6,
        all_with_dimensions(values, dims),
    ensures
        geometries_in(values).1 is None,
        geometries_in(values).0.len() == without_nulls(values).len(),
        forall|i: int|
            0 <= i < geometries_in(values).0.len() ==> (#[trigger] geometries_in(
                values,
            ).0[i]).pair.dimensions == dimensions_at(dims as int),
        all_of_kind(values, kind) <==> forall|i: int|
            0 <= i < geometries_in(values).0.len() ==> (#[trigger] geometries_in(
                values,
            ).0[i]).pair.geometry_type == type_with_id(kind + 1),
    decreases values.len(),
{
    if values.len() > 0 {
        let head = values.drop_last();
        let n = values.len() - 1;
        assert forall|i: int| 0 <= i < head.len() && #[trigger] head[i] is Some implies {
            &&& wkb_parts(head[i]->0) matches Ok((kind, d, size))
            &&& kind <= 6
            &&& d == dims
        } by {
            assert(head[i] == values[i]);
        }
        lemma_items_of_rows(head, dims, kind);
        let before = geometries_in(head).0;
        let all = geometries_in(values).0;
        assert(all_of_kind(values, kind) <==> all_of_kind(head, kind) && (values[n] is Some
            ==> wkb_parts(values[n]->0)->Ok_0.0 == kind)) by {
            if all_of_kind(values, kind) {
                assert forall|i: int| 0 <= i < head.len() && #[trigger] head[i] is Some implies wkb_parts(
                    head[i]->0,
                )->Ok_0.0 == kind by {
                    assert(head[i] == values[i]);
                }
            }
            if all_of_kind(head, kind) && (values[n] is Some ==> wkb_parts(values[n]->0)->Ok_0.0
                == kind) {
                assert forall|i: int| 0 <= i < values.len() && #[trigger] values[i] is Some implies wkb_parts(
                    values[i]->0,
                )->Ok_0.0 == kind by {
                    if i < n {
                        assert(head[i] == values[i]);
                    }
                }
            }
        }
        if let Some(value) = values[n] {
            let parts = wkb_parts(value)->Ok_0;
            law_parsed_kinds(parts.0, parts.1, kind, dims);
            let item = geometry_in(value, parts.0, parts.1, parts.2);
            assert(all == before.push(item));
            assert forall|i: int| 0 <= i < all.len() implies (#[trigger] all[i]).pair.dimensions
                == dimensions_at(dims as int) by {
                if i < before.len() {
                    assert(all[i] == before[i]);
                }
            }
            let t = type_with_id(kind + 1);
            assert((forall|i: int| 0 <= i < all.len() ==> (#[trigger] all[i]).pair.geometry_type == t)
                <==> (forall|i: int|
                0 <= i < before.len() ==> (#[trigger] before[i]).pair.geometry_type == t)
                && item.pair.geometry_type == t) by {
                assert(all[before.len() as int] == item);
                if forall|i: int| 0 <= i < all.len() ==> (#[trigger] all[i]).pair.geometry_type == t {
                    assert forall|i: int| 0 <= i < before.len() implies (
                    #[trigger] before[i]).pair.geometry_type == t by {
                        assert(all[i] == before[i]);
                    }
                }
                if (forall|i: int|
                    0 <= i < before.len() ==> (#[trigger] before[i]).pair.geometry_type == t)
                    && item.pair.geometry_type == t {
                    assert forall|i: int| 0 <= i < all.len() implies (
                    #[trigger] all[i]).pair.geometry_type == t by {
                        if i < before.len() {
                            assert(all[i] == before[i]);
                        }
                    }
                }
            }
        }
    }
}

/// Rows with geometries of the same dimensions evaluate to one collection with
/// all of them. The type code is that of a multi point, multi line string or
/// multi polygon if all are points, line strings or polygons, and that of a
/// geometry collection otherwise, with a thousand for each step of the
/// dimensions; then come their number and their bytes.
pub proof fn law_what_rows_evaluate_to(values: Seq<Option<Seq<u8>>>, dims: u8)
    requires
        dims <= 3,
        all_with_dimensions(values, dims),
        0 < without_nulls(values).len() <= u32::MAX,
    ensures
        ({
            let (after, failure) = update_values(CollectionView::fresh(), values);
            &&& failure is None
            &&& result_of(after) matches Ok(Some(out))
            &&& out.len() >= 9
            &&& out[0] == 1
            &&& number_at(out, 1) == 1000 * dims + if all_of_kind(values, 0) {
                4int
            } else if all_of_kind(values, 1) {
                5
            } else if all_of_kind(values, 2) {
                6
            } else {
                7
            }
            &&& number_at(out, 5) == without_nulls(values).len()
            &&& out.skip(9) == concatenated(geometries_in(values).0)
        }),
{
    let items = geometries_in(values).0;
    let d = dimensions_at(dims as int);
    lemma_items_of_rows(values, dims, 0);
    lemma_items_of_rows(values, dims, 1);
    lemma_items_of_rows(values, dims, 2);
    law_same_dimensions_are_collected(items, d);
    let same = |t: GeometryTypeId|
        forall|i: int| 0 <= i < items.len() ==> (#[trigger] items[i]).pair.geometry_type == t;
    let t = if same(GeometryTypeId::Point) {
        GeometryTypeId::MultiPoint
    } else if same(GeometryTypeId::LineString) {
        GeometryTypeId::MultiLineString
    } else if same(GeometryTypeId::Polygon) {
        GeometryTypeId::MultiPolygon
    } else {
        GeometryTypeId::GeometryCollection
    };
    let header = collection_header(t, d, items.len() as int);
    law_header_bytes(t, d, items.len() as int);
    let out = header + concatenated(items);
    assert(out.skip(9) =~= concatenated(items));
    assert(number_at(out, 1) == number_at(header, 1));
    assert(number_at(out, 5) == number_at(header, 5));
}

/// Rows whose geometries are all multi points, multi line strings, multi
/// polygons or geometry collections, in whatever mix, evaluate to a geometry
/// collection: its type code is 7, with a thousand for each step of the
/// dimensions.
pub proof fn law_multi_geometries_become_a_geometry_collection(
    values: Seq<Option<Seq<u8>>>,
    dims: u8,
)
    requires
        dims <= 3,
        all_with_dimensions(values, dims),
        0 < without_nulls(values).len() <= u32::MAX,
        forall|i: int|
            0 <= i < values.len() && #[trigger] values[i] is Some ==> wkb_parts(values[i]->0)->Ok_0.0
                >= 3,
    ensures
        ({
            let (after, failure) = update_values(CollectionView::fresh(), values);
            &&& failure is None
            &&& result_of(after) matches Ok(Some(out))
            &&& number_at(out, 1) == 7 + 1000 * dims
        }),
{
    law_what_rows_evaluate_to(values, dims);
    let i = lemma_some_value(values);
    assert(values[i] is Some);
}

proof fn lemma_some_value(values: Seq<Option<Seq<u8>>>) -> (i: int)
    requires
        without_nulls(values).len() > 0,
    ensures
        0 <= i < values.len(),
        values[i] is Some,
    decreases values.len(),
{
    let n = values.len() - 1;
    if values[n] is Some {
        n
    } else {
        lemma_some_value(values.drop_last())
    }
}

/// Whether a set holds one type only.
pub open spec fn only_type(types: Set<GeometryTypeAndDimensions>, t: GeometryTypeId) -> bool {
    has_type(types, t) && forall|u: GeometryTypeId| #[trigger] has_type(types, u) ==> u == t
}

/// Whether a set holds one kind of dimensions only.
pub open spec fn only_dimensions(types: Set<GeometryTypeAndDimensions>, d: Dimensions) -> bool {
    has_dimensions(types, d) && forall|e: Dimensions| #[trigger]
        has_dimensions(types, e) ==> e == d
}

proof fn lemma_only_one<T>(s: Seq<T>, x: T)
    requires
        s.no_duplicates(),
    ensures
        s.len() == 1 && s[0] == x <==> s.contains(x) && forall|y: T| #[trigger]
            s.contains(y) ==> y == x,
{
    if s.contains(x) && forall|y: T| #[trigger] s.contains(y) ==> y == x {
        if s.len() > 1 {
            assert(s.contains(s[0]));
            assert(s.contains(s[1]));
            assert(s[0] != s[1]);
        }
        assert(s.contains(s[0]));
    }
}

/// Whatever was collected or merged, without geometries the result is null,
/// and with mixed dimensions it is an error. Otherwise it is a header in place
/// of the first nine bytes of the item, unless there are too many geometries
/// or the item has been handed out.
pub proof fn law_what_a_state_evaluates_to(s: CollectionView, d: Dimensions)
    requires
        all_known(s.types),
        s.wf(),
        s.count >= 0,
    ensures
        s.count == 0 ==> result_of(s) == Ok::<Option<Seq<u8>>, CollectErrorView>(None),
        s.count > 0 && (forall|e: Dimensions| !#[trigger] only_dimensions(s.types, e))
            ==> result_of(s) == Err::<Option<Seq<u8>>, _>(CollectErrorView::MixedDimensions),
        s.count > u32::MAX && only_dimensions(s.types, d) ==> result_of(s) == Err::<
            Option<Seq<u8>>,
            _,
        >(CollectErrorView::TooManyGeometries { count: s.count }),
        0 < s.count <= u32::MAX && only_dimensions(s.types, d) && s.item is None ==> result_of(s)
            == Err::<Option<Seq<u8>>, _>(CollectErrorView::UnexpectedState),
        0 < s.count <= u32::MAX && only_dimensions(s.types, d) && s.item is Some ==> {
            &&& result_of(s) matches Ok(Some(out))
            &&& out.len() == s.item->0.len()
            &&& out.skip(9) == s.item->0.skip(9)
            &&& out[0] == 1
            &&& number_at(out, 1) == 1000 * dimensions_index(d)->0 + if only_type(
                s.types,
                GeometryTypeId::Point,
            ) {
                4int
            } else if only_type(s.types, GeometryTypeId::LineString) {
                5
            } else if only_type(s.types, GeometryTypeId::Polygon) {
                6
            } else {
                7
            }
            &&& number_at(out, 5) == s.count
        },
{
    law_distinct_types(s.types);
    law_distinct_dimensions(s.types);
    let types = distinct_types(s.types);
    let dimensions = distinct_dimensions(s.types);
    lemma_only_type(s.types, GeometryTypeId::Point);
    lemma_only_type(s.types, GeometryTypeId::LineString);
    lemma_only_type(s.types, GeometryTypeId::Polygon);
    lemma_only_dimensions(s.types, d);
    if dimensions.len() == 1 {
        lemma_only_dimensions(s.types, dimensions[0]);
    }
    if only_dimensions(s.types, d) {
        let p = choose|p: GeometryTypeAndDimensions| #[trigger]
            s.types.contains(p) && p.dimensions == d;
        assert(dimensions_index(d) is Some);
        if 0 < s.count <= u32::MAX && s.item is Some {
            let item = s.item->0;
            let header = collection_header(collection_type(types), d, s.count);
            law_header_bytes(collection_type(types), d, s.count);
            let out = header + item.skip(9);
            assert(out.skip(9) =~= item.skip(9));
            assert(number_at(out, 1) == number_at(header, 1));
            assert(number_at(out, 5) == number_at(header, 5));
        }
    }
}

proof fn lemma_only_type(types: Set<GeometryTypeAndDimensions>, t: GeometryTypeId)
    requires
        all_known(types),
    ensures
        distinct_types(types).len() == 1 && distinct_types(types)[0] == t <==> only_type(types, t),
{
    law_distinct_types(types);
    let list = distinct_types(types);
    lemma_only_one(list, t);
    if only_type(types, t) {
        assert(list.contains(t));
        assert forall|u: GeometryTypeId| #[trigger] list.contains(u) implies u == t by {
            assert(has_type(types, u));
        }
    }
    if list.contains(t) && forall|u: GeometryTypeId| #[trigger] list.contains(u) ==> u == t {
        assert(has_type(types, t));
        assert forall|u: GeometryTypeId| #[trigger] has_type(types, u) implies u == t by {
            assert(list.contains(u));
        }
    }
}

proof fn lemma_only_dimensions(types: Set<GeometryTypeAndDimensions>, d: Dimensions)
    requires
        all_known(types),
    ensures
        distinct_dimensions(types).len() == 1 && distinct_dimensions(types)[0] == d
            <==> only_dimensions(types, d),
{
    law_distinct_dimensions(types);
    let list = distinct_dimensions(types);
    lemma_only_one(list, d);
    if only_dimensions(types, d) {
        assert(list.contains(d));
        assert forall|e: Dimensions| #[trigger] list.contains(e) implies e == d by {
            assert(has_dimensions(types, e));
        }
    }
    if list.contains(d) && forall|e: Dimensions| #[trigger] list.contains(e) ==> e == d {
        assert(has_dimensions(types, d));
        assert forall|e: Dimensions| #[trigger] has_dimensions(types, e) implies e == d by {
            assert(list.contains(e));
        }
    }
}

/// The distinct elements of a list are listed in the order in which they first
/// occur: those of a first part come first.
pub proof fn law_first_occurrences_keep_their_order<T>(a: Seq<T>, b: Seq<T>)
    ensures
        first_occurrences(a).len() <= first_occurrences(a + b).len(),
        first_occurrences(a + b).take(first_occurrences(a).len() as int) == first_occurrences(a),
        first_occurrences(a).no_duplicates(),
        forall|x: T| first_occurrences(a).contains(x) <==> a.contains(x),
    decreases b.len(),
{
    lemma_first_occurrences(a);
    let all = first_occurrences(a + b);
    let before = first_occurrences(a);
    if b.len() > 0 {
        let shorter = b.drop_last();
        law_first_occurrences_keep_their_order(a, shorter);
        assert((a + b).drop_last() =~= a + shorter);
        let most = first_occurrences(a + shorter);
        assert(all.take(before.len() as int) =~= most.take(before.len() as int));
    } else {
        assert(a + b =~= a);
        assert(all.take(before.len() as int) =~= before);
    }
}

} // verus!
