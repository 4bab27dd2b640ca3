//! What holds of collecting as a whole: how rows are batched and how work is
//! split between workers does not matter, and what type a collection gets.
use vstd::prelude::*;

#[allow(unused_imports)]
use crate::geometry_types::{
    all_pairs, dimensions_index, in_order, law_pair_name_round_trip, law_type_name_round_trip,
    lemma_pair_name_is_plain, lemma_type_name_is_plain, pair_at, place_of, Dimensions,
    GeometryTypeAndDimensions, GeometryTypeId,
};
#[allow(unused_imports)]
use crate::st_collect_agg::{
    accumulate, after_result, all_known, cross, dimension_names, dimensions_named, dimensions_of,
    distinct_dimensions, distinct_types, geometries_in, lemma_first_occurrences,
    lemma_in_order_members, merge_rows, merge_state, merge_states, mergeable, plain_state,
    result_of, state_of, type_names, types_named, types_of, update_values, with_partial,
    written_rows, CollectErrorView, CollectionView, GeometryView, StateView,
};
#[allow(unused_imports)]
use crate::wkb::{collection_header, lemma_header_size, WKB_HEADER_SIZE};

verus! {

/// The bytes of geometries one after the other.
pub open spec fn concatenated(items: Seq<GeometryView>) -> Seq<u8>
    decreases items.len(),
{
    if items.len() == 0 {
        Seq::empty()
    } else {
        concatenated(items.drop_last()) + items.last().bytes
    }
}

/// Batches of geometries one after the other.
pub open spec fn flattened(parts: Seq<Seq<GeometryView>>) -> Seq<GeometryView>
    decreases parts.len(),
{
    if parts.len() == 0 {
        Seq::empty()
    } else {
        flattened(parts.drop_last()) + parts.last()
    }
}

/// Whether the dimensions of every geometry are known, as they are of every
/// geometry in well-known binary.
pub open spec fn known_dimensions(items: Seq<GeometryView>) -> bool {
    forall|i: int|
        0 <= i < items.len() ==> dimensions_index((#[trigger] items[i]).pair.dimensions) is Some
}

/// Whether a geometry type occurs in a set of combinations.
pub open spec fn has_type(types: Set<GeometryTypeAndDimensions>, t: GeometryTypeId) -> bool {
    exists|p: GeometryTypeAndDimensions| #[trigger] types.contains(p) && p.geometry_type == t
}

/// Whether dimensions occur in a set of combinations.
pub open spec fn has_dimensions(types: Set<GeometryTypeAndDimensions>, d: Dimensions) -> bool {
    exists|p: GeometryTypeAndDimensions| #[trigger] types.contains(p) && p.dimensions == d
}

/// Whether two accumulators have seen the same geometries, the same geometry
/// types and the same dimensions. Which type occurred with which dimensions
/// may differ.
pub open spec fn alike(a: CollectionView, b: CollectionView) -> bool {
    &&& a.count == b.count
    &&& a.item == b.item
    &&& forall|t: GeometryTypeId| #[trigger] has_type(a.types, t) == has_type(b.types, t)
    &&& forall|d: Dimensions| #[trigger] has_dimensions(a.types, d) == has_dimensions(b.types, d)
}

proof fn lemma_in_order_contains(types: Set<GeometryTypeAndDimensions>, p: GeometryTypeAndDimensions)
    requires
        all_known(types),
    ensures
        in_order(types).contains(p) <==> types.contains(p),
{
    broadcast use vstd::seq_lib::group_filter_ensures;

    let member = |p: GeometryTypeAndDimensions| types.contains(p);
    if types.contains(p) {
        let i = place_of(p);
        assert(pair_at(i) == p);
        assert(all_pairs()[i] == p);
        assert(member(all_pairs()[i]));
        assert(all_pairs().filter(member).contains(all_pairs()[i]));
    }
    if in_order(types).contains(p) {
        let i = choose|i: int| 0 <= i < in_order(types).len() && in_order(types)[i] == p;
        lemma_in_order_members(types, i);
    }
}

/// The distinct types of a set are those that occur in it, each once.
pub proof fn law_distinct_types(types: Set<GeometryTypeAndDimensions>)
    requires
        all_known(types),
    ensures
        distinct_types(types).no_duplicates(),
        forall|t: GeometryTypeId|
            #![trigger distinct_types(types).contains(t)]
            #![trigger has_type(types, t)]
            distinct_types(types).contains(t) <==> has_type(types, t),
{
    let pairs = in_order(types);
    let all = types_of(pairs);
    lemma_first_occurrences(all);
    assert forall|t: GeometryTypeId|
        #![trigger distinct_types(types).contains(t)]
        #![trigger has_type(types, t)]
        distinct_types(types).contains(t) <==> has_type(types, t) by {
        if all.contains(t) {
            let i = choose|i: int| 0 <= i < all.len() && all[i] == t;
            lemma_in_order_members(types, i);
            assert(types.contains(pairs[i]) && pairs[i].geometry_type == t);
        }
        if has_type(types, t) {
            let p = choose|p: GeometryTypeAndDimensions| #[trigger]
                types.contains(p) && p.geometry_type == t;
            lemma_in_order_contains(types, p);
            let i = choose|i: int| 0 <= i < pairs.len() && pairs[i] == p;
            assert(all[i] == t);
            assert(all.contains(t));
        }
    }
}

/// The distinct dimensions of a set are those that occur in it, each once.
pub proof fn law_distinct_dimensions(types: Set<GeometryTypeAndDimensions>)
    requires
        all_known(types),
    ensures
        distinct_dimensions(types).no_duplicates(),
        forall|d: Dimensions|
            #![trigger distinct_dimensions(types).contains(d)]
            #![trigger has_dimensions(types, d)]
            distinct_dimensions(types).contains(d) <==> has_dimensions(types, d),
{
    let pairs = in_order(types);
    let all = dimensions_of(pairs);
    lemma_first_occurrences(all);
    assert forall|d: Dimensions|
        #![trigger distinct_dimensions(types).contains(d)]
        #![trigger has_dimensions(types, d)]
        distinct_dimensions(types).contains(d) <==> has_dimensions(types, d) by {
        if all.contains(d) {
            let i = choose|i: int| 0 <= i < all.len() && all[i] == d;
            lemma_in_order_members(types, i);
            assert(types.contains(pairs[i]) && pairs[i].dimensions == d);
        }
        if has_dimensions(types, d) {
            let p = choose|p: GeometryTypeAndDimensions| #[trigger]
                types.contains(p) && p.dimensions == d;
            lemma_in_order_contains(types, p);
            let i = choose|i: int| 0 <= i < pairs.len() && pairs[i] == p;
            assert(all[i] == d);
            assert(all.contains(d));
        }
    }
}

proof fn lemma_same_members<T>(a: Seq<T>, b: Seq<T>)
    requires
        a.no_duplicates(),
        b.no_duplicates(),
        forall|x: T| a.contains(x) <==> b.contains(x),
    ensures
        a.len() == b.len(),
        a.len() == 1 ==> a[0] == b[0],
{
    a.unique_seq_to_set();
    b.unique_seq_to_set();
    assert(a.to_set() =~= b.to_set());
    if a.len() == 1 {
        assert(b.contains(b[0]));
        assert(a.contains(b[0]));
    }
}

/// Accumulators that are alike give the same result.
pub proof fn law_alike_gives_same_result(a: CollectionView, b: CollectionView)
    requires
        alike(a, b),
        all_known(a.types),
        all_known(b.types),
    ensures
        result_of(a) == result_of(b),
{
    law_distinct_types(a.types);
    law_distinct_types(b.types);
    law_distinct_dimensions(a.types);
    law_distinct_dimensions(b.types);
    assert forall|t: GeometryTypeId|
        distinct_types(a.types).contains(t) <==> distinct_types(b.types).contains(t) by {
        assert(has_type(a.types, t) == has_type(b.types, t));
    }
    assert forall|d: Dimensions|
        distinct_dimensions(a.types).contains(d) <==> distinct_dimensions(b.types).contains(d) by {
        assert(has_dimensions(a.types, d) == has_dimensions(b.types, d));
    }
    lemma_same_members(distinct_types(a.types), distinct_types(b.types));
    lemma_same_members(distinct_dimensions(a.types), distinct_dimensions(b.types));
}

/// Every geometry is counted, its bytes are kept in order, and its type and
/// dimensions are noted; nothing else is.
pub proof fn law_everything_is_collected(s: CollectionView, items: Seq<GeometryView>)
    requires
        s.item is Some,
    ensures
        accumulate(s, items).count == s.count + items.len(),
        accumulate(s, items).item == Some(s.item->0 + concatenated(items)),
        forall|p: GeometryTypeAndDimensions| #[trigger]
            accumulate(s, items).types.contains(p) <==> s.types.contains(p) || exists|i: int|
                0 <= i < items.len() && (#[trigger] items[i]).pair == p,
    decreases items.len(),
{
    if items.len() == 0 {
        assert(s.item->0 + concatenated(items) =~= s.item->0);
    } else {
        let head = items.drop_last();
        let last = items.last();
        law_everything_is_collected(s, head);
        assert((s.item->0 + concatenated(head)) + last.bytes =~= s.item->0 + (concatenated(head)
            + last.bytes));
        assert forall|p: GeometryTypeAndDimensions| #[trigger]
            accumulate(s, items).types.contains(p) <==> s.types.contains(p) || exists|i: int|
                0 <= i < items.len() && (#[trigger] items[i]).pair == p by {
            if exists|i: int| 0 <= i < items.len() && (#[trigger] items[i]).pair == p {
                let i = choose|i: int| 0 <= i < items.len() && (#[trigger] items[i]).pair == p;
                if i < head.len() {
                    assert(head[i].pair == p);
                }
            }
            if accumulate(s, items).types.contains(p) {
                if p == last.pair {
                    assert(items[items.len() - 1].pair == p);
                } else if !s.types.contains(p) {
                    assert(accumulate(s, head).types.contains(p));
                    let i = choose|i: int| 0 <= i < head.len() && (#[trigger] head[i]).pair == p;
                    assert(items[i].pair == p);
                }
            }
        }
    }
}

/// It does not matter how rows are cut into batches.
pub proof fn law_batches_compose(
    s: CollectionView,
    xs: Seq<GeometryView>,
    ys: Seq<GeometryView>,
)
    ensures
        accumulate(accumulate(s, xs), ys) == accumulate(s, xs + ys),
    decreases ys.len(),
{
    if ys.len() == 0 {
        assert(xs + ys =~= xs);
    } else {
        law_batches_compose(s, xs, ys.drop_last());
        assert((xs + ys).drop_last() =~= xs + ys.drop_last());
    }
}

proof fn lemma_known_after(s: CollectionView, items: Seq<GeometryView>)
    requires
        s.item is Some,
        all_known(s.types),
        known_dimensions(items),
    ensures
        all_known(accumulate(s, items).types),
{
    law_everything_is_collected(s, items);
    let after = accumulate(s, items).types;
    assert forall|p: GeometryTypeAndDimensions| #[trigger] after.contains(
        p,
    ) implies dimensions_index(p.dimensions) is Some by {
        if !s.types.contains(p) {
            let i = choose|i: int| 0 <= i < items.len() && (#[trigger] items[i]).pair == p;
            assert(dimensions_index(items[i].pair.dimensions) is Some);
        }
    }
}

/// The names in a partial result can stand in JSON as they are.
pub proof fn law_state_is_plain(s: CollectionView)
    ensures
        plain_state(state_of(s)),
{
    let types = distinct_types(s.types);
    let dimensions = distinct_dimensions(s.types);
    assert forall|i: int| 0 <= i < types.len() implies crate::geometry_types::plain(
        #[trigger] type_names(types)[i],
    ) by {
        lemma_type_name_is_plain(types[i]);
    }
    assert forall|i: int| 0 <= i < dimensions.len() implies crate::geometry_types::plain(
        #[trigger] dimension_names(dimensions)[i],
    ) by {
        lemma_pair_name_is_plain(
            GeometryTypeAndDimensions {
                geometry_type: GeometryTypeId::Geometry,
                dimensions: dimensions[i],
            },
        );
    }
}

proof fn lemma_types_read_back(types: Seq<GeometryTypeId>)
    ensures
        types_named(type_names(types)) == Ok::<_, Seq<char>>(types),
    decreases types.len(),
{
    if types.len() > 0 {
        let head = types.drop_last();
        lemma_types_read_back(head);
        assert(type_names(types).drop_last() =~= type_names(head));
        law_type_name_round_trip(types.last());
        assert(head.push(types.last()) =~= types);
    } else {
        assert(types =~= Seq::empty());
    }
}

proof fn lemma_dimensions_read_back(dimensions: Seq<Dimensions>)
    requires
        forall|i: int|
            0 <= i < dimensions.len() ==> dimensions_index(#[trigger] dimensions[i]) is Some,
    ensures
        dimensions_named(dimension_names(dimensions)) == Ok::<_, Seq<char>>(dimensions),
    decreases dimensions.len(),
{
    if dimensions.len() > 0 {
        let head = dimensions.drop_last();
        lemma_dimensions_read_back(head);
        assert(dimension_names(dimensions).drop_last() =~= dimension_names(head));
        law_pair_name_round_trip(
            GeometryTypeAndDimensions {
                geometry_type: GeometryTypeId::Geometry,
                dimensions: dimensions.last(),
            },
        );
        assert(head.push(dimensions.last()) =~= dimensions);
    } else {
        assert(dimensions =~= Seq::empty());
    }
}

/// Merging the partial result of a worker comes to seeing its geometries: the
/// state carries over the geometry types, the dimensions, the count and the
/// geometries.
pub proof fn law_merging_is_collecting(
    b: CollectionView,
    c: CollectionView,
    xs: Seq<GeometryView>,
)
    requires
        alike(b, c),
        b.item is Some,
        all_known(b.types),
        all_known(c.types),
        known_dimensions(xs),
    ensures
        ({
            let merged = merge_state(b, state_of(accumulate(CollectionView::fresh(), xs)));
            &&& merged is Ok
            &&& alike(merged->Ok_0, accumulate(c, xs))
            &&& all_known(merged->Ok_0.types)
            &&& merged->Ok_0.item is Some
        }),
{
    let fresh = CollectionView::fresh();
    let a = accumulate(fresh, xs);
    let state = state_of(a);
    let types = distinct_types(a.types);
    let dimensions = distinct_dimensions(a.types);
    law_everything_is_collected(fresh, xs);
    law_everything_is_collected(c, xs);
    lemma_known_after(fresh, xs);
    lemma_known_after(c, xs);
    law_distinct_types(a.types);
    law_distinct_dimensions(a.types);
    assert forall|i: int| 0 <= i < dimensions.len() implies dimensions_index(
        #[trigger] dimensions[i],
    ) is Some by {
        assert(dimensions.contains(dimensions[i]));
        assert(has_dimensions(a.types, dimensions[i]));
    }
    lemma_types_read_back(types);
    lemma_dimensions_read_back(dimensions);
    let m = with_partial(b, types, dimensions, a.count, a.item->0);
    assert(merge_state(b, state) == Ok::<_, CollectErrorView>(m));
    let end = accumulate(c, xs);
    lemma_header_size(GeometryTypeId::GeometryCollection, Dimensions::Xy, 0);
    assert(a.item->0.skip(WKB_HEADER_SIZE as int) =~= concatenated(xs));
    assert(m.item == end.item);
    assert(m.count == end.count);
    assert forall|p: GeometryTypeAndDimensions| #[trigger] m.types.contains(
        p,
    ) implies dimensions_index(p.dimensions) is Some by {
        if !b.types.contains(p) {
            assert(dimensions.contains(p.dimensions));
            assert(has_dimensions(a.types, p.dimensions));
        }
    }
    assert forall|t: GeometryTypeId| #[trigger]
        has_type(m.types, t) == has_type(end.types, t) by {
        lemma_type_marginal(b, c, xs, t);
    }
    assert forall|d: Dimensions| #[trigger]
        has_dimensions(m.types, d) == has_dimensions(end.types, d) by {
        lemma_dimensions_marginal(b, c, xs, d);
    }
}

proof fn lemma_type_marginal(
    b: CollectionView,
    c: CollectionView,
    xs: Seq<GeometryView>,
    t: GeometryTypeId,
)
    requires
        has_type(b.types, t) == has_type(c.types, t),
        c.item is Some,
        known_dimensions(xs),
    ensures
        ({
            let a = accumulate(CollectionView::fresh(), xs).types;
            has_type(b.types.union(cross(distinct_types(a), distinct_dimensions(a))), t)
                == has_type(accumulate(c, xs).types, t)
        }),
{
    let fresh = CollectionView::fresh();
    let a = accumulate(fresh, xs).types;
    let m = b.types.union(cross(distinct_types(a), distinct_dimensions(a)));
    let end = accumulate(c, xs).types;
    law_everything_is_collected(fresh, xs);
    law_everything_is_collected(c, xs);
    lemma_known_after(fresh, xs);
    law_distinct_types(a);
    law_distinct_dimensions(a);
    if has_type(m, t) {
        let p = choose|p: GeometryTypeAndDimensions| #[trigger]
            m.contains(p) && p.geometry_type == t;
        if b.types.contains(p) {
            assert(has_type(c.types, t));
            let q = choose|q: GeometryTypeAndDimensions| #[trigger]
                c.types.contains(q) && q.geometry_type == t;
            assert(end.contains(q));
        } else {
            assert(distinct_types(a).contains(t));
            assert(has_type(a, t));
            let q = choose|q: GeometryTypeAndDimensions| #[trigger]
                a.contains(q) && q.geometry_type == t;
            assert(end.contains(q));
        }
    }
    if has_type(end, t) {
        let p = choose|p: GeometryTypeAndDimensions| #[trigger]
            end.contains(p) && p.geometry_type == t;
        if c.types.contains(p) {
            assert(has_type(b.types, t));
            let q = choose|q: GeometryTypeAndDimensions| #[trigger]
                b.types.contains(q) && q.geometry_type == t;
            assert(m.contains(q));
        } else {
            assert(a.contains(p));
            assert(has_type(a, p.geometry_type));
            assert(has_dimensions(a, p.dimensions));
            assert(distinct_types(a).contains(p.geometry_type));
            assert(distinct_dimensions(a).contains(p.dimensions));
            assert(m.contains(p));
        }
    }
}

proof fn lemma_dimensions_marginal(
    b: CollectionView,
    c: CollectionView,
    xs: Seq<GeometryView>,
    d: Dimensions,
)
    requires
        has_dimensions(b.types, d) == has_dimensions(c.types, d),
        c.item is Some,
        known_dimensions(xs),
    ensures
        ({
            let a = accumulate(CollectionView::fresh(), xs).types;
            has_dimensions(b.types.union(cross(distinct_types(a), distinct_dimensions(a))), d)
                == has_dimensions(accumulate(c, xs).types, d)
        }),
{
    let fresh = CollectionView::fresh();
    let a = accumulate(fresh, xs).types;
    let m = b.types.union(cross(distinct_types(a), distinct_dimensions(a)));
    let end = accumulate(c, xs).types;
    law_everything_is_collected(fresh, xs);
    law_everything_is_collected(c, xs);
    lemma_known_after(fresh, xs);
    law_distinct_types(a);
    law_distinct_dimensions(a);
    if has_dimensions(m, d) {
        let p = choose|p: GeometryTypeAndDimensions| #[trigger] m.contains(p) && p.dimensions == d;
        if b.types.contains(p) {
            assert(has_dimensions(c.types, d));
            let q = choose|q: GeometryTypeAndDimensions| #[trigger]
                c.types.contains(q) && q.dimensions == d;
            assert(end.contains(q));
        } else {
            assert(distinct_dimensions(a).contains(d));
            assert(has_dimensions(a, d));
            let q = choose|q: GeometryTypeAndDimensions| #[trigger]
                a.contains(q) && q.dimensions == d;
            assert(end.contains(q));
        }
    }
    if has_dimensions(end, d) {
        let p = choose|p: GeometryTypeAndDimensions| #[trigger]
            end.contains(p) && p.dimensions == d;
        if c.types.contains(p) {
            assert(has_dimensions(b.types, d));
            let q = choose|q: GeometryTypeAndDimensions| #[trigger]
                b.types.contains(q) && q.dimensions == d;
            assert(m.contains(q));
        } else {
            assert(a.contains(p));
            assert(has_type(a, p.geometry_type));
            assert(has_dimensions(a, p.dimensions));
            assert(distinct_types(a).contains(p.geometry_type));
            assert(distinct_dimensions(a).contains(p.dimensions));
            assert(m.contains(p));
        }
    }
}

/// The partial results of workers that have each seen one batch.
pub open spec fn partial_results(parts: Seq<Seq<GeometryView>>) -> Seq<StateView> {
    parts.map_values(
        |xs: Seq<GeometryView>| state_of(accumulate(CollectionView::fresh(), xs)),
    )
}

/// It does not matter how the work is split: merging the partial results of
/// any number of workers gives what one worker would give that saw all the
/// geometries.
pub proof fn law_work_can_be_split(parts: Seq<Seq<GeometryView>>)
    requires
        forall|i: int| 0 <= i < parts.len() ==> known_dimensions(#[trigger] parts[i]),
    ensures
        ({
            let merged = merge_states(CollectionView::fresh(), partial_results(parts));
            let whole = accumulate(CollectionView::fresh(), flattened(parts));
            &&& merged.1 is None
            &&& alike(merged.0, whole)
            &&& result_of(merged.0) == result_of(whole)
        }),
{
    lemma_split(parts);
    let merged = merge_states(CollectionView::fresh(), partial_results(parts));
    let whole = accumulate(CollectionView::fresh(), flattened(parts));
    law_alike_gives_same_result(merged.0, whole);
}

proof fn lemma_split(parts: Seq<Seq<GeometryView>>)
    requires
        forall|i: int| 0 <= i < parts.len() ==> known_dimensions(#[trigger] parts[i]),
    ensures
        ({
            let merged = merge_states(CollectionView::fresh(), partial_results(parts));
            let whole = accumulate(CollectionView::fresh(), flattened(parts));
            &&& merged.1 is None
            &&& alike(merged.0, whole)
            &&& all_known(merged.0.types)
            &&& all_known(whole.types)
            &&& merged.0.item is Some
        }),
    decreases parts.len(),
{
    let fresh = CollectionView::fresh();
    if parts.len() > 0 {
        let head = parts.drop_last();
        let last = parts.last();
        assert forall|i: int| 0 <= i < head.len() implies known_dimensions(#[trigger] head[i]) by {
            assert(head[i] == parts[i]);
        }
        assert(known_dimensions(parts[parts.len() - 1]));
        lemma_split(head);
        assert(partial_results(parts).drop_last() =~= partial_results(head));
        let before = merge_states(fresh, partial_results(head)).0;
        let whole = accumulate(fresh, flattened(head));
        law_merging_is_collecting(before, whole, last);
        law_batches_compose(fresh, flattened(head), last);
        lemma_known_after(whole, last);
    } else {
        assert(flattened(parts) =~= Seq::empty());
    }
}

/// Without geometries the result is null.
pub proof fn law_nothing_gives_null()
    ensures
        result_of(accumulate(CollectionView::fresh(), Seq::empty())) == Ok::<
            Option<Seq<u8>>,
            CollectErrorView,
        >(None),
{
}

/// Geometries of the same dimensions are collected: all points into a multi
/// point, all line strings into a multi line string, all polygons into a multi
/// polygon, and all else into a geometry collection. The result has the
/// dimensions of the geometries, their number and their bytes in order.
pub proof fn law_same_dimensions_are_collected(items: Seq<GeometryView>, d: Dimensions)
    requires
        0 < items.len() <= u32::MAX,
        dimensions_index(d) is Some,
        forall|i: int| 0 <= i < items.len() ==> (#[trigger] items[i]).pair.dimensions == d,
    ensures
        ({
            let same = |t: GeometryTypeId|
                forall|i: int| 0 <= i < items.len() ==> (#[trigger] items[i]).pair.geometry_type == t;
            let collection = if same(GeometryTypeId::Point) {
                GeometryTypeId::MultiPoint
            } else if same(GeometryTypeId::LineString) {
                GeometryTypeId::MultiLineString
            } else if same(GeometryTypeId::Polygon) {
                GeometryTypeId::MultiPolygon
            } else {
                GeometryTypeId::GeometryCollection
            };
            result_of(accumulate(CollectionView::fresh(), items)) == Ok::<
                Option<Seq<u8>>,
                CollectErrorView,
            >(Some(collection_header(collection, d, items.len() as int) + concatenated(items)))
        }),
{
    let fresh = CollectionView::fresh();
    let s = accumulate(fresh, items);
    law_everything_is_collected(fresh, items);
    lemma_known_after(fresh, items);
    law_distinct_types(s.types);
    law_distinct_dimensions(s.types);
    let dimensions = distinct_dimensions(s.types);
    let types = distinct_types(s.types);
    let first = items[0].pair;
    assert(s.types.contains(first));
    assert(has_dimensions(s.types, d));
    assert forall|e: Dimensions| dimensions.contains(e) <==> seq![d].contains(e) by {
        assert(seq![d][0] == d);
        if dimensions.contains(e) {
            assert(has_dimensions(s.types, e));
            let p = choose|p: GeometryTypeAndDimensions| #[trigger]
                s.types.contains(p) && p.dimensions == e;
            let i = choose|i: int| 0 <= i < items.len() && (#[trigger] items[i]).pair == p;
            assert(items[i].pair.dimensions == d);
        }
    }
    lemma_same_members(dimensions, seq![d]);
    assert forall|t: GeometryTypeId| types.contains(t) <==> exists|i: int|
        0 <= i < items.len() && (#[trigger] items[i]).pair.geometry_type == t by {
        if types.contains(t) {
            assert(has_type(s.types, t));
            let p = choose|p: GeometryTypeAndDimensions| #[trigger]
                s.types.contains(p) && p.geometry_type == t;
            let i = choose|i: int| 0 <= i < items.len() && (#[trigger] items[i]).pair == p;
            assert(items[i].pair.geometry_type == t);
        }
        if exists|i: int| 0 <= i < items.len() && (#[trigger] items[i]).pair.geometry_type == t {
            let i = choose|i: int|
                0 <= i < items.len() && (#[trigger] items[i]).pair.geometry_type == t;
            assert(s.types.contains(items[i].pair));
            assert(has_type(s.types, t));
        }
    }
    assert(types.contains(first.geometry_type));
    if types.len() == 1 {
        assert forall|i: int| 0 <= i < items.len() implies (#[trigger] items[i]).pair.geometry_type
            == types[0] by {
            assert(types.contains(items[i].pair.geometry_type));
        }
    } else {
        let t0 = types[0];
        let t1 = types[1];
        assert(types.contains(t0) && types.contains(t1));
        let i0 = choose|i: int|
            0 <= i < items.len() && (#[trigger] items[i]).pair.geometry_type == t0;
        let i1 = choose|i: int|
            0 <= i < items.len() && (#[trigger] items[i]).pair.geometry_type == t1;
        assert(items[i0].pair.geometry_type != items[i1].pair.geometry_type);
    }
    lemma_header_size(GeometryTypeId::GeometryCollection, Dimensions::Xy, 0);
    assert(s.item->0.skip(WKB_HEADER_SIZE as int) =~= concatenated(items));
}

/// Geometries of different dimensions are not collected.
pub proof fn law_mixed_dimensions_fail(items: Seq<GeometryView>, i: int, j: int)
    requires
        known_dimensions(items),
        0 <= i < items.len(),
        0 <= j < items.len(),
        items[i].pair.dimensions != items[j].pair.dimensions,
    ensures
        result_of(accumulate(CollectionView::fresh(), items)) == Err::<Option<Seq<u8>>, _>(
            CollectErrorView::MixedDimensions,
        ),
{
    let fresh = CollectionView::fresh();
    let s = accumulate(fresh, items);
    law_everything_is_collected(fresh, items);
    lemma_known_after(fresh, items);
    law_distinct_dimensions(s.types);
    assert(s.types.contains(items[i].pair) && s.types.contains(items[j].pair));
    assert(has_dimensions(s.types, items[i].pair.dimensions));
    assert(has_dimensions(s.types, items[j].pair.dimensions));
    assert(distinct_dimensions(s.types).contains(items[i].pair.dimensions));
    assert(distinct_dimensions(s.types).contains(items[j].pair.dimensions));
}

/// The partial result of a worker names geometry types if and only if it names
/// dimensions.
pub proof fn law_marginals_are_empty_together(items: Seq<GeometryView>)
    requires
        known_dimensions(items),
    ensures
        ({
            let state = state_of(accumulate(CollectionView::fresh(), items));
            &&& state.geometry_types.len() == 0 <==> items.len() == 0
            &&& state.dimensions.len() == 0 <==> items.len() == 0
        }),
{
    let fresh = CollectionView::fresh();
    let types = accumulate(fresh, items).types;
    law_everything_is_collected(fresh, items);
    lemma_known_after(fresh, items);
    law_distinct_types(types);
    law_distinct_dimensions(types);
    if items.len() > 0 {
        let p = items[0].pair;
        assert(types.contains(p));
        assert(has_type(types, p.geometry_type));
        assert(has_dimensions(types, p.dimensions));
        assert(distinct_types(types).contains(p.geometry_type));
        assert(distinct_dimensions(types).contains(p.dimensions));
    } else {
        if distinct_types(types).len() > 0 {
            assert(distinct_types(types).contains(distinct_types(types)[0]));
            assert(has_type(types, distinct_types(types)[0]));
        }
        if distinct_dimensions(types).len() > 0 {
            assert(distinct_dimensions(types).contains(distinct_dimensions(types)[0]));
            assert(has_dimensions(types, distinct_dimensions(types)[0]));
        }
    }
}

/// An accumulator keeps room for a header in front of the geometries, whatever
/// it takes in.
pub proof fn law_room_for_a_header_is_kept(s: CollectionView, items: Seq<GeometryView>)
    requires
        s.wf(),
        s.item is Some,
    ensures
        CollectionView::fresh().wf(),
        accumulate(s, items).wf(),
{
    law_everything_is_collected(s, items);
    lemma_header_size(GeometryTypeId::GeometryCollection, Dimensions::Xy, 0);
}

/// The values that are not null.
pub open spec fn without_nulls(values: Seq<Option<Seq<u8>>>) -> Seq<Option<Seq<u8>>>
    decreases values.len(),
{
    if values.len() == 0 {
        Seq::empty()
    } else if values.last() is None {
        without_nulls(values.drop_last())
    } else {
        without_nulls(values.drop_last()).push(values.last())
    }
}

/// Nulls do not matter: rows are collected as if the nulls among them were
/// left out.
pub proof fn law_nulls_do_not_matter(values: Seq<Option<Seq<u8>>>)
    ensures
        geometries_in(without_nulls(values)) == geometries_in(values),
    decreases values.len(),
{
    if values.len() > 0 {
        let head = values.drop_last();
        law_nulls_do_not_matter(head);
        if values.last() is Some {
            assert(without_nulls(values).drop_last() =~= without_nulls(head));
        }
    }
}

/// Rows are read the same in two batches as in one: if the first batch has no
/// bad value, the geometries of both follow one another; if it has one,
/// nothing behind it is read.
pub proof fn law_rows_are_read_in_batches(a: Seq<Option<Seq<u8>>>, b: Seq<Option<Seq<u8>>>)
    ensures
        geometries_in(a + b) == if geometries_in(a).1 is Some {
            geometries_in(a)
        } else {
            (geometries_in(a).0 + geometries_in(b).0, geometries_in(b).1)
        },
    decreases b.len(),
{
    if b.len() == 0 {
        assert(a + b =~= a);
        assert(geometries_in(a).0 + Seq::empty() =~= geometries_in(a).0);
    } else {
        let head = b.drop_last();
        law_rows_are_read_in_batches(a, head);
        assert((a + b).drop_last() =~= a + head);
        assert((a + b).last() == b.last());
        if geometries_in(a).1 is None {
            assert(geometries_in(a + b).0 =~= geometries_in(a).0 + geometries_in(b).0);
        }
    }
}

/// The dimensions of geometries that were read are known.
pub proof fn law_read_dimensions_are_known(values: Seq<Option<Seq<u8>>>)
    ensures
        known_dimensions(geometries_in(values).0),
    decreases values.len(),
{
    if values.len() > 0 {
        let head = values.drop_last();
        law_read_dimensions_are_known(head);
        let before = geometries_in(head).0;
        let all = geometries_in(values).0;
        assert forall|i: int| 0 <= i < all.len() implies dimensions_index(
            (#[trigger] all[i]).pair.dimensions,
        ) is Some by {
            if i < before.len() {
                assert(all[i] == before[i]);
            }
        }
    }
}

/// Batches of rows one after the other.
pub open spec fn all_rows(batches: Seq<Seq<Option<Seq<u8>>>>) -> Seq<Option<Seq<u8>>>
    decreases batches.len(),
{
    if batches.len() == 0 {
        Seq::empty()
    } else {
        all_rows(batches.drop_last()) + batches.last()
    }
}

/// The geometries of each batch.
pub open spec fn geometries_of(batches: Seq<Seq<Option<Seq<u8>>>>) -> Seq<Seq<GeometryView>> {
    batches.map_values(|rows: Seq<Option<Seq<u8>>>| geometries_in(rows).0)
}

/// Whether every value of every batch is null or a geometry.
pub open spec fn all_readable(batches: Seq<Seq<Option<Seq<u8>>>>) -> bool {
    forall|i: int| 0 <= i < batches.len() ==> geometries_in(#[trigger] batches[i]).1 is None
}

/// However rows are dealt out to workers, merging their partial results gives
/// the collection that one worker makes of all the rows in order.
pub proof fn law_rows_can_be_dealt_out(batches: Seq<Seq<Option<Seq<u8>>>>)
    ensures
        all_readable(batches) ==> {
            let merged = merge_states(
                CollectionView::fresh(),
                partial_results(geometries_of(batches)),
            );
            let whole = accumulate(
                CollectionView::fresh(),
                geometries_in(all_rows(batches)).0,
            );
            &&& geometries_in(all_rows(batches)).1 is None
            &&& merged.1 is None
            &&& result_of(merged.0) == result_of(whole)
        },
{
    if all_readable(batches) {
        lemma_all_rows(batches);
        let parts = geometries_of(batches);
        assert forall|i: int| 0 <= i < parts.len() implies known_dimensions(
            #[trigger] parts[i],
        ) by {
            law_read_dimensions_are_known(batches[i]);
        }
        law_work_can_be_split(parts);
    }
}

proof fn lemma_all_rows(batches: Seq<Seq<Option<Seq<u8>>>>)
    requires
        all_readable(batches),
    ensures
        geometries_in(all_rows(batches)).1 is None,
        geometries_in(all_rows(batches)).0 == flattened(geometries_of(batches)),
    decreases batches.len(),
{
    if batches.len() > 0 {
        let head = batches.drop_last();
        assert forall|i: int| 0 <= i < head.len() implies geometries_in(
            #[trigger] head[i],
        ).1 is None by {
            assert(head[i] == batches[i]);
        }
        assert(geometries_in(batches[batches.len() - 1]).1 is None);
        lemma_all_rows(head);
        law_rows_are_read_in_batches(all_rows(head), batches.last());
        assert(geometries_of(batches).drop_last() =~= geometries_of(head));
    }
}

/// A worker's partial result is merged as its rows would be collected: the
/// state that it writes can be merged as long as the count fits, this does not
/// fail, and the result is the one of seeing the rows of both in order.
pub proof fn law_merging_a_worker_is_updating(
    rows: Seq<Option<Seq<u8>>>,
    worker_rows: Seq<Option<Seq<u8>>>,
)
    ensures
        geometries_in(rows).1 is None && geometries_in(worker_rows).1 is None ==> {
            let own = geometries_in(rows).0;
            let theirs = geometries_in(worker_rows).0;
            let acc = accumulate(CollectionView::fresh(), own);
            let state = state_of(accumulate(CollectionView::fresh(), theirs));
            let merged = merge_states(acc, seq![state]);
            &&& plain_state(state)
            &&& own.len() + theirs.len() <= i64::MAX ==> mergeable(
                acc,
                written_rows(seq![state]),
            )
            &&& merged.1 is None
            &&& result_of(merged.0) == result_of(accumulate(acc, theirs))
            &&& accumulate(acc, theirs) == accumulate(
                CollectionView::fresh(),
                geometries_in(rows + worker_rows).0,
            )
        },
{
    if geometries_in(rows).1 is None && geometries_in(worker_rows).1 is None {
        let fresh = CollectionView::fresh();
        let own = geometries_in(rows).0;
        let theirs = geometries_in(worker_rows).0;
        let acc = accumulate(fresh, own);
        let worker = accumulate(fresh, theirs);
        let state = state_of(worker);
        law_read_dimensions_are_known(rows);
        law_read_dimensions_are_known(worker_rows);
        law_everything_is_collected(fresh, own);
        law_everything_is_collected(fresh, theirs);
        lemma_known_after(fresh, own);
        lemma_known_after(acc, theirs);
        law_state_is_plain(worker);
        law_merging_is_collecting(acc, acc, theirs);
        assert(seq![state].drop_last() =~= Seq::empty());
        assert(merge_states(acc, seq![state].drop_last()) == (acc, None::<CollectErrorView>));
        let merged = merge_states(acc, seq![state]);
        assert(merged.0 == merge_state(acc, state)->Ok_0);
        law_alike_gives_same_result(merged.0, accumulate(acc, theirs));
        law_rows_are_read_in_batches(rows, worker_rows);
        law_batches_compose(fresh, own, theirs);
        lemma_header_size(GeometryTypeId::GeometryCollection, Dimensions::Xy, 0);
        let written = written_rows(seq![state]);
        assert forall|n: int|
            0 < n <= written.len() && (#[trigger] merge_rows(
                acc,
                written.take(n),
            )).1 is None implies {
            &&& merge_rows(acc, written.take(n)).0.count == acc.count + worker.count
            &&& written[n - 1].item->0.len() >= WKB_HEADER_SIZE
        } by {
            assert(written.take(n).drop_last() =~= Seq::empty());
            assert(written.take(n).last() == written[0]);
            assert(merge_rows(acc, written.take(n).drop_last()).0 == acc);
        }
    }
}

/// The result is null if and only if nothing was seen. A collection is handed
/// out once: after that there is no second one and nothing more is taken in.
/// Without a collection the accumulator is left as it was.
pub proof fn law_a_collection_is_handed_out_once(s: CollectionView)
    ensures
        result_of(s) == Ok::<Option<Seq<u8>>, CollectErrorView>(None) <==> s.count == 0,
        (result_of(s) matches Ok(Some(_))) ==> {
            &&& after_result(s).item is None
            &&& result_of(after_result(s)) == Err::<Option<Seq<u8>>, _>(
                CollectErrorView::UnexpectedState,
            )
        },
        !(result_of(s) matches Ok(Some(_))) ==> after_result(s) == s,
{
}

/// Taking in rows in two batches does the same as taking them in at once, and
/// nulls leave no trace.
pub proof fn law_updates_compose(
    s: CollectionView,
    a: Seq<Option<Seq<u8>>>,
    b: Seq<Option<Seq<u8>>>,
)
    ensures
        update_values(s, a).1 is None ==> update_values(update_values(s, a).0, b) == update_values(
            s,
            a + b,
        ),
        update_values(s, a).1 is Some ==> update_values(s, a + b) == update_values(s, a),
        update_values(s, without_nulls(a)) == update_values(s, a),
{
    law_nulls_do_not_matter(a);
    law_rows_are_read_in_batches(a, b);
    if s.item is Some {
        law_everything_is_collected(s, geometries_in(a).0);
        law_batches_compose(s, geometries_in(a).0, geometries_in(b).0);
    }
}

/// If no value is bad, the count grows by the number of rows that are not
/// null, and the item by the bytes of their geometries in row order.
pub proof fn law_an_update_takes_in_every_geometry(
    s: CollectionView,
    values: Seq<Option<Seq<u8>>>,
)
    ensures
        update_values(s, values).1 is None ==> {
            let after = update_values(s, values).0;
            &&& after.count == s.count + without_nulls(values).len()
            &&& after.item == Some(s.item->0 + concatenated(geometries_in(values).0))
        },
{
    if s.item is Some {
        law_everything_is_collected(s, geometries_in(values).0);
        lemma_every_value_is_read(values);
    }
}

proof fn lemma_every_value_is_read(values: Seq<Option<Seq<u8>>>)
    ensures
        geometries_in(values).1 is None ==> geometries_in(values).0.len() == without_nulls(
            values,
        ).len(),
    decreases values.len(),
{
    if values.len() > 0 {
        lemma_every_value_is_read(values.drop_last());
    }
}

} // verus!
