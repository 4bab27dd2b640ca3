//! What the numbers, names and headers of geometries are, and in what order
//! sets list them.
use vstd::prelude::*;

#[allow(unused_imports)]
use crate::geometry_types::{
    all_pairs, dimensions_at, dimensions_index, in_order, law_pair_name_round_trip,
    law_type_name_round_trip, name_of_type, named_pair, named_type, pair_at, pair_name, place_of,
    type_id, type_with_id, Dimensions, GeometryTypeAndDimensions, GeometryTypeId,
};
#[allow(unused_imports)]
use crate::text::{first_index, lemma_first_index};
#[allow(unused_imports)]
use crate::wkb::{collection_header, header_error, little_endian, pair_of, HeaderError};

verus! {

/// The types are numbered as in well-known binary, and a number leads back to
/// its type.
pub proof fn law_type_numbers(t: GeometryTypeId)
    ensures
        t == GeometryTypeId::Geometry <==> type_id(t) == 0,
        t == GeometryTypeId::Point <==> type_id(t) == 1,
        t == GeometryTypeId::LineString <==> type_id(t) == 2,
        t == GeometryTypeId::Polygon <==> type_id(t) == 3,
        t == GeometryTypeId::MultiPoint <==> type_id(t) == 4,
        t == GeometryTypeId::MultiLineString <==> type_id(t) == 5,
        t == GeometryTypeId::MultiPolygon <==> type_id(t) == 6,
        t == GeometryTypeId::GeometryCollection <==> type_id(t) == 7,
        type_with_id(type_id(t)) == t,
{
}

/// Known dimensions come in the order Xy, Xyz, Xym, Xyzm, and a place of that
/// order leads back to them.
pub proof fn law_dimension_numbers(d: Dimensions)
    ensures
        d == Dimensions::Xy <==> dimensions_index(d) == Some(0int),
        d == Dimensions::Xyz <==> dimensions_index(d) == Some(1int),
        d == Dimensions::Xym <==> dimensions_index(d) == Some(2int),
        d == Dimensions::Xyzm <==> dimensions_index(d) == Some(3int),
        d is Unknown <==> dimensions_index(d) is None,
        dimensions_index(d) is Some ==> dimensions_at(dimensions_index(d)->0) == d,
{
}

/// A type is written as it is called, and only its own name is read as it.
pub proof fn law_type_names(t: GeometryTypeId, name: Seq<char>)
    ensures
        name_of_type(GeometryTypeId::Geometry) == "Geometry"@,
        name_of_type(GeometryTypeId::Point) == "Point"@,
        name_of_type(GeometryTypeId::LineString) == "LineString"@,
        name_of_type(GeometryTypeId::Polygon) == "Polygon"@,
        name_of_type(GeometryTypeId::MultiPoint) == "MultiPoint"@,
        name_of_type(GeometryTypeId::MultiLineString) == "MultiLineString"@,
        name_of_type(GeometryTypeId::MultiPolygon) == "MultiPolygon"@,
        name_of_type(GeometryTypeId::GeometryCollection) == "GeometryCollection"@,
        named_type(name) == Some(t) <==> name == name_of_type(t),
{
    law_type_name_round_trip(t);
}

/// Dimensions are written behind the type: nothing for Xy, ` Z`, ` M` or
/// ` ZM` for the others; and only the name of a pair is read as it.
pub proof fn law_pair_names(p: GeometryTypeAndDimensions, name: Seq<char>)
    requires
        dimensions_index(p.dimensions) is Some,
    ensures
        ({
            let t = name_of_type(p.geometry_type);
            &&& p.dimensions == Dimensions::Xy ==> pair_name(p) == t
            &&& p.dimensions == Dimensions::Xyz ==> pair_name(p) == t + " Z"@
            &&& p.dimensions == Dimensions::Xym ==> pair_name(p) == t + " M"@
            &&& p.dimensions == Dimensions::Xyzm ==> pair_name(p) == t + " ZM"@
            &&& named_pair(name) == Some(p) <==> name == pair_name(p)
        }),
{
    law_pair_name_round_trip(p);
    if named_pair(name) == Some(p) {
        reveal_strlit(" Z");
        reveal_strlit(" M");
        reveal_strlit(" ZM");
        reveal_strlit("Z");
        reveal_strlit("M");
        reveal_strlit("ZM");
        lemma_first_index(name, ' ');
        let i = first_index(name, ' ');
        if i < name.len() {
            law_type_names(p.geometry_type, name.take(i));
            let suffix = name.skip(i + 1);
            assert(name =~= name.take(i) + seq![' '] + suffix);
            assert(name =~= pair_name(p));
        } else {
            law_type_names(p.geometry_type, name);
        }
    }
}

/// The type and dimensions of a parsed geometry are those that its numbers
/// stand for: a point, line string, polygon, multi point, multi line string,
/// multi polygon or geometry collection, with Xy, Xyz, Xym or Xyzm. Different
/// numbers give different ones.
pub proof fn law_parsed_kinds(kind: u8, dims: u8, other_kind: u8, other_dims: u8)
    requires
        kind <= 6,
        dims <= 3,
        other_kind <= 6,
        other_dims <= 3,
    ensures
        ({
            let t = pair_of(kind, dims).geometry_type;
            let d = pair_of(kind, dims).dimensions;
            &&& kind == 0 <==> t == GeometryTypeId::Point
            &&& kind == 1 <==> t == GeometryTypeId::LineString
            &&& kind == 2 <==> t == GeometryTypeId::Polygon
            &&& kind == 3 <==> t == GeometryTypeId::MultiPoint
            &&& kind == 4 <==> t == GeometryTypeId::MultiLineString
            &&& kind == 5 <==> t == GeometryTypeId::MultiPolygon
            &&& kind == 6 <==> t == GeometryTypeId::GeometryCollection
            &&& dims == 0 <==> d == Dimensions::Xy
            &&& dims == 1 <==> d == Dimensions::Xyz
            &&& dims == 2 <==> d == Dimensions::Xym
            &&& dims == 3 <==> d == Dimensions::Xyzm
        }),
        pair_of(kind, dims) == pair_of(other_kind, other_dims) ==> kind == other_kind && dims
            == other_dims,
{
}

/// The number that four bytes hold, the least significant first.
pub open spec fn number_at(bytes: Seq<u8>, i: int) -> int {
    bytes[i] + 0x100 * bytes[i + 1] + 0x1_0000 * bytes[i + 2] + 0x100_0000 * bytes[i + 3]
}

/// A header is a byte 1 for little-endian, the type code and the count. The
/// type code is the number of the type, with a thousand more for Z, two
/// thousand for M and three for both.
pub proof fn law_header_bytes(t: GeometryTypeId, d: Dimensions, count: int)
    requires
        dimensions_index(d) is Some,
        0 <= count <= u32::MAX,
    ensures
        ({
            let h = collection_header(t, d, count);
            let code = number_at(h, 1);
            &&& h.len() == 9
            &&& h[0] == 1
            &&& number_at(h, 5) == count
            &&& d == Dimensions::Xy ==> code == type_id(t)
            &&& d == Dimensions::Xyz ==> code == type_id(t) + 1000
            &&& d == Dimensions::Xym ==> code == type_id(t) + 2000
            &&& d == Dimensions::Xyzm ==> code == type_id(t) + 3000
        }),
{
    let h = collection_header(t, d, count);
    let code = type_id(t) + 1000 * dimensions_index(d)->0;
    assert(h.subrange(1, 5) =~= little_endian(code));
    assert(h.subrange(5, 9) =~= little_endian(count));
    assert(number_at(h, 1) == code);
    assert(number_at(h, 5) == count);
}

/// A header can be written if and only if the dimensions are known and the
/// count fits in four bytes; otherwise the error names what is wrong.
pub proof fn law_when_headers_are_written(d: Dimensions, count: usize)
    ensures
        header_error(d, count) is None <==> !(d is Unknown) && count <= 0xffff_ffff,
        d matches Dimensions::Unknown(size) ==> header_error(d, count) == Some(
            HeaderError::UnknownDimensions(size),
        ),
        !(d is Unknown) && count > 0xffff_ffff ==> header_error(d, count) == Some(
            HeaderError::TooManyParts(count),
        ),
{
}

/// Whether one pair is listed before another: its dimensions come first or,
/// where they are the same, its type has the smaller number.
pub open spec fn listed_before(
    a: GeometryTypeAndDimensions,
    b: GeometryTypeAndDimensions,
) -> bool {
    let (da, db) = (dimensions_index(a.dimensions)->0, dimensions_index(b.dimensions)->0);
    da < db || da == db && type_id(a.geometry_type) < type_id(b.geometry_type)
}

/// A set lists exactly its members with known dimensions, by dimensions and
/// then by type, each once.
pub proof fn law_sets_list_their_members(set: Set<GeometryTypeAndDimensions>)
    ensures
        forall|p: GeometryTypeAndDimensions| #[trigger]
            in_order(set).contains(p) <==> set.contains(p) && dimensions_index(p.dimensions) is Some,
        forall|i: int, j: int|
            0 <= i < j < in_order(set).len() ==> listed_before(
                #[trigger] in_order(set)[i],
                #[trigger] in_order(set)[j],
            ),
{
    lemma_listed_upto(set, 32);
    assert(all_pairs().take(32) =~= all_pairs());
    assert forall|p: GeometryTypeAndDimensions| #[trigger]
        in_order(set).contains(p) <==> set.contains(p) && dimensions_index(
            p.dimensions,
        ) is Some by {
        if set.contains(p) && dimensions_index(p.dimensions) is Some {
            assert(0 <= place_of(p) < 32);
            assert(pair_at(place_of(p)) == p);
        }
    }
}

proof fn lemma_listed_upto(set: Set<GeometryTypeAndDimensions>, n: int)
    requires
        0 <= n <= 32,
    ensures
        ({
            let listed = all_pairs().take(n).filter(
                |p: GeometryTypeAndDimensions| set.contains(p),
            );
            &&& forall|i: int|
                0 <= i < listed.len() ==> {
                    &&& set.contains(#[trigger] listed[i])
                    &&& dimensions_index(listed[i].dimensions) is Some
                    &&& place_of(listed[i]) < n
                }
            &&& forall|k: int|
                0 <= k < n && set.contains(#[trigger] pair_at(k)) ==> listed.contains(pair_at(k))
            &&& forall|i: int, j: int|
                0 <= i < j < listed.len() ==> listed_before(
                    #[trigger] listed[i],
                    #[trigger] listed[j],
                )
        }),
    decreases n,
{
    reveal(Seq::filter);
    let member = |p: GeometryTypeAndDimensions| set.contains(p);
    let upto = all_pairs().take(n);
    let listed = upto.filter(member);
    if n > 0 {
        lemma_listed_upto(set, n - 1);
        assert(upto.drop_last() =~= all_pairs().take(n - 1));
        let before = all_pairs().take(n - 1).filter(member);
        let last = pair_at(n - 1);
        assert(upto.last() == last);
        assert(place_of(last) == n - 1);
        if set.contains(last) {
            assert(listed == before.push(last));
            assert forall|k: int|
                0 <= k < n && set.contains(#[trigger] pair_at(k)) implies listed.contains(
                pair_at(k),
            ) by {
                if k < n - 1 {
                    let i = choose|i: int| 0 <= i < before.len() && before[i] == pair_at(k);
                    assert(listed[i] == pair_at(k));
                } else {
                    assert(listed[before.len() as int] == last);
                }
            }
            assert forall|i: int, j: int| 0 <= i < j < listed.len() implies listed_before(
                #[trigger] listed[i],
                #[trigger] listed[j],
            ) by {
                if j < before.len() {
                    assert(listed[i] == before[i] && listed[j] == before[j]);
                } else {
                    assert(listed[i] == before[i]);
                    assert(place_of(before[i]) < n - 1);
                }
            }
        } else {
            assert(listed == before);
        }
    } else {
        assert(upto =~= Seq::empty());
        assert(listed =~= Seq::empty());
    }
}

} // verus!
