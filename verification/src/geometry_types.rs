//! Geometry types, coordinate dimensions, and sets of combinations of the two.
use vstd::prelude::*;

use crate::text::{same_text, split_once};

#[allow(unused_imports)]
use crate::text::{first_index, lemma_first_index_unique, lemma_split_first};

verus! {

/// The type of a geometry.
#[derive(Debug, Clone, Copy, PartialEq, Eq, Structural)]
pub enum GeometryTypeId {
    /// Any type.
    Geometry,
    Point,
    LineString,
    Polygon,
    MultiPoint,
    MultiLineString,
    MultiPolygon,
    GeometryCollection,
}

/// The dimensions of the coordinates of a geometry.
#[derive(Debug, Clone, Copy, PartialEq, Eq, Structural)]
pub enum Dimensions {
    Xy,
    Xyz,
    Xym,
    Xyzm,
    /// So many numbers per coordinate, of unknown meaning.
    Unknown(usize),
}

/// A geometry type together with coordinate dimensions.
#[derive(Debug, Clone, Copy, PartialEq, Eq, Structural)]
pub struct GeometryTypeAndDimensions {
    pub geometry_type: GeometryTypeId,
    pub dimensions: Dimensions,
}

/// The number of a geometry type in well-known binary.
pub open spec fn type_id(t: GeometryTypeId) -> int {
    match t {
        GeometryTypeId::Geometry => 0,
        GeometryTypeId::Point => 1,
        GeometryTypeId::LineString => 2,
        GeometryTypeId::Polygon => 3,
        GeometryTypeId::MultiPoint => 4,
        GeometryTypeId::MultiLineString => 5,
        GeometryTypeId::MultiPolygon => 6,
        GeometryTypeId::GeometryCollection => 7,
    }
}

/// The geometry type with a number.
pub open spec fn type_with_id(id: int) -> GeometryTypeId {
    if id == 1 {
        GeometryTypeId::Point
    } else if id == 2 {
        GeometryTypeId::LineString
    } else if id == 3 {
        GeometryTypeId::Polygon
    } else if id == 4 {
        GeometryTypeId::MultiPoint
    } else if id == 5 {
        GeometryTypeId::MultiLineString
    } else if id == 6 {
        GeometryTypeId::MultiPolygon
    } else if id == 7 {
        GeometryTypeId::GeometryCollection
    } else {
        GeometryTypeId::Geometry
    }
}

/// The place of known dimensions in the order Xy, Xyz, Xym, Xyzm.
pub open spec fn dimensions_index(d: Dimensions) -> Option<int> {
    match d {
        Dimensions::Xy => Some(0),
        Dimensions::Xyz => Some(1),
        Dimensions::Xym => Some(2),
        Dimensions::Xyzm => Some(3),
        Dimensions::Unknown(_) => None,
    }
}

/// The dimensions at a place of that order.
pub open spec fn dimensions_at(i: int) -> Dimensions {
    if i == 1 {
        Dimensions::Xyz
    } else if i == 2 {
        Dimensions::Xym
    } else if i == 3 {
        Dimensions::Xyzm
    } else {
        Dimensions::Xy
    }
}

/// How a geometry type is written.
pub open spec fn name_of_type(t: GeometryTypeId) -> Seq<char> {
    match t {
        GeometryTypeId::Geometry => "Geometry"@,
        GeometryTypeId::Point => "Point"@,
        GeometryTypeId::LineString => "LineString"@,
        GeometryTypeId::Polygon => "Polygon"@,
        GeometryTypeId::MultiPoint => "MultiPoint"@,
        GeometryTypeId::MultiLineString => "MultiLineString"@,
        GeometryTypeId::MultiPolygon => "MultiPolygon"@,
        GeometryTypeId::GeometryCollection => "GeometryCollection"@,
    }
}

/// The geometry type that is written so.
pub open spec fn named_type(name: Seq<char>) -> Option<GeometryTypeId> {
    if name == "Geometry"@ {
        Some(GeometryTypeId::Geometry)
    } else if name == "Point"@ {
        Some(GeometryTypeId::Point)
    } else if name == "LineString"@ {
        Some(GeometryTypeId::LineString)
    } else if name == "Polygon"@ {
        Some(GeometryTypeId::Polygon)
    } else if name == "MultiPoint"@ {
        Some(GeometryTypeId::MultiPoint)
    } else if name == "MultiLineString"@ {
        Some(GeometryTypeId::MultiLineString)
    } else if name == "MultiPolygon"@ {
        Some(GeometryTypeId::MultiPolygon)
    } else if name == "GeometryCollection"@ {
        Some(GeometryTypeId::GeometryCollection)
    } else {
        None
    }
}

/// How a geometry type is written together with dimensions: `Point`,
/// `Point Z`, `Point M`, `Point ZM`.
pub open spec fn pair_name(p: GeometryTypeAndDimensions) -> Seq<char> {
    match p.dimensions {
        Dimensions::Xyz => name_of_type(p.geometry_type) + " Z"@,
        Dimensions::Xym => name_of_type(p.geometry_type) + " M"@,
        Dimensions::Xyzm => name_of_type(p.geometry_type) + " ZM"@,
        _ => name_of_type(p.geometry_type),
    }
}

/// The geometry type and dimensions that are written so.
pub open spec fn named_pair(name: Seq<char>) -> Option<GeometryTypeAndDimensions> {
    let i = first_index(name, ' ');
    if i < name.len() {
        match (named_type(name.take(i)), named_suffix(name.skip(i + 1))) {
            (Some(geometry_type), Some(dimensions)) => Some(
                GeometryTypeAndDimensions { geometry_type, dimensions },
            ),
            _ => None,
        }
    } else {
        match named_type(name) {
            Some(geometry_type) => Some(
                GeometryTypeAndDimensions { geometry_type, dimensions: Dimensions::Xy },
            ),
            None => None,
        }
    }
}

/// The dimensions that are written so behind a geometry type.
pub open spec fn named_suffix(suffix: Seq<char>) -> Option<Dimensions> {
    if suffix == "Z"@ {
        Some(Dimensions::Xyz)
    } else if suffix == "M"@ {
        Some(Dimensions::Xym)
    } else if suffix == "ZM"@ {
        Some(Dimensions::Xyzm)
    } else {
        None
    }
}

impl GeometryTypeId {
    /// The number of the type in well-known binary.
    pub fn wkb_id(&self) -> (r: u32)
        ensures
            r == type_id(*self),
            r <= 7,
    {
        match self {
            GeometryTypeId::Geometry => 0,
            GeometryTypeId::Point => 1,
            GeometryTypeId::LineString => 2,
            GeometryTypeId::Polygon => 3,
            GeometryTypeId::MultiPoint => 4,
            GeometryTypeId::MultiLineString => 5,
            GeometryTypeId::MultiPolygon => 6,
            GeometryTypeId::GeometryCollection => 7,
        }
    }

    /// The type with a number.
    pub fn from_wkb_id(id: u32) -> (r: GeometryTypeId)
        requires
            id <= 7,
        ensures
            r == type_with_id(id as int),
            type_id(r) == id,
    {
        match id {
            1 => GeometryTypeId::Point,
            2 => GeometryTypeId::LineString,
            3 => GeometryTypeId::Polygon,
            4 => GeometryTypeId::MultiPoint,
            5 => GeometryTypeId::MultiLineString,
            6 => GeometryTypeId::MultiPolygon,
            7 => GeometryTypeId::GeometryCollection,
            _ => GeometryTypeId::Geometry,
        }
    }

    /// How the type is written.
    pub fn name(&self) -> (r: &'static str)
        ensures
            r@ == name_of_type(*self),
    {
        match self {
            GeometryTypeId::Geometry => "Geometry",
            GeometryTypeId::Point => "Point",
            GeometryTypeId::LineString => "LineString",
            GeometryTypeId::Polygon => "Polygon",
            GeometryTypeId::MultiPoint => "MultiPoint",
            GeometryTypeId::MultiLineString => "MultiLineString",
            GeometryTypeId::MultiPolygon => "MultiPolygon",
            GeometryTypeId::GeometryCollection => "GeometryCollection",
        }
    }

    /// The type that is written so.
    pub fn from_name(name: &str) -> (r: Option<GeometryTypeId>)
        ensures
            r == named_type(name@),
    {
        if same_text(name, "Geometry") {
            Some(GeometryTypeId::Geometry)
        } else if same_text(name, "Point") {
            Some(GeometryTypeId::Point)
        } else if same_text(name, "LineString") {
            Some(GeometryTypeId::LineString)
        } else if same_text(name, "Polygon") {
            Some(GeometryTypeId::Polygon)
        } else if same_text(name, "MultiPoint") {
            Some(GeometryTypeId::MultiPoint)
        } else if same_text(name, "MultiLineString") {
            Some(GeometryTypeId::MultiLineString)
        } else if same_text(name, "MultiPolygon") {
            Some(GeometryTypeId::MultiPolygon)
        } else if same_text(name, "GeometryCollection") {
            Some(GeometryTypeId::GeometryCollection)
        } else {
            None
        }
    }
}

impl Dimensions {
    /// The place of known dimensions in the order Xy, Xyz, Xym, Xyzm.
    pub fn index(&self) -> (r: Option<u32>)
        ensures
            match r {
                Some(i) => dimensions_index(*self) == Some(i as int) && i <= 3,
                None => dimensions_index(*self) is None,
            },
    {
        match self {
            Dimensions::Xy => Some(0),
            Dimensions::Xyz => Some(1),
            Dimensions::Xym => Some(2),
            Dimensions::Xyzm => Some(3),
            Dimensions::Unknown(_) => None,
        }
    }

    /// The dimensions at a place of that order.
    pub fn from_index(i: u32) -> (r: Dimensions)
        requires
            i <= 3,
        ensures
            r == dimensions_at(i as int),
            dimensions_index(r) == Some(i as int),
    {
        match i {
            1 => Dimensions::Xyz,
            2 => Dimensions::Xym,
            3 => Dimensions::Xyzm,
            _ => Dimensions::Xy,
        }
    }
}

impl GeometryTypeAndDimensions {
    pub fn new(geometry_type: GeometryTypeId, dimensions: Dimensions) -> (r: Self)
        ensures
            r.geometry_type == geometry_type,
            r.dimensions == dimensions,
    {
        GeometryTypeAndDimensions { geometry_type, dimensions }
    }

    /// How the pair is written.
    pub fn name(&self) -> (r: String)
        requires
            dimensions_index(self.dimensions) is Some,
        ensures
            r@ == pair_name(*self),
    {
        let name = self.geometry_type.name().to_string();
        match self.dimensions {
            Dimensions::Xyz => name.concat(" Z"),
            Dimensions::Xym => name.concat(" M"),
            Dimensions::Xyzm => name.concat(" ZM"),
            _ => name,
        }
    }

    /// The pair that is written so.
    pub fn from_name(name: &str) -> (r: Option<GeometryTypeAndDimensions>)
        ensures
            r == named_pair(name@),
    {
        match split_once(name, ' ') {
            Some((name_of_type, suffix)) => {
                let geometry_type = GeometryTypeId::from_name(name_of_type)?;
                let dimensions = if same_text(suffix, "Z") {
                    Dimensions::Xyz
                } else if same_text(suffix, "M") {
                    Dimensions::Xym
                } else if same_text(suffix, "ZM") {
                    Dimensions::Xyzm
                } else {
                    return None;
                };
                Some(GeometryTypeAndDimensions::new(geometry_type, dimensions))
            },
            None => {
                let geometry_type = GeometryTypeId::from_name(name)?;
                Some(GeometryTypeAndDimensions::new(geometry_type, Dimensions::Xy))
            },
        }
    }
}

/// Every geometry type is read back from its name.
pub proof fn law_type_name_round_trip(t: GeometryTypeId)
    ensures
        named_type(name_of_type(t)) == Some(t),
{
    lemma_type_names();
}

/// The names of the types are told apart by how long they are, or by their
/// first character.
proof fn lemma_type_names()
    ensures
        "Geometry"@.len() == 8,
        "Point"@.len() == 5,
        "LineString"@.len() == 10,
        "Polygon"@.len() == 7,
        "MultiPoint"@.len() == 10,
        "MultiLineString"@.len() == 15,
        "MultiPolygon"@.len() == 12,
        "GeometryCollection"@.len() == 18,
        "LineString"@[0] == 'L',
        "MultiPoint"@[0] == 'M',
{
    reveal_strlit("Geometry");
    reveal_strlit("Point");
    reveal_strlit("LineString");
    reveal_strlit("Polygon");
    reveal_strlit("MultiPoint");
    reveal_strlit("MultiLineString");
    reveal_strlit("MultiPolygon");
    reveal_strlit("GeometryCollection");
}

/// Whether every character can stand in a JSON string as it is: no quote, no
/// backslash, no control character.
pub open spec fn plain(s: Seq<char>) -> bool {
    forall|i: int|
        0 <= i < s.len() ==> {
            &&& #[trigger] s[i] != '"'
            &&& s[i] != '\\'
            &&& s[i] as u32 >= 0x20
        }
}

/// The names of geometry types have no space in them, and can stand in a JSON
/// string as they are.
pub proof fn lemma_type_name_is_plain(t: GeometryTypeId)
    ensures
        plain(name_of_type(t)),
        !name_of_type(t).contains(' '),
{
    reveal_strlit("Geometry");
    reveal_strlit("Point");
    reveal_strlit("LineString");
    reveal_strlit("Polygon");
    reveal_strlit("MultiPoint");
    reveal_strlit("MultiLineString");
    reveal_strlit("MultiPolygon");
    reveal_strlit("GeometryCollection");
}

/// The names of pairs can stand in a JSON string as they are.
pub proof fn lemma_pair_name_is_plain(p: GeometryTypeAndDimensions)
    ensures
        plain(pair_name(p)),
{
    lemma_type_name_is_plain(p.geometry_type);
    reveal_strlit(" Z");
    reveal_strlit(" M");
    reveal_strlit(" ZM");
}

/// Every pair with known dimensions is read back from its name.
pub proof fn law_pair_name_round_trip(p: GeometryTypeAndDimensions)
    requires
        dimensions_index(p.dimensions) is Some,
    ensures
        named_pair(pair_name(p)) == Some(p),
{
    let head = name_of_type(p.geometry_type);
    let name = pair_name(p);
    law_type_name_round_trip(p.geometry_type);
    lemma_type_name_is_plain(p.geometry_type);
    reveal_strlit(" Z");
    reveal_strlit(" M");
    reveal_strlit(" ZM");
    reveal_strlit("Z");
    reveal_strlit("M");
    reveal_strlit("ZM");
    if p.dimensions == Dimensions::Xy {
        assert forall|j: int| 0 <= j < name.len() implies name[j] != ' ' by {
            assert(head.contains(head[j]));
        }
        lemma_first_index_unique(name, ' ', name.len() as int);
    } else {
        let suffix = match p.dimensions {
            Dimensions::Xyz => "Z"@,
            Dimensions::Xym => "M"@,
            _ => "ZM"@,
        };
        assert(name =~= head + seq![' '] + suffix);
        lemma_split_first(head, ' ', suffix);
        assert(name.take(head.len() as int) =~= head);
        assert(name.skip(head.len() as int + 1) =~= suffix);
    }
}

/// The pairs of a geometry type and known dimensions, ordered by dimensions
/// and then by type.
pub open spec fn all_pairs() -> Seq<GeometryTypeAndDimensions> {
    Seq::new(32, |i: int| pair_at(i))
}

/// The pair at a place of that order.
pub open spec fn pair_at(i: int) -> GeometryTypeAndDimensions {
    GeometryTypeAndDimensions {
        geometry_type: type_with_id(i % 8),
        dimensions: dimensions_at(i / 8),
    }
}

/// The place of a pair with known dimensions.
pub open spec fn place_of(p: GeometryTypeAndDimensions) -> int {
    type_id(p.geometry_type) + 8 * dimensions_index(p.dimensions)->0
}

/// A set of pairs of a geometry type and known dimensions, held in the bits of
/// one number.
#[derive(Debug, Clone, Copy, PartialEq, Eq, Structural)]
pub struct GeometryTypeAndDimensionsSet {
    bits: u32,
}

/// Dimensions of unknown meaning, which no set can hold.
#[derive(Debug, Clone, Copy, PartialEq, Eq, Structural)]
pub struct UnknownDimensions {
    pub size: usize,
}

spec fn has_bit(bits: u32, i: u32) -> bool {
    bits & (1u32 << i) != 0
}

impl View for GeometryTypeAndDimensionsSet {
    type V = Set<GeometryTypeAndDimensions>;

    closed spec fn view(&self) -> Set<GeometryTypeAndDimensions> {
        Set::new(
            |p: GeometryTypeAndDimensions|
                dimensions_index(p.dimensions) is Some && has_bit(self.bits, place_of(p) as u32),
        )
    }
}

/// The members of a set, in the order of [`all_pairs`].
pub open spec fn in_order(set: Set<GeometryTypeAndDimensions>) -> Seq<GeometryTypeAndDimensions> {
    all_pairs().filter(|p: GeometryTypeAndDimensions| set.contains(p))
}

impl GeometryTypeAndDimensionsSet {
    /// The empty set.
    pub fn new() -> (r: Self)
        ensures
            r@ == Set::<GeometryTypeAndDimensions>::empty(),
    {
        assert(forall|i: u32| #![trigger has_bit(0, i)] !has_bit(0, i)) by {
            assert forall|i: u32| #![trigger has_bit(0, i)] !has_bit(0, i) by {
                assert(0u32 & (1u32 << i) == 0) by (bit_vector);
            }
        }
        let r = GeometryTypeAndDimensionsSet { bits: 0 };
        assert(r@ =~= Set::empty());
        r
    }

    /// Puts a pair into the set. Dimensions of unknown meaning are refused.
    pub fn insert(&mut self, value: &GeometryTypeAndDimensions) -> (r: Result<
        (),
        UnknownDimensions,
    >)
        ensures
            match value.dimensions {
                Dimensions::Unknown(size) => {
                    &&& r == Err::<(), _>(UnknownDimensions { size })
                    &&& final(self)@ == old(self)@
                },
                _ => r is Ok && final(self)@ == old(self)@.insert(*value),
            },
    {
        let i = match value.dimensions {
            Dimensions::Xy => 0,
            Dimensions::Xyz => 1,
            Dimensions::Xym => 2,
            Dimensions::Xyzm => 3,
            Dimensions::Unknown(size) => return Err(UnknownDimensions { size }),
        };
        let place: u32 = value.geometry_type.wkb_id() + 8 * i;
        let ghost before = self.bits;
        self.bits = self.bits | (1u32 << place);
        proof {
            let after = self.bits;
            assert forall|j: u32| j < 32 implies #[trigger] has_bit(after, j) == (j == place
                || has_bit(before, j)) by {
                assert(after == before | (1u32 << place) && place < 32 && j < 32 ==> ((after & (
                1u32 << j) != 0) == (j == place || before & (1u32 << j) != 0))) by (bit_vector);
            }
            assert(self@ =~= old(self)@.insert(*value)) by {
                assert forall|p: GeometryTypeAndDimensions|
                    self@.contains(p) == old(self)@.insert(*value).contains(p) by {
                    if dimensions_index(p.dimensions) is Some {
                        let j = place_of(p) as u32;
                        assert(0 <= place_of(p) < 32);
                        assert(has_bit(after, j) == (j == place || has_bit(before, j)));
                    }
                }
            }
        }
        Ok(())
    }

    /// The members of the set in order.
    pub fn iter(&self) -> (r: Vec<GeometryTypeAndDimensions>)
        ensures
            r@ == in_order(self@),
    {
        let ghost member = |p: GeometryTypeAndDimensions| self@.contains(p);
        let mut out: Vec<GeometryTypeAndDimensions> = Vec::new();
        let mut i: u32 = 0;
        assert(all_pairs().take(0) =~= Seq::empty());
        assert(Seq::<GeometryTypeAndDimensions>::empty().filter(member) =~= Seq::empty()) by {
            reveal(Seq::filter);
        }
        while i < 32
            invariant
                i <= 32,
                member == (|p: GeometryTypeAndDimensions| self@.contains(p)),
                out@ == all_pairs().take(i as int).filter(member),
            decreases 32 - i,
        {
            let pair = GeometryTypeAndDimensions::new(
                GeometryTypeId::from_wkb_id(i % 8),
                Dimensions::from_index(i / 8),
            );
            proof {
                let upto = all_pairs().take(i + 1);
                assert(upto.drop_last() =~= all_pairs().take(i as int));
                assert(upto.last() == pair);
                assert(place_of(pair) == i);
                assert(self@.contains(pair) == has_bit(self.bits, i));
                reveal(Seq::filter);
            }
            if self.bits & (1u32 << i) != 0 {
                out.push(pair);
            }
            i += 1;
        }
        assert(all_pairs().take(32) =~= all_pairs());
        out
    }
}

} // verus!
