//! Well-known binary: what a geometry is and where it ends, and the headers of
//! collections.
use vstd::prelude::*;

use crate::geometry_types::{Dimensions, GeometryTypeAndDimensions, GeometryTypeId};

#[allow(unused_imports)]
use crate::geometry_types::{dimensions_at, dimensions_index, type_id, type_with_id};

verus! {

/// The byte order, the type code and the number of parts of a collection.
pub const WKB_HEADER_SIZE: usize = 9;

/// The four bytes of a number, the least significant first.
pub open spec fn little_endian(n: int) -> Seq<u8> {
    seq![
        (n % 256) as u8,
        (n / 256 % 256) as u8,
        (n / 65536 % 256) as u8,
        (n / 16777216 % 256) as u8,
    ]
}

/// The header of a collection in little-endian well-known binary. Each step of
/// the dimensions adds a thousand to the type code.
pub open spec fn collection_header(t: GeometryTypeId, d: Dimensions, count: int) -> Seq<u8> {
    seq![1u8] + little_endian(type_id(t) + 1000 * dimensions_index(d)->0) + little_endian(count)
}

/// Why a header cannot be written.
#[derive(Debug, Clone, Copy, PartialEq, Eq, Structural)]
pub enum HeaderError {
    /// The dimensions have no code.
    UnknownDimensions(usize),
    /// The number of parts does not fit in four bytes.
    TooManyParts(usize),
}

/// What keeps the header of a collection from being written, if anything.
pub open spec fn header_error(d: Dimensions, count: usize) -> Option<HeaderError> {
    match d {
        Dimensions::Unknown(size) => Some(HeaderError::UnknownDimensions(size)),
        _ => if count > u32::MAX {
            Some(HeaderError::TooManyParts(count))
        } else {
            None
        },
    }
}

/// Appends the four bytes of a number, the least significant first.
fn write_u32(buf: &mut Vec<u8>, n: u32)
    ensures
        final(buf)@ == old(buf)@ + little_endian(n as int),
{
    buf.push((n % 256) as u8);
    buf.push((n / 256 % 256) as u8);
    buf.push((n / 65536 % 256) as u8);
    buf.push((n / 16777216 % 256) as u8);
    assert(buf@ =~= old(buf)@ + little_endian(n as int));
}

/// Appends the header of a collection of the given type.
pub fn write_collection_header(
    buf: &mut Vec<u8>,
    geometry_type: GeometryTypeId,
    dimensions: Dimensions,
    count: usize,
) -> (r: Result<(), HeaderError>)
    ensures
        match header_error(dimensions, count) {
            Some(e) => r == Err::<(), _>(e) && final(buf)@ == old(buf)@,
            None => {
                &&& r is Ok
                &&& final(buf)@ == old(buf)@ + collection_header(
                    geometry_type,
                    dimensions,
                    count as int,
                )
            },
        },
{
    let index = match dimensions {
        Dimensions::Xy => 0,
        Dimensions::Xyz => 1,
        Dimensions::Xym => 2,
        Dimensions::Xyzm => 3,
        Dimensions::Unknown(size) => return Err(HeaderError::UnknownDimensions(size)),
    };
    if count > u32::MAX as usize {
        return Err(HeaderError::TooManyParts(count));
    }
    let code: u32 = geometry_type.wkb_id() + 1000 * index;
    buf.push(1);
    write_u32(buf, code);
    write_u32(buf, count as u32);
    assert(buf@ =~= old(buf)@ + collection_header(geometry_type, dimensions, count as int));
    Ok(())
}

/// What the `wkb` crate makes of a buffer: the number of the geometry's type
/// in the order point, line string, polygon, multi point, multi line string,
/// multi polygon, geometry collection; the number of its dimensions in the
/// order Xy, Xyz, Xym, Xyzm; and how many bytes it takes. Or else what it says
/// is wrong with the buffer.
pub uninterp spec fn wkb_parts(buf: Seq<u8>) -> Result<(u8, u8, nat), Seq<char>>;

/// Calls `wkb::reader::read_wkb`, and `geometry_type`, `dimension` and `buf`
/// of what it returns. The contract claims that the outcome depends on the
/// bytes alone, that there are seven types and four kinds of dimensions, and
/// that the geometry is no longer than the buffer. Which bytes make which
/// geometry is left unsaid.
#[verifier::external_body]
pub(crate) fn parse_wkb(buf: &[u8]) -> (r: Result<(u8, u8, usize), String>)
    ensures
        match r {
            Ok((kind, dims, size)) => {
                &&& wkb_parts(buf@) == Ok::<(u8, u8, nat), Seq<char>>((kind, dims, size as nat))
                &&& kind <= 6
                &&& dims <= 3
                &&& size <= buf@.len()
            },
            Err(e) => wkb_parts(buf@) == Err::<(u8, u8, nat), Seq<char>>(e@),
        },
{
    match wkb::reader::read_wkb(buf) {
        Ok(geom) => Ok((geom.geometry_type() as u8, geom.dimension() as u8, geom.buf().len())),
        Err(e) => Err(e.to_string()),
    }
}

/// The geometry type and dimensions behind the numbers of [`wkb_parts`].
pub open spec fn pair_of(kind: u8, dims: u8) -> GeometryTypeAndDimensions {
    GeometryTypeAndDimensions {
        geometry_type: type_with_id(kind + 1),
        dimensions: dimensions_at(dims as int),
    }
}

/// The geometry type and dimensions behind the numbers of [`wkb_parts`].
pub fn parsed_pair(kind: u8, dims: u8) -> (r: GeometryTypeAndDimensions)
    requires
        kind <= 6,
        dims <= 3,
    ensures
        r == pair_of(kind, dims),
{
    GeometryTypeAndDimensions::new(
        GeometryTypeId::from_wkb_id(kind as u32 + 1),
        Dimensions::from_index(dims as u32),
    )
}

/// A header has nine bytes.
pub proof fn lemma_header_size(t: GeometryTypeId, d: Dimensions, count: int)
    ensures
        collection_header(t, d, count).len() == WKB_HEADER_SIZE,
{
}

/// The bytes of a header tell its type, its dimensions and its count.
pub proof fn law_header_is_unambiguous(
    t1: GeometryTypeId,
    d1: Dimensions,
    n1: int,
    t2: GeometryTypeId,
    d2: Dimensions,
    n2: int,
)
    requires
        dimensions_index(d1) is Some,
        dimensions_index(d2) is Some,
        0 <= n1 <= u32::MAX,
        0 <= n2 <= u32::MAX,
        collection_header(t1, d1, n1) == collection_header(t2, d2, n2),
    ensures
        t1 == t2,
        d1 == d2,
        n1 == n2,
{
    let c1 = type_id(t1) + 1000 * dimensions_index(d1)->0;
    let c2 = type_id(t2) + 1000 * dimensions_index(d2)->0;
    let h1 = collection_header(t1, d1, n1);
    let h2 = collection_header(t2, d2, n2);
    lemma_little_endian(h1.subrange(1, 5), c1);
    lemma_little_endian(h2.subrange(1, 5), c2);
    lemma_little_endian(h1.subrange(5, 9), n1);
    lemma_little_endian(h2.subrange(5, 9), n2);
}

proof fn lemma_little_endian(bytes: Seq<u8>, n: int)
    requires
        0 <= n <= u32::MAX,
        bytes =~= little_endian(n),
    ensures
        n == bytes[0] + 256 * bytes[1] + 65536 * bytes[2] + 16777216 * bytes[3],
{
}

} // verus!
