//! That the wording of an error tells what it is about.
use vstd::prelude::*;

#[allow(unused_imports)]
use crate::decimal::decimal;
#[allow(unused_imports)]
use crate::error::{names_text, numbers_text, quoted, ZarrErrorView};
#[allow(unused_imports)]
use crate::st_collect_agg::CollectErrorView;
#[allow(unused_imports)]
use crate::text_laws::{law_joining, lies_at};

verus! {

/// Whether a text ends with a part.
pub open spec fn ends_with(text: Seq<char>, part: Seq<char>) -> bool {
    lies_at(text, part, text.len() - part.len())
}

/// What is wrong with a chunk anchor is said before the anchor; an index that
/// is no number is shown.
pub proof fn law_anchor_messages(index: Seq<char>, uri: Seq<char>)
    ensures
        ({
            let text = (ZarrErrorView::MissingFragment { uri }).text();
            lies_at(text, "chunk anchor URI missing "@, 0) && ends_with(text, uri)
        }),
        ({
            let text = (ZarrErrorView::MissingArray { uri }).text();
            lies_at(text, "`array=`"@, 34) && ends_with(text, uri)
        }),
        ({
            let text = (ZarrErrorView::MissingChunk { uri }).text();
            lies_at(text, "`chunk=`"@, 34) && ends_with(text, uri)
        }),
        ({
            let text = (ZarrErrorView::EmptyIndices { uri }).text();
            lies_at(text, "empty index list"@, 21) && ends_with(text, uri)
        }),
        ({
            let text = (ZarrErrorView::BadIndex { index, uri }).text();
            &&& lies_at(text, "chunk index `"@, 0)
            &&& lies_at(text, index, 13)
            &&& ends_with(text, uri)
        }),
{
    reveal_strlit("chunk anchor URI missing `#array=...&chunk=...` fragment: ");
    reveal_strlit("chunk anchor URI missing ");
    reveal_strlit("chunk anchor URI fragment missing `array=` parameter: ");
    reveal_strlit("`array=`");
    reveal_strlit("chunk anchor URI fragment missing `chunk=` parameter: ");
    reveal_strlit("`chunk=`");
    reveal_strlit("chunk anchor URI has empty index list: ");
    reveal_strlit("empty index list");
    reveal_strlit("chunk index `");
}

/// What is wrong with a URI or an option is said together with the URI, or the
/// key and the value, in quotes.
pub proof fn law_uri_messages(
    scheme: Seq<char>,
    uri: Seq<char>,
    reason: Seq<char>,
    key: Seq<char>,
    value: Seq<char>,
)
    ensures
        ({
            let text = (ZarrErrorView::UnsupportedScheme { scheme, uri }).text();
            &&& lies_at(text, "unsupported Zarr URI scheme "@, 0)
            &&& lies_at(text, quoted(scheme), 28)
            &&& lies_at(text, uri, 28 + quoted(scheme).len() as int + 4)
            &&& ends_with(
                text,
                "; expected one of file/s3/gs/gcs/az/abfs/abfss/http/https or a bare path"@,
            )
        }),
        ({
            let text = (ZarrErrorView::InvalidUri { uri, reason }).text();
            &&& lies_at(text, "invalid Zarr URI "@, 0)
            &&& lies_at(text, quoted(uri), 17)
            &&& ends_with(text, reason)
        }),
        ({
            let text = (ZarrErrorView::MissingHost { uri }).text();
            &&& lies_at(text, quoted(uri), 9)
            &&& ends_with(text, " has no host component"@)
        }),
        ({
            let text = (ZarrErrorView::NotABoolean { key, value }).text();
            &&& lies_at(text, quoted(key), 18)
            &&& lies_at(text, " must be a boolean (true/false); got "@, 18 + quoted(key).len() as int)
            &&& ends_with(text, quoted(value))
        }),
{
    reveal_strlit("unsupported Zarr URI scheme ");
    reveal_strlit(" in ");
    reveal_strlit("invalid Zarr URI ");
    reveal_strlit("Zarr URI ");
    reveal_strlit(" has no host component");
    reveal_strlit("credential option ");
}

/// What is wrong with an array is said together with its path.
pub proof fn law_array_messages(
    group_uri: Seq<char>,
    path: Seq<char>,
    dimension: nat,
    reason: Seq<char>,
)
    ensures
        ({
            let text = (ZarrErrorView::NoChildArrays { group_uri }).text();
            lies_at(text, group_uri, 14) && ends_with(text, " has no child arrays"@)
        }),
        (ZarrErrorView::UnsupportedDataType { reason }).text() == reason,
        ({
            let text = (ZarrErrorView::MissingDimensionNames { path }).text();
            &&& lies_at(text, path, 6)
            &&& ends_with(
                text,
                ": dimension_names is absent; Phase 1 requires every Zarr array to declare dimension_names"@,
            )
        }),
        ({
            let text = (ZarrErrorView::UnnamedDimension { path, dimension: dimension as int }).text();
            &&& lies_at(text, path, 6)
            &&& lies_at(text, decimal(dimension), 6 + path.len() as int + 12)
            &&& ends_with(
                text,
                " has no name; Phase 1 requires every Zarr array dimension to be named"@,
            )
        }),
        ({
            let text = (ZarrErrorView::UnknownChunkShape { path, reason }).text();
            &&& lies_at(text, path, 6)
            &&& ends_with(text, reason)
        }),
{
    reveal_strlit("Zarr group at ");
    reveal_strlit(" has no child arrays");
    reveal_strlit("array ");
    reveal_strlit(": dimension ");
}

/// What two arrays differ in is said with both paths, the first before the
/// other, and with what each of them has, in the same order.
pub proof fn law_disagreement_messages(
    first: Seq<char>,
    other: Seq<char>,
    a: Seq<u64>,
    b: Seq<u64>,
    c: Seq<Seq<char>>,
    d: Seq<Seq<char>>,
)
    ensures
        ({
            let text = (ZarrErrorView::DifferentChunkGrids {
                first,
                other,
                first_grid: a,
                other_grid: b,
            }).text();
            let i = 7 + first.len() as int + 5 + other.len();
            &&& lies_at(text, first, 7)
            &&& lies_at(text, other, 7 + first.len() as int + 5)
            &&& lies_at(text, " have different chunk grid shapes ("@, i)
            &&& lies_at(text, numbers_text(a), i + 35)
            &&& lies_at(text, numbers_text(b), i + 35 + numbers_text(a).len() + 4)
            &&& ends_with(text, "); Phase 1 requires a shared chunk grid across the group"@)
        }),
        ({
            let text = (ZarrErrorView::DifferentChunkShapes {
                first,
                other,
                first_shape: a,
                other_shape: b,
            }).text();
            let i = 7 + first.len() as int + 5 + other.len();
            &&& lies_at(text, first, 7)
            &&& lies_at(text, other, 7 + first.len() as int + 5)
            &&& lies_at(text, " have different chunk shapes ("@, i)
            &&& lies_at(text, numbers_text(a), i + 30)
            &&& lies_at(text, numbers_text(b), i + 30 + numbers_text(a).len() + 4)
            &&& ends_with(text, "); Phase 1 requires a shared chunk shape across the group"@)
        }),
        ({
            let text = (ZarrErrorView::DifferentDimensionNames {
                first,
                other,
                first_names: c,
                other_names: d,
            }).text();
            let i = 7 + first.len() as int + 5 + other.len();
            &&& lies_at(text, first, 7)
            &&& lies_at(text, other, 7 + first.len() as int + 5)
            &&& lies_at(text, " have different dimension names ("@, i)
            &&& lies_at(text, names_text(c), i + 33)
            &&& lies_at(text, names_text(d), i + 33 + names_text(c).len() + 4)
            &&& ends_with(text, "); Phase 1 requires identical dim_names across the group"@)
        }),
{
    reveal_strlit("arrays ");
    reveal_strlit(" and ");
    reveal_strlit(" vs ");
    reveal_strlit(" have different chunk grid shapes (");
    reveal_strlit(" have different chunk shapes (");
    reveal_strlit(" have different dimension names (");
}

/// What is wrong with the spatial axes is said with the dimensions that there
/// are, and with the name that is not among them.
pub proof fn law_axis_messages(name: Seq<char>, dim_names: Seq<Seq<char>>)
    ensures
        ({
            let text = (ZarrErrorView::UnknownSpatialDimension { name, dim_names }).text();
            &&& lies_at(text, quoted(name), 27)
            &&& ends_with(text, names_text(dim_names))
        }),
        ends_with((ZarrErrorView::TooFewDimensions { dim_names }).text(), names_text(dim_names)),
        ends_with((ZarrErrorView::NotYX { dim_names }).text(), names_text(dim_names)),
        lies_at(
            (ZarrErrorView::TooFewDimensions { dim_names }).text(),
            "Phase 1 requires at least 2 dimensions"@,
            0,
        ),
        lies_at(
            (ZarrErrorView::NotYX { dim_names }).text(),
            "Phase 1 expects the last two dim_names to be"@,
            0,
        ),
{
    reveal_strlit("spatial:dims declared name ");
    reveal_strlit("Phase 1 requires at least 2 dimensions to resolve spatial axes; got ");
    reveal_strlit("Phase 1 requires at least 2 dimensions");
    reveal_strlit(
        "Phase 1 expects the last two dim_names to be [\"y\", \"x\"] when `spatial:dims` is not declared; got ",
    );
    reveal_strlit("Phase 1 expects the last two dim_names to be");
}

/// A list is printed in brackets, its items in their order with a comma and a
/// space between neighbours.
pub proof fn law_printed_lists(numbers: Seq<u64>, n: u64, names: Seq<Seq<char>>, name: Seq<char>)
    ensures
        numbers_text(Seq::empty()) == seq!['[', ']'],
        numbers_text(seq![n]) == seq!['['] + decimal(n as nat) + seq![']'],
        numbers.len() > 0 ==> numbers_text(numbers.push(n)) == numbers_text(numbers).drop_last()
            + seq![',', ' '] + decimal(n as nat) + seq![']'],
        names_text(Seq::empty()) == seq!['[', ']'],
        names_text(seq![name]) == seq!['['] + quoted(name) + seq![']'],
        names.len() > 0 ==> names_text(names.push(name)) == names_text(names).drop_last() + seq![
            ',',
            ' ',
        ] + quoted(name) + seq![']'],
{
    reveal_strlit("[");
    reveal_strlit("]");
    reveal_strlit(", ");
    let show = |n: u64| decimal(n as nat);
    let quote = |n: Seq<char>| quoted(n);
    law_joining(numbers.map_values(show), decimal(n as nat), ", "@);
    law_joining(names.map_values(quote), quoted(name), ", "@);
    assert(numbers.push(n).map_values(show) =~= numbers.map_values(show).push(decimal(n as nat)));
    assert(names.push(name).map_values(quote) =~= names.map_values(quote).push(quoted(name)));
    assert(seq![n].map_values(show) =~= seq![decimal(n as nat)]);
    assert(seq![name].map_values(quote) =~= seq![quoted(name)]);
    assert(Seq::<u64>::empty().map_values(show) =~= Seq::<Seq<char>>::empty());
    assert(Seq::<Seq<char>>::empty().map_values(quote) =~= Seq::<Seq<char>>::empty());
    assert(numbers_text(Seq::empty()) =~= seq!['[', ']']);
    assert(names_text(Seq::empty()) =~= seq!['[', ']']);
    assert(numbers_text(seq![n]) =~= seq!['['] + decimal(n as nat) + seq![']']);
    assert(names_text(seq![name]) =~= seq!['['] + quoted(name) + seq![']']);
    if numbers.len() > 0 {
        assert(numbers_text(numbers.push(n)) =~= numbers_text(numbers).drop_last() + seq![',', ' ']
            + decimal(n as nat) + seq![']']);
    }
    if names.len() > 0 {
        assert(names_text(names.push(name)) =~= names_text(names).drop_last() + seq![',', ' ']
            + quoted(name) + seq![']']);
    }
}

/// What went wrong in collecting is said with the number or the name that it
/// is about; what a reader reported is passed on as it is.
pub proof fn law_collecting_messages(got: nat, name: Seq<char>, reason: Seq<char>)
    ensures
        CollectErrorView::MixedDimensions.text()
            == "Can't ST_Collect_Agg() mixed dimension geometries"@,
        CollectErrorView::UnexpectedState.text() == "Unexpected internal state in ST_Collect_Agg()"@,
        CollectErrorView::UnexpectedNulls.text()
            == "unexpected nulls in st_collect() serialized state"@,
        (CollectErrorView::InvalidGeometry { reason }).text() == reason,
        (CollectErrorView::InvalidList { reason }).text() == reason,
        ends_with((CollectErrorView::UnknownName { name }).text(), name),
        ({
            let text = (CollectErrorView::WrongFieldCount { got: got as int }).text();
            lies_at(text, "(expected 4, got "@, 51) && lies_at(text, decimal(got), 68)
        }),
        ends_with((CollectErrorView::WrongFieldType { field: got as int }).text(), decimal(got)),
        ends_with((CollectErrorView::UnknownDimensions { size: got as int }).text(), decimal(got)),
        ends_with((CollectErrorView::TooManyGeometries { count: got as int }).text(), decimal(got)),
{
    reveal_strlit("Unexpected number of state fields for st_collect() (expected 4, got ");
    reveal_strlit("(expected 4, got ");
}

} // verus!
