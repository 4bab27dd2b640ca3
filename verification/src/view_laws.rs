//! That the mathematical view of a value shows its fields as they are.
use vstd::prelude::*;

#[allow(unused_imports)]
use crate::array_info::{
    axis_views, declared_view, info_views, metadata_views, names_view, ArrayInfo, ArrayMetadata,
};
#[allow(unused_imports)]
use crate::error::ZarrError;
#[allow(unused_imports)]
use crate::loader::{row_views, source_views, BandSource, GroupLayout, RasterPlan, RasterRow};
#[allow(unused_imports)]
use crate::object_store_backends::{AzureStore, GcsStore, HttpStore, S3Store, UrlParts};
#[allow(unused_imports)]
use crate::source_uri::{ChunkAnchor, ZarrStorage};
#[allow(unused_imports)]
use crate::st_collect_agg::{
    bytes_view, failure_of, list_view, value_views, CollectError, CollectionAccumulator,
};
#[allow(unused_imports)]
use crate::text::{string_views, views};

verus! {

/// Whether an optional sequence shows an optional text.
pub open spec fn shows(seen: Option<Seq<char>>, text: Option<String>) -> bool {
    match (seen, text) {
        (Some(s), Some(t)) => s == t@,
        (None, None) => true,
        _ => false,
    }
}

/// Whether a list of sequences shows a list of texts.
pub open spec fn shows_all(seen: Seq<Seq<char>>, texts: Seq<String>) -> bool {
    &&& seen.len() == texts.len()
    &&& forall|i: int| 0 <= i < texts.len() ==> #[trigger] seen[i] == texts[i]@
}

/// Lists are seen item by item.
pub proof fn law_views_of_lists(
    texts: Seq<String>,
    parts: Seq<&str>,
    names: Seq<Option<String>>,
    axes: Seq<usize>,
    values: Seq<Option<Vec<u8>>>,
)
    ensures
        shows_all(string_views(texts), texts),
        views(parts).len() == parts.len(),
        forall|i: int| 0 <= i < parts.len() ==> #[trigger] views(parts)[i] == parts[i]@,
        names_view(names).len() == names.len(),
        forall|i: int| 0 <= i < names.len() ==> shows(#[trigger] names_view(names)[i], names[i]),
        axis_views(axes).len() == axes.len(),
        forall|i: int| 0 <= i < axes.len() ==> #[trigger] axis_views(axes)[i] == axes[i],
        value_views(values).len() == values.len(),
        forall|i: int|
            0 <= i < values.len() ==> match (#[trigger] value_views(values)[i], values[i]) {
                (Some(seen), Some(bytes)) => seen == bytes@,
                (None, None) => true,
                _ => false,
            },
{
}

/// A URL's components are seen as they are.
pub proof fn law_view_of_url_parts(parts: UrlParts)
    ensures
        parts@.0 == parts.scheme@,
        shows(parts@.1, parts.host),
        parts@.2 == parts.port,
        parts@.3 == parts.path@,
{
}

/// A chunk anchor's parts are seen as they are.
pub proof fn law_view_of_chunk_anchor(anchor: ChunkAnchor)
    ensures
        anchor@.store_uri == anchor.store_uri@,
        anchor@.array_path == anchor.array_path@,
        anchor@.chunk_indices == anchor.chunk_indices@,
{
}

/// The settings of a store are seen as they are, each under its own name.
pub proof fn law_views_of_stores(s3: S3Store, gcs: GcsStore, azure: AzureStore, http: HttpStore)
    ensures
        s3@ is S3,
        s3@->S3_url == s3.url@,
        shows(s3@->access_key_id, s3.access_key_id),
        shows(s3@->secret_access_key, s3.secret_access_key),
        shows(s3@->session_token, s3.session_token),
        shows(s3@->region, s3.region),
        shows(s3@->endpoint, s3.endpoint),
        s3@->allow_http == s3.allow_http,
        s3@->skip_signature == s3.skip_signature,
        gcs@ is Gcs,
        gcs@->Gcs_url == gcs.url@,
        shows(gcs@->service_account_path, gcs.service_account_path),
        shows(gcs@->service_account_key, gcs.service_account_key),
        shows(gcs@->application_credentials_path, gcs.application_credentials_path),
        azure@ is Azure,
        azure@->Azure_url == azure.url@,
        shows(azure@->account_name, azure.account_name),
        shows(azure@->account_key, azure.account_key),
        shows(azure@->client_id, azure.client_id),
        shows(azure@->client_secret, azure.client_secret),
        shows(azure@->tenant_id, azure.tenant_id),
        azure@->use_emulator == azure.use_emulator,
        http@ is Http,
        http@->base == http.base@,
{
}

/// A storage is seen as a directory or as its store.
pub proof fn law_view_of_storage(storage: ZarrStorage)
    ensures
        match storage {
            ZarrStorage::Filesystem { path } => storage@ is Filesystem && storage@->path == path@,
            ZarrStorage::S3(store) => storage@ is Cloud && storage@->store == store@,
            ZarrStorage::Gcs(store) => storage@ is Cloud && storage@->store == store@,
            ZarrStorage::Azure(store) => storage@ is Cloud && storage@->store == store@,
            ZarrStorage::Http(store) => storage@ is Cloud && storage@->store == store@,
        },
{
}

/// What an array says of itself, and what is kept of it, is seen as it is.
pub proof fn law_views_of_arrays(a: ArrayMetadata, info: ArrayInfo)
    ensures
        a@.handle == a.handle,
        a@.path == a.path@,
        a@.data_type is Ok <==> a.data_type is Ok,
        a.data_type matches Ok(t) ==> a@.data_type->Ok_0 == t,
        a.data_type matches Err(e) ==> a@.data_type->Err_0 == e@,
        a@.dimension_names is Some <==> a.dimension_names is Some,
        a.dimension_names matches Some(names) ==> a@.dimension_names->0 == names_view(names@),
        a@.chunk_grid_shape == a.chunk_grid_shape@,
        a@.chunk_shape is Ok <==> a.chunk_shape is Ok,
        a.chunk_shape matches Ok(shape) ==> a@.chunk_shape->Ok_0 == shape@,
        a.chunk_shape matches Err(e) ==> a@.chunk_shape->Err_0 == e@,
        a@.fill_value == a.fill_value@,
        info@.handle == info.handle,
        info@.path == info.path@,
        info@.data_type == info.data_type,
        shows_all(info@.dim_names, info.dim_names@),
        info@.chunk_grid_shape == info.chunk_grid_shape@,
        info@.chunk_shape == info.chunk_shape@,
        info@.nodata is Some <==> info.nodata is Some,
        info.nodata matches Some(bytes) ==> info@.nodata->0 == bytes@,
{
}

/// Lists of arrays and of what is kept of them are seen item by item, and so
/// is a declaration of dimensions.
pub proof fn law_views_of_array_lists(
    arrays: Seq<ArrayMetadata>,
    infos: Seq<ArrayInfo>,
    declared: Option<&[String]>,
)
    ensures
        metadata_views(arrays).len() == arrays.len(),
        forall|i: int| 0 <= i < arrays.len() ==> #[trigger] metadata_views(arrays)[i] == arrays[i]@,
        info_views(infos).len() == infos.len(),
        forall|i: int| 0 <= i < infos.len() ==> #[trigger] info_views(infos)[i] == infos[i]@,
        declared_view(declared) is Some <==> declared is Some,
        declared matches Some(names) ==> shows_all(declared_view(declared)->0, names@),
{
}

/// A layout, and a raster with its rows and bands, is seen as it is.
pub proof fn law_views_of_rasters(
    layout: GroupLayout,
    plan: RasterPlan,
    row: RasterRow,
    band: BandSource,
    rows: Seq<RasterRow>,
    bands: Seq<BandSource>,
)
    ensures
        layout@.infos == info_views(layout.infos@),
        layout@.spatial_axes == axis_views(layout.spatial_axes@),
        plan@.infos == info_views(plan.infos@),
        shows_all(plan@.spatial_dims, plan.spatial_dims@),
        plan@.spatial_shape == plan.spatial_shape@,
        plan@.total_rows == plan.total_rows,
        plan@.rows == row_views(plan.rows@),
        row@.chunk_indices == row.chunk_indices@,
        row@.x_offset == row.x_offset,
        row@.y_offset == row.y_offset,
        row@.bands == source_views(row.bands@),
        band@ is Chunk <==> band is Chunk,
        band matches BandSource::Anchor { uri, format } ==> band@->uri == uri@ && band@->format
            == format@,
        row_views(rows).len() == rows.len(),
        forall|i: int| 0 <= i < rows.len() ==> #[trigger] row_views(rows)[i] == rows[i]@,
        source_views(bands).len() == bands.len(),
        forall|i: int| 0 <= i < bands.len() ==> #[trigger] source_views(bands)[i] == bands[i]@,
{
}

/// A collection is seen as it is, and so are optional bytes, lists that were
/// read, and outcomes.
pub proof fn law_views_of_collections(
    acc: CollectionAccumulator,
    item: Option<Vec<u8>>,
    list: Result<Vec<String>, String>,
    outcome: Result<(), CollectError>,
)
    ensures
        acc@.types == acc.type_and_dims@,
        acc@.count == acc.count,
        acc@.item is Some <==> acc.item is Some,
        acc.item matches Some(bytes) ==> acc@.item->0 == bytes@,
        bytes_view(item) is Some <==> item is Some,
        item matches Some(bytes) ==> bytes_view(item)->0 == bytes@,
        list_view(list) is Ok <==> list is Ok,
        list matches Ok(names) ==> shows_all(list_view(list)->Ok_0, names@),
        list matches Err(reason) ==> list_view(list)->Err_0 == reason@,
        failure_of(outcome) is None <==> outcome is Ok,
        outcome matches Err(e) ==> failure_of(outcome)->0 == e@,
{
}

/// An error about a URI or an option is seen with what it is about.
pub proof fn law_views_of_uri_errors(e: ZarrError)
    ensures
        match e {
            ZarrError::MissingFragment { uri } => e@ is MissingFragment && e@->MissingFragment_uri
                == uri@,
            ZarrError::MissingArray { uri } => e@ is MissingArray && e@->MissingArray_uri == uri@,
            ZarrError::MissingChunk { uri } => e@ is MissingChunk && e@->MissingChunk_uri == uri@,
            ZarrError::EmptyIndices { uri } => e@ is EmptyIndices && e@->EmptyIndices_uri == uri@,
            ZarrError::BadIndex { index, uri } => e@ is BadIndex && e@->index == index@
                && e@->BadIndex_uri == uri@,
            ZarrError::UnsupportedScheme { scheme, uri } => e@ is UnsupportedScheme && e@->scheme
                == scheme@ && e@->UnsupportedScheme_uri == uri@,
            ZarrError::InvalidUri { uri, reason } => e@ is InvalidUri && e@->InvalidUri_uri == uri@
                && e@->InvalidUri_reason == reason@,
            ZarrError::MissingHost { uri } => e@ is MissingHost && e@->MissingHost_uri == uri@,
            ZarrError::NotABoolean { key, value } => e@ is NotABoolean && e@->key == key@
                && e@->value == value@,
            _ => true,
        },
{
}

/// An error about a group is seen with what it is about.
pub proof fn law_views_of_group_errors(e: ZarrError)
    ensures
        match e {
            ZarrError::NoChildArrays { group_uri } => e@ is NoChildArrays && e@->group_uri
                == group_uri@,
            ZarrError::UnsupportedDataType { reason } => e@ is UnsupportedDataType
                && e@->UnsupportedDataType_reason == reason@,
            ZarrError::MissingDimensionNames { path } => e@ is MissingDimensionNames
                && e@->MissingDimensionNames_path == path@,
            ZarrError::UnnamedDimension { path, dimension } => e@ is UnnamedDimension
                && e@->UnnamedDimension_path == path@ && e@->dimension == dimension,
            ZarrError::UnknownChunkShape { path, reason } => e@ is UnknownChunkShape
                && e@->UnknownChunkShape_path == path@ && e@->UnknownChunkShape_reason == reason@,
            ZarrError::DifferentChunkGrids { first, other, first_grid, other_grid } => e@
                is DifferentChunkGrids && e@->DifferentChunkGrids_first == first@
                && e@->DifferentChunkGrids_other == other@ && e@->first_grid == first_grid@
                && e@->other_grid == other_grid@,
            ZarrError::DifferentChunkShapes { first, other, first_shape, other_shape } => e@
                is DifferentChunkShapes && e@->DifferentChunkShapes_first == first@
                && e@->DifferentChunkShapes_other == other@ && e@->first_shape == first_shape@
                && e@->other_shape == other_shape@,
            ZarrError::DifferentDimensionNames { first, other, first_names, other_names } => e@
                is DifferentDimensionNames && e@->DifferentDimensionNames_first == first@
                && e@->DifferentDimensionNames_other == other@ && shows_all(
                e@->first_names,
                first_names@,
            ) && shows_all(e@->other_names, other_names@),
            ZarrError::UnknownSpatialDimension { name, dim_names } => e@ is UnknownSpatialDimension
                && e@->name == name@ && shows_all(
                e@->UnknownSpatialDimension_dim_names,
                dim_names@,
            ),
            ZarrError::TooFewDimensions { dim_names } => e@ is TooFewDimensions && shows_all(
                e@->TooFewDimensions_dim_names,
                dim_names@,
            ),
            ZarrError::NotYX { dim_names } => e@ is NotYX && shows_all(
                e@->NotYX_dim_names,
                dim_names@,
            ),
            _ => true,
        },
{
}

/// An error of collecting is seen with what it is about.
pub proof fn law_views_of_collecting_errors(e: CollectError)
    ensures
        match e {
            CollectError::MixedDimensions => e@ is MixedDimensions,
            CollectError::UnexpectedState => e@ is UnexpectedState,
            CollectError::WrongFieldCount { got } => e@ is WrongFieldCount && e@->got == got,
            CollectError::WrongFieldType { field } => e@ is WrongFieldType && e@->field == field,
            CollectError::UnexpectedNulls => e@ is UnexpectedNulls,
            CollectError::InvalidGeometry { reason } => e@ is InvalidGeometry
                && e@->InvalidGeometry_reason == reason@,
            CollectError::InvalidList { reason } => e@ is InvalidList && e@->InvalidList_reason
                == reason@,
            CollectError::UnknownName { name } => e@ is UnknownName && e@->name == name@,
            CollectError::UnknownDimensions { size } => e@ is UnknownDimensions && e@->size == size,
            CollectError::TooManyGeometries { count } => e@ is TooManyGeometries && e@->count
                == count,
        },
{
}

} // verus!
