//! The loader, on Zarr groups that live in memory.
use std::sync::Arc;

use sedona_core::array_info::{
    collect_array_infos, resolve_spatial_dim_indices, validate_group_constraints, ArrayMetadata,
    BandDataType,
};
use sedona_core::chunk_grid::advance_chunk_indices;
use sedona_core::loader::{
    describe_group, group_to_indb_rasters, group_to_outdb_rasters, walk_group, BandSource, Mode,
    RasterPlan,
};
use sedona_core::source_uri::parse_chunk_anchor;
use zarrs::array::{data_type, Array, ArrayBuilder, ArrayBytes};
use zarrs::group::{Group, GroupBuilder};
use zarrs::storage::store::MemoryStore;

fn strings(names: &[&str]) -> Vec<String> {
    names.iter().map(|n| n.to_string()).collect()
}

fn array(path: &str, dims: &[&str], grid: &[u64], shape: &[u64]) -> ArrayMetadata {
    ArrayMetadata {
        handle: 0,
        path: path.to_string(),
        data_type: Ok(BandDataType::UInt8),
        dimension_names: Some(dims.iter().map(|d| Some(d.to_string())).collect()),
        chunk_grid_shape: grid.to_vec(),
        chunk_shape: Ok(shape.to_vec()),
        fill_value: vec![0],
    }
}

fn read_metadata(arrays: &[Array<MemoryStore>]) -> Vec<ArrayMetadata> {
    arrays
        .iter()
        .enumerate()
        .map(|(handle, array)| ArrayMetadata {
            handle,
            path: array.path().to_string(),
            data_type: if array.data_type() == &data_type::uint8() {
                Ok(BandDataType::UInt8)
            } else {
                Err("unsupported data type".to_string())
            },
            dimension_names: array
                .dimension_names()
                .as_ref()
                .map(|names| names.iter().map(|n| n.clone()).collect()),
            chunk_grid_shape: array.chunk_grid_shape().to_vec(),
            chunk_shape: array
                .chunk_shape(&vec![0u64; array.chunk_grid_shape().len()])
                .map(|shape| shape.iter().map(|n| n.get()).collect())
                .map_err(|e| e.to_string()),
            fill_value: array.fill_value().as_ne_bytes().to_vec(),
        })
        .collect()
}

/// Two arrays [t, y, x] of shape [2, 4, 4] in chunks of [1, 2, 2].
#[allow(deprecated)]
fn build_fixture() -> Vec<Array<MemoryStore>> {
    let store = Arc::new(MemoryStore::new());
    GroupBuilder::new()
        .build(store.clone(), "/")
        .unwrap()
        .store_metadata()
        .unwrap();
    for (name, base) in [("temperature", 0u8), ("pressure", 100u8)] {
        let array = ArrayBuilder::new(
            vec![2u64, 4u64, 4u64],
            vec![1u64, 2u64, 2u64],
            data_type::uint8(),
            0u8,
        )
        .dimension_names(Some(["t", "y", "x"]))
        .build(store.clone(), &format!("/{}", name))
        .unwrap();
        array.store_metadata().unwrap();
        for t in 0..2u64 {
            for yc in 0..2u64 {
                for xc in 0..2u64 {
                    let mut chunk = Vec::with_capacity(4);
                    for dy in 0..2u64 {
                        for dx in 0..2u64 {
                            let y = yc * 2 + dy;
                            let x = xc * 2 + dx;
                            chunk.push(base.wrapping_add((t * 16 + y * 4 + x) as u8));
                        }
                    }
                    array
                        .store_chunk_elements::<u8>(&[t, yc, xc], &chunk)
                        .unwrap();
                }
            }
        }
    }
    Group::open(store, "/").unwrap().child_arrays().unwrap()
}

fn chunk_bytes(array: &Array<MemoryStore>, indices: &[u64]) -> Vec<u8> {
    let bytes: ArrayBytes<'static> = array.retrieve_chunk(indices).unwrap();
    bytes.into_fixed().unwrap().into_owned()
}

#[test]
fn advance_chunk_indices_walks_row_major() {
    let shape = vec![2u64, 3u64];
    let mut idx = vec![0u64, 0u64];
    let mut visited = vec![idx.clone()];
    while advance_chunk_indices(&mut idx, &shape) {
        visited.push(idx.clone());
    }
    let expected = vec![
        vec![0, 0],
        vec![0, 1],
        vec![0, 2],
        vec![1, 0],
        vec![1, 1],
        vec![1, 2],
    ];
    assert_eq!(visited, expected);
}

#[test]
fn advance_chunk_indices_signals_exhaustion_via_wraparound() {
    let shape = vec![2u64, 3u64];
    let mut idx = vec![1u64, 2u64];
    assert!(!advance_chunk_indices(&mut idx, &shape));
    assert_eq!(idx, vec![0, 0]);
}

#[test]
fn advance_chunk_indices_single_position_grid_exits_immediately() {
    let shape = vec![1u64];
    let mut idx = vec![0u64];
    assert!(!advance_chunk_indices(&mut idx, &shape));
}

#[test]
fn advance_chunk_indices_visits_an_axis_without_chunks_once() {
    let mut idx = vec![0u64, 0u64];
    assert!(!advance_chunk_indices(&mut idx, &[1, 0]));
    assert_eq!(idx, vec![0, 0]);
    assert!(advance_chunk_indices(&mut idx, &[2, 0]));
    assert_eq!(idx, vec![1, 0]);
}

#[test]
fn resolve_spatial_dim_indices_default_yx() {
    let names = vec!["time".into(), "y".into(), "x".into()];
    let idx = resolve_spatial_dim_indices(&names, None).unwrap();
    assert_eq!(idx, vec![1, 2]);
}

#[test]
fn resolve_spatial_dim_indices_default_rejects_wrong_order() {
    let names = vec!["x".into(), "y".into()];
    let err = resolve_spatial_dim_indices(&names, None)
        .unwrap_err()
        .message();
    assert!(err.contains("[\"y\", \"x\"]"), "{err}");
}

#[test]
fn resolve_spatial_dim_indices_explicit_lookup() {
    let names = vec!["lat".into(), "lon".into(), "time".into()];
    let spatial = vec!["lat".to_string(), "lon".to_string()];
    let idx = resolve_spatial_dim_indices(&names, Some(&spatial)).unwrap();
    assert_eq!(idx, vec![0, 1]);
}

#[test]
fn resolve_spatial_dim_indices_explicit_missing_errors() {
    let names = vec!["a".into(), "b".into()];
    let spatial = vec!["nope".to_string()];
    let err = resolve_spatial_dim_indices(&names, Some(&spatial))
        .unwrap_err()
        .message();
    assert!(err.contains("nope"), "{err}");
}

#[test]
fn resolve_spatial_dim_indices_messages() {
    let err = resolve_spatial_dim_indices(&strings(&["a", "b"]), Some(&strings(&["a", "no\"pe"])))
        .unwrap_err()
        .message();
    assert_eq!(
        err,
        "spatial:dims declared name \"no\\\"pe\" not found in array dim_names [\"a\", \"b\"]"
    );
    let err = resolve_spatial_dim_indices(&strings(&["x"]), None)
        .unwrap_err()
        .message();
    assert_eq!(
        err,
        "Phase 1 requires at least 2 dimensions to resolve spatial axes; got [\"x\"]"
    );
    let err = resolve_spatial_dim_indices(&strings(&["x", "y"]), None)
        .unwrap_err()
        .message();
    assert_eq!(
        err,
        "Phase 1 expects the last two dim_names to be [\"y\", \"x\"] when `spatial:dims` is not \
         declared; got [\"x\", \"y\"]"
    );
}

#[test]
fn indb_round_trip_emits_one_row_per_chunk_position() {
    let arrays = build_fixture();
    let plan = group_to_indb_rasters("file:///fixture", read_metadata(&arrays), None).unwrap();
    assert_eq!(plan.rows.len(), 8, "expected 8 chunk rows (2*2*2)");
    assert_eq!(plan.total_rows, 8);

    let transform = |x: u64, y: u64| {
        let (x, y) = (x as f64, y as f64);
        let [ox, sx, kx, oy, ky, sy] = [100.0, 1.0, 0.0, 200.0, 0.0, -1.0];
        vec![ox + sx * x + kx * y, sx, kx, oy + ky * x + sy * y, ky, sy]
    };
    let r0 = &plan.rows[0];
    assert_eq!(
        transform(r0.x_offset, r0.y_offset),
        vec![100.0, 1.0, 0.0, 200.0, 0.0, -1.0]
    );
    assert_eq!(plan.spatial_shape, vec![2, 2]);
    assert_eq!(plan.spatial_dims, strings(&["y", "x"]));
    assert_eq!(r0.bands.len(), 2);

    let pressure = &plan.infos[0];
    assert_eq!(pressure.chunk_shape, vec![1, 2, 2]);
    assert_eq!(pressure.data_type, BandDataType::UInt8);
    assert_eq!(r0.bands[0], BandSource::Chunk);
    assert_eq!(
        chunk_bytes(&arrays[pressure.handle], &r0.chunk_indices),
        vec![100u8, 101, 104, 105]
    );

    let temperature = &plan.infos[1];
    assert_eq!(
        chunk_bytes(&arrays[temperature.handle], &r0.chunk_indices),
        vec![0u8, 1, 4, 5]
    );

    let last = &plan.rows[7];
    let last_transform = transform(last.x_offset, last.y_offset);
    assert_eq!(last_transform[0], 100.0 + 2.0);
    assert_eq!(last_transform[3], 200.0 - 2.0);
    assert_eq!(
        chunk_bytes(&arrays[temperature.handle], &last.chunk_indices),
        vec![26u8, 27, 30, 31]
    );
}

#[test]
fn outdb_emits_chunk_anchors() {
    let arrays = build_fixture();
    let plan = group_to_outdb_rasters("file:///fixture", read_metadata(&arrays), None).unwrap();
    assert_eq!(plan.rows.len(), 8);

    let anchor_of = |row: usize, band: usize| match &plan.rows[row].bands[band] {
        BandSource::Anchor { uri, format } => (uri.clone(), format.clone()),
        BandSource::Chunk => panic!("OutDb band must not hold its bytes"),
    };
    let (anchor, format) = anchor_of(0, 0);
    assert_eq!(format, "zarr");
    assert!(anchor.starts_with("file://"), "got: {anchor}");
    assert!(!anchor.starts_with("zarr://"), "got: {anchor}");
    assert!(anchor.contains("#array=pressure"), "got: {anchor}");
    assert!(anchor.contains("&chunk=0,0,0"), "got: {anchor}");

    let (anchor, _) = anchor_of(7, 1);
    assert!(anchor.contains("#array=temperature"), "got: {anchor}");
    assert!(anchor.contains("&chunk=1,1,1"), "got: {anchor}");

    let parsed = parse_chunk_anchor(&anchor).unwrap();
    assert_eq!(parsed.store_uri, "file:///fixture");
    assert_eq!(parsed.array_path, "temperature");
    assert_eq!(parsed.chunk_indices, plan.rows[7].chunk_indices);
}

#[test]
fn errors_on_empty_group() {
    let store = Arc::new(MemoryStore::new());
    GroupBuilder::new()
        .build(store.clone(), "/")
        .unwrap()
        .store_metadata()
        .unwrap();
    let arrays = Group::open(store, "/").unwrap().child_arrays().unwrap();
    let err = group_to_indb_rasters("file:///empty", read_metadata(&arrays), None)
        .unwrap_err()
        .message();
    assert!(err.contains("no child arrays"), "got: {err}");
    assert_eq!(err, "Zarr group at file:///empty has no child arrays");
}

#[test]
fn errors_on_mismatched_chunk_grids() {
    let store = Arc::new(MemoryStore::new());
    GroupBuilder::new()
        .build(store.clone(), "/")
        .unwrap()
        .store_metadata()
        .unwrap();
    ArrayBuilder::new(vec![4u64, 4], vec![2u64, 2], data_type::uint8(), 0u8)
        .dimension_names(Some(["y", "x"]))
        .build(store.clone(), "/array_a")
        .unwrap()
        .store_metadata()
        .unwrap();
    ArrayBuilder::new(vec![4u64, 4], vec![4u64, 4], data_type::uint8(), 0u8)
        .dimension_names(Some(["y", "x"]))
        .build(store.clone(), "/array_b")
        .unwrap()
        .store_metadata()
        .unwrap();
    let arrays = Group::open(store, "/").unwrap().child_arrays().unwrap();
    let err = group_to_indb_rasters("file:///mixed", read_metadata(&arrays), None)
        .unwrap_err()
        .message();
    assert!(
        err.contains("chunk") && err.contains("array_a") && err.contains("array_b"),
        "got: {err}"
    );
    assert_eq!(
        err,
        "arrays /array_a and /array_b have different chunk grid shapes ([2, 2] vs [1, 1]); \
         Phase 1 requires a shared chunk grid across the group"
    );
}

#[test]
fn errors_on_mismatched_chunk_shapes_and_names() {
    let infos = collect_array_infos(vec![
        array("/a", &["y", "x"], &[2, 2], &[2, 2]),
        array("/b", &["y", "x"], &[2, 2], &[2, 3]),
    ])
    .unwrap();
    assert_eq!(
        validate_group_constraints(&infos).unwrap_err().message(),
        "arrays /a and /b have different chunk shapes ([2, 2] vs [2, 3]); Phase 1 requires a \
         shared chunk shape across the group"
    );
    let infos = collect_array_infos(vec![
        array("/a", &["y", "x"], &[2, 2], &[2, 2]),
        array("/b", &["lat", "lon"], &[2, 2], &[2, 2]),
    ])
    .unwrap();
    assert_eq!(
        validate_group_constraints(&infos).unwrap_err().message(),
        "arrays /a and /b have different dimension names ([\"y\", \"x\"] vs [\"lat\", \"lon\"]); \
         Phase 1 requires identical dim_names across the group"
    );
}

#[test]
fn arrays_that_cannot_be_bands_are_refused() {
    let good = array("/a", &["y", "x"], &[1, 1], &[1, 1]);
    let mut bad = array("/b", &["y", "x"], &[1, 1], &[1, 1]);
    bad.data_type = Err("no band type".to_string());
    bad.dimension_names = None;
    let err = collect_array_infos(vec![good, bad]).unwrap_err();
    assert_eq!(err.message(), "no band type");

    let mut bad = array("/b", &["y", "x"], &[1, 1], &[1, 1]);
    bad.dimension_names = None;
    bad.chunk_shape = Err("odd".to_string());
    let err = collect_array_infos(vec![bad]).unwrap_err();
    assert_eq!(
        err.message(),
        "array /b: dimension_names is absent; Phase 1 requires every Zarr array to declare \
         dimension_names"
    );

    let mut bad = array("/b", &["y", "x"], &[1, 1], &[1, 1]);
    bad.dimension_names = Some(vec![Some("y".to_string()), None]);
    let err = collect_array_infos(vec![bad]).unwrap_err();
    assert_eq!(
        err.message(),
        "array /b: dimension 1 has no name; Phase 1 requires every Zarr array dimension to be named"
    );

    let mut bad = array("/b", &["y", "x"], &[1, 1], &[1, 1]);
    bad.chunk_shape = Err("odd".to_string());
    let err = collect_array_infos(vec![bad]).unwrap_err();
    assert_eq!(err.message(), "array /b: failed to query chunk shape: odd");
}

#[test]
fn bands_are_ordered_by_path() {
    let paths = ["/b", "/a/z", "/a", "/B", "/ab", "/\u{e9}"];
    let arrays = paths
        .iter()
        .map(|p| array(p, &["y", "x"], &[1, 1], &[1, 1]))
        .collect();
    let infos = collect_array_infos(arrays).unwrap();
    let got: Vec<&str> = infos.iter().map(|i| i.path.as_str()).collect();
    let mut want = paths.to_vec();
    want.sort();
    assert_eq!(got, want);
}

#[test]
fn rows_do_not_depend_on_the_listing() {
    let listing = |paths: &[&str]| {
        let place = |(handle, path): (usize, &&str)| {
            let mut a = array(path, &["y", "x"], &[2, 1], &[3, 4]);
            a.handle = handle;
            a
        };
        paths.iter().enumerate().map(place).collect()
    };
    let one = group_to_outdb_rasters("/g", listing(&["/b", "/c", "/a"]), None).unwrap();
    let two = group_to_outdb_rasters("/g", listing(&["/a", "/c", "/b"]), None).unwrap();
    assert_eq!(one.rows, two.rows);
    let places = |plan: &RasterPlan| plan.infos.iter().map(|i| i.handle).collect::<Vec<_>>();
    assert_eq!(places(&one), vec![2, 0, 1]);
    assert_eq!(places(&two), vec![0, 2, 1]);
}

#[test]
fn the_first_failing_array_in_path_order_is_reported() {
    let mut z = array("/z", &["y", "x"], &[1, 1], &[1, 1]);
    z.data_type = Err("z".to_string());
    let mut a = array("/a", &["y", "x"], &[1, 1], &[1, 1]);
    a.data_type = Err("a".to_string());
    assert_eq!(collect_array_infos(vec![z, a]).unwrap_err().message(), "a");
}

#[test]
fn arrays_of_one_path_keep_their_order() {
    let mut first = array("/a", &["y", "x"], &[1, 1], &[1, 1]);
    first.handle = 7;
    let mut second = array("/a", &["y", "x"], &[1, 1], &[1, 1]);
    second.handle = 3;
    let infos = collect_array_infos(vec![first, second]).unwrap();
    assert_eq!((infos[0].handle, infos[1].handle), (7, 3));
}

#[test]
fn an_empty_fill_value_is_no_nodata() {
    let mut a = array("/a", &["y", "x"], &[1, 1], &[1, 1]);
    a.fill_value = vec![];
    let infos = collect_array_infos(vec![a, array("/b", &["y", "x"], &[1, 1], &[1, 1])]).unwrap();
    assert_eq!(infos[0].nodata, None);
    assert_eq!(infos[1].nodata, Some(vec![0]));
}

#[test]
fn offsets_follow_the_declared_axes() {
    let arrays = vec![array("/a", &["lon", "t", "lat"], &[3, 2, 2], &[10, 1, 7])];
    let dims = strings(&["lat", "lon"]);
    let plan = group_to_indb_rasters("/tmp/g", arrays, Some(&dims)).unwrap();
    assert_eq!(plan.spatial_dims, dims);
    assert_eq!(plan.spatial_shape, vec![7, 10]);
    assert_eq!(plan.rows.len(), 12);
    let row = &plan.rows[11];
    assert_eq!(row.chunk_indices, vec![2, 1, 1]);
    assert_eq!((row.x_offset, row.y_offset), (20, 7));
}

#[test]
fn rows_differ_between_modes_only_in_their_bands() {
    let arrays = || vec![array("/a", &["y", "x"], &[2, 3], &[4, 5])];
    let indb = group_to_indb_rasters("s3://b/g", arrays(), None).unwrap();
    let outdb = group_to_outdb_rasters("s3://b/g", arrays(), None).unwrap();
    assert_eq!(indb.rows.len(), 6);
    for (a, b) in indb.rows.iter().zip(outdb.rows.iter()) {
        assert_eq!(a.chunk_indices, b.chunk_indices);
        assert_eq!((a.x_offset, a.y_offset), (b.x_offset, b.y_offset));
        assert_eq!(a.bands, vec![BandSource::Chunk]);
    }
    assert_eq!(
        outdb.rows[5].bands,
        vec![BandSource::Anchor {
            uri: "s3://b/g#array=a&chunk=1,2".to_string(),
            format: "zarr".to_string(),
        }]
    );
}

#[test]
fn a_grid_with_an_axis_without_chunks_has_no_rows() {
    for grid in [[0, 0], [0, 2], [2, 0]] {
        let arrays = || vec![array("/a", &["y", "x"], &grid, &[4, 5])];
        let plan = group_to_indb_rasters("/g", arrays(), None).unwrap();
        assert_eq!(plan.total_rows, 0);
        assert!(plan.rows.is_empty());
        assert_eq!(plan.spatial_shape, vec![4, 5]);
        let plan = group_to_outdb_rasters("/g", arrays(), None).unwrap();
        assert!(plan.rows.is_empty());
    }
    let huge = array("/a", &["t", "y", "x"], &[u64::MAX, u64::MAX, 0], &[1, 1, 1]);
    let plan = group_to_indb_rasters("/g", vec![huge], None).unwrap();
    assert!(plan.rows.is_empty());
}

#[test]
fn layouts_that_cannot_be_walked_are_recognized() {
    let layout = |dims: &[&str], grid: &[u64], shape: &[u64], spatial: Option<&[String]>| {
        describe_group("/g", vec![array("/a", dims, grid, shape)], spatial).unwrap()
    };
    assert!(layout(&["y", "x"], &[2, 2], &[2, 2], None).walkable());
    let one = strings(&["y"]);
    assert!(!layout(&["y", "x"], &[2, 2], &[2, 2], Some(&one)).walkable());
    assert!(layout(&["y", "x"], &[2, 0], &[2, 2], Some(&one)).walkable());
    assert!(!layout(&["y", "x"], &[2, 2], &[2], None).walkable());
    assert!(!layout(&["y", "x"], &[2], &[2, 2], None).walkable());
    assert!(!layout(&["y", "x"], &[u64::MAX, u64::MAX], &[1, 1], None).walkable());
    assert!(!layout(&["y", "x"], &[3, 1], &[u64::MAX, 1], None).walkable());
    assert!(layout(&["y", "x"], &[2, 1], &[u64::MAX, 1], None).walkable());

    let plan = walk_group(
        "/g",
        Mode::InDb,
        layout(&["y", "x"], &[2, 1], &[u64::MAX, 1], None),
    );
    assert_eq!(plan.rows[1].y_offset, u64::MAX);
    assert_eq!(plan.spatial_shape, vec![-1, 1]);
}
