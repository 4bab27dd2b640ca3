//! Collecting geometries.
use sedona_core::geometry_types::{
    Dimensions, GeometryTypeAndDimensions, GeometryTypeAndDimensionsSet, GeometryTypeId,
    UnknownDimensions,
};
use sedona_core::st_collect_agg::{
    size_with, state_fields, CollectError, CollectionAccumulator, CollectionState, FieldKind,
    StateColumn,
};
use sedona_core::wkb::{parsed_pair, write_collection_header, HeaderError};

fn floats(mut bytes: Vec<u8>, coords: &[f64]) -> Vec<u8> {
    for c in coords {
        bytes.extend_from_slice(&c.to_le_bytes());
    }
    bytes
}

fn point(code: u32, coords: &[f64]) -> Vec<u8> {
    let mut bytes = vec![1];
    bytes.extend_from_slice(&code.to_le_bytes());
    floats(bytes, coords)
}

fn line(coords: &[f64]) -> Vec<u8> {
    let mut bytes = vec![1, 2, 0, 0, 0];
    bytes.extend_from_slice(&(coords.len() as u32 / 2).to_le_bytes());
    floats(bytes, coords)
}

fn polygon(coords: &[f64]) -> Vec<u8> {
    let mut bytes = vec![1, 3, 0, 0, 0, 1, 0, 0, 0];
    bytes.extend_from_slice(&(coords.len() as u32 / 2).to_le_bytes());
    floats(bytes, coords)
}

fn collect(batches: &[Vec<Option<Vec<u8>>>]) -> Result<Option<Vec<u8>>, CollectError> {
    let mut acc = CollectionAccumulator::try_new()?;
    for batch in batches {
        acc.update_batch(batch)?;
    }
    acc.evaluate()
}

fn columns(states: Vec<CollectionState>) -> Vec<StateColumn> {
    let mut types = Vec::new();
    let mut dims = Vec::new();
    let mut counts = Vec::new();
    let mut items = Vec::new();
    for state in states {
        types.push(Some(state.geometry_types));
        dims.push(Some(state.dimensions));
        counts.push(Some(state.count));
        items.push(state.item);
    }
    vec![
        StateColumn::Text(types),
        StateColumn::Text(dims),
        StateColumn::Int(counts),
        StateColumn::Binary(items),
    ]
}

#[test]
fn points_become_a_multi_point() {
    let (a, b) = (point(1, &[0.0, 1.0]), point(1, &[2.0, 3.0]));
    let got = collect(&[vec![Some(a.clone()), None], vec![None, Some(b.clone())]]).unwrap();
    let mut want = vec![1, 4, 0, 0, 0, 2, 0, 0, 0];
    want.extend_from_slice(&a);
    want.extend_from_slice(&b);
    assert_eq!(got, Some(want));
}

#[test]
fn lines_become_a_multi_line() {
    let a = line(&[0.0, 1.0, 2.0, 3.0]);
    let got = collect(&[vec![Some(a.clone()), Some(a.clone()), None]])
        .unwrap()
        .unwrap();
    assert_eq!(&got[..9], &[1, 5, 0, 0, 0, 2, 0, 0, 0]);
    assert_eq!(&got[9..], &[a.clone(), a].concat()[..]);
}

#[test]
fn polygons_become_a_multi_polygon() {
    let a = polygon(&[0.0, 0.0, 1.0, 0.0, 0.0, 1.0, 0.0, 0.0]);
    let got = collect(&[vec![Some(a.clone())]]).unwrap().unwrap();
    assert_eq!(&got[..9], &[1, 6, 0, 0, 0, 1, 0, 0, 0]);
    assert_eq!(&got[9..], &a[..]);
}

#[test]
fn mixed_types_become_a_collection() {
    let (a, b) = (point(1, &[0.0, 1.0]), line(&[4.0, 5.0, 6.0, 7.0]));
    let got = collect(&[vec![Some(a.clone())], vec![Some(b.clone())]])
        .unwrap()
        .unwrap();
    assert_eq!(&got[..9], &[1, 7, 0, 0, 0, 2, 0, 0, 0]);
    assert_eq!(&got[9..], &[a, b].concat()[..]);
    let multi = got.clone();
    let nested = collect(&[vec![Some(multi.clone())]]).unwrap().unwrap();
    assert_eq!(&nested[..9], &[1, 7, 0, 0, 0, 1, 0, 0, 0]);
    assert_eq!(&nested[9..], &multi[..]);
}

#[test]
fn dimensions_are_kept() {
    for (code, size, header) in [(1001u32, 3, [236, 3]), (2001, 3, [212, 7]), (3001, 4, [188, 11])] {
        let p = point(code, &vec![1.5; size]);
        let got = collect(&[vec![Some(p.clone())]]).unwrap().unwrap();
        assert_eq!(&got[..9], &[1, header[0], header[1], 0, 0, 1, 0, 0, 0]);
        assert_eq!(&got[9..], &p[..]);
    }
}

#[test]
fn nothing_is_null() {
    assert_eq!(collect(&[]).unwrap(), None);
    assert_eq!(collect(&[vec![None, None]]).unwrap(), None);
}

#[test]
fn mixed_dimensions_are_refused() {
    let err = collect(&[
        vec![Some(point(1, &[0.0, 1.0])), None],
        vec![Some(point(1001, &[0.0, 1.0, 2.0])), None],
    ])
    .unwrap_err();
    assert_eq!(
        err.message(),
        "Can't ST_Collect_Agg() mixed dimension geometries"
    );
}

#[test]
fn a_value_that_is_no_geometry_ends_the_batch() {
    let mut acc = CollectionAccumulator::try_new().unwrap();
    let p = point(1, &[0.0, 1.0]);
    let err = acc
        .update_batch(&[Some(p.clone()), Some(vec![1, 9, 0, 0]), Some(p.clone())])
        .unwrap_err();
    assert!(matches!(err, CollectError::InvalidGeometry { .. }));
    assert!(!err.message().is_empty());
    assert_eq!(acc.count, 1);
    assert_eq!(acc.item.as_ref().unwrap()[9..], p[..]);
}

#[test]
fn bytes_behind_a_geometry_are_left_out() {
    let p = point(1, &[0.0, 1.0]);
    let mut long = p.clone();
    long.extend_from_slice(&[9, 9, 9]);
    let got = collect(&[vec![Some(long)]]).unwrap().unwrap();
    assert_eq!(&got[9..], &p[..]);
}

#[test]
fn the_collection_is_handed_out_once() {
    let mut acc = CollectionAccumulator::try_new().unwrap();
    acc.update_batch(&[Some(point(1, &[0.0, 1.0]))]).unwrap();
    assert!(acc.evaluate().unwrap().is_some());
    let err = acc.evaluate().unwrap_err();
    assert_eq!(err.message(), "Unexpected internal state in ST_Collect_Agg()");
    let err = acc.update_batch(&[None]).unwrap_err();
    assert!(matches!(err, CollectError::UnexpectedState));
    let err = acc.merge_batch(&columns(vec![])).unwrap_err();
    assert!(matches!(err, CollectError::UnexpectedState));
}

#[test]
fn nothing_is_taken_in_after_the_hand_out() {
    let mut acc = CollectionAccumulator::try_new().unwrap();
    acc.update_batch(&[Some(point(1, &[0.0, 1.0]))]).unwrap();
    acc.evaluate().unwrap();
    acc.count = i64::MAX;
    let err = acc
        .update_batch(&[Some(point(1, &[0.0, 1.0]))])
        .unwrap_err();
    assert!(matches!(err, CollectError::UnexpectedState));
    let err = acc
        .merge_batch(&[
            StateColumn::Text(vec![Some("[]".to_string())]),
            StateColumn::Text(vec![Some("[]".to_string())]),
            StateColumn::Int(vec![Some(1)]),
            StateColumn::Binary(vec![Some(vec![])]),
        ])
        .unwrap_err();
    assert!(matches!(err, CollectError::UnexpectedState));
    assert_eq!(acc.count, i64::MAX);
}

#[test]
fn merging_a_worker_is_updating_with_its_rows() {
    let ours = vec![Some(line(&[0.0, 1.0, 2.0, 3.0])), None];
    let theirs = vec![Some(point(1, &[4.0, 5.0])), Some(point(1, &[6.0, 7.0]))];
    let mut worker = CollectionAccumulator::try_new().unwrap();
    worker.update_batch(&theirs).unwrap();
    let mut acc = CollectionAccumulator::try_new().unwrap();
    acc.update_batch(&ours).unwrap();
    acc.merge_batch(&columns(vec![worker.state().unwrap()]))
        .unwrap();
    assert_eq!(
        acc.evaluate().unwrap(),
        collect(&[ours, theirs]).unwrap()
    );
}

#[test]
fn state_wire_format_is_unchanged() {
    let mut acc = CollectionAccumulator::try_new().unwrap();
    acc.type_and_dims
        .insert(&GeometryTypeAndDimensions::new(
            GeometryTypeId::Point,
            Dimensions::Xy,
        ))
        .unwrap();
    acc.count = 1;

    let state = acc.state().unwrap();
    assert_eq!(state.geometry_types.as_str(), "[\"Point\"]");
    assert_eq!(
        state.dimensions.as_str(),
        serde_json::to_string(&[GeometryTypeAndDimensions::new(
            GeometryTypeId::Geometry,
            Dimensions::Xy
        )
        .name()])
        .unwrap()
    );
    assert_eq!(state.dimensions.as_str(), "[\"Geometry\"]");
    assert_eq!(state.count, 1);
    assert_eq!(state.item, Some(vec![1, 7, 0, 0, 0, 0, 0, 0, 0]));
    assert_eq!(acc.item, None);
}

#[test]
fn state_lists_types_and_dimensions() {
    let mut acc = CollectionAccumulator::try_new().unwrap();
    acc.update_batch(&[
        Some(point(1001, &[0.0, 1.0, 2.0])),
        Some(line(&[0.0, 1.0, 2.0, 3.0])),
        Some(point(2001, &[0.0, 1.0, 2.0])),
        Some(point(3001, &[0.0, 1.0, 2.0, 3.0])),
    ])
    .unwrap();
    let state = acc.state().unwrap();
    assert_eq!(state.geometry_types, "[\"LineString\",\"Point\"]");
    assert_eq!(
        state.dimensions,
        "[\"Geometry\",\"Geometry Z\",\"Geometry M\",\"Geometry ZM\"]"
    );
    assert_eq!(state.count, 4);
}

#[test]
fn accumulator_size_is_exact() {
    let mut acc = CollectionAccumulator::try_new().unwrap();
    let empty_size = acc.size();

    acc.type_and_dims
        .insert(&GeometryTypeAndDimensions::new(
            GeometryTypeId::Point,
            Dimensions::Xy,
        ))
        .unwrap();

    assert_eq!(acc.size(), empty_size);
    assert_eq!(
        acc.size(),
        size_of::<CollectionAccumulator>() + acc.item.as_ref().unwrap().capacity()
    );
    assert_eq!(size_with(100), size_of::<CollectionAccumulator>() + 100);
    acc.item = None;
    assert_eq!(acc.size(), size_of::<CollectionAccumulator>());
}

#[test]
fn split_work_gives_the_same_collection() {
    let rows = vec![
        Some(point(1, &[0.0, 1.0])),
        None,
        Some(line(&[0.0, 1.0, 2.0, 3.0])),
        Some(point(1, &[4.0, 5.0])),
    ];
    let whole = collect(&[rows.clone()]).unwrap();
    let mut states = Vec::new();
    for part in [&rows[..1], &rows[1..2], &rows[2..]] {
        let mut worker = CollectionAccumulator::try_new().unwrap();
        worker.update_batch(part).unwrap();
        states.push(worker.state().unwrap());
    }
    let mut acc = CollectionAccumulator::try_new().unwrap();
    acc.merge_batch(&columns(states)).unwrap();
    assert_eq!(acc.count, 3);
    assert_eq!(acc.evaluate().unwrap(), whole);
}

#[test]
fn merging_keeps_mixed_dimensions_apart() {
    let mut states = Vec::new();
    for value in [point(1, &[0.0, 1.0]), point(1001, &[0.0, 1.0, 2.0])] {
        let mut worker = CollectionAccumulator::try_new().unwrap();
        worker.update_batch(&[Some(value)]).unwrap();
        states.push(worker.state().unwrap());
    }
    let mut acc = CollectionAccumulator::try_new().unwrap();
    acc.merge_batch(&columns(states)).unwrap();
    assert!(matches!(
        acc.evaluate().unwrap_err(),
        CollectError::MixedDimensions
    ));
}

#[test]
fn merging_takes_in_every_combination() {
    let mut acc = CollectionAccumulator::try_new().unwrap();
    acc.merge_batch(&[
        StateColumn::Text(vec![Some(" [ \"Polygon\", \"Point\" ] ".to_string())]),
        StateColumn::Text(vec![Some("[\"Geometry\",\"Geometry Z\"]".to_string())]),
        StateColumn::Int(vec![Some(5)]),
        StateColumn::Binary(vec![Some(vec![0; 9])]),
    ])
    .unwrap();
    let seen: Vec<String> = acc.type_and_dims.iter().iter().map(|p| p.name()).collect();
    assert_eq!(seen, vec!["Point", "Polygon", "Point Z", "Polygon Z"]);
    assert_eq!(
        acc.unique_geometry_types(),
        vec![GeometryTypeId::Point, GeometryTypeId::Polygon]
    );
    assert_eq!(acc.unique_dimensions(), vec![Dimensions::Xy, Dimensions::Xyz]);
    assert_eq!(acc.count, 5);
}

#[test]
fn states_that_cannot_be_merged_are_refused() {
    let text = |t: &str| StateColumn::Text(vec![Some(t.to_string())]);
    let state = |types: &str, dims: &str| {
        vec![
            text(types),
            text(dims),
            StateColumn::Int(vec![Some(1)]),
            StateColumn::Binary(vec![Some(vec![0; 9])]),
        ]
    };
    let mut acc = CollectionAccumulator::try_new().unwrap();
    let mut refused = |states: &[StateColumn]| {
        let message = acc.merge_batch(states).unwrap_err().message();
        assert_eq!(acc.count, 0);
        message
    };
    assert_eq!(
        refused(&[text("[]")]),
        "Unexpected number of state fields for st_collect() (expected 4, got 1)"
    );
    let mut states = state("[]", "[]");
    states[2] = StateColumn::Text(vec![None]);
    assert_eq!(
        refused(&states),
        "unexpected type of st_collect() state field 2"
    );
    let mut states = state("[]", "[]");
    states[3] = StateColumn::Binary(vec![None]);
    assert_eq!(
        refused(&states),
        "unexpected nulls in st_collect() serialized state"
    );
    let mut states = state("[]", "[]");
    states[1] = StateColumn::Text(vec![]);
    assert_eq!(
        refused(&states),
        "unexpected nulls in st_collect() serialized state"
    );
    assert_eq!(
        refused(&state("[\"Circle\"]", "[]")),
        "unknown name in st_collect() serialized state: Circle"
    );
    assert_eq!(
        refused(&state("[\"Point\"]", "[\"Geometry T\"]")),
        "unknown name in st_collect() serialized state: Geometry T"
    );
    assert!(refused(&state("[\"Point\"", "[]")).contains("EOF"));
    assert!(refused(&state("[]", "[1]")).contains("invalid type"));
}

#[test]
fn state_fields_are_named() {
    let fields = state_fields();
    let names: Vec<&str> = fields.iter().map(|f| f.name).collect();
    assert_eq!(
        names,
        vec!["unique_geometry_types", "unique_dimensions", "count", "item"]
    );
    assert_eq!(fields[2].kind, FieldKind::Int64);
    assert_eq!(fields[3].kind, FieldKind::Geometry);
    assert!(fields[3].nullable && !fields[0].nullable);
}

#[test]
fn parsed_geometries_are_added_as_they_are() {
    let mut acc = CollectionAccumulator::try_new().unwrap();
    acc.add_parsed(&[1, 2, 3], Ok((2, 3, 2))).unwrap();
    assert_eq!(
        acc.type_and_dims.iter(),
        vec![GeometryTypeAndDimensions::new(
            GeometryTypeId::Polygon,
            Dimensions::Xyzm
        )]
    );
    assert_eq!(acc.item.as_ref().unwrap()[9..], [1, 2]);
    let err = acc.add_parsed(&[1], Err("bad".to_string())).unwrap_err();
    assert_eq!(err.message(), "bad");
    assert_eq!(
        parsed_pair(0, 0),
        GeometryTypeAndDimensions::new(GeometryTypeId::Point, Dimensions::Xy)
    );
}

#[test]
fn too_many_geometries_are_refused() {
    let mut acc = CollectionAccumulator::try_new().unwrap();
    acc.update_batch(&[Some(point(1, &[0.0, 1.0]))]).unwrap();
    acc.count = u32::MAX as i64 + 1;
    let err = acc.make_wkb_result().unwrap_err();
    assert_eq!(
        err.message(),
        "too many geometries for one collection: 4294967296"
    );
    acc.count = u32::MAX as i64;
    let got = acc.make_wkb_result().unwrap().unwrap();
    assert_eq!(&got[..9], &[1, 4, 0, 0, 0, 255, 255, 255, 255]);
}

#[test]
fn headers_are_little_endian() {
    let mut buf = vec![7];
    write_collection_header(&mut buf, GeometryTypeId::MultiPolygon, Dimensions::Xym, 0x01020304)
        .unwrap();
    assert_eq!(buf, vec![7, 1, 214, 7, 0, 0, 4, 3, 2, 1]);
    let err = write_collection_header(
        &mut buf,
        GeometryTypeId::MultiPoint,
        Dimensions::Unknown(5),
        1,
    )
    .unwrap_err();
    assert_eq!(err, HeaderError::UnknownDimensions(5));
    assert_eq!(buf.len(), 10);
}

#[test]
fn sets_hold_pairs_in_order() {
    let mut set = GeometryTypeAndDimensionsSet::new();
    assert!(set.iter().is_empty());
    let p = |t, d| GeometryTypeAndDimensions::new(t, d);
    let a = p(GeometryTypeId::GeometryCollection, Dimensions::Xyzm);
    let b = p(GeometryTypeId::Geometry, Dimensions::Xy);
    let c = p(GeometryTypeId::MultiLineString, Dimensions::Xy);
    for pair in [a, b, c, a] {
        set.insert(&pair).unwrap();
    }
    assert_eq!(set.iter(), vec![b, c, a]);
    assert_eq!(
        set.insert(&p(GeometryTypeId::Point, Dimensions::Unknown(7))),
        Err(UnknownDimensions { size: 7 })
    );
    assert_eq!(set.iter(), vec![b, c, a]);
}

#[test]
fn names_are_read_back() {
    for id in 0..8 {
        let t = GeometryTypeId::from_wkb_id(id);
        assert_eq!(t.wkb_id(), id);
        assert_eq!(GeometryTypeId::from_name(t.name()), Some(t));
        for i in 0..4 {
            let pair = GeometryTypeAndDimensions::new(t, Dimensions::from_index(i));
            assert_eq!(pair.dimensions.index(), Some(i));
            assert_eq!(GeometryTypeAndDimensions::from_name(&pair.name()), Some(pair));
        }
    }
    assert_eq!(GeometryTypeId::from_name("point"), None);
    assert_eq!(GeometryTypeAndDimensions::from_name("Point  Z"), None);
    assert_eq!(Dimensions::Unknown(3).index(), None);
}

#[test]
fn rows_that_cannot_be_merged_need_no_room() {
    let mut acc = CollectionAccumulator::try_new().unwrap();
    acc.count = i64::MAX;
    let text = |a: &str, b: &str| StateColumn::Text(vec![Some(a.to_string()), Some(b.to_string())]);
    let states = vec![
        text("[\"Circle\"]", "[]"),
        text("[]", "[]"),
        StateColumn::Int(vec![Some(1), Some(1)]),
        StateColumn::Binary(vec![Some(vec![]), Some(vec![])]),
    ];
    let err = acc.merge_batch(&states).unwrap_err();
    assert!(matches!(err, CollectError::UnknownName { .. }));
    assert_eq!(acc.count, i64::MAX);
    assert!(acc.try_merge_batch(&states).unwrap().is_err());
}

#[test]
fn merging_is_tried_before_it_is_done() {
    let states = |count: i64, size: usize| {
        vec![
            StateColumn::Text(vec![Some("[\"Point\"]".to_string())]),
            StateColumn::Text(vec![Some("[\"Geometry\"]".to_string())]),
            StateColumn::Int(vec![Some(count)]),
            StateColumn::Binary(vec![Some(vec![0; size])]),
        ]
    };
    let mut acc = CollectionAccumulator::try_new().unwrap();
    assert!(acc.try_merge_batch(&states(1, 8)).is_none());
    assert!(acc.type_and_dims.iter().is_empty());
    assert!(acc.try_merge_batch(&states(i64::MAX, 9)).unwrap().is_ok());
    assert_eq!(acc.count, i64::MAX);
    assert!(acc.try_merge_batch(&states(1, 9)).is_none());
    assert_eq!(acc.count, i64::MAX);
    assert!(acc.try_merge_batch(&states(1, 9)[..3]).unwrap().is_err());
    acc.item = None;
    assert!(acc.try_merge_batch(&states(1, 8)).unwrap().is_err());
}

#[test]
fn updating_is_tried_before_it_is_done() {
    let p = point(1, &[0.0, 1.0]);
    let mut acc = CollectionAccumulator::try_new().unwrap();
    acc.count = i64::MAX - 1;
    assert!(acc
        .try_update_batch(&[Some(p.clone()), Some(p.clone())])
        .is_none());
    assert_eq!(acc.count, i64::MAX - 1);
    let bad = vec![1, 9];
    assert!(acc
        .try_update_batch(&[Some(p.clone()), None, Some(bad), Some(p.clone())])
        .unwrap()
        .is_err());
    assert_eq!(acc.count, i64::MAX);
    assert!(acc.try_update_batch(&[None, None]).unwrap().is_ok());
    acc.item = None;
    assert!(acc.try_update_batch(&[Some(p)]).unwrap().is_err());
}
