//! From the arrays of a Zarr group to raster rows: one row per chunk position,
//! one band per array.
//!
//! The rows of an InDb raster hold the bytes of every chunk; those of an
//! OutDb raster hold chunk anchors, and the bytes are fetched on demand. What
//! is planned here says for every row which chunk it stands for, where its
//! origin lies and where its bands come from.
use vstd::prelude::*;

use crate::array_info::{
    collect_array_infos, resolve_spatial_dim_indices, validate_group_constraints, ArrayInfo,
    ArrayMetadata,
};
use crate::chunk_grid::advance_chunk_indices;
use crate::error::ZarrError;
use crate::source_uri::build_chunk_anchor;

#[allow(unused_imports)]
use crate::array_info::{
    all_agree, all_unplaced, axis_views, declared_view, distinct_paths, first_disagreement,
    info_views, infos_of, infos_unplaced, law_declared_axes_carry_their_names, law_group_agrees,
    law_order_ignores_listing, lemma_declared_in_range, lemma_disagreement_unplaced,
    lemma_infos_len, lemma_infos_unplaced, lemma_sorted_len, list_the_same, metadata_views,
    sorted_by_path, spatial_axes, ArrayInfoView, ArrayMetadataView,
};
#[allow(unused_imports)]
use crate::chunk_grid::{
    in_grid, law_position_has_rank, law_rank_has_position, law_step_is_row_major,
    law_when_a_grid_has_positions, lemma_position_zero, lemma_rank_bound, origin, position,
    position_count, rank,
};
#[allow(unused_imports)]
use crate::error::ZarrErrorView;
#[allow(unused_imports)]
use crate::source_uri::{anchor_text, law_anchor_round_trip, read_anchor, ChunkAnchorView};
#[allow(unused_imports)]
use crate::text::{string_views, trim_start};

verus! {

/// How the bytes of a band are delivered.
#[derive(Debug, Clone, Copy, PartialEq, Eq, Structural)]
pub enum Mode {
    /// With the row.
    InDb,
    /// On demand, by way of a chunk anchor.
    OutDb,
}

/// The arrays of a group and its spatial axes, checked to fit together.
#[derive(Debug, Clone)]
pub struct GroupLayout {
    /// One per array, in the order of their paths. Never empty.
    pub infos: Vec<ArrayInfo>,
    /// The spatial axes, y before x.
    pub spatial_axes: Vec<usize>,
}

/// Where the bytes of a band come from.
#[derive(Debug, Clone, PartialEq, Eq)]
pub enum BandSource {
    /// From the chunk itself, stored with the row.
    Chunk,
    /// From whoever reads the format, by way of the anchor.
    Anchor { uri: String, format: String },
}

/// One chunk position.
#[derive(Debug, Clone, PartialEq, Eq)]
pub struct RasterRow {
    pub chunk_indices: Vec<u64>,
    /// How many elements lie before the chunk along the x axis.
    pub x_offset: u64,
    /// How many elements lie before the chunk along the y axis.
    pub y_offset: u64,
    /// One per array, in the order of their paths.
    pub bands: Vec<BandSource>,
}

/// The rows of a raster, and what they have in common.
#[derive(Debug, Clone)]
pub struct RasterPlan {
    pub infos: Vec<ArrayInfo>,
    /// The names of the spatial dimensions, y before x.
    pub spatial_dims: Vec<String>,
    /// The extent of a chunk along each of them.
    pub spatial_shape: Vec<i64>,
    /// The number of chunks, for allocation.
    pub total_rows: usize,
    pub rows: Vec<RasterRow>,
}

/// A [`GroupLayout`] over mathematical sequences.
#[verifier::ext_equal]
pub ghost struct GroupLayoutView {
    pub infos: Seq<ArrayInfoView>,
    pub spatial_axes: Seq<int>,
}

/// A [`BandSource`] over mathematical sequences.
#[verifier::ext_equal]
pub ghost enum BandSourceView {
    Chunk,
    Anchor { uri: Seq<char>, format: Seq<char> },
}

/// A [`RasterRow`] over mathematical sequences.
#[verifier::ext_equal]
pub ghost struct RasterRowView {
    pub chunk_indices: Seq<u64>,
    pub x_offset: int,
    pub y_offset: int,
    pub bands: Seq<BandSourceView>,
}

/// A [`RasterPlan`] over mathematical sequences.
#[verifier::ext_equal]
pub ghost struct RasterPlanView {
    pub infos: Seq<ArrayInfoView>,
    pub spatial_dims: Seq<Seq<char>>,
    pub spatial_shape: Seq<i64>,
    pub total_rows: nat,
    pub rows: Seq<RasterRowView>,
}

impl View for GroupLayout {
    type V = GroupLayoutView;

    open spec fn view(&self) -> GroupLayoutView {
        GroupLayoutView {
            infos: info_views(self.infos@),
            spatial_axes: axis_views(self.spatial_axes@),
        }
    }
}

impl View for BandSource {
    type V = BandSourceView;

    open spec fn view(&self) -> BandSourceView {
        match self {
            BandSource::Chunk => BandSourceView::Chunk,
            BandSource::Anchor { uri, format } => BandSourceView::Anchor {
                uri: uri@,
                format: format@,
            },
        }
    }
}

/// A list of band sources over mathematical sequences.
pub open spec fn source_views(bands: Seq<BandSource>) -> Seq<BandSourceView> {
    bands.map_values(|b: BandSource| b@)
}

impl View for RasterRow {
    type V = RasterRowView;

    open spec fn view(&self) -> RasterRowView {
        RasterRowView {
            chunk_indices: self.chunk_indices@,
            x_offset: self.x_offset as int,
            y_offset: self.y_offset as int,
            bands: source_views(self.bands@),
        }
    }
}

/// A list of rows over mathematical sequences.
pub open spec fn row_views(rows: Seq<RasterRow>) -> Seq<RasterRowView> {
    rows.map_values(|row: RasterRow| row@)
}

impl View for RasterPlan {
    type V = RasterPlanView;

    open spec fn view(&self) -> RasterPlanView {
        RasterPlanView {
            infos: info_views(self.infos@),
            spatial_dims: string_views(self.spatial_dims@),
            spatial_shape: self.spatial_shape@,
            total_rows: self.total_rows as nat,
            rows: row_views(self.rows@),
        }
    }
}

/// The arrays of a group and its spatial axes, or the first thing that keeps
/// the group from being a raster.
pub open spec fn layout_of(
    group_uri: Seq<char>,
    arrays: Seq<ArrayMetadataView>,
    declared: Option<Seq<Seq<char>>>,
) -> Result<GroupLayoutView, ZarrErrorView> {
    if arrays.len() == 0 {
        Err(ZarrErrorView::NoChildArrays { group_uri })
    } else {
        match infos_of(sorted_by_path(arrays)) {
            Err(e) => Err(e),
            Ok(infos) => match first_disagreement(infos) {
                Some(e) => Err(e),
                None => match spatial_axes(infos[0].dim_names, declared) {
                    Err(e) => Err(e),
                    Ok(spatial_axes) => Ok(GroupLayoutView { infos, spatial_axes }),
                },
            },
        }
    }
}

impl GroupLayoutView {
    /// Whether there is an array, and the spatial axes are axes of it.
    pub open spec fn wf(self) -> bool {
        &&& self.infos.len() > 0
        &&& forall|i: int|
            0 <= i < self.spatial_axes.len() ==> 0 <= #[trigger] self.spatial_axes[i]
                < self.infos[0].dim_names.len()
    }

    /// Whether the rows of the group can be laid out: chunks extend along all
    /// spatial axes and, where there are rows, there are two such axes, and
    /// neither the offsets nor the number of rows is beyond what a machine
    /// integer holds.
    pub open spec fn walkable(self) -> bool {
        let grid = self.infos[0].chunk_grid_shape;
        let shape = self.infos[0].chunk_shape;
        &&& forall|i: int|
            0 <= i < self.spatial_axes.len() ==> #[trigger] self.spatial_axes[i] < shape.len()
        &&& position_count(grid) <= usize::MAX
        &&& position_count(grid) > 0 ==> {
            &&& self.spatial_axes.len() >= 2
            &&& self.spatial_axes[0] < grid.len()
            &&& self.spatial_axes[1] < grid.len()
            &&& (grid[self.spatial_axes[0]] - 1) * shape[self.spatial_axes[0]] <= u64::MAX
            &&& (grid[self.spatial_axes[1]] - 1) * shape[self.spatial_axes[1]] <= u64::MAX
        }
    }
}

/// Where a band of the row at a chunk position comes from.
pub open spec fn source_of(
    group_uri: Seq<char>,
    mode: Mode,
    info: ArrayInfoView,
    chunk_indices: Seq<u64>,
) -> BandSourceView {
    match mode {
        Mode::InDb => BandSourceView::Chunk,
        Mode::OutDb => BandSourceView::Anchor {
            uri: anchor_text(group_uri, info.path, chunk_indices),
            format: "zarr"@,
        },
    }
}

/// The row at a chunk position.
pub open spec fn row_at(
    group_uri: Seq<char>,
    mode: Mode,
    layout: GroupLayoutView,
    chunk_indices: Seq<u64>,
) -> RasterRowView {
    let shape = layout.infos[0].chunk_shape;
    let y = layout.spatial_axes[0];
    let x = layout.spatial_axes[1];
    RasterRowView {
        chunk_indices,
        x_offset: chunk_indices[x] * shape[x],
        y_offset: chunk_indices[y] * shape[y],
        bands: layout.infos.map_values(
            |info: ArrayInfoView| source_of(group_uri, mode, info, chunk_indices),
        ),
    }
}

/// The raster of a group: one row for each position of the chunk grid, in
/// row-major order.
pub open spec fn plan_of(group_uri: Seq<char>, mode: Mode, layout: GroupLayoutView) -> RasterPlanView {
    let first = layout.infos[0];
    RasterPlanView {
        infos: layout.infos,
        spatial_dims: layout.spatial_axes.map_values(|i: int| first.dim_names[i]),
        spatial_shape: layout.spatial_axes.map_values(|i: int| first.chunk_shape[i] as i64),
        total_rows: position_count(first.chunk_grid_shape),
        rows: Seq::new(
            position_count(first.chunk_grid_shape),
            |k: int| row_at(group_uri, mode, layout, position(first.chunk_grid_shape, k as nat)),
        ),
    }
}

/// Reads and checks the arrays of a group.
pub fn describe_group(
    group_uri: &str,
    arrays: Vec<ArrayMetadata>,
    spatial_dims: Option<&[String]>,
) -> (r: Result<GroupLayout, ZarrError>)
    ensures
        match layout_of(group_uri@, metadata_views(arrays@), declared_view(spatial_dims)) {
            Ok(layout) => r is Ok && r->Ok_0@ == layout && layout.wf(),
            Err(e) => r is Err && r->Err_0@ == e,
        },
{
    if arrays.len() == 0 {
        return Err(ZarrError::NoChildArrays { group_uri: group_uri.to_string() });
    }
    let ghost listed = metadata_views(arrays@);
    let infos = collect_array_infos(arrays)?;
    proof {
        lemma_sorted_len(listed);
        lemma_infos_len(sorted_by_path(listed));
    }
    validate_group_constraints(infos.as_slice())?;
    assert(info_views(infos@)[0] == infos@[0]@);
    let spatial_axes = resolve_spatial_dim_indices(infos[0].dim_names.as_slice(), spatial_dims)?;
    proof {
        if spatial_dims is Some {
            lemma_declared_in_range(
                string_views(infos@[0].dim_names@),
                string_views(spatial_dims->0@),
            );
        }
    }
    Ok(GroupLayout { infos, spatial_axes })
}

/// Of a grid with positions, a longer prefix has no fewer.
proof fn lemma_count_grows(grid: Seq<u64>, k: int)
    requires
        0 <= k <= grid.len(),
        forall|i: int| 0 <= i < grid.len() ==> #[trigger] grid[i] > 0,
    ensures
        0 < position_count(grid.take(k)) <= position_count(grid),
    decreases grid.len() - k,
{
    law_when_a_grid_has_positions(grid.take(k));
    if k < grid.len() {
        lemma_count_grows(grid, k + 1);
        assert(grid.take(k + 1).drop_last() =~= grid.take(k));
        assert(grid.take(k + 1).last() == grid[k]);
        let c = position_count(grid.take(k));
        let e = grid[k] as nat;
        assert(c <= c * e) by (nonlinear_arith)
            requires
                e >= 1,
                c >= 0,
        ;
    } else {
        assert(grid.take(k) =~= grid);
    }
}

/// Whether a grid has an axis without chunks.
fn has_empty_axis(grid: &[u64]) -> (r: bool)
    ensures
        r == (position_count(grid@) == 0),
        !r ==> forall|i: int| 0 <= i < grid@.len() ==> #[trigger] grid@[i] > 0,
{
    proof {
        law_when_a_grid_has_positions(grid@);
    }
    let mut i: usize = 0;
    while i < grid.len()
        invariant
            i <= grid.len(),
            position_count(grid@) > 0 <==> forall|j: int|
                0 <= j < grid@.len() ==> #[trigger] grid@[j] > 0,
            forall|j: int| 0 <= j < i ==> #[trigger] grid@[j] > 0,
        decreases grid.len() - i,
    {
        if grid[i] == 0 {
            return true;
        }
        i += 1;
    }
    false
}

/// The number of positions of a grid, if a `Vec` can have as many elements.
fn count_positions(grid: &[u64]) -> (r: Option<usize>)
    ensures
        match r {
            Some(count) => count == position_count(grid@),
            None => position_count(grid@) > usize::MAX,
        },
{
    if has_empty_axis(grid) {
        return Some(0);
    }
    let mut count: usize = 1;
    let mut i: usize = 0;
    assert(grid@.take(0) =~= Seq::empty());
    while i < grid.len()
        invariant
            i <= grid.len(),
            forall|j: int| 0 <= j < grid@.len() ==> #[trigger] grid@[j] > 0,
            count == position_count(grid@.take(i as int)),
        decreases grid.len() - i,
    {
        let n: u64 = grid[i];
        proof {
            assert(grid@.take(i + 1).drop_last() =~= grid@.take(i as int));
            assert(grid@.take(i + 1).last() == n);
            lemma_count_grows(grid@, i as int);
            lemma_count_grows(grid@, i + 1);
            let c = count as int;
            let f = n as int;
            assert(c * f >= f) by (nonlinear_arith)
                requires
                    c >= 1,
                    f >= 1,
            ;
        }
        if n > usize::MAX as u64 {
            return None;
        }
        match count.checked_mul(n as usize) {
            Some(next) => {
                count = next;
            },
            None => {
                return None;
            },
        }
        i += 1;
    }
    assert(grid@.take(i as int) =~= grid@);
    Some(count)
}

/// Whether the offset of the last chunk along an axis fits in a `u64`.
fn offset_fits(chunks: u64, size: u64) -> (r: bool)
    requires
        chunks > 0,
    ensures
        r == ((chunks - 1) * size <= u64::MAX),
{
    (chunks - 1).checked_mul(size).is_some()
}

impl GroupLayout {
    /// Whether the rows of the group can be laid out.
    pub fn walkable(&self) -> (r: bool)
        requires
            self@.wf(),
        ensures
            r == self@.walkable(),
    {
        assert(self@.infos[0] == self.infos@[0]@);
        let grid = self.infos[0].chunk_grid_shape.as_slice();
        let shape = self.infos[0].chunk_shape.as_slice();
        let axes = self.spatial_axes.as_slice();
        let mut i: usize = 0;
        while i < axes.len()
            invariant
                i <= axes.len(),
                axes@ == self.spatial_axes@,
                shape@ == self@.infos[0].chunk_shape,
                forall|j: int| 0 <= j < i ==> #[trigger] self@.spatial_axes[j] < shape.len(),
            decreases axes.len() - i,
        {
            assert(self@.spatial_axes[i as int] == axes@[i as int]);
            if axes[i] >= shape.len() {
                return false;
            }
            i += 1;
        }
        match count_positions(grid) {
            None => return false,
            Some(count) => if count == 0 {
                return true;
            },
        }
        proof {
            law_when_a_grid_has_positions(grid@);
        }
        if axes.len() < 2 {
            return false;
        }
        let y = axes[0];
        let x = axes[1];
        assert(self@.spatial_axes[0] == y);
        assert(self@.spatial_axes[1] == x);
        y < grid.len() && x < grid.len() && offset_fits(grid[y], shape[y]) && offset_fits(
            grid[x],
            shape[x],
        )
    }
}

/// Where the bands of the row at a chunk position come from.
fn row_sources(group_uri: &str, mode: Mode, infos: &[ArrayInfo], chunk_indices: &[u64]) -> (r: Vec<
    BandSource,
>)
    ensures
        source_views(r@) == info_views(infos@).map_values(
            |info: ArrayInfoView| source_of(group_uri@, mode, info, chunk_indices@),
        ),
{
    let mut bands: Vec<BandSource> = Vec::new();
    let mut i: usize = 0;
    while i < infos.len()
        invariant
            i <= infos.len(),
            bands.len() == i,
            forall|j: int|
                0 <= j < i ==> #[trigger] bands@[j]@ == source_of(
                    group_uri@,
                    mode,
                    infos@[j]@,
                    chunk_indices@,
                ),
        decreases infos.len() - i,
    {
        let source = match mode {
            Mode::InDb => BandSource::Chunk,
            Mode::OutDb => BandSource::Anchor {
                uri: build_chunk_anchor(group_uri, infos[i].path.as_str(), chunk_indices),
                format: "zarr".to_string(),
            },
        };
        bands.push(source);
        i += 1;
    }
    assert(source_views(bands@) =~= info_views(infos@).map_values(
        |info: ArrayInfoView| source_of(group_uri@, mode, info, chunk_indices@),
    ));
    bands
}

/// The row at a chunk position.
fn build_row(group_uri: &str, mode: Mode, layout: &GroupLayout, chunk_indices: &Vec<u64>) -> (r:
    RasterRow)
    requires
        layout@.wf(),
        layout@.walkable(),
        in_grid(chunk_indices@, layout@.infos[0].chunk_grid_shape),
    ensures
        r@ == row_at(group_uri@, mode, layout@, chunk_indices@),
{
    proof {
        lemma_rank_bound(chunk_indices@, layout@.infos[0].chunk_grid_shape);
    }
    let y = layout.spatial_axes[0];
    let x = layout.spatial_axes[1];
    let shape = layout.infos[0].chunk_shape.as_slice();
    proof {
        let grid = layout@.infos[0].chunk_grid_shape;
        assert(layout@.infos[0] == layout.infos@[0]@);
        assert(layout@.spatial_axes[0] == y);
        assert(layout@.spatial_axes[1] == x);
        assert(chunk_indices@[y as int] < grid[y as int]);
        assert(chunk_indices@[x as int] < grid[x as int]);
        let (a, b, c) = (
            chunk_indices@[y as int] as int,
            grid[y as int] - 1,
            shape@[y as int] as int,
        );
        assert(a * c <= b * c) by (nonlinear_arith)
            requires
                a <= b,
                c >= 0,
        ;
        let (a, b, c) = (
            chunk_indices@[x as int] as int,
            grid[x as int] - 1,
            shape@[x as int] as int,
        );
        assert(a * c <= b * c) by (nonlinear_arith)
            requires
                a <= b,
                c >= 0,
        ;
    }
    let x_offset: u64 = chunk_indices[x] * shape[x];
    let y_offset: u64 = chunk_indices[y] * shape[y];
    let bands = row_sources(group_uri, mode, layout.infos.as_slice(), chunk_indices.as_slice());
    let row = RasterRow { chunk_indices: chunk_indices.clone(), x_offset, y_offset, bands };
    assert(row@.chunk_indices =~= chunk_indices@);
    row
}

/// Lays out the rows of a group.
pub fn walk_group(group_uri: &str, mode: Mode, layout: GroupLayout) -> (r: RasterPlan)
    requires
        layout@.wf(),
        layout@.walkable(),
    ensures
        r@ == plan_of(group_uri@, mode, layout@),
{
    let ghost view = layout@;
    let ghost grid = view.infos[0].chunk_grid_shape;
    let ghost count = position_count(grid);
    assert(view.infos[0] == layout.infos@[0]@);
    let mut spatial_dims: Vec<String> = Vec::new();
    let mut spatial_shape: Vec<i64> = Vec::new();
    let mut i: usize = 0;
    while i < layout.spatial_axes.len()
        invariant
            i <= layout.spatial_axes.len(),
            layout@.wf(),
            layout@.walkable(),
            layout@.infos[0] == layout.infos@[0]@,
            spatial_dims.len() == i,
            spatial_shape.len() == i,
            forall|j: int|
                0 <= j < i ==> #[trigger] spatial_dims@[j]@
                    == layout@.infos[0].dim_names[layout@.spatial_axes[j]],
            forall|j: int|
                0 <= j < i ==> #[trigger] spatial_shape@[j]
                    == layout@.infos[0].chunk_shape[layout@.spatial_axes[j]] as i64,
        decreases layout.spatial_axes.len() - i,
    {
        let axis = layout.spatial_axes[i];
        assert(layout@.spatial_axes[i as int] == axis);
        assert(layout@.infos[0].dim_names[axis as int] == layout.infos@[0].dim_names@[axis as int]@);
        spatial_dims.push(layout.infos[0].dim_names[axis].clone());
        spatial_shape.push(layout.infos[0].chunk_shape[axis] as i64);
        i += 1;
    }
    let total_rows = match count_positions(layout.infos[0].chunk_grid_shape.as_slice()) {
        Some(count) => count,
        None => 0,
    };
    let mut chunk_indices: Vec<u64> = vec![0; layout.infos[0].chunk_grid_shape.len()];
    let mut rows: Vec<RasterRow> = Vec::new();
    proof {
        if count > 0 {
            lemma_position_zero(grid);
        }
        assert(chunk_indices@ =~= origin(grid.len()));
    }
    let mut more = total_rows > 0;
    while more
        invariant
            view == layout@,
            layout@.wf(),
            layout@.walkable(),
            grid == view.infos[0].chunk_grid_shape,
            view.infos[0] == layout.infos@[0]@,
            count == position_count(grid),
            rows.len() <= count,
            more == (rows.len() < count),
            more ==> chunk_indices@ == position(grid, rows.len() as nat),
            forall|j: int|
                0 <= j < rows.len() ==> #[trigger] rows@[j]@ == row_at(
                    group_uri@,
                    mode,
                    view,
                    position(grid, j as nat),
                ),
        decreases count - rows.len(),
    {
        let ghost k = rows.len() as nat;
        let ghost here = chunk_indices@;
        proof {
            law_position_has_rank(grid, k);
            law_step_is_row_major(here, grid);
        }
        rows.push(build_row(group_uri, mode, &layout, &chunk_indices));
        more =
        advance_chunk_indices(
            chunk_indices.as_mut_slice(),
            layout.infos[0].chunk_grid_shape.as_slice(),
        );
        proof {
            if more {
                law_rank_has_position(chunk_indices@, grid);
            }
        }
    }
    let plan = RasterPlan { infos: layout.infos, spatial_dims, spatial_shape, total_rows, rows };
    proof {
        let want = plan_of(group_uri@, mode, view);
        assert(plan@.spatial_dims =~= want.spatial_dims);
        assert(plan@.spatial_shape =~= want.spatial_shape);
        assert(plan@.rows =~= want.rows);
    }
    plan
}

/// Reads and checks the arrays of a group, and lays out its rows: one for each
/// position of the chunk grid, with one band for each array.
pub fn build_rasters(
    group_uri: &str,
    mode: Mode,
    arrays: Vec<ArrayMetadata>,
    spatial_dims: Option<&[String]>,
) -> (r: Result<RasterPlan, ZarrError>)
    requires
        layout_of(group_uri@, metadata_views(arrays@), declared_view(spatial_dims)) matches Ok(
            layout,
        ) ==> layout.walkable(),
    ensures
        match layout_of(group_uri@, metadata_views(arrays@), declared_view(spatial_dims)) {
            Ok(layout) => r is Ok && r->Ok_0@ == plan_of(group_uri@, mode, layout),
            Err(e) => r is Err && r->Err_0@ == e,
        },
{
    let layout = describe_group(group_uri, arrays, spatial_dims)?;
    Ok(walk_group(group_uri, mode, layout))
}

/// The rows of a group whose bands hold the bytes of their chunks.
pub fn group_to_indb_rasters(
    group_uri: &str,
    arrays: Vec<ArrayMetadata>,
    spatial_dims: Option<&[String]>,
) -> (r: Result<RasterPlan, ZarrError>)
    requires
        layout_of(group_uri@, metadata_views(arrays@), declared_view(spatial_dims)) matches Ok(
            layout,
        ) ==> layout.walkable(),
    ensures
        match layout_of(group_uri@, metadata_views(arrays@), declared_view(spatial_dims)) {
            Ok(layout) => r is Ok && r->Ok_0@ == plan_of(group_uri@, Mode::InDb, layout),
            Err(e) => r is Err && r->Err_0@ == e,
        },
{
    build_rasters(group_uri, Mode::InDb, arrays, spatial_dims)
}

/// The rows of a group whose bands hold chunk anchors in place of bytes.
pub fn group_to_outdb_rasters(
    group_uri: &str,
    arrays: Vec<ArrayMetadata>,
    spatial_dims: Option<&[String]>,
) -> (r: Result<RasterPlan, ZarrError>)
    requires
        layout_of(group_uri@, metadata_views(arrays@), declared_view(spatial_dims)) matches Ok(
            layout,
        ) ==> layout.walkable(),
    ensures
        match layout_of(group_uri@, metadata_views(arrays@), declared_view(spatial_dims)) {
            Ok(layout) => r is Ok && r->Ok_0@ == plan_of(group_uri@, Mode::OutDb, layout),
            Err(e) => r is Err && r->Err_0@ == e,
        },
{
    build_rasters(group_uri, Mode::OutDb, arrays, spatial_dims)
}

/// A layout without the places of the arrays in the listing.
pub open spec fn layout_unplaced(layout: GroupLayoutView) -> GroupLayoutView {
    GroupLayoutView { infos: infos_unplaced(layout.infos), ..layout }
}

/// A group is read the same in whatever order its store lists the arrays: two
/// listings of the same arrays give the same error, or layouts that differ in
/// nothing but the places that the arrays remember, and the same rows.
pub proof fn law_layout_ignores_listing(
    group_uri: Seq<char>,
    mode: Mode,
    a: Seq<ArrayMetadataView>,
    b: Seq<ArrayMetadataView>,
    declared: Option<Seq<Seq<char>>>,
)
    requires
        list_the_same(a, b),
        distinct_paths(a),
    ensures
        match (layout_of(group_uri, a, declared), layout_of(group_uri, b, declared)) {
            (Ok(x), Ok(y)) => {
                let (p, q) = (plan_of(group_uri, mode, x), plan_of(group_uri, mode, y));
                &&& layout_unplaced(x) == layout_unplaced(y)
                &&& p.rows == q.rows
                &&& p.spatial_dims == q.spatial_dims
                &&& p.spatial_shape == q.spatial_shape
                &&& p.total_rows == q.total_rows
            },
            (Err(x), Err(y)) => x == y,
            _ => false,
        },
{
    broadcast use vstd::seq_lib::group_to_multiset_ensures;

    assert(all_unplaced(a).to_multiset().len() == all_unplaced(a).len());
    assert(all_unplaced(b).to_multiset().len() == all_unplaced(b).len());
    law_order_ignores_listing(a, b);
    let (s, t) = (sorted_by_path(a), sorted_by_path(b));
    lemma_infos_unplaced(s);
    lemma_infos_unplaced(t);
    if let (Ok(x), Ok(y)) = (infos_of(s), infos_of(t)) {
        lemma_disagreement_unplaced(x);
        lemma_disagreement_unplaced(y);
        lemma_sorted_len(a);
        lemma_sorted_len(b);
        lemma_infos_len(s);
        lemma_infos_len(t);
        if a.len() > 0 {
            assert(infos_unplaced(x)[0] == infos_unplaced(y)[0]);
        }
        let (l, m) = (layout_of(group_uri, a, declared), layout_of(group_uri, b, declared));
        if l is Ok && m is Ok {
            lemma_rows_unplaced(group_uri, mode, l->Ok_0);
            lemma_rows_unplaced(group_uri, mode, m->Ok_0);
        }
    }
}

proof fn lemma_rows_unplaced(group_uri: Seq<char>, mode: Mode, layout: GroupLayoutView)
    requires
        layout.infos.len() > 0,
    ensures
        ({
            let p = plan_of(group_uri, mode, layout);
            let q = plan_of(group_uri, mode, layout_unplaced(layout));
            &&& p.rows == q.rows
            &&& p.spatial_dims == q.spatial_dims
            &&& p.spatial_shape == q.spatial_shape
            &&& p.total_rows == q.total_rows
        }),
{
    let plain = layout_unplaced(layout);
    let p = plan_of(group_uri, mode, layout);
    let q = plan_of(group_uri, mode, plain);
    assert(p.spatial_dims =~= q.spatial_dims);
    assert(p.spatial_shape =~= q.spatial_shape);
    assert forall|k: int| 0 <= k < p.rows.len() implies p.rows[k] == q.rows[k] by {
        assert(p.rows[k].bands =~= q.rows[k].bands);
    }
    assert(p.rows =~= q.rows);
}

/// A group that is read has one description for each array, and they all share
/// chunk grid, chunk shape and dimension names; its spatial axes are among
/// their dimensions.
pub proof fn law_layout_is_consistent(
    group_uri: Seq<char>,
    arrays: Seq<ArrayMetadataView>,
    declared: Option<Seq<Seq<char>>>,
)
    requires
        layout_of(group_uri, arrays, declared) is Ok,
    ensures
        layout_of(group_uri, arrays, declared)->Ok_0.wf(),
        layout_of(group_uri, arrays, declared)->Ok_0.infos.len() == arrays.len(),
        all_agree(layout_of(group_uri, arrays, declared)->Ok_0.infos),
{
    let layout = layout_of(group_uri, arrays, declared)->Ok_0;
    lemma_sorted_len(arrays);
    lemma_infos_len(sorted_by_path(arrays));
    law_group_agrees(layout.infos);
    if declared is Some {
        lemma_declared_in_range(layout.infos[0].dim_names, declared->0);
    }
}

/// Every row stands for a position of the chunk grid, that is for one chunk
/// index below the number of chunks along each axis; every position has a row;
/// and no two rows stand for the same one.
pub proof fn law_one_row_per_position(group_uri: Seq<char>, mode: Mode, layout: GroupLayoutView)
    ensures
        ({
            let rows = plan_of(group_uri, mode, layout).rows;
            let grid = layout.infos[0].chunk_grid_shape;
            &&& forall|k: int|
                0 <= k < rows.len() ==> (#[trigger] rows[k]).chunk_indices.len() == grid.len()
            &&& forall|k: int, i: int|
                0 <= k < rows.len() && 0 <= i < grid.len()
                    ==> #[trigger] rows[k].chunk_indices[i] < grid[i]
            &&& forall|indices: Seq<u64>| #[trigger]
                in_grid(indices, grid) ==> exists|k: int|
                    0 <= k < rows.len() && (#[trigger] rows[k]).chunk_indices == indices
            &&& forall|j: int, k: int|
                0 <= j < k < rows.len() ==> (#[trigger] rows[j]).chunk_indices != (
                #[trigger] rows[k]).chunk_indices
        }),
{
    let rows = plan_of(group_uri, mode, layout).rows;
    let grid = layout.infos[0].chunk_grid_shape;
    assert forall|k: int| 0 <= k < rows.len() implies in_grid(
        (#[trigger] rows[k]).chunk_indices,
        grid,
    ) by {
        law_position_has_rank(grid, k as nat);
    }
    assert forall|k: int, i: int|
        0 <= k < rows.len() && 0 <= i < grid.len() implies #[trigger] rows[k].chunk_indices[i]
        < grid[i] by {
        assert(in_grid(rows[k].chunk_indices, grid));
    }
    assert forall|indices: Seq<u64>| #[trigger] in_grid(indices, grid) implies exists|k: int|
        0 <= k < rows.len() && (#[trigger] rows[k]).chunk_indices == indices by {
        lemma_rank_bound(indices, grid);
        law_rank_has_position(indices, grid);
        assert(rows[rank(indices, grid) as int].chunk_indices == indices);
    }
    assert forall|j: int, k: int| 0 <= j < k < rows.len() implies (
    #[trigger] rows[j]).chunk_indices != (#[trigger] rows[k]).chunk_indices by {
        law_position_has_rank(grid, j as nat);
        law_position_has_rank(grid, k as nat);
    }
}

/// The rows come in row-major order of their chunk positions.
pub proof fn law_rows_are_row_major(
    group_uri: Seq<char>,
    mode: Mode,
    layout: GroupLayoutView,
    k: int,
)
    requires
        0 <= k < plan_of(group_uri, mode, layout).rows.len(),
    ensures
        rank(
            plan_of(group_uri, mode, layout).rows[k].chunk_indices,
            layout.infos[0].chunk_grid_shape,
        ) == k,
{
    law_position_has_rank(layout.infos[0].chunk_grid_shape, k as nat);
}

/// There are as many rows as are allocated for: the product of the numbers of
/// chunks along the axes.
pub proof fn law_rows_are_allocated(group_uri: Seq<char>, mode: Mode, layout: GroupLayoutView)
    ensures
        plan_of(group_uri, mode, layout).rows.len() == plan_of(group_uri, mode, layout).total_rows,
        plan_of(group_uri, mode, layout).total_rows == layout.infos[0].chunk_grid_shape.fold_left(
            1int,
            |product: int, n: u64| product * n,
        ),
{
    lemma_product(layout.infos[0].chunk_grid_shape);
}

proof fn lemma_product(grid: Seq<u64>)
    ensures
        position_count(grid) == grid.fold_left(1int, |product: int, n: u64| product * n),
    decreases grid.len(),
{
    if grid.len() > 0 {
        lemma_product(grid.drop_last());
    }
}

/// A group whose chunk grid has an axis without chunks has no rows.
pub proof fn law_an_axis_without_chunks_gives_no_rows(
    group_uri: Seq<char>,
    mode: Mode,
    layout: GroupLayoutView,
    axis: int,
)
    requires
        0 <= axis < layout.infos[0].chunk_grid_shape.len(),
        layout.infos[0].chunk_grid_shape[axis] == 0,
    ensures
        plan_of(group_uri, mode, layout).rows.len() == 0,
{
    law_when_a_grid_has_positions(layout.infos[0].chunk_grid_shape);
}

/// Every row has one band for each array, in the same order.
pub proof fn law_one_band_per_array(
    group_uri: Seq<char>,
    mode: Mode,
    layout: GroupLayoutView,
    k: int,
)
    requires
        0 <= k < plan_of(group_uri, mode, layout).rows.len(),
    ensures
        plan_of(group_uri, mode, layout).rows[k].bands.len() == layout.infos.len(),
        plan_of(group_uri, mode, layout).infos == layout.infos,
{
}

/// The two ways of delivering bytes give the same rows, with the same number
/// of bands; they differ only in where the bands come from.
pub proof fn law_modes_share_the_rows(group_uri: Seq<char>, layout: GroupLayoutView)
    ensures
        ({
            let indb = plan_of(group_uri, Mode::InDb, layout);
            let outdb = plan_of(group_uri, Mode::OutDb, layout);
            &&& indb.infos == outdb.infos
            &&& indb.spatial_dims == outdb.spatial_dims
            &&& indb.spatial_shape == outdb.spatial_shape
            &&& indb.total_rows == outdb.total_rows
            &&& indb.rows.len() == outdb.rows.len()
            &&& forall|k: int|
                0 <= k < indb.rows.len() ==> {
                    &&& (#[trigger] indb.rows[k]).chunk_indices == outdb.rows[k].chunk_indices
                    &&& indb.rows[k].x_offset == outdb.rows[k].x_offset
                    &&& indb.rows[k].y_offset == outdb.rows[k].y_offset
                    &&& indb.rows[k].bands.len() == outdb.rows[k].bands.len()
                }
            &&& forall|k: int, b: int|
                0 <= k < indb.rows.len() && 0 <= b < layout.infos.len() ==> {
                    &&& #[trigger] indb.rows[k].bands[b] is Chunk
                    &&& outdb.rows[k].bands[b] is Anchor
                }
        }),
{
}

/// The anchor of a band leads back to the group, the array and the chunk it
/// stands for.
pub proof fn law_anchor_leads_to_its_chunk(
    group_uri: Seq<char>,
    layout: GroupLayoutView,
    k: int,
    band: int,
)
    requires
        !group_uri.contains('#'),
        0 <= k < plan_of(group_uri, Mode::OutDb, layout).rows.len(),
        0 <= band < layout.infos.len(),
        !trim_start(layout.infos[band].path, '/').contains('&'),
        layout.infos[0].chunk_grid_shape.len() > 0,
    ensures
        ({
            let row = plan_of(group_uri, Mode::OutDb, layout).rows[k];
            &&& row.bands[band]->format == "zarr"@
            &&& read_anchor(row.bands[band]->uri) == Ok::<ChunkAnchorView, ZarrErrorView>(
                ChunkAnchorView {
                    store_uri: group_uri,
                    array_path: trim_start(layout.infos[band].path, '/'),
                    chunk_indices: row.chunk_indices,
                },
            )
        }),
{
    let row = plan_of(group_uri, Mode::OutDb, layout).rows[k];
    law_position_has_rank(layout.infos[0].chunk_grid_shape, k as nat);
    law_anchor_round_trip(group_uri, layout.infos[band].path, row.chunk_indices);
}

/// The spatial dimensions of the rows are those that were declared or, where
/// none were, `y` and `x`.
pub proof fn law_rows_have_the_declared_dimensions(
    group_uri: Seq<char>,
    mode: Mode,
    arrays: Seq<ArrayMetadataView>,
    declared: Option<Seq<Seq<char>>>,
)
    requires
        layout_of(group_uri, arrays, declared) is Ok,
    ensures
        plan_of(group_uri, mode, layout_of(group_uri, arrays, declared)->Ok_0).spatial_dims
            == match declared {
            Some(names) => names,
            None => seq!["y"@, "x"@],
        },
{
    let layout = layout_of(group_uri, arrays, declared)->Ok_0;
    let names = layout.infos[0].dim_names;
    let dims = plan_of(group_uri, mode, layout).spatial_dims;
    match declared {
        Some(declared) => {
            law_declared_axes_carry_their_names(names, declared);
            assert(dims =~= layout.spatial_axes.map_values(|i: int| names[i]));
        },
        None => {
            assert(dims =~= seq!["y"@, "x"@]);
        },
    }
}

/// Neighbouring chunks touch: where a chunk is one further along the x axis,
/// its row starts where the other one ends; likewise along the y axis.
pub proof fn law_neighbouring_chunks_touch(
    group_uri: Seq<char>,
    mode: Mode,
    layout: GroupLayoutView,
    a: Seq<u64>,
    b: Seq<u64>,
)
    ensures
        ({
            let shape = layout.infos[0].chunk_shape;
            let y = layout.spatial_axes[0];
            let x = layout.spatial_axes[1];
            let row_a = row_at(group_uri, mode, layout, a);
            let row_b = row_at(group_uri, mode, layout, b);
            &&& b[x] == a[x] + 1 ==> row_b.x_offset == row_a.x_offset + shape[x]
            &&& b[y] == a[y] + 1 ==> row_b.y_offset == row_a.y_offset + shape[y]
            &&& b[x] == a[x] ==> row_b.x_offset == row_a.x_offset
            &&& b[y] == a[y] ==> row_b.y_offset == row_a.y_offset
        }),
{
    let shape = layout.infos[0].chunk_shape;
    let y = layout.spatial_axes[0];
    let x = layout.spatial_axes[1];
    assert((a[x] + 1) * shape[x] == a[x] * shape[x] + shape[x]) by (nonlinear_arith);
    assert((a[y] + 1) * shape[y] == a[y] * shape[y] + shape[y]) by (nonlinear_arith);
}

} // verus!
