//! How the rows of a raster follow each other, and what each of them holds.
use vstd::prelude::*;

#[allow(unused_imports)]
use crate::array_info::{
    first_disagreement, info_of, infos_of, lemma_sorted_len, sorted_by_path, spatial_axes,
    ArrayMetadataView,
};
#[allow(unused_imports)]
use crate::array_laws::law_descriptions_of_several;
#[allow(unused_imports)]
use crate::chunk_grid::{
    in_grid, law_position_has_rank, law_rank_has_position, law_step_is_row_major,
    law_when_a_grid_has_positions, lemma_position_zero, origin, position, position_count, rank,
    step, step_fits,
};
#[allow(unused_imports)]
use crate::error::ZarrErrorView;
#[allow(unused_imports)]
use crate::loader::{layout_of, plan_of, BandSourceView, GroupLayoutView, Mode};
#[allow(unused_imports)]
use crate::source_uri::anchor_text;

verus! {

/// A step raises the last index that is not at the end of its axis and sets
/// those behind it to zero. If all are at their ends, all become zero and the
/// grid is exhausted.
pub proof fn law_what_a_step_changes(indices: Seq<u64>, grid: Seq<u64>, k: int)
    requires
        indices.len() <= grid.len(),
        -1 <= k < indices.len(),
        k >= 0 ==> indices[k] + 1 < grid[k],
        forall|i: int| k < i < indices.len() ==> #[trigger] indices[i] + 1 >= grid[i],
    ensures
        step(indices, grid).1 <==> k >= 0,
        step(indices, grid).0.len() == indices.len(),
        forall|i: int|
            0 <= i < indices.len() ==> #[trigger] step(indices, grid).0[i] == if i < k {
                indices[i] as int
            } else if i == k {
                indices[i] + 1
            } else {
                0
            },
    decreases indices.len(),
{
    if indices.len() > 0 {
        let n = indices.len() - 1;
        if k < n {
            assert(indices[n] + 1 >= grid[n]);
            let rest = indices.drop_last();
            assert forall|i: int| k < i < rest.len() implies #[trigger] rest[i] + 1 >= grid[i] by {
                assert(rest[i] == indices[i]);
            }
            law_what_a_step_changes(rest, grid, k);
            let before = step(rest, grid).0;
            assert(step(indices, grid).0 == before.push(0));
            assert forall|i: int| 0 <= i < indices.len() implies #[trigger] step(indices, grid).0[i]
                == if i < k {
                indices[i] as int
            } else if i == k {
                indices[i] + 1
            } else {
                0
            } by {
                if i < n {
                    assert(step(indices, grid).0[i] == before[i]);
                }
            }
        }
    }
}

/// A step can be taken if and only if no index that it raises beyond the end
/// of its axis is the largest number there is.
pub proof fn law_where_steps_fit(indices: Seq<u64>, grid: Seq<u64>, k: int)
    requires
        indices.len() <= grid.len(),
        -1 <= k < indices.len(),
        k >= 0 ==> indices[k] + 1 < grid[k],
        forall|i: int| k < i < indices.len() ==> #[trigger] indices[i] + 1 >= grid[i],
    ensures
        step_fits(indices, grid) <==> forall|i: int|
            k < i < indices.len() ==> #[trigger] indices[i] < u64::MAX,
    decreases indices.len(),
{
    if indices.len() > 0 && k < indices.len() - 1 {
        let n = indices.len() - 1;
        let rest = indices.drop_last();
        assert forall|i: int| k < i < rest.len() implies #[trigger] rest[i] + 1 >= grid[i] by {
            assert(rest[i] == indices[i]);
        }
        law_where_steps_fit(rest, grid, k);
        assert(indices[n] + 1 >= grid[n]);
        if forall|i: int| k < i < indices.len() ==> #[trigger] indices[i] < u64::MAX {
            assert forall|i: int| k < i < rest.len() implies #[trigger] rest[i] < u64::MAX by {
                assert(rest[i] == indices[i]);
            }
            assert(indices[n] < u64::MAX);
        }
        if step_fits(indices, grid) {
            assert forall|i: int| k < i < indices.len() implies #[trigger] indices[i]
                < u64::MAX by {
                if i < n {
                    assert(rest[i] == indices[i]);
                }
            }
        }
    }
}

/// A grid has one position more for each chunk along each axis: as many as
/// the product of its axes.
pub proof fn law_position_counts(grid: Seq<u64>, n: u64)
    ensures
        position_count(Seq::empty()) == 1,
        position_count(grid.push(n)) == position_count(grid) * n,
{
    assert(grid.push(n).drop_last() =~= grid);
}

/// The rows start at the origin of the grid, and from each a step leads to the
/// next; from the last no step is left.
pub proof fn law_rows_follow_the_steps(
    group_uri: Seq<char>,
    mode: Mode,
    layout: GroupLayoutView,
    k: int,
)
    requires
        0 <= k < plan_of(group_uri, mode, layout).rows.len(),
    ensures
        ({
            let rows = plan_of(group_uri, mode, layout).rows;
            let grid = layout.infos[0].chunk_grid_shape;
            &&& rows[k].chunk_indices.len() == grid.len()
            &&& k == 0 ==> forall|i: int|
                0 <= i < grid.len() ==> #[trigger] rows[k].chunk_indices[i] == 0
            &&& k + 1 < rows.len() ==> step(rows[k].chunk_indices, grid) == (
                rows[k + 1].chunk_indices,
                true,
            )
            &&& k + 1 == rows.len() ==> !step(rows[k].chunk_indices, grid).1
        }),
{
    let grid = layout.infos[0].chunk_grid_shape;
    let p = position(grid, k as nat);
    law_position_has_rank(grid, k as nat);
    law_step_is_row_major(p, grid);
    if k == 0 {
        lemma_position_zero(grid);
    }
    if k + 1 < position_count(grid) {
        law_rank_has_position(step(p, grid).0, grid);
    }
}

/// Rows come in lexicographic order of their chunk indices: of two rows, the
/// first index in which they differ is smaller in the earlier one.
pub proof fn law_rows_are_in_lexicographic_order(
    group_uri: Seq<char>,
    mode: Mode,
    layout: GroupLayoutView,
    a: int,
    b: int,
    i: int,
)
    requires
        0 <= a < b < plan_of(group_uri, mode, layout).rows.len(),
        0 <= i < layout.infos[0].chunk_grid_shape.len(),
        forall|j: int|
            0 <= j < i ==> #[trigger] plan_of(group_uri, mode, layout).rows[a].chunk_indices[j]
                == plan_of(group_uri, mode, layout).rows[b].chunk_indices[j],
    ensures
        plan_of(group_uri, mode, layout).rows[a].chunk_indices[i] <= plan_of(
            group_uri,
            mode,
            layout,
        ).rows[b].chunk_indices[i],
{
    let grid = layout.infos[0].chunk_grid_shape;
    let rows = plan_of(group_uri, mode, layout).rows;
    let p = position(grid, a as nat);
    let q = position(grid, b as nat);
    law_position_has_rank(grid, a as nat);
    law_position_has_rank(grid, b as nat);
    assert(rows[a].chunk_indices == p);
    assert(rows[b].chunk_indices == q);
    assert forall|j: int| 0 <= j < i implies p[j] == q[j] by {
        assert(rows[a].chunk_indices[j] == rows[b].chunk_indices[j]);
    }
    if p[i] > q[i] {
        lemma_rank_order(q, p, grid, i);
    }
}

proof fn lemma_rank_order(p: Seq<u64>, q: Seq<u64>, grid: Seq<u64>, i: int)
    requires
        in_grid(p, grid),
        in_grid(q, grid),
        0 <= i < grid.len(),
        forall|j: int| 0 <= j < i ==> p[j] == q[j],
        p[i] < q[i],
    ensures
        rank(p, grid) < rank(q, grid),
    decreases grid.len(),
{
    let n = grid.len() - 1;
    let (a, b, g) = (p.drop_last(), q.drop_last(), grid.drop_last());
    assert forall|j: int| 0 <= j < g.len() implies #[trigger] a[j] < g[j] by {
        assert(p[j] < grid[j]);
    }
    assert forall|j: int| 0 <= j < g.len() implies #[trigger] b[j] < g[j] by {
        assert(q[j] < grid[j]);
    }
    assert(p[n] < grid[n] && q[n] < grid[n]);
    let e = grid[n] as int;
    if i < n {
        lemma_rank_order(a, b, g, i);
        let (r, s) = (rank(a, g) as int, rank(b, g) as int);
        assert(r * e + p[n] < s * e + q[n]) by (nonlinear_arith)
            requires
                r + 1 <= s,
                p[n] < e,
                q[n] >= 0,
        ;
    } else {
        assert(a =~= b);
    }
}

/// A row's offsets are its chunk indices along the spatial axes times the
/// extent of a chunk there; each band is a chunk stored with the row, or the
/// anchor of that chunk of that array in the group.
pub proof fn law_what_a_row_holds(
    group_uri: Seq<char>,
    mode: Mode,
    layout: GroupLayoutView,
    k: int,
    band: int,
)
    requires
        layout.wf(),
        layout.spatial_axes.len() >= 2,
        0 <= k < plan_of(group_uri, mode, layout).rows.len(),
        0 <= band < layout.infos.len(),
    ensures
        ({
            let row = plan_of(group_uri, mode, layout).rows[k];
            let shape = layout.infos[0].chunk_shape;
            let y = layout.spatial_axes[0];
            let x = layout.spatial_axes[1];
            &&& row.y_offset == row.chunk_indices[y] * shape[y]
            &&& row.x_offset == row.chunk_indices[x] * shape[x]
            &&& row.bands.len() == layout.infos.len()
            &&& mode == Mode::InDb ==> row.bands[band] is Chunk
            &&& mode == Mode::OutDb ==> {
                &&& row.bands[band] matches BandSourceView::Anchor { uri, format }
                &&& uri == anchor_text(group_uri, layout.infos[band].path, row.chunk_indices)
                &&& format == seq!['z', 'a', 'r', 'r']
            }
        }),
{
    reveal_strlit("zarr");
    assert("zarr"@ =~= seq!['z', 'a', 'r', 'r']);
}

/// What the rows have in common: the arrays, and for each spatial axis the
/// name of that dimension and the extent of a chunk along it as a signed number.
pub proof fn law_what_rows_share(group_uri: Seq<char>, mode: Mode, layout: GroupLayoutView)
    ensures
        ({
            let plan = plan_of(group_uri, mode, layout);
            let first = layout.infos[0];
            &&& plan.infos == layout.infos
            &&& plan.spatial_dims.len() == layout.spatial_axes.len()
            &&& plan.spatial_shape.len() == layout.spatial_axes.len()
            &&& forall|i: int|
                0 <= i < layout.spatial_axes.len() ==> {
                    &&& plan.spatial_dims[i] == first.dim_names[#[trigger] layout.spatial_axes[i]]
                    &&& first.chunk_shape[layout.spatial_axes[i]] <= i64::MAX
                        ==> plan.spatial_shape[i] == first.chunk_shape[layout.spatial_axes[i]]
                    &&& first.chunk_shape[layout.spatial_axes[i]] > i64::MAX
                        ==> plan.spatial_shape[i] + 0x1_0000_0000_0000_0000
                        == first.chunk_shape[layout.spatial_axes[i]]
                }
        }),
{
    let plan = plan_of(group_uri, mode, layout);
    let first = layout.infos[0];
    assert forall|i: int| 0 <= i < layout.spatial_axes.len() implies {
        &&& plan.spatial_dims[i] == first.dim_names[#[trigger] layout.spatial_axes[i]]
        &&& first.chunk_shape[layout.spatial_axes[i]] <= i64::MAX ==> plan.spatial_shape[i]
            == first.chunk_shape[layout.spatial_axes[i]]
        &&& first.chunk_shape[layout.spatial_axes[i]] > i64::MAX ==> plan.spatial_shape[i]
            + 0x1_0000_0000_0000_0000 == first.chunk_shape[layout.spatial_axes[i]]
    } by {
        lemma_wraps(first.chunk_shape[layout.spatial_axes[i]]);
    }
}

proof fn lemma_wraps(n: u64)
    ensures
        n > i64::MAX ==> n as i64 + 0x1_0000_0000_0000_0000 == n,
{
    assert(n > 0x7fff_ffff_ffff_ffffu64 ==> n as i64 + 0x1_0000_0000_0000_0000 == n) by (bit_vector);
}

/// A group without arrays is no raster. Otherwise each array is described, in
/// the order of the paths, and the error is that of the first that cannot be;
/// then the arrays have to agree; then the spatial axes have to be found among
/// the dimensions of the first.
pub proof fn law_how_a_group_is_read(
    group_uri: Seq<char>,
    arrays: Seq<ArrayMetadataView>,
    declared: Option<Seq<Seq<char>>>,
    k: int,
)
    requires
        0 <= k <= arrays.len(),
        forall|j: int| 0 <= j < k ==> info_of(#[trigger] sorted_by_path(arrays)[j]) is Ok,
        k < arrays.len() ==> info_of(sorted_by_path(arrays)[k]) is Err,
    ensures
        arrays.len() == 0 ==> layout_of(group_uri, arrays, declared) == Err::<
            GroupLayoutView,
            ZarrErrorView,
        >(ZarrErrorView::NoChildArrays { group_uri }),
        k < arrays.len() ==> layout_of(group_uri, arrays, declared) == Err::<
            GroupLayoutView,
            ZarrErrorView,
        >(info_of(sorted_by_path(arrays)[k])->Err_0),
        arrays.len() > 0 && k == arrays.len() ==> {
            let infos = Seq::new(
                arrays.len(),
                |i: int| info_of(sorted_by_path(arrays)[i])->Ok_0,
            );
            &&& first_disagreement(infos) matches Some(e) ==> layout_of(group_uri, arrays, declared)
                == Err::<GroupLayoutView, ZarrErrorView>(e)
            &&& first_disagreement(infos) is None && (spatial_axes(infos[0].dim_names, declared) is Err)
                ==> layout_of(group_uri, arrays, declared) == Err::<GroupLayoutView, ZarrErrorView>(
                spatial_axes(infos[0].dim_names, declared)->Err_0,
            )
            &&& first_disagreement(infos) is None && (spatial_axes(infos[0].dim_names, declared) is Ok)
                ==> {
                &&& layout_of(group_uri, arrays, declared) matches Ok(layout)
                &&& layout.infos == infos
                &&& layout.spatial_axes == spatial_axes(infos[0].dim_names, declared)->Ok_0
            }
        },
{
    let sorted = sorted_by_path(arrays);
    lemma_sorted_len(arrays);
    law_descriptions_of_several(sorted, k);
    if k == arrays.len() {
        let infos = Seq::new(arrays.len(), |i: int| info_of(sorted[i])->Ok_0);
        assert(infos_of(sorted)->Ok_0 =~= infos) by {
            assert forall|i: int| 0 <= i < arrays.len() implies infos_of(sorted)->Ok_0[i]
                == infos[i] by {
                assert(info_of(sorted[i]) is Ok);
            }
        }
    }
}

/// The rows can be laid out if and only if chunks extend along every spatial
/// axis, the rows can be counted and, where there are rows, there are two
/// spatial axes of the grid along which no offset of any row is beyond what an
/// integer holds.
pub proof fn law_which_groups_can_be_walked(layout: GroupLayoutView)
    requires
        layout.wf(),
    ensures
        ({
            let grid = layout.infos[0].chunk_grid_shape;
            let shape = layout.infos[0].chunk_shape;
            let axes = layout.spatial_axes;
            layout.walkable() <==> {
                &&& forall|i: int| 0 <= i < axes.len() ==> #[trigger] axes[i] < shape.len()
                &&& position_count(grid) <= usize::MAX
                &&& position_count(grid) > 0 ==> {
                    &&& axes.len() >= 2
                    &&& axes[0] < grid.len()
                    &&& axes[1] < grid.len()
                    &&& forall|p: Seq<u64>| #[trigger]
                        in_grid(p, grid) ==> p[axes[0]] * shape[axes[0]] <= u64::MAX && p[axes[1]]
                            * shape[axes[1]] <= u64::MAX
                }
            }
        }),
{
    let grid = layout.infos[0].chunk_grid_shape;
    let shape = layout.infos[0].chunk_shape;
    let axes = layout.spatial_axes;
    let y = axes[0];
    let x = axes[1];
    if position_count(grid) > 0 && axes.len() >= 2 && y < grid.len() && x < grid.len() {
        assert(0 <= y && 0 <= x);
        law_when_a_grid_has_positions(grid);
        assert(grid[y] > 0 && grid[x] > 0);
        let last = Seq::new(grid.len(), |i: int| (grid[i] - 1) as u64);
        assert forall|i: int| 0 <= i < grid.len() implies #[trigger] last[i] < grid[i] by {
            assert(grid[i] > 0);
        }
        assert(in_grid(last, grid));
        assert(last[y] == grid[y] - 1 && last[x] == grid[x] - 1);
        assert forall|p: Seq<u64>|
            (grid[y] - 1) * shape[y] <= u64::MAX && (grid[x] - 1) * shape[x] <= u64::MAX
                && #[trigger] in_grid(p, grid) implies p[y] * shape[y] <= u64::MAX && p[x]
            * shape[x] <= u64::MAX by {
            assert(p[y] < grid[y] && p[x] < grid[x]);
            assert(p[y] * shape[y] <= (grid[y] - 1) * shape[y]) by (nonlinear_arith)
                requires
                    p[y] <= grid[y] - 1,
                    shape[y] >= 0,
            ;
            assert(p[x] * shape[x] <= (grid[x] - 1) * shape[x]) by (nonlinear_arith)
                requires
                    p[x] <= grid[x] - 1,
                    shape[x] >= 0,
            ;
        }
    }
}

} // verus!
