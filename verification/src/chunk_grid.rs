//! Chunk grids and the row-major walk over their positions.
use vstd::prelude::*;

#[allow(unused_imports)]
use vstd::arithmetic::div_mod::{lemma_fundamental_div_mod, lemma_fundamental_div_mod_converse};

verus! {

/// How many positions a grid has. A grid with an axis without chunks has none.
pub open spec fn position_count(grid: Seq<u64>) -> nat
    decreases grid.len(),
{
    if grid.len() == 0 {
        1
    } else {
        position_count(grid.drop_last()) * grid.last() as nat
    }
}

/// Whether the indices name a position of the grid.
pub open spec fn in_grid(indices: Seq<u64>, grid: Seq<u64>) -> bool {
    &&& indices.len() == grid.len()
    &&& forall|i: int| 0 <= i < grid.len() ==> #[trigger] indices[i] < grid[i]
}

/// How many positions come before this one in row-major order, in which the
/// last axis varies fastest.
pub open spec fn rank(indices: Seq<u64>, grid: Seq<u64>) -> nat
    decreases grid.len(),
{
    if grid.len() == 0 {
        0
    } else {
        rank(indices.drop_last(), grid.drop_last()) * grid.last() as nat + indices.last() as nat
    }
}

/// The position with `k` positions before it in row-major order.
pub open spec fn position(grid: Seq<u64>, k: nat) -> Seq<u64>
    decreases grid.len(),
{
    if grid.len() == 0 {
        Seq::empty()
    } else {
        position(grid.drop_last(), k / grid.last() as nat).push((k % grid.last() as nat) as u64)
    }
}

/// `n` zeros: where every walk starts.
pub open spec fn origin(n: nat) -> Seq<u64> {
    Seq::new(n, |i: int| 0u64)
}

/// One step of the odometer: the last index goes up by one; where it reaches
/// the end of its axis it goes back to zero and carries into the one before.
/// The flag says whether an index went up without reaching its end.
pub open spec fn step(indices: Seq<u64>, grid: Seq<u64>) -> (Seq<u64>, bool)
    decreases indices.len(),
{
    if indices.len() == 0 {
        (indices, false)
    } else {
        let n = indices.len() - 1;
        if indices[n] + 1 < grid[n] {
            (indices.update(n, (indices[n] + 1) as u64), true)
        } else {
            let (before, more) = step(indices.drop_last(), grid);
            (before.push(0), more)
        }
    }
}

/// Whether no index that the step raises is the largest number there is.
pub open spec fn step_fits(indices: Seq<u64>, grid: Seq<u64>) -> bool
    decreases indices.len(),
{
    indices.len() > 0 ==> {
        let n = indices.len() - 1;
        &&& indices[n] < u64::MAX
        &&& indices[n] + 1 < grid[n] || step_fits(indices.drop_last(), grid)
    }
}

/// Moves `chunk_indices` one position on in row-major order over
/// `chunk_grid_shape`. Returns `true` while there are positions left, and
/// `false` when the grid is exhausted and the indices are back at zero.
pub fn advance_chunk_indices(chunk_indices: &mut [u64], chunk_grid_shape: &[u64]) -> (r: bool)
    requires
        old(chunk_indices)@.len() <= chunk_grid_shape@.len(),
        step_fits(old(chunk_indices)@, chunk_grid_shape@),
    ensures
        final(chunk_indices)@ == step(old(chunk_indices)@, chunk_grid_shape@).0,
        r == step(old(chunk_indices)@, chunk_grid_shape@).1,
{
    let n = chunk_indices.len();
    let ghost start = chunk_indices@;
    let mut i: usize = n;
    assert(start.take(n as int) =~= start);
    assert(step(start, chunk_grid_shape@).0 =~= step(start.take(n as int), chunk_grid_shape@).0
        + origin(0));
    while i > 0
        invariant
            i <= n,
            n <= chunk_grid_shape@.len(),
            start.len() == n,
            start == old(chunk_indices)@,
            chunk_indices@ == start.take(i as int) + origin((n - i) as nat),
            step_fits(start.take(i as int), chunk_grid_shape@),
            step(start, chunk_grid_shape@).0 == step(start.take(i as int), chunk_grid_shape@).0
                + origin((n - i) as nat),
            step(start, chunk_grid_shape@).1 == step(start.take(i as int), chunk_grid_shape@).1,
        decreases i,
    {
        let ghost head = start.take(i as int);
        i -= 1;
        assert(head.drop_last() =~= start.take(i as int));
        assert(chunk_indices@[i as int] == head[i as int]);
        let next: u64 = chunk_indices[i] + 1;
        if next < chunk_grid_shape[i] {
            chunk_indices[i] = next;
            assert(chunk_indices@ =~= head.update(i as int, next) + origin((n - i - 1) as nat));
            return true;
        }
        chunk_indices[i] = 0;
        proof {
            let before = step(start.take(i as int), chunk_grid_shape@).0;
            assert(before.push(0) + origin((n - i - 1) as nat) =~= before + origin(
                (n - i) as nat,
            ));
            assert(chunk_indices@ =~= start.take(i as int) + origin((n - i) as nat));
        }
    }
    assert(chunk_indices@ =~= step(start, chunk_grid_shape@).0);
    false
}

proof fn lemma_in_grid_drop(indices: Seq<u64>, grid: Seq<u64>)
    requires
        in_grid(indices, grid),
        grid.len() > 0,
    ensures
        in_grid(indices.drop_last(), grid.drop_last()),
        indices.last() < grid.last(),
{
    let a = indices.drop_last();
    let g = grid.drop_last();
    assert forall|i: int| 0 <= i < g.len() implies #[trigger] a[i] < g[i] by {
        assert(indices[i] < grid[i]);
    }
    assert(indices[grid.len() - 1] < grid[grid.len() - 1]);
}

proof fn lemma_step_ignores_rest(indices: Seq<u64>, grid: Seq<u64>)
    requires
        indices.len() < grid.len(),
    ensures
        step(indices, grid) == step(indices, grid.drop_last()),
        step_fits(indices, grid) == step_fits(indices, grid.drop_last()),
    decreases indices.len(),
{
    if indices.len() > 0 {
        lemma_step_prefix(indices.drop_last(), grid, grid.drop_last());
        assert(grid.drop_last()[indices.len() - 1] == grid[indices.len() - 1]);
    }
}

proof fn lemma_step_prefix(indices: Seq<u64>, a: Seq<u64>, b: Seq<u64>)
    requires
        indices.len() <= a.len(),
        indices.len() <= b.len(),
        forall|i: int| 0 <= i < indices.len() ==> a[i] == b[i],
    ensures
        step(indices, a) == step(indices, b),
        step_fits(indices, a) == step_fits(indices, b),
    decreases indices.len(),
{
    if indices.len() > 0 {
        lemma_step_prefix(indices.drop_last(), a, b);
    }
}

/// A position has fewer positions before it than the grid has in all.
pub proof fn lemma_rank_bound(indices: Seq<u64>, grid: Seq<u64>)
    requires
        in_grid(indices, grid),
    ensures
        rank(indices, grid) < position_count(grid),
    decreases grid.len(),
{
    if grid.len() > 0 {
        lemma_in_grid_drop(indices, grid);
        lemma_rank_bound(indices.drop_last(), grid.drop_last());
        let e = grid.last() as nat;
        let r = rank(indices.drop_last(), grid.drop_last());
        let c = position_count(grid.drop_last());
        assert(r * e + indices.last() < c * e) by (nonlinear_arith)
            requires
                r + 1 <= c,
                indices.last() < e,
        ;
    }
}

/// The `k`-th position lies in the grid and has `k` positions before it.
pub proof fn law_position_has_rank(grid: Seq<u64>, k: nat)
    requires
        k < position_count(grid),
    ensures
        in_grid(position(grid, k), grid),
        rank(position(grid, k), grid) == k,
    decreases grid.len(),
{
    if grid.len() > 0 {
        let e = grid.last() as nat;
        let g = grid.drop_last();
        let c = position_count(g);
        lemma_fundamental_div_mod(k as int, e as int);
        assert(k / e < c) by (nonlinear_arith)
            requires
                k < c * e,
                e > 0,
        ;
        law_position_has_rank(g, k / e);
        let p = position(grid, k);
        assert(k % e < e);
        assert((k % e) as u64 == k % e);
        assert(p.drop_last() =~= position(g, k / e));
        assert forall|i: int| 0 <= i < grid.len() implies #[trigger] p[i] < grid[i] by {
            if i < grid.len() - 1 {
                assert(p[i] == position(g, k / e)[i]);
                assert(g[i] == grid[i]);
            }
        }
        assert((k / e) * e == e * (k / e)) by (nonlinear_arith);
    }
}

/// A position is determined by how many positions come before it.
pub proof fn law_rank_has_position(indices: Seq<u64>, grid: Seq<u64>)
    requires
        in_grid(indices, grid),
    ensures
        position(grid, rank(indices, grid)) == indices,
    decreases grid.len(),
{
    if grid.len() > 0 {
        lemma_in_grid_drop(indices, grid);
        law_rank_has_position(indices.drop_last(), grid.drop_last());
        let e = grid.last() as nat;
        let r = rank(indices.drop_last(), grid.drop_last());
        let k = rank(indices, grid);
        lemma_fundamental_div_mod_converse(k as int, e as int, r as int, indices.last() as int);
        assert(indices =~= indices.drop_last().push(indices.last()));
    } else {
        assert(indices =~= Seq::<u64>::empty());
    }
}

/// The first position of a grid is the origin, if it has one.
pub proof fn lemma_position_zero(grid: Seq<u64>)
    requires
        position_count(grid) > 0,
    ensures
        position(grid, 0) == origin(grid.len()),
        in_grid(origin(grid.len()), grid),
    decreases grid.len(),
{
    if grid.len() > 0 {
        let e = grid.last() as nat;
        let c = position_count(grid.drop_last());
        assert(c > 0 && e > 0) by (nonlinear_arith)
            requires
                c * e > 0,
                c >= 0,
                e >= 0,
        ;
        lemma_position_zero(grid.drop_last());
        assert(0nat / e == 0 && 0nat % e == 0) by (nonlinear_arith)
            requires
                e > 0,
        ;
        assert(origin((grid.len() - 1) as nat).push(0) =~= origin(grid.len()));
        assert forall|i: int| 0 <= i < grid.len() implies #[trigger] origin(grid.len())[i]
            < grid[i] by {
            if i < grid.len() - 1 {
                assert(origin((grid.len() - 1) as nat)[i] < grid.drop_last()[i]);
            }
        }
    }
}

/// A grid has a position if and only if every axis has a chunk.
pub proof fn law_when_a_grid_has_positions(grid: Seq<u64>)
    ensures
        position_count(grid) > 0 <==> forall|i: int|
            0 <= i < grid.len() ==> #[trigger] grid[i] > 0,
    decreases grid.len(),
{
    if grid.len() > 0 {
        let g = grid.drop_last();
        let c = position_count(g);
        let e = grid.last() as nat;
        law_when_a_grid_has_positions(g);
        assert(c * e > 0 <==> c > 0 && e > 0) by (nonlinear_arith)
            requires
                c >= 0,
                e >= 0,
        ;
        if c > 0 && e > 0 {
            assert forall|i: int| 0 <= i < grid.len() implies #[trigger] grid[i] > 0 by {
                if i < g.len() {
                    assert(grid[i] == g[i]);
                }
            }
        }
        if forall|i: int| 0 <= i < grid.len() ==> #[trigger] grid[i] > 0 {
            assert forall|i: int| 0 <= i < g.len() implies #[trigger] g[i] > 0 by {
                assert(grid[i] == g[i]);
            }
            assert(grid[grid.len() - 1] > 0);
        }
    }
}

/// A step from a position of the grid leads to the next one in row-major
/// order; from the last one it says that the grid is exhausted and leads back
/// to the origin.
pub proof fn law_step_is_row_major(indices: Seq<u64>, grid: Seq<u64>)
    requires
        in_grid(indices, grid),
    ensures
        step_fits(indices, grid),
        in_grid(step(indices, grid).0, grid),
        step(indices, grid).1 == (rank(indices, grid) + 1 < position_count(grid)),
        step(indices, grid).1 ==> rank(step(indices, grid).0, grid) == rank(indices, grid) + 1,
        !step(indices, grid).1 ==> step(indices, grid).0 == origin(grid.len()),
    decreases grid.len(),
{
    let (after, more) = step(indices, grid);
    if grid.len() == 0 {
        assert(after =~= origin(0));
    } else {
        let n = indices.len() - 1;
        let e = grid.last() as nat;
        let a = indices.drop_last();
        let g = grid.drop_last();
        let r = rank(a, g);
        let c = position_count(g);
        lemma_in_grid_drop(indices, grid);
        law_step_is_row_major(a, g);
        lemma_step_ignores_rest(a, grid);
        lemma_rank_bound(a, g);
        if indices[n] + 1 < grid[n] {
            assert(after.drop_last() =~= a);
            assert forall|i: int| 0 <= i < grid.len() implies #[trigger] after[i] < grid[i] by {
                assert(indices[i] < grid[i]);
            }
            assert(r * e + indices.last() + 1 < c * e) by (nonlinear_arith)
                requires
                    r + 1 <= c,
                    indices.last() + 1 < e,
            ;
        } else {
            let before = step(a, g).0;
            assert(after =~= before.push(0));
            assert(after.drop_last() =~= before);
            assert(indices.last() + 1 == e);
            assert forall|i: int| 0 <= i < grid.len() implies #[trigger] after[i] < grid[i] by {
                if i < n {
                    assert(before[i] < g[i]);
                }
            }
            assert((r + 1) * e == r * e + e) by (nonlinear_arith);
            if more {
                assert((r + 1) * e < c * e) by (nonlinear_arith)
                    requires
                        r + 1 < c,
                        e > 0,
                ;
            } else {
                assert(r + 1 == c);
                assert(origin((grid.len() - 1) as nat).push(0) =~= origin(grid.len()));
            }
        }
    }
}

} // verus!
