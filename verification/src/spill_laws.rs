//! How batches of each size are cut, and what is done for each chunk of a
//! spill file.
use vstd::prelude::*;

#[allow(unused_imports)]
use crate::spill::{counted, div_up, rows_per_split, slices};
#[allow(unused_imports)]
use crate::spill_writeback::{
    after_finished, after_queued, after_written, Frontiers, WritebackAction, DEFAULT_CHUNK_BYTES,
    MAX_LAG_CHUNKS,
};

verus! {

/// Without a threshold, with a threshold of 0, or if the batch is no larger
/// than the threshold, a batch of `num_rows` rows is written as exactly one
/// slice with all of them.
pub proof fn law_small_batches_are_written_whole(
    threshold: Option<usize>,
    batch_size: int,
    num_rows: usize,
)
    requires
        0 <= batch_size,
        threshold is None || threshold->0 == 0 || batch_size <= threshold->0,
    ensures
        ({
            let rows = rows_per_split(threshold, batch_size, num_rows as int);
            let all = slices(num_rows as int, rows);
            &&& rows == num_rows
            &&& all.len() == 1
            &&& all[0].offset == 0
            &&& all[0].length == num_rows
        }),
{
}

/// Where rounding up leads: the only number of parts of size `b` that cover
/// `a` and of which none is empty.
proof fn lemma_rounded_up(a: int, b: int, q: int)
    requires
        b > 0,
        (q - 1) * b < a <= q * b,
    ensures
        div_up(a, b) == q,
{
    let m = a + b - 1 - q * b;
    assert((q - 1) * b == q * b - b) by (nonlinear_arith);
    vstd::arithmetic::div_mod::lemma_fundamental_div_mod_converse(a + b - 1, b, q, m);
}

/// A batch larger than its threshold is cut evenly. Let `parts` be the least
/// number of thresholds that hold its bytes, and `rows` the least number of
/// rows with which so many slices hold all of its rows. Then the slices have
/// `rows` rows each, but for the last, which has the rows that are left.
pub proof fn law_large_batches_are_cut_evenly(
    threshold: usize,
    batch_size: int,
    num_rows: usize,
    parts: int,
    rows: int,
)
    requires
        0 < threshold < batch_size,
        0 < num_rows,
        (parts - 1) * threshold < batch_size <= parts * threshold,
        (rows - 1) * parts < num_rows <= rows * parts,
    ensures
        ({
            let all = slices(
                num_rows as int,
                rows_per_split(Some(threshold), batch_size, num_rows as int),
            );
            &&& rows_per_split(Some(threshold), batch_size, num_rows as int) == rows
            &&& all.len() > 0
            &&& forall|i: int|
                0 <= i < all.len() ==> {
                    &&& (#[trigger] all[i]).offset == i * rows
                    &&& i < all.len() - 1 ==> all[i].length == rows
                    &&& i == all.len() - 1 ==> all[i].length == num_rows - i * rows
                    &&& 0 < all[i].length <= rows
                }
        }),
{
    let n = num_rows as int;
    assert(parts > 0) by (nonlinear_arith)
        requires
            0 < batch_size <= parts * threshold,
            0 < threshold,
    ;
    assert(rows > 0) by (nonlinear_arith)
        requires
            0 < n <= rows * parts,
            0 < parts,
    ;
    lemma_rounded_up(batch_size, threshold as int, parts);
    lemma_rounded_up(n, parts, rows);
    let all = slices(n, rows);
    if rows < n {
        let c = div_up(n, rows);
        vstd::arithmetic::div_mod::lemma_fundamental_div_mod(n + rows - 1, rows);
        let m = (n + rows - 1) % rows;
        assert(rows * c == c * rows) by (nonlinear_arith);
        assert((c - 1) * rows == c * rows - rows) by (nonlinear_arith);
        assert(c > 0) by (nonlinear_arith)
            requires
                n + rows - 1 == c * rows + m,
                m < rows,
                0 < n,
                0 < rows,
        ;
        assert forall|i: int| 0 <= i < all.len() implies {
            &&& (#[trigger] all[i]).offset == i * rows
            &&& i < all.len() - 1 ==> all[i].length == rows
            &&& i == all.len() - 1 ==> all[i].length == num_rows - i * rows
            &&& 0 < all[i].length <= rows
        } by {
            assert(0 <= i * rows <= (c - 1) * rows) by (nonlinear_arith)
                requires
                    0 <= i <= c - 1,
                    rows > 0,
            ;
            if i < c - 1 {
                assert(i * rows + rows <= (c - 1) * rows) by (nonlinear_arith)
                    requires
                        i + 1 <= c - 1,
                        rows > 0,
                ;
            }
        }
    } else {
        assert(0 * rows == 0);
    }
}

/// Counters start over at 0 once they are full.
pub proof fn law_counters_wrap(counter: usize, n: usize)
    ensures
        counter + n <= usize::MAX ==> counted(counter, n) == counter + n,
        counter + n > usize::MAX ==> counted(counter, n) + usize::MAX + 1 == counter + n,
{
}

/// Chunks have 8 MiB where nothing else is said, and writeback runs at most
/// four of them ahead.
pub proof fn law_writeback_constants()
    ensures
        DEFAULT_CHUNK_BYTES == 8 * 1024 * 1024,
        MAX_LAG_CHUNKS == 4,
{
}

/// A chunk size of 0 switches everything off.
pub proof fn law_no_chunks_no_actions(f: Frontiers, written: int)
    ensures
        after_written(f, 0, written) == (f, Seq::<WritebackAction>::empty()),
        after_finished(f, 0, written) == (f, Seq::<WritebackAction>::empty()),
{
}

/// As long as the file has not grown by a whole chunk, nothing is done.
pub proof fn law_parts_of_a_chunk_wait(f: Frontiers, chunk: int, written: int)
    requires
        written < f.synced + chunk,
    ensures
        after_written(f, chunk, written) == (f, Seq::<WritebackAction>::empty()),
{
}

/// For each whole chunk, that chunk is queued. If then four chunks or more are
/// queued and not dropped, all of them are waited for and then dropped.
pub proof fn law_one_chunk_at_a_time(f: Frontiers, chunk: int, written: int)
    requires
        0 <= f.dropped <= f.synced,
        0 < chunk,
        f.synced + chunk <= written < f.synced + 2 * chunk,
        written <= u64::MAX,
    ensures
        ({
            let (g, actions) = after_written(f, chunk, written);
            let lag = f.synced + chunk - f.dropped;
            &&& g.synced == f.synced + chunk
            &&& actions.len() > 0
            &&& actions[0] matches WritebackAction::Queue { offset, len }
            &&& offset == f.synced
            &&& len == chunk
            &&& lag < 4 * chunk ==> actions.len() == 1 && g.dropped == f.dropped
            &&& lag >= 4 * chunk ==> {
                &&& actions.len() == 3
                &&& actions[1] == (WritebackAction::Wait {
                    offset: f.dropped as u64,
                    len: lag as u64,
                })
                &&& actions[2] == (WritebackAction::Drop {
                    offset: f.dropped as u64,
                    len: lag as u64,
                })
                &&& g.dropped == g.synced
            }
        }),
{
    let g = after_queued(f, chunk).0;
    assert(after_written(g, chunk, written) == (g, Seq::<WritebackAction>::empty()));
    let now = after_queued(f, chunk).1;
    assert(now + Seq::<WritebackAction>::empty() =~= now);
}

/// What is queued while the file grows is always one whole chunk, and what is
/// waited for or dropped is never less than four.
pub proof fn law_actions_have_whole_chunks(f: Frontiers, chunk: int, written: int)
    requires
        0 <= f.dropped <= f.synced,
        0 < chunk,
        written <= u64::MAX,
    ensures
        forall|i: int|
            0 <= i < after_written(f, chunk, written).1.len() ==> match #[trigger] after_written(
                f,
                chunk,
                written,
            ).1[i] {
                WritebackAction::Queue { offset, len } => len == chunk && f.synced <= offset
                    && offset + len <= written,
                WritebackAction::Wait { offset, len } => len >= 4 * chunk && f.dropped <= offset
                    && offset + len <= written,
                WritebackAction::Drop { offset, len } => len >= 4 * chunk && f.dropped <= offset
                    && offset + len <= written,
            },
    decreases written - f.synced,
{
    if written >= f.synced + chunk {
        let (g, now) = after_queued(f, chunk);
        law_actions_have_whole_chunks(g, chunk, written);
        let later = after_written(g, chunk, written).1;
        let all = after_written(f, chunk, written).1;
        assert(all == now + later);
        assert forall|i: int| 0 <= i < all.len() implies match #[trigger] all[i] {
            WritebackAction::Queue { offset, len } => len == chunk && f.synced <= offset && offset
                + len <= written,
            WritebackAction::Wait { offset, len } => len >= 4 * chunk && f.dropped <= offset
                && offset + len <= written,
            WritebackAction::Drop { offset, len } => len >= 4 * chunk && f.dropped <= offset
                && offset + len <= written,
        } by {
            if i >= now.len() {
                assert(all[i] == later[i - now.len()]);
            } else {
                assert(all[i] == now[i]);
            }
        }
    }
}

/// A complete file smaller than a chunk is left alone. Of a larger one the
/// bytes that were not queued yet are queued, if there are any, and the whole
/// file is dropped; nothing is waited for.
pub proof fn law_what_finishing_does(f: Frontiers, chunk: int, written: int)
    requires
        0 <= f.dropped <= f.synced,
        0 < chunk,
        0 <= written <= u64::MAX,
    ensures
        ({
            let (g, actions) = after_finished(f, chunk, written);
            let whole = WritebackAction::Drop { offset: 0, len: 0 };
            &&& written < chunk ==> g == f && actions.len() == 0
            &&& chunk <= written && written <= f.synced ==> {
                &&& actions.len() == 1
                &&& actions[0] == whole
                &&& g.synced == f.synced
                &&& g.dropped == written
            }
            &&& chunk <= written && f.synced < written ==> {
                &&& actions.len() == 2
                &&& actions[0] == (WritebackAction::Queue {
                    offset: f.synced as u64,
                    len: (written - f.synced) as u64,
                })
                &&& actions[1] == whole
                &&& g.synced == written
                &&& g.dropped == written
            }
        }),
{
}

} // verus!
