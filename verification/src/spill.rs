//! Spilling record batches to a file: how a batch is cut, what is counted, and
//! when the page cache is tended.
//!
//! Whoever owns the file asks [`RecordBatchSpillWriter::write_batch`] which
//! slices of a batch to write, writes them one by one, and reports each to
//! [`RecordBatchSpillWriter::write_one_batch`].
use vstd::prelude::*;

use crate::spill_writeback::{SpillWritebackAdvisor, WritebackAction};

#[allow(unused_imports)]
use crate::spill_writeback::{after_finished, after_written, Frontiers};

verus! {

/// What has been spilled. The counters wrap around.
#[derive(Debug, Clone, Copy, PartialEq, Eq, Structural)]
pub struct SpillMetrics {
    pub spill_file_count: usize,
    pub spilled_bytes: usize,
    pub spilled_rows: usize,
}

/// Consecutive rows of a batch.
#[derive(Debug, Clone, Copy, PartialEq, Eq, Structural)]
pub struct RowRange {
    pub offset: usize,
    pub length: usize,
}

/// Tracks the spilling of record batches to one file.
#[derive(Debug)]
pub struct RecordBatchSpillWriter {
    metrics: SpillMetrics,
    batch_in_memory_size_threshold: Option<usize>,
    gc_view_arrays: bool,
    writeback: SpillWritebackAdvisor,
}

/// The parts of a [`RecordBatchSpillWriter`].
#[verifier::ext_equal]
pub ghost struct SpillView {
    pub metrics: SpillMetrics,
    pub threshold: Option<usize>,
    pub gc_view_arrays: bool,
    pub frontiers: Frontiers,
}

impl View for RecordBatchSpillWriter {
    type V = SpillView;

    closed spec fn view(&self) -> SpillView {
        SpillView {
            metrics: self.metrics,
            threshold: self.batch_in_memory_size_threshold,
            gc_view_arrays: self.gc_view_arrays,
            frontiers: self.writeback@,
        }
    }
}

/// A counter that wraps around.
pub open spec fn counted(counter: usize, n: usize) -> usize {
    if counter + n > usize::MAX {
        (counter + n - usize::MAX - 1) as usize
    } else {
        (counter + n) as usize
    }
}

/// Division that rounds up.
pub open spec fn div_up(a: int, b: int) -> int {
    (a + b - 1) / b
}

/// How many rows a slice has. A batch over the threshold is cut into as many
/// slices as it holds thresholds; others are written whole.
pub open spec fn rows_per_split(threshold: Option<usize>, batch_size: int, num_rows: int) -> int {
    match threshold {
        Some(threshold) => if threshold == 0 || batch_size <= threshold {
            num_rows
        } else {
            let rows = div_up(num_rows, div_up(batch_size, threshold as int));
            if rows < 1 {
                1
            } else {
                rows
            }
        },
        None => num_rows,
    }
}

/// The slices of a batch, each with `rows` rows but for the last. A batch with
/// no more rows than that is one slice, also where it has none.
pub open spec fn slices(num_rows: int, rows: int) -> Seq<RowRange> {
    if num_rows == 0 || rows >= num_rows {
        seq![RowRange { offset: 0, length: num_rows as usize }]
    } else {
        Seq::new(
            div_up(num_rows, rows) as nat,
            |i: int|
                RowRange {
                    offset: (i * rows) as usize,
                    length: if num_rows - i * rows < rows {
                        (num_rows - i * rows) as usize
                    } else {
                        rows as usize
                    },
                },
        )
    }
}

/// Division that rounds up.
fn divide_up(a: usize, b: usize) -> (r: usize)
    requires
        b > 0,
    ensures
        r == div_up(a as int, b as int),
        a > 0 ==> r > 0,
{
    proof {
        lemma_div_up(a as int, b as int);
    }
    if a % b == 0 {
        a / b
    } else {
        a / b + 1
    }
}

proof fn lemma_div_up(a: int, b: int)
    requires
        a >= 0,
        b > 0,
    ensures
        a % b == 0 ==> div_up(a, b) == a / b,
        a % b != 0 ==> div_up(a, b) == a / b + 1,
        0 <= div_up(a, b) <= a,
        (div_up(a, b) - 1) * b < a || a == 0,
        a <= div_up(a, b) * b,
        a > 0 ==> div_up(a, b) > 0,
{
    let q = a / b;
    let m = a % b;
    vstd::arithmetic::div_mod::lemma_fundamental_div_mod(a, b);
    assert(0 <= m < b);
    assert(b * q == q * b) by (nonlinear_arith);
    assert(q >= 0) by (nonlinear_arith)
        requires
            a == b * q + m,
            a >= 0,
            0 <= m < b,
    ;
    if m == 0 {
        assert(a + b - 1 == q * b + (b - 1));
        vstd::arithmetic::div_mod::lemma_fundamental_div_mod_converse(a + b - 1, b, q, b - 1);
        assert((q - 1) * b == q * b - b) by (nonlinear_arith);
        assert(q <= a) by (nonlinear_arith)
            requires
                a == q * b,
                b >= 1,
                q >= 0,
        ;
        assert(a > 0 ==> q > 0) by (nonlinear_arith)
            requires
                a == q * b,
                q >= 0,
        ;
    } else {
        assert((q + 1) * b == q * b + b) by (nonlinear_arith);
        assert(a + b - 1 == (q + 1) * b + (m - 1));
        vstd::arithmetic::div_mod::lemma_fundamental_div_mod_converse(a + b - 1, b, q + 1, m - 1);
        assert(q + 1 <= a) by (nonlinear_arith)
            requires
                a == q * b + m,
                b >= 1,
                q >= 0,
                m >= 1,
        ;
    }
}

impl RecordBatchSpillWriter {
    /// Nothing is dropped from the page cache that was not queued before.
    pub closed spec fn wf(&self) -> bool {
        self.writeback.wf()
    }

    /// A writer for a file that has just been created.
    pub fn try_new(
        metrics: SpillMetrics,
        batch_in_memory_size_threshold: Option<usize>,
        gc_view_arrays: bool,
    ) -> (r: Self)
        ensures
            r.wf(),
            r@ == (SpillView {
                metrics: SpillMetrics {
                    spill_file_count: counted(metrics.spill_file_count, 1),
                    ..metrics
                },
                threshold: batch_in_memory_size_threshold,
                gc_view_arrays,
                frontiers: Frontiers { synced: 0, dropped: 0 },
            }),
    {
        let metrics = SpillMetrics {
            spill_file_count: metrics.spill_file_count.wrapping_add(1),
            spilled_bytes: metrics.spilled_bytes,
            spilled_rows: metrics.spilled_rows,
        };
        RecordBatchSpillWriter {
            metrics,
            batch_in_memory_size_threshold,
            gc_view_arrays,
            writeback: SpillWritebackAdvisor::new(),
        }
    }

    /// What has been spilled so far.
    pub fn metrics(&self) -> (r: SpillMetrics)
        ensures
            r == self@.metrics,
    {
        self.metrics
    }

    /// Whether slices have to be compacted before they are written: slices of
    /// view arrays may refer to far more bytes than they show.
    pub fn compacts(&self) -> (r: bool)
        ensures
            r == self@.gc_view_arrays,
    {
        self.gc_view_arrays
    }

    /// Whether the size of a batch in memory matters for how it is cut.
    pub fn needs_memory_size(&self, num_rows: usize) -> (r: bool)
        ensures
            r == (num_rows > 0 && self@.threshold is Some && self@.threshold->0 > 0),
            !r ==> forall|a: int, b: int| #[trigger]
                slices(
                    num_rows as int,
                    rows_per_split(self@.threshold, a, num_rows as int),
                ) == #[trigger] slices(
                    num_rows as int,
                    rows_per_split(self@.threshold, b, num_rows as int),
                ),
    {
        match self.batch_in_memory_size_threshold {
            Some(threshold) => num_rows > 0 && threshold > 0,
            None => false,
        }
    }

    /// How many rows a slice of a batch has.
    pub fn calculate_rows_per_split(&self, batch_size: usize, num_rows: usize) -> (r: usize)
        ensures
            r == rows_per_split(self@.threshold, batch_size as int, num_rows as int),
            num_rows > 0 ==> r > 0,
    {
        let threshold = match self.batch_in_memory_size_threshold {
            Some(threshold) => threshold,
            None => return num_rows,
        };
        if threshold == 0 || batch_size <= threshold {
            return num_rows;
        }
        let num_splits = divide_up(batch_size, threshold);
        let rows = divide_up(num_rows, num_splits);
        if rows < 1 {
            1
        } else {
            rows
        }
    }

    /// The slices of a batch to write one by one. `batch_size` is the size of
    /// the batch in memory.
    pub fn write_batch(&self, num_rows: usize, batch_size: usize) -> (r: Vec<RowRange>)
        ensures
            r@ == slices(
                num_rows as int,
                rows_per_split(self@.threshold, batch_size as int, num_rows as int),
            ),
    {
        let mut out: Vec<RowRange> = Vec::new();
        if num_rows == 0 {
            out.push(RowRange { offset: 0, length: 0 });
            assert(out@ =~= slices(0, rows_per_split(self@.threshold, batch_size as int, 0)));
            return out;
        }
        let rows = self.calculate_rows_per_split(batch_size, num_rows);
        if rows >= num_rows {
            out.push(RowRange { offset: 0, length: num_rows });
            assert(out@ =~= slices(num_rows as int, rows as int));
            return out;
        }
        let ghost count = div_up(num_rows as int, rows as int);
        let mut offset: usize = 0;
        proof {
            lemma_div_up(num_rows as int, rows as int);
        }
        while offset < num_rows
            invariant
                0 < rows < num_rows,
                count == div_up(num_rows as int, rows as int),
                offset <= num_rows,
                out.len() <= count,
                offset == if out.len() * rows < num_rows {
                    out.len() * rows
                } else {
                    num_rows as int
                },
                offset < num_rows ==> out.len() < count,
                offset == num_rows ==> out.len() == count,
                forall|i: int|
                    0 <= i < out.len() ==> #[trigger] out@[i] == slices(
                        num_rows as int,
                        rows as int,
                    )[i],
            decreases num_rows - offset,
        {
            let ghost k = out.len() as int;
            let length = if num_rows - offset < rows {
                num_rows - offset
            } else {
                rows
            };
            proof {
                assert(k * rows < num_rows) by {
                    if k * rows >= num_rows {
                        assert(offset == num_rows);
                    }
                }
                assert((k + 1) * rows == k * rows + rows) by (nonlinear_arith);
                lemma_last_slice(num_rows as int, rows as int, k);
            }
            out.push(RowRange { offset, length });
            offset += length;
        }
        assert(out@ =~= slices(num_rows as int, rows as int));
        out
    }

    /// Counts a slice that was written, and says how to tend the page cache if
    /// the length of the file is known.
    pub fn write_one_batch(&mut self, num_rows: usize, file_len: Option<u64>, chunk: u64) -> (r:
        Vec<WritebackAction>)
        requires
            old(self).wf(),
        ensures
            final(self).wf(),
            final(self)@ == (SpillView {
                metrics: SpillMetrics {
                    spilled_rows: counted(old(self)@.metrics.spilled_rows, num_rows),
                    ..old(self)@.metrics
                },
                frontiers: match file_len {
                    Some(len) => after_written(
                        old(self)@.frontiers,
                        chunk as int,
                        len as int,
                    ).0,
                    None => old(self)@.frontiers,
                },
                ..old(self)@
            }),
            r@ == match file_len {
                Some(len) => after_written(old(self)@.frontiers, chunk as int, len as int).1,
                None => Seq::empty(),
            },
    {
        self.metrics =
        SpillMetrics {
            spill_file_count: self.metrics.spill_file_count,
            spilled_bytes: self.metrics.spilled_bytes,
            spilled_rows: self.metrics.spilled_rows.wrapping_add(num_rows),
        };
        match file_len {
            Some(len) => self.writeback.advise_written(chunk, len),
            None => Vec::new(),
        }
    }

    /// Counts the bytes of the complete file, and says how to tend the page
    /// cache if the file could be had back.
    pub fn finish(self, size: u64, file_recovered: bool, chunk: u64) -> (r: (
        SpillMetrics,
        Vec<WritebackAction>,
    ))
        requires
            self.wf(),
        ensures
            r.0 == (SpillMetrics {
                spilled_bytes: counted(self@.metrics.spilled_bytes, size as usize),
                ..self@.metrics
            }),
            r.1@ == if file_recovered {
                after_finished(self@.frontiers, chunk as int, size as int).1
            } else {
                Seq::empty()
            },
    {
        let metrics = SpillMetrics {
            spill_file_count: self.metrics.spill_file_count,
            spilled_bytes: self.metrics.spilled_bytes.wrapping_add(size as usize),
            spilled_rows: self.metrics.spilled_rows,
        };
        let mut writeback = self.writeback;
        if file_recovered {
            let actions = writeback.advise_finished(chunk, size);
            (metrics, actions)
        } else {
            (metrics, Vec::new())
        }
    }
}

/// The slice that reaches the end of the batch is the last one.
proof fn lemma_last_slice(n: int, rows: int, k: int)
    requires
        0 < rows < n,
        0 <= k,
        k * rows < n,
    ensures
        k < div_up(n, rows),
        (k + 1) * rows >= n ==> k + 1 == div_up(n, rows),
        (k + 1) * rows < n ==> k + 1 < div_up(n, rows),
{
    lemma_div_up(n, rows);
    let c = div_up(n, rows);
    assert(k < c) by (nonlinear_arith)
        requires
            k * rows < n,
            n <= c * rows,
            rows > 0,
    ;
    if (k + 1) * rows < n {
        assert(k + 1 < c) by (nonlinear_arith)
            requires
                (k + 1) * rows < n,
                n <= c * rows,
                rows > 0,
        ;
    } else {
        assert(c - 1 < k + 1) by (nonlinear_arith)
            requires
                (c - 1) * rows < n,
                (k + 1) * rows >= n,
                rows > 0,
        ;
    }
}

/// The rows in some slices.
pub open spec fn row_count(ranges: Seq<RowRange>) -> int
    decreases ranges.len(),
{
    if ranges.len() == 0 {
        0
    } else {
        row_count(ranges.drop_last()) + ranges.last().length
    }
}

/// Whether the slices lie one behind the other, without gap or overlap, from
/// the start on.
pub open spec fn consecutive(ranges: Seq<RowRange>) -> bool {
    forall|i: int|
        0 <= i < ranges.len() ==> (#[trigger] ranges[i]).offset == row_count(ranges.take(i))
}

proof fn lemma_row_count(n: int, rows: int, k: int)
    requires
        0 < rows < n <= usize::MAX,
        0 <= k <= div_up(n, rows),
    ensures
        row_count(slices(n, rows).take(k)) == if k * rows < n {
            k * rows
        } else {
            n
        },
    decreases k,
{
    let all = slices(n, rows);
    lemma_div_up(n, rows);
    if k > 0 {
        lemma_row_count(n, rows, k - 1);
        assert(all.take(k).drop_last() =~= all.take(k - 1));
        assert((k - 1) * rows + rows == k * rows) by (nonlinear_arith);
        let c = div_up(n, rows);
        assert((k - 1) * rows <= (c - 1) * rows) by (nonlinear_arith)
            requires
                k <= c,
                rows > 0,
        ;
        assert(0 <= (k - 1) * rows) by (nonlinear_arith)
            requires
                k >= 1,
                rows > 0,
        ;
    } else {
        assert(all.take(0) =~= Seq::empty());
        assert(0 * rows == 0) by (nonlinear_arith);
    }
}

/// Cutting a batch neither loses nor repeats a row: the slices lie one behind
/// the other and together have the rows of the batch.
pub proof fn law_slices_partition_the_batch(
    threshold: Option<usize>,
    batch_size: int,
    num_rows: int,
)
    requires
        0 <= num_rows <= usize::MAX,
        0 <= batch_size,
    ensures
        consecutive(slices(num_rows, rows_per_split(threshold, batch_size, num_rows))),
        row_count(slices(num_rows, rows_per_split(threshold, batch_size, num_rows))) == num_rows,
{
    let rows = rows_per_split(threshold, batch_size, num_rows);
    let all = slices(num_rows, rows);
    if num_rows == 0 || rows >= num_rows {
        assert(all.take(0) =~= Seq::empty());
        assert(all.drop_last() =~= Seq::empty());
        assert(row_count(all.drop_last()) == 0);
    } else {
        lemma_rows_positive(threshold, batch_size, num_rows);
        lemma_div_up(num_rows, rows);
        let c = div_up(num_rows, rows);
        lemma_row_count(num_rows, rows, c);
        assert(all.take(c) =~= all);
        assert forall|i: int| 0 <= i < all.len() implies (#[trigger] all[i]).offset == row_count(
            all.take(i),
        ) by {
            lemma_row_count(num_rows, rows, i);
            assert(i * rows <= (c - 1) * rows) by (nonlinear_arith)
                requires
                    i <= c - 1,
                    rows > 0,
            ;
            assert(0 <= i * rows) by (nonlinear_arith)
                requires
                    i >= 0,
                    rows > 0,
            ;
        }
    }
}

proof fn lemma_rows_positive(threshold: Option<usize>, batch_size: int, num_rows: int)
    requires
        num_rows > 0,
        batch_size >= 0,
    ensures
        rows_per_split(threshold, batch_size, num_rows) > 0,
{
}

/// A batch without rows is written as one slice without rows; of any other
/// batch no slice is without rows.
pub proof fn law_no_slice_is_empty(threshold: Option<usize>, batch_size: int, num_rows: int)
    requires
        0 <= num_rows <= usize::MAX,
        0 <= batch_size,
    ensures
        num_rows == 0 ==> slices(
            num_rows,
            rows_per_split(threshold, batch_size, num_rows),
        ) == seq![RowRange { offset: 0, length: 0 }],
        num_rows > 0 ==> forall|i: int|
            0 <= i < slices(
                num_rows,
                rows_per_split(threshold, batch_size, num_rows),
            ).len() ==> (#[trigger] slices(
                num_rows,
                rows_per_split(threshold, batch_size, num_rows),
            )[i]).length > 0,
{
    let rows = rows_per_split(threshold, batch_size, num_rows);
    let all = slices(num_rows, rows);
    if num_rows > 0 {
        lemma_rows_positive(threshold, batch_size, num_rows);
        assert forall|i: int| 0 <= i < all.len() implies (#[trigger] all[i]).length > 0 by {
            if rows < num_rows {
                lemma_div_up(num_rows, rows);
                let c = div_up(num_rows, rows);
                assert(i * rows <= (c - 1) * rows) by (nonlinear_arith)
                    requires
                        i <= c - 1,
                        rows > 0,
                ;
                assert(0 <= i * rows) by (nonlinear_arith)
                    requires
                        i >= 0,
                        rows > 0,
                ;
            }
        }
    }
}

/// A batch over the threshold is cut into no more slices than it holds
/// thresholds, rounded up. If its rows are of one size, a slice without its
/// last row is below the threshold.
pub proof fn law_slices_keep_to_the_threshold(threshold: usize, batch_size: int, num_rows: int)
    requires
        0 < num_rows <= usize::MAX,
        0 < threshold < batch_size,
    ensures
        ({
            let all = slices(num_rows, rows_per_split(Some(threshold), batch_size, num_rows));
            &&& all.len() <= div_up(batch_size, threshold as int)
            &&& forall|i: int|
                0 <= i < all.len() ==> ((#[trigger] all[i]).length - 1) * batch_size < num_rows
                    * threshold
        }),
{
    let t = threshold as int;
    let splits = div_up(batch_size, t);
    let rows = rows_per_split(Some(threshold), batch_size, num_rows);
    let all = slices(num_rows, rows);
    lemma_div_up(batch_size, t);
    lemma_div_up(num_rows, splits);
    assert(rows == div_up(num_rows, splits));
    assert((rows - 1) * splits < num_rows);
    assert((rows - 1) * batch_size < num_rows * t) by (nonlinear_arith)
        requires
            (rows - 1) * splits < num_rows,
            batch_size <= splits * t,
            rows >= 1,
            t > 0,
            num_rows > 0,
    {
        assert((rows - 1) * batch_size <= (rows - 1) * (splits * t));
        assert((rows - 1) * (splits * t) == ((rows - 1) * splits) * t);
        assert(((rows - 1) * splits) * t < num_rows * t);
    }
    if rows < num_rows {
        lemma_div_up(num_rows, rows);
        let c = div_up(num_rows, rows);
        assert(c <= splits) by (nonlinear_arith)
            requires
                (c - 1) * rows < num_rows,
                num_rows <= rows * splits,
                rows > 0,
        ;
        assert forall|i: int| 0 <= i < all.len() implies ((#[trigger] all[i]).length - 1)
            * batch_size < num_rows * threshold by {
            let len = all[i].length as int;
            assert(0 <= i * rows) by (nonlinear_arith)
                requires
                    i >= 0,
                    rows > 0,
            ;
            assert(i * rows <= (c - 1) * rows) by (nonlinear_arith)
                requires
                    i <= c - 1,
                    rows > 0,
            ;
            assert(len <= rows);
            assert((len - 1) * batch_size <= (rows - 1) * batch_size) by (nonlinear_arith)
                requires
                    len <= rows,
                    batch_size > 0,
            ;
        }
    }
}

/// However a batch is cut, reporting its slices counts the rows of the batch.
pub proof fn law_all_rows_are_counted(ranges: Seq<RowRange>, start: usize)
    ensures
        ranges.fold_left(start, |rows: usize, range: RowRange| counted(rows, range.length))
            == ((start + row_count(ranges)) % (usize::MAX + 1)) as usize,
    decreases ranges.len(),
{
    let step = |rows: usize, range: RowRange| counted(rows, range.length);
    let total = start + row_count(ranges);
    let m = usize::MAX + 1;
    lemma_row_count_nonnegative(ranges);
    if ranges.len() == 0 {
        vstd::arithmetic::div_mod::lemma_small_mod(start as nat, m as nat);
    } else {
        let head = ranges.drop_last();
        let last = ranges.last();
        law_all_rows_are_counted(head, start);
        lemma_row_count_nonnegative(head);
        let before = start + row_count(head);
        let r = before % m;
        let len = last.length as int;
        vstd::arithmetic::div_mod::lemma_add_mod_noop(before, len, m);
        vstd::arithmetic::div_mod::lemma_small_mod(len as nat, m as nat);
        if r + len >= m {
            vstd::arithmetic::div_mod::lemma_fundamental_div_mod_converse(
                r + len,
                m,
                1,
                r + len - m,
            );
        } else {
            vstd::arithmetic::div_mod::lemma_small_mod((r + len) as nat, m as nat);
        }
    }
}

proof fn lemma_row_count_nonnegative(ranges: Seq<RowRange>)
    ensures
        row_count(ranges) >= 0,
    decreases ranges.len(),
{
    if ranges.len() > 0 {
        lemma_row_count_nonnegative(ranges.drop_last());
    }
}

} // verus!
