//! Page-cache hygiene for spill files: when to queue writeback and when to
//! drop pages.
//!
//! A spill file is written once, in sequence, and read back at most once.
//! Every `chunk` bytes the just-completed chunk is queued for writeback. Once
//! the writeback frontier is [`MAX_LAG_CHUNKS`] chunks ahead of the drop
//! frontier, the span between them is waited for and its pages are dropped.
//! The advisor decides; whoever owns the file performs the actions in the
//! order given and ignores their failures.
use vstd::prelude::*;

use crate::decimal::parse_up_to;

#[allow(unused_imports)]
use crate::decimal::parse_unsigned;

verus! {

/// The chunk size where none is configured: 8 MiB.
pub const DEFAULT_CHUNK_BYTES: u64 = 8_388_608;

/// How many chunks the writeback frontier may run ahead of the drop frontier
/// before the writer waits for writeback to complete.
pub const MAX_LAG_CHUNKS: u64 = 4;

/// The chunk size: the number that the configured text stands for, or the
/// default. 0 disables the hygiene.
pub fn chunk_bytes(configured: Option<&str>) -> (r: u64)
    ensures
        r == match configured {
            Some(text) => match parse_unsigned(text@, u64::MAX as nat) {
                Some(n) => n as u64,
                None => DEFAULT_CHUNK_BYTES,
            },
            None => DEFAULT_CHUNK_BYTES,
        },
        configured is None ==> r == 8_388_608,
{
    match configured {
        Some(text) => match parse_up_to(text, u64::MAX) {
            Some(n) => n,
            None => DEFAULT_CHUNK_BYTES,
        },
        None => DEFAULT_CHUNK_BYTES,
    }
}

/// One thing to do with a range of the spill file.
#[derive(Debug, Clone, Copy, PartialEq, Eq, Structural)]
pub enum WritebackAction {
    /// Start writeback of the range without waiting for it.
    Queue { offset: u64, len: u64 },
    /// Write the range back and wait until that is done.
    Wait { offset: u64, len: u64 },
    /// Advise the pages of the range out of the page cache. A length of 0
    /// means to the end of the file.
    Drop { offset: u64, len: u64 },
}

/// Tracks how much of a spill file has been queued for writeback and how much
/// has been dropped from the page cache.
#[derive(Debug, Default)]
pub struct SpillWritebackAdvisor {
    synced: u64,
    dropped: u64,
}

/// The two frontiers of an advisor.
#[verifier::ext_equal]
pub ghost struct Frontiers {
    /// Bytes up to this offset have been queued for writeback.
    pub synced: int,
    /// Bytes up to this offset have been advised out of the page cache.
    pub dropped: int,
}

/// The frontiers and actions after the file has grown to `written` bytes:
/// whole chunks are queued one by one, and each time the span between the
/// frontiers reaches the lag window it is waited for and dropped.
pub open spec fn after_written(f: Frontiers, chunk: int, written: int) -> (
    Frontiers,
    Seq<WritebackAction>,
)
    decreases written - f.synced,
{
    if chunk <= 0 || written < f.synced + chunk {
        (f, Seq::empty())
    } else {
        let (g, now) = after_queued(f, chunk);
        let (end, later) = after_written(g, chunk, written);
        (end, now + later)
    }
}

/// The frontiers and actions for one chunk.
pub open spec fn after_queued(f: Frontiers, chunk: int) -> (Frontiers, Seq<WritebackAction>) {
    let synced = f.synced + chunk;
    let queue = WritebackAction::Queue { offset: f.synced as u64, len: chunk as u64 };
    let lag = synced - f.dropped;
    if lag >= MAX_LAG_CHUNKS * chunk {
        (
            Frontiers { synced, dropped: synced },
            seq![
                queue,
                WritebackAction::Wait { offset: f.dropped as u64, len: lag as u64 },
                WritebackAction::Drop { offset: f.dropped as u64, len: lag as u64 },
            ],
        )
    } else {
        (Frontiers { synced, dropped: f.dropped }, seq![queue])
    }
}

/// The frontiers and actions once the file is complete at `written` bytes.
pub open spec fn after_finished(f: Frontiers, chunk: int, written: int) -> (
    Frontiers,
    Seq<WritebackAction>,
) {
    let drop_all = WritebackAction::Drop { offset: 0, len: 0 };
    if chunk == 0 || written < chunk {
        (f, Seq::empty())
    } else if written > f.synced {
        (
            Frontiers { synced: written, dropped: written },
            seq![
                WritebackAction::Queue {
                    offset: f.synced as u64,
                    len: (written - f.synced) as u64,
                },
                drop_all,
            ],
        )
    } else {
        (Frontiers { synced: f.synced, dropped: written }, seq![drop_all])
    }
}

impl View for SpillWritebackAdvisor {
    type V = Frontiers;

    closed spec fn view(&self) -> Frontiers {
        Frontiers { synced: self.synced as int, dropped: self.dropped as int }
    }
}

impl SpillWritebackAdvisor {
    /// Nothing is dropped that was not queued before.
    pub open spec fn wf(&self) -> bool {
        0 <= self@.dropped <= self@.synced <= u64::MAX
    }

    /// An advisor for an empty file.
    pub fn new() -> (r: Self)
        ensures
            r.wf(),
            r@ == (Frontiers { synced: 0, dropped: 0 }),
    {
        SpillWritebackAdvisor { synced: 0, dropped: 0 }
    }

    /// How many bytes have been queued for writeback.
    pub fn synced(&self) -> (r: u64)
        ensures
            r == self@.synced,
    {
        self.synced
    }

    /// How many bytes have been dropped from the page cache.
    pub fn dropped(&self) -> (r: u64)
        ensures
            r == self@.dropped,
    {
        self.dropped
    }

    /// What to do after appending to the file; `written` is its length now.
    pub fn advise_written(&mut self, chunk: u64, written: u64) -> (r: Vec<WritebackAction>)
        requires
            old(self).wf(),
        ensures
            final(self).wf(),
            final(self)@ == after_written(old(self)@, chunk as int, written as int).0,
            r@ == after_written(old(self)@, chunk as int, written as int).1,
    {
        let mut actions: Vec<WritebackAction> = Vec::new();
        if chunk == 0 {
            return actions;
        }
        let ghost start = self@;
        assert(Seq::<WritebackAction>::empty() + after_written(
            start,
            chunk as int,
            written as int,
        ).1 =~= after_written(start, chunk as int, written as int).1);
        while written >= self.synced && written - self.synced >= chunk
            invariant
                chunk > 0,
                self.wf(),
                start == old(self)@,
                after_written(start, chunk as int, written as int).0 == after_written(
                    self@,
                    chunk as int,
                    written as int,
                ).0,
                after_written(start, chunk as int, written as int).1 == actions@ + after_written(
                    self@,
                    chunk as int,
                    written as int,
                ).1,
            decreases written - self.synced,
        {
            let ghost f = self@;
            let ghost before = actions@;
            actions.push(WritebackAction::Queue { offset: self.synced, len: chunk });
            self.synced = self.synced + chunk;
            let lag = self.synced - self.dropped;
            if lag as u128 >= MAX_LAG_CHUNKS as u128 * chunk as u128 {
                actions.push(WritebackAction::Wait { offset: self.dropped, len: lag });
                actions.push(WritebackAction::Drop { offset: self.dropped, len: lag });
                self.dropped = self.synced;
            }
            proof {
                let (g, now) = after_queued(f, chunk as int);
                assert(self@ == g);
                assert(actions@ =~= before + now);
                let later = after_written(g, chunk as int, written as int).1;
                assert(before + (now + later) =~= (before + now) + later);
            }
        }
        assert(actions@ + Seq::<WritebackAction>::empty() =~= actions@);
        actions
    }

    /// What to do once the file is complete at `written` bytes: queue the
    /// tail, then advise the whole file out of the cache without waiting.
    /// Files smaller than one chunk are left alone.
    pub fn advise_finished(&mut self, chunk: u64, written: u64) -> (r: Vec<WritebackAction>)
        requires
            old(self).wf(),
        ensures
            final(self).wf(),
            final(self)@ == after_finished(old(self)@, chunk as int, written as int).0,
            r@ == after_finished(old(self)@, chunk as int, written as int).1,
    {
        let mut actions: Vec<WritebackAction> = Vec::new();
        if chunk == 0 || written < chunk {
            return actions;
        }
        if written > self.synced {
            actions.push(
                WritebackAction::Queue { offset: self.synced, len: written - self.synced },
            );
            self.synced = written;
        }
        actions.push(WritebackAction::Drop { offset: 0, len: 0 });
        self.dropped = written;
        assert(actions@ =~= after_finished(old(self)@, chunk as int, written as int).1);
        actions
    }
}

/// Whether the actions queue, in order and without gap or overlap, exactly
/// the bytes from `from` to `to`.
pub open spec fn queues_exactly(actions: Seq<WritebackAction>, from: int, to: int) -> bool
    decreases actions.len(),
{
    if actions.len() == 0 {
        from == to
    } else {
        match actions[0] {
            WritebackAction::Queue { offset, len } => offset == from && queues_exactly(
                actions.drop_first(),
                from + len,
                to,
            ),
            _ => queues_exactly(actions.drop_first(), from, to),
        }
    }
}

/// Whether the actions drop, in order and without gap or overlap, exactly the
/// bytes from `from` to `to`, each span right after waiting for it.
pub open spec fn drops_exactly(actions: Seq<WritebackAction>, from: int, to: int) -> bool
    decreases actions.len(),
{
    if actions.len() == 0 {
        from == to
    } else {
        match actions[0] {
            WritebackAction::Queue { .. } => drops_exactly(actions.drop_first(), from, to),
            WritebackAction::Wait { offset, len } => {
                &&& actions.len() > 1
                &&& actions[1] == (WritebackAction::Drop { offset, len })
                &&& offset == from
                &&& drops_exactly(actions.drop_first().drop_first(), from + len, to)
            },
            WritebackAction::Drop { .. } => false,
        }
    }
}

proof fn lemma_queues_prepend(
    later: Seq<WritebackAction>,
    f: Frontiers,
    chunk: int,
    end: int,
)
    requires
        0 <= f.dropped <= f.synced,
        0 < chunk,
        f.synced + chunk <= u64::MAX,
        queues_exactly(later, f.synced + chunk, end),
    ensures
        queues_exactly(after_queued(f, chunk).1 + later, f.synced, end),
{
    let now = after_queued(f, chunk).1;
    let all = now + later;
    let tail = all.drop_first();
    assert(all[0] == now[0]);
    if now.len() == 1 {
        assert(tail =~= later);
    } else {
        let rest = tail.drop_first();
        assert(tail[0] == now[1]);
        assert(rest[0] == now[2]);
        assert(rest.drop_first() =~= later);
        assert(queues_exactly(rest, f.synced + chunk, end));
    }
    assert(queues_exactly(tail, f.synced + chunk, end));
}

proof fn lemma_drops_prepend(
    later: Seq<WritebackAction>,
    f: Frontiers,
    chunk: int,
    end: int,
)
    requires
        0 <= f.dropped <= f.synced,
        0 < chunk,
        f.synced + chunk <= u64::MAX,
        drops_exactly(later, after_queued(f, chunk).0.dropped, end),
    ensures
        drops_exactly(after_queued(f, chunk).1 + later, f.dropped, end),
{
    let now = after_queued(f, chunk).1;
    let all = now + later;
    let tail = all.drop_first();
    assert(all[0] == now[0]);
    if now.len() == 1 {
        assert(tail =~= later);
    } else {
        assert(tail[0] == now[1]);
        assert(tail[1] == now[2]);
        assert(tail.drop_first().drop_first() =~= later);
    }
    assert(drops_exactly(tail, f.dropped, end));
}

/// After a report of what was written: the writeback frontier has moved in
/// whole chunks to less than a chunk behind the end of the file, the drop
/// frontier is less than the lag window behind it, so that fewer than
/// `MAX_LAG_CHUNKS + 1` chunks are still in the cache, and every byte in
/// between was queued once and every dropped byte waited for and dropped once.
pub proof fn law_overhang_is_bounded(f: Frontiers, chunk: int, written: int)
    requires
        0 <= f.dropped <= f.synced <= written <= u64::MAX,
        chunk > 0,
        f.synced - f.dropped < MAX_LAG_CHUNKS * chunk,
    ensures
        ({
            let (g, actions) = after_written(f, chunk, written);
            &&& f.synced <= g.synced <= written < g.synced + chunk
            &&& (g.synced - f.synced) % chunk == 0
            &&& f.dropped <= g.dropped <= g.synced
            &&& g.synced - g.dropped < MAX_LAG_CHUNKS * chunk
            &&& written - g.dropped < (MAX_LAG_CHUNKS + 1) * chunk
            &&& queues_exactly(actions, f.synced, g.synced)
            &&& drops_exactly(actions, f.dropped, g.dropped)
        }),
    decreases written - f.synced,
{
    if written >= f.synced + chunk {
        let (g, now) = after_queued(f, chunk);
        assert(MAX_LAG_CHUNKS * chunk > 0) by (nonlinear_arith)
            requires
                chunk > 0,
                MAX_LAG_CHUNKS == 4,
        ;
        law_overhang_is_bounded(g, chunk, written);
        let (end, later) = after_written(g, chunk, written);
        lemma_queues_prepend(later, f, chunk, end.synced);
        lemma_drops_prepend(later, f, chunk, end.dropped);
        assert((end.synced - f.synced) % chunk == 0) by {
            vstd::arithmetic::div_mod::lemma_mod_add_multiples_vanish(
                end.synced - g.synced,
                chunk,
            );
            assert(end.synced - f.synced == chunk + (end.synced - g.synced));
        }
    } else {
        assert(0int % chunk == 0) by (nonlinear_arith)
            requires
                chunk > 0,
        ;
        assert((MAX_LAG_CHUNKS + 1) * chunk == MAX_LAG_CHUNKS * chunk + chunk) by (nonlinear_arith);
    }
}

/// Reporting a file length in two steps does the same as reporting only the
/// larger one.
pub proof fn law_reports_compose(f: Frontiers, chunk: int, first: int, second: int)
    requires
        first <= second,
    ensures
        ({
            let (g, a) = after_written(f, chunk, first);
            let (h, b) = after_written(g, chunk, second);
            after_written(f, chunk, second) == (h, a + b)
        }),
    decreases first - f.synced,
{
    let (g, a) = after_written(f, chunk, first);
    let (h, b) = after_written(g, chunk, second);
    if chunk <= 0 || first < f.synced + chunk {
        assert(a + b =~= b);
    } else {
        let (k, now) = after_queued(f, chunk);
        law_reports_compose(k, chunk, first, second);
        let rest = after_written(k, chunk, first).1;
        assert(now + (rest + b) =~= (now + rest) + b);
    }
}

/// Finishing a file of at least one chunk leaves nothing behind: whatever was
/// not queued yet is queued, and the whole file is advised out of the cache.
pub proof fn law_finish_covers_file(f: Frontiers, chunk: int, written: int)
    requires
        0 <= f.dropped <= f.synced <= written <= u64::MAX,
        0 < chunk <= written,
    ensures
        ({
            let (g, actions) = after_finished(f, chunk, written);
            &&& g.synced == written
            &&& g.dropped == written
            &&& actions.len() > 0
            &&& actions.last() == (WritebackAction::Drop { offset: 0, len: 0 })
            &&& queues_exactly(actions.drop_last(), f.synced, written)
        }),
{
    let (g, actions) = after_finished(f, chunk, written);
    let queued = actions.drop_last();
    if written > f.synced {
        assert(queued[0] == actions[0]);
        assert(queued.drop_first() =~= Seq::<WritebackAction>::empty());
        assert(queues_exactly(queued.drop_first(), written, written));
    } else {
        assert(queued =~= Seq::<WritebackAction>::empty());
    }
}

} // verus!
