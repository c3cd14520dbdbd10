//! The batching rule of the ingestion pipeline.
//!
//! Threads arrive one by one. They are held until as many are held as the
//! batch size says, and are then handed out together, to be written to the
//! store; what is still held when the stream ends is handed out once more.
//! The writer decides; its caller receives the threads, writes each batch,
//! and stops at the first failure.

use crate::model::Thread;
use vstd::prelude::*;

verus! {

/// The batch size that the pipeline runs with unless it is told another.
pub const THREAD_BATCH_SIZE: usize = 100;

/// What has happened after some items of a stream have arrived: the batches
/// handed out so far, and the items still held.
pub struct Progress<T> {
    pub flushed: Seq<Seq<T>>,
    pub pending: Seq<T>,
}

/// What has happened after `items` have arrived, in order, at a writer that
/// held nothing, with the batch size `limit`.
pub open spec fn progress<T>(items: Seq<T>, limit: nat) -> Progress<T>
    decreases items.len(),
{
    if items.len() == 0 {
        Progress { flushed: Seq::empty(), pending: Seq::empty() }
    } else {
        let before = progress(items.drop_last(), limit);
        let grown = before.pending.push(items.last());
        if grown.len() >= limit {
            Progress { flushed: before.flushed.push(grown), pending: Seq::empty() }
        } else {
            Progress { flushed: before.flushed, pending: grown }
        }
    }
}

/// The batches that are handed out for a stream of `items` that then ends.
pub open spec fn batches<T>(items: Seq<T>, limit: nat) -> Seq<Seq<T>> {
    let at_end = progress(items, limit);
    if at_end.pending.len() > 0 {
        at_end.flushed.push(at_end.pending)
    } else {
        at_end.flushed
    }
}

/// The items of `groups`, in order.
pub open spec fn flattened<T>(groups: Seq<Seq<T>>) -> Seq<T>
    decreases groups.len(),
{
    if groups.len() == 0 {
        Seq::empty()
    } else {
        flattened(groups.drop_last()) + groups.last()
    }
}

/// The quotient and the remainder of the number that follows `m`.
proof fn lemma_next_quotient(m: int, b: int)
    requires
        0 <= m,
        0 < b,
    ensures
        (m % b) + 1 == b ==> (m + 1) % b == 0 && (m + 1) / b == m / b + 1,
        (m % b) + 1 < b ==> (m + 1) % b == (m % b) + 1 && (m + 1) / b == m / b,
        0 <= m % b < b,
{
    vstd::arithmetic::div_mod::lemma_fundamental_div_mod(m, b);
    vstd::arithmetic::div_mod::lemma_mod_bound(m, b);
    let q = m / b;
    let r = m % b;
    assert(m == b * q + r);
    if r + 1 == b {
        assert(m + 1 == (q + 1) * b + 0) by (nonlinear_arith)
            requires
                m == b * q + r,
                r + 1 == b,
        ;
        vstd::arithmetic::div_mod::lemma_fundamental_div_mod_converse(m + 1, b, q + 1, 0);
    } else {
        assert(m + 1 == q * b + (r + 1)) by (nonlinear_arith)
            requires
                m == b * q + r,
        ;
        vstd::arithmetic::div_mod::lemma_fundamental_div_mod_converse(m + 1, b, q, r + 1);
    }
}

/// After `m` items, `m / limit` full batches have been handed out, each of
/// `limit` items, `m % limit` items are held, and the batches and what is
/// held are, end to end, the items that arrived.
pub proof fn lemma_progress<T>(items: Seq<T>, limit: nat)
    requires
        limit > 0,
    ensures
        progress(items, limit).flushed.len() == items.len() / limit,
        progress(items, limit).pending.len() == items.len() % limit,
        forall|i: int|
            0 <= i < progress(items, limit).flushed.len() ==> (#[trigger] progress(
                items,
                limit,
            ).flushed[i]).len() == limit,
        flattened(progress(items, limit).flushed) + progress(items, limit).pending == items,
    decreases items.len(),
{
    if items.len() == 0 {
        assert(flattened(progress(items, limit).flushed) + progress(items, limit).pending
            =~= items);
    } else {
        let front = items.drop_last();
        let before = progress(front, limit);
        let after = progress(items, limit);
        lemma_progress(front, limit);
        lemma_next_quotient(front.len() as int, limit as int);
        let grown = before.pending.push(items.last());
        assert(flattened(before.flushed) + grown =~= items) by {
            assert(flattened(before.flushed) + before.pending == front);
            assert(front.push(items.last()) =~= items);
        }
        if grown.len() >= limit {
            assert(after.flushed.drop_last() =~= before.flushed);
            assert(flattened(after.flushed) + after.pending =~= items);
        }
    }
}

/// The batch size being `limit`, a stream of `q * limit` threads is written
/// in `q` batches of `limit` threads each, and nothing is left for a last,
/// smaller batch.
pub proof fn law_full_batches<T>(items: Seq<T>, limit: nat, q: nat)
    requires
        limit > 0,
        items.len() == q * limit,
    ensures
        batches(items, limit).len() == q,
        forall|i: int|
            0 <= i < q ==> (#[trigger] batches(items, limit)[i]).len() == limit,
        progress(items, limit).pending.len() == 0,
{
    lemma_progress(items, limit);
    vstd::arithmetic::div_mod::lemma_fundamental_div_mod_converse(
        items.len() as int,
        limit as int,
        q as int,
        0,
    );
}

/// The batch size being `limit`, a stream of `q * limit + r` threads with
/// `0 < r < limit` is written in `q` batches of `limit` threads each and one
/// last batch of `r` threads.
pub proof fn law_remainder_batch<T>(items: Seq<T>, limit: nat, q: nat, r: nat)
    requires
        0 < r < limit,
        items.len() == q * limit + r,
    ensures
        batches(items, limit).len() == q + 1,
        forall|i: int|
            0 <= i < q ==> (#[trigger] batches(items, limit)[i]).len() == limit,
        batches(items, limit)[q as int].len() == r,
{
    lemma_progress(items, limit);
    vstd::arithmetic::div_mod::lemma_fundamental_div_mod_converse(
        items.len() as int,
        limit as int,
        q as int,
        r as int,
    );
}

/// No thread of a stream is dropped: the batches, end to end, are the
/// stream, and none of them is empty.
pub proof fn law_nothing_dropped<T>(items: Seq<T>, limit: nat)
    requires
        limit > 0,
    ensures
        flattened(batches(items, limit)) == items,
        forall|i: int|
            0 <= i < batches(items, limit).len() ==> (#[trigger] batches(items, limit)[i]).len()
                > 0,
{
    lemma_progress(items, limit);
    let at_end = progress(items, limit);
    if at_end.pending.len() > 0 {
        assert(batches(items, limit).drop_last() =~= at_end.flushed);
    } else {
        assert(at_end.flushed + Seq::<Seq<T>>::empty() =~= at_end.flushed);
        assert(flattened(at_end.flushed) + at_end.pending =~= flattened(at_end.flushed));
    }
}

/// The writer's state: the threads that it holds, and the batch size.
pub struct BatchWriter {
    pub pending: Vec<Thread>,
    pub limit: usize,
}

impl BatchWriter {
    /// A writer that holds nothing.
    pub fn new(limit: usize) -> (w: BatchWriter)
        ensures
            w.pending.deep_view() == Seq::<crate::model::ThreadView>::empty(),
            w.limit == limit,
    {
        let w = BatchWriter { pending: Vec::new(), limit };
        assert(w.pending.deep_view() =~= Seq::empty());
        w
    }

    /// Takes the next thread of the stream. Where the writer then holds as
    /// many threads as the batch size says, it hands them all out, in the
    /// order in which they arrived, and holds nothing; else it hands out
    /// nothing and holds the thread too.
    pub fn accept(&mut self, thread: Thread) -> (batch: Option<Vec<Thread>>)
        ensures
            final(self).limit == old(self).limit,
            ({
                let grown = old(self).pending.deep_view().push(thread.deep_view());
                if grown.len() >= old(self).limit {
                    &&& batch.is_some()
                    &&& batch.unwrap().deep_view() == grown
                    &&& final(self).pending.deep_view() == Seq::<
                        crate::model::ThreadView,
                    >::empty()
                } else {
                    &&& batch.is_none()
                    &&& final(self).pending.deep_view() == grown
                }
            }),
    {
        let ghost before = self.pending.deep_view();
        self.pending.push(thread);
        assert(self.pending.deep_view() =~= before.push(thread.deep_view()));
        if self.pending.len() >= self.limit {
            let mut batch: Vec<Thread> = Vec::new();
            std::mem::swap(&mut batch, &mut self.pending);
            assert(self.pending.deep_view() =~= Seq::empty());
            Some(batch)
        } else {
            None
        }
    }

    /// Ends the stream: hands out what the writer still holds, if it holds
    /// anything.
    pub fn finish(self) -> (batch: Option<Vec<Thread>>)
        ensures
            self.pending.len() > 0 ==> batch.is_some() && batch.unwrap().deep_view()
                == self.pending.deep_view(),
            self.pending.len() == 0 ==> batch.is_none(),
    {
        if self.pending.len() > 0 {
            Some(self.pending)
        } else {
            None
        }
    }
}

/// The batches in which a whole stream of threads is written, in the order
/// in which they are written.
pub fn plan_batches(threads: Vec<Thread>, limit: usize) -> (plan: Vec<Vec<Thread>>)
    ensures
        plan.deep_view() == batches(threads.deep_view(), limit as nat),
{
    let ghost items = threads@;
    let ghost all = threads.deep_view();
    let mut writer = BatchWriter::new(limit);
    let mut plan: Vec<Vec<Thread>> = Vec::new();
    assert(plan.deep_view() =~= Seq::empty());
    assert(all.take(0) =~= Seq::empty());
    for thread in it: threads
        invariant
            it.seq() == items,
            all.len() == items.len(),
            forall|k: int| 0 <= k < items.len() ==> all[k] == (#[trigger] items[k]).deep_view(),
            writer.limit == limit,
            plan.deep_view() == progress(all.take(it.index()), limit as nat).flushed,
            writer.pending.deep_view() == progress(all.take(it.index()), limit as nat).pending,
    {
        let ghost upto = all.take(it.index());
        let ghost next = all.take(it.index() + 1);
        let ghost before = plan.deep_view();
        assert(next.drop_last() =~= upto);
        assert(next.last() == thread.deep_view());
        match writer.accept(thread) {
            Some(batch) => {
                plan.push(batch);
                assert(plan.deep_view() =~= before.push(batch.deep_view()));
            },
            None => {},
        }
    }
    assert(all.take(all.len() as int) =~= all);
    let ghost before = plan.deep_view();
    match writer.finish() {
        Some(batch) => {
            plan.push(batch);
            assert(plan.deep_view() =~= before.push(batch.deep_view()));
        },
        None => {},
    }
    plan
}

} // verus!
