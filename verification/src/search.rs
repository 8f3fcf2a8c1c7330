//! Handing search candidates to the interactive finder in batches: the first
//! candidate alone, so that the finder shows something at once, then
//! `BATCH_SIZE` at a time.

use vstd::prelude::*;

verus! {

/// How many candidates go to the finder at a time once the first was sent.
pub const BATCH_SIZE: usize = 256;

/// What one push does to a batcher holding `pending` with the given
/// `threshold`: the pending batch with `item` goes out once it reaches the
/// threshold, and from then on batches are `BATCH_SIZE` long.
pub open spec fn push_model<T>(pending: Seq<T>, threshold: nat, item: T) -> (Seq<T>, nat, Option<Seq<T>>) {
    let batch = pending.push(item);
    if batch.len() < threshold {
        (batch, threshold, None)
    } else {
        (Seq::empty(), BATCH_SIZE as nat, Some(batch))
    }
}

/// The state of a fresh batcher after `items` were pushed in order, and the
/// batches it handed out meanwhile.
pub open spec fn run_model<T>(items: Seq<T>) -> (Seq<T>, nat, Seq<Seq<T>>)
    decreases items.len(),
{
    if items.len() == 0 {
        (Seq::empty(), 1, Seq::empty())
    } else {
        let (pending, threshold, emitted) = run_model(items.drop_last());
        let (pending2, threshold2, out) = push_model(pending, threshold, items.last());
        match out {
            Some(batch) => (pending2, threshold2, emitted.push(batch)),
            None => (pending2, threshold2, emitted),
        }
    }
}

/// Collects items into batches.
pub struct Batcher<T> {
    batch: Vec<T>,
    threshold: usize,
}

impl<T> Batcher<T> {
    /// The items pushed since the last batch went out.
    pub closed spec fn pending(&self) -> Seq<T> {
        self.batch@
    }

    /// The length at which the pending batch goes out.
    pub closed spec fn threshold(&self) -> nat {
        self.threshold as nat
    }

    /// A batcher that sends its first item alone.
    pub fn new() -> (r: Self)
        ensures
            r.pending() == Seq::<T>::empty(),
            r.threshold() == 1,
    {
        Batcher { batch: Vec::new(), threshold: 1 }
    }

    /// Adds `item`; returns the batch that is full with it, if it is.
    pub fn push(&mut self, item: T) -> (r: Option<Vec<T>>)
        ensures
            ({
                let (pending, threshold, out) = push_model(old(self).pending(), old(self).threshold(), item);
                &&& final(self).pending() == pending
                &&& final(self).threshold() == threshold
                &&& match r {
                    Some(batch) => out == Some(batch@),
                    None => out is None,
                }
            }),
    {
        let mut batch: Vec<T> = Vec::new();
        std::mem::swap(&mut batch, &mut self.batch);
        batch.push(item);
        if batch.len() < self.threshold {
            self.batch = batch;
            None
        } else {
            self.threshold = BATCH_SIZE;
            Some(batch)
        }
    }

    /// What is left over at the end: the pending items, unless there are none.
    pub fn finish(self) -> (r: Option<Vec<T>>)
        ensures
            match r {
                Some(batch) => batch@ == self.pending() && batch@.len() > 0,
                None => self.pending().len() == 0,
            },
    {
        if self.batch.len() == 0 {
            None
        } else {
            Some(self.batch)
        }
    }
}

/// Batching loses, duplicates and reorders nothing: the batches handed out
/// for a run of pushes, followed by what is still pending, are exactly the
/// items pushed; the first batch holds one item and every later one
/// `BATCH_SIZE`; and what is pending is shorter than a batch.
pub proof fn batches_keep_items_in_order<T>(items: Seq<T>)
    ensures
        ({
            let (pending, threshold, emitted) = run_model(items);
            &&& emitted.flatten_alt() + pending == items
            &&& pending.len() < threshold
            &&& threshold == (if emitted.len() == 0 { 1 } else { BATCH_SIZE as nat })
            &&& forall|i: int| 0 <= i < emitted.len() ==> (#[trigger] emitted[i]).len() == (if i == 0 { 1 } else { BATCH_SIZE as nat })
        }),
    decreases items.len(),
{
    if items.len() > 0 {
        let rest = items.drop_last();
        batches_keep_items_in_order(rest);
        let (pending, threshold, emitted) = run_model(rest);
        let batch = pending.push(items.last());
        assert(rest.push(items.last()) == items);
        if batch.len() < threshold {
            assert(emitted.flatten_alt() + batch == (emitted.flatten_alt() + pending).push(items.last()));
        } else {
            let grown = emitted.push(batch);
            assert(grown.drop_last() == emitted);
            assert(grown.flatten_alt() == emitted.flatten_alt() + batch);
            assert(grown.flatten_alt() + Seq::<T>::empty() == grown.flatten_alt());
            assert(emitted.flatten_alt() + batch == (emitted.flatten_alt() + pending).push(items.last()));
            assert forall|i: int| 0 <= i < grown.len() implies (#[trigger] grown[i]).len() == (if i == 0 { 1 } else { BATCH_SIZE as nat }) by {
                if i < emitted.len() {
                    assert(grown[i] == emitted[i]);
                }
            }
        }
    }
}

} // verus!
