//! An imported execution together with the fingerprint that identifies its
//! source line across imports.

use vstd::prelude::*;
use crate::encoding::{append_frame, framable, frames, lemma_frames_injective, pow256};
use crate::execution::Execution;

verus! {

#[derive(Clone, Debug, PartialEq, Eq)]
pub struct Record {
    pub execution: Execution,
    pub fingerprint: Vec<u8>,
}

pub struct RecordView {
    pub execution: crate::execution::ExecutionView,
    pub fingerprint: Seq<u8>,
}

impl View for Record {
    type V = RecordView;

    open spec fn view(&self) -> RecordView {
        RecordView { execution: self.execution@, fingerprint: self.fingerprint@ }
    }
}

/// The byte views of `parts`.
pub open spec fn byte_views(parts: Seq<Vec<u8>>) -> Seq<Seq<u8>> {
    parts.map_values(|part: Vec<u8>| part@)
}

/// The fingerprint of a record of kind `variant` made of `components`: each of
/// them framed by its length.
pub open spec fn fingerprint(variant: Seq<u8>, components: Seq<Seq<u8>>) -> Seq<u8> {
    frames(seq![variant] + components)
}

impl Record {
    pub fn new(execution: Execution, variant: &[u8], components: &[Vec<u8>]) -> (r: Record)
        ensures
            r.execution == execution,
            r.fingerprint@ == fingerprint(variant@, byte_views(components@)),
    {
        let mut out: Vec<u8> = Vec::new();
        append_frame(&mut out, variant);
        let ghost parts: Seq<Seq<u8>> = seq![variant@];
        assert(out@ == frames(parts)) by {
            assert(parts.drop_first() == Seq::<Seq<u8>>::empty());
            assert(frames(parts.drop_first()) == Seq::<u8>::empty());
            assert(Seq::<u8>::empty() + frames(parts) == frames(parts));
        }
        let mut i: usize = 0;
        while i < components.len()
            invariant
                i <= components@.len(),
                parts == seq![variant@] + byte_views(components@).take(i as int),
                out@ == frames(parts),
            decreases components@.len() - i,
        {
            append_frame(&mut out, components[i].as_slice());
            proof {
                crate::encoding::lemma_frames_push(parts, components@[i as int]@);
                parts = parts.push(components@[i as int]@);
                assert(byte_views(components@).take(i + 1) == byte_views(components@).take(
                    i as int,
                ).push(components@[i as int]@));
            }
            i = i + 1;
        }
        assert(byte_views(components@).take(i as int) == byte_views(components@));
        Record { execution, fingerprint: out }
    }
}

/// Fingerprints keep the boundaries between their parts: two fingerprints are
/// equal only when their variants and their component lists are equal.
pub proof fn fingerprint_is_injective(
    variant1: Seq<u8>,
    components1: Seq<Seq<u8>>,
    variant2: Seq<u8>,
    components2: Seq<Seq<u8>>,
)
    requires
        variant1.len() < pow256(8),
        variant2.len() < pow256(8),
        framable(components1),
        framable(components2),
        fingerprint(variant1, components1) == fingerprint(variant2, components2),
    ensures
        variant1 == variant2,
        components1 == components2,
{
    let p = seq![variant1] + components1;
    let q = seq![variant2] + components2;
    assert forall|i: int| 0 <= i < p.len() implies #[trigger] p[i].len() < pow256(8) by {
        if i > 0 {
            assert(p[i] == components1[i - 1]);
        }
    }
    assert forall|i: int| 0 <= i < q.len() implies #[trigger] q[i].len() < pow256(8) by {
        if i > 0 {
            assert(q[i] == components2[i - 1]);
        }
    }
    lemma_frames_injective(p, q);
    assert(variant1 == p[0]);
    assert(components1 == p.drop_first());
    assert(components2 == q.drop_first());
}

} // verus!
