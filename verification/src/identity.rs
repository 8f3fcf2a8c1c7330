//! Stable identifiers for imported history entries.

use vstd::prelude::*;
use vstd::utf8::encode_utf8;
use crate::encoding::{append_frame, be_bytes_of, be_u64, framable, frames, lemma_be_bytes_len, lemma_frames_injective, lemma_frames_push, lemma_pow256_8, pow256};
use crate::ids::{new_v5, uuid_v5};
use crate::record::byte_views;

verus! {

/// The UUID namespace of entry identifiers.
pub const NAMESPACE: u128 = 0x81d6d1f2_748f_5b72_89b6_bf87e06a762d;

/// What identifies an entry within its history: a scheme and its fields.
#[derive(Clone, Debug, PartialEq, Eq, Hash)]
pub struct Identity {
    pub fields: Vec<Vec<u8>>,
    pub scheme: Vec<u8>,
}

/// The name an identity's UUID is derived from: the scheme, the format, each
/// field and the occurrence, each framed by its length.
pub open spec fn identity_name(
    scheme: Seq<u8>,
    format: Seq<u8>,
    fields: Seq<Seq<u8>>,
    occurrence: u64,
) -> Seq<u8> {
    frames(seq![scheme, format] + fields + seq![be_u64(occurrence as nat)])
}

impl Identity {
    /// The identifier of the `occurrence`-th entry of this identity in a
    /// history of `format`.
    pub fn identifier(&self, format: &str, occurrence: u64) -> (r: u128)
        ensures
            r == uuid_v5(
                NAMESPACE,
                identity_name(
                    self.scheme@,
                    encode_utf8(format@),
                    byte_views(self.fields@),
                    occurrence,
                ),
            ),
            crate::ids::is_v5(r),
    {
        let mut name: Vec<u8> = Vec::new();
        append_frame(&mut name, self.scheme.as_slice());
        append_frame(&mut name, format.as_bytes());
        let ghost mut parts: Seq<Seq<u8>> = seq![self.scheme@, encode_utf8(format@)];
        proof {
            let one: Seq<Seq<u8>> = seq![self.scheme@];
            assert(one.drop_first() == Seq::<Seq<u8>>::empty());
            assert(frames(one) == crate::encoding::frame(self.scheme@) + frames(one.drop_first()));
            assert(frames(one) == crate::encoding::frame(self.scheme@));
            lemma_frames_push(one, encode_utf8(format@));
            assert(one.push(encode_utf8(format@)) == parts);
        }
        let mut i: usize = 0;
        while i < self.fields.len()
            invariant
                i <= self.fields@.len(),
                parts == seq![self.scheme@, encode_utf8(format@)] + byte_views(self.fields@).take(
                    i as int,
                ),
                name@ == frames(parts),
            decreases self.fields@.len() - i,
        {
            append_frame(&mut name, self.fields[i].as_slice());
            proof {
                lemma_frames_push(parts, self.fields@[i as int]@);
                parts = parts.push(self.fields@[i as int]@);
                assert(byte_views(self.fields@).take(i + 1) == byte_views(self.fields@).take(
                    i as int,
                ).push(self.fields@[i as int]@));
            }
            i = i + 1;
        }
        assert(byte_views(self.fields@).take(i as int) == byte_views(self.fields@));
        let occurrence_bytes = be_bytes_of(occurrence, 8);
        append_frame(&mut name, occurrence_bytes.as_slice());
        proof {
            lemma_frames_push(parts, be_u64(occurrence as nat));
            assert(parts.push(be_u64(occurrence as nat)) == seq![self.scheme@, encode_utf8(format@)]
                + byte_views(self.fields@) + seq![be_u64(occurrence as nat)]);
        }
        new_v5(NAMESPACE, name.as_slice())
    }
}

/// Identity names keep their parts apart: two names are equal only when the
/// schemes, formats, field lists and occurrences are.
pub proof fn identity_name_is_injective(
    scheme1: Seq<u8>,
    format1: Seq<u8>,
    fields1: Seq<Seq<u8>>,
    occurrence1: u64,
    scheme2: Seq<u8>,
    format2: Seq<u8>,
    fields2: Seq<Seq<u8>>,
    occurrence2: u64,
)
    requires
        scheme1.len() < pow256(8),
        format1.len() < pow256(8),
        scheme2.len() < pow256(8),
        format2.len() < pow256(8),
        framable(fields1),
        framable(fields2),
        identity_name(scheme1, format1, fields1, occurrence1) == identity_name(
            scheme2,
            format2,
            fields2,
            occurrence2,
        ),
    ensures
        scheme1 == scheme2,
        format1 == format2,
        fields1 == fields2,
        occurrence1 == occurrence2,
{
    let p = seq![scheme1, format1] + fields1 + seq![be_u64(occurrence1 as nat)];
    let q = seq![scheme2, format2] + fields2 + seq![be_u64(occurrence2 as nat)];
    lemma_pow256_8();
    lemma_be_bytes_len(occurrence1 as nat, 8);
    lemma_be_bytes_len(occurrence2 as nat, 8);
    assert forall|i: int| 0 <= i < p.len() implies #[trigger] p[i].len() < pow256(8) by {
        if 2 <= i < p.len() - 1 {
            assert(p[i] == fields1[i - 2]);
        }
    }
    assert forall|i: int| 0 <= i < q.len() implies #[trigger] q[i].len() < pow256(8) by {
        if 2 <= i < q.len() - 1 {
            assert(q[i] == fields2[i - 2]);
        }
    }
    lemma_frames_injective(p, q);
    assert(p[0] == scheme1 && q[0] == scheme2);
    assert(p[1] == format1 && q[1] == format2);
    assert(fields1 == p.subrange(2, p.len() - 1));
    assert(fields2 == q.subrange(2, q.len() - 1));
    assert(p.last() == be_u64(occurrence1 as nat));
    assert(q.last() == be_u64(occurrence2 as nat));
    assert(occurrence1 < pow256(8) && occurrence2 < pow256(8));
    crate::encoding::lemma_be_bytes_injective(occurrence1 as nat, occurrence2 as nat, 8);
}

} // verus!

verus! {

/// An execution read from a history, with what identifies it there.
#[derive(Debug, PartialEq, Eq)]
pub struct Entry {
    pub execution: crate::execution::Execution,
    pub identity: Identity,
}

} // verus!
