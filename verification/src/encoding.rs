//! Length-prefixed byte framing: each part is preceded by its length as a
//! big-endian `u64`, so that a sequence of parts can be read back unambiguously.

use vstd::prelude::*;

verus! {

/// `256` raised to the power `k`.
pub open spec fn pow256(k: nat) -> nat
    decreases k,
{
    if k == 0 {
        1
    } else {
        256 * pow256((k - 1) as nat)
    }
}

/// The `k` low-order base-256 digits of `n`, most significant first.
pub open spec fn be_bytes(n: nat, k: nat) -> Seq<u8>
    decreases k,
{
    if k == 0 {
        Seq::empty()
    } else {
        be_bytes(n / 256, (k - 1) as nat).push((n % 256) as u8)
    }
}

/// The big-endian encoding of `n` as a `u64`.
pub open spec fn be_u64(n: nat) -> Seq<u8> {
    be_bytes(n, 8)
}

/// `s` preceded by its length as a big-endian `u64`.
pub open spec fn frame(s: Seq<u8>) -> Seq<u8> {
    be_u64(s.len()) + s
}

/// The frames of `parts`, one after another.
pub open spec fn frames(parts: Seq<Seq<u8>>) -> Seq<u8>
    decreases parts.len(),
{
    if parts.len() == 0 {
        Seq::empty()
    } else {
        frame(parts[0]) + frames(parts.drop_first())
    }
}

/// Every part is short enough for its length to fit in a `u64`.
pub open spec fn framable(parts: Seq<Seq<u8>>) -> bool {
    forall|i: int| 0 <= i < parts.len() ==> #[trigger] parts[i].len() < pow256(8)
}

pub proof fn lemma_pow256_8()
    ensures
        pow256(8) == 0x1_0000_0000_0000_0000,
{
    reveal_with_fuel(pow256, 9);
}

pub proof fn lemma_be_bytes_len(n: nat, k: nat)
    ensures
        be_bytes(n, k).len() == k,
    decreases k,
{
    if k > 0 {
        lemma_be_bytes_len(n / 256, (k - 1) as nat);
    }
}

/// Two numbers below `256^k` with the same `k` digits are equal.
pub proof fn lemma_be_bytes_injective(n: nat, m: nat, k: nat)
    requires
        n < pow256(k),
        m < pow256(k),
        be_bytes(n, k) == be_bytes(m, k),
    ensures
        n == m,
    decreases k,
{
    if k > 0 {
        let p = pow256((k - 1) as nat);
        let a = be_bytes(n / 256, (k - 1) as nat);
        let b = be_bytes(m / 256, (k - 1) as nat);
        lemma_be_bytes_len(n / 256, (k - 1) as nat);
        lemma_be_bytes_len(m / 256, (k - 1) as nat);
        assert(a == be_bytes(n, k).drop_last());
        assert(b == be_bytes(m, k).drop_last());
        assert((n % 256) as u8 == be_bytes(n, k).last());
        assert((m % 256) as u8 == be_bytes(m, k).last());
        assert(n / 256 < p) by (nonlinear_arith)
            requires
                n < 256 * p,
        ;
        assert(m / 256 < p) by (nonlinear_arith)
            requires
                m < 256 * p,
        ;
        lemma_be_bytes_injective(n / 256, m / 256, (k - 1) as nat);
    }
}

/// A frame is read back from the front of a byte string: equal framed
/// prefixes have equal contents and leave equal remainders.
pub proof fn lemma_frame_prefix(a: Seq<u8>, b: Seq<u8>, x: Seq<u8>, y: Seq<u8>)
    requires
        a.len() < pow256(8),
        b.len() < pow256(8),
        frame(a) + x == frame(b) + y,
    ensures
        a == b,
        x == y,
{
    let s = frame(a) + x;
    lemma_be_bytes_len(a.len(), 8);
    lemma_be_bytes_len(b.len(), 8);
    assert(s.take(8) == be_u64(a.len()));
    assert((frame(b) + y).take(8) == be_u64(b.len()));
    lemma_be_bytes_injective(a.len(), b.len(), 8);
    assert(s.subrange(8, 8 + a.len() as int) == a);
    assert((frame(b) + y).subrange(8, 8 + b.len() as int) == b);
    assert(s.skip(8 + a.len() as int) == x);
    assert((frame(b) + y).skip(8 + b.len() as int) == y);
}

/// Framing is injective: distinct lists of parts never share an encoding,
/// whatever the boundaries between their parts.
pub proof fn lemma_frames_injective(p: Seq<Seq<u8>>, q: Seq<Seq<u8>>)
    requires
        framable(p),
        framable(q),
        frames(p) == frames(q),
    ensures
        p == q,
    decreases p.len(),
{
    if p.len() == 0 {
        if q.len() != 0 {
            lemma_be_bytes_len(q[0].len(), 8);
            assert(frames(q).len() >= 8);
        }
        assert(p == q);
    } else if q.len() == 0 {
        lemma_be_bytes_len(p[0].len(), 8);
        assert(frames(p).len() >= 8);
    } else {
        assert(p[0].len() < pow256(8));
        assert(q[0].len() < pow256(8));
        lemma_frame_prefix(p[0], q[0], frames(p.drop_first()), frames(q.drop_first()));
        assert(framable(p.drop_first())) by {
            assert forall|i: int| 0 <= i < p.drop_first().len() implies #[trigger] p.drop_first()[i].len() < pow256(8) by {
                assert(p.drop_first()[i] == p[i + 1]);
            }
        }
        assert(framable(q.drop_first())) by {
            assert forall|i: int| 0 <= i < q.drop_first().len() implies #[trigger] q.drop_first()[i].len() < pow256(8) by {
                assert(q.drop_first()[i] == q[i + 1]);
            }
        }
        lemma_frames_injective(p.drop_first(), q.drop_first());
        assert(p == seq![p[0]] + p.drop_first());
        assert(q == seq![q[0]] + q.drop_first());
    }
}

pub proof fn lemma_frames_push(parts: Seq<Seq<u8>>, last: Seq<u8>)
    ensures
        frames(parts.push(last)) == frames(parts) + frame(last),
    decreases parts.len(),
{
    if parts.len() == 0 {
        let pushed = parts.push(last);
        assert(pushed.drop_first() == Seq::<Seq<u8>>::empty());
        assert(pushed[0] == last);
        assert(frames(pushed.drop_first()) == Seq::<u8>::empty());
        assert(frames(parts) == Seq::<u8>::empty());
        assert(frames(pushed) == frame(last) + Seq::<u8>::empty());
        assert(frame(last) + Seq::<u8>::empty() == frame(last));
    } else {
        assert(parts.push(last).drop_first() == parts.drop_first().push(last));
        lemma_frames_push(parts.drop_first(), last);
        assert(frames(parts.push(last)) == frame(parts[0]) + (frames(parts.drop_first()) + frame(last)));
    }
}

/// The `k` low-order base-256 digits of `n`, most significant first.
pub fn be_bytes_of(n: u64, k: usize) -> (r: Vec<u8>)
    requires
        k <= 8,
    ensures
        r@ == be_bytes(n as nat, k as nat),
    decreases k,
{
    if k == 0 {
        Vec::new()
    } else {
        let mut r = be_bytes_of(n / 256, k - 1);
        r.push((n % 256) as u8);
        r
    }
}

/// Appends `part` to `out`.
pub fn append_bytes(out: &mut Vec<u8>, part: &[u8])
    ensures
        final(out)@ == old(out)@ + part@,
{
    let mut i: usize = 0;
    while i < part.len()
        invariant
            i <= part@.len(),
            out@ == old(out)@ + part@.take(i as int),
        decreases part@.len() - i,
    {
        out.push(part[i]);
        i = i + 1;
        assert(part@.take(i as int) == part@.take((i - 1) as int).push(part@[i - 1]));
    }
    assert(part@.take(i as int) == part@);
}

/// Appends the frame of `part` to `out`.
pub fn append_frame(out: &mut Vec<u8>, part: &[u8])
    ensures
        final(out)@ == old(out)@ + frame(part@),
{
    let length = be_bytes_of(part.len() as u64, 8);
    append_bytes(out, length.as_slice());
    append_bytes(out, part);
    assert(old(out)@ + length@ + part@ == old(out)@ + frame(part@));
}

} // verus!
