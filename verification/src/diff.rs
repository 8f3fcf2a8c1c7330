//! Line diffs: which items of an old sequence are removed and which of a new
//! one are added, so that the items kept in both are the same.

use vstd::prelude::*;
use imara_diff::{Algorithm, Diff, InternedInput};
use crate::record::byte_views;

verus! {

/// The flags `imara_diff`'s Myers algorithm computes for `before` and `after`:
/// which items of `before` are removed, and which of `after` are added.
pub uninterp spec fn myers_diff(before: Seq<Seq<u8>>, after: Seq<Seq<u8>>) -> (Seq<bool>, Seq<bool>);

/// The number of unflagged items among `flags`.
pub open spec fn kept_count(flags: Seq<bool>) -> nat
    decreases flags.len(),
{
    if flags.len() == 0 {
        0
    } else {
        kept_count(flags.drop_last()) + if flags.last() {
            0nat
        } else {
            1nat
        }
    }
}

/// The items of `s` whose flag is not set, in order.
pub open spec fn kept<T>(s: Seq<T>, flags: Seq<bool>) -> Seq<T>
    decreases s.len(),
{
    if s.len() == 0 {
        Seq::empty()
    } else if flags[s.len() - 1] {
        kept(s.drop_last(), flags)
    } else {
        kept(s.drop_last(), flags).push(s.last())
    }
}

/// Calls `Diff::compute` with `Algorithm::Myers` on `before` and `after`, and
/// reads `is_removed` and `is_added` for each item. Stated: the flags are the
/// named function of the inputs, one per item, and, the result being an edit
/// script from `before` to `after`, the items neither removed nor added are
/// the same in both; and as the items common to the start of both inputs are
/// set aside before the algorithm runs, none of them is flagged (so nothing of
/// two equal inputs is).
/// It panics on inputs of `i32::MAX` items or more.
#[verifier::external_body]
pub(crate) fn myers(before: &[Vec<u8>], after: &[Vec<u8>]) -> (r: (Vec<bool>, Vec<bool>))
    requires
        before@.len() < i32::MAX,
        after@.len() < i32::MAX,
    ensures
        (r.0@, r.1@) == myers_diff(byte_views(before@), byte_views(after@)),
        r.0@.len() == before@.len(),
        r.1@.len() == after@.len(),
        kept(byte_views(before@), r.0@) == kept(byte_views(after@), r.1@),
        byte_views(before@) == byte_views(after@) ==> (forall|i: int|
            0 <= i < r.0@.len() ==> !#[trigger] r.0@[i]) && (forall|i: int|
            0 <= i < r.1@.len() ==> !#[trigger] r.1@[i]),
        forall|k: int|
            0 <= k < before@.len() && k < after@.len() && byte_views(before@).take(k + 1)
                == byte_views(after@).take(k + 1) ==> !#[trigger] r.0@[k] && !r.1@[k],
{
    let mut input = InternedInput::default();
    input.update_before(before.iter().cloned());
    input.update_after(after.iter().cloned());
    let diff = Diff::compute(Algorithm::Myers, &input);
    let removed = (0..before.len() as u32).map(|i| diff.is_removed(i)).collect();
    let added = (0..after.len() as u32).map(|i| diff.is_added(i)).collect();
    (removed, added)
}

pub proof fn lemma_kept_len<T>(s: Seq<T>, flags: Seq<bool>)
    requires
        flags.len() == s.len(),
    ensures
        kept(s, flags).len() == kept_count(flags),
    decreases s.len(),
{
    if s.len() > 0 {
        assert(flags.drop_last().len() == s.drop_last().len());
        lemma_kept_flags_prefix(s.drop_last(), flags, flags.drop_last());
        lemma_kept_len(s.drop_last(), flags.drop_last());
    }
}

/// `kept` only reads the flags of the items it is given.
pub proof fn lemma_kept_flags_prefix<T>(s: Seq<T>, flags: Seq<bool>, prefix: Seq<bool>)
    requires
        s.len() <= prefix.len() <= flags.len(),
        prefix == flags.take(prefix.len() as int),
    ensures
        kept(s, flags) == kept(s, prefix),
    decreases s.len(),
{
    if s.len() > 0 {
        lemma_kept_flags_prefix(s.drop_last(), flags, prefix);
    }
}

/// Counting unflagged items of a prefix, one item further.
pub proof fn lemma_kept_count_step(flags: Seq<bool>, i: int)
    requires
        0 <= i < flags.len(),
    ensures
        kept_count(flags.take(i + 1)) == kept_count(flags.take(i)) + if flags[i] {
            0nat
        } else {
            1nat
        },
{
    assert(flags.take(i + 1).drop_last() == flags.take(i));
}

/// Where nothing is flagged, every item of a prefix is counted.
pub proof fn lemma_kept_count_unflagged(flags: Seq<bool>, i: int)
    requires
        0 <= i <= flags.len(),
        forall|k: int| 0 <= k < flags.len() ==> !#[trigger] flags[k],
    ensures
        kept_count(flags.take(i)) == i,
    decreases i,
{
    if i > 0 {
        lemma_kept_count_step(flags, i - 1);
        lemma_kept_count_unflagged(flags, i - 1);
    }
}

/// Where nothing before `i` is flagged, every item of that prefix is counted.
pub proof fn lemma_kept_count_prefix_unflagged(flags: Seq<bool>, i: int)
    requires
        0 <= i <= flags.len(),
        forall|k: int| 0 <= k < i ==> !#[trigger] flags[k],
    ensures
        kept_count(flags.take(i)) == i,
    decreases i,
{
    if i > 0 {
        lemma_kept_count_step(flags, i - 1);
        lemma_kept_count_prefix_unflagged(flags, i - 1);
    }
}

/// Counting unflagged items never decreases along prefixes.
pub proof fn lemma_kept_count_monotonic(flags: Seq<bool>, i: int, j: int)
    requires
        0 <= i <= j <= flags.len(),
    ensures
        kept_count(flags.take(i)) <= kept_count(flags.take(j)),
    decreases j - i,
{
    if i < j {
        lemma_kept_count_step(flags, j - 1);
        lemma_kept_count_monotonic(flags, i, j - 1);
    }
}

/// The unflagged item at `j` is the one the kept items hold at its count.
pub proof fn lemma_kept_index<T>(s: Seq<T>, flags: Seq<bool>, j: int)
    requires
        flags.len() == s.len(),
        0 <= j < s.len(),
        !flags[j],
    ensures
        kept_count(flags.take(j)) < kept(s, flags).len(),
        kept(s, flags)[kept_count(flags.take(j)) as int] == s[j],
    decreases s.len(),
{
    let n = s.len() - 1;
    lemma_kept_flags_prefix(s.drop_last(), flags, flags.drop_last());
    lemma_kept_len(s.drop_last(), flags.drop_last());
    assert(flags.drop_last() == flags.take(n));
    if j == n {
        assert(flags.take(j) == flags.drop_last());
    } else {
        lemma_kept_index(s.drop_last(), flags.drop_last(), j);
        assert(flags.drop_last().take(j) == flags.take(j));
        lemma_kept_count_step(flags, j);
        lemma_kept_count_monotonic(flags, j + 1, n);
    }
}

/// Items matched by a diff are equal: the unflagged item at `j` of `s` and the
/// unflagged item at `i` of `t` that have as many unflagged items before them
/// stand for the same kept item.
pub proof fn lemma_matched_items_equal<T>(
    s: Seq<T>,
    f: Seq<bool>,
    t: Seq<T>,
    g: Seq<bool>,
    j: int,
    i: int,
)
    requires
        f.len() == s.len(),
        g.len() == t.len(),
        kept(s, f) == kept(t, g),
        0 <= j < s.len(),
        0 <= i < t.len(),
        !f[j],
        !g[i],
        kept_count(f.take(j)) == kept_count(g.take(i)),
    ensures
        s[j] == t[i],
{
    lemma_kept_index(s, f, j);
    lemma_kept_index(t, g, i);
}

} // verus!
