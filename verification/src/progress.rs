//! Sequences that are rewritten front to back, one position at a time.

use vstd::prelude::*;

verus! {

/// Position `k` is the next to be rewritten: `done` is `before` from `k` on,
/// so it holds at `k` what `before` holds there.
pub proof fn lemma_next_is_untouched<T>(before: Seq<T>, done: Seq<T>, k: int)
    requires
        0 <= k < before.len(),
        done.len() == before.len(),
        done.skip(k) == before.skip(k),
    ensures
        done[k] == before[k],
{
    assert(done.skip(k)[0] == before.skip(k)[0]);
}

/// Position `k` was rewritten: where `done` was `before` from `k` on and
/// `now` is `done` but at `k`, `now` is `before` from `k + 1` on, and the
/// first `k + 1` positions are the first `k` and one more.
pub proof fn lemma_one_more_rewritten<T>(before: Seq<T>, done: Seq<T>, now: Seq<T>, k: int)
    requires
        0 <= k < before.len(),
        done.len() == before.len(),
        done.skip(k) == before.skip(k),
        now == done.update(k, now[k]),
    ensures
        now.skip(k + 1) == before.skip(k + 1),
        now.take(k) == done.take(k),
        now.take(k + 1).drop_last() == done.take(k),
        now.take(k + 1).last() == now[k],
        before.take(k + 1).drop_last() == before.take(k),
        before.take(k + 1).last() == before[k],
{
    assert(now.skip(k + 1) =~= before.skip(k + 1)) by {
        assert forall|i: int| 0 <= i < before.len() - (k + 1) implies #[trigger] now.skip(k + 1)[i]
            == before.skip(k + 1)[i] by {
            assert(done.skip(k)[i + 1] == before.skip(k)[i + 1]);
        }
    }
    assert(now.take(k) =~= done.take(k));
    assert(now.take(k + 1).drop_last() =~= done.take(k));
    assert(before.take(k + 1).drop_last() =~= before.take(k));
}

/// Every position was rewritten: the first `len` positions are all there
/// are.
pub proof fn lemma_all_rewritten<T>(before: Seq<T>, now: Seq<T>)
    requires
        now.len() == before.len(),
    ensures
        before.take(before.len() as int) == before,
        now.take(before.len() as int) == now,
{
    assert(before.take(before.len() as int) =~= before);
    assert(now.take(before.len() as int) =~= now);
}

} // verus!
