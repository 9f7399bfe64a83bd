//! How a queue drains when each unit needs a known number of polls.
//!
//! A unit is described here by the number of polls it still needs before it
//! completes (at least one while it sits in the queue). `countdown_pass` is
//! one poll pass over such a queue; `lemma_countdown_pass` shows that
//! `Executor::poll_with`, driven by a step that counts a unit down, leaves
//! exactly that queue, and `lemma_drains_within` bounds how many passes
//! drain it. `lemma_finished_leaves` holds of every pass, whatever the
//! reports: a unit reported finished is gone.
use crate::executor::{polled_by, retained};
use vstd::prelude::*;

verus! {

/// The outcome of the next poll of each unit: a unit that needs one more
/// poll completes on it, any other stays pending.
pub open spec fn outcomes(q: Seq<nat>) -> Seq<bool> {
    Seq::new(q.len(), |i: int| q[i] > 1)
}

/// The queue after one poll pass: finished units are gone, and each pending
/// unit, in its old order, needs one poll fewer.
pub open spec fn countdown_pass(q: Seq<nat>) -> Seq<nat> {
    retained(q, outcomes(q)).map_values(|k: nat| (k - 1) as nat)
}

/// The queue after `m` poll passes.
pub open spec fn countdown_passes(q: Seq<nat>, m: nat) -> Seq<nat>
    decreases m,
{
    if m == 0 {
        q
    } else {
        countdown_passes(countdown_pass(q), (m - 1) as nat)
    }
}

/// Keeping units and then mapping them is mapping and then keeping.
pub proof fn lemma_retained_map<A, B>(q: Seq<A>, keep: Seq<bool>, f: spec_fn(A) -> B)
    requires
        q.len() == keep.len(),
    ensures
        retained(q.map_values(f), keep) == retained(q, keep).map_values(f),
    decreases q.len(),
{
    if q.len() > 0 {
        assert(q.map_values(f).drop_last() =~= q.drop_last().map_values(f));
        lemma_retained_map(q.drop_last(), keep.drop_last(), f);
        let before = retained(q.drop_last(), keep.drop_last());
        assert(before.push(q.last()).map_values(f) =~= before.map_values(f).push(f(q.last())));
    }
}

/// A pass of `Executor::poll_with` whose step reports a unit pending exactly
/// when it needs more than one poll, and gives it back needing one poll
/// fewer, leaves the queue that `countdown_pass` describes. `count` says
/// how many polls a unit still needs.
pub proof fn lemma_countdown_pass<T, F: Fn(T) -> (bool, T)>(
    step: F,
    count: spec_fn(T) -> nat,
    before: Seq<T>,
    pending: Seq<bool>,
    after: Seq<T>,
)
    requires
        forall|t: T, r: (bool, T)|
            1 <= count(t) && #[trigger] step.ensures((t,), r) ==> r.0 == (count(t) > 1) && count(
                r.1,
            ) == count(t) - 1,
        forall|i: int| 0 <= i < before.len() ==> 1 <= #[trigger] count(before[i]),
        polled_by(step, before, pending, after),
    ensures
        retained(after, pending).map_values(count) == countdown_pass(before.map_values(count)),
{
    let dec = |k: nat| (k - 1) as nat;
    let counts = before.map_values(count);
    assert(pending =~= outcomes(counts)) by {
        assert forall|i: int| 0 <= i < before.len() implies pending[i] == outcomes(counts)[i] by {
            assert(step.ensures((before[i],), (pending[i], after[i])));
            assert(1 <= count(before[i]));
        }
    }
    assert(after.map_values(count) =~= counts.map_values(dec)) by {
        assert forall|i: int| 0 <= i < before.len() implies after.map_values(count)[i]
            == counts.map_values(dec)[i] by {
            assert(step.ensures((before[i],), (pending[i], after[i])));
            assert(1 <= count(before[i]));
        }
    }
    lemma_retained_map(after, pending, count);
    lemma_retained_map(counts, pending, dec);
}

/// A unit whose poll finished is not in the queue a pass leaves, when no
/// unit is queued twice: a completed unit is never polled again.
pub proof fn lemma_finished_leaves<T>(q: Seq<T>, keep: Seq<bool>, i: int)
    requires
        q.len() == keep.len(),
        q.no_duplicates(),
        0 <= i < q.len(),
        !keep[i],
    ensures
        !retained(q, keep).contains(q[i]),
{
    lemma_retained_from(q, keep);
    if retained(q, keep).contains(q[i]) {
        let j = choose|j: int| 0 <= j < retained(q, keep).len() && retained(q, keep)[j] == q[i];
        let k = choose|k: int| 0 <= k < q.len() && keep[k] && #[trigger] retained(q, keep)[j] == q[k];
        assert(q[k] == q[i]);
    }
}

/// Each unit kept by a pass is a unit of the queue whose outcome was pending.
pub proof fn lemma_retained_from<T>(q: Seq<T>, keep: Seq<bool>)
    requires
        q.len() == keep.len(),
    ensures
        forall|j: int|
            0 <= j < retained(q, keep).len() ==> exists|i: int|
                0 <= i < q.len() && keep[i] && #[trigger] retained(q, keep)[j] == q[i],
    decreases q.len(),
{
    if q.len() > 0 {
        lemma_retained_from(q.drop_last(), keep.drop_last());
        let before = retained(q.drop_last(), keep.drop_last());
        assert forall|j: int| 0 <= j < retained(q, keep).len() implies exists|i: int|
            0 <= i < q.len() && keep[i] && #[trigger] retained(q, keep)[j] == q[i] by {
            if j < before.len() {
                let i = choose|i: int|
                    0 <= i < q.drop_last().len() && keep.drop_last()[i] && before[j]
                        == q.drop_last()[i];
                assert(retained(q, keep)[j] == q[i]);
            } else {
                assert(retained(q, keep)[j] == q[q.len() - 1]);
            }
        }
    }
}

/// A pass in which every unit stays pending puts each unit back once, in
/// the order the queue had: the next pass visits them in the same order.
pub proof fn lemma_all_pending_keeps_order<T>(q: Seq<T>)
    ensures
        retained(q, Seq::new(q.len(), |i: int| true)) == q,
    decreases q.len(),
{
    if q.len() > 0 {
        let keep = Seq::new(q.len(), |i: int| true);
        assert(keep.drop_last() =~= Seq::new(q.drop_last().len(), |i: int| true));
        lemma_all_pending_keeps_order(q.drop_last());
        assert(q.drop_last().push(q.last()) =~= q);
    }
}

/// A pass over units that each need between 1 and `m + 1` polls leaves only
/// units that need between 1 and `m` polls.
proof fn lemma_pass_bounds(q: Seq<nat>, m: nat)
    requires
        forall|i: int| 0 <= i < q.len() ==> 1 <= #[trigger] q[i] <= m + 1,
    ensures
        forall|j: int| 0 <= j < countdown_pass(q).len() ==> 1 <= #[trigger] countdown_pass(q)[j] <= m,
{
    lemma_retained_from(q, outcomes(q));
    let kept = retained(q, outcomes(q));
    assert forall|j: int| 0 <= j < countdown_pass(q).len() implies 1 <= #[trigger] countdown_pass(q)[j]
        <= m by {
        let i = choose|i: int| 0 <= i < q.len() && outcomes(q)[i] && kept[j] == q[i];
        assert(q[i] > 1);
    }
}

/// Units that each need at most `m` polls are all finished after `m` passes,
/// and after every earlier pass each unit still in the queue needs at least
/// one more poll: no unit stays queued once it has completed.
pub proof fn lemma_drains_within(q: Seq<nat>, m: nat)
    requires
        forall|i: int| 0 <= i < q.len() ==> 1 <= #[trigger] q[i] <= m,
    ensures
        countdown_passes(q, m).len() == 0,
        forall|p: nat, j: int|
            p <= m && 0 <= j < countdown_passes(q, p).len() ==> 1 <= #[trigger] countdown_passes(
                q,
                p,
            )[j],
    decreases m,
{
    if m == 0 {
        if q.len() > 0 {
            assert(1 <= q[0] <= 0);
        }
    } else {
        lemma_pass_bounds(q, (m - 1) as nat);
        lemma_drains_within(countdown_pass(q), (m - 1) as nat);
        assert forall|p: nat, j: int|
            p <= m && 0 <= j < countdown_passes(q, p).len() implies 1 <= #[trigger] countdown_passes(
            q,
            p,
        )[j] by {
            if p > 0 {
                assert(countdown_passes(q, p) == countdown_passes(countdown_pass(q), (p - 1) as nat));
            }
        }
    }
}

} // verus!
