use std::collections::VecDeque;
use vstd::prelude::*;

verus! {

/// A unit of work the executor can drive.
///
/// `is_pending` advances the unit by one step and reports whether it is
/// still unfinished (`true`) or has completed (`false`).
pub trait Pendable {
    fn is_pending(&self) -> bool;
}

/// The units of `q` whose outcome in `keep` is `true`, in their order in `q`.
pub open spec fn retained<T>(q: Seq<T>, keep: Seq<bool>) -> Seq<T>
    recommends
        q.len() == keep.len(),
    decreases q.len(),
{
    if q.len() == 0 {
        Seq::empty()
    } else {
        let before = retained(q.drop_last(), keep.drop_last());
        if keep.last() {
            before.push(q.last())
        } else {
            before
        }
    }
}

/// `after` holds what `step` gave back for each unit of `before`, in order,
/// and `pending` what it reported: each unit was handed to `step` once.
pub open spec fn polled_by<T, F: Fn(T) -> (bool, T)>(
    step: F,
    before: Seq<T>,
    pending: Seq<bool>,
    after: Seq<T>,
) -> bool {
    &&& pending.len() == before.len()
    &&& after.len() == before.len()
    &&& forall|i: int|
        0 <= i < before.len() ==> step.ensures((before[i],), (pending[i], #[trigger] after[i]))
}

/// The executor: a FIFO queue of units, marked active on first use.
pub struct Executor<T> {
    tasks: VecDeque<T>,
    active: bool,
}

impl<T> Executor<T> {
    /// The units waiting to be polled, front first; empty before first use.
    pub closed spec fn queue(&self) -> Seq<T> {
        self.tasks@
    }

    /// Whether the executor has been used; once active it stays active.
    pub closed spec fn active(&self) -> bool {
        self.active
    }

    /// An executor that has not been used yet, with an empty queue.
    pub fn new() -> (r: Self)
        ensures
            !r.active(),
            r.queue() == Seq::<T>::empty(),
    {
        Executor { tasks: VecDeque::new(), active: false }
    }

    /// Whether the executor has been used.
    pub fn is_active(&self) -> (r: bool)
        ensures
            r == self.active(),
    {
        self.active
    }

    /// The number of units waiting to be polled.
    pub fn len(&self) -> (r: usize)
        ensures
            r == self.queue().len(),
    {
        self.tasks.len()
    }

    /// Puts `task` at the back of the queue.
    fn add_task(&mut self, task: T)
        ensures
            final(self).active(),
            final(self).queue() == old(self).queue().push(task),
    {
        self.active = true;
        self.tasks.push_back(task);
    }

    /// Drives one poll pass with `step` as the poll. Each unit present when
    /// the pass starts is taken from the front and handed to `step` once;
    /// what `step` gives back goes to the end of the queue when `step`
    /// reports it still pending, and is dropped otherwise. Units are polled
    /// front first and the pass makes exactly as many polls as the queue held
    /// when it began. The queue stays in place throughout: should `step`
    /// panic, the units not yet polled and those already put back remain.
    /// Returns each poll's report, front first.
    pub fn poll_with<F: Fn(T) -> (bool, T)>(&mut self, step: &F) -> (pending: Vec<bool>)
        requires
            forall|t: T| step.requires((t,)),
        ensures
            final(self).active(),
            pending@.len() == old(self).queue().len(),
            exists|polled: Seq<T>|
                polled_by(*step, old(self).queue(), pending@, polled) && final(self).queue()
                    == retained(polled, pending@),
    {
        self.active = true;
        let ghost start = self.tasks@;
        let ghost mut polled: Seq<T> = Seq::empty();
        let mut pending: Vec<bool> = Vec::new();
        let n: usize = self.tasks.len();
        let mut i: usize = 0;
        while i < n
            invariant
                forall|t: T| step.requires((t,)),
                self.active,
                n == start.len(),
                i <= n,
                pending@.len() == i,
                polled.len() == i,
                forall|j: int|
                    0 <= j < i ==> step.ensures((start[j],), (pending@[j], #[trigger] polled[j])),
                self.tasks@ == start.subrange(i as int, n as int) + retained(polled, pending@),
            decreases n - i,
        {
            let ghost kept = retained(polled, pending@);
            assert(self.tasks@.len() > 0 && self.tasks@[0] == start[i as int]);
            let task = self.tasks.pop_front().unwrap();
            let (still, after) = step(task);
            proof {
                assert(polled.push(after).drop_last() =~= polled);
                assert(pending@.push(still).drop_last() =~= pending@);
                polled = polled.push(after);
            }
            pending.push(still);
            if still {
                self.tasks.push_back(after);
            }
            proof {
                if still {
                    assert(self.tasks@ =~= start.subrange(i + 1, n as int) + kept.push(after));
                } else {
                    assert(self.tasks@ =~= start.subrange(i + 1, n as int) + kept);
                }
            }
            i = i + 1;
        }
        proof {
            assert(self.tasks@ =~= retained(polled, pending@));
            assert(polled_by(*step, start, pending@, polled));
        }
        pending
    }
}

impl<T: Pendable> Executor<T> {
    /// Submits `task` at the back of the queue and drives one poll pass over
    /// the queue, the new unit included (it is polled last). Returns each
    /// poll's report, front first.
    pub fn run(&mut self, task: T) -> (pending: Vec<bool>)
        ensures
            final(self).active(),
            pending@.len() == old(self).queue().len() + 1,
            forall|i: int|
                0 <= i < pending@.len() ==> call_ensures(
                    T::is_pending,
                    (&old(self).queue().push(task)[i],),
                    #[trigger] pending@[i],
                ),
            final(self).queue() == retained(old(self).queue().push(task), pending@),
    {
        self.add_task(task);
        self.poll_tasks()
    }

    /// Drives one poll pass: each unit present when the pass starts is taken
    /// from the front and polled once with `is_pending`, then put back at the
    /// end if it reported itself pending and dropped if it finished. Returns
    /// the reports, front first; an empty queue is left empty and nothing is
    /// polled.
    pub fn poll_tasks(&mut self) -> (pending: Vec<bool>)
        ensures
            final(self).active(),
            pending@.len() == old(self).queue().len(),
            forall|i: int|
                0 <= i < pending@.len() ==> call_ensures(
                    T::is_pending,
                    (&old(self).queue()[i],),
                    #[trigger] pending@[i],
                ),
            final(self).queue() == retained(old(self).queue(), pending@),
            old(self).queue().len() == 0 ==> final(self).queue().len() == 0,
    {
        let step = |t: T| -> (r: (bool, T))
            ensures
                r.1 == t,
                call_ensures(T::is_pending, (&t,), r.0),
            {
                let still = t.is_pending();
                (still, t)
            };
        let pending = self.poll_with(&step);
        proof {
            let polled = choose|polled: Seq<T>|
                polled_by(step, old(self).queue(), pending@, polled) && self.queue() == retained(
                    polled,
                    pending@,
                );
            assert(polled =~= old(self).queue());
            if old(self).queue().len() == 0 {
                assert(polled.len() == 0);
            }
        }
        pending
    }
}

} // verus!
