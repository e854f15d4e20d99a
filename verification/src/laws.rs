//! What holds of every scheduler, whatever its tasks do.
//!
//! The laws speak of moments and of the steps that lead from one to the
//! next. Each operation of `Timewrap` takes exactly one such step, as its
//! contract says, so what is proved here of runs of steps holds of every
//! sequence of calls.

use crate::moment::Moment;
use crate::wait_queue::has_due;
use crate::wait_queue::names_task;
use vstd::prelude::*;

verus! {

/// One thing that happens to a scheduler.
pub enum Step<F> {
    /// A task is spawned to wake at `at`.
    Spawn { at: int, task: F },
    /// The running task polls a wait for the instant `until`.
    Await { until: int },
    /// The driver takes out `entry` and resumes its task.
    Resume { entry: (int, usize) },
    /// The driver takes out `entry` and finds no task for it.
    Orphan { entry: (int, usize) },
    /// The driver finds nothing due and moves the clock to `horizon`.
    Idle { horizon: int },
    /// The flag of the latest suspension is read and cleared.
    TakeFlag,
    /// The resumption of the task `id` ends.
    Settle { id: usize, task: F, finished: bool },
    /// An outside event makes the task `id` runnable.
    Wake { id: usize },
}

impl<S, F> Moment<S, F> {
    /// The moment after `step`.
    pub open spec fn step(self, step: Step<F>) -> Self {
        match step {
            Step::Spawn { at, task } => self.spawned(at, task),
            Step::Await { until } => self.awaited(until),
            Step::Resume { entry } => self.resumed(entry),
            Step::Orphan { entry } => self.orphaned(entry),
            Step::Idle { horizon } => self.idled(horizon),
            Step::TakeFlag => self.flag_taken(),
            Step::Settle { id, task, finished } => self.settled(id, task, finished),
            Step::Wake { id } => self.woken(id),
        }
    }

    /// Whether the scheduler can take `step` at this moment: the driver only
    /// takes out a wake-up that is due no later than any other, only goes idle
    /// where nothing is due, and a task is spawned only while identifiers are
    /// left.
    pub open spec fn permits(self, step: Step<F>) -> bool {
        match step {
            Step::Spawn { at, task } => self.next_id < usize::MAX,
            Step::Resume { entry } => self.next_up(entry) && self.tasks.contains_key(entry.1),
            Step::Orphan { entry } => self.next_up(entry) && !self.tasks.contains_key(entry.1),
            Step::Idle { horizon } => !self.due(horizon),
            _ => true,
        }
    }

    /// Whether `step` leaves the past alone: it neither spawns a task to wake
    /// before the present instant nor drives to a horizon before it.
    pub open spec fn looks_ahead(self, step: Step<F>) -> bool {
        match step {
            Step::Spawn { at, task } => self.now <= at,
            Step::Idle { horizon } => self.now <= horizon,
            _ => true,
        }
    }

    /// The moment after all of `steps`, taken in order.
    pub open spec fn run(self, steps: Seq<Step<F>>) -> Self
        decreases steps.len(),
    {
        if steps.len() == 0 {
            self
        } else {
            self.run(steps.drop_last()).step(steps.last())
        }
    }

    /// Whether the scheduler can take each of `steps` in its turn.
    pub open spec fn permits_all(self, steps: Seq<Step<F>>) -> bool {
        forall|i: int|
            0 <= i < steps.len() ==> self.run(steps.take(i)).permits(#[trigger] steps[i])
    }

    /// Whether each of `steps` leaves the past alone in its turn.
    pub open spec fn looks_ahead_all(self, steps: Seq<Step<F>>) -> bool {
        forall|i: int|
            0 <= i < steps.len() ==> self.run(steps.take(i)).looks_ahead(#[trigger] steps[i])
    }
}

/// What a queue holds after an entry was added.
proof fn lemma_added<A>(queue: vstd::multiset::Multiset<A>, new: A, other: A)
    ensures
        queue.insert(new).contains(other) <==> other == new || queue.contains(other),
{
    broadcast use vstd::multiset::group_multiset_axioms;

}

/// What a queue holds after an entry was taken out was there before.
proof fn lemma_taken<A>(queue: vstd::multiset::Multiset<A>, gone: A, other: A)
    ensures
        queue.remove(gone).contains(other) ==> queue.contains(other),
        other != gone ==> (queue.remove(gone).contains(other) <==> queue.contains(other)),
{
    broadcast use vstd::multiset::group_multiset_axioms;

}

/// A run of `i + 1` steps is the run of the first `i` followed by one step.
pub proof fn lemma_run_unfolds<S, F>(m: Moment<S, F>, steps: Seq<Step<F>>, i: int)
    requires
        0 <= i < steps.len(),
    ensures
        m.run(steps.take(i + 1)) == m.run(steps.take(i)).step(steps[i]),
{
    assert(steps.take(i + 1).drop_last() =~= steps.take(i));
    assert(steps.take(i + 1).last() == steps[i]);
}

/// One step that leaves the past alone never turns the clock back, and
/// leaves no wake-up in the past.
pub proof fn lemma_step_keeps_time<S, F>(m: Moment<S, F>, step: Step<F>)
    requires
        m.timely(),
        m.permits(step),
        m.looks_ahead(step),
    ensures
        m.now <= m.step(step).now,
        m.step(step).timely(),
{
    let n = m.step(step);
    assert forall|other: (int, usize)| #[trigger] n.queue.contains(other) implies n.now
        <= other.0 by {
        match step {
            Step::Spawn { at, task } => {
                lemma_added(m.queue, (at, m.next_id), other);
            },
            Step::Await { until } => {
                lemma_added(m.queue, (until, m.current), other);
            },
            Step::Resume { entry } => {
                lemma_taken(m.queue, entry, other);
            },
            Step::Orphan { entry } => {
                lemma_taken(m.queue, entry, other);
            },
            Step::Idle { horizon } => {
                if other.0 <= horizon {
                    assert(has_due(m.queue, horizon));
                }
            },
            Step::Wake { id } => {
                lemma_added(m.queue, (m.now, id), other);
            },
            _ => {},
        }
    }
}

/// Monotone clock: along any run of steps that leave the past alone, from a
/// moment with no wake-up in the past, the clock never shows an earlier
/// instant than it showed before.
pub proof fn lemma_clock_is_monotone<S, F>(m: Moment<S, F>, steps: Seq<Step<F>>, i: int, j: int)
    requires
        m.timely(),
        m.permits_all(steps),
        m.looks_ahead_all(steps),
        0 <= i <= j <= steps.len(),
    ensures
        m.run(steps.take(i)).now <= m.run(steps.take(j)).now,
        m.run(steps.take(j)).timely(),
    decreases j,
{
    if j == 0 {
        assert(steps.take(0) =~= Seq::<Step<F>>::empty());
    } else {
        lemma_clock_is_monotone(m, steps, 0, j - 1);
        lemma_run_unfolds(m, steps, j - 1);
        lemma_step_keeps_time(m.run(steps.take(j - 1)), steps[j - 1]);
        if i < j {
            lemma_clock_is_monotone(m, steps, i, j - 1);
        }
    }
}

/// Horizon: when the driver goes idle at `horizon`, the clock shows it and
/// every wake-up that is left lies after it.
pub proof fn lemma_idle_at_horizon<S, F>(m: Moment<S, F>, horizon: int)
    requires
        !m.due(horizon),
    ensures
        m.idled(horizon).now == horizon,
        forall|entry: (int, usize)| #[trigger]
            m.idled(horizon).queue.contains(entry) ==> horizon < entry.0,
{
    assert forall|entry: (int, usize)| #[trigger]
        m.idled(horizon).queue.contains(entry) implies horizon < entry.0 by {
        if entry.0 <= horizon {
            assert(has_due(m.queue, horizon));
        }
    }
}

/// Wake ordering: while a wake-up for an earlier instant is pending, the
/// driver takes out none for a later one.
pub proof fn lemma_earlier_goes_first<S, F>(
    m: Moment<S, F>,
    earlier: (int, usize),
    later: (int, usize),
)
    requires
        m.queue.contains(earlier),
        earlier.0 < later.0,
    ensures
        !m.next_up(later),
        !m.permits(Step::Resume { entry: later }),
        !m.permits(Step::Orphan { entry: later }),
{
}

/// Wake ordering along a run: each wake-up that the driver takes out is due
/// no earlier than the one it took out before.
pub proof fn lemma_wakeups_ascend<S, F>(m: Moment<S, F>, steps: Seq<Step<F>>, i: int, j: int)
    requires
        m.timely(),
        m.permits_all(steps),
        m.looks_ahead_all(steps),
        0 <= i < j < steps.len(),
        steps[i] is Resume,
        steps[j] is Resume,
    ensures
        steps[i]->Resume_entry.0 <= steps[j]->Resume_entry.0,
{
    lemma_run_unfolds(m, steps, i);
    lemma_run_unfolds(m, steps, j);
    lemma_clock_is_monotone(m, steps, i + 1, j + 1);
}

/// Delay contract, first half: a wait for the instant that lies `span` after
/// the present one is over at once where `span` is not positive, and
/// otherwise files a wake-up for the running task at exactly that instant.
pub proof fn lemma_delay_files_wakeup<S, F>(m: Moment<S, F>, span: int)
    ensures
        span <= 0 ==> m.awaited(m.now + span) == m,
        span > 0 ==> m.awaited(m.now + span).queue.contains((m.now + span, m.current)),
        span > 0 ==> m.awaited(m.now + span).by_time,
{
    broadcast use vstd::multiset::group_multiset_axioms;

}

/// Delay contract, second half: a task that is resumed while its wake-up for
/// `until` is pending, and finds that the clock has reached `until`, finds it
/// at exactly `until`; its wait is then over without a trace.
pub proof fn lemma_delay_ends_on_time<S, F>(
    m: Moment<S, F>,
    until: int,
    id: usize,
    entry: (int, usize),
)
    requires
        m.queue.contains((until, id)),
        m.permits(Step::Resume { entry }),
        entry.1 == id,
        until <= m.resumed(entry).now,
    ensures
        m.resumed(entry).now == until,
        m.resumed(entry).awaited(until) == m.resumed(entry),
{
}

/// Identifiers stay fresh: every step keeps the identifiers in use below the
/// next one to be handed out, provided that a task which is settled carries
/// an identifier that was handed out before.
pub proof fn lemma_step_keeps_bound<S, F>(m: Moment<S, F>, step: Step<F>)
    requires
        m.bounded(),
        m.permits(step),
        step matches Step::Settle { id, .. } ==> id < m.next_id,
    ensures
        m.step(step).bounded(),
        m.next_id <= m.step(step).next_id,
{
    let n = m.step(step);
    assert forall|other: (int, usize)| #[trigger] n.queue.contains(other) implies other.1
        < n.next_id by {
        match step {
            Step::Spawn { at, task } => {
                lemma_added(m.queue, (at, m.next_id), other);
            },
            Step::Await { until } => {
                lemma_added(m.queue, (until, m.current), other);
            },
            Step::Resume { entry } => {
                lemma_taken(m.queue, entry, other);
            },
            Step::Orphan { entry } => {
                lemma_taken(m.queue, entry, other);
            },
            Step::Wake { id } => {
                lemma_added(m.queue, (m.now, id), other);
            },
            _ => {},
        }
    }
    match step {
        Step::Resume { entry } => {
            assert(m.queue.contains(entry));
        },
        _ => {},
    }
}

/// Whether every wake-up that is pending for the task `id` is for the instant `at`.
pub open spec fn wakes_only_at<S, F>(m: Moment<S, F>, id: usize, at: int) -> bool {
    forall|entry: (int, usize)| #[trigger] m.queue.contains(entry) && entry.1 == id ==> entry.0 == at
}

/// Whether `step` resumes the task `id`, or takes out a wake-up for it.
pub open spec fn takes_out<F>(step: Step<F>, id: usize) -> bool {
    match step {
        Step::Resume { entry } => entry.1 == id,
        Step::Orphan { entry } => entry.1 == id,
        _ => false,
    }
}

/// Spawn freshness: a task spawned to wake at `at` gets an identifier that
/// nothing else uses, so from then on, and until the driver resumes it for
/// the first time, its one wake-up stays pending and is the only one for it.
pub proof fn lemma_spawned_waits_alone<S, F>(
    m: Moment<S, F>,
    at: int,
    task: F,
    steps: Seq<Step<F>>,
)
    requires
        m.bounded(),
        m.permits(Step::Spawn { at, task }),
        m.spawned(at, task).permits_all(steps),
        forall|i: int| 0 <= i < steps.len() ==> !takes_out(#[trigger] steps[i], m.next_id),
    ensures
        m.spawned(at, task).run(steps).queue.contains((at, m.next_id)),
        wakes_only_at(m.spawned(at, task).run(steps), m.next_id, at),
        m.spawned(at, task).run(steps).current != m.next_id,
        m.next_id < m.spawned(at, task).run(steps).next_id,
    decreases steps.len(),
{
    let id = m.next_id;
    let first = m.spawned(at, task);
    if steps.len() == 0 {
        lemma_added(m.queue, (at, id), (at, id));
        assert forall|entry: (int, usize)| #[trigger]
            first.queue.contains(entry) && entry.1 == id implies entry.0 == at by {
            lemma_added(m.queue, (at, id), entry);
        }
    } else {
        let before = steps.drop_last();
        let last = steps.last();
        assert forall|i: int| 0 <= i < before.len() implies first.run(before.take(i)).permits(
            #[trigger] before[i],
        ) by {
            assert(before.take(i) =~= steps.take(i));
            assert(before[i] == steps[i]);
        }
        assert forall|i: int| 0 <= i < before.len() implies !takes_out(#[trigger] before[i], id) by {
            assert(before[i] == steps[i]);
        }
        lemma_spawned_waits_alone(m, at, task, before);
        let n = first.run(before);
        let after = n.step(last);
        assert(steps.take(steps.len() - 1) =~= before);
        assert(n.permits(steps[steps.len() - 1]));
        assert(!takes_out(steps[steps.len() - 1], id));
        assert(after == first.run(steps));
        assert forall|other: (int, usize)| #[trigger]
            after.queue.contains(other) && other.1 == id implies other.0 == at by {
            match last {
                Step::Spawn { at: when, task: other_task } => {
                    lemma_added(n.queue, (when, n.next_id), other);
                },
                Step::Await { until } => {
                    lemma_added(n.queue, (until, n.current), other);
                },
                Step::Resume { entry } => {
                    lemma_taken(n.queue, entry, other);
                },
                Step::Orphan { entry } => {
                    lemma_taken(n.queue, entry, other);
                },
                Step::Wake { id: woken } => {
                    if woken == id {
                        assert(names_task(n.queue, id));
                    }
                    lemma_added(n.queue, (n.now, woken), other);
                },
                _ => {},
            }
        }
        match last {
            Step::Spawn { at: when, task: other_task } => {
                lemma_added(n.queue, (when, n.next_id), (at, id));
            },
            Step::Await { until } => {
                lemma_added(n.queue, (until, n.current), (at, id));
            },
            Step::Resume { entry } => {
                lemma_taken(n.queue, entry, (at, id));
            },
            Step::Orphan { entry } => {
                lemma_taken(n.queue, entry, (at, id));
            },
            Step::Wake { id: woken } => {
                lemma_added(n.queue, (n.now, woken), (at, id));
            },
            _ => {},
        }
    }
}

/// Spawn freshness, the conclusion: when the driver resumes a spawned task
/// for the first time, the clock shows the instant it was spawned for.
pub proof fn lemma_first_resumption_is_on_time<S, F>(
    m: Moment<S, F>,
    at: int,
    task: F,
    steps: Seq<Step<F>>,
    entry: (int, usize),
)
    requires
        m.bounded(),
        m.permits(Step::Spawn { at, task }),
        m.spawned(at, task).permits_all(steps),
        forall|i: int| 0 <= i < steps.len() ==> !takes_out(#[trigger] steps[i], m.next_id),
        m.spawned(at, task).run(steps).permits(Step::Resume { entry }),
        entry.1 == m.next_id,
    ensures
        m.spawned(at, task).run(steps).resumed(entry).now == at,
{
    lemma_spawned_waits_alone(m, at, task, steps);
}

/// Non-time suspension: a task that suspends on something other than the
/// clock stays in the table, and settling it adds no wake-up; if none was
/// pending for it, it is parked, and only `Wake` brings it back.
pub proof fn lemma_parked_until_woken<S, F>(m: Moment<S, F>, id: usize, task: F)
    ensures
        m.settled(id, task, false).tasks.contains_key(id),
        m.settled(id, task, false).tasks[id] == task,
        m.settled(id, task, false).queue == m.queue,
        !names_task(m.queue, id) ==> m.settled(id, task, false).parked(id),
        m.settled(id, task, false).parked(id) ==> m.settled(id, task, false).woken(id).queue.contains(
            (m.now, id),
        ),
{
    broadcast use vstd::multiset::group_multiset_axioms;

}

/// Whether `step` is the event that makes the task `id` runnable.
pub open spec fn wakes<F>(step: Step<F>, id: usize) -> bool {
    match step {
        Step::Wake { id: woken } => woken == id,
        _ => false,
    }
}

/// Non-time suspension along a run: a parked task stays parked, in the table
/// and without a wake-up, as long as nothing wakes it and no wait is polled
/// in its name.
pub proof fn lemma_parked_stays_parked<S, F>(m: Moment<S, F>, id: usize, steps: Seq<Step<F>>)
    requires
        m.parked(id),
        id < m.next_id,
        m.permits_all(steps),
        forall|i: int| 0 <= i < steps.len() ==> !wakes(#[trigger] steps[i], id),
        forall|i: int|
            0 <= i < steps.len() && #[trigger] steps[i] is Await ==> m.run(steps.take(i)).current
                != id,
    ensures
        m.run(steps).parked(id),
        id < m.run(steps).next_id,
    decreases steps.len(),
{
    if steps.len() > 0 {
        let before = steps.drop_last();
        let last = steps.last();
        assert forall|i: int| 0 <= i < before.len() implies m.run(before.take(i)).permits(
            #[trigger] before[i],
        ) by {
            assert(before.take(i) =~= steps.take(i));
            assert(before[i] == steps[i]);
        }
        assert forall|i: int| 0 <= i < before.len() implies !wakes(#[trigger] before[i], id) by {
            assert(before[i] == steps[i]);
        }
        assert forall|i: int| 0 <= i < before.len() && #[trigger] before[i] is Await implies m.run(
            before.take(i),
        ).current != id by {
            assert(before.take(i) =~= steps.take(i));
            assert(before[i] == steps[i]);
        }
        lemma_parked_stays_parked(m, id, before);
        let n = m.run(before);
        let after = n.step(last);
        assert(steps.take(steps.len() - 1) =~= before);
        assert(n.permits(steps[steps.len() - 1]));
        assert(!wakes(steps[steps.len() - 1], id));
        assert(steps[steps.len() - 1] is Await ==> n.current != id);
        if names_task(after.queue, id) {
            let other = choose|other: (int, usize)| #[trigger]
                after.queue.contains(other) && other.1 == id;
            match last {
                Step::Spawn { at, task } => {
                    lemma_added(n.queue, (at, n.next_id), other);
                },
                Step::Await { until } => {
                    lemma_added(n.queue, (until, n.current), other);
                },
                Step::Resume { entry } => {
                    lemma_taken(n.queue, entry, other);
                },
                Step::Orphan { entry } => {
                    lemma_taken(n.queue, entry, other);
                },
                Step::Wake { id: woken } => {
                    lemma_added(n.queue, (n.now, woken), other);
                },
                _ => {},
            }
            assert(n.queue.contains(other));
        }
        match last {
            Step::Resume { entry } => {
                assert(n.queue.contains(entry));
            },
            _ => {},
        }
    }
}

/// State stability: no step touches the shared state.
pub proof fn lemma_state_is_stable<S, F>(m: Moment<S, F>, steps: Seq<Step<F>>)
    ensures
        m.run(steps).state == m.state,
    decreases steps.len(),
{
    if steps.len() > 0 {
        lemma_state_is_stable(m, steps.drop_last());
    }
}

/// A wait of no length is no wait: polling it changes nothing.
pub proof fn lemma_no_delay_is_no_wait<S, F>(m: Moment<S, F>)
    ensures
        m.awaited(m.now + 0) == m,
{
}

/// Once the clock has reached `first`, so that a wait for it is over, a wait
/// for an earlier instant `second` is over at once and changes nothing.
pub proof fn lemma_earlier_wait_is_over<S, F>(m: Moment<S, F>, first: int, second: int)
    requires
        first <= m.now,
        second < first,
    ensures
        m.awaited(first) == m,
        m.awaited(second) == m,
{
}

/// With nothing due up to `second`, driving to an earlier horizon `first`
/// and then to `second` is the same as driving to `second` at once.
pub proof fn lemma_drive_in_stages<S, F>(m: Moment<S, F>, first: int, second: int)
    requires
        !m.due(second),
        first <= second,
    ensures
        !m.due(first),
        !m.idled(first).due(second),
        m.idled(first).idled(second) == m.idled(second),
{
    if m.due(first) {
        let entry = choose|entry: (int, usize)| #[trigger]
            m.queue.contains(entry) && entry.0 <= first;
        assert(has_due(m.queue, second));
    }
}

/// No orphans: while every wake-up is for a dormant task, the driver finds
/// the task of each wake-up it takes out; afterwards every wake-up is for a
/// dormant task or for the one that runs.
pub proof fn lemma_synced_has_no_orphans<S, F>(m: Moment<S, F>, entry: (int, usize))
    requires
        m.synced(),
        m.next_up(entry),
    ensures
        m.permits(Step::Resume { entry }),
        !m.permits(Step::Orphan { entry }),
        m.resumed(entry).synced_but(entry.1),
{
    let n = m.resumed(entry);
    assert forall|other: (int, usize)| #[trigger] n.queue.contains(other) implies other.1
        == entry.1 || n.tasks.contains_key(other.1) by {
        lemma_taken(m.queue, entry, other);
    }
}

/// No orphans, while a task runs: what the running task does, spawning and
/// polling waits, leaves every wake-up with a dormant task or with itself.
pub proof fn lemma_running_keeps_sync<S, F>(m: Moment<S, F>, step: Step<F>)
    requires
        m.synced_but(m.current),
        step is Spawn || step is Await || step is TakeFlag,
    ensures
        m.step(step).synced_but(m.current),
        m.step(step).current == m.current,
{
    let n = m.step(step);
    assert forall|other: (int, usize)| #[trigger] n.queue.contains(other) implies other.1
        == m.current || n.tasks.contains_key(other.1) by {
        match step {
            Step::Spawn { at, task } => {
                lemma_added(m.queue, (at, m.next_id), other);
            },
            Step::Await { until } => {
                lemma_added(m.queue, (until, m.current), other);
            },
            _ => {},
        }
    }
}

/// No orphans, once a resumption ends: a task that suspended is dormant
/// again, and every wake-up has its task. A task that finished leaves
/// orphans exactly if wake-ups for it are still pending.
pub proof fn lemma_settling_restores_sync<S, F>(
    m: Moment<S, F>,
    id: usize,
    task: F,
    finished: bool,
)
    requires
        m.synced_but(id),
    ensures
        !finished ==> m.settled(id, task, finished).synced(),
        finished && !m.tasks.contains_key(id) ==> (m.settled(id, task, finished).synced()
            <==> !names_task(m.queue, id)),
{
    let n = m.settled(id, task, finished);
    if finished && !m.tasks.contains_key(id) {
        if names_task(m.queue, id) {
            let entry = choose|entry: (int, usize)| #[trigger]
                m.queue.contains(entry) && entry.1 == id;
            assert(n.queue.contains(entry));
        }
    }
}

} // verus!
