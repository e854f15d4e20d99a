//! The scheduler as a mathematical object: what it holds at one moment, and
//! what each operation makes of it.

use crate::wait_queue::has_due;
use crate::wait_queue::is_earliest;
use crate::wait_queue::names_task;
use vstd::multiset::Multiset;
use vstd::prelude::*;

verus! {

/// What a scheduler holds at one moment.
pub struct Moment<S, F> {
    /// The clock.
    pub now: int,
    /// The pending wake-ups, as pairs of instant and task.
    pub queue: Multiset<(int, usize)>,
    /// The dormant tasks.
    pub tasks: Map<usize, F>,
    /// Whether the latest suspension was a wait for the clock.
    pub by_time: bool,
    /// The task that was resumed last.
    pub current: usize,
    /// The identifier that the next spawned task gets.
    pub next_id: usize,
    /// The shared state.
    pub state: S,
}

impl<S, F> Moment<S, F> {
    /// A scheduler that has not spawned anything yet. No task ever gets the
    /// identifier 0, which `current` holds until the first resumption.
    pub open spec fn starting(now: int, state: S) -> Self {
        Moment {
            now,
            queue: Multiset::empty(),
            tasks: Map::empty(),
            by_time: false,
            current: 0,
            next_id: 1,
            state,
        }
    }

    /// After a task was spawned to wake at `at`.
    pub open spec fn spawned(self, at: int, task: F) -> Self {
        Moment {
            queue: self.queue.insert((at, self.next_id)),
            tasks: self.tasks.insert(self.next_id, task),
            next_id: (self.next_id + 1) as usize,
            ..self
        }
    }

    /// After the running task polled a wait for the instant `until`.
    pub open spec fn awaited(self, until: int) -> Self {
        if self.now < until {
            Moment { queue: self.queue.insert((until, self.current)), by_time: true, ..self }
        } else {
            self
        }
    }

    /// After the driver took `entry` and its task out to resume it.
    pub open spec fn resumed(self, entry: (int, usize)) -> Self {
        Moment {
            now: entry.0,
            queue: self.queue.remove(entry),
            tasks: self.tasks.remove(entry.1),
            by_time: false,
            current: entry.1,
            ..self
        }
    }

    /// After the driver took out `entry` and found no task for it.
    pub open spec fn orphaned(self, entry: (int, usize)) -> Self {
        Moment { now: entry.0, queue: self.queue.remove(entry), ..self }
    }

    /// After the driver found nothing due and moved the clock to `horizon`.
    pub open spec fn idled(self, horizon: int) -> Self {
        Moment { now: horizon, ..self }
    }

    /// After the flag of the latest suspension was read and cleared.
    pub open spec fn flag_taken(self) -> Self {
        Moment { by_time: false, ..self }
    }

    /// After a resumption of the task `id` ended: a finished task is gone, a
    /// suspended one is dormant again.
    pub open spec fn settled(self, id: usize, task: F, finished: bool) -> Self {
        if finished {
            self
        } else {
            Moment { tasks: self.tasks.insert(id, task), ..self }
        }
    }

    /// Whether the task `id` is dormant and has no wake-up pending: it waits
    /// for something other than the clock.
    pub open spec fn parked(self, id: usize) -> bool {
        self.tasks.contains_key(id) && !names_task(self.queue, id)
    }

    /// After an outside event made the task `id` runnable.
    pub open spec fn woken(self, id: usize) -> Self {
        if self.parked(id) {
            Moment { queue: self.queue.insert((self.now, id)), ..self }
        } else {
            self
        }
    }

    /// No wake-up lies in the past.
    pub open spec fn timely(self) -> bool {
        forall|entry: (int, usize)| #[trigger] self.queue.contains(entry) ==> self.now <= entry.0
    }

    /// Every identifier in use was handed out already, so the next one is new.
    pub open spec fn bounded(self) -> bool {
        &&& self.current < self.next_id
        &&& forall|id: usize| #[trigger] self.tasks.contains_key(id) ==> id < self.next_id
        &&& forall|entry: (int, usize)| #[trigger]
            self.queue.contains(entry) ==> entry.1 < self.next_id
    }

    /// Every wake-up is for a dormant task, or for the task `running`.
    pub open spec fn synced_but(self, running: usize) -> bool {
        forall|entry: (int, usize)| #[trigger]
            self.queue.contains(entry) ==> entry.1 == running || self.tasks.contains_key(entry.1)
    }

    /// Every wake-up is for a dormant task.
    pub open spec fn synced(self) -> bool {
        forall|entry: (int, usize)| #[trigger]
            self.queue.contains(entry) ==> self.tasks.contains_key(entry.1)
    }

    /// Whether some wake-up is due at or before `horizon`.
    pub open spec fn due(self, horizon: int) -> bool {
        has_due(self.queue, horizon)
    }

    /// Whether `entry` is a wake-up that the driver may take next.
    pub open spec fn next_up(self, entry: (int, usize)) -> bool {
        is_earliest(self.queue, entry)
    }
}

} // verus!
