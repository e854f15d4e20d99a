//! The scheduler: its clock, its tasks, and the rounds of its driver.

use crate::moment::Moment;
use crate::task_table::as_ptr;
use crate::task_table::Frame;
use crate::task_table::TaskTable;
use crate::time::Time;
use crate::wait_queue::WaitQueue;
use crate::waiting::Waiting;
use core::task::Poll;
use vstd::prelude::*;

verus! {

/// A scheduler that runs tasks of type `F` against a clock of type `T`, and
/// carries a value of type `S` for them to share.
///
/// It never runs a task itself. `drive` hands out the task that is due next;
/// the caller resumes it, passing on what the task does to the scheduler in
/// the meantime (`At::poll`, `spawn`, `spawn_at`), and reports with `settle`
/// how the resumption ended.
pub struct Timewrap<T: Time, S, F> {
    current: T,
    tasks: TaskTable<F>,
    waitings: WaitQueue<T>,
    state: S,
    is_by_time: bool,
    current_id: usize,
    next_id: usize,
}

/// What one round of the driver found.
pub enum Wake<F> {
    /// Nothing was due up to the horizon, which the clock now shows.
    Idle,
    /// The task in the frame is due and has left the table; the clock shows its wake-up
    /// instant. It is to be resumed once and then settled.
    Resume(Frame<F>),
    /// A wake-up was due for this identifier, under which no task is dormant.
    /// The wake-up is gone and the clock shows its instant.
    Orphan(usize),
}

/// A wait for the clock to reach an instant.
#[must_use]
pub struct At<T: Time> {
    time: T,
}

impl<T: Time> View for At<T> {
    type V = int;

    /// The awaited instant in ticks.
    closed spec fn view(&self) -> int {
        self.time.ticks()
    }
}

impl<T: Time, S, F> View for Timewrap<T, S, F> {
    type V = Moment<S, F>;

    closed spec fn view(&self) -> Moment<S, F> {
        Moment {
            now: self.current.ticks(),
            queue: self.waitings@,
            tasks: self.tasks@,
            by_time: self.is_by_time,
            current: self.current_id,
            next_id: self.next_id,
            state: self.state,
        }
    }
}

impl<T: Time, S, F> Timewrap<T, S, F> {
    /// The wake-up that the driver takes next, if any is pending. Which of
    /// several that are due at the same instant it is depends on the order
    /// in which they were filed and taken, and on nothing else.
    pub closed spec fn front(&self) -> (int, usize) {
        self.waitings.front()
    }

    /// A scheduler whose clock starts at `time` and whose tasks share `state`.
    pub fn new_with_time_and_state(time: T, state: S) -> (timewrap: Self)
        ensures
            timewrap@ == Moment::<S, F>::starting(time.ticks(), state),
    {
        Timewrap {
            current: time,
            tasks: TaskTable::new(),
            waitings: WaitQueue::new(),
            state,
            is_by_time: false,
            current_id: 0,
            next_id: 1,
        }
    }

    /// The instant that the clock shows.
    pub fn current_time(&self) -> (now: T)
        ensures
            now.ticks() == self@.now,
    {
        self.current.duplicate()
    }

    /// The shared state.
    pub fn state(&self) -> (state: &S)
        ensures
            *state == self@.state,
    {
        &self.state
    }

    /// Ends the scheduler and gives out the shared state.
    pub fn into_state(self) -> (state: S)
        ensures
            state == self@.state,
    {
        self.state
    }

    /// Whether an identifier is left for one more task. Identifiers are
    /// counted up and never handed out twice.
    pub fn can_spawn(&self) -> (left: bool)
        ensures
            left == (self@.next_id < usize::MAX),
    {
        self.next_id < usize::MAX
    }

    /// Installs `f` as a new task that wakes at `time`, or at the present
    /// instant where `time` is `None`.
    fn spawn_inner(&mut self, f: F, time: Option<T>)
        requires
            old(self)@.next_id < usize::MAX,
        ensures
            final(self)@ == old(self)@.spawned(
                match time {
                    Some(at) => at.ticks(),
                    None => old(self)@.now,
                },
                f,
            ),
    {
        let frame = Frame::bind(self.next_id, f);
        let id = as_ptr(&frame);
        self.next_id = self.next_id + 1;
        let time = match time {
            Some(at) => at,
            None => self.current.duplicate(),
        };
        self.tasks.insert(frame);
        self.waitings.push(Waiting { id, time });
    }

    /// Installs `f` as a new task that is runnable at once: it wakes at the
    /// instant that the clock shows.
    pub fn spawn(&mut self, f: F)
        requires
            old(self)@.next_id < usize::MAX,
        ensures
            final(self)@ == old(self)@.spawned(old(self)@.now, f),
    {
        self.spawn_inner(f, None);
    }

    /// Installs `f` as a new task that wakes at `time`.
    pub fn spawn_at(&mut self, time: T, f: F)
        requires
            old(self)@.next_id < usize::MAX,
        ensures
            final(self)@ == old(self)@.spawned(time.ticks(), f),
    {
        self.spawn_inner(f, Some(time));
    }

    /// A wait for the instant `time`.
    pub fn at(&self, time: T) -> (wait: At<T>)
        ensures
            wait@ == time.ticks(),
    {
        At { time }
    }

    /// A wait for the instant that lies `time` after the present one.
    pub fn delay(&self, time: T) -> (wait: At<T>)
        requires
            T::representable(time.ticks() + self@.now),
        ensures
            wait@ == self@.now + time.ticks(),
    {
        At { time: time.advanced_by(&self.current) }
    }

    /// One round of the driver towards the horizon `time`.
    ///
    /// Where no wake-up is due at or before `time`, the clock moves to `time`
    /// and the round is `Idle`: driving to this horizon is over. Otherwise a
    /// wake-up that is due no later than any other leaves the queue, the clock
    /// moves to its instant, and the flag of the latest suspension is cleared
    /// for the task, which leaves the table to be resumed.
    pub fn drive(&mut self, time: T) -> (wake: Wake<F>)
        ensures
            wake is Idle <==> !old(self)@.due(time.ticks()),
            match wake {
                Wake::Idle => final(self)@ == old(self)@.idled(time.ticks()),
                Wake::Resume(frame) => {
                    let entry = (final(self)@.now, frame.id());
                    &&& entry == old(self).front()
                    &&& old(self)@.next_up(entry)
                    &&& entry.0 <= time.ticks()
                    &&& old(self)@.tasks.contains_key(frame.id())
                    &&& frame.task() == old(self)@.tasks[frame.id()]
                    &&& final(self)@ == old(self)@.resumed(entry)
                },
                Wake::Orphan(id) => {
                    let entry = (final(self)@.now, id);
                    &&& entry == old(self).front()
                    &&& old(self)@.next_up(entry)
                    &&& entry.0 <= time.ticks()
                    &&& !old(self)@.tasks.contains_key(id)
                    &&& final(self)@ == old(self)@.orphaned(entry)
                },
            },
    {
        let due = match self.waitings.peek() {
            Some(first) => !time.is_before(&first.time),
            None => false,
        };
        if !due {
            self.current = time;
            return Wake::Idle;
        }
        let first = self.waitings.pop().unwrap();
        self.current = first.time;
        match self.tasks.remove(first.id) {
            Some(frame) => {
                self.is_by_time = false;
                self.current_id = first.id;
                assert(self@ =~= old(self)@.resumed(first@));
                Wake::Resume(frame)
            },
            None => {
                assert(self.tasks@ =~= old(self).tasks@);
                Wake::Orphan(first.id)
            },
        }
    }

    /// Reads the flag of the latest suspension and clears it.
    pub fn take_by_time(&mut self) -> (by_time: bool)
        ensures
            by_time == old(self)@.by_time,
            final(self)@ == old(self)@.flag_taken(),
    {
        let by_time = self.is_by_time;
        self.is_by_time = false;
        by_time
    }

    /// Ends the resumption of `frame` with the answer `pause` of its wrapper.
    ///
    /// `Ready(Ready(()))` says that the task ran to its end: it is dropped.
    /// `Ready(Pending)` says that it waits for the clock, and `Pending` that it
    /// waits for something else: either way it is dormant again under its
    /// identifier, and no wake-up is added for it.
    pub fn settle(&mut self, frame: Frame<F>, pause: Poll<Poll<()>>)
        ensures
            final(self)@ == old(self)@.settled(
                frame.id(),
                frame.task(),
                pause matches Poll::Ready(Poll::Ready(_)),
            ),
    {
        match pause {
            Poll::Ready(Poll::Ready(_)) => {},
            _ => {
                self.tasks.insert(frame);
            },
        }
    }

    /// Makes the task `id` runnable at the present instant, if it is dormant
    /// and no wake-up is pending for it. This is how an event other than the
    /// clock brings a task back.
    pub fn wake(&mut self, id: usize) -> (woken: bool)
        ensures
            woken == old(self)@.parked(id),
            final(self)@ == old(self)@.woken(id),
    {
        if self.tasks.contains(id) && !self.waitings.mentions(id) {
            let time = self.current.duplicate();
            self.waitings.push(Waiting { id, time });
            true
        } else {
            false
        }
    }
}

impl<T: Time, S: Default, F> Timewrap<T, S, F> {
    /// A scheduler whose clock starts at `time` and whose tasks share the
    /// default value of `S`.
    pub fn new_with_time(time: T) -> (timewrap: Self)
        ensures
            timewrap@ == Moment::<S, F>::starting(time.ticks(), timewrap@.state),
            call_ensures(S::default, (), timewrap@.state),
    {
        Self::new_with_time_and_state(time, S::default())
    }
}

impl<T: Time + Default, S, F> Timewrap<T, S, F> {
    /// A scheduler whose clock starts at the default value of `T` and whose
    /// tasks share `state`.
    pub fn new_with_state(state: S) -> (timewrap: Self)
        ensures
            timewrap@ == Moment::<S, F>::starting(timewrap@.now, state),
            exists|time: T| #[trigger] call_ensures(T::default, (), time) && timewrap@.now == time.ticks(),
    {
        Self::new_with_time_and_state(T::default(), state)
    }
}

impl<T: Time + Default, S: Default, F> Timewrap<T, S, F> {
    /// A scheduler whose clock starts at the default value of `T` and whose
    /// tasks share the default value of `S`.
    pub fn new() -> (timewrap: Self)
        ensures
            timewrap@ == Moment::<S, F>::starting(timewrap@.now, timewrap@.state),
            call_ensures(S::default, (), timewrap@.state),
            exists|time: T| #[trigger] call_ensures(T::default, (), time) && timewrap@.now == time.ticks(),
    {
        Self::new_with_time(T::default())
    }
}

impl<T: Time + Default, S: Default, F> Default for Timewrap<T, S, F> {
    /// The same scheduler as `new` gives.
    fn default() -> (timewrap: Self)
        ensures
            timewrap@ == Moment::<S, F>::starting(timewrap@.now, timewrap@.state),
            call_ensures(S::default, (), timewrap@.state),
            exists|time: T| #[trigger] call_ensures(T::default, (), time) && timewrap@.now == time.ticks(),
    {
        Self::new()
    }
}

impl<T: Time, S, F> core::ops::Deref for Timewrap<T, S, F> {
    type Target = S;

    /// The shared state, as `state` gives it.
    fn deref(&self) -> (state: &S)
        ensures
            *state == self@.state,
    {
        &self.state
    }
}

impl<T: Time> At<T> {
    /// Polls the wait on behalf of the task that `timewrap` resumed last.
    ///
    /// Once the clock has reached the instant the wait is over, and nothing
    /// changes. Before that a wake-up for the task is filed at the instant,
    /// and the suspension is flagged as a wait for the clock.
    pub fn poll<S, F>(&self, timewrap: &mut Timewrap<T, S, F>) -> (ready: Poll<()>)
        ensures
            ready == (if old(timewrap)@.now < self@ {
                Poll::<()>::Pending
            } else {
                Poll::Ready(())
            }),
            final(timewrap)@ == old(timewrap)@.awaited(self@),
    {
        if timewrap.current.is_before(&self.time) {
            timewrap.is_by_time = true;
            timewrap.waitings.push(Waiting { id: timewrap.current_id, time: self.time.duplicate() });
            Poll::Pending
        } else {
            Poll::Ready(())
        }
    }
}

} // verus!
