//! A cooperative scheduler that runs tasks against a virtual clock.
//!
//! Tasks ask to be woken at chosen instants. The driver always resumes the
//! task with the earliest wake-up, sets the clock to that instant, and learns
//! from a flag whether the task then suspended on the clock or on something
//! else. Driving to a horizon works through every wake-up at or before it and
//! leaves the clock at the horizon.
//!
//! The scheduler is a plain state machine: polling a task is left to the
//! caller, who hands the outcome back.

pub mod laws;
pub mod moment;
pub mod pause_when;
pub mod task_table;
pub mod time;
pub mod timewrap;
pub mod wait_queue;
pub mod waiting;

pub use moment::Moment;
pub use pause_when::PauseWhen;
pub use task_table::as_ptr;
pub use task_table::Frame;
pub use task_table::TaskTable;
pub use time::Time;
pub use timewrap::At;
pub use timewrap::Timewrap;
pub use timewrap::Wake;
pub use wait_queue::WaitQueue;
pub use waiting::Waiting;
