//! A runtime for asynchronous tasks, in four sizes.
//!
//! - `single_task`: an executor for one future.
//! - `spawn_queue`: an executor on one thread for any number of tasks, with a queue of those that
//!   are ready; `queue_run` is what holds of whole runs of it.
//! - `work_stealing`: an executor on several threads that steal ready tasks from each other;
//!   `steal_run` is what holds of whole runs of it.
//! - `reactor`: the same, with a reactor that wakes the tasks that wait for file descriptors;
//!   `tcp`, `timer_fd` and `client` are the echo server that runs on it.
//!
//! The library decides; it polls no future, sleeps nowhere and makes no system call. A program
//! around it does that, one step at a time, and hands back what came of it.
pub mod client;
pub mod join;
pub mod poll;
pub mod queue_run;
pub mod reactor;
pub mod single_task;
pub mod sleep_timer;
pub mod spawn_queue;
pub mod steal_run;
pub mod sys;
pub mod tally;
pub mod task_store;
pub mod tcp;
pub mod text;
pub mod timer_fd;
pub mod work_stealing;
