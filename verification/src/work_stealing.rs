//! An executor with several worker threads that steal tasks from each other.
//!
//! Each worker has a queue. It takes the oldest task of its own queue; when that is empty it goes
//! round the queues of the other workers and takes the newest task of each. A worker that finds
//! nothing parks until it is unparked. Putting a task into a queue unparks all workers, and so does
//! the end of the last task, which makes them stop.
//!
//! [`Executor`] holds all that the workers share. Its functions are the steps that a worker, a
//! waker or a spawning task takes while it has the executor to itself; polling a future and
//! sleeping happen between these steps.
use vstd::prelude::*;

use crate::join::{JoinCell, JoinCells, JoinHandle};
use crate::poll::Poll;
use crate::tally::{lemma_tally_positive, lemma_tally_update, tally};
use crate::task_store::{law_record_goes_without_references, StoreView, TaskStore};
use std::sync::Arc;

verus! {

/// How many worker threads there are.
pub const THREAD_COUNT: usize = 4;

/// How many tasks the first worker starts with.
pub const MAIN_TASKS: usize = 4;

/// What the executor keeps of a task.
#[derive(Debug)]
pub struct Task<F> {
    /// The future that is polled.
    pub future: Arc<F>,
    /// Where the value of the future goes.
    pub join_handle: JoinHandle,
    /// The worker into whose queue the task is put when it is woken.
    pub thread_id: usize,
}

impl<F> Task<F> {
    /// A task that belongs to worker `thread_id`.
    pub fn new(future: Arc<F>, join_handle: JoinHandle, thread_id: usize) -> (task: Self)
        ensures
            task == (Task { future, join_handle, thread_id }),
    {
        Task { future, join_handle, thread_id }
    }

    /// Deals with the outcome of polling the future. A value goes into the slot of the join
    /// handle; the waker that waits there is handed out and is to be woken.
    pub fn poll<T, W>(&self, cells: &mut JoinCells<T, W>, outcome: Poll<T>) -> (r: (
        Poll<()>,
        Option<W>,
    ))
        requires
            old(cells).wf(),
            old(cells)@.contains_key(self.join_handle.slot),
        ensures
            final(cells).wf(),
            final(cells).next() == old(cells).next(),
            outcome is Pending ==> r.0 is Pending && r.1 is None && final(cells)@ == old(cells)@,
            outcome matches Poll::Ready(value) ==> {
                &&& r.0 == Poll::Ready(())
                &&& r.1 == old(cells)@[self.join_handle.slot].waker
                &&& final(cells)@ == old(cells)@.insert(
                    self.join_handle.slot,
                    old(cells)@[self.join_handle.slot].completed(value),
                )
            },
    {
        self.join_handle.settle(cells, outcome)
    }

    /// The worker into whose queue the task is put when it is woken.
    pub fn get_thread_id(&self) -> (thread_id: usize)
        ensures
            thread_id == self.thread_id,
    {
        self.thread_id
    }

    /// Makes `thread_id` the worker to which the task belongs.
    pub fn new_parent_thread(&mut self, thread_id: usize)
        ensures
            *final(self) == (Task { thread_id, ..*old(self) }),
    {
        self.thread_id = thread_id;
    }
}

/// Where a worker is in its loop.
#[derive(Clone, Copy, Debug, PartialEq, Eq, Structural)]
pub enum Phase {
    /// At the top of the loop.
    Top,
    /// Polling a task of its own queue.
    Own { task: u64 },
    /// Polling a stolen task; the round goes on at the `next`-th neighbour.
    Stolen { task: u64, next: usize },
    /// In a round in which it has stolen, about to look at the `next`-th neighbour.
    Scan { next: usize },
    /// Parked.
    Parked,
    /// Out of the loop.
    Stopped,
}

impl Phase {
    /// Whether a worker in this phase is polling `task`.
    pub open spec fn runs(self, task: u64) -> bool {
        match self {
            Phase::Own { task: t } => t == task,
            Phase::Stolen { task: t, next } => t == task,
            _ => false,
        }
    }

    /// Whether a worker in this phase decides what to do next.
    pub open spec fn decides(self) -> bool {
        self is Top || self is Scan
    }

    /// Where a worker in this phase goes when the poll is over.
    pub open spec fn after_poll(self) -> Phase {
        match self {
            Phase::Stolen { task, next } => Phase::Scan { next },
            _ => Phase::Top,
        }
    }

    /// Neighbours are counted from 1, and a round that has stolen is past the first.
    pub open spec fn wf(self) -> bool {
        match self {
            Phase::Stolen { task, next } => 2 <= next <= THREAD_COUNT,
            Phase::Scan { next } => 2 <= next <= THREAD_COUNT,
            _ => true,
        }
    }
}

/// What a worker is to do next.
#[derive(Debug, PartialEq, Eq)]
pub enum Action {
    /// Poll `task`, which comes from its own queue or was stolen from that of another worker.
    Poll { task: u64, stolen_from: Option<usize> },
    /// Park until it is unparked.
    Park,
    /// Leave the loop.
    Stop,
}

/// All that the workers share.
#[derive(Debug)]
pub struct Executor<F> {
    store: TaskStore<Task<F>>,
    workers: Vec<Phase>,
    threads: Option<Vec<bool>>,
    active_tasks: u64,
    shutdown: bool,
}

/// The mathematical content of an [`Executor`].
#[verifier::ext_equal]
pub struct ExecutorView<F> {
    /// The task records and the queues, one queue for each worker.
    pub store: StoreView<Task<F>>,
    /// Where each worker is in its loop.
    pub workers: Seq<Phase>,
    /// For each worker thread whether it has been unparked since it last parked; nothing before
    /// the threads are known.
    pub tokens: Option<Seq<bool>>,
    /// How many tasks were spawned and have not finished.
    pub active: u64,
    /// Whether the workers are to stop.
    pub shutdown: bool,
}

/// The queue of the `i`-th neighbour of worker `id`.
pub open spec fn neighbour(id: int, i: int) -> int {
    (id + i) % (THREAD_COUNT as int)
}

/// What a worker can do next: a task of its own, a task of the `i`-th neighbour, or none.
pub enum Move {
    Own,
    Steal { i: int },
    Park,
    Stop,
}

/// The tasks that workers in these phases are polling.
pub open spec fn running(workers: Seq<Phase>) -> Set<u64> {
    Set::new(
        |task: u64|
            exists|w: int| 0 <= w < workers.len() && (#[trigger] workers[w]).runs(task),
    )
}

impl<F> ExecutorView<F> {
    /// Whether some worker is polling `task`.
    pub open spec fn runs(self, task: u64) -> bool {
        running(self.workers).contains(task)
    }

    /// Whether the thread of worker `w` has been unparked since it last parked.
    pub open spec fn notified(self, w: int) -> bool {
        self.tokens matches Some(tokens) && 0 <= w < tokens.len() && tokens[w]
    }

    /// Whether worker `w` is parked with nothing to end its sleep.
    pub open spec fn asleep(self, w: int) -> bool {
        &&& 0 <= w < self.workers.len()
        &&& w < THREAD_COUNT
        &&& self.workers[w] is Parked
        &&& !self.notified(w)
    }

    /// Whether no worker thread has anything to do: no task waits and the loop goes on.
    pub open spec fn idle(self) -> bool {
        &&& !self.shutdown
        &&& forall|q: int|
            0 <= q < self.store.queues.len() && q < THREAD_COUNT ==> (
            #[trigger] self.store.queues[q]).len() == 0
    }

    /// What holds of the executor at all times.
    pub open spec fn wf(self) -> bool {
        &&& self.store.wf(running(self.workers))
        &&& self.store.queues.len() == self.workers.len()
        &&& forall|t: u64|
            self.store.tasks.contains_key(t) ==> (#[trigger] self.store.tasks[t]).task.thread_id
                < self.workers.len()
        &&& forall|w: int| 0 <= w < self.workers.len() ==> (#[trigger] self.workers[w]).wf()
        &&& self.tokens matches Some(tokens) ==> tokens.len() == THREAD_COUNT
        &&& self.tokens is None ==> forall|w: int|
            0 <= w < self.workers.len() ==> !(#[trigger] self.workers[w] is Parked)
        &&& forall|w: int| #[trigger] self.asleep(w) ==> self.idle()
    }

    /// Whether the workers have passed the start barrier: all of them have a queue, and their
    /// threads are known.
    pub open spec fn started(self) -> bool {
        THREAD_COUNT <= self.workers.len() && self.tokens is Some
    }

    /// After all worker threads were unparked.
    pub open spec fn unparked(self) -> Self {
        ExecutorView {
            tokens: match self.tokens {
                Some(tokens) => Some(Seq::new(tokens.len(), |w: int| true)),
                None => None,
            },
            ..self
        }
    }

    /// After a worker got its queue.
    pub open spec fn registered(self) -> Self {
        ExecutorView {
            store: StoreView { queues: self.store.queues.push(Seq::empty()), ..self.store },
            workers: self.workers.push(Phase::Top),
            ..self
        }
    }

    /// After the worker threads became known.
    pub open spec fn with_threads(self) -> Self {
        ExecutorView { tokens: Some(Seq::new(THREAD_COUNT as nat, |w: int| false)), ..self }
    }

    /// After worker `id`, which has been unparked, went back to the top of its loop.
    pub open spec fn awoken(self, id: int) -> Self {
        ExecutorView { tokens: Some(self.tokens->0.update(id, false)), ..self }.with_phase(
            id,
            Phase::Top,
        )
    }

    /// After a task of worker `id` was spawned.
    pub open spec fn spawned(self, id: int, task: Task<F>) -> Self {
        ExecutorView {
            store: self.store.insert(task, id),
            active: (self.active + 1) as u64,
            ..self
        }.unparked()
    }

    /// After `task` was put into the queue of the worker to which it belongs.
    pub open spec fn readied(self, task: u64) -> Self {
        ExecutorView {
            store: self.store.push(task, self.store.tasks[task].task.thread_id as int),
            ..self
        }.unparked()
    }

    /// After the number of wakers of `task` became `wakers`.
    pub open spec fn with_wakers(self, task: u64, wakers: u64) -> Self {
        ExecutorView { store: self.store.set_wakers(task, wakers), ..self }
    }

    /// After one more task has finished.
    pub open spec fn task_completed(self) -> Self {
        let less = ExecutorView { active: (self.active - 1) as u64, ..self };
        if self.active == 1 {
            ExecutorView { shutdown: true, ..less }.unparked()
        } else {
            less
        }
    }

    /// After worker `id` came to `phase`.
    pub open spec fn with_phase(self, id: int, phase: Phase) -> Self {
        ExecutorView { workers: self.workers.update(id, phase), ..self }
    }

    /// After the record of `task` has gone, if nothing refers to it any more.
    pub open spec fn collected(self, task: u64) -> Self {
        ExecutorView { store: self.store.collect(task, self.runs(task)), ..self }
    }

    /// The first neighbour of worker `id`, counted from `from`, whose queue is not empty.
    pub open spec fn victim(self, id: int, from: int) -> Option<int>
        decreases THREAD_COUNT - from,
    {
        if from >= THREAD_COUNT {
            None
        } else if self.store.queues[neighbour(id, from)].len() > 0 {
            Some(from)
        } else {
            self.victim(id, from + 1)
        }
    }

    /// What worker `id` does at the top of its loop.
    pub open spec fn top_move(self, id: int) -> Move {
        if self.shutdown {
            Move::Stop
        } else if self.store.queues[id].len() > 0 {
            Move::Own
        } else {
            match self.victim(id, 1) {
                Some(i) => Move::Steal { i },
                None => Move::Park,
            }
        }
    }

    /// What worker `id` does next. A round in which it has stolen first goes to its end.
    pub open spec fn next_move(self, id: int) -> Move {
        match self.workers[id] {
            Phase::Scan { next } => match self.victim(id, next as int) {
                Some(i) => Move::Steal { i },
                None => self.top_move(id),
            },
            _ => self.top_move(id),
        }
    }

    /// The action that carries out `m` for worker `id`.
    pub open spec fn action(self, id: int, m: Move) -> Action {
        match m {
            Move::Own => Action::Poll {
                task: self.store.queues[id].first(),
                stolen_from: None,
            },
            Move::Steal { i } => Action::Poll {
                task: self.store.queues[neighbour(id, i)].last(),
                stolen_from: Some(neighbour(id, i) as usize),
            },
            Move::Park => Action::Park,
            Move::Stop => Action::Stop,
        }
    }

    /// After worker `id` has decided on `m`. A task that it steals belongs to it from then on.
    pub open spec fn moved(self, id: int, m: Move) -> Self {
        match m {
            Move::Own => {
                let task = self.store.queues[id].first();
                ExecutorView { store: self.store.pop_front(id), ..self }.with_phase(
                    id,
                    Phase::Own { task },
                )
            },
            Move::Steal { i } => {
                let q = neighbour(id, i);
                let task = self.store.queues[q].last();
                let kept = Task { thread_id: id as usize, ..self.store.tasks[task].task };
                ExecutorView {
                    store: self.store.pop_back(q).set_task(task, kept),
                    ..self
                }.with_phase(id, Phase::Stolen { task, next: (i + 1) as usize })
            },
            Move::Park => self.with_phase(id, Phase::Parked),
            Move::Stop => self.with_phase(id, Phase::Stopped),
        }
    }

    /// After worker `id` has polled its task, with `ready` as the outcome.
    pub open spec fn poll_returned(self, id: int, ready: bool) -> Self {
        let task = self.task_of(id);
        let counted = if ready {
            self.task_completed()
        } else {
            self
        };
        counted.with_phase(id, self.workers[id].after_poll()).collected(task)
    }

    /// The task that worker `id` is polling.
    pub open spec fn task_of(self, id: int) -> u64 {
        match self.workers[id] {
            Phase::Own { task } => task,
            Phase::Stolen { task, next } => task,
            _ => arbitrary(),
        }
    }
}

impl<F> ExecutorView<F> {
    /// Which tasks are being polled once worker `id` has come to `phase`.
    proof fn lemma_runs(self, id: int, phase: Phase)
        requires
            0 <= id < self.workers.len(),
        ensures
            forall|t: u64|
                #[trigger] self.with_phase(id, phase).runs(t) ==> self.runs(t) || phase.runs(t),
            forall|t: u64|
                self.runs(t) ==> #[trigger] self.with_phase(id, phase).runs(t)
                    || self.workers[id].runs(t),
            forall|t: u64| phase.runs(t) ==> #[trigger] self.with_phase(id, phase).runs(t),
    {
        let after = self.with_phase(id, phase);
        assert forall|t: u64| #[trigger] after.runs(t) implies self.runs(t) || phase.runs(t) by {
            let w = choose|w: int|
                0 <= w < after.workers.len() && #[trigger] after.workers[w].runs(t);
            if w != id {
                assert(self.workers[w].runs(t));
            }
        }
        assert forall|t: u64| self.runs(t) implies #[trigger] after.runs(t)
            || self.workers[id].runs(t) by {
            let w = choose|w: int|
                0 <= w < self.workers.len() && #[trigger] self.workers[w].runs(t);
            if w != id {
                assert(after.workers[w].runs(t));
            }
        }
        assert forall|t: u64| phase.runs(t) implies #[trigger] after.runs(t) by {
            assert(after.workers[id].runs(t));
        }
    }

    /// The queues of the neighbours of a worker are all queues but its own.
    proof fn lemma_neighbours(id: int, q: int)
        requires
            0 <= id,
            0 <= q < THREAD_COUNT,
        ensures
            q == neighbour(id, 0) || q == neighbour(id, 1) || q == neighbour(id, 2) || q
                == neighbour(id, 3),
    {
    }

    /// The first neighbour that has a task is one of those looked at, and has a task; where there
    /// is none, none of those looked at has a task.
    pub proof fn lemma_victim(self, id: int, from: int)
        requires
            0 <= id,
        ensures
            self.victim(id, from) matches Some(i) ==> {
                &&& from <= i < THREAD_COUNT
                &&& self.store.queues[neighbour(id, i)].len() > 0
                &&& forall|j: int|
                    from <= j < i ==> (#[trigger] self.store.queues[neighbour(id, j)]).len() == 0
            },
            self.victim(id, from) is None ==> forall|j: int|
                from <= j < THREAD_COUNT ==> (#[trigger] self.store.queues[neighbour(
                    id,
                    j,
                )]).len() == 0,
        decreases THREAD_COUNT - from,
    {
        if from < THREAD_COUNT {
            self.lemma_victim(id, from + 1);
        }
    }

    /// Where queues, workers, tokens and the stop sign are the same, nobody sleeps over work.
    proof fn lemma_asleep_kept(self, before: Self)
        requires
            before.wf(),
            self.store.queues == before.store.queues,
            self.workers == before.workers,
            self.tokens == before.tokens,
            self.shutdown == before.shutdown,
        ensures
            forall|w: int| #[trigger] self.asleep(w) ==> self.idle(),
    {
        assert forall|w: int| #[trigger] self.asleep(w) implies self.idle() by {
            assert(before.asleep(w));
        }
    }

    /// A worker more keeps all in order.
    pub proof fn lemma_registered(self)
        requires
            self.wf(),
        ensures
            self.registered().wf(),
    {
        let after = self.registered();
        self.store.lemma_add_queue();
        assert forall|t: u64| #[trigger] running(after.workers).contains(t) == running(
            self.workers,
        ).contains(t) by {
            if after.runs(t) {
                let w = choose|w: int|
                    0 <= w < after.workers.len() && #[trigger] after.workers[w].runs(t);
                assert(self.workers[w].runs(t));
            }
            if self.runs(t) {
                let w = choose|w: int|
                    0 <= w < self.workers.len() && #[trigger] self.workers[w].runs(t);
                assert(after.workers[w].runs(t));
            }
        }
        assert(running(after.workers) =~= running(self.workers));
        assert forall|w: int| #[trigger] after.asleep(w) implies after.idle() by {
            assert(self.asleep(w));
        }
    }

    /// Threads that become known keep all in order.
    pub proof fn lemma_with_threads(self)
        requires
            self.wf(),
            self.tokens is None,
        ensures
            self.with_threads().wf(),
    {
    }

    /// A task that is spawned keeps all in order.
    pub proof fn lemma_spawned(self, id: int, task: Task<F>)
        requires
            self.wf(),
            0 <= id < self.workers.len(),
            task.thread_id == id,
            self.store.next < u64::MAX,
        ensures
            self.spawned(id, task).wf(),
    {
        self.store.lemma_wf_insert(task, id, running(self.workers));
    }

    /// A waker more keeps all in order.
    pub proof fn lemma_more_wakers(self, task: u64, wakers: u64)
        requires
            self.wf(),
            self.store.tasks.contains_key(task),
            wakers > 0,
        ensures
            self.with_wakers(task, wakers).wf(),
    {
        self.store.lemma_wf_more_wakers(task, wakers, running(self.workers));
        self.with_wakers(task, wakers).lemma_asleep_kept(self);
    }

    /// A task that is woken keeps all in order, whatever becomes of the number of its wakers.
    pub proof fn lemma_readied(self, task: u64, wakers: u64)
        requires
            self.wf(),
            self.store.tasks.contains_key(task),
        ensures
            self.readied(task).wf(),
            self.with_wakers(task, wakers).readied(task).wf(),
    {
        let q = self.store.tasks[task].task.thread_id as int;
        self.store.lemma_wf_push(task, wakers, q, running(self.workers));
    }

    /// A waker less keeps all in order.
    pub proof fn lemma_waker_dropped(self, task: u64, wakers: u64)
        requires
            self.wf(),
            self.store.tasks.contains_key(task),
        ensures
            self.with_wakers(task, wakers).collected(task).wf(),
    {
        let fewer = self.with_wakers(task, wakers);
        fewer.store.lemma_same_queues(self.store);
        assert forall|t: u64| t != task && fewer.store.tasks.contains_key(t) implies (
        #[trigger] fewer.store.tasks[t]).wakers > 0 || fewer.store.queued(t) || running(
            fewer.workers,
        ).contains(t) by {
            assert(fewer.store.tasks[t] == self.store.tasks[t]);
        }
        fewer.store.lemma_wf_collect(task, running(fewer.workers), running(fewer.workers));
        fewer.collected(task).lemma_asleep_kept(self);
    }

    /// A task that finishes keeps all in order.
    pub proof fn lemma_task_completed(self)
        requires
            self.wf(),
        ensures
            self.task_completed().wf(),
    {
        if self.active != 1 {
            self.task_completed().lemma_asleep_kept(self);
        }
    }

    /// A poll that is over keeps all in order.
    pub proof fn lemma_poll_returned(self, id: int, ready: bool)
        requires
            self.wf(),
            0 <= id < self.workers.len(),
            self.workers[id] is Own || self.workers[id] is Stolen,
        ensures
            self.poll_returned(id, ready).wf(),
    {
        let task = self.task_of(id);
        let phase = self.workers[id].after_poll();
        let counted = if ready {
            self.task_completed()
        } else {
            self
        };
        self.lemma_task_completed();
        let rest = counted.with_phase(id, phase);
        let after = rest.collected(task);
        assert(counted.workers[id].wf());
        counted.lemma_runs(id, phase);
        assert(counted.workers[id].runs(task));
        assert(counted.runs(task));
        assert forall|t: u64| #[trigger] running(rest.workers).contains(t) implies running(
            counted.workers,
        ).contains(t) by {
            assert(rest.runs(t));
        }
        assert forall|t: u64| #[trigger] running(counted.workers).contains(t) implies running(
            rest.workers,
        ).contains(t) || t == task by {
            assert(rest.runs(t) == running(rest.workers).contains(t));
            assert(counted.runs(t));
        }
        rest.store.lemma_wf_collect(task, running(counted.workers), running(rest.workers));
        assert forall|w: int| #[trigger] after.asleep(w) implies after.idle() by {
            assert(counted.asleep(w));
        }
    }

    /// A worker that wakes up keeps all in order.
    pub proof fn lemma_awoken(self, id: int)
        requires
            self.wf(),
            0 <= id < self.workers.len(),
            self.workers[id] is Parked,
            self.notified(id),
        ensures
            self.awoken(id).wf(),
    {
        let after = self.awoken(id);
        self.lemma_rest(id, Phase::Top);
        assert(after.workers == self.with_phase(id, Phase::Top).workers);
        assert forall|w: int| #[trigger] after.asleep(w) implies after.idle() by {
            assert(self.asleep(w));
        }
    }

    /// A worker that takes a task of its own keeps all in order.
    proof fn lemma_own(self, id: int)
        requires
            self.wf(),
            0 <= id < self.workers.len(),
            self.workers[id].decides(),
            self.store.queues[id].len() > 0,
        ensures
            self.moved(id, Move::Own).wf(),
    {
        let task = self.store.queues[id].first();
        let after = self.moved(id, Move::Own);
        let phase = Phase::Own { task };
        self.store.lemma_pop_front(id);
        self.lemma_runs(id, phase);
        assert forall|t: u64| #[trigger] running(after.workers).contains(t) <==> running(
            self.workers,
        ).contains(t) || t == task by {
            assert(self.with_phase(id, phase).runs(t) == running(after.workers).contains(t));
        }
        self.store.lemma_wf_take(
            after.store,
            task,
            running(self.workers),
            running(after.workers),
        );
        assert forall|w: int| #[trigger] after.asleep(w) implies after.idle() by {
            assert(self.asleep(w));
        }
    }

    /// A worker that goes to a phase in which it polls nothing keeps all in order; it parks only
    /// where there is nothing to do.
    proof fn lemma_rest(self, id: int, phase: Phase)
        requires
            self.wf(),
            0 <= id < self.workers.len(),
            self.workers[id].decides() || self.workers[id] is Parked,
            phase is Stopped || phase is Top || (phase is Parked && self.started()
                && !self.shutdown && self.store.queues[id].len() == 0 && self.victim(id, 1)
                is None),
        ensures
            self.with_phase(id, phase).wf(),
    {
        let after = self.with_phase(id, phase);
        self.lemma_runs(id, phase);
        assert(running(after.workers) =~= running(self.workers)) by {
            assert forall|t: u64| running(after.workers).contains(t) == running(
                self.workers,
            ).contains(t) by {
                assert(after.runs(t) == running(after.workers).contains(t));
                assert(self.runs(t) == running(self.workers).contains(t));
            }
        }
        assert forall|w: int| #[trigger] after.asleep(w) implies after.idle() by {
            if w == id {
                self.lemma_victim(id, 1);
                assert forall|q: int| 0 <= q < THREAD_COUNT implies (
                #[trigger] after.store.queues[q]).len() == 0 by {
                    Self::lemma_neighbours(id, q);
                }
            } else {
                assert(self.asleep(w));
            }
        }
    }

    /// A worker that steals keeps all in order.
    proof fn lemma_steal(self, id: int, i: int)
        requires
            self.wf(),
            self.started(),
            0 <= id < self.workers.len(),
            id <= usize::MAX,
            self.workers[id].decides(),
            1 <= i < THREAD_COUNT,
            self.store.queues[neighbour(id, i)].len() > 0,
        ensures
            self.moved(id, Move::Steal { i }).wf(),
            forall|t: u64|
                self.moved(id, Move::Steal { i }).store.tasks.contains_key(t)
                    == self.store.tasks.contains_key(t),
    {
        let q = neighbour(id, i);
        let task = self.store.queues[q].last();
        let after = self.moved(id, Move::Steal { i });
        let phase = Phase::Stolen { task, next: (i + 1) as usize };
        self.store.lemma_pop_back(q);
        self.lemma_runs(id, phase);
        after.store.lemma_same_queues(self.store.pop_back(q));
        assert(after.workers == self.with_phase(id, phase).workers);
        assert forall|t: u64| #[trigger] after.store.queued(t) implies self.store.queued(t) by {
            assert(self.store.pop_back(q).queued(t));
        }
        assert forall|t: u64| #[trigger] running(after.workers).contains(t) <==> running(
            self.workers,
        ).contains(t) || t == task by {
            assert(self.with_phase(id, phase).runs(t) == running(after.workers).contains(t));
        }
        self.store.lemma_wf_take(
            after.store,
            task,
            running(self.workers),
            running(after.workers),
        );
        assert forall|w: int| #[trigger] after.asleep(w) implies after.idle() by {
            assert(self.asleep(w));
            assert(self.store.queues[q].len() == 0);
        }
    }

    /// A worker that decides what to do next keeps all in order, and keeps the same tasks.
    pub proof fn lemma_moved(self, id: int)
        requires
            self.wf(),
            self.started(),
            0 <= id < self.workers.len(),
            id <= usize::MAX,
            self.workers[id].decides(),
        ensures
            self.moved(id, self.next_move(id)).wf(),
            forall|t: u64|
                self.moved(id, self.next_move(id)).store.tasks.contains_key(t)
                    == self.store.tasks.contains_key(t),
    {
        self.lemma_victim(id, 1);
        if let Phase::Scan { next } = self.workers[id] {
            assert(self.workers[id].wf());
            self.lemma_victim(id, next as int);
        }
        match self.next_move(id) {
            Move::Own => self.lemma_own(id),
            Move::Steal { i } => self.lemma_steal(id, i),
            Move::Park => self.lemma_rest(id, Phase::Parked),
            Move::Stop => self.lemma_rest(id, Phase::Stopped),
        }
    }
}

impl<F> ExecutorView<F> {
    /// Who is stolen from depends on the queues alone.
    proof fn lemma_same_victim(self, other: Self, id: int, from: int)
        requires
            self.store == other.store,
        ensures
            self.victim(id, from) == other.victim(id, from),
        decreases THREAD_COUNT - from,
    {
        if from < THREAD_COUNT {
            self.lemma_same_victim(other, id, from + 1);
        }
    }
}

impl<F> Executor<F> {
    pub closed spec fn view(&self) -> ExecutorView<F> {
        ExecutorView {
            store: self.store@,
            workers: self.workers@,
            tokens: match self.threads {
                Some(threads) => Some(threads@),
                None => None,
            },
            active: self.active_tasks,
            shutdown: self.shutdown,
        }
    }

    /// An executor without workers and without tasks.
    pub fn new() -> (executor: Self)
        ensures
            executor@.wf(),
            executor@ == (ExecutorView::<F> {
                store: StoreView { tasks: Map::empty(), next: 0, queues: Seq::empty() },
                workers: Seq::empty(),
                tokens: None,
                active: 0,
                shutdown: false,
            }),
    {
        Executor {
            store: TaskStore::new(),
            workers: Vec::new(),
            threads: None,
            active_tasks: 0,
            shutdown: false,
        }
    }

    /// Gives a new worker its queue, and with it its number.
    pub fn register_worker(&mut self) -> (id: usize)
        requires
            old(self)@.wf(),
        ensures
            final(self)@.wf(),
            id == old(self)@.workers.len(),
            final(self)@ == old(self)@.registered(),
    {
        let id = self.store.add_queue();
        self.workers.push(Phase::Top);
        proof {
            old(self)@.lemma_registered();
            assert(self@ =~= old(self)@.registered());
        }
        id
    }

    /// Makes the worker threads known, so that they can be unparked.
    pub fn set_threads(&mut self)
        requires
            old(self)@.wf(),
            old(self)@.tokens is None,
        ensures
            final(self)@.wf(),
            final(self)@ == old(self)@.with_threads(),
    {
        let mut threads: Vec<bool> = Vec::new();
        while threads.len() < THREAD_COUNT
            invariant
                threads@.len() <= THREAD_COUNT,
                forall|w: int| 0 <= w < threads@.len() ==> !threads@[w],
            decreases THREAD_COUNT - threads@.len(),
        {
            threads.push(false);
        }
        self.threads = Some(threads);
        proof {
            old(self)@.lemma_with_threads();
            assert(self@ =~= old(self)@.with_threads());
        }
    }

    /// Unparks all worker threads, if they are known.
    fn unpark_all(&mut self)
        ensures
            final(self)@ == old(self)@.unparked(),
    {
        match self.threads.take() {
            Some(mut threads) => {
                let ghost n = threads@.len();
                let mut w: usize = 0;
                while w < threads.len()
                    invariant
                        threads@.len() == n,
                        w <= n,
                        forall|i: int| 0 <= i < w ==> threads@[i],
                    decreases n - w,
                {
                    threads.set(w, true);
                    w += 1;
                }
                assert(threads@ =~= Seq::new(n, |w: int| true));
                self.threads = Some(threads);
            },
            None => {},
        }
        assert(self@ =~= old(self)@.unparked());
    }

    /// Starts a task that belongs to worker `id`: it goes to the back of the worker's queue, and
    /// all workers are unparked. The value of the future will arrive at the handle.
    pub fn spawn<T, W>(
        &mut self,
        cells: &mut JoinCells<T, W>,
        id: usize,
        future: Arc<F>,
    ) -> (handle: JoinHandle)
        requires
            old(self)@.wf(),
            old(cells).wf(),
            id < old(self)@.workers.len(),
            old(self)@.active < u64::MAX,
            old(self)@.store.next < u64::MAX,
            old(cells).next() < u64::MAX,
        ensures
            final(self)@.wf(),
            final(cells).wf(),
            handle.slot == old(cells).next(),
            final(cells).next() == old(cells).next() + 1,
            !old(cells)@.contains_key(handle.slot),
            final(cells)@ == old(cells)@.insert(handle.slot, JoinCell::empty()),
            final(self)@ == old(self)@.spawned(
                id as int,
                Task { future, join_handle: handle, thread_id: id },
            ),
            final(self)@.active == old(self)@.active + 1,
            ({
                let new = old(self)@.store.next;
                let tasks = final(self)@.store.tasks;
                &&& tasks.contains_key(new)
                &&& tasks[new].task.future == future
                &&& tasks[new].task.join_handle == handle
                &&& tasks[new].task.thread_id == id
            }),
    {
        let join_handle = JoinHandle::new(cells);
        let task = Task::new(future, join_handle.clone(), id);
        proof {
            self@.lemma_spawned(id as int, task);
        }
        self.active_tasks += 1;
        self.store.insert(task, id);
        self.unpark_all();
        join_handle
    }

    /// Whether one more task can be counted and numbered.
    pub fn can_spawn(&self) -> (can: bool)
        ensures
            can == (self@.active < u64::MAX && self@.store.next < u64::MAX),
    {
        self.active_tasks < u64::MAX && self.store.has_room()
    }

    /// Where worker `id` is in its loop, if there is such a worker.
    pub fn phase(&self, id: usize) -> (phase: Option<Phase>)
        ensures
            phase == (if id < self@.workers.len() {
                Some(self@.workers[id as int])
            } else {
                None
            }),
    {
        if id < self.workers.len() {
            Some(self.workers[id])
        } else {
            None
        }
    }

    /// Whether the worker threads are known.
    pub fn knows_threads(&self) -> (known: bool)
        ensures
            known == (self@.tokens is Some),
    {
        self.threads.is_some()
    }

    /// Whether the workers can run: all of them have a queue, and their threads are known.
    pub fn has_started(&self) -> (started: bool)
        ensures
            started == self@.started(),
    {
        THREAD_COUNT <= self.workers.len() && self.threads.is_some()
    }

    /// How many tasks were spawned and have not finished.
    pub fn active_tasks(&self) -> (n: u64)
        ensures
            n == self@.active,
    {
        self.active_tasks
    }

    /// What the executor keeps of `task`, as long as something refers to it.
    pub fn task(&self, task: u64) -> (found: Option<&Task<F>>)
        ensures
            found == (if self@.store.tasks.contains_key(task) {
                Some(&self@.store.tasks[task].task)
            } else {
                None
            }),
    {
        self.store.get(task)
    }

    /// How many wakers of `task` exist.
    pub fn wakers(&self, task: u64) -> (n: u64)
        ensures
            n == (if self@.store.tasks.contains_key(task) {
                self@.store.tasks[task].wakers
            } else {
                0
            }),
    {
        self.store.wakers(task)
    }

    /// Puts `task` into the queue of the worker to which it belongs, and unparks all workers.
    fn ready(&mut self, task: u64)
        requires
            old(self)@.store.tasks.contains_key(task),
            old(self)@.store.tasks[task].task.thread_id < old(self)@.store.queues.len(),
        ensures
            final(self)@ == old(self)@.readied(task),
    {
        let thread_id = match self.store.get(task) {
            Some(kept) => kept.get_thread_id(),
            None => 0,
        };
        self.store.push(task, thread_id);
        self.unpark_all();
    }

    /// Makes one more waker of a task.
    pub fn waker_clone(&mut self, task: u64)
        requires
            old(self)@.wf(),
            old(self)@.store.tasks.contains_key(task),
            old(self)@.store.tasks[task].wakers < u64::MAX,
        ensures
            final(self)@.wf(),
            final(self)@ == old(self)@.with_wakers(
                task,
                (old(self)@.store.tasks[task].wakers + 1) as u64,
            ),
    {
        let wakers = self.store.wakers(task) + 1;
        self.store.set_wakers(task, wakers);
        proof {
            old(self)@.lemma_more_wakers(task, wakers);
            assert(self@ =~= old(self)@.with_wakers(task, wakers));
        }
    }

    /// Wakes a task with one of its wakers, which is used up.
    pub fn wake(&mut self, task: u64)
        requires
            old(self)@.wf(),
            old(self)@.store.tasks.contains_key(task),
            old(self)@.store.tasks[task].wakers > 0,
        ensures
            final(self)@.wf(),
            final(self)@ == old(self)@.with_wakers(
                task,
                (old(self)@.store.tasks[task].wakers - 1) as u64,
            ).readied(task),
    {
        let wakers = self.store.wakers(task) - 1;
        self.store.set_wakers(task, wakers);
        self.ready(task);
        proof {
            old(self)@.lemma_readied(task, wakers);
        }
    }

    /// Wakes a task with one of its wakers, which stays.
    pub fn wake_by_ref(&mut self, task: u64)
        requires
            old(self)@.wf(),
            old(self)@.store.tasks.contains_key(task),
        ensures
            final(self)@.wf(),
            final(self)@ == old(self)@.readied(task),
    {
        self.ready(task);
        proof {
            old(self)@.lemma_readied(task, 0);
        }
    }

    /// Drops a waker of a task. If it was the last that referred to the task, what the executor
    /// kept of it is handed out.
    pub fn waker_drop(&mut self, task: u64) -> (dropped: Option<Task<F>>)
        requires
            old(self)@.wf(),
            old(self)@.store.tasks.contains_key(task),
            old(self)@.store.tasks[task].wakers > 0,
        ensures
            final(self)@.wf(),
            final(self)@ == old(self)@.with_wakers(
                task,
                (old(self)@.store.tasks[task].wakers - 1) as u64,
            ).collected(task),
            dropped == (if old(self)@.store.tasks[task].wakers == 1 && !old(self)@.runs(task)
                && !old(self)@.store.queued(task) {
                Some(old(self)@.store.tasks[task].task)
            } else {
                None
            }),
    {
        let wakers = self.store.wakers(task) - 1;
        self.store.set_wakers(task, wakers);
        let ghost fewer = old(self)@.with_wakers(task, wakers);
        assert(self@ =~= fewer);
        let runs = self.is_running(task);
        let dropped = self.store.collect(task, runs);
        proof {
            old(self)@.lemma_waker_dropped(task, wakers);
            fewer.store.lemma_same_queues(old(self)@.store);
            assert(self@ =~= fewer.collected(task));
        }
        dropped
    }

    /// Whether some worker is polling `task`.
    fn is_running(&self, task: u64) -> (found: bool)
        ensures
            found == self@.runs(task),
    {
        let mut w: usize = 0;
        while w < self.workers.len()
            invariant
                w <= self@.workers.len(),
                forall|i: int| 0 <= i < w ==> !(#[trigger] self@.workers[i]).runs(task),
            decreases self@.workers.len() - w,
        {
            let found = match self.workers[w] {
                Phase::Own { task: t } => t == task,
                Phase::Stolen { task: t, next: _ } => t == task,
                _ => false,
            };
            if found {
                assert(self@.workers[w as int].runs(task));
                return true;
            }
            w += 1;
        }
        false
    }

    /// Counts a finished task. The last one makes the workers stop and unparks them all.
    pub fn on_task_complete(&mut self)
        requires
            old(self)@.wf(),
            old(self)@.active > 0,
        ensures
            final(self)@.wf(),
            final(self)@ == old(self)@.task_completed(),
    {
        self.active_tasks -= 1;
        if self.active_tasks == 0 {
            self.shutdown = true;
            self.unpark_all();
        }
        proof {
            old(self)@.lemma_task_completed();
            assert(self@ =~= old(self)@.task_completed());
        }
    }

    /// Goes round the neighbours of worker `id` from the `from`-th on, and takes the newest task
    /// of the first that has one.
    fn steal(&mut self, id: usize, from: usize) -> (action: Option<Action>)
        requires
            old(self)@.wf(),
            old(self)@.started(),
            id < old(self)@.workers.len(),
            old(self)@.workers[id as int].decides(),
            1 <= from,
        ensures
            final(self)@.wf(),
            match old(self)@.victim(id as int, from as int) {
                Some(i) => {
                    let m = Move::Steal { i };
                    &&& action == Some(old(self)@.action(id as int, m))
                    &&& final(self)@ == old(self)@.moved(id as int, m)
                },
                None => action is None && final(self)@ == old(self)@,
            },
    {
        let mut i: usize = from;
        while i < THREAD_COUNT
            invariant
                1 <= from <= i,
                self@ == old(self)@,
                self@.wf(),
                self@.started(),
                id < self@.workers.len(),
                self@.workers[id as int].decides(),
                self@.victim(id as int, from as int) == self@.victim(id as int, i as int),
            decreases THREAD_COUNT - i,
        {
            let q = (id % THREAD_COUNT + i) % THREAD_COUNT;
            assert(q == neighbour(id as int, i as int));
            match self.store.pop_back(q) {
                Some(task) => {
                    proof {
                        old(self)@.store.lemma_pop_back(q as int);
                    }
                    if let Some(kept) = self.store.get(task) {
                        let mut stolen = Task::new(
                            Arc::clone(&kept.future),
                            kept.join_handle.clone(),
                            kept.thread_id,
                        );
                        stolen.new_parent_thread(id);
                        self.store.set_task(task, stolen);
                    }
                    self.workers.set(id, Phase::Stolen { task, next: i + 1 });
                    proof {
                        old(self)@.lemma_steal(id as int, i as int);
                        assert(self@ =~= old(self)@.moved(id as int, Move::Steal { i: i as int }));
                    }
                    return Some(Action::Poll { task, stolen_from: Some(q) });
                },
                None => {},
            }
            i += 1;
        }
        None
    }

    /// Decides what worker `id` does next, and books it.
    ///
    /// At the top of its loop a worker stops if it is to stop; else it takes the oldest task of
    /// its own queue; else it goes round its neighbours and takes the newest task of the first
    /// that has one, which belongs to it from then on; else it parks. After a stolen task was
    /// polled the round goes on to its end before the worker is back at the top.
    pub fn run(&mut self, id: usize) -> (action: Action)
        requires
            old(self)@.wf(),
            old(self)@.started(),
            id < old(self)@.workers.len(),
            old(self)@.workers[id as int].decides(),
        ensures
            final(self)@.wf(),
            action == old(self)@.action(id as int, old(self)@.next_move(id as int)),
            final(self)@ == old(self)@.moved(id as int, old(self)@.next_move(id as int)),
            forall|t: u64|
                #![trigger final(self)@.store.tasks[t]]
                old(self)@.store.tasks.contains_key(t) ==> {
                    let before = old(self)@.store.tasks[t];
                    let after = final(self)@.store.tasks[t];
                    &&& final(self)@.store.tasks.contains_key(t)
                    &&& after.wakers == before.wakers
                    &&& after.task.future == before.task.future
                    &&& after.task.join_handle == before.task.join_handle
                },
    {
        if let Phase::Scan { next } = self.workers[id] {
            assert(self@.workers[id as int].wf());
            if let Some(action) = self.steal(id, next) {
                return action;
            }
        }
        if self.shutdown {
            self.workers.set(id, Phase::Stopped);
            proof {
                old(self)@.lemma_rest(id as int, Phase::Stopped);
            }
            return Action::Stop;
        }
        match self.store.pop_front(id) {
            Some(task) => {
                self.workers.set(id, Phase::Own { task });
                proof {
                    old(self)@.lemma_own(id as int);
                    assert(self@ =~= old(self)@.moved(id as int, Move::Own));
                }
                Action::Poll { task, stolen_from: None }
            },
            None => match self.steal(id, 1) {
                Some(action) => action,
                None => {
                    self.workers.set(id, Phase::Parked);
                    proof {
                        old(self)@.lemma_rest(id as int, Phase::Parked);
                    }
                    Action::Park
                },
            },
        }
    }

    /// Books that worker `id` has polled its task: the outcome was a value if `ready`. The worker
    /// no longer refers to the task; if it was the last that did, what the executor kept of the
    /// task is handed out.
    pub fn poll_returned(&mut self, id: usize, ready: bool) -> (dropped: Option<Task<F>>)
        requires
            old(self)@.wf(),
            id < old(self)@.workers.len(),
            old(self)@.workers[id as int] is Own || old(self)@.workers[id as int] is Stolen,
            ready ==> old(self)@.active > 0,
        ensures
            final(self)@.wf(),
            final(self)@ == old(self)@.poll_returned(id as int, ready),
            dropped == ({
                let task = old(self)@.task_of(id as int);
                let rest = old(self)@.with_phase(
                    id as int,
                    old(self)@.workers[id as int].after_poll(),
                );
                if rest.store.unreferenced(task, rest.runs(task)) {
                    Some(rest.store.tasks[task].task)
                } else {
                    None
                }
            }),
    {
        if ready {
            self.on_task_complete();
        }
        let ghost counted = self@;
        let (task, phase) = match self.workers[id] {
            Phase::Own { task } => (task, Phase::Top),
            Phase::Stolen { task, next } => (task, Phase::Scan { next }),
            other => (0, other),
        };
        self.workers.set(id, phase);
        let ghost rest = counted.with_phase(id as int, phase);
        assert(self@ =~= rest);
        let runs = self.is_running(task);
        proof {
            old(self)@.lemma_poll_returned(id as int, ready);
            assert(counted.workers[id as int].runs(task));
            assert(running(counted.workers).contains(task));
        }
        let dropped = self.store.collect(task, runs);
        assert(self@ =~= rest.collected(task));
        dropped
    }

    /// Ends the sleep of worker `id` if it has been unparked, and says whether it has. The worker
    /// is then back at the top of its loop.
    pub fn park_returned(&mut self, id: usize) -> (awake: bool)
        requires
            old(self)@.wf(),
            id < old(self)@.workers.len(),
            old(self)@.workers[id as int] is Parked,
        ensures
            final(self)@.wf(),
            awake == old(self)@.notified(id as int),
            !awake ==> final(self)@ == old(self)@,
            awake ==> final(self)@ == old(self)@.awoken(id as int),
    {
        match self.threads.take() {
            Some(mut threads) => {
                let awake = id < threads.len() && threads[id];
                if awake {
                    threads.set(id, false);
                    self.workers.set(id, Phase::Top);
                }
                self.threads = Some(threads);
                proof {
                    if awake {
                        old(self)@.lemma_awoken(id as int);
                        assert(self@ =~= old(self)@.awoken(id as int));
                    }
                }
                awake
            },
            None => false,
        }
    }
}

/// What a worker thread begins with.
#[derive(Debug, PartialEq, Eq)]
pub struct WorkerStart {
    /// The number of the worker.
    pub thread_id: usize,
    /// How many main tasks it is to spawn once the start barrier is passed.
    pub main_tasks: usize,
}

/// Enters a worker thread: it gets its queue, and the first one is to spawn the main tasks.
pub fn main_for_workers<F>(executor: &mut Executor<F>) -> (start: WorkerStart)
    requires
        old(executor)@.wf(),
    ensures
        final(executor)@.wf(),
        final(executor)@ == old(executor)@.registered(),
        start.thread_id == old(executor)@.workers.len(),
        start.main_tasks == if start.thread_id == 0 {
            MAIN_TASKS
        } else {
            0
        },
        start.thread_id == 0 ==> start.main_tasks == 4,
{
    let thread_id = executor.register_worker();
    let main_tasks = if thread_id == 0 {
        MAIN_TASKS
    } else {
        0
    };
    WorkerStart { thread_id, main_tasks }
}

/// 1 for a worker that is polling `task`, 0 for any other.
pub open spec fn polling(task: u64) -> spec_fn(Phase) -> nat {
    |phase: Phase|
        if phase.runs(task) {
            1nat
        } else {
            0nat
        }
}

impl<F> ExecutorView<F> {
    /// How many turns of `task` are outstanding: how often it waits in the queues, and how many
    /// workers are polling it.
    pub open spec fn turns(self, task: u64) -> nat {
        self.store.waiting(task) + tally(self.workers, polling(task))
    }
}

/// A worker thread never sleeps while there is something to do: if it is parked and has not been
/// unparked, no task waits in any queue that it looks at, and it is not to stop.
pub proof fn law_no_sleep_over_work<F>(v: ExecutorView<F>, w: int)
    requires
        v.wf(),
        v.asleep(w),
    ensures
        !v.shutdown,
        forall|q: int|
            0 <= q < v.store.queues.len() && q < THREAD_COUNT ==> (
            #[trigger] v.store.queues[q]).len() == 0,
{
}

/// A worker goes to sleep only where there is nothing to do: if it decides to park, no task waits
/// in any queue of the worker threads, and it is not to stop.
pub proof fn law_parks_only_without_work<F>(v: ExecutorView<F>, id: int)
    requires
        v.wf(),
        v.started(),
        0 <= id < THREAD_COUNT,
        v.workers[id].decides(),
        v.next_move(id) is Park,
    ensures
        v.idle(),
{
    v.lemma_victim(id, 1);
    assert forall|q: int| 0 <= q < THREAD_COUNT implies (#[trigger] v.store.queues[q]).len()
        == 0 by {
        ExecutorView::<F>::lemma_neighbours(id, q);
    }
}

/// Once the workers have started, a task that is spawned or woken leaves no worker asleep, and
/// neither does the end of the last task.
pub proof fn law_new_work_rouses_all<F>(v: ExecutorView<F>, id: int, task: Task<F>, t: u64, w: int)
    requires
        v.wf(),
        v.started(),
    ensures
        !v.spawned(id, task).asleep(w),
        !v.readied(t).asleep(w),
        v.active == 1 ==> !v.task_completed().asleep(w),
{
}

/// In one round a worker looks at the queue of every other worker, at each once, and never at its
/// own.
pub proof fn law_round_visits_all_others(id: int, q: int)
    requires
        0 <= id < THREAD_COUNT,
        0 <= q < THREAD_COUNT,
        q != id,
    ensures
        exists|i: int| 1 <= i < THREAD_COUNT && #[trigger] neighbour(id, i) == q,
        forall|i: int, j: int|
            1 <= i < j < THREAD_COUNT ==> #[trigger] neighbour(id, i) != #[trigger] neighbour(
                id,
                j,
            ),
        forall|i: int| 1 <= i < THREAD_COUNT ==> #[trigger] neighbour(id, i) != id,
{
    ExecutorView::<()>::lemma_neighbours(id, q);
}

/// A task that was stolen belongs to the thief: woken after that, it goes to the back of the
/// thief's queue.
pub proof fn law_stolen_task_moves_home<F>(v: ExecutorView<F>, id: int, i: int)
    requires
        v.wf(),
        v.started(),
        0 <= id < v.workers.len(),
        id <= usize::MAX,
        v.workers[id].decides(),
        v.next_move(id) == (Move::Steal { i }),
    ensures
        ({
            let task = v.store.queues[neighbour(id, i)].last();
            let after = v.moved(id, Move::Steal { i });
            &&& after.store.tasks[task].task.thread_id == id
            &&& after.readied(task).store.queues[id] == after.store.queues[id].push(task)
        }),
{
}

/// Deciding what to do next loses no task and makes none up: every task has as many turns
/// outstanding after the decision as before it.
pub proof fn law_decision_keeps_turns<F>(v: ExecutorView<F>, id: int, t: u64)
    requires
        v.wf(),
        v.started(),
        0 <= id < v.workers.len(),
        v.workers[id].decides(),
    ensures
        v.moved(id, v.next_move(id)).turns(t) == v.turns(t),
{
    let m = v.next_move(id);
    let after = v.moved(id, m);
    v.lemma_victim(id, 1);
    if let Phase::Scan { next } = v.workers[id] {
        assert(v.workers[id].wf());
        v.lemma_victim(id, next as int);
    }
    lemma_tally_update(v.workers, id, after.workers[id], polling(t));
    match m {
        Move::Own => {
            v.store.lemma_waiting_pop_front(id, t);
        },
        Move::Steal { i } => {
            v.store.lemma_waiting_pop_back(neighbour(id, i), t);
        },
        _ => {},
    }
}

/// Waking a task gives it exactly one turn more, and no other task any.
pub proof fn law_wake_gives_one_turn<F>(v: ExecutorView<F>, task: u64, wakers: u64, t: u64)
    requires
        v.wf(),
        v.store.tasks.contains_key(task),
    ensures
        ({
            let more = if t == task {
                1nat
            } else {
                0nat
            };
            &&& v.readied(task).turns(t) == v.turns(t) + more
            &&& v.with_wakers(task, wakers).readied(task).turns(t) == v.turns(t) + more
        }),
{
    let q = v.store.tasks[task].task.thread_id as int;
    v.store.lemma_waiting_push(task, q, t);
    assert(v.with_wakers(task, wakers).readied(task).store.queues == v.store.push(task, q).queues);
}

/// A task that is spawned has exactly one turn; no other task is touched.
pub proof fn law_spawn_gives_one_turn<F>(v: ExecutorView<F>, id: int, task: Task<F>, t: u64)
    requires
        v.wf(),
        0 <= id < v.workers.len(),
        v.store.next < u64::MAX,
    ensures
        v.turns(v.store.next) == 0,
        v.spawned(id, task).turns(v.store.next) == 1,
        t != v.store.next ==> v.spawned(id, task).turns(t) == v.turns(t),
{
    let new = v.store.next;
    v.store.lemma_waiting_push(new, id, t);
    v.store.lemma_waiting_push(new, id, new);
    assert(v.spawned(id, task).store.queues == v.store.push(new, id).queues);
    v.store.lemma_waiting(new);
    lemma_tally_positive(v.workers, polling(new));
    if tally(v.workers, polling(new)) > 0 {
        let w = choose|w: int|
            0 <= w < v.workers.len() && polling(new)(#[trigger] v.workers[w]) > 0;
        assert(v.workers[w].runs(new));
        assert(running(v.workers).contains(new));
    }
}

/// A poll uses up exactly one turn of the polled task, and none of any other.
pub proof fn law_poll_uses_one_turn<F>(v: ExecutorView<F>, id: int, ready: bool, t: u64)
    requires
        v.wf(),
        0 <= id < v.workers.len(),
        v.workers[id] is Own || v.workers[id] is Stolen,
        ready ==> v.active > 0,
    ensures
        v.turns(t) == v.poll_returned(id, ready).turns(t) + if t == v.task_of(id) {
            1nat
        } else {
            0nat
        },
{
    lemma_tally_update(v.workers, id, v.workers[id].after_poll(), polling(t));
}

/// The executor keeps a task exactly as long as it has a turn outstanding or a waker exists that
/// can give it one.
pub proof fn law_record_lives_with_references<F>(v: ExecutorView<F>, t: u64)
    requires
        v.wf(),
    ensures
        v.turns(t) > 0 ==> v.store.tasks.contains_key(t),
        v.store.tasks.contains_key(t) ==> v.turns(t) > 0 || v.store.tasks[t].wakers > 0,
{
    v.store.lemma_waiting(t);
    lemma_tally_positive(v.workers, polling(t));
    if tally(v.workers, polling(t)) > 0 {
        let w = choose|w: int|
            0 <= w < v.workers.len() && polling(t)(#[trigger] v.workers[w]) > 0;
        assert(v.workers[w].runs(t));
        assert(running(v.workers).contains(t));
    }
    if running(v.workers).contains(t) {
        let w = choose|w: int| 0 <= w < v.workers.len() && #[trigger] v.workers[w].runs(t);
        assert(polling(t)(v.workers[w]) > 0);
    }
}

/// A worker at the top of its loop stops exactly if the workers are to stop. They are to stop from
/// the moment at which the last task that had not finished finishes, and for no other reason.
pub proof fn law_workers_stop_after_the_last_task<F>(
    v: ExecutorView<F>,
    id: int,
    m: Move,
    task: Task<F>,
    t: u64,
    wakers: u64,
)
    requires
        v.wf(),
        v.started(),
        0 <= id < v.workers.len(),
    ensures
        v.workers[id] is Top ==> (v.next_move(id) is Stop <==> v.shutdown),
        v.active > 0 ==> (v.task_completed().shutdown <==> v.shutdown || v.active == 1),
        v.active > 0 ==> (v.poll_returned(id, true).shutdown <==> v.shutdown || v.active == 1),
        v.poll_returned(id, false).shutdown == v.shutdown,
        v.moved(id, m).shutdown == v.shutdown,
        v.spawned(id, task).shutdown == v.shutdown,
        v.readied(t).shutdown == v.shutdown,
        v.with_wakers(t, wakers).shutdown == v.shutdown,
        v.collected(t).shutdown == v.shutdown,
{
}

/// A task that waits for another gets a turn when the other finishes, and then finds its value: the
/// task `waiter` polls the handle of the other, the other finishes with `value`, the waker that the
/// slot hands out is that of the waiter, and waking it gives it one turn more.
pub proof fn law_finished_task_readies_its_waiter<F, T>(
    v: ExecutorView<F>,
    cell: JoinCell<T, u64>,
    waiter: u64,
    value: T,
)
    requires
        v.wf(),
        v.store.tasks.contains_key(waiter),
        v.store.tasks[waiter].wakers > 0,
        cell.result is None,
    ensures
        cell.outcome() is Pending,
        cell.polled(waiter).waker == Some(waiter),
        cell.polled(waiter).completed(value).outcome() == Poll::Ready(value),
        v.with_wakers(waiter, (v.store.tasks[waiter].wakers - 1) as u64).readied(waiter).turns(
            waiter,
        ) == v.turns(waiter) + 1,
{
    law_wake_gives_one_turn(v, waiter, (v.store.tasks[waiter].wakers - 1) as u64, waiter);
}

/// Whether a worker is polling a task, and where it goes when the poll is over: from a task of its
/// own back to the top of its loop, from a stolen one on with its round. Only a worker at the top
/// or in a round decides.
pub proof fn law_phases_of_the_loop(phase: Phase, task: u64, next: usize, t: u64)
    ensures
        (Phase::Own { task }).runs(t) <==> t == task,
        (Phase::Stolen { task, next }).runs(t) <==> t == task,
        !(phase is Own) && !(phase is Stolen) ==> !phase.runs(t),
        (Phase::Own { task }).after_poll() is Top,
        (Phase::Stolen { task, next }).after_poll() == (Phase::Scan { next }),
        phase.decides() <==> phase is Top || phase is Scan,
{
}

/// A task is being polled exactly if some worker polls it, be it as its own or as a stolen one.
pub proof fn law_polled_means_a_worker_polls<F>(v: ExecutorView<F>, t: u64)
    ensures
        v.runs(t) <==> exists|w: int|
            0 <= w < v.workers.len() && (#[trigger] v.workers[w] is Own || v.workers[w] is Stolen)
                && v.task_of(w) == t,
{
    if v.runs(t) {
        let w = choose|w: int| 0 <= w < v.workers.len() && #[trigger] v.workers[w].runs(t);
        assert(v.workers[w] is Own || v.workers[w] is Stolen);
    }
    if exists|w: int|
        0 <= w < v.workers.len() && (#[trigger] v.workers[w] is Own || v.workers[w] is Stolen)
            && v.task_of(w) == t {
        let w = choose|w: int|
            0 <= w < v.workers.len() && (#[trigger] v.workers[w] is Own || v.workers[w] is Stolen)
                && v.task_of(w) == t;
        assert(v.workers[w].runs(t));
    }
}

/// The task of a worker is the one that its phase names.
pub proof fn law_phase_names_the_task<F>(v: ExecutorView<F>, id: int)
    ensures
        v.workers[id] matches Phase::Own { task } ==> v.task_of(id) == task,
        v.workers[id] matches Phase::Stolen { task, next } ==> v.task_of(id) == task,
{
}

/// A worker that comes to a phase is in it; no other worker `w` moves, and nothing else changes.
pub proof fn law_phase_of_one_worker<F>(v: ExecutorView<F>, id: int, phase: Phase, w: int)
    requires
        0 <= id < v.workers.len(),
    ensures
        ({
            let after = v.with_phase(id, phase);
            &&& after.workers.len() == v.workers.len()
            &&& after.workers[id] == phase
            &&& 0 <= w < v.workers.len() && w != id ==> after.workers[w] == v.workers[w]
            &&& after.store == v.store
            &&& after.tokens == v.tokens
            &&& after.active == v.active
            &&& after.shutdown == v.shutdown
        }),
{
}

/// Whatever a worker decides, the same tasks are kept, each with the future, the handle and the
/// wakers that it had. Only a task that the worker steals changes, and of it only to whom it
/// belongs: to the thief.
pub proof fn law_decision_keeps_records<F>(v: ExecutorView<F>, id: int, t: u64)
    requires
        v.wf(),
        v.started(),
        0 <= id < v.workers.len(),
        id <= usize::MAX,
        v.workers[id].decides(),
    ensures
        ({
            let after = v.moved(id, v.next_move(id));
            let stolen = after.workers[id] matches Phase::Stolen { task, next } && task == t;
            &&& after.store.tasks.contains_key(t) == v.store.tasks.contains_key(t)
            &&& v.store.tasks.contains_key(t) ==> {
                &&& after.store.tasks[t].wakers == v.store.tasks[t].wakers
                &&& after.store.tasks[t].task.future == v.store.tasks[t].task.future
                &&& after.store.tasks[t].task.join_handle == v.store.tasks[t].task.join_handle
                &&& stolen ==> after.store.tasks[t].task.thread_id == id
                &&& !stolen ==> after.store.tasks[t].task.thread_id
                    == v.store.tasks[t].task.thread_id
            }
            &&& after.store.next == v.store.next
            &&& after.tokens == v.tokens
            &&& after.active == v.active
            &&& after.shutdown == v.shutdown
        }),
{
    v.lemma_moved(id);
}

/// A worker that decides goes on itself; every other worker `w` stays where it is.
pub proof fn law_decision_moves_one_worker<F>(v: ExecutorView<F>, id: int, w: int)
    requires
        v.wf(),
        v.started(),
        0 <= id < v.workers.len(),
        v.workers[id].decides(),
    ensures
        v.moved(id, v.next_move(id)).workers.len() == v.workers.len(),
        0 <= w < v.workers.len() && w != id ==> v.moved(id, v.next_move(id)).workers[w]
            == v.workers[w],
{
}

/// At the top of its loop a worker that is to stop stops, and leaves everything else as it is.
pub proof fn law_worker_stops_when_told<F>(v: ExecutorView<F>, id: int)
    requires
        v.wf(),
        v.started(),
        0 <= id < v.workers.len(),
        v.workers[id] is Top,
        v.shutdown,
    ensures
        v.action(id, v.next_move(id)) is Stop,
        v.moved(id, v.next_move(id)).workers[id] is Stopped,
        v.moved(id, v.next_move(id)).store == v.store,
{
}

/// At the top of its loop a worker that is not to stop polls the oldest task of its own queue, if
/// there is one. The others in the queue move one place forward, and no other queue is touched.
pub proof fn law_worker_takes_its_oldest_task<F>(v: ExecutorView<F>, id: int, i: int, p: int)
    requires
        v.wf(),
        v.started(),
        0 <= id < v.workers.len(),
        v.workers[id] is Top,
        !v.shutdown,
        v.store.queues[id].len() > 0,
    ensures
        ({
            let after = v.moved(id, v.next_move(id));
            let task = v.store.queues[id][0];
            let places = v.store.queues[id].len() as int;
            &&& v.action(id, v.next_move(id)) == (Action::Poll { task, stolen_from: None })
            &&& after.workers[id] == (Phase::Own { task })
            &&& after.store.queues.len() == v.store.queues.len()
            &&& after.store.queues[id].len() == places - 1
            &&& 0 < i < places ==> after.store.queues[id][i - 1] == v.store.queues[id][i]
            &&& 0 <= p < v.store.queues.len() && p != id ==> after.store.queues[p]
                == v.store.queues[p]
            &&& after.store.tasks == v.store.tasks
        }),
{
}

/// A worker without a task of its own steals the newest task of the first neighbour that has one,
/// where it begins with the next worker and goes round, in fours. In a round in which it has stolen
/// it goes on where it stopped, has it a task of its own or not, is it to stop or not. The others
/// in the queue of the neighbour stay in their places, and no other queue is touched.
pub proof fn law_worker_steals_the_newest_task<F>(
    v: ExecutorView<F>,
    id: int,
    from: int,
    i: int,
    k: int,
    p: int,
)
    requires
        v.wf(),
        v.started(),
        0 <= id < v.workers.len(),
        id <= usize::MAX,
        v.workers[id] is Top ==> from == 1 && !v.shutdown && v.store.queues[id].len() == 0,
        !(v.workers[id] is Top) ==> (v.workers[id] matches Phase::Scan { next } && from == next),
        from <= i < 4,
        v.store.queues[(id + i) % 4].len() > 0,
        forall|j: int| from <= j < i ==> (#[trigger] v.store.queues[(id + j) % 4]).len() == 0,
    ensures
        ({
            let after = v.moved(id, v.next_move(id));
            let q = (id + i) % 4;
            let places = v.store.queues[q].len() as int;
            let task = v.store.queues[q][places - 1];
            &&& v.action(id, v.next_move(id)) == (Action::Poll {
                task,
                stolen_from: Some(q as usize),
            })
            &&& after.workers[id] == (Phase::Stolen { task, next: (i + 1) as usize })
            &&& after.store.tasks[task].task.thread_id == id
            &&& after.store.queues.len() == v.store.queues.len()
            &&& after.store.queues[q].len() == places - 1
            &&& 0 <= k < places - 1 ==> after.store.queues[q][k] == v.store.queues[q][k]
            &&& 0 <= p < v.store.queues.len() && p != q ==> after.store.queues[p]
                == v.store.queues[p]
        }),
{
    assert(v.workers[id].wf());
    v.lemma_victim(id, from);
    assert(neighbour(id, i) == (id + i) % 4);
    if let Some(first) = v.victim(id, from) {
        assert(neighbour(id, first) == (id + first) % 4);
        if first < i {
            assert(v.store.queues[(id + first) % 4].len() == 0);
        }
        if i < first {
            assert(v.store.queues[neighbour(id, i)].len() == 0);
        }
    }
}

/// At the end of a round in which it has stolen, where none of the neighbours that are left has a
/// task, a worker does what it does at the top of its loop.
pub proof fn law_round_ends_at_the_top<F>(v: ExecutorView<F>, id: int, next: usize)
    requires
        v.wf(),
        v.started(),
        0 <= id < v.workers.len(),
        v.workers[id] == (Phase::Scan { next }),
        forall|j: int| next <= j < 4 ==> (#[trigger] v.store.queues[(id + j) % 4]).len() == 0,
    ensures
        ({
            let top = ExecutorView { workers: v.workers.update(id, Phase::Top), ..v };
            let m = v.next_move(id);
            &&& v.action(id, m) == top.action(id, top.next_move(id))
            &&& v.moved(id, m).workers[id] == top.moved(id, top.next_move(id)).workers[id]
            &&& v.moved(id, m).store == top.moved(id, top.next_move(id)).store
        }),
{
    let top = ExecutorView { workers: v.workers.update(id, Phase::Top), ..v };
    v.lemma_victim(id, next as int);
    if let Some(first) = v.victim(id, next as int) {
        assert(neighbour(id, first) == (id + first) % 4);
        assert(v.store.queues[(id + first) % 4].len() == 0);
    }
    v.lemma_same_victim(top, id, 1);
}

/// At the top of its loop a worker parks exactly if it is not to stop, has no task of its own, and
/// none of its three neighbours has one. It leaves everything else as it is.
pub proof fn law_worker_parks_without_work<F>(v: ExecutorView<F>, id: int)
    requires
        v.wf(),
        v.started(),
        0 <= id < v.workers.len(),
        v.workers[id] is Top,
    ensures
        v.action(id, v.next_move(id)) is Park <==> {
            &&& !v.shutdown
            &&& v.store.queues[id].len() == 0
            &&& v.store.queues[(id + 1) % 4].len() == 0
            &&& v.store.queues[(id + 2) % 4].len() == 0
            &&& v.store.queues[(id + 3) % 4].len() == 0
        },
        v.action(id, v.next_move(id)) is Park ==> {
            &&& v.moved(id, v.next_move(id)).workers[id] is Parked
            &&& v.moved(id, v.next_move(id)).store == v.store
        },
{
    v.lemma_victim(id, 1);
    assert(neighbour(id, 1) == (id + 1) % 4);
    assert(neighbour(id, 2) == (id + 2) % 4);
    assert(neighbour(id, 3) == (id + 3) % 4);
    if let Some(i) = v.victim(id, 1) {
        assert(i == 1 || i == 2 || i == 3);
    } else {
        assert(v.store.queues[neighbour(id, 1)].len() == 0);
        assert(v.store.queues[neighbour(id, 2)].len() == 0);
        assert(v.store.queues[neighbour(id, 3)].len() == 0);
    }
}

/// A worker thread that is parked and has not been unparked has nothing to do: the workers are not
/// to stop, and no task waits in the queue of any worker thread.
pub proof fn law_parked_worker_misses_nothing<F>(v: ExecutorView<F>, w: int, q: int)
    requires
        v.wf(),
        0 <= w < v.workers.len(),
        w < 4,
        v.workers[w] is Parked,
        v.tokens matches Some(tokens) ==> !tokens[w],
        0 <= q < v.workers.len(),
        q < 4,
    ensures
        !v.shutdown,
        v.store.queues[q].len() == 0,
{
    assert(v.asleep(w));
}

/// A task that is spawned is recorded under the next number as it was given, future, handle and
/// worker, without a waker, is the last in the queue of its worker, and is counted. All worker
/// threads are unparked, if they are known. No other record, no other place and no other queue `p`
/// is touched, and no worker moves.
pub proof fn law_spawn_records_what_is_given<F>(
    v: ExecutorView<F>,
    id: int,
    task: Task<F>,
    t: u64,
    i: int,
    p: int,
)
    requires
        v.wf(),
        0 <= id < v.workers.len(),
        v.active < u64::MAX,
        v.store.next < u64::MAX,
    ensures
        ({
            let after = v.spawned(id, task);
            let new = v.store.next;
            let places = v.store.queues[id].len() as int;
            &&& after.store.tasks.contains_key(new)
            &&& after.store.tasks[new].task == task
            &&& after.store.tasks[new].wakers == 0
            &&& after.store.queues.len() == v.store.queues.len()
            &&& after.store.queues[id].len() == places + 1
            &&& after.store.queues[id][places] == new
            &&& 0 <= i < places ==> after.store.queues[id][i] == v.store.queues[id][i]
            &&& 0 <= p < v.store.queues.len() && p != id ==> after.store.queues[p]
                == v.store.queues[p]
            &&& t != new ==> after.store.tasks.contains_key(t) == v.store.tasks.contains_key(t)
            &&& t != new && v.store.tasks.contains_key(t) ==> after.store.tasks[t]
                == v.store.tasks[t]
            &&& after.store.next == new + 1
            &&& after.active == v.active + 1
            &&& after.workers == v.workers
            &&& after.shutdown == v.shutdown
            &&& after.tokens is Some <==> v.tokens is Some
            &&& after.tokens matches Some(tokens) ==> tokens.len() == 4 && (0 <= i < 4
                ==> tokens[i])
        }),
{
}

/// A task that is woken gets the last place of the queue of the worker to which it belongs, and all
/// worker threads are unparked, if they are known. No record, no other place and no other queue `p`
/// is touched, and no worker moves.
pub proof fn law_wake_goes_to_the_worker_of_the_task<F>(
    v: ExecutorView<F>,
    task: u64,
    i: int,
    p: int,
)
    requires
        v.wf(),
        v.store.tasks.contains_key(task),
    ensures
        ({
            let after = v.readied(task);
            let q = v.store.tasks[task].task.thread_id as int;
            let places = v.store.queues[q].len() as int;
            &&& after.store.queues.len() == v.store.queues.len()
            &&& after.store.queues[q].len() == places + 1
            &&& after.store.queues[q][places] == task
            &&& 0 <= i < places ==> after.store.queues[q][i] == v.store.queues[q][i]
            &&& 0 <= p < v.store.queues.len() && p != q ==> after.store.queues[p]
                == v.store.queues[p]
            &&& after.store.tasks == v.store.tasks
            &&& after.store.next == v.store.next
            &&& after.active == v.active
            &&& after.workers == v.workers
            &&& after.shutdown == v.shutdown
            &&& after.tokens is Some <==> v.tokens is Some
            &&& after.tokens matches Some(tokens) ==> tokens.len() == 4 && (0 <= i < 4
                ==> tokens[i])
        }),
{
}

/// A waker that is made or dropped changes the number of wakers of its task. A record goes exactly
/// if no waker of the task exists, no worker is polling it and it has no place in any queue.
/// Nothing else changes.
pub proof fn law_wakers_are_counted<F>(v: ExecutorView<F>, task: u64, wakers: u64, t: u64)
    requires
        v.wf(),
        v.store.tasks.contains_key(task),
    ensures
        ({
            let counted = v.with_wakers(task, wakers);
            let after = v.collected(task);
            let placed = exists|q: int, k: int|
                0 <= q < v.store.queues.len() && 0 <= k < v.store.queues[q].len()
                    && #[trigger] v.store.queues[q][k] == task;
            let polled = exists|w: int|
                0 <= w < v.workers.len() && (#[trigger] v.workers[w] is Own || v.workers[w]
                    is Stolen) && v.task_of(w) == task;
            &&& counted.store.tasks[task].wakers == wakers
            &&& counted.store.tasks[task].task == v.store.tasks[task].task
            &&& counted.store.tasks.contains_key(t) == v.store.tasks.contains_key(t)
            &&& t != task && v.store.tasks.contains_key(t) ==> counted.store.tasks[t]
                == v.store.tasks[t]
            &&& after.store.tasks.contains_key(task) <==> v.store.tasks[task].wakers > 0 || polled
                || placed
            &&& t != task ==> after.store.tasks.contains_key(t) == v.store.tasks.contains_key(t)
            &&& after.store.tasks.contains_key(t) ==> after.store.tasks[t] == v.store.tasks[t]
            &&& counted.store.queues == v.store.queues && after.store.queues == v.store.queues
            &&& counted.store.next == v.store.next && after.store.next == v.store.next
            &&& counted.workers == v.workers && after.workers == v.workers
            &&& counted.tokens == v.tokens && after.tokens == v.tokens
            &&& counted.active == v.active && after.active == v.active
            &&& counted.shutdown == v.shutdown && after.shutdown == v.shutdown
        }),
{
    law_polled_means_a_worker_polls(v, task);
    law_record_goes_without_references(v.store, task, v.runs(task), t);
}

/// A task that finishes is counted; the last one makes the workers stop and unparks all their
/// threads. Nothing else changes.
pub proof fn law_last_task_ends_the_run<F>(v: ExecutorView<F>, i: int)
    requires
        v.wf(),
        v.active > 0,
    ensures
        ({
            let after = v.task_completed();
            &&& after.active == v.active - 1
            &&& v.active == 1 ==> after.shutdown
            &&& v.active > 1 ==> after.shutdown == v.shutdown && after.tokens == v.tokens
            &&& after.tokens is Some <==> v.tokens is Some
            &&& v.active == 1 && 0 <= i < 4 ==> (after.tokens matches Some(tokens) ==> tokens.len()
                == 4 && tokens[i])
            &&& after.store == v.store
            &&& after.workers == v.workers
        }),
{
}

/// When the poll of a worker is over, the worker goes back to the top of its loop from a task of
/// its own, and on with its round from a stolen one. A value counts one task less, and the last one
/// makes the workers stop. The record of the task stays exactly if a waker of it exists, it has a
/// place in some queue, or another worker is polling it. No other worker `w` moves, no other record
/// changes, and no queue.
pub proof fn law_poll_ends_with_or_without_a_value<F>(
    v: ExecutorView<F>,
    id: int,
    ready: bool,
    t: u64,
    w: int,
)
    requires
        v.wf(),
        0 <= id < v.workers.len(),
        v.workers[id] is Own || v.workers[id] is Stolen,
        ready ==> v.active > 0,
    ensures
        ({
            let after = v.poll_returned(id, ready);
            let task = v.task_of(id);
            let placed = exists|q: int, k: int|
                0 <= q < v.store.queues.len() && 0 <= k < v.store.queues[q].len()
                    && #[trigger] v.store.queues[q][k] == task;
            let polled = exists|x: int|
                0 <= x < v.workers.len() && x != id && (#[trigger] v.workers[x] is Own
                    || v.workers[x] is Stolen) && v.task_of(x) == task;
            &&& v.workers[id] is Own ==> after.workers[id] is Top
            &&& v.workers[id] matches Phase::Stolen { task, next } ==> after.workers[id]
                == (Phase::Scan { next })
            &&& after.workers.len() == v.workers.len()
            &&& 0 <= w < v.workers.len() && w != id ==> after.workers[w] == v.workers[w]
            &&& ready ==> after.active == v.active - 1
            &&& !ready ==> after.active == v.active
            &&& after.shutdown <==> v.shutdown || (ready && v.active == 1)
            &&& !(ready && v.active == 1) ==> after.tokens == v.tokens
            &&& ready && v.active == 1 && 0 <= w < 4 ==> (after.tokens matches Some(tokens)
                ==> tokens.len() == 4 && tokens[w])
            &&& after.tokens is Some <==> v.tokens is Some
            &&& after.store.tasks.contains_key(task) <==> v.store.tasks[task].wakers > 0 || placed
                || polled
            &&& t != task ==> after.store.tasks.contains_key(t) == v.store.tasks.contains_key(t)
            &&& after.store.tasks.contains_key(t) ==> after.store.tasks[t] == v.store.tasks[t]
            &&& after.store.queues == v.store.queues
            &&& after.store.next == v.store.next
        }),
{
    let task = v.task_of(id);
    let phase = v.workers[id].after_poll();
    let counted = if ready {
        v.task_completed()
    } else {
        v
    };
    let rest = counted.with_phase(id, phase);
    assert(v.workers[id].runs(task));
    assert(running(v.workers).contains(task));
    law_record_goes_without_references(v.store, task, rest.runs(task), t);
    law_polled_means_a_worker_polls(rest, task);
    if rest.runs(task) {
        let x = choose|x: int|
            0 <= x < rest.workers.len() && (#[trigger] rest.workers[x] is Own || rest.workers[x]
                is Stolen) && rest.task_of(x) == task;
        assert(x != id);
        assert(v.workers[x] is Own || v.workers[x] is Stolen);
        assert(v.task_of(x) == task);
    }
    if exists|x: int|
        0 <= x < v.workers.len() && x != id && (#[trigger] v.workers[x] is Own || v.workers[x]
            is Stolen) && v.task_of(x) == task {
        let x = choose|x: int|
            0 <= x < v.workers.len() && x != id && (#[trigger] v.workers[x] is Own || v.workers[x]
                is Stolen) && v.task_of(x) == task;
        assert(rest.workers[x] is Own || rest.workers[x] is Stolen);
        assert(rest.task_of(x) == task);
    }
}

/// A worker that is registered is the last one, has an empty queue and begins at the top of its
/// loop. The threads that become known are four, none of them unparked. A parked worker that wakes
/// up uses up its being unparked and goes back to the top. Nothing else changes with any of these.
/// The workers have started once there are four and their threads are known.
pub proof fn law_workers_come_and_wake_up<F>(v: ExecutorView<F>, id: int, w: int)
    requires
        v.wf(),
        0 <= id < v.workers.len(),
        0 <= w < v.workers.len(),
    ensures
        ({
            let registered = v.registered();
            let known = v.with_threads();
            let new = v.workers.len() as int;
            &&& registered.workers.len() == new + 1
            &&& registered.workers[new] is Top
            &&& registered.workers[w] == v.workers[w]
            &&& registered.store.queues.len() == new + 1
            &&& registered.store.queues[new].len() == 0
            &&& registered.store.queues[w] == v.store.queues[w]
            &&& registered.store.tasks == v.store.tasks
            &&& registered.store.next == v.store.next
            &&& registered.tokens == v.tokens
            &&& registered.active == v.active
            &&& registered.shutdown == v.shutdown
            &&& known.tokens matches Some(tokens) && tokens.len() == 4 && (w < 4 ==> !tokens[w])
            &&& known.store == v.store
            &&& known.workers == v.workers
            &&& known.active == v.active
            &&& known.shutdown == v.shutdown
        }),
        v.tokens is Some && id < 4 ==> {
            let awake = v.awoken(id);
            &&& v.notified(id) == v.tokens->0[id]
            &&& awake.tokens matches Some(tokens) && tokens.len() == 4 && !tokens[id] && (w < 4
                && w != id ==> tokens[w] == v.tokens->0[w])
            &&& awake.workers.len() == v.workers.len()
            &&& awake.workers[id] is Top
            &&& w != id ==> awake.workers[w] == v.workers[w]
            &&& awake.store == v.store
            &&& awake.active == v.active
            &&& awake.shutdown == v.shutdown
        },
        v.tokens is None || id >= 4 ==> !v.notified(id),
        v.started() <==> v.workers.len() >= 4 && v.tokens is Some,
{
}

} // verus!
