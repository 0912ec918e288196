//! An executor on one thread with a queue of ready tasks.
//!
//! Spawning or waking a task sends it to the queue; the executor receives the tasks in the order
//! in which they were sent and polls them, until every task that was spawned has finished. Once the
//! receiving end of a channel is gone, what is sent to it is dropped.
//!
//! [`SpawnQueue`] holds the channels and what the executor keeps of the tasks. Its functions are
//! the steps between which futures are polled and the thread waits for a task to arrive.
use vstd::prelude::*;

use crate::join::{JoinCell, JoinCells, JoinHandle};
use crate::poll::Poll;
use crate::tally::{lemma_tally_update, occurrences};
use crate::task_store::{
    law_left_records_have_a_reason, law_queued_means_a_place, law_record_goes_without_references,
    places, released, StoreView, TaskStore,
};
use std::sync::Arc;

verus! {

/// The sending end of a channel of tasks.
#[derive(Clone, Copy, Debug, PartialEq, Eq, Structural)]
pub struct Sender {
    pub channel: usize,
}

/// The receiving end of a channel of tasks.
#[derive(Debug, PartialEq, Eq, Structural)]
pub struct Receiver {
    pub channel: usize,
}

/// What the executor keeps of a task.
#[derive(Debug)]
pub struct Task<F> {
    /// The future that is polled.
    pub future: Arc<F>,
    /// Where the value of the future goes.
    pub join_handle: JoinHandle,
    /// Where the task is sent when it is woken.
    pub tx: Sender,
}

impl<F> Task<F> {
    /// A task that is sent to the executor of the thread that makes it.
    pub fn new(executor: &SpawnQueue<F>, future: Arc<F>, join_handle: JoinHandle) -> (task: Self)
        requires
            executor@.tx is Some,
        ensures
            task == (Task { future, join_handle, tx: executor@.tx->0 }),
    {
        Task { future, join_handle, tx: get_tx(executor) }
    }

    /// Deals with the outcome of polling the future. A value goes into the slot of the join
    /// handle; the waker that waits there is handed out and is to be woken.
    pub fn poll<T, W>(&self, cells: &mut JoinCells<T, W>, outcome: Poll<T>) -> (r: (
        Poll<()>,
        Option<W>,
    ))
        requires
            old(cells).wf(),
            old(cells)@.contains_key(self.join_handle.slot),
        ensures
            final(cells).wf(),
            final(cells).next() == old(cells).next(),
            outcome is Pending ==> r.0 is Pending && r.1 is None && final(cells)@ == old(cells)@,
            outcome matches Poll::Ready(value) ==> {
                &&& r.0 == Poll::Ready(())
                &&& r.1 == old(cells)@[self.join_handle.slot].waker
                &&& final(cells)@ == old(cells)@.insert(
                    self.join_handle.slot,
                    old(cells)@[self.join_handle.slot].completed(value),
                )
            },
    {
        self.join_handle.settle(cells, outcome)
    }

    /// Where the task is sent when it is woken.
    pub fn get_tx_task(&self) -> (tx: Sender)
        ensures
            tx == self.tx,
    {
        self.tx
    }
}

/// What the executor is to do next.
#[derive(Debug, PartialEq, Eq)]
pub enum Action {
    /// Poll `task`.
    Poll { task: u64 },
    /// Wait until a task arrives.
    Wait,
}

/// An executor on one thread: its channels, its tasks, and how many of them have not finished.
#[derive(Debug)]
pub struct SpawnQueue<F> {
    store: TaskStore<Task<F>>,
    open: Vec<bool>,
    tx: Option<Sender>,
    active_tasks: u64,
    current: Option<u64>,
}

/// The mathematical content of a [`SpawnQueue`].
#[verifier::ext_equal]
pub struct SpawnQueueView<F> {
    /// The task records and the channels, each with the task that was sent first in front.
    pub store: StoreView<Task<F>>,
    /// For each channel whether its receiving end is still there.
    pub open: Seq<bool>,
    /// Where tasks that are spawned on this thread are sent.
    pub tx: Option<Sender>,
    /// How many tasks were spawned and have not finished.
    pub active: u64,
    /// The task that is being polled.
    pub current: Option<u64>,
}

/// The tasks that are being polled: at most one.
pub open spec fn running(current: Option<u64>) -> Set<u64> {
    match current {
        Some(task) => set![task],
        None => Set::empty(),
    }
}

impl<F> SpawnQueueView<F> {
    /// What holds of the executor at all times.
    pub open spec fn wf(self) -> bool {
        &&& self.store.wf(running(self.current))
        &&& self.open.len() == self.store.queues.len()
        &&& forall|c: int|
            0 <= c < self.open.len() && !self.open[c] ==> (#[trigger] self.store.queues[c]).len()
                == 0
        &&& self.tx matches Some(tx) ==> tx.channel < self.store.queues.len()
        &&& forall|t: u64|
            self.store.tasks.contains_key(t) ==> (#[trigger] self.store.tasks[t]).task.tx.channel
                < self.store.queues.len()
    }

    /// Whether something can still be sent to `channel`: it is where this thread sends the tasks
    /// that it spawns, or where some task is sent when it is woken.
    pub open spec fn has_sender(self, channel: usize) -> bool {
        ||| self.tx == Some(Sender { channel })
        ||| exists|t: u64|
            self.store.tasks.contains_key(t) && (#[trigger] self.store.tasks[t]).task.tx.channel
                == channel
    }

    /// After a channel was opened.
    pub open spec fn with_channel(self) -> Self {
        SpawnQueueView {
            store: StoreView { queues: self.store.queues.push(Seq::empty()), ..self.store },
            open: self.open.push(true),
            ..self
        }
    }

    /// After the receiving end of `channel` has gone. What waited there is dropped: a task keeps
    /// its record only if something else refers to it.
    pub open spec fn closed(self, channel: int) -> Self {
        SpawnQueueView {
            store: self.store.left(channel, Seq::empty(), running(self.current)),
            open: self.open.update(channel, false),
            ..self
        }
    }

    /// Whether `task` arrives when it is sent: the receiving end of its channel is still there.
    pub open spec fn arrives(self, task: u64) -> bool {
        self.open[self.store.tasks[task].task.tx.channel as int]
    }

    /// After a task was spawned. It is counted in any case; where the receiving end of its channel
    /// is gone, it is dropped.
    pub open spec fn spawned(self, task: Task<F>) -> Self {
        SpawnQueueView {
            store: if self.open[task.tx.channel as int] {
                self.store.insert(task, task.tx.channel as int)
            } else {
                self.store.skip()
            },
            active: (self.active + 1) as u64,
            ..self
        }
    }

    /// After `task` was sent to its channel, in which it waits if it arrives.
    pub open spec fn sent(self, task: u64) -> Self {
        if self.arrives(task) {
            SpawnQueueView {
                store: self.store.push(task, self.store.tasks[task].task.tx.channel as int),
                ..self
            }
        } else {
            self
        }
    }

    /// After `task` was woken with one of its wakers, which is used up. Where the task does not
    /// arrive and nothing else refers to it, its record goes.
    pub open spec fn woken(self, task: u64) -> Self {
        self.with_wakers(task, (self.store.tasks[task].wakers - 1) as u64).sent(task).collected(
            task,
        )
    }

    /// After the number of wakers of `task` became `wakers`.
    pub open spec fn with_wakers(self, task: u64, wakers: u64) -> Self {
        SpawnQueueView { store: self.store.set_wakers(task, wakers), ..self }
    }

    /// After the record of `task` has gone, if nothing refers to it any more.
    pub open spec fn collected(self, task: u64) -> Self {
        SpawnQueueView {
            store: self.store.collect(task, self.current == Some(task)),
            ..self
        }
    }

    /// After the first task of `channel` was received.
    pub open spec fn received(self, channel: int) -> Self {
        SpawnQueueView {
            store: self.store.pop_front(channel),
            current: Some(self.store.queues[channel].first()),
            ..self
        }
    }

    /// After the current task was polled, with `ready` as the outcome.
    pub open spec fn poll_returned(self, ready: bool) -> Self {
        SpawnQueueView {
            active: if ready {
                (self.active - 1) as u64
            } else {
                self.active
            },
            current: None,
            ..self
        }.collected(self.current->0)
    }

    /// How many turns of `task` are outstanding: how often it waits in the channels, and whether it
    /// is being polled.
    pub open spec fn turns(self, task: u64) -> nat {
        self.store.waiting(task) + if self.current == Some(task) {
            1nat
        } else {
            0nat
        }
    }
}

impl<F> SpawnQueueView<F> {
    /// A channel more keeps all in order.
    pub proof fn lemma_with_channel(self)
        requires
            self.wf(),
        ensures
            self.with_channel().wf(),
    {
        self.store.lemma_add_queue();
    }

    /// A channel that is closed keeps all in order.
    pub proof fn lemma_closed(self, channel: int)
        requires
            self.wf(),
            0 <= channel < self.store.queues.len(),
        ensures
            self.closed(channel).wf(),
    {
        self.store.lemma_wf_left(channel, Seq::empty(), running(self.current));
    }

    /// A task that is spawned keeps all in order.
    pub proof fn lemma_spawned(self, task: Task<F>)
        requires
            self.wf(),
            self.tx == Some(task.tx),
            self.store.next < u64::MAX,
        ensures
            self.spawned(task).wf(),
    {
        self.store.lemma_wf_insert(task, task.tx.channel as int, running(self.current));
        self.store.lemma_wf_skip(running(self.current));
    }

    /// A waker more keeps all in order.
    pub proof fn lemma_more_wakers(self, task: u64, wakers: u64)
        requires
            self.wf(),
            self.store.tasks.contains_key(task),
            wakers > 0,
        ensures
            self.with_wakers(task, wakers).wf(),
    {
        self.store.lemma_wf_more_wakers(task, wakers, running(self.current));
    }

    /// A task that is sent keeps all in order.
    pub proof fn lemma_sent(self, task: u64)
        requires
            self.wf(),
            self.store.tasks.contains_key(task),
        ensures
            self.sent(task).wf(),
    {
        let q = self.store.tasks[task].task.tx.channel as int;
        self.store.lemma_wf_push(task, 0, q, running(self.current));
    }

    /// A task that is woken with a waker that is used up keeps all in order. It has a place in its
    /// channel, if it arrives, and then its record stays.
    pub proof fn lemma_woken(self, task: u64)
        requires
            self.wf(),
            self.store.tasks.contains_key(task),
        ensures
            self.woken(task).wf(),
            ({
                let fewer = self.with_wakers(task, (self.store.tasks[task].wakers - 1) as u64);
                self.woken(task) == if self.arrives(task) {
                    fewer.sent(task)
                } else {
                    fewer.collected(task)
                }
            }),
    {
        let wakers = (self.store.tasks[task].wakers - 1) as u64;
        let fewer = self.with_wakers(task, wakers);
        let q = self.store.tasks[task].task.tx.channel as int;
        self.lemma_waker_dropped(task, wakers);
        self.store.lemma_wf_push(task, wakers, q, running(self.current));
        if self.arrives(task) {
            fewer.store.lemma_push(task, q);
            assert(fewer.sent(task).store.queued(task));
        }
    }

    /// A waker less keeps all in order.
    pub proof fn lemma_waker_dropped(self, task: u64, wakers: u64)
        requires
            self.wf(),
            self.store.tasks.contains_key(task),
        ensures
            self.with_wakers(task, wakers).collected(task).wf(),
    {
        let fewer = self.with_wakers(task, wakers);
        fewer.store.lemma_same_queues(self.store);
        assert forall|t: u64| t != task && fewer.store.tasks.contains_key(t) implies (
        #[trigger] fewer.store.tasks[t]).wakers > 0 || fewer.store.queued(t) || running(
            fewer.current,
        ).contains(t) by {
            assert(fewer.store.tasks[t] == self.store.tasks[t]);
        }
        fewer.store.lemma_wf_collect(task, running(fewer.current), running(fewer.current));
        assert(running(fewer.current).contains(task) <==> fewer.current == Some(task));
    }

    /// A task that is received keeps all in order.
    pub proof fn lemma_received(self, channel: int)
        requires
            self.wf(),
            self.current is None,
            0 <= channel < self.store.queues.len(),
            self.store.queues[channel].len() > 0,
        ensures
            self.received(channel).wf(),
    {
        let task = self.store.queues[channel].first();
        self.store.lemma_pop_front(channel);
        self.store.lemma_wf_take(
            self.received(channel).store,
            task,
            running(None),
            running(Some(task)),
        );
    }

    /// A poll that is over keeps all in order.
    pub proof fn lemma_poll_returned(self, ready: bool)
        requires
            self.wf(),
            self.current is Some,
        ensures
            self.poll_returned(ready).wf(),
    {
        let task = self.current->0;
        assert(running(self.current).contains(task));
        self.store.lemma_wf_collect(task, running(self.current), running(None));
    }
}

/// The sending end for tasks that are spawned on this thread.
pub fn get_tx<F>(executor: &SpawnQueue<F>) -> (tx: Sender)
    requires
        executor@.tx is Some,
    ensures
        tx == executor@.tx->0,
{
    match executor.tx {
        Some(tx) => tx,
        None => Sender { channel: 0 },
    }
}

impl<F> SpawnQueue<F> {
    pub closed spec fn view(&self) -> SpawnQueueView<F> {
        SpawnQueueView {
            store: self.store@,
            open: self.open@,
            tx: self.tx,
            active: self.active_tasks,
            current: self.current,
        }
    }

    /// An executor without channels and without tasks.
    pub fn new() -> (executor: Self)
        ensures
            executor@.wf(),
            executor@ == (SpawnQueueView::<F> {
                store: StoreView { tasks: Map::empty(), next: 0, queues: Seq::empty() },
                open: Seq::empty(),
                tx: None,
                active: 0,
                current: None,
            }),
    {
        SpawnQueue {
            store: TaskStore::new(),
            open: Vec::new(),
            tx: None,
            active_tasks: 0,
            current: None,
        }
    }

    /// Opens a channel in which nothing was sent yet.
    pub fn channel(&mut self) -> (ends: (Sender, Receiver))
        requires
            old(self)@.wf(),
        ensures
            final(self)@.wf(),
            ends.0.channel == old(self)@.store.queues.len(),
            ends.1.channel == old(self)@.store.queues.len(),
            final(self)@ == old(self)@.with_channel(),
    {
        let channel = self.store.add_queue();
        self.open.push(true);
        proof {
            old(self)@.lemma_with_channel();
        }
        (Sender { channel }, Receiver { channel })
    }

    /// Gives up the receiving end of a channel. The tasks that wait there are dropped, and so is
    /// from then on whatever is sent there. What the executor kept of tasks to which nothing refers
    /// any more is handed out.
    pub fn close(&mut self, rx: Receiver) -> (dropped: Vec<Task<F>>)
        requires
            old(self)@.wf(),
            rx.channel < old(self)@.store.queues.len(),
        ensures
            final(self)@.wf(),
            final(self)@ == old(self)@.closed(rx.channel as int),
            dropped@ == released(
                old(self)@.store.queues[rx.channel as int],
                old(self)@.store.tasks,
                final(self)@.store.tasks,
            ),
    {
        let mut dropped: Vec<Task<F>> = Vec::new();
        let ghost c = rx.channel as int;
        let ghost before = old(self)@.store;
        let ghost polled = running(old(self)@.current);
        let ghost end = before.left(c, Seq::empty(), polled);
        proof {
            before.lemma_left_as_is(c, polled);
            assert(dropped@ + released(before.queues[c], before.tasks, end.tasks) =~= released(
                before.queues[c],
                before.tasks,
                end.tasks,
            ));
        }
        loop
            invariant
                c == rx.channel,
                0 <= c < before.queues.len(),
                before.wf(polled),
                before == old(self)@.store,
                polled == running(old(self)@.current),
                end == before.left(c, Seq::empty(), polled),
                self@.store == before.left(c, self@.store.queues[c], polled),
                self@.open == old(self)@.open,
                self@.tx == old(self)@.tx,
                self@.active == old(self)@.active,
                self@.current == old(self)@.current,
                forall|t: u64| self@.store.queues[c].contains(t) ==> before.queues[c].contains(t),
                dropped@ + released(self@.store.queues[c], before.tasks, end.tasks) == released(
                    before.queues[c],
                    before.tasks,
                    end.tasks,
                ),
            ensures
                self@.store.queues[c].len() == 0,
            decreases self@.store.queues[c].len(),
        {
            let ghost queue = self@.store.queues[c];
            match self.store.pop_front(rx.channel) {
                Some(task) => {
                    proof {
                        before.lemma_left_step(c, queue, polled);
                        assert(polled.contains(task) <==> self@.current == Some(task));
                    }
                    let ghost handed = dropped@;
                    if let Some(kept) = self.collect(task) {
                        dropped.push(kept);
                    }
                    assert(dropped@ + released(queue.drop_first(), before.tasks, end.tasks)
                        =~= handed + released(queue, before.tasks, end.tasks));
                },
                None => break,
            }
        }
        assert(self@.store.queues[c] =~= Seq::empty());
        self.open.set(rx.channel, false);
        proof {
            old(self)@.lemma_closed(c);
            assert(self@ =~= old(self)@.closed(c));
        }
        dropped
    }

    /// Makes `tx` the place to which tasks are sent that are spawned on this thread.
    pub fn set_tx(&mut self, tx: Sender)
        requires
            old(self)@.wf(),
            tx.channel < old(self)@.store.queues.len(),
        ensures
            final(self)@.wf(),
            final(self)@ == (SpawnQueueView { tx: Some(tx), ..old(self)@ }),
    {
        self.tx = Some(tx);
    }

    /// Whether one more task can be sent, counted and numbered.
    pub fn can_spawn(&self) -> (can: bool)
        ensures
            can == (self@.tx is Some && self@.active < u64::MAX && self@.store.next < u64::MAX),
    {
        self.tx.is_some() && self.active_tasks < u64::MAX && self.store.has_room()
    }

    /// The task that is being polled.
    pub fn current(&self) -> (current: Option<u64>)
        ensures
            current == self@.current,
    {
        self.current
    }

    /// How many tasks were spawned and have not finished.
    pub fn active_tasks(&self) -> (n: u64)
        ensures
            n == self@.active,
    {
        self.active_tasks
    }

    /// What the executor keeps of `task`, as long as something refers to it.
    pub fn task(&self, task: u64) -> (found: Option<&Task<F>>)
        ensures
            found == (if self@.store.tasks.contains_key(task) {
                Some(&self@.store.tasks[task].task)
            } else {
                None
            }),
    {
        self.store.get(task)
    }

    /// How many wakers of `task` exist.
    pub fn wakers(&self, task: u64) -> (n: u64)
        ensures
            n == (if self@.store.tasks.contains_key(task) {
                self@.store.tasks[task].wakers
            } else {
                0
            }),
    {
        self.store.wakers(task)
    }

    /// Sends `task` to its channel.
    fn send(&mut self, task: u64)
        requires
            old(self)@.store.tasks.contains_key(task),
            old(self)@.store.tasks[task].task.tx.channel < old(self)@.store.queues.len(),
            old(self)@.open.len() == old(self)@.store.queues.len(),
        ensures
            final(self)@ == old(self)@.sent(task),
    {
        let channel = match self.store.get(task) {
            Some(kept) => kept.get_tx_task().channel,
            None => 0,
        };
        if self.open[channel] {
            self.store.push(task, channel);
        }
    }

    /// Makes one more waker of a task.
    pub fn waker_clone(&mut self, task: u64)
        requires
            old(self)@.wf(),
            old(self)@.store.tasks.contains_key(task),
            old(self)@.store.tasks[task].wakers < u64::MAX,
        ensures
            final(self)@.wf(),
            final(self)@ == old(self)@.with_wakers(
                task,
                (old(self)@.store.tasks[task].wakers + 1) as u64,
            ),
    {
        let wakers = self.store.wakers(task) + 1;
        self.store.set_wakers(task, wakers);
        proof {
            old(self)@.lemma_more_wakers(task, wakers);
        }
    }

    /// Removes the record of `task` and hands it out if nothing refers to the task any more.
    fn collect(&mut self, task: u64) -> (dropped: Option<Task<F>>)
        requires
            old(self)@.store.tasks.contains_key(task),
        ensures
            final(self)@ == old(self)@.collected(task),
            dropped == (if old(self)@.store.unreferenced(task, old(self)@.current == Some(task)) {
                Some(old(self)@.store.tasks[task].task)
            } else {
                None
            }),
    {
        let runs = match self.current {
            Some(current) => current == task,
            None => false,
        };
        let dropped = self.store.collect(task, runs);
        assert(self@ =~= old(self)@.collected(task));
        dropped
    }

    /// Wakes a task with one of its wakers, which is used up. If the receiving end of the channel
    /// is gone and the waker was the last that referred to the task, what the executor kept of it
    /// is handed out.
    pub fn wake(&mut self, task: u64) -> (dropped: Option<Task<F>>)
        requires
            old(self)@.wf(),
            old(self)@.store.tasks.contains_key(task),
            old(self)@.store.tasks[task].wakers > 0,
        ensures
            final(self)@.wf(),
            final(self)@ == old(self)@.woken(task),
            dropped == (if !old(self)@.arrives(task) && old(self)@.store.tasks[task].wakers == 1
                && old(self)@.current != Some(task) && !old(self)@.store.queued(task) {
                Some(old(self)@.store.tasks[task].task)
            } else {
                None
            }),
    {
        let wakers = self.store.wakers(task) - 1;
        self.store.set_wakers(task, wakers);
        let ghost fewer = self@;
        self.send(task);
        proof {
            old(self)@.lemma_woken(task);
            fewer.store.lemma_same_queues(old(self)@.store);
            if fewer.arrives(task) {
                fewer.store.lemma_push(task, fewer.store.tasks[task].task.tx.channel as int);
                assert(self@.store.queued(task));
            }
        }
        self.collect(task)
    }

    /// Wakes a task with one of its wakers, which stays.
    pub fn wake_by_ref(&mut self, task: u64)
        requires
            old(self)@.wf(),
            old(self)@.store.tasks.contains_key(task),
        ensures
            final(self)@.wf(),
            final(self)@ == old(self)@.sent(task),
    {
        self.send(task);
        proof {
            old(self)@.lemma_sent(task);
        }
    }

    /// Drops a waker of a task. If it was the last that referred to the task, what the executor
    /// kept of it is handed out.
    pub fn waker_drop(&mut self, task: u64) -> (dropped: Option<Task<F>>)
        requires
            old(self)@.wf(),
            old(self)@.store.tasks.contains_key(task),
            old(self)@.store.tasks[task].wakers > 0,
        ensures
            final(self)@.wf(),
            final(self)@ == old(self)@.with_wakers(
                task,
                (old(self)@.store.tasks[task].wakers - 1) as u64,
            ).collected(task),
            dropped == (if old(self)@.store.tasks[task].wakers == 1 && old(self)@.current != Some(
                task,
            ) && !old(self)@.store.queued(task) {
                Some(old(self)@.store.tasks[task].task)
            } else {
                None
            }),
    {
        let wakers = self.store.wakers(task) - 1;
        self.store.set_wakers(task, wakers);
        let ghost fewer = old(self)@.with_wakers(task, wakers);
        assert(self@ =~= fewer);
        proof {
            old(self)@.lemma_waker_dropped(task, wakers);
            fewer.store.lemma_same_queues(old(self)@.store);
        }
        self.collect(task)
    }

    /// Whether tasks that are spawned on this thread arrive at `rx`.
    pub fn feeds(&self, rx: &Receiver) -> (feeds: bool)
        requires
            self@.wf(),
        ensures
            feeds == (self@.tx == Some(Sender { channel: rx.channel })
                && self@.open[rx.channel as int]),
    {
        match self.tx {
            Some(tx) => tx.channel == rx.channel && self.open[tx.channel],
            None => false,
        }
    }

    /// Receives the next task from `rx`, which is then to be polled; if none has arrived, the
    /// executor is to wait for one. There is one that has arrived or something that can send one:
    /// to wait where nothing ever can is an error of the caller.
    pub fn run(&mut self, rx: &Receiver) -> (action: Action)
        requires
            old(self)@.wf(),
            rx.channel < old(self)@.store.queues.len(),
            old(self)@.open[rx.channel as int],
            old(self)@.current is None,
            old(self)@.store.queues[rx.channel as int].len() > 0 || old(self)@.has_sender(
                rx.channel,
            ),
        ensures
            final(self)@.wf(),
            ({
                let queue = old(self)@.store.queues[rx.channel as int];
                if queue.len() == 0 {
                    action == Action::Wait && final(self)@ == old(self)@
                } else {
                    action == (Action::Poll { task: queue.first() }) && final(self)@ == old(
                        self,
                    )@.received(rx.channel as int)
                }
            }),
    {
        match self.store.pop_front(rx.channel) {
            Some(task) => {
                self.current = Some(task);
                proof {
                    old(self)@.lemma_received(rx.channel as int);
                }
                Action::Poll { task }
            },
            None => Action::Wait,
        }
    }

    /// Books that the current task was polled: the outcome was a value if `ready`. Returns whether
    /// that was the last task that had not finished, so that the executor is done, and what was
    /// kept of the task if nothing refers to it any more.
    pub fn poll_returned(&mut self, ready: bool) -> (r: (bool, Option<Task<F>>))
        requires
            old(self)@.wf(),
            old(self)@.current is Some,
            ready ==> old(self)@.active > 0,
        ensures
            final(self)@.wf(),
            final(self)@ == old(self)@.poll_returned(ready),
            r.0 == (ready && old(self)@.active == 1),
            r.1 == ({
                let task = old(self)@.current->0;
                if old(self)@.store.unreferenced(task, false) {
                    Some(old(self)@.store.tasks[task].task)
                } else {
                    None
                }
            }),
    {
        let task = match self.current.take() {
            Some(task) => task,
            None => 0,
        };
        proof {
            old(self)@.lemma_poll_returned(ready);
            assert(running(old(self)@.current).contains(task));
        }
        let done = if ready {
            self.active_tasks -= 1;
            self.active_tasks == 0
        } else {
            false
        };
        let dropped = self.store.collect(task, false);
        assert(self@ =~= old(self)@.poll_returned(ready));
        (done, dropped)
    }
}

/// Starts a task: it is counted and sent to the executor of this thread. The value of the future
/// will arrive at the handle. Where the receiving end of the channel is gone, the task is dropped.
pub fn spawn<F, T, W>(
    executor: &mut SpawnQueue<F>,
    cells: &mut JoinCells<T, W>,
    future: Arc<F>,
) -> (handle: JoinHandle)
    requires
        old(executor)@.wf(),
        old(cells).wf(),
        old(executor)@.tx is Some,
        old(executor)@.active < u64::MAX,
        old(executor)@.store.next < u64::MAX,
        old(cells).next() < u64::MAX,
    ensures
        final(executor)@.wf(),
        final(cells).wf(),
        handle.slot == old(cells).next(),
        final(cells).next() == old(cells).next() + 1,
        !old(cells)@.contains_key(handle.slot),
        final(cells)@ == old(cells)@.insert(handle.slot, JoinCell::empty()),
        final(executor)@ == old(executor)@.spawned(
            Task { future, join_handle: handle, tx: old(executor)@.tx->0 },
        ),
        final(executor)@.active == old(executor)@.active + 1,
        old(executor)@.open[old(executor)@.tx->0.channel as int] ==> {
            let new = old(executor)@.store.next;
            let tasks = final(executor)@.store.tasks;
            &&& tasks.contains_key(new)
            &&& tasks[new].task.future == future
            &&& tasks[new].task.join_handle == handle
            &&& tasks[new].task.tx == old(executor)@.tx->0
        },
{
    let join_handle = JoinHandle::new(cells);
    let task = Task::new(executor, future, join_handle.clone());
    proof {
        executor@.lemma_spawned(task);
    }
    executor.active_tasks += 1;
    let tx = get_tx(executor);
    let ghost kept = task;
    if executor.open[tx.channel] {
        executor.store.insert(task, tx.channel);
    } else {
        executor.store.skip();
    }
    assert(executor@ =~= old(executor)@.spawned(kept));
    join_handle
}

/// Tasks are received in the order in which they were sent: after a wake, the tasks that waited
/// before are received first, and the woken task after them.
pub proof fn law_first_sent_first_received<F>(v: SpawnQueueView<F>, task: u64, i: int)
    requires
        v.wf(),
        v.store.tasks.contains_key(task),
        v.arrives(task),
    ensures
        ({
            let c = v.store.tasks[task].task.tx.channel as int;
            let before = v.store.queues[c];
            let after = v.sent(task).store.queues[c];
            &&& after.len() == before.len() + 1
            &&& 0 <= i < before.len() ==> after[i] == before[i]
            &&& after[before.len() as int] == task
        }),
{
}

/// What is sent to one channel leaves the others as they are.
pub proof fn law_channels_are_apart<F>(v: SpawnQueueView<F>, task: u64, c: int)
    requires
        v.wf(),
        v.store.tasks.contains_key(task),
        0 <= c < v.store.queues.len(),
        c != v.store.tasks[task].task.tx.channel,
    ensures
        v.sent(task).store.queues[c] == v.store.queues[c],
{
}

/// Receiving a task loses none and makes none up: every task has as many turns outstanding after
/// it as before it.
pub proof fn law_receive_keeps_turns<F>(v: SpawnQueueView<F>, channel: int, t: u64)
    requires
        v.wf(),
        v.current is None,
        0 <= channel < v.store.queues.len(),
        v.store.queues[channel].len() > 0,
    ensures
        v.received(channel).turns(t) == v.turns(t),
{
    v.store.lemma_waiting_pop_front(channel, t);
}

/// Waking a task gives it exactly one turn more if it arrives, and no other task any.
pub proof fn law_wake_gives_one_turn<F>(v: SpawnQueueView<F>, task: u64, t: u64)
    requires
        v.wf(),
        v.store.tasks.contains_key(task),
    ensures
        ({
            let more = if t == task && v.arrives(task) {
                1nat
            } else {
                0nat
            };
            &&& v.sent(task).turns(t) == v.turns(t) + more
            &&& v.woken(task).turns(t) == v.turns(t) + more
        }),
{
    let q = v.store.tasks[task].task.tx.channel as int;
    v.store.lemma_waiting_push(task, q, t);
    if v.arrives(task) {
        assert(v.woken(task).store.queues == v.store.push(task, q).queues);
    }
}

/// A task that is spawned has exactly one turn if it arrives, and none if the receiving end of its
/// channel is gone; no other task is touched.
pub proof fn law_spawn_gives_one_turn<F>(v: SpawnQueueView<F>, task: Task<F>, t: u64)
    requires
        v.wf(),
        v.tx == Some(task.tx),
        v.store.next < u64::MAX,
    ensures
        v.turns(v.store.next) == 0,
        v.spawned(task).turns(v.store.next) == if v.open[task.tx.channel as int] {
            1nat
        } else {
            0nat
        },
        t != v.store.next ==> v.spawned(task).turns(t) == v.turns(t),
{
    let new = v.store.next;
    let q = task.tx.channel as int;
    v.store.lemma_waiting_push(new, q, t);
    v.store.lemma_waiting_push(new, q, new);
    if v.open[q] {
        assert(v.spawned(task).store.queues == v.store.push(new, q).queues);
    }
    v.store.lemma_waiting(new);
    if v.current == Some(new) {
        assert(running(v.current).contains(new));
    }
}

/// What is sent to a channel whose receiving end is gone is dropped: a task that is spawned is
/// counted and leaves nothing else, and a wake does no more than to drop the waker that it uses up.
pub proof fn law_closed_channel_drops_what_is_sent<F>(
    v: SpawnQueueView<F>,
    task: Task<F>,
    woken: u64,
)
    requires
        v.wf(),
    ensures
        !v.open[task.tx.channel as int] ==> {
            let after = v.spawned(task);
            &&& after.store.tasks == v.store.tasks
            &&& after.store.queues == v.store.queues
            &&& after.active == (v.active + 1) as u64
        },
        !v.arrives(woken) ==> {
            let wakers = v.store.tasks[woken].wakers;
            &&& v.sent(woken) == v
            &&& v.woken(woken) == v.with_wakers(woken, (wakers - 1) as u64).collected(woken)
        },
{
}

/// A channel that is closed takes from each task exactly the turns that wait there, and its record
/// if nothing else refers to it. The other channels stay as they are, and the count of the tasks
/// that have not finished does too.
pub proof fn law_closing_drops_what_waits<F>(v: SpawnQueueView<F>, channel: int, t: u64)
    requires
        v.wf(),
        0 <= channel < v.store.queues.len(),
    ensures
        ({
            let after = v.closed(channel);
            &&& v.turns(t) == after.turns(t) + occurrences(v.store.queues[channel], t)
            &&& after.store.tasks.contains_key(t) <==> v.store.tasks.contains_key(t) && (
            after.turns(t) > 0 || v.store.tasks[t].wakers > 0)
            &&& after.store.tasks.contains_key(t) ==> after.store.tasks[t] == v.store.tasks[t]
            &&& after.store.queues[channel].len() == 0
            &&& forall|c: int|
                0 <= c < v.store.queues.len() && c != channel
                    ==> #[trigger] after.store.queues[c] == v.store.queues[c]
            &&& after.active == v.active
        }),
{
    let after = v.closed(channel);
    lemma_tally_update(v.store.queues, channel, Seq::empty(), places(t));
    v.lemma_closed(channel);
    law_record_lives_with_references(after, t);
}

/// A poll uses up exactly one turn of the polled task, and none of any other.
pub proof fn law_poll_uses_one_turn<F>(v: SpawnQueueView<F>, ready: bool, t: u64)
    requires
        v.wf(),
        v.current is Some,
        ready ==> v.active > 0,
    ensures
        v.turns(t) == v.poll_returned(ready).turns(t) + if v.current == Some(t) {
            1nat
        } else {
            0nat
        },
{
}

/// The executor keeps a task exactly as long as it has a turn outstanding or a waker exists that
/// can give it one.
pub proof fn law_record_lives_with_references<F>(v: SpawnQueueView<F>, t: u64)
    requires
        v.wf(),
    ensures
        v.turns(t) > 0 ==> v.store.tasks.contains_key(t),
        v.store.tasks.contains_key(t) ==> v.turns(t) > 0 || v.store.tasks[t].wakers > 0,
{
    v.store.lemma_waiting(t);
    assert(running(v.current).contains(t) <==> v.current == Some(t));
}

/// A task that waits for another gets a turn when the other finishes, and then finds its value: the
/// task `waiter` polls the handle of the other, the other finishes with `value`, the waker that the
/// slot hands out is that of the waiter, and waking it gives it one turn more if it arrives.
pub proof fn law_finished_task_readies_its_waiter<F, T>(
    v: SpawnQueueView<F>,
    cell: JoinCell<T, u64>,
    waiter: u64,
    value: T,
)
    requires
        v.wf(),
        v.store.tasks.contains_key(waiter),
        v.store.tasks[waiter].wakers > 0,
        v.arrives(waiter),
        cell.result is None,
    ensures
        cell.outcome() is Pending,
        cell.polled(waiter).waker == Some(waiter),
        cell.polled(waiter).completed(value).outcome() == Poll::Ready(value),
        v.woken(waiter).turns(waiter) == v.turns(waiter) + 1,
{
    law_wake_gives_one_turn(v, waiter, waiter);
}

/// A task that is spawned and arrives is recorded under the next number as it was given, future,
/// handle and channel, without a waker, and is the last in its channel. One that does not arrive
/// leaves no record. Either way it uses up a number and is counted, and no other record, no other
/// place and no other channel `p` is touched.
pub proof fn law_spawn_records_what_is_given<F>(
    v: SpawnQueueView<F>,
    task: Task<F>,
    t: u64,
    i: int,
    p: int,
)
    requires
        v.wf(),
        v.tx == Some(task.tx),
        v.active < u64::MAX,
        v.store.next < u64::MAX,
    ensures
        ({
            let after = v.spawned(task);
            let new = v.store.next;
            let c = task.tx.channel as int;
            let places = v.store.queues[c].len() as int;
            &&& v.open[c] ==> {
                &&& after.store.tasks.contains_key(new)
                &&& after.store.tasks[new].task == task
                &&& after.store.tasks[new].wakers == 0
                &&& after.store.queues[c].len() == places + 1
                &&& after.store.queues[c][places] == new
                &&& 0 <= i < places ==> after.store.queues[c][i] == v.store.queues[c][i]
            }
            &&& !v.open[c] ==> {
                &&& !after.store.tasks.contains_key(new)
                &&& after.store.queues[c] == v.store.queues[c]
            }
            &&& t != new ==> after.store.tasks.contains_key(t) == v.store.tasks.contains_key(t)
            &&& t != new && v.store.tasks.contains_key(t) ==> after.store.tasks[t]
                == v.store.tasks[t]
            &&& after.store.queues.len() == v.store.queues.len()
            &&& 0 <= p < v.store.queues.len() && p != c ==> after.store.queues[p]
                == v.store.queues[p]
            &&& after.store.next == new + 1
            &&& after.active == v.active + 1
            &&& after.open == v.open
            &&& after.tx == v.tx
            &&& after.current == v.current
        }),
{
}

/// A task that is woken gets the last place of the channel that its record names, if the receiving
/// end is still there; its waker is used up, or stays. Nothing else changes but that a record may
/// go to which nothing refers any more, and that only where the task does not arrive.
pub proof fn law_wake_sends_to_the_channel_of_the_task<F>(
    v: SpawnQueueView<F>,
    task: u64,
    t: u64,
    i: int,
    p: int,
)
    requires
        v.wf(),
        v.store.tasks.contains_key(task),
        v.store.tasks[task].wakers > 0,
    ensures
        ({
            let sent = v.sent(task);
            let woken = v.woken(task);
            let c = v.store.tasks[task].task.tx.channel as int;
            let places = v.store.queues[c].len() as int;
            let wakers = v.store.tasks[task].wakers;
            let placed = exists|q: int, k: int|
                0 <= q < v.store.queues.len() && 0 <= k < v.store.queues[q].len()
                    && #[trigger] v.store.queues[q][k] == task;
            &&& v.arrives(task) == v.open[c]
            &&& v.open[c] ==> {
                &&& sent.store.queues[c].len() == places + 1
                &&& sent.store.queues[c][places] == task
                &&& 0 <= i < places ==> sent.store.queues[c][i] == v.store.queues[c][i]
                &&& woken.store.tasks.contains_key(task)
            }
            &&& !v.open[c] ==> {
                &&& sent.store.queues[c] == v.store.queues[c]
                &&& woken.store.tasks.contains_key(task) <==> wakers > 1 || v.current == Some(task)
                    || placed
            }
            &&& sent.store.queues.len() == v.store.queues.len()
            &&& 0 <= p < v.store.queues.len() && p != c ==> sent.store.queues[p]
                == v.store.queues[p]
            &&& sent.store.tasks == v.store.tasks
            &&& woken.store.tasks.contains_key(task) ==> {
                &&& woken.store.tasks[task].wakers == wakers - 1
                &&& woken.store.tasks[task].task == v.store.tasks[task].task
            }
            &&& t != task ==> woken.store.tasks.contains_key(t) == v.store.tasks.contains_key(t)
            &&& t != task && v.store.tasks.contains_key(t) ==> woken.store.tasks[t]
                == v.store.tasks[t]
            &&& woken.store.queues == sent.store.queues
            &&& sent.store.next == v.store.next && woken.store.next == v.store.next
            &&& sent.open == v.open && woken.open == v.open
            &&& sent.tx == v.tx && woken.tx == v.tx
            &&& sent.active == v.active && woken.active == v.active
            &&& sent.current == v.current && woken.current == v.current
        }),
{
    let fewer = v.with_wakers(task, (v.store.tasks[task].wakers - 1) as u64);
    v.lemma_woken(task);
    fewer.store.lemma_same_queues(v.store);
    law_queued_means_a_place(v.store, task);
    if v.arrives(task) {
        fewer.store.lemma_push(task, v.store.tasks[task].task.tx.channel as int);
        assert(fewer.sent(task).store.queued(task));
    }
}

/// A waker that is made or dropped changes the number of wakers of its task. A record goes exactly
/// if no waker of the task exists, it is not being polled and it has no place in any channel.
/// Nothing else changes.
pub proof fn law_wakers_are_counted<F>(v: SpawnQueueView<F>, task: u64, wakers: u64, t: u64)
    requires
        v.wf(),
        v.store.tasks.contains_key(task),
    ensures
        ({
            let counted = v.with_wakers(task, wakers);
            let after = v.collected(task);
            let placed = exists|q: int, k: int|
                0 <= q < v.store.queues.len() && 0 <= k < v.store.queues[q].len()
                    && #[trigger] v.store.queues[q][k] == task;
            &&& counted.store.tasks[task].wakers == wakers
            &&& counted.store.tasks[task].task == v.store.tasks[task].task
            &&& counted.store.tasks.contains_key(t) == v.store.tasks.contains_key(t)
            &&& t != task && v.store.tasks.contains_key(t) ==> counted.store.tasks[t]
                == v.store.tasks[t]
            &&& after.store.tasks.contains_key(task) <==> v.store.tasks[task].wakers > 0
                || v.current == Some(task) || placed
            &&& t != task ==> after.store.tasks.contains_key(t) == v.store.tasks.contains_key(t)
            &&& after.store.tasks.contains_key(t) ==> after.store.tasks[t] == v.store.tasks[t]
            &&& counted.store.queues == v.store.queues && after.store.queues == v.store.queues
            &&& counted.store.next == v.store.next && after.store.next == v.store.next
            &&& counted.open == v.open && after.open == v.open
            &&& counted.tx == v.tx && after.tx == v.tx
            &&& counted.active == v.active && after.active == v.active
            &&& counted.current == v.current && after.current == v.current
        }),
{
    law_record_goes_without_references(
        v.store,
        task,
        v.current == Some(task),
        t,
    );
}

/// The task that is received is the first of the channel, and it is being polled then. The others
/// in the channel move one place forward, and nothing else changes.
pub proof fn law_receive_takes_the_first<F>(v: SpawnQueueView<F>, channel: int, i: int, p: int)
    requires
        v.wf(),
        v.current is None,
        0 <= channel < v.store.queues.len(),
        v.store.queues[channel].len() > 0,
    ensures
        ({
            let after = v.received(channel);
            let places = v.store.queues[channel].len() as int;
            &&& after.current == Some(v.store.queues[channel][0])
            &&& after.store.queues.len() == v.store.queues.len()
            &&& after.store.queues[channel].len() == places - 1
            &&& 0 < i < places ==> after.store.queues[channel][i - 1] == v.store.queues[channel][i]
            &&& 0 <= p < v.store.queues.len() && p != channel ==> after.store.queues[p]
                == v.store.queues[p]
            &&& after.store.tasks == v.store.tasks
            &&& after.store.next == v.store.next
            &&& after.open == v.open
            &&& after.tx == v.tx
            &&& after.active == v.active
        }),
{
}

/// When a poll is over nothing is being polled. A value counts one task less, and nothing else
/// does. The record of the task stays exactly if a waker of it exists or it has a place in some
/// channel; no other record changes, and no channel.
pub proof fn law_poll_ends_with_or_without_a_value<F>(v: SpawnQueueView<F>, ready: bool, t: u64)
    requires
        v.wf(),
        v.current is Some,
        ready ==> v.active > 0,
    ensures
        ({
            let after = v.poll_returned(ready);
            let task = v.current->0;
            let placed = exists|q: int, k: int|
                0 <= q < v.store.queues.len() && 0 <= k < v.store.queues[q].len()
                    && #[trigger] v.store.queues[q][k] == task;
            &&& after.current is None
            &&& ready ==> after.active == v.active - 1
            &&& !ready ==> after.active == v.active
            &&& after.store.tasks.contains_key(task) <==> v.store.tasks[task].wakers > 0 || placed
            &&& t != task ==> after.store.tasks.contains_key(t) == v.store.tasks.contains_key(t)
            &&& after.store.tasks.contains_key(t) ==> after.store.tasks[t] == v.store.tasks[t]
            &&& after.store.queues == v.store.queues
            &&& after.store.next == v.store.next
            &&& after.open == v.open
            &&& after.tx == v.tx
        }),
{
    let task = v.current->0;
    assert(running(v.current).contains(task));
    law_record_goes_without_references(v.store, task, false, t);
}

/// A channel that is opened is the last one, empty, and has its receiving end. One that is closed
/// has lost what waited there and its receiving end; a task keeps its record exactly if a waker of
/// it exists, it is being polled, or it has a place in another channel. Nothing else changes.
pub proof fn law_channels_open_and_close<F>(v: SpawnQueueView<F>, channel: int, t: u64, p: int)
    requires
        v.wf(),
        0 <= channel < v.store.queues.len(),
        0 <= p < v.store.queues.len(),
    ensures
        ({
            let opened = v.with_channel();
            let closed = v.closed(channel);
            let new = v.store.queues.len() as int;
            let elsewhere = exists|q: int, k: int|
                0 <= q < v.store.queues.len() && q != channel && 0 <= k < v.store.queues[q].len()
                    && #[trigger] v.store.queues[q][k] == t;
            &&& opened.store.queues.len() == new + 1
            &&& opened.store.queues[new].len() == 0
            &&& opened.store.queues[p] == v.store.queues[p]
            &&& opened.open.len() == new + 1
            &&& opened.open[new]
            &&& opened.open[p] == v.open[p]
            &&& opened.store.tasks == v.store.tasks
            &&& closed.store.queues.len() == new
            &&& closed.store.queues[channel].len() == 0
            &&& p != channel ==> closed.store.queues[p] == v.store.queues[p]
            &&& closed.open.len() == new
            &&& !closed.open[channel]
            &&& p != channel ==> closed.open[p] == v.open[p]
            &&& closed.store.tasks.contains_key(t) <==> v.store.tasks.contains_key(t) && (
            v.store.tasks[t].wakers > 0 || v.current == Some(t) || elsewhere)
            &&& closed.store.tasks.contains_key(t) ==> closed.store.tasks[t] == v.store.tasks[t]
            &&& opened.store.next == v.store.next && closed.store.next == v.store.next
            &&& opened.tx == v.tx && closed.tx == v.tx
            &&& opened.active == v.active && closed.active == v.active
            &&& opened.current == v.current && closed.current == v.current
        }),
{
    law_left_records_have_a_reason(
        v.store,
        channel,
        Seq::empty(),
        running(v.current),
        t,
        p,
    );
    assert(running(v.current).contains(t) <==> v.current == Some(t));
}

} // verus!
