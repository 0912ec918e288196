//! Whole runs of the executor of `spawn_queue`.
//!
//! A run is a sequence of the steps that change the executor. Over a run it can be said what
//! became of each task, and with it what it means that the executor is done.
use vstd::prelude::*;

use crate::spawn_queue::{
    law_closing_drops_what_waits, law_poll_uses_one_turn, law_receive_keeps_turns,
    law_spawn_gives_one_turn, law_wake_gives_one_turn, running, Sender, SpawnQueueView, Task,
};
use crate::tally::{
    lemma_sum_bump, lemma_sum_of_ones, lemma_sum_same, lemma_tally_push, occurrences, sum,
};
use crate::task_store::places;

verus! {

/// One step of a run: a call that changes the executor.
pub enum Step<F> {
    OpenChannel,
    CloseChannel { channel: usize },
    SetTx { tx: Sender },
    Spawn { record: Task<F> },
    CloneWaker { task: u64 },
    Wake { task: u64 },
    WakeByRef { task: u64 },
    DropWaker { task: u64 },
    Receive { channel: usize },
    PollReturned { ready: bool },
}

impl<F> SpawnQueueView<F> {
    /// Whether `step` can be taken.
    pub open spec fn allows(self, step: Step<F>) -> bool {
        match step {
            Step::OpenChannel => true,
            Step::CloseChannel { channel } => channel < self.store.queues.len(),
            Step::SetTx { tx } => tx.channel < self.store.queues.len(),
            Step::Spawn { record } => {
                &&& self.tx == Some(record.tx)
                &&& self.active < u64::MAX
                &&& self.store.next < u64::MAX
            },
            Step::CloneWaker { task } => {
                &&& self.store.tasks.contains_key(task)
                &&& self.store.tasks[task].wakers < u64::MAX
            },
            Step::Wake { task } => {
                &&& self.store.tasks.contains_key(task)
                &&& self.store.tasks[task].wakers > 0
            },
            Step::WakeByRef { task } => self.store.tasks.contains_key(task),
            Step::DropWaker { task } => {
                &&& self.store.tasks.contains_key(task)
                &&& self.store.tasks[task].wakers > 0
            },
            Step::Receive { channel } => {
                &&& self.current is None
                &&& channel < self.store.queues.len()
                &&& self.store.queues[channel as int].len() > 0
            },
            Step::PollReturned { ready } => {
                &&& self.current is Some
                &&& ready ==> self.active > 0
            },
        }
    }

    /// The executor after `step`.
    pub open spec fn stepped(self, step: Step<F>) -> Self {
        match step {
            Step::OpenChannel => self.with_channel(),
            Step::CloseChannel { channel } => self.closed(channel as int),
            Step::SetTx { tx } => SpawnQueueView { tx: Some(tx), ..self },
            Step::Spawn { record } => self.spawned(record),
            Step::CloneWaker { task } => self.with_wakers(
                task,
                (self.store.tasks[task].wakers + 1) as u64,
            ),
            Step::Wake { task } => self.woken(task),
            Step::WakeByRef { task } => self.sent(task),
            Step::DropWaker { task } => self.with_wakers(
                task,
                (self.store.tasks[task].wakers - 1) as u64,
            ).collected(task),
            Step::Receive { channel } => self.received(channel as int),
            Step::PollReturned { ready } => self.poll_returned(ready),
        }
    }

    /// Whether nothing has been spawned that is still there: the executor as a run begins.
    pub open spec fn fresh(self) -> bool {
        &&& self.wf()
        &&& self.active == 0
        &&& forall|t: u64| !self.store.tasks.contains_key(t)
    }

    /// 1 if `task` is being polled, else 0.
    pub open spec fn in_poll(self, task: u64) -> nat {
        if self.current == Some(task) {
            1
        } else {
            0
        }
    }

    /// How many turns of `task` are lost with `step`, for want of the receiving end of a channel.
    pub open spec fn loses(self, step: Step<F>, task: u64) -> nat {
        match step {
            Step::CloseChannel { channel } => occurrences(self.store.queues[channel as int], task),
            Step::Spawn { record } if task == self.store.next
                && !self.open[record.tx.channel as int] => 1,
            Step::Wake { task: t } if t == task && !self.arrives(task) => 1,
            Step::WakeByRef { task: t } if t == task && !self.arrives(task) => 1,
            _ => 0,
        }
    }

    /// A step that can be taken keeps all in order.
    pub proof fn lemma_stepped(self, step: Step<F>)
        requires
            self.wf(),
            self.allows(step),
        ensures
            self.stepped(step).wf(),
    {
        match step {
            Step::OpenChannel => self.lemma_with_channel(),
            Step::CloseChannel { channel } => self.lemma_closed(channel as int),
            Step::SetTx { tx } => {},
            Step::Spawn { record } => self.lemma_spawned(record),
            Step::CloneWaker { task } => self.lemma_more_wakers(
                task,
                (self.store.tasks[task].wakers + 1) as u64,
            ),
            Step::Wake { task } => self.lemma_woken(task),
            Step::WakeByRef { task } => self.lemma_sent(task),
            Step::DropWaker { task } => self.lemma_waker_dropped(
                task,
                (self.store.tasks[task].wakers - 1) as u64,
            ),
            Step::Receive { channel } => self.lemma_received(channel as int),
            Step::PollReturned { ready } => self.lemma_poll_returned(ready),
        }
    }
}

/// The executor after the steps of a run.
pub open spec fn after<F>(start: SpawnQueueView<F>, steps: Seq<Step<F>>) -> SpawnQueueView<F>
    decreases steps.len(),
{
    if steps.len() == 0 {
        start
    } else {
        after(start, steps.drop_last()).stepped(steps.last())
    }
}

/// Whether each step of a run can be taken where it is taken.
pub open spec fn possible<F>(start: SpawnQueueView<F>, steps: Seq<Step<F>>) -> bool
    decreases steps.len(),
{
    steps.len() == 0 || {
        &&& possible(start, steps.drop_last())
        &&& after(start, steps.drop_last()).allows(steps.last())
    }
}

/// How often `task` was woken in a run.
pub open spec fn wakes<F>(steps: Seq<Step<F>>, task: u64) -> nat
    decreases steps.len(),
{
    if steps.len() == 0 {
        0
    } else {
        wakes(steps.drop_last(), task) + match steps.last() {
            Step::Wake { task: t } if t == task => 1nat,
            Step::WakeByRef { task: t } if t == task => 1nat,
            _ => 0nat,
        }
    }
}

/// How often polling `task` gave a value (`ready`) or gave none (not `ready`) in a run.
pub open spec fn polls<F>(
    start: SpawnQueueView<F>,
    steps: Seq<Step<F>>,
    task: u64,
    ready: bool,
) -> nat
    decreases steps.len(),
{
    if steps.len() == 0 {
        0
    } else {
        let before = steps.drop_last();
        polls(start, before, task, ready) + if steps.last() == (Step::<F>::PollReturned {
            ready,
        }) {
            after(start, before).in_poll(task)
        } else {
            0
        }
    }
}

/// How many turns of `task` were lost in a run, for want of the receiving end of a channel.
pub open spec fn lost<F>(start: SpawnQueueView<F>, steps: Seq<Step<F>>, task: u64) -> nat
    decreases steps.len(),
{
    if steps.len() == 0 {
        0
    } else {
        let before = steps.drop_last();
        lost(start, before, task) + after(start, before).loses(steps.last(), task)
    }
}

/// Whether `task` was spawned in a run.
pub open spec fn was_spawned<F>(
    start: SpawnQueueView<F>,
    steps: Seq<Step<F>>,
    task: u64,
) -> bool {
    start.store.next <= task < after(start, steps).store.next
}

/// Whether no task was woken more often in a run than it was polled without giving a value, where
/// a poll that is not over counts too: a future has its task woken once for each poll that leaves
/// it pending, be it before that poll returns or after, and never again once it gave its value.
pub open spec fn wakes_once_per_poll<F>(start: SpawnQueueView<F>, steps: Seq<Step<F>>) -> bool {
    forall|t: u64|
        #[trigger] wakes(steps, t) <= polls(start, steps, t, false) + after(start, steps).in_poll(t)
}

/// How often polling each task gave a value in a run.
pub open spec fn values<F>(start: SpawnQueueView<F>, steps: Seq<Step<F>>) -> spec_fn(int) -> nat {
    |t: int| polls(start, steps, t as u64, true)
}

/// All is in order after each step of a run.
pub proof fn lemma_after_wf<F>(start: SpawnQueueView<F>, steps: Seq<Step<F>>)
    requires
        start.wf(),
        possible(start, steps),
    ensures
        after(start, steps).wf(),
        start.store.next <= after(start, steps).store.next,
    decreases steps.len(),
{
    if steps.len() > 0 {
        lemma_after_wf(start, steps.drop_last());
        after(start, steps.drop_last()).lemma_stepped(steps.last());
    }
}

/// What one step does to the turns of a task that was there before.
proof fn lemma_step_turns<F>(v: SpawnQueueView<F>, step: Step<F>, t: u64)
    requires
        v.wf(),
        v.allows(step),
    ensures
        ({
            let w = v.stepped(step);
            let woken = match step {
                Step::Wake { task } if task == t => 1nat,
                Step::WakeByRef { task } if task == t => 1nat,
                _ => 0nat,
            };
            let polled = if step is PollReturned {
                v.in_poll(t)
            } else {
                0
            };
            let born = if step is Spawn && t == v.store.next {
                1nat
            } else {
                0nat
            };
            w.turns(t) + polled + v.loses(step, t) == v.turns(t) + woken + born
        }),
{
    match step {
        Step::OpenChannel => {
            lemma_tally_push(v.store.queues, Seq::empty(), places(t));
        },
        Step::CloseChannel { channel } => {
            law_closing_drops_what_waits(v, channel as int, t);
        },
        Step::Spawn { record } => {
            law_spawn_gives_one_turn(v, record, t);
        },
        Step::Wake { task } => {
            law_wake_gives_one_turn(v, task, t);
        },
        Step::WakeByRef { task } => {
            law_wake_gives_one_turn(v, task, t);
        },
        Step::Receive { channel } => {
            law_receive_keeps_turns(v, channel as int, t);
        },
        Step::PollReturned { ready } => {
            law_poll_uses_one_turn(v, ready, t);
        },
        _ => {},
    }
}

/// In a run each task gets a turn for being spawned and one for each wake, and each poll uses one
/// up: none comes from nowhere, and none is lost but for want of the receiving end of a channel.
pub proof fn law_turns_add_up<F>(start: SpawnQueueView<F>, steps: Seq<Step<F>>, t: u64)
    requires
        start.fresh(),
        possible(start, steps),
    ensures
        after(start, steps).turns(t) + polls(start, steps, t, false) + polls(start, steps, t, true)
            + lost(start, steps, t) == wakes(steps, t) + if was_spawned(start, steps, t) {
            1nat
        } else {
            0nat
        },
    decreases steps.len(),
{
    if steps.len() == 0 {
        start.store.lemma_waiting(t);
        assert(running(start.current).contains(t) <==> start.current == Some(t));
    } else {
        let rest = steps.drop_last();
        law_turns_add_up(start, rest, t);
        lemma_after_wf(start, rest);
        lemma_step_turns(after(start, rest), steps.last(), t);
    }
}

/// A task that was not spawned in a run was never polled in it.
proof fn lemma_only_spawned_are_polled<F>(start: SpawnQueueView<F>, steps: Seq<Step<F>>, t: u64)
    requires
        start.fresh(),
        possible(start, steps),
        t >= after(start, steps).store.next,
    ensures
        polls(start, steps, t, true) == 0,
        polls(start, steps, t, false) == 0,
    decreases steps.len(),
{
    if steps.len() > 0 {
        let rest = steps.drop_last();
        let v = after(start, rest);
        lemma_after_wf(start, rest);
        lemma_only_spawned_are_polled(start, rest, t);
        assert(running(v.current).contains(t) <==> v.current == Some(t));
    }
}

/// The executor counts the tasks right: at any point of a run the number of tasks that have not
/// finished is the number of those spawned less the number of polls that gave a value. So only
/// such a poll lowers it, and by 1.
pub proof fn law_count_is_spawned_less_finished<F>(start: SpawnQueueView<F>, steps: Seq<Step<F>>)
    requires
        start.fresh(),
        possible(start, steps),
    ensures
        ({
            let first = start.store.next as int;
            let next = after(start, steps).store.next as int;
            after(start, steps).active + sum(values(start, steps), first, next) == next - first
        }),
    decreases steps.len(),
{
    if steps.len() > 0 {
        let rest = steps.drop_last();
        let v = after(start, rest);
        let first = start.store.next as int;
        lemma_after_wf(start, rest);
        law_count_is_spawned_less_finished(start, rest);
        let f = values(start, rest);
        let g = values(start, steps);
        if steps.last() == (Step::<F>::PollReturned { ready: true }) {
            let t = v.current->0;
            assert(running(v.current).contains(t));
            lemma_born_in_run(start, rest, t);
            lemma_sum_bump(f, g, first, v.store.next as int, t as int);
        } else {
            lemma_sum_same(f, g, first, v.store.next as int);
            if steps.last() is Spawn {
                lemma_only_spawned_are_polled(start, rest, v.store.next);
                assert(g(v.store.next as int) == 0);
            }
        }
    }
}

/// The tasks that are there were spawned in the run.
proof fn lemma_born_in_run<F>(start: SpawnQueueView<F>, steps: Seq<Step<F>>, t: u64)
    requires
        start.fresh(),
        possible(start, steps),
        after(start, steps).store.tasks.contains_key(t),
    ensures
        was_spawned(start, steps, t),
    decreases steps.len(),
{
    lemma_after_wf(start, steps);
    if steps.len() > 0 {
        let rest = steps.drop_last();
        let v = after(start, rest);
        lemma_after_wf(start, rest);
        if v.store.tasks.contains_key(t) {
            lemma_born_in_run(start, rest, t);
        }
    }
}

/// A poll that gives a value lowers the number of tasks that have not finished by 1, a spawn raises
/// it by 1, and no other step changes it.
pub proof fn law_only_a_value_lowers_the_count<F>(v: SpawnQueueView<F>, step: Step<F>)
    requires
        v.wf(),
        v.allows(step),
    ensures
        v.stepped(step).active - v.active == match step {
            Step::Spawn { record } => 1int,
            Step::PollReturned { ready } => if ready {
                -1int
            } else {
                0int
            },
            _ => 0int,
        },
{
}

/// Whether polling each task that was spawned in a run gave its value, and gave it once.
pub open spec fn each_finished_once<F>(start: SpawnQueueView<F>, steps: Seq<Step<F>>) -> bool {
    forall|t: u64|
        was_spawned(start, steps, t) ==> #[trigger] polls(start, steps, t, true) == 1
}

/// In a run in which each future has its task woken once for each poll that leaves it pending, no
/// task gives a value twice, and the executor is done exactly if each task that was spawned, before
/// the executor began or while it ran, has been polled to its end exactly once.
pub proof fn law_done_means_each_finished_once<F>(start: SpawnQueueView<F>, steps: Seq<Step<F>>)
    requires
        start.fresh(),
        possible(start, steps),
        wakes_once_per_poll(start, steps),
    ensures
        forall|t: u64| #[trigger] polls(start, steps, t, true) <= 1,
        after(start, steps).active == 0 <==> each_finished_once(start, steps),
{
    let first = start.store.next as int;
    let next = after(start, steps).store.next as int;
    let f = values(start, steps);
    assert forall|t: u64| #[trigger] polls(start, steps, t, true) <= 1 by {
        law_turns_add_up(start, steps, t);
        assert(wakes(steps, t) <= polls(start, steps, t, false) + after(start, steps).in_poll(t));
    }
    lemma_after_wf(start, steps);
    law_count_is_spawned_less_finished(start, steps);
    assert forall|t: int| first <= t < next implies #[trigger] f(t) <= 1 by {
        assert(polls(start, steps, t as u64, true) <= 1);
    }
    lemma_sum_of_ones(f, first, next);
    if each_finished_once(start, steps) {
        assert forall|t: int| first <= t < next implies #[trigger] f(t) == 1 by {
            assert(polls(start, steps, t as u64, true) == 1);
        }
    }
    if sum(f, first, next) == next - first {
        assert forall|t: u64| was_spawned(start, steps, t) implies #[trigger] polls(
            start,
            steps,
            t,
            true,
        ) == 1 by {
            assert(f(t as int) == 1);
        }
    }
}

/// When a poll is over, the executor is done exactly if that poll gave a value and each task that
/// was spawned has then been polled to its end exactly once.
pub proof fn law_run_ends_with_the_last_value<F>(
    start: SpawnQueueView<F>,
    steps: Seq<Step<F>>,
    ready: bool,
)
    requires
        start.fresh(),
        possible(start, steps.push(Step::PollReturned { ready })),
        wakes_once_per_poll(start, steps.push(Step::PollReturned { ready })),
    ensures
        ready && after(start, steps).active == 1 <==> ready && each_finished_once(
            start,
            steps.push(Step::PollReturned { ready }),
        ),
{
    let all = steps.push(Step::PollReturned { ready });
    assert(all.drop_last() =~= steps);
    law_done_means_each_finished_once(start, all);
}

/// A task keeps what it was spawned with: however a run goes on after step `k` has spawned a task,
/// its record, as long as there is one, holds the future, the handle and the channel that it was
/// spawned with, and no other task gets its number.
pub proof fn law_task_keeps_what_it_was_spawned_with<F>(
    start: SpawnQueueView<F>,
    steps: Seq<Step<F>>,
    k: int,
    record: Task<F>,
)
    requires
        start.wf(),
        possible(start, steps),
        0 <= k < steps.len(),
        steps[k] == (Step::Spawn { record }),
    ensures
        ({
            let task = after(start, steps.take(k)).store.next;
            let end = after(start, steps).store;
            &&& task < end.next
            &&& end.tasks.contains_key(task) ==> {
                &&& end.tasks[task].task.future == record.future
                &&& end.tasks[task].task.join_handle == record.join_handle
                &&& end.tasks[task].task.tx == record.tx
            }
        }),
    decreases steps.len(),
{
    let rest = steps.drop_last();
    let v = after(start, rest);
    lemma_after_wf(start, rest);
    if k == steps.len() - 1 {
        assert(steps.take(k) =~= rest);
    } else {
        assert(rest.take(k) =~= steps.take(k));
        law_task_keeps_what_it_was_spawned_with(start, rest, k, record);
    }
}

} // verus!
