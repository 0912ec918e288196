//! Whole runs of the executor of `work_stealing`.
//!
//! A run is a sequence of the steps that change the executor. Over a run it can be said what
//! became of each task, and with it what it means that the executor is done.
use vstd::prelude::*;

use crate::tally::{
    lemma_sum_bump, lemma_sum_of_ones, lemma_sum_same, lemma_tally_positive, lemma_tally_push,
    lemma_tally_update, sum, tally,
};
use crate::task_store::places;
use crate::work_stealing::{
    law_decision_keeps_records, law_decision_keeps_turns, law_poll_uses_one_turn,
    law_spawn_gives_one_turn, law_wake_gives_one_turn, polling, running, ExecutorView, Phase, Task,
};

verus! {

/// One step of a run: a call that changes the executor. A call of `on_task_complete` is no step of
/// its own; it is part of a poll that returned with a value.
pub enum Step<F> {
    RegisterWorker,
    SetThreads,
    Spawn { id: usize, record: Task<F> },
    CloneWaker { task: u64 },
    Wake { task: u64 },
    WakeByRef { task: u64 },
    DropWaker { task: u64 },
    Decide { id: usize },
    PollReturned { id: usize, ready: bool },
    WakeUp { id: usize },
}

impl<F> ExecutorView<F> {
    /// Whether `step` can be taken.
    pub open spec fn allows(self, step: Step<F>) -> bool {
        match step {
            Step::RegisterWorker => true,
            Step::SetThreads => self.tokens is None,
            Step::Spawn { id, record } => {
                &&& id < self.workers.len()
                &&& record.thread_id == id
                &&& self.active < u64::MAX
                &&& self.store.next < u64::MAX
            },
            Step::CloneWaker { task } => {
                &&& self.store.tasks.contains_key(task)
                &&& self.store.tasks[task].wakers < u64::MAX
            },
            Step::Wake { task } => {
                &&& self.store.tasks.contains_key(task)
                &&& self.store.tasks[task].wakers > 0
            },
            Step::WakeByRef { task } => self.store.tasks.contains_key(task),
            Step::DropWaker { task } => {
                &&& self.store.tasks.contains_key(task)
                &&& self.store.tasks[task].wakers > 0
            },
            Step::Decide { id } => {
                &&& self.started()
                &&& id < self.workers.len()
                &&& self.workers[id as int].decides()
            },
            Step::PollReturned { id, ready } => {
                &&& id < self.workers.len()
                &&& self.workers[id as int] is Own || self.workers[id as int] is Stolen
                &&& ready ==> self.active > 0
            },
            Step::WakeUp { id } => {
                &&& id < self.workers.len()
                &&& self.workers[id as int] is Parked
                &&& self.notified(id as int)
            },
        }
    }

    /// The executor after `step`.
    pub open spec fn stepped(self, step: Step<F>) -> Self {
        match step {
            Step::RegisterWorker => self.registered(),
            Step::SetThreads => self.with_threads(),
            Step::Spawn { id, record } => self.spawned(id as int, record),
            Step::CloneWaker { task } => self.with_wakers(
                task,
                (self.store.tasks[task].wakers + 1) as u64,
            ),
            Step::Wake { task } => self.with_wakers(
                task,
                (self.store.tasks[task].wakers - 1) as u64,
            ).readied(task),
            Step::WakeByRef { task } => self.readied(task),
            Step::DropWaker { task } => self.with_wakers(
                task,
                (self.store.tasks[task].wakers - 1) as u64,
            ).collected(task),
            Step::Decide { id } => self.moved(id as int, self.next_move(id as int)),
            Step::PollReturned { id, ready } => self.poll_returned(id as int, ready),
            Step::WakeUp { id } => self.awoken(id as int),
        }
    }

    /// Whether nothing has been spawned that is still there, and the workers are not to stop: the
    /// executor as a run begins.
    pub open spec fn fresh(self) -> bool {
        &&& self.wf()
        &&& self.active == 0
        &&& !self.shutdown
        &&& forall|t: u64| !self.store.tasks.contains_key(t)
    }

    /// How many workers are polling `task`.
    pub open spec fn in_poll(self, task: u64) -> nat {
        tally(self.workers, polling(task))
    }

    /// 1 if it is `task` whose poll is over with `step`, and gave a value exactly if `ready`;
    /// else 0.
    pub open spec fn polled(self, step: Step<F>, task: u64, ready: bool) -> nat {
        match step {
            Step::PollReturned { id, ready: r } => if r == ready && self.workers[id as int].runs(
                task,
            ) {
                1
            } else {
                0
            },
            _ => 0,
        }
    }

    /// A step that can be taken keeps all in order.
    pub proof fn lemma_stepped(self, step: Step<F>)
        requires
            self.wf(),
            self.allows(step),
        ensures
            self.stepped(step).wf(),
    {
        match step {
            Step::RegisterWorker => self.lemma_registered(),
            Step::SetThreads => self.lemma_with_threads(),
            Step::Spawn { id, record } => self.lemma_spawned(id as int, record),
            Step::CloneWaker { task } => self.lemma_more_wakers(
                task,
                (self.store.tasks[task].wakers + 1) as u64,
            ),
            Step::Wake { task } => self.lemma_readied(
                task,
                (self.store.tasks[task].wakers - 1) as u64,
            ),
            Step::WakeByRef { task } => self.lemma_readied(task, 0),
            Step::DropWaker { task } => self.lemma_waker_dropped(
                task,
                (self.store.tasks[task].wakers - 1) as u64,
            ),
            Step::Decide { id } => self.lemma_moved(id as int),
            Step::PollReturned { id, ready } => self.lemma_poll_returned(id as int, ready),
            Step::WakeUp { id } => self.lemma_awoken(id as int),
        }
    }

    /// A task that nobody keeps is not being polled.
    proof fn lemma_unknown_not_polled(self, t: u64)
        requires
            self.wf(),
            !self.store.tasks.contains_key(t),
        ensures
            self.in_poll(t) == 0,
            forall|w: int| 0 <= w < self.workers.len() ==> !(#[trigger] self.workers[w]).runs(t),
    {
        assert(!running(self.workers).contains(t));
        lemma_tally_positive(self.workers, polling(t));
    }
}

/// The executor after the steps of a run.
pub open spec fn after<F>(start: ExecutorView<F>, steps: Seq<Step<F>>) -> ExecutorView<F>
    decreases steps.len(),
{
    if steps.len() == 0 {
        start
    } else {
        after(start, steps.drop_last()).stepped(steps.last())
    }
}

/// Whether each step of a run can be taken where it is taken.
pub open spec fn possible<F>(start: ExecutorView<F>, steps: Seq<Step<F>>) -> bool
    decreases steps.len(),
{
    steps.len() == 0 || {
        &&& possible(start, steps.drop_last())
        &&& after(start, steps.drop_last()).allows(steps.last())
    }
}

/// How often `task` was woken in a run.
pub open spec fn wakes<F>(steps: Seq<Step<F>>, task: u64) -> nat
    decreases steps.len(),
{
    if steps.len() == 0 {
        0
    } else {
        wakes(steps.drop_last(), task) + match steps.last() {
            Step::Wake { task: t } if t == task => 1nat,
            Step::WakeByRef { task: t } if t == task => 1nat,
            _ => 0nat,
        }
    }
}

/// How often polling `task` gave a value (`ready`) or gave none (not `ready`) in a run.
pub open spec fn polls<F>(
    start: ExecutorView<F>,
    steps: Seq<Step<F>>,
    task: u64,
    ready: bool,
) -> nat
    decreases steps.len(),
{
    if steps.len() == 0 {
        0
    } else {
        let before = steps.drop_last();
        polls(start, before, task, ready) + after(start, before).polled(steps.last(), task, ready)
    }
}

/// Whether `task` was spawned in a run.
pub open spec fn was_spawned<F>(
    start: ExecutorView<F>,
    steps: Seq<Step<F>>,
    task: u64,
) -> bool {
    start.store.next <= task < after(start, steps).store.next
}

/// Whether no task was woken more often in a run than it was polled without giving a value, where
/// a poll that is not over counts too: a future has its task woken once for each poll that leaves
/// it pending, be it before that poll returns or after, and never again once it gave its value.
pub open spec fn wakes_once_per_poll<F>(start: ExecutorView<F>, steps: Seq<Step<F>>) -> bool {
    forall|t: u64|
        #[trigger] wakes(steps, t) <= polls(start, steps, t, false) + after(start, steps).in_poll(t)
}

/// How often polling each task gave a value in a run.
pub open spec fn values<F>(start: ExecutorView<F>, steps: Seq<Step<F>>) -> spec_fn(int) -> nat {
    |t: int| polls(start, steps, t as u64, true)
}

/// All is in order after each step of a run.
pub proof fn lemma_after_wf<F>(start: ExecutorView<F>, steps: Seq<Step<F>>)
    requires
        start.wf(),
        possible(start, steps),
    ensures
        after(start, steps).wf(),
        start.store.next <= after(start, steps).store.next,
    decreases steps.len(),
{
    if steps.len() > 0 {
        lemma_after_wf(start, steps.drop_last());
        after(start, steps.drop_last()).lemma_stepped(steps.last());
    }
}

/// What one step does to the turns of a task that was there before.
proof fn lemma_step_turns<F>(v: ExecutorView<F>, step: Step<F>, t: u64)
    requires
        v.wf(),
        v.allows(step),
    ensures
        ({
            let w = v.stepped(step);
            let woken = match step {
                Step::Wake { task } if task == t => 1nat,
                Step::WakeByRef { task } if task == t => 1nat,
                _ => 0nat,
            };
            let polled = v.polled(step, t, true) + v.polled(step, t, false);
            let born = if step is Spawn && t == v.store.next {
                1nat
            } else {
                0nat
            };
            w.turns(t) + polled == v.turns(t) + woken + born
        }),
{
    match step {
        Step::RegisterWorker => {
            lemma_tally_push(v.store.queues, Seq::empty(), places(t));
            lemma_tally_push(v.workers, Phase::Top, polling(t));
        },
        Step::Spawn { id, record } => {
            law_spawn_gives_one_turn(v, id as int, record, t);
        },
        Step::Wake { task } => {
            law_wake_gives_one_turn(v, task, (v.store.tasks[task].wakers - 1) as u64, t);
        },
        Step::WakeByRef { task } => {
            law_wake_gives_one_turn(v, task, 0, t);
        },
        Step::Decide { id } => {
            law_decision_keeps_turns(v, id as int, t);
        },
        Step::PollReturned { id, ready } => {
            law_poll_uses_one_turn(v, id as int, ready, t);
        },
        Step::WakeUp { id } => {
            lemma_tally_update(v.workers, id as int, Phase::Top, polling(t));
        },
        _ => {},
    }
}

/// In a run each task gets a turn for being spawned and one for each wake, and each poll uses one
/// up: no turn is lost and none comes from nowhere.
pub proof fn law_turns_add_up<F>(start: ExecutorView<F>, steps: Seq<Step<F>>, t: u64)
    requires
        start.fresh(),
        possible(start, steps),
    ensures
        after(start, steps).turns(t) + polls(start, steps, t, false) + polls(start, steps, t, true)
            == wakes(steps, t) + if was_spawned(start, steps, t) {
            1nat
        } else {
            0nat
        },
    decreases steps.len(),
{
    if steps.len() == 0 {
        start.store.lemma_waiting(t);
        start.lemma_unknown_not_polled(t);
    } else {
        let rest = steps.drop_last();
        law_turns_add_up(start, rest, t);
        lemma_after_wf(start, rest);
        lemma_step_turns(after(start, rest), steps.last(), t);
    }
}

/// A task that was not spawned in a run was never polled in it.
proof fn lemma_only_spawned_are_polled<F>(start: ExecutorView<F>, steps: Seq<Step<F>>, t: u64)
    requires
        start.fresh(),
        possible(start, steps),
        t >= after(start, steps).store.next,
    ensures
        polls(start, steps, t, true) == 0,
        polls(start, steps, t, false) == 0,
    decreases steps.len(),
{
    if steps.len() > 0 {
        let rest = steps.drop_last();
        let v = after(start, rest);
        lemma_after_wf(start, rest);
        lemma_only_spawned_are_polled(start, rest, t);
        v.lemma_unknown_not_polled(t);
    }
}

/// The executor counts the tasks right: at any point of a run the number of tasks that have not
/// finished is the number of those spawned less the number of polls that gave a value. So only
/// such a poll lowers it, and by 1.
pub proof fn law_count_is_spawned_less_finished<F>(start: ExecutorView<F>, steps: Seq<Step<F>>)
    requires
        start.fresh(),
        possible(start, steps),
    ensures
        ({
            let first = start.store.next as int;
            let next = after(start, steps).store.next as int;
            after(start, steps).active + sum(values(start, steps), first, next) == next - first
        }),
    decreases steps.len(),
{
    if steps.len() > 0 {
        let rest = steps.drop_last();
        let v = after(start, rest);
        let first = start.store.next as int;
        lemma_after_wf(start, rest);
        law_count_is_spawned_less_finished(start, rest);
        let f = values(start, rest);
        let g = values(start, steps);
        match steps.last() {
            Step::PollReturned { id, ready: true } => {
                let t = v.task_of(id as int);
                assert(v.workers[id as int].runs(t));
                assert(running(v.workers).contains(t));
                lemma_born_in_run(start, rest, t);
                lemma_sum_bump(f, g, first, v.store.next as int, t as int);
            },
            _ => {
                lemma_sum_same(f, g, first, v.store.next as int);
                if steps.last() is Spawn {
                    lemma_only_spawned_are_polled(start, rest, v.store.next);
                    assert(g(v.store.next as int) == 0);
                }
            },
        }
    }
}

/// The tasks that are there were spawned in the run.
proof fn lemma_born_in_run<F>(start: ExecutorView<F>, steps: Seq<Step<F>>, t: u64)
    requires
        start.fresh(),
        possible(start, steps),
        after(start, steps).store.tasks.contains_key(t),
    ensures
        was_spawned(start, steps, t),
    decreases steps.len(),
{
    lemma_after_wf(start, steps);
    if steps.len() > 0 {
        let rest = steps.drop_last();
        let v = after(start, rest);
        lemma_after_wf(start, rest);
        if let Step::Decide { id } = steps.last() {
            v.lemma_moved(id as int);
        }
        if v.store.tasks.contains_key(t) {
            lemma_born_in_run(start, rest, t);
        }
    }
}

/// A poll that gives a value lowers the number of tasks that have not finished by 1, a spawn raises
/// it by 1, and no other step changes it.
pub proof fn law_only_a_value_lowers_the_count<F>(v: ExecutorView<F>, step: Step<F>)
    requires
        v.wf(),
        v.allows(step),
    ensures
        v.stepped(step).active - v.active == match step {
            Step::Spawn { id, record } => 1int,
            Step::PollReturned { id, ready } => if ready {
                -1int
            } else {
                0int
            },
            _ => 0int,
        },
{
}

/// Whether polling each task that was spawned in a run gave its value, and gave it once.
pub open spec fn each_finished_once<F>(start: ExecutorView<F>, steps: Seq<Step<F>>) -> bool {
    forall|t: u64|
        was_spawned(start, steps, t) ==> #[trigger] polls(start, steps, t, true) == 1
}

/// In a run in which each future has its task woken once for each poll that leaves it pending, no
/// task gives a value twice, and no task is left unfinished exactly if each task that was spawned
/// has been polled to its end exactly once.
pub proof fn law_none_left_means_each_finished_once<F>(start: ExecutorView<F>, steps: Seq<Step<F>>)
    requires
        start.fresh(),
        possible(start, steps),
        wakes_once_per_poll(start, steps),
    ensures
        forall|t: u64| #[trigger] polls(start, steps, t, true) <= 1,
        after(start, steps).active == 0 <==> each_finished_once(start, steps),
{
    let first = start.store.next as int;
    let next = after(start, steps).store.next as int;
    let f = values(start, steps);
    assert forall|t: u64| #[trigger] polls(start, steps, t, true) <= 1 by {
        law_turns_add_up(start, steps, t);
        assert(wakes(steps, t) <= polls(start, steps, t, false) + after(start, steps).in_poll(t));
    }
    lemma_after_wf(start, steps);
    law_count_is_spawned_less_finished(start, steps);
    assert forall|t: int| first <= t < next implies #[trigger] f(t) <= 1 by {
        assert(polls(start, steps, t as u64, true) <= 1);
    }
    lemma_sum_of_ones(f, first, next);
    if each_finished_once(start, steps) {
        assert forall|t: int| first <= t < next implies #[trigger] f(t) == 1 by {
            assert(polls(start, steps, t as u64, true) == 1);
        }
    }
    if sum(f, first, next) == next - first {
        assert forall|t: u64| was_spawned(start, steps, t) implies #[trigger] polls(
            start,
            steps,
            t,
            true,
        ) == 1 by {
            assert(f(t as int) == 1);
        }
    }
}

/// Whether the last step of a run is a poll that gave a value, and each task that was spawned up to
/// then has been polled to its end exactly once.
pub open spec fn ends_with_the_last_value<F>(
    start: ExecutorView<F>,
    steps: Seq<Step<F>>,
) -> bool {
    &&& steps.len() > 0
    &&& steps.last() matches Step::PollReturned { id, ready } && ready
    &&& each_finished_once(start, steps)
}

/// The workers are to stop exactly if at some point of the run a poll gave a value and each task
/// that was spawned up to then had been polled to its end exactly once, in runs in which at every
/// point each future has had its task woken once for each poll that left it pending.
pub proof fn law_workers_stop_with_the_last_value<F>(
    start: ExecutorView<F>,
    steps: Seq<Step<F>>,
)
    requires
        start.fresh(),
        possible(start, steps),
        forall|k: int|
            0 <= k <= steps.len() ==> wakes_once_per_poll(start, #[trigger] steps.take(k)),
    ensures
        after(start, steps).shutdown <==> exists|k: int|
            0 <= k <= steps.len() && ends_with_the_last_value(start, #[trigger] steps.take(k)),
    decreases steps.len(),
{
    assert(steps.take(steps.len() as int) =~= steps);
    if steps.len() > 0 {
        let rest = steps.drop_last();
        assert forall|k: int| 0 <= k <= rest.len() implies #[trigger] rest.take(k) == steps.take(
            k,
        ) by {
            assert(rest.take(k) =~= steps.take(k));
        }
        assert forall|k: int| 0 <= k <= rest.len() implies wakes_once_per_poll(
            start,
            #[trigger] rest.take(k),
        ) by {
            assert(rest.take(k) == steps.take(k));
        }
        law_workers_stop_with_the_last_value(start, rest);
        law_none_left_means_each_finished_once(start, steps);
        let now = ends_with_the_last_value(start, steps);
        assert(after(start, steps).shutdown == (after(start, rest).shutdown || now));
        if after(start, rest).shutdown {
            let k = choose|k: int|
                0 <= k <= rest.len() && ends_with_the_last_value(start, #[trigger] rest.take(k));
            assert(ends_with_the_last_value(start, steps.take(k)));
        }
        if exists|k: int|
            0 <= k <= steps.len() && ends_with_the_last_value(start, #[trigger] steps.take(k)) {
            let k = choose|k: int|
                0 <= k <= steps.len() && ends_with_the_last_value(start, #[trigger] steps.take(k));
            if k < steps.len() {
                assert(ends_with_the_last_value(start, rest.take(k)));
            }
        }
    }
}

/// A task keeps what it was spawned with: however a run goes on after step `k` has spawned a task,
/// its record, as long as there is one, holds the future and the handle that it was spawned with,
/// and no other task gets its number.
pub proof fn law_task_keeps_what_it_was_spawned_with<F>(
    start: ExecutorView<F>,
    steps: Seq<Step<F>>,
    k: int,
    id: usize,
    record: Task<F>,
)
    requires
        start.wf(),
        possible(start, steps),
        0 <= k < steps.len(),
        steps[k] == (Step::Spawn { id, record }),
    ensures
        ({
            let task = after(start, steps.take(k)).store.next;
            let end = after(start, steps).store;
            &&& task < end.next
            &&& end.tasks.contains_key(task) ==> {
                &&& end.tasks[task].task.future == record.future
                &&& end.tasks[task].task.join_handle == record.join_handle
            }
        }),
    decreases steps.len(),
{
    let rest = steps.drop_last();
    let v = after(start, rest);
    lemma_after_wf(start, rest);
    if k == steps.len() - 1 {
        assert(steps.take(k) =~= rest);
    } else {
        assert(rest.take(k) =~= steps.take(k));
        law_task_keeps_what_it_was_spawned_with(start, rest, k, id, record);
        if let Step::Decide { id } = steps.last() {
            law_decision_keeps_records(v, id as int, after(start, steps.take(k)).store.next);
        }
    }
}

} // verus!
