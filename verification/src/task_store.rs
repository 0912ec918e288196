//! Task records and the queues in which ready tasks wait.
//!
//! A task is known by a number. Its record lives in a table for as long as something still refers
//! to the task: a waker, a place in a queue, or an executor that is polling it. The executors of
//! `spawn_queue` and `work_stealing` are both built on this store.
use vstd::prelude::*;

use crate::tally::{
    equals, lemma_occurs, lemma_tally_drop_first, lemma_tally_positive, lemma_tally_push,
    lemma_tally_update, occurrences, tally,
};
use std::collections::{HashMap, VecDeque};

verus! {

broadcast use vstd::std_specs::hash::group_hash_axioms;

/// The record of one task: what the executor keeps of it, and how many wakers of it exist.
#[derive(Debug)]
pub struct Entry<K> {
    pub task: K,
    pub wakers: u64,
}

/// The records of all tasks that are still referred to, and the queues of ready tasks.
#[derive(Debug)]
pub struct TaskStore<K> {
    tasks: HashMap<u64, Entry<K>>,
    next: u64,
    queues: Vec<VecDeque<u64>>,
}

/// The mathematical content of a [`TaskStore`].
#[verifier::ext_equal]
pub struct StoreView<K> {
    /// The records, by task number.
    pub tasks: Map<u64, Entry<K>>,
    /// The number that the next task gets.
    pub next: u64,
    /// The queues, each with its oldest task first.
    pub queues: Seq<Seq<u64>>,
}

impl<K> StoreView<K> {
    /// Whether `task` waits in some queue.
    pub open spec fn queued(self, task: u64) -> bool {
        exists|q: int| 0 <= q < self.queues.len() && (#[trigger] self.queues[q]).contains(task)
    }

    /// Whether the table holds exactly the tasks that are referred to, where `running` are the
    /// tasks that are being polled: no reference dangles, and no record outlives its last
    /// reference.
    pub open spec fn wf(self, running: Set<u64>) -> bool {
        &&& forall|t: u64| self.tasks.contains_key(t) ==> t < self.next
        &&& forall|t: u64| #[trigger] self.queued(t) ==> self.tasks.contains_key(t)
        &&& forall|t: u64| #[trigger] running.contains(t) ==> self.tasks.contains_key(t)
        &&& forall|t: u64|
            self.tasks.contains_key(t) ==> (#[trigger] self.tasks[t]).wakers > 0 || self.queued(t)
                || running.contains(t)
    }

    /// The store after `task` was put at the back of queue `q`.
    pub open spec fn push(self, task: u64, q: int) -> Self {
        StoreView { queues: self.queues.update(q, self.queues[q].push(task)), ..self }
    }

    /// The store after the oldest task of queue `q` was taken.
    pub open spec fn pop_front(self, q: int) -> Self {
        StoreView { queues: self.queues.update(q, self.queues[q].drop_first()), ..self }
    }

    /// The store after the newest task of queue `q` was taken.
    pub open spec fn pop_back(self, q: int) -> Self {
        StoreView { queues: self.queues.update(q, self.queues[q].drop_last()), ..self }
    }

    /// The store after the number of wakers of `task` became `wakers`.
    pub open spec fn set_wakers(self, task: u64, wakers: u64) -> Self {
        StoreView {
            tasks: self.tasks.insert(task, Entry { task: self.tasks[task].task, wakers }),
            ..self
        }
    }

    /// The store after what the executor keeps of `task` became `value`.
    pub open spec fn set_task(self, task: u64, value: K) -> Self {
        StoreView {
            tasks: self.tasks.insert(
                task,
                Entry { task: value, wakers: self.tasks[task].wakers },
            ),
            ..self
        }
    }

    /// The store after a new task was recorded and put at the back of queue `q`.
    pub open spec fn insert(self, value: K, q: int) -> Self {
        StoreView {
            tasks: self.tasks.insert(self.next, Entry { task: value, wakers: 0 }),
            next: (self.next + 1) as u64,
            queues: self.queues.update(q, self.queues[q].push(self.next)),
        }
    }

    /// The store after a number was given to a task that is not recorded.
    pub open spec fn skip(self) -> Self {
        StoreView { next: (self.next + 1) as u64, ..self }
    }

    /// The store once queue `q` has become `queue` and every record is gone to which nothing refers
    /// any more; `running` are the tasks that are being polled.
    pub open spec fn left(self, q: int, queue: Seq<u64>, running: Set<u64>) -> Self {
        let rest = StoreView { queues: self.queues.update(q, queue), ..self };
        let referred = |t: u64|
            rest.tasks[t].wakers > 0 || rest.queued(t) || running.contains(t);
        StoreView { tasks: rest.tasks.restrict(Set::new(referred)), ..rest }
    }

    /// The store once the record of `task` is gone, if nothing refers to the task any more.
    pub open spec fn collect(self, task: u64, running: bool) -> Self {
        if self.unreferenced(task, running) {
            StoreView { tasks: self.tasks.remove(task), ..self }
        } else {
            self
        }
    }

    /// Whether no waker, no queue and no executor refers to `task`.
    pub open spec fn unreferenced(self, task: u64, running: bool) -> bool {
        self.tasks[task].wakers == 0 && !running && !self.queued(task)
    }
}

/// What was kept of the tasks that waited in `queue` and whose records are gone, where `before` and
/// `after` are the records with and without them: one for each such task, in the order in which the
/// tasks have their last places in the queue.
pub open spec fn released<K>(
    queue: Seq<u64>,
    before: Map<u64, Entry<K>>,
    after: Map<u64, Entry<K>>,
) -> Seq<K>
    decreases queue.len(),
{
    if queue.len() == 0 {
        Seq::empty()
    } else {
        let first = queue.first();
        let rest = queue.drop_first();
        if after.contains_key(first) || rest.contains(first) {
            released(rest, before, after)
        } else {
            seq![before[first].task] + released(rest, before, after)
        }
    }
}

impl<K> TaskStore<K> {
    pub closed spec fn view(&self) -> StoreView<K> {
        StoreView {
            tasks: self.tasks@,
            next: self.next,
            queues: Seq::new(self.queues@.len(), |q: int| self.queues@[q]@),
        }
    }

    /// A store without tasks and without queues.
    pub fn new() -> (store: Self)
        ensures
            store@ == (StoreView::<K> {
                tasks: Map::empty(),
                next: 0,
                queues: Seq::empty(),
            }),
    {
        let store = TaskStore { tasks: HashMap::new(), next: 0, queues: Vec::new() };
        assert(store@.queues =~= Seq::empty());
        store
    }

    /// Adds an empty queue and returns its number.
    pub fn add_queue(&mut self) -> (q: usize)
        ensures
            q == old(self)@.queues.len(),
            final(self)@ == (StoreView {
                queues: old(self)@.queues.push(Seq::empty()),
                ..old(self)@
            }),
    {
        let q = self.queues.len();
        self.queues.push(VecDeque::new());
        assert(self@.queues =~= old(self)@.queues.push(Seq::empty()));
        q
    }

    /// Whether a number is left for one more task.
    pub fn has_room(&self) -> (room: bool)
        ensures
            room == (self@.next < u64::MAX),
    {
        self.next < u64::MAX
    }

    /// Records a new task and puts it at the back of queue `q`.
    pub fn insert(&mut self, value: K, q: usize) -> (task: u64)
        requires
            q < old(self)@.queues.len(),
            old(self)@.next < u64::MAX,
        ensures
            task == old(self)@.next,
            final(self)@ == old(self)@.insert(value, q as int),
    {
        let task = self.next;
        self.tasks.insert(task, Entry { task: value, wakers: 0 });
        self.next = task + 1;
        self.queues[q].push_back(task);
        assert(self@ =~= old(self)@.insert(value, q as int));
        task
    }

    /// Gives a number to a task that is not recorded.
    pub fn skip(&mut self) -> (task: u64)
        requires
            old(self)@.next < u64::MAX,
        ensures
            task == old(self)@.next,
            final(self)@ == old(self)@.skip(),
    {
        let task = self.next;
        self.next = task + 1;
        assert(self@ =~= old(self)@.skip());
        task
    }

    /// Puts `task` at the back of queue `q`.
    pub fn push(&mut self, task: u64, q: usize)
        requires
            q < old(self)@.queues.len(),
        ensures
            final(self)@ == old(self)@.push(task, q as int),
    {
        self.queues[q].push_back(task);
        assert(self@ =~= old(self)@.push(task, q as int));
    }

    /// Takes the oldest task of queue `q`.
    pub fn pop_front(&mut self, q: usize) -> (task: Option<u64>)
        requires
            q < old(self)@.queues.len(),
        ensures
            task is Some <==> old(self)@.queues[q as int].len() > 0,
            task matches Some(t) ==> t == old(self)@.queues[q as int].first() && final(self)@
                == old(self)@.pop_front(q as int),
            task is None ==> final(self)@ == old(self)@,
    {
        let task = self.queues[q].pop_front();
        proof {
            if task is Some {
                assert(self@ =~= old(self)@.pop_front(q as int));
            } else {
                assert(self@ =~= old(self)@);
            }
        }
        task
    }

    /// Takes the newest task of queue `q`.
    pub fn pop_back(&mut self, q: usize) -> (task: Option<u64>)
        requires
            q < old(self)@.queues.len(),
        ensures
            task is Some <==> old(self)@.queues[q as int].len() > 0,
            task matches Some(t) ==> t == old(self)@.queues[q as int].last() && final(self)@
                == old(self)@.pop_back(q as int),
            task is None ==> final(self)@ == old(self)@,
    {
        let task = self.queues[q].pop_back();
        proof {
            if task is Some {
                assert(self@ =~= old(self)@.pop_back(q as int));
            } else {
                assert(self@ =~= old(self)@);
            }
        }
        task
    }

    /// What the executor keeps of `task`, if its record is still there.
    pub fn get(&self, task: u64) -> (value: Option<&K>)
        ensures
            value == (if self@.tasks.contains_key(task) {
                Some(&self@.tasks[task].task)
            } else {
                None
            }),
    {
        match self.tasks.get(&task) {
            Some(entry) => Some(&entry.task),
            None => None,
        }
    }

    /// How many wakers of `task` exist.
    pub fn wakers(&self, task: u64) -> (n: u64)
        ensures
            n == (if self@.tasks.contains_key(task) {
                self@.tasks[task].wakers
            } else {
                0
            }),
    {
        match self.tasks.get(&task) {
            Some(entry) => entry.wakers,
            None => 0,
        }
    }

    /// Sets the number of wakers of `task`.
    pub fn set_wakers(&mut self, task: u64, wakers: u64)
        requires
            old(self)@.tasks.contains_key(task),
        ensures
            final(self)@ == old(self)@.set_wakers(task, wakers),
    {
        if let Some(mut entry) = self.tasks.remove(&task) {
            entry.wakers = wakers;
            self.tasks.insert(task, entry);
        }
        assert(self@ =~= old(self)@.set_wakers(task, wakers));
    }

    /// Replaces what the executor keeps of `task`.
    pub fn set_task(&mut self, task: u64, value: K)
        requires
            old(self)@.tasks.contains_key(task),
        ensures
            final(self)@ == old(self)@.set_task(task, value),
    {
        if let Some(mut entry) = self.tasks.remove(&task) {
            entry.task = value;
            self.tasks.insert(task, entry);
        }
        assert(self@ =~= old(self)@.set_task(task, value));
    }

    /// Whether `task` waits in some queue.
    pub fn queued(&self, task: u64) -> (found: bool)
        ensures
            found == self@.queued(task),
    {
        let mut q: usize = 0;
        while q < self.queues.len()
            invariant
                0 <= q <= self@.queues.len(),
                forall|i: int| 0 <= i < q ==> !(#[trigger] self@.queues[i]).contains(task),
            decreases self@.queues.len() - q,
        {
            let mut p: usize = 0;
            while p < self.queues[q].len()
                invariant
                    0 <= q < self@.queues.len(),
                    0 <= p <= self@.queues[q as int].len(),
                    forall|i: int| 0 <= i < p ==> self@.queues[q as int][i] != task,
                decreases self@.queues[q as int].len() - p,
            {
                if self.queues[q][p] == task {
                    assert(self@.queues[q as int][p as int] == task);
                    assert(self@.queues[q as int].contains(task));
                    return true;
                }
                p += 1;
            }
            q += 1;
        }
        false
    }

    /// Removes the record of `task` and hands it out if nothing refers to the task any more;
    /// `running` says whether it is being polled.
    pub fn collect(&mut self, task: u64, running: bool) -> (value: Option<K>)
        requires
            old(self)@.tasks.contains_key(task),
        ensures
            final(self)@ == old(self)@.collect(task, running),
            value == (if old(self)@.unreferenced(task, running) {
                Some(old(self)@.tasks[task].task)
            } else {
                None
            }),
    {
        if self.wakers(task) == 0 && !running && !self.queued(task) {
            let removed = self.tasks.remove(&task);
            assert(self@ =~= old(self)@.collect(task, running));
            match removed {
                Some(entry) => Some(entry.task),
                None => None,
            }
        } else {
            None
        }
    }
}

/// Which tasks wait once queue `q` has become `new`.
proof fn lemma_queued_update<K>(store: StoreView<K>, q: int, new: Seq<u64>, t: u64)
    requires
        0 <= q < store.queues.len(),
    ensures
        ({
            let after = StoreView { queues: store.queues.update(q, new), ..store };
            &&& new.contains(t) ==> after.queued(t)
            &&& after.queued(t) ==> new.contains(t) || store.queued(t)
            &&& store.queued(t) ==> after.queued(t) || store.queues[q].contains(t)
        }),
{
    let after = StoreView { queues: store.queues.update(q, new), ..store };
    if new.contains(t) {
        assert(after.queues[q].contains(t));
    }
    if after.queued(t) {
        let p = choose|p: int|
            0 <= p < after.queues.len() && #[trigger] after.queues[p].contains(t);
        if p != q {
            assert(store.queues[p].contains(t));
        }
    }
    if store.queued(t) {
        let p = choose|p: int|
            0 <= p < store.queues.len() && #[trigger] store.queues[p].contains(t);
        if p != q {
            assert(after.queues[p].contains(t));
        }
    }
}

impl<K> StoreView<K> {
    /// Exactly the pushed task is queued in addition.
    pub proof fn lemma_push(self, task: u64, q: int)
        requires
            0 <= q < self.queues.len(),
        ensures
            forall|t: u64|
                #[trigger] self.push(task, q).queued(t) <==> self.queued(t) || t == task,
    {
        let new = self.queues[q].push(task);
        assert forall|t: u64|
            #[trigger] self.push(task, q).queued(t) <==> self.queued(t) || t == task by {
            lemma_queued_update(self, q, new, t);
            assert(new.contains(task)) by {
                assert(new[new.len() - 1] == task);
            }
            if self.queues[q].contains(t) {
                let p = choose|p: int| 0 <= p < self.queues[q].len() && self.queues[q][p] == t;
                assert(new[p] == t);
            }
            if new.contains(t) && t != task {
                let p = choose|p: int| 0 <= p < new.len() && new[p] == t;
                assert(self.queues[q][p] == t);
                assert(self.queues[q].contains(t));
            }
        }
    }

    /// The same tasks are queued after the oldest task of a queue was taken, but for that task.
    pub proof fn lemma_pop_front(self, q: int)
        requires
            0 <= q < self.queues.len(),
            self.queues[q].len() > 0,
        ensures
            self.queued(self.queues[q].first()),
            forall|t: u64| #[trigger] self.pop_front(q).queued(t) ==> self.queued(t),
            forall|t: u64|
                #[trigger] self.queued(t) ==> self.pop_front(q).queued(t) || t
                    == self.queues[q].first(),
    {
        let new = self.queues[q].drop_first();
        assert(self.queues[q].contains(self.queues[q][0]));
        assert forall|t: u64| #[trigger] self.pop_front(q).queued(t) implies self.queued(t) by {
            lemma_queued_update(self, q, new, t);
            if new.contains(t) {
                let p = choose|p: int| 0 <= p < new.len() && new[p] == t;
                assert(self.queues[q][p + 1] == t);
                assert(self.queues[q].contains(t));
            }
        }
        assert forall|t: u64| #[trigger] self.queued(t) implies self.pop_front(q).queued(t) || t
            == self.queues[q].first() by {
            lemma_queued_update(self, q, new, t);
            if self.queues[q].contains(t) && t != self.queues[q][0] {
                let p = choose|p: int| 0 <= p < self.queues[q].len() && self.queues[q][p] == t;
                assert(new[p - 1] == t);
            }
        }
    }

    /// The same tasks are queued after the newest task of a queue was taken, but for that task.
    pub proof fn lemma_pop_back(self, q: int)
        requires
            0 <= q < self.queues.len(),
            self.queues[q].len() > 0,
        ensures
            self.queued(self.queues[q].last()),
            forall|t: u64| #[trigger] self.pop_back(q).queued(t) ==> self.queued(t),
            forall|t: u64|
                #[trigger] self.queued(t) ==> self.pop_back(q).queued(t) || t
                    == self.queues[q].last(),
    {
        let new = self.queues[q].drop_last();
        assert(self.queues[q].contains(self.queues[q][self.queues[q].len() - 1]));
        assert forall|t: u64| #[trigger] self.pop_back(q).queued(t) implies self.queued(t) by {
            lemma_queued_update(self, q, new, t);
            if new.contains(t) {
                let p = choose|p: int| 0 <= p < new.len() && new[p] == t;
                assert(self.queues[q][p] == t);
                assert(self.queues[q].contains(t));
            }
        }
        assert forall|t: u64| #[trigger] self.queued(t) implies self.pop_back(q).queued(t) || t
            == self.queues[q].last() by {
            lemma_queued_update(self, q, new, t);
            if self.queues[q].contains(t) && t != self.queues[q].last() {
                let p = choose|p: int| 0 <= p < self.queues[q].len() && self.queues[q][p] == t;
                assert(new[p] == t);
            }
        }
    }

    /// Two stores with the same queues have the same tasks queued.
    pub proof fn lemma_same_queues(self, other: Self)
        requires
            self.queues == other.queues,
        ensures
            forall|t: u64| #[trigger] self.queued(t) == other.queued(t),
            forall|t: u64| #[trigger] other.queued(t) == self.queued(t),
    {
    }

    /// An empty queue more makes no difference to which tasks are queued.
    pub proof fn lemma_add_queue(self)
        ensures
            forall|t: u64|
                #[trigger] (StoreView {
                    queues: self.queues.push(Seq::empty()),
                    ..self
                }).queued(t) == self.queued(t),
    {
        let after = StoreView { queues: self.queues.push(Seq::empty()), ..self };
        assert forall|t: u64| #[trigger] after.queued(t) == self.queued(t) by {
            if after.queued(t) {
                let q = choose|q: int|
                    0 <= q < after.queues.len() && #[trigger] after.queues[q].contains(t);
                if q < self.queues.len() {
                    assert(self.queues[q].contains(t));
                } else {
                    assert(after.queues[q] == Seq::<u64>::empty());
                }
            }
            if self.queued(t) {
                let q = choose|q: int|
                    0 <= q < self.queues.len() && #[trigger] self.queues[q].contains(t);
                assert(after.queues[q].contains(t));
            }
        }
    }

    /// A new task is referred to by its place in the queue.
    pub proof fn lemma_wf_insert(self, value: K, q: int, running: Set<u64>)
        requires
            self.wf(running),
            0 <= q < self.queues.len(),
            self.next < u64::MAX,
        ensures
            self.insert(value, q).wf(running),
    {
        let after = self.insert(value, q);
        self.lemma_push(self.next, q);
        after.lemma_same_queues(self.push(self.next, q));
        assert forall|t: u64| #[trigger] after.queued(t) implies after.tasks.contains_key(t) by {
            assert(self.push(self.next, q).queued(t));
        }
        assert forall|t: u64| after.tasks.contains_key(t) implies (#[trigger] after.tasks[t]).wakers
            > 0 || after.queued(t) || running.contains(t) by {
            assert(self.push(self.next, q).queued(t) == after.queued(t));
            if t != self.next {
                assert(after.tasks[t] == self.tasks[t]);
            }
        }
    }

    /// A number that is given away makes no difference to the records.
    pub proof fn lemma_wf_skip(self, running: Set<u64>)
        requires
            self.wf(running),
            self.next < u64::MAX,
        ensures
            self.skip().wf(running),
    {
        self.skip().lemma_same_queues(self);
    }

    /// Where the queue stays as it is, all records stay.
    pub proof fn lemma_left_as_is(self, q: int, running: Set<u64>)
        requires
            self.wf(running),
            0 <= q < self.queues.len(),
        ensures
            self.left(q, self.queues[q], running) == self,
    {
        let after = self.left(q, self.queues[q], running);
        assert(self.queues.update(q, self.queues[q]) =~= self.queues);
        assert(after.tasks =~= self.tasks);
    }

    /// What is left has exactly the records that are referred to.
    pub proof fn lemma_wf_left(self, q: int, queue: Seq<u64>, running: Set<u64>)
        requires
            self.wf(running),
            0 <= q < self.queues.len(),
            forall|t: u64| queue.contains(t) ==> self.queues[q].contains(t),
        ensures
            self.left(q, queue, running).wf(running),
            forall|t: u64|
                #[trigger] self.left(q, queue, running).queued(t) ==> self.queued(t),
    {
        let rest = StoreView { queues: self.queues.update(q, queue), ..self };
        let after = self.left(q, queue, running);
        after.lemma_same_queues(rest);
        assert forall|t: u64| #[trigger] after.queued(t) implies self.queued(t)
            && after.tasks.contains_key(t) by {
            lemma_queued_update(self, q, queue, t);
            assert(rest.queued(t));
        }
        assert forall|t: u64| after.tasks.contains_key(t) implies (#[trigger] after.tasks[t]).wakers
            > 0 || after.queued(t) || running.contains(t) by {
            assert(rest.queued(t) == after.queued(t));
        }
    }

    /// Taking the oldest task, and its record if nothing refers to it any more, leaves what is left
    /// of the rest. The record goes exactly if the task has no place in the rest and its record is
    /// not left in the end.
    pub proof fn lemma_left_step(self, q: int, queue: Seq<u64>, running: Set<u64>)
        requires
            self.wf(running),
            0 <= q < self.queues.len(),
            queue.len() > 0,
            forall|t: u64| queue.contains(t) ==> self.queues[q].contains(t),
        ensures
            ({
                let now = self.left(q, queue, running);
                let first = queue.first();
                let rest = queue.drop_first();
                let end = self.left(q, Seq::empty(), running);
                &&& now.tasks.contains_key(first)
                &&& now.tasks[first] == self.tasks[first]
                &&& now.pop_front(q).collect(first, running.contains(first)) == self.left(
                    q,
                    rest,
                    running,
                )
                &&& now.pop_front(q).unreferenced(first, running.contains(first)) <==> !(
                end.tasks.contains_key(first) || rest.contains(first))
                &&& forall|t: u64| rest.contains(t) ==> self.queues[q].contains(t)
            }),
    {
        let now = self.left(q, queue, running);
        let first = queue.first();
        let rest = queue.drop_first();
        let popped = now.pop_front(q);
        let end = self.left(q, Seq::empty(), running);
        let with_queue = StoreView { queues: self.queues.update(q, queue), ..self };
        let with_rest = StoreView { queues: self.queues.update(q, rest), ..self };
        let with_none = StoreView { queues: self.queues.update(q, Seq::empty()), ..self };
        assert(queue.contains(queue[0]));
        assert(self.queues[q].contains(first));
        assert(self.queued(first));
        assert(with_queue.queues[q].contains(first));
        assert(with_queue.queued(first));
        assert(popped.queues =~= with_rest.queues);
        popped.lemma_same_queues(with_rest);
        assert forall|t: u64| rest.contains(t) implies self.queues[q].contains(t) by {
            let p = choose|p: int| 0 <= p < rest.len() && rest[p] == t;
            assert(queue[p + 1] == t);
            assert(queue.contains(t));
        }
        assert forall|t: u64| #[trigger] with_rest.queued(t) <==> with_none.queued(t)
            || rest.contains(t) by {
            lemma_queued_update(with_none, q, rest, t);
            assert(with_none.queues.update(q, rest) =~= with_rest.queues);
            assert(with_none.queues[q] =~= Seq::empty());
        }
        assert forall|t: u64| t != first implies with_queue.queued(t) == #[trigger]
            with_rest.queued(t) by {
            lemma_queued_update(with_rest, q, queue, t);
            assert(with_rest.queues.update(q, queue) =~= with_queue.queues);
            assert(with_rest.queues[q] =~= rest);
            if queue.contains(t) {
                let p = choose|p: int| 0 <= p < queue.len() && queue[p] == t;
                assert(rest[p - 1] == t);
            }
            if rest.contains(t) {
                let p = choose|p: int| 0 <= p < rest.len() && rest[p] == t;
                assert(queue[p + 1] == t);
                assert(with_queue.queues[q].contains(t));
            }
        }
        let after = popped.collect(first, running.contains(first));
        let left = self.left(q, rest, running);
        assert(popped.queued(first) == with_rest.queued(first));
        assert forall|t: u64| after.tasks.contains_key(t) == left.tasks.contains_key(t) by {
            assert(with_rest.queued(t) == popped.queued(t));
        }
        assert(after.tasks =~= left.tasks);
        assert(after =~= left);
    }

    /// Putting a known task into a queue keeps every record referred to, whatever becomes of the
    /// number of its wakers.
    pub proof fn lemma_wf_push(self, task: u64, wakers: u64, q: int, running: Set<u64>)
        requires
            self.wf(running),
            self.tasks.contains_key(task),
            0 <= q < self.queues.len(),
        ensures
            self.push(task, q).wf(running),
            self.set_wakers(task, wakers).push(task, q).wf(running),
    {
        self.lemma_push(task, q);
        let fewer = self.set_wakers(task, wakers).push(task, q);
        fewer.lemma_same_queues(self.push(task, q));
        assert forall|t: u64| #[trigger] fewer.queued(t) implies fewer.tasks.contains_key(t) by {
            assert(self.push(task, q).queued(t));
        }
        assert forall|t: u64| fewer.tasks.contains_key(t) implies (#[trigger] fewer.tasks[t]).wakers
            > 0 || fewer.queued(t) || running.contains(t) by {
            assert(self.push(task, q).queued(t) == fewer.queued(t));
            if t != task {
                assert(fewer.tasks[t] == self.tasks[t]);
            }
        }
        let same = self.push(task, q);
        assert forall|t: u64| same.tasks.contains_key(t) implies (#[trigger] same.tasks[t]).wakers
            > 0 || same.queued(t) || running.contains(t) by {
            assert(same.tasks[t] == self.tasks[t]);
        }
    }

    /// Another waker refers to the task as well.
    pub proof fn lemma_wf_more_wakers(self, task: u64, wakers: u64, running: Set<u64>)
        requires
            self.wf(running),
            self.tasks.contains_key(task),
            wakers > 0,
        ensures
            self.set_wakers(task, wakers).wf(running),
    {
        let after = self.set_wakers(task, wakers);
        after.lemma_same_queues(self);
        assert forall|t: u64| after.tasks.contains_key(t) implies (#[trigger] after.tasks[t]).wakers
            > 0 || after.queued(t) || running.contains(t) by {
            if t != task {
                assert(after.tasks[t] == self.tasks[t]);
            }
        }
    }

    /// A task that leaves a queue to be polled stays referred to.
    pub proof fn lemma_wf_take(self, after: Self, task: u64, running: Set<u64>, now: Set<u64>)
        requires
            self.wf(running),
            self.queued(task),
            after.next == self.next,
            forall|t: u64| after.tasks.contains_key(t) == self.tasks.contains_key(t),
            forall|t: u64|
                self.tasks.contains_key(t) ==> (#[trigger] after.tasks[t]).wakers
                    == self.tasks[t].wakers,
            forall|t: u64| #[trigger] after.queued(t) ==> self.queued(t),
            forall|t: u64| #[trigger] self.queued(t) ==> after.queued(t) || t == task,
            forall|t: u64| #[trigger] now.contains(t) <==> running.contains(t) || t == task,
        ensures
            after.wf(now),
    {
        assert forall|t: u64| after.tasks.contains_key(t) implies (#[trigger] after.tasks[t]).wakers
            > 0 || after.queued(t) || now.contains(t) by {
            assert(self.tasks[t].wakers == after.tasks[t].wakers);
        }
    }

    /// Once a reference to `task` is gone its record goes too, unless something else refers to it.
    pub proof fn lemma_wf_collect(self, task: u64, before: Set<u64>, now: Set<u64>)
        requires
            self.tasks.contains_key(task),
            forall|t: u64| self.tasks.contains_key(t) ==> t < self.next,
            forall|t: u64| #[trigger] self.queued(t) ==> self.tasks.contains_key(t),
            forall|t: u64| #[trigger] before.contains(t) ==> self.tasks.contains_key(t),
            forall|t: u64|
                t != task && self.tasks.contains_key(t) ==> (#[trigger] self.tasks[t]).wakers > 0
                    || self.queued(t) || before.contains(t),
            forall|t: u64| #[trigger] now.contains(t) ==> before.contains(t),
            forall|t: u64| #[trigger] before.contains(t) ==> now.contains(t) || t == task,
        ensures
            self.collect(task, now.contains(task)).wf(now),
    {
        let after = self.collect(task, now.contains(task));
        after.lemma_same_queues(self);
        assert forall|t: u64| after.tasks.contains_key(t) implies (#[trigger] after.tasks[t]).wakers
            > 0 || after.queued(t) || now.contains(t) by {
            assert(after.tasks[t] == self.tasks[t]);
        }
    }
}

/// How often a task waits in a queue.
pub open spec fn places(task: u64) -> spec_fn(Seq<u64>) -> nat {
    |queue: Seq<u64>| occurrences(queue, task)
}

impl<K> StoreView<K> {
    /// How often `task` waits in the queues, all taken together.
    pub open spec fn waiting(self, task: u64) -> nat {
        tally(self.queues, places(task))
    }

    /// A task is queued exactly if it waits at least once.
    pub proof fn lemma_waiting(self, task: u64)
        ensures
            self.waiting(task) > 0 <==> self.queued(task),
    {
        let f = places(task);
        lemma_tally_positive(self.queues, f);
        if self.waiting(task) > 0 {
            let q = choose|q: int| 0 <= q < self.queues.len() && f(#[trigger] self.queues[q]) > 0;
            lemma_occurs(self.queues[q], task);
            assert(self.queues[q].contains(task));
        }
        if self.queued(task) {
            let q = choose|q: int|
                0 <= q < self.queues.len() && #[trigger] self.queues[q].contains(task);
            lemma_occurs(self.queues[q], task);
            assert(f(self.queues[q]) > 0);
        }
    }

    /// A task that is put into a queue waits once more; no other task is touched.
    pub proof fn lemma_waiting_push(self, task: u64, q: int, t: u64)
        requires
            0 <= q < self.queues.len(),
        ensures
            self.push(task, q).waiting(t) == self.waiting(t) + if t == task {
                1nat
            } else {
                0nat
            },
    {
        lemma_tally_update(self.queues, q, self.queues[q].push(task), places(t));
        lemma_tally_push(self.queues[q], task, equals(t));
    }

    /// A task that is taken from the front of a queue waits once less; no other task is touched.
    pub proof fn lemma_waiting_pop_front(self, q: int, t: u64)
        requires
            0 <= q < self.queues.len(),
            self.queues[q].len() > 0,
        ensures
            self.waiting(t) == self.pop_front(q).waiting(t) + if t == self.queues[q].first() {
                1nat
            } else {
                0nat
            },
    {
        lemma_tally_update(self.queues, q, self.queues[q].drop_first(), places(t));
        lemma_tally_drop_first(self.queues[q], equals(t));
    }

    /// A task that is taken from the back of a queue waits once less; no other task is touched.
    pub proof fn lemma_waiting_pop_back(self, q: int, t: u64)
        requires
            0 <= q < self.queues.len(),
            self.queues[q].len() > 0,
        ensures
            self.waiting(t) == self.pop_back(q).waiting(t) + if t == self.queues[q].last() {
                1nat
            } else {
                0nat
            },
    {
        lemma_tally_update(self.queues, q, self.queues[q].drop_last(), places(t));
    }
}

/// A task is queued exactly if it has a place in some queue.
pub proof fn law_queued_means_a_place<K>(v: StoreView<K>, task: u64)
    ensures
        v.queued(task) <==> exists|q: int, i: int|
            0 <= q < v.queues.len() && 0 <= i < v.queues[q].len() && #[trigger] v.queues[q][i]
                == task,
{
    if v.queued(task) {
        let q = choose|q: int|
            0 <= q < v.queues.len() && #[trigger] v.queues[q].contains(task);
        let i = choose|i: int| 0 <= i < v.queues[q].len() && v.queues[q][i] == task;
        assert(v.queues[q][i] == task);
    }
    if exists|q: int, i: int|
        0 <= q < v.queues.len() && 0 <= i < v.queues[q].len() && #[trigger] v.queues[q][i]
            == task {
        let (q, i) = choose|q: int, i: int|
            0 <= q < v.queues.len() && 0 <= i < v.queues[q].len() && #[trigger] v.queues[q][i]
                == task;
        assert(v.queues[q].contains(task));
    }
}

/// A task that is put into a queue gets the place behind all others in it. Nothing else changes: no
/// other place, no other queue `p`, no record and no number.
pub proof fn law_push_takes_the_last_place<K>(v: StoreView<K>, task: u64, q: int, i: int, p: int)
    requires
        0 <= q < v.queues.len(),
    ensures
        ({
            let after = v.push(task, q);
            let places = v.queues[q].len() as int;
            &&& after.queues.len() == v.queues.len()
            &&& after.queues[q].len() == places + 1
            &&& after.queues[q][places] == task
            &&& 0 <= i < places ==> after.queues[q][i] == v.queues[q][i]
            &&& 0 <= p < v.queues.len() && p != q ==> after.queues[p] == v.queues[p]
            &&& after.tasks == v.tasks
            &&& after.next == v.next
        }),
{
}

/// Taking the oldest task of a queue moves all others in it one place forward; taking the newest
/// leaves them where they are. Nothing else changes.
pub proof fn law_pop_takes_one_place<K>(v: StoreView<K>, q: int, i: int, p: int)
    requires
        0 <= q < v.queues.len(),
        v.queues[q].len() > 0,
    ensures
        ({
            let front = v.pop_front(q);
            let back = v.pop_back(q);
            let places = v.queues[q].len() as int;
            &&& front.queues.len() == v.queues.len()
            &&& back.queues.len() == v.queues.len()
            &&& front.queues[q].len() == places - 1
            &&& back.queues[q].len() == places - 1
            &&& 0 < i < places ==> front.queues[q][i - 1] == v.queues[q][i]
            &&& 0 <= i < places - 1 ==> back.queues[q][i] == v.queues[q][i]
            &&& 0 <= p < v.queues.len() && p != q ==> front.queues[p] == v.queues[p]
                && back.queues[p] == v.queues[p]
            &&& front.tasks == v.tasks
            &&& back.tasks == v.tasks
            &&& front.next == v.next
            &&& back.next == v.next
        }),
{
}

/// A task that is recorded gets the next number, the record that was given, no waker, and the last
/// place of its queue. The record of any other task `t` stays as it is.
pub proof fn law_insert_records_what_is_given<K>(
    v: StoreView<K>,
    value: K,
    q: int,
    t: u64,
    i: int,
    p: int,
)
    requires
        0 <= q < v.queues.len(),
        v.next < u64::MAX,
    ensures
        ({
            let after = v.insert(value, q);
            let places = v.queues[q].len() as int;
            &&& after.next == v.next + 1
            &&& after.tasks.contains_key(v.next)
            &&& after.tasks[v.next].task == value
            &&& after.tasks[v.next].wakers == 0
            &&& t != v.next ==> after.tasks.contains_key(t) == v.tasks.contains_key(t)
            &&& t != v.next && v.tasks.contains_key(t) ==> after.tasks[t] == v.tasks[t]
            &&& after.queues.len() == v.queues.len()
            &&& after.queues[q].len() == places + 1
            &&& after.queues[q][places] == v.next
            &&& 0 <= i < places ==> after.queues[q][i] == v.queues[q][i]
            &&& 0 <= p < v.queues.len() && p != q ==> after.queues[p] == v.queues[p]
        }),
{
}

/// A number that is given away is the only thing that is gone.
pub proof fn law_skip_gives_a_number_away<K>(v: StoreView<K>)
    requires
        v.next < u64::MAX,
    ensures
        v.skip().next == v.next + 1,
        v.skip().tasks == v.tasks,
        v.skip().queues == v.queues,
{
}

/// Setting the number of wakers of a task, or what is kept of it, changes that and nothing else:
/// not the other half of its record, no record of another task `t`, no queue and no number.
pub proof fn law_record_changes_by_halves<K>(
    v: StoreView<K>,
    task: u64,
    wakers: u64,
    value: K,
    t: u64,
)
    requires
        v.tasks.contains_key(task),
    ensures
        ({
            let counted = v.set_wakers(task, wakers);
            let replaced = v.set_task(task, value);
            &&& counted.tasks[task].wakers == wakers
            &&& counted.tasks[task].task == v.tasks[task].task
            &&& replaced.tasks[task].wakers == v.tasks[task].wakers
            &&& replaced.tasks[task].task == value
            &&& counted.tasks.contains_key(t) == v.tasks.contains_key(t)
            &&& replaced.tasks.contains_key(t) == v.tasks.contains_key(t)
            &&& t != task && v.tasks.contains_key(t) ==> counted.tasks[t] == v.tasks[t]
                && replaced.tasks[t] == v.tasks[t]
            &&& counted.queues == v.queues
            &&& replaced.queues == v.queues
            &&& counted.next == v.next
            &&& replaced.next == v.next
        }),
{
}

/// The record of a task goes exactly if no waker of it exists, it is not being polled, and it has
/// no place in any queue. Nothing else changes.
pub proof fn law_record_goes_without_references<K>(
    v: StoreView<K>,
    task: u64,
    running: bool,
    t: u64,
)
    requires
        v.tasks.contains_key(task),
    ensures
        ({
            let after = v.collect(task, running);
            let placed = exists|q: int, i: int|
                0 <= q < v.queues.len() && 0 <= i < v.queues[q].len() && #[trigger] v.queues[q][i]
                    == task;
            &&& v.unreferenced(task, running) <==> v.tasks[task].wakers == 0 && !running && !placed
            &&& after.tasks.contains_key(task) <==> v.tasks[task].wakers > 0 || running || placed
            &&& t != task ==> after.tasks.contains_key(t) == v.tasks.contains_key(t)
            &&& after.tasks.contains_key(t) ==> after.tasks[t] == v.tasks[t]
            &&& after.queues == v.queues
            &&& after.next == v.next
        }),
{
    law_queued_means_a_place(v, task);
}

/// A queue that becomes another keeps every record for which there is a reason: a waker, a place in
/// that queue or in one of the others, or a poll that is going on. No other record is kept, and
/// none changes.
pub proof fn law_left_records_have_a_reason<K>(
    v: StoreView<K>,
    q: int,
    queue: Seq<u64>,
    running: Set<u64>,
    t: u64,
    p: int,
)
    requires
        0 <= q < v.queues.len(),
    ensures
        ({
            let after = v.left(q, queue, running);
            let elsewhere = exists|r: int, i: int|
                0 <= r < v.queues.len() && r != q && 0 <= i < v.queues[r].len()
                    && #[trigger] v.queues[r][i] == t;
            &&& after.queues.len() == v.queues.len()
            &&& after.queues[q] == queue
            &&& 0 <= p < v.queues.len() && p != q ==> after.queues[p] == v.queues[p]
            &&& after.next == v.next
            &&& after.tasks.contains_key(t) <==> v.tasks.contains_key(t) && (v.tasks[t].wakers > 0
                || running.contains(t) || queue.contains(t) || elsewhere)
            &&& after.tasks.contains_key(t) ==> after.tasks[t] == v.tasks[t]
        }),
{
    let rest = StoreView { queues: v.queues.update(q, queue), ..v };
    if rest.queued(t) {
        let r = choose|r: int|
            0 <= r < rest.queues.len() && #[trigger] rest.queues[r].contains(t);
        if r != q {
            let i = choose|i: int| 0 <= i < rest.queues[r].len() && rest.queues[r][i] == t;
            assert(v.queues[r][i] == t);
        }
    }
    if queue.contains(t) {
        assert(rest.queues[q].contains(t));
    }
    if exists|r: int, i: int|
        0 <= r < v.queues.len() && r != q && 0 <= i < v.queues[r].len()
            && #[trigger] v.queues[r][i] == t {
        let (r, i) = choose|r: int, i: int|
            0 <= r < v.queues.len() && r != q && 0 <= i < v.queues[r].len()
                && #[trigger] v.queues[r][i] == t;
        assert(rest.queues[r][i] == t);
        assert(rest.queues[r].contains(t));
    }
}

/// What is released of an emptied queue is one record for each task of the queue that has none in
/// the end: there are places in the queue, each behind the one before it, each the last of a task
/// whose record is gone, and every such place is among them; what is released is what was kept of
/// the tasks at these places.
pub proof fn law_released_is_what_has_gone<K>(
    queue: Seq<u64>,
    before: Map<u64, Entry<K>>,
    after: Map<u64, Entry<K>>,
) -> (at: Seq<int>)
    ensures
        at.len() == released(queue, before, after).len(),
        forall|k: int, l: int| 0 <= k < l < at.len() ==> at[k] < at[l],
        forall|k: int|
            0 <= k < at.len() ==> {
                &&& 0 <= #[trigger] at[k] < queue.len()
                &&& !after.contains_key(queue[at[k]])
                &&& released(queue, before, after)[k] == before[queue[at[k]]].task
                &&& forall|p: int| at[k] < p < queue.len() ==> #[trigger] queue[p] != queue[at[k]]
            },
        forall|p: int|
            0 <= p < queue.len() && !after.contains_key(#[trigger] queue[p]) && (forall|r: int|
                p < r < queue.len() ==> #[trigger] queue[r] != queue[p]) ==> at.contains(p),
    decreases queue.len(),
{
    if queue.len() == 0 {
        Seq::empty()
    } else {
        let first = queue.first();
        let rest = queue.drop_first();
        let inner = law_released_is_what_has_gone(rest, before, after);
        let moved = Seq::new(inner.len(), |k: int| inner[k] + 1);
        let gone = !after.contains_key(first) && !rest.contains(first);
        let at = if gone {
            seq![0int] + moved
        } else {
            moved
        };
        let shift: int = if gone {
            1
        } else {
            0
        };
        assert forall|k: int| 0 <= k < at.len() implies {
            &&& 0 <= #[trigger] at[k] < queue.len()
            &&& !after.contains_key(queue[at[k]])
            &&& released(queue, before, after)[k] == before[queue[at[k]]].task
            &&& forall|p: int| at[k] < p < queue.len() ==> #[trigger] queue[p] != queue[at[k]]
        } by {
            if k < shift {
                assert forall|p: int| 0 < p < queue.len() implies #[trigger] queue[p]
                    != queue[0] by {
                    assert(rest[p - 1] == queue[p]);
                }
            } else {
                let m = inner[k - shift];
                assert(at[k] == m + 1);
                assert(queue[at[k]] == rest[m]);
                assert forall|p: int| at[k] < p < queue.len() implies #[trigger] queue[p]
                    != queue[at[k]] by {
                    assert(rest[p - 1] == queue[p]);
                }
            }
        }
        assert forall|p: int|
            0 <= p < queue.len() && !after.contains_key(#[trigger] queue[p]) && (forall|r: int|
                p < r < queue.len() ==> #[trigger] queue[r] != queue[p]) implies at.contains(p) by {
            if p == 0 {
                if rest.contains(first) {
                    let r = choose|r: int| 0 <= r < rest.len() && rest[r] == first;
                    assert(queue[r + 1] == first);
                }
                assert(at[0] == 0);
            } else {
                assert(rest[p - 1] == queue[p]);
                assert forall|r: int| p - 1 < r < rest.len() implies #[trigger] rest[r]
                    != rest[p - 1] by {
                    assert(queue[r + 1] == rest[r]);
                }
                let k = choose|k: int| 0 <= k < inner.len() && inner[k] == p - 1;
                assert(at[k + shift] == p);
            }
        }
        at
    }
}

} // verus!
