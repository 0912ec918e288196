use runtime_from_scratch::join::{JoinCells, JoinHandle};
use runtime_from_scratch::poll::Poll;
use runtime_from_scratch::spawn_queue::{self, SpawnQueue};
use runtime_from_scratch::task_store::TaskStore;
use runtime_from_scratch::work_stealing::{
    main_for_workers, Action, Executor, Phase, Task, WorkerStart, MAIN_TASKS, THREAD_COUNT,
};
use std::sync::Arc;

type Cells = JoinCells<&'static str, u64>;

/// An executor whose four workers have passed the start barrier.
fn started() -> (Executor<&'static str>, Cells) {
    let mut executor = Executor::new();
    for id in 0..THREAD_COUNT {
        assert_eq!(main_for_workers(&mut executor).thread_id, id);
    }
    assert!(!executor.has_started());
    assert!(!executor.knows_threads());
    executor.set_threads();
    assert!(executor.knows_threads());
    assert!(executor.has_started());
    (executor, JoinCells::new())
}

fn own(task: u64) -> Action {
    Action::Poll { task, stolen_from: None }
}

fn stolen(task: u64, from: usize) -> Action {
    Action::Poll { task, stolen_from: Some(from) }
}

#[test]
fn only_the_first_worker_starts_main_tasks() {
    let mut executor: Executor<()> = Executor::new();
    assert_eq!(
        main_for_workers(&mut executor),
        WorkerStart { thread_id: 0, main_tasks: 4 }
    );
    assert_eq!(
        main_for_workers(&mut executor),
        WorkerStart { thread_id: 1, main_tasks: 0 }
    );
    assert_eq!(MAIN_TASKS, 4);
    let mut other: Executor<()> = Executor::new();
    let start = runtime_from_scratch::reactor::main_for_workers(&mut other);
    assert_eq!(start, WorkerStart { thread_id: 0, main_tasks: 1 });
    let start = runtime_from_scratch::reactor::main_for_workers(&mut other);
    assert_eq!(start, WorkerStart { thread_id: 1, main_tasks: 0 });
}

#[test]
fn owner_takes_the_oldest_task_of_its_queue() {
    let (mut executor, mut cells) = started();
    for name in ["a", "b", "c"] {
        executor.spawn(&mut cells, 1, Arc::new(name));
    }
    assert_eq!(executor.active_tasks(), 3);
    assert_eq!(executor.run(1), own(0));
    assert_eq!(executor.phase(1), Some(Phase::Own { task: 0 }));
    assert_eq!(*executor.task(0).unwrap().future, "a");
    assert!(executor.poll_returned(1, false).is_some());
    assert_eq!(executor.run(1), own(1));
}

#[test]
fn thief_goes_round_and_takes_the_newest_task_of_each() {
    let (mut executor, mut cells) = started();
    executor.spawn(&mut cells, 0, Arc::new("a0"));
    executor.spawn(&mut cells, 0, Arc::new("b0"));
    executor.spawn(&mut cells, 1, Arc::new("c1"));
    executor.spawn(&mut cells, 3, Arc::new("d3"));
    // Worker 2 looks at 3, then at 0, then at 1.
    assert_eq!(executor.run(2), stolen(3, 3));
    assert_eq!(executor.phase(2), Some(Phase::Stolen { task: 3, next: 2 }));
    executor.poll_returned(2, false);
    assert_eq!(executor.phase(2), Some(Phase::Scan { next: 2 }));
    assert_eq!(executor.run(2), stolen(1, 0));
    executor.poll_returned(2, false);
    assert_eq!(executor.run(2), stolen(2, 1));
    executor.poll_returned(2, false);
    // The round is over and had work: a new one begins.
    assert_eq!(executor.run(2), stolen(0, 0));
    executor.poll_returned(2, false);
    assert_eq!(executor.run(2), Action::Park);
}

#[test]
fn stolen_task_belongs_to_the_thief() {
    let (mut executor, mut cells) = started();
    executor.spawn(&mut cells, 0, Arc::new("a"));
    assert_eq!(executor.task(0).unwrap().get_thread_id(), 0);
    assert_eq!(executor.run(3), stolen(0, 0));
    assert_eq!(executor.task(0).unwrap().get_thread_id(), 3);
    executor.waker_clone(0);
    executor.poll_returned(3, false);
    executor.wake(0);
    assert_eq!(executor.run(3), Action::Poll { task: 0, stolen_from: None });
}

#[test]
fn parked_worker_is_roused_by_new_work() {
    let (mut executor, mut cells) = started();
    assert_eq!(executor.run(0), Action::Park);
    assert_eq!(executor.run(1), Action::Park);
    assert!(!executor.park_returned(0));
    executor.spawn(&mut cells, 2, Arc::new("a"));
    assert!(executor.park_returned(0));
    assert_eq!(executor.phase(0), Some(Phase::Top));
    assert_eq!(executor.run(0), stolen(0, 2));
    // Worker 1 was unparked by the same task, finds nothing and parks again.
    assert!(executor.park_returned(1));
    assert_eq!(executor.run(1), Action::Park);
    assert!(!executor.park_returned(1));
    // A wake rouses it too.
    executor.waker_clone(0);
    executor.poll_returned(0, false);
    executor.wake_by_ref(0);
    assert!(executor.park_returned(1));
}

#[test]
fn unpark_before_park_is_not_lost() {
    let (mut executor, mut cells) = started();
    executor.spawn(&mut cells, 0, Arc::new("a"));
    assert_eq!(executor.run(0), own(0));
    assert_eq!(executor.run(1), Action::Park);
    // It was unparked by the spawn, before it parked.
    assert!(executor.park_returned(1));
    assert_eq!(executor.run(1), Action::Park);
    assert!(!executor.park_returned(1));
}

#[test]
fn last_task_stops_all_workers() {
    let (mut executor, mut cells) = started();
    executor.spawn(&mut cells, 0, Arc::new("a"));
    executor.spawn(&mut cells, 0, Arc::new("b"));
    assert_eq!(executor.run(0), own(0));
    executor.poll_returned(0, true);
    assert_eq!(executor.active_tasks(), 1);
    assert_eq!(executor.run(1), stolen(1, 0));
    assert_eq!(executor.run(2), Action::Park);
    assert!(executor.park_returned(2));
    assert_eq!(executor.run(2), Action::Park);
    executor.poll_returned(1, true);
    assert_eq!(executor.active_tasks(), 0);
    assert!(executor.park_returned(2));
    assert_eq!(executor.run(2), Action::Stop);
    assert_eq!(executor.run(0), Action::Stop);
    // Worker 1 is in a round; it ends the round and then stops.
    assert_eq!(executor.run(1), Action::Stop);
    assert_eq!(executor.phase(1), Some(Phase::Stopped));
}

#[test]
fn round_goes_on_although_the_workers_are_to_stop() {
    let (mut executor, mut cells) = started();
    executor.spawn(&mut cells, 1, Arc::new("a"));
    assert_eq!(executor.run(0), stolen(0, 1));
    executor.waker_clone(0);
    executor.poll_returned(0, true);
    // Stopped or not, a task in a queue further on is still polled in this round.
    executor.spawn(&mut cells, 2, Arc::new("b"));
    assert_eq!(executor.run(0), stolen(1, 2));
    assert_eq!(executor.run(3), Action::Stop);
}

#[test]
fn completing_one_of_several_tasks_stops_nobody() {
    let (mut executor, mut cells) = started();
    executor.spawn(&mut cells, 0, Arc::new("a"));
    executor.spawn(&mut cells, 0, Arc::new("b"));
    executor.on_task_complete();
    assert_eq!(executor.active_tasks(), 1);
    assert_eq!(executor.run(0), own(0));
    executor.on_task_complete();
    assert_eq!(executor.run(1), Action::Stop);
}

#[test]
fn record_goes_with_the_last_reference() {
    let (mut executor, mut cells) = started();
    executor.spawn(&mut cells, 0, Arc::new("a"));
    assert_eq!(executor.run(0), own(0));
    executor.waker_clone(0);
    executor.waker_clone(0);
    assert_eq!(executor.wakers(0), 2);
    assert!(executor.poll_returned(0, false).is_none());
    assert!(executor.waker_drop(0).is_none());
    executor.wake_by_ref(0);
    assert_eq!(executor.wakers(0), 1);
    // It waits in a queue.
    assert!(executor.waker_drop(0).is_none());
    assert_eq!(executor.wakers(0), 0);
    assert_eq!(executor.run(0), own(0));
    // It is being polled.
    executor.waker_clone(0);
    assert!(executor.waker_drop(0).is_none());
    let dropped = executor.poll_returned(0, false);
    assert_eq!(*dropped.unwrap().future, "a");
    assert!(executor.task(0).is_none());
    assert_eq!(executor.wakers(0), 0);
}

#[test]
fn last_waker_takes_the_record_along() {
    let (mut executor, mut cells) = started();
    executor.spawn(&mut cells, 0, Arc::new("a"));
    assert_eq!(executor.run(0), own(0));
    executor.waker_clone(0);
    assert!(executor.poll_returned(0, true).is_none());
    assert!(executor.task(0).is_some());
    assert!(executor.waker_drop(0).is_some());
    assert!(executor.task(0).is_none());
}

#[test]
fn task_woken_twice_has_two_turns() {
    let (mut executor, mut cells) = started();
    executor.spawn(&mut cells, 0, Arc::new("a"));
    assert_eq!(executor.run(0), own(0));
    executor.waker_clone(0);
    executor.poll_returned(0, false);
    executor.wake_by_ref(0);
    executor.wake(0);
    assert_eq!(executor.run(0), own(0));
    assert_eq!(executor.run(1), stolen(0, 0));
    assert!(executor.poll_returned(0, false).is_none());
    assert!(executor.poll_returned(1, false).is_some());
}

#[test]
fn waiter_is_woken_with_the_value_of_the_task() {
    let (mut executor, mut cells) = started();
    let waiter = executor.spawn(&mut cells, 0, Arc::new("waiter"));
    assert_eq!(executor.run(0), own(0));
    let handle = executor.spawn(&mut cells, 0, Arc::new("worker"));
    assert_ne!(waiter, handle);
    executor.waker_clone(0);
    assert_eq!(handle.poll(&mut cells, 0), Poll::Pending);
    executor.poll_returned(0, false);
    assert_eq!(executor.run(0), own(1));
    let (outcome, waker) = executor.task(1).unwrap().poll(&mut cells, Poll::Ready("value"));
    assert_eq!(outcome, Poll::Ready(()));
    executor.wake(waker.unwrap());
    executor.poll_returned(0, true);
    assert_eq!(executor.run(0), own(0));
    assert_eq!(handle.poll(&mut cells, 0), Poll::Ready("value"));
    assert_eq!(handle.poll(&mut cells, 0), Poll::Pending);
}

#[test]
fn task_knows_its_worker() {
    let mut cells: Cells = JoinCells::new();
    let handle = JoinHandle::new(&mut cells);
    let mut task = Task::new(Arc::new("a"), handle, 2);
    assert_eq!(task.get_thread_id(), 2);
    task.new_parent_thread(1);
    assert_eq!(task.get_thread_id(), 1);
    assert_eq!(*task.future, "a");
    assert_eq!(task.poll(&mut cells, Poll::Pending), (Poll::Pending, None));
}

#[test]
fn room_for_tasks_is_counted() {
    let (executor, cells) = started();
    assert!(executor.can_spawn());
    assert!(cells.has_room());
    let queue: SpawnQueue<()> = SpawnQueue::new();
    assert!(!queue.can_spawn());
}

#[test]
fn tasks_are_received_in_the_order_in_which_they_were_sent() {
    let mut executor: SpawnQueue<&str> = SpawnQueue::new();
    let mut cells: Cells = JoinCells::new();
    let (tx, rx) = executor.channel();
    executor.set_tx(tx);
    assert_eq!(spawn_queue::get_tx(&executor), tx);
    assert_eq!(executor.run(&rx), spawn_queue::Action::Wait);
    spawn_queue::spawn(&mut executor, &mut cells, Arc::new("a"));
    spawn_queue::spawn(&mut executor, &mut cells, Arc::new("b"));
    assert_eq!(executor.active_tasks(), 2);
    assert_eq!(executor.run(&rx), spawn_queue::Action::Poll { task: 0 });
    assert_eq!(executor.current(), Some(0));
    executor.waker_clone(0);
    executor.wake(0);
    assert_eq!(executor.poll_returned(false).0, false);
    assert_eq!(executor.run(&rx), spawn_queue::Action::Poll { task: 1 });
    let (done, dropped) = executor.poll_returned(true);
    assert!(!done);
    assert_eq!(*dropped.unwrap().future, "b");
    assert_eq!(executor.run(&rx), spawn_queue::Action::Poll { task: 0 });
    let (done, dropped) = executor.poll_returned(true);
    assert!(done);
    assert_eq!(*dropped.unwrap().future, "a");
    assert_eq!(executor.active_tasks(), 0);
    assert_eq!(executor.run(&rx), spawn_queue::Action::Wait);
}

#[test]
fn woken_task_goes_to_its_own_channel() {
    let mut executor: SpawnQueue<&str> = SpawnQueue::new();
    let mut cells: Cells = JoinCells::new();
    let (first, first_rx) = executor.channel();
    let (second, second_rx) = executor.channel();
    assert_ne!(first, second);
    executor.set_tx(second);
    spawn_queue::spawn(&mut executor, &mut cells, Arc::new("a"));
    executor.set_tx(first);
    assert_eq!(executor.task(0).unwrap().get_tx_task(), second);
    assert_eq!(executor.run(&first_rx), spawn_queue::Action::Wait);
    assert_eq!(executor.run(&second_rx), spawn_queue::Action::Poll { task: 0 });
    executor.waker_clone(0);
    executor.wake_by_ref(0);
    assert_eq!(executor.wakers(0), 1);
    assert!(executor.poll_returned(false).1.is_none());
    assert_eq!(executor.run(&first_rx), spawn_queue::Action::Wait);
    assert_eq!(executor.run(&second_rx), spawn_queue::Action::Poll { task: 0 });
}

#[test]
fn queue_keeps_a_task_while_it_is_referred_to() {
    let mut executor: SpawnQueue<&str> = SpawnQueue::new();
    let mut cells: Cells = JoinCells::new();
    let (tx, rx) = executor.channel();
    executor.set_tx(tx);
    let handle = spawn_queue::spawn(&mut executor, &mut cells, Arc::new("a"));
    assert_eq!(executor.run(&rx), spawn_queue::Action::Poll { task: 0 });
    executor.waker_clone(0);
    let (outcome, waker) = executor.task(0).unwrap().poll(&mut cells, Poll::Ready("value"));
    assert_eq!((outcome, waker), (Poll::Ready(()), None));
    let (done, dropped) = executor.poll_returned(true);
    assert!(done);
    assert!(dropped.is_none());
    assert!(executor.waker_drop(0).is_some());
    assert!(executor.task(0).is_none());
    assert_eq!(handle.poll(&mut cells, 7), Poll::Ready("value"));
}

#[test]
fn queue_is_done_when_each_task_has_ended_once() {
    let mut executor: SpawnQueue<&str> = SpawnQueue::new();
    let mut cells: Cells = JoinCells::new();
    let (tx, rx) = executor.channel();
    assert!(!executor.feeds(&rx));
    executor.set_tx(tx);
    assert!(executor.feeds(&rx));
    spawn_queue::spawn(&mut executor, &mut cells, Arc::new("a"));
    spawn_queue::spawn(&mut executor, &mut cells, Arc::new("b"));
    // Task t is pending t times, and is woken once for each of them; task 0 spawns one more.
    let mut pending = [0, 0, 0];
    let mut ended = [0, 0, 0];
    loop {
        let task = match executor.run(&rx) {
            spawn_queue::Action::Poll { task } => task,
            spawn_queue::Action::Wait => unreachable!("a task has not ended"),
        };
        let t = task as usize;
        if t == 0 {
            spawn_queue::spawn(&mut executor, &mut cells, Arc::new("c"));
        }
        let active = executor.active_tasks();
        let ready = pending[t] == t;
        if !ready {
            pending[t] += 1;
            executor.waker_clone(task);
            executor.wake(task);
        } else {
            ended[t] += 1;
        }
        let (done, _) = executor.poll_returned(ready);
        assert_eq!(executor.active_tasks(), if ready { active - 1 } else { active });
        assert_eq!(done, ended == [1, 1, 1]);
        if done {
            break;
        }
    }
    assert_eq!(pending, [0, 1, 2]);
    assert_eq!(ended, [1, 1, 1]);
    assert_eq!(executor.active_tasks(), 0);
}

#[test]
fn workers_stop_when_each_task_has_ended_once() {
    let (mut executor, mut cells) = started();
    executor.spawn(&mut cells, 0, Arc::new("a"));
    executor.spawn(&mut cells, 0, Arc::new("b"));
    executor.spawn(&mut cells, 2, Arc::new("c"));
    let mut pending = [0, 0, 0];
    let mut ended = [0, 0, 0];
    let mut stopped = 0;
    while stopped < THREAD_COUNT {
        for id in 0..THREAD_COUNT {
            match executor.phase(id) {
                Some(Phase::Stopped) => continue,
                Some(Phase::Parked) => {
                    if !executor.park_returned(id) {
                        continue;
                    }
                }
                _ => {}
            }
            match executor.run(id) {
                Action::Poll { task, .. } => {
                    let t = task as usize;
                    let active = executor.active_tasks();
                    let ready = pending[t] == t;
                    if ready {
                        ended[t] += 1;
                    } else {
                        pending[t] += 1;
                        executor.waker_clone(task);
                        executor.wake(task);
                    }
                    executor.poll_returned(id, ready);
                    assert_eq!(executor.active_tasks(), if ready { active - 1 } else { active });
                }
                Action::Park => assert_ne!(ended, [1, 1, 1]),
                Action::Stop => {
                    assert_eq!(ended, [1, 1, 1]);
                    stopped += 1;
                }
            }
        }
    }
    assert_eq!(pending, [0, 1, 2]);
    assert_eq!(executor.active_tasks(), 0);
}

#[test]
fn closed_channel_drops_what_is_sent() {
    let mut executor: SpawnQueue<&str> = SpawnQueue::new();
    let mut cells: Cells = JoinCells::new();
    let (tx, rx) = executor.channel();
    executor.set_tx(tx);
    spawn_queue::spawn(&mut executor, &mut cells, Arc::new("a"));
    assert_eq!(executor.run(&rx), spawn_queue::Action::Poll { task: 0 });
    executor.waker_clone(0);
    executor.waker_clone(0);
    assert!(executor.poll_returned(false).1.is_none());
    assert!(executor.close(rx).is_empty());

    // A task that is spawned now is counted and dropped.
    let future = Arc::new("b");
    let handle = spawn_queue::spawn(&mut executor, &mut cells, Arc::clone(&future));
    assert_eq!(Arc::strong_count(&future), 1);
    assert!(executor.task(1).is_none());
    assert_eq!(executor.active_tasks(), 2);
    assert_eq!(handle.poll(&mut cells, 7), Poll::Pending);

    // A wake sends nothing; the last waker takes the record along.
    executor.wake_by_ref(0);
    assert_eq!(executor.wakers(0), 2);
    assert!(executor.wake(0).is_none());
    assert_eq!(executor.wakers(0), 1);
    assert_eq!(*executor.wake(0).unwrap().future, "a");
    assert!(executor.task(0).is_none());
    assert_eq!(executor.active_tasks(), 2);

    // Another channel is not touched, and numbers are not used twice.
    let (tx, rx) = executor.channel();
    executor.set_tx(tx);
    assert!(executor.feeds(&rx));
    spawn_queue::spawn(&mut executor, &mut cells, Arc::new("c"));
    assert_eq!(executor.run(&rx), spawn_queue::Action::Poll { task: 2 });
    // The lost tasks never finish, so the executor is not done.
    assert!(!executor.poll_returned(true).0);
    assert_eq!(executor.active_tasks(), 2);
}

#[test]
fn closing_drops_the_tasks_that_wait() {
    let mut executor: SpawnQueue<&str> = SpawnQueue::new();
    let mut cells: Cells = JoinCells::new();
    let (tx, rx) = executor.channel();
    let (other, other_rx) = executor.channel();
    executor.set_tx(tx);
    for name in ["a", "b", "c", "d"] {
        spawn_queue::spawn(&mut executor, &mut cells, Arc::new(name));
    }
    executor.set_tx(other);
    spawn_queue::spawn(&mut executor, &mut cells, Arc::new("e"));
    // Task 0 is being polled, task 1 has two places, task 2 has a waker besides.
    assert_eq!(executor.run(&rx), spawn_queue::Action::Poll { task: 0 });
    executor.wake_by_ref(0);
    executor.wake_by_ref(1);
    executor.waker_clone(2);
    let dropped = executor.close(rx);
    let names = dropped.iter().map(|task| *task.future).collect::<Vec<_>>();
    assert_eq!(names, ["d", "b"]);
    assert!(executor.task(0).is_some() && executor.task(2).is_some());
    assert!(executor.task(1).is_none() && executor.task(3).is_none());
    assert_eq!(executor.active_tasks(), 5);
    assert_eq!(*executor.poll_returned(false).1.unwrap().future, "a");
    assert_eq!(*executor.waker_drop(2).unwrap().future, "c");
    assert_eq!(executor.run(&other_rx), spawn_queue::Action::Poll { task: 4 });
}

#[test]
fn queue_wakes_the_waiter_of_a_finished_task() {
    let mut executor: SpawnQueue<&str> = SpawnQueue::new();
    let mut cells: Cells = JoinCells::new();
    let (tx, rx) = executor.channel();
    executor.set_tx(tx);
    spawn_queue::spawn(&mut executor, &mut cells, Arc::new("waiter"));
    assert_eq!(executor.run(&rx), spawn_queue::Action::Poll { task: 0 });
    let handle = spawn_queue::spawn(&mut executor, &mut cells, Arc::new("other"));
    executor.waker_clone(0);
    assert_eq!(handle.poll(&mut cells, 0), Poll::Pending);
    executor.poll_returned(false);
    assert_eq!(executor.run(&rx), spawn_queue::Action::Poll { task: 1 });
    let (outcome, waker) = executor.task(1).unwrap().poll(&mut cells, Poll::Ready("value"));
    assert_eq!((outcome, waker), (Poll::Ready(()), Some(0)));
    assert!(executor.wake(waker.unwrap()).is_none());
    assert!(!executor.poll_returned(true).0);
    assert_eq!(executor.run(&rx), spawn_queue::Action::Poll { task: 0 });
    assert_eq!(handle.poll(&mut cells, 0), Poll::Ready("value"));
    assert!(executor.poll_returned(true).0);
}

#[test]
fn store_takes_from_both_ends() {
    let mut store: TaskStore<char> = TaskStore::new();
    assert_eq!(store.add_queue(), 0);
    assert_eq!(store.add_queue(), 1);
    assert_eq!(store.insert('a', 1), 0);
    assert_eq!(store.insert('b', 1), 1);
    store.push(0, 1);
    assert!(store.queued(0));
    assert_eq!(store.pop_front(0), None);
    assert_eq!(store.pop_front(1), Some(0));
    assert_eq!(store.pop_back(1), Some(0));
    assert!(!store.queued(0));
    assert_eq!(store.get(0), Some(&'a'));
    assert_eq!(store.collect(0, true), None);
    assert_eq!(store.collect(0, false), Some('a'));
    assert_eq!(store.get(0), None);
    assert_eq!(store.collect(1, false), None);
    assert_eq!(store.pop_back(1), Some(1));
    assert_eq!(store.pop_back(1), None);
}
