//! The reactor: it waits for file descriptors and wakes the tasks that wait for them.
//!
//! A future that cannot go on registers its file descriptor and its waker. The reactor thread asks
//! the operating system which file descriptors are ready and wakes their wakers, each once.
//!
//! The workers of this runtime are those of `work_stealing`; the first of them starts with one main
//! task.
use vstd::prelude::*;

use crate::sys;
use crate::work_stealing::{law_wake_gives_one_turn, Executor, ExecutorView, WorkerStart};
use std::collections::HashMap;

verus! {

broadcast use vstd::std_specs::hash::group_hash_axioms;

/// How many events the reactor takes from the operating system at a time.
pub const MAX_EVENTS: usize = 32;

/// How many tasks the first worker starts with.
pub const MAIN_TASKS: usize = 1;

/// What a file descriptor is watched for, and the word that its events carry.
#[derive(Clone, Copy, Debug, PartialEq, Eq, Structural)]
pub struct EpollEvent {
    pub events: u32,
    pub data: u64,
}

/// A request to the operating system to change what is watched.
#[derive(Clone, Copy, Debug, PartialEq, Eq)]
pub struct EpollCtl {
    pub epoll_fd: i32,
    pub op: i32,
    pub fd: i32,
    pub event: Option<EpollEvent>,
}

/// The word that the events of `fd` carry.
pub open spec fn word_of(fd: i32) -> u64 {
    fd as u64
}

/// The file descriptor whose events carry `word`.
pub open spec fn fd_of(word: u64) -> i32 {
    word as i32
}

/// The wakers of the tasks that wait for file descriptors.
#[derive(Debug)]
pub struct Reactor<W> {
    epoll_fd: i32,
    wakers: HashMap<i32, W>,
}

impl<W> Reactor<W> {
    /// The waker that waits for each file descriptor.
    pub closed spec fn view(&self) -> Map<i32, W> {
        self.wakers@
    }

    /// The file descriptor through which the operating system is asked.
    pub closed spec fn epoll_fd(&self) -> i32 {
        self.epoll_fd
    }

    /// The request that carries out `op` on `fd`, to watch for `events`.
    pub open spec fn ctl(&self, op: i32, fd: i32, events: u32) -> EpollCtl {
        EpollCtl {
            epoll_fd: self.epoll_fd(),
            op,
            fd,
            event: Some(EpollEvent { events, data: word_of(fd) }),
        }
    }

    /// The request with which a waker for `fd` is registered: a file descriptor for which no waker
    /// waits is added, one for which a waker waits is changed.
    pub open spec fn registration(&self, fd: i32, events: u32) -> EpollCtl {
        if self@.contains_key(fd) {
            self.ctl(sys::CTL_MOD, fd, events)
        } else {
            self.ctl(sys::CTL_ADD, fd, events)
        }
    }

    /// A reactor that asks through `epoll_fd` and for which nothing is registered.
    pub fn new(epoll_fd: i32) -> (reactor: Self)
        requires
            epoll_fd >= 0,
        ensures
            reactor.epoll_fd() == epoll_fd,
            reactor@ == Map::<i32, W>::empty(),
    {
        Reactor { epoll_fd, wakers: HashMap::new() }
    }

    /// The file descriptor through which the operating system is asked.
    pub fn get_epoll_fd(&self) -> (fd: i32)
        ensures
            fd == self.epoll_fd(),
    {
        self.epoll_fd
    }

    /// The request to watch `fd` from now on.
    fn epoll_add(&self, fd: i32, events: u32) -> (ctl: EpollCtl)
        ensures
            ctl == self.ctl(sys::CTL_ADD, fd, events),
    {
        EpollCtl {
            epoll_fd: self.epoll_fd,
            op: sys::epoll_ctl_add(),
            fd,
            event: Some(EpollEvent { events, data: fd as u64 }),
        }
    }

    /// The request to watch `fd` for something else.
    fn epoll_mod(&self, fd: i32, events: u32) -> (ctl: EpollCtl)
        ensures
            ctl == self.ctl(sys::CTL_MOD, fd, events),
    {
        EpollCtl {
            epoll_fd: self.epoll_fd,
            op: sys::epoll_ctl_mod(),
            fd,
            event: Some(EpollEvent { events, data: fd as u64 }),
        }
    }

    /// Registers `waker` for `fd`, in place of one that may wait for it, and returns the request
    /// that is to be made.
    fn register(&mut self, fd: i32, waker: W, events: u32) -> (ctl: EpollCtl)
        ensures
            final(self).epoll_fd() == old(self).epoll_fd(),
            final(self)@ == old(self)@.insert(fd, waker),
            ctl == old(self).registration(fd, events),
            ctl.epoll_fd == old(self).epoll_fd(),
            ctl.fd == fd,
            ctl.op == sys::CTL_ADD <==> !old(self)@.contains_key(fd),
            ctl.op == sys::CTL_MOD <==> old(self)@.contains_key(fd),
            ctl.event == Some(EpollEvent { events: events, data: fd as u64 }),
    {
        let already = self.wakers.contains_key(&fd);
        self.wakers.insert(fd, waker);
        if !already {
            self.epoll_add(fd, events)
        } else {
            self.epoll_mod(fd, events)
        }
    }

    /// Has `waker` woken when `fd` can be read. The request that is returned is to be made.
    pub fn register_read(&mut self, fd: i32, waker: W) -> (ctl: EpollCtl)
        ensures
            final(self).epoll_fd() == old(self).epoll_fd(),
            final(self)@ == old(self)@.insert(fd, waker),
            ctl == old(self).registration(fd, sys::READABLE),
            ctl.epoll_fd == old(self).epoll_fd(),
            ctl.fd == fd,
            ctl.op == sys::CTL_ADD <==> !old(self)@.contains_key(fd),
            ctl.op == sys::CTL_MOD <==> old(self)@.contains_key(fd),
            ctl.event == Some(EpollEvent { events: sys::READABLE, data: fd as u64 }),
    {
        let events = sys::epollin();
        self.register(fd, waker, events)
    }

    /// Has `waker` woken when `fd` can be written. The request that is returned is to be made.
    pub fn register_write(&mut self, fd: i32, waker: W) -> (ctl: EpollCtl)
        ensures
            final(self).epoll_fd() == old(self).epoll_fd(),
            final(self)@ == old(self)@.insert(fd, waker),
            ctl == old(self).registration(fd, sys::WRITABLE),
            ctl.epoll_fd == old(self).epoll_fd(),
            ctl.fd == fd,
            ctl.op == sys::CTL_ADD <==> !old(self)@.contains_key(fd),
            ctl.op == sys::CTL_MOD <==> old(self)@.contains_key(fd),
            ctl.event == Some(EpollEvent { events: sys::WRITABLE, data: fd as u64 }),
    {
        let events = sys::epollout();
        self.register(fd, waker, events)
    }

    /// The request to watch `fd` no longer. It is to be made, and `fd` is to be closed after it. A
    /// waker that waits for `fd` stays.
    pub fn deregister(&self, fd: i32) -> (ctl: EpollCtl)
        ensures
            ctl == (EpollCtl {
                epoll_fd: self.epoll_fd(),
                op: sys::CTL_DEL,
                fd,
                event: None,
            }),
    {
        EpollCtl { epoll_fd: self.epoll_fd, op: sys::epoll_ctl_del(), fd, event: None }
    }
}

/// Whether one of `words` is carried by an event of `fd`.
pub open spec fn mentions(words: Seq<u64>, fd: i32) -> bool {
    exists|i: int| 0 <= i < words.len() && fd_of(#[trigger] words[i]) == fd
}

/// The wakers that are woken for the events that carry `words`: those that wait for the file
/// descriptors of the events, in the order of the events, each at the first event of its file
/// descriptor.
pub open spec fn woken<W>(wakers: Map<i32, W>, words: Seq<u64>) -> Seq<W>
    decreases words.len(),
{
    if words.len() == 0 {
        Seq::empty()
    } else {
        let rest = words.drop_last();
        let fd = fd_of(words.last());
        if wakers.contains_key(fd) && !mentions(rest, fd) {
            woken(wakers, rest).push(wakers[fd])
        } else {
            woken(wakers, rest)
        }
    }
}

/// The wakers that still wait after the events that carry `words`.
pub open spec fn left<W>(wakers: Map<i32, W>, words: Seq<u64>) -> Map<i32, W> {
    wakers.remove_keys(Set::new(|fd: i32| mentions(words, fd)))
}

/// Takes the wakers of the file descriptors that the operating system has reported as ready: the
/// first `n` of `events` are the words that the reported events carry. The wakers are to be woken
/// in the order in which they are returned.
pub fn main_for_reactor<W>(reactor: &mut Reactor<W>, events: &[u64], n: i32) -> (ready: Vec<W>)
    requires
        0 <= n <= events@.len(),
    ensures
        final(reactor).epoll_fd() == old(reactor).epoll_fd(),
        ready@ == woken(old(reactor)@, events@.take(n as int)),
        final(reactor)@ == left(old(reactor)@, events@.take(n as int)),
{
    let count = n as usize;
    let mut ready: Vec<W> = Vec::new();
    let mut i: usize = 0;
    assert(reactor@ =~= left(old(reactor)@, events@.take(0)));
    while i < count
        invariant
            i <= count <= events@.len(),
            reactor.epoll_fd() == old(reactor).epoll_fd(),
            ready@ == woken(old(reactor)@, events@.take(i as int)),
            reactor@ == left(old(reactor)@, events@.take(i as int)),
        decreases count - i,
    {
        let ghost seen = events@.take(i as int);
        let ghost now = events@.take(i + 1);
        let word = events[i];
        let fd = word as i32;
        let waker = reactor.wakers.remove(&fd);
        proof {
            assert(now.drop_last() =~= seen);
            assert(now.last() == word);
            assert forall|f: i32| mentions(now, f) == (mentions(seen, f) || f == fd) by {
                if mentions(now, f) && f != fd {
                    let j = choose|j: int| 0 <= j < now.len() && fd_of(#[trigger] now[j]) == f;
                    assert(seen[j] == now[j]);
                }
                if mentions(seen, f) {
                    let j = choose|j: int| 0 <= j < seen.len() && fd_of(#[trigger] seen[j]) == f;
                    assert(seen[j] == now[j]);
                }
                assert(fd_of(now[i as int]) == fd);
            }
            assert(reactor@ =~= left(old(reactor)@, now));
        }
        if let Some(waker) = waker {
            ready.push(waker);
        }
        i += 1;
    }
    ready
}

/// Enters a worker thread: it gets its queue, and the first one is to spawn the main task.
pub fn main_for_workers<F>(executor: &mut Executor<F>) -> (start: WorkerStart)
    requires
        old(executor)@.wf(),
    ensures
        final(executor)@.wf(),
        final(executor)@ == old(executor)@.registered(),
        start.thread_id == old(executor)@.workers.len(),
        start.main_tasks == if start.thread_id == 0 {
            MAIN_TASKS
        } else {
            0
        },
        start.thread_id == 0 ==> start.main_tasks == 1,
{
    let thread_id = executor.register_worker();
    let main_tasks = if thread_id == 0 {
        MAIN_TASKS
    } else {
        0
    };
    WorkerStart { thread_id, main_tasks }
}

/// The events of a file descriptor lead back to it.
pub proof fn law_event_names_its_fd(fd: i32)
    ensures
        fd_of(word_of(fd)) == fd,
{
    assert((fd as u64) as i32 == fd) by (bit_vector);
}

/// A waker that is registered is woken by the next event of its file descriptor and is then gone:
/// it is among those woken, and the same events reported again wake nobody.
pub proof fn law_waker_is_woken_once<W>(wakers: Map<i32, W>, fd: i32, waker: W, words: Seq<u64>)
    requires
        words.contains(word_of(fd)),
    ensures
        woken(wakers.insert(fd, waker), words).contains(waker),
        !left(wakers.insert(fd, waker), words).contains_key(fd),
        woken(left(wakers.insert(fd, waker), words), words) == Seq::<W>::empty(),
{
    let with = wakers.insert(fd, waker);
    law_event_names_its_fd(fd);
    let i = choose|i: int| 0 <= i < words.len() && words[i] == word_of(fd);
    assert(fd_of(words[i]) == fd);
    lemma_woken(with, words, fd);
    lemma_none_left(with, words, words);
}

/// No waker is woken twice: where each waits for one file descriptor only, those that are woken are
/// all different, however often an event is reported.
pub proof fn law_no_waker_is_woken_twice<W>(wakers: Map<i32, W>, words: Seq<u64>)
    requires
        wakers.is_injective(),
    ensures
        woken(wakers, words).no_duplicates(),
    decreases words.len(),
{
    if words.len() > 0 {
        let rest = words.drop_last();
        let fd = fd_of(words.last());
        law_no_waker_is_woken_twice(wakers, rest);
        if wakers.contains_key(fd) && !mentions(rest, fd) {
            lemma_woken_waited(wakers, rest);
            let before = woken(wakers, rest);
            assert forall|k: int| 0 <= k < before.len() implies before[k] != wakers[fd] by {
                let other = choose|f: i32|
                    #![trigger wakers.contains_key(f)]
                    mentions(rest, f) && wakers.contains_key(f) && wakers[f] == before[k];
                assert(other != fd);
            }
        }
    }
}

/// A task that waits for a file descriptor gets a turn when the file descriptor is ready: the waker
/// that it has registered is among those that are woken, and waking it gives it one turn more.
pub proof fn law_ready_fd_readies_its_task<F>(
    v: ExecutorView<F>,
    wakers: Map<i32, u64>,
    fd: i32,
    task: u64,
    words: Seq<u64>,
)
    requires
        v.wf(),
        v.store.tasks.contains_key(task),
        v.store.tasks[task].wakers > 0,
        words.contains(word_of(fd)),
    ensures
        woken(wakers.insert(fd, task), words).contains(task),
        v.with_wakers(task, (v.store.tasks[task].wakers - 1) as u64).readied(task).turns(task)
            == v.turns(task) + 1,
{
    law_waker_is_woken_once(wakers, fd, task, words);
    law_wake_gives_one_turn(v, task, (v.store.tasks[task].wakers - 1) as u64, task);
}

/// A waker stays registered as long as no event of its file descriptor is reported.
pub proof fn law_waker_waits_for_its_fd<W>(wakers: Map<i32, W>, fd: i32, words: Seq<u64>)
    requires
        wakers.contains_key(fd),
        !mentions(words, fd),
    ensures
        left(wakers, words).contains_key(fd),
        left(wakers, words)[fd] == wakers[fd],
{
}

proof fn lemma_woken<W>(wakers: Map<i32, W>, words: Seq<u64>, fd: i32)
    requires
        wakers.contains_key(fd),
        mentions(words, fd),
    ensures
        woken(wakers, words).contains(wakers[fd]),
    decreases words.len(),
{
    let rest = words.drop_last();
    let i = choose|i: int| 0 <= i < words.len() && fd_of(#[trigger] words[i]) == fd;
    let last = fd_of(words.last());
    if mentions(rest, fd) {
        lemma_woken(wakers, rest, fd);
        let before = woken(wakers, rest);
        let k = choose|k: int| 0 <= k < before.len() && before[k] == wakers[fd];
        assert(woken(wakers, words)[k] == wakers[fd]);
    } else {
        if i < rest.len() {
            assert(fd_of(rest[i]) == fd);
        }
        let after = woken(wakers, words);
        assert(after[after.len() - 1] == wakers[fd]);
    }
}

/// Every waker that is woken waited for the file descriptor of some event.
proof fn lemma_woken_waited<W>(wakers: Map<i32, W>, words: Seq<u64>)
    ensures
        forall|k: int|
            0 <= k < woken(wakers, words).len() ==> exists|f: i32|
                #![trigger wakers.contains_key(f)]
                mentions(words, f) && wakers.contains_key(f) && wakers[f]
                    == #[trigger] woken(wakers, words)[k],
    decreases words.len(),
{
    if words.len() > 0 {
        let rest = words.drop_last();
        let fd = fd_of(words.last());
        lemma_woken_waited(wakers, rest);
        let before = woken(wakers, rest);
        let after = woken(wakers, words);
        assert forall|k: int| 0 <= k < after.len() implies exists|f: i32|
            #![trigger wakers.contains_key(f)]
            mentions(words, f) && wakers.contains_key(f) && wakers[f] == #[trigger] after[k] by {
            if k < before.len() {
                assert(after[k] == before[k]);
                let f = choose|f: i32|
                    #![trigger wakers.contains_key(f)]
                    mentions(rest, f) && wakers.contains_key(f) && wakers[f] == before[k];
                let i = choose|i: int| 0 <= i < rest.len() && fd_of(#[trigger] rest[i]) == f;
                assert(fd_of(words[i]) == f);
                assert(mentions(words, f) && wakers.contains_key(f));
            } else {
                assert(fd_of(words[words.len() - 1]) == fd);
                assert(mentions(words, fd) && wakers.contains_key(fd));
            }
        }
    }
}

proof fn lemma_none_left<W>(wakers: Map<i32, W>, reported: Seq<u64>, words: Seq<u64>)
    requires
        forall|fd: i32| mentions(words, fd) ==> mentions(reported, fd),
    ensures
        woken(left(wakers, reported), words) == Seq::<W>::empty(),
    decreases words.len(),
{
    if words.len() > 0 {
        let rest = words.drop_last();
        assert forall|fd: i32| mentions(rest, fd) implies mentions(reported, fd) by {
            let i = choose|i: int| 0 <= i < rest.len() && fd_of(#[trigger] rest[i]) == fd;
            assert(fd_of(words[i]) == fd);
            assert(mentions(words, fd));
        }
        lemma_none_left(wakers, reported, rest);
        assert(fd_of(words[words.len() - 1]) == fd_of(words.last()));
        assert(mentions(words, fd_of(words.last())));
    }
}

/// The request of a registration adds the file descriptor exactly if no waker waits for it, and
/// changes it exactly if one does, whatever else is registered. It goes through the file descriptor
/// of the reactor and carries the file descriptor, what it is watched for, and the file descriptor
/// once more as the word of its events.
pub proof fn law_registration_adds_what_is_new<W>(reactor: Reactor<W>, fd: i32, events: u32)
    ensures
        ({
            let ctl = reactor.registration(fd, events);
            &&& ctl.op == sys::CTL_ADD <==> !reactor@.contains_key(fd)
            &&& ctl.op == sys::CTL_MOD <==> reactor@.contains_key(fd)
            &&& ctl.epoll_fd == reactor.epoll_fd()
            &&& ctl.fd == fd
            &&& ctl.event matches Some(event) && event.events == events && event.data == fd as u64
        }),
{
}

/// Two reactors in which the same file descriptor is registered, or in both of which it is not, ask
/// for the same operation, whatever else they hold.
pub proof fn law_registration_looks_at_its_fd_only<W>(
    a: Reactor<W>,
    b: Reactor<W>,
    fd: i32,
    events: u32,
)
    requires
        a@.contains_key(fd) == b@.contains_key(fd),
    ensures
        a.registration(fd, events).op == b.registration(fd, events).op,
        a.registration(fd, events).event == b.registration(fd, events).event,
{
}

/// The events that are reported wake one waker for each file descriptor that is reported and for
/// which one waits: there are places among the words, each behind the one before it, each the first
/// of a file descriptor with a waker, and every such place is among them; the wakers that wait for
/// the file descriptors at these places are those that are woken.
pub proof fn law_events_wake_who_waits<W>(wakers: Map<i32, W>, words: Seq<u64>) -> (at: Seq<int>)
    ensures
        at.len() == woken(wakers, words).len(),
        forall|k: int, l: int| 0 <= k < l < at.len() ==> at[k] < at[l],
        forall|k: int|
            0 <= k < at.len() ==> {
                &&& 0 <= #[trigger] at[k] < words.len()
                &&& wakers.contains_key(words[at[k]] as i32)
                &&& woken(wakers, words)[k] == wakers[words[at[k]] as i32]
                &&& forall|p: int|
                    0 <= p < at[k] ==> #[trigger] words[p] as i32 != words[at[k]] as i32
            },
        forall|p: int|
            0 <= p < words.len() && wakers.contains_key(#[trigger] words[p] as i32) && (
            forall|r: int| 0 <= r < p ==> #[trigger] words[r] as i32 != words[p] as i32)
                ==> at.contains(p),
    decreases words.len(),
{
    if words.len() == 0 {
        Seq::empty()
    } else {
        let rest = words.drop_last();
        let last = words.len() - 1;
        let fd = words[last] as i32;
        let inner = law_events_wake_who_waits(wakers, rest);
        let seen = exists|r: int| 0 <= r < rest.len() && #[trigger] rest[r] as i32 == fd;
        if seen {
            let r = choose|r: int| 0 <= r < rest.len() && #[trigger] rest[r] as i32 == fd;
            assert(fd_of(rest[r]) == fd);
            assert(mentions(rest, fd));
            assert(words[r] == rest[r]);
        } else if mentions(rest, fd) {
            let r = choose|r: int| 0 <= r < rest.len() && fd_of(#[trigger] rest[r]) == fd;
            assert(rest[r] as i32 == fd);
        }
        let first = wakers.contains_key(fd) && !seen;
        let at = if first {
            inner.push(last)
        } else {
            inner
        };
        assert forall|k: int| 0 <= k < at.len() implies {
            &&& 0 <= #[trigger] at[k] < words.len()
            &&& wakers.contains_key(words[at[k]] as i32)
            &&& woken(wakers, words)[k] == wakers[words[at[k]] as i32]
            &&& forall|p: int| 0 <= p < at[k] ==> #[trigger] words[p] as i32 != words[at[k]] as i32
        } by {
            if k < inner.len() {
                assert(at[k] == inner[k]);
                assert(words[at[k]] == rest[inner[k]]);
                assert forall|p: int| 0 <= p < at[k] implies #[trigger] words[p] as i32
                    != words[at[k]] as i32 by {
                    assert(rest[p] == words[p]);
                }
            } else {
                assert forall|p: int| 0 <= p < last implies #[trigger] words[p] as i32 != fd by {
                    assert(rest[p] == words[p]);
                }
            }
        }
        assert forall|p: int|
            0 <= p < words.len() && wakers.contains_key(#[trigger] words[p] as i32) && (
            forall|r: int|
                0 <= r < p ==> #[trigger] words[r] as i32 != words[p] as i32) implies at.contains(
            p,
        ) by {
            if p < last {
                assert(rest[p] == words[p]);
                assert forall|r: int| 0 <= r < p implies #[trigger] rest[r] as i32
                    != rest[p] as i32 by {
                    assert(words[r] == rest[r]);
                }
                let k = choose|k: int| 0 <= k < inner.len() && inner[k] == p;
                assert(at[k] == p);
            } else {
                if seen {
                    let r = choose|r: int| 0 <= r < rest.len() && #[trigger] rest[r] as i32 == fd;
                    assert(words[r] == rest[r]);
                }
                assert(at[inner.len() as int] == p);
            }
        }
        at
    }
}

/// A waker still waits after events were reported exactly if it waited before and none of the
/// events was of its file descriptor.
pub proof fn law_who_was_not_woken_waits_on<W>(wakers: Map<i32, W>, words: Seq<u64>, fd: i32)
    ensures
        left(wakers, words).contains_key(fd) <==> wakers.contains_key(fd) && forall|i: int|
            0 <= i < words.len() ==> #[trigger] words[i] as i32 != fd,
        left(wakers, words).contains_key(fd) ==> left(wakers, words)[fd] == wakers[fd],
{
    if mentions(words, fd) {
        let i = choose|i: int| 0 <= i < words.len() && fd_of(#[trigger] words[i]) == fd;
        assert(words[i] as i32 == fd);
    }
    if exists|i: int| 0 <= i < words.len() && #[trigger] words[i] as i32 == fd {
        let i = choose|i: int| 0 <= i < words.len() && #[trigger] words[i] as i32 == fd;
        assert(fd_of(words[i]) == fd);
    }
}

} // verus!
