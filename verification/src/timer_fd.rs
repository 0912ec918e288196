//! A timer future whose time is kept by a timer of the operating system.
use vstd::prelude::*;

use crate::reactor::{EpollCtl, Reactor};
use crate::sleep_timer::TimerFutureState;
use crate::sys;

verus! {

broadcast use vstd::string::to_string_from_display_ensures_for_str;

/// A future that is ready when `secs` seconds and `nanos` nanoseconds have passed since its first
/// poll.
#[derive(Debug, PartialEq, Eq)]
pub struct TimerFuture {
    pub secs: u64,
    pub nanos: u32,
    pub state: TimerFutureState,
    pub timer_fd: Option<i32>,
}

/// What a poll of the timer asks of the operating system.
#[derive(Debug, PartialEq, Eq)]
pub enum TimerCall {
    /// Make a timer that does not block and runs out once, after this time.
    Create { secs: i64, nanos: i64 },
    /// Read the timer.
    Read { fd: i32 },
    /// Nothing: the future is ready with this value.
    Ready(String),
}

/// What comes of reading the timer.
#[derive(Debug, PartialEq, Eq)]
pub enum TimerRead {
    /// The time is not up: the future waits.
    Pending,
    /// The future is ready with `value`. The request is to be made, and its file descriptor to be
    /// closed after it.
    Ready { value: String, ctl: EpollCtl },
    /// The timer could not be read, with this error.
    Failed(i32),
}

impl TimerFuture {
    /// A timer that was started has a file descriptor.
    pub open spec fn wf(&self) -> bool {
        !(self.state is Unresumed) ==> self.timer_fd is Some
    }

    /// The timer after it was made, under the file descriptor `fd`.
    pub open spec fn started(self, fd: i32) -> Self {
        TimerFuture { state: TimerFutureState::Started, timer_fd: Some(fd), ..self }
    }

    /// The timer after it was read, where `ret` is what the call returned.
    pub open spec fn after_read(self, ret: isize) -> Self {
        if ret >= 0 {
            TimerFuture { state: TimerFutureState::Done, ..self }
        } else {
            self
        }
    }

    /// A timer that does not run yet.
    pub fn new(secs: u64, nanos: u32) -> (timer: Self)
        ensures
            timer.wf(),
            timer == (TimerFuture {
                secs,
                nanos,
                state: TimerFutureState::Unresumed,
                timer_fd: None,
            }),
    {
        TimerFuture { secs, nanos, state: TimerFutureState::Unresumed, timer_fd: None }
    }

    /// Polls the timer.
    pub fn poll(&self) -> (call: TimerCall)
        requires
            self.wf(),
        ensures
            match self.state {
                TimerFutureState::Unresumed => call == (TimerCall::Create {
                    secs: self.secs as i64,
                    nanos: self.nanos as i64,
                }),
                TimerFutureState::Started => call == (TimerCall::Read { fd: self.timer_fd->0 }),
                TimerFutureState::Done => call matches TimerCall::Ready(value) && value@
                    == "thanks for waiting"@,
            },
    {
        match self.state {
            TimerFutureState::Unresumed => TimerCall::Create {
                secs: self.secs as i64,
                nanos: self.nanos as i64,
            },
            TimerFutureState::Started => TimerCall::Read { fd: self.timer_fd.unwrap() },
            TimerFutureState::Done => TimerCall::Ready("thanks for waiting".to_string()),
        }
    }

    /// The timer was made and runs, under the file descriptor `fd`. The future waits for it; the
    /// request is to be made.
    pub fn created<W>(&mut self, reactor: &mut Reactor<W>, waker: W, fd: i32) -> (ctl: EpollCtl)
        requires
            old(self).state is Unresumed,
            fd != -1,
        ensures
            final(self).wf(),
            *final(self) == old(self).started(fd),
            final(reactor).epoll_fd() == old(reactor).epoll_fd(),
            final(reactor)@ == old(reactor)@.insert(fd, waker),
            ctl == old(reactor).registration(fd, sys::READABLE),
    {
        self.timer_fd = Some(fd);
        self.state = TimerFutureState::Started;
        reactor.register_read(fd, waker)
    }

    /// Deals with the answer to reading the timer: `ret` is what the call returned, `err` the error
    /// code that it left. If the time is not up the future waits on, with no new registration.
    pub fn read_returned<W>(&mut self, reactor: &Reactor<W>, ret: isize, err: i32) -> (read:
        TimerRead)
        requires
            old(self).wf(),
            old(self).state is Started,
        ensures
            final(self).wf(),
            *final(self) == old(self).after_read(ret),
            ret < 0 && err == sys::AGAIN ==> read is Pending,
            ret < 0 && err != sys::AGAIN ==> read == TimerRead::Failed(err),
            ret >= 0 ==> {
                &&& read matches TimerRead::Ready { value, ctl }
                &&& value@ == "thanks for waiting"@
                &&& ctl == (EpollCtl {
                    epoll_fd: reactor.epoll_fd(),
                    op: sys::CTL_DEL,
                    fd: old(self).timer_fd->0,
                    event: None,
                })
            },
    {
        if ret < 0 {
            if sys::would_block(err) {
                return TimerRead::Pending;
            }
            return TimerRead::Failed(err);
        }
        let ctl = reactor.deregister(self.timer_fd.unwrap());
        self.state = TimerFutureState::Done;
        TimerRead::Ready { value: "thanks for waiting".to_string(), ctl }
    }
}

/// The timer after it was read once for each of `rets`.
pub open spec fn after_reads(timer: TimerFuture, rets: Seq<isize>) -> TimerFuture
    decreases rets.len(),
{
    if rets.len() == 0 {
        timer
    } else {
        after_reads(timer, rets.drop_last()).after_read(rets.last())
    }
}

/// A timer is made once, keeps its file descriptor, and is done exactly from the first read on that
/// succeeds; nothing brings it back.
pub proof fn law_timer_is_done_by_its_first_read(timer: TimerFuture, fd: i32, rets: Seq<isize>)
    ensures
        ({
            let end = after_reads(timer.started(fd), rets);
            &&& end.timer_fd == Some(fd)
            &&& end.state is Done <==> exists|i: int| 0 <= i < rets.len() && #[trigger] rets[i] >= 0
            &&& end.state is Done || end.state is Started
        }),
    decreases rets.len(),
{
    if rets.len() > 0 {
        let rest = rets.drop_last();
        law_timer_is_done_by_its_first_read(timer, fd, rest);
        if exists|i: int| 0 <= i < rest.len() && #[trigger] rest[i] >= 0 {
            let i = choose|i: int| 0 <= i < rest.len() && #[trigger] rest[i] >= 0;
            assert(rets[i] >= 0);
        }
        if exists|i: int| 0 <= i < rets.len() && #[trigger] rets[i] >= 0 {
            let i = choose|i: int| 0 <= i < rets.len() && #[trigger] rets[i] >= 0;
            if i < rest.len() {
                assert(rest[i] >= 0);
            }
        }
        if rets.last() >= 0 {
            assert(rets[rets.len() - 1] >= 0);
        }
    }
}

/// A timer that was made has the file descriptor that it was given and runs. A read that succeeds
/// ends it, and one that fails changes nothing. The time that it was made for and the file
/// descriptor never change.
pub proof fn law_only_a_read_ends_a_timer(timer: TimerFuture, fd: i32, ret: isize)
    ensures
        timer.started(fd).state is Started,
        timer.started(fd).timer_fd == Some(fd),
        timer.started(fd).secs == timer.secs,
        timer.started(fd).nanos == timer.nanos,
        ret >= 0 ==> timer.after_read(ret).state is Done,
        ret < 0 ==> timer.after_read(ret).state == timer.state,
        timer.after_read(ret).timer_fd == timer.timer_fd,
        timer.after_read(ret).secs == timer.secs,
        timer.after_read(ret).nanos == timer.nanos,
{
}

} // verus!
