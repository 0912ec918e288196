//! A timer future whose time runs out in a thread of its own.
use vstd::prelude::*;

verus! {

broadcast use vstd::string::to_string_from_display_ensures_for_str;

/// How far a timer has come.
#[derive(Clone, Copy, Debug, PartialEq, Eq, Structural)]
pub enum TimerFutureState {
    /// Not polled yet.
    Unresumed,
    /// The time is running.
    Started,
    /// The time is up.
    Done,
}

/// A future that is ready when `duration` has passed since its first poll.
#[derive(Debug)]
pub struct TimerFuture<D> {
    pub duration: D,
    pub state: TimerFutureState,
}

/// What a poll of the timer asks for.
#[derive(Debug, PartialEq, Eq)]
pub enum TimerStep<D> {
    /// Not ready. A thread is to be started that sleeps for the duration, lets the timer
    /// [`expire`](TimerFuture::expire) and wakes the task.
    Start(D),
    /// Not ready; the thread is running.
    Pending,
    /// Ready with this value.
    Ready(String),
}

/// The state after a poll.
pub open spec fn polled(state: TimerFutureState) -> TimerFutureState {
    match state {
        TimerFutureState::Unresumed => TimerFutureState::Started,
        other => other,
    }
}

impl<D: Copy> TimerFuture<D> {
    /// A timer that does not run yet.
    pub fn new(duration: D) -> (timer: Self)
        ensures
            timer.duration == duration,
            timer.state == TimerFutureState::Unresumed,
    {
        TimerFuture { duration, state: TimerFutureState::Unresumed }
    }

    /// Polls the timer: the first poll starts it, later ones ask whether the time is up.
    pub fn poll(&mut self) -> (step: TimerStep<D>)
        ensures
            final(self).duration == old(self).duration,
            final(self).state == polled(old(self).state),
            final(self).state is Done <==> old(self).state is Done,
            !(final(self).state is Unresumed),
            match old(self).state {
                TimerFutureState::Unresumed => step == TimerStep::Start(old(self).duration),
                TimerFutureState::Started => step is Pending,
                TimerFutureState::Done => step matches TimerStep::Ready(value) && value@
                    == "thanks for waiting"@,
            },
    {
        match self.state {
            TimerFutureState::Unresumed => {
                self.state = TimerFutureState::Started;
                TimerStep::Start(self.duration)
            },
            TimerFutureState::Started => TimerStep::Pending,
            TimerFutureState::Done => TimerStep::Ready("thanks for waiting".to_string()),
        }
    }

    /// The time is up.
    pub fn expire(&mut self)
        ensures
            final(self).duration == old(self).duration,
            final(self).state == TimerFutureState::Done,
    {
        self.state = TimerFutureState::Done;
    }
}

/// The state of a new timer after `before` polls, and then the end of its time if it is `expired`,
/// and then `after` polls.
pub open spec fn history(before: nat, expired: bool, after: nat) -> TimerFutureState
    decreases before + after,
{
    if after > 0 {
        polled(history(before, expired, (after - 1) as nat))
    } else if expired {
        TimerFutureState::Done
    } else if before > 0 {
        polled(history((before - 1) as nat, false, 0))
    } else {
        TimerFutureState::Unresumed
    }
}

/// A timer starts its thread at the first poll and at no other; it is not ready before the time is
/// up, and it is ready at every poll after that.
pub proof fn law_timer_starts_once_and_ends_once(before: nat, after: nat)
    ensures
        before == 0 ==> history(before, false, 0) is Unresumed,
        before > 0 ==> history(before, false, 0) is Started,
        history(before, true, after) is Done,
    decreases before + after,
{
    if after > 0 {
        law_timer_starts_once_and_ends_once(before, (after - 1) as nat);
    } else if before > 0 {
        law_timer_starts_once_and_ends_once((before - 1) as nat, 0);
    }
}

/// A poll starts a timer that does not run, and changes no other.
pub proof fn law_poll_only_starts_a_timer(state: TimerFutureState)
    ensures
        state is Unresumed ==> polled(state) is Started,
        !(state is Unresumed) ==> polled(state) == state,
{
}

} // verus!
