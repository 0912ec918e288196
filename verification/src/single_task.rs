//! An executor for one future.
//!
//! It polls the future until it is ready. After a poll that was not, it sleeps until a wake-up is
//! confirmed: a thread can come out of its sleep with no reason, so every wake-up leaves a mark,
//! and the future is polled again only where the mark is found. Finding the mark takes it away.
use vstd::prelude::*;

use crate::poll::Poll;

verus! {

/// The mark that a wake-up leaves: whether the future was woken since its last poll began.
#[derive(Debug, PartialEq, Eq)]
pub struct Park(pub bool);

impl Park {
    /// No wake-up yet.
    pub fn new() -> (park: Self)
        ensures
            park == Park(false),
    {
        Park(false)
    }

    /// Leaves the mark of a wake-up. The sleeping executor is to be notified after that.
    pub fn wake(&mut self)
        ensures
            *final(self) == Park(true),
    {
        self.0 = true;
    }
}

/// What has happened to the executor.
#[derive(Debug, PartialEq, Eq)]
pub enum Event<T> {
    /// The future was polled, with this outcome.
    Polled(Poll<T>),
    /// The sleep is over, with a reason or without one.
    Notified,
}

/// What the executor is to do next.
#[derive(Debug, PartialEq, Eq)]
pub enum Action<T> {
    /// Poll the future.
    Poll,
    /// Sleep until notified.
    Wait,
    /// Return the value of the future.
    Return(T),
}

/// What the executor does about `event`.
pub open spec fn response<T>(park: Park, event: Event<T>) -> Action<T> {
    match event {
        Event::Polled(Poll::Ready(value)) => Action::Return(value),
        _ => if park.0 {
            Action::Poll
        } else {
            Action::Wait
        },
    }
}

/// The mark after the executor has dealt with `event`.
pub open spec fn mark_after<T>(park: Park, event: Event<T>) -> Park {
    match event {
        Event::Polled(Poll::Ready(value)) => park,
        _ => Park(false),
    }
}

/// Decides what follows `event`. The first action, before any event, is to poll the future. A
/// value is returned. If the future is not ready, it is polled again once a wake-up is confirmed.
pub fn run<T>(park: &mut Park, event: Event<T>) -> (action: Action<T>)
    ensures
        action == response(*old(park), event),
        *final(park) == mark_after(*old(park), event),
        event matches Event::Polled(Poll::Ready(value)) ==> action == Action::Return(value)
            && *final(park) == *old(park),
        event is Notified || event == Event::<T>::Polled(Poll::Pending) ==> {
            &&& action is Poll <==> old(park).0
            &&& action is Wait <==> !old(park).0
            &&& !final(park).0
        },
{
    match event {
        Event::Polled(Poll::Ready(value)) => Action::Return(value),
        _ => {
            if park.0 {
                park.0 = false;
                Action::Poll
            } else {
                Action::Wait
            }
        },
    }
}

/// What can happen while a future is not ready.
pub enum Input {
    /// A wake-up.
    Wake,
    /// A poll came back without a value.
    Pending,
    /// The sleep is over, with a reason or without one.
    Notified,
}

/// The event that an input brings to the executor.
pub open spec fn event_of<T>(input: Input) -> Event<T> {
    match input {
        Input::Notified => Event::Notified,
        _ => Event::Polled(Poll::Pending),
    }
}

/// The mark after all of `inputs`, from the start on.
pub open spec fn mark<T>(inputs: Seq<Input>) -> Park
    decreases inputs.len(),
{
    if inputs.len() == 0 {
        Park(false)
    } else {
        let before = mark::<T>(inputs.drop_last());
        match inputs.last() {
            Input::Wake => Park(true),
            other => mark_after(before, event_of::<T>(other)),
        }
    }
}

/// How many polls the executor has decided on over `inputs`, the first one not counted.
pub open spec fn repolls<T>(inputs: Seq<Input>) -> nat
    decreases inputs.len(),
{
    if inputs.len() == 0 {
        0
    } else {
        let before = mark::<T>(inputs.drop_last());
        let more = match inputs.last() {
            Input::Wake => 0nat,
            other => if response(before, event_of::<T>(other)) is Poll {
                1nat
            } else {
                0nat
            },
        };
        repolls::<T>(inputs.drop_last()) + more
    }
}

/// How many wake-ups there are among `inputs`.
pub open spec fn wakes(inputs: Seq<Input>) -> nat
    decreases inputs.len(),
{
    if inputs.len() == 0 {
        0
    } else {
        wakes(inputs.drop_last()) + if inputs.last() is Wake {
            1nat
        } else {
            0nat
        }
    }
}

/// The future is polled again only for a wake-up: whatever happens, and however often the sleep
/// ends for no reason, there are never more polls after the first than there were wake-ups.
pub proof fn law_every_repoll_has_its_wake<T>(inputs: Seq<Input>)
    ensures
        repolls::<T>(inputs) <= wakes(inputs),
{
    lemma_repolls::<T>(inputs);
}

proof fn lemma_repolls<T>(inputs: Seq<Input>)
    ensures
        repolls::<T>(inputs) + if mark::<T>(inputs).0 {
            1nat
        } else {
            0nat
        } <= wakes(inputs),
    decreases inputs.len(),
{
    if inputs.len() > 0 {
        lemma_repolls::<T>(inputs.drop_last());
    }
}

/// No wake-up is lost: one that comes while the future is being polled, or before the executor
/// sleeps, makes it poll at its next decision, and the value is asked for again.
pub proof fn law_no_wake_is_lost<T>(inputs: Seq<Input>, next: Input)
    requires
        !(next is Wake),
    ensures
        response(mark::<T>(inputs.push(Input::Wake)), event_of::<T>(next)) is Poll,
{
    assert(inputs.push(Input::Wake).last() is Wake);
}

/// A value is returned: whatever the mark is, a poll that gives a value makes the executor return
/// exactly that value, and the mark stays as it is.
pub proof fn law_value_is_returned<T>(park: Park, value: T)
    ensures
        response(park, Event::Polled(Poll::Ready(value))) == Action::Return(value),
        mark_after(park, Event::Polled(Poll::Ready(value))) == park,
{
}

/// Without a value the mark decides, after a poll and after a sleep alike: the future is polled if
/// the mark is there, and the executor sleeps if not. Nothing is returned, and the mark is gone.
pub proof fn law_mark_decides_between_poll_and_sleep<T>(marked: bool, event: Event<T>)
    requires
        event is Notified || event == Event::<T>::Polled(Poll::Pending),
    ensures
        marked ==> response(Park(marked), event) is Poll,
        !marked ==> response(Park(marked), event) is Wait,
        mark_after(Park(marked), event) == Park(false),
{
}

} // verus!
