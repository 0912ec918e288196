use runtime_from_scratch::client::{
    handle_client, new_session, ClientAction, ClientEvent, Session,
};
use runtime_from_scratch::join::{JoinCells, JoinHandle};
use runtime_from_scratch::poll::Poll;
use runtime_from_scratch::single_task::{run, Action, Event, Park};
use runtime_from_scratch::sleep_timer::{TimerFuture, TimerFutureState, TimerStep};

#[test]
fn value_is_delivered_once() {
    let mut cells: JoinCells<i32, char> = JoinCells::new();
    let handle = JoinHandle::new(&mut cells);
    assert_eq!(handle.complete(&mut cells, 5), None);
    assert_eq!(handle.poll(&mut cells, 'a'), Poll::Ready(5));
    assert_eq!(handle.poll(&mut cells, 'b'), Poll::Pending);
    assert_eq!(handle.complete(&mut cells, 6), Some('b'));
}

#[test]
fn last_waiter_is_woken() {
    let mut cells: JoinCells<i32, char> = JoinCells::new();
    let handle = JoinHandle::new(&mut cells);
    assert_eq!(handle.poll(&mut cells, 'a'), Poll::Pending);
    assert_eq!(handle.poll(&mut cells, 'b'), Poll::Pending);
    assert_eq!(handle.settle(&mut cells, Poll::Pending), (Poll::Pending, None));
    assert_eq!(
        handle.settle(&mut cells, Poll::Ready(7)),
        (Poll::Ready(()), Some('b'))
    );
    assert_eq!(handle.poll(&mut cells, 'c'), Poll::Ready(7));
}

#[test]
fn clones_share_a_slot_and_others_do_not() {
    let mut cells: JoinCells<i32, char> = JoinCells::new();
    let handle = JoinHandle::new(&mut cells);
    let clone = handle.clone();
    let other = JoinHandle::new(&mut cells);
    assert_eq!(handle, clone);
    assert_ne!(handle, other);
    assert_eq!(clone.poll(&mut cells, 'a'), Poll::Pending);
    assert_eq!(other.complete(&mut cells, 1), None);
    assert_eq!(handle.complete(&mut cells, 2), Some('a'));
    assert_eq!(clone.poll(&mut cells, 'a'), Poll::Ready(2));
    assert_eq!(other.poll(&mut cells, 'b'), Poll::Ready(1));
}

#[test]
fn released_slot_is_gone() {
    let mut cells: JoinCells<i32, char> = JoinCells::new();
    let handle = JoinHandle::new(&mut cells);
    handle.complete(&mut cells, 3);
    assert!(cells.contains(handle.slot));
    let cell = cells.release(handle.clone()).unwrap();
    assert_eq!(cell.result, Some(3));
    assert_eq!(cell.waker, None);
    assert!(!cells.contains(handle.slot));
    assert!(cells.release(handle).is_none());
    assert_eq!(JoinHandle::new(&mut cells).slot, 1);
}

#[test]
fn ready_future_is_returned() {
    let mut park = Park::new();
    assert_eq!(run(&mut park, Event::Polled(Poll::Ready(9))), Action::Return(9));
}

#[test]
fn future_is_polled_again_only_after_a_wake() {
    let mut park = Park::new();
    assert_eq!(run::<i32>(&mut park, Event::Polled(Poll::Pending)), Action::Wait);
    // Sleep can end for no reason.
    assert_eq!(run::<i32>(&mut park, Event::Notified), Action::Wait);
    park.wake();
    assert_eq!(run::<i32>(&mut park, Event::Notified), Action::Poll);
    // The next poll needs a wake of its own.
    assert_eq!(run::<i32>(&mut park, Event::Polled(Poll::Pending)), Action::Wait);
    assert_eq!(run::<i32>(&mut park, Event::Notified), Action::Wait);
    park.wake();
    park.wake();
    assert_eq!(run::<i32>(&mut park, Event::Notified), Action::Poll);
    assert_eq!(run::<i32>(&mut park, Event::Polled(Poll::Pending)), Action::Wait);
}

#[test]
fn wake_during_a_poll_is_not_lost() {
    let mut park = Park::new();
    park.wake();
    assert_eq!(park, Park(true));
    assert_eq!(run::<i32>(&mut park, Event::Polled(Poll::Pending)), Action::Poll);
    assert_eq!(park, Park(false));
}

#[test]
fn sleep_timer_starts_once() {
    let mut timer = TimerFuture::new(2u8);
    assert_eq!(timer.state, TimerFutureState::Unresumed);
    assert_eq!(timer.poll(), TimerStep::Start(2));
    assert_eq!(timer.poll(), TimerStep::Pending);
    assert_eq!(timer.poll(), TimerStep::Pending);
    timer.expire();
    assert_eq!(timer.poll(), TimerStep::Ready("thanks for waiting".to_string()));
    assert_eq!(timer.poll(), TimerStep::Ready("thanks for waiting".to_string()));
    assert_eq!(timer.state, TimerFutureState::Done);
}

#[test]
fn client_is_echoed_until_it_is_gone() {
    let mut session = new_session();
    assert_eq!(
        handle_client(&mut session, ClientEvent::Read(12)),
        ClientAction::Wait { millis: 100 }
    );
    assert_eq!(session, Session::Waiting { n: 12 });
    assert_eq!(
        handle_client(&mut session, ClientEvent::TimerDone),
        ClientAction::Write { n: 12 }
    );
    assert_eq!(handle_client(&mut session, ClientEvent::Written), ClientAction::Read);
    assert_eq!(handle_client(&mut session, ClientEvent::Read(0)), ClientAction::Return);
    assert_eq!(session, Session::Closed);
}

#[test]
fn conversation_echoes_all_lengths_in_order() {
    let mut session = new_session();
    let mut action = ClientAction::Read;
    let mut sent = vec![1, 1024, 7].into_iter();
    let mut read = Vec::new();
    let mut written = Vec::new();
    while action != ClientAction::Return {
        let event = match action {
            ClientAction::Read => {
                assert_eq!(written, read);
                let n = sent.next().unwrap_or(0);
                if n > 0 {
                    read.push(n);
                }
                ClientEvent::Read(n)
            }
            ClientAction::Wait { millis } => {
                assert_eq!(millis, 100);
                assert_eq!(written.len() + 1, read.len());
                ClientEvent::TimerDone
            }
            ClientAction::Write { n } => {
                written.push(n);
                ClientEvent::Written
            }
            ClientAction::Return => unreachable!(),
        };
        action = handle_client(&mut session, event);
    }
    assert_eq!(written, [1, 1024, 7]);
    assert_eq!(session, Session::Closed);
}
