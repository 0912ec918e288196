//! The conversation with a client of the echo server: what it sends comes back after a while.
use vstd::prelude::*;

verus! {

/// How many bytes are read at a time.
pub const BUFFER_SIZE: usize = 1024;

/// How long an answer takes, in milliseconds.
pub const DELAY_MILLIS: u64 = 100;

/// Where the conversation is.
#[derive(Clone, Copy, Debug, PartialEq, Eq, Structural)]
pub enum Session {
    /// Waiting for the client to send something.
    Reading,
    /// The first `n` bytes of the buffer were sent; waiting before the answer.
    Waiting { n: usize },
    /// Sending the first `n` bytes of the buffer back.
    Writing { n: usize },
    /// Over.
    Closed,
}

/// What has happened in a conversation.
#[derive(Clone, Copy, Debug, PartialEq, Eq, Structural)]
pub enum ClientEvent {
    /// The client sent so many bytes, which are in the buffer; none if it is gone.
    Read(usize),
    /// The wait before the answer is over.
    TimerDone,
    /// The answer was sent.
    Written,
}

/// What is to be done next in a conversation.
#[derive(Clone, Copy, Debug, PartialEq, Eq, Structural)]
pub enum ClientAction {
    /// Read what the client sends into the buffer.
    Read,
    /// Spawn a timer that runs for so many milliseconds, and wait for its value.
    Wait { millis: u64 },
    /// Send the first `n` bytes of the buffer back.
    Write { n: usize },
    /// End the conversation.
    Return,
}

impl Session {
    /// Whether `event` can happen at this point of the conversation.
    pub open spec fn expects(self, event: ClientEvent) -> bool {
        match event {
            ClientEvent::Read(n) => self is Reading && n <= BUFFER_SIZE,
            ClientEvent::TimerDone => self is Waiting,
            ClientEvent::Written => self is Writing,
        }
    }

    /// The point of the conversation after `event`.
    pub open spec fn next(self, event: ClientEvent) -> Session {
        match event {
            ClientEvent::Read(n) => if n == 0 {
                Session::Closed
            } else {
                Session::Waiting { n }
            },
            ClientEvent::TimerDone => Session::Writing { n: self->Waiting_n },
            ClientEvent::Written => Session::Reading,
        }
    }

    /// What is to be done at this point of the conversation.
    pub open spec fn action(self) -> ClientAction {
        match self {
            Session::Reading => ClientAction::Read,
            Session::Waiting { n } => ClientAction::Wait { millis: DELAY_MILLIS },
            Session::Writing { n } => ClientAction::Write { n },
            Session::Closed => ClientAction::Return,
        }
    }
}

/// The beginning of a conversation; the first action is to read.
pub fn new_session() -> (session: Session)
    ensures
        session is Reading,
        session.action() is Read,
{
    Session::Reading
}

/// Goes on with a conversation after `event`. A client that is gone ends it; what a client sends is
/// sent back after a wait, and then the next is read.
pub fn handle_client(session: &mut Session, event: ClientEvent) -> (action: ClientAction)
    requires
        old(session).expects(event),
    ensures
        *final(session) == old(session).next(event),
        action == final(session).action(),
{
    match event {
        ClientEvent::Read(n) => {
            if n == 0 {
                *session = Session::Closed;
                ClientAction::Return
            } else {
                *session = Session::Waiting { n };
                ClientAction::Wait { millis: DELAY_MILLIS }
            }
        },
        ClientEvent::TimerDone => {
            let n = match *session {
                Session::Waiting { n } => n,
                _ => 0,
            };
            *session = Session::Writing { n };
            ClientAction::Write { n }
        },
        ClientEvent::Written => {
            *session = Session::Reading;
            ClientAction::Read
        },
    }
}

/// The point of a conversation after `events`.
pub open spec fn session_after(events: Seq<ClientEvent>) -> Session
    decreases events.len(),
{
    if events.len() == 0 {
        Session::Reading
    } else {
        session_after(events.drop_last()).next(events.last())
    }
}

/// Whether each of `events` can happen where it happens in a conversation.
pub open spec fn expected(events: Seq<ClientEvent>) -> bool
    decreases events.len(),
{
    events.len() == 0 || {
        &&& expected(events.drop_last())
        &&& session_after(events.drop_last()).expects(events.last())
    }
}

/// How much the client sent each time, in order.
pub open spec fn lengths_read(events: Seq<ClientEvent>) -> Seq<usize>
    decreases events.len(),
{
    if events.len() == 0 {
        Seq::empty()
    } else {
        let before = lengths_read(events.drop_last());
        match events.last() {
            ClientEvent::Read(n) if n > 0 => before.push(n),
            _ => before,
        }
    }
}

/// How much was to be sent back each time, in order: the lengths of the `Write` actions.
pub open spec fn lengths_written(events: Seq<ClientEvent>) -> Seq<usize>
    decreases events.len(),
{
    if events.len() == 0 {
        Seq::empty()
    } else {
        let before = lengths_written(events.drop_last());
        match session_after(events).action() {
            ClientAction::Write { n } => before.push(n),
            _ => before,
        }
    }
}

/// In a whole conversation exactly what the client sends is sent back, in order: the lengths of the
/// writes are the lengths of what was read, up to the last one while its answer still has to wait.
/// A conversation is over exactly if the client is gone, and then nothing is left to be answered.
pub proof fn law_conversation_echoes_all(events: Seq<ClientEvent>)
    requires
        expected(events),
    ensures
        lengths_read(events) == match session_after(events) {
            Session::Waiting { n } => lengths_written(events).push(n),
            _ => lengths_written(events),
        },
        session_after(events) is Closed <==> events.len() > 0 && events.last()
            == ClientEvent::Read(0),
    decreases events.len(),
{
    if events.len() > 0 {
        law_conversation_echoes_all(events.drop_last());
    }
}

/// What a client sends comes back: bytes that were read are, after one wait, sent back in full
/// before anything more is read.
pub proof fn law_client_is_echoed(n: usize)
    requires
        0 < n <= BUFFER_SIZE,
    ensures
        ({
            let read = Session::Reading.next(ClientEvent::Read(n));
            let waited = read.next(ClientEvent::TimerDone);
            &&& Session::Reading.expects(ClientEvent::Read(n))
            &&& read.action() == (ClientAction::Wait { millis: DELAY_MILLIS })
            &&& read.expects(ClientEvent::TimerDone)
            &&& waited.action() == (ClientAction::Write { n })
            &&& waited.expects(ClientEvent::Written)
            &&& waited.next(ClientEvent::Written) == Session::Reading
        }),
{
}

/// At each point of a conversation one thing is to be done and one thing can happen. At the
/// beginning it is to read; a read of nothing ends the conversation, and then nothing can happen
/// any more.
pub proof fn law_conversation_goes_one_way(n: usize, event: ClientEvent)
    ensures
        Session::Reading.action() is Read,
        Session::Reading.expects(event) <==> (event matches ClientEvent::Read(m) && m <= 1024),
        Session::Reading.next(ClientEvent::Read(0)) is Closed,
        n > 0 ==> Session::Reading.next(ClientEvent::Read(n)) == (Session::Waiting { n }),
        (Session::Waiting { n }).action() == (ClientAction::Wait { millis: 100 }),
        (Session::Waiting { n }).expects(event) <==> event is TimerDone,
        (Session::Waiting { n }).next(ClientEvent::TimerDone) == (Session::Writing { n }),
        (Session::Writing { n }).action() == (ClientAction::Write { n }),
        (Session::Writing { n }).expects(event) <==> event is Written,
        (Session::Writing { n }).next(ClientEvent::Written) is Reading,
        Session::Closed.action() is Return,
        !Session::Closed.expects(event),
{
}

} // verus!
