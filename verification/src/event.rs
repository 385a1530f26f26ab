//! The events that a stream session hands to its consumer.

use vstd::prelude::*;

verus! {

/// One event of a session, in the order in which its record was decoded.
///
/// `Token` and `Progress` carry content. `Done` and `Error` are terminal:
/// a session yields exactly one of them, as its last event. `Done` goes to the
/// consumer of the stream; `Error` is the failure that the session reports
/// to whoever started it.
#[derive(Debug, Clone, PartialEq, Eq)]
pub enum StreamEvent {
    /// A piece of generated text.
    Token { text: String, session_id: String },
    /// The state of a transfer; a count that the record did not give is
    /// `None`.
    Progress { status: String, completed: Option<u64>, total: Option<u64> },
    /// The stream completed.
    Done { session_id: String },
    /// The transport failed.
    Error { message: String },
}

/// The mathematical model of a [`StreamEvent`].
pub enum Event {
    Token { text: Seq<char>, session_id: Seq<char> },
    Progress { status: Seq<char>, completed: Option<u64>, total: Option<u64> },
    Done { session_id: Seq<char> },
    Error { message: Seq<char> },
}

impl Event {
    /// Whether the event ends its session.
    pub open spec fn is_terminal(self) -> bool {
        self is Done || self is Error
    }
}

impl View for StreamEvent {
    type V = Event;

    open spec fn view(&self) -> Event {
        match self {
            StreamEvent::Token { text, session_id } => Event::Token {
                text: text@,
                session_id: session_id@,
            },
            StreamEvent::Progress { status, completed, total } => Event::Progress {
                status: status@,
                completed: *completed,
                total: *total,
            },
            StreamEvent::Done { session_id } => Event::Done { session_id: session_id@ },
            StreamEvent::Error { message } => Event::Error { message: message@ },
        }
    }
}

impl DeepView for StreamEvent {
    type V = Event;

    open spec fn deep_view(&self) -> Event {
        self@
    }
}

impl StreamEvent {
    /// Tells whether the event is a `Done`.
    pub fn is_done(&self) -> (done: bool)
        ensures
            done == (self@ is Done),
    {
        match self {
            StreamEvent::Done { .. } => true,
            _ => false,
        }
    }

    /// Tells whether the event ends its session.
    pub fn is_terminal(&self) -> (terminal: bool)
        ensures
            terminal == self@.is_terminal(),
    {
        match self {
            StreamEvent::Done { .. } => true,
            StreamEvent::Error { .. } => true,
            _ => false,
        }
    }
}

} // verus!
