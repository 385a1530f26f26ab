//! The stream session: the state machine that takes what the transport
//! delivers and says which events go out.
//!
//! A session starts in `Opening`. A response with a success status moves it
//! to `Streaming`, where every chunk is reassembled into records and decoded.
//! It ends in `Closed`, after exactly one `Done` event, or in `Failed`, after
//! exactly one `Error` event and no `Done`. Whoever drives the transport
//! feeds [`Session::step`] and forwards what it returns, in order.

use crate::decoder::{
    decode_record, ends_with_done, lemma_record_events_form, record_events, StreamKind,
};
use crate::event::{Event, StreamEvent};
use crate::reassembler::{records, remainder, LineReassembler};
use crate::text::{decode_lossy, lossy_text};
use vstd::prelude::*;
use vstd::string::StringExecFns;

verus! {

/// Where a session stands.
#[derive(Debug, Clone, Copy, PartialEq, Eq, Structural)]
pub enum SessionState {
    /// The request is out, no response yet.
    Opening,
    /// Chunks are coming in.
    Streaming,
    /// The transport ran out of chunks before any record said `done`; the
    /// session owes its consumer a `Done` of its own. A session passes
    /// through this state within one step and never rests in it.
    Completing,
    /// A `Done` went out. Nothing follows.
    Closed,
    /// The transport failed. Nothing follows, and no `Done` went out.
    Failed,
}

/// What the transport delivers to a session.
#[derive(Debug, Clone, PartialEq, Eq)]
pub enum TransportEvent {
    /// The response arrived, with this status code and the reason phrase
    /// that goes with it.
    Response { status: u16, reason: String },
    /// The next chunk of the body.
    Chunk(Vec<u8>),
    /// The body ended.
    End,
    /// The transport failed, with this description.
    Failure(String),
}

/// The mathematical model of a [`TransportEvent`].
pub enum Input {
    Response { status: u16, reason: Seq<char> },
    Chunk(Seq<u8>),
    End,
    Failure(Seq<char>),
}

impl View for TransportEvent {
    type V = Input;

    open spec fn view(&self) -> Input {
        match self {
            TransportEvent::Response { status, reason } => Input::Response {
                status: *status,
                reason: reason@,
            },
            TransportEvent::Chunk(bytes) => Input::Chunk(bytes@),
            TransportEvent::End => Input::End,
            TransportEvent::Failure(message) => Input::Failure(message@),
        }
    }
}

/// Whether an HTTP status code is in the success class, 200 to 299.
pub open spec fn is_success_status(status: u16) -> bool {
    200 <= status <= 299
}

/// The decimal digit `d`, for `d` below ten.
pub open spec fn digit(d: nat) -> char {
    ((48 + d % 10) as u8) as char
}

/// The decimal numeral of `n`, without leading zeros.
pub open spec fn decimal(n: nat) -> Seq<char>
    decreases n,
{
    if n < 10 {
        seq![digit(n)]
    } else {
        decimal(n / 10).push(digit(n % 10))
    }
}

/// The failure that a session reports for a response without success status:
/// a fixed phrase, the status code in decimal, a space and the reason phrase.
pub open spec fn status_failure(status: u16, reason: Seq<char>) -> Seq<char> {
    "Ollama returned status "@ + decimal(status as nat) + seq![' '] + reason
}

/// The events of a run of records, in order, up to and including those of
/// the first record that ends with a `Done`. What follows that record is
/// not looked at.
pub open spec fn records_events(
    kind: StreamKind,
    session_id: Seq<char>,
    records: Seq<Seq<char>>,
) -> Seq<Event>
    decreases records.len(),
{
    if records.len() == 0 {
        seq![]
    } else {
        let head = record_events(kind, session_id, records[0]);
        if ends_with_done(head) {
            head
        } else {
            head + records_events(kind, session_id, records.drop_first())
        }
    }
}

/// The mathematical model of a [`Session`].
pub struct SessionModel {
    pub kind: StreamKind,
    pub session_id: Seq<char>,
    pub state: SessionState,
    /// The text that arrived after the last newline.
    pub pending: Seq<char>,
}

impl SessionModel {
    /// A session that has just issued its request.
    pub open spec fn fresh(kind: StreamKind, session_id: Seq<char>) -> SessionModel {
        SessionModel { kind, session_id, state: SessionState::Opening, pending: Seq::empty() }
    }

    /// The same session in another state.
    pub open spec fn at(self, state: SessionState) -> SessionModel {
        SessionModel { state, ..self }
    }

    /// Whether the session has ended, one way or the other.
    pub open spec fn is_over(self) -> bool {
        self.state is Closed || self.state is Failed
    }

    /// The session closes with a `Done` of its own.
    pub open spec fn complete(self) -> (SessionModel, Seq<Event>) {
        (self.at(SessionState::Closed), seq![Event::Done { session_id: self.session_id }])
    }

    /// The session fails with `message`; no `Done` goes out.
    pub open spec fn fail(self, message: Seq<char>) -> (SessionModel, Seq<Event>) {
        (self.at(SessionState::Failed), seq![Event::Error { message }])
    }

    /// A streaming session takes in `text`: the records that the text
    /// completes are decoded in order, and a `Done` among their events closes
    /// the session on the spot.
    pub open spec fn take_text(self, text: Seq<char>) -> (SessionModel, Seq<Event>) {
        let all = self.pending + text;
        let events = records_events(self.kind, self.session_id, records(all));
        (
            SessionModel {
                state: if ends_with_done(events) {
                    SessionState::Closed
                } else {
                    SessionState::Streaming
                },
                pending: remainder(all),
                ..self
            },
            events,
        )
    }

    /// One step of the state machine: the state after `input`, and the events
    /// that go out for it. What the transport has no business delivering in a
    /// state (a chunk before the response, a second response) changes
    /// nothing, and neither does anything after the session has ended.
    pub open spec fn step(self, input: Input) -> (SessionModel, Seq<Event>) {
        match self.state {
            SessionState::Opening => match input {
                Input::Response { status, reason } => if is_success_status(status) {
                    (self.at(SessionState::Streaming), seq![])
                } else {
                    self.fail(status_failure(status, reason))
                },
                Input::Failure(message) => self.fail(message),
                _ => (self, seq![]),
            },
            SessionState::Streaming => match input {
                Input::Chunk(bytes) => self.take_text(lossy_text(bytes)),
                Input::End => self.at(SessionState::Completing).complete(),
                Input::Failure(message) => self.fail(message),
                Input::Response { .. } => (self, seq![]),
            },
            SessionState::Completing => self.complete(),
            SessionState::Closed | SessionState::Failed => (self, seq![]),
        }
    }

    /// The state after a run of inputs, and all the events that went out,
    /// in order.
    pub open spec fn run(self, inputs: Seq<Input>) -> (SessionModel, Seq<Event>)
        decreases inputs.len(),
    {
        if inputs.len() == 0 {
            (self, seq![])
        } else {
            let (before, earlier) = self.run(inputs.drop_last());
            let (after, later) = before.step(inputs.last());
            (after, earlier + later)
        }
    }
}

/// Tells whether an HTTP status code is in the success class.
pub fn is_success(status: u16) -> (ok: bool)
    ensures
        ok == is_success_status(status),
{
    200 <= status && status <= 299
}

/// Appends the decimal numeral of `n` to `out`.
pub fn push_decimal(out: &mut String, n: u16)
    ensures
        final(out)@ == old(out)@ + decimal(n as nat),
    decreases n,
{
    if n >= 10 {
        push_decimal(out, n / 10);
    }
    let d: u8 = (n % 10) as u8;
    out.push((48 + d) as char);
    assert(final(out)@ =~= old(out)@ + decimal(n as nat));
}

/// The failure message for a response without success status.
pub fn status_failure_message(status: u16, reason: &str) -> (message: String)
    ensures
        message@ == status_failure(status, reason@),
{
    let mut message = "Ollama returned status ".to_owned();
    push_decimal(&mut message, status);
    message.push(' ');
    message.append(reason);
    assert(message@ =~= status_failure(status, reason@));
    message
}

/// One streaming request, from the response to the terminal event.
pub struct Session {
    kind: StreamKind,
    session_id: String,
    state: SessionState,
    lines: LineReassembler,
}

impl View for Session {
    type V = SessionModel;

    closed spec fn view(&self) -> SessionModel {
        SessionModel {
            kind: self.kind,
            session_id: self.session_id@,
            state: self.state,
            pending: self.lines@,
        }
    }
}

impl Session {
    /// A session of the given kind whose request has just been issued.
    /// `session_id` is the caller's correlation id; every `Token` and `Done`
    /// carries it.
    pub fn new(kind: StreamKind, session_id: String) -> (session: Session)
        ensures
            session@ == SessionModel::fresh(kind, session_id@),
    {
        Session { kind, session_id, state: SessionState::Opening, lines: LineReassembler::new() }
    }

    /// The state the session is in.
    pub fn state(&self) -> (state: SessionState)
        ensures
            state == self@.state,
    {
        self.state
    }

    /// The kind of stream the session decodes.
    pub fn kind(&self) -> (kind: StreamKind)
        ensures
            kind == self@.kind,
    {
        self.kind
    }

    /// The correlation id of the session.
    pub fn session_id(&self) -> (id: &str)
        ensures
            id@ == self@.session_id,
    {
        self.session_id.as_str()
    }

    /// Tells whether the session has ended: no input changes it any more, and
    /// no event follows.
    pub fn is_over(&self) -> (over: bool)
        ensures
            over == self@.is_over(),
    {
        match self.state {
            SessionState::Closed => true,
            SessionState::Failed => true,
            _ => false,
        }
    }

    /// Takes in decoded text. A streaming session reassembles it into records,
    /// decodes them in order and closes at the first `Done`; a session in any
    /// other state passes it over.
    pub fn take_text(&mut self, text: &str) -> (events: Vec<StreamEvent>)
        ensures
            old(self)@.state is Streaming ==> (final(self)@, events.deep_view()) == old(
                self,
            )@.take_text(text@),
            !(old(self)@.state is Streaming) ==> final(self)@ == old(self)@ && events.deep_view()
                == Seq::<Event>::empty(),
    {
        let mut events: Vec<StreamEvent> = Vec::new();
        match self.state {
            SessionState::Streaming => {},
            _ => {
                assert(events.deep_view() =~= Seq::<Event>::empty());
                return events;
            },
        }
        let complete = self.lines.push_text(text);
        let ghost all = records(old(self)@.pending + text@);
        let ghost kind = self.kind;
        let ghost id = self.session_id@;
        let mut i: usize = 0;
        assert(all.skip(0) =~= all);
        assert(events.deep_view() =~= Seq::<Event>::empty());
        while i < complete.len()
            invariant
                i <= complete.len(),
                complete.deep_view() == all,
                all == records(old(self)@.pending + text@),
                self.kind == kind,
                self.session_id@ == id,
                self.state is Streaming,
                old(self)@.state is Streaming,
                old(self)@.kind == kind,
                old(self)@.session_id == id,
                self.lines@ == remainder(old(self)@.pending + text@),
                records_events(kind, id, all) == events.deep_view() + records_events(
                    kind,
                    id,
                    all.skip(i as int),
                ),
                forall|j: int| 0 <= j < events.len() ==> !(#[trigger] events.deep_view()[j] is Done),
            decreases complete.len() - i,
        {
            let mut more = decode_record(
                self.kind,
                complete[i].as_str(),
                self.session_id.as_str(),
            );
            let closes = more.len() > 0 && more[more.len() - 1].is_done();
            let ghost rest = all.skip(i as int);
            let ghost earlier = events.deep_view();
            let ghost head = more.deep_view();
            proof {
                assert(rest[0] == complete[i as int]@);
                assert(rest.drop_first() =~= all.skip(i + 1));
                assert(head == record_events(kind, id, rest[0]));
                assert(closes == ends_with_done(head));
                lemma_record_events_form(kind, id, rest[0]);
            }
            events.append(&mut more);
            assert(events.deep_view() =~= earlier + head);
            if closes {
                self.state = SessionState::Closed;
                assert(events.deep_view() =~= records_events(kind, id, all));
                assert(events.deep_view().last() == head.last());
                return events;
            }
            assert(earlier + (head + records_events(kind, id, rest.drop_first())) =~= (earlier
                + head) + records_events(kind, id, rest.drop_first()));
            i += 1;
        }
        assert(events.deep_view() =~= records_events(kind, id, all));
        events
    }

    /// Takes in what the transport delivered and returns the events that go
    /// out for it, in the order in which they are to be forwarded.
    pub fn step(&mut self, input: TransportEvent) -> (events: Vec<StreamEvent>)
        ensures
            (final(self)@, events.deep_view()) == old(self)@.step(input@),
    {
        let mut events: Vec<StreamEvent> = Vec::new();
        assert(events.deep_view() =~= Seq::<Event>::empty());
        match self.state {
            SessionState::Opening => match input {
                TransportEvent::Response { status, reason } => {
                    if is_success(status) {
                        self.state = SessionState::Streaming;
                    } else {
                        self.state = SessionState::Failed;
                        events.push(
                            StreamEvent::Error {
                                message: status_failure_message(status, reason.as_str()),
                            },
                        );
                        assert(events.deep_view() =~= seq![
                            Event::Error { message: status_failure(status, reason@) },
                        ]);
                    }
                },
                TransportEvent::Failure(message) => {
                    self.state = SessionState::Failed;
                    events.push(StreamEvent::Error { message });
                    assert(events.deep_view() =~= old(self)@.fail(input@->Failure_0).1);
                },
                _ => {},
            },
            SessionState::Streaming => match input {
                TransportEvent::Chunk(bytes) => {
                    let text = decode_lossy(bytes.as_slice());
                    return self.take_text(text.as_str());
                },
                TransportEvent::End => {
                    self.state = SessionState::Completing;
                    return self.complete();
                },
                TransportEvent::Failure(message) => {
                    self.state = SessionState::Failed;
                    events.push(StreamEvent::Error { message });
                    assert(events.deep_view() =~= old(self)@.fail(input@->Failure_0).1);
                },
                TransportEvent::Response { .. } => {},
            },
            SessionState::Completing => {
                return self.complete();
            },
            SessionState::Closed => {},
            SessionState::Failed => {},
        }
        events
    }

    /// Closes a session whose transport ran dry: the `Done` that no record
    /// brought goes out now.
    fn complete(&mut self) -> (events: Vec<StreamEvent>)
        requires
            old(self)@.state is Completing,
        ensures
            (final(self)@, events.deep_view()) == old(self)@.complete(),
    {
        let mut events: Vec<StreamEvent> = Vec::new();
        self.state = SessionState::Closed;
        events.push(StreamEvent::Done { session_id: self.session_id.clone() });
        assert(events.deep_view() =~= seq![Event::Done { session_id: self.session_id@ }]);
        events
    }
}

} // verus!
