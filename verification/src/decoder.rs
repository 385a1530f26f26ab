//! The record decoder: from one text record to the events that it stands for.
//!
//! A record that is not JSON, or that does not have the shape its stream
//! calls for, stands for no event. It is passed over in silence: garbled
//! output must not end a stream that is otherwise healthy.

use crate::event::{Event, StreamEvent};
use crate::json::{json_document, parse_document, JsonDoc, JsonValue};
use vstd::prelude::*;

verus! {

/// The wire shape of a stream, and with it the way the stream ends.
#[derive(Debug, Clone, Copy, PartialEq, Eq, Structural)]
pub enum StreamKind {
    /// Chat records, `{ "message": { "content": string? }, "done": bool? }`.
    /// A record with `done` set ends the stream.
    Chat,
    /// Pull records, `{ "status": string?, "completed": uint?, "total": uint? }`.
    /// No record ends the stream.
    Pull,
}

/// What a chat record says, once its shape has been checked.
pub struct ChatChunk {
    /// The text of `message.content`, if the record gives one.
    pub content: Option<Seq<char>>,
    /// The flag `done`, if the record gives one.
    pub done: Option<bool>,
}

/// The text of `content` in a chat record's `message`: `Some(None)` where
/// the record has no message or the message no content, `None` where one of
/// the two is there and is not what the shape asks for.
pub open spec fn chat_content(doc: JsonDoc) -> Option<Option<Seq<char>>> {
    match doc.field("message"@) {
        None => Some(None),
        Some(JsonDoc::Object(members)) => match JsonDoc::Object(members).field("content"@) {
            None => Some(None),
            Some(JsonDoc::Text(text)) => Some(Some(text)),
            Some(_) => None,
        },
        Some(_) => None,
    }
}

/// The flag `done` of a chat record: `Some(None)` where the record has none,
/// `None` where it is no boolean.
pub open spec fn chat_done(doc: JsonDoc) -> Option<Option<bool>> {
    match doc.field("done"@) {
        None => Some(None),
        Some(JsonDoc::Bool(flag)) => Some(Some(flag)),
        Some(_) => None,
    }
}

/// Reads `doc` as a chat record; `None` where it does not have the shape:
/// it is no object, `message` is neither absent nor an object, `content` is
/// neither absent nor a string, or `done` is neither absent nor a boolean.
pub open spec fn chat_chunk(doc: JsonDoc) -> Option<ChatChunk> {
    if doc is Object && chat_content(doc) is Some && chat_done(doc) is Some {
        Some(ChatChunk { content: chat_content(doc)->0, done: chat_done(doc)->0 })
    } else {
        None
    }
}

/// The events of a chat record: a `Token` if it carries text that is not
/// empty, then a `Done` if it says so. Absence of `done` means "not done".
pub open spec fn chat_events(chunk: ChatChunk, session_id: Seq<char>) -> Seq<Event> {
    let token = match chunk.content {
        Some(text) if text.len() > 0 => seq![Event::Token { text, session_id }],
        _ => seq![],
    };
    let done = if chunk.done == Some(true) {
        seq![Event::Done { session_id }]
    } else {
        seq![]
    };
    token + done
}

/// The `Progress` event of a pull record, `None` where `doc` is no object.
/// A status that is missing or no string reads as the empty string; a count
/// that is missing or no unsigned integer is unknown.
pub open spec fn pull_progress(doc: JsonDoc) -> Option<Event> {
    if doc is Object {
        Some(
            Event::Progress {
                status: match doc.member("status"@) {
                    Some(JsonDoc::Text(text)) => text,
                    _ => Seq::empty(),
                },
                completed: match doc.member("completed"@) {
                    Some(JsonDoc::Number(count)) => count,
                    _ => None,
                },
                total: match doc.member("total"@) {
                    Some(JsonDoc::Number(count)) => count,
                    _ => None,
                },
            },
        )
    } else {
        None
    }
}

/// The events that the document of one record stands for in a stream of the
/// given kind.
pub open spec fn document_events(kind: StreamKind, session_id: Seq<char>, doc: JsonDoc) -> Seq<
    Event,
> {
    match kind {
        StreamKind::Chat => match chat_chunk(doc) {
            Some(chunk) => chat_events(chunk, session_id),
            None => seq![],
        },
        StreamKind::Pull => match pull_progress(doc) {
            Some(event) => seq![event],
            None => seq![],
        },
    }
}

/// The events that one text record stands for: none for a blank record and
/// for one that is not JSON, else those of its document.
pub open spec fn record_events(kind: StreamKind, session_id: Seq<char>, record: Seq<char>) -> Seq<
    Event,
> {
    if record.len() == 0 {
        seq![]
    } else {
        match json_document(record) {
            Some(doc) => document_events(kind, session_id, doc),
            None => seq![],
        }
    }
}

/// Whether `events` ends with a `Done`.
pub open spec fn ends_with_done(events: Seq<Event>) -> bool {
    events.len() > 0 && events.last() is Done
}

/// What the events of one record can be: at most a content event followed
/// by a `Done`. None is an `Error`, a `Done` comes last and only in a chat
/// stream, a `Token` or `Done` carries the given session id, and no `Token`
/// is empty.
pub proof fn lemma_record_events_form(kind: StreamKind, session_id: Seq<char>, record: Seq<char>)
    ensures
        record_events(kind, session_id, record).len() <= 2,
        forall|i: int|
            0 <= i < record_events(kind, session_id, record).len() ==> match #[trigger] record_events(
                kind,
                session_id,
                record,
            )[i] {
                Event::Token { text, session_id: id } => id == session_id && text.len() > 0,
                Event::Done { session_id: id } => id == session_id,
                _ => true,
            },
        forall|i: int|
            0 <= i < record_events(kind, session_id, record).len() - 1 ==> !(
            #[trigger] record_events(kind, session_id, record)[i]).is_terminal(),
        forall|i: int|
            0 <= i < record_events(kind, session_id, record).len() ==> !(#[trigger] record_events(
                kind,
                session_id,
                record,
            )[i] is Error),
        ends_with_done(record_events(kind, session_id, record)) ==> kind == StreamKind::Chat
            && record_events(kind, session_id, record).last() == (Event::Done { session_id }),
{
}

/// Decodes the document of a chat record into its events, `Token` before
/// `Done`.
pub fn decode_chat(doc: &JsonValue, session_id: &str) -> (events: Vec<StreamEvent>)
    ensures
        events.deep_view() == document_events(StreamKind::Chat, session_id@, doc@),
{
    let mut events: Vec<StreamEvent> = Vec::new();
    match doc {
        JsonValue::Object(_) => {},
        _ => {
            assert(events.deep_view() =~= Seq::<Event>::empty());
            return events;
        },
    }
    let content: Option<&String> = match doc.field("message") {
        None => None,
        Some(message) => match message {
            JsonValue::Object(_) => match message.field("content") {
                None => None,
                Some(JsonValue::Text(text)) => Some(text),
                Some(_) => {
                    assert(events.deep_view() =~= Seq::<Event>::empty());
                    return events;
                },
            },
            _ => {
                assert(events.deep_view() =~= Seq::<Event>::empty());
                return events;
            },
        },
    };
    let done: Option<bool> = match doc.field("done") {
        None => None,
        Some(JsonValue::Bool(flag)) => Some(*flag),
        Some(_) => {
            assert(events.deep_view() =~= Seq::<Event>::empty());
            return events;
        },
    };
    proof {
        assert(chat_content(doc@) == Some(
            match content {
                Some(text) => Some(text@),
                None => None,
            },
        ));
        assert(chat_done(doc@) == Some(done));
    }
    if let Some(text) = content {
        if !text.as_str().is_empty() {
            events.push(
                StreamEvent::Token { text: text.clone(), session_id: session_id.to_owned() },
            );
        }
    }
    if let Some(true) = done {
        events.push(StreamEvent::Done { session_id: session_id.to_owned() });
    }
    assert(events.deep_view() =~= chat_events(chat_chunk(doc@)->0, session_id@));
    events
}

/// Decodes the document of a pull record into its `Progress` event.
pub fn decode_pull(doc: &JsonValue) -> (event: Option<StreamEvent>)
    ensures
        event.deep_view() == pull_progress(doc@),
{
    match doc {
        JsonValue::Object(_) => {},
        _ => {
            return None;
        },
    }
    let status = match doc.member("status") {
        Some(JsonValue::Text(text)) => text.clone(),
        _ => String::new(),
    };
    let completed = match doc.member("completed") {
        Some(JsonValue::Number(count)) => *count,
        _ => None,
    };
    let total = match doc.member("total") {
        Some(JsonValue::Number(count)) => *count,
        _ => None,
    };
    Some(StreamEvent::Progress { status, completed, total })
}

/// Decodes the document of one record of a stream of the given kind.
pub fn decode_document(kind: StreamKind, doc: &JsonValue, session_id: &str) -> (events: Vec<
    StreamEvent,
>)
    ensures
        events.deep_view() == document_events(kind, session_id@, doc@),
{
    match kind {
        StreamKind::Chat => decode_chat(doc, session_id),
        StreamKind::Pull => {
            let mut events: Vec<StreamEvent> = Vec::new();
            if let Some(event) = decode_pull(doc) {
                events.push(event);
            }
            assert(events.deep_view() =~= document_events(kind, session_id@, doc@));
            events
        },
    }
}

/// Decodes one text record of a stream of the given kind. A blank record, one
/// that is not JSON and one of another shape give no event.
pub fn decode_record(kind: StreamKind, record: &str, session_id: &str) -> (events: Vec<
    StreamEvent,
>)
    ensures
        events.deep_view() == record_events(kind, session_id@, record@),
{
    if record.is_empty() {
        let events: Vec<StreamEvent> = Vec::new();
        assert(events.deep_view() =~= Seq::<Event>::empty());
        return events;
    }
    match parse_document(record) {
        Some(doc) => decode_document(kind, &doc, session_id),
        None => {
            let events: Vec<StreamEvent> = Vec::new();
            assert(events.deep_view() =~= Seq::<Event>::empty());
            events
        },
    }
}

} // verus!
