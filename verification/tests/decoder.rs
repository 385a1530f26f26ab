use ollama_stream::decoder::{
    decode_chat, decode_document, decode_pull, decode_record, StreamKind,
};
use ollama_stream::event::StreamEvent;
use ollama_stream::json::JsonValue;

fn token(text: &str, id: &str) -> StreamEvent {
    StreamEvent::Token { text: text.to_string(), session_id: id.to_string() }
}

fn done(id: &str) -> StreamEvent {
    StreamEvent::Done { session_id: id.to_string() }
}

fn progress(status: &str, completed: Option<u64>, total: Option<u64>) -> StreamEvent {
    StreamEvent::Progress { status: status.to_string(), completed, total }
}

fn chat(record: &str) -> Vec<StreamEvent> {
    decode_record(StreamKind::Chat, record, "c1")
}

fn pull(record: &str) -> Vec<StreamEvent> {
    decode_record(StreamKind::Pull, record, "m")
}

#[test]
fn a_chat_record_with_content_gives_a_token() {
    assert_eq!(chat("{\"message\":{\"content\":\"hi\"}}"), vec![token("hi", "c1")]);
    assert_eq!(
        chat("{\"message\":{\"role\":\"assistant\",\"content\":\"hi\"},\"done\":false}"),
        vec![token("hi", "c1")]
    );
}

#[test]
fn a_chat_record_with_done_gives_done() {
    assert_eq!(chat("{\"done\":true}"), vec![done("c1")]);
    assert_eq!(chat("{\"message\":{\"content\":\"\"},\"done\":true}"), vec![done("c1")]);
    assert_eq!(chat("{\"message\":null,\"done\":true}"), vec![done("c1")]);
}

#[test]
fn a_final_token_comes_before_its_done() {
    assert_eq!(
        chat("{\"message\":{\"content\":\"bye\"},\"done\":true}"),
        vec![token("bye", "c1"), done("c1")]
    );
    assert_eq!(
        chat("{\"done\":true,\"message\":{\"content\":\"bye\"}}"),
        vec![token("bye", "c1"), done("c1")]
    );
}

#[test]
fn empty_content_is_suppressed() {
    assert_eq!(chat("{\"message\":{\"content\":\"\"},\"done\":false}"), vec![]);
}

#[test]
fn absence_of_done_means_not_done() {
    assert_eq!(chat("{}"), vec![]);
    assert_eq!(chat("{\"done\":null}"), vec![]);
    assert_eq!(chat("{\"done\":false}"), vec![]);
    assert_eq!(chat("{\"message\":{}}"), vec![]);
    assert_eq!(chat("{\"message\":{\"content\":null}}"), vec![]);
}

#[test]
fn unknown_members_are_passed_over() {
    assert_eq!(
        chat("{\"model\":\"x\",\"created_at\":\"now\",\"message\":{\"content\":\"a\",\"images\":[]},\"eval_count\":3}"),
        vec![token("a", "c1")]
    );
}

#[test]
fn a_chat_record_of_another_shape_gives_nothing() {
    assert_eq!(chat("not json at all"), vec![]);
    assert_eq!(chat("{\"message\":{\"content\":\"hi\""), vec![]);
    assert_eq!(chat("42"), vec![]);
    assert_eq!(chat("\"done\""), vec![]);
    assert_eq!(chat("null"), vec![]);
    assert_eq!(chat("[{\"content\":\"hi\"},true]"), vec![]);
    assert_eq!(chat("{\"message\":\"hi\"}"), vec![]);
    assert_eq!(chat("{\"message\":[\"hi\"]}"), vec![]);
    assert_eq!(chat("{\"message\":{\"content\":5}}"), vec![]);
    assert_eq!(chat("{\"done\":1}"), vec![]);
    assert_eq!(chat("{\"done\":\"true\"}"), vec![]);
}

#[test]
fn one_wrong_member_spoils_the_whole_chat_record() {
    assert_eq!(chat("{\"message\":{\"content\":\"hi\"},\"done\":\"yes\"}"), vec![]);
    assert_eq!(chat("{\"message\":{\"content\":7},\"done\":true}"), vec![]);
    assert_eq!(chat("{\"message\":3,\"done\":true}"), vec![]);
}

#[test]
fn a_blank_record_gives_nothing() {
    assert_eq!(chat(""), vec![]);
    assert_eq!(pull(""), vec![]);
}

#[test]
fn the_token_carries_the_content_as_it_is() {
    assert_eq!(chat("{\"message\":{\"content\":\" \"}}"), vec![token(" ", "c1")]);
    assert_eq!(chat("{\"message\":{\"content\":\"a\\nb\"}}"), vec![token("a\nb", "c1")]);
    assert_eq!(chat("{\"message\":{\"content\":\"é✓\"}}"), vec![token("é✓", "c1")]);
}

#[test]
fn events_carry_the_session_id_they_were_decoded_for() {
    let record = "{\"message\":{\"content\":\"x\"},\"done\":true}";
    assert_eq!(
        decode_record(StreamKind::Chat, record, "other"),
        vec![token("x", "other"), done("other")]
    );
    assert_eq!(decode_record(StreamKind::Chat, record, ""), vec![token("x", ""), done("")]);
}

#[test]
fn a_pull_record_gives_progress_with_what_it_holds() {
    assert_eq!(
        pull("{\"status\":\"downloading\",\"completed\":10,\"total\":100}"),
        vec![progress("downloading", Some(10), Some(100))]
    );
    assert_eq!(pull("{\"status\":\"pulling layers\"}"), vec![progress("pulling layers", None, None)]);
    assert_eq!(pull("{\"completed\":0}"), vec![progress("", Some(0), None)]);
    assert_eq!(pull("{\"total\":18446744073709551615}"), vec![progress("", None, Some(u64::MAX))]);
    assert_eq!(pull("{}"), vec![progress("", None, None)]);
}

#[test]
fn an_absent_count_is_unknown_not_zero() {
    assert_eq!(pull("{\"status\":\"s\",\"total\":5}"), vec![progress("s", None, Some(5))]);
    assert_ne!(pull("{\"status\":\"s\",\"total\":5}"), vec![progress("s", Some(0), Some(5))]);
}

#[test]
fn a_pull_member_of_another_type_counts_as_absent() {
    assert_eq!(
        pull("{\"status\":7,\"completed\":\"3\",\"total\":-1}"),
        vec![progress("", None, None)]
    );
    assert_eq!(pull("{\"status\":null,\"completed\":1.5,\"total\":null}"), vec![progress("", None, None)]);
}

#[test]
fn a_pull_record_has_no_done() {
    assert_eq!(
        pull("{\"status\":\"success\",\"done\":true}"),
        vec![progress("success", None, None)]
    );
}

#[test]
fn a_pull_record_that_is_no_object_gives_nothing() {
    assert_eq!(pull("garbage"), vec![]);
    assert_eq!(pull("42"), vec![]);
    assert_eq!(pull("[]"), vec![]);
    assert_eq!(pull("null"), vec![]);
    assert_eq!(pull("\"status\""), vec![]);
}

#[test]
fn decode_chat_reads_a_document_built_by_hand() {
    let doc = JsonValue::Object(vec![
        (
            "message".to_string(),
            JsonValue::Object(vec![("content".to_string(), JsonValue::Text("hi".to_string()))]),
        ),
        ("done".to_string(), JsonValue::Bool(true)),
    ]);
    assert_eq!(decode_chat(&doc, "c1"), vec![token("hi", "c1"), done("c1")]);
    assert_eq!(decode_document(StreamKind::Chat, &doc, "c1"), vec![token("hi", "c1"), done("c1")]);
    assert_eq!(decode_document(StreamKind::Pull, &doc, "c1"), vec![progress("", None, None)]);
}

#[test]
fn decode_chat_of_what_is_no_object_gives_nothing() {
    assert_eq!(decode_chat(&JsonValue::Null, "c1"), vec![]);
    assert_eq!(decode_chat(&JsonValue::Bool(true), "c1"), vec![]);
    assert_eq!(decode_chat(&JsonValue::Array(vec![]), "c1"), vec![]);
}

#[test]
fn decode_pull_reads_a_document_built_by_hand() {
    let doc = JsonValue::Object(vec![
        ("status".to_string(), JsonValue::Text("verifying".to_string())),
        ("completed".to_string(), JsonValue::Number(Some(3))),
        ("total".to_string(), JsonValue::Number(None)),
    ]);
    assert_eq!(decode_pull(&doc), Some(progress("verifying", Some(3), None)));
    assert_eq!(decode_pull(&JsonValue::Number(Some(3))), None);
}
