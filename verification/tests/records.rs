use ollama_stream::api::{models_or_none, ChatMessage, OllamaModel};
use ollama_stream::store::{Conversation, Message};
use ollama_stream::system::{disk_usage, server_status, DiskSpace, DiskUsage};

#[test]
fn a_new_conversation_has_not_been_updated_since_its_creation() {
    let created = Conversation::new(
        "id-1".to_string(),
        "First chat".to_string(),
        "llama3".to_string(),
        "2024-05-01T10:00:00+00:00".to_string(),
    );
    assert_eq!(created.id, "id-1");
    assert_eq!(created.title, "First chat");
    assert_eq!(created.model, "llama3");
    assert_eq!(created.created_at, "2024-05-01T10:00:00+00:00");
    assert_eq!(created.updated_at, created.created_at);
}

#[test]
fn a_new_message_keeps_what_it_was_given() {
    let saved = Message::new(
        "m-1".to_string(),
        "id-1".to_string(),
        "user".to_string(),
        "hello".to_string(),
        "2024-05-01T10:00:01+00:00".to_string(),
    );
    assert_eq!(
        saved,
        Message {
            id: "m-1".to_string(),
            conversation_id: "id-1".to_string(),
            role: "user".to_string(),
            content: "hello".to_string(),
            created_at: "2024-05-01T10:00:01+00:00".to_string(),
        }
    );
}

#[test]
fn a_listing_without_models_is_empty() {
    assert_eq!(models_or_none(None), vec![]);
    let model = OllamaModel {
        name: "llama3".to_string(),
        size: 4_661_224_676,
        digest: "abc".to_string(),
        modified_at: "now".to_string(),
    };
    assert_eq!(models_or_none(Some(vec![model.clone()])), vec![model]);
    assert_eq!(models_or_none(Some(vec![])), vec![]);
}

#[test]
fn a_chat_message_is_its_role_and_content() {
    let message = ChatMessage { role: "user".to_string(), content: "hi".to_string() };
    assert_eq!(message.clone(), message);
    assert_eq!(message.role, "user");
    assert_eq!(message.content, "hi");
}

#[test]
fn disk_space_is_summed_over_the_disks() {
    assert_eq!(disk_usage(&vec![]), Some(DiskUsage { total: 0, used: 0 }));
    let disks = vec![
        DiskSpace { total: 100, available: 40 },
        DiskSpace { total: 50, available: 50 },
        DiskSpace { total: 7, available: 0 },
    ];
    assert_eq!(disk_usage(&disks), Some(DiskUsage { total: 157, used: 67 }));
}

#[test]
fn disk_space_up_to_the_limit_is_summed() {
    let disks = vec![
        DiskSpace { total: u64::MAX - 1, available: 0 },
        DiskSpace { total: 1, available: 1 },
    ];
    assert_eq!(disk_usage(&disks), Some(DiskUsage { total: u64::MAX, used: u64::MAX - 1 }));
}

#[test]
fn disk_space_beyond_the_limit_has_no_sum() {
    let disks = vec![
        DiskSpace { total: u64::MAX, available: 0 },
        DiskSpace { total: 1, available: 1 },
    ];
    assert_eq!(disk_usage(&disks), None);
}

#[test]
fn a_disk_with_more_available_than_total_has_no_sum() {
    let disks = vec![
        DiskSpace { total: 10, available: 5 },
        DiskSpace { total: 10, available: 11 },
    ];
    assert_eq!(disk_usage(&disks), None);
}

#[test]
fn the_server_is_online_where_the_probe_succeeded() {
    assert_eq!(server_status(Some(200)), "online");
    assert_eq!(server_status(Some(204)), "online");
    assert_eq!(server_status(Some(404)), "offline");
    assert_eq!(server_status(Some(500)), "offline");
    assert_eq!(server_status(None), "offline");
}
