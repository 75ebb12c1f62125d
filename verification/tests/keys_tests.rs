use redqueue::keys::{message_key, topic_key};

#[test]
fn topic_key_names_the_topic_list() {
    assert_eq!(topic_key("test_topic"), "topic:test_topic:messages");
}

#[test]
fn topic_key_of_empty_topic() {
    assert_eq!(topic_key(""), "topic::messages");
}

#[test]
fn message_key_names_topic_and_id() {
    assert_eq!(
        message_key("test_polling", "67e55044-10b1-426f-9247-bb680e5cfe33"),
        "message:test_polling:67e55044-10b1-426f-9247-bb680e5cfe33"
    );
}

#[test]
fn topic_and_message_keys_differ_for_colon_topics() {
    // A topic that itself holds colons still gets keys of the documented shape.
    assert_eq!(topic_key("a:b"), "topic:a:b:messages");
    assert_eq!(message_key("a:b", "c"), "message:a:b:c");
    assert_ne!(topic_key("a"), message_key("a", "messages"));
}
