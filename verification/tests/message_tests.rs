use redqueue::{AckMessage, Message};

#[test]
fn from_parts_keeps_every_part() {
    let m = Message::from_parts(7, "news".to_string(), vec![1, 2, 3], 1_700_000_000);
    assert_eq!(m.id, 7);
    assert_eq!(m.topic, "news");
    assert_eq!(m.payload, vec![1, 2, 3]);
    assert_eq!(m.timestamp, 1_700_000_000);
    assert_eq!(m.metadata, "null");
}

#[test]
fn new_message_has_topic_payload_and_no_metadata() {
    let m = Message::new("test_topic".to_string(), "test content".as_bytes().to_vec())
        .expect("the clock reads after the Unix epoch");
    assert_eq!(m.topic, "test_topic");
    assert_eq!(m.payload, b"test content".to_vec());
    assert_eq!(m.metadata, "null");
    assert!(m.timestamp > 1_600_000_000);
}

#[test]
fn new_message_id_is_random_version_4() {
    let m = Message::new("t".to_string(), Vec::new()).unwrap();
    assert_eq!((m.id >> 76) & 0xf, 4);
    assert_eq!((m.id >> 62) & 0x3, 2);
}

#[test]
fn new_messages_get_distinct_ids() {
    let a = Message::new("t".to_string(), Vec::new()).unwrap();
    let b = Message::new("t".to_string(), Vec::new()).unwrap();
    assert_ne!(a.id, b.id);
}

#[test]
fn ack_message_carries_data_or_id() {
    let m = Message::from_parts(1, "t".to_string(), vec![9], 5);
    let data = AckMessage::Data(m.clone());
    let ack = AckMessage::Ack(m.id);
    assert_eq!(data, AckMessage::Data(m));
    assert_eq!(ack, AckMessage::Ack(1));
}
