use redqueue::queue::{fetch_commands, gather_found, publish_commands, range_command, remove_commands};
use redqueue::{Message, StoreCommand};

const ID: u128 = 0x67e5_5044_10b1_426f_9247_bb68_0e5c_fe33;

#[test]
fn publish_stores_text_then_prepends_id() {
    let m = Message::from_parts(ID, "test_polling".to_string(), b"Message 0".to_vec(), 1);
    let commands = publish_commands("test_polling", &m, "{\"json\":1}".to_string());
    assert_eq!(
        commands,
        vec![
            StoreCommand::SetText {
                key: "message:test_polling:67e55044-10b1-426f-9247-bb680e5cfe33".to_string(),
                value: "{\"json\":1}".to_string(),
            },
            StoreCommand::LPush {
                key: "topic:test_polling:messages".to_string(),
                value: "67e55044-10b1-426f-9247-bb680e5cfe33".to_string(),
            },
        ]
    );
}

#[test]
fn publish_keys_follow_the_topic_argument() {
    let m = Message::from_parts(0, "elsewhere".to_string(), Vec::new(), 1);
    let commands = publish_commands("here", &m, "x".to_string());
    assert_eq!(
        commands[0],
        StoreCommand::SetText {
            key: "message:here:00000000-0000-0000-0000-000000000000".to_string(),
            value: "x".to_string(),
        }
    );
    assert_eq!(
        commands[1],
        StoreCommand::LPush {
            key: "topic:here:messages".to_string(),
            value: "00000000-0000-0000-0000-000000000000".to_string(),
        }
    );
}

#[test]
fn id_text_is_lowercase_hyphenated() {
    let m = Message::from_parts(u128::MAX, "t".to_string(), Vec::new(), 1);
    match &publish_commands("t", &m, String::new())[1] {
        StoreCommand::LPush { value, .. } => {
            assert_eq!(value, "ffffffff-ffff-ffff-ffff-ffffffffffff")
        }
        other => panic!("unexpected {:?}", other),
    }
}

#[test]
fn range_reads_count_newest_positions() {
    assert_eq!(
        range_command("test_topic", 10),
        Some(StoreCommand::LRange { key: "topic:test_topic:messages".to_string(), start: 0, stop: 9 })
    );
    assert_eq!(
        range_command("t", 1),
        Some(StoreCommand::LRange { key: "topic:t:messages".to_string(), start: 0, stop: 0 })
    );
}

#[test]
fn range_of_zero_or_less_reads_nothing() {
    assert_eq!(range_command("t", 0), None);
    assert_eq!(range_command("t", -3), None);
    assert_eq!(range_command("t", isize::MIN), None);
}

#[test]
fn fetch_reads_each_id_in_order() {
    let ids = vec!["b".to_string(), "a".to_string()];
    assert_eq!(
        fetch_commands("t", &ids),
        vec![
            StoreCommand::Get { key: "message:t:b".to_string() },
            StoreCommand::Get { key: "message:t:a".to_string() },
        ]
    );
    assert!(fetch_commands("t", &Vec::new()).is_empty());
}

#[test]
fn gather_keeps_found_in_order() {
    assert_eq!(gather_found(vec![Some(3), None, Some(1), None]), vec![3, 1]);
    assert_eq!(gather_found::<u8>(vec![None, None]), Vec::<u8>::new());
    assert_eq!(gather_found::<u8>(Vec::new()), Vec::<u8>::new());
}

#[test]
fn remove_drops_id_from_list_then_deletes_entry() {
    assert_eq!(
        remove_commands("test_topic", "67e55044-10b1-426f-9247-bb680e5cfe33"),
        vec![
            StoreCommand::LRemAll {
                key: "topic:test_topic:messages".to_string(),
                value: "67e55044-10b1-426f-9247-bb680e5cfe33".to_string(),
            },
            StoreCommand::Del {
                key: "message:test_topic:67e55044-10b1-426f-9247-bb680e5cfe33".to_string(),
            },
        ]
    );
}
