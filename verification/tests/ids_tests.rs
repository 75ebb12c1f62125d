use redqueue::ids::{message_id_text, parse_message_id};

const ID: u128 = 0x67e5_5044_10b1_426f_9247_bb68_0e5c_fe33;

#[test]
fn id_text_is_hyphenated_lowercase() {
    assert_eq!(message_id_text(ID), "67e55044-10b1-426f-9247-bb680e5cfe33");
    assert_eq!(message_id_text(0), "00000000-0000-0000-0000-000000000000");
}

#[test]
fn id_text_reads_back() {
    assert_eq!(parse_message_id(&message_id_text(ID)), Some(ID));
    assert_eq!(parse_message_id("67E55044-10B1-426F-9247-BB680E5CFE33"), Some(ID));
    assert_eq!(parse_message_id("67e5504410b1426f9247bb680e5cfe33"), Some(ID));
}

#[test]
fn non_id_text_is_refused() {
    assert_eq!(parse_message_id("not an id"), None);
    assert_eq!(parse_message_id("67e55044-10b1-426f-9247-bb680e5cfe3g"), None);
    assert_eq!(parse_message_id(""), None);
}
