//! Publishing and reading against an in-memory store that follows the
//! documented semantics of the store commands.

use redqueue::ids::message_id_text;
use redqueue::queue::{fetch_commands, gather_found, publish_commands, range_command, remove_commands};
use redqueue::{Message, StoreCommand};
use std::collections::HashMap;

enum Value {
    Text(String),
    List(Vec<String>),
}

#[derive(Default)]
struct MemoryStore {
    entries: HashMap<String, Value>,
}

impl MemoryStore {
    fn write(&mut self, command: &StoreCommand) {
        match command {
            StoreCommand::SetText { key, value } => {
                self.entries.insert(key.clone(), Value::Text(value.clone()));
            }
            StoreCommand::LPush { key, value } => match self.entries.get_mut(key) {
                Some(Value::List(items)) => items.insert(0, value.clone()),
                Some(Value::Text(_)) => panic!("wrong type"),
                None => {
                    self.entries.insert(key.clone(), Value::List(vec![value.clone()]));
                }
            },
            StoreCommand::Del { key } => {
                self.entries.remove(key);
            }
            StoreCommand::LRemAll { key, value } => {
                let emptied = match self.entries.get_mut(key) {
                    Some(Value::List(items)) => {
                        items.retain(|item| item != value);
                        items.is_empty()
                    }
                    Some(Value::Text(_)) => panic!("wrong type"),
                    None => false,
                };
                if emptied {
                    self.entries.remove(key);
                }
            }
            other => panic!("not a write: {:?}", other),
        }
    }

    fn range(&self, command: &StoreCommand) -> Vec<String> {
        match command {
            StoreCommand::LRange { key, start, stop } => match self.entries.get(key) {
                Some(Value::List(items)) => {
                    let len = items.len() as isize;
                    let mut from = if *start < 0 { len + start } else { *start };
                    let mut to = if *stop < 0 { len + stop } else { *stop };
                    if from < 0 {
                        from = 0;
                    }
                    if from > to || from >= len {
                        return Vec::new();
                    }
                    if to >= len {
                        to = len - 1;
                    }
                    items[from as usize..=to as usize].to_vec()
                }
                _ => Vec::new(),
            },
            other => panic!("not a range read: {:?}", other),
        }
    }

    fn get(&self, command: &StoreCommand) -> Option<String> {
        match command {
            StoreCommand::Get { key } => match self.entries.get(key) {
                Some(Value::Text(text)) => Some(text.clone()),
                _ => None,
            },
            other => panic!("not a read: {:?}", other),
        }
    }
}

fn publish(store: &mut MemoryStore, topic: &str, message: &Message) {
    let text = format!("{}|{}", message.id, String::from_utf8_lossy(&message.payload));
    for command in publish_commands(topic, message, text) {
        store.write(&command);
    }
}

fn read(store: &MemoryStore, topic: &str, count: isize) -> Vec<String> {
    let ids = match range_command(topic, count) {
        Some(command) => store.range(&command),
        None => Vec::new(),
    };
    let texts: Vec<Option<String>> =
        fetch_commands(topic, &ids).iter().map(|c| store.get(c)).collect();
    gather_found(texts)
        .into_iter()
        .map(|t| t.split('|').nth(1).unwrap().to_string())
        .collect()
}

fn publish_five(store: &mut MemoryStore, topic: &str) {
    for i in 0..5u128 {
        let m = Message::from_parts(i + 1, topic.to_string(), format!("Message {}", i).into_bytes(), 1);
        publish(store, topic, &m);
    }
}

#[test]
fn read_gives_back_all_five_published() {
    let mut store = MemoryStore::default();
    publish_five(&mut store, "test_polling");
    let read_back = read(&store, "test_polling", 5);
    assert_eq!(read_back.len(), 5);
    assert_eq!(read_back, vec!["Message 4", "Message 3", "Message 2", "Message 1", "Message 0"]);
}

#[test]
fn read_gives_back_newest_first_up_to_count() {
    let mut store = MemoryStore::default();
    publish_five(&mut store, "t");
    assert_eq!(read(&store, "t", 2), vec!["Message 4", "Message 3"]);
    assert_eq!(read(&store, "t", 10).len(), 5);
}

#[test]
fn read_of_zero_gives_back_nothing() {
    let mut store = MemoryStore::default();
    publish_five(&mut store, "t");
    assert!(read(&store, "t", 0).is_empty());
}

#[test]
fn read_of_negative_count_gives_back_nothing() {
    let mut store = MemoryStore::default();
    publish_five(&mut store, "t");
    assert!(read(&store, "t", -2).is_empty());
    assert!(read(&store, "t", isize::MIN).is_empty());
}

#[test]
fn read_puts_new_messages_before_older_list() {
    let mut store = MemoryStore::default();
    publish_five(&mut store, "t");
    let m = Message::from_parts(42, "t".to_string(), b"newest".to_vec(), 1);
    publish(&mut store, "t", &m);
    assert_eq!(read(&store, "t", 2), vec!["newest", "Message 4"]);
    assert_eq!(read(&store, "t", 10).len(), 6);
}

#[test]
fn topics_do_not_mix() {
    let mut store = MemoryStore::default();
    publish_five(&mut store, "a");
    let m = Message::from_parts(99, "b".to_string(), b"only b".to_vec(), 1);
    publish(&mut store, "b", &m);
    assert_eq!(read(&store, "b", 10), vec!["only b"]);
    assert_eq!(read(&store, "a", 10).len(), 5);
    assert!(read(&store, "c", 10).is_empty());
}

#[test]
fn missing_entries_are_skipped() {
    let mut store = MemoryStore::default();
    publish_five(&mut store, "t");
    let m = Message::from_parts(3, "t".to_string(), Vec::new(), 1);
    let commands = publish_commands("t", &m, String::new());
    if let StoreCommand::SetText { key, .. } = &commands[0] {
        store.write(&StoreCommand::Del { key: key.clone() });
    }
    assert_eq!(read(&store, "t", 5), vec!["Message 4", "Message 3", "Message 1", "Message 0"]);
}

#[test]
fn removed_message_is_not_read_again() {
    let mut store = MemoryStore::default();
    publish_five(&mut store, "t");
    for command in remove_commands("t", &message_id_text(3)) {
        store.write(&command);
    }
    assert_eq!(read(&store, "t", 10), vec!["Message 4", "Message 3", "Message 1", "Message 0"]);
}

#[test]
fn removing_every_message_empties_the_topic() {
    let mut store = MemoryStore::default();
    publish_five(&mut store, "t");
    for id in 1..=5u128 {
        for command in remove_commands("t", &message_id_text(id)) {
            store.write(&command);
        }
    }
    assert!(read(&store, "t", 10).is_empty());
    assert!(store.entries.is_empty());
}
