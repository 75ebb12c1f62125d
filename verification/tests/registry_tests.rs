use redqueue::queue::cleanup_commands;
use redqueue::TopicRegistry;

#[test]
fn fresh_registry_knows_no_topic() {
    let registry: TopicRegistry<u32> = TopicRegistry::new();
    assert!(registry.subscribers("test_topic").is_none());
    assert!(registry.stale_topics().is_empty());
}

#[test]
fn subscribers_come_in_subscription_order() {
    let mut registry = TopicRegistry::new();
    registry.add_subscriber("test_topic", 1u32);
    registry.add_subscriber("other", 2u32);
    registry.add_subscriber("test_topic", 3u32);
    assert_eq!(registry.subscribers("test_topic").unwrap(), &vec![1, 3]);
    assert_eq!(registry.subscribers("other").unwrap(), &vec![2]);
    assert!(registry.subscribers("missing").is_none());
}

#[test]
fn topics_are_told_apart_exactly() {
    let mut registry = TopicRegistry::new();
    registry.add_subscriber("test", 1u32);
    registry.add_subscriber("test_topic", 2u32);
    assert_eq!(registry.subscribers("test").unwrap(), &vec![1]);
    assert_eq!(registry.subscribers("test_topic").unwrap(), &vec![2]);
    assert!(registry.subscribers("tes").is_none());
}

#[test]
fn subscribed_registry_has_no_stale_topic() {
    let mut registry = TopicRegistry::new();
    registry.add_subscriber("a", 1u32);
    registry.add_subscriber("b", 2u32);
    assert!(registry.stale_topics().is_empty());
    assert!(cleanup_commands(&registry).is_empty());
}

#[test]
fn retain_keeps_marked_subscribers_in_order() {
    let mut registry = TopicRegistry::new();
    for s in [1u32, 2, 3, 4] {
        registry.add_subscriber("t", s);
    }
    registry.add_subscriber("u", 9u32);
    registry.retain_subscribers("t", &vec![true, false, true]);
    assert_eq!(registry.subscribers("t").unwrap(), &vec![1, 3, 4]);
    assert_eq!(registry.subscribers("u").unwrap(), &vec![9]);
    registry.retain_subscribers("missing", &vec![false]);
    assert!(registry.subscribers("missing").is_none());
}

#[test]
fn topics_lists_each_registered_topic_once() {
    let mut registry = TopicRegistry::new();
    registry.add_subscriber("a", 1u32);
    registry.add_subscriber("b", 2u32);
    registry.add_subscriber("a", 3u32);
    let mut names = registry.topics();
    names.sort();
    assert_eq!(names, vec!["a".to_string(), "b".to_string()]);
}

#[test]
fn cleanup_deletes_list_of_topic_whose_subscribers_are_gone() {
    let mut registry = TopicRegistry::new();
    registry.add_subscriber("gone", 1u32);
    registry.add_subscriber("gone", 2u32);
    registry.add_subscriber("live", 3u32);
    registry.retain_subscribers("gone", &vec![false, false]);
    assert_eq!(registry.subscribers("gone").unwrap(), &Vec::<u32>::new());
    assert_eq!(registry.stale_topics(), vec!["gone".to_string()]);
    assert_eq!(
        cleanup_commands(&registry),
        vec![redqueue::StoreCommand::Del { key: "topic:gone:messages".to_string() }]
    );
}
