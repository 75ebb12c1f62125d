//! The queue's decisions: which store commands publishing, reading and
//! cleaning up issue, and what is kept of the replies. The connection to the
//! store and the subscriber channels stay with the caller, which carries the
//! commands out in order.

use vstd::prelude::*;

use crate::ids::{id_text_spec, uuid_text};
use crate::keys::{message_key, message_key_spec, topic_key, topic_key_spec};
use crate::message::Message;
use crate::keys::lemma_topic_key_injective;
use crate::registry::{
    lemma_dropped_topic_is_stale, lemma_stale_means_unsubscribed, stale_topic_set, with_retained,
    TopicRegistry,
};
use crate::store::{CommandModel, StoreCommand};

verus! {

/// What publishing a message with id `id` and stored text `text` to `topic`
/// issues: store the text under the message's key, then put the id text at
/// the front of the topic's list.
pub open spec fn publish_model(topic: Seq<char>, id: u128, text: Seq<char>) -> Seq<CommandModel> {
    seq![
        CommandModel::SetText(message_key_spec(topic, id_text_spec(id)), text),
        CommandModel::LPush(topic_key_spec(topic), id_text_spec(id)),
    ]
}

/// The commands that store `message`, whose serialized form is `text`,
/// under `topic`.
pub fn publish_commands(topic: &str, message: &Message, text: String) -> (commands: Vec<
    StoreCommand,
>)
    ensures
        commands@.map_values(|c: StoreCommand| c@) == publish_model(topic@, message.id, text@),
{
    let id = uuid_text(message.id);
    let key = message_key(topic, id.as_str());
    let list = topic_key(topic);
    let mut commands: Vec<StoreCommand> = Vec::new();
    commands.push(StoreCommand::SetText { key, value: text });
    commands.push(StoreCommand::LPush { key: list, value: id });
    assert(commands@.map_values(|c: StoreCommand| c@) =~= publish_model(topic@, message.id, text@));
    commands
}

/// The command that reads the ids of the `count` newest messages of
/// `topic`: positions `0..=count - 1` of its list, newest first. A `count`
/// of 0 or less asks for nothing, so no read is issued.
pub fn range_command(topic: &str, count: isize) -> (command: Option<StoreCommand>)
    ensures
        count <= 0 ==> command is None,
        count > 0 ==> (command matches Some(c) && c@ == CommandModel::LRange(
            topic_key_spec(topic@),
            0,
            count - 1,
        )),
{
    if count <= 0 {
        None
    } else {
        Some(StoreCommand::LRange { key: topic_key(topic), start: 0, stop: count - 1 })
    }
}

/// What removing the message with id text `id` from `topic` issues: take
/// every occurrence of the id out of the topic's list, then delete the
/// message's entry.
pub open spec fn remove_model(topic: Seq<char>, id: Seq<char>) -> Seq<CommandModel> {
    seq![
        CommandModel::LRemAll(topic_key_spec(topic), id),
        CommandModel::Del(message_key_spec(topic, id)),
    ]
}

/// The commands that remove the message with id text `id` from `topic`,
/// to be carried out together as one transaction.
pub fn remove_commands(topic: &str, id: &str) -> (commands: Vec<StoreCommand>)
    ensures
        commands@.map_values(|c: StoreCommand| c@) == remove_model(topic@, id@),
{
    let mut commands: Vec<StoreCommand> = Vec::new();
    commands.push(StoreCommand::LRemAll { key: topic_key(topic), value: String::from_str(id) });
    commands.push(StoreCommand::Del { key: message_key(topic, id) });
    assert(commands@.map_values(|c: StoreCommand| c@) =~= remove_model(topic@, id@));
    commands
}

/// The commands that read the message texts of `topic` whose id texts are
/// `ids`, in the same order.
pub fn fetch_commands(topic: &str, ids: &Vec<String>) -> (commands: Vec<StoreCommand>)
    ensures
        commands@.len() == ids@.len(),
        forall|i: int|
            0 <= i < ids@.len() ==> (#[trigger] commands@[i])@ == CommandModel::Get(
                message_key_spec(topic@, ids@[i]@),
            ),
{
    let mut commands: Vec<StoreCommand> = Vec::new();
    let mut i: usize = 0;
    while i < ids.len()
        invariant
            i <= ids@.len(),
            commands@.len() == i,
            forall|j: int|
                0 <= j < i ==> (#[trigger] commands@[j])@ == CommandModel::Get(
                    message_key_spec(topic@, ids@[j]@),
                ),
        decreases ids@.len() - i,
    {
        commands.push(StoreCommand::Get { key: message_key(topic, ids[i].as_str()) });
        i = i + 1;
    }
    commands
}

/// The commands issued by a cleanup pass: remove the message list of every
/// registered topic that has no subscriber, each once.
pub fn cleanup_commands<S>(registry: &TopicRegistry<S>) -> (commands: Vec<StoreCommand>)
    ensures
        commands@.map_values(|c: StoreCommand| c@).no_duplicates(),
        commands@.map_values(|c: StoreCommand| c@).to_set() == stale_topic_set(registry@).map(
            |t: Seq<char>| CommandModel::Del(topic_key_spec(t)),
        ),
{
    let stale = registry.stale_topics();
    let ghost names = stale@.map_values(|t: String| t@);
    let mut commands: Vec<StoreCommand> = Vec::new();
    let mut i: usize = 0;
    while i < stale.len()
        invariant
            i <= stale@.len(),
            names == stale@.map_values(|t: String| t@),
            commands@.len() == i,
            forall|j: int|
                0 <= j < i ==> (#[trigger] commands@[j])@ == CommandModel::Del(
                    topic_key_spec(names[j]),
                ),
        decreases stale@.len() - i,
    {
        commands.push(StoreCommand::Del { key: topic_key(stale[i].as_str()) });
        i = i + 1;
    }
    proof {
        let views = commands@.map_values(|c: StoreCommand| c@);
        let want = stale_topic_set(registry@).map(|t: Seq<char>| CommandModel::Del(topic_key_spec(t)));
        assert forall|a: int, b: int| 0 <= a < views.len() && 0 <= b < views.len() && a != b
            implies views[a] != views[b] by {
            if views[a] == views[b] {
                assert(views[a] == CommandModel::Del(topic_key_spec(names[a])));
                assert(views[b] == CommandModel::Del(topic_key_spec(names[b])));
                lemma_topic_key_injective(names[a], names[b]);
            }
        }
        assert forall|c: CommandModel| #[trigger] views.to_set().contains(c) == want.contains(c) by {
            if views.to_set().contains(c) {
                let k = choose|k: int| 0 <= k < views.len() && views[k] == c;
                assert(names.to_set().contains(names[k]));
                assert(views[k] == CommandModel::Del(topic_key_spec(names[k])));
            }
            if want.contains(c) {
                let t = choose|t: Seq<char>| stale_topic_set(registry@).contains(t) && c == CommandModel::Del(topic_key_spec(t));
                assert(names.to_set().contains(t));
                let k = choose|k: int| 0 <= k < names.len() && names[k] == t;
                assert(views[k] == c);
            }
        }
        assert(views.to_set() =~= want);
    }
    commands
}

/// Once every subscriber of a topic has been dropped, the next cleanup
/// pass deletes the topic's message list.
pub proof fn lemma_cleanup_deletes_dropped_topic<S>(
    subscribers: Map<Seq<char>, Seq<S>>,
    topic: Seq<char>,
    keep: Seq<bool>,
)
    requires
        subscribers.contains_key(topic),
        subscribers[topic].len() <= keep.len(),
        forall|i: int| 0 <= i < subscribers[topic].len() ==> !#[trigger] keep[i],
    ensures
        stale_topic_set(with_retained(subscribers, topic, keep)).map(
            |t: Seq<char>| CommandModel::Del(topic_key_spec(t)),
        ).contains(CommandModel::Del(topic_key_spec(topic))),
{
    lemma_dropped_topic_is_stale(subscribers, topic, keep);
}

/// Nothing is kept of nothing; a fetched value is kept at the end, after
/// what was kept before it; a missing one adds nothing.
pub proof fn lemma_present_step<T>(items: Seq<Option<T>>, x: T)
    ensures
        present(Seq::<Option<T>>::empty()) == Seq::<T>::empty(),
        present(items.push(Some(x))) == present(items).push(x),
        present(items.push(None)) == present(items),
{
    assert(items.push(Some(x)).drop_last() =~= items);
    assert(items.push(None::<T>).drop_last() =~= items);
}

/// Where every value was fetched, all of them are kept, in order, however
/// many there are.
pub proof fn lemma_present_keeps_all<T>(items: Seq<Option<T>>)
    requires
        forall|i: int| 0 <= i < items.len() ==> (#[trigger] items[i]) is Some,
    ensures
        present(items).len() == items.len(),
        forall|i: int| 0 <= i < items.len() ==> Some(#[trigger] present(items)[i]) == items[i],
    decreases items.len(),
{
    if items.len() > 0 {
        let prev = items.drop_last();
        assert forall|i: int| 0 <= i < prev.len() implies (#[trigger] prev[i]) is Some by {
            assert(prev[i] == items[i]);
        }
        lemma_present_keeps_all(prev);
        assert forall|i: int| 0 <= i < items.len() implies Some(#[trigger] present(items)[i]) == items[i] by {
            if i < prev.len() {
                assert(present(items)[i] == present(prev)[i]);
                assert(prev[i] == items[i]);
            }
        }
    }
}

/// A cleanup pass never removes the message list of a topic that has a
/// subscriber.
pub proof fn lemma_cleanup_spares_subscribed_topic<S>(
    subscribers: Map<Seq<char>, Seq<S>>,
    topic: Seq<char>,
)
    requires
        subscribers.contains_key(topic),
        subscribers[topic].len() > 0,
    ensures
        !stale_topic_set(subscribers).map(|t: Seq<char>| CommandModel::Del(topic_key_spec(t))).contains(
            CommandModel::Del(topic_key_spec(topic)),
        ),
{
    let cleaned = stale_topic_set(subscribers).map(|t: Seq<char>| CommandModel::Del(topic_key_spec(t)));
    if cleaned.contains(CommandModel::Del(topic_key_spec(topic))) {
        let t = choose|t: Seq<char>| stale_topic_set(subscribers).contains(t) && CommandModel::Del(
            topic_key_spec(t),
        ) == CommandModel::Del(topic_key_spec(topic));
        lemma_topic_key_injective(t, topic);
        lemma_stale_means_unsubscribed(subscribers, t);
    }
}

/// The present values of `items`, in order.
pub open spec fn present<T>(items: Seq<Option<T>>) -> Seq<T>
    decreases items.len(),
{
    if items.len() == 0 {
        Seq::empty()
    } else {
        match items.last() {
            Some(x) => present(items.drop_last()).push(x),
            None => present(items.drop_last()),
        }
    }
}

/// Keeps the messages that could be read and decoded, in the order in
/// which they were fetched, and drops the rest.
pub fn gather_found<T>(fetched: Vec<Option<T>>) -> (found: Vec<T>)
    ensures
        found@ == present(fetched@),
{
    let ghost all = fetched@;
    let mut found: Vec<T> = Vec::new();
    for item in it: fetched.into_iter()
        invariant
            it.seq() == all,
            found@ == present(all.take(it.index() as int)),
    {
        proof {
            assert(all.take(it.index() + 1).drop_last() =~= all.take(it.index() as int));
        }
        match item {
            Some(x) => {
                found.push(x);
            },
            None => {},
        }
    }
    proof {
        assert(all.take(all.len() as int) =~= all);
    }
    found
}

} // verus!
