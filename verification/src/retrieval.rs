//! What reading a topic gives back of what was published to it, and what
//! removing a message leaves, over the store model of `store`: the commands
//! of `queue::publish_commands` carried out one message after another, then
//! those of `queue::range_command` and `queue::fetch_commands`; and those of
//! `queue::remove_commands`.

use vstd::prelude::*;

use crate::ids::id_text_spec;
use crate::keys::{
    lemma_keys_disjoint, lemma_message_key_injective, lemma_topic_key_injective, message_key_spec,
    topic_key_spec,
};
use crate::queue::{publish_model, remove_model};
use crate::store::{apply, apply_all, without, CommandModel, Reply, StoreValue};

verus! {

/// A message as the store sees it: the topic it was published to, its id
/// and its serialized text.
pub struct Published {
    pub topic: Seq<char>,
    pub id: u128,
    pub text: Seq<char>,
}

/// The key under which `p`'s text is stored.
pub open spec fn entry_key(p: Published) -> Seq<char> {
    message_key_spec(p.topic, id_text_spec(p.id))
}

/// The store after publishing `p`.
pub open spec fn publish_effect(store: Map<Seq<char>, StoreValue>, p: Published) -> Map<
    Seq<char>,
    StoreValue,
> {
    let written = apply(store, CommandModel::SetText(entry_key(p), p.text)).0;
    apply(written, CommandModel::LPush(topic_key_spec(p.topic), id_text_spec(p.id))).0
}

/// The store after publishing `messages`, first to last.
pub open spec fn published_store(store: Map<Seq<char>, StoreValue>, messages: Seq<Published>) -> Map<
    Seq<char>,
    StoreValue,
>
    decreases messages.len(),
{
    if messages.len() == 0 {
        store
    } else {
        publish_effect(published_store(store, messages.drop_last()), messages.last())
    }
}

/// The messages published to `topic`, oldest first.
pub open spec fn on_topic(messages: Seq<Published>, topic: Seq<char>) -> Seq<Published>
    decreases messages.len(),
{
    if messages.len() == 0 {
        Seq::empty()
    } else if messages.last().topic == topic {
        on_topic(messages.drop_last(), topic).push(messages.last())
    } else {
        on_topic(messages.drop_last(), topic)
    }
}

/// No two of `messages` share an id.
pub open spec fn ids_distinct(messages: Seq<Published>) -> bool {
    forall|i: int, j: int|
        0 <= i < messages.len() && 0 <= j < messages.len() && i != j ==> (#[trigger] messages[i]).id
            != (#[trigger] messages[j]).id
}

/// The text that a read of `key` answers, `None` where there is none.
pub open spec fn text_at(store: Map<Seq<char>, StoreValue>, key: Seq<char>) -> Option<Seq<char>> {
    match apply(store, CommandModel::Get(key)).1 {
        Reply::Value(text) => text,
        _ => None,
    }
}

/// The texts that reading `count` messages of `topic` fetches: nothing for
/// a `count` of 0 or less; otherwise the id texts from the range read of
/// the topic's list, then the text stored under each one's message key.
pub open spec fn read_texts(store: Map<Seq<char>, StoreValue>, topic: Seq<char>, count: int) -> Seq<
    Option<Seq<char>>,
> {
    if count <= 0 {
        Seq::empty()
    } else {
        match apply(store, CommandModel::LRange(topic_key_spec(topic), 0, count - 1)).1 {
            Reply::Items(ids) => ids.map_values(
                |id: Seq<char>| text_at(store, message_key_spec(topic, id)),
            ),
            _ => Seq::empty(),
        }
    }
}

/// The id texts that `store` lists for `topic`: none where it holds no
/// list for it.
pub open spec fn listed_ids(store: Map<Seq<char>, StoreValue>, topic: Seq<char>) -> Seq<Seq<char>> {
    if store.contains_key(topic_key_spec(topic)) {
        match store[topic_key_spec(topic)] {
            StoreValue::List(items) => items,
            StoreValue::Text(_) => Seq::empty(),
        }
    } else {
        Seq::empty()
    }
}

/// How many messages a read of `count` gives back from a topic with `n`
/// messages: `count` of them, at most all, and none for a `count` of 0 or
/// less.
pub open spec fn read_size(n: int, count: int) -> int {
    if count <= 0 {
        0
    } else if count < n {
        count
    } else {
        n
    }
}

/// The id texts of `messages`, newest first.
pub open spec fn newest_ids(messages: Seq<Published>) -> Seq<Seq<char>> {
    Seq::new(messages.len(), |i: int| id_text_spec(messages[messages.len() - 1 - i].id))
}

spec fn is_at(messages: Seq<Published>, j: int, p: Published) -> bool {
    messages[j] == p
}

spec fn published_in(messages: Seq<Published>, p: Published) -> bool {
    exists|j: int| 0 <= j < messages.len() && is_at(messages, j, p)
}

/// Publishing issues exactly the commands of `publish_model`.
pub proof fn lemma_publish_model_effect(store: Map<Seq<char>, StoreValue>, p: Published)
    ensures
        apply_all(store, publish_model(p.topic, p.id, p.text)) == publish_effect(store, p),
{
    let commands = publish_model(p.topic, p.id, p.text);
    let first = commands.drop_last();
    assert(first.drop_last() =~= Seq::<CommandModel>::empty());
    assert(first.last() == CommandModel::SetText(entry_key(p), p.text));
    assert(commands.last() == CommandModel::LPush(topic_key_spec(p.topic), id_text_spec(p.id)));
    assert(apply_all(store, first.drop_last()) == store);
    assert(apply_all(store, first) == apply(store, first.last()).0);
}

proof fn lemma_on_topic_members(messages: Seq<Published>, topic: Seq<char>)
    ensures
        forall|k: int|
            0 <= k < on_topic(messages, topic).len() ==> published_in(
                messages,
                #[trigger] on_topic(messages, topic)[k],
            ),
        forall|k: int|
            0 <= k < on_topic(messages, topic).len() ==> (#[trigger] on_topic(messages, topic)[k]).topic
                == topic,
    decreases messages.len(),
{
    if messages.len() > 0 {
        lemma_on_topic_members(messages.drop_last(), topic);
    }
    assert forall|k: int| 0 <= k < on_topic(messages, topic).len() implies published_in(
        messages,
        #[trigger] on_topic(messages, topic)[k],
    ) by {
        let prev = messages.drop_last();
        let before = on_topic(prev, topic);
        let mine = on_topic(messages, topic);
        if k < before.len() {
            assert(mine[k] == before[k]);
            assert(published_in(prev, before[k]));
            let j = choose|j: int| 0 <= j < prev.len() && is_at(prev, j, before[k]);
            assert(prev[j] == messages[j]);
            assert(is_at(messages, j, mine[k]));
        } else {
            assert(is_at(messages, messages.len() - 1, mine[k]));
        }
    }
    assert forall|k: int| 0 <= k < on_topic(messages, topic).len() implies (#[trigger] on_topic(
        messages,
        topic,
    )[k]).topic == topic by {
        let before = on_topic(messages.drop_last(), topic);
        if k < before.len() {
            assert(on_topic(messages, topic)[k] == before[k]);
        }
    }
}

proof fn lemma_published_state(
    store: Map<Seq<char>, StoreValue>,
    messages: Seq<Published>,
    topic: Seq<char>,
)
    requires
        !store.contains_key(topic_key_spec(topic)) || store[topic_key_spec(topic)] is List,
        ids_distinct(messages),
    ensures
        published_store(store, messages).contains_key(topic_key_spec(topic)) == (on_topic(
            messages,
            topic,
        ).len() > 0 || store.contains_key(topic_key_spec(topic))),
        published_store(store, messages).contains_key(topic_key_spec(topic)) ==> published_store(
            store,
            messages,
        )[topic_key_spec(topic)] == StoreValue::List(
            newest_ids(on_topic(messages, topic)) + listed_ids(store, topic),
        ),
        forall|j: int|
            0 <= j < messages.len() ==> published_store(store, messages).contains_key(
                entry_key(#[trigger] messages[j]),
            ) && published_store(store, messages)[entry_key(messages[j])] == StoreValue::Text(
                messages[j].text,
            ),
    decreases messages.len(),
{
    if messages.len() > 0 {
        let prev = messages.drop_last();
        let p = messages.last();
        assert forall|i: int, j: int|
            0 <= i < prev.len() && 0 <= j < prev.len() && i != j implies (#[trigger] prev[i]).id
            != (#[trigger] prev[j]).id by {
            assert(prev[i] == messages[i]);
            assert(prev[j] == messages[j]);
        }
        lemma_published_state(store, prev, topic);
        let before = published_store(store, prev);
        let written = apply(before, CommandModel::SetText(entry_key(p), p.text)).0;
        let after = published_store(store, messages);
        assert(after == apply(written, CommandModel::LPush(topic_key_spec(p.topic), id_text_spec(p.id))).0);
        lemma_keys_disjoint(topic, p.topic, id_text_spec(p.id));
        assert(written.contains_key(topic_key_spec(topic)) == before.contains_key(topic_key_spec(topic)));
        assert(written.contains_key(topic_key_spec(topic)) ==> written[topic_key_spec(topic)] == before[topic_key_spec(topic)]);
        let mine = on_topic(messages, topic);
        let old_mine = on_topic(prev, topic);
        let prior = listed_ids(store, topic);
        if p.topic == topic {
            assert(mine == old_mine.push(p));
            assert(newest_ids(mine) + prior =~= seq![id_text_spec(p.id)] + (newest_ids(old_mine) + prior));
            if !before.contains_key(topic_key_spec(topic)) {
                assert(old_mine.len() == 0);
                assert(prior =~= Seq::<Seq<char>>::empty());
                assert(newest_ids(old_mine) =~= Seq::<Seq<char>>::empty());
            }
        } else {
            assert(mine == old_mine);
            if topic_key_spec(p.topic) == topic_key_spec(topic) {
                lemma_topic_key_injective(p.topic, topic);
            }
        }
        assert forall|j: int| 0 <= j < messages.len() implies after.contains_key(
            entry_key(#[trigger] messages[j]),
        ) && after[entry_key(messages[j])] == StoreValue::Text(messages[j].text) by {
            lemma_keys_disjoint(p.topic, messages[j].topic, id_text_spec(messages[j].id));
            if j < prev.len() {
                assert(prev[j] == messages[j]);
                if entry_key(messages[j]) == entry_key(p) {
                    lemma_message_key_injective(messages[j].topic, messages[j].id, p.topic, p.id);
                    assert(messages[j].id != messages[messages.len() - 1].id);
                }
            }
        }
    }
}

/// A read of `count` messages of `topic` gives back the texts of the
/// messages published to it, newest first: the `count` newest, all of them
/// when there are fewer, after which come the texts stored under the ids
/// that the topic listed before, in that list's order;
/// nothing for a `count` of 0 or less. This holds for any store that held
/// no list for the topic, or a list, before, where no two published
/// messages share an id.
pub proof fn lemma_read_returns_newest_published(
    store: Map<Seq<char>, StoreValue>,
    messages: Seq<Published>,
    topic: Seq<char>,
    count: int,
)
    requires
        !store.contains_key(topic_key_spec(topic)) || store[topic_key_spec(topic)] is List,
        ids_distinct(messages),
    ensures
        read_texts(published_store(store, messages), topic, count).len() == read_size(
            (on_topic(messages, topic).len() + listed_ids(store, topic).len()) as int,
            count,
        ),
        forall|i: int|
            0 <= i < read_size(on_topic(messages, topic).len() as int, count) ==> #[trigger] read_texts(
                published_store(store, messages),
                topic,
                count,
            )[i] == Some(on_topic(messages, topic)[on_topic(messages, topic).len() - 1 - i].text),
        forall|i: int|
            on_topic(messages, topic).len() <= i < read_size(
                (on_topic(messages, topic).len() + listed_ids(store, topic).len()) as int,
                count,
            ) ==> #[trigger] read_texts(published_store(store, messages), topic, count)[i] == text_at(
                published_store(store, messages),
                message_key_spec(topic, listed_ids(store, topic)[i - on_topic(messages, topic).len()]),
            ),
{
    lemma_published_state(store, messages, topic);
    lemma_on_topic_members(messages, topic);
    let s = published_store(store, messages);
    let mine = on_topic(messages, topic);
    let n = mine.len() as int;
    let prior = listed_ids(store, topic);
    let total = n + prior.len() as int;
    let m = read_size(n, count);
    let texts = read_texts(s, topic, count);
    if count > 0 {
        if !s.contains_key(topic_key_spec(topic)) {
            assert(n == 0);
            assert(prior.len() == 0);
            assert(texts.len() == 0);
        } else {
            let ids = newest_ids(mine) + prior;
            let got = crate::store::list_range(ids, 0, count - 1);
            assert(got =~= ids.subrange(0, read_size(total, count)));
            assert(texts == got.map_values(|id: Seq<char>| text_at(s, message_key_spec(topic, id))));
            assert forall|i: int| 0 <= i < m implies #[trigger] texts[i] == Some(
                mine[n - 1 - i].text,
            ) by {
                let k = n - 1 - i;
                assert(published_in(messages, mine[k]));
                let j = choose|j: int| 0 <= j < messages.len() && is_at(messages, j, mine[k]);
                assert(messages[j] == mine[k]);
                assert(got[i] == id_text_spec(mine[k].id));
                assert(entry_key(messages[j]) == message_key_spec(topic, got[i]));
            }
            assert forall|i: int| n <= i < read_size(total, count) implies #[trigger] texts[i]
                == text_at(s, message_key_spec(topic, prior[i - n])) by {
                assert(got[i] == prior[i - n]);
            }
        }
    }
}

proof fn lemma_without_drops(items: Seq<Seq<char>>, value: Seq<char>)
    ensures
        !without(items, value).contains(value),
    decreases items.len(),
{
    if items.len() > 0 {
        lemma_without_drops(items.drop_last(), value);
        let rest = without(items.drop_last(), value);
        if items.last() != value {
            assert forall|k: int| 0 <= k < rest.push(items.last()).len() implies rest.push(
                items.last(),
            )[k] != value by {
                if k < rest.len() {
                    assert(rest.push(items.last())[k] == rest[k]);
                }
            }
        }
    }
}

/// Removing a message takes its id out of its topic's list, keeping the
/// other ids in their order, and leaves no text under its key, so no later
/// read of the topic gives it back.
pub proof fn lemma_removed_message_is_gone(
    store: Map<Seq<char>, StoreValue>,
    topic: Seq<char>,
    id: Seq<char>,
)
    ensures
        listed_ids(apply_all(store, remove_model(topic, id)), topic) == without(
            listed_ids(store, topic),
            id,
        ),
        !listed_ids(apply_all(store, remove_model(topic, id)), topic).contains(id),
        text_at(apply_all(store, remove_model(topic, id)), message_key_spec(topic, id)) is None,
{
    let commands = remove_model(topic, id);
    let first = commands.drop_last();
    assert(first.drop_last() =~= Seq::<CommandModel>::empty());
    assert(apply_all(store, first.drop_last()) == store);
    assert(apply_all(store, first) == apply(store, first.last()).0);
    let trimmed = apply(store, CommandModel::LRemAll(topic_key_spec(topic), id)).0;
    let after = apply(trimmed, CommandModel::Del(message_key_spec(topic, id))).0;
    assert(apply_all(store, commands) == after);
    lemma_keys_disjoint(topic, topic, id);
    assert(without(Seq::<Seq<char>>::empty(), id) =~= Seq::<Seq<char>>::empty());
    lemma_without_drops(listed_ids(store, topic), id);
    assert(listed_ids(after, topic) == listed_ids(trimmed, topic));
}

} // verus!
