//! The names of the store entries: one text entry per message and one list
//! of message ids per topic.

use vstd::prelude::*;

use crate::ids::{id_text_spec, lemma_id_text_injective, lemma_id_text_len};

verus! {

/// `topic:{topic}:messages`, the list of message ids published to `topic`.
pub open spec fn topic_key_spec(topic: Seq<char>) -> Seq<char> {
    "topic:"@ + topic + ":messages"@
}

/// `message:{topic}:{id}`, the entry that holds one message's text.
pub open spec fn message_key_spec(topic: Seq<char>, id: Seq<char>) -> Seq<char> {
    "message:"@ + topic + ":"@ + id
}

/// The key of the list of message ids published to `topic`.
pub fn topic_key(topic: &str) -> (key: String)
    ensures
        key@ == topic_key_spec(topic@),
{
    let mut key = String::from_str("topic:");
    key.append(topic);
    key.append(":messages");
    key
}

/// The key of the entry that holds the message with id text `id` of `topic`.
pub fn message_key(topic: &str, id: &str) -> (key: String)
    ensures
        key@ == message_key_spec(topic@, id@),
{
    let mut key = String::from_str("message:");
    key.append(topic);
    key.append(":");
    key.append(id);
    key
}

/// Distinct topics have distinct list keys.
pub proof fn lemma_topic_key_injective(t1: Seq<char>, t2: Seq<char>)
    requires
        topic_key_spec(t1) == topic_key_spec(t2),
    ensures
        t1 == t2,
{
    reveal_strlit("topic:");
    reveal_strlit(":messages");
    assert("topic:"@.len() == 6);
    assert(":messages"@.len() == 9);
    let k = topic_key_spec(t1);
    assert(k.len() == t1.len() + 15);
    assert(topic_key_spec(t2).len() == t2.len() + 15);
    assert(t1 =~= k.subrange(6, 6 + t1.len() as int));
    assert(t2 =~= k.subrange(6, 6 + t2.len() as int));
}

/// Two messages get the same entry key only when they have the same topic
/// and the same id.
pub proof fn lemma_message_key_injective(t1: Seq<char>, a: u128, t2: Seq<char>, b: u128)
    requires
        message_key_spec(t1, id_text_spec(a)) == message_key_spec(t2, id_text_spec(b)),
    ensures
        t1 == t2,
        a == b,
{
    reveal_strlit("message:");
    reveal_strlit(":");
    assert("message:"@.len() == 8);
    assert(":"@.len() == 1);
    lemma_id_text_len(a);
    lemma_id_text_len(b);
    let k = message_key_spec(t1, id_text_spec(a));
    assert(k.len() == t1.len() + 45);
    assert(message_key_spec(t2, id_text_spec(b)).len() == t2.len() + 45);
    assert(t1 =~= k.subrange(8, 8 + t1.len() as int));
    assert(t2 =~= k.subrange(8, 8 + t2.len() as int));
    assert(id_text_spec(a) =~= k.subrange(9 + t1.len() as int, k.len() as int));
    assert(id_text_spec(b) =~= k.subrange(9 + t2.len() as int, k.len() as int));
    lemma_id_text_injective(a, b);
}

/// No topic list key is ever a message entry key.
pub proof fn lemma_keys_disjoint(t: Seq<char>, t2: Seq<char>, id: Seq<char>)
    ensures
        topic_key_spec(t) != message_key_spec(t2, id),
{
    reveal_strlit("topic:");
    reveal_strlit("message:");
    assert(topic_key_spec(t)[0] == 't');
    assert(message_key_spec(t2, id)[0] == 'm');
}

} // verus!
