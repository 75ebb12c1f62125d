//! Messages: an id, the topic they were published to, their payload bytes,
//! the second at which they were made, and metadata as JSON text.

use vstd::prelude::*;

use crate::ids::{is_random_id, uuid_new_v4};

verus! {

/// A message. `metadata` holds the JSON text of the message's metadata.
#[derive(Debug, Clone, PartialEq, Eq)]
pub struct Message {
    pub id: u128,
    pub topic: String,
    pub payload: Vec<u8>,
    pub timestamp: u64,
    pub metadata: String,
}

/// What a subscriber stream carries: a message, or the acknowledgement of
/// the message with the given id.
#[derive(Debug, Clone, PartialEq, Eq)]
pub enum AckMessage {
    Data(Message),
    Ack(u128),
}

/// The JSON text of absent metadata.
pub open spec fn null_metadata() -> Seq<char> {
    "null"@
}

#[verifier::external_type_specification]
#[verifier::external_body]
pub struct ExSystemTime(std::time::SystemTime);

/// `std::time::SystemTime::now`. It reads the clock: nothing is stated of
/// the result.
#[verifier::external_body]
fn clock_now() -> (now: std::time::SystemTime) {
    std::time::SystemTime::now()
}

/// `std::time::SystemTime::duration_since` with `UNIX_EPOCH` as the earlier
/// time, its error turned into `None` (std returns the error when `now`
/// lies before the epoch). Nothing is stated of the result: `SystemTime`
/// is opaque here.
#[verifier::external_body]
fn since_unix_epoch(now: &std::time::SystemTime) -> (elapsed: Option<core::time::Duration>) {
    now.duration_since(std::time::UNIX_EPOCH).ok()
}

/// `core::time::Duration::as_secs`, the whole seconds of `elapsed`.
/// Nothing is stated: `Duration` is opaque here.
#[verifier::external_body]
fn whole_seconds(elapsed: &core::time::Duration) -> (secs: u64) {
    elapsed.as_secs()
}

impl Message {
    /// A message with the given parts and no metadata.
    pub fn from_parts(id: u128, topic: String, payload: Vec<u8>, timestamp: u64) -> (m: Message)
        ensures
            m.id == id,
            m.topic == topic,
            m.payload == payload,
            m.timestamp == timestamp,
            m.metadata@ == null_metadata(),
    {
        Message { id, topic, payload, timestamp, metadata: String::from_str("null") }
    }

    /// A fresh message for `topic`: a random version-4 id, the current Unix
    /// time in seconds and no metadata. `None` when the system clock reads
    /// before the Unix epoch, the one case in which no timestamp exists.
    pub fn new(topic: String, payload: Vec<u8>) -> (r: Option<Message>)
        ensures
            r matches Some(m) ==> {
                &&& is_random_id(m.id)
                &&& m.topic == topic
                &&& m.payload == payload
                &&& m.metadata@ == null_metadata()
            },
    {
        let now = clock_now();
        let id = uuid_new_v4();
        match since_unix_epoch(&now) {
            Some(elapsed) => Some(Message::from_parts(id, topic, payload, whole_seconds(&elapsed))),
            None => None,
        }
    }
}

} // verus!
