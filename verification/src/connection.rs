//! The store client: the checked form of a store URL, before any
//! connection is made.

use vstd::prelude::*;

verus! {

#[verifier::external_type_specification]
#[verifier::external_body]
pub struct ExRedisClient(redis::Client);

#[verifier::external_type_specification]
#[verifier::external_body]
pub struct ExRedisError(redis::RedisError);

/// Whether `redis::Client::open` accepts `url`.
pub uninterp spec fn redis_url_accepted(url: Seq<char>) -> bool;

/// `redis::Client::open` on a URL text. The source opens no connection: it
/// parses the URL and checks its scheme and parts, so the outcome is a
/// function of the text, named `redis_url_accepted`. What makes a URL
/// acceptable (the `url` crate's grammar, the accepted schemes and
/// parts) is left to that name, but for the URL of a local server that
/// the crate's documentation opens, which it accepts.
#[verifier::external_body]
fn client_open(url: &str) -> (client: Result<redis::Client, redis::RedisError>)
    ensures
        client is Ok <==> redis_url_accepted(url@),
        url@ == "redis://127.0.0.1/"@ ==> client is Ok,
{
    redis::Client::open(url)
}

/// The client for the store at `url`, checked but not yet connected; the
/// error is the one the client gives for a URL it does not accept.
pub fn open_client(url: &str) -> (client: Result<redis::Client, redis::RedisError>)
    ensures
        client is Ok <==> redis_url_accepted(url@),
{
    client_open(url)
}

} // verus!
