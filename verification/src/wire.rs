//! The byte encoding of stored sessions and messages.
//!
//! A session is stored as the pair (label, creation time) and a message as
//! the triple (body, author session, creation time), both serialized by the
//! binary codec of the `bincode` crate. The codec is deterministic, so what
//! a byte string decodes to is a function of the bytes alone; the decoded
//! value of a byte string is given a name here and every contract that
//! speaks of stored bytes speaks through that name.

use vstd::prelude::*;

verus! {

/// What the binary codec decodes a byte string to, read as a stored session
/// (label, creation time), or nothing if the bytes are not a valid encoding.
pub uninterp spec fn session_bytes_dec(b: Seq<u8>) -> Option<(Seq<char>, i64)>;

/// What the binary codec decodes a byte string to, read as a stored message
/// (body, author session, creation time), or nothing if the bytes are not a
/// valid encoding.
pub uninterp spec fn message_bytes_dec(b: Seq<u8>) -> Option<(Seq<char>, u64, i64)>;

/// Relies on bincode::serialize for `(String, i64)`: serializing a value and
/// deserializing the bytes yields the value back.
#[verifier::external_body]
pub(crate) fn enc_session(user: &str, ts: i64) -> (r: Vec<u8>)
    ensures
        session_bytes_dec(r@) == Some((user@, ts)),
{
    bincode::serialize(&(user, ts)).unwrap()
}

/// Relies on bincode::deserialize for `(String, i64)`: the result is the
/// decoded value of the bytes, or an error where they do not decode.
#[verifier::external_body]
pub(crate) fn dec_session(b: &[u8]) -> (r: Option<(String, i64)>)
    ensures
        match r {
            Some(p) => session_bytes_dec(b@) == Some((p.0@, p.1)),
            None => session_bytes_dec(b@) is None,
        },
{
    bincode::deserialize::<(String, i64)>(b).ok()
}

/// Relies on bincode::serialize for `(String, u64, i64)`: serializing a
/// value and deserializing the bytes yields the value back.
#[verifier::external_body]
pub(crate) fn enc_message(body: &str, session: u64, ts: i64) -> (r: Vec<u8>)
    ensures
        message_bytes_dec(r@) == Some((body@, session, ts)),
{
    bincode::serialize(&(body, session, ts)).unwrap()
}

/// Relies on bincode::deserialize for `(String, u64, i64)`: the result is
/// the decoded value of the bytes, or an error where they do not decode.
#[verifier::external_body]
pub(crate) fn dec_message(b: &[u8]) -> (r: Option<(String, u64, i64)>)
    ensures
        match r {
            Some(t) => message_bytes_dec(b@) == Some((t.0@, t.1, t.2)),
            None => message_bytes_dec(b@) is None,
        },
{
    bincode::deserialize::<(String, u64, i64)>(b).ok()
}

} // verus!
