//! The entities of the room event engine and its error taxonomy.

use vstd::prelude::*;

verus! {

/// A message as it is stored: body, author session and creation time
/// (milliseconds since the epoch).
#[derive(Debug, Clone)]
pub struct Message {
    pub body: String,
    pub session: u64,
    pub ts: i64,
}

/// A session as it is stored: the user's display label and creation time
/// (milliseconds since the epoch). The label may be updated in place; the
/// creation time never changes.
#[derive(Debug, Clone)]
pub struct Session {
    pub user: String,
    pub ts: i64,
}

/// A message as it is handed back to clients: the stored message joined with
/// the author's current display label and the current vote count.
#[derive(Debug, Clone)]
pub struct OutgoingMessage {
    pub id: u64,
    pub body: String,
    pub user: String,
    pub votes: usize,
    pub ts: i64,
}

/// A vote change to fan out to subscribers: which message, and whether a
/// vote was added or withdrawn.
#[derive(Debug, Clone)]
pub struct VoteChange {
    pub message: u64,
    pub delta: i8,
}

/// An event published on a room's broadcast channel.
#[derive(Debug, Clone)]
pub enum Event {
    Message(OutgoingMessage),
    Vote(VoteChange),
}

/// The failure taxonomy of the engine.
///
/// `RoomNotFound` and `InvalidSession` are validation failures produced from
/// store lookups; `NotFound` is a logical lookup miss (including a
/// short-code that decodes to nothing); `StorageFailure` is an I/O or
/// durability fault, fatal to the request but never conflated with logical
/// absence.
#[derive(Debug, Clone, Copy, PartialEq, Eq, Structural)]
pub enum ApiError {
    RoomNotFound,
    InvalidSession,
    NotFound,
    StorageFailure,
}

} // verus!
