//! The room event dispatcher: the stateless orchestration layer that
//! validates the room and session of every request, writes through the
//! store, and hands back the event to fan out on the room's channel.
//!
//! Persistence happens before publication: each write method returns only
//! after the store holds the data, and returns the event for the caller
//! to publish, so a subscriber can never observe an event whose data a
//! concurrent history read would fail to find. Publication itself is
//! asynchronous and belongs to the caller; a publish failure after a
//! successful write must never roll the write back.
//!
//! History reads resolve each message's author label at read time, so a
//! renamed session is reflected in older messages. A message whose author
//! session cannot be resolved is a store-integrity defect: that one
//! record is skipped, and the rest of the history is returned.

use vstd::prelude::*;

use std::collections::HashMap;

use crate::bytekey::be8;
use crate::hub::chan_of;
use crate::hub::Channel;
use crate::hub::Hub;
use crate::idcodec::code_shaped;
use crate::idcodec::decode_ids;
use crate::idcodec::denotes_id;
use crate::idcodec::encode_id;
use crate::idcodec::short_codes;
use crate::idcodec::ID_SPACE;
use crate::store::Store;
use crate::types::ApiError;
use crate::types::Message;
use crate::types::OutgoingMessage;
use crate::types::Session;
use crate::types::VoteChange;

verus! {

broadcast use vstd::std_specs::hash::group_hash_axioms;

/// Relies on chrono::Utc::now for the current wall-clock time in
/// milliseconds since the epoch. Nothing is assumed of the value.
#[verifier::external_body]
fn now_millis() -> (r: i64) {
    chrono::Utc::now().timestamp_millis()
}

/// A history record as the specification sees it: the stored message
/// joined with its author's current label and its current vote count.
pub struct HistoryRecord {
    pub id: u64,
    pub body: Seq<char>,
    pub user: Seq<char>,
    pub votes: nat,
    pub ts: i64,
}

/// Whether an outgoing message carries exactly the given record.
pub open spec fn out_matches(o: OutgoingMessage, w: HistoryRecord) -> bool {
    &&& o.id == w.id
    &&& o.body@ == w.body
    &&& o.user@ == w.user
    &&& o.votes as nat == w.votes
    &&& o.ts == w.ts
}

/// The history of `room` up to message identifier `n`, in ascending
/// identifier order: each stored message joined with its author's current
/// label and vote count. A record whose author session does not resolve
/// is skipped, per the read-time integrity policy.
pub open spec fn render_history(s: Store, room: u64, n: nat) -> Seq<HistoryRecord>
    decreases n,
{
    if n == 0 {
        Seq::empty()
    } else {
        let prefix = render_history(s, room, (n - 1) as nat);
        let mid = (n - 1) as u64;
        match s.message_of(room, mid) {
            Some(m) => match s.session_of(room, m.1) {
                Some(author) => prefix.push(
                    HistoryRecord {
                        id: mid,
                        body: m.0,
                        user: author.0,
                        votes: s.vote_count(room, mid),
                        ts: m.2,
                    },
                ),
                None => prefix,
            },
            None => prefix,
        }
    }
}

/// The process-wide state: the durable store and the per-room channel
/// hub, shared by every request handler.
pub struct State {
    pub store: Store,
    pub chans: Hub,
}

impl State {
    /// Wraps an opened store with an empty channel hub.
    pub fn new(store: Store) -> (r: State)
        ensures
            r.store == store,
            r.chans.rooms() == Set::<u64>::empty(),
    {
        State { store, chans: Hub::new() }
    }

    /// Hands out an endpoint on `room`'s channel, creating it lazily.
    /// The endpoint belongs to the room's one stored channel, which is
    /// never replaced, so every handle handed out for a room shares one
    /// underlying channel.
    pub fn get_chan(&mut self, room: u64) -> (r: Channel)
        ensures
            final(self).chans.rooms() == old(self).chans.rooms().insert(room),
            final(self).chans.has_channel(room) && chan_of(r) == chan_of(
                final(self).chans.channel_at(room),
            ),
            forall|r2: u64|
                old(self).chans.has_channel(r2) ==> final(self).chans.has_channel(r2)
                    && final(self).chans.channel_at(r2) == old(self).chans.channel_at(r2),
            final(self).store == old(self).store,
    {
        self.chans.channel_for(room)
    }

    /// The short code of an internal identifier. For identifiers in the
    /// engine's space the code is one the parser accepts and maps back to
    /// the identifier.
    pub fn fmt_id(&self, id: u64) -> (r: String)
        ensures
            r@ == short_codes(seq![id]),
            id < ID_SPACE ==> denotes_id(r@, id),
    {
        encode_id(id)
    }

    /// Decodes a short code back to the internal identifier it denotes,
    /// and rejects, without panicking, any string that is no identifier's
    /// code. A string longer than any engine identifier's code, or not
    /// ASCII, is rejected up front: only code-shaped input reaches the
    /// decoder, whose arithmetic is bounded within that shape.
    pub fn parse_id(&self, s: &str) -> (r: Result<u64, ApiError>)
        ensures
            forall|i: u64| r == Ok::<u64, ApiError>(i) <==> denotes_id(s@, i),
            r is Err ==> r == Err::<u64, ApiError>(ApiError::NotFound),
    {
        if !s.is_ascii() || s.unicode_len() > 12 {
            return Err(ApiError::NotFound);
        }
        assert(code_shaped(s@));
        match decode_ids(s) {
            Some(v) => {
                if v.len() == 1 {
                    let id = v[0];
                    proof {
                        assert(v@ =~= seq![id]);
                        assert forall|i: u64| denotes_id(s@, i) implies Ok::<
                            u64,
                            ApiError,
                        >(id) == Ok::<u64, ApiError>(i) by {
                            assert(v@ == seq![i]);
                        }
                        assert(denotes_id(s@, id));
                    }
                    Ok(id)
                } else {
                    proof {
                        assert forall|i: u64| s@ != short_codes(seq![i]) by {
                            if s@ == short_codes(seq![i]) {
                                assert(v@ == seq![i]);
                            }
                        }
                    }
                    Err(ApiError::NotFound)
                }
            },
            None => {
                proof {
                    assert forall|i: u64| s@ != short_codes(seq![i]) by {}
                }
                Err(ApiError::NotFound)
            },
        }
    }

    /// Resolves a room's short code and checks that the room exists.
    pub fn room_or_404(&self, room_id: &str) -> (r: Result<u64, ApiError>)
        ensures
            r matches Ok(id) ==> denotes_id(room_id@, id) && self.store.rooms().contains(id),
            r == Err::<u64, ApiError>(ApiError::NotFound) ==> forall|i: u64|
                !denotes_id(room_id@, i),
            r == Err::<u64, ApiError>(ApiError::RoomNotFound) ==> exists|i: u64|
                denotes_id(room_id@, i) && !self.store.rooms().contains(i),
            r is Err ==> r == Err::<u64, ApiError>(ApiError::NotFound) || r == Err::<u64, ApiError>(
                ApiError::RoomNotFound,
            ) || r == Err::<u64, ApiError>(ApiError::StorageFailure),
    {
        let id = match self.parse_id(room_id) {
            Ok(id) => id,
            Err(e) => {
                return Err(e);
            },
        };
        match self.store.room_exists(id) {
            Ok(true) => Ok(id),
            Ok(false) => {
                proof {
                    assert(denotes_id(room_id@, id));
                }
                Err(ApiError::RoomNotFound)
            },
            Err(e) => Err(e),
        }
    }

    /// Requires that the presented session identifier names a session of
    /// this very room: a session is only valid for the room it was
    /// created in, and presenting an unknown identifier, or one from
    /// another room, is an invalid session.
    pub fn require_session(&self, room: u64, session: u64) -> (r: Result<Session, ApiError>)
        ensures
            r matches Ok(s) ==> self.store.session_of(room, session) == Some((s.user@, s.ts)),
            r == Err::<Session, ApiError>(ApiError::InvalidSession) ==> self.store.session_of(
                room,
                session,
            ) is None,
            r is Err ==> r == Err::<Session, ApiError>(ApiError::InvalidSession) || r == Err::<
                Session,
                ApiError,
            >(ApiError::StorageFailure),
    {
        match self.store.get_session(room, session) {
            Ok(Some(s)) => Ok(s),
            Ok(None) => Err(ApiError::InvalidSession),
            Err(_) => Err(ApiError::StorageFailure),
        }
    }

    /// Creates a room and eagerly materializes its channel, so the first
    /// subscriber cannot race the first publisher on channel creation.
    pub fn create_room(&mut self) -> (r: Result<u64, ApiError>)
        ensures
            r matches Ok(id) ==> {
                &&& id < ID_SPACE
                &&& !old(self).store.rooms().contains(id)
                &&& final(self).store.rooms() == old(self).store.rooms().insert(id)
                &&& final(self).store.room_wf(id)
                &&& final(self).store.msg_count_is(id, 0)
                &&& final(self).store.sessions_raw(id) == crate::store::empty_tree()
                &&& final(self).store.votes_raw(id) == crate::store::empty_tree()
                &&& final(self).chans.rooms() == old(self).chans.rooms().insert(id)
                &&& forall|r2: u64|
                    r2 != id ==> final(self).store.messages_raw(r2) == old(self).store.messages_raw(r2) && final(self).store.sessions_raw(r2) == old(self).store.sessions_raw(r2) && final(self).store.votes_raw(r2) == old(self).store.votes_raw(r2)
            },
            r is Err ==> r == Err::<u64, ApiError>(ApiError::StorageFailure),
    {
        let id = match self.store.add_room() {
            Ok(id) => id,
            Err(e) => {
                return Err(e);
            },
        };
        let _chan = self.chans.channel_for(id);
        proof {
            assert(self.store.msg_count_is(id, 0)) by {
                assert(self.store.messages_raw(id).dom() =~= crate::store::msg_dom(0));
            }
        }
        Ok(id)
    }

    /// Creates a session in an existing room, stamped with the current
    /// time, and returns its unpredictable identifier: the caller's
    /// bearer credential for this room.
    pub fn create_session(&mut self, room: u64, user: &str) -> (r: Result<u64, ApiError>)
        ensures
            r matches Ok(id) ==> {
                &&& id < ID_SPACE
                &&& old(self).store.rooms().contains(room)
                &&& !old(self).store.sessions_raw(room).contains_key(be8(id))
                &&& final(self).store.session_of(room, id) matches Some(p) && p.0 == user@
                &&& forall|s2: u64|
                    s2 != id ==> final(self).store.session_of(room, s2) == old(self).store.session_of(room, s2)
                &&& old(self).store.sessions_wf(room) ==> final(self).store.sessions_wf(room)
                &&& final(self).store.rooms() == old(self).store.rooms()
                &&& forall|r2: u64|
                    final(self).store.messages_raw(r2) == old(self).store.messages_raw(r2)
                        && final(self).store.votes_raw(r2) == old(self).store.votes_raw(r2)
                &&& forall|r2: u64|
                    r2 != room ==> final(self).store.sessions_raw(r2) == old(self).store.sessions_raw(r2)
                &&& final(self).chans == old(self).chans
            },
            r == Err::<u64, ApiError>(ApiError::RoomNotFound) ==> !old(self).store.rooms().contains(
                room,
            ) && *final(self) == *old(self),
            !old(self).store.rooms().contains(room) ==> r is Err,
            r is Err ==> r == Err::<u64, ApiError>(ApiError::RoomNotFound) || r == Err::<
                u64,
                ApiError,
            >(ApiError::StorageFailure),
    {
        match self.store.room_exists(room) {
            Ok(true) => {},
            Ok(false) => {
                return Err(ApiError::RoomNotFound);
            },
            Err(_) => {
                return Err(ApiError::StorageFailure);
            },
        }
        let session = Session { user: user.to_string(), ts: now_millis() };
        match self.store.add_session(room, &session) {
            Ok(id) => Ok(id),
            Err(_) => Err(ApiError::StorageFailure),
        }
    }

    /// Joins a stored message with its author's current label and a vote
    /// count into the outward-facing record.
    pub fn outgoing_message(
        &self,
        sess: &Session,
        id: u64,
        msg: &Message,
        votes: usize,
    ) -> (r: OutgoingMessage)
        ensures
            r.id == id && r.body@ == msg.body@ && r.user@ == sess.user@ && r.votes == votes
                && r.ts == msg.ts,
    {
        OutgoingMessage {
            id,
            body: msg.body.clone(),
            user: sess.user.clone(),
            votes,
            ts: msg.ts,
        }
    }

    /// Records a message in the room's history, stamped with the current
    /// time, and returns the outgoing record — a fresh message with a
    /// vote count of zero — for the caller to publish on the room's
    /// channel after this call returns. The caller has already validated
    /// the room and resolved the session.
    pub fn send_message(
        &mut self,
        room: u64,
        session_id: u64,
        session: &Session,
        body: String,
    ) -> (r: Result<OutgoingMessage, ApiError>)
        ensures
            r matches Ok(out) ==> {
                &&& out.body@ == body@ && out.user@ == session.user@ && out.votes == 0
                &&& final(self).store.message_of(room, out.id) == Some((body@, session_id, out.ts))
                &&& !old(self).store.messages_raw(room).contains_key(be8(out.id))
                &&& forall|i: u64|
                    old(self).store.messages_raw(room).contains_key(be8(i)) ==> i < out.id
                &&& forall|i: u64|
                    i != out.id ==> final(self).store.message_of(room, i) == old(self).store.message_of(room, i)
                &&& forall|n: nat|
                    old(self).store.msg_count_is(room, n) ==> out.id == n && final(self).store.msg_count_is(room, (n + 1) as nat)
                &&& old(self).store.messages_wf(room) ==> final(self).store.messages_wf(room)
                &&& final(self).store.rooms() == old(self).store.rooms()
                &&& forall|r2: u64|
                    final(self).store.sessions_raw(r2) == old(self).store.sessions_raw(r2)
                        && final(self).store.votes_raw(r2) == old(self).store.votes_raw(r2)
                &&& forall|r2: u64|
                    r2 != room ==> final(self).store.messages_raw(r2) == old(self).store.messages_raw(r2)
                &&& final(self).chans == old(self).chans
            },
            r is Err ==> r == Err::<OutgoingMessage, ApiError>(ApiError::StorageFailure),
    {
        let msg = Message { body, session: session_id, ts: now_millis() };
        let id = match self.store.add_message(room, &msg) {
            Ok(id) => id,
            Err(e) => {
                return Err(e);
            },
        };
        Ok(self.outgoing_message(session, id, &msg, 0))
    }

    /// Accepts a message into a room: validates that the room exists and
    /// that the session belongs to it, records the message durably, and
    /// returns the outgoing record for the caller to publish.
    pub fn post_message(&mut self, room: u64, session: u64, body: String) -> (r: Result<
        OutgoingMessage,
        ApiError,
    >)
        ensures
            r matches Ok(out) ==> {
                &&& old(self).store.rooms().contains(room)
                &&& old(self).store.session_of(room, session) is Some
                &&& out.user@ == old(self).store.session_of(room, session)->Some_0.0
                &&& out.body@ == body@ && out.votes == 0
                &&& final(self).store.message_of(room, out.id) == Some((body@, session, out.ts))
                &&& !old(self).store.messages_raw(room).contains_key(be8(out.id))
                &&& forall|i: u64|
                    old(self).store.messages_raw(room).contains_key(be8(i)) ==> i < out.id
                &&& forall|i: u64|
                    i != out.id ==> final(self).store.message_of(room, i) == old(self).store.message_of(room, i)
                &&& forall|n: nat|
                    old(self).store.msg_count_is(room, n) ==> out.id == n && final(self).store.msg_count_is(room, (n + 1) as nat)
                &&& old(self).store.messages_wf(room) ==> final(self).store.messages_wf(room)
                &&& final(self).store.rooms() == old(self).store.rooms()
                &&& forall|r2: u64|
                    final(self).store.sessions_raw(r2) == old(self).store.sessions_raw(r2)
                        && final(self).store.votes_raw(r2) == old(self).store.votes_raw(r2)
                &&& forall|r2: u64|
                    r2 != room ==> final(self).store.messages_raw(r2) == old(self).store.messages_raw(r2)
                &&& final(self).chans == old(self).chans
            },
            r == Err::<OutgoingMessage, ApiError>(ApiError::RoomNotFound) ==> !old(self).store.rooms().contains(room) && *final(self) == *old(self),
            r == Err::<OutgoingMessage, ApiError>(ApiError::InvalidSession) ==> old(self).store.rooms().contains(room) && old(self).store.session_of(room, session) is None && *final(self) == *old(self),
            !old(self).store.rooms().contains(room) ==> r is Err,
            r is Err ==> r == Err::<OutgoingMessage, ApiError>(ApiError::RoomNotFound) || r
                == Err::<OutgoingMessage, ApiError>(ApiError::InvalidSession) || r == Err::<
                OutgoingMessage,
                ApiError,
            >(ApiError::StorageFailure),
    {
        match self.store.room_exists(room) {
            Ok(true) => {},
            Ok(false) => {
                return Err(ApiError::RoomNotFound);
            },
            Err(_) => {
                return Err(ApiError::StorageFailure);
            },
        }
        let sess = match self.require_session(room, session) {
            Ok(s) => s,
            Err(e) => {
                return Err(e);
            },
        };
        self.send_message(room, session, &sess, body)
    }

    /// Casts or withdraws a vote: validates the room and session, applies
    /// the idempotent vote transition, and returns the vote-change event
    /// for the caller to publish. Setting an already-set vote and
    /// resetting an absent one leave the count unchanged.
    pub fn cast_vote(&mut self, room: u64, session: u64, message: u64, want_set: bool) -> (r:
        Result<VoteChange, ApiError>)
        ensures
            r matches Ok(vc) ==> {
                &&& vc.message == message
                &&& vc.delta == (if want_set { 1i8 } else { -1i8 })
                &&& old(self).store.rooms().contains(room)
                &&& old(self).store.session_of(room, session) is Some
                &&& forall|m2: u64, s2: u64|
                    final(self).store.has_vote(room, m2, s2) == (if want_set {
                        old(self).store.has_vote(room, m2, s2) || (m2 == message && s2 == session)
                    } else {
                        old(self).store.has_vote(room, m2, s2) && !(m2 == message && s2 == session)
                    })
                &&& old(self).store.votes_wf(room) ==> final(self).store.votes_wf(room)
                &&& old(self).store.votes_wf(room) ==> final(self).store.vote_count(room, message)
                    == (if want_set {
                    if old(self).store.has_vote(room, message, session) {
                        old(self).store.vote_count(room, message)
                    } else {
                        old(self).store.vote_count(room, message) + 1
                    }
                } else {
                    if old(self).store.has_vote(room, message, session) {
                        (old(self).store.vote_count(room, message) - 1) as nat
                    } else {
                        old(self).store.vote_count(room, message)
                    }
                })
                &&& forall|m2: u64|
                    m2 != message ==> final(self).store.vote_count(room, m2) == old(self).store.vote_count(room, m2)
                &&& final(self).store.rooms() == old(self).store.rooms()
                &&& forall|r2: u64|
                    final(self).store.sessions_raw(r2) == old(self).store.sessions_raw(r2)
                        && final(self).store.messages_raw(r2) == old(self).store.messages_raw(r2)
                &&& forall|r2: u64|
                    r2 != room ==> final(self).store.votes_raw(r2) == old(self).store.votes_raw(r2)
                &&& final(self).chans == old(self).chans
            },
            r == Err::<VoteChange, ApiError>(ApiError::RoomNotFound) ==> !old(self).store.rooms().contains(room) && *final(self) == *old(self),
            r == Err::<VoteChange, ApiError>(ApiError::InvalidSession) ==> old(self).store.rooms().contains(room) && old(self).store.session_of(room, session) is None && *final(self) == *old(self),
            !old(self).store.rooms().contains(room) ==> r is Err,
            r is Err ==> r == Err::<VoteChange, ApiError>(ApiError::RoomNotFound) || r == Err::<
                VoteChange,
                ApiError,
            >(ApiError::InvalidSession) || r == Err::<VoteChange, ApiError>(
                ApiError::StorageFailure,
            ),
    {
        match self.store.room_exists(room) {
            Ok(true) => {},
            Ok(false) => {
                return Err(ApiError::RoomNotFound);
            },
            Err(_) => {
                return Err(ApiError::StorageFailure);
            },
        }
        match self.require_session(room, session) {
            Ok(_) => {},
            Err(e) => {
                return Err(e);
            },
        }
        let outcome = if want_set {
            self.store.set_vote(room, message, session)
        } else {
            self.store.reset_vote(room, message, session)
        };
        match outcome {
            Ok(()) => Ok(VoteChange { message, delta: if want_set { 1 } else { -1 } }),
            Err(_) => Err(ApiError::StorageFailure),
        }
    }

    /// Attaches a live subscriber to an existing room: the returned
    /// endpoint receives every event published on the room's channel
    /// after this call. A late joiner reconciles by reading history
    /// first, then subscribing.
    pub fn subscribe(&mut self, room: u64) -> (r: Result<Channel, ApiError>)
        ensures
            r is Ok ==> old(self).store.rooms().contains(room) && final(self).chans.rooms() == old(self).chans.rooms().insert(room),
            r matches Ok(c) ==> final(self).chans.has_channel(room) && chan_of(c) == chan_of(
                final(self).chans.channel_at(room),
            ),
            forall|r2: u64|
                old(self).chans.has_channel(r2) ==> final(self).chans.has_channel(r2)
                    && final(self).chans.channel_at(r2) == old(self).chans.channel_at(r2),
            final(self).store == old(self).store,
            r == Err::<Channel, ApiError>(ApiError::RoomNotFound) ==> !old(self).store.rooms().contains(room),
            !old(self).store.rooms().contains(room) ==> r is Err,
            r is Err ==> r == Err::<Channel, ApiError>(ApiError::RoomNotFound) || r == Err::<
                Channel,
                ApiError,
            >(ApiError::StorageFailure),
    {
        match self.store.room_exists(room) {
            Ok(true) => Ok(self.chans.channel_for(room)),
            Ok(false) => Err(ApiError::RoomNotFound),
            Err(_) => Err(ApiError::StorageFailure),
        }
    }

    /// Reads the room's history as one consistent snapshot: every stored
    /// message in ascending identifier order, each joined with its
    /// author's current label and live vote count. A record whose author
    /// session cannot be resolved is skipped rather than failing the
    /// whole read; callers that must surface the integrity warning read
    /// through [`State::get_history_with_skipped`], which also reports
    /// how many records were dropped.
    pub fn get_history(&self, room: u64) -> (r: Result<Vec<OutgoingMessage>, ApiError>)
        ensures
            r matches Ok(v) ==> self.store.rooms().contains(room) && (self.store.room_wf(room)
                ==> forall|n: nat|
                self.store.msg_count_is(room, n) ==> history_matches(v@, self.store, room, n)),
            r == Err::<Vec<OutgoingMessage>, ApiError>(ApiError::RoomNotFound) ==> !self.store.rooms().contains(
                room,
            ),
            !self.store.rooms().contains(room) ==> r is Err,
            r is Err ==> r == Err::<Vec<OutgoingMessage>, ApiError>(ApiError::RoomNotFound) || r
                == Err::<Vec<OutgoingMessage>, ApiError>(ApiError::StorageFailure),
    {
        match self.get_history_with_skipped(room) {
            Ok(p) => Ok(p.0),
            Err(e) => Err(e),
        }
    }

    /// Reads the room's history and also reports how many records were
    /// skipped because their author session could not be resolved — the
    /// read-time store-integrity warning, flagged to the caller rather
    /// than passed over in silence. In a well-formed room the count of
    /// returned and skipped records together is exactly the room's
    /// message count.
    #[verifier::rlimit(50)]
    pub fn get_history_with_skipped(&self, room: u64) -> (r: Result<
        (Vec<OutgoingMessage>, usize),
        ApiError,
    >)
        ensures
            r matches Ok(p) ==> self.store.rooms().contains(room) && (self.store.room_wf(room)
                ==> forall|n: nat|
                self.store.msg_count_is(room, n) ==> history_matches(p.0@, self.store, room, n)
                    && p.1 + render_history(self.store, room, n).len() == n),
            r == Err::<(Vec<OutgoingMessage>, usize), ApiError>(ApiError::RoomNotFound)
                ==> !self.store.rooms().contains(room),
            !self.store.rooms().contains(room) ==> r is Err,
            r is Err ==> r == Err::<(Vec<OutgoingMessage>, usize), ApiError>(
                ApiError::RoomNotFound,
            ) || r == Err::<(Vec<OutgoingMessage>, usize), ApiError>(ApiError::StorageFailure),
    {
        match self.store.room_exists(room) {
            Ok(true) => {},
            Ok(false) => {
                return Err(ApiError::RoomNotFound);
            },
            Err(_) => {
                return Err(ApiError::StorageFailure);
            },
        }
        let sessions = match self.store.all_sessions(room) {
            Ok(m) => m,
            Err(_) => {
                return Err(ApiError::StorageFailure);
            },
        };
        let msgs = match self.store.iter_messages(room) {
            Ok(v) => v,
            Err(_) => {
                return Err(ApiError::StorageFailure);
            },
        };
        let mut out: Vec<OutgoingMessage> = Vec::new();
        let mut skipped: usize = 0;
        let mut idx: usize = 0;
        let ghost wf = self.store.room_wf(room);
        while idx < msgs.len()
            invariant
                idx <= msgs.len(),
                skipped <= idx,
                wf == self.store.room_wf(room),
                wf ==> skipped + render_history(self.store, room, idx as nat).len() == idx,
                wf ==> forall|j: int|
                    0 <= j < msgs@.len() ==> (#[trigger] msgs@[j]).0 as int == j
                        && self.store.message_of(room, msgs@[j].0) == Some(
                        (msgs@[j].1.body@, msgs@[j].1.session, msgs@[j].1.ts),
                    ),
                wf ==> forall|sid: u64|
                    #[trigger] sessions@.contains_key(sid) <==> self.store.session_of(
                        room,
                        sid,
                    ) is Some,
                wf ==> forall|sid: u64|
                    sessions@.contains_key(sid) ==> self.store.session_of(room, sid) == Some(
                        (sessions@[sid].user@, sessions@[sid].ts),
                    ),
                wf ==> out@.len() == render_history(self.store, room, idx as nat).len(),
                wf ==> forall|j: int|
                    0 <= j < out@.len() ==> out_matches(
                        #[trigger] out@[j],
                        render_history(self.store, room, idx as nat)[j],
                    ),
            decreases msgs.len() - idx,
        {
            let mid = msgs[idx].0;
            let author = msgs[idx].1.session;
            match sessions.get(&author) {
                Some(sess) => {
                    let votes = match self.store.count_votes(room, mid) {
                        Ok(c) => c,
                        Err(_) => {
                            return Err(ApiError::StorageFailure);
                        },
                    };
                    let rec = self.outgoing_message(sess, mid, &msgs[idx].1, votes);
                    out.push(rec);
                },
                None => {
                    // The author session is missing: a store-integrity
                    // defect. Skip this record, count it, keep the rest.
                    skipped = skipped + 1;
                },
            }
            idx = idx + 1;
        }
        proof {
            if wf {
                assert forall|n: nat| self.store.msg_count_is(room, n) implies history_matches(
                    out@,
                    self.store,
                    room,
                    n,
                ) && skipped + render_history(self.store, room, n).len() == n by {
                    assert(msgs@.len() == n);
                }
            }
        }
        Ok((out, skipped))
    }
}

/// The returned history has the length and contents of the rendered one.
pub open spec fn history_matches(
    out: Seq<OutgoingMessage>,
    s: Store,
    room: u64,
    n: nat,
) -> bool {
    out.len() == render_history(s, room, n).len() && forall|j: int|
        0 <= j < out.len() ==> out_matches(#[trigger] out[j], render_history(s, room, n)[j])
}

} // verus!
