//! The durable store: the single source of truth for rooms, sessions,
//! messages and votes.
//!
//! Everything lives in one ordered, crash-consistent key-value database
//! with one tree per logical collection: a global room-existence tree, and
//! per-room message, session and vote trees. The model of the database is
//! [`db_tree`]: the contents of each named tree as a map from byte-string
//! keys to byte-string values. Every operation of the store is specified
//! against that model; the calls into the database itself stand behind
//! trusted wrappers whose contracts state what the database's documentation
//! promises, and nothing more.
//!
//! Message identifiers are allocated sequentially per room, starting at
//! zero, so that within a room the tree's key order is the posting order
//! and identifiers are free of gaps. Room and session identifiers are
//! generated unpredictably, since a session identifier doubles as a bearer
//! credential; generation checks for collisions and retries instead of
//! overwriting.

use vstd::prelude::*;

use std::collections::HashMap;

use crate::bytekey::be8;
use crate::bytekey::be8_decode;
use crate::bytekey::has_prefix;
use crate::bytekey::lemma_be8_injective;
use crate::bytekey::lemma_be8_lex;
use crate::bytekey::lex_lt;
use crate::bytekey::u64_from_be8;
use crate::bytekey::u64_to_be8;
use crate::idcodec::ID_SPACE;
use crate::types::ApiError;
use crate::types::Message;
use crate::types::Session;
use crate::wire::dec_message;
use crate::wire::dec_session;
use crate::wire::enc_message;
use crate::wire::enc_session;
use crate::wire::message_bytes_dec;
use crate::wire::session_bytes_dec;

verus! {

broadcast use vstd::std_specs::hash::group_hash_axioms;

/// The contents of the tree called `name` in the database `db`, as a map
/// from byte-string keys to byte-string values. A tree that was never
/// written is the empty map.
pub uninterp spec fn db_tree(db: sled::Db, name: Seq<u8>) -> Map<Seq<u8>, Seq<u8>>;

/// The name of the global room-existence tree.
pub open spec fn rooms_tree_name() -> Seq<u8> {
    seq![0u8]
}

/// The name of a per-room tree: a scope byte followed by the room's key.
pub open spec fn scoped_name(scope: u8, room: u64) -> Seq<u8> {
    seq![scope].add(be8(room))
}

/// The name of a room's message tree.
pub open spec fn messages_tree_name(room: u64) -> Seq<u8> {
    scoped_name(0u8, room)
}

/// The name of a room's session tree.
pub open spec fn sessions_tree_name(room: u64) -> Seq<u8> {
    scoped_name(1u8, room)
}

/// The name of a room's vote tree.
pub open spec fn votes_tree_name(room: u64) -> Seq<u8> {
    scoped_name(2u8, room)
}

/// The composite key of a vote: the message's key followed by the voting
/// session's key, so that one message's votes share one key prefix.
pub open spec fn pair_key(a: u64, b: u64) -> Seq<u8> {
    be8(a).add(be8(b))
}

/// Builds the tree name of a per-room collection.
fn scoped_id(scope: u8, id: u64) -> (r: Vec<u8>)
    ensures
        r@ == scoped_name(scope, id),
{
    let mut v: Vec<u8> = Vec::new();
    v.push(scope);
    let mut key = u64_to_be8(id);
    v.append(&mut key);
    proof {
        assert(v@ =~= scoped_name(scope, id));
    }
    v
}

/// Builds the composite key of a vote.
fn pair_id(a: u64, b: u64) -> (r: Vec<u8>)
    ensures
        r@ == pair_key(a, b),
{
    let mut v = u64_to_be8(a);
    let mut second = u64_to_be8(b);
    v.append(&mut second);
    proof {
        assert(v@ =~= pair_key(a, b));
    }
    v
}

/// Builds the name of the room-existence tree.
fn rooms_tree_id() -> (r: Vec<u8>)
    ensures
        r@ == rooms_tree_name(),
{
    let mut v: Vec<u8> = Vec::new();
    v.push(0u8);
    proof {
        assert(v@ =~= rooms_tree_name());
    }
    v
}

/// The tree names of distinct collections are distinct: the room tree's
/// name is shorter than every scoped name, and scoped names agree only on
/// the same scope and room.
pub proof fn lemma_tree_names_distinct(s1: u8, r1: u64, s2: u8, r2: u64)
    ensures
        rooms_tree_name() != scoped_name(s1, r1),
        (s1 != s2 || r1 != r2) ==> scoped_name(s1, r1) != scoped_name(s2, r2),
{
    assert(rooms_tree_name().len() == 1);
    assert(scoped_name(s1, r1).len() == 9);
    if s1 != s2 {
        assert(scoped_name(s1, r1)[0] == s1);
        assert(scoped_name(s2, r2)[0] == s2);
    } else if r1 != r2 {
        lemma_be8_injective(r1, r2);
        if scoped_name(s1, r1) == scoped_name(s2, r2) {
            assert(forall|i: int|
                0 <= i < 8 ==> be8(r1)[i] == scoped_name(s1, r1)[i + 1] && be8(r2)[i]
                    == scoped_name(s2, r2)[i + 1]);
            assert(be8(r1) =~= be8(r2));
        }
    }
}

/// The durable store: a handle on the database, modeled by the contents of
/// its trees.
pub struct Store {
    pub db: sled::Db,
}

impl Store {
    /// The contents of the tree called `name`.
    pub open spec fn tree(self, name: Seq<u8>) -> Map<Seq<u8>, Seq<u8>> {
        db_tree(self.db, name)
    }

    /// The set of rooms that exist: those whose key is in the
    /// room-existence tree.
    pub open spec fn rooms(self) -> Set<u64> {
        Set::new(|id: u64| self.tree(rooms_tree_name()).contains_key(be8(id)))
    }

    /// The raw contents of a room's session tree.
    pub open spec fn sessions_raw(self, room: u64) -> Map<Seq<u8>, Seq<u8>> {
        self.tree(sessions_tree_name(room))
    }

    /// The raw contents of a room's message tree.
    pub open spec fn messages_raw(self, room: u64) -> Map<Seq<u8>, Seq<u8>> {
        self.tree(messages_tree_name(room))
    }

    /// The raw contents of a room's vote tree.
    pub open spec fn votes_raw(self, room: u64) -> Map<Seq<u8>, Seq<u8>> {
        self.tree(votes_tree_name(room))
    }

    /// The session stored under `sid` in `room`: its label and creation
    /// time, or nothing if absent or not decodable.
    pub open spec fn session_of(self, room: u64, sid: u64) -> Option<(Seq<char>, i64)> {
        if self.sessions_raw(room).contains_key(be8(sid)) {
            session_bytes_dec(self.sessions_raw(room)[be8(sid)])
        } else {
            None
        }
    }

    /// The message stored under `mid` in `room`: its body, author session
    /// and creation time, or nothing if absent or not decodable.
    pub open spec fn message_of(self, room: u64, mid: u64) -> Option<(Seq<char>, u64, i64)> {
        if self.messages_raw(room).contains_key(be8(mid)) {
            message_bytes_dec(self.messages_raw(room)[be8(mid)])
        } else {
            None
        }
    }

    /// Whether `session` currently endorses `message` in `room`.
    pub open spec fn has_vote(self, room: u64, message: u64, session: u64) -> bool {
        self.votes_raw(room).contains_key(pair_key(message, session))
    }

    /// The vote keys that share `message`'s prefix: one per session that
    /// currently endorses the message.
    pub open spec fn vote_key_set(self, room: u64, message: u64) -> Set<Seq<u8>> {
        self.votes_raw(room).dom().filter(|k: Seq<u8>| has_prefix(k, be8(message)))
    }

    /// The number of sessions currently endorsing `message` in `room`.
    pub open spec fn vote_count(self, room: u64, message: u64) -> nat {
        self.vote_key_set(room, message).len()
    }

    /// The message tree of `room` holds exactly the identifiers below `n`.
    pub open spec fn msg_count_is(self, room: u64, n: nat) -> bool {
        self.messages_raw(room).dom() == msg_dom(n)
    }

    /// The message tree of `room` is well formed: its keys are exactly the
    /// identifiers below some count, with no gaps, and every value decodes.
    pub open spec fn messages_wf(self, room: u64) -> bool {
        &&& exists|n: nat| self.msg_count_is(room, n)
        &&& forall|mid: u64|
            self.messages_raw(room).contains_key(be8(mid)) ==> message_bytes_dec(
                self.messages_raw(room)[be8(mid)],
            ) is Some
    }

    /// The session tree of `room` is well formed: finitely many entries,
    /// every key an 8-byte identifier and every value decodable.
    pub open spec fn sessions_wf(self, room: u64) -> bool {
        &&& self.sessions_raw(room).dom().finite()
        &&& forall|k: Seq<u8>|
            self.sessions_raw(room).contains_key(k) ==> k.len() == 8 && session_bytes_dec(
                self.sessions_raw(room)[k],
            ) is Some
    }

    /// The vote tree of `room` is well formed: finitely many entries, every
    /// key a 16-byte composite of message and session identifiers.
    pub open spec fn votes_wf(self, room: u64) -> bool {
        &&& self.votes_raw(room).dom().finite()
        &&& forall|k: Seq<u8>| self.votes_raw(room).contains_key(k) ==> k.len() == 16
    }

    /// All three trees of `room` are well formed. Room creation establishes
    /// this and every operation preserves it.
    pub open spec fn room_wf(self, room: u64) -> bool {
        &&& self.messages_wf(room)
        &&& self.sessions_wf(room)
        &&& self.votes_wf(room)
    }

    /// A store with nothing in it: every tree is the empty map.
    pub open spec fn is_empty_store(self) -> bool {
        forall|n: Seq<u8>| db_tree(self.db, n) == empty_tree()
    }
}

/// The set of the 8-byte keys of all identifiers below `n`.
pub open spec fn msg_dom(n: nat) -> Set<Seq<u8>> {
    Set::new(|k: Seq<u8>| exists|i: u64| (i as nat) < n && k == be8(i))
}

// ------------------------------------------------------------------
// Trusted wrappers around the database.
// ------------------------------------------------------------------

impl Store {
    /// Relies on sled::open: opens (or creates) the database at `path`.
    /// Nothing is assumed of the contents found on disk.
    #[verifier::external_body]
    fn raw_open(path: &str) -> (r: Result<Store, sled::Error>) {
        Ok(Store { db: sled::open(path)? })
    }

    /// Relies on sled::Config::temporary: a temporary database begins with
    /// no trees and no entries.
    #[verifier::external_body]
    fn raw_temp() -> (r: Result<Store, sled::Error>)
        ensures
            match r {
                Ok(s) => s.is_empty_store(),
                Err(_) => true,
            },
    {
        Ok(Store { db: sled::Config::new().temporary(true).open()? })
    }

    /// Relies on sled::Db::open_tree and sled::Tree::insert: sets `key` to
    /// `val` in the named tree; no other tree is touched.
    #[verifier::external_body]
    fn raw_insert(&mut self, name: &[u8], key: &[u8], val: &[u8]) -> (r: Result<
        (),
        sled::Error,
    >)
        ensures
            r is Ok ==> db_tree(final(self).db, name@) == db_tree(old(self).db, name@).insert(
                key@,
                val@,
            ),
            forall|n: Seq<u8>|
                n != name@ ==> db_tree(final(self).db, n) == db_tree(old(self).db, n),
    {
        let tree = self.db.open_tree(name)?;
        tree.insert(key, val)?;
        Ok(())
    }

    /// Relies on sled::Db::open_tree and sled::Tree::remove: removes `key`
    /// from the named tree; no other tree is touched.
    #[verifier::external_body]
    fn raw_remove(&mut self, name: &[u8], key: &[u8]) -> (r: Result<(), sled::Error>)
        ensures
            r is Ok ==> db_tree(final(self).db, name@) == db_tree(old(self).db, name@).remove(
                key@,
            ),
            forall|n: Seq<u8>|
                n != name@ ==> db_tree(final(self).db, n) == db_tree(old(self).db, n),
    {
        let tree = self.db.open_tree(name)?;
        tree.remove(key)?;
        Ok(())
    }

    /// Relies on sled::Db::open_tree and sled::Tree::clear: empties the
    /// named tree; no other tree is touched.
    #[verifier::external_body]
    fn raw_clear(&mut self, name: &[u8]) -> (r: Result<(), sled::Error>)
        ensures
            r is Ok ==> db_tree(final(self).db, name@) == empty_tree(),
            forall|n: Seq<u8>|
                n != name@ ==> db_tree(final(self).db, n) == db_tree(old(self).db, n),
    {
        let tree = self.db.open_tree(name)?;
        tree.clear()?;
        Ok(())
    }

    /// Relies on sled::Db::open_tree and sled::Tree::get: looks `key` up in
    /// the named tree.
    #[verifier::external_body]
    fn raw_get(&self, name: &[u8], key: &[u8]) -> (r: Result<Option<Vec<u8>>, sled::Error>)
        ensures
            match r {
                Ok(Some(v)) => db_tree(self.db, name@).contains_key(key@) && v@ == db_tree(
                    self.db,
                    name@,
                )[key@],
                Ok(None) => !db_tree(self.db, name@).contains_key(key@),
                Err(_) => true,
            },
    {
        let tree = self.db.open_tree(name)?;
        Ok(tree.get(key)?.map(|v| v.to_vec()))
    }

    /// Relies on sled::Db::open_tree and sled::Tree::contains_key.
    #[verifier::external_body]
    fn raw_contains(&self, name: &[u8], key: &[u8]) -> (r: Result<bool, sled::Error>)
        ensures
            match r {
                Ok(b) => b == db_tree(self.db, name@).contains_key(key@),
                Err(_) => true,
            },
    {
        let tree = self.db.open_tree(name)?;
        tree.contains_key(key)
    }

    /// Relies on sled::Db::open_tree and sled::Tree::last: the entry with
    /// the lexicographically greatest key, or nothing if the tree is empty.
    #[verifier::external_body]
    fn raw_last(&self, name: &[u8]) -> (r: Result<Option<(Vec<u8>, Vec<u8>)>, sled::Error>)
        ensures
            match r {
                Ok(Some(kv)) => db_tree(self.db, name@).contains_key(kv.0@) && db_tree(
                    self.db,
                    name@,
                )[kv.0@] == kv.1@ && forall|k: Seq<u8>|
                    db_tree(self.db, name@).contains_key(k) ==> k == kv.0@ || lex_lt(k, kv.0@),
                Ok(None) => db_tree(self.db, name@) == empty_tree(),
                Err(_) => true,
            },
    {
        let tree = self.db.open_tree(name)?;
        Ok(tree.last()?.map(|(k, v)| (k.to_vec(), v.to_vec())))
    }

    /// Relies on sled::Db::open_tree and sled::Tree::iter: all entries of
    /// the named tree, in ascending lexicographic key order. The returned
    /// entries determine the tree's contents exactly.
    #[verifier::external_body]
    fn raw_entries(&self, name: &[u8]) -> (r: Result<Vec<(Vec<u8>, Vec<u8>)>, sled::Error>)
        ensures
            match r {
                Ok(es) => db_tree(self.db, name@) == entries_map(es@) && forall|i: int, j: int|
                    0 <= i < j < es@.len() ==> lex_lt(es@[i].0@, es@[j].0@),
                Err(_) => true,
            },
    {
        let tree = self.db.open_tree(name)?;
        tree.iter().map(|kv| kv.map(|(k, v)| (k.to_vec(), v.to_vec()))).collect()
    }

    /// Relies on sled::Db::open_tree and sled::Tree::scan_prefix: the keys
    /// of the named tree that start with `prefix`, in ascending
    /// lexicographic order, each exactly once.
    #[verifier::external_body]
    fn raw_prefix_keys(&self, name: &[u8], prefix: &[u8]) -> (r: Result<Vec<Vec<u8>>, sled::Error>)
        ensures
            match r {
                Ok(ks) => {
                    &&& forall|i: int, j: int|
                        0 <= i < j < ks@.len() ==> lex_lt(ks@[i]@, ks@[j]@)
                    &&& forall|i: int|
                        0 <= i < ks@.len() ==> db_tree(self.db, name@).contains_key(ks@[i]@)
                            && has_prefix(ks@[i]@, prefix@)
                    &&& forall|k: Seq<u8>|
                        db_tree(self.db, name@).contains_key(k) && has_prefix(k, prefix@)
                            ==> exists|i: int| 0 <= i < ks@.len() && ks@[i]@ == k
                },
                Err(_) => true,
            },
    {
        let tree = self.db.open_tree(name)?;
        tree.scan_prefix(prefix).map(|kv| kv.map(|(k, _v)| k.to_vec())).collect()
    }
}

/// Relies on rand::random: an unpredictable 64-bit identifier. Nothing is
/// assumed of the value.
#[verifier::external_body]
fn random_id() -> (r: u64) {
    rand::random()
}

/// Draws an unpredictable identifier from the engine's identifier space:
/// 60 random bits, so that the identifier's short code never exceeds the
/// length the parser accepts.
fn fresh_engine_id() -> (r: u64)
    ensures
        r < ID_SPACE,
{
    let raw = random_id();
    let id = raw & 0x0fffffffffffffff;
    proof {
        assert((raw & 0x0fffffffffffffffu64) < 0x1000000000000000u64) by (bit_vector);
    }
    id
}

/// Maps a database fault to the engine's failure taxonomy: every I/O or
/// durability fault surfaces as `StorageFailure`.
fn store_err(_e: sled::Error) -> (r: ApiError)
    ensures
        r == ApiError::StorageFailure,
{
    ApiError::StorageFailure
}

/// The empty tree contents.
pub open spec fn empty_tree() -> Map<Seq<u8>, Seq<u8>> {
    Map::empty()
}

/// The map built from a sequence of key-value entries, later entries
/// winning; the model of what an in-order scan of a tree returned.
pub open spec fn entries_map(s: Seq<(Vec<u8>, Vec<u8>)>) -> Map<Seq<u8>, Seq<u8>>
    decreases s.len(),
{
    if s.len() == 0 {
        Map::empty()
    } else {
        entries_map(s.drop_last()).insert(s.last().0@, s.last().1@)
    }
}

// ------------------------------------------------------------------
// The verified operations of the store.
// ------------------------------------------------------------------

impl Store {
    /// Opens (or creates) the database at `path`. What is found on disk is
    /// whatever a previous run left there; rooms created through this
    /// handle are well formed from creation on. An I/O fault surfaces as
    /// a storage failure.
    pub fn new(path: &str) -> (r: Result<Store, ApiError>)
        ensures
            r is Err ==> r == Err::<Store, ApiError>(ApiError::StorageFailure),
    {
        match Store::raw_open(path) {
            Ok(s) => Ok(s),
            Err(e) => Err(store_err(e)),
        }
    }

    /// Opens a private, initially empty database that vanishes when the
    /// store is dropped.
    pub fn open_temporary() -> (r: Result<Store, ApiError>)
        ensures
            r matches Ok(s) ==> s.is_empty_store(),
    {
        match Store::raw_temp() {
            Ok(s) => Ok(s),
            Err(e) => Err(store_err(e)),
        }
    }

    /// Whether `room` exists. Existence is monotonic: rooms are created and
    /// never deleted.
    pub fn room_exists(&self, room: u64) -> (r: Result<bool, ApiError>)
        ensures
            r matches Ok(b) ==> b == self.rooms().contains(room),
            r is Err ==> r == Err::<bool, ApiError>(ApiError::StorageFailure),
    {
        let name = rooms_tree_id();
        let key = u64_to_be8(room);
        match self.raw_contains(name.as_slice(), key.as_slice()) {
            Ok(b) => Ok(b),
            Err(e) => Err(store_err(e)),
        }
    }

    /// Picks an unpredictable room identifier that does not exist yet,
    /// retrying on the (negligible) chance of a collision.
    fn pick_fresh_room_id(&self) -> (r: Result<u64, ApiError>)
        ensures
            r matches Ok(id) ==> !self.rooms().contains(id) && id < ID_SPACE,
            r is Err ==> r == Err::<u64, ApiError>(ApiError::StorageFailure),
    {
        let name = rooms_tree_id();
        let mut tries: u32 = 0;
        while tries < 16
            invariant
                name@ == rooms_tree_name(),
                tries <= 16,
            decreases 16 - tries,
        {
            let id = fresh_engine_id();
            let key = u64_to_be8(id);
            match self.raw_contains(name.as_slice(), key.as_slice()) {
                Ok(false) => {
                    return Ok(id);
                },
                Ok(true) => {},
                Err(e) => {
                    return Err(store_err(e));
                },
            }
            tries = tries + 1;
        }
        Err(ApiError::StorageFailure)
    }

    /// Creates a room: picks a fresh unpredictable identifier, empties its
    /// per-room trees, and records its existence. On success the new room
    /// exists, did not exist before, starts with no sessions, messages or
    /// votes, and every other room's data is untouched.
    pub fn add_room(&mut self) -> (r: Result<u64, ApiError>)
        ensures
            r matches Ok(id) ==> {
                &&& id < ID_SPACE
                &&& !old(self).rooms().contains(id)
                &&& final(self).rooms() == old(self).rooms().insert(id)
                &&& final(self).messages_raw(id) == empty_tree()
                &&& final(self).sessions_raw(id) == empty_tree()
                &&& final(self).votes_raw(id) == empty_tree()
                &&& final(self).room_wf(id)
                &&& forall|r2: u64|
                    r2 != id ==> final(self).messages_raw(r2) == old(self).messages_raw(r2)
                        && final(self).sessions_raw(r2) == old(self).sessions_raw(r2)
                        && final(self).votes_raw(r2) == old(self).votes_raw(r2)
            },
            r is Err ==> r == Err::<u64, ApiError>(ApiError::StorageFailure),
    {
        let id = match self.pick_fresh_room_id() {
            Ok(id) => id,
            Err(e) => {
                return Err(e);
            },
        };
        let msg_name = scoped_id(0u8, id);
        let sess_name = scoped_id(1u8, id);
        let vote_name = scoped_id(2u8, id);
        let rooms_name = rooms_tree_id();
        let key = u64_to_be8(id);
        proof {
            broadcast_tree_names(id);
        }
        if let Err(e) = self.raw_clear(msg_name.as_slice()) {
            return Err(store_err(e));
        }
        if let Err(e) = self.raw_clear(sess_name.as_slice()) {
            return Err(store_err(e));
        }
        if let Err(e) = self.raw_clear(vote_name.as_slice()) {
            return Err(store_err(e));
        }
        let empty: Vec<u8> = Vec::new();
        if let Err(e) = self.raw_insert(rooms_name.as_slice(), key.as_slice(), empty.as_slice()) {
            return Err(store_err(e));
        }
        proof {
            assert(self.rooms() =~= old(self).rooms().insert(id)) by {
                assert forall|x: u64| #[trigger] self.rooms().contains(x) == old(
                    self,
                ).rooms().insert(id).contains(x) by {
                    lemma_be8_injective(x, id);
                }
            }
            assert(self.msg_count_is(id, 0)) by {
                assert(self.messages_raw(id).dom() =~= msg_dom(0));
            }
        }
        Ok(id)
    }
}

impl Store {
    /// Picks an unpredictable session identifier not yet used in `room`,
    /// retrying on the (negligible) chance of a collision.
    fn pick_fresh_session_id(&self, room: u64) -> (r: Result<u64, ApiError>)
        ensures
            r matches Ok(id) ==> !self.sessions_raw(room).contains_key(be8(id)) && id < ID_SPACE,
            r is Err ==> r == Err::<u64, ApiError>(ApiError::StorageFailure),
    {
        let name = scoped_id(1u8, room);
        let mut tries: u32 = 0;
        while tries < 16
            invariant
                name@ == sessions_tree_name(room),
                tries <= 16,
            decreases 16 - tries,
        {
            let id = fresh_engine_id();
            let key = u64_to_be8(id);
            match self.raw_contains(name.as_slice(), key.as_slice()) {
                Ok(false) => {
                    return Ok(id);
                },
                Ok(true) => {},
                Err(e) => {
                    return Err(store_err(e));
                },
            }
            tries = tries + 1;
        }
        Err(ApiError::StorageFailure)
    }

    /// Records a new session in `room` under a fresh unpredictable
    /// identifier and returns the identifier. Existing sessions, the other
    /// collections and other rooms are untouched.
    pub fn add_session(&mut self, room: u64, session: &Session) -> (r: Result<u64, ApiError>)
        ensures
            r matches Ok(id) ==> {
                &&& id < ID_SPACE
                &&& !old(self).sessions_raw(room).contains_key(be8(id))
                &&& final(self).session_of(room, id) == Some((session.user@, session.ts))
                &&& final(self).sessions_raw(room).dom() == old(self).sessions_raw(
                    room,
                ).dom().insert(be8(id))
                &&& forall|s2: u64|
                    s2 != id ==> final(self).session_of(room, s2) == old(self).session_of(
                        room,
                        s2,
                    )
                &&& old(self).sessions_wf(room) ==> final(self).sessions_wf(room)
                &&& final(self).rooms() == old(self).rooms()
                &&& forall|r2: u64|
                    final(self).messages_raw(r2) == old(self).messages_raw(r2) && final(self).votes_raw(r2) == old(self).votes_raw(r2)
                &&& forall|r2: u64|
                    r2 != room ==> final(self).sessions_raw(r2) == old(self).sessions_raw(r2)
            },
            r is Err ==> r == Err::<u64, ApiError>(ApiError::StorageFailure),
    {
        let id = match self.pick_fresh_session_id(room) {
            Ok(id) => id,
            Err(e) => {
                return Err(e);
            },
        };
        let name = scoped_id(1u8, room);
        let key = u64_to_be8(id);
        let val = enc_session(session.user.as_str(), session.ts);
        if let Err(e) = self.raw_insert(name.as_slice(), key.as_slice(), val.as_slice()) {
            return Err(store_err(e));
        }
        proof {
            lemma_session_tree_update(*old(self), *self, room);
            assert(self.sessions_raw(room).dom() =~= old(self).sessions_raw(
                room,
            ).dom().insert(be8(id)));
            assert forall|s2: u64| s2 != id implies self.session_of(room, s2) == old(
                self,
            ).session_of(room, s2) by {
                lemma_be8_injective(s2, id);
            }
            if old(self).sessions_wf(room) {
                lemma_sessions_wf_after_insert(*old(self), *self, room, id, val@);
            }
        }
        Ok(id)
    }

    /// Looks a session up in `room`. A stored entry that does not decode is
    /// reported as absent rather than failing the call.
    pub fn get_session(&self, room: u64, session: u64) -> (r: Result<Option<Session>, ApiError>)
        ensures
            r matches Ok(o) ==> match o {
                Some(s) => self.session_of(room, session) == Some((s.user@, s.ts)),
                None => self.session_of(room, session) is None,
            },
            r is Err ==> r == Err::<Option<Session>, ApiError>(ApiError::StorageFailure),
    {
        let name = scoped_id(1u8, room);
        let key = u64_to_be8(session);
        match self.raw_get(name.as_slice(), key.as_slice()) {
            Ok(None) => Ok(None),
            Ok(Some(bytes)) => match dec_session(bytes.as_slice()) {
                Some(p) => Ok(Some(Session { user: p.0, ts: p.1 })),
                None => Ok(None),
            },
            Err(e) => Err(store_err(e)),
        }
    }

    /// Updates the display label of an existing session in place,
    /// preserving its creation time. Returns `Ok(None)`, changing nothing,
    /// if the session does not exist.
    #[verifier::rlimit(30)]
    pub fn set_user(&mut self, room: u64, session: u64, user: &str) -> (r: Result<
        Option<()>,
        ApiError,
    >)
        ensures
            r matches Ok(o) ==> match o {
                Some(_) => {
                    &&& old(self).session_of(room, session) is Some
                    &&& final(self).session_of(room, session) == Some(
                        (user@, old(self).session_of(room, session)->Some_0.1),
                    )
                    &&& forall|s2: u64|
                        s2 != session ==> final(self).session_of(room, s2) == old(
                            self,
                        ).session_of(room, s2)
                    &&& final(self).sessions_raw(room).dom() == old(self).sessions_raw(room).dom()
                    &&& old(self).sessions_wf(room) ==> final(self).sessions_wf(room)
                    &&& final(self).rooms() == old(self).rooms()
                    &&& forall|r2: u64|
                        final(self).messages_raw(r2) == old(self).messages_raw(r2) && final(self).votes_raw(r2) == old(self).votes_raw(r2)
                    &&& forall|r2: u64|
                        r2 != room ==> final(self).sessions_raw(r2) == old(self).sessions_raw(r2)
                },
                None => old(self).session_of(room, session) is None && *final(self) == *old(self),
            },
            r is Err ==> r == Err::<Option<()>, ApiError>(ApiError::StorageFailure),
    {
        let name = scoped_id(1u8, room);
        let key = u64_to_be8(session);
        let found = match self.raw_get(name.as_slice(), key.as_slice()) {
            Ok(o) => o,
            Err(e) => {
                return Err(store_err(e));
            },
        };
        let old_ts: i64 = match found {
            None => {
                return Ok(None);
            },
            Some(bytes) => match dec_session(bytes.as_slice()) {
                Some(p) => p.1,
                None => {
                    return Ok(None);
                },
            },
        };
        let val = enc_session(user, old_ts);
        if let Err(e) = self.raw_insert(name.as_slice(), key.as_slice(), val.as_slice()) {
            return Err(store_err(e));
        }
        proof {
            lemma_session_tree_update(*old(self), *self, room);
            assert(self.sessions_raw(room).dom() =~= old(self).sessions_raw(room).dom());
            assert forall|s2: u64| s2 != session implies self.session_of(room, s2) == old(
                self,
            ).session_of(room, s2) by {
                lemma_be8_injective(s2, session);
            }
            if old(self).sessions_wf(room) {
                lemma_sessions_wf_after_insert(*old(self), *self, room, session, val@);
            }
        }
        Ok(Some(()))
    }

    /// Computes the next sequential message identifier of `room`: one past
    /// the greatest identifier in use, or zero in an empty tree. In a
    /// well-formed room this is exactly the number of messages stored.
    fn next_message_id(&self, room: u64) -> (r: Result<u64, ApiError>)
        ensures
            r matches Ok(id) ==> {
                &&& !self.messages_raw(room).contains_key(be8(id))
                &&& forall|i: u64| self.messages_raw(room).contains_key(be8(i)) ==> i < id
                &&& id == 0 || self.messages_raw(room).contains_key(be8((id - 1) as u64))
                &&& forall|n: nat| self.msg_count_is(room, n) ==> id == n
            },
            r is Err ==> r == Err::<u64, ApiError>(ApiError::StorageFailure),
    {
        let name = scoped_id(0u8, room);
        let last = match self.raw_last(name.as_slice()) {
            Ok(l) => l,
            Err(e) => {
                return Err(store_err(e));
            },
        };
        let id: u64 = match last {
            None => 0,
            Some(kv) => {
                if kv.0.len() != 8 {
                    return Err(ApiError::StorageFailure);
                }
                let m = u64_from_be8(kv.0.as_slice());
                if m == u64::MAX {
                    return Err(ApiError::StorageFailure);
                }
                proof {
                    assert forall|i: u64| self.messages_raw(room).contains_key(
                        be8(i),
                    ) implies i <= m by {
                        lemma_be8_injective(i, m);
                        lemma_be8_lex(i, m);
                    }
                }
                m + 1
            },
        };
        proof {
            assert forall|i: u64| self.messages_raw(room).contains_key(
                be8(i),
            ) implies i < id by {}
            assert forall|n: nat| self.msg_count_is(room, n) implies id == n by {
                lemma_msg_count_pins_next(*self, room, n, id);
            }
        }
        Ok(id)
    }

    /// Appends a message to `room` under the next sequential identifier:
    /// one more than the greatest identifier in use, or zero in a fresh
    /// room. The new identifier is strictly greater than every existing
    /// one, and in a well-formed room it equals the number of messages
    /// already stored, so identifiers stay free of gaps.
    pub fn add_message(&mut self, room: u64, msg: &Message) -> (r: Result<u64, ApiError>)
        ensures
            r matches Ok(id) ==> {
                &&& !old(self).messages_raw(room).contains_key(be8(id))
                &&& forall|i: u64|
                    old(self).messages_raw(room).contains_key(be8(i)) ==> i < id
                &&& final(self).message_of(room, id) == Some((msg.body@, msg.session, msg.ts))
                &&& final(self).messages_raw(room).dom() == old(self).messages_raw(
                    room,
                ).dom().insert(be8(id))
                &&& forall|i: u64|
                    i != id ==> final(self).message_of(room, i) == old(self).message_of(room, i)
                &&& forall|n: nat|
                    old(self).msg_count_is(room, n) ==> id == n && final(self).msg_count_is(
                        room,
                        (n + 1) as nat,
                    )
                &&& old(self).messages_wf(room) ==> final(self).messages_wf(room)
                &&& final(self).rooms() == old(self).rooms()
                &&& forall|r2: u64|
                    final(self).sessions_raw(r2) == old(self).sessions_raw(r2) && final(self).votes_raw(r2) == old(self).votes_raw(r2)
                &&& forall|r2: u64|
                    r2 != room ==> final(self).messages_raw(r2) == old(self).messages_raw(r2)
            },
            r is Err ==> r == Err::<u64, ApiError>(ApiError::StorageFailure),
    {
        let name = scoped_id(0u8, room);
        let id = match self.next_message_id(room) {
            Ok(id) => id,
            Err(e) => {
                return Err(e);
            },
        };
        let val = enc_message(msg.body.as_str(), msg.session, msg.ts);
        let key = u64_to_be8(id);
        if let Err(e) = self.raw_insert(name.as_slice(), key.as_slice(), val.as_slice()) {
            return Err(store_err(e));
        }
        proof {
            lemma_message_tree_update(*old(self), *self, room);
            assert(self.messages_raw(room).dom() =~= old(self).messages_raw(
                room,
            ).dom().insert(be8(id)));
            assert forall|i: u64| i != id implies self.message_of(room, i) == old(
                self,
            ).message_of(room, i) by {
                lemma_be8_injective(i, id);
            }
            assert forall|n: nat| old(self).msg_count_is(room, n) implies self.msg_count_is(room, (n + 1) as nat) by {
                assert(old(self).messages_raw(room).dom().insert(be8(id)) =~= msg_dom(
                    (n + 1) as nat,
                )) by {
                    assert forall|k: Seq<u8>| #[trigger] msg_dom((n + 1) as nat).contains(
                        k,
                    ) implies old(self).messages_raw(room).dom().insert(be8(id)).contains(k) by {
                        let i = choose|i: u64| (i as nat) < n + 1 && k == be8(i);
                        if (i as nat) < n {
                            assert(msg_dom(n).contains(k));
                        } else {
                            assert(i == id);
                        }
                    }
                    assert forall|k: Seq<u8>| old(self).messages_raw(room).dom().insert(
                        be8(id),
                    ).contains(k) implies msg_dom((n + 1) as nat).contains(k) by {
                        if k == be8(id) {
                            assert((id as nat) < n + 1 && k == be8(id));
                        } else {
                            assert(msg_dom(n).contains(k));
                            let i = choose|i: u64| (i as nat) < n && k == be8(i);
                            assert((i as nat) < n + 1 && k == be8(i));
                        }
                    }
                }
            }
            if old(self).messages_wf(room) {
                assert forall|mid: u64| self.messages_raw(room).contains_key(
                    be8(mid),
                ) implies message_bytes_dec(self.messages_raw(room)[be8(mid)]) is Some by {
                    if mid != id {
                        lemma_be8_injective(mid, id);
                        assert(old(self).messages_raw(room).contains_key(be8(mid)));
                    }
                }
            }
        }
        Ok(id)
    }
}

/// In a room whose message identifiers are exactly those below `n`, the
/// next identifier — one past the greatest key, or zero in an empty tree —
/// is `n` itself: allocation stays gapless.
proof fn lemma_msg_count_pins_next(s: Store, room: u64, n: nat, id: u64)
    requires
        s.msg_count_is(room, n),
        forall|i: u64| s.messages_raw(room).contains_key(be8(i)) ==> i < id,
        id == 0 || s.messages_raw(room).contains_key(be8((id - 1) as u64)),
    ensures
        id == n,
{
    // Every identifier in msg_dom(n) is below id, so n <= id.
    if n > id {
        let witness = id;  // id itself would be present, yet all present ids are below id
        assert(msg_dom(n).contains(be8(witness))) by {
            assert((witness as nat) < n && be8(witness) == be8(witness));
        }
        assert(s.messages_raw(room).contains_key(be8(witness)));
        assert(witness < id);
    }
    // And id - 1 is present when id > 0, so id <= n.
    if id > 0 {
        let prev = (id - 1) as u64;
        assert(msg_dom(n).contains(be8(prev)));
        let j = choose|j: u64| (j as nat) < n && be8(prev) == be8(j);
        lemma_be8_injective(prev, j);
        assert((prev as nat) < n);
    }
}

impl Store {
    /// Reads all messages of `room` in ascending identifier order, by
    /// reading identifiers zero up to the room's message count. In a
    /// well-formed room this yields every stored message, each under its
    /// own identifier, in posting order with no gaps.
    pub fn iter_messages(&self, room: u64) -> (r: Result<Vec<(u64, Message)>, ApiError>)
        ensures
            r matches Ok(v) ==> self.messages_wf(room) ==> {
                &&& forall|n: nat| self.msg_count_is(room, n) ==> v@.len() == n
                &&& forall|i: int|
                    0 <= i < v@.len() ==> (#[trigger] v@[i]).0 as int == i && self.message_of(
                        room,
                        v@[i].0,
                    ) == Some((v@[i].1.body@, v@[i].1.session, v@[i].1.ts))
            },
            r is Err ==> r == Err::<Vec<(u64, Message)>, ApiError>(ApiError::StorageFailure),
    {
        let n = match self.next_message_id(room) {
            Ok(n) => n,
            Err(e) => {
                return Err(e);
            },
        };
        let name = scoped_id(0u8, room);
        let mut out: Vec<(u64, Message)> = Vec::new();
        let mut i: u64 = 0;
        while i < n
            invariant
                i <= n,
                name@ == messages_tree_name(room),
                out@.len() == i as int,
                forall|j: int|
                    0 <= j < out@.len() ==> (#[trigger] out@[j]).0 as int == j
                        && self.message_of(room, out@[j].0) == Some(
                        (out@[j].1.body@, out@[j].1.session, out@[j].1.ts),
                    ),
            decreases n - i,
        {
            let key = u64_to_be8(i);
            let got = match self.raw_get(name.as_slice(), key.as_slice()) {
                Ok(g) => g,
                Err(e) => {
                    return Err(store_err(e));
                },
            };
            let bytes = match got {
                Some(b) => b,
                None => {
                    return Err(ApiError::StorageFailure);
                },
            };
            let t = match dec_message(bytes.as_slice()) {
                Some(t) => t,
                None => {
                    return Err(ApiError::StorageFailure);
                },
            };
            out.push((i, Message { body: t.0, session: t.1, ts: t.2 }));
            i = i + 1;
        }
        proof {
            assert forall|n2: nat| self.msg_count_is(room, n2) implies out@.len() == n2 by {}
        }
        Ok(out)
    }

    /// Reads all sessions of `room` into a map from identifier to session,
    /// used to resolve author labels in bulk for a history read. In a
    /// well-formed room the map holds exactly the stored sessions.
    pub fn all_sessions(&self, room: u64) -> (r: Result<HashMap<u64, Session>, ApiError>)
        ensures
            r matches Ok(m) ==> self.sessions_wf(room) ==> {
                &&& forall|sid: u64|
                    #[trigger] m@.contains_key(sid) <==> self.session_of(room, sid) is Some
                &&& forall|sid: u64|
                    m@.contains_key(sid) ==> self.session_of(room, sid) == Some(
                        (m@[sid].user@, m@[sid].ts),
                    )
            },
            r is Err ==> r == Err::<HashMap<u64, Session>, ApiError>(ApiError::StorageFailure),
    {
        let name = scoped_id(1u8, room);
        let es = match self.raw_entries(name.as_slice()) {
            Ok(es) => es,
            Err(e) => {
                return Err(store_err(e));
            },
        };
        proof {
            assert forall|i: int, j: int| 0 <= i < j < es@.len() implies es@[i].0@
                != es@[j].0@ by {
                if es@[i].0@ == es@[j].0@ {
                    crate::bytekey::lemma_lex_lt_irreflexive(es@[i].0@);
                }
            }
            lemma_entries_map_props(es@);
        }
        let mut m: HashMap<u64, Session> = HashMap::new();
        let mut idx: usize = 0;
        while idx < es.len()
            invariant
                idx <= es.len(),
                name@ == sessions_tree_name(room),
                self.sessions_raw(room) == entries_map(es@),
                forall|i: int, j: int| 0 <= i < j < es@.len() ==> es@[i].0@ != es@[j].0@,
                forall|j: int|
                    0 <= j < es@.len() ==> #[trigger] entries_map(es@).contains_key(es@[j].0@)
                        && entries_map(es@)[es@[j].0@] == es@[j].1@,
                forall|sid: u64|
                    #[trigger] m@.contains_key(sid) ==> self.session_of(room, sid) == Some(
                        (m@[sid].user@, m@[sid].ts),
                    ),
                forall|j: int|
                    0 <= j < idx && (#[trigger] es@[j].0)@.len() == 8 && session_bytes_dec(
                        es@[j].1@,
                    ) is Some ==> m@.contains_key(be8_decode(es@[j].0@)),
            decreases es.len() - idx,
        {
            if es[idx].0.len() == 8 {
                let sid = u64_from_be8(es[idx].0.as_slice());
                match dec_session(es[idx].1.as_slice()) {
                    Some(p) => {
                        proof {
                            assert(self.sessions_raw(room).contains_key(be8(sid)));
                            assert(self.sessions_raw(room)[be8(sid)] == es@[idx as int].1@);
                        }
                        m.insert(sid, Session { user: p.0, ts: p.1 });
                    },
                    None => {},
                }
            }
            idx = idx + 1;
        }
        proof {
            if self.sessions_wf(room) {
                assert forall|sid: u64|
                    #[trigger] m@.contains_key(sid) <==> self.session_of(room, sid) is Some by {
                    if self.session_of(room, sid) is Some {
                        assert(self.sessions_raw(room).contains_key(be8(sid)));
                        let j = choose|j: int|
                            0 <= j < es@.len() && es@[j].0@ == be8(sid);
                        assert(es@[j].0@.len() == 8);
                        assert(session_bytes_dec(es@[j].1@) is Some);
                        crate::bytekey::lemma_be8_decode_encode(sid);
                        assert(m@.contains_key(be8_decode(es@[j].0@)));
                    }
                }
            }
        }
        Ok(m)
    }

    /// Lists the messages of `room` that `session` currently endorses:
    /// exactly those, each once, read off a scan of the room's vote keys.
    pub fn iter_votes(&self, room: u64, session: u64) -> (r: Result<Vec<u64>, ApiError>)
        ensures
            r matches Ok(v) ==> {
                &&& forall|m: u64| #[trigger] v@.contains(m) <==> self.has_vote(room, m, session)
                &&& forall|i: int, j: int| 0 <= i < j < v@.len() ==> v@[i] != v@[j]
            },
            r is Err ==> r == Err::<Vec<u64>, ApiError>(ApiError::StorageFailure),
    {
        let name = scoped_id(2u8, room);
        let es = match self.raw_entries(name.as_slice()) {
            Ok(es) => es,
            Err(e) => {
                return Err(store_err(e));
            },
        };
        proof {
            assert forall|i: int, j: int| 0 <= i < j < es@.len() implies es@[i].0@
                != es@[j].0@ by {
                if es@[i].0@ == es@[j].0@ {
                    crate::bytekey::lemma_lex_lt_irreflexive(es@[i].0@);
                }
            }
            lemma_entries_map_props(es@);
        }
        let mut out: Vec<u64> = Vec::new();
        let mut idx: usize = 0;
        while idx < es.len()
            invariant
                idx <= es.len(),
                name@ == votes_tree_name(room),
                self.votes_raw(room) == entries_map(es@),
                forall|i: int, j: int| 0 <= i < j < es@.len() ==> es@[i].0@ != es@[j].0@,
                forall|j: int|
                    0 <= j < es@.len() ==> #[trigger] entries_map(es@).contains_key(es@[j].0@)
                        && entries_map(es@)[es@[j].0@] == es@[j].1@,
                forall|k: Seq<u8>|
                    #[trigger] entries_map(es@).contains_key(k) ==> exists|j: int|
                        0 <= j < es@.len() && es@[j].0@ == k,
                forall|i: int|
                    0 <= i < out@.len() ==> exists|j: int|
                        0 <= j < idx && es@[j].0@ == pair_key(#[trigger] out@[i], session),
                forall|j: int|
                    0 <= j < idx && is_session_vote_key((#[trigger] es@[j]).0@, session)
                        ==> out@.contains(be8_decode(es@[j].0@.subrange(0, 8))),
                forall|i: int, j: int| 0 <= i < j < out@.len() ==> out@[i] != out@[j],
            decreases es.len() - idx,
        {
            let key = &es[idx].0;
            let ghost prev = out@;
            if key.len() == 16 {
                let m = u64_from_be8(vstd::slice::slice_subrange(key.as_slice(), 0, 8));
                let s = u64_from_be8(vstd::slice::slice_subrange(key.as_slice(), 8, 16));
                if s == session {
                    proof {
                        assert(key@ =~= pair_key(m, session));
                        if prev.contains(m) {
                            let i0 = choose|i0: int| 0 <= i0 < prev.len() && prev[i0] == m;
                            let j = choose|j: int|
                                0 <= j < idx && es@[j].0@ == pair_key(prev[i0], session);
                            assert(es@[j].0@ == es@[idx as int].0@);
                        }
                    }
                    out.push(m);
                    proof {
                        assert forall|i: int|
                            0 <= i < out@.len() implies exists|j: int|
                            0 <= j < idx + 1 && es@[j].0@ == pair_key(
                                #[trigger] out@[i],
                                session,
                            ) by {
                            if i < prev.len() {
                                assert(out@[i] == prev[i]);
                                let j = choose|j: int|
                                    0 <= j < idx && es@[j].0@ == pair_key(prev[i], session);
                                assert(es@[j].0@ == pair_key(out@[i], session));
                            } else {
                                assert(out@[i] == m);
                                assert(es@[idx as int].0@ == pair_key(out@[i], session));
                            }
                        }
                        assert forall|j: int|
                            0 <= j < idx + 1 && is_session_vote_key(
                                (#[trigger] es@[j]).0@,
                                session,
                            ) implies out@.contains(be8_decode(es@[j].0@.subrange(0, 8))) by {
                            if j < idx {
                                lemma_push_keeps_contains(
                                    prev,
                                    be8_decode(es@[j].0@.subrange(0, 8)),
                                    m,
                                );
                            } else {
                                assert(es@[j].0@.subrange(0, 8) == be8(m));
                                crate::bytekey::lemma_be8_decode_encode(m);
                                assert(out@[out@.len() - 1] == m);
                            }
                        }
                        assert forall|i: int, j: int|
                            0 <= i < j < out@.len() implies out@[i] != out@[j] by {
                            if j == out@.len() - 1 {
                                assert(out@[i] == prev[i]);
                                assert(prev.contains(prev[i]));
                            }
                        }
                    }
                } else {
                    proof {
                        assert forall|j: int|
                            0 <= j < idx + 1 && is_session_vote_key(
                                (#[trigger] es@[j]).0@,
                                session,
                            ) implies out@.contains(be8_decode(es@[j].0@.subrange(0, 8))) by {
                            if j == idx {
                                // This key's trailing identifier is another
                                // session's, so it is no vote key of ours.
                                assert(key@.subrange(8, 16) == be8(s));
                                lemma_be8_injective(s, session);
                            }
                        }
                    }
                }
            } else {
                proof {
                    assert forall|j: int|
                        0 <= j < idx + 1 && is_session_vote_key(
                            (#[trigger] es@[j]).0@,
                            session,
                        ) implies out@.contains(be8_decode(es@[j].0@.subrange(0, 8))) by {
                        assert(j < idx);
                    }
                }
            }
            idx = idx + 1;
        }
        proof {
            assert forall|m: u64| #[trigger] out@.contains(m) implies self.has_vote(
                room,
                m,
                session,
            ) by {
                let i0 = choose|i0: int| 0 <= i0 < out@.len() && out@[i0] == m;
                let j = choose|j: int|
                    0 <= j < es@.len() && es@[j].0@ == pair_key(out@[i0], session);
                assert(entries_map(es@).contains_key(es@[j].0@));
            }
            assert forall|m: u64| self.has_vote(room, m, session) implies #[trigger] out@.contains(
                m,
            ) by {
                assert(entries_map(es@).contains_key(pair_key(m, session)));
                let j = choose|j: int|
                    0 <= j < es@.len() && es@[j].0@ == pair_key(m, session);
                assert(is_session_vote_key(es@[j].0@, session)) by {
                    assert(pair_key(m, session).subrange(8, 16) =~= be8(session));
                }
                assert(es@[j].0@.subrange(0, 8) =~= be8(m));
                crate::bytekey::lemma_be8_decode_encode(m);
            }
        }
        Ok(out)
    }
}

/// Whether a vote-tree key records a vote by `session`: a 16-byte
/// composite whose trailing 8 bytes are the session's key.
pub open spec fn is_session_vote_key(k: Seq<u8>, session: u64) -> bool {
    k.len() == 16 && k.subrange(8, 16) == be8(session)
}

/// Appending an element keeps every present element present.
proof fn lemma_push_keeps_contains(s: Seq<u64>, x: u64, y: u64)
    requires
        s.contains(x),
    ensures
        s.push(y).contains(x),
{
    let i = choose|i: int| 0 <= i < s.len() && s[i] == x;
    assert(s.push(y)[i] == x);
}

/// From a sequence of entries with pairwise distinct keys, the map built
/// from them holds exactly those keys, each bound to its entry's value.
proof fn lemma_entries_map_props(es: Seq<(Vec<u8>, Vec<u8>)>)
    requires
        forall|i: int, j: int| 0 <= i < j < es.len() ==> es[i].0@ != es[j].0@,
    ensures
        forall|j: int|
            0 <= j < es.len() ==> #[trigger] entries_map(es).contains_key(es[j].0@)
                && entries_map(es)[es[j].0@] == es[j].1@,
        forall|k: Seq<u8>|
            #[trigger] entries_map(es).contains_key(k) ==> exists|j: int|
                0 <= j < es.len() && es[j].0@ == k,
    decreases es.len(),
{
    if es.len() > 0 {
        let prefix = es.drop_last();
        assert forall|i: int, j: int| 0 <= i < j < prefix.len() implies prefix[i].0@
            != prefix[j].0@ by {
            assert(es[i].0@ != es[j].0@);
        }
        lemma_entries_map_props(prefix);
        let lastk = es.last().0@;
        assert forall|j: int|
            0 <= j < es.len() implies #[trigger] entries_map(es).contains_key(es[j].0@)
            && entries_map(es)[es[j].0@] == es[j].1@ by {
            if j < es.len() - 1 {
                assert(prefix[j] == es[j]);
                assert(entries_map(prefix).contains_key(es[j].0@));
                assert(es[j].0@ != lastk);
            }
        }
        assert forall|k: Seq<u8>| #[trigger] entries_map(es).contains_key(k) implies exists|j: int|
            0 <= j < es.len() && es[j].0@ == k by {
            if k != lastk {
                assert(entries_map(prefix).contains_key(k));
                let j = choose|j: int| 0 <= j < prefix.len() && prefix[j].0@ == k;
                assert(es[j].0@ == k);
            } else {
                assert(es[es.len() - 1].0@ == k);
            }
        }
    }
}

/// An empty byte string: the stored value of entries that only mark
/// presence, such as room markers and votes.
pub open spec fn no_bytes() -> Seq<u8> {
    Seq::empty()
}

/// A vote's composite key starts with its message's key.
pub proof fn lemma_pair_key_prefix(m: u64, s: u64)
    ensures
        has_prefix(pair_key(m, s), be8(m)),
        pair_key(m, s).len() == 16,
{
    assert(pair_key(m, s).take(8) =~= be8(m));
}

/// A vote's composite key starts with no other message's key.
pub proof fn lemma_pair_key_prefix_other(m: u64, s: u64, m2: u64)
    ensures
        m2 != m ==> !has_prefix(pair_key(m, s), be8(m2)),
{
    if m2 != m && has_prefix(pair_key(m, s), be8(m2)) {
        assert(pair_key(m, s).take(8) =~= be8(m));
        lemma_be8_injective(m, m2);
    }
}

/// Composite vote keys are distinct for distinct (message, session) pairs.
pub proof fn lemma_pair_key_injective(m1: u64, s1: u64, m2: u64, s2: u64)
    ensures
        pair_key(m1, s1) == pair_key(m2, s2) ==> m1 == m2 && s1 == s2,
{
    if pair_key(m1, s1) == pair_key(m2, s2) {
        assert(pair_key(m1, s1).take(8) =~= be8(m1));
        assert(pair_key(m2, s2).take(8) =~= be8(m2));
        assert(pair_key(m1, s1).skip(8) =~= be8(s1));
        assert(pair_key(m2, s2).skip(8) =~= be8(s2));
        lemma_be8_injective(m1, m2);
        lemma_be8_injective(s1, s2);
    }
}

impl Store {
    /// Records that `session` endorses `message` in `room`. Setting an
    /// already-set vote changes nothing; the count reflects distinct
    /// sessions only.
    pub fn set_vote(&mut self, room: u64, message: u64, session: u64) -> (r: Result<
        (),
        ApiError,
    >)
        ensures
            r is Ok ==> {
                &&& final(self).votes_raw(room) == old(self).votes_raw(room).insert(
                    pair_key(message, session),
                    no_bytes(),
                )
                &&& forall|m2: u64, s2: u64|
                    final(self).has_vote(room, m2, s2) == (old(self).has_vote(room, m2, s2) || (
                    m2 == message && s2 == session))
                &&& final(self).vote_key_set(room, message) == old(self).vote_key_set(
                    room,
                    message,
                ).insert(pair_key(message, session))
                &&& forall|m2: u64|
                    m2 != message ==> final(self).vote_key_set(room, m2) == old(
                        self,
                    ).vote_key_set(room, m2)
                &&& old(self).votes_wf(room) ==> final(self).votes_wf(room)
                &&& old(self).votes_wf(room) ==> final(self).vote_count(room, message) == (
                if old(self).has_vote(room, message, session) {
                    old(self).vote_count(room, message)
                } else {
                    old(self).vote_count(room, message) + 1
                })
                &&& final(self).rooms() == old(self).rooms()
                &&& forall|r2: u64|
                    final(self).sessions_raw(r2) == old(self).sessions_raw(r2) && final(self).messages_raw(r2) == old(self).messages_raw(r2)
                &&& forall|r2: u64|
                    r2 != room ==> final(self).votes_raw(r2) == old(self).votes_raw(r2)
            },
            r is Err ==> r == Err::<(), ApiError>(ApiError::StorageFailure),
    {
        let name = scoped_id(2u8, room);
        let key = pair_id(message, session);
        let empty: Vec<u8> = Vec::new();
        if let Err(e) = self.raw_insert(name.as_slice(), key.as_slice(), empty.as_slice()) {
            return Err(store_err(e));
        }
        proof {
            lemma_vote_tree_update(*old(self), *self, room);
            lemma_vote_set_insert(*old(self), *self, room, message, session);
        }
        Ok(())
    }

    /// Withdraws `session`'s endorsement of `message` in `room`. Resetting
    /// an absent vote changes nothing.
    pub fn reset_vote(&mut self, room: u64, message: u64, session: u64) -> (r: Result<
        (),
        ApiError,
    >)
        ensures
            r is Ok ==> {
                &&& final(self).votes_raw(room) == old(self).votes_raw(room).remove(
                    pair_key(message, session),
                )
                &&& forall|m2: u64, s2: u64|
                    final(self).has_vote(room, m2, s2) == (old(self).has_vote(room, m2, s2) && !(
                    m2 == message && s2 == session))
                &&& final(self).vote_key_set(room, message) == old(self).vote_key_set(
                    room,
                    message,
                ).remove(pair_key(message, session))
                &&& forall|m2: u64|
                    m2 != message ==> final(self).vote_key_set(room, m2) == old(
                        self,
                    ).vote_key_set(room, m2)
                &&& old(self).votes_wf(room) ==> final(self).votes_wf(room)
                &&& old(self).votes_wf(room) ==> final(self).vote_count(room, message) == (
                if old(self).has_vote(room, message, session) {
                    (old(self).vote_count(room, message) - 1) as nat
                } else {
                    old(self).vote_count(room, message)
                })
                &&& final(self).rooms() == old(self).rooms()
                &&& forall|r2: u64|
                    final(self).sessions_raw(r2) == old(self).sessions_raw(r2) && final(self).messages_raw(r2) == old(self).messages_raw(r2)
                &&& forall|r2: u64|
                    r2 != room ==> final(self).votes_raw(r2) == old(self).votes_raw(r2)
            },
            r is Err ==> r == Err::<(), ApiError>(ApiError::StorageFailure),
    {
        let name = scoped_id(2u8, room);
        let key = pair_id(message, session);
        if let Err(e) = self.raw_remove(name.as_slice(), key.as_slice()) {
            return Err(store_err(e));
        }
        proof {
            lemma_vote_tree_update(*old(self), *self, room);
            lemma_vote_set_remove(*old(self), *self, room, message, session);
        }
        Ok(())
    }

    /// Counts the sessions currently endorsing `message` in `room`, by a
    /// fresh scan of the vote keys sharing the message's prefix.
    pub fn count_votes(&self, room: u64, message: u64) -> (r: Result<usize, ApiError>)
        ensures
            r matches Ok(c) ==> c as nat == self.vote_count(room, message),
            r is Err ==> r == Err::<usize, ApiError>(ApiError::StorageFailure),
    {
        let name = scoped_id(2u8, room);
        let prefix = u64_to_be8(message);
        match self.raw_prefix_keys(name.as_slice(), prefix.as_slice()) {
            Ok(ks) => {
                proof {
                    let kseq = ks@.map_values(|v: Vec<u8>| v@);
                    assert(kseq.no_duplicates()) by {
                        assert forall|i: int, j: int|
                            0 <= i < kseq.len() && 0 <= j < kseq.len() && i != j implies kseq[i]
                            != kseq[j] by {
                            if i < j {
                                if kseq[i] == kseq[j] {
                                    crate::bytekey::lemma_lex_lt_irreflexive(kseq[i]);
                                }
                            } else {
                                if kseq[i] == kseq[j] {
                                    crate::bytekey::lemma_lex_lt_irreflexive(kseq[i]);
                                }
                            }
                        }
                    }
                    assert(kseq.to_set() =~= self.vote_key_set(room, message)) by {
                        assert forall|k: Seq<u8>| kseq.to_set().contains(
                            k,
                        ) implies self.vote_key_set(room, message).contains(k) by {
                            let i = choose|i: int| 0 <= i < kseq.len() && kseq[i] == k;
                            assert(ks@[i]@ == k);
                        }
                        assert forall|k: Seq<u8>| self.vote_key_set(room, message).contains(
                            k,
                        ) implies kseq.to_set().contains(k) by {
                            let i = choose|i: int| 0 <= i < ks@.len() && ks@[i]@ == k;
                            assert(kseq[i] == k);
                        }
                    }
                    kseq.unique_seq_to_set();
                }
                Ok(ks.len())
            },
            Err(e) => Err(store_err(e)),
        }
    }
}

/// How inserting one vote key changes the vote sets: the voted message's
/// key set gains the key, every other message's key set is untouched, and
/// the tree stays well formed.
proof fn lemma_vote_set_insert(pre: Store, post: Store, room: u64, message: u64, session: u64)
    requires
        post.votes_raw(room) == pre.votes_raw(room).insert(pair_key(message, session), no_bytes()),
    ensures
        forall|m2: u64, s2: u64|
            post.has_vote(room, m2, s2) == (pre.has_vote(room, m2, s2) || (m2 == message && s2
                == session)),
        post.vote_key_set(room, message) == pre.vote_key_set(room, message).insert(
            pair_key(message, session),
        ),
        forall|m2: u64| m2 != message ==> post.vote_key_set(room, m2) == pre.vote_key_set(room, m2),
        pre.votes_wf(room) ==> post.votes_wf(room),
        pre.votes_wf(room) ==> post.vote_count(room, message) == (if pre.has_vote(
            room,
            message,
            session,
        ) {
            pre.vote_count(room, message)
        } else {
            pre.vote_count(room, message) + 1
        }),
{
    let k0 = pair_key(message, session);
    assert forall|m2: u64, s2: u64|
        post.has_vote(room, m2, s2) == (pre.has_vote(room, m2, s2) || (m2 == message && s2
            == session)) by {
        lemma_pair_key_injective(m2, s2, message, session);
    }
    assert(post.vote_key_set(room, message) =~= pre.vote_key_set(room, message).insert(k0)) by {
        lemma_pair_key_prefix(message, session);
    }
    assert forall|m2: u64| m2 != message implies post.vote_key_set(room, m2) == pre.vote_key_set(
        room,
        m2,
    ) by {
        lemma_pair_key_prefix_other(message, session, m2);
        assert(post.vote_key_set(room, m2) =~= pre.vote_key_set(room, m2));
    }
    if pre.votes_wf(room) {
        assert(post.votes_raw(room).dom() =~= pre.votes_raw(room).dom().insert(k0));
        lemma_pair_key_prefix(message, session);
        assert forall|k: Seq<u8>| post.votes_raw(room).contains_key(k) implies k.len() == 16 by {
            if k != k0 {
                assert(pre.votes_raw(room).contains_key(k));
            }
        }
        // The key sets are finite, so the count changes by exactly the
        // presence of the new key.
        pre.votes_raw(room).dom().lemma_len_filter(|k: Seq<u8>| has_prefix(k, be8(message)));
        if pre.has_vote(room, message, session) {
            assert(pre.vote_key_set(room, message).contains(k0));
            assert(pre.vote_key_set(room, message).insert(k0) =~= pre.vote_key_set(
                room,
                message,
            ));
        } else {
            assert(!pre.vote_key_set(room, message).contains(k0));
        }
    }
}

/// How removing one vote key changes the vote sets: the message's key set
/// loses the key, every other message's key set is untouched, and the tree
/// stays well formed.
proof fn lemma_vote_set_remove(pre: Store, post: Store, room: u64, message: u64, session: u64)
    requires
        post.votes_raw(room) == pre.votes_raw(room).remove(pair_key(message, session)),
    ensures
        forall|m2: u64, s2: u64|
            post.has_vote(room, m2, s2) == (pre.has_vote(room, m2, s2) && !(m2 == message && s2
                == session)),
        post.vote_key_set(room, message) == pre.vote_key_set(room, message).remove(
            pair_key(message, session),
        ),
        forall|m2: u64| m2 != message ==> post.vote_key_set(room, m2) == pre.vote_key_set(room, m2),
        pre.votes_wf(room) ==> post.votes_wf(room),
        pre.votes_wf(room) ==> post.vote_count(room, message) == (if pre.has_vote(
            room,
            message,
            session,
        ) {
            (pre.vote_count(room, message) - 1) as nat
        } else {
            pre.vote_count(room, message)
        }),
{
    let k0 = pair_key(message, session);
    assert forall|m2: u64, s2: u64|
        post.has_vote(room, m2, s2) == (pre.has_vote(room, m2, s2) && !(m2 == message && s2
            == session)) by {
        lemma_pair_key_injective(m2, s2, message, session);
    }
    assert(post.vote_key_set(room, message) =~= pre.vote_key_set(room, message).remove(k0)) by {
        lemma_pair_key_prefix(message, session);
    }
    assert forall|m2: u64| m2 != message implies post.vote_key_set(room, m2) == pre.vote_key_set(
        room,
        m2,
    ) by {
        lemma_pair_key_prefix_other(message, session, m2);
        assert(post.vote_key_set(room, m2) =~= pre.vote_key_set(room, m2));
    }
    if pre.votes_wf(room) {
        assert(post.votes_raw(room).dom() =~= pre.votes_raw(room).dom().remove(k0));
        assert forall|k: Seq<u8>| post.votes_raw(room).contains_key(k) implies k.len() == 16 by {
            assert(pre.votes_raw(room).contains_key(k));
        }
        pre.votes_raw(room).dom().lemma_len_filter(|k: Seq<u8>| has_prefix(k, be8(message)));
        if pre.has_vote(room, message, session) {
            lemma_pair_key_prefix(message, session);
            assert(pre.vote_key_set(room, message).contains(k0));
        } else {
            assert(!pre.vote_key_set(room, message).contains(k0));
            assert(pre.vote_key_set(room, message).remove(k0) =~= pre.vote_key_set(
                room,
                message,
            ));
        }
    }
}

/// Inserting a decodable entry under an 8-byte key keeps a session tree
/// well formed.
proof fn lemma_sessions_wf_after_insert(pre: Store, post: Store, room: u64, sid: u64, val: Seq<u8>)
    requires
        pre.sessions_wf(room),
        post.sessions_raw(room) == pre.sessions_raw(room).insert(be8(sid), val),
        session_bytes_dec(val) is Some,
    ensures
        post.sessions_wf(room),
{
    assert(post.sessions_raw(room).dom() =~= pre.sessions_raw(room).dom().insert(be8(sid)));
    assert forall|k: Seq<u8>| post.sessions_raw(room).contains_key(k) implies k.len() == 8
        && session_bytes_dec(post.sessions_raw(room)[k]) is Some by {
        if k == be8(sid) {
            assert(post.sessions_raw(room)[k] == val);
            assert(be8(sid).len() == 8);
        } else {
            assert(pre.sessions_raw(room).contains_key(k));
            assert(post.sessions_raw(room)[k] == pre.sessions_raw(room)[k]);
        }
    }
}

/// A write to one room's session tree leaves the room set, every message
/// and vote tree, and every other room's session tree unchanged.
proof fn lemma_session_tree_update(pre: Store, post: Store, room: u64)
    requires
        forall|n: Seq<u8>|
            n != sessions_tree_name(room) ==> db_tree(post.db, n) == db_tree(pre.db, n),
    ensures
        post.rooms() == pre.rooms(),
        forall|r2: u64|
            post.messages_raw(r2) == pre.messages_raw(r2) && post.votes_raw(r2) == pre.votes_raw(
                r2,
            ),
        forall|r2: u64| r2 != room ==> post.sessions_raw(r2) == pre.sessions_raw(r2),
{
    assert(post.rooms() =~= pre.rooms()) by {
        lemma_tree_names_distinct(1u8, room, 1u8, room);
    }
    assert forall|r2: u64|
        post.messages_raw(r2) == pre.messages_raw(r2) && post.votes_raw(r2) == pre.votes_raw(
            r2,
        ) by {
        lemma_tree_names_distinct(0u8, r2, 1u8, room);
        lemma_tree_names_distinct(2u8, r2, 1u8, room);
    }
    assert forall|r2: u64| r2 != room implies post.sessions_raw(r2) == pre.sessions_raw(r2) by {
        lemma_tree_names_distinct(1u8, r2, 1u8, room);
    }
}

/// A write to one room's message tree leaves the room set, every session
/// and vote tree, and every other room's message tree unchanged.
proof fn lemma_message_tree_update(pre: Store, post: Store, room: u64)
    requires
        forall|n: Seq<u8>|
            n != messages_tree_name(room) ==> db_tree(post.db, n) == db_tree(pre.db, n),
    ensures
        post.rooms() == pre.rooms(),
        forall|r2: u64|
            post.sessions_raw(r2) == pre.sessions_raw(r2) && post.votes_raw(r2) == pre.votes_raw(
                r2,
            ),
        forall|r2: u64| r2 != room ==> post.messages_raw(r2) == pre.messages_raw(r2),
{
    assert(post.rooms() =~= pre.rooms()) by {
        lemma_tree_names_distinct(0u8, room, 0u8, room);
    }
    assert forall|r2: u64|
        post.sessions_raw(r2) == pre.sessions_raw(r2) && post.votes_raw(r2) == pre.votes_raw(
            r2,
        ) by {
        lemma_tree_names_distinct(1u8, r2, 0u8, room);
        lemma_tree_names_distinct(2u8, r2, 0u8, room);
    }
    assert forall|r2: u64| r2 != room implies post.messages_raw(r2) == pre.messages_raw(r2) by {
        lemma_tree_names_distinct(0u8, r2, 0u8, room);
    }
}

/// A write to one room's vote tree leaves the room set, every session and
/// message tree, and every other room's vote tree unchanged.
proof fn lemma_vote_tree_update(pre: Store, post: Store, room: u64)
    requires
        forall|n: Seq<u8>|
            n != votes_tree_name(room) ==> db_tree(post.db, n) == db_tree(pre.db, n),
    ensures
        post.rooms() == pre.rooms(),
        forall|r2: u64|
            post.sessions_raw(r2) == pre.sessions_raw(r2) && post.messages_raw(r2)
                == pre.messages_raw(r2),
        forall|r2: u64| r2 != room ==> post.votes_raw(r2) == pre.votes_raw(r2),
{
    assert(post.rooms() =~= pre.rooms()) by {
        lemma_tree_names_distinct(2u8, room, 2u8, room);
    }
    assert forall|r2: u64|
        post.sessions_raw(r2) == pre.sessions_raw(r2) && post.messages_raw(r2)
            == pre.messages_raw(r2) by {
        lemma_tree_names_distinct(1u8, r2, 2u8, room);
        lemma_tree_names_distinct(0u8, r2, 2u8, room);
    }
    assert forall|r2: u64| r2 != room implies post.votes_raw(r2) == pre.votes_raw(r2) by {
        lemma_tree_names_distinct(2u8, r2, 2u8, room);
    }
}

/// Spells out, for one room, that the four tree names involved in creating
/// it are pairwise distinct.
proof fn broadcast_tree_names(id: u64)
    ensures
        rooms_tree_name() != messages_tree_name(id),
        rooms_tree_name() != sessions_tree_name(id),
        rooms_tree_name() != votes_tree_name(id),
        messages_tree_name(id) != sessions_tree_name(id),
        messages_tree_name(id) != votes_tree_name(id),
        sessions_tree_name(id) != votes_tree_name(id),
        forall|s: u8, r2: u64|
            r2 != id ==> #[trigger] scoped_name(s, r2) != messages_tree_name(id) && scoped_name(
                s,
                r2,
            ) != sessions_tree_name(id) && scoped_name(s, r2) != votes_tree_name(id),
{
    lemma_tree_names_distinct(0u8, id, 1u8, id);
    lemma_tree_names_distinct(0u8, id, 2u8, id);
    lemma_tree_names_distinct(1u8, id, 2u8, id);
    assert forall|s: u8, r2: u64|
        r2 != id implies #[trigger] scoped_name(s, r2) != messages_tree_name(id) && scoped_name(
        s,
        r2,
    ) != sessions_tree_name(id) && scoped_name(s, r2) != votes_tree_name(id) by {
        lemma_tree_names_distinct(s, r2, 0u8, id);
        lemma_tree_names_distinct(s, r2, 1u8, id);
        lemma_tree_names_distinct(s, r2, 2u8, id);
    }
}

} // verus!
