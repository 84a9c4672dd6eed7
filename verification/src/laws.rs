//! The engine's laws: properties that hold across operations, proved from
//! the same specification views that the operations' contracts use.

use vstd::prelude::*;

use crate::hub::chan_of;
use crate::hub::Channel;
use crate::hub::Hub;
use crate::state::render_history;
use crate::state::HistoryRecord;
use crate::store::empty_tree;
use crate::store::msg_dom;
use crate::store::no_bytes;
use crate::store::pair_key;
use crate::store::Store;

verus! {

/// A room returned by room creation exists immediately after, and no
/// other room's existence changes with it. Together with the frame
/// clauses of every other operation — none of which touches the room
/// set — existence is monotonic, and a room never created never exists.
pub proof fn lemma_created_room_exists(pre: Store, post: Store, id: u64)
    requires
        !pre.rooms().contains(id),
        post.rooms() == pre.rooms().insert(id),
    ensures
        post.rooms().contains(id),
        forall|r2: u64| r2 != id ==> post.rooms().contains(r2) == pre.rooms().contains(r2),
{
}

/// A freshly opened private store has no rooms, and every room of it is
/// well formed with no messages: the starting point of every law that
/// assumes well-formedness.
pub proof fn lemma_empty_store_blank(s: Store)
    requires
        s.is_empty_store(),
    ensures
        forall|r: u64| !s.rooms().contains(r),
        forall|r: u64| #[trigger] s.room_wf(r),
        forall|r: u64| #[trigger] s.msg_count_is(r, 0),
{
    assert(s.tree(crate::store::rooms_tree_name()) == empty_tree());
    assert forall|r: u64| #[trigger] s.msg_count_is(r, 0) by {
        assert(s.messages_raw(r) == empty_tree());
        assert(s.messages_raw(r).dom() =~= msg_dom(0));
    }
    assert forall|r: u64| #[trigger] s.room_wf(r) by {
        assert(s.messages_raw(r) == empty_tree());
        assert(s.sessions_raw(r) == empty_tree());
        assert(s.votes_raw(r) == empty_tree());
        assert(s.msg_count_is(r, 0));
        assert(s.messages_wf(r));
        assert(s.sessions_raw(r).dom() =~= Set::<Seq<u8>>::empty());
        assert(s.sessions_wf(r));
        assert(s.votes_raw(r).dom() =~= Set::<Seq<u8>>::empty());
        assert(s.votes_wf(r));
    }
}

/// Setting a vote that is already set changes nothing: the ledger after
/// the second set is the ledger after the first, so the count is
/// unchanged from the single-set result.
pub proof fn lemma_set_vote_idempotent(
    s0: Store,
    s1: Store,
    s2: Store,
    room: u64,
    message: u64,
    session: u64,
)
    requires
        s1.votes_raw(room) == s0.votes_raw(room).insert(pair_key(message, session), no_bytes()),
        s2.votes_raw(room) == s1.votes_raw(room).insert(pair_key(message, session), no_bytes()),
    ensures
        s2.votes_raw(room) == s1.votes_raw(room),
        s2.vote_count(room, message) == s1.vote_count(room, message),
{
    assert(s2.votes_raw(room) =~= s1.votes_raw(room));
}

/// Resetting a vote that is not set changes nothing: the ledger and the
/// count stay as they were.
pub proof fn lemma_reset_absent_vote_noop(
    s0: Store,
    s1: Store,
    room: u64,
    message: u64,
    session: u64,
)
    requires
        !s0.has_vote(room, message, session),
        s1.votes_raw(room) == s0.votes_raw(room).remove(pair_key(message, session)),
    ensures
        s1.votes_raw(room) == s0.votes_raw(room),
        s1.vote_count(room, message) == s0.vote_count(room, message),
{
    assert(s1.votes_raw(room) =~= s0.votes_raw(room));
}

/// History comes back in strictly increasing identifier order: every
/// record's identifier is below the room's message count, and records
/// appear in the order their messages were appended, never reordered.
pub proof fn lemma_history_ordered(s: Store, room: u64, n: nat)
    requires
        n <= u64::MAX as nat + 1,
    ensures
        forall|i: int|
            0 <= i < render_history(s, room, n).len() ==> (#[trigger] render_history(
                s,
                room,
                n,
            )[i].id as nat) < n,
        forall|i: int, j: int|
            0 <= i < j < render_history(s, room, n).len() ==> render_history(s, room, n)[i].id
                < render_history(s, room, n)[j].id,
    decreases n,
{
    if n > 0 {
        let m = (n - 1) as nat;
        lemma_history_ordered(s, room, m);
        let hp = render_history(s, room, m);
        let h = render_history(s, room, n);
        let mid = (n - 1) as u64;
        match s.message_of(room, mid) {
            Some(msg) => match s.session_of(room, msg.1) {
                Some(author) => {
                    assert(h == hp.push(
                        HistoryRecord {
                            id: mid,
                            body: msg.0,
                            user: author.0,
                            votes: s.vote_count(room, mid),
                            ts: msg.2,
                        },
                    ));
                    assert forall|i: int, j: int|
                        0 <= i < j < h.len() implies h[i].id < h[j].id by {
                        if j < hp.len() {
                            assert(h[i] == hp[i] && h[j] == hp[j]);
                        } else {
                            assert(h[i] == hp[i]);
                            assert((hp[i].id as nat) < m);
                            assert(h[j].id == mid);
                        }
                    }
                },
                None => {
                    assert(h == hp);
                },
            },
            None => {
                assert(h == hp);
            },
        }
    }
}

/// Every message's author session resolves, up to message count `n`.
pub open spec fn all_authors_resolve(s: Store, room: u64, n: nat) -> bool {
    forall|mid: u64|
        (mid as nat) < n ==> (#[trigger] s.message_of(room, mid)) is Some && s.session_of(
            room,
            s.message_of(room, mid)->Some_0.1,
        ) is Some
}

/// When every author resolves, history is gapless: it holds exactly one
/// record per message, and the record at position `j` is message `j` —
/// increasing identifiers matching the posting order, with no gaps.
pub proof fn lemma_history_complete(s: Store, room: u64, n: nat)
    requires
        all_authors_resolve(s, room, n),
        n <= u64::MAX as nat + 1,
    ensures
        render_history(s, room, n).len() == n,
        forall|j: int|
            0 <= j < n ==> (#[trigger] render_history(s, room, n)[j].id as int) == j,
        forall|j: int|
            0 <= j < n ==> record_reflects_store(
                #[trigger] render_history(s, room, n)[j],
                s,
                room,
                j as u64,
            ),
    decreases n,
{
    if n > 0 {
        let m = (n - 1) as nat;
        lemma_history_complete(s, room, m);
        let hp = render_history(s, room, m);
        let h = render_history(s, room, n);
        let mid = (n - 1) as u64;
        assert(s.message_of(room, mid) is Some);
        let msg = s.message_of(room, mid)->Some_0;
        assert(s.session_of(room, msg.1) is Some);
        assert forall|j: int| 0 <= j < n implies (#[trigger] h[j].id as int) == j by {
            if j < m {
                assert(h[j] == hp[j]);
            } else {
                assert(h[j].id == mid);
            }
        }
        assert forall|j: int| 0 <= j < n implies record_reflects_store(
            #[trigger] h[j],
            s,
            room,
            j as u64,
        ) by {
            if j < m {
                assert(h[j] == hp[j]);
            } else {
                assert(record_reflects_store(h[j], s, room, mid));
            }
        }
    }
}

/// The history record carries exactly the stored message `mid` of
/// `room` — its body and timestamp as appended, its author's current
/// label, its live vote count — so history reflects the appended
/// messages in posting order, never reordered or rewritten.
pub open spec fn record_reflects_store(
    rec: crate::state::HistoryRecord,
    s: Store,
    room: u64,
    mid: u64,
) -> bool {
    &&& (s.message_of(room, mid) matches Some(msg) && rec.body == msg.0 && rec.ts == msg.2
        && (s.session_of(room, msg.1) matches Some(author) && rec.user == author.0))
    &&& rec.votes == s.vote_count(room, mid)
}

/// Consecutive appends to one room take consecutive identifiers: each
/// append's identifier equals the room's message count at the time, so a
/// series of appends yields distinct, gapless, strictly increasing
/// identifiers with no lost writes.
pub proof fn lemma_sequential_message_ids(
    s0: Store,
    s1: Store,
    s2: Store,
    room: u64,
    n: nat,
    id1: u64,
    id2: u64,
)
    requires
        s0.msg_count_is(room, n),
        forall|m: nat|
            s0.msg_count_is(room, m) ==> id1 == m && s1.msg_count_is(room, (m + 1) as nat),
        forall|m: nat|
            s1.msg_count_is(room, m) ==> id2 == m && s2.msg_count_is(room, (m + 1) as nat),
    ensures
        id1 == n,
        id2 == n + 1,
        id1 < id2,
        s2.msg_count_is(room, (n + 2) as nat),
{
}

/// One room, one channel: when a handout leaves an endpoint of the
/// room's stored channel, and a later handout preserves stored channels
/// and does the same, the two endpoints belong to one underlying
/// channel — an event sent through either reaches subscribers made from
/// the other. These premises are exactly what the hub's handout ensures.
pub proof fn lemma_room_channel_shared(
    h1: Hub,
    h2: Hub,
    room: u64,
    c1: Channel,
    c2: Channel,
)
    requires
        h1.has_channel(room),
        chan_of(c1) == chan_of(h1.channel_at(room)),
        h2.has_channel(room) && h2.channel_at(room) == h1.channel_at(room),
        chan_of(c2) == chan_of(h2.channel_at(room)),
    ensures
        chan_of(c1) == chan_of(c2),
{
}

} // verus!
