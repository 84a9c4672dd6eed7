//! The channel hub: one broadcast channel per room, created lazily on
//! first access and shared by every publisher and subscriber of that room
//! for the life of the process. The hub is pure run-time fan-out state,
//! derived and disposable: it carries no durability obligation and is
//! safely reconstructible after a restart.

use vstd::prelude::*;

use std::collections::HashMap;

use crate::types::Event;

verus! {

broadcast use vstd::std_specs::hash::group_hash_axioms;

/// A handle on one room's broadcast channel. Every event sent through any
/// endpoint of a channel is delivered to every endpoint of that channel
/// that was attached at send time; an endpoint attached later does not
/// receive it. Sending and receiving are asynchronous and belong to the
/// caller.
#[verifier::external_body]
pub struct Channel {
    /// The underlying broadcast endpoint; the caller awaits sends and
    /// receives on it directly.
    pub inner: broadcaster::BroadcastChannel<Event>,
}

/// The identity of the underlying channel an endpoint belongs to.
/// Endpoints with the same identity deliver to and receive from one
/// another; what the hub promises of its handles is stated through this
/// identity.
pub uninterp spec fn chan_of(c: Channel) -> int;

/// Relies on broadcaster::BroadcastChannel::new: a fresh channel with one
/// registered endpoint and no buffered events.
#[verifier::external_body]
fn new_channel() -> (r: Channel) {
    Channel { inner: broadcaster::BroadcastChannel::new() }
}

/// Relies on broadcaster::BroadcastChannel::clone: registers a new
/// endpoint on the same underlying channel — the clone shares the
/// original's sender registry, so it receives every event sent after this
/// point and its sends reach every current endpoint of that channel.
#[verifier::external_body]
fn attach(c: &Channel) -> (r: Channel)
    ensures
        chan_of(r) == chan_of(*c),
{
    Channel { inner: c.inner.clone() }
}

/// The hub: the map from room identifier to that room's single channel.
pub struct Hub {
    pub chans: HashMap<u64, Channel>,
}

impl Hub {
    /// The rooms that currently have a channel.
    pub open spec fn rooms(self) -> Set<u64> {
        self.chans@.dom()
    }

    /// Whether `room` already has a channel.
    pub open spec fn has_channel(self, room: u64) -> bool {
        self.chans@.contains_key(room)
    }

    /// The channel stored for `room`.
    pub open spec fn channel_at(self, room: u64) -> Channel {
        self.chans@[room]
    }

    /// A hub with no channels yet.
    pub fn new() -> (r: Hub)
        ensures
            r.rooms() == Set::<u64>::empty(),
    {
        Hub { chans: HashMap::new() }
    }

    /// Hands out an endpoint on `room`'s channel, creating the channel on
    /// first access. A room's channel, once created, is never replaced,
    /// and the returned endpoint belongs to that very channel: every
    /// publisher and subscriber of the room shares one channel, so an
    /// event sent through one handle reaches the endpoints handed out for
    /// the same room.
    pub fn channel_for(&mut self, room: u64) -> (r: Channel)
        ensures
            final(self).rooms() == old(self).rooms().insert(room),
            old(self).has_channel(room) ==> final(self).chans@ == old(self).chans@,
            final(self).has_channel(room) && chan_of(r) == chan_of(final(self).channel_at(room)),
            forall|r2: u64|
                old(self).has_channel(r2) ==> final(self).has_channel(r2)
                    && final(self).channel_at(r2) == old(self).channel_at(r2),
    {
        let existing = self.chans.get(&room);
        match existing {
            Some(c) => {
                let r = attach(c);
                proof {
                    assert(self.rooms() =~= old(self).rooms().insert(room));
                }
                r
            },
            None => {
                let c = new_channel();
                let r = attach(&c);
                self.chans.insert(room, c);
                proof {
                    assert(self.rooms() =~= old(self).rooms().insert(room));
                }
                r
            },
        }
    }
}

} // verus!
