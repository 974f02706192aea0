//! The peer surface: what a host answers to the requests of its peers.

use crate::clock::{outdated, Clock, ClockMap};
use crate::control_plane::{is_outdated, peer_views, ControlCommand, Gossip, Node, PeerInfo};
use crate::db::{listed_view, spells, ClipboardEntry, Database, EntryView, StoreView};
use crate::key::{assign_key, assigned, fresh_key, key_text, key_value, ulid_text, ulid_value};
use crate::log::{newest, recent};
use vstd::prelude::*;

verus! {

/// How many entries a peer gets when it asks for the newest ones.
pub const RECENT_LIMIT: u64 = 100;

/// The largest body of a request that the host reads, in bytes.
pub const MAX_BODY_BYTES: usize = 16 * 1024 * 1024;

/// The status of a request that was served.
pub const STATUS_OK: u16 = 200;

/// The status of a request that could not be read.
pub const STATUS_BAD_REQUEST: u16 = 400;

/// The status of a request that the host could not serve.
pub const STATUS_INTERNAL_SERVER_ERROR: u16 = 500;

/// The body that tells a peer that the host is up.
pub fn health_check() -> (body: &'static str)
    ensures
        body@ == "hai"@,
{
    "hai"
}

/// The clock that a peer gets: a copy of the store's.
pub fn clock(db: &Database) -> (data: Clock)
    ensures
        data@ == db@.clock,
{
    db.load_clock()
}

/// The listing that a peer gets: the `RECENT_LIMIT` newest entries, newest
/// first, each with the text of its key.
pub fn recent_clipboard(db: &Database) -> (values: Vec<(ClipboardEntry, String)>)
    ensures
        spells(listed_view(values@), recent(db@.log, RECENT_LIMIT as nat)),
{
    db.get_recent(RECENT_LIMIT)
}

/// The peers that a peer gets: those that the discovery has just reported,
/// which the replicator takes as its new list.
pub fn neighbors(node: &mut Node, peers: Vec<PeerInfo>) -> (info: Vec<PeerInfo>)
    ensures
        final(node).peers() == peer_views(peers@),
        final(node).name() == old(node).name(),
        peer_views(info@) == peer_views(peers@),
{
    node.reload_neighbors(peers);
    node.neighbors()
}

/// The store after a gossip message is accepted: the entry is written as a
/// replica under the key, then the sender's clock is merged in.
pub open spec fn accepted(store: StoreView, clock: ClockMap, entry: EntryView, key: u128) -> StoreView {
    store.write_replicated(key, entry).merge_clock(clock)
}

/// A message is passed on when it has hops left and its clock shows the
/// store, as it was when the message came, to be outdated.
pub open spec fn passes_on(store: StoreView, clock: ClockMap, ttl: u64) -> bool {
    ttl > 0 && outdated(store.clock, clock)
}

/// The request to the replicator is the one that passes the message on: the
/// same entry and key, one hop less, and the clock it came with; and there is
/// none where the message is not passed on.
pub open spec fn forwards(
    forward: Option<ControlCommand>,
    store: StoreView,
    clock: ClockMap,
    entry: EntryView,
    ttl: u64,
    text: Seq<char>,
) -> bool {
    if passes_on(store, clock, ttl) {
        forward matches Some(ControlCommand::Transmit { data, key, ttl: left, clock: carried })
            && data@ == entry && key@ == text && left == Some((ttl - 1) as u64) && (
        carried matches Some(remote) && remote@ == clock)
    } else {
        forward is None
    }
}

/// What the host answers to a gossip message, and what it asks of its
/// replicator.
#[derive(Debug)]
pub struct GossipReply {
    pub status: u16,
    pub forward: Option<ControlCommand>,
}

/// Accepts a gossip message whose key is known, as number and as text: the
/// entry is written as a replica, the sender's clock is merged in, and the
/// message is passed on with one hop less where it has hops left and its
/// clock showed the store to be outdated.
pub fn accept(
    db: &mut Database,
    clock: Clock,
    entry: ClipboardEntry,
    ttl: u64,
    key: u128,
    text: String,
) -> (forward: Option<ControlCommand>)
    ensures
        final(db)@ == accepted(old(db)@, clock@, entry@, key),
        forwards(forward, old(db)@, clock@, entry@, ttl, text@),
{
    let local = db.load_clock();
    let behind: bool = is_outdated(&local, &clock);
    db.write_replicated(key, entry.clone());
    db.sync_clock(&clock);
    if ttl > 0 && behind {
        Some(ControlCommand::Transmit { data: entry, key: text, ttl: Some(ttl - 1), clock: Some(clock) })
    } else {
        None
    }
}

/// What becomes of a gossip message that gives no key, with the candidate
/// key given. The entry gets a key that the log does not have: the candidate
/// where it is newer than the log, else the successor of the newest key.
/// Where there is no such key the host cannot serve the message, and the
/// store stays as it is.
pub open spec fn served_unkeyed(
    store: StoreView,
    clock: ClockMap,
    entry: EntryView,
    ttl: u64,
    candidate: u128,
    after: StoreView,
    reply: GossipReply,
) -> bool {
    match assigned(newest(store.log), candidate) {
        Some(key) => after == accepted(store, clock, entry, key) && reply.status == STATUS_OK
            && forwards(reply.forward, store, clock, entry, ttl, ulid_text(key)),
        None => after == store && reply.status == STATUS_INTERNAL_SERVER_ERROR
            && reply.forward is None,
    }
}

/// Accepts a gossip message that gives no key, with the candidate key given.
pub fn accept_unkeyed(
    db: &mut Database,
    clock: Clock,
    entry: ClipboardEntry,
    ttl: u64,
    candidate: u128,
) -> (reply: GossipReply)
    ensures
        served_unkeyed(old(db)@, clock@, entry@, ttl, candidate, final(db)@, reply),
{
    match assign_key(db.newest_key(), candidate) {
        Some(key) => {
            let text: String = key_text(key);
            let forward = accept(db, clock, entry, ttl, key, text);
            GossipReply { status: STATUS_OK, forward }
        },
        None => GossipReply { status: STATUS_INTERNAL_SERVER_ERROR, forward: None },
    }
}

/// What becomes of a gossip message. A key whose text spells none makes the
/// message malformed: it is refused and the store stays as it is. A message
/// with a key is accepted under it. A message without one is accepted under
/// a key made for it.
pub open spec fn served(store: StoreView, payload: Gossip, after: StoreView, reply: GossipReply) -> bool {
    match payload.key {
        Some(text) => match ulid_value(text@) {
            Some(key) => after == accepted(store, payload.clock@, payload.entry@, key)
                && reply.status == STATUS_OK && forwards(
                reply.forward,
                store,
                payload.clock@,
                payload.entry@,
                payload.ttl,
                text@,
            ),
            None => after == store && reply.status == STATUS_BAD_REQUEST && reply.forward is None,
        },
        None => exists|candidate: u128|
            served_unkeyed(
                store,
                payload.clock@,
                payload.entry@,
                payload.ttl,
                candidate,
                after,
                reply,
            ),
    }
}

/// Serves a gossip message from a peer.
pub fn gossip(db: &mut Database, payload: Gossip) -> (reply: GossipReply)
    ensures
        served(old(db)@, payload, final(db)@, reply),
{
    let Gossip { clock, entry, ttl, key } = payload;
    match key {
        Some(text) => match key_value(text.as_str()) {
            Some(key) => {
                let forward = accept(db, clock, entry, ttl, key, text);
                GossipReply { status: STATUS_OK, forward }
            },
            None => GossipReply { status: STATUS_BAD_REQUEST, forward: None },
        },
        None => {
            let candidate: u128 = fresh_key();
            accept_unkeyed(db, clock, entry, ttl, candidate)
        },
    }
}

/// A gossip message without hops left is never passed on.
pub proof fn spent_message_stops(
    store: StoreView,
    clock: ClockMap,
    forward: Option<ControlCommand>,
    entry: EntryView,
    text: Seq<char>,
)
    requires
        forwards(forward, store, clock, entry, 0, text),
    ensures
        forward is None,
{
}

/// Accepting the same gossip message a second time changes nothing: the log
/// and the clock stay as the first delivery left them. Nor is the message
/// passed on again, unless its clock gives the host itself a higher counter
/// than the host has.
pub proof fn duplicate_gossip_is_idle(
    store: StoreView,
    clock: ClockMap,
    entry: EntryView,
    key: u128,
)
    requires
        store.wf(),
    ensures
        accepted(accepted(store, clock, entry, key), clock, entry, key) == accepted(
            store,
            clock,
            entry,
            key,
        ),
        (store.self_host matches Some(host) ==> crate::clock::counter_of(clock, host)
            <= crate::clock::counter_of(store.clock, host)) ==> forall|ttl: u64|
            !passes_on(accepted(store, clock, entry, key), clock, ttl),
{
    let once = accepted(store, clock, entry, key);
    crate::log::lemma_with_row(store.log, key, entry);
    crate::log::lemma_with_row(once.log, key, entry);
    crate::clock::merge_idempotent(store.clock, clock, store.self_host);
    crate::clock::merge_catches_up(store.clock, clock, store.self_host);
    if store.self_host matches Some(host) ==> crate::clock::counter_of(clock, host)
        <= crate::clock::counter_of(store.clock, host) {
        assert forall|name: Seq<char>| #[trigger] clock.contains_key(name) implies clock[name]
            <= crate::clock::counter_of(once.clock, name) by {
            if store.self_host == Some(name) {
                assert(once.clock[name] == store.clock[name]);
            }
        }
    }
}

} // verus!
