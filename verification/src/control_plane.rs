//! The replicator: gossip on local writes, anti-entropy on a timer.
//!
//! Nothing here touches the network. Each function decides: whom to tell,
//! what to ask next, what to write. The caller performs the requests and
//! hands back what came of them.

use crate::clock::{counter_of, lemma_row_value, outdated, row_is, Clock, ClockMap};
use crate::db::{
    keyed_view, listed_view, option_string, ClipboardEntry, DBCommand, Database, EntryView,
    StoreView,
};
use crate::key::{key_value, ulid_value};
use crate::log::{capped, lemma_with_rows, with_rows};
use crate::text::{decimal, decimal_text};
use vstd::prelude::*;

verus! {

/// The port on which every host serves its peers.
pub const PORT: u64 = 3000;

/// The time between two anti-entropy sweeps, in milliseconds.
pub const ANTI_ENTROPY_TIMEOUT_MS: u64 = 3 * 60 * 1000;

/// The hop budget of a gossip message at the host where the entry was copied.
pub const TTL: u64 = 1;

/// To how many peers a host gossips an entry.
pub const MAX_PER_ROUND: u64 = 5;

/// How long a request to a peer may take, in milliseconds; a peer that takes
/// longer counts as unreachable.
pub const PEER_TIMEOUT_MS: u64 = 5000;

/// How many requests may wait in the queue of a component.
pub const QUEUE_CAPACITY: usize = 100;

/// A peer as mathematics.
pub struct PeerView {
    pub host: Seq<char>,
    pub addresses: Seq<Seq<char>>,
    pub online: bool,
}

/// A peer can be contacted: it is online and has an address.
pub open spec fn reachable(peer: PeerView) -> bool {
    peer.online && peer.addresses.len() > 0
}

/// A peer as the discovery of the mesh reports it: its name, its addresses,
/// of which the first is the one to use, and whether it is online.
#[derive(Debug)]
pub struct PeerInfo {
    pub(crate) host_name: String,
    pub(crate) addresses: Vec<String>,
    pub(crate) online: bool,
}

impl View for PeerInfo {
    type V = PeerView;

    open(crate) spec fn view(&self) -> PeerView {
        PeerView {
            host: self.host_name@,
            addresses: crate::text::texts(self.addresses@),
            online: self.online,
        }
    }
}

impl Clone for PeerInfo {
    fn clone(&self) -> (copy: PeerInfo)
        ensures
            copy@ == self@,
    {
        let mut addresses: Vec<String> = Vec::new();
        let mut i: usize = 0;
        while i < self.addresses.len()
            invariant
                i <= self.addresses.len(),
                addresses@ == self.addresses@.take(i as int),
            decreases self.addresses.len() - i,
        {
            addresses.push(self.addresses[i].clone());
            assert(addresses@ =~= self.addresses@.take(i + 1));
            i += 1;
        }
        assert(addresses@ =~= self.addresses@);
        PeerInfo { host_name: self.host_name.clone(), addresses, online: self.online }
    }
}

impl PeerInfo {
    /// A peer with the given name, addresses and state.
    pub fn new(host_name: String, addresses: Vec<String>, online: bool) -> (peer: PeerInfo)
        ensures
            peer@ == (PeerView {
                host: host_name@,
                addresses: crate::text::texts(addresses@),
                online,
            }),
    {
        PeerInfo { host_name, addresses, online }
    }

    /// The name of the peer.
    pub fn host_name(&self) -> (name: &String)
        ensures
            name@ == self@.host,
    {
        &self.host_name
    }

    /// The addresses of the peer.
    pub fn addresses(&self) -> (addresses: &Vec<String>)
        ensures
            crate::text::texts(addresses@) == self@.addresses,
    {
        &self.addresses
    }

    /// Whether the peer is online.
    pub fn online(&self) -> (online: bool)
        ensures
            online == self@.online,
    {
        self.online
    }

    /// The address at which to contact the peer: its first one, if it is
    /// online.
    pub fn contact(&self) -> (address: Option<&String>)
        ensures
            match address {
                Some(first) => reachable(self@) && first@ == self@.addresses[0],
                None => !reachable(self@),
            },
    {
        if self.online && self.addresses.len() > 0 {
            Some(&self.addresses[0])
        } else {
            None
        }
    }
}

/// The peers as mathematics.
pub open spec fn peer_views(peers: Seq<PeerInfo>) -> Seq<PeerView> {
    peers.map_values(|peer: PeerInfo| peer@)
}

/// Copies a list of peers.
pub fn copy_peers(peers: &Vec<PeerInfo>) -> (copy: Vec<PeerInfo>)
    ensures
        peer_views(copy@) == peer_views(peers@),
{
    let mut copy: Vec<PeerInfo> = Vec::new();
    let mut i: usize = 0;
    while i < peers.len()
        invariant
            i <= peers.len(),
            copy@.len() == i,
            peer_views(copy@) == peer_views(peers@).take(i as int),
        decreases peers.len() - i,
    {
        copy.push(peers[i].clone());
        assert(peer_views(copy@) =~= peer_views(peers@).take(i + 1));
        i += 1;
    }
    assert(peer_views(peers@).take(i as int) =~= peer_views(peers@));
    copy
}

/// The address of a path on a peer: `http://`, the peer's address, the port,
/// the path.
pub open spec fn url(address: Seq<char>, path: Seq<char>) -> Seq<char> {
    "http://"@ + address + ":"@ + decimal_text(PORT as nat) + path
}

/// Writes the address of a path on a peer.
pub fn endpoint(address: &str, path: &str) -> (text: String)
    ensures
        text@ == url(address@, path@),
{
    let mut text: String = "http://".to_owned();
    text.append(address);
    text.append(":");
    text.append(decimal(PORT).as_str());
    text.append(path);
    text
}

/// The addresses of the peers that can be contacted, in the order of the
/// list.
pub open spec fn contacts(peers: Seq<PeerView>) -> Seq<Seq<char>>
    decreases peers.len(),
{
    if peers.len() == 0 {
        Seq::empty()
    } else if reachable(peers.last()) {
        contacts(peers.drop_last()).push(peers.last().addresses[0])
    } else {
        contacts(peers.drop_last())
    }
}

/// The addresses to which an entry is gossiped: the first `count` of those
/// that can be contacted.
pub open spec fn gossip_targets(peers: Seq<PeerView>, count: nat) -> Seq<Seq<char>> {
    contacts(peers).take(capped(count, contacts(peers).len()) as int)
}

/// The contacts of a shorter list begin the contacts of the whole list.
pub proof fn lemma_contacts_prefix(peers: Seq<PeerView>, i: int)
    requires
        0 <= i <= peers.len(),
    ensures
        contacts(peers.take(i)).len() <= contacts(peers).len(),
        contacts(peers.take(i)) == contacts(peers).take(contacts(peers.take(i)).len() as int),
    decreases peers.len() - i,
{
    if i == peers.len() {
        assert(peers.take(i) =~= peers);
        assert(contacts(peers).take(contacts(peers).len() as int) =~= contacts(peers));
    } else {
        lemma_contacts_prefix(peers, i + 1);
        let longer = peers.take(i + 1);
        assert(longer.drop_last() =~= peers.take(i));
        let short = contacts(peers.take(i));
        let whole = contacts(peers);
        assert(short =~= whole.take(short.len() as int));
    }
}

/// A gossip message: the sender's clock, the entry, the hops that are left,
/// and the text of the entry's key where the sender gave it.
#[derive(Debug)]
pub struct Gossip {
    pub clock: Clock,
    pub entry: ClipboardEntry,
    pub ttl: u64,
    pub key: Option<String>,
}

impl Clone for Gossip {
    fn clone(&self) -> (copy: Gossip)
        ensures
            copy.clock@ == self.clock@,
            copy.entry@ == self.entry@,
            copy.ttl == self.ttl,
            option_string(copy.key) == option_string(self.key),
    {
        Gossip {
            clock: self.clock.clone(),
            entry: self.entry.clone(),
            ttl: self.ttl,
            key: match &self.key {
                Some(text) => Some(text.clone()),
                None => None,
            },
        }
    }
}

/// A gossip message on its way to a peer.
#[derive(Debug)]
pub struct Outbound {
    pub endpoint: String,
    pub body: Gossip,
}

/// The message carries the entry, its key, the hop budget and the clock to
/// the gossip path of the address.
pub open spec fn sends(
    message: Outbound,
    address: Seq<char>,
    entry: EntryView,
    key: Seq<char>,
    ttl: u64,
    clock: ClockMap,
) -> bool {
    &&& message.endpoint@ == url(address, "/gossip"@)
    &&& message.body.clock@ == clock
    &&& message.body.entry@ == entry
    &&& message.body.ttl == ttl
    &&& option_string(message.body.key) == Some(key)
}

/// Whether `incoming` has a higher counter than `clock` for some host, a host
/// that `clock` does not mention counting as 0.
pub fn is_outdated(clock: &Clock, incoming: &Clock) -> (behind: bool)
    ensures
        behind == outdated(clock@, incoming@),
{
    proof {
        use_type_invariant(incoming);
    }
    let mut i: usize = 0;
    while i < incoming.rows.len()
        invariant
            i <= incoming.rows.len(),
            incoming.wf(),
            forall|k: int|
                0 <= k < i ==> incoming.rows@[k].1 <= counter_of(clock@, #[trigger] incoming.rows@[k].0@),
        decreases incoming.rows.len() - i,
    {
        let local: u64 = match clock.get(incoming.rows[i].0.as_str()) {
            Some(time) => time,
            None => 0,
        };
        proof {
            lemma_row_value(incoming.rows@, i as int);
        }
        if incoming.rows[i].1 > local {
            return true;
        }
        i += 1;
    }
    proof {
        assert forall|host: Seq<char>| #[trigger]
            incoming@.contains_key(host) implies incoming@[host] <= counter_of(clock@, host) by {
            let k = choose|k: int| row_is(incoming.rows@, k, host);
            lemma_row_value(incoming.rows@, k);
        }
    }
    false
}

/// The replicator of one host: its name and the peers it last heard of.
#[derive(Debug)]
pub struct Node {
    pub(crate) host_name: String,
    pub(crate) neighbors: Vec<PeerInfo>,
}

impl Node {
    /// The replicator of the host of this name, with no peer known yet.
    pub fn new(host_name: String) -> (node: Node)
        ensures
            node.name() == host_name@,
            node.peers() == Seq::<PeerView>::empty(),
    {
        let node = Node { host_name, neighbors: Vec::new() };
        assert(node.peers() =~= Seq::<PeerView>::empty());
        node
    }

    /// The name of the host.
    pub open(crate) spec fn name(&self) -> Seq<char> {
        self.host_name@
    }

    /// The peers that the replicator last heard of.
    pub open(crate) spec fn peers(&self) -> Seq<PeerView> {
        peer_views(self.neighbors@)
    }

    /// The name of the host.
    pub fn host_name(&self) -> (name: &String)
        ensures
            name@ == self.name(),
    {
        &self.host_name
    }

    /// A copy of the peers that the replicator last heard of.
    pub fn neighbors(&self) -> (peers: Vec<PeerInfo>)
        ensures
            peer_views(peers@) == self.peers(),
    {
        copy_peers(&self.neighbors)
    }

    /// The request that makes the host's own clock row: the first thing the
    /// replicator asks of the store.
    pub fn init_command(&self) -> (cmd: DBCommand)
        ensures
            cmd matches DBCommand::InsertSelf { host_name } && host_name@ == self.name(),
    {
        DBCommand::InsertSelf { host_name: self.host_name.clone() }
    }

    /// Replaces the peers by what the discovery has just reported.
    pub fn reload_neighbors(&mut self, peers: Vec<PeerInfo>)
        ensures
            final(self).peers() == peer_views(peers@),
            final(self).name() == old(self).name(),
    {
        self.neighbors = peers;
    }

    /// Plans one round of gossip: a message for each of the first
    /// `neighbor_count` peers that can be contacted, in the order of the list.
    /// Each carries the entry, the text of its key, the hop budget and the
    /// clock.
    pub fn gossip(
        &self,
        entry: &ClipboardEntry,
        key: &str,
        neighbor_count: u64,
        ttl: u64,
        clock: &Clock,
    ) -> (messages: Vec<Outbound>)
        ensures
            messages@.len() == gossip_targets(self.peers(), neighbor_count as nat).len(),
            forall|i: int|
                0 <= i < messages@.len() ==> sends(
                    #[trigger] messages@[i],
                    gossip_targets(self.peers(), neighbor_count as nat)[i],
                    entry@,
                    key@,
                    ttl,
                    clock@,
                ),
    {
        let ghost peers = self.peers();
        let mut messages: Vec<Outbound> = Vec::new();
        let mut i: usize = 0;
        while i < self.neighbors.len() && (messages.len() as u64) < neighbor_count
            invariant
                i <= self.neighbors.len(),
                peers == peer_views(self.neighbors@),
                messages@.len() == contacts(peers.take(i as int)).len(),
                messages@.len() <= neighbor_count,
                forall|k: int|
                    0 <= k < messages@.len() ==> sends(
                        #[trigger] messages@[k],
                        contacts(peers.take(i as int))[k],
                        entry@,
                        key@,
                        ttl,
                        clock@,
                    ),
            decreases self.neighbors.len() - i,
        {
            proof {
                assert(peers.take(i + 1).drop_last() =~= peers.take(i as int));
                assert(peers.take(i + 1).last() == self.neighbors@[i as int]@);
            }
            match self.neighbors[i].contact() {
                Some(address) => {
                    let body = Gossip {
                        clock: clock.clone(),
                        entry: entry.clone(),
                        ttl,
                        key: Some(key.to_owned()),
                    };
                    messages.push(Outbound { endpoint: endpoint(address.as_str(), "/gossip"), body });
                },
                None => {},
            }
            i += 1;
        }
        proof {
            lemma_contacts_prefix(peers, i as int);
            let sent = contacts(peers.take(i as int));
            let targets = gossip_targets(peers, neighbor_count as nat);
            if i == self.neighbors.len() {
                assert(peers.take(i as int) =~= peers);
            }
            assert(targets =~= sent);
        }
        messages
    }

    /// Whether the store's clock is outdated against `incoming`.
    pub fn is_outdated(&self, incoming: &Clock, db: &Database) -> (behind: bool)
        ensures
            behind == outdated(db@.clock, incoming@),
    {
        let clock = db.load_clock();
        is_outdated(&clock, incoming)
    }
}

/// Why a listing from a peer was refused.
#[derive(Debug, PartialEq, Eq, Clone, Copy)]
pub enum ReplicationError {
    /// The text at this place of the listing spells no key.
    MalformedKey { index: usize },
}

/// Every text of the listing spells a key.
pub open spec fn all_spelled(rows: Seq<(EntryView, Seq<char>)>) -> bool {
    forall|i: int| 0 <= i < rows.len() ==> ulid_value((#[trigger] rows[i]).1) is Some
}

/// The listing with each text replaced by the key it spells.
pub open spec fn keys_of(rows: Seq<(EntryView, Seq<char>)>) -> Seq<(EntryView, u128)> {
    Seq::new(rows.len(), |i: int| (rows[i].0, ulid_value(rows[i].1)->0))
}

/// Row `index` is the first whose text spells no key.
pub open spec fn first_unspelled(rows: Seq<(EntryView, Seq<char>)>, index: int) -> bool {
    &&& 0 <= index < rows.len()
    &&& ulid_value(rows[index].1) is None
    &&& forall|i: int| 0 <= i < index ==> ulid_value((#[trigger] rows[i]).1) is Some
}

/// The store after a pull: first the rows of the listing are written as
/// replicas, then the peer's clock is merged in.
pub open spec fn after_updates(
    store: StoreView,
    keyed: Seq<(EntryView, u128)>,
    clock: ClockMap,
) -> StoreView {
    (StoreView { log: with_rows(store.log, keyed), ..store }).merge_clock(clock)
}

/// The store after a listing with keys as text is pulled: as `after_updates`
/// where every text spells a key; unchanged where one does not.
pub open spec fn pulled(
    store: StoreView,
    rows: Seq<(EntryView, Seq<char>)>,
    clock: ClockMap,
) -> StoreView {
    if all_spelled(rows) {
        after_updates(store, keys_of(rows), clock)
    } else {
        store
    }
}

/// Writes each row of a listing as a replica, then merges the peer's clock:
/// the entries first, the clock after them.
pub fn apply_updates(db: &mut Database, updates: &Vec<(ClipboardEntry, u128)>, clock: &Clock)
    ensures
        final(db)@ == after_updates(old(db)@, keyed_view(updates@), clock@),
{
    let ghost start = db@;
    let ghost keyed = keyed_view(updates@);
    let mut i: usize = 0;
    while i < updates.len()
        invariant
            i <= updates.len(),
            keyed == keyed_view(updates@),
            db@ == (StoreView { log: with_rows(start.log, keyed.take(i as int)), ..start }),
        decreases updates.len() - i,
    {
        proof {
            assert(keyed.take(i + 1).drop_last() =~= keyed.take(i as int));
            assert(keyed.take(i + 1).last() == (updates@[i as int].0@, updates@[i as int].1));
        }
        db.write_replicated(updates[i].1, updates[i].0.clone());
        i += 1;
    }
    assert(keyed.take(i as int) =~= keyed);
    db.sync_clock(clock);
}

/// Reads the key of each row of a listing. Where a text spells no key, says
/// at which row the first such text stands.
pub fn read_keys(rows: &Vec<(ClipboardEntry, String)>) -> (res: Result<
    Vec<(ClipboardEntry, u128)>,
    ReplicationError,
>)
    ensures
        match res {
            Ok(keyed) => all_spelled(listed_view(rows@)) && keyed_view(keyed@) == keys_of(
                listed_view(rows@),
            ),
            Err(ReplicationError::MalformedKey { index }) => first_unspelled(
                listed_view(rows@),
                index as int,
            ),
        },
{
    let ghost listing = listed_view(rows@);
    let mut keyed: Vec<(ClipboardEntry, u128)> = Vec::new();
    let mut i: usize = 0;
    while i < rows.len()
        invariant
            i <= rows.len(),
            listing == listed_view(rows@),
            keyed@.len() == i,
            forall|k: int| 0 <= k < i ==> ulid_value((#[trigger] listing[k]).1) is Some,
            keyed_view(keyed@) == keys_of(listing).take(i as int),
        decreases rows.len() - i,
    {
        let ghost before = keyed@;
        match key_value(rows[i].1.as_str()) {
            Some(key) => {
                keyed.push((rows[i].0.clone(), key));
                proof {
                    assert forall|k: int| 0 <= k < i + 1 implies keyed_view(keyed@)[k] == keys_of(
                        listing,
                    ).take(i + 1)[k] by {
                        if k < i {
                            assert(keyed_view(before)[k] == keys_of(listing).take(i as int)[k]);
                        }
                    }
                    assert(keyed_view(keyed@) =~= keys_of(listing).take(i + 1));
                }
            },
            None => {
                return Err(ReplicationError::MalformedKey { index: i });
            },
        }
        i += 1;
    }
    assert(keys_of(listing).take(i as int) =~= keys_of(listing));
    Ok(keyed)
}

impl Node {
    /// Takes in what was pulled from a peer: the listing of its newest
    /// entries and its clock. Every key is read before anything is written:
    /// where a text spells no key, the store stays as it is. Else the entries
    /// are written as replicas and then the clock is merged in.
    pub fn update_values(
        &self,
        incoming_updates: &Vec<(ClipboardEntry, String)>,
        incoming_clock: &Clock,
        db: &mut Database,
    ) -> (res: Result<(), ReplicationError>)
        ensures
            final(db)@ == pulled(old(db)@, listed_view(incoming_updates@), incoming_clock@),
            match res {
                Ok(()) => all_spelled(listed_view(incoming_updates@)),
                Err(ReplicationError::MalformedKey { index }) => first_unspelled(
                    listed_view(incoming_updates@),
                    index as int,
                ),
            },
    {
        match read_keys(incoming_updates) {
            Ok(keyed) => {
                apply_updates(db, &keyed, incoming_clock);
                Ok(())
            },
            Err(error) => Err(error),
        }
    }
}

/// The first peer at or after `from` that can be contacted; the length of
/// the list where there is none.
pub open spec fn next_contact(peers: Seq<PeerView>, from: int) -> int
    decreases peers.len() - from,
{
    if from < 0 || from >= peers.len() {
        peers.len() as int
    } else if reachable(peers[from]) {
        from
    } else {
        next_contact(peers, from + 1)
    }
}

/// `next_contact` gives a peer at or after `from` that can be contacted, or
/// the end of the list, and passes over none that can be contacted.
pub proof fn lemma_next_contact(peers: Seq<PeerView>, from: int)
    requires
        0 <= from <= peers.len(),
    ensures
        from <= next_contact(peers, from) <= peers.len(),
        next_contact(peers, from) < peers.len() ==> reachable(peers[next_contact(peers, from)]),
        forall|i: int| from <= i < next_contact(peers, from) ==> !reachable(#[trigger] peers[i]),
    decreases peers.len() - from,
{
    if from < peers.len() && !reachable(peers[from]) {
        lemma_next_contact(peers, from + 1);
    }
}

/// Computes `next_contact`.
fn find_contact(peers: &Vec<PeerInfo>, from: usize) -> (at: usize)
    ensures
        at == next_contact(peer_views(peers@), from as int),
        at <= peers.len(),
        at < peers.len() ==> reachable(peers@[at as int]@),
{
    let ghost views = peer_views(peers@);
    let mut at: usize = from;
    while at < peers.len()
        invariant
            from <= at,
            views == peer_views(peers@),
            next_contact(views, from as int) == next_contact(views, at as int),
        decreases peers.len() - at,
    {
        if peers[at].contact().is_some() {
            return at;
        }
        at += 1;
    }
    peers.len()
}

/// What came of the request that a sweep asked for.
#[derive(Debug)]
pub enum SweepEvent {
    /// The peer answered with its clock.
    Clock { clock: Clock },
    /// The peer answered with the listing of its newest entries.
    Recent { values: Vec<(ClipboardEntry, String)> },
    /// The peer did not answer in time, or not with what was asked.
    Failed,
}

/// What a sweep asks for next.
#[derive(Debug)]
pub enum SweepAction {
    /// Get the clock of the peer at this address.
    FetchClock { endpoint: String },
    /// Get the listing of the newest entries of the peer at this address.
    FetchRecent { endpoint: String },
    /// The sweep is over: answer the one who asked for it.
    Done,
}

/// A sweep as mathematics: the peers, the place of the peer that is being
/// asked (the length of the list once the sweep is over), and that peer's
/// clock once it has answered with one that calls for a pull.
pub struct SweepView {
    pub peers: Seq<PeerView>,
    pub position: nat,
    pub pending: Option<ClockMap>,
}

impl SweepView {
    /// The peer that is being asked can be contacted; a sweep that is over
    /// waits for nothing.
    pub open spec fn wf(self) -> bool {
        &&& self.position <= self.peers.len()
        &&& self.position < self.peers.len() ==> reachable(self.peers[self.position as int])
        &&& self.position == self.peers.len() ==> self.pending is None
    }

    /// The sweep before its first request.
    pub open spec fn begin(peers: Seq<PeerView>) -> SweepView {
        SweepView { peers, position: next_contact(peers, 0) as nat, pending: None }
    }

    /// The sweep is over.
    pub open spec fn finished(self) -> bool {
        self.position >= self.peers.len()
    }

    /// The sweep when it turns to the next peer that can be contacted.
    pub open spec fn advance(self) -> SweepView {
        SweepView {
            position: next_contact(self.peers, (self.position + 1) as int) as nat,
            pending: None,
            ..self
        }
    }

    /// The next state of the sweep and of the store. A clock that shows the
    /// store to be outdated calls for the peer's listing; any other answer to
    /// the request for a clock turns the sweep to the next peer. A listing
    /// is pulled into the store, with the clock that called for it; a failed
    /// request for it leaves the store as it is. Either way the sweep turns
    /// to the next peer.
    pub open spec fn step(self, event: SweepEvent, store: StoreView) -> (SweepView, StoreView) {
        if self.finished() {
            (self, store)
        } else {
            match self.pending {
                None => match event {
                    SweepEvent::Clock { clock } => if outdated(store.clock, clock@) {
                        (SweepView { pending: Some(clock@), ..self }, store)
                    } else {
                        (self.advance(), store)
                    },
                    _ => (self.advance(), store),
                },
                Some(remote) => match event {
                    SweepEvent::Recent { values } => (
                        self.advance(),
                        pulled(store, listed_view(values@), remote),
                    ),
                    _ => (self.advance(), store),
                },
            }
        }
    }

    /// How many requests the sweep may still make: two for each peer from the
    /// current one on, less one where the current peer has given its clock.
    pub open spec fn left(self) -> nat {
        if self.finished() {
            0
        } else if self.pending is Some {
            (2 * (self.peers.len() - self.position) - 1) as nat
        } else {
            (2 * (self.peers.len() - self.position)) as nat
        }
    }

    /// The action is the request that the sweep waits for.
    pub open spec fn asks(self, action: SweepAction) -> bool {
        if self.finished() {
            action is Done
        } else {
            match self.pending {
                None => action matches SweepAction::FetchClock { endpoint } && endpoint@ == url(
                    self.peers[self.position as int].addresses[0],
                    "/clock"@,
                ),
                Some(_) => action matches SweepAction::FetchRecent { endpoint } && endpoint@
                    == url(self.peers[self.position as int].addresses[0], "/recent_clipboard"@),
            }
        }
    }
}

/// One anti-entropy sweep over the peers: each peer that can be contacted is
/// asked for its clock and, where that clock shows the store to be outdated,
/// for its newest entries.
#[derive(Debug)]
pub struct Sweep {
    pub(crate) peers: Vec<PeerInfo>,
    pub(crate) position: usize,
    pub(crate) pending: Option<Clock>,
}

impl View for Sweep {
    type V = SweepView;

    open(crate) spec fn view(&self) -> SweepView {
        SweepView {
            peers: peer_views(self.peers@),
            position: self.position as nat,
            pending: match self.pending {
                Some(clock) => Some(clock@),
                None => None,
            },
        }
    }
}

impl Sweep {
    #[verifier::type_invariant]
    pub open(crate) spec fn wf(&self) -> bool {
        self@.wf()
    }

    /// Begins a sweep over the peers and says what to ask first.
    pub fn begin(peers: Vec<PeerInfo>) -> (out: (Sweep, SweepAction))
        ensures
            out.0@ == SweepView::begin(peer_views(peers@)),
            out.0@.wf(),
            out.0@.asks(out.1),
    {
        let position: usize = find_contact(&peers, 0);
        let sweep = Sweep { peers, position, pending: None };
        let action = sweep.action();
        (sweep, action)
    }

    /// Whether the sweep is over.
    pub fn finished(&self) -> (over: bool)
        ensures
            over == self@.finished(),
            self@.wf(),
    {
        proof {
            use_type_invariant(self);
        }
        self.position >= self.peers.len()
    }

    /// The request that the sweep waits for.
    pub fn action(&self) -> (action: SweepAction)
        ensures
            self@.asks(action),
            self@.wf(),
    {
        proof {
            use_type_invariant(self);
        }
        if self.position >= self.peers.len() {
            return SweepAction::Done;
        }
        match self.peers[self.position].contact() {
            Some(address) => match &self.pending {
                None => SweepAction::FetchClock { endpoint: endpoint(address.as_str(), "/clock") },
                Some(_) => SweepAction::FetchRecent {
                    endpoint: endpoint(address.as_str(), "/recent_clipboard"),
                },
            },
            None => SweepAction::Done,
        }
    }

    /// Takes what came of the last request, moves the store where a listing
    /// was pulled, and says what to ask next.
    pub fn step(self, event: SweepEvent, db: &mut Database) -> (out: (Sweep, SweepAction))
        ensures
            out.0@ == self@.step(event, old(db)@).0,
            final(db)@ == self@.step(event, old(db)@).1,
            out.0@.wf(),
            out.0@.asks(out.1),
    {
        proof {
            use_type_invariant(&self);
        }
        if self.position >= self.peers.len() {
            let action = self.action();
            return (self, action);
        }
        let Sweep { peers, position, pending } = self;
        let next: Sweep = match pending {
            None => match event {
                SweepEvent::Clock { clock } => {
                    let local = db.load_clock();
                    if is_outdated(&local, &clock) {
                        Sweep { peers, position, pending: Some(clock) }
                    } else {
                        let position: usize = find_contact(&peers, position + 1);
                        Sweep { peers, position, pending: None }
                    }
                },
                _ => {
                    let position: usize = find_contact(&peers, position + 1);
                    Sweep { peers, position, pending: None }
                },
            },
            Some(remote) => {
                match event {
                    SweepEvent::Recent { values } => {
                        match read_keys(&values) {
                            Ok(keyed) => {
                                apply_updates(db, &keyed, &remote);
                            },
                            Err(_) => {},
                        }
                    },
                    _ => {},
                }
                let position: usize = find_contact(&peers, position + 1);
                Sweep { peers, position, pending: None }
            },
        };
        let action = next.action();
        (next, action)
    }
}

/// A request to the replicator.
#[derive(Debug)]
pub enum ControlCommand {
    /// Run one anti-entropy sweep.
    AntiEntropy,
    /// Gossip an entry to the peers. A local copy gives neither hop budget
    /// nor clock; a message that is passed on gives the hops that are left
    /// and the clock it came with.
    Transmit { data: ClipboardEntry, key: String, ttl: Option<u64>, clock: Option<Clock> },
    /// List the peers.
    GetNeighbors,
    /// Give a copy of the clock.
    GetClock,
}

/// The replicator's answer to a request.
#[derive(Debug)]
pub enum Response {
    /// Done.
    OK,
    /// The peers, as the discovery has just reported them.
    Neighbors { info: Vec<PeerInfo> },
    /// A copy of the clock.
    Clock { data: Clock },
}

/// What the caller is to do for a request.
#[derive(Debug)]
pub enum Step {
    /// Answer.
    Reply { response: Response },
    /// Send each message, whether or not the one before it arrived, then
    /// answer.
    Send { messages: Vec<Outbound>, response: Response },
    /// Run the sweep: perform the action, hand what came of it to the
    /// sweep's `step`, and so on until it is done; then answer `OK`.
    Sweep { sweep: Sweep, action: SweepAction },
}

/// The hop budget that a transmit request asks for: its own, or that of a
/// first sending where it gives none.
pub open spec fn hops(ttl: Option<u64>) -> u64 {
    match ttl {
        Some(left) => left,
        None => TTL,
    }
}

/// The store after a transmit request: the clock that came with it, if any,
/// is merged in.
pub open spec fn after_transmit(store: StoreView, clock: Option<Clock>) -> StoreView {
    match clock {
        Some(remote) => store.merge_clock(remote@),
        None => store,
    }
}

/// What the replicator does with a request, given the peers that the
/// discovery has just reported.
pub open spec fn handled(
    cmd: ControlCommand,
    peers: Seq<PeerView>,
    store: StoreView,
    after: StoreView,
    step: Step,
) -> bool {
    match cmd {
        ControlCommand::AntiEntropy => after == store && (step matches Step::Sweep {
            sweep,
            action,
        } && sweep@ == SweepView::begin(peers) && sweep@.wf() && sweep@.asks(action)),
        ControlCommand::Transmit { data, key, ttl, clock } => after == after_transmit(store, clock)
            && (step matches Step::Send { messages, response } && response is OK && messages@.len()
            == gossip_targets(peers, MAX_PER_ROUND as nat).len() && forall|i: int|
            0 <= i < messages@.len() ==> sends(
                #[trigger] messages@[i],
                gossip_targets(peers, MAX_PER_ROUND as nat)[i],
                data@,
                key@,
                hops(ttl),
                after.clock,
            )),
        ControlCommand::GetNeighbors => after == store && (step matches Step::Reply {
            response: Response::Neighbors { info },
        } && peer_views(info@) == peers),
        ControlCommand::GetClock => after == store && (step matches Step::Reply {
            response: Response::Clock { data },
        } && data@ == store.clock),
    }
}

impl Node {
    /// Whether the request needs the peers discovered anew before it is
    /// handled: all do but the request for the clock.
    pub fn needs_peers(cmd: &ControlCommand) -> (needed: bool)
        ensures
            needed == !(cmd is GetClock),
    {
        match cmd {
            ControlCommand::GetClock => false,
            _ => true,
        }
    }

    /// Gossips an entry: merges the clock that came with it, if any, and
    /// plans a message to each of the first `MAX_PER_ROUND` peers that can be
    /// contacted, with the store's clock as it then is.
    pub fn transmit(
        &self,
        data: &ClipboardEntry,
        key: &str,
        ttl: Option<u64>,
        clock: Option<Clock>,
        db: &mut Database,
    ) -> (messages: Vec<Outbound>)
        ensures
            final(db)@ == after_transmit(old(db)@, clock),
            messages@.len() == gossip_targets(self.peers(), MAX_PER_ROUND as nat).len(),
            forall|i: int|
                0 <= i < messages@.len() ==> sends(
                    #[trigger] messages@[i],
                    gossip_targets(self.peers(), MAX_PER_ROUND as nat)[i],
                    data@,
                    key@,
                    hops(ttl),
                    final(db)@.clock,
                ),
    {
        match &clock {
            Some(remote) => {
                db.sync_clock(remote);
            },
            None => {},
        }
        let left: u64 = match ttl {
            Some(left) => left,
            None => TTL,
        };
        let local = db.load_clock();
        self.gossip(data, key, MAX_PER_ROUND, left, &local)
    }

    /// Handles one request. `peers` is what the discovery has just reported;
    /// all requests but the one for the clock take it as the new list of
    /// peers.
    pub fn handle(&mut self, cmd: ControlCommand, peers: Vec<PeerInfo>, db: &mut Database) -> (step:
        Step)
        ensures
            final(self).name() == old(self).name(),
            final(self).peers() == if cmd is GetClock {
                old(self).peers()
            } else {
                peer_views(peers@)
            },
            handled(cmd, peer_views(peers@), old(db)@, final(db)@, step),
    {
        match cmd {
            ControlCommand::AntiEntropy => {
                let snapshot = copy_peers(&peers);
                self.reload_neighbors(peers);
                let (sweep, action) = Sweep::begin(snapshot);
                Step::Sweep { sweep, action }
            },
            ControlCommand::Transmit { data, key, ttl, clock } => {
                self.reload_neighbors(peers);
                let messages = self.transmit(&data, key.as_str(), ttl, clock, db);
                Step::Send { messages, response: Response::OK }
            },
            ControlCommand::GetNeighbors => {
                self.reload_neighbors(peers);
                Step::Reply { response: Response::Neighbors { info: self.neighbors() } }
            },
            ControlCommand::GetClock => Step::Reply {
                response: Response::Clock { data: db.load_clock() },
            },
        }
    }
}

/// One pull heals what the peer's listing covers. When a store pulls a
/// listing that spells the keys of the peer's `limit` newest entries, every
/// key of that listing is in its log afterwards, and can be read at some
/// offset; an entry whose key the store did not have is there as the peer
/// has it; and no row that the store had is lost. Where the peer's log is no
/// longer than `limit`, the store then has every key of the peer.
pub proof fn pull_delivers(
    store: StoreView,
    peer: StoreView,
    limit: nat,
    rows: Seq<(EntryView, Seq<char>)>,
    clock: ClockMap,
)
    requires
        store.wf(),
        peer.wf(),
        crate::db::spells(rows, crate::log::recent(peer.log, limit)),
    ensures
        all_spelled(rows),
        pulled(store, rows, clock).wf(),
        forall|i: int|
            0 <= i < capped(limit, peer.log.len()) ==> crate::log::has_key(
                pulled(store, rows, clock).log,
                (#[trigger] crate::log::row_back(peer.log, i)).0,
            ),
        forall|i: int|
            0 <= i < capped(limit, peer.log.len()) && !crate::log::has_key(
                store.log,
                (#[trigger] crate::log::row_back(peer.log, i)).0,
            ) ==> pulled(store, rows, clock).log.contains(crate::log::row_back(peer.log, i)),
        forall|i: int|
            0 <= i < store.log.len() ==> pulled(store, rows, clock).log.contains(
                #[trigger] store.log[i],
            ),
        forall|row: (u128, EntryView)|
            pulled(store, rows, clock).log.contains(row) ==> exists|offset: nat|
                offset < pulled(store, rows, clock).log.len() && #[trigger] crate::log::row_back(
                    pulled(store, rows, clock).log,
                    offset as int,
                ) == row,
        peer.log.len() <= limit ==> forall|key: u128|
            crate::log::has_key(peer.log, key) ==> crate::log::has_key(
                pulled(store, rows, clock).log,
                key,
            ),
{
    let listing = crate::log::recent(peer.log, limit);
    assert(keys_of(rows) =~= listing);
    lemma_with_rows(store.log, listing);
    let out = pulled(store, rows, clock).log;
    assert(out == with_rows(store.log, listing));
    assert forall|i: int| 0 <= i < capped(limit, peer.log.len()) implies crate::log::has_key(
        out,
        (#[trigger] crate::log::row_back(peer.log, i)).0,
    ) by {
        assert(listing[i].1 == crate::log::row_back(peer.log, i).0);
    }
    assert forall|i: int|
        0 <= i < capped(limit, peer.log.len()) && !crate::log::has_key(
            store.log,
            (#[trigger] crate::log::row_back(peer.log, i)).0,
        ) implies out.contains(crate::log::row_back(peer.log, i)) by {
        assert(listing[i].1 == crate::log::row_back(peer.log, i).0);
        assert forall|j: int| 0 <= j < i implies (#[trigger] listing[j]).1 != listing[i].1 by {
            assert(peer.log[peer.log.len() - 1 - i].0 < peer.log[peer.log.len() - 1 - j].0);
        }
        assert(out.contains((listing[i].1, listing[i].0)));
    }
    assert forall|row: (u128, EntryView)| out.contains(row) implies exists|offset: nat|
        offset < out.len() && #[trigger] crate::log::row_back(out, offset as int) == row by {
        let k = choose|k: int| 0 <= k < out.len() && out[k] == row;
        let offset = (out.len() - 1 - k) as nat;
        assert(crate::log::row_back(out, offset as int) == row);
    }
    if peer.log.len() <= limit {
        assert forall|key: u128| crate::log::has_key(peer.log, key) implies crate::log::has_key(
            out,
            key,
        ) by {
            let k = choose|k: int| 0 <= k < peer.log.len() && #[trigger] peer.log[k].0 == key;
            let i = peer.log.len() - 1 - k;
            assert(crate::log::row_back(peer.log, i).0 == key);
        }
    }
}

/// A sweep ends. Each step of a sweep that is not over leaves fewer requests
/// to make, so that a sweep over `n` peers is over after at most `2 * n`
/// steps; and each step keeps the sweep and the store well formed.
pub proof fn sweep_progress(sweep: SweepView, event: SweepEvent, store: StoreView)
    requires
        sweep.wf(),
        store.wf(),
        !sweep.finished(),
    ensures
        sweep.step(event, store).0.wf(),
        sweep.step(event, store).1.wf(),
        sweep.step(event, store).0.left() < sweep.left(),
        sweep.left() <= 2 * sweep.peers.len(),
{
    lemma_next_contact(sweep.peers, (sweep.position + 1) as int);
    match (sweep.pending, event) {
        (Some(remote), SweepEvent::Recent { values }) => {
            let rows = listed_view(values@);
            if all_spelled(rows) {
                lemma_with_rows(store.log, keys_of(rows));
            }
        },
        _ => {},
    }
}

/// One round heals what the peer's listing covers. A sweep is at a peer
/// whose clock shows the store to be outdated. The peer answers with its
/// clock and then with a listing that spells the keys of its `limit` newest
/// entries. After these two steps the store has pulled the listing: every key
/// of it is in the log, no counter but the host's own is below the peer's,
/// and the sweep has turned to the next peer.
pub proof fn sweep_heals(
    sweep: SweepView,
    store: StoreView,
    peer: StoreView,
    clock: Clock,
    values: Vec<(ClipboardEntry, String)>,
    limit: nat,
)
    requires
        sweep.wf(),
        !sweep.finished(),
        sweep.pending is None,
        store.wf(),
        peer.wf(),
        clock@ == peer.clock,
        outdated(store.clock, peer.clock),
        crate::db::spells(listed_view(values@), crate::log::recent(peer.log, limit)),
    ensures
        ({
            let asked = sweep.step(SweepEvent::Clock { clock }, store);
            let pulled_in = asked.0.step(SweepEvent::Recent { values }, asked.1);
            &&& asked.1 == store
            &&& asked.0.pending == Some(peer.clock)
            &&& pulled_in.0 == sweep.advance()
            &&& pulled_in.1 == after_updates(store, crate::log::recent(peer.log, limit), peer.clock)
            &&& forall|i: int|
                0 <= i < capped(limit, peer.log.len()) ==> crate::log::has_key(
                    pulled_in.1.log,
                    (#[trigger] crate::log::row_back(peer.log, i)).0,
                )
            &&& forall|host: Seq<char>|
                store.self_host != Some(host) ==> counter_of(pulled_in.1.clock, host)
                    >= counter_of(peer.clock, host)
        }),
{
    pull_delivers(store, peer, limit, listed_view(values@), peer.clock);
    assert(keys_of(listed_view(values@)) =~= crate::log::recent(peer.log, limit));
}

} // verus!
