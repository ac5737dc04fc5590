//! Opening, keeping and closing connections.

use crate::addr::SocketAddr;
use crate::bytes;
use crate::error;
use crate::event;
use crate::event::NodeEvent;
use crate::hash::Hash32;
use crate::peer;
use crate::peer::{
    PeerFilter, PeerInfo, PeerManager, PeerState, PeersView, IDLE_EVICT_SECS, SCORE_MALFORMED,
};
use crate::peer_laws;
use crate::relay;
use crate::sync;
use crate::sync::{ChainSyncer, SyncState, SyncView, IBD_HEIGHT_THRESHOLD};
use crate::table;
use crate::text;
use crate::time::{Instant, NANOS_PER_SEC};
use crate::wire::{GetHeadersMessage, Message, MessageType, MessageView, PingMessage};
use vstd::prelude::*;
use vstd::string::StringExecFns;

verus! {

/// The peers after a slot was taken for a connection.
pub open spec fn slot_taken(v: PeersView, addr: SocketAddr, now: Instant) -> PeersView {
    v.with_peer(
        addr,
        PeerInfo {
            state: PeerState::Connecting,
            connected_at: Some(now),
            ..v.peer_or_new(addr, now)
        },
    )
}

/// Takes a slot for a connection.
pub fn open_connection(pm: &mut PeerManager, addr: &SocketAddr, now: Instant)
    requires
        old(pm).wf(),
    ensures
        final(pm).wf(),
        final(pm)@ == slot_taken(old(pm)@, *addr, now),
{
    pm.add_peer(*addr, now);
    if let Some(p) = pm.get_peer_mut(addr) {
        p.state = PeerState::Connecting;
        p.connected_at = Some(now);
    }
    assert(pm@ =~= slot_taken(old(pm)@, *addr, now));
}

/// What the admission of inbound connections does and answers: a connection that is let in has a
/// slot, unless the node is shutting down.
pub open spec fn inbound_admitted(
    before: PeersView,
    after: PeersView,
    addr: SocketAddr,
    shutting_down: bool,
    now: Instant,
    started: bool,
) -> bool {
    exists|seen: PeersView, admitted: bool|
        {
            &&& #[trigger] peer::inbound_checked(before, seen, addr, now, admitted)
            &&& started == (admitted && !shutting_down)
            &&& after == if !admitted {
                seen
            } else if shutting_down {
                slot_taken(seen, addr, now).without_connection(addr, now)
            } else {
                slot_taken(seen, addr, now)
            }
        }
}

/// Whether an inbound connection is started. Its slot is taken before anything else can be
/// let in.
pub fn admit_inbound(
    pm: &mut PeerManager,
    addr: &SocketAddr,
    shutting_down: bool,
    now: Instant,
) -> (started: bool)
    requires
        old(pm).wf(),
    ensures
        final(pm).wf(),
        inbound_admitted(old(pm)@, final(pm)@, *addr, shutting_down, now, started),
{
    let admitted: bool = pm.can_accept_inbound(addr, now);
    let ghost seen = pm@;
    assert(peer::inbound_checked(old(pm)@, seen, *addr, now, admitted));
    if !admitted {
        return false;
    }
    open_connection(pm, addr, now);
    if shutting_down {
        pm.remove_peer(addr, now);
        return false;
    }
    true
}

/// An address is dialled.
pub open spec fn dials(v: PeersView, addr: SocketAddr, shutting_down: bool, now: Instant) -> bool {
    !shutting_down && v.has_slot_for(addr, now) && v.retry_due(addr, now)
}

/// A dialled connection is used.
pub open spec fn uses(v: PeersView, addr: SocketAddr, connected: bool, shutting_down: bool) -> bool {
    connected && !shutting_down && !v.tracked_active(addr)
}

/// Whether an address is dialled. A node that is shutting down does not even look.
pub fn may_dial(pm: &mut PeerManager, addr: &SocketAddr, shutting_down: bool, now: Instant) -> (may:
    bool)
    requires
        old(pm).wf(),
    ensures
        final(pm).wf(),
        may == (!shutting_down && old(pm)@.has_slot_for(*addr, now) && old(pm)@.retry_due(
            *addr,
            now,
        )),
        may == dials(old(pm)@, *addr, shutting_down, now),
        final(pm)@ == if shutting_down {
            old(pm)@
        } else {
            old(pm)@.ip_ban_expired(addr.spec_ip(), now)
        },
{
    if shutting_down {
        return false;
    }
    pm.can_dial(addr, now)
}

/// Whether a dialled connection is used. A failed dial is recorded; a connection is dropped
/// when the node is shutting down or the address has connected in the meantime.
pub fn after_dial(
    pm: &mut PeerManager,
    addr: &SocketAddr,
    connected: bool,
    shutting_down: bool,
    now: Instant,
) -> (used: bool)
    requires
        old(pm).wf(),
    ensures
        final(pm).wf(),
        used == (connected && !shutting_down && !old(pm)@.tracked_active(*addr)),
        used == uses(old(pm)@, *addr, connected, shutting_down),
        if connected {
            final(pm)@ == old(pm)@
        } else {
            peer::dial_failed(old(pm)@, final(pm)@, *addr, now)
        },
        forall|t: Instant|
            !old(pm)@.peer_or_new(*addr, now).banned_at(t) ==> !(
            #[trigger] final(pm)@.peer_or_new(*addr, now).banned_at(t)),
{
    if !connected {
        pm.record_connect_failure(addr, now);
        return false;
    }
    if shutting_down {
        return false;
    }
    !pm.is_tracked_active(addr)
}

/// Closes a connection that is to be disconnected: what to report.
pub fn disconnect(pm: &mut PeerManager, addr: &SocketAddr, now: Instant) -> (reported: NodeEvent)
    requires
        old(pm).wf(),
    ensures
        final(pm).wf(),
        final(pm)@ == old(pm)@.without_connection(*addr, now),
        reported == NodeEvent::PeerDisconnected(*addr),
{
    pm.remove_peer(addr, now);
    NodeEvent::PeerDisconnected(*addr)
}

/// The state after a connection was closed: the sync is given up where it went through it.
pub open spec fn sync_given_up(v: SyncView, addr: SocketAddr) -> SyncView {
    if v.sync_peer == Some(addr) {
        v.after_failure()
    } else {
        v
    }
}

/// Closes a connection and, where it was the one that the sync went through, gives the sync
/// up: what to report.
pub fn cleanup_connection(
    pm: &mut PeerManager,
    syncer: &mut ChainSyncer,
    addr: &SocketAddr,
    now: Instant,
) -> (reported: NodeEvent)
    requires
        old(pm).wf(),
    ensures
        final(pm).wf(),
        final(pm)@ == old(pm)@.without_connection(*addr, now),
        final(syncer)@ == sync_given_up(old(syncer)@, *addr),
        reported == NodeEvent::PeerDisconnected(*addr),
{
    pm.remove_peer(addr, now);
    let owner: bool = match syncer.sync_peer() {
        Some(owner) => owner == *addr,
        None => false,
    };
    if owner {
        syncer.sync_failed();
    }
    NodeEvent::PeerDisconnected(*addr)
}

/// What a failed handshake does: it costs the peer, and the connection is closed.
pub open spec fn handshake_failure_noted(
    before: PeersView,
    after: PeersView,
    addr: SocketAddr,
    now: Instant,
) -> bool {
    exists|struck: PeersView|
        #[trigger] peer::struck_and_mirrored(before, struck, addr, SCORE_MALFORMED, now) && after
            == struck.without_connection(addr, now)
}

/// Takes note of a failed handshake.
pub fn handshake_failed(pm: &mut PeerManager, addr: &SocketAddr, now: Instant)
    requires
        old(pm).wf(),
        peer::clock_fits(now),
    ensures
        final(pm).wf(),
        handshake_failure_noted(old(pm)@, final(pm)@, *addr, now),
{
    pm.note_handshake_failure(addr, now);
    let ghost struck = pm@;
    assert(peer::struck_and_mirrored(old(pm)@, struck, *addr, SCORE_MALFORMED, now));
    pm.remove_peer(addr, now);
}

/// The peers after a completed handshake.
pub open spec fn made_ready(v: PeersView, addr: SocketAddr, peer_height: u32, now: Instant) -> PeersView {
    let cleared = PeersView { connect_failures: v.connect_failures.remove(addr), ..v };
    if v.peers.contains_key(addr) {
        cleared.with_peer(
            addr,
            PeerInfo {
                state: PeerState::Ready,
                last_seen: Some(now),
                height: peer_height,
                ..v.peers[addr]
            },
        )
    } else {
        cleared
    }
}

/// Takes note of a completed handshake: what to report.
pub fn became_ready(pm: &mut PeerManager, addr: &SocketAddr, peer_height: u32, now: Instant) -> (
    reported: NodeEvent)
    requires
        old(pm).wf(),
    ensures
        final(pm).wf(),
        reported == NodeEvent::PeerConnected(*addr),
        final(pm)@ == made_ready(old(pm)@, *addr, peer_height, now),
        ({
            let cleared = PeersView {
                connect_failures: old(pm)@.connect_failures.remove(*addr),
                ..old(pm)@
            };
            final(pm)@ == if old(pm)@.peers.contains_key(*addr) {
                cleared.with_peer(
                    *addr,
                    PeerInfo {
                        state: PeerState::Ready,
                        last_seen: Some(now),
                        height: peer_height,
                        ..old(pm)@.peers[*addr]
                    },
                )
            } else {
                cleared
            }
        }),
{
    pm.clear_connect_failures(addr);
    if let Some(p) = pm.get_peer_mut(addr) {
        p.state = PeerState::Ready;
        p.last_seen = Some(now);
        p.height = peer_height;
    }
    NodeEvent::PeerConnected(*addr)
}

/// What the peer's static key leads to after an encrypted handshake.
pub enum KeyCheck {
    /// The key is our own: the connection is closed.
    SelfConnection,
    /// The key is bound to the address; a change is reported.
    Bound(Option<NodeEvent>),
}

/// What the static key that an encrypted handshake has shown leads to. The first key of an
/// address is trusted; a later change is reported and taken over.
pub open spec fn static_key_checked(
    before: PeersView,
    after: PeersView,
    addr: SocketAddr,
    name: Seq<char>,
    own_public: Seq<u8>,
    remote_static: [u8; 32],
    check: KeyCheck,
) -> bool {
    if own_public == remote_static@ {
        check is SelfConnection && after == before
    } else if before.peers.contains_key(addr) {
        let p = before.peers[addr];
        &&& after == before.with_peer(
            addr,
            PeerInfo { remote_static: Some(remote_static), ..p },
        )
        &&& check matches KeyCheck::Bound(reported)
        &&& if p.remote_static matches Some(prev) && prev@ != remote_static@ {
            reported matches Some(e) && event::reports(
                e,
                "peer "@ + name + " identity changed; possible MITM or key rotation"@,
            )
        } else {
            reported is None
        }
    } else {
        check == KeyCheck::Bound(None) && after == before
    }
}

/// Binds the static key that an encrypted handshake has shown to the peer's address. `name` is
/// how the peer is called.
pub fn bind_static_key(
    pm: &mut PeerManager,
    addr: &SocketAddr,
    name: &str,
    own_public: &[u8; 32],
    remote_static: [u8; 32],
) -> (check: KeyCheck)
    requires
        old(pm).wf(),
    ensures
        final(pm).wf(),
        static_key_checked(
            old(pm)@,
            final(pm)@,
            *addr,
            name@,
            own_public@,
            remote_static,
            check,
        ),
{
    if bytes::same_bytes(own_public, &remote_static) {
        return KeyCheck::SelfConnection;
    }
    let mut changed: bool = false;
    if let Some(p) = pm.get_peer_mut(addr) {
        if let Some(prev) = p.remote_static {
            changed = !bytes::same_bytes(&prev, &remote_static);
        }
        p.remote_static = Some(remote_static);
    }
    if changed {
        let mut text: String = error::prefixed("peer ", name);
        text.append(" identity changed; possible MITM or key rotation");
        KeyCheck::Bound(Some(NodeEvent::Error(text)))
    } else {
        KeyCheck::Bound(None)
    }
}

/// What a new connection does for the sync.
pub struct SyncStart {
    /// The node is far behind the peer: what to report.
    pub reported: Option<NodeEvent>,
    /// The requests for headers.
    pub requests: Vec<Message>,
}

/// A new connection starts the sync: we have dialled it, and no sync has run yet.
pub open spec fn starts_sync(v: SyncView, outbound: bool) -> bool {
    outbound && !v.syncing() && v.state != SyncState::CaughtUp
}

/// The requests for the headers after each of the locators.
pub open spec fn locator_requests(locators: Seq<Hash32>, magic: Seq<u8>) -> Seq<MessageView> {
    locators.map_values(
        |hash: Hash32|
            MessageView {
                msg_type: MessageType::GetHeaders,
                payload: hash.0@ + Seq::new(32, |i: int| 0u8),
                magic,
            },
    )
}

/// Starts the sync with a new peer, if it is to be started: headers are asked for after each
/// of our locators, so that the peer finds where the chains part.
pub fn start_sync(
    syncer: &mut ChainSyncer,
    addr: &SocketAddr,
    outbound: bool,
    tip: (Hash32, u32),
    peer_height: u32,
    magic: [u8; 4],
    now: Instant,
) -> (start: SyncStart)
    requires
        starts_sync(old(syncer)@, outbound) ==> tip.1 + IBD_HEIGHT_THRESHOLD <= u32::MAX,
    ensures
        ({
            let v = old(syncer)@;
            let locators = sync::ending_in_genesis(
                v.known_headers,
                seq![tip.0] + sync::locator_walk(v.known_headers, tip.1 as nat, 1),
            );
            if starts_sync(v, outbound) {
                &&& final(syncer)@ == v.header_sync_started(*addr, now)
                &&& relay::messages_view(start.requests@) == locator_requests(locators, magic@)
                &&& if peer_height > tip.1 + IBD_HEIGHT_THRESHOLD {
                    start.reported matches Some(e) && event::reports(
                        e,
                        "IBD: local height "@ + text::decimal(tip.1 as nat) + " vs peer height "@
                            + text::decimal(peer_height as nat) + ", starting sync"@,
                    )
                } else {
                    start.reported is None
                }
            } else {
                final(syncer)@ == v && start.requests@.len() == 0 && start.reported is None
            }
        }),
{
    let mut requests: Vec<Message> = Vec::new();
    if !outbound || syncer.is_syncing() || syncer.is_caught_up() {
        return SyncStart { reported: None, requests };
    }
    let reported: Option<NodeEvent> = if syncer.should_enter_ibd(tip.1, peer_height) {
        let mut text: String = text::with_number("IBD: local height ", tip.1 as u64);
        text.append(" vs peer height ");
        text::push_decimal(&mut text, peer_height as u64);
        text.append(", starting sync");
        Some(NodeEvent::Error(text))
    } else {
        None
    };
    let locators: Vec<Hash32> = syncer.block_locator_hashes(tip.0, tip.1);
    let ghost v = syncer@;
    let mut i: usize = 0;
    assert(relay::messages_view(requests@) =~= locator_requests(locators@.take(0), magic@));
    while i < locators.len()
        invariant
            i <= locators@.len(),
            syncer@ == if i == 0 {
                v
            } else {
                v.header_sync_started(*addr, now)
            },
            relay::messages_view(requests@) == locator_requests(locators@.take(i as int), magic@),
        decreases locators.len() - i,
    {
        let ghost before = relay::messages_view(requests@);
        let request: GetHeadersMessage = syncer.start_header_sync(*addr, locators[i], now);
        assert(request.stop_hash.0@ =~= Seq::new(32, |i: int| 0u8));
        requests.push(relay::header_request(&request, magic));
        assert(syncer@ =~= v.header_sync_started(*addr, now));
        assert(relay::messages_view(requests@) =~= before.push(requests@.last()@));
        assert(relay::messages_view(requests@) =~= locator_requests(
            locators@.take(i + 1),
            magic@,
        ));
        i += 1;
    }
    assert(locators@.take(i as int) =~= locators@);
    SyncStart { reported, requests }
}

/// What a tick does: who is pinged and who is disconnected.
pub struct PeerTick {
    pub ping: Vec<SocketAddr>,
    pub evict: Vec<SocketAddr>,
}

/// What a tick does: the usable peers are pinged, and those that were silent for too long are
/// disconnected.
pub fn peer_tick(pm: &PeerManager, now: Instant) -> (tick: PeerTick)
    requires
        pm.wf(),
    ensures
        table::enumerates(tick.ping@, pm@.select(PeerFilter::Usable(now))),
        table::enumerates(
            tick.evict@,
            pm@.select(PeerFilter::Idle(now, (IDLE_EVICT_SECS * NANOS_PER_SEC) as u64)),
        ),
{
    PeerTick {
        ping: pm.peers_for_announcement(now),
        evict: pm.idle_peers(IDLE_EVICT_SECS * NANOS_PER_SEC, now),
    }
}

/// The ping with the given nonce, for mainnet until it is sent.
pub fn ping(nonce: u64) -> (msg: Message)
    ensures
        msg@ == (MessageView {
            msg_type: MessageType::Ping,
            payload: bytes::le_bytes(nonce as nat, 8),
            magic: crate::wire::MAGIC@,
        }),
{
    let ping = PingMessage { nonce };
    Message::new(MessageType::Ping, ping.encode())
}

/// Of the discovered addresses, those that are dialled besides the configured ones: each once,
/// in order.
pub open spec fn bootstrap(
    discovered: Seq<SocketAddr>,
    configured: Seq<SocketAddr>,
) -> Seq<SocketAddr>
    decreases discovered.len(),
{
    if discovered.len() == 0 {
        Seq::empty()
    } else {
        let front = bootstrap(discovered.drop_last(), configured);
        let last = discovered.last();
        if configured.contains(last) || front.contains(last) {
            front
        } else {
            front.push(last)
        }
    }
}

fn lists(addrs: &Vec<SocketAddr>, wanted: &SocketAddr) -> (found: bool)
    ensures
        found == addrs@.contains(*wanted),
{
    let mut i: usize = 0;
    while i < addrs.len()
        invariant
            i <= addrs@.len(),
            forall|k: int| 0 <= k < i ==> addrs@[k] != *wanted,
        decreases addrs.len() - i,
    {
        if addrs[i] == *wanted {
            return true;
        }
        i += 1;
    }
    false
}

/// Of the discovered addresses, those that are dialled besides the configured ones.
pub fn bootstrap_addrs(discovered: &Vec<SocketAddr>, configured: &Vec<SocketAddr>) -> (addrs: Vec<
    SocketAddr,
>)
    ensures
        addrs@ == bootstrap(discovered@, configured@),
{
    let mut addrs: Vec<SocketAddr> = Vec::new();
    let mut i: usize = 0;
    assert(discovered@.take(0) =~= Seq::empty());
    while i < discovered.len()
        invariant
            i <= discovered@.len(),
            addrs@ == bootstrap(discovered@.take(i as int), configured@),
        decreases discovered.len() - i,
    {
        assert(discovered@.take(i + 1).drop_last() =~= discovered@.take(i as int));
        let addr: SocketAddr = discovered[i];
        if !lists(configured, &addr) && !lists(&addrs, &addr) {
            addrs.push(addr);
        }
        i += 1;
    }
    assert(discovered@.take(i as int) =~= discovered@);
    addrs
}

/// The peers without those that have gone.
pub open spec fn pruned(v: PeersView, now: Instant) -> PeersView {
    let gone = v.select(PeerFilter::Gone(now));
    PeersView { peers: v.peers.remove_keys(gone), channels: v.channels.remove_keys(gone), ..v }
}

/// Of the addresses, those that may be dialled, each once, in order; and the peers after the
/// addresses were looked at.
pub open spec fn dialable(v: PeersView, addrs: Seq<SocketAddr>, now: Instant) -> (
    PeersView,
    Seq<SocketAddr>,
)
    decreases addrs.len(),
{
    if addrs.len() == 0 {
        (v, Seq::empty())
    } else {
        let (seen, out) = dialable(v, addrs.drop_last(), now);
        let a = addrs.last();
        if out.contains(a) {
            (seen, out)
        } else {
            (
                seen.ip_ban_expired(a.spec_ip(), now),
                if seen.has_slot_for(a, now) && seen.retry_due(a, now) {
                    out.push(a)
                } else {
                    out
                },
            )
        }
    }
}

/// The peers after it was looked who is dialled again, and who that is.
pub open spec fn redialled(
    v: PeersView,
    configured: Seq<SocketAddr>,
    discovered: Seq<SocketAddr>,
    now: Instant,
) -> (PeersView, Seq<SocketAddr>) {
    let left = pruned(v, now);
    if left.count(PeerFilter::Ready) < peer::MAX_OUTBOUND_PEERS {
        dialable(left, configured + discovered, now)
    } else {
        (left, Seq::empty())
    }
}

/// The addresses to dial again: none while there are enough peers; else those of the
/// configured and the discovered ones that may be dialled, each once. Peers that have gone are
/// forgotten first.
pub fn reconnect_candidates(
    pm: &mut PeerManager,
    configured: &Vec<SocketAddr>,
    discovered: &Vec<SocketAddr>,
    now: Instant,
) -> (candidates: Vec<SocketAddr>)
    requires
        old(pm).wf(),
    ensures
        final(pm).wf(),
        ({
            let v = pruned(old(pm)@, now);
            if v.count(PeerFilter::Ready) < peer::MAX_OUTBOUND_PEERS {
                (final(pm)@, candidates@) == dialable(v, configured@ + discovered@, now)
            } else {
                final(pm)@ == v && candidates@.len() == 0
            }
        }),
        (final(pm)@, candidates@) == redialled(old(pm)@, configured@, discovered@, now),
{
    pm.prune_disconnected(now);
    let ghost v = pm@;
    assert(v == pruned(old(pm)@, now));
    let mut candidates: Vec<SocketAddr> = Vec::new();
    if !pm.need_more_peers() {
        assert(candidates@ =~= Seq::empty());
        return candidates;
    }
    let ghost all = configured@ + discovered@;
    let total: usize = configured.len();
    let mut i: usize = 0;
    assert(all.take(0) =~= Seq::empty());
    while i < total
        invariant
            pm.wf(),
            total == configured@.len(),
            all == configured@ + discovered@,
            i <= configured@.len(),
            (pm@, candidates@) == dialable(v, all.take(i as int), now),
        decreases total - i,
    {
        let addr: SocketAddr = configured[i];
        assert(all.take(i + 1).drop_last() =~= all.take(i as int));
        assert(all.take(i + 1).last() == addr);
        if !lists(&candidates, &addr) && pm.can_dial(&addr, now) {
            candidates.push(addr);
        }
        i += 1;
    }
    let mut j: usize = 0;
    while j < discovered.len()
        invariant
            pm.wf(),
            j <= discovered@.len(),
            all == configured@ + discovered@,
            (pm@, candidates@) == dialable(v, all.take(configured@.len() + j), now),
        decreases discovered.len() - j,
    {
        let addr: SocketAddr = discovered[j];
        let ghost n = configured@.len() + j;
        assert(all.take(n + 1).drop_last() =~= all.take(n));
        assert(all.take(n + 1).last() == addr);
        if !lists(&candidates, &addr) && pm.can_dial(&addr, now) {
            candidates.push(addr);
        }
        j += 1;
    }
    assert(all.take(configured@.len() + j) =~= all);
    candidates
}

/// However many connections are let in one after the other, no cap is exceeded by the last of
/// them.
pub proof fn admitted_connections_keep_caps(
    before: PeersView,
    after: PeersView,
    addr: SocketAddr,
    now: Instant,
)
    requires
        before.wf(),
        before.peers.dom().finite(),
        inbound_admitted(before, after, addr, false, now, true),
    ensures
        after.count(PeerFilter::Active) <= peer::MAX_TOTAL_PEERS,
        after.count(PeerFilter::Handshaking) <= peer::MAX_HANDSHAKE_CONCURRENT,
        after.count(PeerFilter::ActiveFrom(addr.spec_ip())) <= peer::MAX_PER_IP_PEERS,
        after.tracked_active(addr),
{
    let (seen, admitted) = choose|seen: PeersView, admitted: bool|
        {
            &&& #[trigger] peer::inbound_checked(before, seen, addr, now, admitted)
            &&& true == (admitted && !false)
            &&& after == if !admitted {
                seen
            } else {
                slot_taken(seen, addr, now)
            }
        };
    let p = PeerInfo {
        state: PeerState::Connecting,
        connected_at: Some(now),
        ..seen.peer_or_new(addr, now)
    };
    assert(p.addr == addr) by {
        if seen.peers.contains_key(addr) {
            assert(before.peers.contains_key(addr));
        }
    }
    peer_laws::admission_keeps_caps(before, seen, addr, now, p);
}

/// A connection that was opened and closed again, without a ban, leaves the peers as they were,
/// if the address was not on record.
pub proof fn closed_connection_leaves_nothing(v: PeersView, addr: SocketAddr, now: Instant)
    requires
        !v.peers.contains_key(addr),
        !v.channels.contains_key(addr),
    ensures
        slot_taken(v, addr, now).without_connection(addr, now) == v,
{
    let after = slot_taken(v, addr, now).without_connection(addr, now);
    assert(after.peers =~= v.peers);
    assert(after.channels =~= v.channels);
    assert(after =~= v);
}

/// No address is dialled twice in one round, and every one that is may be dialled.
pub proof fn candidates_are_distinct(v: PeersView, addrs: Seq<SocketAddr>, now: Instant)
    ensures
        dialable(v, addrs, now).1.no_duplicates(),
        forall|i: int|
            0 <= i < dialable(v, addrs, now).1.len() ==> addrs.contains(
                #[trigger] dialable(v, addrs, now).1[i],
            ),
    decreases addrs.len(),
{
    if addrs.len() > 0 {
        let front = addrs.drop_last();
        candidates_are_distinct(v, front, now);
        let out = dialable(v, addrs, now).1;
        let before = dialable(v, front, now).1;
        assert forall|i: int| 0 <= i < out.len() implies addrs.contains(#[trigger] out[i]) by {
            if i < before.len() {
                assert(out[i] == before[i]);
                assert(front.contains(before[i]));
                let k = choose|k: int| 0 <= k < front.len() && front[k] == before[i];
                assert(addrs[k] == out[i]);
            } else {
                assert(addrs[addrs.len() - 1] == out[i]);
            }
        }
    }
}

/// The addresses that are dialled besides the configured ones are none of those, and distinct.
pub proof fn bootstrap_is_distinct(discovered: Seq<SocketAddr>, configured: Seq<SocketAddr>)
    ensures
        bootstrap(discovered, configured).no_duplicates(),
        forall|i: int|
            0 <= i < bootstrap(discovered, configured).len() ==> !configured.contains(
                #[trigger] bootstrap(discovered, configured)[i],
            ),
    decreases discovered.len(),
{
    if discovered.len() > 0 {
        bootstrap_is_distinct(discovered.drop_last(), configured);
        let front = bootstrap(discovered.drop_last(), configured);
        let all = bootstrap(discovered, configured);
        assert forall|i: int| 0 <= i < all.len() implies !configured.contains(#[trigger] all[i]) by {
            if i < front.len() {
                assert(all[i] == front[i]);
            }
        }
    }
}

} // verus!
