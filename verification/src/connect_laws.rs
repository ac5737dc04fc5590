//! Who is found, dialled, let in and given up.

use crate::addr::{IpAddr, SocketAddr};
use crate::connect;
use crate::connect::KeyCheck;
use crate::discovery;
use crate::discovery::Stage;
use crate::event;
use crate::hash::Hash32;
use crate::peer;
use crate::peer::{PeerFilter, PeerState, PeersView};
use crate::peer_rules;
use crate::sync::{SyncState, SyncView};
use crate::time::Instant;
use crate::wire::{GetHeadersMessage, MessageType};
use vstd::prelude::*;

verus! {

/// Besides the configured addresses every discovered one is dialled that is not among them, and no
/// other.
pub proof fn every_discovered_address_is_dialled(
    discovered: Seq<SocketAddr>,
    configured: Seq<SocketAddr>,
    a: SocketAddr,
)
    ensures
        connect::bootstrap(discovered, configured).contains(a) <==> discovered.contains(a)
            && !configured.contains(a),
    decreases discovered.len(),
{
    let all = connect::bootstrap(discovered, configured);
    if discovered.len() > 0 {
        let rest = discovered.drop_last();
        let last = discovered.last();
        every_discovered_address_is_dialled(rest, configured, a);
        every_discovered_address_is_dialled(rest, configured, last);
        let front = connect::bootstrap(rest, configured);
        if rest.contains(a) {
            let k = choose|k: int| 0 <= k < rest.len() && rest[k] == a;
            assert(discovered[k] == a);
        }
        if a == last {
            assert(discovered[discovered.len() - 1] == a);
        }
        if discovered.contains(a) && a != last {
            let k = choose|k: int| 0 <= k < discovered.len() && discovered[k] == a;
            assert(rest[k] == a);
        }
        if front.contains(a) {
            let k = choose|k: int| 0 <= k < front.len() && front[k] == a;
            assert(all[k] == a);
        }
        if all == front.push(last) {
            assert(all[front.len() as int] == last);
            if all.contains(a) && a != last {
                let k = choose|k: int| 0 <= k < all.len() && all[k] == a;
                assert(front[k] == a);
            }
        }
    }
}

/// Of the addresses exactly those are dialled again for which there is a slot and whose wait is
/// over; nobody loses anything by the question but an IP address its ended ban.
pub proof fn every_dialable_address_is_dialled(
    v: PeersView,
    addrs: Seq<SocketAddr>,
    now: Instant,
    a: SocketAddr,
)
    ensures
        connect::dialable(v, addrs, now).1.contains(a) <==> addrs.contains(a) && v.has_slot_for(
            a,
            now,
        ) && v.retry_due(a, now),
        connect::dialable(v, addrs, now).0.peers == v.peers,
        connect::dialable(v, addrs, now).0.channels == v.channels,
        connect::dialable(v, addrs, now).0.connect_failures == v.connect_failures,
        connect::dialable(v, addrs, now).0.accept_log == v.accept_log,
        forall|ip: IpAddr| #[trigger]
            connect::dialable(v, addrs, now).0.ip_banned_at(ip, now) <==> v.ip_banned_at(ip, now),
    decreases addrs.len(),
{
    if addrs.len() > 0 {
        let rest = addrs.drop_last();
        let last = addrs.last();
        every_dialable_address_is_dialled(v, rest, now, a);
        every_dialable_address_is_dialled(v, rest, now, last);
        let (seen, front) = connect::dialable(v, rest, now);
        let all = connect::dialable(v, addrs, now).1;
        assert(seen.select(PeerFilter::Active) == v.select(
            PeerFilter::Active,
        ));
        assert(seen.select(PeerFilter::ActiveFrom(last.spec_ip())) == v.select(
            PeerFilter::ActiveFrom(last.spec_ip()),
        ));
        assert(seen.has_slot_for(last, now) <==> v.has_slot_for(last, now)) by {
            assert(seen.ip_banned_at(last.spec_ip(), now) <==> v.ip_banned_at(
                last.spec_ip(),
                now,
            ));
        }
        if rest.contains(a) {
            let k = choose|k: int| 0 <= k < rest.len() && rest[k] == a;
            assert(addrs[k] == a);
        }
        if a == last {
            assert(addrs[addrs.len() - 1] == a);
        }
        if addrs.contains(a) && a != last {
            let k = choose|k: int| 0 <= k < addrs.len() && addrs[k] == a;
            assert(rest[k] == a);
        }
        if front.contains(a) {
            let k = choose|k: int| 0 <= k < front.len() && front[k] == a;
            assert(all[k] == a);
        }
        if all == front.push(last) {
            assert(all[front.len() as int] == last);
            if all.contains(a) && a != last {
                let k = choose|k: int| 0 <= k < all.len() && all[k] == a;
                assert(front[k] == a);
            }
        }
        assert forall|ip: IpAddr| #[trigger]
            connect::dialable(v, addrs, now).0.ip_banned_at(ip, now) <==> v.ip_banned_at(
                ip,
                now,
            ) by {
            assert(seen.ip_banned_at(ip, now) <==> v.ip_banned_at(ip, now));
        }
    }
}

/// Pruning forgets exactly the peers without a connection that may be spoken to, with their
/// channels.
pub proof fn pruning_forgets_who_is_gone(v: PeersView, now: Instant, a: SocketAddr)
    ensures
        ({
            let after = connect::pruned(v, now);
            let gone = v.peers.contains_key(a) && !peer_rules::holds_slot(v.peers[a])
                && !peer_rules::shunned(v.peers[a], now);
            &&& after.peers.contains_key(a) <==> v.peers.contains_key(a) && !gone
            &&& after.peers.contains_key(a) ==> after.peers[a] == v.peers[a]
            &&& after.channels.contains_key(a) <==> v.channels.contains_key(a) && !gone
            &&& after.channels.contains_key(a) ==> after.channels[a] == v.channels[a]
            &&& after.banned_ips == v.banned_ips
            &&& after.connect_failures == v.connect_failures
            &&& after.accept_log == v.accept_log
        }),
{
}

/// A connection that takes a slot is on record as connecting since now, with what was known of the
/// peer before; nobody else is touched.
pub proof fn slot_is_taken_by_one(v: PeersView, addr: SocketAddr, now: Instant, other: SocketAddr)
    requires
        other != addr,
    ensures
        ({
            let after = connect::slot_taken(v, addr, now);
            &&& after.peers.contains_key(addr)
            &&& after.peers[addr].state == PeerState::Connecting
            &&& after.peers[addr].connected_at == Some(now)
            &&& after.peers[addr].score == if v.peers.contains_key(addr) {
                v.peers[addr].score
            } else {
                0
            }
            &&& after.peers[addr].ban_until == if v.peers.contains_key(addr) {
                v.peers[addr].ban_until
            } else {
                None
            }
            &&& after.peers[addr].remote_static == if v.peers.contains_key(addr) {
                v.peers[addr].remote_static
            } else {
                None
            }
            &&& after.peers.contains_key(other) <==> v.peers.contains_key(other)
            &&& v.peers.contains_key(other) ==> after.peers[other] == v.peers[other]
            &&& after.channels == v.channels && after.banned_ips == v.banned_ips
        }),
{
}

/// A connection is started exactly when it is let in and the node is not shutting down. Only then
/// does it keep a slot.
pub proof fn started_connections_hold_their_slot(
    before: PeersView,
    after: PeersView,
    addr: SocketAddr,
    shutting_down: bool,
    now: Instant,
    started: bool,
)
    requires
        connect::inbound_admitted(before, after, addr, shutting_down, now, started),
    ensures
        started ==> !shutting_down && before.has_slot_for(addr, now) && after.peers.contains_key(
            addr,
        ) && after.peers[addr].state == PeerState::Connecting,
        !started ==> !(after.peers.contains_key(addr) && peer_rules::holds_slot(
            after.peers[addr],
        )) || before.tracked_active(addr),
        !started && !shutting_down ==> after.peers == before.peers,
{
    let (seen, admitted) = choose|seen: PeersView, admitted: bool|
        {
            &&& #[trigger] peer::inbound_checked(before, seen, addr, now, admitted)
            &&& started == (admitted && !shutting_down)
            &&& after == if !admitted {
                seen
            } else if shutting_down {
                connect::slot_taken(seen, addr, now).without_connection(addr, now)
            } else {
                connect::slot_taken(seen, addr, now)
            }
        };
    assert(seen.peers == before.peers);
}

/// The sync is given up exactly when it went through the connection that has ended.
pub proof fn sync_ends_with_its_peer(v: SyncView, addr: SocketAddr)
    ensures
        ({
            let after = connect::sync_given_up(v, addr);
            &&& v.sync_peer != Some(addr) ==> after == v
            &&& v.sync_peer == Some(addr) ==> {
                &&& after.state == SyncState::Idle
                &&& after.sync_peer is None
                &&& after.pending_headers.len() == 0
                &&& after.pending_block_requests.len() == 0
                &&& after.last_sync_request_time is None
                &&& after.synced_header_height == v.synced_header_height
            }
        }),
{
}

/// A peer that shows our own key is ourselves. Another key is bound to the address of a peer on
/// record, and where it takes the place of another one that is reported.
pub proof fn keys_are_bound_and_changes_reported(
    before: PeersView,
    after: PeersView,
    addr: SocketAddr,
    name: Seq<char>,
    own_public: Seq<u8>,
    remote: [u8; 32],
    check: KeyCheck,
)
    requires
        connect::static_key_checked(before, after, addr, name, own_public, remote, check),
    ensures
        check is SelfConnection <==> own_public == remote@,
        check is SelfConnection ==> after == before,
        !(check is SelfConnection) && before.peers.contains_key(addr) ==> {
            &&& after.peers.contains_key(addr)
            &&& after.peers[addr].remote_static == Some(remote)
            &&& after.peers[addr].score == before.peers[addr].score
            &&& after.peers[addr].state == before.peers[addr].state
            &&& check->Bound_0 is Some <==> before.peers[addr].remote_static is Some
                && before.peers[addr].remote_static->0@ != remote@
            &&& check->Bound_0 is Some ==> event::reports(
                check->Bound_0->0,
                "peer "@ + name + " identity changed; possible MITM or key rotation"@,
            )
        },
        !before.peers.contains_key(addr) ==> after == before,
        after.channels == before.channels,
        after.peers.remove(addr) == before.peers.remove(addr),
{
    assert(after.peers.remove(addr) =~= before.peers.remove(addr));
}

/// A new connection starts the sync exactly when we have dialled it and the sync is idle.
pub proof fn sync_starts_when_idle(v: SyncView, outbound: bool)
    ensures
        connect::starts_sync(v, outbound) <==> outbound && v.state == SyncState::Idle,
{
}

/// For every locator one request goes out, in their order, and the peer reads from it that all
/// headers after that hash are asked for.
pub proof fn every_locator_is_asked(locators: Seq<Hash32>, magic: Seq<u8>, i: int)
    requires
        0 <= i < locators.len(),
    ensures
        connect::locator_requests(locators, magic).len() == locators.len(),
        ({
            let msg = connect::locator_requests(locators, magic)[i];
            &&& msg.msg_type == MessageType::GetHeaders
            &&& msg.magic == magic
            &&& GetHeadersMessage::parse(msg.payload) == Ok::<_, Seq<char>>(
                (locators[i].0@, Seq::new(32, |k: int| 0u8)),
            )
        }),
{
    let msg = connect::locator_requests(locators, magic)[i];
    let zeros = Seq::new(32, |k: int| 0u8);
    assert(msg.payload == locators[i].0@ + zeros);
    assert(msg.payload.subrange(0, 32) =~= locators[i].0@);
    assert(msg.payload.subrange(32, 64) =~= zeros);
}

/// An IPv4 address is dialled on the word of a seed unless it is one of this machine, of nobody, of
/// many, of everybody, of the examples in documents, or of the local link.
pub proof fn routable_by_its_bytes(a: u8, b: u8, c: u8, d: u8)
    ensures
        discovery::routable(
            IpAddr::V4((a * 0x100_0000 + b * 0x1_0000 + c * 0x100 + d) as u32),
        ) <==> {
            &&& a != 127
            &&& !(a == 0 && b == 0 && c == 0 && d == 0)
            &&& !(224 <= a && a <= 239)
            &&& !(a == 255 && b == 255 && c == 255 && d == 255)
            &&& !(a == 192 && b == 0 && c == 2)
            &&& !(a == 198 && b == 51 && c == 100)
            &&& !(a == 203 && b == 0 && c == 113)
            &&& !(a == 169 && b == 254)
        },
{
}

/// An IPv6 address is dialled on the word of a seed unless it is the one of this machine, that of
/// nobody, or one of many.
pub proof fn routable_six(first: u8, rest: u128)
    requires
        rest < 0x100_0000_0000_0000_0000_0000_0000_0000,
    ensures
        discovery::routable(
            IpAddr::V6((first * 0x100_0000_0000_0000_0000_0000_0000_0000 + rest) as u128),
        ) <==> first != 255 && !(first == 0 && rest == 0) && !(first == 0 && rest == 1),
{
}

/// Of the addresses that were named every one is on record afterwards that passes, as a new peer
/// where it was not on record before; who was on record stays as it was.
pub proof fn named_addresses_are_put_on_record(
    v: PeersView,
    addrs: Seq<SocketAddr>,
    unfiltered: bool,
    now: Instant,
    a: SocketAddr,
)
    ensures
        ({
            let (after, found) = discovery::put_on_record(v, addrs, unfiltered, now);
            let passes = addrs.contains(a) && (unfiltered || discovery::routable(a.spec_ip()));
            &&& after.peers.contains_key(a) <==> v.peers.contains_key(a) || passes
            &&& found.contains(a) <==> !v.peers.contains_key(a) && passes
            &&& v.peers.contains_key(a) ==> after.peers[a] == v.peers[a]
            &&& found.contains(a) ==> after.peers[a].score == 0 && after.peers[a].state
                == PeerState::Disconnected && after.peers[a].addr == a
                && after.peers[a].ban_until is None
            &&& after.limits == v.limits && after.channels == v.channels
            &&& after.banned_ips == v.banned_ips
            &&& after.connect_failures == v.connect_failures
            &&& after.accept_log == v.accept_log
        }),
    decreases addrs.len(),
{
    if addrs.len() > 0 {
        let rest = addrs.drop_last();
        let last = addrs.last();
        named_addresses_are_put_on_record(v, rest, unfiltered, now, a);
        named_addresses_are_put_on_record(v, rest, unfiltered, now, last);
        let (seen, front) = discovery::put_on_record(v, rest, unfiltered, now);
        let found = discovery::put_on_record(v, addrs, unfiltered, now).1;
        if rest.contains(a) {
            let k = choose|k: int| 0 <= k < rest.len() && rest[k] == a;
            assert(addrs[k] == a);
        }
        if a == last {
            assert(addrs[addrs.len() - 1] == a);
        }
        if addrs.contains(a) && a != last {
            let k = choose|k: int| 0 <= k < addrs.len() && addrs[k] == a;
            assert(rest[k] == a);
        }
        if front.contains(a) {
            let k = choose|k: int| 0 <= k < front.len() && front[k] == a;
            assert(found[k] == a);
        }
        if found == front.push(last) {
            assert(found[front.len() as int] == last);
            if found.contains(a) && a != last {
                let k = choose|k: int| 0 <= k < found.len() && found[k] == a;
                assert(front[k] == a);
            }
        }
    }
}

/// The seeds of a list are asked one after the other, and after the last one, or where the list is
/// given up, the next list follows: the nodes first, then the names.
pub proof fn seeds_are_asked_in_turn(stage: Stage, index: int, testnet: bool, go_on: bool)
    requires
        0 <= index < discovery::seed_list(stage, testnet).len(),
    ensures
        ({
            let (next, at) = discovery::position_after(stage, index, testnet, go_on);
            &&& go_on && index + 1 < discovery::seed_list(stage, testnet).len() ==> next == stage
                && at == index + 1
            &&& !(go_on && index + 1 < discovery::seed_list(stage, testnet).len()) ==> at == 0
                && next == if stage == Stage::Nodes {
                Stage::Dns
            } else {
                Stage::Finished
            }
        }),
        stage != Stage::Finished,
{
}

/// The addresses that are dialled stand in the order in which they were discovered: those of the
/// first discovered ones come first.
pub proof fn dialled_in_order_of_discovery(
    discovered: Seq<SocketAddr>,
    configured: Seq<SocketAddr>,
    n: int,
)
    requires
        0 <= n <= discovered.len(),
    ensures
        ({
            let all = connect::bootstrap(discovered, configured);
            let first = connect::bootstrap(discovered.take(n), configured);
            &&& first.len() <= all.len()
            &&& all.take(first.len() as int) == first
        }),
    decreases discovered.len(),
{
    let all = connect::bootstrap(discovered, configured);
    let first = connect::bootstrap(discovered.take(n), configured);
    if n == discovered.len() {
        assert(discovered.take(n) =~= discovered);
        assert(all.take(first.len() as int) =~= first);
    } else {
        let rest = discovered.drop_last();
        dialled_in_order_of_discovery(rest, configured, n);
        assert(rest.take(n) =~= discovered.take(n));
        let front = connect::bootstrap(rest, configured);
        assert(all.take(first.len() as int) =~= front.take(first.len() as int));
    }
}

/// The addresses that are dialled again stand in the order in which they were given.
pub proof fn dialled_again_in_order(
    v: PeersView,
    addrs: Seq<SocketAddr>,
    now: Instant,
    n: int,
)
    requires
        0 <= n <= addrs.len(),
    ensures
        ({
            let all = connect::dialable(v, addrs, now).1;
            let first = connect::dialable(v, addrs.take(n), now).1;
            &&& first.len() <= all.len()
            &&& all.take(first.len() as int) == first
        }),
    decreases addrs.len(),
{
    let all = connect::dialable(v, addrs, now).1;
    let first = connect::dialable(v, addrs.take(n), now).1;
    if n == addrs.len() {
        assert(addrs.take(n) =~= addrs);
        assert(all.take(first.len() as int) =~= first);
    } else {
        let rest = addrs.drop_last();
        dialled_again_in_order(v, rest, now, n);
        assert(rest.take(n) =~= addrs.take(n));
        let front = connect::dialable(v, rest, now).1;
        assert(all.take(first.len() as int) =~= front.take(first.len() as int));
    }
}

/// The addresses that are found stand in the order in which they were named.
pub proof fn found_in_order(
    v: PeersView,
    addrs: Seq<SocketAddr>,
    unfiltered: bool,
    now: Instant,
    n: int,
)
    requires
        0 <= n <= addrs.len(),
    ensures
        ({
            let all = discovery::put_on_record(v, addrs, unfiltered, now).1;
            let first = discovery::put_on_record(v, addrs.take(n), unfiltered, now).1;
            &&& first.len() <= all.len()
            &&& all.take(first.len() as int) == first
        }),
    decreases addrs.len(),
{
    let all = discovery::put_on_record(v, addrs, unfiltered, now).1;
    let first = discovery::put_on_record(v, addrs.take(n), unfiltered, now).1;
    if n == addrs.len() {
        assert(addrs.take(n) =~= addrs);
        assert(all.take(first.len() as int) =~= first);
    } else {
        let rest = addrs.drop_last();
        found_in_order(v, rest, unfiltered, now, n);
        assert(rest.take(n) =~= addrs.take(n));
        let front = discovery::put_on_record(v, rest, unfiltered, now).1;
        assert(all.take(first.len() as int) =~= front.take(first.len() as int));
    }
}

/// A peer that has completed its handshake is ready, alive and as high as it has told, and its
/// failed dials are forgotten; its standing stays, and nobody else is touched.
pub proof fn handshaken_peers_are_ready(
    v: PeersView,
    addr: SocketAddr,
    peer_height: u32,
    now: Instant,
    other: SocketAddr,
)
    requires
        other != addr,
    ensures
        ({
            let after = connect::made_ready(v, addr, peer_height, now);
            &&& !after.connect_failures.contains_key(addr)
            &&& after.connect_failures.contains_key(other) <==> v.connect_failures.contains_key(
                other,
            )
            &&& after.peers.contains_key(addr) <==> v.peers.contains_key(addr)
            &&& v.peers.contains_key(addr) ==> {
                let p = after.peers[addr];
                &&& p.state == PeerState::Ready
                &&& p.last_seen == Some(now)
                &&& p.height == peer_height
                &&& p.score == v.peers[addr].score
                &&& p.ban_until == v.peers[addr].ban_until
                &&& p.remote_static == v.peers[addr].remote_static
                &&& p.msg_limiter == v.peers[addr].msg_limiter
                &&& p.tx_limiter == v.peers[addr].tx_limiter
                &&& p.addr == v.peers[addr].addr
            }
            &&& after.peers.contains_key(other) <==> v.peers.contains_key(other)
            &&& v.peers.contains_key(other) ==> after.peers[other] == v.peers[other]
            &&& after.channels == v.channels && after.banned_ips == v.banned_ips
            &&& after.accept_log == v.accept_log
        }),
{
}

/// As long as fewer than eight peers are ready, every configured or discovered address is dialled
/// again for which there is a slot and whose wait is over; and nobody with enough peers.
pub proof fn dialled_again_while_peers_are_few(
    v: PeersView,
    configured: Seq<SocketAddr>,
    discovered: Seq<SocketAddr>,
    now: Instant,
    a: SocketAddr,
)
    ensures
        ({
            let left = connect::pruned(v, now);
            let ready = left.peers.dom().filter(
                |b: SocketAddr| left.peers[b].state == PeerState::Ready,
            );
            let out = connect::redialled(v, configured, discovered, now).1;
            &&& ready.len() >= 8 ==> out.len() == 0
            &&& ready.len() < 8 ==> (out.contains(a) <==> (configured.contains(a)
                || discovered.contains(a)) && left.has_slot_for(a, now) && left.retry_due(a, now))
            &&& connect::redialled(v, configured, discovered, now).0.peers == left.peers
        }),
{
    let left = connect::pruned(v, now);
    assert(left.select(PeerFilter::Ready) =~= left.peers.dom().filter(
        |b: SocketAddr| left.peers[b].state == PeerState::Ready,
    ));
    let all = configured + discovered;
    every_dialable_address_is_dialled(left, all, now, a);
    if configured.contains(a) {
        let k = choose|k: int| 0 <= k < configured.len() && configured[k] == a;
        assert(all[k] == a);
    }
    if discovered.contains(a) {
        let k = choose|k: int| 0 <= k < discovered.len() && discovered[k] == a;
        assert(all[configured.len() + k] == a);
    }
    if all.contains(a) {
        let k = choose|k: int| 0 <= k < all.len() && all[k] == a;
        if k < configured.len() {
            assert(configured[k] == a);
        } else {
            assert(discovered[k - configured.len()] == a);
        }
    }
}

/// A handshake that fails costs its peer twenty points, and the connection is closed: it holds no
/// slot and no channel, and stays on record only where it may not be spoken to.
pub proof fn failed_handshakes_cost_and_close(
    before: PeersView,
    after: PeersView,
    addr: SocketAddr,
    now: Instant,
)
    requires
        connect::handshake_failure_noted(before, after, addr, now),
    ensures
        exists|struck: PeersView|
            {
                &&& #[trigger] peer::struck_and_mirrored(before, struck, addr, 20, now)
                &&& after.peers.remove(addr) == struck.peers.remove(addr)
                &&& after.banned_ips == struck.banned_ips
                &&& after.peers.contains_key(addr) ==> after.peers[addr].score
                    == struck.peers[addr].score
            },
        !after.channels.contains_key(addr),
        after.peers.contains_key(addr) ==> after.peers[addr].state == PeerState::Banned
            && peer_rules::shunned(after.peers[addr], now),
{
    let struck = choose|struck: PeersView|
        #[trigger] peer::struck_and_mirrored(before, struck, addr, 20, now) && after
            == struck.without_connection(addr, now);
    assert(after.peers.remove(addr) =~= struck.peers.remove(addr));
}

/// Each network has its own seeds: nodes by name and port, and names to look up.
pub proof fn networks_have_their_own_seeds()
    ensures
        forall|testnet: bool| #[trigger]
            discovery::seed_list(Stage::Nodes, testnet).len() == 1,
        forall|testnet: bool| #[trigger] discovery::seed_list(Stage::Dns, testnet).len() == 1,
        discovery::seed_list(Stage::Nodes, false)[0]@ == "seed.chroma.network:8333"@,
        discovery::seed_list(Stage::Nodes, true)[0]@ == "seed-testnet.chroma.network:18333"@,
        discovery::seed_list(Stage::Dns, false)[0]@ == "seed.chroma.network"@,
        discovery::seed_list(Stage::Dns, true)[0]@ == "seed-testnet.chroma.network"@,
        forall|testnet: bool| #[trigger]
            discovery::seed_list(Stage::Finished, testnet).len() == 0,
{
}

/// An address has the IP address and the port that it was made of.
pub proof fn addresses_have_their_parts(ip: u32, long: u128, port: u16, flowinfo: u32, scope_id: u32)
    ensures
        (SocketAddr::V4 { ip, port }).spec_ip() == IpAddr::V4(ip),
        (SocketAddr::V4 { ip, port }).spec_port() == port,
        (SocketAddr::V6 { ip: long, port, flowinfo, scope_id }).spec_ip() == IpAddr::V6(long),
        (SocketAddr::V6 { ip: long, port, flowinfo, scope_id }).spec_port() == port,
{
}

/// An address is dialled exactly when the node is not shutting down, there is a slot for it and its
/// wait is over; and what was dialled is used exactly when it is connected, the node is still not
/// shutting down, and the address has not connected in the meantime.
pub proof fn dialled_and_used_when_free(
    v: PeersView,
    addr: SocketAddr,
    connected: bool,
    shutting_down: bool,
    now: Instant,
)
    ensures
        connect::dials(v, addr, shutting_down, now) ==> !shutting_down,
        !shutting_down ==> (connect::dials(v, addr, shutting_down, now) <==> v.has_slot_for(
            addr,
            now,
        ) && v.retry_due(addr, now)),
        connect::uses(v, addr, connected, shutting_down) <==> connected && !shutting_down && !(
        v.peers.contains_key(addr) && peer_rules::holds_slot(v.peers[addr])),
{
}

} // verus!
