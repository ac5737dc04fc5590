//! What admission, the scores and the records of peers guarantee.

use crate::addr::{IpAddr, SocketAddr};
use crate::bans;
use crate::bans::BanRecord;
use crate::connect;
use crate::peer;
use crate::peer::{
    PeerFilter, PeerInfo, PeersView, RateLimiter, ACCEPT_BURST_PER_IP, BAN_SCORE_THRESHOLD,
    MAX_BANNED_RECORDS, MAX_HANDSHAKE_CONCURRENT, MAX_PER_IP_PEERS, MAX_RECONNECT_BACKOFF_SECS,
    MAX_TOTAL_PEERS, MAX_TRACKED_ADDRS,
};
use crate::table;
use crate::table::Stamped;
use crate::time::{Instant, NANOS_PER_SEC};
use vstd::prelude::*;

verus! {

/// A peer with a banned IP address is refused inbound and outbound, whatever its port.
pub proof fn banned_ip_is_refused(
    before: PeersView,
    after: PeersView,
    addr: SocketAddr,
    now: Instant,
    admitted: bool,
)
    requires
        before.ip_banned_at(addr.spec_ip(), now),
        peer::inbound_checked(before, after, addr, now, admitted),
    ensures
        !admitted,
        after == before,
        !before.has_slot_for(addr, now),
{
}

/// A banned peer is refused inbound and outbound.
pub proof fn banned_peer_is_refused(
    before: PeersView,
    after: PeersView,
    addr: SocketAddr,
    now: Instant,
    admitted: bool,
)
    requires
        before.peers.contains_key(addr),
        before.peers[addr].banned_at(now),
        peer::inbound_checked(before, after, addr, now, admitted),
    ensures
        !admitted,
        !before.has_slot_for(addr, now),
{
}

/// A ban that was extended to an IP address is in force until it ends.
pub proof fn mirrored_ban_lasts(
    before: PeersView,
    after: PeersView,
    ip: IpAddr,
    now: Instant,
    later: Instant,
)
    requires
        peer::ban_mirrored(before, after, ip, now),
        later.nanos < peer::ban_end(now).nanos,
    ensures
        after.ip_banned_at(ip, later),
{
    let ips = choose|ips: Map<IpAddr, Instant>|
        #[trigger] peer::ip_ban_added(before.banned_ips, ips, ip, now) && peer::bans_evicted(
            PeersView { banned_ips: ips, ..before },
            after,
            now,
            BanRecord::Ip(ip),
        );
    let added = PeersView { banned_ips: ips, ..before };
    if added.ban_records(now) > MAX_BANNED_RECORDS {
        let mid = choose|mid: PeersView|
            #[trigger] peer::batch_evicted(added, mid) && bans::bans_trimmed(
                mid,
                after,
                now,
                BanRecord::Ip(ip),
            );
        assert(mid.has_ban(BanRecord::Ip(ip), now));
        assert(after.has_ban(BanRecord::Ip(ip), now));
    }
}

/// A strike that bans a peer keeps every address with its IP address out, at once and until
/// the ban ends.
pub proof fn strike_that_bans_blocks_ip(
    before: PeersView,
    after: PeersView,
    addr: SocketAddr,
    points: i32,
    now: Instant,
    other: SocketAddr,
    later: Instant,
)
    requires
        peer::struck_and_mirrored(before, after, addr, points, now),
        before.peer_or_new(addr, now).struck(points, now).banned_at(now),
        other.spec_ip() == addr.spec_ip(),
        later.nanos < peer::ban_end(now).nanos,
    ensures
        !after.has_slot_for(other, later),
{
    mirrored_ban_lasts(
        before.with_peer(addr, before.peer_or_new(addr, now).struck(points, now)),
        after,
        addr.spec_ip(),
        now,
        later,
    );
}

/// The peer after `n` strikes of `points` each.
pub open spec fn struck_times(p: PeerInfo, points: i32, n: nat, now: Instant) -> PeerInfo
    decreases n,
{
    if n == 0 {
        p
    } else {
        struck_times(p, points, (n - 1) as nat, now).struck(points, now)
    }
}

/// Strikes add up: a peer with a clean record is banned by the strike with which their sum
/// reaches the threshold, and not before.
pub proof fn strikes_add_up(p: PeerInfo, points: i32, n: nat, now: Instant)
    requires
        p.score == 0,
        p.ban_until is None,
        0 < points,
        n * points <= i32::MAX,
    ensures
        struck_times(p, points, n, now).score == -(n * points),
        struck_times(p, points, n, now).banned_at(now) <==> n * points >= -BAN_SCORE_THRESHOLD,
    decreases n,
{
    if n > 0 {
        let before = (n - 1) as nat;
        assert(n * points == before * points + points) by (nonlinear_arith)
            requires
                n == before + 1,
        ;
        strikes_add_up(p, points, before, now);
        lemma_ban_needs_score(p, points, before, now);
        lemma_ban_needs_score(p, points, n, now);
        assert(0 <= before * points) by (nonlinear_arith)
            requires
                0 < points,
        ;
    } else {
        assert(n * points == 0) by (nonlinear_arith)
            requires
                n == 0,
        ;
    }
}

proof fn lemma_ban_needs_score(p: PeerInfo, points: i32, n: nat, now: Instant)
    requires
        p.score == 0,
        p.ban_until is None,
        0 < points,
    ensures
        struck_times(p, points, n, now).ban_until is Some ==> struck_times(
            p,
            points,
            n,
            now,
        ).score <= BAN_SCORE_THRESHOLD,
    decreases n,
{
    if n > 0 {
        lemma_ban_needs_score(p, points, (n - 1) as nat, now);
    }
}

proof fn lemma_select_grows(v: PeersView, addr: SocketAddr, p: PeerInfo, filter: PeerFilter)
    requires
        v.peers.dom().finite(),
    ensures
        v.with_peer(addr, p).count(filter) <= v.count(filter) + 1,
        !filter.holds(p) ==> v.with_peer(addr, p).count(filter) <= v.count(filter),
{
    let before = v.select(filter);
    let after = v.with_peer(addr, p).select(filter);
    assert(before.finite());
    if filter.holds(p) {
        assert(after.subset_of(before.insert(addr)));
        vstd::set_lib::lemma_len_subset(after, before.insert(addr));
    } else {
        assert(after.subset_of(before));
        vstd::set_lib::lemma_len_subset(after, before);
    }
}

/// Reserving a slot for a connection that was let in keeps every cap: the slots in all,
/// those of one IP address, and the handshakes at a time.
pub proof fn admission_keeps_caps(
    before: PeersView,
    after: PeersView,
    addr: SocketAddr,
    now: Instant,
    p: PeerInfo,
)
    requires
        before.peers.dom().finite(),
        peer::inbound_checked(before, after, addr, now, true),
    ensures
        after.with_peer(addr, p).count(PeerFilter::Active) <= MAX_TOTAL_PEERS,
        after.with_peer(addr, p).count(PeerFilter::Handshaking) <= MAX_HANDSHAKE_CONCURRENT,
        p.addr == addr ==> after.with_peer(addr, p).count(
            PeerFilter::ActiveFrom(addr.spec_ip()),
        ) <= MAX_PER_IP_PEERS,
{
    assert(after.peers == before.peers);
    assert(after.select(PeerFilter::Active) == before.select(PeerFilter::Active));
    assert(after.select(PeerFilter::Handshaking) == before.select(PeerFilter::Handshaking));
    assert(after.select(PeerFilter::ActiveFrom(addr.spec_ip())) == before.select(
        PeerFilter::ActiveFrom(addr.spec_ip()),
    ));
    lemma_select_grows(after, addr, p, PeerFilter::Active);
    lemma_select_grows(after, addr, p, PeerFilter::Handshaking);
    lemma_select_grows(after, addr, p, PeerFilter::ActiveFrom(addr.spec_ip()));
}

/// A connection with one IP address does not take slots of another.
pub proof fn other_ips_keep_their_slots(v: PeersView, addr: SocketAddr, p: PeerInfo, ip: IpAddr)
    requires
        v.peers.dom().finite(),
        p.addr == addr,
        addr.spec_ip() != ip,
    ensures
        v.with_peer(addr, p).count(PeerFilter::ActiveFrom(ip)) <= v.count(
            PeerFilter::ActiveFrom(ip),
        ),
{
    lemma_select_grows(v, addr, p, PeerFilter::ActiveFrom(ip));
}

/// Forgetting disconnected peers keeps every banned peer.
pub proof fn prune_keeps_bans(v: PeersView, now: Instant, addr: SocketAddr)
    requires
        v.peers.contains_key(addr),
        v.peers[addr].banned_at(now),
    ensures
        v.peers.remove_keys(v.select(PeerFilter::Gone(now))).contains_key(addr),
        v.peers.remove_keys(v.select(PeerFilter::Gone(now)))[addr] == v.peers[addr],
{
}

proof fn lemma_room_bounded<K, V: Stamped>(
    before: Map<K, V>,
    room: Map<K, V>,
    now: Instant,
    age: int,
)
    requires
        before.dom().finite(),
        peer::room_made(before, room, now, age),
    ensures
        room.dom().finite(),
        room.dom().len() < MAX_TRACKED_ADDRS,
{
    if before.dom().len() >= MAX_TRACKED_ADDRS {
        let keep = table::keys_where(
            before,
            |v: V| v.stamp() is Some && now.spec_since(v.stamp()->0) < age,
        );
        let young = before.restrict(keep);
        assert(young.dom() =~= keep);
        if young.dom().len() >= MAX_TRACKED_ADDRS {
            let gone = young.dom().difference(room.dom());
            assert forall|k: K| room.dom().contains(k) implies young.dom().contains(k) by {
                assert(room.contains_key(k));
            }
            assert(room.dom().subset_of(young.dom()));
            vstd::set_lib::lemma_len_subset(room.dom(), young.dom());
            assert(gone.disjoint(room.dom()));
            vstd::set_lib::lemma_set_disjoint_lens(gone, room.dom());
            assert(gone + room.dom() =~= young.dom());
        }
    }
}

/// Forgetting disconnected peers forgets every ban that has ended: who is still on record without
/// a connection is banned.
pub proof fn prune_reaps_ended_bans(v: PeersView, now: Instant, addr: SocketAddr)
    requires
        v.peers.remove_keys(v.select(PeerFilter::Gone(now))).contains_key(addr),
        !v.peers[addr].active(),
    ensures
        v.peers[addr].banned_at(now),
{
}

/// Failed dials alone never ban, however many there are and whenever they come: a peer that is
/// not banned at a time is not banned at that time after any number of them, and neither its IP
/// address nor another peer is affected.
pub proof fn failed_dials_never_ban(
    run: Seq<PeersView>,
    times: Seq<Instant>,
    addr: SocketAddr,
    t: Instant,
)
    requires
        run.len() == times.len() + 1,
        forall|i: int|
            0 <= i < times.len() ==> #[trigger] peer::dial_failed(
                run[i],
                run[i + 1],
                addr,
                times[i],
            ),
        !run[0].peer_or_new(addr, t).banned_at(t),
    ensures
        !run.last().peer_or_new(addr, t).banned_at(t),
        run.last().banned_ips == run[0].banned_ips,
        run.last().peers.remove(addr) == run[0].peers.remove(addr),
    decreases times.len(),
{
    if times.len() > 0 {
        let n = times.len() - 1;
        let before = run.drop_last();
        assert forall|i: int| 0 <= i < n implies #[trigger] peer::dial_failed(
            before[i],
            before[i + 1],
            addr,
            times.drop_last()[i],
        ) by {
            assert(peer::dial_failed(run[i], run[i + 1], addr, times[i]));
        }
        failed_dials_never_ban(before, times.drop_last(), addr, t);
        assert(before.last() == run[n]);
        assert(peer::dial_failed(run[n], run[n + 1], addr, times[n]));
        assert(run.last().peers.remove(addr) =~= run[n].peers.remove(addr));
    }
}

/// The log of accepts never holds more addresses than its limit.
pub proof fn accept_log_bounded(
    before: Map<IpAddr, Vec<Instant>>,
    after: Map<IpAddr, Vec<Instant>>,
    ip: IpAddr,
    now: Instant,
    admitted: bool,
)
    requires
        before.dom().finite(),
        peer::accept_checked(before, after, ip, now, admitted),
    ensures
        after.dom().len() <= MAX_TRACKED_ADDRS,
{
    let room = choose|room: Map<IpAddr, Vec<Instant>>| #[trigger]
        peer::accept_checked_in(before, room, after, ip, now, admitted);
    lemma_room_bounded(before, room, now, 2 * peer::ACCEPT_WINDOW_SECS * NANOS_PER_SEC);
    assert(after.dom() =~= after.remove(ip).dom().insert(ip));
    assert(room.remove(ip).dom() =~= room.dom().remove(ip));
}

/// The record of failed dials never holds more addresses than its limit.
pub proof fn connect_failures_bounded(
    before: Map<SocketAddr, (u32, Instant)>,
    after: Map<SocketAddr, (u32, Instant)>,
    addr: SocketAddr,
    now: Instant,
)
    requires
        before.dom().finite(),
        peer::failure_recorded(before, after, addr, now),
    ensures
        after.dom().len() <= MAX_TRACKED_ADDRS,
        after.contains_key(addr),
        after[addr].1 == now,
{
    let room = choose|room: Map<SocketAddr, (u32, Instant)>| #[trigger]
        peer::failure_recorded_in(before, room, after, addr, now);
    lemma_room_bounded(before, room, now, 2 * MAX_RECONNECT_BACKOFF_SECS * NANOS_PER_SEC);
    assert(after.dom() =~= room.dom().insert(addr));
}

/// The banned IP addresses never exceed their limit.
pub proof fn ip_bans_bounded(
    before: Map<IpAddr, Instant>,
    after: Map<IpAddr, Instant>,
    ip: IpAddr,
    now: Instant,
)
    requires
        before.dom().finite(),
        before.dom().len() <= MAX_BANNED_RECORDS,
        peer::ip_ban_added(before, after, ip, now),
    ensures
        after.dom().len() <= MAX_BANNED_RECORDS,
        after.contains_key(ip),
{
    if before.dom().len() >= MAX_BANNED_RECORDS {
        let room = choose|room: Map<IpAddr, Instant>|
            #[trigger] table::oldest_removed(before, room, 1) && after == room.insert(
                ip,
                peer::ban_end(now),
            );
        let gone = before.dom().difference(room.dom());
        assert forall|k: IpAddr| room.dom().contains(k) implies before.dom().contains(k) by {
            assert(room.contains_key(k));
        }
        assert(room.dom().subset_of(before.dom()));
        vstd::set_lib::lemma_len_subset(room.dom(), before.dom());
        vstd::set_lib::lemma_set_disjoint_lens(gone, room.dom());
        assert(gone + room.dom() =~= before.dom());
        assert(after.dom() =~= room.dom().insert(ip));
    } else {
        assert(after.dom() =~= before.dom().insert(ip));
    }
}

pub proof fn lemma_ips_finite(before: Map<IpAddr, Instant>, after: Map<IpAddr, Instant>, ip: IpAddr, now: Instant)
    requires
        before.dom().finite(),
        peer::ip_ban_added(before, after, ip, now),
    ensures
        after.dom().finite(),
{
    if before.dom().len() >= MAX_BANNED_RECORDS {
        let room = choose|room: Map<IpAddr, Instant>|
            #[trigger] table::oldest_removed(before, room, 1) && after == room.insert(
                ip,
                peer::ban_end(now),
            );
        assert forall|k: IpAddr| room.dom().contains(k) implies before.dom().contains(k) by {
            assert(room.contains_key(k));
        }
        vstd::set_lib::lemma_len_subset(room.dom(), before.dom());
        assert(after.dom() =~= room.dom().insert(ip));
    } else {
        assert(after.dom() =~= before.dom().insert(ip));
    }
}

/// After a ban that is extended to an IP address, no more bans are on record than the limit
/// allows, of peers and IP addresses together.
pub proof fn mirrored_ban_keeps_limit(before: PeersView, after: PeersView, ip: IpAddr, now: Instant)
    requires
        before.peers.dom().finite(),
        before.banned_ips.dom().finite(),
        peer::ban_mirrored(before, after, ip, now),
    ensures
        after.ban_records(now) <= MAX_BANNED_RECORDS,
{
    let ips = choose|ips: Map<IpAddr, Instant>|
        #[trigger] peer::ip_ban_added(before.banned_ips, ips, ip, now) && peer::bans_evicted(
            PeersView { banned_ips: ips, ..before },
            after,
            now,
            BanRecord::Ip(ip),
        );
    let added = PeersView { banned_ips: ips, ..before };
    lemma_ips_finite(before.banned_ips, ips, ip, now);
    if added.ban_records(now) > MAX_BANNED_RECORDS {
        let mid = choose|mid: PeersView|
            #[trigger] peer::batch_evicted(added, mid) && bans::bans_trimmed(
                mid,
                after,
                now,
                BanRecord::Ip(ip),
            );
        assert forall|a: SocketAddr| mid.peers.dom().contains(a) implies added.peers.dom().contains(
            a,
        ) by {
            assert(mid.peers.contains_key(a));
        }
        vstd::set_lib::lemma_len_subset(mid.peers.dom(), added.peers.dom());
        bans::trimmed_within_limit(mid, after, now, BanRecord::Ip(ip));
    }
}

/// No strike leads beyond the limit on the records of bans: neither one that is extended to the
/// IP address nor one for a rate limit.
pub proof fn strikes_keep_ban_limit(
    before: PeersView,
    after: PeersView,
    addr: SocketAddr,
    points: i32,
    now: Instant,
)
    requires
        before.peers.dom().finite(),
        before.banned_ips.dom().finite(),
        before.ban_records(now) <= MAX_BANNED_RECORDS,
        peer::struck_and_mirrored(before, after, addr, points, now) || (before.peers.contains_key(
            addr,
        ) && peer::struck_in_place(before, after, addr, points, now)),
    ensures
        after.ban_records(now) <= MAX_BANNED_RECORDS,
{
    let struck = before.peer_or_new(addr, now).struck(points, now);
    let scored = before.with_peer(addr, struck);
    assert(scored.peers.dom() =~= before.peers.dom().insert(addr));
    if !struck.banned_at(now) {
        bans::unbanned_adds_no_record(before, addr, struck, now);
    } else if peer::struck_and_mirrored(before, after, addr, points, now) {
        mirrored_ban_keeps_limit(scored, after, addr.spec_ip(), now);
    } else {
        bans::trimmed_within_limit(scored, after, now, BanRecord::Peer(addr));
    }
}

/// A peer that a rate limit bans stays on record as banned, however many bans there are.
pub proof fn rate_ban_stays_on_record(
    before: PeersView,
    after: PeersView,
    addr: SocketAddr,
    points: i32,
    now: Instant,
)
    requires
        before.peers.contains_key(addr),
        peer::struck_in_place(before, after, addr, points, now),
    ensures
        after.peers.contains_key(addr),
        after.peers[addr] == before.peers[addr].struck(points, now),
{
    let scored = before.with_peer(addr, before.peers[addr].struck(points, now));
    if scored.peers[addr].banned_at(now) {
        assert(scored.has_ban(BanRecord::Peer(addr), now));
        assert(after.has_ban(BanRecord::Peer(addr), now));
    }
}

/// Time adds no record of a ban: bans end, and none begins by itself.
pub proof fn bans_only_end_with_time(v: PeersView, now: Instant, later: Instant)
    requires
        v.peers.dom().finite(),
        now.nanos <= later.nanos,
    ensures
        v.ban_records(later) <= v.ban_records(now),
{
    let after = v.select(PeerFilter::Banned(later));
    let before = v.select(PeerFilter::Banned(now));
    assert(before.finite());
    assert(after.subset_of(before));
    vstd::set_lib::lemma_len_subset(after, before);
}

/// What is no strike adds no record of a ban: a failed dial, the end of a connection, a slot that
/// is taken, the end of the ban of an IP address, and the decay of scores.
pub proof fn only_strikes_add_bans(
    v: PeersView,
    dialled: PeersView,
    addr: SocketAddr,
    amount: i32,
    now: Instant,
)
    requires
        v.peers.dom().finite(),
        v.banned_ips.dom().finite(),
        0 <= amount,
        peer::dial_failed(v, dialled, addr, now),
    ensures
        dialled.ban_records(now) <= v.ban_records(now),
        v.without_connection(addr, now).ban_records(now) <= v.ban_records(now),
        connect::slot_taken(v, addr, now).ban_records(now) <= v.ban_records(now),
        v.ip_ban_expired(addr.spec_ip(), now).ban_records(now) <= v.ban_records(now),
        (PeersView {
            peers: v.peers.map_values(|p: PeerInfo| p.decayed(amount, now)),
            ..v
        }).ban_records(now) <= v.ban_records(now),
{
    lemma_fewer_bans(v, dialled, now);
    lemma_fewer_bans(v, v.without_connection(addr, now), now);
    lemma_fewer_bans(v, connect::slot_taken(v, addr, now), now);
    lemma_fewer_bans(v, v.ip_ban_expired(addr.spec_ip(), now), now);
    lemma_fewer_bans(
        v,
        PeersView { peers: v.peers.map_values(|p: PeerInfo| p.decayed(amount, now)), ..v },
        now,
    );
}

proof fn lemma_fewer_bans(v: PeersView, after: PeersView, now: Instant)
    requires
        v.peers.dom().finite(),
        v.banned_ips.dom().finite(),
        after.banned_ips.dom().subset_of(v.banned_ips.dom()),
        forall|a: SocketAddr| #[trigger]
            after.peers.contains_key(a) && after.peers[a].banned_at(now) ==> v.peers.contains_key(a)
                && v.peers[a].banned_at(now),
    ensures
        after.ban_records(now) <= v.ban_records(now),
{
    let filter = PeerFilter::Banned(now);
    assert(v.select(filter).finite());
    assert forall|a: SocketAddr| after.select(filter).contains(a) implies v.select(
        filter,
    ).contains(a) by {
        assert(after.peers.contains_key(a));
    }
    vstd::set_lib::lemma_len_subset(after.select(filter), v.select(filter));
    vstd::set_lib::lemma_len_subset(after.banned_ips.dom(), v.banned_ips.dom());
}

proof fn lemma_in_window_shrinks(log: Seq<Instant>, now: Instant)
    ensures
        peer::in_window(log, now).len() <= log.len(),
    decreases log.len(),
{
    if log.len() > 0 && now.spec_since(log[0]) >= peer::ACCEPT_WINDOW_SECS * NANOS_PER_SEC {
        lemma_in_window_shrinks(log.subrange(1, log.len() as int), now);
    }
}

/// An IP address never has more accepts in its log than the burst allows, and one without a log
/// is let in. As long as there is room for another address, a full burst within the window is
/// refused, and no other address is affected.
pub proof fn burst_is_bounded(
    before: Map<IpAddr, Vec<Instant>>,
    after: Map<IpAddr, Vec<Instant>>,
    ip: IpAddr,
    now: Instant,
    admitted: bool,
)
    requires
        before.contains_key(ip) ==> before[ip]@.len() <= ACCEPT_BURST_PER_IP,
        peer::accept_checked(before, after, ip, now, admitted),
    ensures
        after[ip]@.len() <= ACCEPT_BURST_PER_IP,
        !before.contains_key(ip) ==> admitted,
        before.dom().len() < MAX_TRACKED_ADDRS && before.contains_key(ip) && before[ip]@.len()
            == ACCEPT_BURST_PER_IP && now.spec_since(before[ip]@[0])
            < peer::ACCEPT_WINDOW_SECS * NANOS_PER_SEC ==> !admitted,
        before.dom().len() < MAX_TRACKED_ADDRS ==> after.remove(ip) == before.remove(ip),
{
    let room = choose|room: Map<IpAddr, Vec<Instant>>| #[trigger]
        peer::accept_checked_in(before, room, after, ip, now, admitted);
    assert(room.contains_key(ip) ==> before.contains_key(ip) && room[ip] == before[ip]);
    if room.contains_key(ip) {
        lemma_in_window_shrinks(before[ip]@, now);
    }
}

/// How many of the attempts at the given times a bucket allows.
pub open spec fn allowed_count(limiter: RateLimiter, times: Seq<Instant>) -> nat
    decreases times.len(),
{
    if times.len() == 0 {
        0
    } else {
        let rest = allowed_count(
            limiter.after_attempt(times[0]),
            times.subrange(1, times.len() as int),
        );
        if limiter.allows(times[0]) {
            rest + 1
        } else {
            rest
        }
    }
}

/// Whatever the attempts, no more are allowed than the tokens that were there and those
/// gained since make up.
pub proof fn rate_is_bounded(limiter: RateLimiter, times: Seq<Instant>)
    requires
        times.len() > 0,
        limiter.last_refill.nanos <= times[0].nanos,
        forall|i: int, j: int| 0 <= i <= j < times.len() ==> times[i].nanos <= times[j].nanos,
    ensures
        allowed_count(limiter, times) * NANOS_PER_SEC <= limiter.tokens + (times.last().nanos
            - limiter.last_refill.nanos) * limiter.rate,
    decreases times.len(),
{
    let next = limiter.after_attempt(times[0]);
    let rest = times.subrange(1, times.len() as int);
    let gap = times[0].nanos - limiter.last_refill.nanos;
    let rate = limiter.rate;
    assert(limiter.refilled(times[0]).tokens <= limiter.tokens + gap * rate) by {
        assert(0 <= gap * rate) by (nonlinear_arith)
            requires
                0 <= gap,
                0 <= rate,
        ;
        assert(limiter.capacity() <= u64::MAX) by (nonlinear_arith)
            requires
                limiter.capacity() == rate * NANOS_PER_SEC,
                rate <= u32::MAX,
                NANOS_PER_SEC == 1_000_000_000,
        ;
        assert(0 <= limiter.capacity()) by (nonlinear_arith)
            requires
                limiter.capacity() == rate * NANOS_PER_SEC,
                0 <= rate,
                NANOS_PER_SEC == 1_000_000_000,
        ;
    }
    if rest.len() == 0 {
        assert(allowed_count(next, rest) == 0);
    } else {
        rate_is_bounded(next, rest);
        let span = times.last().nanos - times[0].nanos;
        assert(rest.last() == times.last());
        assert(gap * rate + span * rate == (gap + span) * rate) by (nonlinear_arith);
    }
}

/// A full bucket allows exactly as many attempts at one time as its rate.
pub proof fn full_burst_is_allowed(rate: u32, now: Instant, n: nat)
    requires
        n <= rate,
    ensures
        after_attempts(peer::full_bucket(rate, now), now, n).tokens == (rate - n) * NANOS_PER_SEC,
        after_attempts(peer::full_bucket(rate, now), now, n).allows(now) <==> n < rate,
    decreases n,
{
    let start = peer::full_bucket(rate, now);
    let here = after_attempts(start, now, n);
    assert(rate * NANOS_PER_SEC <= u64::MAX) by (nonlinear_arith)
        requires
            rate <= u32::MAX,
            NANOS_PER_SEC == 1_000_000_000,
    ;
    if n > 0 {
        full_burst_is_allowed(rate, now, (n - 1) as nat);
    }
    lemma_attempts_keep_rate(start, now, n);
    assert(here.refilled(now).tokens == here.tokens) by {
        assert(0 * rate == 0) by (nonlinear_arith);
        assert((rate - n) * NANOS_PER_SEC <= rate * NANOS_PER_SEC) by (nonlinear_arith)
            requires
                n >= 0,
                NANOS_PER_SEC == 1_000_000_000,
        ;
    }
}

/// The bucket after `n` attempts at one time.
pub open spec fn after_attempts(limiter: RateLimiter, now: Instant, n: nat) -> RateLimiter
    decreases n,
{
    if n == 0 {
        limiter
    } else {
        after_attempts(limiter, now, (n - 1) as nat).after_attempt(now)
    }
}

proof fn lemma_attempts_keep_rate(limiter: RateLimiter, now: Instant, n: nat)
    requires
        limiter.last_refill == now,
    ensures
        after_attempts(limiter, now, n).rate == limiter.rate,
        after_attempts(limiter, now, n).last_refill == now,
    decreases n,
{
    if n > 0 {
        lemma_attempts_keep_rate(limiter, now, (n - 1) as nat);
    }
}

/// Decay moves a score toward zero and never across it.
pub proof fn decay_moves_toward_zero(p: PeerInfo, amount: i32, now: Instant)
    requires
        0 <= amount,
    ensures
        p.score >= 0 ==> 0 <= p.decayed(amount, now).score <= p.score,
        p.score <= 0 ==> p.score <= p.decayed(amount, now).score <= 0,
        p.decayed(amount, now).state == p.state,
{
}

/// The wait after failed dials grows with their number, up to its cap.
pub proof fn backoff_grows_to_cap(a: u32, b: u32)
    requires
        a <= b,
    ensures
        0 <= peer::backoff(a) <= peer::backoff(b) <= MAX_RECONNECT_BACKOFF_SECS,
        1 <= a && peer::backoff((a + 1) as u32) < MAX_RECONNECT_BACKOFF_SECS && a < u32::MAX
            ==> peer::backoff((a + 1) as u32) == 2 * peer::backoff(a),
{
    if a > 0 {
        lemma_doubled_wait(a as nat, b as nat);
    }
    if 1 <= a < u32::MAX {
        lemma_doubled_wait(a as nat, (a + 1) as nat);
    }
}

proof fn lemma_doubled_wait(a: nat, b: nat)
    requires
        1 <= a <= b,
    ensures
        peer::doubled_wait(a) <= peer::doubled_wait(b),
    decreases b - a,
{
    if a < b {
        lemma_doubled_wait(a, (b - 1) as nat);
    }
}

} // verus!
