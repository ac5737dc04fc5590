//! The rules for peers, in terms of what is on record of them.

use crate::addr::{IpAddr, SocketAddr};
use crate::bans;
use crate::bans::BanRecord;
use crate::peer;
use crate::peer::{PeerFilter, PeerInfo, PeerState, PeersView, RateLimiter, RateLimits};
use crate::peer_laws;
use crate::table;
use crate::table::Stamped;
use crate::time::Instant;
use vstd::prelude::*;

verus! {

/// The peer may not be spoken to at `now`: a ban runs until later, or the score has come down to
/// where it bans.
pub open spec fn shunned(p: PeerInfo, now: Instant) -> bool {
    (p.ban_until is Some && now.nanos < p.ban_until->0.nanos) || p.score <= -200
}

/// The connection has neither ended nor been given up for a ban.
pub open spec fn holds_slot(p: PeerInfo) -> bool {
    ||| p.state == PeerState::Connecting
    ||| p.state == PeerState::Connected
    ||| p.state == PeerState::Handshaking
    ||| p.state == PeerState::Ready
}

/// What each filter means is said by the state, the score, the ban and the time of the last word
/// of a peer, and by nothing else.
pub proof fn filters_go_by_the_record(p: PeerInfo, ip: IpAddr, now: Instant, nanos: u64)
    ensures
        PeerFilter::Active.holds(p) <==> holds_slot(p),
        PeerFilter::Handshaking.holds(p) <==> p.state == PeerState::Connecting || p.state
            == PeerState::Handshaking,
        PeerFilter::ActiveFrom(ip).holds(p) <==> holds_slot(p) && p.addr.spec_ip() == ip,
        PeerFilter::Ready.holds(p) <==> p.state == PeerState::Ready,
        PeerFilter::Banned(now).holds(p) <==> shunned(p, now),
        PeerFilter::Usable(now).holds(p) <==> p.state == PeerState::Ready && !shunned(p, now),
        PeerFilter::Connected(now).holds(p) <==> p.state != PeerState::Disconnected && !shunned(
            p,
            now,
        ),
        PeerFilter::Gone(now).holds(p) <==> (p.state == PeerState::Disconnected || p.state
            == PeerState::Banned) && !shunned(p, now),
        PeerFilter::Idle(now, nanos).holds(p) <==> p.state == PeerState::Ready && !shunned(p, now)
            && p.last_seen is Some && now.nanos - p.last_seen->0.nanos > nanos,
        p.banned_at(now) <==> shunned(p, now),
        p.active() <==> holds_slot(p),
{
}

/// A filter means exactly the peers on record that it holds of, and counts each once.
pub proof fn selection_is_by_filter(v: PeersView, filter: PeerFilter, addr: SocketAddr)
    ensures
        v.select(filter).contains(addr) <==> v.peers.contains_key(addr) && filter.holds(
            v.peers[addr],
        ),
        v.count(filter) == v.select(filter).len(),
{
}

/// A block or a transaction is announced to exactly those peers that are ready, may be spoken to
/// and have a channel, whatever else is on record of them.
pub proof fn announcements_reach_all_ready_peers(v: PeersView, now: Instant, addr: SocketAddr)
    ensures
        v.select(PeerFilter::Usable(now)).intersect(v.channels.dom()).contains(addr) <==> {
            &&& v.peers.contains_key(addr)
            &&& v.peers[addr].state == PeerState::Ready
            &&& v.peers[addr].ban_until is None || v.peers[addr].ban_until->0.nanos <= now.nanos
            &&& v.peers[addr].score > -200
            &&& v.channels.contains_key(addr)
        },
{
}

/// A score within its range, or the bound that it would exceed.
pub open spec fn held(x: int) -> int {
    if x < -0x8000_0000 {
        -0x8000_0000
    } else if x > 0x7FFF_FFFF {
        0x7FFF_FFFF
    } else {
        x
    }
}

/// A strike takes its points off the score. Where that leaves the score at or below the threshold
/// the peer is banned for an hour, and else it is not touched otherwise.
pub proof fn strike_takes_its_points(p: PeerInfo, points: i32, now: Instant)
    requires
        now.nanos + 3600 * 1_000_000_000 <= u64::MAX,
    ensures
        ({
            let after = p.struck(points, now);
            &&& after.score == held(p.score - points)
            &&& after.score <= -200 ==> after.state == PeerState::Banned && after.ban_until is Some
                && after.ban_until->0.nanos == now.nanos + 3600 * 1_000_000_000
            &&& after.score > -200 ==> after.state == p.state && after.ban_until == p.ban_until
            &&& same_but_standing(p, after)
        }),
{
}

/// What does not belong to the standing of a peer is the same.
pub open spec fn same_but_standing(p: PeerInfo, after: PeerInfo) -> bool {
    &&& after.addr == p.addr
    &&& after.connected_at == p.connected_at
    &&& after.last_seen == p.last_seen
    &&& after.last_ping_nonce == p.last_ping_nonce
    &&& after.height == p.height
    &&& after.version == p.version
    &&& after.services == p.services
    &&& after.remote_static == p.remote_static
    &&& after.msg_limiter == p.msg_limiter
    &&& after.tx_limiter == p.tx_limiter
}

/// A failed dial costs five points, but never the last one above the threshold, and the peer is
/// disconnected unless it may not be spoken to.
pub proof fn failed_dial_costs_little(p: PeerInfo, now: Instant)
    ensures
        ({
            let after = p.undialled(now);
            &&& p.score > -195 || p.score <= -200 ==> after.score == held(p.score - 5)
            &&& -200 < p.score <= -195 ==> after.score == -199
            &&& !shunned(p, now) ==> after.state == PeerState::Disconnected
            &&& shunned(p, now) ==> after.state == p.state
            &&& after.ban_until == p.ban_until
            &&& same_but_standing(p, after)
        }),
{
}

/// Decay brings a score nearer to zero by the amount, or to zero where it is nearer than that, and
/// forgets a ban exactly when it has ended.
pub proof fn decay_goes_by_the_amount(p: PeerInfo, amount: i32, now: Instant)
    requires
        0 <= amount,
    ensures
        ({
            let after = p.decayed(amount, now);
            &&& p.score > amount ==> after.score == p.score - amount
            &&& p.score < -amount ==> after.score == p.score + amount
            &&& -amount <= p.score <= amount ==> after.score == 0
            &&& after.ban_until == if p.ban_until is Some && p.ban_until->0.nanos > now.nanos {
                p.ban_until
            } else {
                None
            }
            &&& after.state == p.state
            &&& same_but_standing(p, after)
        }),
{
}

/// A new peer has a clean record: it is not connected, has no score and no ban, and all its
/// allowance.
pub proof fn new_peer_has_a_clean_record(addr: SocketAddr, limits: RateLimits, now: Instant)
    ensures
        ({
            let p = peer::new_peer(addr, limits, now);
            &&& p.addr == addr
            &&& p.state == PeerState::Disconnected
            &&& p.score == 0 && p.ban_until is None
            &&& !shunned(p, now)
            &&& p.connected_at is None && p.last_seen is None && p.last_ping_nonce is None
            &&& p.remote_static is None
            &&& p.height == 0 && p.version == 0 && p.services == 0
            &&& p.msg_limiter.rate == limits.messages && p.tx_limiter.rate == limits.transactions
            &&& p.msg_limiter.tokens == limits.messages * 1_000_000_000
            &&& p.tx_limiter.tokens == limits.transactions * 1_000_000_000
            &&& p.msg_limiter.last_refill == now && p.tx_limiter.last_refill == now
        }),
{
    assert(limits.messages * 1_000_000_000 <= u64::MAX) by (nonlinear_arith)
        requires
            limits.messages <= u32::MAX,
    ;
    assert(limits.transactions * 1_000_000_000 <= u64::MAX) by (nonlinear_arith)
        requires
            limits.transactions <= u32::MAX,
    ;
}

/// A bucket gains its rate with every second, up to a second's worth, and lets an attempt through
/// exactly when a whole token is there, which it takes.
pub proof fn bucket_gains_its_rate(limiter: RateLimiter, now: Instant)
    requires
        now.nanos >= limiter.last_refill.nanos,
    ensures
        ({
            let gained = limiter.tokens + (now.nanos - limiter.last_refill.nanos) * limiter.rate;
            let there = if gained < limiter.rate * 1_000_000_000 {
                gained
            } else {
                limiter.rate * 1_000_000_000
            };
            let after = limiter.after_attempt(now);
            &&& limiter.allows(now) <==> there >= 1_000_000_000
            &&& after.tokens == if there >= 1_000_000_000 {
                there - 1_000_000_000
            } else {
                there
            }
            &&& after.rate == limiter.rate
            &&& after.last_refill == now
        }),
{
    let rate = limiter.rate;
    let elapsed = now.nanos - limiter.last_refill.nanos;
    assert(rate * 1_000_000_000 <= u64::MAX) by (nonlinear_arith)
        requires
            rate <= u32::MAX,
    ;
    assert(0 <= elapsed * rate) by (nonlinear_arith)
        requires
            0 <= elapsed,
            0 <= rate,
    ;
}

/// A bucket that was let alone for a second lets as many attempts through as its rate, whatever
/// was there before.
pub proof fn bucket_recovers_in_a_second(limiter: RateLimiter, now: Instant)
    requires
        now.nanos - limiter.last_refill.nanos >= 1_000_000_000,
        limiter.rate > 0,
    ensures
        limiter.refilled(now).tokens == limiter.rate * 1_000_000_000,
        limiter.allows(now),
{
    let rate = limiter.rate;
    let elapsed = now.nanos - limiter.last_refill.nanos;
    assert(rate * 1_000_000_000 <= u64::MAX && rate * 1_000_000_000 >= 1_000_000_000) by (
        nonlinear_arith)
        requires
            0 < rate <= u32::MAX,
    ;
    assert(elapsed * rate >= rate * 1_000_000_000) by (nonlinear_arith)
        requires
            elapsed >= 1_000_000_000,
            rate > 0,
    ;
}

/// After the first failed dial the wait is five seconds, every further one doubles it, and it is
/// never more than five minutes.
pub proof fn wait_doubles_up_to_five_minutes(failures: u32)
    ensures
        peer::backoff(0) == 0,
        peer::backoff(1) == 5,
        failures >= 1 && failures < u32::MAX ==> peer::backoff((failures + 1) as u32) == if 2
            * peer::backoff(failures) < 300 {
            2 * peer::backoff(failures)
        } else {
            300
        },
{
    reveal_with_fuel(peer::doubled_wait, 3);
    if failures >= 1 && failures < u32::MAX {
        assert(peer::doubled_wait((failures + 1) as nat) == 2 * peer::doubled_wait(
            failures as nat,
        ));
    }
}

/// An address is dialled again exactly when the wait after its last failure is over.
pub proof fn dialled_again_after_the_wait(v: PeersView, addr: SocketAddr, now: Instant)
    ensures
        !v.connect_failures.contains_key(addr) ==> v.retry_due(addr, now),
        v.connect_failures.contains_key(addr) && now.nanos >= v.connect_failures[addr].1.nanos
            ==> (v.retry_due(addr, now) <==> now.nanos - v.connect_failures[addr].1.nanos
            >= peer::backoff(v.connect_failures[addr].0) * 1_000_000_000),
{
}

/// There is a slot for an address exactly when neither it nor its IP address is banned, it is not
/// connected, fewer than twenty-four connections are open, and fewer than three of them with its
/// IP address.
pub proof fn slots_are_given_by_the_caps(v: PeersView, addr: SocketAddr, now: Instant)
    ensures
        v.has_slot_for(addr, now) <==> {
            &&& !(v.banned_ips.contains_key(addr.spec_ip())
                && v.banned_ips[addr.spec_ip()].nanos > now.nanos)
            &&& v.peers.contains_key(addr) ==> !shunned(v.peers[addr], now) && !holds_slot(
                v.peers[addr],
            )
            &&& v.peers.dom().filter(|a: SocketAddr| holds_slot(v.peers[a])).len() < 24
            &&& v.peers.dom().filter(
                |a: SocketAddr|
                    holds_slot(v.peers[a]) && v.peers[a].addr.spec_ip() == addr.spec_ip(),
            ).len() < 3
        },
{
    assert(v.select(PeerFilter::Active) =~= v.peers.dom().filter(
        |a: SocketAddr| holds_slot(v.peers[a]),
    ));
    assert(v.select(PeerFilter::ActiveFrom(addr.spec_ip())) =~= v.peers.dom().filter(
        |a: SocketAddr| holds_slot(v.peers[a]) && v.peers[a].addr.spec_ip() == addr.spec_ip(),
    ));
}

/// An inbound connection is let in exactly when there is a slot for it, fewer than eight
/// handshakes are under way, and its IP address has not used up its burst. Where one of the first
/// two is missing nothing is logged.
pub proof fn inbound_is_let_in_by_the_caps(
    before: PeersView,
    after: PeersView,
    addr: SocketAddr,
    now: Instant,
    admitted: bool,
)
    requires
        peer::inbound_checked(before, after, addr, now, admitted),
    ensures
        ({
            let shaking = before.peers.dom().filter(
                |a: SocketAddr|
                    before.peers[a].state == PeerState::Connecting || before.peers[a].state
                        == PeerState::Handshaking,
            );
            &&& after.peers == before.peers && after.channels == before.channels
            &&& after.connect_failures == before.connect_failures && after.limits == before.limits
            &&& !(before.has_slot_for(addr, now) && shaking.len() < 8) ==> !admitted
                && after.accept_log == before.accept_log
            &&& before.has_slot_for(addr, now) && shaking.len() < 8 ==> peer::accept_checked(
                before.accept_log,
                after.accept_log,
                addr.spec_ip(),
                now,
                admitted,
            )
        }),
{
    assert(before.select(PeerFilter::Handshaking) =~= before.peers.dom().filter(
        |a: SocketAddr|
            before.peers[a].state == PeerState::Connecting || before.peers[a].state
                == PeerState::Handshaking,
    ));
}

/// Times that do not fall.
pub open spec fn in_order(log: Seq<Instant>) -> bool {
    forall|i: int, j: int|
        0 <= i <= j < log.len() ==> (#[trigger] log[i]).nanos <= (#[trigger] log[j]).nanos
}

/// Of the accepts in their order those of the last minute are in the window, all of them and no
/// other.
pub proof fn window_is_the_last_minute(log: Seq<Instant>, now: Instant)
    requires
        in_order(log),
        forall|i: int| 0 <= i < log.len() ==> (#[trigger] log[i]).nanos <= now.nanos,
    ensures
        ({
            let window = peer::in_window(log, now);
            &&& window.len() <= log.len()
            &&& window == log.skip(log.len() - window.len())
            &&& forall|i: int|
                0 <= i < window.len() ==> now.nanos - (#[trigger] window[i]).nanos < 60
                    * 1_000_000_000
            &&& forall|i: int|
                0 <= i < log.len() - window.len() ==> now.nanos - (#[trigger] log[i]).nanos >= 60
                    * 1_000_000_000
        }),
    decreases log.len(),
{
    let window = peer::in_window(log, now);
    if log.len() > 0 && now.nanos - log[0].nanos >= 60 * 1_000_000_000 {
        let rest = log.subrange(1, log.len() as int);
        assert forall|i: int, j: int| 0 <= i <= j < rest.len() implies (#[trigger] rest[i]).nanos
            <= (#[trigger] rest[j]).nanos by {
            assert(rest[i] == log[i + 1] && rest[j] == log[j + 1]);
        }
        assert forall|i: int| 0 <= i < rest.len() implies (#[trigger] rest[i]).nanos
            <= now.nanos by {
            assert(rest[i] == log[i + 1]);
        }
        window_is_the_last_minute(rest, now);
        assert(window =~= log.skip(log.len() - window.len()));
        assert forall|i: int| 0 <= i < log.len() - window.len() implies now.nanos - (
        #[trigger] log[i]).nanos >= 60 * 1_000_000_000 by {
            if i > 0 {
                assert(rest[i - 1] == log[i]);
            }
        }
    } else {
        assert(log.skip(0) =~= log);
        assert forall|i: int| 0 <= i < window.len() implies now.nanos - (#[trigger] window[i]).nanos
            < 60 * 1_000_000_000 by {
            assert(log[0].nanos <= log[i].nanos);
        }
    }
}

/// An IP address is let in exactly when fewer than thirty-two of its accepts are in the window, and
/// the accept is logged exactly then. As long as other addresses fit, theirs stay as they are.
pub proof fn burst_counts_the_window(
    before: Map<IpAddr, Vec<Instant>>,
    after: Map<IpAddr, Vec<Instant>>,
    ip: IpAddr,
    now: Instant,
    admitted: bool,
)
    requires
        before.dom().len() < 2048,
        peer::accept_checked(before, after, ip, now, admitted),
    ensures
        ({
            let log = if before.contains_key(ip) {
                before[ip]@
            } else {
                Seq::empty()
            };
            let window = peer::in_window(log, now);
            &&& admitted <==> window.len() < 32
            &&& after.contains_key(ip)
            &&& after[ip]@ == if admitted {
                window.push(now)
            } else {
                window
            }
            &&& forall|other: IpAddr|
                other != ip ==> (#[trigger] after.contains_key(other) <==> before.contains_key(
                    other,
                )) && (before.contains_key(other) ==> after[other] == before[other])
        }),
{
    let room = choose|room: Map<IpAddr, Vec<Instant>>| #[trigger]
        peer::accept_checked_in(before, room, after, ip, now, admitted);
    assert(room == before);
    assert forall|other: IpAddr| other != ip implies (#[trigger] after.contains_key(other)
        <==> before.contains_key(other)) && (before.contains_key(other) ==> after[other]
        == before[other]) by {
        assert(after.remove(ip).contains_key(other) <==> before.remove(ip).contains_key(other));
        if before.contains_key(other) {
            assert(after.remove(ip)[other] == before.remove(ip)[other]);
        }
    }
}

/// Room is made only where there is none, and only at the cost of the oldest: whatever goes is
/// older than the age or not younger than anything that stays.
pub proof fn room_costs_the_oldest<K, V: Stamped>(
    before: Map<K, V>,
    after: Map<K, V>,
    now: Instant,
    age: int,
    gone: K,
    kept: K,
)
    requires
        peer::room_made(before, after, now, age),
        before.contains_key(gone) && !after.contains_key(gone),
        after.contains_key(kept),
        before[gone].stamp() is Some,
        before[gone].stamp()->0.nanos <= now.nanos,
    ensures
        before.dom().len() >= 2048,
        before.contains_key(kept) && after[kept] == before[kept],
        after[kept].stamp() is Some,
        now.nanos - before[gone].stamp()->0.nanos >= age || before[gone].stamp()->0.nanos
            <= after[kept].stamp()->0.nanos,
{
    let young = before.restrict(
        table::keys_where(
            before,
            |v: V| v.stamp() is Some && now.spec_since(v.stamp()->0) < age,
        ),
    );
    if young.dom().len() >= 2048 {
        assert(young.contains_key(kept));
        if now.nanos - before[gone].stamp()->0.nanos < age {
            assert(young.contains_key(gone));
        }
    }
}

/// A failed dial counts one more failure in a row and keeps its time.
pub proof fn failed_dial_is_counted(
    before: Map<SocketAddr, (u32, Instant)>,
    after: Map<SocketAddr, (u32, Instant)>,
    addr: SocketAddr,
    now: Instant,
)
    requires
        before.dom().len() < 2048,
        peer::failure_recorded(before, after, addr, now),
    ensures
        after.contains_key(addr),
        after[addr].0 == if !before.contains_key(addr) {
            1
        } else if before[addr].0 == 0xFFFF_FFFF {
            0xFFFF_FFFF
        } else {
            before[addr].0 + 1
        },
        after[addr].1 == now,
        after.remove(addr) == before.remove(addr),
{
    let room = choose|room: Map<SocketAddr, (u32, Instant)>| #[trigger]
        peer::failure_recorded_in(before, room, after, addr, now);
    assert(after.remove(addr) =~= before.remove(addr));
}

/// A banned IP address is on record for an hour. Where there is room, no other ban is touched, and
/// where there is none only one goes, which ends no later than any that stays.
pub proof fn ip_ban_lasts_an_hour(
    before: Map<IpAddr, Instant>,
    after: Map<IpAddr, Instant>,
    ip: IpAddr,
    now: Instant,
    other: IpAddr,
)
    requires
        now.nanos + 3600 * 1_000_000_000 <= u64::MAX,
        peer::ip_ban_added(before, after, ip, now),
        other != ip,
    ensures
        after.contains_key(ip) && after[ip].nanos == now.nanos + 3600 * 1_000_000_000,
        after.contains_key(other) ==> before.contains_key(other) && after[other] == before[other],
        before.contains_key(other) && !after.contains_key(other) ==> before.dom().len() >= 1024
            && forall|k: IpAddr|
            k != ip && #[trigger] after.contains_key(k) ==> before[other].nanos <= after[k].nanos,
{
    if before.dom().len() >= 1024 {
        let room = choose|room: Map<IpAddr, Instant>|
            #[trigger] table::oldest_removed(before, room, 1) && after == room.insert(
                ip,
                peer::ban_end(now),
            );
        assert(room.contains_key(other) ==> before.contains_key(other));
        if before.contains_key(other) && !after.contains_key(other) {
            assert forall|k: IpAddr| k != ip && #[trigger] after.contains_key(
                k,
            ) implies before[other].nanos <= after[k].nanos by {
                assert(room.contains_key(k));
                assert(before[other].stamp()->0.nanos <= room[k].stamp()->0.nanos);
            }
        }
    }
}

/// The end of a connection frees its slot and its channel. Of a peer that may be spoken to nothing
/// is left on record; one that may not stays on record as banned, with its score and its ban.
pub proof fn closing_keeps_only_bans(v: PeersView, addr: SocketAddr, now: Instant, other: SocketAddr)
    requires
        other != addr,
    ensures
        ({
            let after = v.without_connection(addr, now);
            &&& !after.channels.contains_key(addr)
            &&& after.channels.contains_key(other) <==> v.channels.contains_key(other)
            &&& v.channels.contains_key(other) ==> after.channels[other] == v.channels[other]
            &&& after.peers.contains_key(other) <==> v.peers.contains_key(other)
            &&& v.peers.contains_key(other) ==> after.peers[other] == v.peers[other]
            &&& after.peers.contains_key(addr) <==> v.peers.contains_key(addr) && shunned(
                v.peers[addr],
                now,
            )
            &&& after.peers.contains_key(addr) ==> {
                &&& after.peers[addr].state == PeerState::Banned
                &&& after.peers[addr].score == v.peers[addr].score
                &&& after.peers[addr].ban_until == v.peers[addr].ban_until
                &&& after.peers[addr].connected_at is None
                &&& after.peers[addr].last_ping_nonce is None
                &&& after.peers[addr].addr == v.peers[addr].addr
                &&& after.peers[addr].remote_static == v.peers[addr].remote_static
            }
            &&& after.banned_ips == v.banned_ips
            &&& after.connect_failures == v.connect_failures
            &&& after.accept_log == v.accept_log
        }),
{
}

/// The ban of an IP address is forgotten exactly when it is asked for after its end.
pub proof fn ended_ip_bans_are_forgotten(v: PeersView, ip: IpAddr, now: Instant, other: IpAddr)
    requires
        other != ip,
    ensures
        v.ip_banned_at(ip, now) <==> v.banned_ips.contains_key(ip) && v.banned_ips[ip].nanos
            > now.nanos,
        ({
            let after = v.ip_ban_expired(ip, now);
            &&& after.banned_ips.contains_key(ip) <==> v.banned_ips.contains_key(ip)
                && v.banned_ips[ip].nanos > now.nanos
            &&& after.banned_ips.contains_key(other) <==> v.banned_ips.contains_key(other)
            &&& after.banned_ips.contains_key(other) ==> after.banned_ips[other]
                == v.banned_ips[other]
            &&& after.peers == v.peers && after.channels == v.channels
            &&& after.accept_log == v.accept_log && after.connect_failures == v.connect_failures
        }),
{
}

/// A strike against a peer that does not ban touches nobody else.
pub proof fn strike_below_the_threshold_is_personal(
    before: PeersView,
    after: PeersView,
    addr: SocketAddr,
    points: i32,
    now: Instant,
)
    requires
        peer::struck_and_mirrored(before, after, addr, points, now),
        i32::MIN <= before.peer_or_new(addr, now).score - points,
        before.peer_or_new(addr, now).score - points > -200,
        0 <= points,
        !shunned(before.peer_or_new(addr, now), now),
    ensures
        after.peers.contains_key(addr),
        after.peers[addr].score == before.peer_or_new(addr, now).score - points,
        after.peers.remove(addr) == before.peers.remove(addr),
        after.channels == before.channels,
        after.banned_ips == before.banned_ips,
        after.accept_log == before.accept_log,
        after.connect_failures == before.connect_failures,
{
    assert(after.peers.remove(addr) =~= before.peers.remove(addr));
}

/// A peer that is not on record counts as a new one.
pub proof fn unknown_peers_count_as_new(v: PeersView, addr: SocketAddr, now: Instant)
    ensures
        v.peers.contains_key(addr) ==> v.peer_or_new(addr, now) == v.peers[addr],
        !v.peers.contains_key(addr) ==> v.peer_or_new(addr, now).score == 0 && v.peer_or_new(
            addr,
            now,
        ).ban_until is None && v.peer_or_new(addr, now).addr == addr && v.peer_or_new(
            addr,
            now,
        ).state == PeerState::Disconnected,
{
}

/// What counts as a record of a ban is a peer that may not be spoken to, and every IP address on
/// record as banned.
pub proof fn ban_records_count_peers_and_ips(v: PeersView, now: Instant, a: SocketAddr, ip: IpAddr)
    ensures
        v.has_ban(BanRecord::Peer(a), now) <==> v.peers.contains_key(a) && shunned(v.peers[a], now),
        v.has_ban(BanRecord::Ip(ip), now) <==> v.banned_ips.contains_key(ip),
        v.ban_records(now) == v.peers.dom().filter(|b: SocketAddr| shunned(v.peers[b], now)).len()
            + v.banned_ips.dom().len(),
{
    assert(v.select(PeerFilter::Banned(now)) =~= v.peers.dom().filter(
        |b: SocketAddr| shunned(v.peers[b], now),
    ));
}

/// Where bans are dropped for the limit, a peer that may be spoken to is never dropped, one that is
/// dropped does not end after a ban that stays, and neither does an IP address.
pub proof fn first_bans_to_end_are_dropped(
    before: PeersView,
    after: PeersView,
    now: Instant,
    spare: BanRecord,
    gone: SocketAddr,
    lifted: IpAddr,
    kept: IpAddr,
)
    requires
        bans::bans_trimmed(before, after, now, spare),
        after.banned_ips.contains_key(kept),
        BanRecord::Ip(kept) != spare,
    ensures
        before.banned_ips.contains_key(kept) && after.banned_ips[kept] == before.banned_ips[kept],
        before.peers.contains_key(gone) && !after.peers.contains_key(gone) ==> {
            &&& shunned(before.peers[gone], now)
            &&& before.peers[gone].ban_until is Some ==> before.peers[gone].ban_until->0.nanos
                <= after.banned_ips[kept].nanos
            &&& !after.channels.contains_key(gone)
        },
        before.banned_ips.contains_key(lifted) && !after.banned_ips.contains_key(lifted)
            ==> before.banned_ips[lifted].nanos <= after.banned_ips[kept].nanos,
        after.peers.contains_key(gone) ==> before.peers.contains_key(gone) && after.peers[gone]
            == before.peers[gone],
        after.accept_log == before.accept_log && after.connect_failures == before.connect_failures,
{
    assert(after.has_ban(BanRecord::Ip(kept), now));
    if before.peers.contains_key(gone) && !after.peers.contains_key(gone) {
        assert(before.peers.dom().difference(after.peers.dom()).contains(gone));
        assert(before.has_ban(BanRecord::Peer(gone), now));
        assert(!after.has_ban(BanRecord::Peer(gone), now));
    }
    if before.banned_ips.contains_key(lifted) && !after.banned_ips.contains_key(lifted) {
        assert(before.has_ban(BanRecord::Ip(lifted), now));
        assert(!after.has_ban(BanRecord::Ip(lifted), now));
    }
}

/// A batch that makes room among the bans is at most sixteen peers whose bans have an end, none of
/// them later than that of a peer that stays, and fewer only where no other peer has one.
pub proof fn batch_is_of_the_first_to_end(
    before: PeersView,
    after: PeersView,
    gone: SocketAddr,
    kept: SocketAddr,
)
    requires
        peer::batch_evicted(before, after),
        before.peers.contains_key(gone),
        !after.peers.contains_key(gone),
    ensures
        before.peers[gone].ban_until is Some,
        before.peers.dom().difference(after.peers.dom()).len() <= 16,
        !after.channels.contains_key(gone),
        after.peers.contains_key(kept) ==> before.peers.contains_key(kept) && after.peers[kept]
            == before.peers[kept] && (after.peers[kept].ban_until is Some
            ==> before.peers[gone].ban_until->0.nanos <= after.peers[kept].ban_until->0.nanos),
        after.peers.contains_key(kept) && before.peers.dom().difference(after.peers.dom()).len()
            < 16 ==> after.peers[kept].ban_until is None,
        after.banned_ips == before.banned_ips,
{
    assert(before.peers[gone].stamp() == before.peers[gone].ban_until);
    if after.peers.contains_key(kept) {
        assert(after.peers[kept].stamp() == after.peers[kept].ban_until);
    }
}

/// Records grow old by their time: a ban by its end, a failed dial by when it was, the accepts of an
/// address by the last of them.
pub proof fn records_age_by_their_time(
    p: PeerInfo,
    failure: (u32, Instant),
    until: Instant,
    log: Vec<Instant>,
)
    ensures
        p.stamp() == p.ban_until,
        failure.stamp() == Some(failure.1),
        until.stamp() == Some(until),
        log@.len() == 0 ==> log.stamp() is None,
        log@.len() > 0 ==> log.stamp() == Some(log@[log@.len() - 1]),
{
}

/// What the offences cost, and how long and how much is allowed.
pub proof fn costs_and_limits()
    ensures
        peer::SCORE_CONNECT_FAIL == 5 && peer::SCORE_RATE_LIMIT == 10 && peer::SCORE_MALFORMED == 20,
        peer::SCORE_INVALID_TX == 50 && peer::SCORE_INVALID_BLOCK == 100,
        peer::BAN_SCORE_THRESHOLD == -10 * peer::SCORE_MALFORMED,
        peer::BAN_SCORE_THRESHOLD == -4 * peer::SCORE_INVALID_TX,
        peer::BAN_SCORE_THRESHOLD == -2 * peer::SCORE_INVALID_BLOCK,
        peer::BAN_DURATION_SECS == 3600,
        peer::MAX_TOTAL_PEERS == 24 && peer::MAX_OUTBOUND_PEERS == 8 && peer::MAX_INBOUND_PEERS
            == 16,
        peer::MAX_PER_IP_PEERS == 3 && peer::MAX_HANDSHAKE_CONCURRENT == 8,
        peer::IDLE_EVICT_SECS == 90 && peer::PING_INTERVAL_SECS == 30 && peer::PEER_TIMEOUT_SECS
            == 30 && peer::VERSION_TIMEOUT_SECS == 10,
        peer::MAX_BANNED_RECORDS == 1024 && peer::MAX_TRACKED_ADDRS == 2048,
        peer::ACCEPT_WINDOW_SECS == 60 && peer::ACCEPT_BURST_PER_IP == 32,
{
}

/// A peer that is banned may not be spoken to for an hour, and its score bans it besides; nobody
/// else is touched, and nobody who is not on record.
pub proof fn banned_peers_are_shunned_for_an_hour(
    v: PeersView,
    addr: SocketAddr,
    now: Instant,
    later: Instant,
)
    requires
        now.nanos + 3600 * 1_000_000_000 <= u64::MAX,
        later.nanos < now.nanos + 3600 * 1_000_000_000,
    ensures
        ({
            let after = peer::peer_banned(v, addr, now);
            &&& !v.peers.contains_key(addr) ==> after == v
            &&& v.peers.contains_key(addr) ==> {
                let p = after.peers[addr];
                &&& after.peers.contains_key(addr)
                &&& shunned(p, later)
                &&& p.score == -201
                &&& p.ban_until is Some && p.ban_until->0.nanos == now.nanos + 3600 * 1_000_000_000
                &&& p.state == PeerState::Banned
                &&& same_but_standing(v.peers[addr], p)
            }
            &&& after.peers.remove(addr) == v.peers.remove(addr)
            &&& after.channels == v.channels && after.banned_ips == v.banned_ips
        }),
{
    let after = peer::peer_banned(v, addr, now);
    assert(after.peers.remove(addr) =~= v.peers.remove(addr));
}

/// A list of some peers has each of them once and nobody else.
pub proof fn lists_are_complete(list: Seq<SocketAddr>, set: Set<SocketAddr>, a: SocketAddr)
    requires
        table::enumerates(list, set),
    ensures
        list.contains(a) <==> set.contains(a),
        forall|i: int, j: int| 0 <= i < j < list.len() ==> list[i] != list[j],
        set.finite() && list.len() == set.len(),
{
    assert(list.to_set().contains(a) <==> list.contains(a));
    list.unique_seq_to_set();
    vstd::seq_lib::seq_to_set_is_finite(list);
}

/// A list of what is known of some peers has the record of each of them once and no other.
pub proof fn listed_records_are_those_meant(
    v: PeersView,
    filter: PeerFilter,
    infos: Seq<&PeerInfo>,
    i: int,
    a: SocketAddr,
)
    requires
        v.wf(),
        peer::infos_listed(v, filter, infos),
    ensures
        0 <= i < infos.len() ==> v.peers.contains_key(infos[i].addr) && *infos[i]
            == v.peers[infos[i].addr] && filter.holds(*infos[i]),
        v.peers.contains_key(a) && filter.holds(v.peers[a]) ==> exists|k: int|
            0 <= k < infos.len() && #[trigger] infos[k].addr == a,
        forall|j: int, k: int| 0 <= j < k < infos.len() ==> infos[j].addr != infos[k].addr,
{
    let addrs = peer::addrs_of(infos);
    if 0 <= i < infos.len() {
        assert(addrs[i] == infos[i].addr);
        assert(addrs.to_set().contains(addrs[i]));
    }
    if v.peers.contains_key(a) && filter.holds(v.peers[a]) {
        assert(addrs.to_set().contains(a));
        let k = choose|k: int| 0 <= k < addrs.len() && addrs[k] == a;
        assert(infos[k].addr == a);
    }
    assert forall|j: int, k: int| 0 <= j < k < infos.len() implies infos[j].addr
        != infos[k].addr by {
        assert(addrs[j] != addrs[k]);
    }
}

/// Who is put on record is there, and nobody else changes.
pub proof fn records_are_put_under_their_address(
    v: PeersView,
    addr: SocketAddr,
    p: PeerInfo,
    other: SocketAddr,
)
    requires
        other != addr,
    ensures
        ({
            let after = v.with_peer(addr, p);
            &&& after.peers.contains_key(addr) && after.peers[addr] == p
            &&& after.peers.contains_key(other) <==> v.peers.contains_key(other)
            &&& v.peers.contains_key(other) ==> after.peers[other] == v.peers[other]
            &&& after.channels == v.channels && after.banned_ips == v.banned_ips
            &&& after.accept_log == v.accept_log && after.connect_failures == v.connect_failures
            &&& after.limits == v.limits
        }),
{
}

/// A score stops at the bounds of its range and is exact within them.
pub proof fn scores_stop_at_their_bounds(x: int)
    ensures
        -0x8000_0000 <= x <= 0x7FFF_FFFF ==> peer::clamp_i32(x) == x,
        x < -0x8000_0000 ==> peer::clamp_i32(x) == -0x8000_0000,
        x > 0x7FFF_FFFF ==> peer::clamp_i32(x) == 0x7FFF_FFFF,
{
}

/// A table holds a key exactly when one of its entries has it, and the value of that entry.
pub proof fn tables_hold_their_entries<K, V>(s: Seq<(K, V)>, i: int, k: K)
    requires
        table::distinct(s),
        0 <= i < s.len(),
    ensures
        table::as_map(s).contains_key(s[i].0),
        table::as_map(s)[s[i].0] == s[i].1,
        table::as_map(s).contains_key(k) ==> exists|j: int|
            0 <= j < s.len() && (#[trigger] s[j]).0 == k,
{
    table::lemma_at(s, i);
}

/// An IP address that is banned is so for an hour, and no more bans are on record then than a
/// thousand and twenty-four, of peers and IP addresses together.
pub proof fn banned_ips_stay_within_the_limit(
    before: PeersView,
    after: PeersView,
    ip: IpAddr,
    now: Instant,
)
    requires
        before.peers.dom().finite(),
        before.banned_ips.dom().finite(),
        now.nanos + 3600 * 1_000_000_000 <= u64::MAX,
        peer::ip_banned(before, after, ip, now),
    ensures
        after.banned_ips.contains_key(ip),
        after.banned_ips[ip].nanos == now.nanos + 3600 * 1_000_000_000,
        after.ban_records(now) <= 1024,
        after.accept_log == before.accept_log && after.connect_failures == before.connect_failures,
        forall|a: SocketAddr| #[trigger]
            after.peers.contains_key(a) ==> before.peers.contains_key(a) && after.peers[a]
                == before.peers[a],
        forall|a: SocketAddr| #[trigger]
            before.peers.contains_key(a) && !shunned(before.peers[a], now)
                ==> after.peers.contains_key(a),
{
    let ips = choose|ips: Map<IpAddr, Instant>|
        #[trigger] peer::ip_ban_added(before.banned_ips, ips, ip, now) && bans::bans_trimmed(
            PeersView { banned_ips: ips, ..before },
            after,
            now,
            BanRecord::Ip(ip),
        );
    let added = PeersView { banned_ips: ips, ..before };
    peer_laws::lemma_ips_finite(before.banned_ips, ips, ip, now);
    bans::trimmed_within_limit(added, after, now, BanRecord::Ip(ip));
    assert(added.has_ban(BanRecord::Ip(ip), now));
    assert(after.has_ban(BanRecord::Ip(ip), now));
    let gone = added.peers.dom().difference(after.peers.dom());
    assert forall|a: SocketAddr| #[trigger]
        before.peers.contains_key(a) && !shunned(before.peers[a], now) implies after.peers.contains_key(
        a,
    ) by {
        if !after.peers.contains_key(a) {
            assert(gone.contains(a));
        }
    }
}

} // verus!
