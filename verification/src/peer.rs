//! Peers: their scores, bans and rate limits, and the admission of new connections.

use crate::addr::{IpAddr, SocketAddr};
use crate::bans;
use crate::bans::BanRecord;
use crate::table;
use crate::table::{Key, Stamped, Table};
use crate::time::{Instant, NANOS_PER_SEC};
use tokio::sync::mpsc;
use vstd::prelude::*;

verus! {

pub const PEER_SCORE_GOOD: i32 = 10;

pub const PEER_SCORE_BAD: i32 = -100;

pub const BAN_SCORE_THRESHOLD: i32 = -200;

pub const MAX_OUTBOUND_PEERS: usize = 8;

pub const MAX_INBOUND_PEERS: usize = 16;

/// Connection slots in all. They count connections in every state that is not terminal,
/// so a flood of handshakes cannot exceed them.
pub const MAX_TOTAL_PEERS: usize = MAX_OUTBOUND_PEERS + MAX_INBOUND_PEERS;

/// Most connections with one IP address at a time, whatever the ports.
pub const MAX_PER_IP_PEERS: usize = 3;

/// Most handshakes at a time.
pub const MAX_HANDSHAKE_CONCURRENT: usize = 8;

pub const PEER_TIMEOUT_SECS: u64 = 30;

pub const PING_INTERVAL_SECS: u64 = 30;

pub const VERSION_TIMEOUT_SECS: u64 = 10;

/// Ready peers that are silent for longer than this are disconnected.
pub const IDLE_EVICT_SECS: u64 = 90;

/// How long a ban of a peer or an IP address lasts.
pub const BAN_DURATION_SECS: u64 = 3600;

/// Most ban records that are kept, of peers and IP addresses together. Those whose bans end first
/// make room.
pub const MAX_BANNED_RECORDS: usize = 1024;

/// Cost of a failed dial.
pub const SCORE_CONNECT_FAIL: i32 = 5;

/// Cost of a rate-limit violation.
pub const SCORE_RATE_LIMIT: i32 = 10;

/// Cost of a malformed handshake, an undecodable message or a protocol violation.
pub const SCORE_MALFORMED: i32 = 20;

/// Cost of a well-formed but invalid transaction.
pub const SCORE_INVALID_TX: i32 = 50;

/// Cost of a well-formed but invalid block or header batch.
pub const SCORE_INVALID_BLOCK: i32 = 100;

/// Wait after a first failed dial; it doubles with every further failure.
pub const RECONNECT_BASE_SECS: u64 = 5;

/// Longest wait after a failed dial.
pub const MAX_RECONNECT_BACKOFF_SECS: u64 = 300;

/// Sliding window in which inbound accepts are counted.
pub const ACCEPT_WINDOW_SECS: u64 = 60;

/// Most inbound accepts of one IP address in a window.
pub const ACCEPT_BURST_PER_IP: usize = 32;

/// Most addresses in the accept log, and in the record of failed dials.
pub const MAX_TRACKED_ADDRS: usize = 2048;

/// How many ban records one eviction removes at most.
pub const BAN_EVICTION_BATCH: usize = 16;

/// `x`, or the bound of `i32` that it exceeds.
pub open spec fn clamp_i32(x: int) -> i32 {
    if x < i32::MIN {
        i32::MIN
    } else if x > i32::MAX {
        i32::MAX
    } else {
        x as i32
    }
}

fn saturate(x: i64) -> (r: i32)
    ensures
        r == clamp_i32(x as int),
{
    if x < i32::MIN as i64 {
        i32::MIN
    } else if x > i32::MAX as i64 {
        i32::MAX
    } else {
        x as i32
    }
}

/// Allowances of one peer, per second.
#[derive(Clone, Copy, Debug, PartialEq, Eq, Structural)]
pub struct RateLimits {
    pub messages: u32,
    pub transactions: u32,
}

/// A token bucket: it holds at most as many tokens as it gains in a second. Tokens are
/// counted in billionths, so that a nanosecond's gain is a whole number.
#[derive(Clone, Copy, Debug, PartialEq, Eq, Structural)]
pub struct RateLimiter {
    /// Tokens gained per second.
    pub rate: u32,
    /// Billionths of a token that are there.
    pub tokens: u64,
    /// When tokens were last gained.
    pub last_refill: Instant,
}

impl RateLimiter {
    /// Billionths of a token that fit.
    pub open spec fn capacity(self) -> int {
        self.rate * NANOS_PER_SEC
    }

    /// The bucket after what it gained up to `now`.
    pub open spec fn refilled(self, now: Instant) -> RateLimiter {
        let gained = self.tokens + now.spec_since(self.last_refill) * self.rate;
        RateLimiter {
            tokens: (if gained < self.capacity() {
                gained
            } else {
                self.capacity()
            }) as u64,
            last_refill: now,
            ..self
        }
    }

    /// A whole token is there at `now`.
    pub open spec fn allows(self, now: Instant) -> bool {
        self.refilled(now).tokens >= NANOS_PER_SEC
    }

    /// The bucket after an attempt to take a token at `now`.
    pub open spec fn after_attempt(self, now: Instant) -> RateLimiter {
        if self.allows(now) {
            RateLimiter {
                tokens: (self.refilled(now).tokens - NANOS_PER_SEC) as u64,
                ..self.refilled(now)
            }
        } else {
            self.refilled(now)
        }
    }

    /// A full bucket.
    pub fn new(rate: u32, now: Instant) -> (limiter: Self)
        ensures
            limiter.rate == rate,
            limiter.tokens == limiter.capacity(),
            limiter.last_refill == now,
    {
        RateLimiter { rate, tokens: rate as u64 * NANOS_PER_SEC, last_refill: now }
    }

    /// Takes one token if a whole one is there. Returns whether it did.
    pub fn try_consume(&mut self, now: Instant) -> (allowed: bool)
        ensures
            allowed == old(self).allows(now),
            *final(self) == old(self).after_attempt(now),
    {
        self.refill(now);
        if self.tokens >= NANOS_PER_SEC {
            self.tokens = self.tokens - NANOS_PER_SEC;
            true
        } else {
            false
        }
    }

    fn refill(&mut self, now: Instant)
        ensures
            *final(self) == old(self).refilled(now),
    {
        let elapsed: u64 = now.since(self.last_refill);
        let rate: u32 = self.rate;
        assert(elapsed * rate <= u64::MAX * u32::MAX) by (nonlinear_arith)
            requires
                elapsed <= u64::MAX,
                rate <= u32::MAX,
        ;
        let gained: u128 = self.tokens as u128 + elapsed as u128 * rate as u128;
        let capacity: u64 = rate as u64 * NANOS_PER_SEC;
        self.tokens = if gained < capacity as u128 {
            gained as u64
        } else {
            capacity
        };
        self.last_refill = now;
    }
}

#[derive(Clone, Copy, Debug, PartialEq, Eq, Structural)]
pub enum PeerState {
    Connecting,
    Connected,
    Handshaking,
    Ready,
    Disconnected,
    Banned,
}

/// What is known of one peer.
#[derive(Clone, Copy, Debug)]
pub struct PeerInfo {
    pub addr: SocketAddr,
    pub state: PeerState,
    pub score: i32,
    pub connected_at: Option<Instant>,
    pub last_seen: Option<Instant>,
    pub last_ping_nonce: Option<u64>,
    pub height: u32,
    pub version: u32,
    pub services: u64,
    pub ban_until: Option<Instant>,
    /// The peer's static public key, once an encrypted handshake has shown it.
    pub remote_static: Option<[u8; 32]>,
    /// Allowance of incoming messages.
    pub msg_limiter: RateLimiter,
    /// Allowance of incoming transactions.
    pub tx_limiter: RateLimiter,
}

/// The end of a ban that starts at `now`.
pub open spec fn ban_end(now: Instant) -> Instant {
    Instant { nanos: (now.nanos + BAN_DURATION_SECS * NANOS_PER_SEC) as u64 }
}

/// A ban that starts at `now` ends within the range of the clock.
pub open spec fn clock_fits(now: Instant) -> bool {
    now.nanos + BAN_DURATION_SECS * NANOS_PER_SEC <= u64::MAX
}

impl PeerInfo {
    /// The peer is banned at `now`: its ban has not ended or its score is too low.
    pub open spec fn banned_at(self, now: Instant) -> bool {
        ||| self.ban_until matches Some(until) && now.nanos < until.nanos
        ||| self.score <= BAN_SCORE_THRESHOLD
    }

    /// The connection takes up a slot.
    pub open spec fn active(self) -> bool {
        self.state != PeerState::Disconnected && self.state != PeerState::Banned
    }

    /// The peer after a strike of `points` at `now`.
    pub open spec fn struck(self, points: i32, now: Instant) -> PeerInfo {
        let score = clamp_i32(self.score - points);
        if score <= BAN_SCORE_THRESHOLD {
            PeerInfo {
                score,
                ban_until: Some(ban_end(now)),
                state: PeerState::Banned,
                ..self
            }
        } else {
            PeerInfo { score, ..self }
        }
    }

    /// The score after a failed dial: a little less, but not so low that it bans, unless it was
    /// that low before.
    pub open spec fn score_after_dial(self) -> i32 {
        let score = clamp_i32(self.score - SCORE_CONNECT_FAIL);
        if self.score > BAN_SCORE_THRESHOLD && score <= BAN_SCORE_THRESHOLD {
            (BAN_SCORE_THRESHOLD + 1) as i32
        } else {
            score
        }
    }

    /// The peer after a dial that failed at `now`: it costs a little, and the slot is free again.
    pub open spec fn undialled(self, now: Instant) -> PeerInfo {
        PeerInfo {
            score: self.score_after_dial(),
            state: if self.banned_at(now) {
                self.state
            } else {
                PeerState::Disconnected
            },
            ..self
        }
    }

    /// The peer after its score has moved by `amount` toward zero and an ended ban is
    /// forgotten.
    pub open spec fn decayed(self, amount: i32, now: Instant) -> PeerInfo {
        let down = clamp_i32(self.score - amount);
        let up = clamp_i32(self.score + amount);
        PeerInfo {
            score: if self.score > 0 {
                if down > 0 {
                    down
                } else {
                    0
                }
            } else if self.score < 0 {
                if up < 0 {
                    up
                } else {
                    0
                }
            } else {
                0
            },
            ban_until: match self.ban_until {
                Some(until) => if now.nanos >= until.nanos {
                    None
                } else {
                    Some(until)
                },
                None => None,
            },
            ..self
        }
    }

    /// A peer of which nothing is known yet.
    pub fn new(addr: SocketAddr, limits: RateLimits, now: Instant) -> (peer: Self)
        ensures
            peer == new_peer(addr, limits, now),
    {
        PeerInfo {
            addr,
            state: PeerState::Disconnected,
            score: 0,
            connected_at: None,
            last_seen: None,
            last_ping_nonce: None,
            height: 0,
            version: 0,
            services: 0,
            ban_until: None,
            remote_static: None,
            msg_limiter: RateLimiter::new(limits.messages, now),
            tx_limiter: RateLimiter::new(limits.transactions, now),
        }
    }

    pub fn is_banned(&self, now: Instant) -> (banned: bool)
        ensures
            banned == self.banned_at(now),
    {
        if let Some(until) = self.ban_until {
            if now.nanos < until.nanos {
                return true;
            }
        }
        self.score <= BAN_SCORE_THRESHOLD
    }

    pub fn score_tick(&mut self)
        ensures
            *final(self) == (PeerInfo { score: clamp_i32(old(self).score + 1), ..*old(self) }),
    {
        self.score = saturate(self.score as i64 + 1);
    }

    /// Moves the score by `amount` toward zero and forgets a ban that has ended.
    pub fn score_decay(&mut self, amount: i32, now: Instant)
        ensures
            *final(self) == old(self).decayed(amount, now),
    {
        if self.score > 0 {
            let down: i32 = saturate(self.score as i64 - amount as i64);
            self.score = if down > 0 {
                down
            } else {
                0
            };
        } else if self.score < 0 {
            let up: i32 = saturate(self.score as i64 + amount as i64);
            self.score = if up < 0 {
                up
            } else {
                0
            };
        }
        if let Some(until) = self.ban_until {
            if now.nanos >= until.nanos {
                self.ban_until = None;
            }
        }
    }

    /// Takes `points` off the score and bans the peer when the score is too low.
    pub fn score_bad(&mut self, points: i32, now: Instant)
        requires
            clock_fits(now),
        ensures
            *final(self) == old(self).struck(points, now),
    {
        self.score = saturate(self.score as i64 - points as i64);
        if self.score <= BAN_SCORE_THRESHOLD {
            self.ban_until = Some(now.plus_secs(BAN_DURATION_SECS));
            self.state = PeerState::Banned;
        }
    }

    /// Takes a token for a message. Returns false when there is none.
    pub fn check_msg_rate(&mut self, now: Instant) -> (allowed: bool)
        ensures
            allowed == old(self).msg_limiter.allows(now),
            *final(self) == (PeerInfo {
                msg_limiter: old(self).msg_limiter.after_attempt(now),
                ..*old(self)
            }),
    {
        self.msg_limiter.try_consume(now)
    }

    /// Takes a token for a transaction. Returns false when there is none.
    pub fn check_tx_rate(&mut self, now: Instant) -> (allowed: bool)
        ensures
            allowed == old(self).tx_limiter.allows(now),
            *final(self) == (PeerInfo {
                tx_limiter: old(self).tx_limiter.after_attempt(now),
                ..*old(self)
            }),
    {
        self.tx_limiter.try_consume(now)
    }
}

/// A full bucket with the given rate.
pub open spec fn full_bucket(rate: u32, now: Instant) -> RateLimiter {
    RateLimiter { rate, tokens: (rate * NANOS_PER_SEC) as u64, last_refill: now }
}

/// A peer of which nothing is known yet.
pub open spec fn new_peer(addr: SocketAddr, limits: RateLimits, now: Instant) -> PeerInfo {
    PeerInfo {
        addr,
        state: PeerState::Disconnected,
        score: 0,
        connected_at: None,
        last_seen: None,
        last_ping_nonce: None,
        height: 0,
        version: 0,
        services: 0,
        ban_until: None,
        remote_static: None,
        msg_limiter: full_bucket(limits.messages, now),
        tx_limiter: full_bucket(limits.transactions, now),
    }
}

impl Key for SocketAddr {
    fn same(&self, other: &Self) -> (same: bool) {
        *self == *other
    }
}

impl Key for IpAddr {
    fn same(&self, other: &Self) -> (same: bool) {
        *self == *other
    }
}

impl Stamped for Instant {
    open spec fn stamp(&self) -> Option<Instant> {
        Some(*self)
    }

    fn get_stamp(&self) -> (stamp: Option<Instant>) {
        Some(*self)
    }
}

impl Stamped for (u32, Instant) {
    open spec fn stamp(&self) -> Option<Instant> {
        Some(self.1)
    }

    fn get_stamp(&self) -> (stamp: Option<Instant>) {
        Some(self.1)
    }
}

impl Stamped for Vec<Instant> {
    open spec fn stamp(&self) -> Option<Instant> {
        if self@.len() > 0 {
            Some(self@.last())
        } else {
            None
        }
    }

    fn get_stamp(&self) -> (stamp: Option<Instant>) {
        if self.len() > 0 {
            Some(self[self.len() - 1])
        } else {
            None
        }
    }
}

impl Stamped for PeerInfo {
    open spec fn stamp(&self) -> Option<Instant> {
        self.ban_until
    }

    fn get_stamp(&self) -> (stamp: Option<Instant>) {
        self.ban_until
    }
}

/// `tokio::sync::mpsc::Sender`: the sending half of a bounded channel. It is carried
/// through, and nothing is claimed of it.
#[verifier::external_type_specification]
#[verifier::external_body]
#[verifier::reject_recursive_types(T)]
pub struct ExSender<T>(mpsc::Sender<T>);

/// Which peers are meant.
pub enum PeerFilter {
    /// Connections that take up a slot.
    Active,
    /// Connections that have not finished their handshake.
    Handshaking,
    /// Connections with one IP address that take up a slot.
    ActiveFrom(IpAddr),
    /// Connections that have finished their handshake.
    Ready,
    /// Peers banned at a time.
    Banned(Instant),
    /// Ready peers that are not banned.
    Usable(Instant),
    /// Peers that are neither disconnected nor banned.
    Connected(Instant),
    /// Disconnected peers, and peers whose ban has ended, that are not banned.
    Gone(Instant),
    /// Usable peers that were silent for more than so many nanoseconds.
    Idle(Instant, u64),
}

impl PeerFilter {
    pub open spec fn holds(self, p: PeerInfo) -> bool {
        match self {
            PeerFilter::Active => p.active(),
            PeerFilter::Handshaking => p.state == PeerState::Connecting || p.state
                == PeerState::Handshaking,
            PeerFilter::ActiveFrom(ip) => p.addr.spec_ip() == ip && p.active(),
            PeerFilter::Ready => p.state == PeerState::Ready,
            PeerFilter::Banned(now) => p.banned_at(now),
            PeerFilter::Usable(now) => p.state == PeerState::Ready && !p.banned_at(now),
            PeerFilter::Connected(now) => p.state != PeerState::Disconnected && !p.banned_at(now),
            PeerFilter::Gone(now) => !p.active() && !p.banned_at(now),
            PeerFilter::Idle(now, nanos) => p.state == PeerState::Ready && !p.banned_at(now)
                && p.last_seen is Some && now.spec_since(p.last_seen->0) > nanos,
        }
    }

    fn test(&self, p: &PeerInfo) -> (holds: bool)
        ensures
            holds == self.holds(*p),
    {
        match self {
            PeerFilter::Active => p.state != PeerState::Disconnected && p.state
                != PeerState::Banned,
            PeerFilter::Handshaking => p.state == PeerState::Connecting || p.state
                == PeerState::Handshaking,
            PeerFilter::ActiveFrom(ip) => p.addr.ip() == *ip && p.state != PeerState::Disconnected
                && p.state != PeerState::Banned,
            PeerFilter::Ready => p.state == PeerState::Ready,
            PeerFilter::Banned(now) => p.is_banned(*now),
            PeerFilter::Usable(now) => p.state == PeerState::Ready && !p.is_banned(*now),
            PeerFilter::Connected(now) => p.state != PeerState::Disconnected && !p.is_banned(*now),
            PeerFilter::Gone(now) => (p.state == PeerState::Disconnected || p.state
                == PeerState::Banned) && !p.is_banned(*now),
            PeerFilter::Idle(now, nanos) => p.state == PeerState::Ready && !p.is_banned(*now)
                && match p.last_seen {
                Some(t) => now.since(t) > *nanos,
                None => false,
            },
        }
    }
}

/// All peers, their channels, and the records that admission consults.
pub struct PeerManager {
    pub limits: RateLimits,
    pub peers: Table<SocketAddr, PeerInfo>,
    pub channels: Table<SocketAddr, mpsc::Sender<Vec<u8>>>,
    /// Banned IP addresses and when their bans end: a new source port does not escape.
    pub banned_ips: Table<IpAddr, Instant>,
    /// Failed dials in a row, and when the last one was.
    pub connect_failures: Table<SocketAddr, (u32, Instant)>,
    /// When connections of an IP address were let in lately, oldest first.
    pub accept_log: Table<IpAddr, Vec<Instant>>,
}

/// The state of a peer manager.
#[verifier::ext_equal]
pub struct PeersView {
    pub limits: RateLimits,
    pub peers: Map<SocketAddr, PeerInfo>,
    pub channels: Map<SocketAddr, mpsc::Sender<Vec<u8>>>,
    pub banned_ips: Map<IpAddr, Instant>,
    pub connect_failures: Map<SocketAddr, (u32, Instant)>,
    pub accept_log: Map<IpAddr, Vec<Instant>>,
}

impl View for PeerManager {
    type V = PeersView;

    open spec fn view(&self) -> PeersView {
        PeersView {
            limits: self.limits,
            peers: self.peers@,
            channels: self.channels@,
            banned_ips: self.banned_ips@,
            connect_failures: self.connect_failures@,
            accept_log: self.accept_log@,
        }
    }
}

/// The wait in seconds after so many failures in a row, without its cap: it doubles with every
/// failure after the first.
pub open spec fn doubled_wait(failures: nat) -> nat
    decreases failures,
{
    if failures <= 1 {
        RECONNECT_BASE_SECS as nat
    } else {
        2 * doubled_wait((failures - 1) as nat)
    }
}

/// Seconds to wait after so many failures in a row.
pub open spec fn backoff(failures: u32) -> int {
    if failures == 0 {
        0
    } else if doubled_wait(failures as nat) < MAX_RECONNECT_BACKOFF_SECS {
        doubled_wait(failures as nat) as int
    } else {
        MAX_RECONNECT_BACKOFF_SECS as int
    }
}

/// The accepts that still lie in the window at `now`: the front is dropped as far as it is
/// too old.
pub open spec fn in_window(log: Seq<Instant>, now: Instant) -> Seq<Instant>
    decreases log.len(),
{
    if log.len() > 0 && now.spec_since(log[0]) >= ACCEPT_WINDOW_SECS * NANOS_PER_SEC {
        in_window(log.subrange(1, log.len() as int), now)
    } else {
        log
    }
}

/// Room for one more record among those that are kept by age. Where there is room, nothing
/// changes. Else what is older than `age` goes, and then the oldest as far as needed.
pub open spec fn room_made<K, V: Stamped>(
    before: Map<K, V>,
    after: Map<K, V>,
    now: Instant,
    age: int,
) -> bool {
    if before.dom().len() < MAX_TRACKED_ADDRS {
        after == before
    } else {
        let young = before.restrict(
            table::keys_where(
                before,
                |v: V| v.stamp() is Some && now.spec_since(v.stamp()->0) < age,
            ),
        );
        if young.dom().len() < MAX_TRACKED_ADDRS {
            after == young
        } else {
            table::oldest_removed(young, after, (young.dom().len() - MAX_TRACKED_ADDRS + 1) as nat)
        }
    }
}

/// What an accept check does to the log of accepts: room is made, what has left the window
/// is forgotten, and the accept is logged if the burst is not used up.
pub open spec fn accept_checked(
    before: Map<IpAddr, Vec<Instant>>,
    after: Map<IpAddr, Vec<Instant>>,
    ip: IpAddr,
    now: Instant,
    admitted: bool,
) -> bool {
    exists|room: Map<IpAddr, Vec<Instant>>| #[trigger]
        accept_checked_in(before, room, after, ip, now, admitted)
}

/// The same with the records after room was made.
pub open spec fn accept_checked_in(
    before: Map<IpAddr, Vec<Instant>>,
    room: Map<IpAddr, Vec<Instant>>,
    after: Map<IpAddr, Vec<Instant>>,
    ip: IpAddr,
    now: Instant,
    admitted: bool,
) -> bool {
    let log = in_window(
        if room.contains_key(ip) {
            room[ip]@
        } else {
            Seq::empty()
        },
        now,
    );
    &&& room_made(before, room, now, 2 * ACCEPT_WINDOW_SECS * NANOS_PER_SEC)
    &&& admitted == (log.len() < ACCEPT_BURST_PER_IP)
    &&& after.contains_key(ip)
    &&& after[ip]@ == if admitted {
        log.push(now)
    } else {
        log
    }
    &&& after.remove(ip) == room.remove(ip)
}

/// What banning an IP address does to the banned addresses: where they are full, one whose
/// ban ends first makes room.
pub open spec fn ip_ban_added(
    before: Map<IpAddr, Instant>,
    after: Map<IpAddr, Instant>,
    ip: IpAddr,
    now: Instant,
) -> bool {
    if before.dom().len() >= MAX_BANNED_RECORDS {
        exists|room: Map<IpAddr, Instant>|
            #[trigger] table::oldest_removed(before, room, 1) && after == room.insert(
                ip,
                ban_end(now),
            )
    } else {
        after == before.insert(ip, ban_end(now))
    }
}

/// Up to a batch of peers with a ban goes, those whose bans end first before the others.
pub open spec fn batch_evicted(before: PeersView, after: PeersView) -> bool {
    let gone = before.peers.dom().difference(after.peers.dom());
    &&& table::oldest_removed(before.peers, after.peers, gone.len())
    &&& gone.len() <= BAN_EVICTION_BATCH
    &&& gone.len() < BAN_EVICTION_BATCH ==> forall|a: SocketAddr| #[trigger]
        after.peers.contains_key(a) ==> after.peers[a].ban_until is None
    &&& after == (PeersView {
        peers: after.peers,
        channels: before.channels.remove_keys(gone),
        ..before
    })
}

/// What the check on the number of ban records does: where there are too many, a batch of peers
/// goes, and where that is not enough, as many records as there are beyond the limit, of peers
/// and IP addresses alike, but not `spare`.
pub open spec fn bans_evicted(
    before: PeersView,
    after: PeersView,
    now: Instant,
    spare: BanRecord,
) -> bool {
    if before.ban_records(now) <= MAX_BANNED_RECORDS {
        after == before
    } else {
        exists|mid: PeersView|
            #[trigger] batch_evicted(before, mid) && bans::bans_trimmed(mid, after, now, spare)
    }
}

/// What extending a ban to the peer's IP address does.
pub open spec fn ban_mirrored(before: PeersView, after: PeersView, ip: IpAddr, now: Instant) -> bool {
    exists|ips: Map<IpAddr, Instant>|
        #[trigger] ip_ban_added(before.banned_ips, ips, ip, now) && bans_evicted(
            PeersView { banned_ips: ips, ..before },
            after,
            now,
            BanRecord::Ip(ip),
        )
}

/// The peers after one of them was banned, before its ban is extended to its IP address.
pub open spec fn peer_banned(v: PeersView, addr: SocketAddr, now: Instant) -> PeersView {
    if v.peers.contains_key(addr) {
        v.with_peer(
            addr,
            PeerInfo {
                score: (BAN_SCORE_THRESHOLD - 1) as i32,
                ban_until: Some(ban_end(now)),
                state: PeerState::Banned,
                ..v.peers[addr]
            },
        )
    } else {
        v
    }
}

/// What banning an IP address alone does: where there are too many ban records then, those that
/// end first go.
pub open spec fn ip_banned(before: PeersView, after: PeersView, ip: IpAddr, now: Instant) -> bool {
    exists|ips: Map<IpAddr, Instant>|
        #[trigger] ip_ban_added(before.banned_ips, ips, ip, now) && bans::bans_trimmed(
            PeersView { banned_ips: ips, ..before },
            after,
            now,
            BanRecord::Ip(ip),
        )
}

impl PeersView {
    /// The addresses of the peers that a filter means.
    pub open spec fn select(self, filter: PeerFilter) -> Set<SocketAddr> {
        table::keys_where(self.peers, |p: PeerInfo| filter.holds(p))
    }

    /// How many peers a filter means.
    pub open spec fn count(self, filter: PeerFilter) -> nat {
        self.select(filter).len()
    }

    /// The peer at `addr`, or a new one.
    pub open spec fn peer_or_new(self, addr: SocketAddr, now: Instant) -> PeerInfo {
        if self.peers.contains_key(addr) {
            self.peers[addr]
        } else {
            new_peer(addr, self.limits, now)
        }
    }

    /// The same with `peer` at `addr`.
    pub open spec fn with_peer(self, addr: SocketAddr, peer: PeerInfo) -> PeersView {
        PeersView { peers: self.peers.insert(addr, peer), ..self }
    }

    /// The same without a connection: the channel is dropped, and so is the record of the
    /// peer, unless it is banned.
    pub open spec fn without_connection(self, addr: SocketAddr, now: Instant) -> PeersView {
        let dropped = PeersView { channels: self.channels.remove(addr), ..self };
        if self.peers.contains_key(addr) && self.peers[addr].banned_at(now) {
            dropped.with_peer(
                addr,
                PeerInfo {
                    state: PeerState::Banned,
                    connected_at: None,
                    last_ping_nonce: None,
                    ..self.peers[addr]
                },
            )
        } else {
            PeersView { peers: self.peers.remove(addr), ..dropped }
        }
    }

    /// The ban of an IP address has not ended.
    pub open spec fn ip_banned_at(self, ip: IpAddr, now: Instant) -> bool {
        self.banned_ips.contains_key(ip) && now.nanos < self.banned_ips[ip].nanos
    }

    /// The same without the ban of an IP address, if that has ended.
    pub open spec fn ip_ban_expired(self, ip: IpAddr, now: Instant) -> PeersView {
        if self.ip_banned_at(ip, now) {
            self
        } else {
            PeersView { banned_ips: self.banned_ips.remove(ip), ..self }
        }
    }

    /// The address is tracked and takes up a slot.
    pub open spec fn tracked_active(self, addr: SocketAddr) -> bool {
        self.peers.contains_key(addr) && self.peers[addr].active()
    }

    /// Neither the address nor its IP address is banned, it is not connected yet, and
    /// there is a slot for it.
    pub open spec fn has_slot_for(self, addr: SocketAddr, now: Instant) -> bool {
        &&& !self.ip_banned_at(addr.spec_ip(), now)
        &&& !(self.peers.contains_key(addr) && self.peers[addr].banned_at(now))
        &&& !self.tracked_active(addr)
        &&& self.count(PeerFilter::Active) < MAX_TOTAL_PEERS
        &&& self.count(PeerFilter::ActiveFrom(addr.spec_ip())) < MAX_PER_IP_PEERS
    }

    /// The wait after the last failed dial is over.
    pub open spec fn retry_due(self, addr: SocketAddr, now: Instant) -> bool {
        self.connect_failures.contains_key(addr) ==> now.spec_since(self.connect_failures[addr].1)
            >= backoff(self.connect_failures[addr].0) * NANOS_PER_SEC
    }

    /// Every peer is filed under its own address.
    pub open spec fn wf(self) -> bool {
        forall|a: SocketAddr| #[trigger] self.peers.contains_key(a) ==> self.peers[a].addr == a
    }
}

impl PeerManager {
    /// The tables have distinct keys and every peer is filed under its own address.
    pub open spec fn wf(self) -> bool {
        &&& self.peers.wf()
        &&& self.channels.wf()
        &&& self.banned_ips.wf()
        &&& self.connect_failures.wf()
        &&& self.accept_log.wf()
        &&& self@.wf()
    }

    pub fn new(limits: RateLimits) -> (pm: Self)
        ensures
            pm.wf(),
            pm@ == (PeersView {
                limits,
                peers: Map::empty(),
                channels: Map::empty(),
                banned_ips: Map::empty(),
                connect_failures: Map::empty(),
                accept_log: Map::empty(),
            }),
    {
        PeerManager {
            limits,
            peers: Table::new(),
            channels: Table::new(),
            banned_ips: Table::new(),
            connect_failures: Table::new(),
            accept_log: Table::new(),
        }
    }

    /// How many peers are on record, whatever their state.
    pub fn peer_entry_count(&self) -> (n: usize)
        requires
            self.wf(),
        ensures
            n == self@.peers.dom().len(),
    {
        self.peers.len()
    }

    /// How many IP addresses are on record as banned.
    pub fn ip_ban_count(&self) -> (n: usize)
        requires
            self.wf(),
        ensures
            n == self@.banned_ips.dom().len(),
    {
        self.banned_ips.len()
    }

    /// How many addresses have failed dials on record.
    pub fn connect_failure_count(&self) -> (n: usize)
        requires
            self.wf(),
        ensures
            n == self@.connect_failures.dom().len(),
    {
        self.connect_failures.len()
    }

    pub(crate) fn count(&self, filter: PeerFilter) -> (n: usize)
        requires
            self.wf(),
        ensures
            n == self@.count(filter),
    {
        let ghost p = |p: PeerInfo| filter.holds(p);
        let mut n: usize = 0;
        let mut i: usize = 0;
        while i < self.peers.entries.len()
            invariant
                i <= self.peers.entries@.len(),
                n <= i,
                p == (|p: PeerInfo| filter.holds(p)),
                n == table::count_where(self.peers.entries@.take(i as int), p),
            decreases self.peers.entries.len() - i,
        {
            assert(self.peers.entries@.take(i + 1).drop_last() =~= self.peers.entries@.take(
                i as int,
            ));
            if filter.test(&self.peers.entries[i].1) {
                n += 1;
            }
            i += 1;
        }
        proof {
            assert(self.peers.entries@.take(i as int) =~= self.peers.entries@);
            table::lemma_count(self.peers.entries@, p);
        }
        n
    }

    fn list(&self, filter: PeerFilter) -> (addrs: Vec<SocketAddr>)
        requires
            self.wf(),
        ensures
            table::enumerates(addrs@, self@.select(filter)),
    {
        let mut addrs: Vec<SocketAddr> = Vec::new();
        let mut i: usize = 0;
        while i < self.peers.entries.len()
            invariant
                self.wf(),
                i <= self.peers.entries@.len(),
                addrs@.no_duplicates(),
                forall|j: int|
                    0 <= j < i && filter.holds((#[trigger] self.peers.entries@[j]).1)
                        ==> addrs@.contains(self.peers.entries@[j].0),
                forall|a: SocketAddr| #[trigger]
                    addrs@.contains(a) ==> exists|j: int|
                        0 <= j < i && (#[trigger] self.peers.entries@[j]).0 == a && filter.holds(
                            self.peers.entries@[j].1,
                        ),
            decreases self.peers.entries.len() - i,
        {
            if filter.test(&self.peers.entries[i].1) {
                let ghost was = addrs@;
                let key: SocketAddr = self.peers.entries[i].0;
                addrs.push(key);
                proof {
                    assert(!was.contains(key));
                    assert(addrs@[was.len() as int] == key);
                    assert forall|a: SocketAddr| was.contains(a) implies addrs@.contains(a) by {
                        let j = choose|j: int| 0 <= j < was.len() && was[j] == a;
                        assert(addrs@[j] == a);
                    }
                    assert forall|a: SocketAddr| #[trigger] addrs@.contains(a) implies exists|j: int|
                        0 <= j < i + 1 && (#[trigger] self.peers.entries@[j]).0 == a && filter.holds(
                            self.peers.entries@[j].1,
                        ) by {
                        if a == key {
                            assert(self.peers.entries@[i as int].0 == a);
                        } else {
                            assert(was.contains(a));
                        }
                    }
                }
            }
            i += 1;
        }
        proof {
            let entries = self.peers.entries@;
            assert forall|a: SocketAddr| addrs@.to_set().contains(a) <==> self@.select(filter).contains(
                a,
            ) by {
                if addrs@.contains(a) {
                    let j = choose|j: int|
                        0 <= j < entries.len() && (#[trigger] entries[j]).0 == a && filter.holds(
                            entries[j].1,
                        );
                    table::lemma_at(entries, j);
                }
                if self@.select(filter).contains(a) {
                    let j = table::position(entries, a);
                    table::lemma_at(entries, j);
                    assert(entries[j].0 == a);
                }
            }
            assert(addrs@.to_set() =~= self@.select(filter));
        }
        addrs
    }

    fn list_infos(&self, filter: PeerFilter) -> (infos: Vec<&PeerInfo>)
        requires
            self.wf(),
        ensures
            infos_listed(self@, filter, infos@),
    {
        let mut infos: Vec<&PeerInfo> = Vec::new();
        let mut i: usize = 0;
        let addrs: Vec<SocketAddr> = self.list(filter);
        while i < addrs.len()
            invariant
                self.wf(),
                i <= addrs@.len(),
                table::enumerates(addrs@, self@.select(filter)),
                infos@.len() == i,
                forall|j: int|
                    0 <= j < i ==> *(#[trigger] infos@[j]) == self@.peers[addrs@[j]]
                        && infos@[j].addr == addrs@[j],
            decreases addrs.len() - i,
        {
            assert(addrs@.to_set().contains(addrs@[i as int]));
            if let Some(peer) = self.peers.get(&addrs[i]) {
                infos.push(peer);
            }
            i += 1;
        }
        proof {
            assert(addrs_of(infos@) =~= addrs@);
        }
        infos
    }

    /// Connections that take up a slot.
    pub fn total_count(&self) -> (n: usize)
        requires
            self.wf(),
        ensures
            n == self@.count(PeerFilter::Active),
    {
        self.count(PeerFilter::Active)
    }

    /// Connections that are still shaking hands.
    pub fn handshake_count(&self) -> (n: usize)
        requires
            self.wf(),
        ensures
            n == self@.count(PeerFilter::Handshaking),
    {
        self.count(PeerFilter::Handshaking)
    }

    /// Connections with one IP address that take up a slot.
    pub fn count_by_ip(&self, ip: &IpAddr) -> (n: usize)
        requires
            self.wf(),
        ensures
            n == self@.count(PeerFilter::ActiveFrom(*ip)),
    {
        self.count(PeerFilter::ActiveFrom(*ip))
    }

    /// Whether the address is tracked and takes up a slot.
    pub fn is_tracked_active(&self, addr: &SocketAddr) -> (active: bool)
        requires
            self.wf(),
        ensures
            active == self@.tracked_active(*addr),
    {
        match self.peers.get(addr) {
            Some(p) => p.state != PeerState::Disconnected && p.state != PeerState::Banned,
            None => false,
        }
    }

    /// Puts an address on record, if it is not yet.
    pub fn add_peer(&mut self, addr: SocketAddr, now: Instant)
        requires
            old(self).wf(),
        ensures
            final(self).wf(),
            final(self)@ == old(self)@.with_peer(addr, old(self)@.peer_or_new(addr, now)),
    {
        if !self.peers.contains(&addr) {
            let peer: PeerInfo = PeerInfo::new(addr, self.limits, now);
            self.peers.insert(addr, peer);
        } else {
            assert(self@ =~= self@.with_peer(addr, self@.peers[addr]));
        }
    }

    /// Drops a connection. A banned peer stays on record as banned.
    pub fn remove_peer(&mut self, addr: &SocketAddr, now: Instant)
        requires
            old(self).wf(),
        ensures
            final(self).wf(),
            final(self)@ == old(self)@.without_connection(*addr, now),
    {
        let keep_ban: bool = match self.peers.get(addr) {
            Some(p) => p.is_banned(now),
            None => false,
        };
        self.channels.remove(addr);
        if keep_ban {
            if let Some(peer) = self.peers.get_mut(addr) {
                peer.state = PeerState::Banned;
                peer.connected_at = None;
                peer.last_ping_nonce = None;
            }
        } else {
            self.peers.remove(addr);
        }
    }

    pub fn get_peer(&self, addr: &SocketAddr) -> (peer: Option<&PeerInfo>)
        requires
            self.wf(),
        ensures
            match peer {
                Some(p) => self@.peers.contains_key(*addr) && *p == self@.peers[*addr],
                None => !self@.peers.contains_key(*addr),
            },
    {
        self.peers.get(addr)
    }

    pub fn get_peer_mut(&mut self, addr: &SocketAddr) -> (peer: Option<&mut PeerInfo>)
        requires
            old(self).wf(),
        ensures
            match peer {
                Some(p) => {
                    &&& old(self)@.peers.contains_key(*addr)
                    &&& *p == old(self)@.peers[*addr]
                    &&& final(self)@ == old(self)@.with_peer(*addr, *final(p))
                    &&& final(p).addr == *addr ==> final(self).wf()
                },
                None => {
                    &&& !old(self)@.peers.contains_key(*addr)
                    &&& final(self)@ == old(self)@
                    &&& final(self).wf()
                },
            },
    {
        self.peers.get_mut(addr)
    }

    /// Ready connections.
    pub fn connected_count(&self) -> (n: usize)
        requires
            self.wf(),
        ensures
            n == self@.count(PeerFilter::Ready),
    {
        self.count(PeerFilter::Ready)
    }

    /// Ready peers that are not banned, in no particular order.
    pub fn ready_peers(&self, now: Instant) -> (infos: Vec<&PeerInfo>)
        requires
            self.wf(),
        ensures
            infos_listed(self@, PeerFilter::Usable(now), infos@),
    {
        self.list_infos(PeerFilter::Usable(now))
    }

    /// Peers that are neither disconnected nor banned, in no particular order.
    pub fn connected_peers(&self, now: Instant) -> (infos: Vec<&PeerInfo>)
        requires
            self.wf(),
        ensures
            infos_listed(self@, PeerFilter::Connected(now), infos@),
    {
        self.list_infos(PeerFilter::Connected(now))
    }

    pub fn need_more_peers(&self) -> (need: bool)
        requires
            self.wf(),
        ensures
            need == (self@.count(PeerFilter::Ready) < MAX_OUTBOUND_PEERS),
    {
        self.connected_count() < MAX_OUTBOUND_PEERS
    }

    /// Some usable peer, picked by `pick`; `None` if and only if there is none.
    pub fn random_peer(&self, pick: usize, now: Instant) -> (peer: Option<&PeerInfo>)
        requires
            self.wf(),
        ensures
            match peer {
                Some(p) => self@.select(PeerFilter::Usable(now)).contains(p.addr) && *p
                    == self@.peers[p.addr],
                None => self@.select(PeerFilter::Usable(now)) == Set::<SocketAddr>::empty(),
            },
    {
        let ready: Vec<&PeerInfo> = self.ready_peers(now);
        let ghost addrs = addrs_of(ready@);
        if ready.len() == 0 {
            assert(addrs.to_set() =~= Set::<SocketAddr>::empty());
            return None;
        }
        let idx: usize = pick % ready.len();
        proof {
            assert(addrs[idx as int] == ready@[idx as int].addr);
            assert(addrs.to_set().contains(ready@[idx as int].addr));
        }
        Some(ready[idx])
    }

    pub fn set_channel(&mut self, addr: SocketAddr, tx: mpsc::Sender<Vec<u8>>)
        requires
            old(self).wf(),
        ensures
            final(self).wf(),
            final(self)@ == (PeersView {
                channels: old(self)@.channels.insert(addr, tx),
                ..old(self)@
            }),
    {
        self.channels.insert(addr, tx);
    }

    pub fn get_channel(&self, addr: &SocketAddr) -> (tx: Option<&mpsc::Sender<Vec<u8>>>)
        requires
            self.wf(),
        ensures
            match tx {
                Some(t) => self@.channels.contains_key(*addr) && *t == self@.channels[*addr],
                None => !self@.channels.contains_key(*addr),
            },
    {
        self.channels.get(addr)
    }

    /// Bans a peer and its IP address.
    pub fn ban_peer(&mut self, addr: &SocketAddr, now: Instant)
        requires
            old(self).wf(),
            clock_fits(now),
        ensures
            final(self).wf(),
            ({
                let v = old(self)@;
                let banned = if v.peers.contains_key(*addr) {
                    v.with_peer(
                        *addr,
                        PeerInfo {
                            score: (BAN_SCORE_THRESHOLD - 1) as i32,
                            ban_until: Some(ban_end(now)),
                            state: PeerState::Banned,
                            ..v.peers[*addr]
                        },
                    )
                } else {
                    v
                };
                ban_mirrored(banned, final(self)@, addr.spec_ip(), now)
            }),
            ban_mirrored(peer_banned(old(self)@, *addr, now), final(self)@, addr.spec_ip(), now),
            final(self)@.ban_records(now) <= MAX_BANNED_RECORDS,
    {
        if let Some(peer) = self.peers.get_mut(addr) {
            peer.score = BAN_SCORE_THRESHOLD - 1;
            peer.ban_until = Some(now.plus_secs(BAN_DURATION_SECS));
            peer.state = PeerState::Banned;
        }
        self.mirror_ban(addr.ip(), now);
    }

    /// Bans an IP address and checks the number of ban records.
    fn mirror_ban(&mut self, ip: IpAddr, now: Instant)
        requires
            old(self).wf(),
            clock_fits(now),
        ensures
            final(self).wf(),
            ban_mirrored(old(self)@, final(self)@, ip, now),
            final(self)@.ban_records(now) <= MAX_BANNED_RECORDS,
    {
        let ghost before = self@;
        self.add_ip_ban(ip, now);
        let ghost ips = self@.banned_ips;
        assert(self@ =~= PeersView { banned_ips: ips, ..before });
        self.evict_old_bans_if_needed(now, BanRecord::Ip(ip));
        assert(ip_ban_added(before.banned_ips, ips, ip, now));
    }

    /// Whether the ban of an IP address is live. A ban that has ended is forgotten.
    pub fn is_ip_banned(&mut self, ip: &IpAddr, now: Instant) -> (banned: bool)
        requires
            old(self).wf(),
        ensures
            final(self).wf(),
            banned == old(self)@.ip_banned_at(*ip, now),
            final(self)@ == old(self)@.ip_ban_expired(*ip, now),
    {
        let live: Option<bool> = match self.banned_ips.get(ip) {
            Some(until) => Some(now.nanos < until.nanos),
            None => None,
        };
        match live {
            Some(true) => true,
            Some(false) => {
                self.banned_ips.remove(ip);
                false
            },
            None => {
                assert(self@ =~= self@.ip_ban_expired(*ip, now));
                false
            },
        }
    }

    /// Bans an IP address.
    pub fn ban_ip(&mut self, ip: IpAddr, now: Instant)
        requires
            old(self).wf(),
            clock_fits(now),
        ensures
            final(self).wf(),
            ip_banned(old(self)@, final(self)@, ip, now),
            final(self)@.ban_records(now) <= MAX_BANNED_RECORDS,
    {
        let ghost before = self@;
        self.add_ip_ban(ip, now);
        let ghost ips = self@.banned_ips;
        assert(self@ =~= PeersView { banned_ips: ips, ..before });
        self.trim_bans(now, BanRecord::Ip(ip));
        assert(ip_ban_added(before.banned_ips, ips, ip, now));
    }

    /// Puts the ban of an IP address on record.
    fn add_ip_ban(&mut self, ip: IpAddr, now: Instant)
        requires
            old(self).wf(),
            clock_fits(now),
        ensures
            final(self).wf(),
            ip_ban_added(old(self)@.banned_ips, final(self)@.banned_ips, ip, now),
            final(self)@ == (PeersView { banned_ips: final(self)@.banned_ips, ..old(self)@ }),
    {
        if self.banned_ips.len() >= MAX_BANNED_RECORDS {
            let ghost before = self.banned_ips@;
            let removed: Vec<IpAddr> = self.banned_ips.remove_oldest(1);
            proof {
                let room = self.banned_ips@;
                if removed@.len() == 0 {
                    assert(removed@.to_set() =~= Set::empty());
                    assert(before.dom().difference(room.dom()) =~= Set::empty());
                    let k = before.dom().choose();
                    assert(!before.dom().difference(room.dom()).contains(k));
                    assert(room.contains_key(k));
                    assert(room[k].stamp() is Some);
                }
                assert(table::oldest_removed(before, room, 1));
            }
        }
        self.banned_ips.insert(ip, now.plus_secs(BAN_DURATION_SECS));
    }

    /// Whether an inbound connection is let in. Of the checks only the last one, which is
    /// reached when all others pass, uses up the allowance of the IP address.
    pub fn can_accept_inbound(&mut self, addr: &SocketAddr, now: Instant) -> (admitted: bool)
        requires
            old(self).wf(),
        ensures
            final(self).wf(),
            inbound_checked(old(self)@, final(self)@, *addr, now, admitted),
    {
        let ghost v = self@;
        let ip: IpAddr = addr.ip();
        if self.is_ip_banned(&ip, now) {
            return false;
        }
        assert(self@.select(PeerFilter::Active) == v.select(PeerFilter::Active));
        assert(self@.select(PeerFilter::Handshaking) == v.select(PeerFilter::Handshaking));
        assert(self@.select(PeerFilter::ActiveFrom(ip)) == v.select(PeerFilter::ActiveFrom(ip)));
        if let Some(p) = self.peers.get(addr) {
            if p.is_banned(now) {
                return false;
            }
        }
        if self.is_tracked_active(addr) {
            return false;
        }
        if self.total_count() >= MAX_TOTAL_PEERS {
            return false;
        }
        if self.handshake_count() >= MAX_HANDSHAKE_CONCURRENT {
            return false;
        }
        if self.count_by_ip(&ip) >= MAX_PER_IP_PEERS {
            return false;
        }
        self.check_accept_rate(&ip, now)
    }

    /// Whether an IP address has not used up its burst of accepts in the window. If so,
    /// the accept is logged.
    pub fn check_accept_rate(&mut self, ip: &IpAddr, now: Instant) -> (admitted: bool)
        requires
            old(self).wf(),
        ensures
            final(self).wf(),
            accept_checked(old(self)@.accept_log, final(self)@.accept_log, *ip, now, admitted),
            final(self)@ == (PeersView { accept_log: final(self)@.accept_log, ..old(self)@ }),
    {
        let ghost before = self.accept_log@;
        make_room(&mut self.accept_log, now, 2 * ACCEPT_WINDOW_SECS * NANOS_PER_SEC);
        let ghost room = self.accept_log@;
        let mut log: Vec<Instant> = match self.accept_log.remove(ip) {
            Some(log) => log,
            None => Vec::new(),
        };
        let ghost start = log@;
        let mut skip: usize = 0;
        assert(log@.subrange(0, log@.len() as int) =~= log@);
        while skip < log.len() && now.since(log[skip]) >= ACCEPT_WINDOW_SECS * NANOS_PER_SEC
            invariant
                skip <= log@.len(),
                log@ == start,
                in_window(start, now) == in_window(
                    start.subrange(skip as int, start.len() as int),
                    now,
                ),
            decreases log.len() - skip,
        {
            proof {
                let rest = start.subrange(skip as int, start.len() as int);
                assert(rest.subrange(1, rest.len() as int) =~= start.subrange(
                    skip + 1,
                    start.len() as int,
                ));
            }
            skip += 1;
        }
        let mut kept: Vec<Instant> = log.split_off(skip);
        assert(kept@ == in_window(start, now));
        let admitted: bool = kept.len() < ACCEPT_BURST_PER_IP;
        if admitted {
            kept.push(now);
        }
        self.accept_log.insert(*ip, kept);
        proof {
            assert(self.accept_log@.remove(*ip) =~= room.remove(*ip));
            assert(accept_checked_in(before, room, self.accept_log@, *ip, now, admitted));
        }
        admitted
    }

    /// Whether an address may be dialled.
    pub fn can_dial(&mut self, addr: &SocketAddr, now: Instant) -> (may: bool)
        requires
            old(self).wf(),
        ensures
            final(self).wf(),
            may == (old(self)@.has_slot_for(*addr, now) && old(self)@.retry_due(*addr, now)),
            final(self)@ == old(self)@.ip_ban_expired(addr.spec_ip(), now),
    {
        let ghost v = self@;
        let ip: IpAddr = addr.ip();
        if self.is_ip_banned(&ip, now) {
            return false;
        }
        assert(self@.select(PeerFilter::Active) == v.select(PeerFilter::Active));
        assert(self@.select(PeerFilter::ActiveFrom(ip)) == v.select(PeerFilter::ActiveFrom(ip)));
        if let Some(p) = self.peers.get(addr) {
            if p.is_banned(now) {
                return false;
            }
        }
        if self.is_tracked_active(addr) {
            return false;
        }
        if self.total_count() >= MAX_TOTAL_PEERS {
            return false;
        }
        if self.count_by_ip(&ip) >= MAX_PER_IP_PEERS {
            return false;
        }
        self.can_retry(addr, now)
    }

    /// Records a failed dial: a small cost, one more failure in a row, and the slot is free
    /// again. Failed dials never ban on their own.
    pub fn record_connect_failure(&mut self, addr: &SocketAddr, now: Instant)
        requires
            old(self).wf(),
        ensures
            final(self).wf(),
            dial_failed(old(self)@, final(self)@, *addr, now),
            forall|t: Instant|
                !old(self)@.peer_or_new(*addr, now).banned_at(t) ==> !(
                #[trigger] final(self)@.peers[*addr].banned_at(t)),
    {
        let ghost before = self.connect_failures@;
        make_room(
            &mut self.connect_failures,
            now,
            2 * MAX_RECONNECT_BACKOFF_SECS * NANOS_PER_SEC,
        );
        let ghost room = self.connect_failures@;
        let failures: u32 = match self.connect_failures.get(addr) {
            Some(entry) => entry.0,
            None => 0,
        };
        let more: u32 = if failures < u32::MAX {
            failures + 1
        } else {
            failures
        };
        self.connect_failures.insert(*addr, (more, now));
        assert(failure_recorded_in(before, room, self.connect_failures@, *addr, now));
        self.add_peer(*addr, now);
        let ghost known = self@.peers[*addr];
        if let Some(peer) = self.peers.get_mut(addr) {
            let score: i32 = saturate(peer.score as i64 - SCORE_CONNECT_FAIL as i64);
            peer.score = if peer.score > BAN_SCORE_THRESHOLD && score <= BAN_SCORE_THRESHOLD {
                BAN_SCORE_THRESHOLD + 1
            } else {
                score
            };
            if !peer.is_banned(now) {
                peer.state = PeerState::Disconnected;
            }
        }
        assert(self@.peers =~= old(self)@.peers.insert(*addr, self@.peers[*addr]));
    }

    /// Forgets the failed dials of an address.
    pub fn clear_connect_failures(&mut self, addr: &SocketAddr)
        requires
            old(self).wf(),
        ensures
            final(self).wf(),
            final(self)@ == (PeersView {
                connect_failures: old(self)@.connect_failures.remove(*addr),
                ..old(self)@
            }),
    {
        self.connect_failures.remove(addr);
    }

    /// Seconds to wait after so many failures in a row.
    pub fn backoff_secs(failures: u32) -> (secs: u64)
        ensures
            secs == backoff(failures),
    {
        if failures == 0 {
            return 0;
        }
        let mut secs: u64 = RECONNECT_BASE_SECS;
        let mut n: u32 = 1;
        while n < failures && secs < MAX_RECONNECT_BACKOFF_SECS
            invariant
                1 <= n <= failures,
                secs == doubled_wait(n as nat),
                secs < 2 * MAX_RECONNECT_BACKOFF_SECS,
            decreases failures - n,
        {
            secs = secs * 2;
            n += 1;
        }
        proof {
            lemma_doubled_wait_monotone(n as nat, failures as nat);
        }
        if secs < MAX_RECONNECT_BACKOFF_SECS {
            secs
        } else {
            MAX_RECONNECT_BACKOFF_SECS
        }
    }

    /// Whether the wait after the last failed dial is over.
    pub fn can_retry(&self, addr: &SocketAddr, now: Instant) -> (may: bool)
        requires
            self.wf(),
        ensures
            may == self@.retry_due(*addr, now),
    {
        match self.connect_failures.get(addr) {
            None => true,
            Some(entry) => {
                let wait: u64 = Self::backoff_secs(entry.0);
                now.since(entry.1) >= wait * NANOS_PER_SEC
            },
        }
    }

    /// Scores a failed handshake or a protocol violation. A ban extends to the IP address.
    pub fn note_handshake_failure(&mut self, addr: &SocketAddr, now: Instant)
        requires
            old(self).wf(),
            clock_fits(now),
        ensures
            final(self).wf(),
            struck_and_mirrored(old(self)@, final(self)@, *addr, SCORE_MALFORMED, now),
            old(self)@.peer_or_new(*addr, now).struck(SCORE_MALFORMED, now).banned_at(now) || old(
                self,
            )@.ban_records(now) <= MAX_BANNED_RECORDS ==> final(self)@.ban_records(now)
                <= MAX_BANNED_RECORDS,
    {
        self.note_invalid_object(addr, SCORE_MALFORMED, now);
    }

    /// Scores an invalid object of a peer. A ban extends to the IP address.
    pub fn note_invalid_object(&mut self, addr: &SocketAddr, points: i32, now: Instant)
        requires
            old(self).wf(),
            clock_fits(now),
        ensures
            final(self).wf(),
            struck_and_mirrored(old(self)@, final(self)@, *addr, points, now),
            old(self)@.peer_or_new(*addr, now).struck(points, now).banned_at(now) || old(
                self,
            )@.ban_records(now) <= MAX_BANNED_RECORDS ==> final(self)@.ban_records(now)
                <= MAX_BANNED_RECORDS,
    {
        let ghost v = self@;
        proof {
            bans::lemma_finite(self);
        }
        self.add_peer(*addr, now);
        let banned: bool = match self.peers.get_mut(addr) {
            Some(peer) => {
                peer.score_bad(points, now);
                peer.is_banned(now)
            },
            None => false,
        };
        assert(self@ =~= v.with_peer(*addr, v.peer_or_new(*addr, now).struck(points, now)));
        if banned {
            self.mirror_ban(addr.ip(), now);
        } else {
            proof {
                let struck = v.peer_or_new(*addr, now).struck(points, now);
                bans::unbanned_adds_no_record(v, *addr, struck, now);
            }
        }
    }

    /// Scores a violation of a rate limit, if the peer is on record.
    pub fn note_rate_violation(&mut self, addr: &SocketAddr, now: Instant)
        requires
            old(self).wf(),
            clock_fits(now),
        ensures
            final(self).wf(),
            if old(self)@.peers.contains_key(*addr) {
                struck_in_place(old(self)@, final(self)@, *addr, SCORE_RATE_LIMIT, now)
            } else {
                final(self)@ == old(self)@
            },
            final(self)@.peer_or_new(*addr, now).banned_at(now) || old(self)@.ban_records(now)
                <= MAX_BANNED_RECORDS ==> final(self)@.ban_records(now) <= MAX_BANNED_RECORDS,
    {
        let ghost v = self@;
        proof {
            bans::lemma_finite(self);
        }
        let banned: bool = match self.peers.get_mut(addr) {
            Some(peer) => {
                peer.score_bad(SCORE_RATE_LIMIT, now);
                peer.is_banned(now)
            },
            None => {
                return;
            },
        };
        let ghost struck = v.peers[*addr].struck(SCORE_RATE_LIMIT, now);
        assert(self@ =~= v.with_peer(*addr, struck));
        if banned {
            self.trim_bans(now, BanRecord::Peer(*addr));
        } else {
            proof {
                bans::unbanned_adds_no_record(v, *addr, struck, now);
            }
        }
    }

    fn evict_old_bans_if_needed(&mut self, now: Instant, spare: BanRecord)
        requires
            old(self).wf(),
        ensures
            final(self).wf(),
            bans_evicted(old(self)@, final(self)@, now, spare),
            final(self)@.ban_records(now) <= MAX_BANNED_RECORDS,
    {
        if !self.too_many_bans(now) {
            return;
        }
        let ghost before = self@;
        let gone: Vec<SocketAddr> = self.peers.remove_oldest(BAN_EVICTION_BATCH);
        self.channels.remove_all(&gone);
        proof {
            let set = before.peers.dom().difference(self@.peers.dom());
            assert(gone@.to_set() == set);
            assert(set.len() == gone@.len());
            assert forall|a: SocketAddr| #[trigger] self@.peers.contains_key(a) implies self@.peers[a].addr
                == a by {
                assert(before.peers.contains_key(a));
            }
            assert(self@ =~= PeersView {
                peers: self@.peers,
                channels: before.channels.remove_keys(set),
                ..before
            });
            assert(batch_evicted(before, self@));
        }
        self.trim_bans(now, spare);
    }

    /// Forgets disconnected peers and bans that have ended, but no live ban.
    pub fn prune_disconnected(&mut self, now: Instant)
        requires
            old(self).wf(),
        ensures
            final(self).wf(),
            ({
                let gone = old(self)@.select(PeerFilter::Gone(now));
                final(self)@ == (PeersView {
                    peers: old(self)@.peers.remove_keys(gone),
                    channels: old(self)@.channels.remove_keys(gone),
                    ..old(self)@
                })
            }),
    {
        let addrs: Vec<SocketAddr> = self.list(PeerFilter::Gone(now));
        self.peers.remove_all(&addrs);
        self.channels.remove_all(&addrs);
    }

    /// The addresses of the usable peers, in no particular order.
    pub fn peers_for_announcement(&self, now: Instant) -> (addrs: Vec<SocketAddr>)
        requires
            self.wf(),
        ensures
            table::enumerates(addrs@, self@.select(PeerFilter::Usable(now))),
    {
        self.list(PeerFilter::Usable(now))
    }

    /// Moves all scores by `amount` toward zero.
    pub fn decay_all_scores(&mut self, amount: i32, now: Instant)
        requires
            old(self).wf(),
        ensures
            final(self).wf(),
            final(self)@ == (PeersView {
                peers: old(self)@.peers.map_values(|p: PeerInfo| p.decayed(amount, now)),
                ..old(self)@
            }),
    {
        let ghost before = self.peers.entries@;
        let mut i: usize = 0;
        while i < self.peers.entries.len()
            invariant
                i <= self.peers.entries@.len(),
                self.peers.entries@.len() == before.len(),
                forall|j: int|
                    0 <= j < i ==> (#[trigger] self.peers.entries@[j]) == (
                        before[j].0,
                        before[j].1.decayed(amount, now),
                    ),
                forall|j: int| i <= j < before.len() ==> (#[trigger] self.peers.entries@[j]) == before[j],
                self.limits == old(self).limits,
                self.channels == old(self).channels,
                self.banned_ips == old(self).banned_ips,
                self.connect_failures == old(self).connect_failures,
                self.accept_log == old(self).accept_log,
            decreases self.peers.entries.len() - i,
        {
            let mut entry: (SocketAddr, PeerInfo) = self.peers.entries[i];
            entry.1.score_decay(amount, now);
            self.peers.entries[i] = entry;
            i += 1;
        }
        proof {
            let after = self.peers.entries@;
            assert(table::distinct(after));
            let decayed = table::as_map(before).map_values(|p: PeerInfo| p.decayed(amount, now));
            assert forall|a: SocketAddr| self.peers@.contains_key(a) <==> decayed.contains_key(a) by {
                if self.peers@.contains_key(a) {
                    let j = table::position(after, a);
                    assert(before[j].0 == a);
                }
                if decayed.contains_key(a) {
                    let j = table::position(before, a);
                    assert(after[j].0 == a);
                }
            }
            assert forall|a: SocketAddr| self.peers@.contains_key(a) implies self.peers@[a]
                == decayed[a] by {
                let j = table::position(after, a);
                table::lemma_at(after, j);
                table::lemma_at(before, j);
            }
            assert(self.peers@ =~= decayed);
            assert forall|a: SocketAddr| #[trigger] self@.peers.contains_key(a) implies self@.peers[a].addr
                == a by {
                assert(old(self)@.peers.contains_key(a));
            }
        }
    }

    /// Usable peers that were silent for more than `idle_for` nanoseconds.
    pub fn idle_peers(&self, idle_for: u64, now: Instant) -> (addrs: Vec<SocketAddr>)
        requires
            self.wf(),
        ensures
            table::enumerates(addrs@, self@.select(PeerFilter::Idle(now, idle_for))),
    {
        self.list(PeerFilter::Idle(now, idle_for))
    }
}

/// The addresses in a list of peers.
pub open spec fn addrs_of(infos: Seq<&PeerInfo>) -> Seq<SocketAddr> {
    infos.map_values(|p: &PeerInfo| p.addr)
}

/// The list holds each peer that the filter means once, and nothing else.
pub open spec fn infos_listed(v: PeersView, filter: PeerFilter, infos: Seq<&PeerInfo>) -> bool {
    &&& table::enumerates(addrs_of(infos), v.select(filter))
    &&& forall|i: int| 0 <= i < infos.len() ==> *(#[trigger] infos[i]) == v.peers[infos[i].addr]
}

/// What the admission of inbound connections does and answers.
pub open spec fn inbound_checked(
    before: PeersView,
    after: PeersView,
    addr: SocketAddr,
    now: Instant,
    admitted: bool,
) -> bool {
    let expired = before.ip_ban_expired(addr.spec_ip(), now);
    if before.has_slot_for(addr, now) && before.count(PeerFilter::Handshaking)
        < MAX_HANDSHAKE_CONCURRENT {
        &&& accept_checked(expired.accept_log, after.accept_log, addr.spec_ip(), now, admitted)
        &&& after == (PeersView { accept_log: after.accept_log, ..expired })
    } else {
        !admitted && after == expired
    }
}

/// What a failed dial does: it is recorded, costs a little, and leaves no slot taken.
pub open spec fn dial_failed(
    before: PeersView,
    after: PeersView,
    addr: SocketAddr,
    now: Instant,
) -> bool {
    &&& failure_recorded(before.connect_failures, after.connect_failures, addr, now)
    &&& after == (PeersView { connect_failures: after.connect_failures, ..before }).with_peer(
        addr,
        before.peer_or_new(addr, now).undialled(now),
    )
}

/// What a failed dial does to the record of failed dials.
pub open spec fn failure_recorded(
    before: Map<SocketAddr, (u32, Instant)>,
    after: Map<SocketAddr, (u32, Instant)>,
    addr: SocketAddr,
    now: Instant,
) -> bool {
    exists|room: Map<SocketAddr, (u32, Instant)>| #[trigger]
        failure_recorded_in(before, room, after, addr, now)
}

/// The same with the records after room was made.
pub open spec fn failure_recorded_in(
    before: Map<SocketAddr, (u32, Instant)>,
    room: Map<SocketAddr, (u32, Instant)>,
    after: Map<SocketAddr, (u32, Instant)>,
    addr: SocketAddr,
    now: Instant,
) -> bool {
    let failures = if room.contains_key(addr) {
        room[addr].0
    } else {
        0
    };
    &&& room_made(before, room, now, 2 * MAX_RECONNECT_BACKOFF_SECS * NANOS_PER_SEC)
    &&& after == room.insert(
        addr,
        (
            if failures < u32::MAX {
                (failures + 1) as u32
            } else {
                failures
            },
            now,
        ),
    )
}

/// What a strike against a peer does: its score goes down, and where that bans it, its IP
/// address is banned too.
pub open spec fn struck_and_mirrored(
    before: PeersView,
    after: PeersView,
    addr: SocketAddr,
    points: i32,
    now: Instant,
) -> bool {
    let struck = before.peer_or_new(addr, now).struck(points, now);
    let scored = before.with_peer(addr, struck);
    if struck.banned_at(now) {
        ban_mirrored(scored, after, addr.spec_ip(), now)
    } else {
        after == scored
    }
}

/// What a strike against a peer on record does that stays its own: its score goes down, and where
/// that bans it and there are too many ban records then, those that end first go.
pub open spec fn struck_in_place(
    before: PeersView,
    after: PeersView,
    addr: SocketAddr,
    points: i32,
    now: Instant,
) -> bool {
    let struck = before.peers[addr].struck(points, now);
    let scored = before.with_peer(addr, struck);
    if struck.banned_at(now) {
        bans::bans_trimmed(scored, after, now, BanRecord::Peer(addr))
    } else {
        after == scored
    }
}

proof fn lemma_doubled_wait_monotone(a: nat, b: nat)
    requires
        1 <= a <= b,
    ensures
        doubled_wait(a) <= doubled_wait(b),
    decreases b - a,
{
    if a < b {
        lemma_doubled_wait_monotone(a, (b - 1) as nat);
    }
}

/// Makes room for one more record: see `room_made`.
fn make_room<K: Key, V: Stamped>(records: &mut Table<K, V>, now: Instant, age: u64)
    requires
        old(records).wf(),
    ensures
        final(records).wf(),
        room_made(old(records)@, final(records)@, now, age as int),
{
    if records.len() < MAX_TRACKED_ADDRS {
        return;
    }
    records.retain_younger(now, age);
    let n: usize = records.len();
    let ghost young = records@;
    if n >= MAX_TRACKED_ADDRS {
        let removed: Vec<K> = records.remove_oldest(n - MAX_TRACKED_ADDRS + 1);
        proof {
            let want = n - MAX_TRACKED_ADDRS + 1;
            if removed@.len() < want {
                let left = records@;
                vstd::set_lib::lemma_len_subset(left.dom(), young.dom());
                if left.dom().len() > 0 {
                    let k = left.dom().choose();
                    assert(left.contains_key(k));
                    assert(young.contains_key(k) && young[k].stamp() is Some);
                } else {
                    assert(left.dom() =~= Set::empty());
                    assert(young.dom().difference(left.dom()) =~= young.dom());
                }
            }
        }
    }
}

} // verus!
