//! Peers, their scores and bans, and the admission of connections.

use chroma_p2p::addr::{IpAddr, SocketAddr};
use chroma_p2p::peer::{
    PeerInfo, PeerManager, PeerState, RateLimiter, RateLimits, ACCEPT_BURST_PER_IP,
    ACCEPT_WINDOW_SECS, BAN_DURATION_SECS, BAN_SCORE_THRESHOLD, IDLE_EVICT_SECS, MAX_BANNED_RECORDS,
    MAX_HANDSHAKE_CONCURRENT, MAX_OUTBOUND_PEERS, MAX_PER_IP_PEERS, MAX_TOTAL_PEERS,
    MAX_TRACKED_ADDRS, SCORE_INVALID_BLOCK, SCORE_INVALID_TX,
};
use chroma_p2p::time::{Instant, NANOS_PER_SEC};

const LIMITS: RateLimits = RateLimits { messages: 100, transactions: 10 };

const NOW: Instant = Instant { nanos: 1_000_000 * NANOS_PER_SEC };

fn ago(secs: u64) -> Instant {
    Instant { nanos: NOW.nanos - secs * NANOS_PER_SEC }
}

fn later(secs: u64) -> Instant {
    Instant { nanos: NOW.nanos + secs * NANOS_PER_SEC }
}

fn test_addr(n: u16) -> SocketAddr {
    SocketAddr::v4(127, 0, 0, 1, n)
}

#[test]
fn test_add_and_get_peer() {
    let mut pm = PeerManager::new(LIMITS);
    let addr = test_addr(8333);
    pm.add_peer(addr, NOW);
    assert!(pm.get_peer(&addr).is_some());
}

#[test]
fn test_remove_peer() {
    let mut pm = PeerManager::new(LIMITS);
    let addr = test_addr(8333);
    pm.add_peer(addr, NOW);
    pm.remove_peer(&addr, NOW);
    assert!(pm.get_peer(&addr).is_none());
}

#[test]
fn test_connected_count() {
    let mut pm = PeerManager::new(LIMITS);
    let a1 = test_addr(8333);
    let a2 = test_addr(8334);
    pm.add_peer(a1, NOW);
    pm.add_peer(a2, NOW);
    assert_eq!(pm.connected_count(), 0);

    pm.get_peer_mut(&a1).unwrap().state = PeerState::Ready;
    assert_eq!(pm.connected_count(), 1);
}

#[test]
fn test_need_more_peers() {
    let mut pm = PeerManager::new(LIMITS);
    assert!(pm.need_more_peers());

    for i in 0..MAX_OUTBOUND_PEERS {
        let addr = test_addr((8333 + i) as u16);
        pm.add_peer(addr, NOW);
        pm.get_peer_mut(&addr).unwrap().state = PeerState::Ready;
    }
    assert!(!pm.need_more_peers());
}

#[test]
fn test_peer_scoring() {
    let mut pm = PeerManager::new(LIMITS);
    let addr = test_addr(8333);
    pm.add_peer(addr, NOW);

    for _ in 0..5 {
        pm.get_peer_mut(&addr).unwrap().score_tick();
    }
    assert_eq!(pm.get_peer(&addr).unwrap().score, 5);

    pm.get_peer_mut(&addr).unwrap().score_bad(210, NOW);
    assert!(pm.get_peer(&addr).unwrap().is_banned(NOW));
}

#[test]
fn test_ban_peer() {
    let mut pm = PeerManager::new(LIMITS);
    let addr = test_addr(8333);
    pm.add_peer(addr, NOW);
    pm.ban_peer(&addr, NOW);
    assert!(pm.get_peer(&addr).unwrap().is_banned(NOW));
    assert_eq!(pm.get_peer(&addr).unwrap().state, PeerState::Banned);
}

#[test]
fn test_peer_info_new() {
    let addr = test_addr(9000);
    let info = PeerInfo::new(addr, LIMITS, NOW);
    assert_eq!(info.addr, addr);
    assert_eq!(info.state, PeerState::Disconnected);
    assert_eq!(info.score, 0);
    assert!(!info.is_banned(NOW));
}

#[test]
fn test_prune_disconnected() {
    let mut pm = PeerManager::new(LIMITS);
    let a1 = test_addr(8333);
    let a2 = test_addr(8334);
    pm.add_peer(a1, NOW);
    pm.add_peer(a2, NOW);
    pm.get_peer_mut(&a1).unwrap().state = PeerState::Ready;
    pm.prune_disconnected(NOW);
    assert!(pm.get_peer(&a1).is_some());
    assert!(pm.get_peer(&a2).is_none());
}

#[test]
fn test_ready_peers() {
    let mut pm = PeerManager::new(LIMITS);
    let a1 = test_addr(8333);
    let a2 = test_addr(8334);
    let a3 = test_addr(8335);
    pm.add_peer(a1, NOW);
    pm.add_peer(a2, NOW);
    pm.add_peer(a3, NOW);
    pm.get_peer_mut(&a1).unwrap().state = PeerState::Ready;
    pm.get_peer_mut(&a2).unwrap().state = PeerState::Connected;
    pm.ban_peer(&a3, NOW);

    let ready = pm.ready_peers(NOW);
    assert_eq!(ready.len(), 1);
    assert_eq!(ready[0].addr, a1);
}

// Rate Limiter Tests

#[test]
fn test_rate_limiter_allows_burst() {
    let mut limiter = RateLimiter::new(100, NOW);
    // Should allow the full burst (100 tokens)
    for _ in 0..100 {
        assert!(limiter.try_consume(NOW));
    }
    // 101st should fail
    assert!(!limiter.try_consume(NOW));
}

#[test]
fn test_rate_limiter_refills() {
    let mut limiter = RateLimiter::new(100, NOW);
    // Consume all tokens
    for _ in 0..100 {
        limiter.try_consume(NOW);
    }
    assert!(!limiter.try_consume(NOW));
    // Simulate time passing (1 second)
    limiter.last_refill = ago(1);
    assert!(limiter.try_consume(NOW));
}

#[test]
fn test_peer_rate_limit_enforced() {
    let mut pm = PeerManager::new(LIMITS);
    let addr = test_addr(8333);
    pm.add_peer(addr, NOW);
    pm.get_peer_mut(&addr).unwrap().state = PeerState::Ready;

    // Consume all message tokens
    let peer = pm.get_peer_mut(&addr).unwrap();
    for _ in 0..LIMITS.messages {
        assert!(peer.check_msg_rate(NOW));
    }
    assert!(!peer.check_msg_rate(NOW));
}

#[test]
fn test_peer_tx_rate_limit_separate() {
    let mut pm = PeerManager::new(LIMITS);
    let addr = test_addr(8333);
    pm.add_peer(addr, NOW);

    let peer = pm.get_peer_mut(&addr).unwrap();
    // Consume all tx tokens
    for _ in 0..LIMITS.transactions {
        assert!(peer.check_tx_rate(NOW));
    }
    assert!(!peer.check_tx_rate(NOW));
    // Message rate still works (separate limiter)
    assert!(peer.check_msg_rate(NOW));
}

// Connection Limit Tests (adversarial)

fn test_ip(n: u8) -> IpAddr {
    SocketAddr::v4(10, 0, 0, n, 0).ip()
}

fn test_sock(ip: IpAddr, port: u16) -> SocketAddr {
    match ip {
        IpAddr::V4(ip) => SocketAddr::V4 { ip, port },
        IpAddr::V6(ip) => SocketAddr::V6 { ip, port, flowinfo: 0, scope_id: 0 },
    }
}

fn ready_peer(pm: &mut PeerManager, addr: SocketAddr) {
    pm.add_peer(addr, NOW);
    let peer = pm.get_peer_mut(&addr).unwrap();
    peer.state = PeerState::Ready;
    peer.last_seen = Some(NOW);
}

#[test]
fn test_total_count_ignores_terminal_states() {
    let mut pm = PeerManager::new(LIMITS);
    let a1 = test_addr(8333);
    let a2 = test_addr(8334);
    pm.add_peer(a1, NOW);
    pm.add_peer(a2, NOW);
    // Both Disconnected → not counted.
    assert_eq!(pm.total_count(), 0);
    pm.get_peer_mut(&a1).unwrap().state = PeerState::Handshaking;
    pm.get_peer_mut(&a2).unwrap().state = PeerState::Ready;
    assert_eq!(pm.total_count(), 2);
    // Handshake states count toward the cap (flood resistance).
    assert_eq!(pm.handshake_count(), 1);
}

#[test]
fn test_count_by_ip_keyed_by_ip_not_port() {
    let mut pm = PeerManager::new(LIMITS);
    let ip = test_ip(7);
    for port in [8333u16, 8334, 8335] {
        let addr = test_sock(ip, port);
        pm.add_peer(addr, NOW);
        pm.get_peer_mut(&addr).unwrap().state = PeerState::Ready;
    }
    // Same IP, three source ports → counted together.
    assert_eq!(pm.count_by_ip(&ip), 3);
    assert_eq!(pm.count_by_ip(&test_ip(8)), 0);
}

#[test]
fn test_accept_rejects_duplicate_active() {
    let mut pm = PeerManager::new(LIMITS);
    let addr = test_addr(8333);
    pm.add_peer(addr, NOW);
    pm.get_peer_mut(&addr).unwrap().state = PeerState::Connecting;
    assert!(!pm.can_accept_inbound(&addr, NOW));
    assert!(!pm.can_dial(&addr, NOW));
}

#[test]
fn test_accept_enforces_total_cap() {
    let mut pm = PeerManager::new(LIMITS);
    // Fill every slot with distinct IPs (avoids the per-IP cap).
    for i in 0..MAX_TOTAL_PEERS {
        let addr = test_sock(test_ip(i as u8 + 1), 10000 + i as u16);
        pm.add_peer(addr, NOW);
        pm.get_peer_mut(&addr).unwrap().state = PeerState::Ready;
    }
    assert_eq!(pm.total_count(), MAX_TOTAL_PEERS);
    let extra = test_sock(test_ip(200), 9999);
    assert!(!pm.can_accept_inbound(&extra, NOW));
    assert!(!pm.can_dial(&extra, NOW));
}

#[test]
fn test_accept_enforces_per_ip_cap() {
    let mut pm = PeerManager::new(LIMITS);
    let ip = test_ip(9);
    for port in 0..MAX_PER_IP_PEERS {
        let addr = test_sock(ip, 9000 + port as u16);
        assert!(pm.can_accept_inbound(&addr, NOW), "slot {} should admit", port);
        pm.add_peer(addr, NOW);
        pm.get_peer_mut(&addr).unwrap().state = PeerState::Ready;
    }
    // One IP cannot take a fourth slot by rotating source ports.
    let fourth = test_sock(ip, 9999);
    assert!(!pm.can_accept_inbound(&fourth, NOW));
    assert!(!pm.can_dial(&fourth, NOW));
    // A different IP is unaffected.
    assert!(pm.can_accept_inbound(&test_sock(test_ip(10), 9999), NOW));
}

#[test]
fn test_accept_enforces_handshake_cap() {
    let mut pm = PeerManager::new(LIMITS);
    for i in 0..MAX_HANDSHAKE_CONCURRENT {
        let addr = test_sock(test_ip(20 + i as u8), 9000 + i as u16);
        pm.add_peer(addr, NOW);
        pm.get_peer_mut(&addr).unwrap().state = PeerState::Handshaking;
    }
    assert_eq!(pm.handshake_count(), MAX_HANDSHAKE_CONCURRENT);
    let extra = test_sock(test_ip(100), 9999);
    assert!(!pm.can_accept_inbound(&extra, NOW));
}

// Scoring / Ban Tests (adversarial)

#[test]
fn test_scoring_tiers_reach_ban_deterministically() {
    // Malformed (20): ten strikes ban (200/20).
    let mut pm = PeerManager::new(LIMITS);
    let addr = test_addr(8333);
    for _ in 0..9 {
        pm.note_handshake_failure(&addr, NOW);
        assert!(!pm.get_peer(&addr).unwrap().is_banned(NOW));
    }
    pm.note_handshake_failure(&addr, NOW);
    assert!(pm.get_peer(&addr).unwrap().is_banned(NOW));

    // Invalid tx (50): four strikes ban.
    let mut pm = PeerManager::new(LIMITS);
    let addr = test_addr(8334);
    for _ in 0..4 {
        pm.note_invalid_object(&addr, SCORE_INVALID_TX, NOW);
    }
    assert!(pm.get_peer(&addr).unwrap().is_banned(NOW));

    // Invalid block (100): two strikes ban.
    let mut pm = PeerManager::new(LIMITS);
    let addr = test_addr(8335);
    for _ in 0..2 {
        pm.note_invalid_object(&addr, SCORE_INVALID_BLOCK, NOW);
    }
    assert!(pm.get_peer(&addr).unwrap().is_banned(NOW));

    // Ordinary connect failures (5) never ban on their own.
    let mut pm = PeerManager::new(LIMITS);
    let addr = test_addr(8336);
    for _ in 0..10 {
        pm.record_connect_failure(&addr, NOW);
    }
    assert!(!pm.get_peer(&addr).unwrap().is_banned(NOW));
}

#[test]
fn failed_dials_never_ban_on_their_own() {
    let mut pm = PeerManager::new(LIMITS);
    let addr = test_addr(8336);
    for _ in 0..40 {
        pm.record_connect_failure(&addr, NOW);
    }
    let peer = pm.get_peer(&addr).unwrap();
    assert!(!peer.is_banned(NOW));
    assert_eq!(peer.state, PeerState::Disconnected);
    assert_eq!(peer.score, BAN_SCORE_THRESHOLD + 1);
    assert_eq!(pm.connect_failure_count(), 1);
    assert_eq!(pm.ip_ban_count(), 0);
    assert!(!pm.can_dial(&addr, NOW));
    // Once the wait is over the peer is dialled again.
    assert!(pm.can_dial(&addr, later(300)));
    // A score that bans already goes on falling.
    pm.ban_peer(&addr, NOW);
    pm.record_connect_failure(&addr, NOW);
    assert_eq!(pm.get_peer(&addr).unwrap().score, BAN_SCORE_THRESHOLD - 6);
    assert_eq!(pm.get_peer(&addr).unwrap().state, PeerState::Banned);
}

#[test]
fn test_ip_ban_blocks_port_rotation() {
    let mut pm = PeerManager::new(LIMITS);
    let ip = test_ip(30);
    let first = test_sock(ip, 8333);
    // Ban via repeated handshake failures.
    for _ in 0..10 {
        pm.note_handshake_failure(&first, NOW);
    }
    assert!(pm.get_peer(&first).unwrap().is_banned(NOW));
    // Same IP, fresh source port: still rejected (bypass resistance).
    let rotated = test_sock(ip, 4444);
    assert!(!pm.can_accept_inbound(&rotated, NOW));
    assert!(!pm.can_dial(&rotated, NOW));
    // Unrelated IP unaffected.
    assert!(pm.can_accept_inbound(&test_sock(test_ip(31), 4444), NOW));
}

#[test]
fn test_remove_peer_preserves_live_bans() {
    let mut pm = PeerManager::new(LIMITS);
    let addr = test_addr(8333);
    pm.add_peer(addr, NOW);
    pm.ban_peer(&addr, NOW);
    // Disconnect cleanup must not erase the ban record.
    pm.remove_peer(&addr, NOW);
    assert!(pm.get_peer(&addr).is_some());
    assert!(pm.get_peer(&addr).unwrap().is_banned(NOW));
    assert!(!pm.can_accept_inbound(&addr, NOW));
    // Channels are always dropped.
    assert!(pm.get_channel(&addr).is_none());
}

#[test]
fn test_prune_keeps_live_bans_drops_clean() {
    let mut pm = PeerManager::new(LIMITS);
    let banned = test_addr(8333);
    let clean = test_addr(8334);
    pm.add_peer(banned, NOW);
    pm.add_peer(clean, NOW);
    pm.ban_peer(&banned, NOW);
    pm.get_peer_mut(&banned).unwrap().state = PeerState::Disconnected;
    pm.prune_disconnected(NOW);
    assert!(pm.get_peer(&banned).is_some());
    assert!(pm.get_peer(&clean).is_none());
}

#[test]
fn prune_reaps_bans_that_have_ended() {
    let mut pm = PeerManager::new(LIMITS);
    let ended = test_addr(8333);
    let low = test_addr(8334);
    for addr in [ended, low] {
        pm.add_peer(addr, NOW);
        pm.ban_peer(&addr, NOW);
    }
    pm.get_peer_mut(&ended).unwrap().score = 0;
    pm.prune_disconnected(NOW);
    assert_eq!(pm.peer_entry_count(), 2);
    let end = later(BAN_DURATION_SECS);
    pm.prune_disconnected(end);
    // The score of the other still bans it.
    assert!(pm.get_peer(&ended).is_none());
    assert!(pm.get_peer(&low).unwrap().is_banned(end));
}

// Backoff / Idle / Concurrency Tests (adversarial)

#[test]
fn test_backoff_secs_doubles_to_cap() {
    assert_eq!(PeerManager::backoff_secs(0), 0);
    assert_eq!(PeerManager::backoff_secs(1), 5);
    assert_eq!(PeerManager::backoff_secs(2), 10);
    assert_eq!(PeerManager::backoff_secs(3), 20);
    assert_eq!(PeerManager::backoff_secs(4), 40);
    assert_eq!(PeerManager::backoff_secs(7), 300);
    assert_eq!(PeerManager::backoff_secs(100), 300);
    assert_eq!(PeerManager::backoff_secs(u32::MAX), 300);
}

#[test]
fn test_can_retry_gates_reconnect() {
    let mut pm = PeerManager::new(LIMITS);
    let addr = test_addr(8333);
    // No history: free to dial.
    assert!(pm.can_retry(&addr, NOW));
    pm.record_connect_failure(&addr, NOW);
    // Immediate retry refused (5s backoff).
    assert!(!pm.can_retry(&addr, NOW));
    assert!(!pm.can_dial(&addr, NOW));
    // Failure in the past beyond backoff: allowed again.
    pm.connect_failures
        .insert(addr, (1, ago(6)));
    assert!(pm.can_retry(&addr, NOW));
    // Success clears history.
    pm.clear_connect_failures(&addr);
    assert!(pm.can_retry(&addr, NOW));
}

#[test]
fn test_idle_peers_lists_only_stale_ready() {
    let mut pm = PeerManager::new(LIMITS);
    let stale = test_addr(8333);
    let fresh = test_addr(8334);
    let handshaking = test_addr(8335);
    ready_peer(&mut pm, stale);
    ready_peer(&mut pm, fresh);
    pm.add_peer(handshaking, NOW);
    pm.get_peer_mut(&handshaking).unwrap().state = PeerState::Handshaking;
    // Age only one peer past the eviction horizon.
    pm.get_peer_mut(&stale).unwrap().last_seen =
        Some(ago(IDLE_EVICT_SECS + 1));
    let idle = pm.idle_peers(IDLE_EVICT_SECS * NANOS_PER_SEC, NOW);
    assert_eq!(idle, vec![stale]);
}

#[test]
fn test_accept_rate_burst_then_rejects() {
    let mut pm = PeerManager::new(LIMITS);
    let ip = test_ip(50);
    let now = NOW;
    for _ in 0..ACCEPT_BURST_PER_IP {
        assert!(pm.check_accept_rate(&ip, now));
    }
    // Burst exhausted within the window.
    assert!(!pm.check_accept_rate(&ip, now));
    // Other IPs unaffected.
    assert!(pm.check_accept_rate(&test_ip(51), now));
}

#[test]
fn test_accept_rate_refills_after_window() {
    let mut pm = PeerManager::new(LIMITS);
    let ip = test_ip(52);
    let then = ago(ACCEPT_WINDOW_SECS + 1);
    for _ in 0..ACCEPT_BURST_PER_IP {
        assert!(pm.check_accept_rate(&ip, then));
    }
    // Old entries aged out of the window: budget restored.
    assert!(pm.check_accept_rate(&ip, NOW));
}

#[test]
fn test_accept_log_bounded_under_ip_rotation() {
    let mut pm = PeerManager::new(LIMITS);
    let now = NOW;
    // Far more distinct IPs than the cap: map must stay bounded and
    // the newest IP must still be admittable.
    for i in 0..(MAX_TRACKED_ADDRS + 100) {
        let ip = SocketAddr::v4(10, (i >> 8) as u8, (i & 0xFF) as u8, 1, 0).ip();
        assert!(pm.check_accept_rate(&ip, now));
    }
    assert!(pm.accept_log.len() <= MAX_TRACKED_ADDRS);
}

#[test]
fn test_connect_failures_bounded() {
    let mut pm = PeerManager::new(LIMITS);
    // Fill with stale records, then one fresh failure must prune.
    for i in 0..(MAX_TRACKED_ADDRS + 10) {
        let addr = test_sock(
            SocketAddr::v4(10, (i >> 8) as u8, (i & 0xFF) as u8, 2, 0).ip(),
            8333,
        );
        pm.record_connect_failure(&addr, NOW);
        // Backdate everything so the next insert reaps.
        if let Some(entry) = pm.connect_failures.get_mut(&addr) {
            entry.1 = ago(3600);
        }
    }
    let fresh = test_sock(test_ip(60), 8333);
    pm.record_connect_failure(&fresh, NOW);
    assert!(pm.connect_failure_count() <= MAX_TRACKED_ADDRS);
    // Fresh record survived pruning.
    assert!(pm.connect_failures.contains(&fresh));
}

#[test]
fn test_observability_getters() {
    let mut pm = PeerManager::new(LIMITS);
    assert_eq!(pm.peer_entry_count(), 0);
    assert_eq!(pm.ip_ban_count(), 0);
    assert_eq!(pm.connect_failure_count(), 0);
    let addr = test_addr(8333);
    pm.add_peer(addr, NOW);
    pm.ban_peer(&addr, NOW);
    pm.record_connect_failure(&test_addr(8334), NOW);
    assert_eq!(pm.peer_entry_count(), 2);
    assert_eq!(pm.ip_ban_count(), 1);
    assert_eq!(pm.connect_failure_count(), 1);
}

#[test]
fn test_concurrent_gate_act_check_stays_capped() {
    // Racing acceptors check and reserve under one lock, so every
    // interleaving is a sequence of these steps. The final state must respect
    // the per-IP cap no matter the order.
    let orders: [fn(u16, u16) -> (u16, u16); 3] =
        [|i, j| (i, j), |i, j| ((i + j) % 8, j), |i, j| (7 - i, 3 - j)];
    for order in orders {
        let mut pm = PeerManager::new(LIMITS);
        let ip = test_ip(40);
        for i in 0..8u16 {
            for j in 0..4u16 {
                let (t, p) = order(i, j);
                let addr = test_sock(ip, 9000 + t * 4 + p);
                if pm.can_accept_inbound(&addr, NOW) {
                    pm.add_peer(addr, NOW);
                    pm.get_peer_mut(&addr).unwrap().state = PeerState::Ready;
                }
            }
        }
        assert!(pm.count_by_ip(&ip) <= MAX_PER_IP_PEERS);
        assert!(pm.total_count() <= MAX_TOTAL_PEERS);
    }
}

#[test]
fn test_disconnect_cycles_leave_no_entries() {
    // Long-run churn shape: hundreds of connect/disconnect cycles from
    // rotating source ports must not accumulate peer entries, channels,
    // or handshake slots. Non-banned disconnects are removed outright.
    let mut pm = PeerManager::new(LIMITS);
    for i in 0..500u16 {
        let addr = test_addr(20000 + i);
        pm.add_peer(addr, NOW);
        pm.get_peer_mut(&addr).unwrap().state = PeerState::Ready;
        pm.remove_peer(&addr, NOW);
        assert!(pm.get_peer(&addr).is_none());
    }
    assert_eq!(pm.peer_entry_count(), 0);
    assert_eq!(pm.total_count(), 0);
    assert_eq!(pm.handshake_count(), 0);
}

#[test]
fn test_subthreshold_scores_never_ban_across_addrs() {
    // Scoring is per-SocketAddr: one invalid tx (-50) per connection from
    // rotating ports never reaches the -200 threshold, so no peer ban and
    // no IP ban may result. This pins the exact threshold semantics: bans
    // require sustained abuse WITHIN one connection (proven by the ban
    // e2e), while caps/rate-limits contain the sub-threshold case.
    let mut pm = PeerManager::new(LIMITS);
    for i in 0..20u16 {
        pm.note_invalid_object(&test_addr(30000 + i), SCORE_INVALID_TX, NOW);
    }
    assert_eq!(
        pm.ip_ban_count(),
        0,
        "rotating ports must not trigger IP ban"
    );
    assert!(
        pm.peers.entries.iter().all(|e| !e.1.is_banned(NOW)),
        "no single -50 strike may ban"
    );
    // Same offender, one connection, four strikes: banned + IP mirrored.
    let addr = test_addr(31000);
    for _ in 0..4 {
        pm.note_invalid_object(&addr, SCORE_INVALID_TX, NOW);
    }
    assert!(pm.get_peer(&addr).unwrap().is_banned(NOW));
    assert_eq!(pm.ip_ban_count(), 1);
    // Redialling: new ports from the banned IP are refused everywhere.
    assert!(!pm.can_accept_inbound(&test_addr(31001), NOW));
    assert!(!pm.can_dial(&test_addr(31001), NOW));
}

#[test]
fn bucket_refills_at_its_rate() {
    let mut limiter = RateLimiter::new(4, NOW);
    for _ in 0..4 {
        assert!(limiter.try_consume(NOW));
    }
    let almost = Instant { nanos: NOW.nanos + 249_999_999 };
    assert!(!limiter.try_consume(almost));
    let quarter = Instant { nanos: NOW.nanos + 250_000_000 };
    assert!(limiter.try_consume(quarter));
    assert!(!limiter.try_consume(quarter));
    let mut taken = 0;
    while limiter.try_consume(later(100)) {
        taken += 1;
    }
    assert_eq!(taken, 4);
}

#[test]
fn scores_saturate_and_decay() {
    let mut p = PeerInfo::new(test_addr(1), LIMITS, NOW);
    p.score = i32::MAX;
    p.score_tick();
    assert_eq!(p.score, i32::MAX);
    p.score = 3;
    p.score_decay(5, NOW);
    assert_eq!(p.score, 0);
    p.score = -3;
    p.score_decay(2, NOW);
    assert_eq!(p.score, -1);
    p.score = i32::MIN + 1;
    p.score_bad(5, NOW);
    assert_eq!(p.score, i32::MIN);
    assert_eq!(p.state, PeerState::Banned);
    assert_eq!(p.ban_until, Some(later(BAN_DURATION_SECS)));
    p.score = 0;
    assert!(p.is_banned(later(BAN_DURATION_SECS - 1)));
    assert!(!p.is_banned(later(BAN_DURATION_SECS)));
    p.score_decay(1, later(BAN_DURATION_SECS));
    assert_eq!(p.ban_until, None);
}

#[test]
fn ip_ban_ends() {
    let mut pm = PeerManager::new(LIMITS);
    let ip = test_ip(1);
    pm.ban_ip(ip, NOW);
    assert!(pm.is_ip_banned(&ip, later(BAN_DURATION_SECS - 1)));
    assert!(!pm.is_ip_banned(&ip, later(BAN_DURATION_SECS)));
    assert_eq!(pm.ip_ban_count(), 0);
}

#[test]
fn oldest_ip_ban_makes_room() {
    let mut pm = PeerManager::new(LIMITS);
    for i in 0..MAX_BANNED_RECORDS as u32 {
        pm.ban_ip(IpAddr::V4(i), Instant { nanos: NOW.nanos + i as u64 });
    }
    pm.ban_ip(IpAddr::V4(0xFFFF), later(1));
    assert_eq!(pm.ip_ban_count(), MAX_BANNED_RECORDS);
    assert!(!pm.is_ip_banned(&IpAddr::V4(0), later(1)));
    assert!(pm.is_ip_banned(&IpAddr::V4(1), later(1)));
    assert!(pm.is_ip_banned(&IpAddr::V4(0xFFFF), later(1)));
}

/// How many bans are on record, of peers and IP addresses together.
fn ban_records(pm: &PeerManager, now: Instant) -> usize {
    let peers = pm.peers.entries.iter().filter(|e| e.1.is_banned(now)).count();
    peers + pm.ip_ban_count()
}

/// As many bans of IP addresses as there may be bans, each ending after the one before.
fn full_of_ip_bans() -> PeerManager {
    let mut pm = PeerManager::new(LIMITS);
    for i in 0..MAX_BANNED_RECORDS as u32 {
        pm.ban_ip(IpAddr::V4(i), Instant { nanos: NOW.nanos + i as u64 });
    }
    assert_eq!(ban_records(&pm, NOW), MAX_BANNED_RECORDS);
    pm
}

#[test]
fn bans_of_peers_and_ips_share_their_limit() {
    let mut pm = full_of_ip_bans();
    // Bans that have ended use up the batch of peers that goes first.
    for i in 0..20u32 {
        let addr = SocketAddr::V4 { ip: 5000 + i, port: 1 };
        pm.add_peer(addr, NOW);
        pm.get_peer_mut(&addr).unwrap().ban_until = Some(ago(100 - i as u64));
    }
    let addr = SocketAddr::V4 { ip: 9000, port: 1 };
    pm.add_peer(addr, NOW);
    pm.ban_peer(&addr, later(1));
    assert_eq!(ban_records(&pm, later(1)), MAX_BANNED_RECORDS);
    assert_eq!(pm.peer_entry_count(), 5);
    // The ban that was just made stays, and the bans of IP addresses that end first go.
    assert!(pm.get_peer(&addr).unwrap().is_banned(later(1)));
    assert!(pm.is_ip_banned(&addr.ip(), later(1)));
    assert!(!pm.is_ip_banned(&IpAddr::V4(0), later(1)));
    assert!(!pm.is_ip_banned(&IpAddr::V4(1), later(1)));
    assert!(pm.is_ip_banned(&IpAddr::V4(2), later(1)));
}

#[test]
fn bans_for_a_rate_limit_count_too() {
    let mut pm = full_of_ip_bans();
    let addr = SocketAddr::V4 { ip: 9000, port: 1 };
    pm.add_peer(addr, NOW);
    for n in 1..20 {
        pm.note_rate_violation(&addr, NOW);
        assert_eq!(pm.get_peer(&addr).unwrap().score, -10 * n);
        assert_eq!(ban_records(&pm, NOW), MAX_BANNED_RECORDS);
    }
    assert!(pm.is_ip_banned(&IpAddr::V4(0), NOW));
    pm.note_rate_violation(&addr, NOW);
    assert!(pm.get_peer(&addr).unwrap().is_banned(NOW));
    assert_eq!(ban_records(&pm, NOW), MAX_BANNED_RECORDS);
    assert!(!pm.is_ip_banned(&IpAddr::V4(0), NOW));
    assert!(!pm.is_ip_banned(&addr.ip(), NOW));
    // An address that is not on record is not scored.
    pm.note_rate_violation(&SocketAddr::V4 { ip: 9001, port: 1 }, NOW);
    assert_eq!(pm.peer_entry_count(), 1);
}

#[test]
fn ban_by_score_alone_goes_first() {
    let mut pm = full_of_ip_bans();
    let low = SocketAddr::V4 { ip: 9000, port: 1 };
    pm.add_peer(low, NOW);
    pm.get_peer_mut(&low).unwrap().score = BAN_SCORE_THRESHOLD;
    pm.ban_ip(IpAddr::V4(9001), later(1));
    assert_eq!(ban_records(&pm, later(1)), MAX_BANNED_RECORDS);
    assert!(pm.get_peer(&low).is_none());
    assert!(!pm.is_ip_banned(&IpAddr::V4(0), later(1)));
    assert!(pm.is_ip_banned(&IpAddr::V4(1), later(1)));
}

#[test]
fn too_many_bans_evict_the_first_to_end() {
    let mut pm = PeerManager::new(LIMITS);
    for i in 0..600u32 {
        let addr = SocketAddr::V4 { ip: 1000 + i, port: 1 };
        let at = Instant { nanos: NOW.nanos + i as u64 };
        pm.add_peer(addr, at);
        pm.ban_peer(&addr, at);
    }
    assert!(pm.peer_entry_count() < 600);
    assert!(ban_records(&pm, NOW) <= MAX_BANNED_RECORDS);
    assert!(pm.get_peer(&SocketAddr::V4 { ip: 1000, port: 1 }).is_none());
    assert!(pm.get_peer(&SocketAddr::V4 { ip: 1599, port: 1 }).is_some());
}

#[test]
fn some_ready_peer_is_picked() {
    let mut pm = PeerManager::new(LIMITS);
    assert!(pm.random_peer(7, NOW).is_none());
    ready_peer(&mut pm, test_addr(1));
    ready_peer(&mut pm, test_addr(2));
    let a = pm.random_peer(0, NOW).unwrap().addr;
    let b = pm.random_peer(1, NOW).unwrap().addr;
    assert_ne!(a, b);
    assert_eq!(pm.connected_peers(NOW).len(), 2);
}

#[test]
fn channels_go_with_their_connection() {
    let mut pm = PeerManager::new(LIMITS);
    let addr = test_addr(1);
    let (tx, mut rx) = tokio::sync::mpsc::channel::<Vec<u8>>(4);
    pm.add_peer(addr, NOW);
    pm.set_channel(addr, tx);
    pm.get_channel(&addr).unwrap().try_send(vec![1, 2]).unwrap();
    assert_eq!(rx.try_recv().unwrap(), vec![1, 2]);
    pm.remove_peer(&addr, NOW);
    assert!(pm.get_channel(&addr).is_none());
    assert!(rx.try_recv().is_err());
}

#[test]
fn all_scores_decay_together() {
    let mut pm = PeerManager::new(LIMITS);
    for (port, score) in [(1u16, 5), (2, -5), (3, 0)] {
        pm.add_peer(test_addr(port), NOW);
        pm.get_peer_mut(&test_addr(port)).unwrap().score = score;
    }
    pm.decay_all_scores(1, NOW);
    let scores: Vec<i32> = [1, 2, 3].iter().map(|p| pm.get_peer(&test_addr(*p)).unwrap().score).collect();
    assert_eq!(scores, vec![4, -4, 0]);
}
