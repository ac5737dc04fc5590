//! Finding peers: configured addresses, then seeds.

use chroma_p2p::addr::SocketAddr;
use chroma_p2p::discovery::{is_routable_peer_addr, Discovery, Stage, MAX_SEED_FAILURES};
use chroma_p2p::peer::{PeerManager, RateLimits};
use chroma_p2p::time::{Instant, NANOS_PER_SEC};
use chroma_p2p::NetworkConfig;

const NOW: Instant = Instant { nanos: 1_000_000 * NANOS_PER_SEC };

fn manager() -> PeerManager {
    PeerManager::new(RateLimits { messages: 100, transactions: 10 })
}

fn v6(ip: u128, port: u16) -> SocketAddr {
    SocketAddr::V6 { ip, port, flowinfo: 0, scope_id: 0 }
}

#[test]
fn test_new_discovery() {
    let d = Discovery::new();
    assert_eq!(d.seed_failures, 0);
}

#[test]
fn test_routable_filter_rejects_loopback_and_special() {
    // DNS rebinding defense: never dial these from discovery results.
    for addr in [
        SocketAddr::v4(127, 0, 0, 1, 8333),
        SocketAddr::v4(0, 0, 0, 0, 8333),
        SocketAddr::v4(224, 0, 0, 1, 8333),
        SocketAddr::v4(255, 255, 255, 255, 8333),
        SocketAddr::v4(192, 0, 2, 1, 8333),
        v6(1, 8333),
        v6(0, 8333),
        v6(0xff02_0000_0000_0000_0000_0000_0000_0001, 8333),
    ] {
        assert!(!is_routable_peer_addr(&addr), "must reject {:?}", addr);
    }
}

#[test]
fn test_routable_filter_allows_public_and_private() {
    // Public IPs and operator-NAT private IPs are dialable.
    for addr in [
        SocketAddr::v4(8, 8, 4, 4, 8333),
        SocketAddr::v4(10, 0, 0, 5, 8333),
        SocketAddr::v4(192, 168, 1, 20, 8333),
    ] {
        assert!(is_routable_peer_addr(&addr), "must allow {:?}", addr);
    }
}

#[test]
fn edges_of_the_filtered_networks() {
    for (addr, routable) in [
        (SocketAddr::v4(126, 255, 255, 255, 1), true),
        (SocketAddr::v4(127, 255, 255, 255, 1), false),
        (SocketAddr::v4(128, 0, 0, 0, 1), true),
        (SocketAddr::v4(0, 0, 0, 1, 1), true),
        (SocketAddr::v4(169, 253, 255, 255, 1), true),
        (SocketAddr::v4(169, 254, 0, 0, 1), false),
        (SocketAddr::v4(169, 254, 255, 255, 1), false),
        (SocketAddr::v4(169, 255, 0, 0, 1), true),
        (SocketAddr::v4(198, 51, 100, 7, 1), false),
        (SocketAddr::v4(203, 0, 113, 7, 1), false),
        (SocketAddr::v4(223, 255, 255, 255, 1), true),
        (SocketAddr::v4(239, 255, 255, 255, 1), false),
        (SocketAddr::v4(240, 0, 0, 0, 1), true),
        (v6(2, 1), true),
        (v6(u128::MAX, 1), false),
    ] {
        assert_eq!(is_routable_peer_addr(&addr), routable, "{:?}", addr);
    }
}

#[test]
fn regtest_asks_no_seed() {
    let mut pm = manager();
    let network = NetworkConfig::regtest();
    let configured = [SocketAddr::v4(127, 0, 0, 1, 1), SocketAddr::v4(127, 0, 0, 1, 2), SocketAddr::v4(127, 0, 0, 1, 1)];
    let search = Discovery::new().discover_peers(&mut pm, &configured, &network, NOW);
    assert_eq!(search.stage, Stage::Finished);
    assert_eq!(search.next_seed(&network), None);
    assert_eq!(search.found, configured[..2].to_vec());
    assert_eq!(pm.peer_entry_count(), 2);
}

#[test]
fn answers_are_filtered_and_new() {
    let mut pm = manager();
    let network = NetworkConfig::testnet();
    let known = SocketAddr::v4(8, 8, 8, 8, 1);
    pm.add_peer(known, NOW);
    let mut d = Discovery::new();
    d.seed_failures = 2;
    let mut search = d.discover_peers(&mut pm, &[], &network, NOW);
    let seed = search.next_seed(&network).unwrap();
    assert!(seed.contains("18333"));
    let fresh = SocketAddr::v4(8, 8, 4, 4, 1);
    let loopback = SocketAddr::v4(127, 0, 0, 1, 1);
    d.on_answer(&mut search, &mut pm, &network, Some(vec![loopback, known, fresh, fresh]), NOW);
    assert_eq!(search.found, vec![fresh]);
    assert_eq!(d.seed_failures, 0);
    assert_eq!(search.stage, Stage::Dns);
    assert!(search.next_seed(&network).is_some());
    d.on_answer(&mut search, &mut pm, &network, None, NOW);
    assert_eq!(d.seed_failures, 1);
    assert_eq!(search.stage, Stage::Finished);
}

#[test]
fn own_resolver_is_trusted() {
    let mut pm = manager();
    let network = NetworkConfig::mainnet();
    let mut d = Discovery::with_resolver();
    let mut search = d.discover_peers(&mut pm, &[], &network, NOW);
    let loopback = SocketAddr::v4(127, 0, 0, 1, 1);
    d.on_answer(&mut search, &mut pm, &network, Some(vec![loopback]), NOW);
    assert_eq!(search.found, vec![loopback]);
}

#[test]
fn failures_are_counted_across_lists() {
    let mut pm = manager();
    let network = NetworkConfig::mainnet();
    let mut d = Discovery::new();
    let mut searches = 0;
    while d.seed_failures < MAX_SEED_FAILURES {
        let mut search = d.discover_peers(&mut pm, &[], &network, NOW);
        while search.stage != Stage::Finished {
            d.on_answer(&mut search, &mut pm, &network, None, NOW);
        }
        assert!(search.found.is_empty());
        searches += 1;
    }
    assert_eq!(searches, 2);
}
