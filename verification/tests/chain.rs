//! Checking a stored chain at startup.

use chroma_p2p::chain::{
    check_new_genesis, check_stored_chain, describe_fault, exact_sum, syncer_for, ChainFault,
    HeaderLoad, StoredHeader, StoredTip,
};
use chroma_p2p::hash::Hash32;
use chroma_p2p::NetworkConfig;
use std::collections::BTreeMap;

fn hash_at(height: u32) -> Hash32 {
    Hash32::digest(&height.to_le_bytes())
}

fn stored(height: u32) -> StoredHeader {
    StoredHeader { hash: hash_at(height), state_root: Hash32::zero() }
}

/// The headers of a stored chain with the given top, as far as the tip.
fn load(top: u32, tip: u32) -> BTreeMap<u32, StoredHeader> {
    let mut load = HeaderLoad::new(tip);
    while let Some(height) = load.next {
        load.supply(if height <= top { Some(stored(height)) } else { None });
    }
    load.headers
}

/// What the node says when it refuses to start.
fn refusal(
    genesis: Hash32,
    stored_genesis: Option<Hash32>,
    headers: &BTreeMap<u32, StoredHeader>,
    tip: StoredTip,
    root: Hash32,
    balances: &[u64],
) -> Option<String> {
    let fault = check_stored_chain(genesis, stored_genesis, headers, tip, root, balances)?;
    Some(describe_fault(&fault, &NetworkConfig::regtest(), &genesis, &tip))
}

fn tip(height: u32) -> StoredTip {
    StoredTip { height, hash: hash_at(height), supply: 0 }
}

#[test]
fn test_reload_consistent_chain_verifies() {
    // Happy path: coherent DB reloads with identical tip/root/supply.
    let headers = load(3, 3);
    assert_eq!(headers.len(), 4);
    assert!(refusal(hash_at(0), Some(hash_at(0)), &headers, tip(3), Hash32::zero(), &[]).is_none());
}

#[test]
fn test_reload_reverse_network_db_refused() {
    // Chain identity is symmetric: the database of either network is refused by the other.
    let (mainnet, testnet) = (Hash32::digest(b"mainnet"), Hash32::digest(b"testnet"));
    for (own, found) in [(mainnet, testnet), (testnet, mainnet)] {
        let mut headers = BTreeMap::new();
        headers.insert(0, StoredHeader { hash: found, state_root: Hash32::zero() });
        let top = StoredTip { height: 0, hash: found, supply: 0 };
        assert!(refusal(own, Some(found), &headers, top, Hash32::zero(), &[]).is_some());
    }
}

#[test]
fn test_node_restart_burst_preserves_tip() {
    // Five rapid restarts: tip and headers must hold every time.
    for _round in 0..5 {
        let headers = load(4, 4);
        assert!(refusal(hash_at(0), Some(hash_at(0)), &headers, tip(4), Hash32::zero(), &[]).is_none());
        let syncer = syncer_for(hash_at(0), 4, &headers);
        assert_eq!(syncer.synced_header_height(), 4);
        assert_eq!(syncer.known_headers_len(), 5);
    }
}

#[test]
fn foreign_genesis_is_refused() {
    let text = refusal(hash_at(0), Some(hash_at(9)), &load(3, 3), tip(3), Hash32::zero(), &[]).unwrap();
    assert_eq!(
        text,
        format!(
            "FATAL: stored genesis {} does not match regtest network genesis {}. Refusing to open a \
             foreign database (resync into a fresh data directory instead).",
            hash_at(9).to_hex(),
            hash_at(0).to_hex()
        )
    );
}

#[test]
fn wrong_first_header_is_refused() {
    let text = refusal(hash_at(9), None, &load(3, 3), tip(3), Hash32::zero(), &[]).unwrap();
    assert!(text.starts_with("FATAL: height-0 header is missing or not the regtest genesis hash "));
    assert!(refusal(hash_at(0), None, &BTreeMap::new(), tip(0), Hash32::zero(), &[]).is_some());
}

#[test]
fn torn_tip_is_refused() {
    // Tip record points past stored history.
    let text = refusal(hash_at(0), Some(hash_at(0)), &load(2, 5), tip(5), Hash32::zero(), &[]).unwrap();
    assert!(text.contains("persisted tip height 5 has no stored headers"), "{}", text);
}

#[test]
fn aliased_tip_is_refused() {
    // Tip hash disagrees with the stored header at its height.
    let top = StoredTip { height: 3, hash: Hash32::digest(b"impostor"), supply: 0 };
    let text = refusal(hash_at(0), Some(hash_at(0)), &load(3, 3), top, Hash32::zero(), &[]).unwrap();
    assert!(text.contains("does not match stored header at height 3"), "{}", text);
}

#[test]
fn tampered_state_is_refused() {
    // Wrong-value account record: the state root does not match.
    let root = Hash32::digest(b"tampered");
    let text = refusal(hash_at(0), Some(hash_at(0)), &load(2, 2), tip(2), root, &[999]).unwrap();
    assert!(text.contains("state root"), "{}", text);
    // The root matches and the sum does not.
    let text = refusal(hash_at(0), Some(hash_at(0)), &load(2, 2), tip(2), Hash32::zero(), &[999]).unwrap();
    assert!(text.contains("stored balances sum to 999 but tip records supply 0 at height 2"), "{}", text);
}

#[test]
fn balances_are_added_exactly() {
    assert_eq!(exact_sum(&[]), 0);
    assert_eq!(exact_sum(&[u64::MAX, u64::MAX, 2]), 2 * u64::MAX as u128 + 2);
    let fault = check_stored_chain(
        hash_at(0),
        None,
        &load(0, 0),
        tip(0),
        Hash32::zero(),
        &[u64::MAX, 1],
    );
    assert!(matches!(fault, Some(ChainFault::Supply { sum, recorded: 0 }) if sum == 1u128 << 64));
}

#[test]
fn reading_stops_at_a_gap() {
    let mut gap = HeaderLoad::new(3);
    gap.supply(Some(stored(0)));
    gap.supply(None);
    assert_eq!(gap.next, None);
    assert_eq!(gap.headers.len(), 1);
    assert_eq!(load(u32::MAX, 0).len(), 1);
}

#[test]
fn new_genesis_must_be_the_expected_one() {
    assert!(check_new_genesis(&hash_at(1), &hash_at(1)).is_none());
    let text = check_new_genesis(&hash_at(1), &hash_at(2)).unwrap();
    assert!(text.contains(&hash_at(1).to_hex()) && text.contains(&hash_at(2).to_hex()));
}

#[test]
fn loaded_headers_are_known() {
    let headers = load(4, 4);
    let syncer = syncer_for(hash_at(0), 4, &headers);
    for height in 0..=4 {
        assert_eq!(syncer.find_headers_start_height(&hash_at(height)), Some(height));
    }
    assert_eq!(syncer.find_headers_start_height(&hash_at(7)), None);
}

/// Starts on the stored chain, and panics where it is refused.
fn reload(
    genesis: Hash32,
    stored_genesis: Hash32,
    headers: &BTreeMap<u32, StoredHeader>,
    tip: StoredTip,
    root: Hash32,
    balances: &[u64],
) {
    if let Some(text) = refusal(genesis, Some(stored_genesis), headers, tip, root, balances) {
        panic!("{}", text);
    }
}

#[test]
#[should_panic(expected = "stored genesis")]
fn test_reload_wrong_network_db_refused() {
    // Testnet-genesis DB opened as mainnet: chain-identity refusal.
    let (mainnet, testnet) = (Hash32::digest(b"mainnet"), Hash32::digest(b"testnet"));
    let mut headers = BTreeMap::new();
    headers.insert(0, StoredHeader { hash: testnet, state_root: Hash32::zero() });
    let top = StoredTip { height: 0, hash: testnet, supply: 0 };
    reload(mainnet, testnet, &headers, top, Hash32::zero(), &[]);
}

#[test]
#[should_panic(expected = "no stored headers")]
fn test_reload_torn_tip_refused() {
    // Tip record points past stored history: torn database refusal.
    let top = StoredTip { height: 5, hash: Hash32::digest(b"phantom"), supply: 0 };
    reload(hash_at(0), hash_at(0), &load(2, 5), top, Hash32::zero(), &[]);
}

#[test]
#[should_panic(expected = "does not match stored header")]
fn test_reload_aliased_tip_refused() {
    // Tip hash disagrees with the stored header at its height.
    let top = StoredTip { height: 3, hash: Hash32::digest(b"impostor"), supply: 0 };
    reload(hash_at(0), hash_at(0), &load(3, 3), top, Hash32::zero(), &[]);
}

#[test]
#[should_panic(expected = "state root")]
fn test_reload_tampered_balance_refused() {
    // Valid-length but wrong-value account record: startup state-root
    // verification refuses to boot on it.
    reload(hash_at(0), hash_at(0), &load(2, 2), tip(2), Hash32::digest(b"tampered"), &[999]);
}
