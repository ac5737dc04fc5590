//! Header and block synchronisation.

use std::collections::BTreeMap;

use chroma_p2p::addr::SocketAddr;
use chroma_p2p::hash::Hash32;
use chroma_p2p::sync::{
    detect_fork, BlockHeader, ChainSyncer, SyncCommand, SyncState, MAX_HEADERS_PER_RESPONSE,
    MAX_KNOWN_HEADERS, MAX_PENDING_HEADERS, SYNC_RESPONSE_TIMEOUT_SECS,
};
use chroma_p2p::time::{Instant, NANOS_PER_SEC};
use chroma_p2p::wire::InvType;

const NOW: Instant = Instant { nanos: 1_000_000 * NANOS_PER_SEC };

fn ago(secs: u64) -> Instant {
    Instant { nanos: NOW.nanos - secs * NANOS_PER_SEC }
}

/// A header whose hash covers what the arguments say.
fn header(height: u32, previous_hash: Hash32, state_root: Hash32, nonce: u64) -> BlockHeader {
    let mut data = height.to_le_bytes().to_vec();
    data.extend_from_slice(&previous_hash.0);
    data.extend_from_slice(&state_root.0);
    data.extend_from_slice(&nonce.to_le_bytes());
    BlockHeader { height, hash: Hash32::digest(&data), previous_hash }
}

fn test_header(height: u32, prev_hash: Hash32) -> BlockHeader {
    header(height, prev_hash, Hash32::zero(), 0)
}

fn build_chain(length: u32) -> BTreeMap<u32, BlockHeader> {
    let mut headers = BTreeMap::new();
    let genesis = test_header(0, Hash32::zero());
    headers.insert(0, genesis.clone());

    let mut prev_hash = genesis.hash;
    for h in 1..=length {
        let header = test_header(h, prev_hash);
        prev_hash = header.hash;
        headers.insert(h, header);
    }
    headers
}

// ChainSyncer Tests

#[test]
fn test_new_syncer() {
    let genesis = Hash32::digest(b"genesis");
    let syncer = ChainSyncer::new(genesis);
    assert_eq!(syncer.state, SyncState::Idle);
    assert_eq!(syncer.best_height, 0);
    assert_eq!(syncer.best_hash, genesis);
    assert!(!syncer.is_syncing());
    assert!(!syncer.is_caught_up());
}

#[test]
fn test_start_header_sync() {
    let genesis = Hash32::digest(b"genesis");
    let mut syncer = ChainSyncer::new(genesis);
    let peer = SocketAddr::v4(127, 0, 0, 1, 8333);
    let msg = syncer.start_header_sync(peer, genesis, NOW);
    assert_eq!(syncer.state, SyncState::SyncingHeaders);
    assert_eq!(syncer.sync_peer(), Some(peer));
    assert_eq!(msg.start_hash, genesis);
    assert_eq!(msg.stop_hash, Hash32::zero());
}

#[test]
fn test_start_block_sync() {
    let genesis = Hash32::digest(b"genesis");
    let mut syncer = ChainSyncer::new(genesis);
    let peer = SocketAddr::v4(127, 0, 0, 1, 8333);
    let msg = syncer.start_block_sync(peer, genesis, 0, NOW);
    assert_eq!(syncer.state, SyncState::SyncingBlocks);
    assert_eq!(syncer.sync_peer(), Some(peer));
    // At minimum we request the genesis block itself
    assert!(!msg.inventory.is_empty());
    assert_eq!(msg.inventory[0].inv_type, InvType::Block);
    assert_eq!(msg.inventory[0].hash, genesis);
}

#[test]
fn test_received_headers_updates_best() {
    let genesis = Hash32::digest(b"genesis");
    let mut syncer = ChainSyncer::new(genesis);

    let h1 = test_header(1, genesis);
    let h2 = test_header(2, h1.hash);

    let cmds = syncer.received_headers(vec![h1, h2], NOW);
    assert_eq!(syncer.best_height, 2);
    assert!(!cmds.is_empty());
}

#[test]
fn test_received_headers_empty_transitions() {
    let genesis = Hash32::digest(b"genesis");
    let mut syncer = ChainSyncer::new(genesis);
    syncer.state = SyncState::SyncingHeaders;

    let cmds = syncer.received_headers(vec![], NOW);
    assert_eq!(syncer.state, SyncState::CaughtUp);
    assert!(cmds.iter().any(|c| matches!(c, SyncCommand::SyncComplete)));
}

#[test]
fn test_received_headers_less_than_max_requests_more() {
    let genesis = Hash32::digest(b"genesis");
    let mut syncer = ChainSyncer::new(genesis);
    syncer.state = SyncState::SyncingHeaders;

    // Less than MAX_HEADERS_PER_RESPONSE → signals end, but triggers block request
    let h1 = test_header(1, genesis);
    let cmds = syncer.received_headers(vec![h1], NOW);

    // Should transition to batch block request
    assert!(cmds.iter().any(|c| matches!(c, SyncCommand::GetBlocks(_))));
}

#[test]
fn test_received_block() {
    let genesis = Hash32::digest(b"genesis");
    let mut syncer = ChainSyncer::new(genesis);
    syncer.state = SyncState::SyncingBlocks;

    let h = test_header(1, genesis);
    let hash = h.hash;
    syncer.received_block(hash, 1, NOW);
    assert_eq!(syncer.synced_header_height(), 1);
}

#[test]
fn test_sync_complete() {
    let genesis = Hash32::digest(b"genesis");
    let mut syncer = ChainSyncer::new(genesis);
    syncer.state = SyncState::SyncingHeaders;
    syncer.sync_complete();
    assert_eq!(syncer.state, SyncState::CaughtUp);
    assert!(syncer.sync_peer().is_none());
}

#[test]
fn test_sync_failed() {
    let genesis = Hash32::digest(b"genesis");
    let mut syncer = ChainSyncer::new(genesis);
    syncer.state = SyncState::SyncingBlocks;
    syncer.sync_failed();
    assert_eq!(syncer.state, SyncState::Idle);
    assert!(syncer.sync_peer().is_none());
}

#[test]
fn test_is_syncing() {
    let genesis = Hash32::digest(b"genesis");
    let mut syncer = ChainSyncer::new(genesis);
    assert!(!syncer.is_syncing());
    syncer.state = SyncState::SyncingHeaders;
    assert!(syncer.is_syncing());
    syncer.state = SyncState::SyncingBlocks;
    assert!(syncer.is_syncing());
    syncer.state = SyncState::CaughtUp;
    assert!(!syncer.is_syncing());
}

#[test]
fn test_is_caught_up() {
    let genesis = Hash32::digest(b"genesis");
    let mut syncer = ChainSyncer::new(genesis);
    assert!(!syncer.is_caught_up());
    syncer.state = SyncState::CaughtUp;
    assert!(syncer.is_caught_up());
}

#[test]
fn test_received_header_no_regression() {
    let genesis = Hash32::digest(b"genesis");
    let mut syncer = ChainSyncer::new(genesis);
    let h1 = Hash32::digest(b"block1");
    let _h0 = Hash32::digest(b"block0");
    syncer.received_headers(vec![], NOW);
    // Manually set best
    syncer.best_height = 1;
    syncer.best_hash = h1;
    // Receiving a lower height should not regress
    assert_eq!(syncer.best_height, 1);
    assert_eq!(syncer.best_hash, h1);
}

// Fork Detection Tests

#[test]
fn test_no_fork_identical_chain() {
    let local = build_chain(5);
    let new_chain: Vec<BlockHeader> = (1..=5u32)
        .map(|h| local.get(&h).cloned().unwrap())
        .collect();

    let result = detect_fork(&local, &new_chain, 1, 5);
    // Identical chains → no fork
    assert!(result.is_none());
}

#[test]
fn test_fork_diverges_at_height_3() {
    let local = build_chain(5);

    // New chain with completely different parent → no common ancestor
    let fake_prev = Hash32::digest(b"fake_parent_of_3");
    let h3_new = test_header(3, fake_prev);
    let h4_new = test_header(4, h3_new.hash);
    let h5_new = test_header(5, h4_new.hash);

    let result = detect_fork(&local, &[h3_new, h4_new, h5_new], 3, 5);
    // fake_prev doesn't match local[2].hash, so no common parent → no fork detected
    assert!(result.is_none());
}

#[test]
fn test_fork_diverges_at_height_3_with_common_parent() {
    let local = build_chain(5);

    // New chain: h3 has same parent as local[3] (local[2].hash),
    // but h3 has a different nonce, so its hash differs from local[3]
    let fork_hash = local.get(&2).unwrap().hash;
    let h3_new = header(3, fork_hash, Hash32::digest(b"different_state"), 42);
    let h4_new = test_header(4, h3_new.hash);
    let h5_new = test_header(5, h4_new.hash);

    let result = detect_fork(&local, &[h3_new, h4_new, h5_new], 3, 5);
    assert!(result.is_some());
    let fork = result.unwrap();
    assert_eq!(fork.fork_height, 2);
    assert_eq!(fork.rollback_heights, vec![3, 4, 5]);
    assert_eq!(fork.apply_heights, vec![3, 4, 5]);
}

#[test]
fn test_fork_shorter_new_chain() {
    let local = build_chain(5);
    let fork_hash = local.get(&3).unwrap().hash;

    // New chain: extends from height 4 onward, diverging from local[3]
    let h4_new = header(4, fork_hash, Hash32::digest(b"different_state_4"), 99);
    let h5_new = test_header(5, h4_new.hash);

    let result = detect_fork(&local, &[h4_new, h5_new], 4, 5);
    assert!(result.is_some());
    let fork = result.unwrap();
    assert_eq!(fork.fork_height, 3);
    assert_eq!(fork.rollback_heights, vec![4, 5]);
    assert_eq!(fork.apply_heights, vec![4, 5]);
}

#[test]
fn test_no_fork_no_common_ancestor() {
    let local = build_chain(5);
    // Completely unrelated chain
    let unrelated = test_header(1, Hash32::digest(b"unrelated"));
    let result = detect_fork(&local, &[unrelated], 1, 5);
    // The unrelated block's previous_hash won't match any local header
    // unless by coincidence. With test headers it won't match.
    // Actually, the parent of height 1 in new chain is the previous_hash,
    // which won't match local[0].hash. So no fork found.
    // BUT detect_fork also checks if any height matches directly.
    // Since unrelated has height 1, and local[1] exists but has different hash, no match.
    assert!(result.is_none());
}

#[test]
fn test_fork_empty_new_chain() {
    let local = build_chain(5);
    let result = detect_fork(&local, &[], 1, 5);
    assert!(result.is_none());
}

#[test]
fn test_sync_state_transitions() {
    let genesis = Hash32::digest(b"genesis");
    let mut syncer = ChainSyncer::new(genesis);
    let peer = SocketAddr::v4(127, 0, 0, 1, 8333);

    // Idle → SyncingHeaders
    assert_eq!(syncer.state, SyncState::Idle);
    syncer.start_header_sync(peer, genesis, NOW);
    assert_eq!(syncer.state, SyncState::SyncingHeaders);

    // SyncingHeaders → SyncingBlocks
    syncer.start_block_sync(peer, genesis, 0, NOW);
    assert_eq!(syncer.state, SyncState::SyncingBlocks);

    // SyncingBlocks → CaughtUp
    syncer.sync_complete();
    assert_eq!(syncer.state, SyncState::CaughtUp);

    // CaughtUp → Idle (on failure)
    syncer.sync_failed();
    assert_eq!(syncer.state, SyncState::Idle);
}

#[test]
fn test_sync_command_get_headers() {
    let genesis = Hash32::digest(b"genesis");
    let syncer = ChainSyncer::new(genesis);
    let peer = SocketAddr::v4(127, 0, 0, 1, 8333);
    let mut syncer = syncer;
    let msg = syncer.start_header_sync(peer, genesis, NOW);
    assert_eq!(msg.start_hash, genesis);
    assert_eq!(msg.stop_hash, Hash32::zero());
}

#[test]
fn test_needs_blocks() {
    let genesis = Hash32::digest(b"genesis");
    let mut syncer = ChainSyncer::new(genesis);
    assert!(!syncer.needs_blocks());
    syncer.state = SyncState::SyncingBlocks;
    assert!(syncer.needs_blocks());
}

// IBD Tests

#[test]
fn test_block_locator_hashes() {
    let genesis = Hash32::digest(b"genesis");
    let mut syncer = ChainSyncer::new(genesis);
    let chain = build_chain(100);

    for (h, header) in &chain {
        syncer.known_headers.insert(*h, header.hash);
    }

    let tip_hash = chain.get(&100).unwrap().hash;
    let locators = syncer.block_locator_hashes(tip_hash, 100);

    // First locator should be the tip
    assert_eq!(locators[0], tip_hash);

    // Last locator should be the chain's genesis (height 0)
    let chain_genesis = chain.get(&0).unwrap().hash;
    assert_eq!(*locators.last().unwrap(), chain_genesis);

    // Should have exponentially decreasing heights
    assert!(locators.len() >= 3);
}

#[test]
fn test_should_enter_ibd() {
    let genesis = Hash32::digest(b"genesis");
    let syncer = ChainSyncer::new(genesis);

    // Local height 5, peer height 200 → IBD triggered (200 > 5 + 144)
    assert!(syncer.should_enter_ibd(5, 200));

    // Local height 5, peer height 150 → IBD triggered (150 > 5 + 144)
    assert!(syncer.should_enter_ibd(5, 150));

    // Local height 5, peer height 149 → NOT triggered (149 > 5 + 144 is false, 149 == 149)
    assert!(!syncer.should_enter_ibd(5, 149));

    // Same height → not triggered
    assert!(!syncer.should_enter_ibd(10, 10));

    // Peer behind → not triggered
    assert!(!syncer.should_enter_ibd(10, 5));
}

#[test]
fn test_is_in_initial_block_download() {
    let genesis = Hash32::digest(b"genesis");
    let mut syncer = ChainSyncer::new(genesis);
    syncer.state = SyncState::SyncingBlocks;
    syncer.best_height = 200;
    syncer.synced_header_height = 5;

    assert!(syncer.is_in_initial_block_download());

    syncer.synced_header_height = 60;
    assert!(!syncer.is_in_initial_block_download());
}

#[test]
fn test_sync_timeout() {
    let genesis = Hash32::digest(b"genesis");
    let mut syncer = ChainSyncer::new(genesis);

    // No request sent → not timed out
    assert!(!syncer.is_sync_timed_out(NOW));

    // Request just sent → not timed out
    syncer.last_sync_request_time = Some(NOW);
    assert!(!syncer.is_sync_timed_out(NOW));
}

#[test]
fn test_record_sync_failure() {
    let genesis = Hash32::digest(b"genesis");
    let mut syncer = ChainSyncer::new(genesis);

    assert!(!syncer.is_peer_banned_for_sync());

    for _ in 0..4 {
        syncer.record_sync_failure();
    }
    assert!(!syncer.is_peer_banned_for_sync());

    syncer.record_sync_failure();
    assert!(syncer.is_peer_banned_for_sync());

    syncer.clear_sync_failure();
    assert!(!syncer.is_peer_banned_for_sync());
}

#[test]
fn test_sync_failed_resets_timeout() {
    let genesis = Hash32::digest(b"genesis");
    let mut syncer = ChainSyncer::new(genesis);
    syncer.last_sync_request_time = Some(NOW);

    syncer.sync_failed();
    assert!(syncer.last_sync_request_time.is_none());
}

#[test]
fn test_received_block_clears_failure() {
    let genesis = Hash32::digest(b"genesis");
    let mut syncer = ChainSyncer::new(genesis);
    syncer.state = SyncState::SyncingBlocks;

    syncer.record_sync_failure();
    syncer.record_sync_failure();
    assert!(!syncer.is_peer_banned_for_sync());

    let h = Hash32::digest(b"block1");
    syncer.received_block(h, 1, NOW);

    // Block received should clear failures
    assert!(!syncer.is_peer_banned_for_sync());
}

#[test]
fn test_pending_block_count() {
    let genesis = Hash32::digest(b"genesis");
    let mut syncer = ChainSyncer::new(genesis);

    assert_eq!(syncer.pending_block_count(), 0);

    syncer.pending_block_requests.push(Hash32::digest(b"a"));
    syncer.pending_block_requests.push(Hash32::digest(b"b"));
    assert_eq!(syncer.pending_block_count(), 2);
}

#[test]
fn test_needs_block_retry() {
    let genesis = Hash32::digest(b"genesis");
    let mut syncer = ChainSyncer::new(genesis);
    syncer.state = SyncState::SyncingBlocks;

    // No timeout → no retry
    assert!(!syncer.needs_block_retry(NOW));

    // Timed out → retry needed
    syncer.last_sync_request_time =
        Some(ago(SYNC_RESPONSE_TIMEOUT_SECS + 1));
    assert!(syncer.needs_block_retry(NOW));
}

#[test]
fn test_detect_block_fork() {
    let genesis = Hash32::digest(b"genesis");
    let mut syncer = ChainSyncer::new(genesis);
    let chain = build_chain(10);

    for (h, header) in &chain {
        syncer.known_headers.insert(*h, header.hash);
    }

    // Same block at same height → no fork
    let h5_hash = chain.get(&5).unwrap().hash;
    assert!(syncer.detect_block_fork(5, &h5_hash).is_none());

    // Different block at same height → fork detected at height 4
    let different_hash = Hash32::digest(b"different_block_5");
    assert_eq!(syncer.detect_block_fork(5, &different_hash), Some(4));

    // Block at unknown height → no fork
    let unknown_hash = Hash32::digest(b"unknown");
    assert!(syncer.detect_block_fork(999, &unknown_hash).is_none());

    // Block at height 0 (genesis) → no fork (genesis can't be replaced)
    let _genesis_hash = chain.get(&0).unwrap().hash;
    let different_genesis = Hash32::digest(b"different_genesis");
    assert!(syncer.detect_block_fork(0, &different_genesis).is_none());
}

// Header Batch Validation Tests (adversarial: unlinked/forged batches)

#[test]
fn test_header_batch_valid_accepts_linked_chain() {
    let genesis = Hash32::digest(b"genesis");
    let syncer = ChainSyncer::new(genesis);
    let h1 = test_header(1, genesis);
    let h2 = test_header(2, h1.hash);
    assert!(syncer.header_batch_valid(&[h1, h2]));
}

#[test]
fn test_header_batch_valid_rejects_unlinked_first() {
    let genesis = Hash32::digest(b"genesis");
    let syncer = ChainSyncer::new(genesis);
    // First header does not connect to anything we know.
    let rogue = test_header(1, Hash32::digest(b"unknown-parent"));
    assert!(!syncer.header_batch_valid(&[rogue]));
}

#[test]
fn test_header_batch_valid_rejects_gap_and_fork_within_batch() {
    let genesis = Hash32::digest(b"genesis");
    let syncer = ChainSyncer::new(genesis);
    let h1 = test_header(1, genesis);
    // Skipped height.
    let h3 = test_header(3, h1.hash);
    assert!(!syncer.header_batch_valid(&[h1.clone(), h3]));
    // Broken link within the batch.
    let h2_bad = test_header(2, Hash32::digest(b"other"));
    assert!(!syncer.header_batch_valid(&[h1, h2_bad]));
}

#[test]
fn test_header_batch_valid_rejects_empty_and_oversize() {
    let genesis = Hash32::digest(b"genesis");
    let syncer = ChainSyncer::new(genesis);
    assert!(!syncer.header_batch_valid(&[]));
    let huge = vec![test_header(1, genesis); MAX_HEADERS_PER_RESPONSE + 1];
    assert!(!syncer.header_batch_valid(&huge));
}

#[test]
fn test_received_headers_ignores_over_pending_cap() {
    let genesis = Hash32::digest(b"genesis");
    let mut syncer = ChainSyncer::new(genesis);
    // Fill the buffer to the cap with linked headers.
    let mut prev = genesis;
    let mut chain = Vec::new();
    for h in 1..=MAX_PENDING_HEADERS as u32 {
        let hdr = test_header(h, prev);
        prev = hdr.hash;
        chain.push(hdr);
    }
    for chunk in chain.chunks(MAX_HEADERS_PER_RESPONSE) {
        let cmds = syncer.received_headers(chunk.to_vec(), NOW);
        let _ = cmds;
    }
    assert!(syncer.pending_headers.len() <= MAX_PENDING_HEADERS);
    // One more linked batch must be ignored, not buffered.
    let extra = test_header(MAX_PENDING_HEADERS as u32 + 1, prev);
    let before = syncer.pending_headers.len();
    let cmds = syncer.received_headers(vec![extra], NOW);
    assert!(cmds.is_empty());
    assert_eq!(syncer.pending_headers.len(), before);
}

#[test]
fn test_header_batch_valid_rejects_conflicting_heights() {
    let genesis = Hash32::digest(b"genesis");
    let mut syncer = ChainSyncer::new(genesis);
    let h1 = test_header(1, genesis);
    assert!(syncer.header_batch_valid(std::slice::from_ref(&h1)));
    syncer.received_headers(vec![h1.clone()], NOW);
    // Same height, different hash (fork/squat): whole batch refused.
    let rogue = header(1, genesis, Hash32::zero(), 999);
    assert_ne!(rogue.hash, h1.hash);
    assert!(!syncer.header_batch_valid(&[rogue]));
}

#[test]
fn test_received_headers_never_overwrites_recorded_hash() {
    let genesis = Hash32::digest(b"genesis");
    let mut syncer = ChainSyncer::new(genesis);
    let h1 = test_header(1, genesis);
    syncer.received_headers(vec![h1.clone()], NOW);
    // Direct call with a conflicting header: skipped, recorded kept.
    let rogue = header(1, genesis, Hash32::zero(), 999);
    syncer.received_headers(vec![rogue], NOW);
    assert_eq!(syncer.known_headers.get(&1), Some(&h1.hash));
}

#[test]
fn test_received_block_records_validated_hash() {
    let genesis = Hash32::digest(b"genesis");
    let mut syncer = ChainSyncer::new(genesis);
    let h = Hash32::digest(b"applied");
    syncer.received_block(h, 7, NOW);
    assert_eq!(syncer.known_headers.get(&7), Some(&h));
    assert_eq!(syncer.synced_header_height(), 7);
}

#[test]
fn test_sync_failed_drops_ephemeral_and_rewinds_best() {
    let genesis = Hash32::digest(b"genesis");
    let mut syncer = ChainSyncer::new(genesis);
    // Squat: unconfirmed headers far above the validated tip.
    let h1 = test_header(1, genesis);
    syncer.received_headers(vec![h1], NOW);
    syncer.received_block(Hash32::digest(b"v1"), 1, NOW);
    let fake2 = test_header(2, Hash32::digest(b"fake"));
    // Bypass validation to simulate pre-fix squat at new heights.
    syncer.known_headers.insert(2, fake2.hash);
    syncer.best_height = 2;
    syncer.best_hash = fake2.hash;
    syncer.sync_failed();
    // Ephemeral entry gone, best rewound to the validated tip.
    assert!(!syncer.known_headers.contains_key(&2));
    assert_eq!(syncer.best_height, 1);
    assert_eq!(syncer.known_headers.get(&1), Some(&Hash32::digest(b"v1")));
    // Honest re-fetch of the same range is accepted again (no brick).
    let real2 = test_header(2, Hash32::digest(b"v1"));
    assert!(syncer.header_batch_valid(&[real2]));
}

#[test]
fn test_track_validated_overwrites_gossip() {
    let genesis = Hash32::digest(b"genesis");
    let mut syncer = ChainSyncer::new(genesis);
    syncer.known_headers.insert(5, Hash32::digest(b"squat"));
    let truth = Hash32::digest(b"truth");
    syncer.track_validated(5, truth);
    assert_eq!(syncer.known_headers.get(&5), Some(&truth));
}

#[test]
fn test_claim_sync_peer_first_announcer_wins() {
    let genesis = Hash32::digest(b"genesis");
    let mut syncer = ChainSyncer::new(genesis);
    let evil: SocketAddr = SocketAddr::v4(127, 0, 0, 1, 8333);
    let good: SocketAddr = SocketAddr::v4(127, 0, 0, 1, 8334);
    assert!(syncer.claim_sync_peer(evil, NOW));
    assert_eq!(syncer.sync_peer(), Some(evil));
    // Second peer cannot steal ownership mid-sync.
    assert!(!syncer.claim_sync_peer(good, NOW));
    assert_eq!(syncer.sync_peer(), Some(evil));
    // Owner re-claiming is idempotent.
    assert!(syncer.claim_sync_peer(evil, NOW));
    // Reset releases ownership for the next peer.
    syncer.sync_failed();
    assert!(syncer.claim_sync_peer(good, NOW));
    assert_eq!(syncer.sync_peer(), Some(good));
}

#[test]
fn test_sync_failed_unsticks_monopolized_sync() {
    // Malicious peer drives us into SyncingBlocks then goes silent.
    // After cleanup resets the syncer, a healthy peer can take over.
    let genesis = Hash32::digest(b"genesis");
    let mut syncer = ChainSyncer::new(genesis);
    let evil: SocketAddr = SocketAddr::v4(127, 0, 0, 1, 8333);
    let good: SocketAddr = SocketAddr::v4(127, 0, 0, 1, 8334);
    syncer.start_header_sync(evil, genesis, NOW);
    assert!(syncer.is_syncing());
    assert_eq!(syncer.sync_peer(), Some(evil));
    // Evil disconnects: connection cleanup calls sync_failed().
    syncer.sync_failed();
    assert!(!syncer.is_syncing());
    assert_eq!(syncer.sync_peer(), None);
    // Healthy peer starts a fresh sync immediately.
    syncer.start_header_sync(good, genesis, NOW);
    assert_eq!(syncer.sync_peer(), Some(good));
}

/// Build `count` sequential headers starting after `start_height`,
/// chaining off `prev_hash`. Mirrors an attacker batch (linked, valid
/// structure) without network I/O.
fn linked_batch(start_height: u32, count: usize, prev_hash: Hash32) -> Vec<BlockHeader> {
    let mut out = Vec::with_capacity(count);
    let mut prev = prev_hash;
    for h in start_height..start_height + count as u32 {
        let hdr = test_header(h, prev);
        prev = hdr.hash;
        out.push(hdr);
    }
    out
}

#[test]
fn test_pending_fill_reset_cycles_stay_bounded() {
    // Long-run header-flood shape: fill the pending buffer to its cap,
    // reset (disconnect cleanup), repeat. No cycle may exceed the cap,
    // and the syncer must stay functional afterwards.
    let genesis = Hash32::digest(b"genesis");
    let mut syncer = ChainSyncer::new(genesis);
    let mut base_height = 1u32;
    let mut prev = genesis;
    for cycle in 0..5 {
        // Fill to exactly the cap in batches.
        while syncer.pending_headers.len() < MAX_PENDING_HEADERS {
            let room = MAX_PENDING_HEADERS - syncer.pending_headers.len();
            let n = room.min(MAX_HEADERS_PER_RESPONSE);
            let batch = linked_batch(base_height, n, prev);
            prev = batch.last().unwrap().hash;
            base_height += n as u32;
            let _ = syncer.received_headers(batch, NOW);
        }
        assert_eq!(
            syncer.pending_headers.len(),
            MAX_PENDING_HEADERS,
            "cycle {} must reach exactly the cap",
            cycle
        );
        // One more batch is ignored, not buffered.
        let extra = linked_batch(base_height, 10, prev);
        let _ = syncer.received_headers(extra, NOW);
        assert_eq!(syncer.pending_headers.len(), MAX_PENDING_HEADERS);
        // Disconnect-equivalent reset, then prove liveness.
        syncer.sync_failed();
        assert_eq!(syncer.pending_headers.len(), 0);
        let probe = linked_batch(base_height, 5, prev);
        let _ = syncer.received_headers(probe, NOW);
        assert_eq!(syncer.pending_headers.len(), 5);
        syncer.sync_failed();
    }
}

#[test]
fn test_known_headers_cap_boundary_exact() {
    // known_headers (height→hash) enforces MAX_KNOWN_HEADERS in
    // header_batch_valid: len+batch == MAX passes, +1 refuses.
    // Filling 100k entries directly is fast (small map values).
    let genesis = Hash32::digest(b"genesis");
    let syncer = ChainSyncer::new(genesis);
    assert_eq!(syncer.known_headers_len(), 1);
    // Simulate a nearly-full book without 100k inserts: verify the
    // boundary predicate shape via the public length API on a small
    // book, then prove the full-cap refusal on a filled book.
    let batch = linked_batch(1, 3, genesis);
    assert!(syncer.header_batch_valid(&batch));
    // Full book: MAX_KNOWN_HEADERS distinct heights.
    let mut full = ChainSyncer::new(genesis);
    let mut prev = genesis;
    let mut h = 1u32;
    while full.known_headers_len() < MAX_KNOWN_HEADERS {
        // Insert in chunks to keep the test fast.
        for _ in 0..1000 {
            if full.known_headers_len() >= MAX_KNOWN_HEADERS {
                break;
            }
            let hdr = test_header(h, prev);
            prev = hdr.hash;
            full.known_headers.insert(h, prev);
            h += 1;
        }
    }
    assert_eq!(full.known_headers_len(), MAX_KNOWN_HEADERS);
    // Any non-empty batch now refuses (would exceed the cap)...
    let over = linked_batch(h, 1, prev);
    assert!(!full.header_batch_valid(&over));
    // ...while an empty books accepts (sanity that validity otherwise holds).
    assert!(syncer.header_batch_valid(&linked_batch(1, 1, genesis)));
}

#[test]
fn test_unlinked_header_flood_leaves_no_state() {
    // Thousands of distinct unlinked header batches must ALL be refused
    // by the validity test with zero bookkeeping growth. Conflicts only exist
    // against RECORDED heights, so the test first records an honest
    // chain, then floods same-height alien hashes: those refuse too.
    // (That test, not the buffer, is the bound — a session only
    // buffers batches that pass it.)
    let genesis = Hash32::digest(b"genesis");
    let mut syncer = ChainSyncer::new(genesis);
    for i in 0..2500u32 {
        let orphan = test_header(1000 + i, Hash32::digest(format!("nope-{i}").as_bytes()));
        assert!(!syncer.header_batch_valid(std::slice::from_ref(&orphan)));
    }
    assert_eq!(syncer.known_headers_len(), 1);
    assert_eq!(syncer.pending_headers.len(), 0);
    // Record honest heights 1..=50 (as validated blocks would).
    let honest = linked_batch(1, 50, genesis);
    let honest_hashes: Vec<Hash32> = honest.iter().map(|h| h.hash).collect();
    let _ = syncer.received_headers(honest, NOW);
    assert_eq!(syncer.known_headers_len(), 51);
    // Same heights, alien hashes: refused, nothing changes.
    for i in 0..2500u32 {
        let h = 1 + (i % 50);
        let rogue = header(
            h,
            if h == 1 {
                genesis
            } else {
                honest_hashes[(h - 2) as usize]
            },
            Hash32::zero(),
            10_000 + i as u64,
        );
        assert_ne!(rogue.hash, honest_hashes[(h - 1) as usize]);
        assert!(
            !syncer.header_batch_valid(std::slice::from_ref(&rogue)),
            "recorded height {} must reject alien hashes",
            h
        );
    }
    assert_eq!(syncer.known_headers_len(), 51);
    // Spot-check recorded hashes survived intact.
    for (idx, want) in honest_hashes.iter().enumerate() {
        assert_eq!(syncer.known_headers.get(&(idx as u32 + 1)), Some(want));
    }
    // Buffering 50 headers legitimately put the syncer to work; refusals
    // above happened while syncing, which is the realistic attack shape.
    assert!(syncer.is_syncing());
    // The test still works for fresh honest heights afterwards.
    let next_prev = honest_hashes[49];
    assert!(syncer.header_batch_valid(&linked_batch(51, 3, next_prev)));
}

#[test]
fn locators_step_down_by_powers_of_two() {
    let genesis = Hash32::digest(b"genesis");
    let mut syncer = ChainSyncer::new(genesis);
    let chain = build_chain(20);
    for (h, header) in &chain {
        syncer.track_validated(*h, header.hash);
    }
    let tip = chain[&20].hash;
    let heights = [20u32, 19, 17, 13, 5, 0];
    let expected: Vec<Hash32> = heights.iter().map(|h| chain[h].hash).collect();
    assert_eq!(syncer.block_locator_hashes(tip, 20), expected);
}

#[test]
fn start_height_is_the_lowest_with_the_hash() {
    let genesis = Hash32::digest(b"genesis");
    let mut syncer = ChainSyncer::new(genesis);
    let twice = Hash32::digest(b"twice");
    syncer.track_validated(9, twice);
    syncer.track_validated(4, twice);
    assert_eq!(syncer.find_headers_start_height(&Hash32::zero()), Some(0));
    assert_eq!(syncer.find_headers_start_height(&genesis), Some(0));
    assert_eq!(syncer.find_headers_start_height(&twice), Some(4));
    assert_eq!(syncer.find_headers_start_height(&Hash32::digest(b"unknown")), None);
}

#[test]
fn last_batch_asks_for_known_blocks() {
    let genesis = Hash32::digest(b"genesis");
    let mut syncer = ChainSyncer::new(genesis);
    let batch = linked_batch(1, 600, genesis);
    let hashes: Vec<Hash32> = batch.iter().map(|h| h.hash).collect();
    let commands = syncer.received_headers(batch, NOW);
    assert_eq!(commands.len(), 1);
    match &commands[0] {
        SyncCommand::GetBlocks(asked) => assert_eq!(asked.as_slice(), &hashes[..501]),
        other => panic!("unexpected {:?}", other),
    }
    assert_eq!(syncer.pending_block_count(), 500);
    assert_eq!(syncer.next_block_height(), 502);
    assert_eq!(syncer.best_height, 600);
    assert!(syncer.is_expected_best(&hashes[599]));
}

#[test]
fn full_batch_asks_for_more_headers() {
    let genesis = Hash32::digest(b"genesis");
    let mut syncer = ChainSyncer::new(genesis);
    let batch = linked_batch(1, MAX_HEADERS_PER_RESPONSE, genesis);
    let last = batch[MAX_HEADERS_PER_RESPONSE - 1].hash;
    let commands = syncer.received_headers(batch, NOW);
    assert!(matches!(&commands[..], [SyncCommand::GetHeaders(h)] if *h == last));
}

#[test]
fn empty_batch_requests_the_block_after_the_tip() {
    let genesis = Hash32::digest(b"genesis");
    let mut syncer = ChainSyncer::new(genesis);
    let batch = linked_batch(1, MAX_HEADERS_PER_RESPONSE, genesis);
    let first = batch[0].hash;
    syncer.received_headers(batch, NOW);
    let commands = syncer.received_headers(vec![], NOW);
    assert!(matches!(&commands[..], [SyncCommand::RequestBlocksFrom(h)] if *h == first));
    assert_eq!(syncer.next_block_height(), 2);
    assert_eq!(syncer.advance_block_sync(), Some(linked_batch(1, 2, genesis)[1].hash));
    assert_eq!(syncer.next_block_height(), 3);
}

#[test]
fn advancing_past_the_best_height_ends_the_sync() {
    let mut syncer = ChainSyncer::new(Hash32::digest(b"genesis"));
    assert_eq!(syncer.advance_block_sync(), None);
    assert!(syncer.is_caught_up());
}

#[test]
fn timeout_is_strict() {
    let mut syncer = ChainSyncer::new(Hash32::digest(b"genesis"));
    syncer.last_sync_request_time = Some(ago(SYNC_RESPONSE_TIMEOUT_SECS));
    assert!(!syncer.is_sync_timed_out(NOW));
    assert!(syncer.is_sync_timed_out(Instant { nanos: NOW.nanos + 1 }));
}

#[test]
fn requested_blocks_follow_the_first() {
    let genesis = Hash32::digest(b"genesis");
    let mut syncer = ChainSyncer::new(genesis);
    let batch = linked_batch(1, 3, genesis);
    let hashes: Vec<Hash32> = batch.iter().map(|h| h.hash).collect();
    syncer.received_headers(batch, NOW);
    let msg = syncer.start_block_sync(SocketAddr::v4(10, 0, 0, 1, 1), genesis, 0, NOW);
    let asked: Vec<Hash32> = msg.inventory.iter().map(|e| e.hash).collect();
    assert_eq!(asked, vec![genesis, hashes[0], hashes[1], hashes[2]]);
    assert_eq!(syncer.pending_block_requests, hashes);
    syncer.received_block(hashes[1], 2, NOW);
    assert_eq!(syncer.pending_block_requests, vec![hashes[0], hashes[2]]);
    assert_eq!(syncer.pending_headers.len(), 1);
}

#[test]
fn fork_of_a_longer_chain() {
    let local = build_chain(3);
    let h2 = header(2, local[&1].hash, Hash32::zero(), 7);
    let h3 = test_header(3, h2.hash);
    let h4 = test_header(4, h3.hash);
    let fork = detect_fork(&local, &[local[&1], h2, h3, h4], 1, 3).unwrap();
    assert_eq!(fork.fork_height, 1);
    assert_eq!(fork.fork_hash, local[&1].hash);
    assert_eq!(fork.rollback_heights, vec![2, 3]);
    assert_eq!(fork.apply_heights, vec![2, 3, 4]);
}

#[test]
fn test_sync_state_machine_integration() {
    let genesis_hash = Hash32::digest(b"genesis");

    let mut syncer = ChainSyncer::new(genesis_hash);
    assert_eq!(syncer.state, SyncState::Idle);

    let peer = SocketAddr::v4(127, 0, 0, 1, 8333);
    let msg = syncer.start_header_sync(peer, genesis_hash, NOW);
    assert_eq!(syncer.state, SyncState::SyncingHeaders);
    assert_eq!(msg.start_hash, genesis_hash);
    assert_eq!(msg.stop_hash, Hash32::zero());

    let cmds = syncer.received_headers(vec![], NOW);
    assert_eq!(syncer.state, SyncState::CaughtUp);
    assert!(cmds.iter().any(|c| matches!(c, SyncCommand::SyncComplete)));
}

#[test]
fn e2e_detect_fork_integration() {
    let genesis = BlockHeader {
        height: 0,
        hash: Hash32::digest(b"regtest genesis"),
        previous_hash: Hash32::zero(),
    };
    let after = |previous: &BlockHeader, nonce: u64| BlockHeader {
        height: previous.height + 1,
        hash: Hash32::digest(&nonce.to_le_bytes()),
        previous_hash: previous.hash,
    };
    let mut local_headers = std::collections::BTreeMap::new();
    local_headers.insert(0, genesis);
    let header1 = after(&genesis, 42);
    local_headers.insert(1, header1);
    let header2 = after(&header1, 99);
    local_headers.insert(2, header2);

    let fork_header1 = after(&genesis, 77);
    let fork_header2 = after(&fork_header1, 88);
    let fork_header3 = after(&fork_header2, 111);

    let new_chain = vec![fork_header1, fork_header2, fork_header3];
    let fork_info = detect_fork(&local_headers, &new_chain, 1, 2);

    assert!(fork_info.is_some(), "detect_fork should find a fork");
    let info = fork_info.unwrap();
    assert!(
        info.fork_height > 0 || !info.apply_heights.is_empty(),
        "fork should have apply heights"
    );
    assert!(
        !info.apply_heights.is_empty(),
        "new chain should have blocks to apply"
    );

    let identical_chain = vec![header1, header2];
    let no_fork = detect_fork(&local_headers, &identical_chain, 1, 2);
    assert!(no_fork.is_none(), "identical chains should produce no fork");
}

#[test]
fn conflicting_headers_leave_no_trace() {
    let genesis = Hash32::digest(b"genesis");
    let at = |height: u32, seed: &[u8]| BlockHeader {
        height,
        hash: Hash32::digest(seed),
        previous_hash: genesis,
    };
    let mut syncer = ChainSyncer::new(genesis);
    syncer.received_headers(vec![at(1, b"one")], NOW);
    let batch = vec![
        at(2, b"two"),
        at(1, b"other one"),
        at(2, b"other two"),
        at(1, b"one"),
        at(9, b"nine"),
        at(9, b"other nine"),
        at(3, b"three"),
    ];
    let taken = [at(1, b"one"), at(2, b"two"), at(1, b"one"), at(9, b"nine"), at(3, b"three")];
    syncer.received_headers(batch, NOW);
    let buffered: Vec<(u32, Hash32)> =
        syncer.pending_headers.iter().map(|h| (h.height, h.hash)).collect();
    assert_eq!(buffered, taken.iter().map(|h| (h.height, h.hash)).collect::<Vec<_>>());
    let known: Vec<u32> = syncer.known_headers.keys().copied().collect();
    assert_eq!(known, vec![0, 1, 2, 3, 9]);
    assert_eq!(syncer.known_headers[&9], Hash32::digest(b"nine"));
    assert_eq!((syncer.best_height, syncer.best_hash), (9, Hash32::digest(b"nine")));
}

#[test]
fn batches_at_the_top_of_the_range() {
    let genesis = Hash32::digest(b"genesis");
    let at = |height: u32| BlockHeader {
        height,
        hash: Hash32::digest(&height.to_le_bytes()),
        previous_hash: genesis,
    };
    // A batch for which there is no room is ignored, and after a full one headers are requested,
    // however high the validated tip is.
    let mut syncer = ChainSyncer::new(genesis);
    syncer.synced_header_height = u32::MAX - 1;
    let many: Vec<BlockHeader> = (0..10_001).map(at).collect();
    assert!(syncer.received_headers(many, NOW).is_empty());
    let full: Vec<BlockHeader> = (u32::MAX - 1_999..=u32::MAX).map(at).collect();
    let commands = syncer.received_headers(full, NOW);
    assert!(matches!(&commands[..], [SyncCommand::GetHeaders(_)]));
    assert_eq!(syncer.best_height, u32::MAX);
    // The block after the tip is not known: nothing is computed beyond it.
    syncer.known_headers.remove(&u32::MAX);
    assert!(syncer.received_headers(vec![], NOW).is_empty());
    assert_eq!(syncer.next_height, u32::MAX);
}
