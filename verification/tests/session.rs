//! What a connection does with the frames of its peer.

use chroma_p2p::addr::SocketAddr;
use chroma_p2p::error::{CoreError, IoError, P2pError};
use chroma_p2p::event::NodeEvent;
use chroma_p2p::hash::Hash32;
use chroma_p2p::mempool::{Address, Mempool, Transaction};
use chroma_p2p::peer::{
    PeerManager, PeerState, RateLimits, PEER_TIMEOUT_SECS, SCORE_CONNECT_FAIL, SCORE_INVALID_BLOCK,
    SCORE_INVALID_TX, SCORE_MALFORMED, SCORE_RATE_LIMIT,
};
use chroma_p2p::session::{
    admit_frame, before_read, block_rejection_score, hash_all, headers_body, idle_timeout,
    on_block_applied, on_block_rejected, on_empty_batch, on_header_batch, on_ping, on_pong,
    on_read_error, on_tx, on_undecodable_block, on_undecodable_tx, requested_start, stored_start,
    AppliedBlock, BeforeRead, HeaderServer, HeadersBody, StartHeight, TxOutcome,
    ENCODED_HEADER_SIZE,
};
use chroma_p2p::sync::{BlockHeader, ChainSyncer, SyncState, MAX_HEADERS_PER_RESPONSE};
use chroma_p2p::time::{Instant, NANOS_PER_SEC};
use chroma_p2p::wire::{
    GetDataMessage, GetHeadersMessage, InvMessage, InvType, MessageType, PingMessage, MAGIC,
    REGTEST_MAGIC,
};
use chroma_p2p::RelayStats;

const NOW: Instant = Instant { nanos: 1_000_000 * NANOS_PER_SEC };

fn later(secs: u64) -> Instant {
    Instant { nanos: NOW.nanos + secs * NANOS_PER_SEC }
}

fn peer() -> SocketAddr {
    SocketAddr::v4(10, 0, 0, 1, 1000)
}

fn other() -> SocketAddr {
    SocketAddr::v4(10, 0, 0, 2, 1000)
}

fn manager() -> PeerManager {
    let mut pm = PeerManager::new(RateLimits { messages: 5, transactions: 2 });
    for addr in [peer(), other()] {
        pm.add_peer(addr, NOW);
        pm.get_peer_mut(&addr).unwrap().state = PeerState::Ready;
    }
    pm
}

fn score(pm: &PeerManager) -> i32 {
    pm.get_peer(&peer()).unwrap().score
}

fn text_of(e: &NodeEvent) -> String {
    match e {
        NodeEvent::Error(text) => text.clone(),
        _ => panic!("an error is reported"),
    }
}

fn genesis() -> Hash32 {
    Hash32::digest(b"genesis")
}

fn syncer() -> ChainSyncer {
    ChainSyncer::new(genesis())
}

/// Headers 1 to `n` on top of the genesis block.
fn chain(n: u32) -> Vec<BlockHeader> {
    let mut previous = genesis();
    let mut headers = Vec::new();
    for height in 1..=n {
        let hash = Hash32::digest(&height.to_le_bytes());
        headers.push(BlockHeader { height, hash, previous_hash: previous });
        previous = hash;
    }
    headers
}

fn transaction(amount: u64, nonce: u64) -> Transaction {
    let mut encoded = amount.to_le_bytes().to_vec();
    encoded.extend_from_slice(&nonce.to_le_bytes());
    Transaction { sender: Address([1; 20]), recipient: Address([2; 20]), amount, nonce, encoded }
}

#[test]
fn banned_peer_is_left() {
    let mut pm = manager();
    assert!(matches!(before_read(&mut pm, &syncer(), &peer(), NOW), BeforeRead::Read));
    pm.ban_peer(&peer(), NOW);
    match before_read(&mut pm, &syncer(), &peer(), NOW) {
        BeforeRead::Leave(e, None) => assert!(e.to_string().contains("peer banned")),
        _ => panic!("a banned peer is left"),
    }
}

#[test]
fn overdue_sync_ends_only_its_own_connection() {
    let mut pm = manager();
    let mut s = syncer();
    s.start_header_sync(peer(), genesis(), NOW);
    let overdue = later(1_000);
    assert!(matches!(before_read(&mut pm, &s, &peer(), later(1)), BeforeRead::Read));
    assert!(matches!(before_read(&mut pm, &s, &other(), overdue), BeforeRead::Pause));
    match before_read(&mut pm, &s, &peer(), overdue) {
        BeforeRead::Leave(e, Some(NodeEvent::SyncTimeout(addr))) => {
            assert!(e.to_string().contains("sync timeout"));
            assert_eq!(addr, peer());
        }
        _ => panic!("the sync peer is left"),
    }
    assert_eq!(score(&pm), -SCORE_CONNECT_FAIL);
}

#[test]
fn silence_is_an_error() {
    assert!(idle_timeout().to_string().contains("idle timeout: no frames"));
    assert_eq!(PEER_TIMEOUT_SECS, 30);
}

#[test]
fn frames_beyond_the_allowance_cost() {
    let mut pm = manager();
    for _ in 0..5 {
        assert!(admit_frame(&mut pm, &peer(), later(1)).is_ok());
    }
    assert_eq!(pm.get_peer(&peer()).unwrap().last_seen, Some(later(1)));
    let e = admit_frame(&mut pm, &peer(), later(1)).unwrap_err();
    assert!(e.to_string().contains("rate limited"));
    assert_eq!(score(&pm), -SCORE_RATE_LIMIT);
    assert!(admit_frame(&mut pm, &SocketAddr::v4(9, 9, 9, 9, 9), NOW).is_ok());
}

#[test]
fn ping_is_answered_with_its_nonce() {
    let mut pm = manager();
    let pong = on_ping(&mut pm, &peer(), &PingMessage { nonce: 99 }.encode(), REGTEST_MAGIC, later(3)).unwrap();
    assert_eq!(pong.msg_type, MessageType::Pong);
    assert_eq!(pong.magic, REGTEST_MAGIC);
    assert_eq!(PingMessage::decode(&pong.payload).unwrap().nonce, 99);
    assert_eq!(score(&pm), 1);
    assert!(on_ping(&mut pm, &peer(), &[1], REGTEST_MAGIC, NOW).is_err());
    on_pong(&mut pm, &peer(), later(7));
    assert_eq!(pm.get_peer(&peer()).unwrap().last_seen, Some(later(7)));
}

#[test]
fn requests_for_headers_start_where_they_say() {
    let mut s = syncer();
    s.start_header_sync(peer(), genesis(), NOW);
    s.received_headers(chain(3), NOW);
    let ask = |hash: Hash32| GetHeadersMessage { start_hash: hash, stop_hash: Hash32::zero() }.encode();
    assert!(matches!(requested_start(&s, &ask(Hash32::zero())), Ok(StartHeight::Known(0))));
    assert!(matches!(requested_start(&s, &ask(chain(3)[1].hash)), Ok(StartHeight::Known(2))));
    let unknown = Hash32::digest(b"unknown");
    match requested_start(&s, &ask(unknown)) {
        Ok(StartHeight::AskStorage(hash)) => assert_eq!(hash, unknown),
        _ => panic!("the storage is asked"),
    }
    assert!(requested_start(&s, &[0; 3]).is_err());
    assert_eq!((stored_start(Some(7)), stored_start(None)), (7, 0));
}

#[test]
fn headers_that_are_served_are_read() {
    let mut server = HeaderServer::new(10, 13);
    let mut sent = Vec::new();
    while let Some(height) = server.wanted() {
        let encoded = vec![height as u8; ENCODED_HEADER_SIZE];
        sent.push(encoded.clone());
        server.supply(Some(encoded));
    }
    assert_eq!(sent.len(), 3);
    assert_eq!(sent[0][0], 11);
    let reply = server.finish(REGTEST_MAGIC);
    assert_eq!(reply.msg_type, MessageType::Headers);
    match headers_body(&reply.payload) {
        HeadersBody::Encoded(headers) => assert_eq!(headers, sent),
        _ => panic!("the headers are there"),
    }
}

#[test]
fn a_gap_ends_the_reply() {
    let mut server = HeaderServer::new(0, 5);
    server.supply(Some(vec![1; ENCODED_HEADER_SIZE]));
    server.supply(None);
    assert_eq!(server.wanted(), None);
    assert_eq!(server.finish(MAGIC).payload.len(), 4 + ENCODED_HEADER_SIZE);
}

#[test]
fn replies_are_bounded() {
    let server = HeaderServer::new(7, u32::MAX);
    assert_eq!(server.last, 7 + MAX_HEADERS_PER_RESPONSE as u32);
    assert_eq!(HeaderServer::new(9, 9).wanted(), None);
}

#[test]
fn bodies_of_header_messages() {
    assert!(matches!(headers_body(&[1, 0, 0]), HeadersBody::Ignore));
    assert!(matches!(headers_body(&[0, 0, 0, 0]), HeadersBody::Empty));
    let count = (MAX_HEADERS_PER_RESPONSE as u32 + 1).to_le_bytes();
    assert!(matches!(headers_body(&count), HeadersBody::TooMany));
    let mut short = vec![2, 0, 0, 0];
    short.extend_from_slice(&[5; ENCODED_HEADER_SIZE + 1]);
    match headers_body(&short) {
        HeadersBody::Encoded(headers) => assert_eq!(headers, vec![vec![5; ENCODED_HEADER_SIZE]]),
        _ => panic!("one header is whole"),
    }
}

#[test]
fn only_the_owner_feeds_the_sync() {
    let mut s = syncer();
    s.start_header_sync(peer(), genesis(), NOW);
    assert!(on_header_batch(&mut s, &other(), chain(2), REGTEST_MAGIC, NOW).is_empty());
    assert_eq!(s.sync_peer(), Some(peer()));
    let messages = on_header_batch(&mut s, &peer(), chain(2), REGTEST_MAGIC, NOW);
    assert!(!messages.is_empty());
    assert!(messages.iter().all(|m| m.magic == REGTEST_MAGIC));
    assert_eq!(s.sync_peer(), Some(peer()));
}

#[test]
fn a_batch_that_does_not_fit_is_ignored() {
    let mut s = syncer();
    s.start_header_sync(peer(), genesis(), NOW);
    let mut headers = chain(3);
    headers[1].previous_hash = Hash32::digest(b"elsewhere");
    assert!(on_header_batch(&mut s, &peer(), headers, REGTEST_MAGIC, NOW).is_empty());
    assert_eq!(s.state, SyncState::SyncingHeaders);
}

#[test]
fn the_end_of_the_headers() {
    let mut s = syncer();
    s.start_header_sync(peer(), genesis(), NOW);
    assert!(on_empty_batch(&mut s, &other(), REGTEST_MAGIC, NOW).is_empty());
    assert_eq!(s.state, SyncState::SyncingHeaders);
    on_empty_batch(&mut s, &peer(), REGTEST_MAGIC, NOW);
    assert_eq!(s.state, SyncState::CaughtUp);
}

#[test]
fn only_forgeries_are_charged() {
    let invalid = |text: &str| CoreError::InvalidBlock(text.to_string());
    for e in [
        CoreError::InvalidProofOfWork,
        CoreError::InvalidStateRoot,
        CoreError::InvalidMerkleRoot,
        CoreError::BlockSizeExceeded,
        CoreError::TransactionSizeExceeded,
        CoreError::SupplyInvariant,
        CoreError::Overflow,
        CoreError::InvalidSignature("s".to_string()),
        invalid("bad coinbase here"),
        invalid("subsidy"),
        invalid("the reward is wrong"),
        invalid("zero sender"),
        invalid("zero signature"),
        invalid("at least one transaction"),
        invalid("nonce must be 0"),
    ] {
        assert_eq!(block_rejection_score(&e), SCORE_INVALID_BLOCK, "{:?}", e);
    }
    for e in [
        invalid("previous hash mismatch"),
        invalid("Coinbase"),
        CoreError::Serialization("s".to_string()),
        CoreError::InvalidTransaction("coinbase".to_string()),
        CoreError::Other("reward".to_string()),
    ] {
        assert_eq!(block_rejection_score(&e), 0, "{:?}", e);
    }
}

#[test]
fn rejected_blocks_are_counted() {
    let mut pm = manager();
    let mut s = syncer();
    let mut stats = RelayStats::default();
    let mut seen = 0;
    loop {
        let stale = CoreError::InvalidBlock("stale".to_string());
        let events = on_block_rejected(&mut pm, &mut s, &mut stats, &peer(), "p", &stale, "why", NOW);
        seen += 1;
        assert_eq!(text_of(&events[0]), "block validation failed: why");
        if events.len() == 2 {
            assert_eq!(text_of(&events[1]), "peer p banned for repeated sync failures");
            break;
        }
    }
    assert!(s.is_peer_banned_for_sync());
    assert_eq!(stats.snapshot().blocks_rejected_unscored, seen);
    assert_eq!(score(&pm), 0);
    on_block_rejected(&mut pm, &mut s, &mut stats, &peer(), "p", &CoreError::InvalidProofOfWork, "pow", NOW);
    assert_eq!(stats.snapshot().blocks_rejected_scored, 1);
    assert_eq!(score(&pm), -SCORE_INVALID_BLOCK);
    let e = on_undecodable_block(&mut pm, &mut s, &peer(), "p", "short", NOW);
    assert_eq!(text_of(&e), "block decode failed from p: short");
    assert_eq!(score(&pm), -SCORE_INVALID_BLOCK - SCORE_MALFORMED);
}

#[test]
fn applied_block_is_announced_and_leaves_the_pool() {
    let mut s = syncer();
    let mut pool = Mempool::new();
    let mut stats = RelayStats::default();
    let (mined, waiting) = (transaction(5, 0), transaction(5, 1));
    let encoded = vec![mined.encoded.clone()];
    pool.add_transaction(mined, true).unwrap();
    pool.add_transaction(waiting, true).unwrap();
    let block = AppliedBlock {
        hash: chain(1)[0].hash,
        height: 1,
        old_height: 0,
        old_hash: genesis(),
    };
    let out = on_block_applied(&mut s, &mut pool, &mut stats, &block, &hash_all(&encoded), REGTEST_MAGIC, NOW);
    assert_eq!(pool.len(), 1);
    assert_eq!(stats.snapshot().blocks_applied, 1);
    assert!(matches!(&out.events[..], [NodeEvent::BlockReceived(h, 1)] if *h == block.hash));
    assert!(out.request.is_none());
    let inv = InvMessage::decode(&out.announcement.unwrap().payload).unwrap();
    assert_eq!(inv.inventory.len(), 1);
    assert_eq!(inv.inventory[0].inv_type, InvType::Block);
    assert_eq!(inv.inventory[0].hash, block.hash);
}

#[test]
fn lower_tip_is_a_reorganisation() {
    let mut s = syncer();
    let mut pool = Mempool::new();
    let mut stats = RelayStats::default();
    let block = AppliedBlock {
        hash: Hash32::digest(b"new"),
        height: 4,
        old_height: 6,
        old_hash: Hash32::digest(b"old"),
    };
    let out = on_block_applied(&mut s, &mut pool, &mut stats, &block, &[], REGTEST_MAGIC, NOW);
    match &out.events[1] {
        NodeEvent::Reorg { old_height, old_hash, new_height, new_hash, depth } => {
            assert_eq!((*old_height, *new_height, *depth), (6, 4, 2));
            assert_eq!((*old_hash, *new_hash), (block.old_hash, block.hash));
        }
        _ => panic!("the tip went down"),
    }
}

#[test]
fn block_sync_goes_on() {
    let mut s = syncer();
    let headers = chain(3);
    s.start_header_sync(peer(), genesis(), NOW);
    on_header_batch(&mut s, &peer(), headers.clone(), REGTEST_MAGIC, NOW);
    on_empty_batch(&mut s, &peer(), REGTEST_MAGIC, NOW);
    let mut pool = Mempool::new();
    let mut stats = RelayStats::default();
    let mut asked = Vec::new();
    let mut old_hash = genesis();
    for h in &headers {
        let block = AppliedBlock { hash: h.hash, height: h.height, old_height: h.height - 1, old_hash };
        old_hash = h.hash;
        let out = on_block_applied(&mut s, &mut pool, &mut stats, &block, &[], REGTEST_MAGIC, NOW);
        if let Some(request) = out.request {
            assert_eq!(request.msg_type, MessageType::GetData);
            for entry in GetDataMessage::decode(&request.payload).unwrap().inventory {
                assert_eq!(entry.inv_type, InvType::Block);
                asked.push(entry.hash);
            }
        }
    }
    assert!(asked.iter().all(|hash| headers.iter().any(|h| h.hash == *hash)));
    assert_eq!(s.pending_block_count(), 0);
}

#[test]
fn transactions_of_a_peer() {
    let mut pm = manager();
    let mut pool = Mempool::new();
    let good = transaction(5, 0);
    let hash = Hash32::digest(&good.encoded);
    match on_tx(&mut pm, &mut pool, &peer(), "p", good, b"payload", true, REGTEST_MAGIC, NOW) {
        TxOutcome::Accepted(NodeEvent::TxReceived(h), msg) => {
            assert_eq!(h, hash);
            assert_eq!(msg.msg_type, MessageType::Inv);
            let inv = InvMessage::decode(&msg.payload).unwrap();
            assert_eq!((inv.inventory[0].inv_type, inv.inventory[0].hash), (InvType::Tx, hash));
        }
        _ => panic!("the transaction is valid"),
    }
    assert!(pool.has_transaction(&hash));
    match on_tx(&mut pm, &mut pool, &peer(), "p", transaction(5, 1), b"payload", false, REGTEST_MAGIC, NOW) {
        TxOutcome::Invalid(e, msg) => {
            assert_eq!(
                text_of(&e),
                "invalid tx from p: invalid signature: transaction signature verification failed"
            );
            assert_eq!(msg.msg_type, MessageType::NotFound);
            assert_eq!(msg.magic, REGTEST_MAGIC);
            let inv = InvMessage::decode(&msg.payload).unwrap();
            assert_eq!(inv.inventory[0].hash, Hash32::digest(b"payload"));
        }
        _ => panic!("the signature is wrong"),
    }
    assert_eq!(score(&pm), -SCORE_INVALID_TX);
    match on_tx(&mut pm, &mut pool, &peer(), "p", transaction(5, 2), b"payload", true, REGTEST_MAGIC, NOW) {
        TxOutcome::RateLimited(e) => assert_eq!(text_of(&e), "tx rate limited from p"),
        _ => panic!("two transactions are the allowance"),
    }
    assert_eq!(pool.len(), 1);
    assert_eq!(score(&pm), -SCORE_INVALID_TX - SCORE_RATE_LIMIT);
    let e = on_undecodable_tx(&mut pm, &peer(), "p", "short", NOW);
    assert_eq!(text_of(&e), "tx decode failed from p: short");
}

#[test]
fn failed_reads() {
    let mut pm = manager();
    let gone = P2pError::Io(IoError { eof: true, kind: "eof".to_string(), message: "m".to_string() });
    assert!(on_read_error(&mut pm, &peer(), gone, NOW).is_ok());
    let other_fault = P2pError::protocol("checksum mismatch");
    let e = on_read_error(&mut pm, &peer(), other_fault, NOW).unwrap_err();
    assert!(e.to_string().contains("checksum mismatch"));
    assert_eq!(score(&pm), 0);
    let e = on_read_error(&mut pm, &peer(), P2pError::protocol("bad magic"), NOW).unwrap_err();
    assert!(e.to_string().contains("bad magic"));
    assert_eq!(score(&pm), -SCORE_MALFORMED);
}
