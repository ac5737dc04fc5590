//! Connections: who is let in, who is dialled, and what is relayed.

use chroma_p2p::addr::SocketAddr;
use chroma_p2p::connect::{
    admit_inbound, after_dial, became_ready, bind_static_key, bootstrap_addrs, cleanup_connection,
    disconnect, handshake_failed, may_dial, open_connection, peer_tick, ping, reconnect_candidates,
    start_sync, KeyCheck,
};
use chroma_p2p::event::NodeEvent;
use chroma_p2p::hash::Hash32;
use chroma_p2p::mempool::{Address, Mempool, Transaction};
use chroma_p2p::miner::{mining_address, on_block_mined, plan_block};
use chroma_p2p::peer::{
    PeerManager, PeerState, RateLimits, IDLE_EVICT_SECS, MAX_OUTBOUND_PEERS, MAX_PER_IP_PEERS,
    SCORE_CONNECT_FAIL, SCORE_MALFORMED,
};
use chroma_p2p::relay::{
    announce, broadcast_targets, execute_sync_commands, note_reply, not_found, on_getdata, on_inv,
    outgoing, request_blocks, request_missing, serve, ReplyKind,
};
use chroma_p2p::sync::{ChainSyncer, SyncCommand, SyncState, IBD_HEIGHT_THRESHOLD};
use chroma_p2p::time::{Instant, NANOS_PER_SEC};
use chroma_p2p::wire::{
    GetDataMessage, GetHeadersMessage, InvEntry, InvMessage, InvType, Message, MessageType,
    PingMessage, MAGIC, MAX_INV_FOLLOW, REGTEST_MAGIC,
};
use chroma_p2p::RelayStats;

const NOW: Instant = Instant { nanos: 1_000_000 * NANOS_PER_SEC };

fn later(secs: u64) -> Instant {
    Instant { nanos: NOW.nanos + secs * NANOS_PER_SEC }
}

fn addr(n: u8) -> SocketAddr {
    SocketAddr::v4(10, 0, 0, n, 1000)
}

fn manager() -> PeerManager {
    PeerManager::new(RateLimits { messages: 100, transactions: 10 })
}

fn ready(pm: &mut PeerManager, a: SocketAddr) {
    pm.add_peer(a, NOW);
    became_ready(pm, &a, 0, NOW);
}

fn entry(inv_type: InvType, text: &[u8]) -> InvEntry {
    InvEntry { inv_type, hash: Hash32::digest(text) }
}

#[test]
fn admitted_connection_has_its_slot() {
    let mut pm = manager();
    let mut started = 0;
    for port in 0..10u16 {
        if admit_inbound(&mut pm, &SocketAddr::v4(10, 0, 0, 1, port), false, NOW) {
            started += 1;
        }
    }
    assert_eq!(started, MAX_PER_IP_PEERS);
    assert_eq!(pm.count_by_ip(&addr(1).ip()), MAX_PER_IP_PEERS);
    assert!(admit_inbound(&mut pm, &addr(2), false, NOW));
    assert_eq!(pm.get_peer(&addr(2)).unwrap().state, PeerState::Connecting);
    assert_eq!(pm.get_peer(&addr(2)).unwrap().connected_at, Some(NOW));
}

#[test]
fn nothing_starts_while_shutting_down() {
    let mut pm = manager();
    assert!(!admit_inbound(&mut pm, &addr(1), true, NOW));
    assert_eq!(pm.total_count(), 0);
    assert!(!may_dial(&mut pm, &addr(1), true, NOW));
    assert!(may_dial(&mut pm, &addr(1), false, NOW));
    assert!(!after_dial(&mut pm, &addr(1), true, true, NOW));
}

#[test]
fn failed_dial_is_recorded() {
    let mut pm = manager();
    open_connection(&mut pm, &addr(1), NOW);
    assert!(!after_dial(&mut pm, &addr(1), false, false, NOW));
    assert_eq!(pm.connect_failure_count(), 1);
    let p = pm.get_peer(&addr(1)).unwrap();
    assert_eq!((p.state, p.score), (PeerState::Disconnected, -SCORE_CONNECT_FAIL));
    assert!(!may_dial(&mut pm, &addr(1), false, later(1)));
    assert!(may_dial(&mut pm, &addr(1), false, later(600)));
}

#[test]
fn second_connection_to_one_address_is_dropped() {
    let mut pm = manager();
    assert!(after_dial(&mut pm, &addr(1), true, false, NOW));
    ready(&mut pm, addr(1));
    assert!(!after_dial(&mut pm, &addr(1), true, false, NOW));
}

#[test]
fn closing_gives_up_the_sync_it_carried() {
    let mut pm = manager();
    let genesis = Hash32::digest(b"genesis");
    let mut s = ChainSyncer::new(genesis);
    ready(&mut pm, addr(1));
    ready(&mut pm, addr(2));
    s.start_header_sync(addr(1), genesis, NOW);
    let e = cleanup_connection(&mut pm, &mut s, &addr(2), NOW);
    assert!(matches!(e, NodeEvent::PeerDisconnected(a) if a == addr(2)));
    assert_eq!(s.state, SyncState::SyncingHeaders);
    cleanup_connection(&mut pm, &mut s, &addr(1), NOW);
    assert_eq!(s.state, SyncState::Idle);
    assert_eq!(s.sync_peer(), None);
    assert_eq!(pm.peer_entry_count(), 0);
    assert!(matches!(disconnect(&mut pm, &addr(3), NOW), NodeEvent::PeerDisconnected(_)));
}

#[test]
fn failed_handshake_leaves_no_slot() {
    let mut pm = manager();
    open_connection(&mut pm, &addr(1), NOW);
    handshake_failed(&mut pm, &addr(1), NOW);
    assert_eq!(pm.total_count(), 0);
    assert!(pm.get_peer(&addr(1)).is_none());
    // One that is close to a ban is banned by it, and its address with it.
    open_connection(&mut pm, &addr(2), NOW);
    pm.get_peer_mut(&addr(2)).unwrap().score = -190;
    handshake_failed(&mut pm, &addr(2), NOW);
    assert!(pm.is_ip_banned(&addr(2).ip(), NOW));
    assert_eq!(pm.total_count(), 0);
}

#[test]
fn ready_peer_is_forgiven() {
    let mut pm = manager();
    pm.record_connect_failure(&addr(1), NOW);
    assert_eq!(pm.connect_failure_count(), 1);
    pm.add_peer(addr(1), NOW);
    let e = became_ready(&mut pm, &addr(1), 77, later(2));
    assert!(matches!(e, NodeEvent::PeerConnected(a) if a == addr(1)));
    assert_eq!(pm.connect_failure_count(), 0);
    let p = pm.get_peer(&addr(1)).unwrap();
    assert_eq!((p.state, p.height, p.last_seen), (PeerState::Ready, 77, Some(later(2))));
}

#[test]
fn static_keys_are_bound() {
    let mut pm = manager();
    pm.add_peer(addr(1), NOW);
    let own = [1u8; 32];
    assert!(matches!(bind_static_key(&mut pm, &addr(1), "p", &own, own), KeyCheck::SelfConnection));
    assert_eq!(pm.get_peer(&addr(1)).unwrap().remote_static, None);
    for _ in 0..2 {
        assert!(matches!(bind_static_key(&mut pm, &addr(1), "p", &own, [2; 32]), KeyCheck::Bound(None)));
    }
    match bind_static_key(&mut pm, &addr(1), "p", &own, [3; 32]) {
        KeyCheck::Bound(Some(NodeEvent::Error(text))) => {
            assert_eq!(text, "peer p identity changed; possible MITM or key rotation")
        }
        _ => panic!("the change is reported"),
    }
    assert_eq!(pm.get_peer(&addr(1)).unwrap().remote_static, Some([3; 32]));
}

#[test]
fn sync_starts_with_the_first_dialled_peer() {
    let genesis = Hash32::digest(b"genesis");
    let mut s = ChainSyncer::new(genesis);
    let inbound = start_sync(&mut s, &addr(1), false, (genesis, 0), 5, REGTEST_MAGIC, NOW);
    assert!(inbound.requests.is_empty());
    assert_eq!(s.state, SyncState::Idle);
    let far = IBD_HEIGHT_THRESHOLD + 1;
    let first = start_sync(&mut s, &addr(1), true, (genesis, 0), far, REGTEST_MAGIC, NOW);
    match first.reported {
        Some(NodeEvent::Error(text)) => {
            assert_eq!(text, format!("IBD: local height 0 vs peer height {}, starting sync", far))
        }
        _ => panic!("the node is far behind"),
    }
    assert!(!first.requests.is_empty());
    let request = GetHeadersMessage::decode(&first.requests[0].payload).unwrap();
    assert_eq!(request.start_hash, genesis);
    assert_eq!(first.requests[0].magic, REGTEST_MAGIC);
    assert_eq!(s.sync_peer(), Some(addr(1)));
    let second = start_sync(&mut s, &addr(2), true, (genesis, 0), 5, REGTEST_MAGIC, NOW);
    assert!(second.requests.is_empty() && second.reported.is_none());
    assert_eq!(s.sync_peer(), Some(addr(1)));
}

#[test]
fn tick_pings_and_evicts() {
    let mut pm = manager();
    ready(&mut pm, addr(1));
    ready(&mut pm, addr(2));
    let at = later(IDLE_EVICT_SECS + 1);
    pm.get_peer_mut(&addr(2)).unwrap().last_seen = Some(at);
    let tick = peer_tick(&pm, at);
    assert_eq!(tick.ping.len(), 2);
    assert_eq!(tick.evict, vec![addr(1)]);
    let msg = ping(0x0102_0304_0506_0708);
    assert_eq!(msg.msg_type, MessageType::Ping);
    assert_eq!(PingMessage::decode(&msg.payload).unwrap().nonce, 0x0102_0304_0506_0708);
}

#[test]
fn bootstrap_skips_what_is_configured() {
    let found = vec![addr(1), addr(2), addr(1), addr(3)];
    assert_eq!(bootstrap_addrs(&found, &vec![addr(2)]), vec![addr(1), addr(3)]);
}

#[test]
fn candidates_can_be_dialled() {
    let mut pm = manager();
    ready(&mut pm, addr(1));
    pm.ban_ip(addr(4).ip(), NOW);
    pm.record_connect_failure(&addr(3), NOW);
    let configured = vec![addr(1), addr(2), addr(3)];
    let discovered = vec![addr(2), addr(4), addr(5)];
    let candidates = reconnect_candidates(&mut pm, &configured, &discovered, NOW);
    assert_eq!(candidates, vec![addr(2), addr(5)]);
    for n in 10..10 + MAX_OUTBOUND_PEERS as u8 {
        ready(&mut pm, addr(n));
    }
    assert!(reconnect_candidates(&mut pm, &configured, &discovered, NOW).is_empty());
}

#[test]
fn broadcasts_go_where_there_is_a_channel() {
    let mut pm = manager();
    ready(&mut pm, addr(1));
    ready(&mut pm, addr(2));
    pm.add_peer(addr(3), NOW);
    let (tx, _rx) = tokio::sync::mpsc::channel::<Vec<u8>>(1);
    pm.set_channel(addr(2), tx.clone());
    pm.set_channel(addr(3), tx);
    assert_eq!(broadcast_targets(&pm, NOW), vec![addr(2)]);
}

#[test]
fn outgoing_messages_are_for_our_network() {
    let msg = outgoing(announce(InvType::Tx, Hash32::digest(b"t")), REGTEST_MAGIC);
    assert_eq!((msg.msg_type, msg.magic), (MessageType::Inv, REGTEST_MAGIC));
    let own = outgoing(Message::with_magic(MessageType::Tx, vec![1], REGTEST_MAGIC), REGTEST_MAGIC);
    assert_eq!((own.magic, own.payload), (REGTEST_MAGIC, vec![1]));
}

#[test]
fn sync_commands_become_requests() {
    let hashes: Vec<Hash32> = (0..3u8).map(|n| Hash32::digest(&[n])).collect();
    let messages = execute_sync_commands(
        &vec![
            SyncCommand::GetHeaders(hashes[0]),
            SyncCommand::SyncComplete,
            SyncCommand::GetBlocks(hashes.clone()),
            SyncCommand::RequestBlocksFrom(hashes[2]),
        ],
        REGTEST_MAGIC,
    );
    assert_eq!(messages[0].msg_type, MessageType::GetHeaders);
    assert_eq!(GetHeadersMessage::decode(&messages[0].payload).unwrap().start_hash, hashes[0]);
    let mut asked = Vec::new();
    for m in &messages[1..] {
        assert_eq!((m.msg_type, m.magic), (MessageType::GetData, REGTEST_MAGIC));
        for e in GetDataMessage::decode(&m.payload).unwrap().inventory {
            asked.push(e.hash);
        }
    }
    assert_eq!(asked, vec![hashes[0], hashes[1], hashes[2], hashes[2]]);
    let one = request_blocks(&hashes[..1], MAGIC);
    assert_eq!(GetDataMessage::decode(&one.payload).unwrap().inventory[0].hash, hashes[0]);
}

#[test]
fn only_missing_objects_are_requested() {
    let mut pm = manager();
    ready(&mut pm, addr(1));
    let mut pool = Mempool::new();
    let tx = Transaction {
        sender: Address([1; 20]),
        recipient: Address([2; 20]),
        amount: 1,
        nonce: 0,
        encoded: b"known".to_vec(),
    };
    pool.add_transaction(tx, true).unwrap();
    let inventory = vec![
        entry(InvType::Block, b"have"),
        entry(InvType::Block, b"need"),
        entry(InvType::Tx, b"known"),
        entry(InvType::Tx, b"unknown"),
    ];
    let payload = InvMessage { inventory }.encode();
    let entries = on_inv(&mut pm, &addr(1), &payload, NOW);
    assert_eq!(entries.len(), 4);
    let request = request_missing(&entries, &vec![true, false, false, false], &pool, REGTEST_MAGIC).unwrap();
    assert_eq!((request.msg_type, request.magic), (MessageType::GetData, REGTEST_MAGIC));
    let wanted: Vec<Hash32> =
        GetDataMessage::decode(&request.payload).unwrap().inventory.iter().map(|e| e.hash).collect();
    assert_eq!(wanted, vec![Hash32::digest(b"need"), Hash32::digest(b"unknown")]);
    assert!(request_missing(&entries[..1].to_vec(), &vec![true], &pool, REGTEST_MAGIC).is_none());
}

#[test]
fn malformed_inventories_cost() {
    let mut pm = manager();
    ready(&mut pm, addr(1));
    assert!(on_inv(&mut pm, &addr(1), &[9], NOW).is_empty());
    assert_eq!(pm.get_peer(&addr(1)).unwrap().score, -SCORE_MALFORMED);
    let inventory = vec![entry(InvType::Tx, b"x"); MAX_INV_FOLLOW + 1];
    let mut stats = RelayStats::default();
    let payload = GetDataMessage { inventory }.encode();
    let entries = on_getdata(&mut pm, &mut stats, &addr(1), &payload, NOW);
    assert_eq!(entries.len(), MAX_INV_FOLLOW);
    assert_eq!(stats.snapshot().getdata_entries, MAX_INV_FOLLOW as u64 + 1);
    assert_eq!(pm.get_peer(&addr(1)).unwrap().score, -2 * SCORE_MALFORMED);
}

#[test]
fn requests_are_served() {
    let mut stats = RelayStats::default();
    let mut pool = Mempool::new();
    let tx = Transaction {
        sender: Address([1; 20]),
        recipient: Address([2; 20]),
        amount: 1,
        nonce: 0,
        encoded: b"tx bytes".to_vec(),
    };
    pool.add_transaction(tx, true).unwrap();
    let block = serve(entry(InvType::Block, b"b"), Some(vec![1, 2]), &pool, REGTEST_MAGIC);
    assert_eq!((block.kind, block.message.msg_type), (ReplyKind::Block, MessageType::Block));
    assert_eq!(block.message.payload, vec![1, 2]);
    let tx = serve(entry(InvType::Tx, b"tx bytes"), None, &pool, REGTEST_MAGIC);
    assert_eq!((tx.kind, tx.message.payload), (ReplyKind::Tx, b"tx bytes".to_vec()));
    for e in [entry(InvType::Block, b"b"), entry(InvType::Tx, b"none")] {
        let none = serve(e, None, &pool, REGTEST_MAGIC);
        assert_eq!((none.kind, none.message.msg_type), (ReplyKind::NotFound, MessageType::NotFound));
        assert_eq!(none.message.payload, not_found(e, REGTEST_MAGIC).payload);
    }
    note_reply(&mut stats, ReplyKind::Block, true);
    note_reply(&mut stats, ReplyKind::Block, false);
    note_reply(&mut stats, ReplyKind::NotFound, true);
    note_reply(&mut stats, ReplyKind::NotFound, false);
    note_reply(&mut stats, ReplyKind::NotFound, false);
    note_reply(&mut stats, ReplyKind::Tx, true);
    let snap = stats.snapshot();
    assert_eq!((snap.block_served, snap.block_dropped), (1, 1));
    assert_eq!((snap.notfound_served, snap.notfound_dropped), (1, 2));
}

#[test]
fn next_block_is_planned() {
    let plan = plan_block(9, 1_000, 1_500, 10);
    assert_eq!((plan.height, plan.previous_timestamp), (10, 1_000));
    assert_eq!(plan.timestamp, 1_010);
    // The chain may not run ahead of the clock.
    assert_eq!(plan_block(9, 1_000, 900, 10).timestamp, 920);
    assert_eq!(mining_address(Some(Address([5; 20]))), Address([5; 20]));
    assert_eq!(mining_address(None), mining_address(None));
}

#[test]
fn mined_block_is_announced() {
    let mut pool = Mempool::new();
    let tx = Transaction {
        sender: Address([1; 20]),
        recipient: Address([2; 20]),
        amount: 1,
        nonce: 0,
        encoded: b"mined".to_vec(),
    };
    pool.add_transaction(tx, true).unwrap();
    let hash = Hash32::digest(b"block");
    let (event, msg) = on_block_mined(&mut pool, hash, 3, &[Hash32::digest(b"mined")]);
    assert!(pool.is_empty());
    assert!(matches!(event, NodeEvent::BlockMined(h, 3) if h == hash));
    let inv = InvMessage::decode(&msg.payload).unwrap();
    assert_eq!((inv.inventory[0].inv_type, inv.inventory[0].hash), (InvType::Block, hash));
}
