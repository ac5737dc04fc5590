//! What each kind of frame leads to.

use chroma_p2p::addr::SocketAddr;
use chroma_p2p::dispatch::{on_frame, Work};
use chroma_p2p::hash::Hash32;
use chroma_p2p::peer::{
    PeerManager, PeerState, RateLimits, SCORE_MALFORMED, SCORE_RATE_LIMIT,
};
use chroma_p2p::session::{StartHeight, ENCODED_HEADER_SIZE};
use chroma_p2p::sync::{ChainSyncer, SyncState, MAX_HEADERS_PER_RESPONSE};
use chroma_p2p::time::{Instant, NANOS_PER_SEC};
use chroma_p2p::wire::{
    GetDataMessage, GetHeadersMessage, InvEntry, InvMessage, InvType, MessageType, PingMessage,
    REGTEST_MAGIC,
};
use chroma_p2p::RelayStats;

const NOW: Instant = Instant { nanos: 1_000_000 * NANOS_PER_SEC };

fn peer() -> SocketAddr {
    SocketAddr::v4(10, 0, 0, 1, 1000)
}

struct Fixture {
    pm: PeerManager,
    syncer: ChainSyncer,
    stats: RelayStats,
}

impl Fixture {
    fn new(messages: u32) -> Self {
        let mut pm = PeerManager::new(RateLimits { messages, transactions: 10 });
        pm.add_peer(peer(), NOW);
        pm.get_peer_mut(&peer()).unwrap().state = PeerState::Ready;
        Fixture { pm, syncer: ChainSyncer::new(Hash32::digest(b"genesis")), stats: RelayStats::default() }
    }

    fn take(&mut self, msg_type: MessageType, payload: &[u8]) -> Work {
        on_frame(
            &mut self.pm,
            &mut self.syncer,
            &mut self.stats,
            &peer(),
            msg_type,
            payload,
            REGTEST_MAGIC,
            NOW,
        )
    }

    fn score(&self) -> i32 {
        self.pm.get_peer(&peer()).unwrap().score
    }
}

#[test]
fn pings_are_answered() {
    let mut f = Fixture::new(100);
    match f.take(MessageType::Ping, &PingMessage { nonce: 5 }.encode()) {
        Work::Send(messages) => {
            assert_eq!(messages.len(), 1);
            assert_eq!(messages[0].msg_type, MessageType::Pong);
            assert_eq!(PingMessage::decode(&messages[0].payload).unwrap().nonce, 5);
        }
        _ => panic!("a pong is sent"),
    }
    assert!(matches!(f.take(MessageType::Ping, &[]), Work::Leave(_)));
    assert!(matches!(f.take(MessageType::Pong, &[]), Work::Nothing));
    assert_eq!(f.score(), 1);
}

#[test]
fn headers_go_both_ways() {
    let mut f = Fixture::new(100);
    let ask = GetHeadersMessage { start_hash: Hash32::digest(b"x"), stop_hash: Hash32::zero() };
    assert!(matches!(
        f.take(MessageType::GetHeaders, &ask.encode()),
        Work::ServeHeaders(StartHeight::AskStorage(h)) if h == Hash32::digest(b"x")
    ));
    assert!(matches!(f.take(MessageType::GetHeaders, &[1]), Work::Leave(_)));
    assert!(matches!(f.take(MessageType::Headers, &[1, 0]), Work::Nothing));
    assert_eq!(f.score(), 0);
    let too_many = (MAX_HEADERS_PER_RESPONSE as u32 + 1).to_le_bytes();
    assert!(matches!(f.take(MessageType::Headers, &too_many), Work::Nothing));
    assert_eq!(f.score(), -SCORE_MALFORMED);
    let mut one = vec![1, 0, 0, 0];
    one.extend_from_slice(&[7; ENCODED_HEADER_SIZE]);
    assert!(matches!(
        f.take(MessageType::Headers, &one),
        Work::TakeHeaders(h) if h == vec![vec![7; ENCODED_HEADER_SIZE]]
    ));
    f.syncer.start_header_sync(peer(), Hash32::digest(b"genesis"), NOW);
    assert!(matches!(f.take(MessageType::Headers, &[0; 4]), Work::Send(_)));
    assert_eq!(f.syncer.state, SyncState::CaughtUp);
}

#[test]
fn inventories_are_followed() {
    let mut f = Fixture::new(100);
    let inventory = vec![InvEntry { inv_type: InvType::Tx, hash: Hash32::digest(b"t") }];
    let announced = InvMessage { inventory: inventory.clone() }.encode();
    assert!(matches!(f.take(MessageType::Inv, &announced), Work::LookUp(e) if e.len() == 1));
    let asked = GetDataMessage { inventory }.encode();
    assert!(matches!(f.take(MessageType::GetData, &asked), Work::Serve(e) if e.len() == 1));
    assert_eq!(f.stats.snapshot().getdata_entries, 1);
    assert!(matches!(f.take(MessageType::Inv, &[9]), Work::LookUp(e) if e.is_empty()));
    assert_eq!(f.score(), -SCORE_MALFORMED);
}

#[test]
fn objects_are_to_be_decoded() {
    let mut f = Fixture::new(100);
    assert!(matches!(f.take(MessageType::Block, &[1]), Work::TakeBlock));
    assert!(matches!(f.take(MessageType::Tx, &[1]), Work::TakeTx));
    for ignored in [
        MessageType::NotFound,
        MessageType::Reject,
        MessageType::Addr,
        MessageType::GetAddr,
        MessageType::Version,
        MessageType::VerAck,
    ] {
        assert!(matches!(f.take(ignored, &[1, 2, 3]), Work::Nothing));
    }
    assert_eq!(f.score(), 0);
}

#[test]
fn a_flood_ends_the_connection() {
    let mut f = Fixture::new(2);
    for _ in 0..2 {
        assert!(matches!(f.take(MessageType::Pong, &[]), Work::Nothing));
    }
    match f.take(MessageType::Pong, &[]) {
        Work::Leave(e) => assert!(e.to_string().contains("rate limited")),
        _ => panic!("the allowance is used up"),
    }
    assert_eq!(f.score(), -SCORE_RATE_LIMIT);
}
