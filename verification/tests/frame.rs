//! Frames out of a byte stream, and the handshake that goes through them.

use chroma_p2p::addr::SocketAddr;
use chroma_p2p::error::P2pError;
use chroma_p2p::frame::{end_of_stream, next_frame, FrameStep};
use chroma_p2p::handshake::{time_left, Handshake, HandshakeStep};
use chroma_p2p::peer::{PeerManager, PeerState, RateLimits};
use chroma_p2p::time::{Instant, NANOS_PER_SEC};
use chroma_p2p::wire::{
    Message, MessageType, VersionMessage, HEADER_SIZE, MAGIC, MAX_MESSAGE_SIZE, REGTEST_MAGIC,
};
use chroma_p2p::{PROTOCOL_VERSION, SERVICES};

const NOW: Instant = Instant { nanos: 1_000_000 * NANOS_PER_SEC };

fn frame_of(msg_type: MessageType, payload: Vec<u8>) -> Vec<u8> {
    Message::with_magic(msg_type, payload, REGTEST_MAGIC).encode()
}

fn broken(buf: &mut Vec<u8>) -> String {
    match next_frame(buf, REGTEST_MAGIC) {
        FrameStep::Broken(P2pError::Protocol(text)) => text,
        _ => panic!("the stream must be broken"),
    }
}

#[test]
fn frames_come_out_in_order() {
    let mut buf = frame_of(MessageType::Ping, vec![1; 8]);
    buf.extend_from_slice(&frame_of(MessageType::VerAck, vec![]));
    buf.extend_from_slice(&[0xC4]);
    match next_frame(&mut buf, REGTEST_MAGIC) {
        FrameStep::Frame(t, payload) => assert_eq!((t, payload), (MessageType::Ping, vec![1; 8])),
        _ => panic!("a whole frame was there"),
    }
    match next_frame(&mut buf, REGTEST_MAGIC) {
        FrameStep::Frame(t, payload) => assert_eq!((t, payload), (MessageType::VerAck, vec![])),
        _ => panic!("a whole frame was there"),
    }
    assert!(matches!(next_frame(&mut buf, REGTEST_MAGIC), FrameStep::NeedMore));
    assert_eq!(buf, vec![0xC4]);
}

#[test]
fn every_part_of_a_frame_waits() {
    let whole = frame_of(MessageType::Tx, vec![9; 40]);
    for n in 0..whole.len() {
        let mut buf = whole[..n].to_vec();
        assert!(matches!(next_frame(&mut buf, REGTEST_MAGIC), FrameStep::NeedMore), "{} bytes", n);
        assert_eq!(buf, whole[..n].to_vec());
    }
}

#[test]
fn each_way_to_break_a_stream() {
    let good = frame_of(MessageType::Tx, vec![9; 40]);
    let mut magic = good.clone();
    magic[..4].copy_from_slice(&MAGIC);
    assert_eq!(broken(&mut magic), "bad magic");
    let mut kind = good.clone();
    kind[4] = 0xEE;
    assert!(broken(&mut kind).starts_with("serialization error: "));
    let mut payload = good.clone();
    *payload.last_mut().unwrap() ^= 1;
    assert_eq!(broken(&mut payload), "checksum mismatch");
    let mut size = good[..HEADER_SIZE].to_vec();
    size[5..9].copy_from_slice(&(MAX_MESSAGE_SIZE as u32 + 1).to_le_bytes());
    assert_eq!(broken(&mut size), format!("payload too large: {}", MAX_MESSAGE_SIZE + 1));
}

#[test]
fn the_end_says_where_it_came() {
    let at = |bytes: Vec<u8>| match end_of_stream(&bytes) {
        P2pError::Io(io) => {
            assert!(io.eof);
            io.message
        }
        P2pError::Protocol(_) => panic!("the end of a stream is no protocol error"),
    };
    assert_eq!(at(vec![]), "connection closed");
    assert_eq!(at(vec![0; HEADER_SIZE - 1]), "connection closed");
    assert_eq!(at(vec![0; HEADER_SIZE]), "connection closed during payload");
}

fn peer() -> SocketAddr {
    SocketAddr::v4(10, 0, 0, 1, 1000)
}

fn manager() -> PeerManager {
    let mut pm = PeerManager::new(RateLimits { messages: 100, transactions: 10 });
    pm.add_peer(peer(), NOW);
    pm
}

fn reply(step: HandshakeStep) -> Option<Message> {
    match step {
        HandshakeStep::Continue(msg) => msg,
        _ => panic!("the handshake must go on"),
    }
}

fn failure(step: HandshakeStep) -> String {
    match step {
        HandshakeStep::Fail(e) => e.to_string(),
        _ => panic!("the handshake must fail"),
    }
}

#[test]
fn two_nodes_shake_hands() {
    let mut pm_a = manager();
    let mut pm_b = manager();
    let (mut a, hello_a) = Handshake::start(1, 17, 1000, REGTEST_MAGIC);
    let (mut b, hello_b) = Handshake::start(2, 40, 1001, REGTEST_MAGIC);
    assert_eq!(hello_a.msg_type, MessageType::Version);
    let ack_b = reply(b.on_frame(&mut pm_b, &peer(), hello_a.msg_type, &hello_a.payload, REGTEST_MAGIC)).unwrap();
    let ack_a = reply(a.on_frame(&mut pm_a, &peer(), hello_b.msg_type, &hello_b.payload, REGTEST_MAGIC)).unwrap();
    assert_eq!(ack_a.msg_type, MessageType::VerAck);
    assert_eq!(pm_b.get_peer(&peer()).unwrap().height, 17);
    assert_eq!(pm_b.get_peer(&peer()).unwrap().version, PROTOCOL_VERSION);
    let done_a = a.on_frame(&mut pm_a, &peer(), ack_b.msg_type, &ack_b.payload, REGTEST_MAGIC);
    let done_b = b.on_frame(&mut pm_b, &peer(), ack_a.msg_type, &ack_a.payload, REGTEST_MAGIC);
    assert!(matches!(done_a, HandshakeStep::Done(40)));
    assert!(matches!(done_b, HandshakeStep::Done(17)));
}

#[test]
fn own_version_is_recognised() {
    let mut pm = manager();
    let (mut h, hello) = Handshake::start(77, 0, 0, REGTEST_MAGIC);
    let step = h.on_frame(&mut pm, &peer(), MessageType::Version, &hello.payload, REGTEST_MAGIC);
    assert!(failure(step).contains("self-connection detected"));
}

#[test]
fn refused_handshakes() {
    let mut pm = manager();
    let (mut h, _) = Handshake::start(77, 0, 0, REGTEST_MAGIC);
    let old = VersionMessage {
        version: PROTOCOL_VERSION + 1,
        services: SERVICES,
        timestamp: 0,
        height: 3,
        nonce: 5,
    };
    let step = h.on_frame(&mut pm, &peer(), MessageType::Version, &old.encode(), REGTEST_MAGIC);
    assert!(failure(step).contains("unsupported version: 2"));
    let step = h.on_frame(&mut pm, &peer(), MessageType::Version, &[1, 2, 3], REGTEST_MAGIC);
    assert!(failure(step).contains("serialization error"));
    let step = h.on_frame(&mut pm, &peer(), MessageType::Block, &[], REGTEST_MAGIC);
    assert!(failure(step).contains("unexpected message during handshake: Block"));
    assert_ne!(pm.get_peer(&peer()).unwrap().state, PeerState::Ready);
}

#[test]
fn acknowledged_once() {
    let mut pm = manager();
    let (mut h, _) = Handshake::start(77, 0, 0, REGTEST_MAGIC);
    let (_, theirs) = Handshake::start(78, 9, 0, REGTEST_MAGIC);
    assert!(reply(h.on_frame(&mut pm, &peer(), MessageType::Version, &theirs.payload, REGTEST_MAGIC)).is_some());
    assert!(reply(h.on_frame(&mut pm, &peer(), MessageType::Version, &theirs.payload, REGTEST_MAGIC)).is_none());
}

#[test]
fn handshake_time_runs_out() {
    let at = |secs: u64| Instant { nanos: NOW.nanos + secs * NANOS_PER_SEC };
    assert_eq!(time_left(NOW, 10, at(4)).unwrap(), 6 * NANOS_PER_SEC);
    assert!(time_left(NOW, 10, at(11)).is_err());
    assert!(time_left(NOW, 10, at(10)).unwrap_err().to_string().contains("handshake timeout"));
}
