//! The Version/VerAck handshake.

use crate::addr::SocketAddr;
use crate::config::{PROTOCOL_VERSION, SERVICES};
use crate::error;
use crate::error::{P2pError, Reason};
use crate::peer::{PeerInfo, PeerManager, PeerState, PeersView};
use crate::text;
use crate::time::{Instant, NANOS_PER_SEC};
use crate::wire::{Message, MessageType, MessageView, VersionMessage};
use crate::wire_laws;
use vstd::prelude::*;

verus! {

/// The name of a message type.
pub open spec fn message_name(t: MessageType) -> Seq<char> {
    match t {
        MessageType::Version => "Version"@,
        MessageType::VerAck => "VerAck"@,
        MessageType::Ping => "Ping"@,
        MessageType::Pong => "Pong"@,
        MessageType::GetAddr => "GetAddr"@,
        MessageType::Addr => "Addr"@,
        MessageType::GetHeaders => "GetHeaders"@,
        MessageType::Headers => "Headers"@,
        MessageType::Inv => "Inv"@,
        MessageType::GetData => "GetData"@,
        MessageType::Tx => "Tx"@,
        MessageType::Block => "Block"@,
        MessageType::NotFound => "NotFound"@,
        MessageType::Reject => "Reject"@,
    }
}

fn name_of(t: MessageType) -> (name: &'static str)
    ensures
        name@ == message_name(t),
{
    match t {
        MessageType::Version => "Version",
        MessageType::VerAck => "VerAck",
        MessageType::Ping => "Ping",
        MessageType::Pong => "Pong",
        MessageType::GetAddr => "GetAddr",
        MessageType::Addr => "Addr",
        MessageType::GetHeaders => "GetHeaders",
        MessageType::Headers => "Headers",
        MessageType::Inv => "Inv",
        MessageType::GetData => "GetData",
        MessageType::Tx => "Tx",
        MessageType::Block => "Block",
        MessageType::NotFound => "NotFound",
        MessageType::Reject => "Reject",
    }
}

/// How far a handshake is.
#[derive(Clone, Copy, Debug, PartialEq, Eq, Structural)]
pub struct Handshake {
    /// The nonce of our own Version.
    pub local_nonce: u64,
    /// The height that the peer has told, zero as long as it has not.
    pub peer_height: u32,
    /// Our VerAck has been sent.
    pub sent_verack: bool,
}

/// What comes next in a handshake.
pub enum HandshakeStep {
    /// Send the message, if there is one, and read on.
    Continue(Option<Message>),
    /// The handshake is complete; the peer has told this height.
    Done(u32),
    Fail(P2pError),
}

/// What comes next in a handshake.
pub enum HandshakeStepView {
    Continue(Option<MessageView>),
    Done(u32),
    Fail(Reason),
}

/// `step` is what `expected` says; a failure is a protocol error for the reason.
pub open spec fn step_is(step: HandshakeStep, expected: HandshakeStepView) -> bool {
    match (step, expected) {
        (HandshakeStep::Continue(Some(msg)), HandshakeStepView::Continue(Some(m))) => msg@ == m,
        (HandshakeStep::Continue(None), HandshakeStepView::Continue(None)) => true,
        (HandshakeStep::Done(h), HandshakeStepView::Done(h2)) => h == h2,
        (HandshakeStep::Fail(e), HandshakeStepView::Fail(reason)) => error::is_protocol_for(
            e,
            reason,
        ),
        _ => false,
    }
}

/// What a frame leads to: how far the handshake is then, what comes next, and the Version that
/// was accepted, if one was.
pub open spec fn frame_taken(
    h: Handshake,
    msg_type: MessageType,
    payload: Seq<u8>,
    magic: Seq<u8>,
) -> (Handshake, HandshakeStepView, Option<VersionMessage>) {
    match msg_type {
        MessageType::Version => match VersionMessage::parse(payload) {
            Err(text) => (h, HandshakeStepView::Fail(Reason::Codec(text)), None),
            Ok(ver) => if ver.version != PROTOCOL_VERSION {
                (
                    h,
                    HandshakeStepView::Fail(
                        Reason::Exactly(
                            "unsupported version: "@ + text::decimal(ver.version as nat),
                        ),
                    ),
                    None,
                )
            } else if ver.nonce == h.local_nonce {
                (h, HandshakeStepView::Fail(Reason::Exactly("self-connection detected"@)), None)
            } else {
                (
                    Handshake { peer_height: ver.height, sent_verack: true, ..h },
                    HandshakeStepView::Continue(
                        if h.sent_verack {
                            None
                        } else {
                            Some(
                                MessageView {
                                    msg_type: MessageType::VerAck,
                                    payload: Seq::empty(),
                                    magic,
                                },
                            )
                        },
                    ),
                    Some(ver),
                )
            },
        },
        MessageType::VerAck => (h, HandshakeStepView::Done(h.peer_height), None),
        _ => (
            h,
            HandshakeStepView::Fail(
                Reason::Exactly("unexpected message during handshake: "@ + message_name(msg_type)),
            ),
            None,
        ),
    }
}

/// The peers after an accepted Version: what it tells is recorded of the peer, if that is on
/// record.
pub open spec fn version_recorded(
    v: PeersView,
    addr: SocketAddr,
    accepted: Option<VersionMessage>,
) -> PeersView {
    match accepted {
        Some(ver) => if v.peers.contains_key(addr) {
            v.with_peer(
                addr,
                PeerInfo {
                    version: ver.version,
                    height: ver.height,
                    services: ver.services,
                    state: PeerState::Handshaking,
                    ..v.peers[addr]
                },
            )
        } else {
            v
        },
        None => v,
    }
}

/// Our own Version.
pub open spec fn own_version(our_height: u32, timestamp: u64, nonce: u64) -> VersionMessage {
    VersionMessage { version: PROTOCOL_VERSION, services: SERVICES, timestamp, height: our_height, nonce }
}

impl Handshake {
    /// Begins a handshake: the Version to send.
    pub fn start(local_nonce: u64, our_height: u32, timestamp: u64, magic: [u8; 4]) -> (res: (
        Handshake,
        Message,
    ))
        ensures
            res.0 == (Handshake { local_nonce, peer_height: 0, sent_verack: false }),
            res.1@ == (MessageView {
                msg_type: MessageType::Version,
                payload: own_version(our_height, timestamp, local_nonce).payload(),
                magic: magic@,
            }),
    {
        let version = VersionMessage {
            version: PROTOCOL_VERSION,
            services: SERVICES,
            timestamp,
            height: our_height,
            nonce: local_nonce,
        };
        (
            Handshake { local_nonce, peer_height: 0, sent_verack: false },
            Message::with_magic(MessageType::Version, version.encode(), magic),
        )
    }

    /// Takes a frame.
    pub fn on_frame(
        &mut self,
        pm: &mut PeerManager,
        addr: &SocketAddr,
        msg_type: MessageType,
        payload: &[u8],
        magic: [u8; 4],
    ) -> (step: HandshakeStep)
        requires
            old(pm).wf(),
        ensures
            final(pm).wf(),
            ({
                let (next, expected, accepted) = frame_taken(
                    *old(self),
                    msg_type,
                    payload@,
                    magic@,
                );
                &&& *final(self) == next
                &&& step_is(step, expected)
                &&& final(pm)@ == version_recorded(old(pm)@, *addr, accepted)
            }),
    {
        match msg_type {
            MessageType::Version => {
                let ver: VersionMessage = match VersionMessage::decode(payload) {
                    Ok(ver) => ver,
                    Err(e) => {
                        return HandshakeStep::Fail(P2pError::from_core(&e));
                    },
                };
                if ver.version != PROTOCOL_VERSION {
                    return HandshakeStep::Fail(
                        P2pError::Protocol(
                            text::with_number("unsupported version: ", ver.version as u64),
                        ),
                    );
                }
                if ver.nonce == self.local_nonce {
                    return HandshakeStep::Fail(P2pError::protocol("self-connection detected"));
                }
                self.peer_height = ver.height;
                if let Some(peer) = pm.get_peer_mut(addr) {
                    peer.version = ver.version;
                    peer.height = ver.height;
                    peer.services = ver.services;
                    peer.state = PeerState::Handshaking;
                }
                if self.sent_verack {
                    HandshakeStep::Continue(None)
                } else {
                    self.sent_verack = true;
                    let empty: Vec<u8> = Vec::new();
                    HandshakeStep::Continue(
                        Some(Message::with_magic(MessageType::VerAck, empty, magic)),
                    )
                }
            },
            MessageType::VerAck => HandshakeStep::Done(self.peer_height),
            _ => HandshakeStep::Fail(
                P2pError::Protocol(
                    error::prefixed("unexpected message during handshake: ", name_of(msg_type)),
                ),
            ),
        }
    }
}

/// The nanoseconds that are left until a deadline `secs` seconds after `start`; an error where
/// none are.
pub fn time_left(start: Instant, secs: u64, now: Instant) -> (left: Result<u64, P2pError>)
    requires
        start.nanos + secs * NANOS_PER_SEC <= u64::MAX,
    ensures
        match left {
            Ok(nanos) => nanos == start.nanos + secs * NANOS_PER_SEC - now.nanos && nanos > 0,
            Err(e) => start.nanos + secs * NANOS_PER_SEC <= now.nanos && error::is_protocol(
                e,
                "handshake timeout"@,
            ),
        },
{
    let deadline: Instant = start.plus_secs(secs);
    if deadline.nanos > now.nanos {
        Ok(deadline.nanos - now.nanos)
    } else {
        Err(P2pError::protocol("handshake timeout"))
    }
}

/// Two nodes that send each other their Versions and answer them both complete the handshake,
/// and each learns the other's height.
pub proof fn handshake_completes(
    nonce_a: u64,
    nonce_b: u64,
    height_b: u32,
    timestamp: u64,
    magic: Seq<u8>,
)
    requires
        nonce_a != nonce_b,
    ensures
        ({
            let start = Handshake { local_nonce: nonce_a, peer_height: 0, sent_verack: false };
            let (met, step, accepted) = frame_taken(
                start,
                MessageType::Version,
                own_version(height_b, timestamp, nonce_b).payload(),
                magic,
            );
            &&& accepted == Some(own_version(height_b, timestamp, nonce_b))
            &&& step == HandshakeStepView::Continue(
                Some(
                    MessageView {
                        msg_type: MessageType::VerAck,
                        payload: Seq::empty(),
                        magic,
                    },
                ),
            )
            &&& frame_taken(met, MessageType::VerAck, Seq::empty(), magic).1
                == HandshakeStepView::Done(height_b)
        }),
{
    let ver = own_version(height_b, timestamp, nonce_b);
    wire_laws::version_round_trip(ver, Seq::empty());
    assert(ver.payload() + Seq::<u8>::empty() =~= ver.payload());
}

/// A node that meets its own Version recognises it.
pub proof fn self_connection_is_detected(h: Handshake, height: u32, timestamp: u64, magic: Seq<u8>)
    ensures
        frame_taken(
            h,
            MessageType::Version,
            own_version(height, timestamp, h.local_nonce).payload(),
            magic,
        ).1 == HandshakeStepView::Fail(Reason::Exactly("self-connection detected"@)),
{
    let ver = own_version(height, timestamp, h.local_nonce);
    wire_laws::version_round_trip(ver, Seq::empty());
    assert(ver.payload() + Seq::<u8>::empty() =~= ver.payload());
}

/// Our VerAck is sent at most once.
pub proof fn verack_is_sent_once(
    h: Handshake,
    msg_type: MessageType,
    payload: Seq<u8>,
    magic: Seq<u8>,
)
    requires
        h.sent_verack,
    ensures
        frame_taken(h, msg_type, payload, magic).0.sent_verack,
        frame_taken(h, msg_type, payload, magic).1 matches HandshakeStepView::Continue(m) ==> m is None,
{
}

} // verus!
