//! What a node reports, and what it is asked to do.

use crate::addr::SocketAddr;
use crate::hash::Hash32;
use crate::wire::Message;
use vstd::prelude::*;

verus! {

/// What a node reports.
#[allow(inconsistent_fields)]
#[derive(Clone, Debug)]
pub enum NodeEvent {
    PeerConnected(SocketAddr),
    PeerDisconnected(SocketAddr),
    BlockReceived(Hash32, u32),
    BlockMined(Hash32, u32),
    Reorg { old_height: u32, old_hash: Hash32, new_height: u32, new_hash: Hash32, depth: u32 },
    TxReceived(Hash32),
    SyncComplete,
    SyncTimeout(SocketAddr),
    Error(String),
}

/// What the connection manager is asked to do.
pub enum OutboundCommand {
    Send(SocketAddr, Message),
    Connect(SocketAddr),
    Disconnect(SocketAddr),
}

/// `event` reports the given text.
pub open spec fn reports(event: NodeEvent, text: Seq<char>) -> bool {
    event matches NodeEvent::Error(s) && s@ == text
}

} // verus!
