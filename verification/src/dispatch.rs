//! What a frame of a peer leads to.

use crate::addr::SocketAddr;
use crate::bytes;
use crate::error;
use crate::error::P2pError;
use crate::peer;
use crate::peer::{PeerManager, PeersView, SCORE_MALFORMED, SCORE_RATE_LIMIT};
use crate::relay;
use crate::session;
use crate::session::{HeadersBody, StartHeight};
use crate::stats::{RelaySnapshot, RelayStats};
use crate::sync::{ChainSyncer, SyncView, MAX_HEADERS_PER_RESPONSE};
use crate::time::Instant;
use crate::wire::{InvEntry, Message, MessageType};
use vstd::prelude::*;

verus! {

/// What is left to do for a frame.
pub enum Work {
    Nothing,
    /// Send the messages.
    Send(Vec<Message>),
    /// Read headers from the storage and send them.
    ServeHeaders(StartHeight),
    /// Decode the headers, and take those that can be as a batch.
    TakeHeaders(Vec<Vec<u8>>),
    /// Ask for those of the entries that are missing here.
    LookUp(Vec<InvEntry>),
    /// Answer each of the entries.
    Serve(Vec<InvEntry>),
    /// Decode the payload as a block, and apply it.
    TakeBlock,
    /// Decode the payload as a transaction, and take it.
    TakeTx,
    /// The connection ends.
    Leave(P2pError),
}

/// What a node knows: its peers, how far the sync is, and the counters.
pub struct Known {
    pub peers: PeersView,
    pub sync: SyncView,
    pub counts: RelaySnapshot,
}

/// What an admitted frame leads to, and what it changes. The frame has been counted in
/// `before`.
pub open spec fn message_taken(
    work: Work,
    before: Known,
    after: Known,
    addr: SocketAddr,
    msg_type: MessageType,
    payload: Seq<u8>,
    magic: Seq<u8>,
    now: Instant,
) -> bool {
    match msg_type {
        MessageType::Ping => {
            &&& after == (Known { peers: after.peers, ..before })
            &&& match work {
                Work::Send(messages) => messages@.len() == 1 && session::ping_answered(
                    before.peers,
                    after.peers,
                    addr,
                    payload,
                    magic,
                    now,
                    Ok(messages@[0]),
                ),
                Work::Leave(e) => session::ping_answered(
                    before.peers,
                    after.peers,
                    addr,
                    payload,
                    magic,
                    now,
                    Err(e),
                ),
                _ => false,
            }
        },
        MessageType::Pong => {
            &&& work is Nothing
            &&& after == (Known { peers: session::heard_of(before.peers, addr, 0, now), ..before })
        },
        MessageType::GetHeaders => {
            &&& after == before
            &&& match work {
                Work::ServeHeaders(start) => session::start_found(before.sync, payload, Ok(start)),
                Work::Leave(e) => session::start_found(before.sync, payload, Err(e)),
                _ => false,
            }
        },
        MessageType::Headers => headers_taken(work, before, after, addr, payload, magic, now),
        MessageType::Inv => {
            &&& after == (Known { peers: after.peers, ..before })
            &&& work matches Work::LookUp(entries)
            &&& relay::announcement_followed(
                before.peers,
                after.peers,
                addr,
                payload,
                now,
                entries@,
            )
        },
        MessageType::GetData => {
            &&& after == (Known { peers: after.peers, counts: after.counts, ..before })
            &&& work matches Work::Serve(entries)
            &&& relay::request_followed(
                before.peers,
                after.peers,
                before.counts,
                after.counts,
                addr,
                payload,
                now,
                entries@,
            )
        },
        MessageType::Block => work is TakeBlock && after == before,
        MessageType::Tx => work is TakeTx && after == before,
        _ => work is Nothing && after == before,
    }
}

/// What a Headers message leads to: one without a count is ignored, one that announces too many
/// headers costs its sender, an empty one ends the headers, and others are to be decoded.
pub open spec fn headers_taken(
    work: Work,
    before: Known,
    after: Known,
    addr: SocketAddr,
    payload: Seq<u8>,
    magic: Seq<u8>,
    now: Instant,
) -> bool {
    let count = bytes::le_value(payload.subrange(0, 4));
    if payload.len() < 4 {
        work is Nothing && after == before
    } else if count > MAX_HEADERS_PER_RESPONSE {
        &&& work is Nothing
        &&& after == (Known { peers: after.peers, ..before })
        &&& peer::struck_and_mirrored(before.peers, after.peers, addr, SCORE_MALFORMED, now)
    } else if count == 0 {
        let (sync, commands) = session::batch_from(before.sync, addr, Seq::empty(), now);
        &&& after == (Known { sync, ..before })
        &&& work matches Work::Send(messages)
        &&& relay::messages_view(messages@) == relay::commands_messages(commands, magic)
    } else {
        &&& after == before
        &&& work matches Work::TakeHeaders(headers)
        &&& session::encoded_headers(headers@, payload)
    }
}

/// What a frame leads to: one beyond the allowance of its sender ends the connection, and
/// others lead to what their message does.
pub open spec fn frame_taken(
    work: Work,
    before: Known,
    after: Known,
    addr: SocketAddr,
    msg_type: MessageType,
    payload: Seq<u8>,
    magic: Seq<u8>,
    now: Instant,
) -> bool {
    if session::frame_beyond_rate(before.peers, addr, now) {
        &&& work matches Work::Leave(e)
        &&& error::is_protocol(e, "rate limited"@)
        &&& after == (Known { peers: after.peers, ..before })
        &&& peer::struck_in_place(
            session::frame_counted(before.peers, addr, now),
            after.peers,
            addr,
            SCORE_RATE_LIMIT,
            now,
        )
    } else {
        let admitted = Known {
            peers: session::frame_admitted(before.peers, addr, now),
            ..before
        };
        message_taken(work, admitted, after, addr, msg_type, payload, magic, now)
    }
}

/// Takes a frame of a peer: what is left to do for it.
pub fn on_frame(
    pm: &mut PeerManager,
    syncer: &mut ChainSyncer,
    stats: &mut RelayStats,
    addr: &SocketAddr,
    msg_type: MessageType,
    payload: &[u8],
    magic: [u8; 4],
    now: Instant,
) -> (work: Work)
    requires
        old(pm).wf(),
        peer::clock_fits(now),
        msg_type == MessageType::Headers && session::announces_none(payload@)
            && !session::frame_beyond_rate(old(pm)@, *addr, now) && old(syncer)@.may_claim(*addr)
            ==> old(syncer)@.heights_fit(Seq::empty()),
    ensures
        final(pm).wf(),
        frame_taken(
            work,
            Known { peers: old(pm)@, sync: old(syncer)@, counts: old(stats)@ },
            Known { peers: final(pm)@, sync: final(syncer)@, counts: final(stats)@ },
            *addr,
            msg_type,
            payload@,
            magic@,
            now,
        ),
{
    if let Err(e) = session::admit_frame(pm, addr, now) {
        return Work::Leave(e);
    }
    match msg_type {
        MessageType::Ping => match session::on_ping(pm, addr, payload, magic, now) {
            Ok(pong) => {
                let mut messages: Vec<Message> = Vec::new();
                messages.push(pong);
                Work::Send(messages)
            },
            Err(e) => Work::Leave(e),
        },
        MessageType::Pong => {
            session::on_pong(pm, addr, now);
            Work::Nothing
        },
        MessageType::GetHeaders => match session::requested_start(syncer, payload) {
            Ok(start) => Work::ServeHeaders(start),
            Err(e) => Work::Leave(e),
        },
        MessageType::Headers => match session::headers_body(payload) {
            HeadersBody::Ignore => Work::Nothing,
            HeadersBody::TooMany => {
                pm.note_invalid_object(addr, SCORE_MALFORMED, now);
                Work::Nothing
            },
            HeadersBody::Empty => Work::Send(session::on_empty_batch(syncer, addr, magic, now)),
            HeadersBody::Encoded(headers) => Work::TakeHeaders(headers),
        },
        MessageType::Inv => Work::LookUp(relay::on_inv(pm, addr, payload, now)),
        MessageType::GetData => Work::Serve(relay::on_getdata(pm, stats, addr, payload, now)),
        MessageType::Block => Work::TakeBlock,
        MessageType::Tx => Work::TakeTx,
        _ => Work::Nothing,
    }
}

} // verus!
