//! The decisions of a connection after its handshake: what each message leads to.

use crate::addr::SocketAddr;
use crate::bytes;
use crate::error;
use crate::error::{CoreError, P2pError, Reason};
use crate::event;
use crate::event::NodeEvent;
use crate::hash;
use crate::hash::Hash32;
use crate::mempool;
use crate::mempool::{EntryView, Mempool, Transaction, TxView};
use crate::peer;
use crate::peer::{
    PeerInfo, PeerManager, PeersView, SCORE_CONNECT_FAIL, SCORE_INVALID_BLOCK, SCORE_INVALID_TX,
    SCORE_MALFORMED, SCORE_RATE_LIMIT,
};
use crate::relay;
use crate::stats;
use crate::stats::{RelaySnapshot, RelayStats};
use crate::sync;
use crate::sync::{
    BlockHeader, ChainSyncer, SyncCommand, SyncCommandView, SyncState, SyncView,
    IBD_HEIGHT_THRESHOLD, MAX_HEADERS_PER_RESPONSE, MAX_SYNC_FAILURES,
};
use crate::text;
use crate::time::Instant;
use crate::wire;
use crate::wire::{
    GetHeadersMessage, InvEntry, InvType, Message, MessageType, MessageView, PingMessage,
};
use vstd::prelude::*;
use vstd::slice::{slice_subrange, slice_to_vec};
use vstd::string::StringExecFns;

verus! {

/// Bytes of an encoded block header.
pub const ENCODED_HEADER_SIZE: usize = 124;

/// What a connection does before it reads the next frame.
pub enum BeforeRead {
    Read,
    /// Somebody else's sync is overdue: wait a moment and look again.
    Pause,
    /// The connection ends; the event is reported, if there is one.
    Leave(P2pError, Option<NodeEvent>),
}

/// What a connection does before it reads the next frame, and what that does to the peers.
pub open spec fn before_read_is(
    step: BeforeRead,
    before: PeersView,
    after: PeersView,
    syncer: SyncView,
    addr: SocketAddr,
    now: Instant,
) -> bool {
    if before.peers.contains_key(addr) && before.peers[addr].banned_at(now) {
        &&& step matches BeforeRead::Leave(e, event)
        &&& error::is_protocol(e, "peer banned"@)
        &&& event is None
        &&& after == before
    } else if syncer.syncing() && syncer.timed_out(now) {
        if syncer.sync_peer == Some(addr) {
            &&& step matches BeforeRead::Leave(e, event)
            &&& error::is_protocol(e, "sync timeout"@)
            &&& event == Some(NodeEvent::SyncTimeout(addr))
            &&& peer::struck_and_mirrored(before, after, addr, SCORE_CONNECT_FAIL, now)
        } else {
            step is Pause && after == before
        }
    } else {
        step is Read && after == before
    }
}

/// What a connection does before it reads the next frame. A peer that is banned by now is
/// left, and so is the sync peer whose response is overdue, which costs it a little.
pub fn before_read(pm: &mut PeerManager, syncer: &ChainSyncer, addr: &SocketAddr, now: Instant) -> (
    step: BeforeRead)
    requires
        old(pm).wf(),
        peer::clock_fits(now),
    ensures
        final(pm).wf(),
        before_read_is(step, old(pm)@, final(pm)@, syncer@, *addr, now),
{
    if let Some(p) = pm.get_peer(addr) {
        if p.is_banned(now) {
            return BeforeRead::Leave(P2pError::protocol("peer banned"), None);
        }
    }
    if syncer.is_syncing() && syncer.is_sync_timed_out(now) {
        let responsible: bool = match syncer.sync_peer() {
            Some(owner) => owner == *addr,
            None => false,
        };
        if !responsible {
            return BeforeRead::Pause;
        }
        pm.note_invalid_object(addr, SCORE_CONNECT_FAIL, now);
        return BeforeRead::Leave(
            P2pError::protocol("sync timeout"),
            Some(NodeEvent::SyncTimeout(*addr)),
        );
    }
    BeforeRead::Read
}

/// The error for a connection on which no frame came for too long.
pub fn idle_timeout() -> (e: P2pError)
    ensures
        error::is_protocol(e, "idle timeout: no frames"@),
{
    P2pError::protocol("idle timeout: no frames")
}

/// A frame exceeds the allowance of its sender.
pub open spec fn frame_beyond_rate(v: PeersView, addr: SocketAddr, now: Instant) -> bool {
    v.peers.contains_key(addr) && !v.peers[addr].msg_limiter.allows(now)
}

/// The peers after a frame was counted against the allowance of its sender.
pub open spec fn frame_counted(v: PeersView, addr: SocketAddr, now: Instant) -> PeersView {
    if v.peers.contains_key(addr) {
        let p = v.peers[addr];
        v.with_peer(addr, PeerInfo { msg_limiter: p.msg_limiter.after_attempt(now), ..p })
    } else {
        v
    }
}

/// The peers after a frame within the allowance of its sender: the sender was heard of.
pub open spec fn frame_admitted(v: PeersView, addr: SocketAddr, now: Instant) -> PeersView {
    heard_of(frame_counted(v, addr, now), addr, 0, now)
}

/// Counts a frame against the allowance of its sender. A frame beyond it costs the sender and
/// ends the connection.
pub fn admit_frame(pm: &mut PeerManager, addr: &SocketAddr, now: Instant) -> (res: Result<
    (),
    P2pError,
>)
    requires
        old(pm).wf(),
        peer::clock_fits(now),
    ensures
        final(pm).wf(),
        match res {
            Ok(_) => !frame_beyond_rate(old(pm)@, *addr, now) && final(pm)@ == frame_admitted(
                old(pm)@,
                *addr,
                now,
            ),
            Err(e) => {
                &&& frame_beyond_rate(old(pm)@, *addr, now)
                &&& error::is_protocol(e, "rate limited"@)
                &&& peer::struck_in_place(
                    frame_counted(old(pm)@, *addr, now),
                    final(pm)@,
                    *addr,
                    SCORE_RATE_LIMIT,
                    now,
                )
            },
        },
{
    let mut limited: bool = false;
    if let Some(p) = pm.get_peer_mut(addr) {
        if p.check_msg_rate(now) {
            p.last_seen = Some(now);
        } else {
            limited = true;
        }
    }
    if limited {
        assert(pm@ =~= frame_counted(old(pm)@, *addr, now));
        pm.note_rate_violation(addr, now);
        return Err(P2pError::protocol("rate limited"));
    }
    assert(pm@ =~= frame_admitted(old(pm)@, *addr, now));
    Ok(())
}

/// The peer after it was heard of.
pub open spec fn heard_of(v: PeersView, addr: SocketAddr, points: int, now: Instant) -> PeersView {
    if v.peers.contains_key(addr) {
        let p = v.peers[addr];
        v.with_peer(
            addr,
            PeerInfo { last_seen: Some(now), score: peer::clamp_i32(p.score + points), ..p },
        )
    } else {
        v
    }
}

/// What a ping leads to: the pong with its nonce, which counts as a good turn, or an error where
/// it cannot be decoded.
pub open spec fn ping_answered(
    before: PeersView,
    after: PeersView,
    addr: SocketAddr,
    payload: Seq<u8>,
    magic: Seq<u8>,
    now: Instant,
    res: Result<Message, P2pError>,
) -> bool {
    match PingMessage::parse(payload) {
        Ok(ping) => {
            &&& res matches Ok(pong)
            &&& pong@ == (MessageView {
                msg_type: MessageType::Pong,
                payload: ping.payload(),
                magic,
            })
            &&& after == heard_of(before, addr, 1, now)
        },
        Err(text) => {
            &&& res matches Err(e)
            &&& error::is_protocol_for(e, Reason::Codec(text))
            &&& after == before
        },
    }
}

/// Answers a ping: the pong to send. It counts as a good turn.
pub fn on_ping(
    pm: &mut PeerManager,
    addr: &SocketAddr,
    payload: &[u8],
    magic: [u8; 4],
    now: Instant,
) -> (res: Result<Message, P2pError>)
    requires
        old(pm).wf(),
    ensures
        final(pm).wf(),
        ping_answered(old(pm)@, final(pm)@, *addr, payload@, magic@, now, res),
{
    let ping: PingMessage = match PingMessage::decode(payload) {
        Ok(ping) => ping,
        Err(e) => {
            return Err(P2pError::from_core(&e));
        },
    };
    let pong: Message = Message::with_magic(MessageType::Pong, ping.encode(), magic);
    if let Some(p) = pm.get_peer_mut(addr) {
        p.last_seen = Some(now);
        p.score_tick();
    }
    Ok(pong)
}

/// Takes a pong: the peer is alive.
pub fn on_pong(pm: &mut PeerManager, addr: &SocketAddr, now: Instant)
    requires
        old(pm).wf(),
    ensures
        final(pm).wf(),
        final(pm)@ == heard_of(old(pm)@, *addr, 0, now),
{
    if let Some(p) = pm.get_peer_mut(addr) {
        p.last_seen = Some(now);
    }
}

/// The headers that a peer asks for: which ones to read, and the reply as far as they were
/// read.
pub struct HeaderServer {
    /// The height after which the headers are asked for.
    pub start: u32,
    /// The next height to read.
    pub next: u64,
    /// The last height to read.
    pub last: u32,
    /// How many headers the reply holds.
    pub count: u32,
    /// The encoded headers, one after the other.
    pub body: Vec<u8>,
}

/// The state of a header server.
#[verifier::ext_equal]
pub struct ServerView {
    pub start: u32,
    pub next: u64,
    pub last: u32,
    pub count: u32,
    pub body: Seq<u8>,
}

impl View for HeaderServer {
    type V = ServerView;

    open spec fn view(&self) -> ServerView {
        ServerView {
            start: self.start,
            next: self.next,
            last: self.last,
            count: self.count,
            body: self.body@,
        }
    }
}

/// A server of the headers after `start`, before any was read.
pub open spec fn serving(start: u32, tip: u32) -> ServerView {
    ServerView {
        start,
        next: (start + 1) as u64,
        last: if start + MAX_HEADERS_PER_RESPONSE < tip {
            (start + MAX_HEADERS_PER_RESPONSE) as u32
        } else {
            tip
        },
        count: 0,
        body: Seq::empty(),
    }
}

/// The server after it was given what is stored at the height it wanted.
pub open spec fn supplied(v: ServerView, encoded: Option<Seq<u8>>) -> ServerView {
    match encoded {
        Some(header) => ServerView {
            next: (v.next + 1) as u64,
            count: (v.count + 1) as u32,
            body: v.body + header,
            ..v
        },
        None => ServerView { next: (v.last + 1) as u64, ..v },
    }
}

/// Where headers are asked for from.
pub enum StartHeight {
    Known(u32),
    /// The syncer does not know the hash: the storage may.
    AskStorage(Hash32),
}

/// Where a request for headers starts: at the lowest height with the hash it names, which the
/// syncer may not know, or at zero where it names none.
pub open spec fn start_found(
    v: SyncView,
    payload: Seq<u8>,
    res: Result<StartHeight, P2pError>,
) -> bool {
    match GetHeadersMessage::parse(payload) {
        Err(text) => res matches Err(e) && error::is_protocol_for(e, Reason::Codec(text)),
        Ok((start, _)) => {
            &&& res matches Ok(found)
            &&& match found {
                StartHeight::Known(height) => if start == Seq::new(32, |i: int| 0u8) {
                    height == 0
                } else {
                    &&& v.known_headers.contains_key(height)
                    &&& v.known_headers[height].0@ == start
                    &&& forall|h: u32|
                        h < height && #[trigger] v.known_headers.contains_key(h)
                            ==> v.known_headers[h].0@ != start
                },
                StartHeight::AskStorage(hash) => {
                    &&& hash.0@ == start
                    &&& start != Seq::new(32, |i: int| 0u8)
                    &&& !v.known_headers.contains_value(hash)
                },
            }
        },
    }
}

/// Where a request for headers starts.
pub fn requested_start(syncer: &ChainSyncer, payload: &[u8]) -> (res: Result<StartHeight, P2pError>)
    ensures
        start_found(syncer@, payload@, res),
{
    let request: GetHeadersMessage = match GetHeadersMessage::decode(payload) {
        Ok(request) => request,
        Err(e) => {
            return Err(P2pError::from_core(&e));
        },
    };
    let start: Hash32 = request.start_hash;
    proof {
        let zeros = Seq::new(32, |i: int| 0u8);
        assert(start.is_zero() <==> start.0@ =~= zeros);
        assert forall|h: Hash32| h.0@ == start.0@ implies h == start by {
            assert(h.0 =~= start.0);
        }
    }
    match syncer.find_headers_start_height(&start) {
        Some(height) => Ok(StartHeight::Known(height)),
        None => Ok(StartHeight::AskStorage(start)),
    }
}

/// Where headers are asked for from when the syncer does not know the hash: at the height that the
/// storage has found, or at zero.
pub fn stored_start(found: Option<u32>) -> (height: u32)
    ensures
        height == match found {
            Some(h) => h,
            None => 0,
        },
{
    match found {
        Some(h) => h,
        None => 0,
    }
}

impl HeaderServer {
    /// Serves the headers after `start`, up to the tip and up to a full response.
    pub fn new(start: u32, tip: u32) -> (server: Self)
        requires
            start + MAX_HEADERS_PER_RESPONSE <= u32::MAX,
        ensures
            server.wf(),
            server.start == start,
            server.next == start + 1,
            server.last == if start + MAX_HEADERS_PER_RESPONSE < tip {
                (start + MAX_HEADERS_PER_RESPONSE) as u32
            } else {
                tip
            },
            server.count == 0,
            server.body@ == Seq::<u8>::empty(),
            server@ == serving(start, tip),
    {
        let reach: u32 = start + MAX_HEADERS_PER_RESPONSE as u32;
        HeaderServer {
            start,
            next: start as u64 + 1,
            last: if reach < tip {
                reach
            } else {
                tip
            },
            count: 0,
            body: Vec::new(),
        }
    }

    /// The reply is within a full response.
    pub open spec fn wf(self) -> bool {
        &&& self.start < self.next
        &&& self.last <= self.start + MAX_HEADERS_PER_RESPONSE
        &&& self.count <= MAX_HEADERS_PER_RESPONSE
        &&& self.next <= self.last ==> self.count == self.next - self.start - 1
    }

    /// The height of the header to read next, if there is one.
    pub fn wanted(&self) -> (height: Option<u32>)
        ensures
            height == if self.next <= self.last {
                Some(self.next as u32)
            } else {
                None
            },
    {
        if self.next <= self.last as u64 {
            Some(self.next as u32)
        } else {
            None
        }
    }

    /// Takes the encoded header of the wanted height. Where there is none, the reply is
    /// complete.
    pub fn supply(&mut self, encoded: Option<Vec<u8>>)
        requires
            old(self).wf(),
            old(self).next <= old(self).last,
        ensures
            final(self).wf(),
            final(self).start == old(self).start,
            match encoded {
                Some(header) => {
                    &&& final(self).body@ == old(self).body@ + header@
                    &&& final(self).count == old(self).count + 1
                    &&& final(self).next == old(self).next + 1
                    &&& final(self).last == old(self).last
                },
                None => {
                    &&& final(self).body@ == old(self).body@
                    &&& final(self).count == old(self).count
                    &&& final(self).next == final(self).last + 1
                    &&& final(self).last == old(self).last
                },
            },
            final(self)@ == supplied(
                old(self)@,
                match encoded {
                    Some(header) => Some(header@),
                    None => None,
                },
            ),
    {
        match encoded {
            Some(header) => {
                bytes::append_bytes(&mut self.body, header.as_slice());
                self.count = self.count + 1;
                self.next = self.next + 1;
            },
            None => {
                self.next = self.last as u64 + 1;
            },
        }
    }

    /// The reply: how many headers there are, and the headers.
    pub fn finish(&self, magic: [u8; 4]) -> (msg: Message)
        ensures
            msg@ == (MessageView {
                msg_type: MessageType::Headers,
                payload: bytes::le_bytes(self.count as nat, 4) + self.body@,
                magic: magic@,
            }),
    {
        let mut payload: Vec<u8> = Vec::new();
        bytes::push_le(&mut payload, self.count as u64, 4);
        bytes::append_bytes(&mut payload, self.body.as_slice());
        assert(payload@ =~= bytes::le_bytes(self.count as nat, 4) + self.body@);
        Message::with_magic(MessageType::Headers, payload, magic)
    }
}

/// What a Headers payload holds.
pub enum HeadersBody {
    /// Not even a count: the message is ignored.
    Ignore,
    /// More headers are announced than fit a response.
    TooMany,
    /// There are no more headers.
    Empty,
    /// Encoded headers, to be decoded in their order up to the first that cannot be.
    Encoded(Vec<Vec<u8>>),
}

/// How many whole headers a Headers payload holds.
pub open spec fn whole_headers(payload: Seq<u8>) -> int {
    let count = bytes::le_value(payload.subrange(0, 4));
    let fit = (payload.len() - 4) / ENCODED_HEADER_SIZE as int;
    if count < fit {
        count as int
    } else {
        fit
    }
}

/// The encoded header number `i` of a Headers payload.
pub open spec fn encoded_header(payload: Seq<u8>, i: int) -> Seq<u8> {
    payload.subrange(4 + ENCODED_HEADER_SIZE * i, 4 + ENCODED_HEADER_SIZE * (i + 1))
}

/// The Headers payload announces that there are no more headers.
pub open spec fn announces_none(payload: Seq<u8>) -> bool {
    payload.len() >= 4 && bytes::le_value(payload.subrange(0, 4)) == 0
}

/// `body` is what the Headers payload holds.
pub open spec fn body_is(body: HeadersBody, payload: Seq<u8>) -> bool {
    let count = bytes::le_value(payload.subrange(0, 4));
    if payload.len() < 4 {
        body is Ignore
    } else if count > MAX_HEADERS_PER_RESPONSE {
        body is TooMany
    } else if count == 0 {
        body is Empty
    } else {
        body matches HeadersBody::Encoded(headers) && encoded_headers(headers@, payload)
    }
}

/// The headers are the whole ones that a Headers payload holds.
pub open spec fn encoded_headers(headers: Seq<Vec<u8>>, payload: Seq<u8>) -> bool {
    &&& headers.len() == whole_headers(payload)
    &&& forall|i: int|
        0 <= i < headers.len() ==> (#[trigger] headers[i])@ == encoded_header(payload, i)
}

/// What a Headers payload holds.
pub fn headers_body(payload: &[u8]) -> (body: HeadersBody)
    ensures
        body_is(body, payload@),
{
    if payload.len() < 4 {
        return HeadersBody::Ignore;
    }
    let announced: u64 = bytes::read_le(payload, 0, 4);
    if announced > MAX_HEADERS_PER_RESPONSE as u64 {
        return HeadersBody::TooMany;
    }
    if announced == 0 {
        return HeadersBody::Empty;
    }
    let count: usize = announced as usize;
    let mut headers: Vec<Vec<u8>> = Vec::new();
    let mut i: usize = 0;
    while i < count && 4 + (i + 1) * ENCODED_HEADER_SIZE <= payload.len()
        invariant
            i <= count <= MAX_HEADERS_PER_RESPONSE,
            count == bytes::le_value(payload@.subrange(0, 4)),
            payload@.len() >= 4,
            4 + i * ENCODED_HEADER_SIZE <= payload@.len(),
            headers@.len() == i,
            forall|k: int|
                0 <= k < i ==> (#[trigger] headers@[k])@ == encoded_header(payload@, k),
        decreases count - i,
    {
        let pos: usize = 4 + i * ENCODED_HEADER_SIZE;
        headers.push(slice_to_vec(slice_subrange(payload, pos, pos + ENCODED_HEADER_SIZE)));
        i += 1;
    }
    HeadersBody::Encoded(headers)
}

/// The state after a peer's batch, and what the syncer asks for then. Nothing happens where
/// another peer owns the sync.
pub open spec fn batch_from(v: SyncView, addr: SocketAddr, headers: Seq<BlockHeader>, now: Instant) -> (
    SyncView,
    Seq<SyncCommandView>,
) {
    if v.may_claim(addr) {
        v.claimed(addr, now).after_headers(headers, now)
    } else {
        (v, Seq::empty())
    }
}

fn take_batch(
    syncer: &mut ChainSyncer,
    addr: &SocketAddr,
    headers: Vec<BlockHeader>,
    magic: [u8; 4],
    now: Instant,
) -> (messages: Vec<Message>)
    requires
        old(syncer)@.may_claim(*addr) ==> old(syncer)@.heights_fit(headers@),
    ensures
        final(syncer)@ == batch_from(old(syncer)@, *addr, headers@, now).0,
        relay::messages_view(messages@) == relay::commands_messages(
            batch_from(old(syncer)@, *addr, headers@, now).1,
            magic@,
        ),
{
    if !syncer.claim_sync_peer(*addr, now) {
        let messages: Vec<Message> = Vec::new();
        assert(relay::messages_view(messages@) =~= Seq::empty());
        return messages;
    }
    proof {
        sync::lemma_claim_commutes(old(syncer)@, headers@, *addr, now);
    }
    let commands: Vec<SyncCommand> = syncer.received_headers(headers, now);
    assert(sync::commands_view(commands@) =~= commands@.map_values(|c: SyncCommand| c@));
    relay::execute_sync_commands(&commands, magic)
}

/// Takes the end of a peer's headers: the messages to send.
pub fn on_empty_batch(
    syncer: &mut ChainSyncer,
    addr: &SocketAddr,
    magic: [u8; 4],
    now: Instant,
) -> (messages: Vec<Message>)
    requires
        old(syncer)@.may_claim(*addr) ==> old(syncer)@.heights_fit(Seq::empty()),
    ensures
        final(syncer)@ == batch_from(old(syncer)@, *addr, Seq::empty(), now).0,
        relay::messages_view(messages@) == relay::commands_messages(
            batch_from(old(syncer)@, *addr, Seq::empty(), now).1,
            magic@,
        ),
{
    let headers: Vec<BlockHeader> = Vec::new();
    assert(headers@ =~= Seq::empty());
    take_batch(syncer, addr, headers, magic, now)
}

/// Takes the headers of a peer: the messages to send. A batch that does not fit what is known
/// is ignored, and so is one of a peer that does not own the sync.
pub fn on_header_batch(
    syncer: &mut ChainSyncer,
    addr: &SocketAddr,
    headers: Vec<BlockHeader>,
    magic: [u8; 4],
    now: Instant,
) -> (messages: Vec<Message>)
    requires
        old(syncer)@.batch_valid(headers@) && old(syncer)@.may_claim(*addr)
            ==> old(syncer)@.heights_fit(headers@),
    ensures
        if old(syncer)@.batch_valid(headers@) {
            &&& final(syncer)@ == batch_from(old(syncer)@, *addr, headers@, now).0
            &&& relay::messages_view(messages@) == relay::commands_messages(
                batch_from(old(syncer)@, *addr, headers@, now).1,
                magic@,
            )
        } else {
            final(syncer)@ == old(syncer)@ && messages@.len() == 0
        },
{
    if !syncer.header_batch_valid(headers.as_slice()) {
        return Vec::new();
    }
    take_batch(syncer, addr, headers, magic, now)
}

/// The error text is that of a block which no honest peer makes.
pub open spec fn tells_forgery(text: Seq<char>) -> bool {
    ||| text::has_part(text, "coinbase"@)
    ||| text::has_part(text, "subsidy"@)
    ||| text::has_part(text, "reward"@)
    ||| text::has_part(text, "zero sender"@)
    ||| text::has_part(text, "zero signature"@)
    ||| text::has_part(text, "at least one transaction"@)
    ||| text::has_part(text, "nonce must be 0"@)
}

/// What a rejected block costs its sender: only what no honest peer does is charged, and
/// losing a race is not.
pub open spec fn rejection_cost(e: CoreError) -> i32 {
    match e {
        CoreError::InvalidProofOfWork
        | CoreError::InvalidStateRoot
        | CoreError::InvalidMerkleRoot
        | CoreError::BlockSizeExceeded
        | CoreError::TransactionSizeExceeded
        | CoreError::SupplyInvariant
        | CoreError::Overflow
        | CoreError::InvalidSignature(_) => SCORE_INVALID_BLOCK,
        CoreError::InvalidBlock(text) => if tells_forgery(text@) {
            SCORE_INVALID_BLOCK
        } else {
            0
        },
        _ => 0,
    }
}

/// What a rejected block costs its sender.
pub fn block_rejection_score(e: &CoreError) -> (points: i32)
    ensures
        points == rejection_cost(*e),
{
    match e {
        CoreError::InvalidProofOfWork
        | CoreError::InvalidStateRoot
        | CoreError::InvalidMerkleRoot
        | CoreError::BlockSizeExceeded
        | CoreError::TransactionSizeExceeded
        | CoreError::SupplyInvariant
        | CoreError::Overflow
        | CoreError::InvalidSignature(_) => SCORE_INVALID_BLOCK,
        CoreError::InvalidBlock(msg) => {
            let m: &str = msg.as_str();
            if text::contains(m, "coinbase") || text::contains(m, "subsidy") || text::contains(
                m,
                "reward",
            ) || text::contains(m, "zero sender") || text::contains(m, "zero signature")
                || text::contains(m, "at least one transaction") || text::contains(
                m,
                "nonce must be 0",
            ) {
                SCORE_INVALID_BLOCK
            } else {
                0
            }
        },
        _ => 0,
    }
}

/// The counters after a block was rejected.
pub open spec fn rejection_counted(before: RelaySnapshot, points: i32) -> RelaySnapshot {
    if points > 0 {
        RelaySnapshot {
            blocks_rejected_scored: stats::bumped(before.blocks_rejected_scored),
            ..before
        }
    } else {
        RelaySnapshot {
            blocks_rejected_unscored: stats::bumped(before.blocks_rejected_unscored),
            ..before
        }
    }
}

/// Takes note of a block that the chain rejects: what to report. `reason` is the chain's text
/// for `e`, and `name` how the peer is called.
pub fn on_block_rejected(
    pm: &mut PeerManager,
    syncer: &mut ChainSyncer,
    relay_stats: &mut RelayStats,
    addr: &SocketAddr,
    name: &str,
    e: &CoreError,
    reason: &str,
    now: Instant,
) -> (events: Vec<NodeEvent>)
    requires
        old(pm).wf(),
        peer::clock_fits(now),
        old(syncer)@.consecutive_sync_failures < u32::MAX,
    ensures
        final(pm).wf(),
        final(syncer)@ == old(syncer)@.failed_once_more(),
        final(relay_stats)@ == rejection_counted(old(relay_stats)@, rejection_cost(*e)),
        if rejection_cost(*e) > 0 {
            peer::struck_and_mirrored(old(pm)@, final(pm)@, *addr, rejection_cost(*e), now)
        } else {
            final(pm)@ == old(pm)@
        },
        events@.len() == if final(syncer)@.consecutive_sync_failures >= MAX_SYNC_FAILURES {
            2
        } else {
            1int
        },
        event::reports(events@[0], "block validation failed: "@ + reason@),
        events@.len() == 2 ==> event::reports(
            events@[1],
            "peer "@ + name@ + " banned for repeated sync failures"@,
        ),
{
    let mut events: Vec<NodeEvent> = Vec::new();
    events.push(NodeEvent::Error(error::prefixed("block validation failed: ", reason)));
    syncer.record_sync_failure();
    if syncer.is_peer_banned_for_sync() {
        let mut text: String = error::prefixed("peer ", name);
        text.append(" banned for repeated sync failures");
        events.push(NodeEvent::Error(text));
    }
    let points: i32 = block_rejection_score(e);
    if points > 0 {
        RelayStats::note_sent(&mut relay_stats.blocks_rejected_scored);
        pm.note_invalid_object(addr, points, now);
    } else {
        RelayStats::note_sent(&mut relay_stats.blocks_rejected_unscored);
    }
    events
}

/// Takes note of a block that cannot be decoded: what to report.
pub fn on_undecodable_block(
    pm: &mut PeerManager,
    syncer: &mut ChainSyncer,
    addr: &SocketAddr,
    name: &str,
    reason: &str,
    now: Instant,
) -> (reported: NodeEvent)
    requires
        old(pm).wf(),
        peer::clock_fits(now),
        old(syncer)@.consecutive_sync_failures < u32::MAX,
    ensures
        final(pm).wf(),
        final(syncer)@ == old(syncer)@.failed_once_more(),
        peer::struck_and_mirrored(old(pm)@, final(pm)@, *addr, SCORE_MALFORMED, now),
        event::reports(reported, "block decode failed from "@ + name@ + ": "@ + reason@),
{
    syncer.record_sync_failure();
    pm.note_invalid_object(addr, SCORE_MALFORMED, now);
    let mut text: String = error::prefixed("block decode failed from ", name);
    text.append(": ");
    text.append(reason);
    NodeEvent::Error(text)
}

/// A block that was applied, and the tip before it.
pub struct AppliedBlock {
    pub hash: Hash32,
    pub height: u32,
    pub old_height: u32,
    pub old_hash: Hash32,
}

/// What an applied block leads to.
pub struct BlockOutcome {
    /// What to report.
    pub events: Vec<NodeEvent>,
    /// The request for the next block, while blocks are being synced.
    pub request: Option<Message>,
    /// The announcement to the other peers, unless the node is far behind.
    pub announcement: Option<Message>,
}

/// What is reported of an applied block: the block, and a reorganisation where the tip went
/// down.
pub open spec fn block_events(block: AppliedBlock) -> Seq<NodeEvent> {
    let received = NodeEvent::BlockReceived(block.hash, block.height);
    if block.height < block.old_height {
        seq![
            received,
            NodeEvent::Reorg {
                old_height: block.old_height,
                old_hash: block.old_hash,
                new_height: block.height,
                new_hash: block.hash,
                depth: (block.old_height - block.height) as u32,
            },
        ]
    } else {
        seq![received]
    }
}

/// The state after an applied block, and the block to request next: while blocks are being
/// synced and none is outstanding, the sync goes on.
pub open spec fn sync_after_block(v: SyncView, block: AppliedBlock, now: Instant) -> (
    SyncView,
    Option<Hash32>,
) {
    let settled = v.after_block(block.hash, block.height, now);
    if settled.state == SyncState::SyncingBlocks && settled.pending_block_requests.len() == 0 {
        settled.advanced()
    } else {
        (settled, None)
    }
}

/// Takes note of a block that was applied. Its transactions leave the pool, the sync goes on,
/// and the block is announced unless the node is far behind.
pub fn on_block_applied(
    syncer: &mut ChainSyncer,
    pool: &mut Mempool,
    relay_stats: &mut RelayStats,
    block: &AppliedBlock,
    tx_hashes: &[Hash32],
    magic: [u8; 4],
    now: Instant,
) -> (outcome: BlockOutcome)
    requires
        old(pool).wf(),
        old(syncer)@.state == SyncState::SyncingBlocks ==> {
            &&& old(syncer)@.next_height < u32::MAX
            &&& old(syncer)@.synced_header_height + IBD_HEIGHT_THRESHOLD <= u32::MAX
            &&& block.height + IBD_HEIGHT_THRESHOLD <= u32::MAX
        },
    ensures
        final(pool).wf(),
        final(pool)@ == old(pool)@.filter(|e: EntryView| !tx_hashes@.contains(e.tx_hash)),
        mempool::filed_by_digest(old(pool)@) ==> mempool::filed_by_digest(final(pool)@),
        final(relay_stats)@ == (RelaySnapshot {
            blocks_applied: stats::bumped(old(relay_stats)@.blocks_applied),
            ..old(relay_stats)@
        }),
        final(syncer)@ == sync_after_block(old(syncer)@, *block, now).0,
        outcome.events@ == block_events(*block),
        match sync_after_block(old(syncer)@, *block, now).1 {
            Some(next) => outcome.request matches Some(msg) && msg@ == relay::block_request(
                seq![next],
                magic@,
            ),
            None => outcome.request is None,
        },
        if final(syncer)@.in_ibd() {
            outcome.announcement is None
        } else {
            outcome.announcement matches Some(msg) && msg@ == relay::inventory_message(
                MessageType::Inv,
                seq![InvEntry { inv_type: InvType::Block, hash: block.hash }],
                wire::MAGIC@,
            )
        },
{
    RelayStats::note_sent(&mut relay_stats.blocks_applied);
    let mut events: Vec<NodeEvent> = Vec::new();
    events.push(NodeEvent::BlockReceived(block.hash, block.height));
    if block.height < block.old_height {
        events.push(
            NodeEvent::Reorg {
                old_height: block.old_height,
                old_hash: block.old_hash,
                new_height: block.height,
                new_hash: block.hash,
                depth: block.old_height - block.height,
            },
        );
    }
    assert(events@ =~= block_events(*block));
    pool.remove_transactions(tx_hashes);
    syncer.received_block(block.hash, block.height, now);
    let mut request: Option<Message> = None;
    if syncer.needs_blocks() {
        if let Some(next) = syncer.advance_block_sync() {
            let hashes: [Hash32; 1] = [next];
            request = Some(relay::request_blocks(&hashes, magic));
            assert(hashes@ =~= seq![next]);
        }
    }
    let announcement: Option<Message> = if syncer.is_in_initial_block_download() {
        None
    } else {
        Some(relay::announce(InvType::Block, block.hash))
    };
    BlockOutcome { events, request, announcement }
}

/// The hashes of encoded transactions.
pub fn hash_all(encoded: &Vec<Vec<u8>>) -> (hashes: Vec<Hash32>)
    ensures
        hashes@.len() == encoded@.len(),
        forall|i: int|
            0 <= i < hashes@.len() ==> (#[trigger] hashes@[i]) == Hash32(
                hash::blake3_digest(encoded@[i]@),
            ),
{
    let mut hashes: Vec<Hash32> = Vec::new();
    let mut i: usize = 0;
    while i < encoded.len()
        invariant
            i <= encoded@.len(),
            hashes@.len() == i,
            forall|k: int|
                0 <= k < i ==> (#[trigger] hashes@[k]) == Hash32(
                    hash::blake3_digest(encoded@[k]@),
                ),
        decreases encoded.len() - i,
    {
        hashes.push(Hash32::digest(encoded[i].as_slice()));
        i += 1;
    }
    hashes
}

/// What a transaction of a peer leads to.
pub enum TxOutcome {
    /// The peer has used up its allowance: report it.
    RateLimited(NodeEvent),
    /// The transaction is not valid: report it, and answer that it was not found.
    Invalid(NodeEvent, Message),
    /// The transaction is valid: report it, and announce it to the other peers.
    Accepted(NodeEvent, Message),
}

/// The transaction exceeds the allowance of its sender.
pub open spec fn tx_beyond_rate(v: PeersView, addr: SocketAddr, now: Instant) -> bool {
    v.peers.contains_key(addr) && !v.peers[addr].tx_limiter.allows(now)
}

/// The peers after a transaction was counted against the allowance of its sender.
pub open spec fn tx_counted(v: PeersView, addr: SocketAddr, now: Instant) -> PeersView {
    if v.peers.contains_key(addr) {
        let p = v.peers[addr];
        v.with_peer(addr, PeerInfo { tx_limiter: p.tx_limiter.after_attempt(now), ..p })
    } else {
        v
    }
}

/// What a transaction of a peer leads to: beyond the allowance it is dropped, one that is not
/// valid costs its sender, and any other is pooled and announced. `hashes` are that of the
/// transaction and that of the message it came in.
pub open spec fn tx_outcome_is(
    outcome: TxOutcome,
    peers: (PeersView, PeersView),
    pools: (Seq<EntryView>, Seq<EntryView>),
    addr: SocketAddr,
    name: Seq<char>,
    tx: TxView,
    hashes: (Hash32, Hash32),
    signature_valid: bool,
    magic: Seq<u8>,
    now: Instant,
) -> bool {
    let (before, after) = peers;
    let (pool_before, pool_after) = pools;
    let (tx_hash, payload_hash) = hashes;
    let counted = tx_counted(before, addr, now);
    if tx_beyond_rate(before, addr, now) {
        &&& outcome matches TxOutcome::RateLimited(reported)
        &&& event::reports(reported, "tx rate limited from "@ + name)
        &&& peer::struck_in_place(counted, after, addr, SCORE_RATE_LIMIT, now)
        &&& pool_after == pool_before
    } else if !mempool::acceptable(tx, signature_valid) {
        &&& outcome matches TxOutcome::Invalid(reported, msg)
        &&& exists|e: CoreError, text: Seq<char>|
            {
                &&& #[trigger] mempool::verdict(Some(e), tx, signature_valid)
                &&& #[trigger] error::tells_of(text, e)
                &&& event::reports(reported, "invalid tx from "@ + name + ": "@ + text)
            }
        &&& msg@ == relay::inventory_message(
            MessageType::NotFound,
            seq![InvEntry { inv_type: InvType::Tx, hash: payload_hash }],
            magic,
        )
        &&& peer::struck_and_mirrored(counted, after, addr, SCORE_INVALID_TX, now)
        &&& pool_after == pool_before
    } else {
        &&& outcome matches TxOutcome::Accepted(reported, msg)
        &&& reported == NodeEvent::TxReceived(tx_hash)
        &&& msg@ == relay::inventory_message(
            MessageType::Inv,
            seq![InvEntry { inv_type: InvType::Tx, hash: tx_hash }],
            wire::MAGIC@,
        )
        &&& after == counted
        &&& pool_after == mempool::added(pool_before, tx, tx_hash).0
    }
}

/// Takes a transaction of a peer. `payload` is the message it came in, `signature_valid` the
/// verdict on its signature, and `name` how the peer is called.
pub fn on_tx(
    pm: &mut PeerManager,
    pool: &mut Mempool,
    addr: &SocketAddr,
    name: &str,
    tx: Transaction,
    payload: &[u8],
    signature_valid: bool,
    magic: [u8; 4],
    now: Instant,
) -> (outcome: TxOutcome)
    requires
        old(pm).wf(),
        old(pool).wf(),
        peer::clock_fits(now),
    ensures
        final(pm).wf(),
        final(pool).wf(),
        tx_outcome_is(
            outcome,
            (old(pm)@, final(pm)@),
            (old(pool)@, final(pool)@),
            *addr,
            name@,
            tx@,
            (mempool::digest_of(tx@), Hash32(hash::blake3_digest(payload@))),
            signature_valid,
            magic@,
            now,
        ),
        mempool::filed_by_digest(old(pool)@) ==> mempool::filed_by_digest(final(pool)@),
{
    let tx_hash: Hash32 = Hash32::digest(tx.encoded.as_slice());
    let payload_hash: Hash32 = Hash32::digest(payload);
    on_hashed_tx(pm, pool, addr, name, tx, (tx_hash, payload_hash), signature_valid, magic, now)
}

/// Takes a transaction of a peer, where its hash and that of its message are known; see
/// `on_tx`.
pub fn on_hashed_tx(
    pm: &mut PeerManager,
    pool: &mut Mempool,
    addr: &SocketAddr,
    name: &str,
    tx: Transaction,
    hashes: (Hash32, Hash32),
    signature_valid: bool,
    magic: [u8; 4],
    now: Instant,
) -> (outcome: TxOutcome)
    requires
        old(pm).wf(),
        old(pool).wf(),
        peer::clock_fits(now),
    ensures
        final(pm).wf(),
        final(pool).wf(),
        tx_outcome_is(
            outcome,
            (old(pm)@, final(pm)@),
            (old(pool)@, final(pool)@),
            *addr,
            name@,
            tx@,
            hashes,
            signature_valid,
            magic@,
            now,
        ),
        mempool::filed_by_digest(old(pool)@) && hashes.0 == mempool::digest_of(tx@)
            ==> mempool::filed_by_digest(final(pool)@),
{
    let mut limited: bool = false;
    if let Some(p) = pm.get_peer_mut(addr) {
        limited = !p.check_tx_rate(now);
    }
    assert(pm@ =~= tx_counted(old(pm)@, *addr, now));
    if limited {
        pm.note_rate_violation(addr, now);
        return TxOutcome::RateLimited(
            NodeEvent::Error(error::prefixed("tx rate limited from ", name)),
        );
    }
    match Mempool::validate_transaction(&tx, signature_valid) {
        Ok(_) => {},
        Err(e) => {
            let mut text: String = error::prefixed("invalid tx from ", name);
            text.append(": ");
            let reason: String = e.to_string();
            assert(error::tells_of(reason@, e));
            text.append(reason.as_str());
            pm.note_invalid_object(addr, SCORE_INVALID_TX, now);
            let msg: Message = relay::not_found(
                InvEntry { inv_type: InvType::Tx, hash: hashes.1 },
                magic,
            );
            assert(mempool::verdict(Some(e), tx@, signature_valid));
            return TxOutcome::Invalid(NodeEvent::Error(text), msg);
        },
    }
    let tx_hash: Hash32 = hashes.0;
    let _ = pool.add_hashed(tx, tx_hash, signature_valid);
    TxOutcome::Accepted(NodeEvent::TxReceived(tx_hash), relay::announce(InvType::Tx, tx_hash))
}

/// Takes note of a transaction that cannot be decoded: what to report.
pub fn on_undecodable_tx(
    pm: &mut PeerManager,
    addr: &SocketAddr,
    name: &str,
    reason: &str,
    now: Instant,
) -> (reported: NodeEvent)
    requires
        old(pm).wf(),
        peer::clock_fits(now),
    ensures
        final(pm).wf(),
        peer::struck_and_mirrored(old(pm)@, final(pm)@, *addr, SCORE_MALFORMED, now),
        event::reports(reported, "tx decode failed from "@ + name@ + ": "@ + reason@),
{
    pm.note_invalid_object(addr, SCORE_MALFORMED, now);
    let mut text: String = error::prefixed("tx decode failed from ", name);
    text.append(": ");
    text.append(reason);
    NodeEvent::Error(text)
}

/// What ends a connection after a failed read: wrong magic bytes cost the sender, the end of
/// the stream is no error, and anything else is.
pub fn on_read_error(pm: &mut PeerManager, addr: &SocketAddr, e: P2pError, now: Instant) -> (res:
    Result<(), P2pError>)
    requires
        old(pm).wf(),
        peer::clock_fits(now),
    ensures
        final(pm).wf(),
        match e {
            P2pError::Io(_) => res is Ok && final(pm)@ == old(pm)@,
            P2pError::Protocol(text) => if text::has_part(text@, "bad magic"@) {
                &&& res matches Err(out)
                &&& error::is_protocol(out, "bad magic"@)
                &&& peer::struck_and_mirrored(old(pm)@, final(pm)@, *addr, SCORE_MALFORMED, now)
            } else {
                res == Err::<(), P2pError>(e) && final(pm)@ == old(pm)@
            },
        },
{
    match e {
        P2pError::Io(_) => Ok(()),
        P2pError::Protocol(text) => {
            if text::contains(text.as_str(), "bad magic") {
                pm.note_invalid_object(addr, SCORE_MALFORMED, now);
                Err(P2pError::protocol("bad magic"))
            } else {
                Err(P2pError::Protocol(text))
            }
        },
    }
}

/// A reply of whole headers holds, for the peer that reads it, the headers that were put in.
pub proof fn served_headers_are_read_back(headers: Seq<Seq<u8>>, i: int)
    requires
        0 < headers.len() <= MAX_HEADERS_PER_RESPONSE,
        forall|k: int| 0 <= k < headers.len() ==> (#[trigger] headers[k]).len() == ENCODED_HEADER_SIZE,
        0 <= i < headers.len(),
    ensures
        ({
            let payload = bytes::le_bytes(headers.len(), 4) + headers.flatten();
            &&& bytes::le_value(payload.subrange(0, 4)) == headers.len()
            &&& whole_headers(payload) == headers.len()
            &&& encoded_header(payload, i) == headers[i]
        }),
{
    let n = headers.len();
    let body = headers.flatten();
    let payload = bytes::le_bytes(n, 4) + body;
    bytes::lemma_le_bytes_len(n, 4);
    bytes::lemma_pow256();
    bytes::lemma_le_value_of_bytes(n, 4);
    assert(payload.subrange(0, 4) =~= bytes::le_bytes(n, 4));
    lemma_flatten_parts(headers, i);
    assert((payload.len() - 4) / ENCODED_HEADER_SIZE as int == n);
    assert(encoded_header(payload, i) =~= body.subrange(
        ENCODED_HEADER_SIZE * i,
        ENCODED_HEADER_SIZE * (i + 1),
    ));
}

proof fn lemma_flatten_parts(parts: Seq<Seq<u8>>, i: int)
    requires
        forall|k: int| 0 <= k < parts.len() ==> (#[trigger] parts[k]).len() == ENCODED_HEADER_SIZE,
        0 <= i < parts.len(),
    ensures
        parts.flatten().len() == ENCODED_HEADER_SIZE * parts.len(),
        parts.flatten().subrange(ENCODED_HEADER_SIZE * i, ENCODED_HEADER_SIZE * (i + 1)) == parts[i],
    decreases parts.len(),
{
    let rest = parts.drop_first();
    let all = parts.flatten();
    assert(all == parts.first() + rest.flatten());
    if rest.len() == 0 {
        assert(rest.flatten() =~= Seq::empty());
        assert(all.subrange(0, ENCODED_HEADER_SIZE as int) =~= parts[0]);
    } else if i == 0 {
        lemma_flatten_parts(rest, 0);
        assert(all.subrange(0, ENCODED_HEADER_SIZE as int) =~= parts[0]);
    } else {
        lemma_flatten_parts(rest, i - 1);
        assert(all.subrange(ENCODED_HEADER_SIZE * i, ENCODED_HEADER_SIZE * (i + 1))
            =~= rest.flatten().subrange(
            ENCODED_HEADER_SIZE * (i - 1),
            ENCODED_HEADER_SIZE * i,
        ));
    }
}

/// One peer's batches never touch a sync that another peer owns.
pub proof fn sync_has_one_owner(
    v: SyncView,
    owner: SocketAddr,
    addr: SocketAddr,
    headers: Seq<BlockHeader>,
    now: Instant,
)
    requires
        v.sync_peer == Some(owner),
        addr != owner,
    ensures
        batch_from(v, addr, headers, now) == (v, Seq::<SyncCommandView>::empty()),
{
}

/// Losing a race costs nothing: only a block that names a forgery, or that breaks a rule no
/// honest peer breaks, is charged, and then always the same.
pub proof fn rejection_costs_all_or_nothing(e: CoreError)
    ensures
        rejection_cost(e) == 0 || rejection_cost(e) == SCORE_INVALID_BLOCK,
        e is Serialization || e is InvalidTransaction || e is Other ==> rejection_cost(e) == 0,
        e matches CoreError::InvalidBlock(text) ==> (rejection_cost(e) > 0 <==> tells_forgery(text@)),
{
}

} // verus!
