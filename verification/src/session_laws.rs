//! What a frame, a block or a transaction of a peer leads to, case by case.

use crate::addr::SocketAddr;
use crate::bytes;
use crate::dispatch;
use crate::dispatch::{Known, Work};
use crate::error;
use crate::error::CoreError;
use crate::event;
use crate::event::NodeEvent;
use crate::handshake;
use crate::handshake::{Handshake, HandshakeStep, HandshakeStepView};
use crate::hash::Hash32;
use crate::lifecycle;
use crate::lifecycle::{Lifecycle, Phase, Step};
use crate::mempool;
use crate::mempool::{EntryView, TxView};
use crate::noise_transport;
use crate::noise_transport::{HandshakeRole, NoiseStep, Progress};
use crate::peer;
use crate::peer::{PeerState, PeersView};
use crate::peer_rules;
use crate::relay;
use crate::session;
use crate::session::{
    AppliedBlock, BeforeRead, HeadersBody, ServerView, StartHeight, TxOutcome,
};
use crate::stats::RelaySnapshot;
use crate::sync;
use crate::sync::{BlockHeader, SyncCommandView, SyncState, SyncView};
use crate::text;
use crate::time::Instant;
use crate::wire;
use crate::wire::{InvEntry, InvType, Message, MessageType, VersionMessage};
use crate::wire_layout;
use vstd::prelude::*;

verus! {

/// Before it reads, a connection is left exactly when its peer may not be spoken to any more or
/// owes the response to a sync that has been waited for too long, which costs five points. Where
/// another peer owes it the connection pauses, and else it reads; neither changes anything.
pub proof fn connections_read_unless_barred(
    step: BeforeRead,
    before: PeersView,
    after: PeersView,
    syncer: SyncView,
    addr: SocketAddr,
    now: Instant,
)
    requires
        session::before_read_is(step, before, after, syncer, addr, now),
    ensures
        ({
            let barred = before.peers.contains_key(addr) && peer_rules::shunned(
                before.peers[addr],
                now,
            );
            let overdue = (syncer.state == SyncState::SyncingHeaders || syncer.state
                == SyncState::SyncingBlocks) && syncer.last_sync_request_time is Some && now.nanos
                - syncer.last_sync_request_time->0.nanos > 30 * 1_000_000_000;
            let owner = syncer.sync_peer == Some(addr);
            &&& step is Read <==> !barred && !overdue
            &&& step is Pause <==> !barred && overdue && !owner
            &&& step is Leave <==> barred || (overdue && owner)
            &&& barred ==> after == before && error::is_protocol(step->Leave_0, "peer banned"@)
                && step->Leave_1 is None
            &&& !barred && overdue && owner ==> {
                &&& peer::struck_and_mirrored(before, after, addr, 5, now)
                &&& error::is_protocol(step->Leave_0, "sync timeout"@)
                &&& step->Leave_1 == Some(NodeEvent::SyncTimeout(addr))
            }
            &&& !(step is Leave) ==> after == before
        }),
{
}

/// A frame is beyond the allowance exactly when its sender is on record and has no whole token
/// left. Every other frame takes a token of its sender's and counts as a sign of life.
pub proof fn frames_take_tokens(v: PeersView, addr: SocketAddr, now: Instant, other: SocketAddr)
    requires
        other != addr,
    ensures
        session::frame_beyond_rate(v, addr, now) <==> v.peers.contains_key(addr)
            && v.peers[addr].msg_limiter.refilled(now).tokens < 1_000_000_000,
        ({
            let after = session::frame_admitted(v, addr, now);
            &&& !v.peers.contains_key(addr) ==> after == v
            &&& v.peers.contains_key(addr) ==> {
                let p = after.peers[addr];
                &&& after.peers.contains_key(addr)
                &&& p.last_seen == Some(now)
                &&& p.msg_limiter == v.peers[addr].msg_limiter.after_attempt(now)
                &&& p.tx_limiter == v.peers[addr].tx_limiter
                &&& p.score == v.peers[addr].score
                &&& p.state == v.peers[addr].state
                &&& p.ban_until == v.peers[addr].ban_until
                &&& p.height == v.peers[addr].height
            }
            &&& after.peers.contains_key(other) <==> v.peers.contains_key(other)
            &&& v.peers.contains_key(other) ==> after.peers[other] == v.peers[other]
            &&& after.channels == v.channels && after.banned_ips == v.banned_ips
        }),
        ({
            let counted = session::frame_counted(v, addr, now);
            &&& v.peers.contains_key(addr) ==> counted.peers.contains_key(addr)
                && counted.peers[addr].msg_limiter == v.peers[addr].msg_limiter.after_attempt(now)
                && counted.peers[addr].last_seen == v.peers[addr].last_seen
                && counted.peers[addr].score == v.peers[addr].score
            &&& counted.channels == v.channels && counted.banned_ips == v.banned_ips
        }),
{
}

/// A ping is answered with a pong that carries the same nonce, and raises the score of its sender
/// by one. One that is too short ends the connection.
pub proof fn pings_are_answered_with_their_nonce(
    before: PeersView,
    after: PeersView,
    addr: SocketAddr,
    payload: Seq<u8>,
    magic: Seq<u8>,
    now: Instant,
    res: Result<Message, error::P2pError>,
)
    requires
        session::ping_answered(before, after, addr, payload, magic, now, res),
    ensures
        res is Ok <==> payload.len() >= 8,
        res is Ok ==> {
            &&& res->Ok_0.msg_type == MessageType::Pong
            &&& res->Ok_0.magic@ == magic
            &&& res->Ok_0.payload@ == payload.subrange(0, 8)
            &&& before.peers.contains_key(addr) ==> {
                &&& after.peers.contains_key(addr)
                &&& after.peers[addr].last_seen == Some(now)
                &&& before.peers[addr].score < i32::MAX ==> after.peers[addr].score
                    == before.peers[addr].score + 1
                &&& after.peers[addr].state == before.peers[addr].state
            }
            &&& !before.peers.contains_key(addr) ==> after == before
        },
        res is Err ==> after == before,
        after.channels == before.channels && after.banned_ips == before.banned_ips,
        after.peers.remove(addr) == before.peers.remove(addr),
{
    assert(after.peers.remove(addr) =~= before.peers.remove(addr));
    if payload.len() >= 8 {
        let part = payload.subrange(0, 8);
        bytes::lemma_le_bytes_of_value(part);
        bytes::lemma_le_value_bound(part);
        bytes::lemma_pow256();
        assert(res->Ok_0@.payload == part);
        assert(res->Ok_0@.msg_type == MessageType::Pong);
        assert(res->Ok_0@.magic == magic);
    }
}

/// A sign of life sets the time and adds its points to the score, and nothing else.
pub proof fn signs_of_life_are_noted(v: PeersView, addr: SocketAddr, points: int, now: Instant)
    ensures
        ({
            let after = session::heard_of(v, addr, points, now);
            &&& v.peers.contains_key(addr) ==> {
                let p = after.peers[addr];
                &&& after.peers.contains_key(addr)
                &&& p.last_seen == Some(now)
                &&& p.score == peer_rules::held(v.peers[addr].score + points)
                &&& p.state == v.peers[addr].state
                &&& p.ban_until == v.peers[addr].ban_until
                &&& p.msg_limiter == v.peers[addr].msg_limiter
                &&& p.tx_limiter == v.peers[addr].tx_limiter
                &&& p.height == v.peers[addr].height
                &&& p.remote_static == v.peers[addr].remote_static
            }
            &&& after.peers.remove(addr) == v.peers.remove(addr)
            &&& !v.peers.contains_key(addr) ==> after == v
        }),
{
    let after = session::heard_of(v, addr, points, now);
    assert(after.peers.remove(addr) =~= v.peers.remove(addr));
}

/// What a Headers payload holds is said by the count in its first four bytes: without one it is
/// ignored, more than two thousand are too many, none ends the headers, and else every header that
/// is there in full is taken, 124 bytes each, as many as were announced.
pub proof fn headers_are_taken_by_their_count(body: HeadersBody, payload: Seq<u8>)
    requires
        session::body_is(body, payload),
    ensures
        ({
            let count = wire_layout::four(payload, 0);
            &&& body is Ignore <==> payload.len() < 4
            &&& body is TooMany <==> payload.len() >= 4 && count > 2000
            &&& body is Empty <==> payload.len() >= 4 && count == 0
            &&& body is Encoded ==> {
                let headers = body->Encoded_0@;
                &&& headers.len() <= count
                &&& 4 + 124 * headers.len() <= payload.len()
                &&& headers.len() == count || payload.len() < 4 + 124 * (headers.len() + 1)
                &&& forall|i: int|
                    0 <= i < headers.len() ==> (#[trigger] headers[i])@ == payload.subrange(
                        4 + 124 * i,
                        128 + 124 * i,
                    )
            }
            &&& session::announces_none(payload) <==> payload.len() >= 4 && count == 0
        }),
{
    if payload.len() >= 4 {
        wire_layout::numbers_have_their_least_byte_first(payload, 0);
        if body is Encoded {
            let headers = body->Encoded_0@;
            assert forall|i: int| 0 <= i < headers.len() implies (#[trigger] headers[i])@
                == payload.subrange(4 + 124 * i, 128 + 124 * i) by {
                assert(headers[i]@ == session::encoded_header(payload, i));
            }
        }
    }
}

/// The batch of a peer is taken exactly when that peer owns the sync or nobody does, and it owns
/// the sync then.
pub proof fn batches_come_from_the_owner(
    v: SyncView,
    addr: SocketAddr,
    headers: Seq<BlockHeader>,
    now: Instant,
)
    ensures
        v.sync_peer is Some && v.sync_peer != Some(addr) ==> session::batch_from(
            v,
            addr,
            headers,
            now,
        ) == (v, Seq::<SyncCommandView>::empty()),
        v.sync_peer == Some(addr) ==> session::batch_from(v, addr, headers, now)
            == v.after_headers(headers, now),
        v.sync_peer is None ==> session::batch_from(v, addr, headers, now) == (SyncView {
            sync_peer: Some(addr),
            last_sync_request_time: Some(now),
            ..v
        }).after_headers(headers, now),
{
}

/// What a rejected block costs: a hundred points for what no honest peer makes, and nothing for
/// losing a race or for what is not recognised.
pub proof fn rejections_cost_by_their_kind(e: CoreError)
    ensures
        e is InvalidProofOfWork || e is InvalidStateRoot || e is InvalidMerkleRoot
            || e is BlockSizeExceeded || e is TransactionSizeExceeded || e is SupplyInvariant
            || e is Overflow || e is InvalidSignature ==> session::rejection_cost(e) == 100,
        e is Serialization || e is InvalidTransaction || e is Other ==> session::rejection_cost(e)
            == 0,
        e is InvalidBlock ==> {
            let own = e->InvalidBlock_0@;
            session::rejection_cost(e) == if names(own, "coinbase"@) || names(own, "subsidy"@)
                || names(own, "reward"@) || names(own, "zero sender"@) || names(
                own,
                "zero signature"@,
            ) || names(own, "at least one transaction"@) || names(own, "nonce must be 0"@) {
                100
            } else {
                0int
            }
        },
{
    if e is InvalidBlock {
        let own = e->InvalidBlock_0@;
        lemma_names(own, "coinbase"@);
        lemma_names(own, "subsidy"@);
        lemma_names(own, "reward"@);
        lemma_names(own, "zero sender"@);
        lemma_names(own, "zero signature"@);
        lemma_names(own, "at least one transaction"@);
        lemma_names(own, "nonce must be 0"@);
    }
}

/// The words stand somewhere in the text.
pub open spec fn names(whole: Seq<char>, words: Seq<char>) -> bool {
    exists|before: Seq<char>, after: Seq<char>| whole == #[trigger] (before + words + after)
}

proof fn lemma_names(whole: Seq<char>, words: Seq<char>)
    ensures
        text::has_part(whole, words) <==> names(whole, words),
{
    if text::has_part(whole, words) {
        let i = choose|i: int| #[trigger] text::part_at(whole, words, i);
        let before = whole.subrange(0, i);
        let after = whole.subrange(i + words.len(), whole.len() as int);
        assert(whole =~= before + words + after);
    }
    if names(whole, words) {
        let (before, after) = choose|before: Seq<char>, after: Seq<char>|
            whole == #[trigger] (before + words + after);
        let i = before.len() as int;
        assert(whole.subrange(i, i + words.len()) =~= words);
        assert(text::part_at(whole, words, i));
    }
}

/// A rejected block is counted once, with those that cost or with those that did not.
pub proof fn rejections_are_counted_once(before: RelaySnapshot, points: i32)
    requires
        before.blocks_rejected_scored < u64::MAX,
        before.blocks_rejected_unscored < u64::MAX,
    ensures
        ({
            let after = session::rejection_counted(before, points);
            &&& points > 0 ==> after.blocks_rejected_scored == before.blocks_rejected_scored + 1
                && after.blocks_rejected_unscored == before.blocks_rejected_unscored
            &&& points <= 0 ==> after.blocks_rejected_unscored == before.blocks_rejected_unscored
                + 1 && after.blocks_rejected_scored == before.blocks_rejected_scored
            &&& after.blocks_applied == before.blocks_applied
            &&& after.block_served == before.block_served
        }),
{
}

/// Every applied block is reported with its height, and a reorganisation exactly where the tip went
/// down, with how far.
pub proof fn applied_blocks_are_reported(block: AppliedBlock)
    ensures
        ({
            let events = session::block_events(block);
            &&& events.len() >= 1
            &&& events[0] == NodeEvent::BlockReceived(block.hash, block.height)
            &&& events.len() == 2 <==> block.height < block.old_height
            &&& events.len() <= 2
            &&& events.len() == 2 ==> events[1] == (NodeEvent::Reorg {
                old_height: block.old_height,
                old_hash: block.old_hash,
                new_height: block.height,
                new_hash: block.hash,
                depth: (block.old_height - block.height) as u32,
            })
        }),
{
}

/// After an applied block the next one is asked for exactly while blocks are synced, none is
/// outstanding, the next height is not above the best one, and its hash is known, which is the one
/// that is asked for.
pub proof fn next_block_is_asked_for(v: SyncView, block: AppliedBlock, now: Instant)
    requires
        v.next_height < u32::MAX,
    ensures
        ({
            let (after, next) = session::sync_after_block(v, block, now);
            let known = v.known_headers.insert(block.height, block.hash);
            let idle = v.state == SyncState::SyncingBlocks && forall|i: int|
                0 <= i < v.pending_block_requests.len() ==> #[trigger] v.pending_block_requests[i]
                    == block.hash;
            &&& next is Some <==> idle && v.next_height <= v.best_height && known.contains_key(
                v.next_height,
            )
            &&& next is Some ==> next->0 == known[v.next_height]
            &&& idle && v.next_height > v.best_height ==> after.state == SyncState::CaughtUp
                && after.sync_peer is None
            &&& idle && v.next_height <= v.best_height ==> after.next_height == v.next_height + 1
            &&& !idle ==> after.next_height == v.next_height && after.state == v.state
            &&& after.known_headers == known
        }),
{
    lemma_all_dropped(v.pending_block_requests, block.hash);
}

proof fn lemma_all_dropped(hashes: Seq<Hash32>, hash: Hash32)
    ensures
        hashes.filter(sync::differs_from(hash)).len() == 0 <==> forall|i: int|
            0 <= i < hashes.len() ==> #[trigger] hashes[i] == hash,
    decreases hashes.len(),
{
    reveal(Seq::filter);
    let keep = sync::differs_from(hash);
    if hashes.len() > 0 {
        let front = hashes.drop_last();
        lemma_all_dropped(front, hash);
        let kept = front.filter(keep);
        if forall|i: int| 0 <= i < hashes.len() ==> #[trigger] hashes[i] == hash {
            assert forall|i: int| 0 <= i < front.len() implies #[trigger] front[i] == hash by {
                assert(hashes[i] == hash);
            }
            assert(hashes[hashes.len() - 1] == hash);
        } else {
            if hashes.filter(keep).len() == 0 {
                assert(kept.len() == 0);
                assert forall|i: int| 0 <= i < hashes.len() implies #[trigger] hashes[i] == hash by {
                    if i < front.len() {
                        assert(front[i] == hash);
                    }
                }
            }
        }
    }
}

/// A transaction of a peer is dropped exactly when its sender is on record without a whole token
/// left, which costs ten points; one that is not valid costs fifty and is answered as not found;
/// and every other one is pooled and announced, at no cost.
pub proof fn transactions_are_pooled_or_charged(
    outcome: TxOutcome,
    peers: (PeersView, PeersView),
    pools: (Seq<EntryView>, Seq<EntryView>),
    addr: SocketAddr,
    name: Seq<char>,
    tx: TxView,
    hashes: (Hash32, Hash32),
    signature_valid: bool,
    magic: Seq<u8>,
    now: Instant,
)
    requires
        session::tx_outcome_is(
            outcome,
            peers,
            pools,
            addr,
            name,
            tx,
            hashes,
            signature_valid,
            magic,
            now,
        ),
    ensures
        ({
            let (before, after) = peers;
            let limited = before.peers.contains_key(addr) && before.peers[addr].tx_limiter.refilled(
                now,
            ).tokens < 1_000_000_000;
            let valid = signature_valid && tx.amount > 0 && tx.sender != tx.recipient;
            let counted = session::tx_counted(before, addr, now);
            &&& outcome is RateLimited <==> limited
            &&& outcome is Invalid <==> !limited && !valid
            &&& outcome is Accepted <==> !limited && valid
            &&& !(outcome is Accepted) ==> pools.1 == pools.0
            &&& limited ==> peer::struck_in_place(counted, after, addr, 10, now)
            &&& outcome is Invalid ==> peer::struck_and_mirrored(counted, after, addr, 50, now)
                && outcome->Invalid_1@ == relay::inventory_message(
                MessageType::NotFound,
                seq![InvEntry { inv_type: InvType::Tx, hash: hashes.1 }],
                magic,
            )
            &&& outcome is Accepted ==> {
                &&& after == counted
                &&& pools.1 == mempool::added(pools.0, tx, hashes.0).0
                &&& outcome->Accepted_0 == NodeEvent::TxReceived(hashes.0)
                &&& outcome->Accepted_1@ == relay::inventory_message(
                    MessageType::Inv,
                    seq![InvEntry { inv_type: InvType::Tx, hash: hashes.0 }],
                    wire::MAGIC@,
                )
            }
            &&& before.peers.contains_key(addr) ==> counted.peers[addr].tx_limiter
                == before.peers[addr].tx_limiter.after_attempt(now) && counted.peers[addr].score
                == before.peers[addr].score && counted.peers[addr].msg_limiter
                == before.peers[addr].msg_limiter
            &&& counted.channels == before.channels && counted.banned_ips == before.banned_ips
        }),
{
}

/// Every type of message leads to its own work: blocks and transactions are taken, announcements
/// looked up, requests served, pongs noted; and what belongs to a handshake or is not spoken leads
/// to nothing.
pub proof fn messages_lead_to_their_work(
    work: Work,
    before: Known,
    after: Known,
    addr: SocketAddr,
    msg_type: MessageType,
    payload: Seq<u8>,
    magic: Seq<u8>,
    now: Instant,
)
    requires
        dispatch::message_taken(work, before, after, addr, msg_type, payload, magic, now),
    ensures
        msg_type == MessageType::Block ==> work is TakeBlock && after == before,
        msg_type == MessageType::Tx ==> work is TakeTx && after == before,
        msg_type == MessageType::Inv ==> work is LookUp && after.sync == before.sync && after.counts
            == before.counts,
        msg_type == MessageType::GetData ==> work is Serve && after.sync == before.sync,
        msg_type == MessageType::GetHeaders ==> (work is ServeHeaders <==> payload.len() >= 64)
            && after == before,
        msg_type == MessageType::Ping ==> (work is Send <==> payload.len() >= 8) && after.sync
            == before.sync,
        msg_type == MessageType::Pong ==> work is Nothing && after.sync == before.sync,
        msg_type == MessageType::Version || msg_type == MessageType::VerAck || msg_type
            == MessageType::GetAddr || msg_type == MessageType::Addr || msg_type
            == MessageType::NotFound || msg_type == MessageType::Reject ==> work is Nothing && after
            == before,
        msg_type == MessageType::Headers && payload.len() >= 4 ==> {
            let count = wire_layout::four(payload, 0);
            &&& count > 2000 ==> work is Nothing && after.sync == before.sync
                && peer::struck_and_mirrored(before.peers, after.peers, addr, 20, now)
            &&& count == 0 ==> work is Send && after.peers == before.peers && after.sync
                == session::batch_from(before.sync, addr, Seq::empty(), now).0
            &&& 1 <= count <= 2000 ==> work is TakeHeaders && after == before
        },
        msg_type == MessageType::Headers && payload.len() < 4 ==> work is Nothing && after == before,
{
    if msg_type == MessageType::Headers && payload.len() >= 4 {
        wire_layout::numbers_have_their_least_byte_first(payload, 0);
    }
}

/// A frame of a sender without a token left ends the connection and costs ten points; any other
/// leads to its work.
pub proof fn frames_beyond_the_allowance_end_it(
    work: Work,
    before: Known,
    after: Known,
    addr: SocketAddr,
    msg_type: MessageType,
    payload: Seq<u8>,
    magic: Seq<u8>,
    now: Instant,
)
    requires
        dispatch::frame_taken(work, before, after, addr, msg_type, payload, magic, now),
    ensures
        ({
            let limited = before.peers.peers.contains_key(addr)
                && before.peers.peers[addr].msg_limiter.refilled(now).tokens < 1_000_000_000;
            &&& limited ==> work is Leave && after.sync == before.sync && after.counts
                == before.counts && peer::struck_in_place(
                session::frame_counted(before.peers, addr, now),
                after.peers,
                addr,
                10,
                now,
            )
            &&& !limited ==> dispatch::message_taken(
                work,
                Known { peers: session::frame_admitted(before.peers, addr, now), ..before },
                after,
                addr,
                msg_type,
                payload,
                magic,
                now,
            )
        }),
{
}

/// In the handshake a version with our protocol number that is not our own is accepted and answered
/// once; our own nonce and any other protocol number end it; an acknowledgement completes it with
/// the height that the peer has told; and nothing else is spoken before.
pub proof fn handshake_takes_versions_and_acknowledgements(
    h: Handshake,
    msg_type: MessageType,
    payload: Seq<u8>,
    magic: Seq<u8>,
)
    ensures
        ({
            let (after, step, accepted) = handshake::frame_taken(h, msg_type, payload, magic);
            let version = wire_layout::four(payload, 0);
            let nonce = wire_layout::eight(payload, 24);
            let fine = payload.len() >= 32 && version == 1 && nonce != h.local_nonce;
            &&& msg_type == MessageType::Version ==> {
                &&& accepted is Some <==> fine
                &&& fine ==> {
                    &&& after.peer_height == wire_layout::four(payload, 20)
                    &&& accepted->0.height == wire_layout::four(payload, 20)
                    &&& accepted->0.version == 1
                    &&& accepted->0.services == wire_layout::eight(payload, 4)
                    &&& after.sent_verack && after.local_nonce == h.local_nonce
                    &&& step is Continue
                    &&& step->Continue_0 is Some <==> !h.sent_verack
                    &&& !h.sent_verack ==> step->Continue_0->0.msg_type == MessageType::VerAck
                        && step->Continue_0->0.payload.len() == 0 && step->Continue_0->0.magic
                        == magic
                }
                &&& !fine ==> step is Fail && after == h
            }
            &&& msg_type == MessageType::VerAck ==> step == HandshakeStepView::Done(h.peer_height)
                && after == h && accepted is None
            &&& msg_type != MessageType::Version && msg_type != MessageType::VerAck ==> step is Fail
                && after == h && accepted is None
        }),
{
    if payload.len() >= 32 {
        wire_layout::numbers_have_their_least_byte_first(payload, 0);
        wire_layout::numbers_have_their_least_byte_first(payload, 4);
        wire_layout::numbers_have_their_least_byte_first(payload, 12);
        wire_layout::numbers_have_their_least_byte_first(payload, 20);
        wire_layout::numbers_have_their_least_byte_first(payload, 24);
    }
}

/// What an accepted version tells is put on record of its sender, who is shaking hands then; nobody
/// else is touched, and nothing without an accepted version.
pub proof fn accepted_versions_are_recorded(
    v: PeersView,
    addr: SocketAddr,
    accepted: Option<VersionMessage>,
)
    ensures
        ({
            let after = handshake::version_recorded(v, addr, accepted);
            &&& accepted is None || !v.peers.contains_key(addr) ==> after == v
            &&& accepted is Some && v.peers.contains_key(addr) ==> {
                let p = after.peers[addr];
                &&& after.peers.contains_key(addr)
                &&& p.version == accepted->0.version
                &&& p.height == accepted->0.height
                &&& p.services == accepted->0.services
                &&& p.state == PeerState::Handshaking
                &&& p.score == v.peers[addr].score
                &&& p.ban_until == v.peers[addr].ban_until
                &&& p.remote_static == v.peers[addr].remote_static
                &&& p.msg_limiter == v.peers[addr].msg_limiter
            }
            &&& after.peers.remove(addr) == v.peers.remove(addr)
            &&& after.channels == v.channels && after.banned_ips == v.banned_ips
        }),
{
    let after = handshake::version_recorded(v, addr, accepted);
    assert(after.peers.remove(addr) =~= v.peers.remove(addr));
}

/// Our own version tells our height, the time, our nonce, the protocol number and the services.
pub proof fn own_version_tells_our_height(our_height: u32, timestamp: u64, nonce: u64)
    ensures
        ({
            let m = handshake::own_version(our_height, timestamp, nonce);
            &&& m.version == 1 && m.services == 0
            &&& m.height == our_height && m.timestamp == timestamp && m.nonce == nonce
        }),
{
}

/// The side that dials begins the encrypted handshake, and the other waits.
pub proof fn who_dials_begins(c: Lifecycle)
    ensures
        lifecycle::role_of(true) == HandshakeRole::Initiator,
        lifecycle::role_of(false) == HandshakeRole::Responder,
        (c.phase == Phase::Settled || c.phase == Phase::Serving) && !c.plaintext && c.wf()
            ==> c.remote_static is Some,
{
}

/// A connection starts in a slot: with the encrypted handshake, in the role of the side it is, or
/// where the operator has opted out of encryption, without it. While the node shuts down it ends.
pub proof fn connections_start_secured(
    c: Lifecycle,
    v: (PeersView, SyncView),
    shutting_down: bool,
    now: Instant,
    step: Step,
    reported: Option<NodeEvent>,
    after: (Lifecycle, PeersView, SyncView),
)
    requires
        c.begun(v, shutting_down, now, step, reported, after),
    ensures
        step is End <==> shutting_down,
        !shutting_down && !c.plaintext ==> step is Secure && step->Secure_0 == (if c.outbound {
            HandshakeRole::Initiator
        } else {
            HandshakeRole::Responder
        }) && after.0.phase == Phase::Securing,
        !shutting_down && c.plaintext ==> step is Settle && after.0.phase == Phase::Settled,
        !shutting_down ==> after.1.peers.contains_key(c.addr) && after.1.peers[c.addr].state
            == PeerState::Connecting && reported is None && after.2 == v.1,
        after.0.addr == c.addr && after.0.outbound == c.outbound && after.0.plaintext
            == c.plaintext,
{
}

/// Once its transport is settled a connection is served, encrypted unless the operator has opted
/// out, or ends while the node shuts down.
pub proof fn settled_connections_are_served(
    c: Lifecycle,
    v: (PeersView, SyncView),
    shutting_down: bool,
    now: Instant,
    step: Step,
    reported: Option<NodeEvent>,
    after: (Lifecycle, PeersView, SyncView),
)
    requires
        c.entered(v, shutting_down, now, step, reported, after),
    ensures
        step is Serve <==> !shutting_down,
        !shutting_down ==> step == (Step::Serve { encrypted: !c.plaintext }) && reported is None
            && after.1 == v.0 && after.2 == v.1 && after.0.phase == Phase::Serving,
        shutting_down ==> lifecycle::ended_well(step) && after.0.phase == Phase::Closed,
{
}

/// A message of the encrypted handshake that cannot be read ends it. Else the responder answers the
/// first one and waits for the third, the initiator answers the second one and is done, and the
/// third one ends the handshake without an answer.
pub proof fn handshake_goes_on_by_its_messages(
    p: Progress,
    step: NoiseStep,
    read: bool,
    written: Option<Seq<u8>>,
)
    requires
        noise_transport::progress_is(p, step, read, written),
        step != NoiseStep::Finished,
    ensures
        !read ==> p is Failed,
        read && step == NoiseStep::AwaitThird ==> p == Progress::Next(NoiseStep::Finished, None),
        read && step != NoiseStep::AwaitThird && written is None ==> p is Failed,
        read && step != NoiseStep::AwaitThird && written is Some ==> {
            let msg = written->0;
            &&& p is Next <==> 1 <= msg.len() <= 2048
            &&& p is Next ==> {
                &&& p->Next_0 == if step == NoiseStep::AwaitFirst {
                    NoiseStep::AwaitThird
                } else {
                    NoiseStep::Finished
                }
                &&& p->Next_1 is Some
                &&& p->Next_1->0@.len() == 2 + msg.len()
                &&& p->Next_1->0@.subrange(2, 2 + msg.len() as int) == msg
            }
        },
{
    if written is Some {
        let msg = written->0;
        if msg.len() < 0x1_0000 {
            wire_layout::transport_layout(msg);
        }
    }
}

/// The length that a chunk announces is in its first four bytes. The stream is broken exactly when
/// that is zero or more than 65535, and else the rest of the length or of the chunk is wanted.
pub proof fn chunks_are_wanted_by_their_length(partial: Seq<u8>)
    ensures
        ({
            let len = wire_layout::four(partial, 0);
            &&& noise_transport::broken(partial) <==> partial.len() >= 4 && (len == 0 || len
                > 65_535)
            &&& partial.len() < 4 ==> noise_transport::needed(partial) == 4 - partial.len()
            &&& partial.len() >= 4 && 1 <= len <= 65_535 ==> noise_transport::needed(partial) == 4
                + len - partial.len()
            &&& noise_transport::broken(partial) ==> noise_transport::needed(partial) == 0
        }),
{
    if partial.len() >= 4 {
        wire_layout::numbers_have_their_least_byte_first(partial, 0);
    }
}

/// What is reported is the text.
pub proof fn reports_carry_their_text(e: NodeEvent, words: Seq<char>)
    ensures
        event::reports(e, words) <==> e is Error && e->Error_0@ == words,
{
}

/// The encoded headers from the height `lo` to `hi`, one after the other.
pub open spec fn stored_run(stored: Map<u32, Seq<u8>>, lo: int, hi: int) -> Seq<u8>
    decreases hi - lo + 1,
{
    if lo > hi {
        Seq::empty()
    } else {
        stored_run(stored, lo, hi - 1) + stored[hi as u32]
    }
}

/// The server after it was given, height by height, what is stored.
pub open spec fn served_out(v: ServerView, stored: Map<u32, Seq<u8>>) -> ServerView
    decreases v.last + 1 - v.next,
{
    if v.next > v.last {
        v
    } else if stored.contains_key(v.next as u32) {
        served_out(session::supplied(v, Some(stored[v.next as u32])), stored)
    } else {
        session::supplied(v, None)
    }
}

/// A peer that asks for the headers after a height gets all of them in their order, from the next
/// height up to the tip, but no more than two thousand, and up to the first that is not stored.
pub proof fn headers_are_served_from_the_next_height(
    start: u32,
    tip: u32,
    stored: Map<u32, Seq<u8>>,
) -> (top: int)
    requires
        start + 2000 <= u32::MAX,
    ensures
        ({
            let end = served_out(session::serving(start, tip), stored);
            let limit = if start + 2000 < tip {
                start + 2000
            } else {
                tip as int
            };
            &&& start <= top
            &&& top <= limit || (top == start && limit <= start)
            &&& forall|h: u32| start < h <= top ==> #[trigger] stored.contains_key(h)
            &&& top < limit ==> !stored.contains_key((top + 1) as u32)
            &&& end.count == top - start
            &&& end.body == stored_run(stored, start + 1, top)
        }),
{
    let v = session::serving(start, tip);
    assert(stored_run(stored, start + 1, start as int) =~= v.body);
    lemma_served_out(v, stored)
}

proof fn lemma_served_out(v: ServerView, stored: Map<u32, Seq<u8>>) -> (top: int)
    requires
        v.start < v.next,
        v.last <= v.start + 2000,
        v.next <= v.last ==> v.count == v.next - v.start - 1,
        v.next > v.last ==> v.next == v.start + 1 || v.next == v.last + 1,
        v.count == v.next - v.start - 1,
        v.next <= u32::MAX + 1,
        v.body == stored_run(stored, v.start + 1, v.next - 1),
        forall|h: u32| v.start < h < v.next ==> #[trigger] stored.contains_key(h),
    ensures
        ({
            let end = served_out(v, stored);
            &&& v.start <= top
            &&& top <= v.last || top == v.next - 1
            &&& forall|h: u32| v.start < h <= top ==> #[trigger] stored.contains_key(h)
            &&& top < v.last ==> !stored.contains_key((top + 1) as u32)
            &&& end.count == top - v.start
            &&& end.body == stored_run(stored, v.start + 1, top)
        }),
    decreases v.last + 1 - v.next,
{
    if v.next > v.last {
        v.next - 1
    } else if stored.contains_key(v.next as u32) {
        let after = session::supplied(v, Some(stored[v.next as u32]));
        assert(after.body == stored_run(stored, v.start + 1, v.next as int));
        assert forall|h: u32| v.start < h < after.next implies #[trigger] stored.contains_key(h) by {
            if h == v.next {
                assert(stored.contains_key(v.next as u32));
            }
        }
        lemma_served_out(after, stored)
    } else {
        v.next - 1
    }
}

/// An encrypted handshake starts with this node's own key in its own role: the responder waits for
/// the first message, and the initiator has sent one of thirty-two bytes and waits for the second.
pub proof fn handshakes_start_with_their_key(
    role: HandshakeRole,
    key: Seq<u8>,
    hs: noise_transport::NoiseHandshake,
    frame: Option<Seq<u8>>,
)
    requires
        noise_transport::start_is(role, key, hs, frame),
    ensures
        ({
            let suite = noise_transport::parsed("Noise_XX_25519_ChaChaPoly_BLAKE2s"@);
            &&& role == HandshakeRole::Responder ==> hs.step == NoiseStep::AwaitFirst && frame is None
                && hs.state == noise_transport::responder_of(suite, key)
            &&& role == HandshakeRole::Initiator ==> hs.step == NoiseStep::AwaitSecond
                && frame is Some && frame->0.len() == 34 && noise_transport::writes(
                noise_transport::initiator_of(suite, key),
                frame->0.subrange(2, 34),
                hs.state,
            )
        }),
{
    if role == HandshakeRole::Initiator {
        let key_state = noise_transport::fresh_initiator(key);
        let first = choose|first: Seq<u8>|
            {
                &&& #[trigger] noise_transport::writes(key_state, first, hs.state)
                &&& first.len() == 32
                &&& frame == Some(noise_transport::handshake_frame_of(first))
            };
        wire_layout::transport_layout(first);
        assert(frame->0.subrange(2, 34) =~= first);
    }
}

/// Where headers are asked for from: at zero for the hash of zeros, at the lowest height with the
/// hash where it is known, and else the storage is asked.
pub proof fn headers_start_where_the_hash_is_known(
    v: SyncView,
    payload: Seq<u8>,
    res: Result<StartHeight, error::P2pError>,
    h: u32,
)
    requires
        session::start_found(v, payload, res),
    ensures
        ({
            let start = payload.subrange(0, 32);
            let zeros = forall|i: int| 0 <= i < 32 ==> #[trigger] start[i] == 0u8;
            let here = v.known_headers.contains_key(h) && v.known_headers[h].0@ == start;
            &&& res is Ok <==> payload.len() >= 64
            &&& res is Ok && zeros ==> res->Ok_0 == StartHeight::Known(0)
            &&& res is Ok && !zeros && here ==> res->Ok_0 is Known && res->Ok_0->Known_0 <= h
                && v.known_headers.contains_key(res->Ok_0->Known_0)
                && v.known_headers[res->Ok_0->Known_0].0@ == start
            &&& res is Ok && res->Ok_0 is AskStorage ==> !zeros && !here
                && res->Ok_0->AskStorage_0.0@ == start
        }),
{
    if payload.len() >= 64 {
        let start = payload.subrange(0, 32);
        let zeros = Seq::new(32, |i: int| 0u8);
        if forall|i: int| 0 <= i < 32 ==> #[trigger] start[i] == 0u8 {
            assert(start =~= zeros);
        } else {
            assert(start != zeros);
        }
        if v.known_headers.contains_key(h) && v.known_headers[h].0@ == start {
            if let Ok(StartHeight::AskStorage(hash)) = res {
                assert(v.known_headers[h].0 =~= hash.0);
                assert(v.known_headers.contains_value(hash));
            }
        }
    }
}

/// A peer that shows our own key is told off as ourselves; any other is settled with its key on
/// record.
pub proof fn shown_keys_settle_the_transport(
    c: Lifecycle,
    v: (PeersView, SyncView),
    name: Seq<char>,
    own_public: Seq<u8>,
    remote: [u8; 32],
    now: Instant,
    step: Step,
    reported: Option<NodeEvent>,
    after: (Lifecycle, PeersView, SyncView),
)
    requires
        c.secured(v, name, own_public, remote, now, step, reported, after),
    ensures
        own_public == remote@ ==> lifecycle::ended_with(step, "self-connection detected"@)
            && after.0.phase == Phase::Closed && after.0.remote_static == c.remote_static,
        own_public != remote@ ==> step is Settle && after.0.phase == Phase::Settled
            && after.0.remote_static == Some(remote) && after.2 == v.1 && (v.0.peers.contains_key(
            c.addr,
        ) ==> after.1.peers[c.addr].remote_static == Some(remote)),
        after.0.addr == c.addr && after.0.plaintext == c.plaintext && after.0.outbound
            == c.outbound,
{
}

/// Errors are told by what they are of and their own text.
pub proof fn errors_tell_their_text(io: error::IoError, words: String, e: error::P2pError)
    ensures
        error::p2p_text(error::P2pError::Io(io)) == "io: "@ + io.message@,
        error::p2p_text(error::P2pError::Protocol(words)) == "protocol: "@ + words@,
        error::is_protocol(e, words@) <==> e is Protocol && e->Protocol_0@ == words@,
{
}

/// What a frame leads to in the handshake is what is expected: the message to send, if there is
/// one, the height that the peer has told, or a protocol error.
pub proof fn handshake_steps_are_what_is_expected(step: HandshakeStep, expected: HandshakeStepView)
    requires
        handshake::step_is(step, expected),
    ensures
        step is Continue <==> expected is Continue,
        step is Done <==> expected is Done,
        step is Fail <==> expected is Fail,
        step is Done ==> step->Done_0 == expected->Done_0,
        step is Continue ==> (step->Continue_0 is Some <==> expected->Continue_0 is Some),
        step is Continue && step->Continue_0 is Some ==> step->Continue_0->0.msg_type
            == expected->Continue_0->0.msg_type && step->Continue_0->0.payload@
            == expected->Continue_0->0.payload && step->Continue_0->0.magic@
            == expected->Continue_0->0.magic,
        step is Fail ==> step->Fail_0 is Protocol,
        expected matches HandshakeStepView::Fail(error::Reason::Exactly(words)) ==> step is Fail
            && step->Fail_0->Protocol_0@ == words,
{
}

} // verus!
