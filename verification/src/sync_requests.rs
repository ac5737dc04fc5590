//! What the sync asks for, height by height.

use crate::addr::SocketAddr;
use crate::hash::Hash32;
use crate::sync;
use crate::sync::{BlockHeader, ForkInfo, SyncCommandView, SyncState, SyncView};
use crate::sync_laws;
use crate::time::Instant;
use crate::wire::InvType;
use vstd::prelude::*;

verus! {

/// `hashes` are the hashes that are known at `heights`, which rise and lie between `lo` and `hi`.
pub open spec fn known_at_heights(
    known: Map<u32, Hash32>,
    lo: int,
    hi: int,
    hashes: Seq<Hash32>,
    heights: Seq<u32>,
) -> bool {
    &&& heights.len() == hashes.len()
    &&& forall|i: int|
        0 <= i < heights.len() ==> {
            &&& lo <= #[trigger] heights[i] <= hi
            &&& known.contains_key(heights[i])
            &&& known[heights[i]] == hashes[i]
        }
    &&& forall|i: int, j: int|
        0 <= i < j < heights.len() ==> #[trigger] heights[i] < #[trigger] heights[j]
    &&& forall|h: u32| lo <= h <= hi && #[trigger] known.contains_key(h) ==> heights.contains(h)
}

/// `hashes` are the known hashes of all heights from `lo` to `hi`, each once, lowest height first.
pub open spec fn lists_known(
    known: Map<u32, Hash32>,
    lo: int,
    hi: int,
    hashes: Seq<Hash32>,
) -> bool {
    exists|heights: Seq<u32>| #[trigger] known_at_heights(known, lo, hi, hashes, heights)
}

spec fn heights_known(known: Map<u32, Hash32>, lo: int, hi: int) -> Seq<u32>
    decreases hi - lo + 1,
{
    if lo > hi {
        Seq::empty()
    } else if known.contains_key(hi as u32) {
        heights_known(known, lo, hi - 1).push(hi as u32)
    } else {
        heights_known(known, lo, hi - 1)
    }
}

/// A range of known heights is listed in full and in order.
pub proof fn known_range_is_complete(known: Map<u32, Hash32>, lo: int, hi: int)
    requires
        0 <= lo,
        hi <= u32::MAX,
    ensures
        lists_known(known, lo, hi, sync::known_range(known, lo, hi)),
    decreases hi - lo + 1,
{
    let heights = heights_known(known, lo, hi);
    lemma_heights(known, lo, hi);
    assert(known_at_heights(known, lo, hi, sync::known_range(known, lo, hi), heights));
}

proof fn lemma_heights(known: Map<u32, Hash32>, lo: int, hi: int)
    requires
        0 <= lo,
        hi <= u32::MAX,
    ensures
        known_at_heights(
            known,
            lo,
            hi,
            sync::known_range(known, lo, hi),
            heights_known(known, lo, hi),
        ),
    decreases hi - lo + 1,
{
    if lo <= hi {
        lemma_heights(known, lo, hi - 1);
        let front = heights_known(known, lo, hi - 1);
        let all = heights_known(known, lo, hi);
        assert forall|h: u32| lo <= h <= hi && #[trigger] known.contains_key(h) implies all.contains(
            h,
        ) by {
            if h < hi {
                let i = choose|i: int| 0 <= i < front.len() && front[i] == h;
                assert(all[i] == h);
            } else {
                assert(all[all.len() - 1] == h);
            }
        }
    }
}

/// A list of known hashes starts with that of the lowest height, where that one is known, and is
/// empty only where none is.
pub proof fn listing_starts_at_lowest(
    known: Map<u32, Hash32>,
    lo: int,
    hi: int,
    hashes: Seq<Hash32>,
)
    requires
        0 <= lo <= hi <= u32::MAX,
        lists_known(known, lo, hi, hashes),
    ensures
        known.contains_key(lo as u32) ==> hashes.len() > 0 && hashes[0] == known[lo as u32],
        hashes.len() == 0 <==> forall|h: u32| lo <= h <= hi ==> !#[trigger] known.contains_key(h),
{
    let heights = choose|heights: Seq<u32>| #[trigger]
        known_at_heights(known, lo, hi, hashes, heights);
    if known.contains_key(lo as u32) {
        let i = choose|i: int| 0 <= i < heights.len() && heights[i] == lo;
        if i > 0 {
            assert(heights[0] < heights[i]);
        }
    }
    if hashes.len() == 0 {
        assert forall|h: u32| lo <= h <= hi implies !#[trigger] known.contains_key(h) by {
            if known.contains_key(h) {
                assert(heights.contains(h));
            }
        }
    } else {
        assert(lo <= heights[0] <= hi);
    }
}

/// The last headers that are asked for lead to the blocks: all blocks after the validated tip that
/// are known, up to one request beyond it, lowest first. The next height to ask for follows them,
/// and all but the first are outstanding. Where no header is above the validated tip the sync is
/// over.
pub proof fn last_headers_request_blocks_after_tip(
    v: SyncView,
    headers: Seq<BlockHeader>,
    now: Instant,
)
    requires
        0 < headers.len() < 2000,
        v.pending_headers.len() + headers.len() <= 10_000,
        v.synced_header_height + 502 <= u32::MAX,
    ensures
        ({
            let (after, commands) = v.after_headers(headers, now);
            let lo = v.synced_header_height + 1;
            let hi = if lo + 500 < after.best_height {
                lo + 500
            } else {
                after.best_height as int
            };
            &&& after.last_sync_request_time == Some(now)
            &&& after.synced_header_height == v.synced_header_height
            &&& after.consecutive_sync_failures == v.consecutive_sync_failures
            &&& if after.best_height > v.synced_header_height {
                &&& after.state == SyncState::SyncingBlocks
                &&& after.sync_peer == v.sync_peer
                &&& commands.len() <= 1
                &&& commands.len() == 1 ==> {
                    &&& commands[0] matches SyncCommandView::GetBlocks(hashes)
                    &&& hashes.len() > 0
                    &&& lists_known(after.known_headers, lo, hi, hashes)
                    &&& after.next_height == lo + hashes.len()
                    &&& after.pending_block_requests == hashes.skip(1)
                }
                &&& commands.len() == 0 ==> {
                    &&& forall|h: u32|
                        lo <= h <= hi ==> !#[trigger] after.known_headers.contains_key(h)
                    &&& after.next_height == lo
                    &&& after.pending_block_requests == v.pending_block_requests
                }
            } else {
                &&& commands == seq![SyncCommandView::SyncComplete]
                &&& after.state == SyncState::CaughtUp
                &&& after.sync_peer is None
                &&& after.next_height == v.next_height
                &&& after.pending_block_requests == v.pending_block_requests
            }
        }),
{
    let (after, commands) = v.after_headers(headers, now);
    let lo = v.synced_header_height + 1;
    let hi = if lo + 500 < after.best_height {
        lo + 500
    } else {
        after.best_height as int
    };
    lemma_rest_kept(v, headers);
    if after.best_height > v.synced_header_height {
        let batch = sync::known_range(after.known_headers, lo, hi);
        known_range_is_complete(after.known_headers, lo, hi);
        listing_starts_at_lowest(after.known_headers, lo, hi, batch);
        sync_laws::first_batch_bounded(v.with_headers(headers));
        assert(batch.len() > 0 ==> batch.skip(1) =~= batch.subrange(1, batch.len() as int));
    }
}

/// A full batch of headers asks for more of them, after the best one, and does not start on the
/// blocks.
pub proof fn full_batch_requests_more_headers(
    v: SyncView,
    headers: Seq<BlockHeader>,
    now: Instant,
)
    requires
        headers.len() >= 2000,
        v.pending_headers.len() + headers.len() <= 10_000,
    ensures
        ({
            let (after, commands) = v.after_headers(headers, now);
            &&& commands == seq![SyncCommandView::GetHeaders(after.best_hash)]
            &&& after.state == v.state
            &&& after.sync_peer == v.sync_peer
            &&& after.next_height == v.next_height
            &&& after.pending_block_requests == v.pending_block_requests
            &&& after.last_sync_request_time == Some(now)
            &&& after.synced_header_height == v.synced_header_height
        }),
{
    lemma_rest_kept(v, headers);
}

/// A batch for which the buffer has no room changes nothing and asks for nothing.
pub proof fn batch_without_room_is_ignored(v: SyncView, headers: Seq<BlockHeader>, now: Instant)
    requires
        v.pending_headers.len() + headers.len() > 10_000,
    ensures
        v.after_headers(headers, now) == (v, Seq::<SyncCommandView>::empty()),
{
}

/// An empty batch ends the headers. The block after the validated tip is asked for, where one is
/// missing and its hash is known, and where none is missing the sync is over.
pub proof fn empty_batch_requests_block_after_tip(v: SyncView, now: Instant)
    requires
        v.pending_headers.len() <= 10_000,
        v.synced_header_height + 2 <= u32::MAX,
    ensures
        ({
            let (after, commands) = v.after_headers(Seq::empty(), now);
            let first = (v.synced_header_height + 1) as u32;
            &&& after.known_headers == v.known_headers
            &&& after.pending_headers == v.pending_headers
            &&& after.best_height == v.best_height && after.best_hash == v.best_hash
            &&& after.synced_header_height == v.synced_header_height
            &&& after.pending_block_requests == v.pending_block_requests
            &&& after.last_sync_request_time == v.last_sync_request_time
            &&& v.best_height > v.synced_header_height ==> {
                &&& after.state == SyncState::SyncingBlocks
                &&& after.sync_peer == v.sync_peer
                &&& v.known_headers.contains_key(first) ==> commands
                    == seq![SyncCommandView::RequestBlocksFrom(v.known_headers[first])]
                    && after.next_height == v.synced_header_height + 2
                &&& !v.known_headers.contains_key(first) ==> commands.len() == 0
                    && after.next_height == v.synced_header_height + 1
            }
            &&& v.best_height <= v.synced_header_height ==> {
                &&& after.state == SyncState::CaughtUp
                &&& after.sync_peer is None
                &&& after.next_height == v.next_height
                &&& commands == seq![SyncCommandView::SyncComplete]
            }
        }),
{
}

proof fn lemma_rest_kept(v: SyncView, headers: Seq<BlockHeader>)
    ensures
        v.with_headers(headers).synced_header_height == v.synced_header_height,
        v.with_headers(headers).state == v.state,
        v.with_headers(headers).sync_peer == v.sync_peer,
        v.with_headers(headers).next_height == v.next_height,
        v.with_headers(headers).pending_block_requests == v.pending_block_requests,
        v.with_headers(headers).consecutive_sync_failures == v.consecutive_sync_failures,
    decreases headers.len(),
{
    if headers.len() > 0 {
        lemma_rest_kept(v, headers.drop_last());
    }
}

/// After every block the next one is asked for, height by height, as long as its height is not
/// above the best one; after that the sync is over. Nothing else changes.
pub proof fn blocks_are_requested_in_turn(v: SyncView)
    requires
        v.next_height < u32::MAX,
    ensures
        ({
            let (after, next) = v.advanced();
            &&& v.next_height <= v.best_height ==> {
                &&& after.next_height == v.next_height + 1
                &&& after.state == v.state && after.sync_peer == v.sync_peer
                &&& match next {
                    Some(hash) => v.known_headers.contains_key(v.next_height)
                        && v.known_headers[v.next_height] == hash,
                    None => !v.known_headers.contains_key(v.next_height),
                }
            }
            &&& v.next_height > v.best_height ==> {
                &&& next is None
                &&& after.state == SyncState::CaughtUp
                &&& after.sync_peer is None
                &&& after.next_height == v.next_height
            }
            &&& after.known_headers == v.known_headers
            &&& after.pending_headers == v.pending_headers
            &&& after.pending_block_requests == v.pending_block_requests
            &&& after.best_height == v.best_height && after.best_hash == v.best_hash
            &&& after.synced_header_height == v.synced_header_height
            &&& after.last_sync_request_time == v.last_sync_request_time
            &&& after.consecutive_sync_failures == v.consecutive_sync_failures
        }),
{
}

proof fn lemma_filtered<A>(s: Seq<A>, keep: spec_fn(A) -> bool, i: int)
    requires
        0 <= i < s.filter(keep).len(),
    ensures
        s.contains(s.filter(keep)[i]),
        keep(s.filter(keep)[i]),
    decreases s.len(),
{
    reveal(Seq::filter);
    if s.len() > 0 {
        let front = s.drop_last();
        if i < front.filter(keep).len() {
            lemma_filtered(front, keep, i);
            let k = choose|k: int| 0 <= k < front.len() && front[k] == front.filter(keep)[i];
            assert(s[k] == s.filter(keep)[i]);
        } else {
            assert(s[s.len() - 1] == s.filter(keep)[i]);
        }
    }
}

/// An applied block is what its height has: its hash is known there, whatever was known before, no
/// other height is touched, the validated tip is the highest applied block, headers up to it are
/// no longer buffered, the block is no longer outstanding, and no failure counts any more.
pub proof fn applied_block_is_settled(v: SyncView, hash: Hash32, height: u32, now: Instant)
    ensures
        ({
            let after = v.after_block(hash, height, now);
            &&& after.known_headers.contains_key(height) && after.known_headers[height] == hash
            &&& forall|h: u32|
                h != height ==> (#[trigger] after.known_headers.contains_key(h)
                    <==> v.known_headers.contains_key(h)) && (v.known_headers.contains_key(h)
                    ==> after.known_headers[h] == v.known_headers[h])
            &&& after.synced_header_height >= height
            &&& after.synced_header_height >= v.synced_header_height
            &&& after.synced_header_height == height || after.synced_header_height
                == v.synced_header_height
            &&& forall|i: int|
                0 <= i < after.pending_headers.len() ==> (#[trigger] after.pending_headers[i]).height
                    > after.synced_header_height && v.pending_headers.contains(
                    after.pending_headers[i],
                )
            &&& forall|i: int|
                0 <= i < v.pending_headers.len() && (#[trigger] v.pending_headers[i]).height
                    > after.synced_header_height ==> after.pending_headers.contains(
                    v.pending_headers[i],
                )
            &&& !after.pending_block_requests.contains(hash)
            &&& forall|h: Hash32|
                h != hash ==> (#[trigger] after.pending_block_requests.contains(h)
                    <==> v.pending_block_requests.contains(h))
            &&& after.pending_block_requests.len() <= v.pending_block_requests.len()
            &&& after.consecutive_sync_failures == 0
            &&& after.last_sync_request_time == Some(now)
            &&& after.state == v.state && after.sync_peer == v.sync_peer
            &&& after.best_height == v.best_height && after.best_hash == v.best_hash
            &&& after.next_height == v.next_height
        }),
{
    broadcast use vstd::seq_lib::group_filter_ensures;

    let after = v.after_block(hash, height, now);
    let keep = sync::differs_from(hash);
    let kept = v.pending_block_requests.filter(keep);
    assert forall|h: Hash32| h != hash implies (#[trigger] kept.contains(h)
        <==> v.pending_block_requests.contains(h)) by {
        if kept.contains(h) {
            let i = choose|i: int| 0 <= i < kept.len() && kept[i] == h;
            lemma_filtered(v.pending_block_requests, keep, i);
        }
        if v.pending_block_requests.contains(h) {
            let i = choose|i: int|
                0 <= i < v.pending_block_requests.len() && v.pending_block_requests[i] == h;
            assert(keep(v.pending_block_requests[i]));
            assert(kept.contains(v.pending_block_requests[i]));
        }
    }
    if kept.contains(hash) {
        let i = choose|i: int| 0 <= i < kept.len() && kept[i] == hash;
        assert(keep(kept[i]));
    }
    let synced = after.synced_header_height;
    let high = sync::above(synced);
    assert forall|i: int| 0 <= i < after.pending_headers.len() implies (
    #[trigger] after.pending_headers[i]).height > synced && v.pending_headers.contains(
        after.pending_headers[i],
    ) by {
        lemma_filtered(v.pending_headers, high, i);
    }
    assert forall|i: int|
        0 <= i < v.pending_headers.len() && (#[trigger] v.pending_headers[i]).height
            > synced implies after.pending_headers.contains(v.pending_headers[i]) by {
        assert(high(v.pending_headers[i]));
    }
}

/// The local chain has the header at the height.
pub open spec fn shares_header(local: Map<u32, BlockHeader>, height: u32, hash: Hash32) -> bool {
    local.contains_key(height) && local[height].hash == hash
}

/// The chain, whose first header has the height `start`, leaves the local one with its header `i`:
/// all headers before are shared, that one is not, and its parent is the local header below.
pub open spec fn leaves_at(
    local: Map<u32, BlockHeader>,
    chain: Seq<BlockHeader>,
    start: int,
    i: int,
) -> bool {
    &&& 0 <= i < chain.len()
    &&& start + i > 0
    &&& forall|k: int|
        0 <= k < i ==> shares_header(local, (start + k) as u32, (#[trigger] chain[k]).hash)
    &&& !shares_header(local, (start + i) as u32, chain[i].hash)
    &&& shares_header(local, (start + i - 1) as u32, chain[i].previous_hash)
}

/// A fork is found exactly where there is one: wherever the chain leaves the local one, at its
/// first header, at its last or between, the last common height is the one below, and where it
/// does not leave the local chain nothing is found.
pub proof fn fork_is_found_where_chain_leaves(
    local: Map<u32, BlockHeader>,
    chain: Seq<BlockHeader>,
    start: int,
)
    requires
        0 <= start,
        start + chain.len() <= u32::MAX + 1,
    ensures
        forall|i: int| #[trigger]
            leaves_at(local, chain, start, i) ==> sync::fork_point(local, chain, start) == Some(
                (start + i - 1) as u32,
            ),
        (forall|i: int| !#[trigger] leaves_at(local, chain, start, i)) ==> sync::fork_point(
            local,
            chain,
            start,
        ) is None,
{
    let d = sync::first_divergence(local, chain, start, 0) as int;
    lemma_divergence(local, chain, start, 0);
    assert forall|i: int| #[trigger] leaves_at(local, chain, start, i) implies sync::fork_point(
        local,
        chain,
        start,
    ) == Some((start + i - 1) as u32) by {
        if d < i {
            assert(shares_header(local, (start + d) as u32, chain[d].hash));
        }
        assert(d == i);
    }
    if forall|i: int| !#[trigger] leaves_at(local, chain, start, i) {
        assert(!leaves_at(local, chain, start, d));
    }
}

proof fn lemma_divergence(
    local: Map<u32, BlockHeader>,
    chain: Seq<BlockHeader>,
    start: int,
    from: nat,
)
    requires
        from <= chain.len(),
    ensures
        ({
            let d = sync::first_divergence(local, chain, start, from) as int;
            &&& from <= d <= chain.len()
            &&& d < chain.len() ==> !shares_header(local, (start + d) as u32, chain[d].hash)
            &&& forall|k: int|
                from <= k < d ==> shares_header(local, (start + k) as u32, (#[trigger] chain[k]).hash)
        }),
    decreases chain.len() - from,
{
    if from < chain.len() && sync::chains_agree(local, chain, start, from as int) {
        lemma_divergence(local, chain, start, from + 1);
    }
}

/// All heights above `low` up to `high`, each once, lowest first.
pub open spec fn climbs(heights: Seq<u32>, low: int, high: int) -> bool {
    &&& forall|h: u32| #[trigger] heights.contains(h) <==> low < h <= high
    &&& forall|i: int, j: int|
        0 <= i < j < heights.len() ==> #[trigger] heights[i] < #[trigger] heights[j]
}

/// A fork is told where the chain leaves the local one: the last common block, the local heights
/// above it, which are rolled back, and those of the chain, which are applied.
pub open spec fn fork_told(
    local: Map<u32, BlockHeader>,
    chain: Seq<BlockHeader>,
    start: int,
    tip: int,
    fork: Option<ForkInfo>,
) -> bool {
    match fork {
        Some(info) => {
            &&& leaves_at(local, chain, start, info.fork_height + 1 - start)
            &&& info.fork_hash == local[info.fork_height].hash
            &&& climbs(info.rollback_heights@, info.fork_height as int, tip)
            &&& climbs(info.apply_heights@, info.fork_height as int, start + chain.len() - 1)
        },
        None => forall|i: int| !#[trigger] leaves_at(local, chain, start, i),
    }
}

/// The chain leaves the local one in one place only: where it first differs.
pub(crate) proof fn lemma_leaves_once(
    local: Map<u32, BlockHeader>,
    chain: Seq<BlockHeader>,
    start: int,
    d: int,
)
    requires
        0 <= d <= chain.len(),
        d == sync::first_divergence(local, chain, start, 0),
    ensures
        forall|k: int| #[trigger] leaves_at(local, chain, start, k) ==> k == d,
{
    lemma_divergence(local, chain, start, 0);
    assert forall|k: int| #[trigger] leaves_at(local, chain, start, k) implies k == d by {
        if d < k {
            assert(shares_header(local, (start + d) as u32, chain[d].hash));
        }
    }
}

/// What is told of a fork is one thing only: two answers to one question agree on the last common
/// block and on what is rolled back and applied.
pub proof fn fork_is_told_one_way(
    local: Map<u32, BlockHeader>,
    chain: Seq<BlockHeader>,
    start: int,
    tip: int,
    a: Option<ForkInfo>,
    b: Option<ForkInfo>,
)
    requires
        0 <= start,
        start + chain.len() <= u32::MAX + 1,
        tip <= u32::MAX,
        fork_told(local, chain, start, tip, a),
        fork_told(local, chain, start, tip, b),
    ensures
        a is Some <==> b is Some,
        a is Some ==> {
            &&& a->0.fork_height == b->0.fork_height
            &&& a->0.fork_hash == b->0.fork_hash
            &&& forall|h: u32| #[trigger]
                a->0.rollback_heights@.contains(h) <==> b->0.rollback_heights@.contains(h)
            &&& forall|h: u32| #[trigger]
                a->0.apply_heights@.contains(h) <==> b->0.apply_heights@.contains(h)
            &&& a->0.fork_height < tip ==> a->0.rollback_heights@.contains(tip as u32)
            &&& a->0.apply_heights@.contains((a->0.fork_height + 1) as u32)
        },
{
    let d = sync::first_divergence(local, chain, start, 0) as int;
    lemma_divergence(local, chain, start, 0);
    lemma_leaves_once(local, chain, start, d);
}

/// Block sync starts with the block it is given and goes on with all blocks after it that are
/// known, up to five hundred heights further, which are outstanding then.
pub proof fn block_sync_asks_from_its_start(
    v: SyncView,
    peer: SocketAddr,
    from_hash: Hash32,
    from_height: u32,
    now: Instant,
)
    requires
        from_height + 500 <= u32::MAX,
    ensures
        ({
            let (after, asked) = v.block_sync_started(peer, from_hash, from_height, now);
            let hi = if from_height + 500 < v.best_height {
                from_height + 500
            } else {
                v.best_height as int
            };
            &&& asked.len() >= 1 && asked[0] == from_hash
            &&& lists_known(v.known_headers, from_height + 1, hi, asked.skip(1))
            &&& after.pending_block_requests == asked.skip(1)
            &&& after.state == SyncState::SyncingBlocks
            &&& after.sync_peer == Some(peer)
            &&& after.last_sync_request_time == Some(now)
            &&& after.known_headers == v.known_headers
            &&& after.pending_headers == v.pending_headers
            &&& after.best_height == v.best_height && after.best_hash == v.best_hash
            &&& after.synced_header_height == v.synced_header_height
            &&& after.next_height == v.next_height
        }),
        forall|hashes: Seq<Hash32>, i: int|
            0 <= i < hashes.len() ==> (#[trigger] sync::block_entries(hashes)[i]).inv_type
                == InvType::Block && sync::block_entries(hashes)[i].hash == hashes[i],
        forall|hashes: Seq<Hash32>| (#[trigger] sync::block_entries(hashes)).len() == hashes.len(),
{
    let (after, asked) = v.block_sync_started(peer, from_hash, from_height, now);
    let hi = if from_height + 500 < v.best_height {
        from_height + 500
    } else {
        v.best_height as int
    };
    known_range_is_complete(v.known_headers, from_height + 1, hi);
    assert(asked.skip(1) =~= sync::known_range(v.known_headers, from_height + 1, hi));
}

/// What is rolled back and what is applied are all heights of a range, each once, lowest first.
pub proof fn heights_are_all_of_a_range(lo: int, hi: int)
    requires
        0 <= lo,
        hi <= u32::MAX,
    ensures
        forall|h: u32| #[trigger] sync::height_range(lo, hi).contains(h) <==> lo <= h <= hi,
        forall|i: int, j: int|
            0 <= i < j < sync::height_range(lo, hi).len() ==> #[trigger] sync::height_range(
                lo,
                hi,
            )[i] < #[trigger] sync::height_range(lo, hi)[j],
{
    let range = sync::height_range(lo, hi);
    assert forall|h: u32| #[trigger] range.contains(h) <==> lo <= h <= hi by {
        if lo <= h <= hi {
            assert(range[h - lo] == h);
        }
    }
}

/// A batch of headers is taken exactly when it has at least one and at most so many headers, there
/// is room for them, the first follows a known header, each of the others follows the one before
/// it, and no known height has another hash.
pub proof fn valid_batches_link(v: SyncView, headers: Seq<BlockHeader>)
    ensures
        v.batch_valid(headers) <==> {
            &&& 1 <= headers.len() <= 2000
            &&& v.known_headers.dom().len() + headers.len() <= 100_000
            &&& exists|h: u32| #[trigger]
                v.known_headers.contains_key(h) && v.known_headers[h] == headers[0].previous_hash
            &&& forall|i: int|
                #![trigger headers[i]]
                0 < i < headers.len() ==> headers[i].height == headers[i - 1].height + 1
                    && headers[i].previous_hash == headers[i - 1].hash
            &&& forall|i: int|
                #![trigger headers[i]]
                0 <= i < headers.len() && v.known_headers.contains_key(headers[i].height)
                    ==> v.known_headers[headers[i].height] == headers[i].hash
        },
{
    if v.batch_valid(headers) {
        let h = choose|h: u32| #[trigger]
            v.known_headers.contains_key(h) && v.known_headers[h] == headers[0].previous_hash;
        assert(v.known_headers.contains_key(h));
        assert forall|i: int|
            #![trigger headers[i]]
            0 <= i < headers.len() implies sync::header_fits(v.known_headers, headers, i) by {}
    }
}

/// The sync belongs to one peer: another cannot take it over, and the owner keeps it with nothing
/// changed. Where nobody owns it a peer that claims it does, and the wait for it starts.
pub proof fn sync_is_claimed_once(v: SyncView, peer: SocketAddr, now: Instant)
    ensures
        v.may_claim(peer) <==> (v.sync_peer is None || v.sync_peer == Some(peer)),
        v.sync_peer is Some ==> v.claimed(peer, now) == v,
        v.sync_peer is None ==> {
            let after = v.claimed(peer, now);
            &&& after.sync_peer == Some(peer)
            &&& after.last_sync_request_time == Some(now)
            &&& after.state == v.state && after.next_height == v.next_height
            &&& after.best_height == v.best_height && after.best_hash == v.best_hash
            &&& after.known_headers == v.known_headers
            &&& after.pending_headers == v.pending_headers
            &&& after.pending_block_requests == v.pending_block_requests
            &&& after.synced_header_height == v.synced_header_height
            &&& after.consecutive_sync_failures == v.consecutive_sync_failures
        },
{
}

/// A sync is overdue half a minute after its last request, and never before there was one.
pub proof fn overdue_after_half_a_minute(v: SyncView, now: Instant)
    ensures
        v.timed_out(now) <==> (v.last_sync_request_time matches Some(last) && now.nanos
            - last.nanos > 30 * 1_000_000_000),
{
}

/// Blocks are downloaded in bulk while the validated tip is more than so many blocks below the
/// best header and blocks are asked for.
pub proof fn bulk_download_far_behind(v: SyncView)
    ensures
        v.in_ibd() <==> v.state == SyncState::SyncingBlocks && v.best_height
            - v.synced_header_height > 144,
        v.syncing() <==> !(v.state == SyncState::Idle || v.state == SyncState::CaughtUp),
{
}

/// Header sync starts with an empty buffer and with the peer as its owner; what is known stays.
pub proof fn header_sync_starts_afresh(v: SyncView, peer: SocketAddr, now: Instant)
    ensures
        ({
            let after = v.header_sync_started(peer, now);
            &&& after.state == SyncState::SyncingHeaders
            &&& after.sync_peer == Some(peer)
            &&& after.pending_headers.len() == 0
            &&& after.last_sync_request_time == Some(now)
            &&& after.known_headers == v.known_headers
            &&& after.best_height == v.best_height && after.best_hash == v.best_hash
            &&& after.synced_header_height == v.synced_header_height
            &&& after.pending_block_requests == v.pending_block_requests
            &&& after.next_height == v.next_height
            &&& after.consecutive_sync_failures == v.consecutive_sync_failures
        }),
{
}

/// How far below the tip the locator number `k` stands: the gaps double, and from the tenth on
/// they stay the same.
pub open spec fn locator_depth(k: nat) -> int
    decreases k,
{
    if k == 0 {
        0
    } else if k <= 11 {
        2 * locator_depth((k - 1) as nat) + 1
    } else {
        locator_depth((k - 1) as nat) + 1024
    }
}

/// `hashes` are known at `heights`, which fall. They are those below `tip` that a locator visits
/// after its number `k`, as far as they are known, and the last one is zero.
pub open spec fn visited(
    known: Map<u32, Hash32>,
    tip: int,
    k: nat,
    hashes: Seq<Hash32>,
    heights: Seq<u32>,
) -> bool {
    &&& heights.len() == hashes.len()
    &&& forall|i: int|
        0 <= i < heights.len() ==> {
            &&& known.contains_key(#[trigger] heights[i])
            &&& known[heights[i]] == hashes[i]
            &&& heights[i] < tip - locator_depth(k)
            &&& heights[i] == 0 || exists|j: nat| j > k && heights[i] == tip - #[trigger] locator_depth(
                j,
            )
        }
    &&& forall|i: int, j: int|
        0 <= i < j < heights.len() ==> #[trigger] heights[i] > #[trigger] heights[j]
    &&& forall|j: nat|
        j > k && #[trigger] locator_depth(j) < tip && known.contains_key(
            (tip - locator_depth(j)) as u32,
        ) ==> heights.contains((tip - locator_depth(j)) as u32)
    &&& tip > locator_depth(k) && known.contains_key(0) ==> heights.contains(0)
}

/// The hashes that a peer is offered to find the common block go down from the tip in gaps that
/// double up to a bound: of the heights at these depths every known one is there, no other is, and
/// the highest come first.
pub proof fn locators_double_their_gaps(known: Map<u32, Hash32>, tip: u32)
    ensures
        exists|heights: Seq<u32>| #[trigger]
            visited(known, tip as int, 0, sync::locator_walk(known, tip as nat, 1), heights),
{
    lemma_visited(known, tip as int, 0);
    assert(visited(
        known,
        tip as int,
        0,
        sync::locator_walk(known, tip as nat, 1),
        heights_visited(known, tip as int, 0),
    ));
}

spec fn left(tip: int, k: nat) -> nat {
    if locator_depth(k) < tip {
        (tip - locator_depth(k)) as nat
    } else {
        0
    }
}

spec fn gap(k: nat) -> int {
    locator_depth(k + 1) - locator_depth(k)
}

spec fn heights_visited(known: Map<u32, Hash32>, tip: int, k: nat) -> Seq<u32>
    decreases left(tip, k),
    when locator_depth(k + 1) > locator_depth(k)
{
    if tip <= locator_depth(k) {
        Seq::empty()
    } else {
        let next = if locator_depth(k + 1) < tip {
            (tip - locator_depth(k + 1)) as u32
        } else {
            0
        };
        let here = if known.contains_key(next) {
            seq![next]
        } else {
            Seq::empty()
        };
        here + heights_visited(known, tip, k + 1)
    }
}

proof fn lemma_gap(k: nat)
    ensures
        gap(k) >= 1,
        k <= 10 ==> gap(k) == locator_depth(k) + 1 && gap(k) <= 1024,
        k < 10 ==> gap(k) < 1000,
        k >= 10 ==> gap(k) == 1024,
        gap(k + 1) == if gap(k) < 1000 {
            gap(k) * 2
        } else {
            gap(k)
        },
        locator_depth(k) >= 0,
{
    reveal_with_fuel(locator_depth, 14);
    lemma_depth_positive(k);
}

proof fn lemma_depth_positive(k: nat)
    ensures
        locator_depth(k) >= 0,
    decreases k,
{
    if k > 0 {
        lemma_depth_positive((k - 1) as nat);
    }
}

proof fn lemma_depth_rises(a: nat, b: nat)
    requires
        a <= b,
    ensures
        locator_depth(a) <= locator_depth(b),
        a < b ==> locator_depth(a) < locator_depth(b),
    decreases b - a,
{
    if a < b {
        lemma_gap((b - 1) as nat);
        lemma_depth_rises(a, (b - 1) as nat);
    }
}

proof fn lemma_visited(known: Map<u32, Hash32>, tip: int, k: nat)
    requires
        0 <= tip <= u32::MAX,
    ensures
        ({
            let h = if locator_depth(k) < tip {
                (tip - locator_depth(k)) as nat
            } else {
                0
            };
            visited(
                known,
                tip,
                k,
                sync::locator_walk(known, h, gap(k) as nat),
                heights_visited(known, tip, k),
            )
        }),
    decreases left(tip, k),
{
    lemma_gap(k);
    let heights = heights_visited(known, tip, k);
    if tip <= locator_depth(k) {
        assert(heights =~= Seq::empty());
        assert forall|j: nat| j > k implies #[trigger] locator_depth(j) >= tip by {
            lemma_depth_rises(k, j);
        }
    } else {
        let h = (tip - locator_depth(k)) as nat;
        let next = if locator_depth(k + 1) < tip {
            (tip - locator_depth(k + 1)) as u32
        } else {
            0
        };
        lemma_visited(known, tip, k + 1);
        let rest = heights_visited(known, tip, k + 1);
        let here: Seq<u32> = if known.contains_key(next) {
            seq![next]
        } else {
            Seq::empty()
        };
        let hashes = sync::locator_walk(known, h, gap(k) as nat);
        let later = sync::locator_walk(known, next as nat, gap(k + 1) as nat);
        assert(hashes == (if known.contains_key(next) {
            seq![known[next]]
        } else {
            Seq::empty()
        }) + later);
        assert(heights == here + rest);
        assert forall|i: int| 0 <= i < heights.len() implies {
            &&& known.contains_key(#[trigger] heights[i])
            &&& known[heights[i]] == hashes[i]
            &&& heights[i] < tip - locator_depth(k)
            &&& heights[i] == 0 || exists|j: nat|
                j > k && heights[i] == tip - #[trigger] locator_depth(j)
        } by {
            if i < here.len() {
                assert(heights[i] == next);
                if next != 0 {
                    assert(heights[i] == tip - locator_depth(k + 1));
                }
            } else {
                let r = rest[i - here.len()];
                assert(heights[i] == r);
                assert(hashes[i] == later[i - here.len()]);
                if r != 0 {
                    let j = choose|j: nat| j > k + 1 && r == tip - #[trigger] locator_depth(j);
                    assert(j > k && heights[i] == tip - locator_depth(j));
                }
            }
        }
        assert forall|i: int, j: int| 0 <= i < j < heights.len() implies #[trigger] heights[i]
            > #[trigger] heights[j] by {
            if i < here.len() {
                assert(heights[j] == rest[j - here.len()]);
                assert(rest[j - here.len()] < tip - locator_depth(k + 1));
            } else {
                assert(heights[i] == rest[i - here.len()]);
                assert(heights[j] == rest[j - here.len()]);
            }
        }
        assert forall|j: nat|
            j > k && #[trigger] locator_depth(j) < tip && known.contains_key(
                (tip - locator_depth(j)) as u32,
            ) implies heights.contains((tip - locator_depth(j)) as u32) by {
            let wanted = (tip - locator_depth(j)) as u32;
            if j == k + 1 {
                assert(heights[0] == wanted);
            } else {
                assert(rest.contains(wanted));
                let p = choose|p: int| 0 <= p < rest.len() && rest[p] == wanted;
                assert(heights[p + here.len()] == wanted);
            }
        }
        if known.contains_key(0) {
            if locator_depth(k + 1) < tip {
                let p = choose|p: int| 0 <= p < rest.len() && rest[p] == 0;
                assert(heights[p + here.len()] == 0);
            } else {
                assert(heights[0] == 0);
            }
        }
    }
}

/// A failure counts as one more in a row and changes nothing else.
pub proof fn failures_are_counted_one_by_one(v: SyncView)
    requires
        v.consecutive_sync_failures < u32::MAX,
    ensures
        ({
            let after = v.failed_once_more();
            &&& after.consecutive_sync_failures == v.consecutive_sync_failures + 1
            &&& after.state == v.state && after.sync_peer == v.sync_peer
            &&& after.known_headers == v.known_headers
            &&& after.pending_headers == v.pending_headers
            &&& after.pending_block_requests == v.pending_block_requests
            &&& after.best_height == v.best_height && after.best_hash == v.best_hash
            &&& after.synced_header_height == v.synced_header_height
            &&& after.next_height == v.next_height
            &&& after.last_sync_request_time == v.last_sync_request_time
        }),
        sync::MAX_SYNC_FAILURES == 5,
{
}

/// A sync that is over is caught up and owned by nobody; what is known and asked for stays.
pub proof fn sync_that_is_over_is_owned_by_nobody(v: SyncView)
    ensures
        ({
            let after = v.caught_up();
            &&& after.state == SyncState::CaughtUp
            &&& after.sync_peer is None
            &&& after.known_headers == v.known_headers
            &&& after.pending_headers == v.pending_headers
            &&& after.pending_block_requests == v.pending_block_requests
            &&& after.best_height == v.best_height && after.best_hash == v.best_hash
            &&& after.synced_header_height == v.synced_header_height
            &&& after.next_height == v.next_height
            &&& after.consecutive_sync_failures == v.consecutive_sync_failures
        }),
{
}

} // verus!
