//! What every step of the sync keeps.

use crate::hash::Hash32;
use crate::sync;
use crate::sync::{
    BlockHeader, SyncView, MAX_BLOCKS_PER_REQUEST, MAX_KNOWN_HEADERS, MAX_PENDING_HEADERS,
};
use crate::time::Instant;
use vstd::prelude::*;

verus! {

/// Headers from the network never overwrite a known hash, and never lower the best height.
pub proof fn headers_fill_gaps_only(v: SyncView, headers: Seq<BlockHeader>)
    ensures
        forall|h: u32| #[trigger]
            v.known_headers.contains_key(h) ==> v.with_headers(headers).known_headers.contains_key(
                h,
            ) && v.with_headers(headers).known_headers[h] == v.known_headers[h],
        v.with_headers(headers).best_height >= v.best_height,
        v.with_headers(headers).best_height == v.best_height ==> v.with_headers(headers).best_hash
            == v.best_hash,
    decreases headers.len(),
{
    if headers.len() > 0 {
        headers_fill_gaps_only(v, headers.drop_last());
    }
}

/// The headers of a batch that conflict with nothing known: at the turn of each, its height has
/// no known hash or has its own.
pub open spec fn unopposed(v: SyncView, headers: Seq<BlockHeader>) -> Seq<BlockHeader>
    decreases headers.len(),
{
    if headers.len() == 0 {
        Seq::empty()
    } else {
        let front = unopposed(v, headers.drop_last());
        let known = v.with_headers(headers.drop_last()).known_headers;
        let header = headers.last();
        if known.contains_key(header.height) && known[header.height] != header.hash {
            front
        } else {
            front.push(header)
        }
    }
}

/// A header stands in a list at the given height.
pub open spec fn has_height(headers: Seq<BlockHeader>, height: u32) -> bool {
    exists|i: int| 0 <= i < headers.len() && (#[trigger] headers[i]).height == height
}

/// What taking headers does: those that conflict with nothing known are buffered, in their order,
/// and recorded at their heights; no known hash changes and nothing else is recorded; and the
/// best height is the highest of theirs, where that is higher than before.
pub open spec fn taken_exactly(v: SyncView, taken: Seq<BlockHeader>, after: SyncView) -> bool {
    &&& after.pending_headers == v.pending_headers + taken
    &&& forall|h: u32| #[trigger]
        v.known_headers.contains_key(h) ==> after.known_headers.contains_key(h)
            && after.known_headers[h] == v.known_headers[h]
    &&& forall|i: int|
        0 <= i < taken.len() ==> after.known_headers.contains_key((#[trigger] taken[i]).height)
            && after.known_headers[taken[i].height] == taken[i].hash
    &&& forall|h: u32| #[trigger]
        after.known_headers.contains_key(h) ==> v.known_headers.contains_key(h) || has_height(
            taken,
            h,
        )
    &&& after.best_height >= v.best_height
    &&& forall|i: int| 0 <= i < taken.len() ==> after.best_height >= (#[trigger] taken[i]).height
    &&& if after.best_height == v.best_height {
        after.best_hash == v.best_hash
    } else {
        has_height(taken, after.best_height) && after.known_headers[after.best_height]
            == after.best_hash
    }
}

/// The buffered headers grow by exactly those headers of a batch that conflict with nothing
/// known, in their order, and the others leave no trace: the state is what those alone lead to.
pub proof fn headers_taken_exactly(v: SyncView, headers: Seq<BlockHeader>)
    ensures
        taken_exactly(v, unopposed(v, headers), v.with_headers(headers)),
        v.with_headers(headers) == v.with_headers(unopposed(v, headers)),
    decreases headers.len(),
{
    if headers.len() > 0 {
        let front = headers.drop_last();
        let header = headers.last();
        headers_taken_exactly(v, front);
        let before = v.with_headers(front);
        let after = v.with_headers(headers);
        let was = unopposed(v, front);
        let taken = unopposed(v, headers);
        if taken != was {
            assert(taken.drop_last() =~= was);
            assert(taken.last() == header);
            assert(after.pending_headers =~= v.pending_headers + taken);
            assert(taken[taken.len() - 1] == header);
            assert forall|i: int| 0 <= i < taken.len() implies after.known_headers.contains_key(
                (#[trigger] taken[i]).height,
            ) && after.known_headers[taken[i].height] == taken[i].hash && after.best_height
                >= taken[i].height by {
                if i < was.len() {
                    assert(taken[i] == was[i]);
                }
            }
            assert forall|h: u32| has_height(was, h) implies has_height(taken, h) by {
                let i = choose|i: int| 0 <= i < was.len() && (#[trigger] was[i]).height == h;
                assert(taken[i].height == h);
            }
        }
    } else {
        assert(v.pending_headers + unopposed(v, headers) =~= v.pending_headers);
    }
}

/// The same of a whole batch that is not empty and that there is room for.
pub proof fn received_headers_taken_exactly(v: SyncView, headers: Seq<BlockHeader>, now: Instant)
    requires
        headers.len() > 0,
        v.pending_headers.len() + headers.len() <= MAX_PENDING_HEADERS,
    ensures
        taken_exactly(v, unopposed(v, headers), v.after_headers(headers, now).0),
{
    headers_taken_exactly(v, headers);
}

/// Whatever `received_headers` does with a batch, no known hash changes and
/// the best height does not go down.
pub proof fn received_headers_fill_gaps_only(v: SyncView, headers: Seq<BlockHeader>, now: Instant)
    ensures
        forall|h: u32| #[trigger]
            v.known_headers.contains_key(h) ==> v.after_headers(
                headers,
                now,
            ).0.known_headers.contains_key(h) && v.after_headers(headers, now).0.known_headers[h]
                == v.known_headers[h],
        v.after_headers(headers, now).0.best_height >= v.best_height,
        v.after_headers(headers, now).0.synced_header_height == v.synced_header_height,
{
    headers_fill_gaps_only(v, headers);
    lemma_synced_height_kept(v, headers);
}

proof fn lemma_synced_height_kept(v: SyncView, headers: Seq<BlockHeader>)
    ensures
        v.with_headers(headers).synced_header_height == v.synced_header_height,
    decreases headers.len(),
{
    if headers.len() > 0 {
        lemma_synced_height_kept(v, headers.drop_last());
    }
}

proof fn lemma_pending_grows_by_headers(v: SyncView, headers: Seq<BlockHeader>)
    ensures
        v.with_headers(headers).pending_headers.len() <= v.pending_headers.len() + headers.len(),
    decreases headers.len(),
{
    if headers.len() > 0 {
        lemma_pending_grows_by_headers(v, headers.drop_last());
    }
}

/// The buffer of headers never grows beyond its limit.
pub proof fn pending_headers_bounded(v: SyncView, headers: Seq<BlockHeader>, now: Instant)
    requires
        v.pending_headers.len() <= MAX_PENDING_HEADERS,
    ensures
        v.after_headers(headers, now).0.pending_headers.len() <= MAX_PENDING_HEADERS,
{
    lemma_pending_grows_by_headers(v, headers);
}

proof fn lemma_known_grows_by_headers(v: SyncView, headers: Seq<BlockHeader>)
    requires
        v.known_headers.dom().finite(),
    ensures
        v.with_headers(headers).known_headers.dom().finite(),
        v.with_headers(headers).known_headers.dom().len() <= v.known_headers.dom().len()
            + headers.len(),
    decreases headers.len(),
{
    if headers.len() > 0 {
        lemma_known_grows_by_headers(v, headers.drop_last());
        let before = v.with_headers(headers.drop_last()).known_headers;
        let header = headers.last();
        assert(before.insert(header.height, header.hash).dom() =~= before.dom().insert(
            header.height,
        ));
    }
}

/// A batch that was found valid leaves the known headers within their limit.
pub proof fn valid_batch_keeps_known_bounded(v: SyncView, headers: Seq<BlockHeader>, now: Instant)
    requires
        v.known_headers.dom().finite(),
        v.batch_valid(headers),
    ensures
        v.after_headers(headers, now).0.known_headers.dom().len() <= MAX_KNOWN_HEADERS,
{
    lemma_known_grows_by_headers(v, headers);
}

/// After a valid batch was taken, every header of it is known at its height, so the next
/// batch can link to the last one.
pub proof fn valid_batch_is_recorded(v: SyncView, headers: Seq<BlockHeader>, i: int)
    requires
        v.batch_valid(headers),
        0 <= i < headers.len(),
    ensures
        v.with_headers(headers).known_headers.contains_key(headers[i].height),
        v.with_headers(headers).known_headers[headers[i].height] == headers[i].hash,
{
    lemma_prefix_recorded(v, headers, headers.len() as int, i);
    assert(headers.take(headers.len() as int) =~= headers);
}

proof fn lemma_heights_in_sequence(known: Map<u32, Hash32>, headers: Seq<BlockHeader>, i: int, j: int)
    requires
        forall|k: int| 0 <= k < headers.len() ==> #[trigger] sync::header_fits(known, headers, k),
        0 <= i <= j < headers.len(),
    ensures
        headers[j].height == headers[i].height + (j - i),
    decreases j - i,
{
    if i < j {
        lemma_heights_in_sequence(known, headers, i, j - 1);
        assert(sync::header_fits(known, headers, j));
    }
}

proof fn lemma_prefix_recorded(v: SyncView, headers: Seq<BlockHeader>, n: int, i: int)
    requires
        v.batch_valid(headers),
        0 <= i < n <= headers.len(),
    ensures
        v.with_headers(headers.take(n)).known_headers.contains_key(headers[i].height),
        v.with_headers(headers.take(n)).known_headers[headers[i].height] == headers[i].hash,
    decreases n,
{
    let last = n - 1;
    assert(headers.take(n).drop_last() =~= headers.take(last));
    assert(headers.take(n).last() == headers[last]);
    let before = v.with_headers(headers.take(last));
    if i < last {
        lemma_prefix_recorded(v, headers, last, i);
        lemma_heights_in_sequence(v.known_headers, headers, i, last);
    } else {
        lemma_known_origin(v, headers, last, headers[i].height);
        assert(sync::header_fits(v.known_headers, headers, i));
        if before.known_headers.contains_key(headers[i].height)
            && !v.known_headers.contains_key(headers[i].height) {
            let k = choose|k: int| 0 <= k < last && headers[k].height == headers[i].height;
            lemma_heights_in_sequence(v.known_headers, headers, k, i);
        }
    }
}

proof fn lemma_known_origin(v: SyncView, headers: Seq<BlockHeader>, n: int, h: u32)
    requires
        0 <= n <= headers.len(),
    ensures
        ({
            let after = v.with_headers(headers.take(n)).known_headers;
            after.contains_key(h) ==> (v.known_headers.contains_key(h) && after[h]
                == v.known_headers[h]) || (!v.known_headers.contains_key(h) && exists|k: int|
                0 <= k < n && headers[k].height == h)
        }),
    decreases n,
{
    if n > 0 {
        assert(headers.take(n).drop_last() =~= headers.take(n - 1));
        assert(headers.take(n).last() == headers[n - 1]);
        lemma_known_origin(v, headers, n - 1, h);
        headers_fill_gaps_only(v, headers.take(n - 1));
    }
}

/// A failed attempt leaves nothing above the validated tip, keeps everything up to it and
/// goes back to the tip.
pub proof fn failure_keeps_validated_chain(v: SyncView)
    ensures
        forall|h: u32| #[trigger]
            v.after_failure().known_headers.contains_key(h) <==> h <= v.synced_header_height
                && v.known_headers.contains_key(h),
        forall|h: u32| #[trigger]
            v.after_failure().known_headers.contains_key(h) ==> v.after_failure().known_headers[h]
                == v.known_headers[h],
        v.known_headers.contains_key(v.synced_header_height) ==> v.after_failure().best_height
            == v.synced_header_height && v.after_failure().best_hash
            == v.known_headers[v.synced_header_height],
        v.after_failure().after_failure() == v.after_failure(),
{
    assert(v.after_failure().after_failure() =~= v.after_failure());
}

/// Whatever headers an attempt has taken, giving it up leads back to the same known chain
/// as giving it up before them.
pub proof fn failure_forgets_headers(v: SyncView, headers: Seq<BlockHeader>, now: Instant)
    requires
        forall|i: int|
            0 <= i < headers.len() ==> (#[trigger] headers[i]).height > v.synced_header_height,
    ensures
        v.after_headers(headers, now).0.after_failure().known_headers
            == v.after_failure().known_headers,
{
    lemma_synced_height_kept(v, headers);
    headers_fill_gaps_only(v, headers);
    assert forall|h: u32| h <= v.synced_header_height implies (v.with_headers(
        headers,
    ).known_headers.contains_key(h) <==> v.known_headers.contains_key(h)) by {
        lemma_known_origin(v, headers, headers.len() as int, h);
        assert(headers.take(headers.len() as int) =~= headers);
    }
    assert(v.after_headers(headers, now).0.after_failure().known_headers
        =~= v.after_failure().known_headers);
}

/// The first batch asks for at most one block more than the request limit, and what it
/// asks for is known.
pub proof fn first_batch_bounded(v: SyncView)
    ensures
        v.first_batch().len() <= MAX_BLOCKS_PER_REQUEST + 1,
        forall|i: int|
            0 <= i < v.first_batch().len() ==> v.known_headers.contains_value(
                #[trigger] v.first_batch()[i],
            ),
{
    let first = v.synced_header_height + 1;
    let last = if first + MAX_BLOCKS_PER_REQUEST < v.best_height {
        first + MAX_BLOCKS_PER_REQUEST
    } else {
        v.best_height as int
    };
    lemma_known_range(v.known_headers, first, last);
}

proof fn lemma_known_range(known: Map<u32, Hash32>, lo: int, hi: int)
    ensures
        sync::known_range(known, lo, hi).len() <= if lo <= hi {
            hi - lo + 1
        } else {
            0
        },
        forall|i: int|
            0 <= i < sync::known_range(known, lo, hi).len() ==> known.contains_value(
                #[trigger] sync::known_range(known, lo, hi)[i],
            ),
    decreases hi - lo + 1,
{
    if lo <= hi {
        lemma_known_range(known, lo, hi - 1);
        if known.contains_key(hi as u32) {
            assert(known.contains_value(known[hi as u32]));
        }
    }
}

/// Locators start at the tip and, where genesis is known, end there; all but the tip are
/// known hashes.
pub proof fn locators_span_chain(known: Map<u32, Hash32>, tip: Hash32, height: nat)
    ensures
        ({
            let locators = sync::ending_in_genesis(
                known,
                seq![tip] + sync::locator_walk(known, height, 1),
            );
            &&& locators.len() > 0
            &&& locators[0] == tip
            &&& known.contains_key(0) ==> locators.last() == known[0]
            &&& forall|i: int|
                0 < i < locators.len() ==> known.contains_value(#[trigger] locators[i])
        }),
{
    lemma_walk_known(known, height, 1);
    let walk = seq![tip] + sync::locator_walk(known, height, 1);
    let locators = sync::ending_in_genesis(known, walk);
    assert forall|i: int| 0 < i < locators.len() implies known.contains_value(
        #[trigger] locators[i],
    ) by {
        if i < walk.len() {
            assert(locators[i] == sync::locator_walk(known, height, 1)[i - 1]);
        } else {
            assert(locators[i] == known[0]);
        }
    }
}

proof fn lemma_walk_known(known: Map<u32, Hash32>, height: nat, step: nat)
    ensures
        forall|i: int|
            0 <= i < sync::locator_walk(known, height, step).len() ==> known.contains_value(
                #[trigger] sync::locator_walk(known, height, step)[i],
            ),
    decreases height,
{
    if height > 0 && step > 0 {
        let next = if height > step {
            (height - step) as nat
        } else {
            0
        };
        let next_step = if step < 1000 {
            step * 2
        } else {
            step
        };
        lemma_walk_known(known, next, next_step);
        let rest = sync::locator_walk(known, next, next_step);
        let all = sync::locator_walk(known, height, step);
        assert forall|i: int| 0 <= i < all.len() implies known.contains_value(#[trigger] all[i]) by {
            if known.contains_key(next as u32) {
                if i == 0 {
                    assert(all[i] == known[next as u32]);
                } else {
                    assert(all[i] == rest[i - 1]);
                }
            } else {
                assert(all[i] == rest[i]);
            }
        }
    }
}

/// A chain that agrees with the local one everywhere is no fork, and a fork point is always
/// a local block that is the parent of the first differing one.
pub proof fn fork_point_is_common_parent(
    local: Map<u32, BlockHeader>,
    chain: Seq<BlockHeader>,
    start: int,
)
    requires
        0 <= start,
        start + chain.len() <= u32::MAX + 1,
    ensures
        match sync::fork_point(local, chain, start) {
            Some(height) => {
                let i = height + 1 - start;
                &&& 0 <= i < chain.len()
                &&& local.contains_key(height)
                &&& local[height].hash == chain[i].previous_hash
                &&& !sync::chains_agree(local, chain, start, i)
                &&& forall|k: int| 0 <= k < i ==> #[trigger] sync::chains_agree(local, chain, start, k)
            },
            None => true,
        },
        (forall|k: int| 0 <= k < chain.len() ==> #[trigger] sync::chains_agree(local, chain, start, k))
            ==> sync::fork_point(local, chain, start) is None,
{
    lemma_first_divergence(local, chain, start, 0);
}

proof fn lemma_first_divergence(
    local: Map<u32, BlockHeader>,
    chain: Seq<BlockHeader>,
    start: int,
    from: nat,
)
    requires
        from <= chain.len(),
    ensures
        ({
            let i = sync::first_divergence(local, chain, start, from);
            &&& from <= i <= chain.len()
            &&& i < chain.len() ==> !sync::chains_agree(local, chain, start, i as int)
            &&& forall|k: int| from <= k < i ==> #[trigger] sync::chains_agree(local, chain, start, k)
        }),
    decreases chain.len() - from,
{
    if from < chain.len() && sync::chains_agree(local, chain, start, from as int) {
        lemma_first_divergence(local, chain, start, from + 1);
    }
}

} // verus!
