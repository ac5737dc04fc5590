//! What is asked for, announced and served, entry by entry.

use crate::addr::SocketAddr;
use crate::hash::Hash32;
use crate::mempool;
use crate::mempool::EntryView;
use crate::peer;
use crate::peer::PeersView;
use crate::relay;
use crate::relay::{Reply, ReplyKind};
use crate::stats;
use crate::stats::RelaySnapshot;
use crate::sync::SyncCommandView;
use crate::time::Instant;
use crate::wire;
use crate::wire::{GetHeadersMessage, InvEntry, InvType, MessageType, MessageView};
use crate::wire_laws;
use vstd::prelude::*;

verus! {

/// The entry number `i` is not here: a block that the chain does not have, or a transaction whose
/// hash is none of those in the pool.
pub open spec fn not_here(
    entries: Seq<InvEntry>,
    have_blocks: Seq<bool>,
    pool: Seq<EntryView>,
    i: int,
) -> bool {
    if entries[i].inv_type == InvType::Block {
        !have_blocks[i]
    } else {
        forall|k: int| 0 <= k < pool.len() ==> (#[trigger] pool[k]).tx_hash != entries[i].hash
    }
}

/// `wanted` are the entries that are not here, which stand at `positions`, all of them and in their
/// order.
pub open spec fn wanted_at(
    entries: Seq<InvEntry>,
    have_blocks: Seq<bool>,
    pool: Seq<EntryView>,
    wanted: Seq<InvEntry>,
    positions: Seq<int>,
) -> bool {
    &&& positions.len() == wanted.len()
    &&& forall|i: int|
        0 <= i < positions.len() ==> {
            &&& 0 <= #[trigger] positions[i] < entries.len()
            &&& wanted[i] == entries[positions[i]]
            &&& not_here(entries, have_blocks, pool, positions[i])
        }
    &&& forall|i: int, j: int|
        0 <= i < j < positions.len() ==> #[trigger] positions[i] < #[trigger] positions[j]
    &&& forall|p: int|
        0 <= p < entries.len() && #[trigger] not_here(entries, have_blocks, pool, p)
            ==> positions.contains(p)
}

/// Of what a peer announces exactly that is asked for which is not here, each entry once, in the
/// order in which it was announced.
pub proof fn all_that_is_missing_is_asked_for(
    entries: Seq<InvEntry>,
    have_blocks: Seq<bool>,
    pool: Seq<EntryView>,
)
    requires
        have_blocks.len() == entries.len(),
    ensures
        exists|positions: Seq<int>| #[trigger]
            wanted_at(
                entries,
                have_blocks,
                pool,
                relay::missing_entries(entries, have_blocks, pool),
                positions,
            ),
{
    lemma_wanted(entries, have_blocks, pool, entries.len() as int);
    assert(entries.take(entries.len() as int) =~= entries);
    assert(wanted_at(
        entries,
        have_blocks,
        pool,
        relay::missing_entries(entries, have_blocks, pool),
        missing_positions(entries, have_blocks, pool, entries.len() as int),
    ));
}

spec fn missing_positions(
    entries: Seq<InvEntry>,
    have_blocks: Seq<bool>,
    pool: Seq<EntryView>,
    n: int,
) -> Seq<int>
    decreases n,
{
    if n <= 0 {
        Seq::empty()
    } else {
        let before = missing_positions(entries, have_blocks, pool, n - 1);
        if not_here(entries, have_blocks, pool, n - 1) {
            before.push(n - 1)
        } else {
            before
        }
    }
}

proof fn lemma_wanted(
    entries: Seq<InvEntry>,
    have_blocks: Seq<bool>,
    pool: Seq<EntryView>,
    n: int,
)
    requires
        0 <= n <= entries.len(),
        have_blocks.len() == entries.len(),
    ensures
        ({
            let wanted = relay::missing_entries(entries.take(n), have_blocks, pool);
            let positions = missing_positions(entries, have_blocks, pool, n);
            &&& positions.len() == wanted.len()
            &&& forall|i: int|
                0 <= i < positions.len() ==> {
                    &&& 0 <= #[trigger] positions[i] < n
                    &&& wanted[i] == entries[positions[i]]
                    &&& not_here(entries, have_blocks, pool, positions[i])
                }
            &&& forall|i: int, j: int|
                0 <= i < j < positions.len() ==> #[trigger] positions[i] < #[trigger] positions[j]
            &&& forall|p: int|
                0 <= p < n && #[trigger] not_here(entries, have_blocks, pool, p)
                    ==> positions.contains(p)
        }),
    decreases n,
{
    if n > 0 {
        lemma_wanted(entries, have_blocks, pool, n - 1);
        assert(entries.take(n).drop_last() =~= entries.take(n - 1));
        assert(entries.take(n).last() == entries[n - 1]);
        let before = missing_positions(entries, have_blocks, pool, n - 1);
        let positions = missing_positions(entries, have_blocks, pool, n);
        assert(relay::missing(entries[n - 1], have_blocks[n - 1], pool) <==> not_here(
            entries,
            have_blocks,
            pool,
            n - 1,
        ));
        assert forall|p: int|
            0 <= p < n && #[trigger] not_here(
                entries,
                have_blocks,
                pool,
                p,
            ) implies positions.contains(p) by {
            if p < n - 1 {
                let k = choose|k: int| 0 <= k < before.len() && before[k] == p;
                assert(positions[k] == p);
            } else {
                assert(positions[positions.len() - 1] == p);
            }
        }
    }
}

/// Of an inventory the first five hundred entries are acted upon, or all where there are fewer.
pub proof fn first_entries_are_followed(inventory: Seq<InvEntry>)
    ensures
        relay::followed(inventory).len() == if inventory.len() < 500 {
            inventory.len() as int
        } else {
            500
        },
        forall|i: int|
            0 <= i < relay::followed(inventory).len() ==> #[trigger] relay::followed(inventory)[i]
                == inventory[i],
{
}

/// An inventory that cannot be read costs its sender twenty points and leads to nothing; one with
/// more than five hundred entries costs as much, and its start is acted upon; any other costs
/// nothing, and all of it is acted upon.
pub proof fn inventories_cost_what_they_abuse(
    label: Seq<char>,
    payload: Seq<u8>,
    before: PeersView,
    after: PeersView,
    addr: SocketAddr,
    now: Instant,
    result: Result<Seq<InvEntry>, Seq<char>>,
    entries: Seq<InvEntry>,
)
    requires
        relay::inventory_followed(label, payload, before, after, addr, now, result, entries),
    ensures
        result is Err ==> entries.len() == 0,
        result is Err || result->Ok_0.len() > 500 ==> peer::struck_and_mirrored(
            before,
            after,
            addr,
            20,
            now,
        ),
        result is Ok && result->Ok_0.len() <= 500 ==> after == before && entries == result->Ok_0,
        result is Ok && result->Ok_0.len() > 500 ==> entries == result->Ok_0.take(500),
        wire::inventory_parsed(label, payload, result),
{
}

/// A peer reads from a request for blocks that exactly these blocks are asked for.
pub proof fn block_requests_name_their_blocks(
    hashes: Seq<Hash32>,
    magic: Seq<u8>,
    res: Result<Seq<InvEntry>, Seq<char>>,
)
    requires
        hashes.len() <= 100_000,
        wire::inventory_parsed("getdata"@, relay::block_request(hashes, magic).payload, res),
    ensures
        relay::block_request(hashes, magic).msg_type == MessageType::GetData,
        relay::block_request(hashes, magic).magic == magic,
        res is Ok && res->Ok_0.len() == hashes.len(),
        forall|i: int|
            0 <= i < hashes.len() ==> (#[trigger] res->Ok_0[i]).inv_type == InvType::Block
                && res->Ok_0[i].hash == hashes[i],
{
    let entries = relay::entries_for(InvType::Block, hashes);
    assert(wire::inventory_payload(entries) + Seq::<u8>::empty() =~= wire::inventory_payload(
        entries,
    ));
    wire_laws::inventory_round_trip("getdata"@, entries, Seq::empty(), res);
}

/// Any number of blocks is asked for in requests of five hundred: the request number `i` names
/// those after the ones that the requests before it name.
pub proof fn blocks_are_asked_for_in_batches(hashes: Seq<Hash32>, magic: Seq<u8>, i: int)
    requires
        0 <= i < relay::block_requests(hashes, magic).len(),
    ensures
        relay::block_requests(hashes, magic).len() == (hashes.len() + 499) / 500,
        relay::block_requests(hashes, magic)[i] == relay::block_request(
            hashes.subrange(
                500 * i,
                if 500 * (i + 1) < hashes.len() {
                    500 * (i + 1)
                } else {
                    hashes.len() as int
                },
            ),
            magic,
        ),
    decreases hashes.len(),
{
    let all = relay::block_requests(hashes, magic);
    if hashes.len() <= 500 {
        assert(hashes.subrange(0, hashes.len() as int) =~= hashes);
    } else {
        let rest = hashes.skip(500);
        let later = relay::block_requests(rest, magic);
        assert(later.len() > 0);
        blocks_are_asked_for_in_batches(
            rest,
            magic,
            if i > 0 {
                i - 1
            } else {
                0
            },
        );
        if i == 0 {
            assert(hashes.take(500) =~= hashes.subrange(0, 500));
        } else {
            let end = if 500 * (i + 1) < hashes.len() {
                500 * (i + 1)
            } else {
                hashes.len() as int
            };
            assert(all[i] == later[i - 1]);
            assert(rest.subrange(500 * (i - 1), end - 500) =~= hashes.subrange(500 * i, end));
        }
    }
}

/// What the syncer asks for goes out as it was asked: headers after the hash it names, the block it
/// names, the blocks it names, and nothing where it is done.
pub proof fn commands_go_out_as_given(hash: Hash32, hashes: Seq<Hash32>, magic: Seq<u8>)
    ensures
        ({
            let out = relay::command_messages(SyncCommandView::GetHeaders(hash), magic);
            &&& out.len() == 1
            &&& out[0].msg_type == MessageType::GetHeaders
            &&& out[0].magic == magic
            &&& GetHeadersMessage::parse(out[0].payload) == Ok::<_, Seq<char>>(
                (hash.0@, Seq::new(32, |i: int| 0u8)),
            )
        }),
        relay::command_messages(SyncCommandView::RequestBlocksFrom(hash), magic) == seq![
            relay::block_request(seq![hash], magic),
        ],
        relay::command_messages(SyncCommandView::GetBlocks(hashes), magic)
            == relay::block_requests(hashes, magic),
        relay::command_messages(SyncCommandView::SyncComplete, magic).len() == 0,
{
    let out = relay::command_messages(SyncCommandView::GetHeaders(hash), magic);
    let zeros = Seq::new(32, |i: int| 0u8);
    assert(out[0].payload.subrange(0, 32) =~= hash.0@);
    assert(out[0].payload.subrange(32, 64) =~= zeros);
}

/// Several requests of the syncer go out one after the other, none left out.
pub proof fn commands_go_out_in_turn(
    first: Seq<SyncCommandView>,
    then: SyncCommandView,
    magic: Seq<u8>,
)
    ensures
        relay::commands_messages(first.push(then), magic) == relay::commands_messages(first, magic)
            + relay::command_messages(then, magic),
        relay::commands_messages(Seq::empty(), magic).len() == 0,
{
    assert(first.push(then).drop_last() =~= first);
}

/// An announcement or a refusal of one entry is read as that entry.
pub proof fn single_entries_are_read_back(
    label: Seq<char>,
    msg_type: MessageType,
    entry: InvEntry,
    magic: Seq<u8>,
    res: Result<Seq<InvEntry>, Seq<char>>,
)
    requires
        wire::inventory_parsed(
            label,
            relay::inventory_message(msg_type, seq![entry], magic).payload,
            res,
        ),
    ensures
        res == Ok::<Seq<InvEntry>, Seq<char>>(seq![entry]),
        relay::inventory_message(msg_type, seq![entry], magic).msg_type == msg_type,
        relay::inventory_message(msg_type, seq![entry], magic).magic == magic,
{
    let p = wire::inventory_payload(seq![entry]);
    assert(p + Seq::<u8>::empty() =~= p);
    wire_laws::inventory_round_trip(label, seq![entry], Seq::empty(), res);
}

/// A counter goes up by one, and an answer is counted as queued or as dropped under its own kind;
/// transactions are not counted.
pub proof fn answers_are_counted_once(before: RelaySnapshot, kind: ReplyKind, queued: bool)
    requires
        before.block_served < u64::MAX,
        before.block_dropped < u64::MAX,
        before.notfound_served < u64::MAX,
        before.notfound_dropped < u64::MAX,
    ensures
        ({
            let after = relay::reply_counted(before, kind, queued);
            let one = |counted: bool| -> int {
                if counted {
                    1
                } else {
                    0
                }
            };
            &&& after.block_served == before.block_served + one(kind == ReplyKind::Block && queued)
            &&& after.block_dropped == before.block_dropped + one(
                kind == ReplyKind::Block && !queued,
            )
            &&& after.notfound_served == before.notfound_served + one(
                kind == ReplyKind::NotFound && queued,
            )
            &&& after.notfound_dropped == before.notfound_dropped + one(
                kind == ReplyKind::NotFound && !queued,
            )
            &&& after.getdata_entries == before.getdata_entries
            &&& after.blocks_applied == before.blocks_applied
            &&& after.blocks_rejected_scored == before.blocks_rejected_scored
            &&& after.blocks_rejected_unscored == before.blocks_rejected_unscored
        }),
        stats::bumped(before.block_served) == before.block_served + 1,
        stats::bumped(u64::MAX) == 0,
{
}

/// All entries of a request are counted, and none of one that cannot be read.
pub proof fn requested_entries_are_counted(
    before: RelaySnapshot,
    result: Result<Seq<InvEntry>, Seq<char>>,
)
    requires
        result is Ok ==> before.getdata_entries + result->Ok_0.len() <= u64::MAX,
    ensures
        relay::requests_counted(before, result).getdata_entries == before.getdata_entries + (
        if result is Ok {
            result->Ok_0.len() as int
        } else {
            0
        }),
        relay::requests_counted(before, result).block_served == before.block_served,
        relay::requests_counted(before, result).notfound_served == before.notfound_served,
{
}

/// Messages are listed one for one.
pub proof fn messages_are_listed_one_for_one(messages: Seq<wire::Message>, i: int)
    requires
        0 <= i < messages.len(),
    ensures
        relay::messages_view(messages).len() == messages.len(),
        relay::messages_view(messages)[i] == (MessageView {
            msg_type: messages[i].msg_type,
            payload: messages[i].payload@,
            magic: messages[i].magic@,
        }),
{
}

/// What is asked for is served where it is here: a block as the chain has it, and a transaction as
/// the pool has it under that hash, to the byte. What is not here is said not to be found, by its
/// own entry.
pub proof fn what_is_here_is_served(
    reply: Reply,
    entry: InvEntry,
    block: Option<Seq<u8>>,
    pool: Seq<EntryView>,
    magic: Seq<u8>,
    i: int,
)
    requires
        relay::answered_with(reply, entry, block, pool, magic),
        mempool::pool_ok(pool),
    ensures
        entry.inv_type == InvType::Block && block is Some ==> reply.kind == ReplyKind::Block
            && reply.message.msg_type == MessageType::Block && reply.message.payload@ == block->0,
        entry.inv_type == InvType::Tx && 0 <= i < pool.len() && pool[i].tx_hash == entry.hash
            ==> reply.kind == ReplyKind::Tx && reply.message.msg_type == MessageType::Tx
            && reply.message.payload@ == pool[i].tx.encoded,
        entry.inv_type == InvType::Block && block is None ==> reply.kind == ReplyKind::NotFound,
        entry.inv_type == InvType::Tx && (forall|k: int|
            0 <= k < pool.len() ==> (#[trigger] pool[k]).tx_hash != entry.hash) ==> reply.kind
            == ReplyKind::NotFound,
        reply.kind == ReplyKind::NotFound ==> reply.message.msg_type == MessageType::NotFound
            && reply.message.payload@ == wire::inventory_payload(seq![entry]),
        reply.message.magic@ == magic,
{
    if entry.inv_type == InvType::Tx && 0 <= i < pool.len() && pool[i].tx_hash == entry.hash {
        assert(mempool::has_hash(pool, entry.hash));
        let k = choose|k: int|
            0 <= k < pool.len() && (#[trigger] pool[k]).tx_hash == entry.hash && pool[k].tx.encoded
                == reply.message@.payload;
        if k < i {
            assert(pool[k].tx_hash != pool[i].tx_hash);
        } else if i < k {
            assert(pool[i].tx_hash != pool[k].tx_hash);
        }
    }
}

/// A request of a peer is acted upon as far as its inventory is, and counted with all its entries,
/// the counter starting anew after its end; one that cannot be read is not counted.
pub proof fn requests_are_followed_and_counted(
    before: PeersView,
    after: PeersView,
    counts_before: RelaySnapshot,
    counts_after: RelaySnapshot,
    addr: SocketAddr,
    payload: Seq<u8>,
    now: Instant,
    entries: Seq<InvEntry>,
)
    requires
        relay::request_followed(
            before,
            after,
            counts_before,
            counts_after,
            addr,
            payload,
            now,
            entries,
        ),
    ensures
        exists|result: Result<Seq<InvEntry>, Seq<char>>|
            {
                &&& #[trigger] wire::inventory_parsed("getdata"@, payload, result)
                &&& result is Ok ==> (counts_after.getdata_entries - counts_before.getdata_entries
                    - result->Ok_0.len()) % 0x1_0000_0000_0000_0000 == 0 && entries.len()
                    <= result->Ok_0.len()
                &&& result is Err ==> counts_after == counts_before && entries.len() == 0
            },
        counts_after.block_served == counts_before.block_served,
        counts_after.blocks_applied == counts_before.blocks_applied,
{
    let result = choose|result: Result<Seq<InvEntry>, Seq<char>>|
        #[trigger] relay::inventory_followed(
            "getdata"@,
            payload,
            before,
            after,
            addr,
            now,
            result,
            entries,
        ) && counts_after == relay::requests_counted(counts_before, result);
    assert(wire::inventory_parsed("getdata"@, payload, result));
}

} // verus!
