//! Asking for, announcing and serving blocks and transactions.

use crate::addr::SocketAddr;
use crate::hash::Hash32;
use crate::mempool;
use crate::mempool::{EntryView, Mempool};
use crate::peer;
use crate::peer::{PeerFilter, PeerManager, SCORE_MALFORMED};
use crate::stats;
use crate::stats::{RelaySnapshot, RelayStats};
use crate::sync::{SyncCommand, SyncCommandView, MAX_BLOCKS_PER_REQUEST};
use crate::table;
use crate::time::Instant;
use crate::wire;
use crate::wire::{
    GetDataMessage, GetHeadersMessage, InvEntry, InvMessage, InvType, Message, MessageType,
    MessageView, MAX_INV_ENTRIES, MAX_INV_FOLLOW,
};
use crate::wire_laws;
use vstd::prelude::*;

verus! {

/// The contents of a list of messages.
pub open spec fn messages_view(messages: Seq<Message>) -> Seq<MessageView> {
    messages.map_values(|m: Message| m@)
}

/// A message that holds an inventory.
pub open spec fn inventory_message(
    msg_type: MessageType,
    inventory: Seq<InvEntry>,
    magic: Seq<u8>,
) -> MessageView {
    MessageView { msg_type, payload: wire::inventory_payload(inventory), magic }
}

/// The entries of the given type for the hashes.
pub open spec fn entries_for(inv_type: InvType, hashes: Seq<Hash32>) -> Seq<InvEntry> {
    hashes.map_values(|hash: Hash32| InvEntry { inv_type, hash })
}

/// The request for the blocks with the given hashes.
pub open spec fn block_request(hashes: Seq<Hash32>, magic: Seq<u8>) -> MessageView {
    inventory_message(MessageType::GetData, entries_for(InvType::Block, hashes), magic)
}

/// The requests for the blocks with the given hashes, so many to a request.
pub open spec fn block_requests(hashes: Seq<Hash32>, magic: Seq<u8>) -> Seq<MessageView>
    decreases hashes.len(),
{
    if hashes.len() == 0 {
        Seq::empty()
    } else if hashes.len() <= MAX_BLOCKS_PER_REQUEST {
        seq![block_request(hashes, magic)]
    } else {
        seq![block_request(hashes.take(MAX_BLOCKS_PER_REQUEST as int), magic)] + block_requests(
            hashes.skip(MAX_BLOCKS_PER_REQUEST as int),
            magic,
        )
    }
}

/// The messages that carry out what the syncer asks for.
pub open spec fn command_messages(
    command: SyncCommandView,
    magic: Seq<u8>,
) -> Seq<MessageView> {
    match command {
        SyncCommandView::GetHeaders(from) => seq![
            MessageView {
                msg_type: MessageType::GetHeaders,
                payload: from.0@ + Seq::new(32, |i: int| 0u8),
                magic,
            },
        ],
        SyncCommandView::RequestBlocksFrom(from) => seq![block_request(seq![from], magic)],
        SyncCommandView::GetBlocks(hashes) => block_requests(hashes, magic),
        SyncCommandView::SyncComplete => Seq::empty(),
    }
}

/// The messages that carry out several requests of the syncer.
pub open spec fn commands_messages(
    commands: Seq<SyncCommandView>,
    magic: Seq<u8>,
) -> Seq<MessageView>
    decreases commands.len(),
{
    if commands.len() == 0 {
        Seq::empty()
    } else {
        commands_messages(commands.drop_last(), magic) + command_messages(commands.last(), magic)
    }
}

/// The request for all headers after the block with the given hash.
pub fn header_request(request: &GetHeadersMessage, magic: [u8; 4]) -> (msg: Message)
    ensures
        msg@ == (MessageView {
            msg_type: MessageType::GetHeaders,
            payload: request.payload(),
            magic: magic@,
        }),
{
    Message::with_magic(MessageType::GetHeaders, request.encode(), magic)
}

fn headers_after(from: Hash32, magic: [u8; 4]) -> (msg: Message)
    ensures
        msg@ == (MessageView {
            msg_type: MessageType::GetHeaders,
            payload: from.0@ + Seq::new(32, |i: int| 0u8),
            magic: magic@,
        }),
{
    let request = GetHeadersMessage { start_hash: from, stop_hash: Hash32::zero() };
    assert(request.stop_hash.0@ =~= Seq::new(32, |i: int| 0u8));
    header_request(&request, magic)
}

/// The request for the blocks with the given hashes.
pub fn request_blocks(hashes: &[Hash32], magic: [u8; 4]) -> (msg: Message)
    ensures
        msg@ == block_request(hashes@, magic@),
{
    let inventory: Vec<InvEntry> = make_entries(InvType::Block, hashes);
    Message::with_magic(MessageType::GetData, GetDataMessage { inventory }.encode(), magic)
}

fn make_entries(inv_type: InvType, hashes: &[Hash32]) -> (inventory: Vec<InvEntry>)
    ensures
        inventory@ == entries_for(inv_type, hashes@),
{
    let mut inventory: Vec<InvEntry> = Vec::new();
    let mut i: usize = 0;
    while i < hashes.len()
        invariant
            i <= hashes@.len(),
            inventory@.len() == i,
            forall|k: int|
                0 <= k < i ==> (#[trigger] inventory@[k]) == (InvEntry { inv_type, hash: hashes@[k] }),
        decreases hashes.len() - i,
    {
        inventory.push(InvEntry { inv_type, hash: hashes[i] });
        i += 1;
    }
    assert(inventory@ =~= entries_for(inv_type, hashes@));
    inventory
}

/// The messages that carry out what the syncer asks for. Blocks are asked for in batches.
pub fn execute_sync_command(command: &SyncCommand, magic: [u8; 4]) -> (messages: Vec<Message>)
    ensures
        messages_view(messages@) == command_messages(command@, magic@),
{
    let mut messages: Vec<Message> = Vec::new();
    match command {
        SyncCommand::GetHeaders(from) => {
            messages.push(headers_after(*from, magic));
        },
        SyncCommand::RequestBlocksFrom(from) => {
            let hashes: [Hash32; 1] = [*from];
            messages.push(request_blocks(&hashes, magic));
            assert(hashes@ =~= seq![*from]);
        },
        SyncCommand::GetBlocks(hashes) => {
            let all: &[Hash32] = hashes.as_slice();
            let mut pos: usize = 0;
            assert(all@.skip(0) =~= all@);
            assert(messages_view(messages@) + block_requests(all@, magic@) =~= block_requests(
                all@,
                magic@,
            ));
            while pos < all.len()
                invariant
                    pos <= all@.len(),
                    messages_view(messages@) + block_requests(all@.skip(pos as int), magic@)
                        == block_requests(all@, magic@),
                decreases all.len() - pos,
            {
                let ghost before = messages_view(messages@);
                let ghost rest = all@.skip(pos as int);
                let end: usize = if all.len() - pos > MAX_BLOCKS_PER_REQUEST {
                    pos + MAX_BLOCKS_PER_REQUEST
                } else {
                    all.len()
                };
                let chunk: &[Hash32] = vstd::slice::slice_subrange(all, pos, end);
                messages.push(request_blocks(chunk, magic));
                proof {
                    let next = all@.skip(end as int);
                    assert(messages_view(messages@) =~= before.push(block_request(chunk@, magic@)));
                    if rest.len() > MAX_BLOCKS_PER_REQUEST {
                        assert(chunk@ =~= rest.take(MAX_BLOCKS_PER_REQUEST as int));
                        assert(next =~= rest.skip(MAX_BLOCKS_PER_REQUEST as int));
                    } else {
                        assert(chunk@ =~= rest);
                        assert(next.len() == 0);
                    }
                    assert(messages_view(messages@) + block_requests(next, magic@) =~= before
                        + block_requests(rest, magic@));
                }
                pos = end;
            }
            assert(block_requests(all@.skip(pos as int), magic@) =~= Seq::empty());
            assert(messages_view(messages@) =~= block_requests(all@, magic@));
        },
        SyncCommand::SyncComplete => {},
    }
    assert(messages_view(messages@) =~= command_messages(command@, magic@));
    messages
}

/// The messages that carry out several requests of the syncer, one after the other.
pub fn execute_sync_commands(commands: &Vec<SyncCommand>, magic: [u8; 4]) -> (messages: Vec<
    Message,
>)
    ensures
        messages_view(messages@) == commands_messages(
            commands@.map_values(|c: SyncCommand| c@),
            magic@,
        ),
{
    let ghost views = commands@.map_values(|c: SyncCommand| c@);
    let mut messages: Vec<Message> = Vec::new();
    let mut i: usize = 0;
    assert(messages_view(messages@) =~= commands_messages(views.take(0), magic@));
    while i < commands.len()
        invariant
            i <= commands@.len(),
            views == commands@.map_values(|c: SyncCommand| c@),
            messages_view(messages@) == commands_messages(views.take(i as int), magic@),
        decreases commands.len() - i,
    {
        let ghost before = messages_view(messages@);
        let mut more: Vec<Message> = execute_sync_command(&commands[i], magic);
        let ghost added = messages_view(more@);
        messages.append(&mut more);
        proof {
            assert(messages_view(messages@) =~= before + added);
            assert(views.take(i + 1).drop_last() =~= views.take(i as int));
        }
        i += 1;
    }
    assert(views.take(i as int) =~= views);
    messages
}

/// The announcement of one block or transaction, for mainnet until it is sent.
pub fn announce(inv_type: InvType, hash: Hash32) -> (msg: Message)
    ensures
        msg@ == inventory_message(
            MessageType::Inv,
            seq![InvEntry { inv_type, hash }],
            wire::MAGIC@,
        ),
{
    Message::new(MessageType::Inv, one_entry(InvEntry { inv_type, hash }).encode())
}

fn one_entry(entry: InvEntry) -> (msg: InvMessage)
    ensures
        msg@ == seq![entry],
{
    let mut inventory: Vec<InvEntry> = Vec::new();
    inventory.push(entry);
    assert(inventory@ =~= seq![entry]);
    InvMessage { inventory }
}

/// The reply that an entry is not there.
pub fn not_found(entry: InvEntry, magic: [u8; 4]) -> (msg: Message)
    ensures
        msg@ == inventory_message(MessageType::NotFound, seq![entry], magic@),
{
    Message::with_magic(MessageType::NotFound, one_entry(entry).encode(), magic)
}

/// The message as it goes out on the network with the given magic bytes.
pub fn outgoing(msg: Message, magic: [u8; 4]) -> (out: Message)
    ensures
        out@ == (MessageView { magic: magic@, ..msg@ }),
{
    let mut out = msg;
    out.magic = magic;
    out
}

/// The addresses that a relayed message goes to: the ready peers with a channel, in no
/// particular order.
pub fn broadcast_targets(pm: &PeerManager, now: Instant) -> (addrs: Vec<SocketAddr>)
    requires
        pm.wf(),
    ensures
        table::enumerates(
            addrs@,
            pm@.select(PeerFilter::Usable(now)).intersect(pm@.channels.dom()),
        ),
{
    let ready: Vec<SocketAddr> = pm.peers_for_announcement(now);
    let mut addrs: Vec<SocketAddr> = Vec::new();
    let ghost channels = pm@.channels.dom();
    let mut i: usize = 0;
    while i < ready.len()
        invariant
            pm.wf(),
            i <= ready@.len(),
            channels == pm@.channels.dom(),
            ready@.no_duplicates(),
            addrs@.no_duplicates(),
            forall|a: SocketAddr| #[trigger]
                addrs@.contains(a) <==> ready@.take(i as int).contains(a) && channels.contains(a),
        decreases ready.len() - i,
    {
        let addr: SocketAddr = ready[i];
        let ghost was = addrs@;
        let ghost seen = ready@.take(i as int);
        let ghost now_seen = ready@.take(i + 1);
        proof {
            assert(now_seen =~= seen.push(addr));
            assert forall|a: SocketAddr| now_seen.contains(a) <==> seen.contains(a) || a == addr by {
                lemma_push_contains(seen, addr, a);
            }
            assert(!seen.contains(addr)) by {
                if seen.contains(addr) {
                    let j = choose|j: int| 0 <= j < seen.len() && seen[j] == addr;
                    assert(ready@[j] == ready@[i as int]);
                }
            }
        }
        if pm.get_channel(&addr).is_some() {
            addrs.push(addr);
            proof {
                assert(!was.contains(addr));
                assert forall|a: SocketAddr| #[trigger] addrs@.contains(a) <==> was.contains(a) || a
                    == addr by {
                    lemma_push_contains(was, addr, a);
                }
            }
        }
        i += 1;
    }
    proof {
        assert(ready@.take(i as int) =~= ready@);
        let wanted = pm@.select(PeerFilter::Usable(now)).intersect(channels);
        assert forall|a: SocketAddr| addrs@.to_set().contains(a) <==> wanted.contains(a) by {
            assert(ready@.to_set().contains(a) <==> ready@.contains(a));
        }
        assert(addrs@.to_set() =~= wanted);
    }
    addrs
}

proof fn lemma_push_contains(s: Seq<SocketAddr>, x: SocketAddr, a: SocketAddr)
    ensures
        s.push(x).contains(a) <==> s.contains(a) || a == x,
{
    if s.contains(a) {
        let i = choose|i: int| 0 <= i < s.len() && s[i] == a;
        assert(s.push(x)[i] == a);
    }
    if a == x {
        assert(s.push(x)[s.len() as int] == a);
    }
}

/// The first entries of an inventory, as far as they are acted upon.
pub open spec fn followed(inventory: Seq<InvEntry>) -> Seq<InvEntry> {
    if inventory.len() > MAX_INV_FOLLOW {
        inventory.take(MAX_INV_FOLLOW as int)
    } else {
        inventory
    }
}

/// What an inventory of a peer leads to: one that cannot be decoded costs its sender and
/// nothing is acted upon; one that is too long costs its sender and its start is acted upon.
pub open spec fn inventory_followed(
    label: Seq<char>,
    payload: Seq<u8>,
    before: peer::PeersView,
    after: peer::PeersView,
    addr: SocketAddr,
    now: Instant,
    result: Result<Seq<InvEntry>, Seq<char>>,
    entries: Seq<InvEntry>,
) -> bool {
    &&& wire::inventory_parsed(label, payload, result)
    &&& match result {
        Err(_) => entries == Seq::<InvEntry>::empty() && peer::struck_and_mirrored(
            before,
            after,
            addr,
            SCORE_MALFORMED,
            now,
        ),
        Ok(inventory) => {
            &&& entries == followed(inventory)
            &&& if inventory.len() > MAX_INV_FOLLOW {
                peer::struck_and_mirrored(before, after, addr, SCORE_MALFORMED, now)
            } else {
                after == before
            }
        },
    }
}

fn follow(
    pm: &mut PeerManager,
    addr: &SocketAddr,
    inventory: Vec<InvEntry>,
    now: Instant,
) -> (entries: Vec<InvEntry>)
    requires
        old(pm).wf(),
        peer::clock_fits(now),
    ensures
        final(pm).wf(),
        entries@ == followed(inventory@),
        if inventory@.len() > MAX_INV_FOLLOW {
            peer::struck_and_mirrored(old(pm)@, final(pm)@, *addr, SCORE_MALFORMED, now)
        } else {
            final(pm)@ == old(pm)@
        },
{
    let mut entries = inventory;
    if entries.len() > MAX_INV_FOLLOW {
        pm.note_invalid_object(addr, SCORE_MALFORMED, now);
        entries.truncate(MAX_INV_FOLLOW);
        assert(entries@ =~= inventory@.take(MAX_INV_FOLLOW as int));
    }
    entries
}

/// What an announcement of a peer leads to; see `inventory_followed`.
pub open spec fn announcement_followed(
    before: peer::PeersView,
    after: peer::PeersView,
    addr: SocketAddr,
    payload: Seq<u8>,
    now: Instant,
    entries: Seq<InvEntry>,
) -> bool {
    exists|result: Result<Seq<InvEntry>, Seq<char>>| #[trigger]
        inventory_followed("inv"@, payload, before, after, addr, now, result, entries)
}

/// What a request of a peer leads to; see `inventory_followed`. All entries of the request are
/// counted.
pub open spec fn request_followed(
    before: peer::PeersView,
    after: peer::PeersView,
    counts_before: RelaySnapshot,
    counts_after: RelaySnapshot,
    addr: SocketAddr,
    payload: Seq<u8>,
    now: Instant,
    entries: Seq<InvEntry>,
) -> bool {
    exists|result: Result<Seq<InvEntry>, Seq<char>>|
        #[trigger] inventory_followed(
            "getdata"@,
            payload,
            before,
            after,
            addr,
            now,
            result,
            entries,
        ) && counts_after == requests_counted(counts_before, result)
}

/// Takes an announcement of a peer: the entries to look up.
pub fn on_inv(pm: &mut PeerManager, addr: &SocketAddr, payload: &[u8], now: Instant) -> (entries:
    Vec<InvEntry>)
    requires
        old(pm).wf(),
        peer::clock_fits(now),
    ensures
        final(pm).wf(),
        announcement_followed(old(pm)@, final(pm)@, *addr, payload@, now, entries@),
{
    let decoded = InvMessage::decode(payload);
    let ghost result = wire::inventory_result(decoded);
    let entries: Vec<InvEntry> = match decoded {
        Ok(inv) => follow(pm, addr, inv.inventory, now),
        Err(_) => {
            pm.note_invalid_object(addr, SCORE_MALFORMED, now);
            Vec::new()
        },
    };
    assert(inventory_followed(
        "inv"@,
        payload@,
        old(pm)@,
        pm@,
        *addr,
        now,
        result,
        entries@,
    ));
    entries
}

/// Whether an announced entry is missing here: a block that the chain does not have or a
/// transaction that the pool does not have.
pub open spec fn missing(entry: InvEntry, have_block: bool, pool: Seq<EntryView>) -> bool {
    match entry.inv_type {
        InvType::Block => !have_block,
        InvType::Tx => !mempool::has_hash(pool, entry.hash),
    }
}

/// The entries that are missing, in their order.
pub open spec fn missing_entries(
    entries: Seq<InvEntry>,
    have_blocks: Seq<bool>,
    pool: Seq<EntryView>,
) -> Seq<InvEntry>
    decreases entries.len(),
{
    if entries.len() == 0 {
        Seq::empty()
    } else {
        let front = missing_entries(entries.drop_last(), have_blocks, pool);
        if missing(entries.last(), have_blocks[entries.len() - 1], pool) {
            front.push(entries.last())
        } else {
            front
        }
    }
}

/// The request for the announced entries that are missing here, if there are any.
/// `have_blocks` says of each entry whether the chain has a block with its hash.
pub fn request_missing(
    entries: &Vec<InvEntry>,
    have_blocks: &Vec<bool>,
    pool: &Mempool,
    magic: [u8; 4],
) -> (request: Option<Message>)
    requires
        have_blocks@.len() == entries@.len(),
    ensures
        ({
            let wanted = missing_entries(entries@, have_blocks@, pool@);
            if wanted.len() == 0 {
                request is None
            } else {
                request matches Some(msg) && msg@ == inventory_message(
                    MessageType::GetData,
                    wanted,
                    magic@,
                )
            }
        }),
{
    let mut inventory: Vec<InvEntry> = Vec::new();
    let mut i: usize = 0;
    assert(entries@.take(0) =~= Seq::empty());
    while i < entries.len()
        invariant
            have_blocks@.len() == entries@.len(),
            i <= entries@.len(),
            inventory@ == missing_entries(entries@.take(i as int), have_blocks@, pool@),
        decreases entries.len() - i,
    {
        let entry: InvEntry = entries[i];
        assert(entries@.take(i + 1).drop_last() =~= entries@.take(i as int));
        let have: bool = match entry.inv_type {
            InvType::Block => have_blocks[i],
            InvType::Tx => pool.has_transaction(&entry.hash),
        };
        if !have {
            inventory.push(entry);
        }
        i += 1;
    }
    assert(entries@.take(i as int) =~= entries@);
    if inventory.len() == 0 {
        return None;
    }
    Some(Message::with_magic(MessageType::GetData, GetDataMessage { inventory }.encode(), magic))
}

/// Takes a request of a peer: the entries to serve. All entries of the request are counted.
pub fn on_getdata(
    pm: &mut PeerManager,
    stats: &mut RelayStats,
    addr: &SocketAddr,
    payload: &[u8],
    now: Instant,
) -> (entries: Vec<InvEntry>)
    requires
        old(pm).wf(),
        peer::clock_fits(now),
    ensures
        final(pm).wf(),
        request_followed(
            old(pm)@,
            final(pm)@,
            old(stats)@,
            final(stats)@,
            *addr,
            payload@,
            now,
            entries@,
        ),
{
    let decoded = GetDataMessage::decode(payload);
    let ghost result = wire::inventory_result(decoded);
    let entries: Vec<InvEntry> = match decoded {
        Ok(request) => {
            let n: u64 = request.inventory.len() as u64;
            let entries: Vec<InvEntry> = follow(pm, addr, request.inventory, now);
            stats.getdata_entries = if n > u64::MAX - stats.getdata_entries {
                n - (u64::MAX - stats.getdata_entries) - 1
            } else {
                stats.getdata_entries + n
            };
            entries
        },
        Err(_) => {
            pm.note_invalid_object(addr, SCORE_MALFORMED, now);
            Vec::new()
        },
    };
    assert(inventory_followed(
        "getdata"@,
        payload@,
        old(pm)@,
        pm@,
        *addr,
        now,
        result,
        entries@,
    ));
    entries
}

/// The counters after a request was counted.
pub open spec fn requests_counted(
    before: RelaySnapshot,
    result: Result<Seq<InvEntry>, Seq<char>>,
) -> RelaySnapshot {
    match result {
        Ok(inventory) => RelaySnapshot {
            getdata_entries: ((before.getdata_entries + inventory.len()) % (u64::MAX + 1)) as u64,
            ..before
        },
        Err(_) => before,
    }
}

/// What a requested entry is answered with.
#[derive(Clone, Copy, Debug, PartialEq, Eq, Structural)]
pub enum ReplyKind {
    Block,
    Tx,
    NotFound,
}

/// What a requested entry is answered with.
pub struct Reply {
    pub kind: ReplyKind,
    pub message: Message,
}

/// What an entry is answered with: the block or the transaction with its hash, or that it is not
/// found.
pub open spec fn answered_with(
    reply: Reply,
    entry: InvEntry,
    block: Option<Seq<u8>>,
    pool: Seq<EntryView>,
    magic: Seq<u8>,
) -> bool {
    let there = match entry.inv_type {
        InvType::Block => block is Some,
        InvType::Tx => mempool::has_hash(pool, entry.hash),
    };
    &&& reply.message@.magic == magic
    &&& if !there {
        &&& reply.kind == ReplyKind::NotFound
        &&& reply.message@ == inventory_message(MessageType::NotFound, seq![entry], magic)
    } else {
        match entry.inv_type {
            InvType::Block => {
                &&& reply.kind == ReplyKind::Block
                &&& reply.message@.msg_type == MessageType::Block
                &&& reply.message@.payload == block->0
            },
            InvType::Tx => {
                &&& reply.kind == ReplyKind::Tx
                &&& reply.message@.msg_type == MessageType::Tx
                &&& exists|i: int|
                    0 <= i < pool.len() && (#[trigger] pool[i]).tx_hash == entry.hash
                        && pool[i].tx.encoded == reply.message@.payload
            },
        }
    }
}

/// The answer to a requested entry. `block` is the encoding of the block with the entry's
/// hash, if the chain has it.
pub fn serve(entry: InvEntry, block: Option<Vec<u8>>, pool: &Mempool, magic: [u8; 4]) -> (reply:
    Reply)
    ensures
        match entry.inv_type {
            InvType::Block => match block {
                Some(encoded) => reply.kind == ReplyKind::Block && reply.message@ == (MessageView {
                    msg_type: MessageType::Block,
                    payload: encoded@,
                    magic: magic@,
                }),
                None => reply.kind == ReplyKind::NotFound && reply.message@ == inventory_message(
                    MessageType::NotFound,
                    seq![entry],
                    magic@,
                ),
            },
            InvType::Tx => if mempool::has_hash(pool@, entry.hash) {
                &&& reply.kind == ReplyKind::Tx
                &&& reply.message.msg_type == MessageType::Tx
                &&& reply.message.magic == magic
                &&& exists|i: int|
                    0 <= i < pool@.len() && (#[trigger] pool@[i]).tx_hash == entry.hash
                        && pool@[i].tx.encoded == reply.message.payload@
            } else {
                reply.kind == ReplyKind::NotFound && reply.message@ == inventory_message(
                    MessageType::NotFound,
                    seq![entry],
                    magic@,
                )
            },
        },
        answered_with(
            reply,
            entry,
            match block {
                Some(encoded) => Some(encoded@),
                None => None,
            },
            pool@,
            magic@,
        ),
{
    match entry.inv_type {
        InvType::Block => match block {
            Some(encoded) => Reply {
                kind: ReplyKind::Block,
                message: Message::with_magic(MessageType::Block, encoded, magic),
            },
            None => Reply { kind: ReplyKind::NotFound, message: not_found(entry, magic) },
        },
        InvType::Tx => match pool.get_transaction(&entry.hash) {
            Some(tx) => Reply {
                kind: ReplyKind::Tx,
                message: Message::with_magic(
                    MessageType::Tx,
                    vstd::slice::slice_to_vec(tx.encoded.as_slice()),
                    magic,
                ),
            },
            None => Reply { kind: ReplyKind::NotFound, message: not_found(entry, magic) },
        },
    }
}

/// The counters after an answer was queued or dropped.
pub open spec fn reply_counted(
    before: RelaySnapshot,
    kind: ReplyKind,
    queued: bool,
) -> RelaySnapshot {
    match (kind, queued) {
        (ReplyKind::Block, true) => RelaySnapshot {
            block_served: stats::bumped(before.block_served),
            ..before
        },
        (ReplyKind::Block, false) => RelaySnapshot {
            block_dropped: stats::bumped(before.block_dropped),
            ..before
        },
        (ReplyKind::NotFound, true) => RelaySnapshot {
            notfound_served: stats::bumped(before.notfound_served),
            ..before
        },
        (ReplyKind::NotFound, false) => RelaySnapshot {
            notfound_dropped: stats::bumped(before.notfound_dropped),
            ..before
        },
        (ReplyKind::Tx, _) => before,
    }
}

/// Counts an answer as queued or as dropped.
pub fn note_reply(stats: &mut RelayStats, kind: ReplyKind, queued: bool)
    ensures
        final(stats)@ == reply_counted(old(stats)@, kind, queued),
{
    match kind {
        ReplyKind::Block => {
            RelayStats::note_write(&mut stats.block_served, &mut stats.block_dropped, queued);
        },
        ReplyKind::NotFound => {
            RelayStats::note_write(&mut stats.notfound_served, &mut stats.notfound_dropped, queued);
        },
        ReplyKind::Tx => {},
    }
}

/// The hashes, so many to a part.
pub open spec fn request_parts(hashes: Seq<Hash32>) -> Seq<Seq<Hash32>>
    decreases hashes.len(),
{
    if hashes.len() == 0 {
        Seq::empty()
    } else if hashes.len() <= MAX_BLOCKS_PER_REQUEST {
        seq![hashes]
    } else {
        seq![hashes.take(MAX_BLOCKS_PER_REQUEST as int)] + request_parts(
            hashes.skip(MAX_BLOCKS_PER_REQUEST as int),
        )
    }
}

/// However many blocks are asked for, no request names more than the limit or none, and
/// together the requests name each block once, in order.
pub proof fn requests_are_bounded(hashes: Seq<Hash32>, magic: Seq<u8>)
    ensures
        block_requests(hashes, magic) == request_parts(hashes).map_values(
            |part: Seq<Hash32>| block_request(part, magic),
        ),
        request_parts(hashes).flatten() == hashes,
        forall|i: int|
            0 <= i < request_parts(hashes).len() ==> 0 < (#[trigger] request_parts(hashes)[i]).len()
                <= MAX_BLOCKS_PER_REQUEST,
    decreases hashes.len(),
{
    let parts = request_parts(hashes);
    if hashes.len() == 0 {
    } else if hashes.len() <= MAX_BLOCKS_PER_REQUEST {
        assert(parts.drop_first() =~= Seq::empty());
        assert(Seq::<Seq<Hash32>>::empty().flatten() =~= Seq::<Hash32>::empty());
        assert(parts.flatten() == hashes + Seq::<Hash32>::empty());
    } else {
        let first = hashes.take(MAX_BLOCKS_PER_REQUEST as int);
        let rest = hashes.skip(MAX_BLOCKS_PER_REQUEST as int);
        requests_are_bounded(rest, magic);
        assert(parts.drop_first() =~= request_parts(rest));
        assert(first + rest =~= hashes);
        assert forall|i: int| 0 <= i < parts.len() implies 0 < (#[trigger] parts[i]).len()
            <= MAX_BLOCKS_PER_REQUEST by {
            if i > 0 {
                assert(parts[i] == request_parts(rest)[i - 1]);
            }
        }
    }
    assert(block_requests(hashes, magic) =~= parts.map_values(
        |part: Seq<Hash32>| block_request(part, magic),
    ));
}

/// Work on one inventory is bounded: never more than the limit of entries is acted upon.
pub proof fn follow_up_is_bounded(inventory: Seq<InvEntry>)
    ensures
        followed(inventory).len() <= MAX_INV_FOLLOW,
        inventory.len() <= MAX_INV_FOLLOW ==> followed(inventory) == inventory,
{
}

/// A peer that decodes the request for missing entries sees exactly those entries.
pub proof fn request_says_what_is_missing(
    entries: Seq<InvEntry>,
    have_blocks: Seq<bool>,
    pool: Seq<EntryView>,
    magic: Seq<u8>,
    res: Result<Seq<InvEntry>, Seq<char>>,
)
    requires
        entries.len() <= MAX_INV_ENTRIES,
        wire::inventory_parsed(
            "getdata"@,
            inventory_message(
                MessageType::GetData,
                missing_entries(entries, have_blocks, pool),
                magic,
            ).payload,
            res,
        ),
    ensures
        res == Ok::<Seq<InvEntry>, Seq<char>>(missing_entries(entries, have_blocks, pool)),
{
    let wanted = missing_entries(entries, have_blocks, pool);
    lemma_missing_len(entries, have_blocks, pool);
    assert(wire::inventory_payload(wanted) + Seq::<u8>::empty() =~= wire::inventory_payload(wanted));
    wire_laws::inventory_round_trip("getdata"@, wanted, Seq::empty(), res);
}

proof fn lemma_missing_len(entries: Seq<InvEntry>, have_blocks: Seq<bool>, pool: Seq<EntryView>)
    ensures
        missing_entries(entries, have_blocks, pool).len() <= entries.len(),
    decreases entries.len(),
{
    if entries.len() > 0 {
        lemma_missing_len(entries.drop_last(), have_blocks, pool);
    }
}

} // verus!
