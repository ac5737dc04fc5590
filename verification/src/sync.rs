//! Header and block synchronisation with one peer at a time.

use crate::addr::SocketAddr;
use crate::hash::Hash32;
use crate::sync_requests;
use crate::time::{Instant, NANOS_PER_SEC};
use crate::wire::{GetDataMessage, GetHeadersMessage, InvEntry, InvType};
use std::collections::BTreeMap;
use vstd::prelude::*;

verus! {

broadcast use {vstd::std_specs::btree::group_btree_axioms, vstd::laws_cmp::group_laws_cmp};

pub const MAX_HEADERS_PER_RESPONSE: usize = 2000;

pub const MAX_BLOCKS_PER_REQUEST: usize = 500;

/// Most headers buffered across batches. Bounds memory when a peer sends many batches
/// that are valid one by one; what goes beyond is ignored.
pub const MAX_PENDING_HEADERS: usize = 10_000;

/// Most entries to which batches may bring the known headers. A batch that would lead beyond is
/// ignored, until blocks are applied or the sync attempt resets. It does not bound headers that
/// were validated: those are recorded all the same.
pub const MAX_KNOWN_HEADERS: usize = 100_000;

/// How many blocks behind a peer the node must be to enter initial block download.
pub const IBD_HEIGHT_THRESHOLD: u32 = 144;

/// Consecutive failures after which the sync peer is reported as banned. What it costs a peer is
/// decided by what it sent.
pub const MAX_SYNC_FAILURES: u32 = 5;

/// How long a response is waited for during sync (headers or blocks).
pub const SYNC_RESPONSE_TIMEOUT_SECS: u64 = 30;

/// What the sync reads of a block header: its height, its own hash and its parent's.
#[derive(Clone, Copy, Debug)]
pub struct BlockHeader {
    pub height: u32,
    pub hash: Hash32,
    pub previous_hash: Hash32,
}

#[derive(Clone, Copy, Debug, PartialEq, Eq, Structural)]
pub enum SyncState {
    Idle,
    SyncingHeaders,
    SyncingBlocks,
    CaughtUp,
}

/// What the syncer asks its caller to do.
#[derive(Clone, Debug)]
pub enum SyncCommand {
    GetHeaders(Hash32),
    GetBlocks(Vec<Hash32>),
    SyncComplete,
    RequestBlocksFrom(Hash32),
}

/// The contents of a command.
pub enum SyncCommandView {
    GetHeaders(Hash32),
    GetBlocks(Seq<Hash32>),
    SyncComplete,
    RequestBlocksFrom(Hash32),
}

impl View for SyncCommand {
    type V = SyncCommandView;

    open spec fn view(&self) -> SyncCommandView {
        match self {
            SyncCommand::GetHeaders(hash) => SyncCommandView::GetHeaders(*hash),
            SyncCommand::GetBlocks(hashes) => SyncCommandView::GetBlocks(hashes@),
            SyncCommand::SyncComplete => SyncCommandView::SyncComplete,
            SyncCommand::RequestBlocksFrom(hash) => SyncCommandView::RequestBlocksFrom(*hash),
        }
    }
}

/// The contents of a list of commands.
pub open spec fn commands_view(commands: Seq<SyncCommand>) -> Seq<SyncCommandView> {
    commands.map_values(|c: SyncCommand| c@)
}

pub struct ChainSyncer {
    pub state: SyncState,
    /// Greatest height among the headers that were taken.
    pub best_height: u32,
    pub best_hash: Hash32,
    /// The peer that owns the sync.
    pub sync_peer: Option<SocketAddr>,
    /// Headers that were received but whose blocks are not applied yet.
    pub pending_headers: Vec<BlockHeader>,
    /// Height of the validated tip.
    pub synced_header_height: u32,
    /// Known header hashes by height.
    pub known_headers: BTreeMap<u32, Hash32>,
    /// Blocks that were requested but not received yet.
    pub pending_block_requests: Vec<Hash32>,
    /// Next height to request in sequential sync.
    pub next_height: u32,
    /// When the last sync request was sent.
    pub last_sync_request_time: Option<Instant>,
    /// Failures in a row (invalid blocks, timeouts).
    pub consecutive_sync_failures: u32,
}

/// The state of a syncer.
#[verifier::ext_equal]
pub struct SyncView {
    pub state: SyncState,
    pub best_height: u32,
    pub best_hash: Hash32,
    pub sync_peer: Option<SocketAddr>,
    pub pending_headers: Seq<BlockHeader>,
    pub synced_header_height: u32,
    pub known_headers: Map<u32, Hash32>,
    pub pending_block_requests: Seq<Hash32>,
    pub next_height: u32,
    pub last_sync_request_time: Option<Instant>,
    pub consecutive_sync_failures: u32,
}

impl View for ChainSyncer {
    type V = SyncView;

    open spec fn view(&self) -> SyncView {
        SyncView {
            state: self.state,
            best_height: self.best_height,
            best_hash: self.best_hash,
            sync_peer: self.sync_peer,
            pending_headers: self.pending_headers@,
            synced_header_height: self.synced_header_height,
            known_headers: self.known_headers@,
            pending_block_requests: self.pending_block_requests@,
            next_height: self.next_height,
            last_sync_request_time: self.last_sync_request_time,
            consecutive_sync_failures: self.consecutive_sync_failures,
        }
    }
}

/// The hashes of the known heights from `lo` to `hi`, lowest height first.
pub open spec fn known_range(known: Map<u32, Hash32>, lo: int, hi: int) -> Seq<Hash32>
    decreases hi - lo + 1,
{
    if lo > hi {
        Seq::empty()
    } else {
        let front = known_range(known, lo, hi - 1);
        if known.contains_key(hi as u32) {
            front.push(known[hi as u32])
        } else {
            front
        }
    }
}

/// The hashes of the known heights that a locator visits below `height`: each step goes
/// down by `step`, which doubles until it has passed a thousand, and ends at height zero.
pub open spec fn locator_walk(known: Map<u32, Hash32>, height: nat, step: nat) -> Seq<Hash32>
    decreases height,
{
    if height == 0 || step == 0 {
        Seq::empty()
    } else {
        let next = if height > step {
            (height - step) as nat
        } else {
            0
        };
        let here = if known.contains_key(next as u32) {
            seq![known[next as u32]]
        } else {
            Seq::empty()
        };
        here + locator_walk(
            known,
            next,
            if step < 1000 {
                step * 2
            } else {
                step
            },
        )
    }
}

/// `hashes` with the genesis hash at its end, where that is known.
pub open spec fn ending_in_genesis(known: Map<u32, Hash32>, hashes: Seq<Hash32>) -> Seq<Hash32> {
    if known.contains_key(0) && hashes.last() != known[0] {
        hashes.push(known[0])
    } else {
        hashes
    }
}

/// Block entries for the given hashes.
pub open spec fn block_entries(hashes: Seq<Hash32>) -> Seq<InvEntry> {
    hashes.map_values(|hash: Hash32| InvEntry { inv_type: InvType::Block, hash })
}

/// Whether `headers[i]` follows the header before it and does not contradict what is
/// known at its height.
pub open spec fn header_fits(known: Map<u32, Hash32>, headers: Seq<BlockHeader>, i: int) -> bool {
    &&& i > 0 ==> headers[i].height == headers[i - 1].height + 1
    &&& i > 0 ==> headers[i].previous_hash == headers[i - 1].hash
    &&& known.contains_key(headers[i].height) ==> known[headers[i].height] == headers[i].hash
}

/// The hashes other than the given one.
pub open spec fn differs_from(hash: Hash32) -> spec_fn(Hash32) -> bool {
    |h: Hash32| h != hash
}

/// The headers above a height.
pub open spec fn above(height: u32) -> spec_fn(BlockHeader) -> bool {
    |h: BlockHeader| h.height > height
}

impl SyncView {
    /// What taking one header changes: nothing where its height is known with another
    /// hash; else the header is buffered, recorded and counted for the best height.
    pub open spec fn with_header(self, header: BlockHeader) -> SyncView {
        let known = self.known_headers;
        if known.contains_key(header.height) && known[header.height] != header.hash {
            self
        } else {
            let better = header.height > self.best_height;
            SyncView {
                best_height: if better {
                    header.height
                } else {
                    self.best_height
                },
                best_hash: if better {
                    header.hash
                } else {
                    self.best_hash
                },
                known_headers: known.insert(header.height, header.hash),
                pending_headers: self.pending_headers.push(header),
                ..self
            }
        }
    }

    /// What taking several headers, one after the other, changes.
    pub open spec fn with_headers(self, headers: Seq<BlockHeader>) -> SyncView
        decreases headers.len(),
    {
        if headers.len() == 0 {
            self
        } else {
            self.with_headers(headers.drop_last()).with_header(headers.last())
        }
    }

    /// The sync is over: nobody owns it.
    pub open spec fn caught_up(self) -> SyncView {
        SyncView { state: SyncState::CaughtUp, sync_peer: None, ..self }
    }

    /// The state after an empty batch: there are no more headers, so either blocks are
    /// requested from the validated tip on or the sync is complete.
    pub open spec fn after_no_headers(self) -> (SyncView, Seq<SyncCommandView>) {
        if self.best_height > self.synced_header_height {
            let first = (self.synced_header_height + 1) as u32;
            let syncing = SyncView { state: SyncState::SyncingBlocks, ..self };
            if self.known_headers.contains_key(first) {
                (
                    SyncView { next_height: (first + 1) as u32, ..syncing },
                    seq![SyncCommandView::RequestBlocksFrom(self.known_headers[first])],
                )
            } else {
                (SyncView { next_height: first, ..syncing }, Seq::empty())
            }
        } else {
            (self.caught_up(), seq![SyncCommandView::SyncComplete])
        }
    }

    /// The blocks that are requested first: those known from the validated tip on.
    pub open spec fn first_batch(self) -> Seq<Hash32> {
        let first = self.synced_header_height + 1;
        let last = if first + MAX_BLOCKS_PER_REQUEST < self.best_height {
            first + MAX_BLOCKS_PER_REQUEST
        } else {
            self.best_height as int
        };
        known_range(self.known_headers, first, last)
    }

    /// The state after the last batch of headers was taken.
    pub open spec fn after_last_headers(self) -> (SyncView, Seq<SyncCommandView>) {
        if self.best_height > self.synced_header_height {
            let first = (self.synced_header_height + 1) as u32;
            let batch = self.first_batch();
            let syncing = SyncView { state: SyncState::SyncingBlocks, ..self };
            if batch.len() > 0 {
                (
                    SyncView {
                        next_height: (first + batch.len()) as u32,
                        pending_block_requests: batch.subrange(1, batch.len() as int),
                        ..syncing
                    },
                    seq![SyncCommandView::GetBlocks(batch)],
                )
            } else {
                (SyncView { next_height: first, ..syncing }, Seq::empty())
            }
        } else {
            (self.caught_up(), seq![SyncCommandView::SyncComplete])
        }
    }

    /// The state after a batch of headers and what the syncer asks for then.
    pub open spec fn after_headers(self, headers: Seq<BlockHeader>, now: Instant) -> (
        SyncView,
        Seq<SyncCommandView>,
    ) {
        if self.pending_headers.len() + headers.len() > MAX_PENDING_HEADERS {
            (self, Seq::empty())
        } else if headers.len() == 0 {
            self.after_no_headers()
        } else {
            let taken = SyncView {
                last_sync_request_time: Some(now),
                ..self.with_headers(headers)
            };
            if headers.len() < MAX_HEADERS_PER_RESPONSE {
                taken.after_last_headers()
            } else {
                (taken, seq![SyncCommandView::GetHeaders(taken.best_hash)])
            }
        }
    }

    /// Where blocks are requested after the headers, the heights that are computed for the
    /// request are within range. Nothing is asked of a batch that is not taken, nor of a full
    /// one, after which more headers are requested.
    pub open spec fn heights_fit(self, headers: Seq<BlockHeader>) -> bool {
        let taken = self.with_headers(headers);
        let first = self.synced_header_height + 1;
        self.pending_headers.len() + headers.len() <= MAX_PENDING_HEADERS && headers.len()
            < MAX_HEADERS_PER_RESPONSE && taken.best_height > self.synced_header_height
            ==> if headers.len() == 0 {
            taken.known_headers.contains_key(first as u32) ==> first < u32::MAX
        } else {
            first + MAX_BLOCKS_PER_REQUEST <= u32::MAX && first + taken.first_batch().len()
                <= u32::MAX
        }
    }

    /// The state after an applied block: it is authoritative for its height, and what it
    /// settles is no longer pending.
    pub open spec fn after_block(self, hash: Hash32, height: u32, now: Instant) -> SyncView {
        let synced = if height > self.synced_header_height {
            height
        } else {
            self.synced_header_height
        };
        SyncView {
            pending_block_requests: self.pending_block_requests.filter(differs_from(hash)),
            known_headers: self.known_headers.insert(height, hash),
            synced_header_height: synced,
            pending_headers: self.pending_headers.filter(above(synced)),
            consecutive_sync_failures: 0,
            last_sync_request_time: Some(now),
            ..self
        }
    }

    /// The state after going on to the next block, and the hash to request.
    pub open spec fn advanced(self) -> (SyncView, Option<Hash32>) {
        let height = self.next_height;
        if height > self.best_height {
            (self.caught_up(), None)
        } else {
            (
                SyncView { next_height: (height + 1) as u32, ..self },
                if self.known_headers.contains_key(height) {
                    Some(self.known_headers[height])
                } else {
                    None
                },
            )
        }
    }

    /// The peer owns the sync, or nobody does.
    pub open spec fn may_claim(self, peer: SocketAddr) -> bool {
        self.sync_peer matches Some(owner) ==> owner == peer
    }

    /// The state after the peer has claimed the sync, which changes nothing where somebody
    /// owns it.
    pub open spec fn claimed(self, peer: SocketAddr, now: Instant) -> SyncView {
        if self.sync_peer is None {
            SyncView { sync_peer: Some(peer), last_sync_request_time: Some(now), ..self }
        } else {
            self
        }
    }

    /// A header or block sync is under way.
    pub open spec fn syncing(self) -> bool {
        self.state == SyncState::SyncingHeaders || self.state == SyncState::SyncingBlocks
    }

    /// Blocks are being downloaded far behind the best header.
    pub open spec fn in_ibd(self) -> bool {
        self.state == SyncState::SyncingBlocks && self.best_height > self.synced_header_height
            + IBD_HEIGHT_THRESHOLD
    }

    /// The state after header sync with a peer has begun.
    pub open spec fn header_sync_started(self, peer: SocketAddr, now: Instant) -> SyncView {
        SyncView {
            state: SyncState::SyncingHeaders,
            sync_peer: Some(peer),
            pending_headers: Seq::empty(),
            last_sync_request_time: Some(now),
            ..self
        }
    }

    /// The state after one more failure.
    pub open spec fn failed_once_more(self) -> SyncView {
        SyncView {
            consecutive_sync_failures: (self.consecutive_sync_failures + 1) as u32,
            ..self
        }
    }

    /// The state after block sync with a peer has begun, and the blocks that are asked for.
    pub open spec fn block_sync_started(
        self,
        peer: SocketAddr,
        from_hash: Hash32,
        from_height: u32,
        now: Instant,
    ) -> (SyncView, Seq<Hash32>) {
        let last = if from_height + MAX_BLOCKS_PER_REQUEST < self.best_height {
            from_height + MAX_BLOCKS_PER_REQUEST
        } else {
            self.best_height as int
        };
        let more = known_range(self.known_headers, from_height + 1, last);
        (
            SyncView {
                state: SyncState::SyncingBlocks,
                sync_peer: Some(peer),
                last_sync_request_time: Some(now),
                pending_block_requests: more,
                ..self
            },
            seq![from_hash] + more,
        )
    }

    /// Whether more than the response timeout has passed since the last request.
    pub open spec fn timed_out(self, now: Instant) -> bool {
        match self.last_sync_request_time {
            Some(last) => now.spec_since(last) > SYNC_RESPONSE_TIMEOUT_SECS * NANOS_PER_SEC,
            None => false,
        }
    }

    /// The batch links to the known chain, is in sequence, contradicts nothing that is
    /// known and keeps within the limits.
    pub open spec fn batch_valid(self, headers: Seq<BlockHeader>) -> bool {
        &&& 0 < headers.len() <= MAX_HEADERS_PER_RESPONSE
        &&& self.known_headers.dom().len() + headers.len() <= MAX_KNOWN_HEADERS
        &&& self.known_headers.contains_value(headers[0].previous_hash)
        &&& forall|i: int| 0 <= i < headers.len() ==> #[trigger] header_fits(self.known_headers, headers, i)
    }

    /// The state after a sync attempt was given up: what is not validated is forgotten.
    pub open spec fn after_failure(self) -> SyncView {
        let known = self.known_headers.restrict(
            Set::new(|h: u32| h <= self.synced_header_height),
        );
        let has_tip = self.known_headers.contains_key(self.synced_header_height);
        SyncView {
            state: SyncState::Idle,
            sync_peer: None,
            pending_headers: Seq::empty(),
            pending_block_requests: Seq::empty(),
            last_sync_request_time: None,
            known_headers: known,
            best_height: if has_tip {
                self.synced_header_height
            } else {
                self.best_height
            },
            best_hash: if has_tip {
                self.known_headers[self.synced_header_height]
            } else {
                self.best_hash
            },
            ..self
        }
    }
}

/// The hash that is known at `height`.
fn known_at(known: &BTreeMap<u32, Hash32>, height: u32) -> (found: Option<Hash32>)
    ensures
        found == if known@.contains_key(height) {
            Some(known@[height])
        } else {
            None
        },
{
    match known.get(&height) {
        Some(hash) => Some(*hash),
        None => None,
    }
}

proof fn lemma_increasing(keys: Seq<u32>, i: int, j: int)
    requires
        vstd::std_specs::btree::increasing_seq(keys),
        0 <= i < j < keys.len(),
    ensures
        keys[i] < keys[j],
{
    assert(vstd::std_specs::cmp::OrdSpec::cmp_spec(&keys[i], &keys[j]) is Less);
}

/// The lowest height with the given hash.
fn lowest_height_of(known: &BTreeMap<u32, Hash32>, wanted: Hash32) -> (found: Option<u32>)
    ensures
        match found {
            Some(height) => {
                &&& known@.contains_key(height)
                &&& known@[height] == wanted
                &&& forall|h: u32| h < height && #[trigger] known@.contains_key(h) ==> known@[h] != wanted
            },
            None => !known@.contains_value(wanted),
        },
{
    for (height, hash) in it: known.iter()
        invariant
            forall|i: int| 0 <= i < it.index() ==> *(#[trigger] it.seq()[i]).1 != wanted,
            forall|k: u32| #[trigger]
                known@.contains_key(k) ==> it.seq().contains((&k, &known@[k])),
            vstd::std_specs::btree::increasing_seq(
                it.seq().map_values(|kv: (&u32, &Hash32)| *kv.0),
            ),
    {
        if *hash == wanted {
            proof {
                let keys = it.seq().map_values(|kv: (&u32, &Hash32)| *kv.0);
                let here = it.index() as int;
                assert forall|h: u32| h < *height && #[trigger] known@.contains_key(
                    h,
                ) implies known@[h] != wanted by {
                    assert(it.seq().contains((&h, &known@[h])));
                    let i = choose|i: int|
                        0 <= i < it.seq().len() && it.seq()[i] == (&h, &known@[h]);
                    if i >= here {
                        assert(keys[here] == *height && keys[i] == h);
                        lemma_increasing(keys, here, i);
                    }
                }
            }
            return Some(*height);
        }
    }
    assert forall|k: u32| known@.contains_key(k) implies known@[k] != wanted by {
    }
    None
}

/// The entries up to the height `top`.
fn known_up_to(known: &BTreeMap<u32, Hash32>, top: u32) -> (kept: BTreeMap<u32, Hash32>)
    ensures
        kept@ == known@.restrict(Set::new(|h: u32| h <= top)),
{
    let mut kept: BTreeMap<u32, Hash32> = BTreeMap::new();
    for (height, hash) in it: known.iter()
        invariant
            forall|i: int|
                0 <= i < it.index() && *(#[trigger] it.seq()[i]).0 <= top ==> kept@.contains_key(
                    *it.seq()[i].0,
                ) && kept@[*it.seq()[i].0] == *it.seq()[i].1,
            forall|k: u32| #[trigger]
                kept@.contains_key(k) ==> k <= top && known@.contains_key(k) && kept@[k]
                    == known@[k],
            forall|i: int|
                0 <= i < it.seq().len() ==> known@.contains_key(*(#[trigger] it.seq()[i]).0)
                    && known@[*it.seq()[i].0] == *it.seq()[i].1,
            forall|k: u32| #[trigger]
                known@.contains_key(k) ==> it.seq().contains((&k, &known@[k])),
    {
        if *height <= top {
            kept.insert(*height, *hash);
        }
    }
    assert(kept@ =~= known@.restrict(Set::new(|h: u32| h <= top)));
    kept
}

/// The hashes of the known heights from `lo` to `hi`, lowest height first.
fn hashes_between(known: &BTreeMap<u32, Hash32>, lo: u32, hi: u32) -> (hashes: Vec<Hash32>)
    ensures
        hashes@ == known_range(known@, lo as int, hi as int),
{
    let mut hashes: Vec<Hash32> = Vec::new();
    if lo > hi {
        return hashes;
    }
    let mut h: u32 = lo;
    loop
        invariant
            lo <= h <= hi,
            hashes@ == known_range(known@, lo as int, h - 1),
        decreases hi - h,
    {
        if let Some(hash) = known_at(known, h) {
            hashes.push(hash);
        }
        if h == hi {
            return hashes;
        }
        h += 1;
    }
}

proof fn lemma_known_range_len(known: Map<u32, Hash32>, lo: int, hi: int)
    ensures
        known_range(known, lo, hi).len() <= if lo > hi {
            0
        } else {
            hi - lo + 1
        },
    decreases hi - lo + 1,
{
    if lo <= hi {
        lemma_known_range_len(known, lo, hi - 1);
    }
}

impl ChainSyncer {
    pub fn new(genesis_hash: Hash32) -> (syncer: Self)
        ensures
            syncer@ == (SyncView {
                state: SyncState::Idle,
                best_height: 0,
                best_hash: genesis_hash,
                sync_peer: None,
                pending_headers: Seq::empty(),
                synced_header_height: 0,
                known_headers: map![0u32 => genesis_hash],
                pending_block_requests: Seq::empty(),
                next_height: 1,
                last_sync_request_time: None,
                consecutive_sync_failures: 0,
            }),
    {
        let mut known_headers: BTreeMap<u32, Hash32> = BTreeMap::new();
        known_headers.insert(0, genesis_hash);
        ChainSyncer {
            state: SyncState::Idle,
            best_height: 0,
            best_hash: genesis_hash,
            sync_peer: None,
            pending_headers: Vec::new(),
            synced_header_height: 0,
            known_headers,
            pending_block_requests: Vec::new(),
            next_height: 1,
            last_sync_request_time: None,
            consecutive_sync_failures: 0,
        }
    }

    pub fn set_synced_height(&mut self, height: u32)
        ensures
            final(self)@ == (SyncView { synced_header_height: height, ..old(self)@ }),
    {
        self.synced_header_height = height;
    }

    /// Records a validated header hash (an applied block or the loaded chain state). It
    /// overwrites what was known at that height and touches nothing else.
    pub fn track_validated(&mut self, height: u32, hash: Hash32)
        ensures
            final(self)@ == (SyncView {
                known_headers: old(self)@.known_headers.insert(height, hash),
                ..old(self)@
            }),
    {
        self.known_headers.insert(height, hash);
    }

    pub fn synced_header_height(&self) -> (height: u32)
        ensures
            height == self@.synced_header_height,
    {
        self.synced_header_height
    }

    /// Begins header sync with a peer. Returns the GetHeaders message to send.
    pub fn start_header_sync(
        &mut self,
        peer: SocketAddr,
        local_tip_hash: Hash32,
        now: Instant,
    ) -> (msg: GetHeadersMessage)
        ensures
            final(self)@ == old(self)@.header_sync_started(peer, now),
            msg.start_hash == local_tip_hash,
            msg.stop_hash.is_zero(),
    {
        self.state = SyncState::SyncingHeaders;
        self.sync_peer = Some(peer);
        self.pending_headers.clear();
        self.last_sync_request_time = Some(now);
        GetHeadersMessage { start_hash: local_tip_hash, stop_hash: Hash32::zero() }
    }

    /// The hashes from which a peer can find where its chain leaves ours: the tip, then
    /// known hashes at heights that go down ever faster, then genesis.
    pub fn block_locator_hashes(
        &self,
        local_tip_hash: Hash32,
        local_tip_height: u32,
    ) -> (locators: Vec<Hash32>)
        ensures
            locators@ == ending_in_genesis(
                self@.known_headers,
                seq![local_tip_hash] + locator_walk(
                    self@.known_headers,
                    local_tip_height as nat,
                    1,
                ),
            ),
    {
        let mut locators: Vec<Hash32> = Vec::new();
        locators.push(local_tip_hash);
        let mut step: u32 = 1;
        let mut height: u32 = local_tip_height;
        let ghost known = self.known_headers@;
        let ghost walked = seq![local_tip_hash] + locator_walk(
            known,
            local_tip_height as nat,
            1,
        );
        assert(locators@ + locator_walk(known, height as nat, 1) =~= walked);
        while height > 0
            invariant
                1 <= step < 2000,
                known == self.known_headers@,
                locators@.len() >= 1,
                locators@ + locator_walk(known, height as nat, step as nat) == walked,
            decreases height,
        {
            let ghost before = locators@;
            let ghost at = height as nat;
            let ghost by = step as nat;
            height = if height > step {
                height - step
            } else {
                0
            };
            let ghost here: Seq<Hash32> = if known.contains_key(height) {
                seq![known[height]]
            } else {
                Seq::empty()
            };
            if let Some(hash) = known_at(&self.known_headers, height) {
                locators.push(hash);
            }
            if step < 1000 {
                step = step * 2;
            }
            proof {
                let rest = locator_walk(known, height as nat, step as nat);
                assert(locator_walk(known, at, by) == here + rest);
                assert(locators@ =~= before + here);
                assert(locators@ + rest =~= before + (here + rest));
            }
        }
        assert(locators@ =~= walked);
        if let Some(genesis_hash) = known_at(&self.known_headers, 0) {
            if locators[locators.len() - 1] != genesis_hash {
                locators.push(genesis_hash);
            }
        }
        locators
    }

    /// The height after which a GetHeaders request starts: zero for the zero hash, else
    /// the lowest known height with that hash.
    pub fn find_headers_start_height(&self, start_hash: &Hash32) -> (found: Option<u32>)
        ensures
            match found {
                Some(height) => start_hash.is_zero() && height == 0 || !start_hash.is_zero() && {
                    &&& self@.known_headers.contains_key(height)
                    &&& self@.known_headers[height] == *start_hash
                    &&& forall|h: u32|
                        h < height && #[trigger] self@.known_headers.contains_key(h)
                            ==> self@.known_headers[h] != *start_hash
                },
                None => !start_hash.is_zero() && !self@.known_headers.contains_value(*start_hash),
            },
    {
        if start_hash.all_zero() {
            return Some(0);
        }
        lowest_height_of(&self.known_headers, *start_hash)
    }

    /// Whether the local chain is far enough behind the peer for initial block download.
    pub fn should_enter_ibd(&self, local_tip_height: u32, peer_height: u32) -> (enter: bool)
        requires
            local_tip_height + IBD_HEIGHT_THRESHOLD <= u32::MAX,
        ensures
            enter == (peer_height > local_tip_height + IBD_HEIGHT_THRESHOLD),
    {
        peer_height > local_tip_height + IBD_HEIGHT_THRESHOLD
    }

    /// Whether blocks are being downloaded far behind the best header.
    pub fn is_in_initial_block_download(&self) -> (ibd: bool)
        requires
            self@.state == SyncState::SyncingBlocks ==> self@.synced_header_height
                + IBD_HEIGHT_THRESHOLD <= u32::MAX,
        ensures
            ibd == self@.in_ibd(),
    {
        self.state == SyncState::SyncingBlocks && self.best_height > self.synced_header_height
            + IBD_HEIGHT_THRESHOLD
    }

    /// Whether the response to the last sync request is overdue.
    pub fn is_sync_timed_out(&self, now: Instant) -> (timed_out: bool)
        ensures
            timed_out == self@.timed_out(now),
    {
        if let Some(last) = self.last_sync_request_time {
            now.since(last) > SYNC_RESPONSE_TIMEOUT_SECS * NANOS_PER_SEC
        } else {
            false
        }
    }

    /// Counts a sync failure (invalid block, timeout).
    pub fn record_sync_failure(&mut self)
        requires
            old(self)@.consecutive_sync_failures < u32::MAX,
        ensures
            final(self)@ == old(self)@.failed_once_more(),
    {
        self.consecutive_sync_failures = self.consecutive_sync_failures + 1;
    }

    /// Forgets the failures in a row.
    pub fn clear_sync_failure(&mut self)
        ensures
            final(self)@ == (SyncView { consecutive_sync_failures: 0, ..old(self)@ }),
    {
        self.consecutive_sync_failures = 0;
    }

    /// Whether there were as many failures in a row as ban the peer.
    pub fn is_peer_banned_for_sync(&self) -> (banned: bool)
        ensures
            banned == (self@.consecutive_sync_failures >= MAX_SYNC_FAILURES),
    {
        self.consecutive_sync_failures >= MAX_SYNC_FAILURES
    }

    /// Begins block sync: requests `from_hash` and the known blocks after `from_height`.
    pub fn start_block_sync(
        &mut self,
        peer: SocketAddr,
        from_hash: Hash32,
        from_height: u32,
        now: Instant,
    ) -> (msg: GetDataMessage)
        requires
            from_height + MAX_BLOCKS_PER_REQUEST <= u32::MAX,
        ensures
            ({
                let last = if from_height + MAX_BLOCKS_PER_REQUEST < old(self)@.best_height {
                    from_height + MAX_BLOCKS_PER_REQUEST
                } else {
                    old(self)@.best_height as int
                };
                let more = known_range(old(self)@.known_headers, from_height + 1, last);
                &&& msg@ == block_entries(seq![from_hash] + more)
                &&& final(self)@ == (SyncView {
                    state: SyncState::SyncingBlocks,
                    sync_peer: Some(peer),
                    last_sync_request_time: Some(now),
                    pending_block_requests: more,
                    ..old(self)@
                })
            }),
            ({
                let (after, asked) = old(self)@.block_sync_started(
                    peer,
                    from_hash,
                    from_height,
                    now,
                );
                final(self)@ == after && msg@ == block_entries(asked)
            }),
    {
        self.state = SyncState::SyncingBlocks;
        self.sync_peer = Some(peer);
        self.last_sync_request_time = Some(now);
        let reach: u32 = from_height + MAX_BLOCKS_PER_REQUEST as u32;
        let last: u32 = if reach < self.best_height {
            reach
        } else {
            self.best_height
        };
        let more: Vec<Hash32> = hashes_between(&self.known_headers, from_height + 1, last);
        let mut inventory: Vec<InvEntry> = Vec::new();
        inventory.push(InvEntry { inv_type: InvType::Block, hash: from_hash });
        let mut i: usize = 0;
        assert(inventory@ =~= block_entries(seq![from_hash] + more@.take(0)));
        while i < more.len()
            invariant
                i <= more@.len(),
                inventory@ == block_entries(seq![from_hash] + more@.take(i as int)),
            decreases more.len() - i,
        {
            inventory.push(InvEntry { inv_type: InvType::Block, hash: more[i] });
            i += 1;
            assert(inventory@ =~= block_entries(seq![from_hash] + more@.take(i as int)));
        }
        assert(more@.take(i as int) =~= more@);
        self.pending_block_requests = more;
        GetDataMessage { inventory }
    }

    /// Checks a header batch without changing anything. Batches that do not link, leave
    /// the sequence, contradict a known hash or exceed the limits are refused.
    pub fn header_batch_valid(&self, headers: &[BlockHeader]) -> (valid: bool)
        ensures
            valid == self@.batch_valid(headers@),
    {
        if headers.len() == 0 || headers.len() > MAX_HEADERS_PER_RESPONSE {
            return false;
        }
        let known: usize = self.known_headers.len();
        if known > MAX_KNOWN_HEADERS || known + headers.len() > MAX_KNOWN_HEADERS {
            return false;
        }
        if lowest_height_of(&self.known_headers, headers[0].previous_hash).is_none() {
            return false;
        }
        let mut i: usize = 0;
        while i < headers.len()
            invariant
                i <= headers@.len(),
                forall|k: int|
                    0 <= k < i ==> #[trigger] header_fits(self@.known_headers, headers@, k),
            decreases headers.len() - i,
        {
            let header: BlockHeader = headers[i];
            if i > 0 {
                let prev: BlockHeader = headers[i - 1];
                if header.height as u64 != prev.height as u64 + 1 {
                    assert(!header_fits(self@.known_headers, headers@, i as int));
                    return false;
                }
                if header.previous_hash != prev.hash {
                    assert(!header_fits(self@.known_headers, headers@, i as int));
                    return false;
                }
            }
            if let Some(hash) = known_at(&self.known_headers, header.height) {
                if hash != header.hash {
                    assert(!header_fits(self@.known_headers, headers@, i as int));
                    return false;
                }
            }
            i += 1;
        }
        true
    }

    /// Takes one header; see `SyncView::with_header`.
    fn take_header(&mut self, header: BlockHeader)
        ensures
            final(self)@ == old(self)@.with_header(header),
    {
        if let Some(hash) = known_at(&self.known_headers, header.height) {
            if hash != header.hash {
                return;
            }
        }
        if header.height > self.best_height {
            self.best_height = header.height;
            self.best_hash = header.hash;
        }
        self.known_headers.insert(header.height, header.hash);
        self.pending_headers.push(header);
    }

    /// Takes a batch of received headers. Returns what the caller is asked to do.
    pub fn received_headers(&mut self, headers: Vec<BlockHeader>, now: Instant) -> (commands: Vec<
        SyncCommand,
    >)
        requires
            old(self)@.heights_fit(headers@),
        ensures
            (final(self)@, commands_view(commands@)) == old(self)@.after_headers(headers@, now),
    {
        let mut commands: Vec<SyncCommand> = Vec::new();
        let ghost before = self@;
        if headers.len() > MAX_PENDING_HEADERS || self.pending_headers.len() > MAX_PENDING_HEADERS
            || self.pending_headers.len() + headers.len() > MAX_PENDING_HEADERS {
            assert(commands_view(commands@) =~= Seq::empty());
            return commands;
        }
        if headers.len() == 0 {
            assert(self@.with_headers(headers@) == self@);
            if self.best_height > self.synced_header_height {
                self.state = SyncState::SyncingBlocks;
                self.next_height = self.synced_header_height + 1;
                if let Some(hash) = known_at(&self.known_headers, self.next_height) {
                    self.next_height = self.next_height + 1;
                    commands.push(SyncCommand::RequestBlocksFrom(hash));
                }
            } else {
                self.state = SyncState::CaughtUp;
                self.sync_peer = None;
                commands.push(SyncCommand::SyncComplete);
            }
            assert(commands_view(commands@) =~= before.after_no_headers().1);
            assert(self@ =~= before.after_no_headers().0);
            return commands;
        }
        self.last_sync_request_time = Some(now);
        let ghost stamped = self@;
        let mut i: usize = 0;
        assert(headers@.take(0) =~= Seq::empty());
        while i < headers.len()
            invariant
                i <= headers@.len(),
                self@ == stamped.with_headers(headers@.take(i as int)),
            decreases headers.len() - i,
        {
            proof {
                assert(headers@.take(i + 1).drop_last() =~= headers@.take(i as int));
            }
            self.take_header(headers[i]);
            i += 1;
        }
        proof {
            assert(headers@.take(i as int) =~= headers@);
            lemma_with_headers_frame(before, headers@);
            lemma_stamp_commutes(before, headers@, now);
        }
        let ghost taken = self@;
        assert(taken == SyncView {
            last_sync_request_time: Some(now),
            ..before.with_headers(headers@)
        });
        if headers.len() < MAX_HEADERS_PER_RESPONSE {
            if self.best_height > self.synced_header_height {
                self.state = SyncState::SyncingBlocks;
                self.next_height = self.synced_header_height + 1;
                let reach: u32 = self.next_height + MAX_BLOCKS_PER_REQUEST as u32;
                let last: u32 = if reach < self.best_height {
                    reach
                } else {
                    self.best_height
                };
                let batch: Vec<Hash32> = hashes_between(&self.known_headers, self.next_height, last);
                proof {
                    lemma_known_range_len(
                        self.known_headers@,
                        self.next_height as int,
                        last as int,
                    );
                    assert(batch@ == taken.first_batch());
                }
                if batch.len() > 0 {
                    self.next_height = self.next_height + batch.len() as u32;
                    self.pending_block_requests = vstd::slice::slice_to_vec(
                        vstd::slice::slice_subrange(batch.as_slice(), 1, batch.len()),
                    );
                    commands.push(SyncCommand::GetBlocks(batch));
                }
            } else {
                self.state = SyncState::CaughtUp;
                self.sync_peer = None;
                commands.push(SyncCommand::SyncComplete);
            }
            assert(commands_view(commands@) =~= taken.after_last_headers().1);
            assert(self@ =~= taken.after_last_headers().0);
        } else {
            commands.push(SyncCommand::GetHeaders(self.best_hash));
            assert(commands_view(commands@) =~= seq![SyncCommandView::GetHeaders(taken.best_hash)]);
        }
        commands
    }

    /// Marks headers as applied up to a height.
    pub fn headers_applied(&mut self, height: u32)
        ensures
            final(self)@ == (SyncView { synced_header_height: height, ..old(self)@ }),
    {
        self.synced_header_height = height;
    }

    /// Records an applied block. It is authoritative for its height, the buffered headers
    /// up to the validated tip are dropped, and the failures in a row are forgotten.
    pub fn received_block(&mut self, hash: Hash32, height: u32, now: Instant)
        ensures
            final(self)@ == old(self)@.after_block(hash, height, now),
    {
        self.pending_block_requests = without_hash(&self.pending_block_requests, hash);
        self.known_headers.insert(height, hash);
        if height > self.synced_header_height {
            self.synced_header_height = height;
        }
        self.pending_headers = headers_above(&self.pending_headers, self.synced_header_height);
        self.clear_sync_failure();
        self.last_sync_request_time = Some(now);
    }

    /// Whether blocks are being synced and none is outstanding.
    pub fn needs_blocks(&self) -> (needs: bool)
        ensures
            needs == (self@.state == SyncState::SyncingBlocks && self@.pending_block_requests.len()
                == 0),
    {
        self.state == SyncState::SyncingBlocks && self.pending_block_requests.len() == 0
    }

    /// Whether blocks are being synced and the response is overdue.
    pub fn needs_block_retry(&self, now: Instant) -> (needs: bool)
        ensures
            needs == (self@.state == SyncState::SyncingBlocks && self@.timed_out(now)),
    {
        self.state == SyncState::SyncingBlocks && self.is_sync_timed_out(now)
    }

    /// The next height to request.
    pub fn next_block_height(&self) -> (height: u32)
        ensures
            height == self@.next_height,
    {
        self.next_height
    }

    /// Goes on after an applied block: the hash to request next, or the end of the sync.
    pub fn advance_block_sync(&mut self) -> (next: Option<Hash32>)
        requires
            old(self)@.next_height <= old(self)@.best_height ==> old(self)@.next_height < u32::MAX,
        ensures
            (final(self)@, next) == old(self)@.advanced(),
    {
        if self.next_height > self.best_height {
            self.state = SyncState::CaughtUp;
            self.sync_peer = None;
            return None;
        }
        let h: u32 = self.next_height;
        self.next_height = h + 1;
        known_at(&self.known_headers, h)
    }

    /// How many requested blocks are outstanding.
    pub fn pending_block_count(&self) -> (count: usize)
        ensures
            count == self@.pending_block_requests.len(),
    {
        self.pending_block_requests.len()
    }

    pub fn sync_complete(&mut self)
        ensures
            final(self)@ == (SyncView {
                pending_block_requests: Seq::empty(),
                ..old(self)@.caught_up()
            }),
    {
        self.state = SyncState::CaughtUp;
        self.sync_peer = None;
        self.pending_block_requests.clear();
    }

    /// Gives a sync attempt up. Headers above the validated tip are forgotten and the best
    /// height goes back to the tip; what is known up to the tip stays.
    pub fn sync_failed(&mut self)
        ensures
            final(self)@ == old(self)@.after_failure(),
    {
        let ghost before = self@;
        self.state = SyncState::Idle;
        self.sync_peer = None;
        self.pending_headers.clear();
        self.pending_block_requests.clear();
        self.last_sync_request_time = None;
        self.known_headers = known_up_to(&self.known_headers, self.synced_header_height);
        if let Some(tip_hash) = known_at(&self.known_headers, self.synced_header_height) {
            self.best_height = self.synced_header_height;
            self.best_hash = tip_hash;
        }
        assert(self@ =~= before.after_failure());
    }

    /// How many header hashes are known.
    pub fn known_headers_len(&self) -> (count: usize)
        ensures
            count == self@.known_headers.dom().len(),
    {
        self.known_headers.len()
    }

    pub fn is_syncing(&self) -> (syncing: bool)
        ensures
            syncing == self@.syncing(),
    {
        self.state == SyncState::SyncingHeaders || self.state == SyncState::SyncingBlocks
    }

    pub fn is_caught_up(&self) -> (caught_up: bool)
        ensures
            caught_up == (self@.state == SyncState::CaughtUp),
    {
        self.state == SyncState::CaughtUp
    }

    pub fn sync_peer(&self) -> (peer: Option<SocketAddr>)
        ensures
            peer == self@.sync_peer,
    {
        self.sync_peer
    }

    /// Claims the sync for `peer` when nobody owns it. Returns whether `peer` owns it
    /// afterwards; the batches of a peer that does not are to be ignored.
    pub fn claim_sync_peer(&mut self, peer: SocketAddr, now: Instant) -> (owns: bool)
        ensures
            owns == old(self)@.may_claim(peer),
            final(self)@ == old(self)@.claimed(peer, now),
    {
        match self.sync_peer {
            Some(owner) => owner == peer,
            None => {
                self.sync_peer = Some(peer);
                self.last_sync_request_time = Some(now);
                true
            },
        }
    }

    /// Whether a block is the best header.
    pub fn is_expected_best(&self, hash: &Hash32) -> (best: bool)
        ensures
            best == (*hash == self@.best_hash),
    {
        *hash == self.best_hash
    }

    /// Whether a block competes with a known one at its height, and if so the height of
    /// their common parent.
    pub fn detect_block_fork(&self, block_height: u32, block_hash: &Hash32) -> (fork: Option<u32>)
        ensures
            fork == if block_height > 0 && self@.known_headers.contains_key(block_height)
                && self@.known_headers[block_height] != *block_hash {
                Some((block_height - 1) as u32)
            } else {
                None
            },
    {
        if let Some(existing_hash) = known_at(&self.known_headers, block_height) {
            if existing_hash != *block_hash && block_height > 0 {
                return Some(block_height - 1);
            }
        }
        None
    }
}

/// Taking headers touches neither the validated tip nor anything but the bookkeeping of
/// headers.
proof fn lemma_with_headers_frame(v: SyncView, headers: Seq<BlockHeader>)
    ensures
        v.with_headers(headers).synced_header_height == v.synced_header_height,
        v.with_headers(headers).state == v.state,
        v.with_headers(headers).sync_peer == v.sync_peer,
        v.with_headers(headers).next_height == v.next_height,
        v.with_headers(headers).pending_block_requests == v.pending_block_requests,
        v.with_headers(headers).last_sync_request_time == v.last_sync_request_time,
        v.with_headers(headers).consecutive_sync_failures == v.consecutive_sync_failures,
    decreases headers.len(),
{
    if headers.len() > 0 {
        lemma_with_headers_frame(v, headers.drop_last());
    }
}

/// What taking headers changes does not depend on who owns the sync.
pub proof fn lemma_claim_commutes(v: SyncView, headers: Seq<BlockHeader>, peer: SocketAddr, now: Instant)
    ensures
        v.claimed(peer, now).with_headers(headers).best_height == v.with_headers(headers).best_height,
        v.claimed(peer, now).with_headers(headers).known_headers == v.with_headers(
            headers,
        ).known_headers,
        v.claimed(peer, now).with_headers(headers).synced_header_height == v.with_headers(
            headers,
        ).synced_header_height,
    decreases headers.len(),
{
    if headers.len() > 0 {
        lemma_claim_commutes(v, headers.drop_last(), peer, now);
    }
}

proof fn lemma_stamp_commutes(v: SyncView, headers: Seq<BlockHeader>, now: Instant)
    ensures
        (SyncView { last_sync_request_time: Some(now), ..v }).with_headers(headers) == (SyncView {
            last_sync_request_time: Some(now),
            ..v.with_headers(headers)
        }),
    decreases headers.len(),
{
    if headers.len() > 0 {
        lemma_stamp_commutes(v, headers.drop_last(), now);
    }
}

/// The hashes other than `hash`.
fn without_hash(hashes: &Vec<Hash32>, hash: Hash32) -> (kept: Vec<Hash32>)
    ensures
        kept@ == hashes@.filter(differs_from(hash)),
{
    let mut kept: Vec<Hash32> = Vec::new();
    let mut i: usize = 0;
    let ghost keep = differs_from(hash);
    assert(hashes@.take(0).filter(keep) =~= Seq::empty()) by {
        reveal(Seq::filter);
    }
    while i < hashes.len()
        invariant
            i <= hashes@.len(),
            keep == differs_from(hash),
            kept@ == hashes@.take(i as int).filter(keep),
        decreases hashes.len() - i,
    {
        let h: Hash32 = hashes[i];
        proof {
            assert(hashes@.take(i + 1).drop_last() =~= hashes@.take(i as int));
            reveal(Seq::filter);
        }
        if h != hash {
            kept.push(h);
        }
        i += 1;
    }
    assert(hashes@.take(i as int) =~= hashes@);
    kept
}

/// The headers above the height `synced`.
fn headers_above(headers: &Vec<BlockHeader>, synced: u32) -> (kept: Vec<BlockHeader>)
    ensures
        kept@ == headers@.filter(above(synced)),
{
    let mut kept: Vec<BlockHeader> = Vec::new();
    let mut i: usize = 0;
    let ghost keep = above(synced);
    assert(headers@.take(0).filter(keep) =~= Seq::empty()) by {
        reveal(Seq::filter);
    }
    while i < headers.len()
        invariant
            i <= headers@.len(),
            keep == above(synced),
            kept@ == headers@.take(i as int).filter(keep),
        decreases headers.len() - i,
    {
        let h: BlockHeader = headers[i];
        proof {
            assert(headers@.take(i + 1).drop_last() =~= headers@.take(i as int));
            reveal(Seq::filter);
        }
        if h.height > synced {
            kept.push(h);
        }
        i += 1;
    }
    assert(headers@.take(i as int) =~= headers@);
    kept
}

/// Where a competing chain leaves the local one and what a reorganisation has to do.
#[derive(Clone, Debug)]
pub struct ForkInfo {
    /// Height of the last common block.
    pub fork_height: u32,
    /// Hash of the last common block.
    pub fork_hash: Hash32,
    /// Heights to roll back, lowest first.
    pub rollback_heights: Vec<u32>,
    /// Heights to apply, lowest first.
    pub apply_heights: Vec<u32>,
}

/// The heights from `lo` to `hi`.
pub open spec fn height_range(lo: int, hi: int) -> Seq<u32> {
    Seq::new(
        if lo <= hi {
            (hi - lo + 1) as nat
        } else {
            0
        },
        |i: int| (lo + i) as u32,
    )
}

/// The local chain has the block `chain[i]` at its height.
pub open spec fn chains_agree(
    local: Map<u32, BlockHeader>,
    chain: Seq<BlockHeader>,
    start: int,
    i: int,
) -> bool {
    local.contains_key((start + i) as u32) && local[(start + i) as u32].hash == chain[i].hash
}

/// The first position from `from` on where the chains do not agree; the chain's length if
/// there is none.
pub open spec fn first_divergence(
    local: Map<u32, BlockHeader>,
    chain: Seq<BlockHeader>,
    start: int,
    from: nat,
) -> nat
    decreases chain.len() - from,
{
    if from >= chain.len() {
        chain.len()
    } else if chains_agree(local, chain, start, from as int) {
        first_divergence(local, chain, start, from + 1)
    } else {
        from
    }
}

/// The height of the last common block: the parent of the first block that differs, where
/// the local chain has that parent.
pub open spec fn fork_point(
    local: Map<u32, BlockHeader>,
    chain: Seq<BlockHeader>,
    start: int,
) -> Option<u32> {
    let i = first_divergence(local, chain, start, 0);
    let parent = (start + i - 1) as u32;
    if i < chain.len() && start + i > 0 && local.contains_key(parent) && local[parent].hash
        == chain[i as int].previous_hash {
        Some(parent)
    } else {
        None
    }
}

/// Finds where `new_chain`, whose first header has the height `new_chain_start_height`,
/// leaves the local chain, and what to roll back and apply.
pub fn detect_fork(
    local_headers: &BTreeMap<u32, BlockHeader>,
    new_chain: &[BlockHeader],
    new_chain_start_height: u32,
    local_tip_height: u32,
) -> (fork: Option<ForkInfo>)
    requires
        new_chain_start_height + new_chain@.len() <= u32::MAX + 1,
    ensures
        match fork_point(local_headers@, new_chain@, new_chain_start_height as int) {
            None => fork is None,
            Some(height) => {
                &&& fork matches Some(info)
                &&& info.fork_height == height
                &&& info.fork_hash == local_headers@[height].hash
                &&& info.rollback_heights@ == height_range(height + 1, local_tip_height as int)
                &&& info.apply_heights@ == height_range(
                    height + 1,
                    new_chain_start_height + new_chain@.len() - 1,
                )
            },
        },
        sync_requests::fork_told(
            local_headers@,
            new_chain@,
            new_chain_start_height as int,
            local_tip_height as int,
            fork,
        ),
{
    let ghost local = local_headers@;
    let ghost chain = new_chain@;
    let ghost start = new_chain_start_height as int;
    let mut i: usize = 0;
    let mut agree: bool = true;
    while i < new_chain.len() && agree
        invariant
            i <= new_chain@.len(),
            local == local_headers@,
            chain == new_chain@,
            start == new_chain_start_height,
            start + chain.len() <= u32::MAX + 1,
            first_divergence(local, chain, start, 0) == first_divergence(
                local,
                chain,
                start,
                i as nat,
            ),
            !agree ==> i < chain.len() && !chains_agree(local, chain, start, i as int),
        decreases new_chain.len() - i + (if agree {
            1int
        } else {
            0
        }),
    {
        let h: u32 = new_chain_start_height + i as u32;
        agree = match local_headers.get(&h) {
            Some(local_header) => local_header.hash == new_chain[i].hash,
            None => false,
        };
        if agree {
            i += 1;
        }
    }
    proof {
        sync_requests::fork_is_found_where_chain_leaves(local, chain, start);
        assert(sync_requests::leaves_at(local, chain, start, i as int) || forall|k: int|
            !#[trigger] sync_requests::leaves_at(local, chain, start, k)) by {
            sync_requests::lemma_leaves_once(local, chain, start, i as int);
        }
    }
    if i >= new_chain.len() {
        return None;
    }
    let h: u32 = new_chain_start_height + i as u32;
    if h == 0 {
        return None;
    }
    let fork_height: u32 = h - 1;
    let fork_hash: Hash32 = match local_headers.get(&fork_height) {
        Some(local_parent) => {
            if local_parent.hash != new_chain[i].previous_hash {
                return None;
            }
            local_parent.hash
        },
        None => {
            return None;
        },
    };
    let rollback_heights: Vec<u32> = if fork_height < local_tip_height {
        heights_between(fork_height + 1, local_tip_height)
    } else {
        Vec::new()
    };
    let last: u32 = new_chain_start_height + (new_chain.len() - 1) as u32;
    let apply_heights: Vec<u32> = heights_between(h, last);
    assert(rollback_heights@ =~= height_range(fork_height + 1, local_tip_height as int));
    proof {
        sync_requests::heights_are_all_of_a_range(fork_height + 1, local_tip_height as int);
        sync_requests::heights_are_all_of_a_range(fork_height + 1, last as int);
    }
    Some(ForkInfo { fork_height, fork_hash, rollback_heights, apply_heights })
}

/// The heights from `lo` to `hi`.
fn heights_between(lo: u32, hi: u32) -> (heights: Vec<u32>)
    requires
        lo <= hi,
    ensures
        heights@ == height_range(lo as int, hi as int),
{
    let mut heights: Vec<u32> = Vec::new();
    let mut h: u32 = lo;
    loop
        invariant
            lo <= h <= hi,
            heights@ == height_range(lo as int, h - 1),
        decreases hi - h,
    {
        heights.push(h);
        assert(heights@ =~= height_range(lo as int, h as int));
        if h == hi {
            return heights;
        }
        h += 1;
    }
}

} // verus!
