//! Opening a stored chain: a foreign or torn database is refused.

use crate::config::NetworkConfig;
use crate::error;
use crate::hash::Hash32;
use crate::sync::{ChainSyncer, SyncState, SyncView};
use crate::text;
use std::collections::BTreeMap;
use vstd::prelude::*;
use vstd::string::StringExecFns;

verus! {

broadcast use {vstd::std_specs::btree::group_btree_axioms, vstd::laws_cmp::group_laws_cmp};

/// What is read of a stored header: its own hash and the state root it commits to.
#[derive(Clone, Copy, Debug)]
pub struct StoredHeader {
    pub hash: Hash32,
    pub state_root: Hash32,
}

/// The tip that the database has on record.
#[derive(Clone, Copy, Debug)]
pub struct StoredTip {
    pub height: u32,
    pub hash: Hash32,
    pub supply: u64,
}

/// Reads the stored headers from height zero up to the tip, as far as there are any.
pub struct HeaderLoad {
    pub tip_height: u32,
    /// The height to read next; `None` when the reading is done.
    pub next: Option<u32>,
    pub headers: BTreeMap<u32, StoredHeader>,
}

/// What was read of the stored headers, and the height to read next.
#[verifier::ext_equal]
pub struct LoadView {
    pub tip_height: u32,
    pub next: Option<u32>,
    pub headers: Map<u32, StoredHeader>,
}

impl View for HeaderLoad {
    type V = LoadView;

    open spec fn view(&self) -> LoadView {
        LoadView { tip_height: self.tip_height, next: self.next, headers: self.headers@ }
    }
}

/// What was read after the next height has given what is stored there.
pub open spec fn load_step(v: LoadView, stored: Option<StoredHeader>) -> LoadView {
    let h = v.next->0;
    match stored {
        Some(header) => LoadView {
            headers: v.headers.insert(h, header),
            next: if h == v.tip_height {
                None
            } else {
                Some((h + 1) as u32)
            },
            ..v
        },
        None => LoadView { next: None, ..v },
    }
}

/// What was read when the reading is done, of what is stored.
pub open spec fn load_all(v: LoadView, stored: Map<u32, StoredHeader>) -> LoadView
    decreases
            if v.next is Some && v.next->0 <= v.tip_height {
                v.tip_height - v.next->0 + 1
            } else {
                0int
            },
{
    if v.next is Some && v.next->0 <= v.tip_height {
        let h = v.next->0;
        load_all(
            load_step(
                v,
                if stored.contains_key(h) {
                    Some(stored[h])
                } else {
                    None
                },
            ),
            stored,
        )
    } else {
        v
    }
}

/// A stored chain is read from height zero on, without a gap and up to its tip, but no further than
/// to the first height at which nothing is stored; and what is read is what is stored.
pub proof fn stored_chain_is_read_without_gaps(
    v: LoadView,
    stored: Map<u32, StoredHeader>,
    h: u32,
)
    requires
        v.next matches Some(n) ==> n <= v.tip_height && forall|k: u32| #[trigger]
            v.headers.contains_key(k) <==> k < n,
        v.next is Some,
        forall|k: u32| #[trigger]
            v.headers.contains_key(k) ==> stored.contains_key(k) && stored[k] == v.headers[k],
    ensures
        ({
            let read = load_all(v, stored).headers;
            &&& read.contains_key(h) <==> h <= v.tip_height && forall|k: u32|
                k <= h ==> #[trigger] stored.contains_key(k)
            &&& read.contains_key(h) ==> read[h] == stored[h]
            &&& load_all(v, stored).next is None
        }),
    decreases v.tip_height - v.next->0,
{
    let n = v.next->0;
    let here = if stored.contains_key(n) {
        Some(stored[n])
    } else {
        None
    };
    let after = load_step(v, here);
    assert(load_all(v, stored) == load_all(after, stored));
    if stored.contains_key(n) && n < v.tip_height {
        stored_chain_is_read_without_gaps(after, stored, h);
    } else {
        assert(load_all(after, stored) == after);
        if stored.contains_key(n) {
            assert forall|k: u32| k <= n implies #[trigger] stored.contains_key(k) by {
                if k < n {
                    assert(v.headers.contains_key(k));
                }
            }
        } else {
            if h < n {
                assert forall|k: u32| k <= h implies #[trigger] stored.contains_key(k) by {
                    assert(v.headers.contains_key(k));
                }
            }
        }
    }
}

impl HeaderLoad {
    /// The next height is not above the tip, and exactly the heights below it are there.
    pub open spec fn wf(self) -> bool {
        self.next matches Some(h) ==> h <= self.tip_height && forall|k: u32| #[trigger]
            self.headers@.contains_key(k) <==> k < h
    }

    pub fn new(tip_height: u32) -> (load: Self)
        ensures
            load.wf(),
            load.tip_height == tip_height,
            load.next == Some(0u32),
            load.headers@ == Map::<u32, StoredHeader>::empty(),
            load@ == (LoadView { tip_height, next: Some(0u32), headers: Map::empty() }),
    {
        HeaderLoad { tip_height, next: Some(0), headers: BTreeMap::new() }
    }

    /// Takes what is stored at the next height. The reading is done at the tip, and where
    /// nothing is stored.
    pub fn supply(&mut self, stored: Option<StoredHeader>)
        requires
            old(self).wf(),
            old(self).next is Some,
        ensures
            final(self).wf(),
            final(self).tip_height == old(self).tip_height,
            ({
                let h = old(self).next->0;
                match stored {
                    Some(header) => {
                        &&& final(self).headers@ == old(self).headers@.insert(h, header)
                        &&& final(self).next == if h == old(self).tip_height {
                            None
                        } else {
                            Some((h + 1) as u32)
                        }
                    },
                    None => final(self).headers@ == old(self).headers@ && final(self).next is None,
                }
            }),
            final(self)@ == load_step(old(self)@, stored),
    {
        let h: u32 = match self.next {
            Some(h) => h,
            None => 0,
        };
        match stored {
            Some(header) => {
                self.headers.insert(h, header);
                self.next = if h == self.tip_height {
                    None
                } else {
                    Some(h + 1)
                };
            },
            None => {
                self.next = None;
            },
        }
    }
}

/// The sum of the balances.
pub open spec fn sum(balances: Seq<u64>) -> nat
    decreases balances.len(),
{
    if balances.len() == 0 {
        0
    } else {
        sum(balances.drop_last()) + balances.last() as nat
    }
}

/// The sum of the balances, exactly.
pub fn exact_sum(balances: &[u64]) -> (total: u128)
    ensures
        total == sum(balances@),
{
    let mut total: u128 = 0;
    let mut i: usize = 0;
    assert(balances@.take(0) =~= Seq::empty());
    while i < balances.len()
        invariant
            i <= balances@.len(),
            total == sum(balances@.take(i as int)),
            total <= i * u64::MAX,
        decreases balances.len() - i,
    {
        assert(balances@.take(i + 1).drop_last() =~= balances@.take(i as int));
        assert(i * u64::MAX + u64::MAX <= u128::MAX) by (nonlinear_arith)
            requires
                i <= usize::MAX,
        ;
        assert((i + 1) * u64::MAX == i * u64::MAX + u64::MAX) by (nonlinear_arith);
        total = total + balances[i] as u128;
        i += 1;
    }
    assert(balances@.take(i as int) =~= balances@);
    total
}

/// What is wrong with a stored chain.
#[allow(inconsistent_fields)]
pub enum ChainFault {
    /// The database is that of another chain.
    ForeignGenesis(Hash32),
    /// The header at height zero is not there or not the genesis.
    BadFirstHeader,
    /// There is no header at the height of the tip.
    MissingTip,
    /// The header at the height of the tip is another one.
    AliasedTip,
    /// The accounts do not have the state root of the tip.
    StateRoot { stored: Hash32, expected: Hash32 },
    /// The balances do not add up to the recorded supply.
    Supply { sum: u128, recorded: u64 },
}

/// What is found wrong first with a stored chain.
pub open spec fn first_fault(
    genesis: Hash32,
    stored_genesis: Option<Hash32>,
    headers: Map<u32, StoredHeader>,
    tip: StoredTip,
    state_root: Hash32,
    balances: Seq<u64>,
) -> Option<ChainFault> {
    if stored_genesis matches Some(g) && g != genesis {
        Some(ChainFault::ForeignGenesis(stored_genesis->0))
    } else if !(headers.contains_key(0) && headers[0].hash == genesis) {
        Some(ChainFault::BadFirstHeader)
    } else if !headers.contains_key(tip.height) {
        Some(ChainFault::MissingTip)
    } else if headers[tip.height].hash != tip.hash {
        Some(ChainFault::AliasedTip)
    } else if state_root != headers[tip.height].state_root {
        Some(
            ChainFault::StateRoot {
                stored: state_root,
                expected: headers[tip.height].state_root,
            },
        )
    } else if sum(balances) != tip.supply {
        Some(ChainFault::Supply { sum: sum(balances) as u128, recorded: tip.supply })
    } else {
        None
    }
}

/// Checks a stored chain: `None` where it is that of this network and whole.
/// `state_root` is the root of the stored accounts, and `balances` are theirs.
pub fn check_stored_chain(
    genesis: Hash32,
    stored_genesis: Option<Hash32>,
    headers: &BTreeMap<u32, StoredHeader>,
    tip: StoredTip,
    state_root: Hash32,
    balances: &[u64],
) -> (fault: Option<ChainFault>)
    ensures
        fault == first_fault(genesis, stored_genesis, headers@, tip, state_root, balances@),
{
    if let Some(stored) = stored_genesis {
        if stored != genesis {
            return Some(ChainFault::ForeignGenesis(stored));
        }
    }
    let zero: u32 = 0;
    match headers.get(&zero) {
        Some(header) => {
            if header.hash != genesis {
                return Some(ChainFault::BadFirstHeader);
            }
        },
        None => {
            return Some(ChainFault::BadFirstHeader);
        },
    }
    match headers.get(&tip.height) {
        Some(header) => {
            if header.hash != tip.hash {
                return Some(ChainFault::AliasedTip);
            }
            if state_root != header.state_root {
                return Some(
                    ChainFault::StateRoot { stored: state_root, expected: header.state_root },
                );
            }
        },
        None => {
            return Some(ChainFault::MissingTip);
        },
    }
    let total: u128 = exact_sum(balances);
    if total != tip.supply as u128 {
        return Some(ChainFault::Supply { sum: total, recorded: tip.supply });
    }
    None
}

/// The text for a chain that is refused.
pub open spec fn fault_text(
    fault: ChainFault,
    network_name: Seq<char>,
    genesis: Hash32,
    tip: StoredTip,
) -> Seq<char> {
    match fault {
        ChainFault::ForeignGenesis(stored) => "FATAL: stored genesis "@ + text::hex_text(stored.0@)
            + " does not match "@ + network_name + " network genesis "@ + text::hex_text(genesis.0@)
            + ". Refusing to open a foreign database (resync into a fresh data directory instead)."@,
        ChainFault::BadFirstHeader => "FATAL: height-0 header is missing or not the "@
            + network_name + " genesis hash "@ + text::hex_text(genesis.0@)
            + ". Database is torn or foreign; resync into a fresh data directory."@,
        ChainFault::MissingTip => "FATAL: persisted tip height "@ + text::decimal(
            tip.height as nat,
        ) + " has no stored headers. Database is torn; resync into a fresh data directory."@,
        ChainFault::AliasedTip => "FATAL: persisted tip hash "@ + text::hex_text(tip.hash.0@)
            + " does not match stored header at height "@ + text::decimal(tip.height as nat)
            + ". Database is torn or aliased; resync into a fresh data directory."@,
        ChainFault::StateRoot { stored, expected } => "FATAL: stored state root "@ + text::hex_text(
            stored.0@,
        ) + " does not match tip header state root "@ + text::hex_text(expected.0@)
            + " at height "@ + text::decimal(tip.height as nat)
            + ". Database state is corrupted; resync into a fresh data directory."@,
        ChainFault::Supply { sum, recorded } => "FATAL: stored balances sum to "@ + text::decimal(
            sum as nat,
        ) + " but tip records supply "@ + text::decimal(recorded as nat) + " at height "@
            + text::decimal(tip.height as nat)
            + ". Database state is corrupted; resync into a fresh data directory."@,
    }
}

/// The text for a chain that is refused.
pub fn describe_fault(fault: &ChainFault, network: &NetworkConfig, genesis: &Hash32, tip: &StoredTip) -> (
    whole: String)
    ensures
        whole@ == fault_text(*fault, network.network_name@, *genesis, *tip),
{
    let genesis_hex: String = genesis.to_hex();
    match fault {
        ChainFault::ForeignGenesis(stored) => {
            let stored_hex: String = stored.to_hex();
            let mut s: String = error::prefixed("FATAL: stored genesis ", stored_hex.as_str());
            s.append(" does not match ");
            s.append(network.network_name.as_str());
            s.append(" network genesis ");
            s.append(genesis_hex.as_str());
            s.append(
                ". Refusing to open a foreign database (resync into a fresh data directory instead).",
            );
            s
        },
        ChainFault::BadFirstHeader => {
            let mut s: String = error::prefixed(
                "FATAL: height-0 header is missing or not the ",
                network.network_name.as_str(),
            );
            s.append(" genesis hash ");
            s.append(genesis_hex.as_str());
            s.append(". Database is torn or foreign; resync into a fresh data directory.");
            s
        },
        ChainFault::MissingTip => {
            let mut s: String = text::with_number(
                "FATAL: persisted tip height ",
                tip.height as u64,
            );
            s.append(
                " has no stored headers. Database is torn; resync into a fresh data directory.",
            );
            s
        },
        ChainFault::AliasedTip => {
            let tip_hex: String = tip.hash.to_hex();
            let mut s: String = error::prefixed("FATAL: persisted tip hash ", tip_hex.as_str());
            s.append(" does not match stored header at height ");
            text::push_decimal(&mut s, tip.height as u64);
            s.append(". Database is torn or aliased; resync into a fresh data directory.");
            s
        },
        ChainFault::StateRoot { stored, expected } => {
            let stored_hex: String = stored.to_hex();
            let expected_hex: String = expected.to_hex();
            let mut s: String = error::prefixed("FATAL: stored state root ", stored_hex.as_str());
            s.append(" does not match tip header state root ");
            s.append(expected_hex.as_str());
            s.append(" at height ");
            text::push_decimal(&mut s, tip.height as u64);
            s.append(". Database state is corrupted; resync into a fresh data directory.");
            s
        },
        ChainFault::Supply { sum, recorded } => {
            let mut s: String = "FATAL: stored balances sum to ".to_string();
            text::push_wide_decimal(&mut s, *sum);
            s.append(" but tip records supply ");
            text::push_decimal(&mut s, *recorded);
            s.append(" at height ");
            text::push_decimal(&mut s, tip.height as u64);
            s.append(". Database state is corrupted; resync into a fresh data directory.");
            s
        },
    }
}

/// Checks that a newly built genesis is the one that the configuration expects: the text where
/// it is not.
pub fn check_new_genesis(expected: &Hash32, computed: &Hash32) -> (refusal: Option<String>)
    ensures
        if *expected == *computed {
            refusal is None
        } else {
            refusal matches Some(s) && s@ == "FATAL: genesis hash mismatch — expected "@
                + text::hex_text(expected.0@) + ", computed "@ + text::hex_text(computed.0@)
                + ". This indicates a network configuration error."@
        },
{
    if *expected == *computed {
        return None;
    }
    let expected_hex: String = expected.to_hex();
    let computed_hex: String = computed.to_hex();
    let mut s: String = error::prefixed(
        "FATAL: genesis hash mismatch — expected ",
        expected_hex.as_str(),
    );
    s.append(", computed ");
    s.append(computed_hex.as_str());
    s.append(". This indicates a network configuration error.");
    Some(s)
}

/// The hashes of stored headers.
pub open spec fn header_hashes(headers: Map<u32, StoredHeader>) -> Map<u32, Hash32> {
    headers.map_values(|h: StoredHeader| h.hash)
}

/// The state of a syncer for a chain that was loaded.
pub open spec fn loaded_state(
    genesis: Hash32,
    height: u32,
    headers: Map<u32, StoredHeader>,
) -> SyncView {
    SyncView {
        state: SyncState::Idle,
        best_height: 0,
        best_hash: genesis,
        sync_peer: None,
        pending_headers: Seq::empty(),
        synced_header_height: height,
        known_headers: map![0u32 => genesis].union_prefer_right(header_hashes(headers)),
        pending_block_requests: Seq::empty(),
        next_height: 1,
        last_sync_request_time: None,
        consecutive_sync_failures: 0,
    }
}

/// After a chain was loaded its height is the validated tip, every one of its headers is known at
/// its height, genesis is known in any case, and nothing else; and no sync is under way.
pub proof fn loaded_chain_is_known(
    genesis: Hash32,
    height: u32,
    headers: Map<u32, StoredHeader>,
    h: u32,
)
    ensures
        ({
            let v = loaded_state(genesis, height, headers);
            &&& v.known_headers.contains_key(h) <==> h == 0 || headers.contains_key(h)
            &&& headers.contains_key(h) ==> v.known_headers[h] == headers[h].hash
            &&& !headers.contains_key(0) ==> v.known_headers[0] == genesis
            &&& v.synced_header_height == height
            &&& v.state == SyncState::Idle && v.sync_peer is None
            &&& v.pending_headers.len() == 0 && v.pending_block_requests.len() == 0
            &&& v.consecutive_sync_failures == 0 && v.last_sync_request_time is None
            &&& v.best_height == 0 && v.best_hash == genesis && v.next_height == 1
        }),
{
}

/// A syncer for a chain that was loaded: the validated tip is its height, and all its headers
/// are known, so that batches which follow the tip link to them.
pub fn syncer_for(genesis: Hash32, height: u32, headers: &BTreeMap<u32, StoredHeader>) -> (syncer:
    ChainSyncer)
    ensures
        syncer@ == (SyncView {
            state: SyncState::Idle,
            best_height: 0,
            best_hash: genesis,
            sync_peer: None,
            pending_headers: Seq::empty(),
            synced_header_height: height,
            known_headers: map![0u32 => genesis].union_prefer_right(header_hashes(headers@)),
            pending_block_requests: Seq::empty(),
            next_height: 1,
            last_sync_request_time: None,
            consecutive_sync_failures: 0,
        }),
        syncer@ == loaded_state(genesis, height, headers@),
{
    let mut syncer: ChainSyncer = ChainSyncer::new(genesis);
    syncer.set_synced_height(height);
    let ghost start = syncer@;
    for (h, header) in it: headers.iter()
        invariant
            start.known_headers == map![0u32 => genesis],
            syncer@ == (SyncView { known_headers: syncer@.known_headers, ..start }),
            forall|i: int|
                0 <= i < it.index() ==> syncer@.known_headers.contains_key(*(#[trigger] it.seq()[i]).0)
                    && syncer@.known_headers[*it.seq()[i].0] == headers@[*it.seq()[i].0].hash,
            forall|k: u32| #[trigger]
                syncer@.known_headers.contains_key(k) ==> start.known_headers.contains_key(k)
                    || headers@.contains_key(k),
            forall|k: u32| #[trigger]
                syncer@.known_headers.contains_key(k) && !headers@.contains_key(k)
                    ==> syncer@.known_headers[k] == start.known_headers[k],
            start.known_headers.contains_key(0) ==> syncer@.known_headers.contains_key(0),
            forall|i: int|
                0 <= i < it.seq().len() ==> headers@.contains_key(*(#[trigger] it.seq()[i]).0)
                    && headers@[*it.seq()[i].0] == *it.seq()[i].1,
            forall|k: u32| #[trigger]
                headers@.contains_key(k) ==> it.seq().contains((&k, &headers@[k])),
    {
        syncer.track_validated(*h, header.hash);
    }
    proof {
        let expected = map![0u32 => genesis].union_prefer_right(header_hashes(headers@));
        assert forall|k: u32| headers@.contains_key(k) implies syncer@.known_headers.contains_key(k)
            && syncer@.known_headers[k] == headers@[k].hash by {
        }
        assert(syncer@.known_headers =~= expected);
    }
    syncer
}

/// Of a chain that is accepted, the genesis and the tip are where they must be, and the
/// balances are the supply.
pub proof fn accepted_chain_is_coherent(
    genesis: Hash32,
    stored_genesis: Option<Hash32>,
    headers: Map<u32, StoredHeader>,
    tip: StoredTip,
    state_root: Hash32,
    balances: Seq<u64>,
)
    requires
        first_fault(genesis, stored_genesis, headers, tip, state_root, balances) is None,
    ensures
        stored_genesis is None || stored_genesis == Some(genesis),
        headers.contains_key(0) && headers[0].hash == genesis,
        headers.contains_key(tip.height) && headers[tip.height].hash == tip.hash,
        headers[tip.height].state_root == state_root,
        sum(balances) == tip.supply,
{
}

/// Every coherent chain is accepted, whatever its accounts and headers, and every other one is
/// refused for the first thing that is wrong with it.
pub proof fn coherent_chains_are_accepted(
    genesis: Hash32,
    stored_genesis: Option<Hash32>,
    headers: Map<u32, StoredHeader>,
    tip: StoredTip,
    state_root: Hash32,
    balances: Seq<u64>,
)
    ensures
        ({
            let fault = first_fault(genesis, stored_genesis, headers, tip, state_root, balances);
            let native = stored_genesis is None || stored_genesis == Some(genesis);
            let rooted = headers.contains_key(0) && headers[0].hash == genesis;
            let topped = headers.contains_key(tip.height);
            let named = headers[tip.height].hash == tip.hash;
            let settled = headers[tip.height].state_root == state_root;
            let funded = balance_total(balances, 0) == tip.supply;
            &&& fault is None <==> native && rooted && topped && named && settled && funded
            &&& fault matches Some(ChainFault::ForeignGenesis(g)) ==> !native && stored_genesis
                == Some(g)
            &&& !native ==> fault is Some && fault->0 is ForeignGenesis
            &&& native && !rooted ==> fault == Some(ChainFault::BadFirstHeader)
            &&& native && rooted && !topped ==> fault == Some(ChainFault::MissingTip)
            &&& native && rooted && topped && !named ==> fault == Some(ChainFault::AliasedTip)
            &&& native && rooted && topped && named && !settled ==> fault == Some(
                ChainFault::StateRoot {
                    stored: state_root,
                    expected: headers[tip.height].state_root,
                },
            )
            &&& native && rooted && topped && named && settled && !funded && balance_total(
                balances,
                0,
            ) <= u128::MAX ==> fault == Some(
                ChainFault::Supply {
                    sum: balance_total(balances, 0) as u128,
                    recorded: tip.supply,
                },
            )
        }),
{
    sum_counts_every_balance(balances, 0);
}

/// The balances from the position `from` on, added up one after the other.
pub open spec fn balance_total(balances: Seq<u64>, from: int) -> int
    decreases balances.len() - from,
{
    if from < 0 || from >= balances.len() {
        0
    } else {
        balances[from] + balance_total(balances, from + 1)
    }
}

/// The sum of the balances counts every one of them once: it is what they come to from the first
/// one on, and what two parts of them come to together.
pub proof fn sum_counts_every_balance(balances: Seq<u64>, cut: int)
    requires
        0 <= cut <= balances.len(),
    ensures
        sum(balances) == balance_total(balances, 0),
        sum(balances) == sum(balances.take(cut)) + sum(balances.skip(cut)),
    decreases balances.len(),
{
    lemma_total_from(balances, 0);
    assert(balances.take(0) =~= Seq::empty());
    lemma_sum_parts(balances, cut);
}

proof fn lemma_total_from(balances: Seq<u64>, from: int)
    requires
        0 <= from <= balances.len(),
    ensures
        sum(balances) == sum(balances.take(from)) + balance_total(balances, from),
    decreases balances.len() - from,
{
    if from == balances.len() {
        assert(balances.take(from) =~= balances);
    } else {
        lemma_total_from(balances, from + 1);
        assert(balances.take(from + 1).drop_last() =~= balances.take(from));
    }
}

proof fn lemma_sum_parts(balances: Seq<u64>, cut: int)
    requires
        0 <= cut <= balances.len(),
    ensures
        sum(balances) == sum(balances.take(cut)) + sum(balances.skip(cut)),
    decreases balances.len(),
{
    if cut == balances.len() {
        assert(balances.take(cut) =~= balances);
        assert(balances.skip(cut) =~= Seq::empty());
    } else {
        let front = balances.drop_last();
        lemma_sum_parts(front, cut);
        assert(front.take(cut) =~= balances.take(cut));
        assert(front.skip(cut) =~= balances.skip(cut).drop_last());
        assert(balances.skip(cut).last() == balances.last());
    }
}

/// The hashes that a loaded chain is known by are those of its headers, at their heights.
pub proof fn loaded_headers_are_known(headers: Map<u32, StoredHeader>, height: u32)
    ensures
        header_hashes(headers).contains_key(height) <==> headers.contains_key(height),
        headers.contains_key(height) ==> header_hashes(headers)[height] == headers[height].hash,
{
}

} // verus!
