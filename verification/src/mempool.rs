//! The pool of transactions that wait for a block.

use crate::bytes::same_bytes;
use crate::error::CoreError;
use crate::hash;
use crate::hash::Hash32;
use crate::table::{Key, Table};
use vstd::prelude::*;

verus! {

/// Most bytes of transactions in the pool.
pub const MAX_MEMPOOL_SIZE: usize = 50_000_000;

/// Most transactions in the pool.
pub const MAX_MEMPOOL_TXS: usize = 100_000;

/// The address of an account.
#[derive(Clone, Copy, Debug, Eq, Hash)]
pub struct Address(pub [u8; 20]);

impl PartialEq for Address {
    fn eq(&self, other: &Self) -> (same: bool) {
        let same: bool = same_bytes(&self.0, &other.0);
        assert(self.0@ == other.0@ ==> self.0 =~= other.0);
        same
    }
}

impl vstd::std_specs::cmp::PartialEqSpecImpl for Address {
    open spec fn obeys_eq_spec() -> bool {
        true
    }

    open spec fn eq_spec(&self, other: &Self) -> bool {
        *self == *other
    }
}

impl Key for Address {
    fn same(&self, other: &Self) -> (same: bool) {
        *self == *other
    }
}

/// What the pool reads of a transaction, and its canonical encoding.
#[derive(Clone, Debug)]
pub struct Transaction {
    pub sender: Address,
    pub recipient: Address,
    pub amount: u64,
    pub nonce: u64,
    pub encoded: Vec<u8>,
}

/// The contents of a transaction.
pub struct TxView {
    pub sender: Address,
    pub recipient: Address,
    pub amount: u64,
    pub nonce: u64,
    pub encoded: Seq<u8>,
}

impl View for Transaction {
    type V = TxView;

    open spec fn view(&self) -> TxView {
        TxView {
            sender: self.sender,
            recipient: self.recipient,
            amount: self.amount,
            nonce: self.nonce,
            encoded: self.encoded@,
        }
    }
}

impl Transaction {
    /// The same transaction once more.
    pub fn duplicate(&self) -> (tx: Transaction)
        ensures
            tx@ == self@,
    {
        Transaction {
            sender: self.sender,
            recipient: self.recipient,
            amount: self.amount,
            nonce: self.nonce,
            encoded: vstd::slice::slice_to_vec(self.encoded.as_slice()),
        }
    }
}

/// A transaction in the pool.
#[derive(Clone, Debug)]
pub struct MempoolEntry {
    pub tx: Transaction,
    pub tx_hash: Hash32,
    pub size: usize,
    pub added_at: u64,
}

/// A transaction in the pool and the hash it is filed under.
pub struct EntryView {
    pub tx: TxView,
    pub tx_hash: Hash32,
}

impl View for MempoolEntry {
    type V = EntryView;

    open spec fn view(&self) -> EntryView {
        EntryView { tx: self.tx@, tx_hash: self.tx_hash }
    }
}

/// Transactions in the order in which they came.
pub struct Mempool {
    pub entries: Vec<MempoolEntry>,
    pub total_size: usize,
}

/// The contents of a list of entries.
pub open spec fn entry_views(entries: Seq<MempoolEntry>) -> Seq<EntryView> {
    entries.map_values(|e: MempoolEntry| e@)
}

impl View for Mempool {
    type V = Seq<EntryView>;

    open spec fn view(&self) -> Seq<EntryView> {
        entry_views(self.entries@)
    }
}

/// The bytes of all transactions.
pub open spec fn pool_size(pool: Seq<EntryView>) -> nat
    decreases pool.len(),
{
    if pool.len() == 0 {
        0
    } else {
        pool_size(pool.drop_last()) + pool.last().tx.encoded.len()
    }
}

/// A transaction is filed under the hash.
pub open spec fn has_hash(pool: Seq<EntryView>, tx_hash: Hash32) -> bool {
    exists|i: int| 0 <= i < pool.len() && (#[trigger] pool[i]).tx_hash == tx_hash
}

/// Two transactions of one sender with one nonce: only one of them can go into the chain.
pub open spec fn same_slot(a: TxView, b: TxView) -> bool {
    a.sender == b.sender && a.nonce == b.nonce
}

/// What the pool always keeps: hashes are distinct, no two transactions exclude each other,
/// and the limits hold.
pub open spec fn pool_ok(pool: Seq<EntryView>) -> bool {
    &&& forall|i: int, j: int|
        0 <= i < j < pool.len() ==> (#[trigger] pool[i]).tx_hash != (#[trigger] pool[j]).tx_hash
            && !same_slot(pool[i].tx, pool[j].tx)
    &&& pool.len() <= MAX_MEMPOOL_TXS
    &&& pool_size(pool) <= MAX_MEMPOOL_SIZE
}

/// The hash that a transaction is filed under: the digest of its encoding.
pub open spec fn digest_of(tx: TxView) -> Hash32 {
    Hash32(hash::blake3_digest(tx.encoded))
}

/// Every transaction is filed under the digest of its encoding.
pub open spec fn filed_by_digest(pool: Seq<EntryView>) -> bool {
    forall|i: int| 0 <= i < pool.len() ==> (#[trigger] pool[i]).tx_hash == digest_of(pool[i].tx)
}

/// The pool without what the new transaction replaces.
pub open spec fn without_slot(pool: Seq<EntryView>, tx: TxView) -> Seq<EntryView> {
    pool.filter(|e: EntryView| !same_slot(e.tx, tx))
}

/// The pool without the transactions whose hashes are listed.
pub open spec fn without_listed(pool: Seq<EntryView>, hashes: Seq<Hash32>) -> Seq<EntryView> {
    pool.filter(|e: EntryView| !hashes.contains(e.tx_hash))
}

/// The pool after a valid transaction with the given hash came, and the answer: whether it
/// was added (false: it was there already), or the text of the error.
pub open spec fn added(pool: Seq<EntryView>, tx: TxView, tx_hash: Hash32) -> (
    Seq<EntryView>,
    Result<bool, Seq<char>>,
) {
    let rest = without_slot(pool, tx);
    if has_hash(pool, tx_hash) {
        (pool, Ok(false))
    } else if rest.len() >= MAX_MEMPOOL_TXS {
        (rest, Err("mempool full: too many transactions"@))
    } else if pool_size(rest) + tx.encoded.len() > MAX_MEMPOOL_SIZE {
        (rest, Err("mempool full: size limit exceeded"@))
    } else {
        (rest.push(EntryView { tx, tx_hash }), Ok(true))
    }
}

/// `e` is the error for a transaction that is refused whatever the pool holds; `None` is for
/// one that is not.
pub open spec fn verdict(e: Option<CoreError>, tx: TxView, signature_valid: bool) -> bool {
    if !signature_valid {
        e matches Some(CoreError::InvalidSignature(text)) && text@
            == "transaction signature verification failed"@
    } else if tx.amount == 0 {
        e matches Some(CoreError::InvalidTransaction(text)) && text@
            == "amount must be greater than zero"@
    } else if tx.sender == tx.recipient {
        e matches Some(CoreError::InvalidTransaction(text)) && text@
            == "sender and recipient must differ"@
    } else {
        e is None
    }
}

/// The transaction is acceptable whatever the pool holds.
pub open spec fn acceptable(tx: TxView, signature_valid: bool) -> bool {
    signature_valid && tx.amount != 0 && tx.sender != tx.recipient
}

/// What adding a transaction answers and does.
pub open spec fn add_answered(
    before: Seq<EntryView>,
    after: Seq<EntryView>,
    tx: TxView,
    tx_hash: Hash32,
    signature_valid: bool,
    res: Result<bool, CoreError>,
) -> bool {
    if !acceptable(tx, signature_valid) {
        &&& after == before
        &&& res matches Err(e)
        &&& verdict(Some(e), tx, signature_valid)
    } else {
        &&& after == added(before, tx, tx_hash).0
        &&& match added(before, tx, tx_hash).1 {
            Ok(new) => res == Ok::<bool, CoreError>(new),
            Err(text) => res matches Err(CoreError::InvalidTransaction(s)) && s@ == text,
        }
    }
}

/// Which entries leave the pool.
enum Leaving<'a> {
    Hashed(Hash32),
    Slot(Address, u64),
    Listed(&'a [Hash32]),
}

impl<'a> Leaving<'a> {
    spec fn holds(self, e: EntryView) -> bool {
        match self {
            Leaving::Hashed(tx_hash) => e.tx_hash == tx_hash,
            Leaving::Slot(sender, nonce) => e.tx.sender == sender && e.tx.nonce == nonce,
            Leaving::Listed(hashes) => hashes@.contains(e.tx_hash),
        }
    }

    fn test(&self, e: &MempoolEntry) -> (holds: bool)
        ensures
            holds == self.holds(e@),
    {
        match self {
            Leaving::Hashed(tx_hash) => e.tx_hash == *tx_hash,
            Leaving::Slot(sender, nonce) => e.tx.sender == *sender && e.tx.nonce == *nonce,
            Leaving::Listed(hashes) => listed(hashes, e.tx_hash),
        }
    }
}

fn listed(hashes: &[Hash32], wanted: Hash32) -> (found: bool)
    ensures
        found == hashes@.contains(wanted),
{
    let mut i: usize = 0;
    while i < hashes.len()
        invariant
            i <= hashes@.len(),
            forall|k: int| 0 <= k < i ==> hashes@[k] != wanted,
        decreases hashes.len() - i,
    {
        if hashes[i] == wanted {
            return true;
        }
        i += 1;
    }
    false
}

pub proof fn lemma_pool_size_remove(pool: Seq<EntryView>, i: int)
    requires
        0 <= i < pool.len(),
    ensures
        pool_size(pool) == pool_size(pool.remove(i)) + pool[i].tx.encoded.len(),
    decreases pool.len(),
{
    if i == pool.len() - 1 {
        assert(pool.remove(i) =~= pool.drop_last());
    } else {
        lemma_pool_size_remove(pool.drop_last(), i);
        assert(pool.remove(i).drop_last() =~= pool.drop_last().remove(i));
        assert(pool.remove(i).last() == pool.last());
    }
}

proof fn lemma_filter_remove(pool: Seq<EntryView>, i: int, keep: spec_fn(EntryView) -> bool)
    requires
        0 <= i < pool.len(),
        !keep(pool[i]),
    ensures
        pool.remove(i).filter(keep) == pool.filter(keep),
    decreases pool.len(),
{
    reveal(Seq::filter);
    if i == pool.len() - 1 {
        assert(pool.remove(i) =~= pool.drop_last());
    } else {
        lemma_filter_remove(pool.drop_last(), i, keep);
        assert(pool.remove(i).drop_last() =~= pool.drop_last().remove(i));
        assert(pool.remove(i).last() == pool.last());
    }
}

proof fn lemma_filter_all(pool: Seq<EntryView>, keep: spec_fn(EntryView) -> bool)
    requires
        forall|i: int| 0 <= i < pool.len() ==> keep(#[trigger] pool[i]),
    ensures
        pool.filter(keep) == pool,
    decreases pool.len(),
{
    reveal(Seq::filter);
    if pool.len() > 0 {
        let front = pool.drop_last();
        assert forall|i: int| 0 <= i < front.len() implies keep(#[trigger] front[i]) by {
            assert(front[i] == pool[i]);
        }
        lemma_filter_all(front, keep);
        assert(keep(pool[pool.len() - 1]));
        assert(front.push(pool.last()) =~= pool);
    }
}

impl Default for Mempool {
    fn default() -> (pool: Self)
        ensures
            pool.wf(),
            pool@ == Seq::<EntryView>::empty(),
    {
        Self::new()
    }
}

impl Mempool {
    /// What the pool always keeps, and its bookkeeping: the sizes are those of the encodings
    /// and add up to the total.
    pub open spec fn wf(self) -> bool {
        &&& pool_ok(self@)
        &&& self.total_size == pool_size(self@)
        &&& forall|i: int|
            0 <= i < self.entries@.len() ==> (#[trigger] self.entries@[i]).size
                == self.entries@[i].tx.encoded@.len()
    }

    pub fn new() -> (pool: Self)
        ensures
            pool.wf(),
            pool@ == Seq::<EntryView>::empty(),
    {
        let pool = Mempool { entries: Vec::new(), total_size: 0 };
        assert(pool@ =~= Seq::<EntryView>::empty());
        pool
    }

    /// Checks what can be checked without the chain's state: the signature, whose verdict the
    /// caller hands in, the amount, and that nobody pays to the own account.
    pub fn validate_transaction(tx: &Transaction, signature_valid: bool) -> (res: Result<
        (),
        CoreError,
    >)
        ensures
            verdict(
                match res {
                    Ok(_) => None,
                    Err(e) => Some(e),
                },
                tx@,
                signature_valid,
            ),
            res is Ok <==> acceptable(tx@, signature_valid),
    {
        if !signature_valid {
            return Err(
                CoreError::InvalidSignature(
                    "transaction signature verification failed".to_string(),
                ),
            );
        }
        if tx.amount == 0 {
            return Err(
                CoreError::InvalidTransaction("amount must be greater than zero".to_string()),
            );
        }
        if tx.sender == tx.recipient {
            return Err(
                CoreError::InvalidTransaction("sender and recipient must differ".to_string()),
            );
        }
        Ok(())
    }

    /// Adds a transaction. `Ok(true)`: it was added, in place of one with the same sender and
    /// nonce where there was one. `Ok(false)`: it was there already.
    pub fn add_transaction(&mut self, tx: Transaction, signature_valid: bool) -> (res: Result<
        bool,
        CoreError,
    >)
        requires
            old(self).wf(),
        ensures
            final(self).wf(),
            add_answered(old(self)@, final(self)@, tx@, digest_of(tx@), signature_valid, res),
            filed_by_digest(old(self)@) ==> filed_by_digest(final(self)@),
    {
        let tx_hash: Hash32 = Hash32::digest(tx.encoded.as_slice());
        self.add_hashed(tx, tx_hash, signature_valid)
    }

    /// Adds a transaction under the given hash; see `add_transaction`.
    pub fn add_hashed(&mut self, tx: Transaction, tx_hash: Hash32, signature_valid: bool) -> (res:
        Result<bool, CoreError>)
        requires
            old(self).wf(),
        ensures
            final(self).wf(),
            add_answered(old(self)@, final(self)@, tx@, tx_hash, signature_valid, res),
            filed_by_digest(old(self)@) && tx_hash == digest_of(tx@) ==> filed_by_digest(
                final(self)@,
            ),
    {
        match Self::validate_transaction(&tx, signature_valid) {
            Ok(_) => {},
            Err(e) => {
                return Err(e);
            },
        }
        let ghost before = self@;
        if self.has_transaction(&tx_hash) {
            return Ok(false);
        }
        let leaving = Leaving::Slot(tx.sender, tx.nonce);
        self.drop_leaving(&leaving);
        proof {
            let keep = |e: EntryView| !same_slot(e.tx, tx@);
            assert(keep =~= |e: EntryView| !leaving.holds(e));
            assert(self@ == without_slot(before, tx@));
            lemma_filter_filed(before, keep);
        }
        if self.entries.len() >= MAX_MEMPOOL_TXS {
            return Err(
                CoreError::InvalidTransaction("mempool full: too many transactions".to_string()),
            );
        }
        let size: usize = tx.encoded.len();
        if size > MAX_MEMPOOL_SIZE || self.total_size + size > MAX_MEMPOOL_SIZE {
            return Err(
                CoreError::InvalidTransaction("mempool full: size limit exceeded".to_string()),
            );
        }
        let ghost rest = self@;
        let ghost entry = EntryView { tx: tx@, tx_hash };
        self.total_size = self.total_size + size;
        self.entries.push(MempoolEntry { tx, tx_hash, size, added_at: 0 });
        proof {
            assert(self@ =~= rest.push(entry));
            assert(self@.drop_last() =~= rest);
            assert forall|i: int| 0 <= i < rest.len() implies (#[trigger] rest[i]).tx_hash != tx_hash
                && !same_slot(rest[i].tx, entry.tx) by {
                lemma_filter_from(before, |e: EntryView| !same_slot(e.tx, entry.tx), i);
            }
        }
        Ok(true)
    }

    /// Drops the entries that leave; the others stay in their order.
    fn drop_leaving(&mut self, leaving: &Leaving<'_>) -> (dropped: bool)
        requires
            old(self).wf(),
        ensures
            final(self).wf(),
            final(self)@ == old(self)@.filter(|e: EntryView| !leaving.holds(e)),
            dropped == exists|i: int|
                0 <= i < old(self)@.len() && leaving.holds(#[trigger] old(self)@[i]),
    {
        let ghost keep = |e: EntryView| !leaving.holds(e);
        let ghost before = self@;
        let mut dropped: bool = false;
        let mut i: usize = 0;
        while i < self.entries.len()
            invariant
                self.wf(),
                i <= self.entries@.len(),
                keep == (|e: EntryView| !leaving.holds(e)),
                self@.filter(keep) == before.filter(keep),
                forall|k: int| 0 <= k < i ==> keep(#[trigger] self@[k]),
                !dropped ==> self@ == before,
                dropped ==> exists|k: int|
                    0 <= k < before.len() && leaving.holds(#[trigger] before[k]),
                forall|k: int|
                    0 <= k < self@.len() ==> before.contains(#[trigger] self@[k]),
            decreases self.entries.len() - i,
        {
            if leaving.test(&self.entries[i]) {
                let ghost here = self@;
                proof {
                    lemma_pool_size_remove(here, i as int);
                    lemma_filter_remove(here, i as int, keep);
                    assert(before.contains(here[i as int]));
                }
                let entry: MempoolEntry = self.entries.remove(i);
                assert(self@ =~= here.remove(i as int));
                self.total_size = self.total_size - entry.size;
                dropped = true;
                assert forall|k: int| 0 <= k < self@.len() implies before.contains(
                    #[trigger] self@[k],
                ) by {
                    assert(self@[k] == if k < i {
                        here[k]
                    } else {
                        here[k + 1]
                    });
                }
                assert forall|k: int| 0 <= k < i implies keep(#[trigger] self@[k]) by {
                    assert(self@[k] == here[k]);
                }
            } else {
                assert(keep(self@[i as int]));
                i += 1;
            }
        }
        proof {
            lemma_filter_all(self@, keep);
        }
        dropped
    }

    /// Removes the transaction with the given hash. Returns whether there was one.
    pub fn remove_transaction(&mut self, tx_hash: &Hash32) -> (removed: bool)
        requires
            old(self).wf(),
        ensures
            final(self).wf(),
            removed == has_hash(old(self)@, *tx_hash),
            final(self)@ == old(self)@.filter(|e: EntryView| e.tx_hash != *tx_hash),
            final(self)@ == without_listed(old(self)@, seq![*tx_hash]),
            filed_by_digest(old(self)@) ==> filed_by_digest(final(self)@),
    {
        let leaving = Leaving::Hashed(*tx_hash);
        let removed: bool = self.drop_leaving(&leaving);
        proof {
            let keep = |e: EntryView| e.tx_hash != *tx_hash;
            assert(keep =~= |e: EntryView| !leaving.holds(e));
            lemma_filter_filed(old(self)@, keep);
            let one = seq![*tx_hash];
            assert(one[0] == *tx_hash);
            assert(keep =~= |e: EntryView| !one.contains(e.tx_hash));
        }
        removed
    }

    pub fn has_transaction(&self, tx_hash: &Hash32) -> (found: bool)
        ensures
            found == has_hash(self@, *tx_hash),
    {
        self.get_transaction(tx_hash).is_some()
    }

    pub fn get_transaction(&self, tx_hash: &Hash32) -> (found: Option<&Transaction>)
        ensures
            match found {
                Some(tx) => exists|i: int|
                    0 <= i < self@.len() && (#[trigger] self@[i]).tx_hash == *tx_hash && self@[i].tx
                        == tx@,
                None => !has_hash(self@, *tx_hash),
            },
    {
        let mut i: usize = 0;
        while i < self.entries.len()
            invariant
                i <= self.entries@.len(),
                forall|k: int| 0 <= k < i ==> (#[trigger] self@[k]).tx_hash != *tx_hash,
            decreases self.entries.len() - i,
        {
            if self.entries[i].tx_hash == *tx_hash {
                assert(self@[i as int] == self.entries@[i as int]@);
                return Some(&self.entries[i].tx);
            }
            assert(self@[i as int] == self.entries@[i as int]@);
            i += 1;
        }
        None
    }

    /// How many transactions there are.
    pub fn len(&self) -> (n: usize)
        ensures
            n == self@.len(),
    {
        self.entries.len()
    }

    pub fn is_empty(&self) -> (empty: bool)
        ensures
            empty == (self@.len() == 0),
    {
        self.entries.len() == 0
    }

    /// The bytes of all transactions.
    pub fn size(&self) -> (n: usize)
        requires
            self.wf(),
        ensures
            n == pool_size(self@),
    {
        self.total_size
    }

    /// The hashes, in the order in which the transactions came.
    pub fn transaction_hashes(&self) -> (hashes: Vec<Hash32>)
        ensures
            hashes@ == self@.map_values(|e: EntryView| e.tx_hash),
    {
        let mut hashes: Vec<Hash32> = Vec::new();
        let mut i: usize = 0;
        while i < self.entries.len()
            invariant
                i <= self.entries@.len(),
                hashes@.len() == i,
                forall|k: int| 0 <= k < i ==> (#[trigger] hashes@[k]) == self@[k].tx_hash,
            decreases self.entries.len() - i,
        {
            hashes.push(self.entries[i].tx_hash);
            i += 1;
        }
        assert(hashes@ =~= self@.map_values(|e: EntryView| e.tx_hash));
        hashes
    }

    /// The transactions, in the order in which they came.
    pub fn transactions(&self) -> (txs: Vec<&Transaction>)
        ensures
            txs@.len() == self@.len(),
            forall|i: int| 0 <= i < txs@.len() ==> (#[trigger] txs@[i])@ == self@[i].tx,
    {
        let mut txs: Vec<&Transaction> = Vec::new();
        let mut i: usize = 0;
        while i < self.entries.len()
            invariant
                i <= self.entries@.len(),
                txs@.len() == i,
                forall|k: int| 0 <= k < i ==> (#[trigger] txs@[k])@ == self@[k].tx,
            decreases self.entries.len() - i,
        {
            txs.push(&self.entries[i].tx);
            i += 1;
        }
        txs
    }

    /// Removes the transactions with the given hashes.
    pub fn remove_transactions(&mut self, hashes: &[Hash32])
        requires
            old(self).wf(),
        ensures
            final(self).wf(),
            final(self)@ == old(self)@.filter(|e: EntryView| !hashes@.contains(e.tx_hash)),
            final(self)@ == without_listed(old(self)@, hashes@),
            filed_by_digest(old(self)@) ==> filed_by_digest(final(self)@),
    {
        let leaving = Leaving::Listed(hashes);
        self.drop_leaving(&leaving);
        proof {
            let keep = |e: EntryView| !hashes@.contains(e.tx_hash);
            assert(keep =~= |e: EntryView| !leaving.holds(e));
            lemma_filter_filed(old(self)@, keep);
        }
    }

    /// The transactions for a block, in the order in which they came: of the first `limit`
    /// those that can be applied one after the other. The others are skipped and stay.
    pub fn select_for_block(&self, state: &State, limit: usize, max_tx_size: usize) -> (kept: Vec<
        Transaction,
    >)
        requires
            state.wf(),
        ensures
            tx_views(kept@) == selection(state@, candidates(self@, limit as int), max_tx_size as int).0,
    {
        let mut overlay: Table<Address, Account> = Table::new();
        let mut kept: Vec<Transaction> = Vec::new();
        let ghost all = candidates(self@, limit as int);
        let ghost max = max_tx_size as int;
        let end: usize = if limit < self.entries.len() {
            limit
        } else {
            self.entries.len()
        };
        assert(all.take(0) =~= Seq::empty());
        assert(tx_views(kept@) =~= Seq::empty());
        let mut i: usize = 0;
        while i < end
            invariant
                state.wf(),
                overlay.wf(),
                i <= end <= self.entries@.len(),
                end == all.len(),
                max == max_tx_size,
                all == candidates(self@, limit as int),
                tx_views(kept@) == selection(state@, all.take(i as int), max).0,
                forall|a: Address| #[trigger]
                    account_of(selection(state@, all.take(i as int), max).1, a) == layered(
                        overlay@,
                        state@,
                        a,
                    ),
            decreases end - i,
        {
            let tx: &Transaction = &self.entries[i].tx;
            let ghost ledger = selection(state@, all.take(i as int), max).1;
            let ghost kept_before = kept@;
            let ghost overlay_before = overlay@;
            proof {
                assert(all.take(i + 1).drop_last() =~= all.take(i as int));
                assert(all.take(i + 1).last() == tx@);
            }
            let sender: Account = look_up(&overlay, state, &tx.sender);
            let recipient: Account = look_up(&overlay, state, &tx.recipient);
            assert(sender == account_of(ledger, tx.sender));
            assert(recipient == account_of(ledger, tx.recipient));
            if tx.encoded.len() <= max_tx_size && tx.amount != 0 && tx.sender != tx.recipient
                && tx.nonce == sender.nonce && tx.amount <= sender.balance && sender.nonce
                < u64::MAX && tx.amount <= u64::MAX - recipient.balance {
                overlay.insert(
                    tx.sender,
                    Account { balance: sender.balance - tx.amount, nonce: sender.nonce + 1 },
                );
                overlay.insert(
                    tx.recipient,
                    Account { balance: recipient.balance + tx.amount, nonce: recipient.nonce },
                );
                kept.push(tx.duplicate());
                proof {
                    assert(applies(ledger, tx@, max));
                    assert(tx_views(kept@) =~= tx_views(kept_before).push(tx@));
                    let next = applied(ledger, tx@);
                    assert forall|a: Address| #[trigger] account_of(next, a) == layered(
                        overlay@,
                        state@,
                        a,
                    ) by {
                        assert(account_of(ledger, a) == layered(overlay_before, state@, a));
                    }
                }
            } else {
                assert(!applies(ledger, tx@, max));
            }
            i += 1;
        }
        assert(all.take(i as int) =~= all);
        kept
    }

    /// Forgets all transactions.
    pub fn clear(&mut self)
        ensures
            final(self).wf(),
            final(self)@ == Seq::<EntryView>::empty(),
    {
        self.entries.clear();
        self.total_size = 0;
        assert(self@ =~= Seq::<EntryView>::empty());
    }
}

pub proof fn lemma_filter_filed(pool: Seq<EntryView>, keep: spec_fn(EntryView) -> bool)
    ensures
        filed_by_digest(pool) ==> filed_by_digest(pool.filter(keep)),
{
    let kept = pool.filter(keep);
    if filed_by_digest(pool) {
        assert forall|i: int| 0 <= i < kept.len() implies (#[trigger] kept[i]).tx_hash == digest_of(
            kept[i].tx,
        ) by {
            lemma_filter_from(pool, keep, i);
        }
    }
}

pub proof fn lemma_filter_from(pool: Seq<EntryView>, keep: spec_fn(EntryView) -> bool, i: int)
    requires
        0 <= i < pool.filter(keep).len(),
    ensures
        pool.contains(pool.filter(keep)[i]),
        keep(pool.filter(keep)[i]),
    decreases pool.len(),
{
    reveal(Seq::filter);
    if pool.len() > 0 {
        let front = pool.drop_last();
        if i < front.filter(keep).len() {
            lemma_filter_from(front, keep, i);
            let k = choose|k: int| 0 <= k < front.len() && front[k] == front.filter(keep)[i];
            assert(pool[k] == pool.filter(keep)[i]);
        } else {
            assert(pool[pool.len() - 1] == pool.filter(keep)[i]);
        }
    }
}

/// The balance of an account and the nonce of its next transaction.
#[derive(Clone, Copy, Debug, PartialEq, Eq, Structural)]
pub struct Account {
    pub balance: u64,
    pub nonce: u64,
}

/// The accounts; those that are not listed are empty.
pub struct State {
    pub accounts: Table<Address, Account>,
}

impl View for State {
    type V = Map<Address, Account>;

    open spec fn view(&self) -> Map<Address, Account> {
        self.accounts@
    }
}

impl State {
    pub open spec fn wf(self) -> bool {
        self.accounts.wf()
    }

    pub fn new() -> (state: Self)
        ensures
            state.wf(),
            state@ == Map::<Address, Account>::empty(),
    {
        State { accounts: Table::new() }
    }

    pub fn set_account(&mut self, address: Address, account: Account)
        requires
            old(self).wf(),
        ensures
            final(self).wf(),
            final(self)@ == old(self)@.insert(address, account),
    {
        self.accounts.insert(address, account);
    }

    pub fn get_account(&self, address: &Address) -> (account: Account)
        requires
            self.wf(),
        ensures
            account == account_of(self@, *address),
    {
        match self.accounts.get(address) {
            Some(account) => *account,
            None => Account { balance: 0, nonce: 0 },
        }
    }
}

/// The account at an address.
pub open spec fn account_of(ledger: Map<Address, Account>, a: Address) -> Account {
    if ledger.contains_key(a) {
        ledger[a]
    } else {
        Account { balance: 0, nonce: 0 }
    }
}

spec fn layered(
    overlay: Map<Address, Account>,
    state: Map<Address, Account>,
    a: Address,
) -> Account {
    if overlay.contains_key(a) {
        overlay[a]
    } else {
        account_of(state, a)
    }
}

fn look_up(overlay: &Table<Address, Account>, state: &State, a: &Address) -> (account: Account)
    requires
        overlay.wf(),
        state.wf(),
    ensures
        account == layered(overlay@, state@, *a),
{
    match overlay.get(a) {
        Some(account) => *account,
        None => state.get_account(a),
    }
}

/// The transaction can be applied to the accounts.
pub open spec fn applies(ledger: Map<Address, Account>, tx: TxView, max_tx_size: int) -> bool {
    let sender = account_of(ledger, tx.sender);
    let recipient = account_of(ledger, tx.recipient);
    &&& tx.encoded.len() <= max_tx_size
    &&& tx.amount > 0
    &&& tx.sender != tx.recipient
    &&& tx.nonce == sender.nonce
    &&& tx.amount <= sender.balance
    &&& sender.nonce < u64::MAX
    &&& recipient.balance + tx.amount <= u64::MAX
}

/// The accounts after the transaction.
pub open spec fn applied(ledger: Map<Address, Account>, tx: TxView) -> Map<Address, Account> {
    let sender = account_of(ledger, tx.sender);
    let recipient = account_of(ledger, tx.recipient);
    ledger.insert(
        tx.sender,
        Account {
            balance: (sender.balance - tx.amount) as u64,
            nonce: (sender.nonce + 1) as u64,
        },
    ).insert(
        tx.recipient,
        Account { balance: (recipient.balance + tx.amount) as u64, nonce: recipient.nonce },
    )
}

/// Of the transactions, those that can be applied one after the other, and the accounts
/// after them.
pub open spec fn selection(ledger: Map<Address, Account>, txs: Seq<TxView>, max_tx_size: int) -> (
    Seq<TxView>,
    Map<Address, Account>,
)
    decreases txs.len(),
{
    if txs.len() == 0 {
        (Seq::empty(), ledger)
    } else {
        let (kept, now) = selection(ledger, txs.drop_last(), max_tx_size);
        if applies(now, txs.last(), max_tx_size) {
            (kept.push(txs.last()), applied(now, txs.last()))
        } else {
            (kept, now)
        }
    }
}

/// The transactions that are looked at for a block.
pub open spec fn candidates(pool: Seq<EntryView>, limit: int) -> Seq<TxView> {
    pool.take(
        if limit < pool.len() {
            limit
        } else {
            pool.len() as int
        },
    ).map_values(|e: EntryView| e.tx)
}

/// The contents of a list of transactions.
pub open spec fn tx_views(txs: Seq<Transaction>) -> Seq<TxView> {
    txs.map_values(|tx: Transaction| tx@)
}

} // verus!
