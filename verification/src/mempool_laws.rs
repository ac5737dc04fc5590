//! What the pool guarantees, and what the transactions chosen for a block do.

use crate::error::CoreError;
use crate::hash::Hash32;
use crate::mempool;
use crate::mempool::{
    account_of, Account, Address, EntryView, TxView, MAX_MEMPOOL_SIZE, MAX_MEMPOOL_TXS,
};
use vstd::prelude::*;

verus! {

/// A transaction that was added is in the pool under its hash, and adding it again changes
/// nothing.
pub proof fn adding_twice_is_adding_once(pool: Seq<EntryView>, tx: TxView, tx_hash: Hash32)
    requires
        mempool::added(pool, tx, tx_hash).1 == Ok::<bool, Seq<char>>(true),
    ensures
        mempool::has_hash(mempool::added(pool, tx, tx_hash).0, tx_hash),
        mempool::added(mempool::added(pool, tx, tx_hash).0, tx, tx_hash) == (
            mempool::added(pool, tx, tx_hash).0,
            Ok::<bool, Seq<char>>(false),
        ),
{
    let after = mempool::added(pool, tx, tx_hash).0;
    assert(after[after.len() - 1].tx_hash == tx_hash);
}

/// A transaction that was added is the only one of its sender with its nonce, and every other
/// one stays.
pub proof fn added_transaction_replaces_its_slot(
    pool: Seq<EntryView>,
    tx: TxView,
    tx_hash: Hash32,
)
    requires
        mempool::added(pool, tx, tx_hash).1 == Ok::<bool, Seq<char>>(true),
    ensures
        ({
            let after = mempool::added(pool, tx, tx_hash).0;
            &&& after.last() == (EntryView { tx, tx_hash })
            &&& forall|i: int|
                0 <= i < after.len() - 1 ==> !mempool::same_slot((#[trigger] after[i]).tx, tx)
            &&& forall|i: int|
                0 <= i < pool.len() && !mempool::same_slot((#[trigger] pool[i]).tx, tx)
                    ==> after.contains(pool[i])
        }),
{
    broadcast use vstd::seq_lib::group_filter_ensures;

    let keep = |e: EntryView| !mempool::same_slot(e.tx, tx);
    let rest = pool.filter(keep);
    let after = mempool::added(pool, tx, tx_hash).0;
    assert forall|i: int| 0 <= i < after.len() - 1 implies !mempool::same_slot(
        (#[trigger] after[i]).tx,
        tx,
    ) by {
        assert(keep(rest[i]));
    }
    assert forall|i: int|
        0 <= i < pool.len() && !mempool::same_slot((#[trigger] pool[i]).tx, tx) implies after.contains(
        pool[i],
    ) by {
        assert(keep(pool[i]));
        assert(rest.contains(pool[i]));
        let k = choose|k: int| 0 <= k < rest.len() && rest[k] == pool[i];
        assert(after[k] == pool[i]);
    }
}

/// What is done to a pool.
pub enum PoolOp {
    /// A transaction is added under the digest of its encoding: its contents, the verdict on its
    /// signature, and the answer.
    Add(TxView, bool, Result<bool, CoreError>),
    /// The transaction with a hash is removed.
    Remove(Hash32),
    /// The transactions with the listed hashes are removed.
    RemoveAll(Seq<Hash32>),
    Clear,
}

/// What an operation makes of a pool.
pub open spec fn op_done(before: Seq<EntryView>, op: PoolOp, after: Seq<EntryView>) -> bool {
    match op {
        PoolOp::Add(tx, signature_valid, res) => mempool::add_answered(
            before,
            after,
            tx,
            mempool::digest_of(tx),
            signature_valid,
            res,
        ),
        PoolOp::Remove(tx_hash) => after == before.filter(|e: EntryView| e.tx_hash != tx_hash),
        PoolOp::RemoveAll(hashes) => after == before.filter(
            |e: EntryView| !hashes.contains(e.tx_hash),
        ),
        PoolOp::Clear => after == Seq::<EntryView>::empty(),
    }
}

/// However transactions are added to a pool that starts empty, removed one by one or by lists of
/// hashes, and forgotten, every transaction in it is filed under the digest of its encoding, no
/// hash and no pair of sender and nonce occurs twice, and the limits hold.
pub proof fn pool_keeps_its_promises(run: Seq<Seq<EntryView>>, ops: Seq<PoolOp>)
    requires
        run.len() == ops.len() + 1,
        run[0] == Seq::<EntryView>::empty(),
        forall|i: int| 0 <= i < ops.len() ==> #[trigger] op_done(run[i], ops[i], run[i + 1]),
    ensures
        mempool::filed_by_digest(run.last()),
        mempool::pool_ok(run.last()),
        run.last().map_values(|e: EntryView| e.tx_hash).no_duplicates(),
    decreases ops.len(),
{
    if ops.len() > 0 {
        let n = ops.len() - 1;
        let before = run.drop_last();
        assert forall|i: int| 0 <= i < n implies #[trigger] op_done(
            before[i],
            ops.drop_last()[i],
            before[i + 1],
        ) by {
            assert(op_done(run[i], ops[i], run[i + 1]));
        }
        pool_keeps_its_promises(before, ops.drop_last());
        assert(before.last() == run[n]);
        assert(op_done(run[n], ops[n], run[n + 1]));
        operation_keeps_promises(run[n], ops[n], run.last());
    }
}

/// Every operation keeps what the pool promises.
pub proof fn operation_keeps_promises(before: Seq<EntryView>, op: PoolOp, after: Seq<EntryView>)
    requires
        op_done(before, op, after),
        mempool::filed_by_digest(before),
        mempool::pool_ok(before),
    ensures
        mempool::filed_by_digest(after),
        mempool::pool_ok(after),
{
    match op {
        PoolOp::Add(tx, signature_valid, _) => {
            let keep = |e: EntryView| !mempool::same_slot(e.tx, tx);
            let rest = before.filter(keep);
            lemma_filter_keeps(before, keep);
            if mempool::acceptable(tx, signature_valid) && mempool::added(
                before,
                tx,
                mempool::digest_of(tx),
            ).1 == Ok::<bool, Seq<char>>(true) {
                assert(after.drop_last() =~= rest);
                assert forall|i: int| 0 <= i < rest.len() implies (#[trigger] after[i]).tx_hash
                    != after.last().tx_hash && !mempool::same_slot(after[i].tx, tx) by {
                    mempool::lemma_filter_from(before, keep, i);
                    assert(after[i] == rest[i]);
                }
            }
        },
        PoolOp::Remove(tx_hash) => {
            lemma_filter_keeps(before, |e: EntryView| e.tx_hash != tx_hash);
        },
        PoolOp::RemoveAll(hashes) => {
            lemma_filter_keeps(before, |e: EntryView| !hashes.contains(e.tx_hash));
        },
        PoolOp::Clear => {},
    }
}

proof fn lemma_filter_keeps(pool: Seq<EntryView>, keep: spec_fn(EntryView) -> bool)
    requires
        mempool::filed_by_digest(pool),
        mempool::pool_ok(pool),
    ensures
        mempool::filed_by_digest(pool.filter(keep)),
        mempool::pool_ok(pool.filter(keep)),
        mempool::pool_size(pool.filter(keep)) <= mempool::pool_size(pool),
        pool.filter(keep).len() <= pool.len(),
    decreases pool.len(),
{
    mempool::lemma_filter_filed(pool, keep);
    reveal(Seq::filter);
    if pool.len() > 0 {
        let front = pool.drop_last();
        let kept = front.filter(keep);
        lemma_filter_keeps(front, keep);
        if keep(pool.last()) {
            let all = kept.push(pool.last());
            assert(all.drop_last() =~= kept);
            assert forall|i: int| 0 <= i < kept.len() implies (#[trigger] all[i]).tx_hash
                != pool.last().tx_hash && !mempool::same_slot(all[i].tx, pool.last().tx) by {
                mempool::lemma_filter_from(front, keep, i);
                let k = choose|k: int| 0 <= k < front.len() && front[k] == kept[i];
                assert(pool[k] == all[i]);
            }
        }
    }
}

/// A transaction that is refused because of itself, or was there already, leaves the pool as it
/// is, and a valid one is answered with `Ok(false)` exactly when its hash is there.
pub proof fn refused_or_known_changes_nothing(
    before: Seq<EntryView>,
    after: Seq<EntryView>,
    tx: TxView,
    signature_valid: bool,
    res: Result<bool, CoreError>,
)
    requires
        mempool::add_answered(
            before,
            after,
            tx,
            mempool::digest_of(tx),
            signature_valid,
            res,
        ),
    ensures
        !mempool::acceptable(tx, signature_valid) ==> res is Err && after == before,
        res == Ok::<bool, CoreError>(false) ==> after == before,
        res == Ok::<bool, CoreError>(false) <==> mempool::acceptable(tx, signature_valid)
            && mempool::has_hash(before, mempool::digest_of(tx)),
{
}

/// Where no transaction of the sender has the nonce and the limits allow it, a transaction
/// with a new hash is appended and nothing else changes.
pub proof fn fresh_transaction_is_appended(pool: Seq<EntryView>, tx: TxView, tx_hash: Hash32)
    requires
        !mempool::has_hash(pool, tx_hash),
        forall|i: int| 0 <= i < pool.len() ==> !mempool::same_slot((#[trigger] pool[i]).tx, tx),
        pool.len() < MAX_MEMPOOL_TXS,
        mempool::pool_size(pool) + tx.encoded.len() <= MAX_MEMPOOL_SIZE,
    ensures
        mempool::added(pool, tx, tx_hash) == (
            pool.push(EntryView { tx, tx_hash }),
            Ok::<bool, Seq<char>>(true),
        ),
{
    lemma_nothing_replaced(pool, tx);
}

proof fn lemma_nothing_replaced(pool: Seq<EntryView>, tx: TxView)
    requires
        forall|i: int| 0 <= i < pool.len() ==> !mempool::same_slot((#[trigger] pool[i]).tx, tx),
    ensures
        mempool::without_slot(pool, tx) == pool,
    decreases pool.len(),
{
    reveal(Seq::filter);
    if pool.len() > 0 {
        let front = pool.drop_last();
        assert forall|i: int| 0 <= i < front.len() implies !mempool::same_slot(
            (#[trigger] front[i]).tx,
            tx,
        ) by {
            assert(front[i] == pool[i]);
        }
        lemma_nothing_replaced(front, tx);
        assert(!mempool::same_slot(pool[pool.len() - 1].tx, tx));
        assert(front.push(pool.last()) =~= pool);
    }
}

/// The accounts after all of the transactions, if each of them can be applied after those
/// before it.
pub open spec fn apply_all(
    ledger: Map<Address, Account>,
    txs: Seq<TxView>,
    max_tx_size: int,
) -> Option<Map<Address, Account>>
    decreases txs.len(),
{
    if txs.len() == 0 {
        Some(ledger)
    } else {
        match apply_all(ledger, txs.drop_last(), max_tx_size) {
            Some(now) => if mempool::applies(now, txs.last(), max_tx_size) {
                Some(mempool::applied(now, txs.last()))
            } else {
                None
            },
            None => None,
        }
    }
}

/// The transactions chosen for a block can be applied one after the other.
pub proof fn selection_is_valid_in_order(
    ledger: Map<Address, Account>,
    txs: Seq<TxView>,
    max_tx_size: int,
)
    ensures
        apply_all(ledger, mempool::selection(ledger, txs, max_tx_size).0, max_tx_size) == Some(
            mempool::selection(ledger, txs, max_tx_size).1,
        ),
    decreases txs.len(),
{
    if txs.len() > 0 {
        selection_is_valid_in_order(ledger, txs.drop_last(), max_tx_size);
        let (kept, now) = mempool::selection(ledger, txs.drop_last(), max_tx_size);
        if mempool::applies(now, txs.last(), max_tx_size) {
            assert(kept.push(txs.last()).drop_last() =~= kept);
        }
    }
}

/// `positions` are the places, in rising order, where `chosen` stands in `from`.
pub open spec fn stands_at(chosen: Seq<TxView>, from: Seq<TxView>, positions: Seq<int>) -> bool {
    &&& positions.len() == chosen.len()
    &&& forall|i: int| 0 <= i < positions.len() ==> 0 <= #[trigger] positions[i] < from.len()
    &&& forall|i: int, j: int|
        0 <= i < j < positions.len() ==> #[trigger] positions[i] < #[trigger] positions[j]
    &&& forall|i: int|
        0 <= i < positions.len() ==> chosen[i] == from[#[trigger] positions[i]]
}

/// The transactions chosen for a block stand in the pool's order, none of them twice.
pub proof fn selection_keeps_order(
    ledger: Map<Address, Account>,
    txs: Seq<TxView>,
    max_tx_size: int,
)
    ensures
        exists|positions: Seq<int>| #[trigger]
            stands_at(mempool::selection(ledger, txs, max_tx_size).0, txs, positions),
{
    let p = selected_positions(ledger, txs, max_tx_size);
    lemma_positions(ledger, txs, max_tx_size);
    assert(stands_at(mempool::selection(ledger, txs, max_tx_size).0, txs, p));
}

spec fn selected_positions(
    ledger: Map<Address, Account>,
    txs: Seq<TxView>,
    max_tx_size: int,
) -> Seq<int>
    decreases txs.len(),
{
    if txs.len() == 0 {
        Seq::empty()
    } else {
        let before = selected_positions(ledger, txs.drop_last(), max_tx_size);
        let now = mempool::selection(ledger, txs.drop_last(), max_tx_size).1;
        if mempool::applies(now, txs.last(), max_tx_size) {
            before.push(txs.len() - 1)
        } else {
            before
        }
    }
}

proof fn lemma_positions(ledger: Map<Address, Account>, txs: Seq<TxView>, max_tx_size: int)
    ensures
        stands_at(
            mempool::selection(ledger, txs, max_tx_size).0,
            txs,
            selected_positions(ledger, txs, max_tx_size),
        ),
    decreases txs.len(),
{
    if txs.len() > 0 {
        let front = txs.drop_last();
        lemma_positions(ledger, front, max_tx_size);
        let p = selected_positions(ledger, front, max_tx_size);
        let kept = mempool::selection(ledger, front, max_tx_size).0;
        assert forall|i: int| 0 <= i < p.len() implies kept[i] == txs[#[trigger] p[i]] by {
            assert(front[p[i]] == txs[p[i]]);
        }
        let q = selected_positions(ledger, txs, max_tx_size);
        assert forall|i: int| 0 <= i < q.len() implies 0 <= #[trigger] q[i] < txs.len() by {
            if i < p.len() {
                assert(q[i] == p[i]);
            }
        }
        assert forall|i: int, j: int| 0 <= i < j < q.len() implies #[trigger] q[i]
            < #[trigger] q[j] by {
            assert(q[i] == p[i]);
            if j < p.len() {
                assert(q[j] == p[j]);
            }
        }
        assert forall|i: int|
            0 <= i < q.len() implies mempool::selection(ledger, txs, max_tx_size).0[i]
            == txs[#[trigger] q[i]] by {
            if i < p.len() {
                assert(q[i] == p[i]);
            }
        }
    }
}

/// A transaction that is skipped changes nothing, and one that is not skipped can be applied
/// after those that were chosen before it: selection defers and never drops.
pub proof fn skipped_only_when_inapplicable(
    ledger: Map<Address, Account>,
    txs: Seq<TxView>,
    max_tx_size: int,
    n: int,
)
    requires
        0 <= n < txs.len(),
    ensures
        ({
            let (kept, now) = mempool::selection(ledger, txs.take(n), max_tx_size);
            mempool::selection(ledger, txs.take(n + 1), max_tx_size) == if mempool::applies(
                now,
                txs[n],
                max_tx_size,
            ) {
                (kept.push(txs[n]), mempool::applied(now, txs[n]))
            } else {
                (kept, now)
            }
        }),
{
    assert(txs.take(n + 1).drop_last() =~= txs.take(n));
}

/// A transaction moves its amount from the sender to the recipient: no coin is made or lost,
/// and no other account changes.
pub proof fn transfer_conserves_coins(
    ledger: Map<Address, Account>,
    tx: TxView,
    max_tx_size: int,
    other: Address,
)
    requires
        mempool::applies(ledger, tx, max_tx_size),
        other != tx.sender,
        other != tx.recipient,
    ensures
        ({
            let after = mempool::applied(ledger, tx);
            &&& account_of(after, tx.sender).balance + account_of(after, tx.recipient).balance
                == account_of(ledger, tx.sender).balance + account_of(ledger, tx.recipient).balance
            &&& account_of(after, tx.sender).balance + tx.amount == account_of(
                ledger,
                tx.sender,
            ).balance
            &&& account_of(after, tx.sender).nonce == account_of(ledger, tx.sender).nonce + 1
            &&& account_of(after, tx.recipient).nonce == account_of(ledger, tx.recipient).nonce
            &&& account_of(after, other) == account_of(ledger, other)
        }),
{
}

/// A transaction applies at most once: its nonce is used up.
pub proof fn transaction_applies_once(
    ledger: Map<Address, Account>,
    tx: TxView,
    max_tx_size: int,
)
    requires
        mempool::applies(ledger, tx, max_tx_size),
    ensures
        !mempool::applies(mempool::applied(ledger, tx), tx, max_tx_size),
{
}

/// The balance and the nonce of an address: zero where the ledger has none.
pub open spec fn holdings(ledger: Map<Address, Account>, a: Address) -> (int, int) {
    if ledger.contains_key(a) {
        (ledger[a].balance as int, ledger[a].nonce as int)
    } else {
        (0, 0)
    }
}

/// Whether a candidate is chosen rests on its size, its amount, its two sides, the sender's nonce
/// and balance, and the room in the recipient's balance, after those that were chosen before it,
/// and on nothing else. One that is chosen comes next, one that is not leaves everything as it is.
pub proof fn candidate_is_chosen_on_its_merits(
    ledger: Map<Address, Account>,
    txs: Seq<TxView>,
    max_tx_size: int,
    n: int,
)
    requires
        0 <= n < txs.len(),
    ensures
        ({
            let (kept, now) = mempool::selection(ledger, txs.take(n), max_tx_size);
            let (next, after) = mempool::selection(ledger, txs.take(n + 1), max_tx_size);
            let tx = txs[n];
            let (funds, nonce) = holdings(now, tx.sender);
            let (received, _) = holdings(now, tx.recipient);
            let fit = tx.encoded.len() <= max_tx_size && tx.amount > 0 && tx.sender != tx.recipient
                && tx.nonce == nonce && nonce < u64::MAX && tx.amount <= funds && received
                + tx.amount <= u64::MAX;
            &&& fit ==> next == kept.push(tx)
            &&& !fit ==> next == kept && after == now
        }),
{
    assert(txs.take(n + 1).drop_last() =~= txs.take(n));
    assert(txs.take(n + 1).last() == txs[n]);
}

/// Of no candidates none is chosen, and no account changes.
pub proof fn nothing_is_chosen_of_nothing(ledger: Map<Address, Account>, max_tx_size: int)
    ensures
        mempool::selection(ledger, Seq::empty(), max_tx_size) == (Seq::<TxView>::empty(), ledger),
{
}

/// A transaction that is applied takes its amount from the sender, whose nonce goes up by one,
/// gives it to the recipient, whose nonce stays, and touches no other account.
pub proof fn applied_transaction_moves_its_amount(
    ledger: Map<Address, Account>,
    tx: TxView,
    max_tx_size: int,
    a: Address,
)
    requires
        mempool::applies(ledger, tx, max_tx_size),
    ensures
        ({
            let (funds, nonce) = holdings(ledger, a);
            holdings(mempool::applied(ledger, tx), a) == if a == tx.sender {
                (funds - tx.amount, nonce + 1)
            } else if a == tx.recipient {
                (funds + tx.amount, nonce)
            } else {
                (funds, nonce)
            }
        }),
{
}

/// The candidates for a block are the oldest transactions of the pool, in their order, as many as
/// the limit allows.
pub proof fn candidates_are_the_oldest(pool: Seq<EntryView>, limit: nat)
    ensures
        ({
            let txs = mempool::candidates(pool, limit as int);
            &&& txs.len() <= limit && txs.len() <= pool.len()
            &&& txs.len() == limit || txs.len() == pool.len()
            &&& forall|i: int| 0 <= i < txs.len() ==> #[trigger] txs[i] == pool[i].tx
        }),
{
}

/// A transaction is refused whatever the pool holds exactly when its signature is not valid, it
/// moves nothing, or it pays its own sender, and the first of these that holds is the reason.
pub proof fn refused_for_one_of_three_reasons(
    e: Option<CoreError>,
    tx: TxView,
    signature_valid: bool,
)
    requires
        mempool::verdict(e, tx, signature_valid),
    ensures
        e is None <==> signature_valid && tx.amount >= 1 && tx.sender != tx.recipient,
        mempool::acceptable(tx, signature_valid) <==> e is None,
        !signature_valid ==> e is Some && e->0 is InvalidSignature
            && e->0->InvalidSignature_0@ == "transaction signature verification failed"@,
        signature_valid && e is Some ==> e->0 is InvalidTransaction,
        signature_valid && tx.amount == 0 ==> e->0->InvalidTransaction_0@
            == "amount must be greater than zero"@,
        signature_valid && tx.amount > 0 && tx.sender == tx.recipient
            ==> e->0->InvalidTransaction_0@ == "sender and recipient must differ"@,
{
}

/// How many bytes the transactions have from the position `from` on.
pub open spec fn bytes_from(pool: Seq<EntryView>, from: int) -> int
    decreases pool.len() - from,
{
    if from < 0 || from >= pool.len() {
        0
    } else {
        pool[from].tx.encoded.len() + bytes_from(pool, from + 1)
    }
}

/// The size of a pool counts every transaction once.
pub proof fn pool_size_counts_every_byte(pool: Seq<EntryView>)
    ensures
        mempool::pool_size(pool) == bytes_from(pool, 0),
{
    lemma_bytes_from(pool, 0);
    assert(pool.take(0) =~= Seq::empty());
}

proof fn lemma_bytes_from(pool: Seq<EntryView>, from: int)
    requires
        0 <= from <= pool.len(),
    ensures
        mempool::pool_size(pool) == mempool::pool_size(pool.take(from)) + bytes_from(pool, from),
    decreases pool.len() - from,
{
    if from == pool.len() {
        assert(pool.take(from) =~= pool);
    } else {
        lemma_bytes_from(pool, from + 1);
        assert(pool.take(from + 1).drop_last() =~= pool.take(from));
    }
}

/// A valid transaction is answered by what the pool holds: that it is there already where its hash
/// is; that the pool is full where, without the transaction it would replace, as many are there as
/// may be or its bytes do not fit; and else that it was added, as the last one.
pub proof fn valid_transaction_is_answered_by_room(
    pool: Seq<EntryView>,
    tx: TxView,
    tx_hash: Hash32,
)
    ensures
        ({
            let (after, res) = mempool::added(pool, tx, tx_hash);
            let there = exists|i: int| 0 <= i < pool.len() && (#[trigger] pool[i]).tx_hash == tx_hash;
            &&& there ==> after == pool && res == Ok::<bool, Seq<char>>(false)
            &&& !there ==> exists|rest: Seq<EntryView>|
                {
                    &&& #[trigger] without_its_slot(pool, tx, rest)
                    &&& rest.len() >= 100_000 ==> after == rest && res == Err::<bool, Seq<char>>(
                        "mempool full: too many transactions"@,
                    )
                    &&& rest.len() < 100_000 && bytes_from(rest, 0) + tx.encoded.len() > 50_000_000
                        ==> after == rest && res == Err::<bool, Seq<char>>(
                        "mempool full: size limit exceeded"@,
                    )
                    &&& rest.len() < 100_000 && bytes_from(rest, 0) + tx.encoded.len()
                        <= 50_000_000 ==> after == rest.push(EntryView { tx, tx_hash }) && res
                        == Ok::<bool, Seq<char>>(true)
                }
        }),
{
    let rest = mempool::without_slot(pool, tx);
    lemma_without_its_slot(pool, tx);
    pool_size_counts_every_byte(rest);
    assert(without_its_slot(pool, tx, rest));
}

/// `rest` is the pool without the transactions of the same sender with the same nonce.
pub open spec fn without_its_slot(pool: Seq<EntryView>, tx: TxView, rest: Seq<EntryView>) -> bool {
    &&& forall|i: int|
        0 <= i < rest.len() ==> pool.contains(#[trigger] rest[i]) && !(rest[i].tx.sender == tx.sender
            && rest[i].tx.nonce == tx.nonce)
    &&& forall|i: int|
        0 <= i < pool.len() && !((#[trigger] pool[i]).tx.sender == tx.sender && pool[i].tx.nonce
            == tx.nonce) ==> rest.contains(pool[i])
    &&& rest.len() <= pool.len()
}

proof fn lemma_without_its_slot(pool: Seq<EntryView>, tx: TxView)
    ensures
        without_its_slot(pool, tx, mempool::without_slot(pool, tx)),
{
    broadcast use vstd::seq_lib::group_filter_ensures;

    let keep = |e: EntryView| !mempool::same_slot(e.tx, tx);
    let rest = pool.filter(keep);
    assert forall|i: int| 0 <= i < rest.len() implies pool.contains(#[trigger] rest[i]) && !(
    rest[i].tx.sender == tx.sender && rest[i].tx.nonce == tx.nonce) by {
        mempool::lemma_filter_from(pool, keep, i);
    }
    assert forall|i: int|
        0 <= i < pool.len() && !((#[trigger] pool[i]).tx.sender == tx.sender && pool[i].tx.nonce
            == tx.nonce) implies rest.contains(pool[i]) by {
        assert(keep(pool[i]));
    }
}

/// What the pool keeps is that no two of its transactions have one hash or one sender and nonce,
/// that there are at most a hundred thousand of them, and that they take at most fifty million
/// bytes.
pub proof fn pool_limits_in_figures(pool: Seq<EntryView>)
    ensures
        mempool::pool_ok(pool) <==> {
            &&& forall|i: int, j: int|
                0 <= i < j < pool.len() ==> (#[trigger] pool[i]).tx_hash != (
                #[trigger] pool[j]).tx_hash && !(pool[i].tx.sender == pool[j].tx.sender
                    && pool[i].tx.nonce == pool[j].tx.nonce)
            &&& pool.len() <= 100_000
            &&& bytes_from(pool, 0) <= 50_000_000
        },
{
    pool_size_counts_every_byte(pool);
}

/// Exactly the transactions whose hashes are listed leave the pool, and the others stay in their
/// order: what stays of the first ones comes first.
pub proof fn listed_transactions_leave(
    pool: Seq<EntryView>,
    hashes: Seq<Hash32>,
    e: EntryView,
    n: int,
)
    requires
        0 <= n <= pool.len(),
    ensures
        ({
            let rest = mempool::without_listed(pool, hashes);
            let first = mempool::without_listed(pool.take(n), hashes);
            &&& rest.contains(e) <==> pool.contains(e) && !hashes.contains(e.tx_hash)
            &&& first.len() <= rest.len() && rest.take(first.len() as int) == first
            &&& hashes.len() == 0 ==> rest == pool
        }),
{
    broadcast use vstd::seq_lib::group_filter_ensures;

    let keep = |x: EntryView| !hashes.contains(x.tx_hash);
    let rest = pool.filter(keep);
    if rest.contains(e) {
        let i = choose|i: int| 0 <= i < rest.len() && rest[i] == e;
        mempool::lemma_filter_from(pool, keep, i);
    }
    if pool.contains(e) && keep(e) {
        let i = choose|i: int| 0 <= i < pool.len() && pool[i] == e;
        assert(keep(pool[i]));
    }
    lemma_filter_prefix(pool, keep, n);
    if hashes.len() == 0 {
        lemma_filter_all_kept(pool, keep);
    }
}

proof fn lemma_filter_prefix(pool: Seq<EntryView>, keep: spec_fn(EntryView) -> bool, n: int)
    requires
        0 <= n <= pool.len(),
    ensures
        pool.take(n).filter(keep).len() <= pool.filter(keep).len(),
        pool.filter(keep).take(pool.take(n).filter(keep).len() as int) == pool.take(n).filter(keep),
    decreases pool.len(),
{
    reveal(Seq::filter);
    let first = pool.take(n).filter(keep);
    if n == pool.len() {
        assert(pool.take(n) =~= pool);
        assert(first.take(first.len() as int) =~= first);
    } else {
        let front = pool.drop_last();
        lemma_filter_prefix(front, keep, n);
        assert(front.take(n) =~= pool.take(n));
        assert(pool.filter(keep).take(first.len() as int) =~= front.filter(keep).take(
            first.len() as int,
        ));
    }
}

proof fn lemma_filter_all_kept(pool: Seq<EntryView>, keep: spec_fn(EntryView) -> bool)
    requires
        forall|e: EntryView| #[trigger] keep(e),
    ensures
        pool.filter(keep) == pool,
    decreases pool.len(),
{
    reveal(Seq::filter);
    if pool.len() > 0 {
        lemma_filter_all_kept(pool.drop_last(), keep);
        assert(keep(pool.last()));
        assert(pool.drop_last().push(pool.last()) =~= pool);
    }
}

} // verus!
