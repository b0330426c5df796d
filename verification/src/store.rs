//! The ledger store interface: journal entries, committed transactions,
//! their mathematical model, and the storage contract every backing store
//! must meet.
//!
//! The model of a store is the sequence of committed transactions in
//! commit order. Balances are never stored; they are always the signed
//! sum of an account's committed entries.

use vstd::prelude::*;
use crate::errors::LedgerError;

verus! {

/// The implicit system account that carries the counter-leg of deposits
/// and withdrawals, so every committed transaction sums to zero.
pub const SYSTEM_ACCOUNT_ID: u128 = 0;

/// One leg of a transaction as handed to the store: an account and a
/// signed amount in minor units.
#[derive(Clone, Copy, Debug, PartialEq, Eq, Structural)]
pub struct EntryInput {
    pub account_id: u128,
    pub signed_amount: i64,
}

/// An immutable journal record: one account's signed movement within one
/// committed transaction.
#[derive(Clone, Debug)]
pub struct JournalEntry {
    pub account_id: u128,
    pub signed_amount: i64,
    pub currency: String,
    pub transaction_id: u128,
    pub timestamp: i64,
}

/// The mathematical model of a journal entry.
pub ghost struct EntryModel {
    pub account_id: u128,
    pub signed_amount: i64,
    pub currency: Seq<char>,
    pub transaction_id: u128,
    pub timestamp: i64,
}

impl View for JournalEntry {
    type V = EntryModel;

    open spec fn view(&self) -> EntryModel {
        EntryModel {
            account_id: self.account_id,
            signed_amount: self.signed_amount,
            currency: self.currency@,
            transaction_id: self.transaction_id,
            timestamp: self.timestamp,
        }
    }
}

/// The result of successfully applying an intent: an identifier, the
/// idempotency key it answers to, its balanced entry set, and the commit
/// timestamp in milliseconds.
#[derive(Clone, Debug)]
pub struct CommittedTransaction {
    pub transaction_id: u128,
    pub idempotency_key: String,
    pub entries: Vec<JournalEntry>,
    pub timestamp: i64,
}

/// The mathematical model of a committed transaction.
pub ghost struct TxModel {
    pub transaction_id: u128,
    pub idempotency_key: Seq<char>,
    pub entries: Seq<EntryModel>,
    pub timestamp: i64,
}

impl View for CommittedTransaction {
    type V = TxModel;

    open spec fn view(&self) -> TxModel {
        TxModel {
            transaction_id: self.transaction_id,
            idempotency_key: self.idempotency_key@,
            entries: self.entries@.map_values(|e: JournalEntry| e@),
            timestamp: self.timestamp,
        }
    }
}

// ---------------------------------------------------------------------
// Sums over entries and transactions
// ---------------------------------------------------------------------

/// Signed sum of the entries that belong to account `a`.
pub open spec fn entry_sum(es: Seq<EntryModel>, a: u128) -> int
    decreases es.len(),
{
    if es.len() == 0 {
        0
    } else {
        entry_sum(es.drop_last(), a) + if es.last().account_id == a {
            es.last().signed_amount as int
        } else {
            0
        }
    }
}

/// Signed sum of all entries, whatever account they belong to.
pub open spec fn tx_sum(es: Seq<EntryModel>) -> int
    decreases es.len(),
{
    if es.len() == 0 {
        0
    } else {
        tx_sum(es.drop_last()) + es.last().signed_amount as int
    }
}

/// Sum of the magnitudes of the entries that belong to account `a`: the
/// account's gross activity within `es`.
pub open spec fn gross_in(es: Seq<EntryModel>, a: u128) -> int
    decreases es.len(),
{
    if es.len() == 0 {
        0
    } else {
        gross_in(es.drop_last(), a) + if es.last().account_id == a {
            abs_amount(es.last().signed_amount)
        } else {
            0
        }
    }
}

/// The magnitude of a signed amount, as an unbounded integer.
pub open spec fn abs_amount(x: i64) -> int {
    if x >= 0 {
        x as int
    } else {
        -(x as int)
    }
}

/// The balance of account `a`: the signed sum of its entries across all
/// committed transactions.
pub open spec fn balance_of(txs: Seq<TxModel>, a: u128) -> int
    decreases txs.len(),
{
    if txs.len() == 0 {
        0
    } else {
        balance_of(txs.drop_last(), a) + entry_sum(txs.last().entries, a)
    }
}

/// The gross activity of account `a` across all committed transactions.
pub open spec fn gross_of(txs: Seq<TxModel>, a: u128) -> int
    decreases txs.len(),
{
    if txs.len() == 0 {
        0
    } else {
        gross_of(txs.drop_last(), a) + gross_in(txs.last().entries, a)
    }
}

// ---------------------------------------------------------------------
// Idempotency keys
// ---------------------------------------------------------------------

/// Whether some committed transaction carries idempotency key `k`.
pub open spec fn key_committed(txs: Seq<TxModel>, k: Seq<char>) -> bool {
    exists|i: int| 0 <= i < txs.len() && txs[i].idempotency_key == k
}

/// The committed transaction that carries idempotency key `k` (meaningful
/// only when `key_committed` holds and keys are unique).
pub open spec fn tx_of_key(txs: Seq<TxModel>, k: Seq<char>) -> TxModel {
    txs[choose|i: int| 0 <= i < txs.len() && txs[i].idempotency_key == k]
}

/// No two committed transactions share an idempotency key.
pub open spec fn keys_unique(txs: Seq<TxModel>) -> bool {
    forall|i: int, j: int|
        0 <= i < j < txs.len() ==> txs[i].idempotency_key != txs[j].idempotency_key
}

// ---------------------------------------------------------------------
// The store invariant
// ---------------------------------------------------------------------

/// Every committed transaction's entries sum to zero: the double-entry
/// balance invariant.
pub open spec fn all_balanced(txs: Seq<TxModel>) -> bool {
    forall|i: int| 0 <= i < txs.len() ==> tx_sum(#[trigger] txs[i].entries) == 0
}

/// Every amount lies in `[-i64::MAX, i64::MAX]`: `i64::MIN` is excluded
/// so magnitudes and negations stay representable.
pub open spec fn amounts_ok(es: Seq<EntryModel>) -> bool {
    forall|i: int| 0 <= i < es.len() ==> (#[trigger] es[i].signed_amount) != i64::MIN
}

/// Every entry of a transaction carries that transaction's identifier and
/// commit timestamp.
pub open spec fn entries_stamped(t: TxModel) -> bool {
    forall|i: int|
        0 <= i < t.entries.len() ==> (#[trigger] t.entries[i]).transaction_id
            == t.transaction_id && t.entries[i].timestamp == t.timestamp
}

/// Commit timestamps never decrease along the commit order.
pub open spec fn timestamps_ordered(txs: Seq<TxModel>) -> bool {
    forall|i: int, j: int| 0 <= i < j < txs.len() ==> txs[i].timestamp <= txs[j].timestamp
}

/// Every account's gross activity fits in an `i64`, which keeps every
/// balance — and every balance at every point of the history —
/// representable.
pub open spec fn gross_capped(txs: Seq<TxModel>) -> bool {
    forall|a: u128| gross_of(txs, a) <= i64::MAX
}

/// The well-formedness invariant of a ledger store's transaction log.
pub open spec fn store_inv(txs: Seq<TxModel>) -> bool {
    &&& txs.len() <= usize::MAX
    &&& keys_unique(txs)
    &&& all_balanced(txs)
    &&& forall|i: int| 0 <= i < txs.len() ==> amounts_ok((#[trigger] txs[i]).entries)
    &&& forall|i: int| 0 <= i < txs.len() ==> entries_stamped(#[trigger] txs[i])
    &&& timestamps_ordered(txs)
    &&& gross_capped(txs)
}

// ---------------------------------------------------------------------
// Sums over the inputs handed to the store
// ---------------------------------------------------------------------

/// Signed sum of an input entry set.
pub open spec fn input_sum(es: Seq<EntryInput>) -> int
    decreases es.len(),
{
    if es.len() == 0 {
        0
    } else {
        input_sum(es.drop_last()) + es.last().signed_amount as int
    }
}

/// Gross activity of account `a` within an input entry set.
pub open spec fn input_gross(es: Seq<EntryInput>, a: u128) -> int
    decreases es.len(),
{
    if es.len() == 0 {
        0
    } else {
        input_gross(es.drop_last(), a) + if es.last().account_id == a {
            abs_amount(es.last().signed_amount)
        } else {
            0
        }
    }
}

/// Signed sum of the inputs that belong to account `a`.
pub open spec fn input_entry_sum(es: Seq<EntryInput>, a: u128) -> int
    decreases es.len(),
{
    if es.len() == 0 {
        0
    } else {
        input_entry_sum(es.drop_last(), a) + if es.last().account_id == a {
            es.last().signed_amount as int
        } else {
            0
        }
    }
}

/// No input amount is `i64::MIN`.
pub open spec fn input_amounts_ok(es: Seq<EntryInput>) -> bool {
    forall|i: int| 0 <= i < es.len() ==> (#[trigger] es[i].signed_amount) != i64::MIN
}

/// Appending these inputs keeps every touched account's gross activity
/// within capacity.
pub open spec fn inputs_fit(txs: Seq<TxModel>, es: Seq<EntryInput>) -> bool {
    forall|i: int|
        0 <= i < es.len() ==> gross_of(txs, (#[trigger] es[i]).account_id) + input_gross(
            es,
            es[i].account_id,
        ) <= i64::MAX
}

/// The journal entries a store makes of an input set: each input, stamped
/// with the transaction's currency, identifier and commit timestamp.
pub open spec fn stamp_inputs(es: Seq<EntryInput>, currency: Seq<char>, id: u128, ts: i64) -> Seq<
    EntryModel,
>
    decreases es.len(),
{
    if es.len() == 0 {
        Seq::empty()
    } else {
        stamp_inputs(es.drop_last(), currency, id, ts).push(
            EntryModel {
                account_id: es.last().account_id,
                signed_amount: es.last().signed_amount,
                currency: currency,
                transaction_id: id,
                timestamp: ts,
            },
        )
    }
}

/// The commit timestamp a store assigns: the caller's clock reading,
/// clamped so timestamps never run backwards.
pub open spec fn commit_ts(txs: Seq<TxModel>, requested: i64) -> i64 {
    if txs.len() == 0 {
        requested
    } else if txs.last().timestamp > requested {
        txs.last().timestamp
    } else {
        requested
    }
}

/// The transaction a store commits for the given inputs on top of `txs`.
pub open spec fn committed_tx(
    txs: Seq<TxModel>,
    id: u128,
    key: Seq<char>,
    es: Seq<EntryInput>,
    currency: Seq<char>,
    requested_ts: i64,
) -> TxModel {
    TxModel {
        transaction_id: id,
        idempotency_key: key,
        entries: stamp_inputs(es, currency, id, commit_ts(txs, requested_ts)),
        timestamp: commit_ts(txs, requested_ts),
    }
}

// ---------------------------------------------------------------------
// Reading transactions back: newest first
// ---------------------------------------------------------------------

/// Whether transaction `t` has an entry on account `a`.
pub open spec fn touches(t: TxModel, a: u128) -> bool {
    exists|i: int| 0 <= i < t.entries.len() && t.entries[i].account_id == a
}

/// The transactions that touch account `a`, newest first (reverse commit
/// order).
pub open spec fn newest_first(txs: Seq<TxModel>, a: u128) -> Seq<TxModel>
    decreases txs.len(),
{
    if txs.len() == 0 {
        Seq::empty()
    } else {
        (if touches(txs.last(), a) {
            seq![txs.last()]
        } else {
            Seq::empty()
        }) + newest_first(txs.drop_last(), a)
    }
}

/// One page of an account's history: the newest-first matches, skipping
/// `offset` of them and yielding at most `limit`.
pub open spec fn page_of(txs: Seq<TxModel>, a: u128, limit: nat, offset: nat) -> Seq<TxModel> {
    let m = newest_first(txs, a);
    if offset >= m.len() {
        Seq::empty()
    } else if offset + limit >= m.len() {
        m.subrange(offset as int, m.len() as int)
    } else {
        m.subrange(offset as int, (offset + limit) as int)
    }
}

// ---------------------------------------------------------------------
// Lemmas about the model
// ---------------------------------------------------------------------

/// Committing one more transaction shifts each balance by that
/// transaction's entry sum for the account.
pub proof fn lemma_balance_push(txs: Seq<TxModel>, t: TxModel, a: u128)
    ensures
        balance_of(txs.push(t), a) == balance_of(txs, a) + entry_sum(t.entries, a),
{
    assert(txs.push(t).drop_last() =~= txs);
}

/// Committing one more transaction grows each gross activity by that
/// transaction's gross for the account.
pub proof fn lemma_gross_push(txs: Seq<TxModel>, t: TxModel, a: u128)
    ensures
        gross_of(txs.push(t), a) == gross_of(txs, a) + gross_in(t.entries, a),
{
    assert(txs.push(t).drop_last() =~= txs);
}

/// Gross activity is never negative.
pub proof fn lemma_gross_in_nonneg(es: Seq<EntryModel>, a: u128)
    ensures
        gross_in(es, a) >= 0,
    decreases es.len(),
{
    if es.len() > 0 {
        lemma_gross_in_nonneg(es.drop_last(), a);
    }
}

/// A signed sum is bounded in magnitude by the gross activity.
pub proof fn lemma_entry_sum_le_gross(es: Seq<EntryModel>, a: u128)
    ensures
        -gross_in(es, a) <= entry_sum(es, a) <= gross_in(es, a),
    decreases es.len(),
{
    if es.len() > 0 {
        lemma_entry_sum_le_gross(es.drop_last(), a);
    }
}

/// Gross activity over the whole log is never negative.
pub proof fn lemma_gross_of_nonneg(txs: Seq<TxModel>, a: u128)
    ensures
        gross_of(txs, a) >= 0,
    decreases txs.len(),
{
    if txs.len() > 0 {
        lemma_gross_of_nonneg(txs.drop_last(), a);
        lemma_gross_in_nonneg(txs.last().entries, a);
    }
}

/// A balance is bounded in magnitude by the account's gross activity, so
/// under `gross_capped` every balance is representable as an `i64`.
pub proof fn lemma_balance_le_gross(txs: Seq<TxModel>, a: u128)
    ensures
        -gross_of(txs, a) <= balance_of(txs, a) <= gross_of(txs, a),
    decreases txs.len(),
{
    if txs.len() > 0 {
        lemma_balance_le_gross(txs.drop_last(), a);
        lemma_entry_sum_le_gross(txs.last().entries, a);
    }
}

/// Sums split over a cut of the entry sequence.
pub proof fn lemma_entry_sums_split(es: Seq<EntryModel>, a: u128, i: int)
    requires
        0 <= i <= es.len(),
    ensures
        entry_sum(es, a) == entry_sum(es.subrange(0, i), a) + entry_sum(
            es.subrange(i, es.len() as int),
            a,
        ),
        gross_in(es, a) == gross_in(es.subrange(0, i), a) + gross_in(
            es.subrange(i, es.len() as int),
            a,
        ),
    decreases es.len() - i,
{
    if i == es.len() {
        assert(es.subrange(0, i) =~= es);
        assert(es.subrange(i, es.len() as int) =~= Seq::<EntryModel>::empty());
    } else {
        lemma_entry_sums_split(es.drop_last(), a, i);
        assert(es.drop_last().subrange(0, i) =~= es.subrange(0, i));
        assert(es.subrange(i, es.len() as int).drop_last() =~= es.drop_last().subrange(
            i,
            es.len() - 1,
        ));
        assert(es.subrange(i, es.len() as int).last() == es.last());
    }
}

/// Balance and gross split over a cut of the transaction log.
pub proof fn lemma_tx_sums_split(txs: Seq<TxModel>, a: u128, i: int)
    requires
        0 <= i <= txs.len(),
    ensures
        balance_of(txs, a) == balance_of(txs.subrange(0, i), a) + balance_of(
            txs.subrange(i, txs.len() as int),
            a,
        ),
        gross_of(txs, a) == gross_of(txs.subrange(0, i), a) + gross_of(
            txs.subrange(i, txs.len() as int),
            a,
        ),
    decreases txs.len() - i,
{
    if i == txs.len() {
        assert(txs.subrange(0, i) =~= txs);
        assert(txs.subrange(i, txs.len() as int) =~= Seq::<TxModel>::empty());
    } else {
        lemma_tx_sums_split(txs.drop_last(), a, i);
        assert(txs.drop_last().subrange(0, i) =~= txs.subrange(0, i));
        assert(txs.subrange(i, txs.len() as int).drop_last() =~= txs.drop_last().subrange(
            i,
            txs.len() - 1,
        ));
        assert(txs.subrange(i, txs.len() as int).last() == txs.last());
    }
}

/// The stamped entry set, element by element.
pub proof fn lemma_stamp_inputs_index(es: Seq<EntryInput>, currency: Seq<char>, id: u128, ts: i64)
    ensures
        stamp_inputs(es, currency, id, ts).len() == es.len(),
        forall|i: int|
            0 <= i < es.len() ==> stamp_inputs(es, currency, id, ts)[i] == (EntryModel {
                account_id: es[i].account_id,
                signed_amount: es[i].signed_amount,
                currency: currency,
                transaction_id: id,
                timestamp: ts,
            }),
    decreases es.len(),
{
    if es.len() > 0 {
        lemma_stamp_inputs_index(es.drop_last(), currency, id, ts);
    }
}

/// Stamping preserves the signed sum.
pub proof fn lemma_stamp_inputs_sum(es: Seq<EntryInput>, currency: Seq<char>, id: u128, ts: i64)
    ensures
        tx_sum(stamp_inputs(es, currency, id, ts)) == input_sum(es),
    decreases es.len(),
{
    if es.len() > 0 {
        lemma_stamp_inputs_sum(es.drop_last(), currency, id, ts);
        assert(stamp_inputs(es, currency, id, ts).drop_last() =~= stamp_inputs(
            es.drop_last(),
            currency,
            id,
            ts,
        ));
    }
}

/// Stamping preserves each account's signed sum and gross activity.
pub proof fn lemma_stamp_inputs_sums_for(
    es: Seq<EntryInput>,
    currency: Seq<char>,
    id: u128,
    ts: i64,
    a: u128,
)
    ensures
        entry_sum(stamp_inputs(es, currency, id, ts), a) == input_entry_sum(es, a),
        gross_in(stamp_inputs(es, currency, id, ts), a) == input_gross(es, a),
    decreases es.len(),
{
    if es.len() > 0 {
        lemma_stamp_inputs_sums_for(es.drop_last(), currency, id, ts, a);
        assert(stamp_inputs(es, currency, id, ts).drop_last() =~= stamp_inputs(
            es.drop_last(),
            currency,
            id,
            ts,
        ));
    }
}

/// An account no input names has no gross activity in the set.
pub proof fn lemma_input_gross_untouched(es: Seq<EntryInput>, a: u128)
    requires
        forall|i: int| 0 <= i < es.len() ==> (#[trigger] es[i]).account_id != a,
    ensures
        input_gross(es, a) == 0,
    decreases es.len(),
{
    if es.len() > 0 {
        lemma_input_gross_untouched(es.drop_last(), a);
    }
}

/// Magnitude bounds on input sums: each is at most the number of inputs
/// times the largest representable amount.
pub proof fn lemma_input_sum_bounds(es: Seq<EntryInput>, a: u128)
    requires
        input_amounts_ok(es),
    ensures
        -(es.len() * (i64::MAX as int)) <= input_sum(es) <= es.len() * (i64::MAX as int),
        0 <= input_gross(es, a) <= es.len() * (i64::MAX as int),
        -(es.len() * (i64::MAX as int)) <= input_entry_sum(es, a) <= es.len() * (i64::MAX as int),
    decreases es.len(),
{
    if es.len() > 0 {
        assert(input_amounts_ok(es.drop_last()));
        lemma_input_sum_bounds(es.drop_last(), a);
        assert((es.len() - 1) * (i64::MAX as int) + (i64::MAX as int) == es.len() * (
        i64::MAX as int)) by (nonlinear_arith);
    }
}

/// A fresh key stays fresh under `push` of a transaction with another
/// key, and `tx_of_key` finds exactly the unique holder of a key.
pub proof fn lemma_key_lookup(txs: Seq<TxModel>, k: Seq<char>, i: int)
    requires
        keys_unique(txs),
        0 <= i < txs.len(),
        txs[i].idempotency_key == k,
    ensures
        key_committed(txs, k),
        tx_of_key(txs, k) == txs[i],
{
    assert(key_committed(txs, k));
    let j = choose|j: int| 0 <= j < txs.len() && txs[j].idempotency_key == k;
    if i < j {
        assert(txs[i].idempotency_key != txs[j].idempotency_key);
    } else if j < i {
        assert(txs[j].idempotency_key != txs[i].idempotency_key);
    }
}

// ---------------------------------------------------------------------
// The storage contract
// ---------------------------------------------------------------------

/// The capability a backing store must provide: atomic, all-or-nothing
/// commitment of balanced entry sets, and reads of the committed record.
///
/// An implementation may fail any operation with `StorageFailure` (for
/// example on an I/O fault), but a failed operation must leave the
/// committed record unchanged. Balances of accounts that no entry has
/// ever touched read as zero.
pub trait LedgerStore: Sized {
    /// The committed transactions, in commit order.
    spec fn txs(&self) -> Seq<TxModel>;

    /// The signed sum of the account's committed entries; zero if the
    /// account has never been touched.
    fn get_account_balance(&self, account_id: u128) -> (r: Result<i64, LedgerError>)
        requires
            store_inv(self.txs()),
        ensures
            match r {
                Ok(b) => b as int == balance_of(self.txs(), account_id),
                Err(e) => e is StorageFailure,
            },
    ;

    /// One page of the transactions that touch the account, newest
    /// first; ordering is stable across calls.
    fn get_account_transactions(&self, account_id: u128, limit: usize, offset: usize) -> (r: Result<
        Vec<CommittedTransaction>,
        LedgerError,
    >)
        requires
            store_inv(self.txs()),
        ensures
            match r {
                Ok(page) => page@.map_values(|t: CommittedTransaction| t@) == page_of(
                    self.txs(),
                    account_id,
                    limit as nat,
                    offset as nat,
                ),
                Err(e) => e is StorageFailure,
            },
    ;

    /// The transaction identifier committed under `key`, if any: a
    /// pre-commit short circuit. The authoritative check lives inside
    /// `append_entries`.
    fn find_idempotency_key(&self, key: &String) -> (r: Result<Option<u128>, LedgerError>)
        requires
            store_inv(self.txs()),
        ensures
            match r {
                Ok(found) => match found {
                    Some(id) => key_committed(self.txs(), key@) && id == tx_of_key(
                        self.txs(),
                        key@,
                    ).transaction_id,
                    None => !key_committed(self.txs(), key@),
                },
                Err(e) => e is StorageFailure,
            },
    ;

    /// Atomically commits a balanced entry set as one transaction, or
    /// fails without any visible effect.
    ///
    /// Success requires, and the error cases report in this order: a
    /// fresh idempotency key, an entry set summing to zero, and amounts
    /// and per-account gross activity within the representable range
    /// (the two range conditions surface as `StorageFailure`).
    fn append_entries(
        &mut self,
        transaction_id: u128,
        idempotency_key: String,
        entries: &Vec<EntryInput>,
        currency: &String,
        timestamp: i64,
    ) -> (r: Result<CommittedTransaction, LedgerError>)
        requires
            store_inv(old(self).txs()),
        ensures
            store_inv(final(self).txs()),
            match r {
                Ok(tx) => {
                    &&& !key_committed(old(self).txs(), idempotency_key@)
                    &&& input_sum(entries@) == 0
                    &&& input_amounts_ok(entries@)
                    &&& inputs_fit(old(self).txs(), entries@)
                    &&& tx@ == committed_tx(
                        old(self).txs(),
                        transaction_id,
                        idempotency_key@,
                        entries@,
                        currency@,
                        timestamp,
                    )
                    &&& final(self).txs() == old(self).txs().push(tx@)
                },
                Err(e) => match e {
                    LedgerError::DuplicateIdempotencyKey(prior) => {
                        &&& final(self).txs() == old(self).txs()
                        &&& key_committed(old(self).txs(), idempotency_key@)
                        &&& prior == tx_of_key(old(self).txs(), idempotency_key@).transaction_id
                    },
                    LedgerError::Unbalanced(s) => {
                        &&& final(self).txs() == old(self).txs()
                        &&& !key_committed(old(self).txs(), idempotency_key@)
                        &&& s == input_sum(entries@)
                        &&& s != 0
                    },
                    LedgerError::StorageFailure(_) => final(self).txs() == old(self).txs(),
                    _ => false,
                },
            },
    ;
}

} // verus!
