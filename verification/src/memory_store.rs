//! An in-memory ledger store: the reference implementation of the
//! storage contract, with strict atomicity. It keeps the committed
//! transactions in commit order and derives every balance from them.

use vstd::prelude::*;
use crate::errors::{LedgerError, StorageFault};
use crate::store::{
    CommittedTransaction, EntryInput, EntryModel, JournalEntry, LedgerStore, TxModel,
    SYSTEM_ACCOUNT_ID, amounts_ok, balance_of, commit_ts, committed_tx,
    entries_stamped, entry_sum, gross_in, gross_of, input_amounts_ok, input_entry_sum,
    input_gross, input_sum, inputs_fit, key_committed, keys_unique, lemma_balance_le_gross,
    lemma_gross_of_nonneg, lemma_gross_push, lemma_input_gross_untouched,
    lemma_input_sum_bounds, lemma_key_lookup, lemma_stamp_inputs_index, lemma_stamp_inputs_sum,
    lemma_stamp_inputs_sums_for, lemma_tx_sums_split, newest_first, page_of, stamp_inputs,
    store_inv, touches, tx_sum,
};

verus! {

/// The models of a sequence of committed transactions.
pub open spec fn tx_models(v: Seq<CommittedTransaction>) -> Seq<TxModel> {
    v.map_values(|t: CommittedTransaction| t@)
}

/// The models of a sequence of journal entries.
pub open spec fn entry_models(v: Seq<JournalEntry>) -> Seq<EntryModel> {
    v.map_values(|e: JournalEntry| e@)
}

/// Magnitude bounds on the sums of a stored entry set.
proof fn lemma_entry_sum_bounds(es: Seq<EntryModel>, a: u128)
    requires
        amounts_ok(es),
    ensures
        -(es.len() * (i64::MAX as int)) <= entry_sum(es, a) <= es.len() * (i64::MAX as int),
        0 <= gross_in(es, a) <= es.len() * (i64::MAX as int),
    decreases es.len(),
{
    if es.len() > 0 {
        assert(amounts_ok(es.drop_last()));
        lemma_entry_sum_bounds(es.drop_last(), a);
        assert((es.len() - 1) * (i64::MAX as int) + (i64::MAX as int) == es.len() * (
        i64::MAX as int)) by (nonlinear_arith);
    }
}

/// A copy of a journal entry, equal to the original in the model.
fn clone_entry(e: &JournalEntry) -> (r: JournalEntry)
    ensures
        r@ == e@,
{
    JournalEntry {
        account_id: e.account_id,
        signed_amount: e.signed_amount,
        currency: e.currency.clone(),
        transaction_id: e.transaction_id,
        timestamp: e.timestamp,
    }
}

/// A copy of an entry set, equal to the original in the model.
fn clone_entries(v: &Vec<JournalEntry>) -> (r: Vec<JournalEntry>)
    ensures
        entry_models(r@) == entry_models(v@),
{
    let mut r: Vec<JournalEntry> = Vec::new();
    let mut i: usize = 0;
    while i < v.len()
        invariant
            i <= v.len(),
            r@.len() == i,
            forall|j: int| 0 <= j < i ==> r@[j]@ == v@[j]@,
        decreases v.len() - i,
    {
        r.push(clone_entry(&v[i]));
        i = i + 1;
    }
    assert(entry_models(r@) =~= entry_models(v@));
    r
}

/// A copy of a committed transaction, equal to the original in the model.
pub fn clone_transaction(t: &CommittedTransaction) -> (r: CommittedTransaction)
    ensures
        r@ == t@,
{
    let r = CommittedTransaction {
        transaction_id: t.transaction_id,
        idempotency_key: t.idempotency_key.clone(),
        entries: clone_entries(&t.entries),
        timestamp: t.timestamp,
    };
    assert(r@.entries =~= t@.entries);
    r
}

/// Signed sum and gross activity of account `a` within a stored entry
/// set.
fn stored_sums_for(entries: &Vec<JournalEntry>, a: u128) -> (r: (i128, i128))
    requires
        amounts_ok(entry_models(entries@)),
    ensures
        r.0 == entry_sum(entry_models(entries@), a),
        r.1 == gross_in(entry_models(entries@), a),
{
    let ghost m = entry_models(entries@);
    let mut sum: i128 = 0;
    let mut gross: i128 = 0;
    let mut i: usize = 0;
    while i < entries.len()
        invariant
            i <= entries.len(),
            m == entry_models(entries@),
            m.len() == entries@.len(),
            amounts_ok(m),
            sum == entry_sum(m.subrange(0, i as int), a),
            gross == gross_in(m.subrange(0, i as int), a),
        decreases entries.len() - i,
    {
        proof {
            assert(m.subrange(0, i + 1).drop_last() =~= m.subrange(0, i as int));
            assert(m.subrange(0, i + 1).last() == m[i as int]);
            assert(amounts_ok(m.subrange(0, i + 1)));
            lemma_entry_sum_bounds(m.subrange(0, i + 1), a);
            assert((i + 1) * (i64::MAX as int) <= usize::MAX * (i64::MAX as int)) by (
            nonlinear_arith)
                requires
                    i + 1 <= usize::MAX,
            ;
        }
        let e = &entries[i];
        if e.account_id == a {
            sum = sum + e.signed_amount as i128;
            gross = gross + if e.signed_amount >= 0 {
                e.signed_amount as i128
            } else {
                -(e.signed_amount as i128)
            };
        }
        i = i + 1;
    }
    proof {
        assert(m.subrange(0, entries@.len() as int) =~= m);
    }
    (sum, gross)
}

/// Signed sum and gross activity of account `a` within an input entry
/// set, together with the total signed sum of the whole set.
fn input_sums_for(entries: &Vec<EntryInput>, a: u128) -> (r: (i128, i128, i128))
    requires
        input_amounts_ok(entries@),
    ensures
        r.0 == input_entry_sum(entries@, a),
        r.1 == input_gross(entries@, a),
        r.2 == input_sum(entries@),
{
    let mut sum: i128 = 0;
    let mut gross: i128 = 0;
    let mut total: i128 = 0;
    let mut i: usize = 0;
    while i < entries.len()
        invariant
            i <= entries.len(),
            input_amounts_ok(entries@),
            sum == input_entry_sum(entries@.subrange(0, i as int), a),
            gross == input_gross(entries@.subrange(0, i as int), a),
            total == input_sum(entries@.subrange(0, i as int)),
        decreases entries.len() - i,
    {
        proof {
            assert(entries@.subrange(0, i + 1).drop_last() =~= entries@.subrange(0, i as int));
            assert(entries@.subrange(0, i + 1).last() == entries@[i as int]);
            assert(input_amounts_ok(entries@.subrange(0, i + 1)));
            lemma_input_sum_bounds(entries@.subrange(0, i + 1), a);
            assert((i + 1) * (i64::MAX as int) <= usize::MAX * (i64::MAX as int)) by (
            nonlinear_arith)
                requires
                    i + 1 <= usize::MAX,
            ;
        }
        let e = entries[i];
        if e.account_id == a {
            sum = sum + e.signed_amount as i128;
            gross = gross + if e.signed_amount >= 0 {
                e.signed_amount as i128
            } else {
                -(e.signed_amount as i128)
            };
        }
        total = total + e.signed_amount as i128;
        i = i + 1;
    }
    proof {
        assert(entries@.subrange(0, entries@.len() as int) =~= entries@);
    }
    (sum, gross, total)
}

/// A ledger store backed by a growable in-memory journal. Atomicity is
/// strict: a failed `append_entries` leaves the record untouched.
pub struct InMemoryLedgerStore {
    transactions: Vec<CommittedTransaction>,
}

impl InMemoryLedgerStore {
    /// An empty store: no accounts have been touched, every balance is
    /// zero.
    pub fn new() -> (r: InMemoryLedgerStore)
        ensures
            r.txs() == Seq::<TxModel>::empty(),
            store_inv(r.txs()),
    {
        let r = InMemoryLedgerStore { transactions: Vec::new() };
        proof {
            assert(r.txs() =~= Seq::<TxModel>::empty());
        }
        r
    }

    /// The balance and the gross activity of an account, folded from the
    /// journal.
    fn sums_for(&self, a: u128) -> (r: (i64, i64))
        requires
            store_inv(self.txs()),
        ensures
            r.0 as int == balance_of(self.txs(), a),
            r.1 as int == gross_of(self.txs(), a),
    {
        let ghost m = self.txs();
        let mut bal: i64 = 0;
        let mut gross: i64 = 0;
        let mut i: usize = 0;
        proof {
            assert(m.subrange(0, 0) =~= Seq::<TxModel>::empty());
        }
        while i < self.transactions.len()
            invariant
                i <= self.transactions.len(),
                m == self.txs(),
                m.len() == self.transactions@.len(),
                store_inv(m),
                bal as int == balance_of(m.subrange(0, i as int), a),
                gross as int == gross_of(m.subrange(0, i as int), a),
            decreases self.transactions.len() - i,
        {
            let ghost pre = m.subrange(0, i as int);
            let ghost cur = m.subrange(0, i + 1);
            proof {
                assert(cur.drop_last() =~= pre);
                assert(cur.last() == m[i as int]);
                assert(m[i as int] == self.transactions@[i as int]@);
                lemma_tx_sums_split(m, a, i + 1);
                lemma_gross_of_nonneg(m.subrange(i + 1, m.len() as int), a);
                lemma_balance_le_gross(cur, a);
                lemma_gross_of_nonneg(cur, a);
                assert(gross_of(cur, a) <= gross_of(m, a));
            }
            let (s, g) = stored_sums_for(&self.transactions[i].entries, a);
            let bal128: i128 = bal as i128 + s;
            let gross128: i128 = gross as i128 + g;
            proof {
                assert(bal128 == balance_of(cur, a));
                assert(gross128 == gross_of(cur, a));
            }
            bal = bal128 as i64;
            gross = gross128 as i64;
            i = i + 1;
        }
        proof {
            assert(m.subrange(0, m.len() as int) =~= m);
        }
        (bal, gross)
    }

    /// The position of the transaction committed under `key`, if any.
    fn key_index(&self, key: &String) -> (r: Option<usize>)
        requires
            store_inv(self.txs()),
        ensures
            match r {
                Some(i) => i < self.transactions@.len() && self.txs()[i as int].idempotency_key
                    == key@,
                None => !key_committed(self.txs(), key@),
            },
    {
        let ghost m = self.txs();
        let mut i: usize = 0;
        while i < self.transactions.len()
            invariant
                i <= self.transactions.len(),
                m == self.txs(),
                m.len() == self.transactions@.len(),
                forall|j: int| 0 <= j < i ==> m[j].idempotency_key != key@,
            decreases self.transactions.len() - i,
        {
            if self.transactions[i].idempotency_key == *key {
                return Some(i);
            }
            i = i + 1;
        }
        None
    }
}

impl LedgerStore for InMemoryLedgerStore {
    closed spec fn txs(&self) -> Seq<TxModel> {
        tx_models(self.transactions@)
    }

    fn get_account_balance(&self, account_id: u128) -> (r: Result<i64, LedgerError>)
        ensures
            r is Ok,
    {
        let (bal, _) = self.sums_for(account_id);
        Ok(bal)
    }

    #[verifier::loop_isolation(false)]
    fn get_account_transactions(&self, account_id: u128, limit: usize, offset: usize) -> (r: Result<
        Vec<CommittedTransaction>,
        LedgerError,
    >)
        ensures
            r is Ok,
    {
        let ghost m = self.txs();
        let mut page: Vec<CommittedTransaction> = Vec::new();
        let ghost matches = Seq::<TxModel>::empty();
        let mut matched: usize = 0;
        let mut i: usize = self.transactions.len();
        proof {
            assert(m.subrange(i as int, m.len() as int) =~= Seq::<TxModel>::empty());
        }
        while i > 0
            invariant
                i <= self.transactions.len(),
                m == self.txs(),
                m.len() == self.transactions@.len(),
                matches == newest_first(m.subrange(i as int, m.len() as int), account_id),
                matched == matches.len(),
                matches.len() <= m.len() - i,
                page@.map_values(|t: CommittedTransaction| t@) == page_of_matches(
                    matches,
                    limit as nat,
                    offset as nat,
                ),
            decreases i,
        {
            i = i - 1;
            let ghost suffix = m.subrange(i + 1, m.len() as int);
            let ghost grown = m.subrange(i as int, m.len() as int);
            proof {
                assert(grown =~= seq![m[i as int]] + suffix);
                lemma_newest_first_prepend(m[i as int], suffix, account_id);
                assert(m[i as int] == self.transactions@[i as int]@);
            }
            let tx = &self.transactions[i];
            if has_entry_for(tx, account_id) {
                proof {
                    assert(newest_first(grown, account_id) =~= matches.push(m[i as int]));
                }
                let ghost prev = matches;
                if matched >= offset && page.len() < limit {
                    let c = clone_transaction(tx);
                    page.push(c);
                    proof {
                        lemma_page_of_matches_grow(prev, m[i as int], limit as nat, offset as nat);
                        assert(page@.map_values(|t: CommittedTransaction| t@) =~= page_of_matches(
                            prev,
                            limit as nat,
                            offset as nat,
                        ).push(m[i as int]));
                    }
                } else {
                    proof {
                        lemma_page_of_matches_grow(prev, m[i as int], limit as nat, offset as nat);
                    }
                }
                proof {
                    matches = matches.push(m[i as int]);
                    lemma_newest_first_len(grown, account_id);
                }
                matched = matched + 1;
            } else {
                proof {
                    assert(newest_first(grown, account_id) =~= matches);
                }
            }
        }
        proof {
            assert(m.subrange(0, m.len() as int) =~= m);
            assert(page_of(m, account_id, limit as nat, offset as nat) == page_of_matches(
                newest_first(m, account_id),
                limit as nat,
                offset as nat,
            ));
        }
        Ok(page)
    }

    fn find_idempotency_key(&self, key: &String) -> (r: Result<Option<u128>, LedgerError>)
        ensures
            r is Ok,
    {
        match self.key_index(key) {
            Some(i) => {
                proof {
                    lemma_key_lookup(self.txs(), key@, i as int);
                }
                Ok(Some(self.transactions[i].transaction_id))
            },
            None => Ok(None),
        }
    }

    #[verifier::loop_isolation(false)]
    fn append_entries(
        &mut self,
        transaction_id: u128,
        idempotency_key: String,
        entries: &Vec<EntryInput>,
        currency: &String,
        timestamp: i64,
    ) -> (r: Result<CommittedTransaction, LedgerError>)
        ensures
            (match r {
                Ok(_) => true,
                Err(e) => match e {
                    LedgerError::DuplicateIdempotencyKey(_) => true,
                    LedgerError::Unbalanced(_) => input_amounts_ok(entries@),
                    LedgerError::StorageFailure(f) => {
                        &&& !key_committed(old(self).txs(), idempotency_key@)
                        &&& ((f == StorageFault::AmountOutOfRange && !input_amounts_ok(entries@))
                            || (f == StorageFault::CapacityExceeded && input_amounts_ok(entries@)
                            && input_sum(entries@) == 0 && !inputs_fit(old(self).txs(), entries@)))
                    },
                    _ => true,
                },
            }),
    {
        let ghost m = self.txs();
        // Authoritative idempotency check: a committed key is returned,
        // never re-applied.
        match self.key_index(&idempotency_key) {
            Some(i) => {
                proof {
                    lemma_key_lookup(m, idempotency_key@, i as int);
                }
                return Err(
                    LedgerError::DuplicateIdempotencyKey(self.transactions[i].transaction_id),
                );
            },
            None => {},
        }
        // Refuse amounts whose magnitude is not representable.
        let mut i: usize = 0;
        while i < entries.len()
            invariant
                i <= entries.len(),
                forall|j: int| 0 <= j < i ==> (#[trigger] entries@[j].signed_amount) != i64::MIN,
            decreases entries.len() - i,
        {
            if entries[i].signed_amount == i64::MIN {
                return Err(LedgerError::StorageFailure(StorageFault::AmountOutOfRange));
            }
            i = i + 1;
        }
        assert(input_amounts_ok(entries@));
        // Defensive double-entry check: refuse an unbalanced set.
        let (_, _, total) = input_sums_for(entries, SYSTEM_ACCOUNT_ID);
        if total != 0 {
            return Err(LedgerError::Unbalanced(total));
        }
        // Capacity: every touched account's gross activity must stay
        // representable.
        let mut i: usize = 0;
        while i < entries.len()
            invariant
                i <= entries.len(),
                store_inv(m),
                m == self.txs(),
                input_amounts_ok(entries@),
                forall|j: int|
                    0 <= j < i ==> gross_of(m, (#[trigger] entries@[j]).account_id) + input_gross(
                        entries@,
                        entries@[j].account_id,
                    ) <= i64::MAX,
            decreases entries.len() - i,
        {
            let a = entries[i].account_id;
            let (_, g_old) = self.sums_for(a);
            let (_, g_new, _) = input_sums_for(entries, a);
            proof {
                lemma_gross_of_nonneg(m, a);
                lemma_input_sum_bounds(entries@, a);
            }
            if g_new > i64::MAX as i128 - g_old as i128 {
                return Err(LedgerError::StorageFailure(StorageFault::CapacityExceeded));
            }
            i = i + 1;
        }
        assert(inputs_fit(m, entries@));
        // Commit: stamp the inputs and push the transaction.
        let n = self.transactions.len();
        let requested = timestamp;
        let eff_ts: i64 = if n > 0 {
            let last_ts = self.transactions[n - 1].timestamp;
            if last_ts > requested {
                last_ts
            } else {
                requested
            }
        } else {
            requested
        };
        proof {
            if m.len() > 0 {
                assert(m.last() == self.transactions@[m.len() - 1]@);
            }
            assert(eff_ts == commit_ts(m, requested));
        }
        let mut stamped: Vec<JournalEntry> = Vec::new();
        let mut i: usize = 0;
        proof {
            assert(entry_models(stamped@) =~= stamp_inputs(
                entries@.subrange(0, 0),
                currency@,
                transaction_id,
                eff_ts,
            ));
        }
        while i < entries.len()
            invariant
                i <= entries.len(),
                entry_models(stamped@) == stamp_inputs(
                    entries@.subrange(0, i as int),
                    currency@,
                    transaction_id,
                    eff_ts,
                ),
            decreases entries.len() - i,
        {
            let e = entries[i];
            let ghost prev = entries@.subrange(0, i as int);
            stamped.push(
                JournalEntry {
                    account_id: e.account_id,
                    signed_amount: e.signed_amount,
                    currency: currency.clone(),
                    transaction_id,
                    timestamp: eff_ts,
                },
            );
            proof {
                assert(entries@.subrange(0, i + 1).drop_last() =~= prev);
                assert(entries@.subrange(0, i + 1).last() == entries@[i as int]);
                assert(entry_models(stamped@) =~= stamp_inputs(
                    entries@.subrange(0, i + 1),
                    currency@,
                    transaction_id,
                    eff_ts,
                ));
            }
            i = i + 1;
        }
        proof {
            assert(entries@.subrange(0, entries@.len() as int) =~= entries@);
        }
        let tx = CommittedTransaction {
            transaction_id,
            idempotency_key,
            entries: stamped,
            timestamp: eff_ts,
        };
        let ret = clone_transaction(&tx);
        let ghost txm = tx@;
        self.transactions.push(tx);
        let n2 = self.transactions.len();
        proof {
            assert(m.len() < n2 <= usize::MAX);
            assert(self.txs() =~= m.push(txm));
            assert(txm == committed_tx(
                m,
                transaction_id,
                ret@.idempotency_key,
                entries@,
                currency@,
                requested,
            ));
            lemma_append_preserves_inv(m, txm, entries@, currency@);
        }
        Ok(ret)
    }
}

/// Whether a stored transaction has an entry on the account.
fn has_entry_for(t: &CommittedTransaction, a: u128) -> (r: bool)
    ensures
        r == touches(t@, a),
{
    let mut i: usize = 0;
    while i < t.entries.len()
        invariant
            i <= t.entries.len(),
            forall|j: int| 0 <= j < i ==> t@.entries[j].account_id != a,
    decreases t.entries.len() - i,
    {
        if t.entries[i].account_id == a {
            assert(t@.entries[i as int].account_id == a);
            return true;
        }
        i = i + 1;
    }
    false
}

/// One page out of an already-selected newest-first match list.
pub open spec fn page_of_matches(m: Seq<TxModel>, limit: nat, offset: nat) -> Seq<TxModel> {
    if offset >= m.len() {
        Seq::empty()
    } else if offset + limit >= m.len() {
        m.subrange(offset as int, m.len() as int)
    } else {
        m.subrange(offset as int, (offset + limit) as int)
    }
}

/// Prepending an older transaction appends its match, if any, to the
/// newest-first selection.
pub proof fn lemma_newest_first_prepend(x: TxModel, s: Seq<TxModel>, a: u128)
    ensures
        newest_first(seq![x] + s, a) == newest_first(s, a) + (if touches(x, a) {
            seq![x]
        } else {
            Seq::<TxModel>::empty()
        }),
    decreases s.len(),
{
    let t = seq![x] + s;
    let xm = if touches(x, a) {
        seq![x]
    } else {
        Seq::<TxModel>::empty()
    };
    if s.len() == 0 {
        assert(t.len() == 1);
        assert(t.last() == x);
        assert(t.drop_last() =~= Seq::<TxModel>::empty());
        assert(newest_first(Seq::<TxModel>::empty(), a) == Seq::<TxModel>::empty());
        assert(newest_first(t, a) =~= newest_first(s, a) + xm);
    } else {
        assert(t.last() == s.last());
        assert(t.drop_last() =~= seq![x] + s.drop_last());
        lemma_newest_first_prepend(x, s.drop_last(), a);
        let sm = if touches(s.last(), a) {
            seq![s.last()]
        } else {
            Seq::<TxModel>::empty()
        };
        assert(newest_first(t, a) == sm + newest_first(t.drop_last(), a));
        assert(newest_first(s, a) == sm + newest_first(s.drop_last(), a));
        assert(sm + (newest_first(s.drop_last(), a) + xm) =~= (sm + newest_first(
            s.drop_last(),
            a,
        )) + xm);
        assert(newest_first(t, a) =~= newest_first(s, a) + xm);
    }
}

/// A newest-first selection is never longer than the log it came from.
pub proof fn lemma_newest_first_len(s: Seq<TxModel>, a: u128)
    ensures
        newest_first(s, a).len() <= s.len(),
    decreases s.len(),
{
    if s.len() > 0 {
        lemma_newest_first_len(s.drop_last(), a);
    }
}

/// Appending one more match extends the page exactly when the match list
/// has already covered the offset and the page is not yet full.
pub proof fn lemma_page_of_matches_grow(m: Seq<TxModel>, t: TxModel, limit: nat, offset: nat)
    ensures
        page_of_matches(m.push(t), limit, offset) == if m.len() >= offset && page_of_matches(
            m,
            limit,
            offset,
        ).len() < limit {
            page_of_matches(m, limit, offset).push(t)
        } else {
            page_of_matches(m, limit, offset)
        },
{
    let old_page = page_of_matches(m, limit, offset);
    let new_page = page_of_matches(m.push(t), limit, offset);
    if m.len() >= offset && old_page.len() < limit {
        assert(new_page =~= old_page.push(t));
    } else {
        assert(new_page =~= old_page);
    }
}

/// Pushing a transaction with a fresh key, a zero sum, sound amounts and
/// room in every touched account preserves the store invariant.
pub proof fn lemma_append_preserves_inv(
    m: Seq<TxModel>,
    t: TxModel,
    inputs: Seq<EntryInput>,
    currency: Seq<char>,
)
    requires
        store_inv(m),
        m.len() < usize::MAX,
        !key_committed(m, t.idempotency_key),
        input_sum(inputs) == 0,
        input_amounts_ok(inputs),
        inputs_fit(m, inputs),
        t.entries == stamp_inputs(inputs, currency, t.transaction_id, t.timestamp),
        t.timestamp == commit_ts(m, t.timestamp),
        m.len() > 0 ==> t.timestamp >= m.last().timestamp,
    ensures
        store_inv(m.push(t)),
{
    let p = m.push(t);
    lemma_stamp_inputs_index(inputs, currency, t.transaction_id, t.timestamp);
    lemma_stamp_inputs_sum(inputs, currency, t.transaction_id, t.timestamp);
    // Unique keys: the pushed key is fresh.
    assert forall|i: int, j: int| 0 <= i < j < p.len() implies p[i].idempotency_key
        != p[j].idempotency_key by {
        if j < m.len() {
            assert(keys_unique(m));
        } else {
            if p[i].idempotency_key == t.idempotency_key {
                assert(key_committed(m, t.idempotency_key));
            }
        }
    }
    // Balanced, well-stamped, amounts in range.
    assert(tx_sum(t.entries) == 0);
    assert(amounts_ok(t.entries));
    assert(entries_stamped(t));
    assert forall|i: int, j: int| 0 <= i < j < p.len() implies p[i].timestamp
        <= p[j].timestamp by {
        if j == m.len() && m.len() > 0 {
            assert(m[i].timestamp <= m.last().timestamp || i == m.len() - 1);
        }
    }
    // Capacity: touched accounts were checked, untouched are unchanged.
    assert forall|a: u128| gross_of(p, a) <= i64::MAX by {
        lemma_gross_push(m, t, a);
        lemma_stamp_inputs_sums_for(inputs, currency, t.transaction_id, t.timestamp, a);
        if exists|i: int| 0 <= i < inputs.len() && (#[trigger] inputs[i]).account_id == a {
            let i = choose|i: int| 0 <= i < inputs.len() && (#[trigger] inputs[i]).account_id == a;
            assert(gross_of(m, inputs[i].account_id) + input_gross(inputs, inputs[i].account_id)
                <= i64::MAX);
        } else {
            assert(forall|i: int| 0 <= i < inputs.len() ==> (#[trigger] inputs[i]).account_id != a);
            lemma_input_gross_untouched(inputs, a);
        }
    }
}

} // verus!
