//! The library's laws: properties that relate several operations,
//! stated and proved over the same models the operations' contracts use.

use vstd::prelude::*;
use crate::store::{
    EntryModel, TxModel, balance_of, entry_sum, lemma_balance_push, newest_first, page_of,
    store_inv, touches, tx_sum,
};
use crate::memory_store::lemma_newest_first_len;
use crate::wallet::{
    TransactionIntent, TransactionIntentType, WalletService, intent_valid, lemma_pair_sums,
    planned_entries,
};
use crate::store::LedgerStore;

verus! {

/// Law: every committed transaction of a well-formed ledger balances —
/// its signed entry amounts sum to exactly zero.
pub proof fn law_committed_transactions_balanced(txs: Seq<TxModel>, i: int)
    requires
        store_inv(txs),
        0 <= i < txs.len(),
    ensures
        tx_sum(txs[i].entries) == 0,
{
}

/// Law: no two committed transactions of a well-formed ledger share an
/// idempotency key.
pub proof fn law_no_shared_keys(txs: Seq<TxModel>, i: int, j: int)
    requires
        store_inv(txs),
        0 <= i < txs.len(),
        0 <= j < txs.len(),
        i != j,
    ensures
        txs[i].idempotency_key != txs[j].idempotency_key,
{
}

/// Entries that all belong to other accounts sum to zero for this one.
proof fn lemma_entry_sum_untouched(es: Seq<EntryModel>, a: u128)
    requires
        forall|i: int| 0 <= i < es.len() ==> (#[trigger] es[i]).account_id != a,
    ensures
        entry_sum(es, a) == 0,
    decreases es.len(),
{
    if es.len() > 0 {
        lemma_entry_sum_untouched(es.drop_last(), a);
    }
}

/// Balances split over concatenation of transaction logs.
proof fn lemma_balance_concat(xs: Seq<TxModel>, ys: Seq<TxModel>, a: u128)
    ensures
        balance_of(xs + ys, a) == balance_of(xs, a) + balance_of(ys, a),
    decreases ys.len(),
{
    if ys.len() == 0 {
        assert(xs + ys =~= xs);
    } else {
        lemma_balance_concat(xs, ys.drop_last(), a);
        assert((xs + ys).drop_last() =~= xs + ys.drop_last());
        assert((xs + ys).last() == ys.last());
    }
}

/// The newest-first selection of an account carries exactly the
/// account's balance.
proof fn lemma_newest_first_balance(txs: Seq<TxModel>, a: u128)
    ensures
        balance_of(newest_first(txs, a), a) == balance_of(txs, a),
    decreases txs.len(),
{
    if txs.len() > 0 {
        lemma_newest_first_balance(txs.drop_last(), a);
        let rest = newest_first(txs.drop_last(), a);
        let front = if touches(txs.last(), a) {
            seq![txs.last()]
        } else {
            Seq::<TxModel>::empty()
        };
        assert(newest_first(txs, a) == front + rest);
        lemma_balance_concat(front, rest, a);
        if touches(txs.last(), a) {
            assert(front.drop_last() =~= Seq::<TxModel>::empty());
            assert(front.last() == txs.last());
            assert(balance_of(Seq::<TxModel>::empty(), a) == 0);
            assert(balance_of(front, a) == entry_sum(txs.last().entries, a));
        } else {
            assert(balance_of(front, a) == 0);
            assert(forall|i: int|
                0 <= i < txs.last().entries.len() ==> (#[trigger] txs.last().entries[i]).account_id
                    != a);
            lemma_entry_sum_untouched(txs.last().entries, a);
        }
    }
}

/// Law: round-trip consistency. The balance an account reads equals the
/// signed sum of its entries across its full transaction history as one
/// unbounded page hands it back.
pub proof fn law_balance_matches_history(txs: Seq<TxModel>, a: u128)
    requires
        txs.len() <= usize::MAX,
    ensures
        balance_of(page_of(txs, a, usize::MAX as nat, 0), a) == balance_of(txs, a),
{
    lemma_newest_first_len(txs, a);
    let m = newest_first(txs, a);
    if m.len() == 0 {
        assert(page_of(txs, a, usize::MAX as nat, 0) =~= m);
    } else {
        assert(m.subrange(0, m.len() as int) =~= m);
        assert(page_of(txs, a, usize::MAX as nat, 0) =~= m);
    }
    lemma_newest_first_balance(txs, a);
}

/// Law: depositing into an account holding zero and reading back yields
/// exactly the deposited amount — no drift.
pub proof fn law_deposit_reads_back<S: LedgerStore>(
    pre: WalletService<S>,
    post: WalletService<S>,
    intent: TransactionIntent,
    id: u128,
)
    requires
        pre.wf(),
        intent_valid(intent),
        intent.intent_type is Deposit,
        WalletService::<S>::freshly_committed(pre, post, intent, id),
        balance_of(pre.ledger(), intent.destination_account.unwrap()) == 0,
    ensures
        balance_of(post.ledger(), intent.destination_account.unwrap()) == intent.amount,
{
    let dest = intent.destination_account.unwrap();
    assert(pre.registered(dest));
    let i = choose|i: int| 0 <= i < pre.registry().len() && pre.registry()[i].0 == dest;
    assert(pre.registry()[i].0 != crate::store::SYSTEM_ACCOUNT_ID);
    let es = planned_entries(intent);
    lemma_pair_sums(es[0], es[1], dest);
    assert(es =~= seq![es[0], es[1]]);
}

/// The newest-first selection of an ordered log has nonincreasing
/// timestamps, all bounded by the newest transaction's.
proof fn lemma_newest_first_ordered(txs: Seq<TxModel>, a: u128)
    requires
        crate::store::timestamps_ordered(txs),
    ensures
        forall|i: int, j: int|
            0 <= i < j < newest_first(txs, a).len() ==> newest_first(txs, a)[i].timestamp
                >= newest_first(txs, a)[j].timestamp,
        txs.len() > 0 ==> forall|k: int|
            0 <= k < newest_first(txs, a).len() ==> (#[trigger] newest_first(txs, a)[k]).timestamp
                <= txs.last().timestamp,
    decreases txs.len(),
{
    if txs.len() > 0 {
        assert(crate::store::timestamps_ordered(txs.drop_last()));
        lemma_newest_first_ordered(txs.drop_last(), a);
        let rest = newest_first(txs.drop_last(), a);
        let front = if touches(txs.last(), a) {
            seq![txs.last()]
        } else {
            Seq::<TxModel>::empty()
        };
        assert(newest_first(txs, a) == front + rest);
        if txs.len() > 1 {
            assert(txs.drop_last().last() == txs[txs.len() - 2]);
            assert(txs.drop_last().last().timestamp <= txs.last().timestamp);
        }
        assert(forall|k: int|
            0 <= k < rest.len() ==> (#[trigger] rest[k]).timestamp <= txs.last().timestamp);
        assert(forall|k: int|
            0 <= k < (front + rest).len() ==> (#[trigger] (front + rest)[k]) == if k
                < front.len() {
                front[k]
            } else {
                rest[k - front.len()]
            });
    }
}

/// Law: the history a store hands back is ordered newest first — within
/// any page of a well-formed ledger, commit timestamps never increase.
pub proof fn law_pages_newest_first(
    txs: Seq<TxModel>,
    a: u128,
    limit: nat,
    offset: nat,
    i: int,
    j: int,
)
    requires
        store_inv(txs),
        0 <= i < j < page_of(txs, a, limit, offset).len(),
    ensures
        page_of(txs, a, limit, offset)[i].timestamp >= page_of(txs, a, limit, offset)[j].timestamp,
{
    lemma_newest_first_ordered(txs, a);
}

/// Law: balances never depend on the order in which two transactions
/// were committed — the serial compositions in either order agree.
pub proof fn law_commit_order_immaterial(txs: Seq<TxModel>, t1: TxModel, t2: TxModel, a: u128)
    ensures
        balance_of(txs.push(t1).push(t2), a) == balance_of(txs.push(t2).push(t1), a),
{
    lemma_balance_push(txs, t1, a);
    lemma_balance_push(txs.push(t1), t2, a);
    lemma_balance_push(txs, t2, a);
    lemma_balance_push(txs.push(t2), t1, a);
}

} // verus!
