//! The reconciliation engine: an auditable, read-only snapshot comparing
//! calculated ledger state to expectation over a stated period, and a
//! check of the accounting identity.
//!
//! Balances are signed: asset accounts normally carry positive sums,
//! liability and equity accounts carry credit-normal (negative) sums, so
//! the identity "Assets = Liabilities + Equity" reads, over signed
//! balances, as the three class sums adding up to zero.

use vstd::prelude::*;
use crate::errors::LedgerError;
use crate::store::{
    EntryModel, LedgerStore, TxModel, balance_of, gross_in, gross_of, lemma_balance_le_gross,
    lemma_entry_sums_split, lemma_gross_in_nonneg, lemma_gross_of_nonneg, newest_first, page_of,
    store_inv, touches,
};
use crate::memory_store::lemma_newest_first_len;

verus! {

/// The default reconciliation window when the caller supplies no period:
/// one trailing day, in milliseconds.
pub const DEFAULT_PERIOD_MS: i64 = 86_400_000;

/// An account's classification under the accounting equation.
#[derive(Clone, Copy, Debug, PartialEq, Eq, Structural)]
pub enum AccountClass {
    Asset,
    Liability,
    Equity,
}

/// One reconciled account: its calculated balance, the caller's
/// expectation if one was supplied, and their difference.
#[derive(Clone, Copy, Debug, PartialEq, Eq)]
pub struct AccountBalance {
    pub account_id: u128,
    pub calculated_balance: i64,
    pub expected_balance: Option<i64>,
    pub discrepancy: Option<i128>,
}

/// The ephemeral result of a reconciliation run: never persisted,
/// recomputed on demand.
#[derive(Clone, Debug)]
pub struct ReconciliationReport {
    pub period_start: i64,
    pub period_end: i64,
    pub account_balances: Vec<AccountBalance>,
    pub total_debits: i128,
    pub total_credits: i128,
    pub is_balanced: bool,
}

/// The first expected balance recorded for the account, if any.
pub open spec fn lookup_expected(ex: Seq<(u128, i64)>, a: u128) -> Option<i64>
    decreases ex.len(),
{
    if ex.len() == 0 {
        None
    } else {
        let r = lookup_expected(ex.drop_last(), a);
        if r is Some {
            r
        } else if ex.last().0 == a {
            Some(ex.last().1)
        } else {
            None
        }
    }
}

/// The sum of the balances of the queried accounts of one class.
pub open spec fn class_sum(
    txs: Seq<TxModel>,
    accounts: Seq<(u128, AccountClass)>,
    c: AccountClass,
) -> int
    decreases accounts.len(),
{
    if accounts.len() == 0 {
        0
    } else {
        class_sum(txs, accounts.drop_last(), c) + if accounts.last().1 == c {
            balance_of(txs, accounts.last().0)
        } else {
            0
        }
    }
}

/// The accounting identity over the queried accounts: the signed class
/// sums cancel out.
pub open spec fn equation_balanced(txs: Seq<TxModel>, accounts: Seq<(u128, AccountClass)>) -> bool {
    class_sum(txs, accounts, AccountClass::Asset) + class_sum(txs, accounts, AccountClass::Liability)
        + class_sum(txs, accounts, AccountClass::Equity) == 0
}

/// Sum of the positive amounts among the account's entries within the
/// period.
pub open spec fn debits_in(es: Seq<EntryModel>, a: u128, p0: i64, p1: i64) -> int
    decreases es.len(),
{
    if es.len() == 0 {
        0
    } else {
        debits_in(es.drop_last(), a, p0, p1) + if es.last().account_id == a && p0
            <= es.last().timestamp <= p1 && es.last().signed_amount > 0 {
            es.last().signed_amount as int
        } else {
            0
        }
    }
}

/// Sum of the magnitudes of the negative amounts among the account's
/// entries within the period.
pub open spec fn credits_in(es: Seq<EntryModel>, a: u128, p0: i64, p1: i64) -> int
    decreases es.len(),
{
    if es.len() == 0 {
        0
    } else {
        credits_in(es.drop_last(), a, p0, p1) + if es.last().account_id == a && p0
            <= es.last().timestamp <= p1 && es.last().signed_amount < 0 {
            -(es.last().signed_amount as int)
        } else {
            0
        }
    }
}

/// Debit volume of one account over a transaction sequence.
pub open spec fn txs_debits(txs: Seq<TxModel>, a: u128, p0: i64, p1: i64) -> int
    decreases txs.len(),
{
    if txs.len() == 0 {
        0
    } else {
        txs_debits(txs.drop_last(), a, p0, p1) + debits_in(txs.last().entries, a, p0, p1)
    }
}

/// Credit volume of one account over a transaction sequence.
pub open spec fn txs_credits(txs: Seq<TxModel>, a: u128, p0: i64, p1: i64) -> int
    decreases txs.len(),
{
    if txs.len() == 0 {
        0
    } else {
        txs_credits(txs.drop_last(), a, p0, p1) + credits_in(txs.last().entries, a, p0, p1)
    }
}

/// Debit volume across all queried accounts.
pub open spec fn total_debits_of(
    txs: Seq<TxModel>,
    accounts: Seq<(u128, AccountClass)>,
    p0: i64,
    p1: i64,
) -> int
    decreases accounts.len(),
{
    if accounts.len() == 0 {
        0
    } else {
        total_debits_of(txs, accounts.drop_last(), p0, p1) + txs_debits(
            txs,
            accounts.last().0,
            p0,
            p1,
        )
    }
}

/// Credit volume across all queried accounts.
pub open spec fn total_credits_of(
    txs: Seq<TxModel>,
    accounts: Seq<(u128, AccountClass)>,
    p0: i64,
    p1: i64,
) -> int
    decreases accounts.len(),
{
    if accounts.len() == 0 {
        0
    } else {
        total_credits_of(txs, accounts.drop_last(), p0, p1) + txs_credits(
            txs,
            accounts.last().0,
            p0,
            p1,
        )
    }
}

/// Entry-level volumes are non-negative and bounded by the gross
/// activity.
proof fn lemma_entry_volumes_le_gross(es: Seq<EntryModel>, a: u128, p0: i64, p1: i64)
    ensures
        0 <= debits_in(es, a, p0, p1) <= gross_in(es, a),
        0 <= credits_in(es, a, p0, p1) <= gross_in(es, a),
    decreases es.len(),
{
    if es.len() > 0 {
        lemma_entry_volumes_le_gross(es.drop_last(), a, p0, p1);
    }
}

/// Transaction-level volumes are non-negative and bounded by the gross
/// activity.
proof fn lemma_txs_volumes_le_gross(txs: Seq<TxModel>, a: u128, p0: i64, p1: i64)
    ensures
        0 <= txs_debits(txs, a, p0, p1) <= gross_of(txs, a),
        0 <= txs_credits(txs, a, p0, p1) <= gross_of(txs, a),
    decreases txs.len(),
{
    if txs.len() > 0 {
        lemma_txs_volumes_le_gross(txs.drop_last(), a, p0, p1);
        lemma_entry_volumes_le_gross(txs.last().entries, a, p0, p1);
    }
}

/// Volumes and gross activity split over concatenation.
proof fn lemma_volumes_split(xs: Seq<TxModel>, ys: Seq<TxModel>, a: u128, p0: i64, p1: i64)
    ensures
        txs_debits(xs + ys, a, p0, p1) == txs_debits(xs, a, p0, p1) + txs_debits(ys, a, p0, p1),
        txs_credits(xs + ys, a, p0, p1) == txs_credits(xs, a, p0, p1) + txs_credits(ys, a, p0, p1),
        gross_of(xs + ys, a) == gross_of(xs, a) + gross_of(ys, a),
    decreases ys.len(),
{
    if ys.len() == 0 {
        assert(xs + ys =~= xs);
    } else {
        lemma_volumes_split(xs, ys.drop_last(), a, p0, p1);
        assert((xs + ys).drop_last() =~= xs + ys.drop_last());
        assert((xs + ys).last() == ys.last());
    }
}

/// A transaction without entries on the account contributes no volume.
proof fn lemma_untouched_volumes(t: TxModel, a: u128, p0: i64, p1: i64)
    requires
        !touches(t, a),
    ensures
        debits_in(t.entries, a, p0, p1) == 0,
        credits_in(t.entries, a, p0, p1) == 0,
        gross_in(t.entries, a) == 0,
{
    lemma_untouched_entries(t.entries, a, p0, p1);
}

/// Entries that all belong to other accounts carry no volume.
proof fn lemma_untouched_entries(es: Seq<EntryModel>, a: u128, p0: i64, p1: i64)
    requires
        forall|i: int| 0 <= i < es.len() ==> (#[trigger] es[i]).account_id != a,
    ensures
        debits_in(es, a, p0, p1) == 0,
        credits_in(es, a, p0, p1) == 0,
        gross_in(es, a) == 0,
    decreases es.len(),
{
    if es.len() > 0 {
        lemma_untouched_entries(es.drop_last(), a, p0, p1);
    }
}

/// The newest-first selection of an account carries exactly the
/// account's volume and gross activity of the whole log.
proof fn lemma_newest_first_volumes(txs: Seq<TxModel>, a: u128, p0: i64, p1: i64)
    ensures
        txs_debits(newest_first(txs, a), a, p0, p1) == txs_debits(txs, a, p0, p1),
        txs_credits(newest_first(txs, a), a, p0, p1) == txs_credits(txs, a, p0, p1),
        gross_of(newest_first(txs, a), a) == gross_of(txs, a),
    decreases txs.len(),
{
    if txs.len() > 0 {
        lemma_newest_first_volumes(txs.drop_last(), a, p0, p1);
        let rest = newest_first(txs.drop_last(), a);
        let front = if touches(txs.last(), a) {
            seq![txs.last()]
        } else {
            Seq::<TxModel>::empty()
        };
        assert(newest_first(txs, a) == front + rest);
        lemma_volumes_split(front, rest, a, p0, p1);
        if touches(txs.last(), a) {
            assert(front.drop_last() =~= Seq::<TxModel>::empty());
            assert(front.last() == txs.last());
            assert(txs_debits(Seq::<TxModel>::empty(), a, p0, p1) == 0);
            assert(txs_credits(Seq::<TxModel>::empty(), a, p0, p1) == 0);
            assert(gross_of(Seq::<TxModel>::empty(), a) == 0);
            assert(txs_debits(front, a, p0, p1) == debits_in(txs.last().entries, a, p0, p1));
            assert(txs_credits(front, a, p0, p1) == credits_in(txs.last().entries, a, p0, p1));
            assert(gross_of(front, a) == gross_in(txs.last().entries, a));
        } else {
            assert(txs_debits(front, a, p0, p1) == 0);
            assert(txs_credits(front, a, p0, p1) == 0);
            assert(gross_of(front, a) == 0);
            lemma_untouched_volumes(txs.last(), a, p0, p1);
        }
    }
}

/// With no offset and the widest limit, one page is the whole
/// newest-first history.
proof fn lemma_full_page(txs: Seq<TxModel>, a: u128)
    requires
        txs.len() <= usize::MAX,
    ensures
        page_of(txs, a, usize::MAX as nat, 0) == newest_first(txs, a),
{
    lemma_newest_first_len(txs, a);
    let m = newest_first(txs, a);
    if m.len() == 0 {
        assert(page_of(txs, a, usize::MAX as nat, 0) =~= m);
    } else {
        assert(m.subrange(0, m.len() as int) =~= m);
    }
}

/// Reconciles the queried accounts against the store: per-account
/// calculated balances and discrepancies, debit and credit volume within
/// the period, and the accounting identity over the signed class sums.
/// Reads only; the store is never changed. Unknown accounts reconcile
/// with balance zero. When no period is given, the trailing
/// `DEFAULT_PERIOD_MS` window ending now is used.
#[verifier::rlimit(60)]
#[verifier::spinoff_prover]
#[verifier::loop_isolation(false)]
pub fn reconcile_accounts<S: LedgerStore>(
    store: &S,
    accounts: &Vec<(u128, AccountClass)>,
    expected_balances: Option<&Vec<(u128, i64)>>,
    period: Option<(i64, i64)>,
) -> (r: Result<ReconciliationReport, LedgerError>)
    requires
        store_inv(store.txs()),
    ensures
        match r {
            Ok(rep) => {
                &&& rep.account_balances@.len() == accounts@.len()
                &&& forall|i: int|
                    0 <= i < accounts@.len() ==> {
                        let row = #[trigger] rep.account_balances@[i];
                        &&& row.account_id == accounts@[i].0
                        &&& row.calculated_balance as int == balance_of(
                            store.txs(),
                            accounts@[i].0,
                        )
                        &&& row.expected_balance == (match expected_balances {
                            Some(ex) => lookup_expected(ex@, accounts@[i].0),
                            None => None::<i64>,
                        })
                        &&& row.discrepancy == (match row.expected_balance {
                            Some(e) => Some((row.calculated_balance as i128 - e as i128) as i128),
                            None => None::<i128>,
                        })
                    }
                &&& rep.is_balanced == equation_balanced(store.txs(), accounts@)
                &&& rep.total_debits == total_debits_of(
                    store.txs(),
                    accounts@,
                    rep.period_start,
                    rep.period_end,
                )
                &&& rep.total_credits == total_credits_of(
                    store.txs(),
                    accounts@,
                    rep.period_start,
                    rep.period_end,
                )
                &&& match period {
                    Some(p) => rep.period_start == p.0 && rep.period_end == p.1,
                    None => rep.period_end - rep.period_start == DEFAULT_PERIOD_MS,
                }
            },
            Err(e) => e is StorageFailure,
        },
        accounts@.len() == 0 ==> r is Ok,
{
    let ghost txs = store.txs();
    let (period_start, period_end): (i64, i64) = match period {
        Some(p) => p,
        None => {
            let now = crate::outside::now_unix_millis();
            (now - DEFAULT_PERIOD_MS, now)
        },
    };
    // Per-account rows and the signed class sums.
    let mut rows: Vec<AccountBalance> = Vec::new();
    let mut assets: i128 = 0;
    let mut liabilities: i128 = 0;
    let mut equity: i128 = 0;
    let mut i: usize = 0;
    while i < accounts.len()
        invariant
            i <= accounts.len(),
            rows@.len() == i,
            forall|j: int|
                0 <= j < i ==> {
                    let row = #[trigger] rows@[j];
                    &&& row.account_id == accounts@[j].0
                    &&& row.calculated_balance as int == balance_of(txs, accounts@[j].0)
                    &&& row.expected_balance == (match expected_balances {
                        Some(ex) => lookup_expected(ex@, accounts@[j].0),
                        None => None::<i64>,
                    })
                    &&& row.discrepancy == (match row.expected_balance {
                        Some(e) => Some((row.calculated_balance as i128 - e as i128) as i128),
                        None => None::<i128>,
                    })
                },
            assets == class_sum(txs, accounts@.subrange(0, i as int), AccountClass::Asset),
            liabilities == class_sum(
                txs,
                accounts@.subrange(0, i as int),
                AccountClass::Liability,
            ),
            equity == class_sum(txs, accounts@.subrange(0, i as int), AccountClass::Equity),
            abs_i128(assets) + abs_i128(liabilities) + abs_i128(equity) <= i * (i64::MAX as int),
        decreases accounts.len() - i,
    {
        let (a, class) = accounts[i];
        let bal = match store.get_account_balance(a) {
            Ok(b) => b,
            Err(e) => {
                return Err(e);
            },
        };
        let expected: Option<i64> = match expected_balances {
            Some(ex) => lookup_expected_in(ex, a),
            None => None,
        };
        let discrepancy: Option<i128> = match expected {
            Some(e) => Some(bal as i128 - e as i128),
            None => None,
        };
        rows.push(
            AccountBalance { account_id: a, calculated_balance: bal, expected_balance: expected, discrepancy },
        );
        proof {
            assert(accounts@.subrange(0, i + 1).drop_last() =~= accounts@.subrange(0, i as int));
            assert(accounts@.subrange(0, i + 1).last() == accounts@[i as int]);
            lemma_balance_le_gross(txs, a);
            lemma_gross_of_nonneg(txs, a);
            assert(gross_of(txs, a) <= i64::MAX);
            assert((i + 1) * (i64::MAX as int) == i * (i64::MAX as int) + (i64::MAX as int)) by (
            nonlinear_arith);
            assert(i * (i64::MAX as int) <= usize::MAX * (i64::MAX as int)) by (nonlinear_arith)
                requires
                    i <= usize::MAX,
            ;
        }
        match class {
            AccountClass::Asset => {
                assets = assets + bal as i128;
            },
            AccountClass::Liability => {
                liabilities = liabilities + bal as i128;
            },
            AccountClass::Equity => {
                equity = equity + bal as i128;
            },
        }
        i = i + 1;
    }
    proof {
        assert(accounts@.subrange(0, accounts@.len() as int) =~= accounts@);
        assert(accounts@.len() * (i64::MAX as int) <= usize::MAX * (i64::MAX as int)) by (
        nonlinear_arith)
            requires
                accounts@.len() <= usize::MAX,
        ;
    }
    let is_balanced = assets + liabilities + equity == 0;
    // Debit and credit volume within the period, from the entry stream.
    let mut total_debits: i128 = 0;
    let mut total_credits: i128 = 0;
    let mut i: usize = 0;
    while i < accounts.len()
        invariant
            i <= accounts.len(),
            total_debits == total_debits_of(
                txs,
                accounts@.subrange(0, i as int),
                period_start,
                period_end,
            ),
            total_credits == total_credits_of(
                txs,
                accounts@.subrange(0, i as int),
                period_start,
                period_end,
            ),
            0 <= total_debits <= i * (i64::MAX as int),
            0 <= total_credits <= i * (i64::MAX as int),
        decreases accounts.len() - i,
    {
        let (a, _) = accounts[i];
        let page = match store.get_account_transactions(a, usize::MAX, 0) {
            Ok(p) => p,
            Err(e) => {
                return Err(e);
            },
        };
        let ghost pm = page@.map_values(|t: crate::store::CommittedTransaction| t@);
        proof {
            lemma_full_page(txs, a);
            lemma_newest_first_volumes(txs, a, period_start, period_end);
            lemma_txs_volumes_le_gross(txs, a, period_start, period_end);
            lemma_txs_volumes_le_gross(pm, a, period_start, period_end);
            lemma_gross_of_nonneg(txs, a);
            assert(gross_of(pm, a) == gross_of(txs, a));
            assert(gross_of(pm, a) <= i64::MAX);
        }
        let mut deb: i128 = 0;
        let mut cred: i128 = 0;
        let mut k: usize = 0;
        while k < page.len()
            invariant
                k <= page.len(),
                deb == txs_debits(pm.subrange(0, k as int), a, period_start, period_end),
                cred == txs_credits(pm.subrange(0, k as int), a, period_start, period_end),
            decreases page.len() - k,
        {
            proof {
                assert(pm.subrange(0, k + 1).drop_last() =~= pm.subrange(0, k as int));
                assert(pm.subrange(0, k + 1).last() == pm[k as int]);
                assert(pm[k as int] == page@[k as int]@);
                lemma_prefix_volumes(pm, a, period_start, period_end, k + 1);
                lemma_txs_volumes_le_gross(pm.subrange(0, k + 1), a, period_start, period_end);
                lemma_txs_volumes_le_gross(
                    pm.subrange(k + 1, pm.len() as int),
                    a,
                    period_start,
                    period_end,
                );
            }
            let tx = &page[k];
            let ghost em = tx@.entries;
            let mut d2: i128 = 0;
            let mut c2: i128 = 0;
            let mut j: usize = 0;
            while j < tx.entries.len()
                invariant
                    j <= tx.entries.len(),
                    em == tx@.entries,
                    em.len() == tx.entries@.len(),
                    d2 == debits_in(em.subrange(0, j as int), a, period_start, period_end),
                    c2 == credits_in(em.subrange(0, j as int), a, period_start, period_end),
                decreases tx.entries.len() - j,
            {
                proof {
                    assert(em.subrange(0, j + 1).drop_last() =~= em.subrange(0, j as int));
                    assert(em.subrange(0, j + 1).last() == em[j as int]);
                    assert(em[j as int] == tx.entries@[j as int]@);
                    lemma_entry_volumes_le_gross(
                        em.subrange(0, j + 1),
                        a,
                        period_start,
                        period_end,
                    );
                    lemma_entry_sums_split(em, a, j + 1);
                    lemma_gross_in_nonneg(em.subrange(j + 1, em.len() as int), a);
                    lemma_gross_in_le_of(pm, a, k as int);
                }
                let e = &tx.entries[j];
                if e.account_id == a && period_start <= e.timestamp && e.timestamp <= period_end {
                    if e.signed_amount > 0 {
                        d2 = d2 + e.signed_amount as i128;
                    } else if e.signed_amount < 0 {
                        c2 = c2 + -(e.signed_amount as i128);
                    }
                }
                j = j + 1;
            }
            proof {
                assert(em.subrange(0, em.len() as int) =~= em);
            }
            deb = deb + d2;
            cred = cred + c2;
            k = k + 1;
        }
        proof {
            assert(pm.subrange(0, pm.len() as int) =~= pm);
            assert(accounts@.subrange(0, i + 1).drop_last() =~= accounts@.subrange(0, i as int));
            assert(accounts@.subrange(0, i + 1).last() == accounts@[i as int]);
            assert((i + 1) * (i64::MAX as int) == i * (i64::MAX as int) + (i64::MAX as int)) by (
            nonlinear_arith);
            assert(i * (i64::MAX as int) <= usize::MAX * (i64::MAX as int)) by (nonlinear_arith)
                requires
                    i <= usize::MAX,
            ;
        }
        total_debits = total_debits + deb;
        total_credits = total_credits + cred;
        i = i + 1;
    }
    proof {
        assert(accounts@.subrange(0, accounts@.len() as int) =~= accounts@);
    }
    Ok(
        ReconciliationReport {
            period_start,
            period_end,
            account_balances: rows,
            total_debits,
            total_credits,
            is_balanced,
        },
    )
}

/// The magnitude of a 128-bit value, as an unbounded integer.
pub open spec fn abs_i128(x: i128) -> int {
    if x >= 0 {
        x as int
    } else {
        -(x as int)
    }
}

/// Volumes of a prefix never exceed the whole sequence's volumes.
proof fn lemma_prefix_volumes(txs: Seq<TxModel>, a: u128, p0: i64, p1: i64, i: int)
    requires
        0 <= i <= txs.len(),
    ensures
        txs_debits(txs.subrange(0, i), a, p0, p1) <= txs_debits(txs, a, p0, p1),
        txs_credits(txs.subrange(0, i), a, p0, p1) <= txs_credits(txs, a, p0, p1),
{
    assert(txs =~= txs.subrange(0, i) + txs.subrange(i, txs.len() as int));
    lemma_volumes_split(txs.subrange(0, i), txs.subrange(i, txs.len() as int), a, p0, p1);
    lemma_txs_volumes_le_gross(txs.subrange(i, txs.len() as int), a, p0, p1);
    lemma_gross_of_nonneg(txs.subrange(i, txs.len() as int), a);
}

/// One transaction's gross activity is part of the log's gross activity.
proof fn lemma_gross_in_le_of(txs: Seq<TxModel>, a: u128, k: int)
    requires
        0 <= k < txs.len(),
    ensures
        gross_in(txs[k].entries, a) <= gross_of(txs, a),
    decreases txs.len(),
{
    lemma_gross_in_nonneg(txs[k].entries, a);
    if k == txs.len() - 1 {
        lemma_gross_of_nonneg(txs.drop_last(), a);
        assert(txs.last() == txs[k]);
    } else {
        lemma_gross_in_le_of(txs.drop_last(), a, k);
        lemma_gross_in_nonneg(txs.last().entries, a);
        assert(txs.drop_last()[k] == txs[k]);
    }
}

/// Scans the expected balances for the first record of the account.
fn lookup_expected_in(ex: &Vec<(u128, i64)>, a: u128) -> (r: Option<i64>)
    ensures
        r == lookup_expected(ex@, a),
{
    let mut r: Option<i64> = None;
    let mut i: usize = 0;
    while i < ex.len()
        invariant
            i <= ex.len(),
            r == lookup_expected(ex@.subrange(0, i as int), a),
        decreases ex.len() - i,
    {
        proof {
            assert(ex@.subrange(0, i + 1).drop_last() =~= ex@.subrange(0, i as int));
            assert(ex@.subrange(0, i + 1).last() == ex@[i as int]);
        }
        if r.is_none() && ex[i].0 == a {
            r = Some(ex[i].1);
        }
        i = i + 1;
    }
    proof {
        assert(ex@.subrange(0, ex@.len() as int) =~= ex@);
    }
    r
}

} // verus!
