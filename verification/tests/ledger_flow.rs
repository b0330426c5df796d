use ledger::errors::{IntentRule, LedgerError, StorageFault};
use ledger::memory_store::InMemoryLedgerStore;
use ledger::reconciliation::{reconcile_accounts, AccountClass, DEFAULT_PERIOD_MS};
use ledger::store::{EntryInput, LedgerStore, SYSTEM_ACCOUNT_ID};
use ledger::wallet::{TransactionIntent, TransactionIntentType, WalletService};

fn service() -> WalletService<InMemoryLedgerStore> {
    WalletService::new(InMemoryLedgerStore::new())
}

fn deposit_intent(dest: u128, amount: i64, key: &str) -> TransactionIntent {
    TransactionIntent::new(
        TransactionIntentType::Deposit,
        amount,
        None,
        Some(dest),
        "initial_deposit".to_string(),
        key.to_string(),
    )
}

fn transfer_intent(src: u128, dest: u128, amount: i64, key: &str) -> TransactionIntent {
    TransactionIntent::new(
        TransactionIntentType::Transfer,
        amount,
        Some(src),
        Some(dest),
        "peer_transfer".to_string(),
        key.to_string(),
    )
}

#[test]
fn test_wallet_creation_and_transactions() {
    let mut wallet_service = service();

    let user1_id: u128 = 11;
    let user2_id: u128 = 22;

    let wallet1 = wallet_service
        .create_wallet(user1_id, "USD".to_string(), "Primary Wallet".to_string())
        .expect("Failed to create wallet 1");
    let wallet2 = wallet_service
        .create_wallet(user2_id, "USD".to_string(), "Primary Wallet".to_string())
        .expect("Failed to create wallet 2");

    let deposit = deposit_intent(wallet1.id, 100000, "deposit_001");
    wallet_service
        .execute_transaction(deposit)
        .expect("Failed to deposit");

    let balance1 = wallet_service
        .get_account_balance(wallet1.id)
        .expect("Failed to get balance");
    assert_eq!(balance1, 100000);

    let transfer = transfer_intent(wallet1.id, wallet2.id, 50000, "transfer_001");
    wallet_service
        .execute_transaction(transfer)
        .expect("Failed to transfer");

    let balance1_after = wallet_service
        .get_account_balance(wallet1.id)
        .expect("Failed to get balance");
    let balance2_after = wallet_service
        .get_account_balance(wallet2.id)
        .expect("Failed to get balance");
    assert_eq!(balance1_after, 50000);
    assert_eq!(balance2_after, 50000);

    let failed = TransactionIntent::new(
        TransactionIntentType::Transfer,
        100000,
        Some(wallet1.id),
        Some(wallet2.id),
        "overdraft_attempt".to_string(),
        "transfer_002".to_string(),
    );
    let result = wallet_service.execute_transaction(failed);
    assert!(result.is_err());

    let transactions = wallet_service
        .get_account_transactions(wallet1.id, 10, 0)
        .expect("Failed to get transactions");
    assert_eq!(transactions.len(), 2);

    println!("Wallet 1 final balance: {}", balance1_after);
    println!("Wallet 2 final balance: {}", balance2_after);
}

#[test]
fn test_deposit_reads_back_exact() {
    let mut svc = service();
    let w = svc
        .create_wallet(1, "USD".to_string(), "w".to_string())
        .unwrap();
    svc.execute_transaction(deposit_intent(w.id, 100000, "d1"))
        .unwrap();
    assert_eq!(svc.get_account_balance(w.id).unwrap(), 100000);
}

#[test]
fn test_transfer_entries_balanced() {
    let mut svc = service();
    let w1 = svc
        .create_wallet(1, "USD".to_string(), "a".to_string())
        .unwrap();
    let w2 = svc
        .create_wallet(2, "USD".to_string(), "b".to_string())
        .unwrap();
    svc.execute_transaction(deposit_intent(w1.id, 100000, "d1"))
        .unwrap();
    let tx_id = svc
        .execute_transaction(transfer_intent(w1.id, w2.id, 50000, "t1"))
        .unwrap();
    assert_eq!(svc.get_account_balance(w1.id).unwrap(), 50000);
    assert_eq!(svc.get_account_balance(w2.id).unwrap(), 50000);

    let history = svc.get_account_transactions(w1.id, 10, 0).unwrap();
    let transfer = &history[0];
    assert_eq!(transfer.transaction_id, tx_id);
    assert_eq!(transfer.entries.len(), 2);
    let sum: i128 = transfer
        .entries
        .iter()
        .map(|e| e.signed_amount as i128)
        .sum();
    assert_eq!(sum, 0);
    assert_eq!(transfer.entries[0].currency, "USD".to_string());
}

#[test]
fn test_overdraft_leaves_balances_unchanged() {
    let mut svc = service();
    let w1 = svc
        .create_wallet(1, "USD".to_string(), "a".to_string())
        .unwrap();
    let w2 = svc
        .create_wallet(2, "USD".to_string(), "b".to_string())
        .unwrap();
    svc.execute_transaction(deposit_intent(w1.id, 50000, "d1"))
        .unwrap();
    let before1 = svc.get_account_balance(w1.id).unwrap();
    let before2 = svc.get_account_balance(w2.id).unwrap();

    let r = svc.execute_transaction(transfer_intent(w1.id, w2.id, 100000, "t1"));
    match r {
        Err(LedgerError::InsufficientFunds {
            account_id,
            required,
            available,
        }) => {
            assert_eq!(account_id, w1.id);
            assert_eq!(required, 100000);
            assert_eq!(available, 50000);
        }
        other => panic!("expected InsufficientFunds, got {:?}", other),
    }
    assert_eq!(svc.get_account_balance(w1.id).unwrap(), before1);
    assert_eq!(svc.get_account_balance(w2.id).unwrap(), before2);
}

#[test]
fn test_idempotent_replay_returns_same_transaction() {
    let mut svc = service();
    let w = svc
        .create_wallet(1, "USD".to_string(), "w".to_string())
        .unwrap();
    let first = svc
        .execute_transaction(deposit_intent(w.id, 100000, "same_key"))
        .unwrap();
    let balance_after_first = svc.get_account_balance(w.id).unwrap();

    let second = svc
        .execute_transaction(deposit_intent(w.id, 100000, "same_key"))
        .unwrap();
    assert_eq!(first, second);
    assert_eq!(svc.get_account_balance(w.id).unwrap(), balance_after_first);
    assert_eq!(
        svc.get_account_transactions(w.id, 10, 0).unwrap().len(),
        1
    );
}

#[test]
fn test_committed_transactions_sum_zero() {
    let mut svc = service();
    let w1 = svc
        .create_wallet(1, "USD".to_string(), "a".to_string())
        .unwrap();
    let w2 = svc
        .create_wallet(2, "USD".to_string(), "b".to_string())
        .unwrap();
    svc.execute_transaction(deposit_intent(w1.id, 100000, "d1"))
        .unwrap();
    svc.execute_transaction(transfer_intent(w1.id, w2.id, 30000, "t1"))
        .unwrap();
    let withdrawal = TransactionIntent::new(
        TransactionIntentType::Withdrawal,
        20000,
        Some(w1.id),
        None,
        "cash_out".to_string(),
        "wd1".to_string(),
    );
    svc.execute_transaction(withdrawal).unwrap();

    for account in [w1.id, w2.id, SYSTEM_ACCOUNT_ID] {
        let history = svc.get_account_transactions(account, 100, 0).unwrap();
        for tx in history {
            let sum: i128 = tx.entries.iter().map(|e| e.signed_amount as i128).sum();
            assert_eq!(sum, 0, "transaction {} does not balance", tx.transaction_id);
        }
    }
}

#[test]
fn test_balance_equals_history_sum() {
    let mut svc = service();
    let w1 = svc
        .create_wallet(1, "USD".to_string(), "a".to_string())
        .unwrap();
    let w2 = svc
        .create_wallet(2, "USD".to_string(), "b".to_string())
        .unwrap();
    svc.execute_transaction(deposit_intent(w1.id, 70000, "d1"))
        .unwrap();
    svc.execute_transaction(transfer_intent(w1.id, w2.id, 25000, "t1"))
        .unwrap();
    svc.execute_transaction(transfer_intent(w2.id, w1.id, 5000, "t2"))
        .unwrap();

    for account in [w1.id, w2.id, SYSTEM_ACCOUNT_ID] {
        let history = svc.get_account_transactions(account, usize::MAX, 0).unwrap();
        let sum: i128 = history
            .iter()
            .flat_map(|tx| tx.entries.iter())
            .filter(|e| e.account_id == account)
            .map(|e| e.signed_amount as i128)
            .sum();
        let balance = svc.get_account_balance(account).unwrap();
        assert_eq!(balance as i128, sum);
    }
}

#[test]
fn test_validation_rules() {
    let mut svc = service();
    let w = svc
        .create_wallet(1, "USD".to_string(), "w".to_string())
        .unwrap();

    let zero = TransactionIntent::new(
        TransactionIntentType::Deposit,
        0,
        None,
        Some(w.id),
        "t".to_string(),
        "k1".to_string(),
    );
    assert!(matches!(
        svc.execute_transaction(zero),
        Err(LedgerError::InvalidIntent(IntentRule::NonPositiveAmount))
    ));

    let no_dest = TransactionIntent::new(
        TransactionIntentType::Deposit,
        100,
        None,
        None,
        "t".to_string(),
        "k2".to_string(),
    );
    assert!(matches!(
        svc.execute_transaction(no_dest),
        Err(LedgerError::InvalidIntent(IntentRule::MissingDestination))
    ));

    let with_source = TransactionIntent::new(
        TransactionIntentType::Deposit,
        100,
        Some(w.id),
        Some(w.id),
        "t".to_string(),
        "k3".to_string(),
    );
    assert!(matches!(
        svc.execute_transaction(with_source),
        Err(LedgerError::InvalidIntent(IntentRule::UnexpectedSource))
    ));

    let no_source = TransactionIntent::new(
        TransactionIntentType::Withdrawal,
        100,
        None,
        None,
        "t".to_string(),
        "k4".to_string(),
    );
    assert!(matches!(
        svc.execute_transaction(no_source),
        Err(LedgerError::InvalidIntent(IntentRule::MissingSource))
    ));

    let with_dest = TransactionIntent::new(
        TransactionIntentType::Withdrawal,
        100,
        Some(w.id),
        Some(w.id),
        "t".to_string(),
        "k5".to_string(),
    );
    assert!(matches!(
        svc.execute_transaction(with_dest),
        Err(LedgerError::InvalidIntent(IntentRule::UnexpectedDestination))
    ));

    let same = TransactionIntent::new(
        TransactionIntentType::Transfer,
        100,
        Some(w.id),
        Some(w.id),
        "t".to_string(),
        "k6".to_string(),
    );
    assert!(matches!(
        svc.execute_transaction(same),
        Err(LedgerError::InvalidIntent(
            IntentRule::SameSourceAndDestination
        ))
    ));

    let empty_key = TransactionIntent::new(
        TransactionIntentType::Deposit,
        100,
        None,
        Some(w.id),
        "t".to_string(),
        "".to_string(),
    );
    assert!(matches!(
        svc.execute_transaction(empty_key),
        Err(LedgerError::InvalidIntent(IntentRule::EmptyIdempotencyKey))
    ));
}

#[test]
fn test_account_not_found() {
    let mut svc = service();
    let unknown: u128 = 999;
    let r = svc.execute_transaction(deposit_intent(unknown, 100, "k1"));
    match r {
        Err(LedgerError::AccountNotFound(a)) => assert_eq!(a, unknown),
        other => panic!("expected AccountNotFound, got {:?}", other),
    }
}

#[test]
fn test_currency_mismatch() {
    let mut svc = service();
    let w1 = svc
        .create_wallet(1, "USD".to_string(), "a".to_string())
        .unwrap();
    let w2 = svc
        .create_wallet(2, "EUR".to_string(), "b".to_string())
        .unwrap();
    svc.execute_transaction(deposit_intent(w1.id, 100000, "d1"))
        .unwrap();
    let r = svc.execute_transaction(transfer_intent(w1.id, w2.id, 100, "t1"));
    assert!(matches!(r, Err(LedgerError::CurrencyMismatch)));
    assert_eq!(svc.get_account_balance(w1.id).unwrap(), 100000);
    assert_eq!(svc.get_account_balance(w2.id).unwrap(), 0);
}

#[test]
fn test_store_duplicate_key() {
    let mut st = InMemoryLedgerStore::new();
    let entries = vec![
        EntryInput {
            account_id: 42,
            signed_amount: 100,
        },
        EntryInput {
            account_id: SYSTEM_ACCOUNT_ID,
            signed_amount: -100,
        },
    ];
    let usd = "USD".to_string();
    let first = st
        .append_entries(7, "key".to_string(), &entries, &usd, 1000)
        .unwrap();
    assert_eq!(first.transaction_id, 7);
    assert_eq!(
        st.find_idempotency_key(&"key".to_string()).unwrap(),
        Some(7)
    );
    assert_eq!(st.find_idempotency_key(&"other".to_string()).unwrap(), None);

    let r = st.append_entries(8, "key".to_string(), &entries, &usd, 2000);
    match r {
        Err(LedgerError::DuplicateIdempotencyKey(prior)) => assert_eq!(prior, 7),
        other => panic!("expected DuplicateIdempotencyKey, got {:?}", other),
    }
    assert_eq!(st.get_account_balance(42).unwrap(), 100);
}

#[test]
fn test_store_unbalanced() {
    let mut st = InMemoryLedgerStore::new();
    let entries = vec![
        EntryInput {
            account_id: 42,
            signed_amount: 100,
        },
        EntryInput {
            account_id: SYSTEM_ACCOUNT_ID,
            signed_amount: -40,
        },
    ];
    let r = st.append_entries(7, "key".to_string(), &entries, &"USD".to_string(), 1000);
    match r {
        Err(LedgerError::Unbalanced(sum)) => assert_eq!(sum, 60),
        other => panic!("expected Unbalanced, got {:?}", other),
    }
    assert_eq!(st.get_account_balance(42).unwrap(), 0);
}

#[test]
fn test_store_amount_out_of_range() {
    let mut st = InMemoryLedgerStore::new();
    let entries = vec![EntryInput {
        account_id: 42,
        signed_amount: i64::MIN,
    }];
    let r = st.append_entries(7, "key".to_string(), &entries, &"USD".to_string(), 1000);
    assert!(matches!(
        r,
        Err(LedgerError::StorageFailure(StorageFault::AmountOutOfRange))
    ));
}

#[test]
fn test_pagination_newest_first() {
    let mut svc = service();
    let w = svc
        .create_wallet(1, "USD".to_string(), "w".to_string())
        .unwrap();
    for (k, key) in ["p1", "p2", "p3"].iter().enumerate() {
        svc.execute_transaction(deposit_intent(w.id, 100 * (k as i64 + 1), key))
            .unwrap();
    }
    let full = svc.get_account_transactions(w.id, 10, 0).unwrap();
    assert_eq!(full.len(), 3);
    // Newest first: the last deposit committed comes first.
    assert_eq!(full[0].idempotency_key, "p3".to_string());
    assert_eq!(full[2].idempotency_key, "p1".to_string());

    let page0 = svc.get_account_transactions(w.id, 2, 0).unwrap();
    assert_eq!(page0.len(), 2);
    assert_eq!(page0[0].transaction_id, full[0].transaction_id);
    assert_eq!(page0[1].transaction_id, full[1].transaction_id);

    let page1 = svc.get_account_transactions(w.id, 2, 2).unwrap();
    assert_eq!(page1.len(), 1);
    assert_eq!(page1[0].transaction_id, full[2].transaction_id);

    let beyond = svc.get_account_transactions(w.id, 2, 5).unwrap();
    assert_eq!(beyond.len(), 0);
}

#[test]
fn test_reconcile_balanced_books() {
    let mut svc = service();
    let w1 = svc
        .create_wallet(1, "USD".to_string(), "a".to_string())
        .unwrap();
    let w2 = svc
        .create_wallet(2, "USD".to_string(), "b".to_string())
        .unwrap();
    svc.execute_transaction(deposit_intent(w1.id, 100000, "d1"))
        .unwrap();
    svc.execute_transaction(transfer_intent(w1.id, w2.id, 50000, "t1"))
        .unwrap();

    let accounts = vec![
        (w1.id, AccountClass::Asset),
        (w2.id, AccountClass::Asset),
        (SYSTEM_ACCOUNT_ID, AccountClass::Equity),
    ];
    let expected = vec![(w1.id, 50000i64), (w2.id, 50000i64)];
    let report = reconcile_accounts(svc.store(), &accounts, Some(&expected), None).unwrap();

    assert!(report.is_balanced);
    assert_eq!(report.account_balances.len(), 3);
    assert_eq!(report.account_balances[0].calculated_balance, 50000);
    assert_eq!(report.account_balances[0].expected_balance, Some(50000));
    assert_eq!(report.account_balances[0].discrepancy, Some(0));
    assert_eq!(report.account_balances[2].calculated_balance, -100000);
    assert_eq!(report.account_balances[2].expected_balance, None);
    assert_eq!(report.account_balances[2].discrepancy, None);
    // Deposit: +100000 on w1; transfer: -50000/+50000; system: -100000.
    assert_eq!(report.total_debits, 150000);
    assert_eq!(report.total_credits, 150000);
    assert_eq!(report.period_end - report.period_start, DEFAULT_PERIOD_MS);
}

#[test]
fn test_reconcile_detects_imbalance() {
    let mut svc = service();
    let w1 = svc
        .create_wallet(1, "USD".to_string(), "a".to_string())
        .unwrap();
    svc.execute_transaction(deposit_intent(w1.id, 100000, "d1"))
        .unwrap();

    // Querying the asset side without its equity counter-leg breaks the
    // identity; the supplied expectation exposes the discrepancy.
    let accounts = vec![(w1.id, AccountClass::Asset)];
    let expected = vec![(w1.id, 50000i64)];
    let report = reconcile_accounts(svc.store(), &accounts, Some(&expected), Some((0, i64::MAX)))
        .unwrap();
    assert!(!report.is_balanced);
    assert_eq!(report.account_balances[0].discrepancy, Some(50000));
    assert_eq!(report.period_start, 0);
    assert_eq!(report.period_end, i64::MAX);
}

#[test]
fn test_reconcile_period_filters_volume() {
    let mut st = InMemoryLedgerStore::new();
    let usd = "USD".to_string();
    let entries = vec![
        EntryInput {
            account_id: 42,
            signed_amount: 100,
        },
        EntryInput {
            account_id: SYSTEM_ACCOUNT_ID,
            signed_amount: -100,
        },
    ];
    st.append_entries(1, "k1".to_string(), &entries, &usd, 1000)
        .unwrap();
    st.append_entries(2, "k2".to_string(), &entries, &usd, 5000)
        .unwrap();

    let accounts = vec![(42u128, AccountClass::Asset)];
    let in_window = reconcile_accounts(&st, &accounts, None, Some((0, 2000))).unwrap();
    assert_eq!(in_window.total_debits, 100);
    assert_eq!(in_window.total_credits, 0);

    let both = reconcile_accounts(&st, &accounts, None, Some((0, 6000))).unwrap();
    assert_eq!(both.total_debits, 200);

    let none = reconcile_accounts(&st, &accounts, None, Some((10000, 20000))).unwrap();
    assert_eq!(none.total_debits, 0);
}

#[test]
fn test_withdrawal_and_insufficient_withdrawal() {
    let mut svc = service();
    let w = svc
        .create_wallet(1, "USD".to_string(), "w".to_string())
        .unwrap();
    svc.execute_transaction(deposit_intent(w.id, 100000, "d1"))
        .unwrap();
    let wd = TransactionIntent::new(
        TransactionIntentType::Withdrawal,
        30000,
        Some(w.id),
        None,
        "cash_out".to_string(),
        "wd1".to_string(),
    );
    svc.execute_transaction(wd).unwrap();
    assert_eq!(svc.get_account_balance(w.id).unwrap(), 70000);
    // The system account absorbed the counter-legs of deposit and
    // withdrawal: -100000 + 30000.
    assert_eq!(
        svc.get_account_balance(SYSTEM_ACCOUNT_ID).unwrap(),
        -70000
    );

    let too_much = TransactionIntent::new(
        TransactionIntentType::Withdrawal,
        80000,
        Some(w.id),
        None,
        "cash_out".to_string(),
        "wd2".to_string(),
    );
    assert!(matches!(
        svc.execute_transaction(too_much),
        Err(LedgerError::InsufficientFunds { .. })
    ));
    assert_eq!(svc.get_account_balance(w.id).unwrap(), 70000);
}

#[test]
fn test_wallet_fields() {
    let mut svc = service();
    let w = svc
        .create_wallet(77, "USD".to_string(), "Primary Wallet".to_string())
        .unwrap();
    assert_eq!(w.owner_id, 77);
    assert_eq!(w.currency, "USD".to_string());
    assert_eq!(w.label, "Primary Wallet".to_string());
    assert_ne!(w.id, SYSTEM_ACCOUNT_ID);
}

#[test]
fn test_commit_timestamps_never_decrease() {
    let mut st = InMemoryLedgerStore::new();
    let usd = "USD".to_string();
    let entries = vec![
        EntryInput {
            account_id: 42,
            signed_amount: 100,
        },
        EntryInput {
            account_id: SYSTEM_ACCOUNT_ID,
            signed_amount: -100,
        },
    ];
    let t1 = st
        .append_entries(1, "k1".to_string(), &entries, &usd, 5000)
        .unwrap();
    // A clock running backwards does not push the commit order back.
    let t2 = st
        .append_entries(2, "k2".to_string(), &entries, &usd, 1000)
        .unwrap();
    assert_eq!(t1.timestamp, 5000);
    assert_eq!(t2.timestamp, 5000);
    assert_eq!(t2.entries[0].timestamp, 5000);
    assert_eq!(t2.entries[0].transaction_id, 2);
}
