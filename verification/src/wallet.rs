//! The wallet service: intent validation, idempotent execution, and
//! balanced entry construction over a ledger store.

use vstd::prelude::*;
use crate::errors::{IntentRule, LedgerError, StorageFault};
use crate::store::{
    CommittedTransaction, EntryInput, LedgerStore, TxModel, SYSTEM_ACCOUNT_ID, balance_of,
    committed_tx, input_amounts_ok, input_entry_sum, input_gross, input_sum, inputs_fit,
    key_committed, page_of, store_inv, tx_of_key,
};
use crate::outside::{fresh_id, now_unix_millis};

verus! {

/// What kind of money movement an intent asks for.
#[derive(Clone, Copy, Debug, PartialEq, Eq, Structural)]
pub enum TransactionIntentType {
    Deposit,
    Withdrawal,
    Transfer,
}

/// The validated, immutable description of a requested movement. The
/// amount is in minor units and must be strictly positive; the
/// idempotency key is caller-supplied and globally unique per logical
/// operation.
#[derive(Clone, Debug)]
pub struct TransactionIntent {
    pub intent_type: TransactionIntentType,
    pub amount: i64,
    pub source_account: Option<u128>,
    pub destination_account: Option<u128>,
    pub category_tag: String,
    pub idempotency_key: String,
}

impl TransactionIntent {
    /// Bundles the fields of an intent; validation happens at execution.
    pub fn new(
        intent_type: TransactionIntentType,
        amount: i64,
        source_account: Option<u128>,
        destination_account: Option<u128>,
        category_tag: String,
        idempotency_key: String,
    ) -> (r: TransactionIntent)
        ensures
            r == (TransactionIntent {
                intent_type,
                amount,
                source_account,
                destination_account,
                category_tag,
                idempotency_key,
            }),
    {
        TransactionIntent {
            intent_type,
            amount,
            source_account,
            destination_account,
            category_tag,
            idempotency_key,
        }
    }
}

/// The first validation rule the intent breaks, if any, in the order the
/// rules are checked: positive amount, the type's account shape, then a
/// non-empty idempotency key.
pub open spec fn intent_violation(i: TransactionIntent) -> Option<IntentRule> {
    if i.amount <= 0 {
        Some(IntentRule::NonPositiveAmount)
    } else {
        match i.intent_type {
            TransactionIntentType::Deposit => {
                if i.destination_account is None {
                    Some(IntentRule::MissingDestination)
                } else if i.source_account is Some {
                    Some(IntentRule::UnexpectedSource)
                } else if i.idempotency_key@.len() == 0 {
                    Some(IntentRule::EmptyIdempotencyKey)
                } else {
                    None
                }
            },
            TransactionIntentType::Withdrawal => {
                if i.source_account is None {
                    Some(IntentRule::MissingSource)
                } else if i.destination_account is Some {
                    Some(IntentRule::UnexpectedDestination)
                } else if i.idempotency_key@.len() == 0 {
                    Some(IntentRule::EmptyIdempotencyKey)
                } else {
                    None
                }
            },
            TransactionIntentType::Transfer => {
                if i.source_account is None {
                    Some(IntentRule::MissingSource)
                } else if i.destination_account is None {
                    Some(IntentRule::MissingDestination)
                } else if i.source_account.unwrap() == i.destination_account.unwrap() {
                    Some(IntentRule::SameSourceAndDestination)
                } else if i.idempotency_key@.len() == 0 {
                    Some(IntentRule::EmptyIdempotencyKey)
                } else {
                    None
                }
            },
        }
    }
}

/// Whether the intent passes every validation rule.
pub open spec fn intent_valid(i: TransactionIntent) -> bool {
    intent_violation(i) is None
}

/// Validates an intent against the rules of `intent_violation`, naming
/// the first rule broken. No store access happens here.
pub fn validate_intent(i: &TransactionIntent) -> (r: Result<(), LedgerError>)
    ensures
        match r {
            Ok(()) => intent_valid(*i),
            Err(e) => match e {
                LedgerError::InvalidIntent(rule) => intent_violation(*i) == Some(rule),
                _ => false,
            },
        },
{
    if i.amount <= 0 {
        return Err(LedgerError::InvalidIntent(IntentRule::NonPositiveAmount));
    }
    match i.intent_type {
        TransactionIntentType::Deposit => {
            if i.destination_account.is_none() {
                return Err(LedgerError::InvalidIntent(IntentRule::MissingDestination));
            }
            if i.source_account.is_some() {
                return Err(LedgerError::InvalidIntent(IntentRule::UnexpectedSource));
            }
        },
        TransactionIntentType::Withdrawal => {
            if i.source_account.is_none() {
                return Err(LedgerError::InvalidIntent(IntentRule::MissingSource));
            }
            if i.destination_account.is_some() {
                return Err(LedgerError::InvalidIntent(IntentRule::UnexpectedDestination));
            }
        },
        TransactionIntentType::Transfer => {
            if i.source_account.is_none() {
                return Err(LedgerError::InvalidIntent(IntentRule::MissingSource));
            }
            if i.destination_account.is_none() {
                return Err(LedgerError::InvalidIntent(IntentRule::MissingDestination));
            }
            let s = i.source_account.unwrap();
            let d = i.destination_account.unwrap();
            if s == d {
                return Err(LedgerError::InvalidIntent(IntentRule::SameSourceAndDestination));
            }
        },
    }
    if i.idempotency_key.as_str().unicode_len() == 0 {
        return Err(LedgerError::InvalidIntent(IntentRule::EmptyIdempotencyKey));
    }
    Ok(())
}

/// The balanced entry set a valid intent commits: the source leg (the
/// system account for a deposit) carries `-amount`, the destination leg
/// (the system account for a withdrawal) carries `+amount`.
pub open spec fn planned_entries(i: TransactionIntent) -> Seq<EntryInput> {
    let neg = (-(i.amount as int)) as i64;
    match i.intent_type {
        TransactionIntentType::Deposit => seq![
            (EntryInput { account_id: SYSTEM_ACCOUNT_ID, signed_amount: neg }),
            (EntryInput { account_id: i.destination_account.unwrap(), signed_amount: i.amount }),
        ],
        TransactionIntentType::Withdrawal => seq![
            (EntryInput { account_id: i.source_account.unwrap(), signed_amount: neg }),
            (EntryInput { account_id: SYSTEM_ACCOUNT_ID, signed_amount: i.amount }),
        ],
        TransactionIntentType::Transfer => seq![
            (EntryInput { account_id: i.source_account.unwrap(), signed_amount: neg }),
            (EntryInput { account_id: i.destination_account.unwrap(), signed_amount: i.amount }),
        ],
    }
}

/// The sums of a two-entry set, written out.
pub proof fn lemma_pair_sums(e1: EntryInput, e2: EntryInput, a: u128)
    ensures
        input_sum(seq![e1, e2]) == e1.signed_amount + e2.signed_amount,
        input_entry_sum(seq![e1, e2], a) == (if e1.account_id == a {
            e1.signed_amount as int
        } else {
            0
        }) + (if e2.account_id == a {
            e2.signed_amount as int
        } else {
            0
        }),
{
    let s = seq![e1, e2];
    assert(s.drop_last() =~= seq![e1]);
    assert(seq![e1].drop_last() =~= Seq::<EntryInput>::empty());
    assert(s.last() == e2);
    assert(seq![e1].last() == e1);
    assert(input_sum(Seq::<EntryInput>::empty()) == 0);
    assert(input_sum(seq![e1]) == e1.signed_amount);
    assert(input_sum(s) == input_sum(s.drop_last()) + e2.signed_amount);
    assert(input_entry_sum(Seq::<EntryInput>::empty(), a) == 0);
    assert(input_entry_sum(seq![e1], a) == if e1.account_id == a {
        e1.signed_amount as int
    } else {
        0
    });
    assert(input_entry_sum(s, a) == input_entry_sum(s.drop_last(), a) + if e2.account_id == a {
        e2.signed_amount as int
    } else {
        0
    });
}

/// A user-facing handle onto an account: the owner, a display label, and
/// the underlying account identifier with its currency.
#[derive(Clone, Debug)]
pub struct Wallet {
    pub id: u128,
    pub owner_id: u128,
    pub currency: String,
    pub label: String,
}

/// One registered account: its identifier and currency code.
struct AccountRecord {
    account_id: u128,
    currency: String,
}

/// Orchestrates intent validation, idempotency checking, balanced entry
/// construction and atomic commitment over a ledger store.
///
/// Accounts must be registered (via `create_wallet`) before an intent
/// may reference them; the implicit system account needs no
/// registration.
pub struct WalletService<S: LedgerStore> {
    store: S,
    accounts: Vec<AccountRecord>,
}

impl<S: LedgerStore> WalletService<S> {
    /// The committed transaction log of the underlying store.
    pub closed spec fn ledger(&self) -> Seq<TxModel> {
        self.store.txs()
    }

    /// The registered accounts: identifier and currency, in registration
    /// order.
    pub closed spec fn registry(&self) -> Seq<(u128, Seq<char>)> {
        self.accounts@.map_values(|r: AccountRecord| (r.account_id, r.currency@))
    }

    /// Whether an account is registered.
    pub open spec fn registered(&self, a: u128) -> bool {
        exists|i: int| 0 <= i < self.registry().len() && self.registry()[i].0 == a
    }

    /// The currency of a registered account.
    pub open spec fn currency_of(&self, a: u128) -> Seq<char> {
        self.registry()[choose|i: int|
            0 <= i < self.registry().len() && self.registry()[i].0 == a].1
    }

    /// Well-formedness: the store invariant holds, registered accounts
    /// are distinct, and none of them is the system account.
    pub open spec fn wf(&self) -> bool {
        &&& store_inv(self.ledger())
        &&& forall|i: int, j: int|
            0 <= i < j < self.registry().len() ==> self.registry()[i].0 != self.registry()[j].0
        &&& forall|i: int|
            0 <= i < self.registry().len() ==> (#[trigger] self.registry()[i]).0
                != SYSTEM_ACCOUNT_ID
    }

    /// A service over a fresh, well-formed store, with no accounts
    /// registered yet.
    pub fn new(store: S) -> (r: WalletService<S>)
        requires
            store_inv(store.txs()),
        ensures
            r.wf(),
            r.ledger() == store.txs(),
            r.registry() == Seq::<(u128, Seq<char>)>::empty(),
    {
        let r = WalletService { store, accounts: Vec::new() };
        proof {
            assert(r.registry() =~= Seq::<(u128, Seq<char>)>::empty());
        }
        r
    }

    /// The position of an account in the registry, if registered.
    fn registry_index(&self, a: u128) -> (r: Option<usize>)
        ensures
            match r {
                Some(i) => i < self.registry().len() && self.registry()[i as int].0 == a,
                None => !self.registered(a),
            },
    {
        let mut i: usize = 0;
        while i < self.accounts.len()
            invariant
                i <= self.accounts.len(),
                forall|j: int| 0 <= j < i ==> self.registry()[j].0 != a,
            decreases self.accounts.len() - i,
        {
            if self.accounts[i].account_id == a {
                return Some(i);
            }
            i = i + 1;
        }
        None
    }

    /// Registers a fresh account under a drawn identifier and hands back
    /// the wallet. Fails only if the drawn identifier collides with an
    /// existing account (or the system account), in which case nothing
    /// changes and the caller may retry.
    pub fn create_wallet(&mut self, owner_id: u128, currency: String, label: String) -> (r: Result<
        Wallet,
        LedgerError,
    >)
        requires
            old(self).wf(),
        ensures
            final(self).wf(),
            final(self).ledger() == old(self).ledger(),
            match r {
                Ok(w) => {
                    &&& !old(self).registered(w.id)
                    &&& w.id != SYSTEM_ACCOUNT_ID
                    &&& w.owner_id == owner_id
                    &&& w.currency@ == currency@
                    &&& w.label@ == label@
                    &&& final(self).registry() == old(self).registry().push((w.id, currency@))
                },
                Err(e) => final(self).registry() == old(self).registry() && e matches
                    LedgerError::StorageFailure(StorageFault::IdentifierCollision),
            },
    {
        let id = fresh_id();
        if id == SYSTEM_ACCOUNT_ID {
            return Err(LedgerError::StorageFailure(StorageFault::IdentifierCollision));
        }
        match self.registry_index(id) {
            Some(_) => Err(LedgerError::StorageFailure(StorageFault::IdentifierCollision)),
            None => {
                let record = AccountRecord { account_id: id, currency: currency.clone() };
                self.accounts.push(record);
                proof {
                    assert(final(self).registry() =~= old(self).registry().push((id, currency@)));
                }
                Ok(Wallet { id, owner_id, currency, label })
            },
        }
    }

    /// The first referenced account the registry lacks, source before
    /// destination. Meaningful for valid intents.
    pub open spec fn missing_account(&self, i: TransactionIntent) -> Option<u128> {
        match i.intent_type {
            TransactionIntentType::Deposit => {
                if !self.registered(i.destination_account.unwrap()) {
                    Some(i.destination_account.unwrap())
                } else {
                    None
                }
            },
            TransactionIntentType::Withdrawal => {
                if !self.registered(i.source_account.unwrap()) {
                    Some(i.source_account.unwrap())
                } else {
                    None
                }
            },
            TransactionIntentType::Transfer => {
                if !self.registered(i.source_account.unwrap()) {
                    Some(i.source_account.unwrap())
                } else if !self.registered(i.destination_account.unwrap()) {
                    Some(i.destination_account.unwrap())
                } else {
                    None
                }
            },
        }
    }

    /// For a transfer, both accounts carry the same currency; other
    /// intents reference a single account.
    pub open spec fn currencies_agree(&self, i: TransactionIntent) -> bool {
        i.intent_type is Transfer ==> self.currency_of(i.source_account.unwrap())
            == self.currency_of(i.destination_account.unwrap())
    }

    /// The currency the intent's entries are recorded in: the referenced
    /// wallet account's currency.
    pub open spec fn intent_currency(&self, i: TransactionIntent) -> Seq<char> {
        match i.intent_type {
            TransactionIntentType::Deposit => self.currency_of(i.destination_account.unwrap()),
            TransactionIntentType::Withdrawal => self.currency_of(i.source_account.unwrap()),
            TransactionIntentType::Transfer => self.currency_of(i.source_account.unwrap()),
        }
    }

    /// The source account, if the intent type has one, covers the amount.
    pub open spec fn funded(&self, i: TransactionIntent) -> bool {
        (i.intent_type is Withdrawal || i.intent_type is Transfer) ==> balance_of(
            self.ledger(),
            i.source_account.unwrap(),
        ) >= i.amount
    }

    /// `currency_of` agrees with any registry position that holds the
    /// account, since registered accounts are distinct.
    proof fn lemma_currency_at(&self, a: u128, i: int)
        requires
            self.wf(),
            0 <= i < self.registry().len(),
            self.registry()[i].0 == a,
        ensures
            self.registered(a),
            self.currency_of(a) == self.registry()[i].1,
    {
        assert(self.registered(a));
        let j = choose|j: int| 0 <= j < self.registry().len() && self.registry()[j].0 == a;
        if i < j {
            assert(self.registry()[i].0 != self.registry()[j].0);
        } else if j < i {
            assert(self.registry()[j].0 != self.registry()[i].0);
        }
    }

    /// What a first (non-replay) successful execution guarantees: the
    /// referenced accounts were registered with agreeing currencies, the
    /// source covered the amount, and exactly the planned balanced entry
    /// pair was committed as one new transaction, shifting each balance
    /// by its signed entry sum.
    pub open spec fn freshly_committed(
        pre: Self,
        post: Self,
        intent: TransactionIntent,
        id: u128,
    ) -> bool {
        &&& pre.missing_account(intent) is None
        &&& pre.currencies_agree(intent)
        &&& pre.funded(intent)
        &&& exists|ts: i64|
            post.ledger() == pre.ledger().push(
                committed_tx(
                    pre.ledger(),
                    id,
                    intent.idempotency_key@,
                    planned_entries(intent),
                    pre.intent_currency(intent),
                    ts,
                ),
            )
        &&& key_committed(post.ledger(), intent.idempotency_key@)
        &&& forall|a: u128|
            balance_of(post.ledger(), a) == balance_of(pre.ledger(), a) + input_entry_sum(
                planned_entries(intent),
                a,
            )
    }

    /// Executes a transaction intent: validates it, answers replays with
    /// the previously committed transaction, checks registration,
    /// currency and funds, and atomically commits the balanced entry
    /// pair. Exactly one committed transaction ever exists per
    /// idempotency key, and a failure leaves every balance unchanged.
    #[verifier::rlimit(60)]
    #[verifier::spinoff_prover]
    pub fn execute_transaction(&mut self, intent: TransactionIntent) -> (r: Result<
        u128,
        LedgerError,
    >)
        requires
            old(self).wf(),
        ensures
            final(self).wf(),
            final(self).registry() == old(self).registry(),
            (match intent_violation(intent) {
                Some(rule) => r == Err::<u128, LedgerError>(LedgerError::InvalidIntent(rule)),
                None => true,
            }),
            ({
                let led = old(self).ledger();
                let key = intent.idempotency_key@;
                match r {
                    Ok(id) => {
                        &&& intent_valid(intent)
                        &&& if key_committed(led, key) {
                            &&& final(self).ledger() == led
                            &&& id == tx_of_key(led, key).transaction_id
                        } else {
                            Self::freshly_committed(*old(self), *final(self), intent, id)
                        }
                    },
                    Err(e) => match e {
                        LedgerError::InvalidIntent(rule) => {
                            &&& intent_violation(intent) == Some(rule)
                            &&& final(self).ledger() == led
                        },
                        LedgerError::AccountNotFound(a) => {
                            &&& intent_valid(intent)
                            &&& !key_committed(led, key)
                            &&& old(self).missing_account(intent) == Some(a)
                            &&& final(self).ledger() == led
                        },
                        LedgerError::CurrencyMismatch => {
                            &&& intent_valid(intent)
                            &&& !key_committed(led, key)
                            &&& old(self).missing_account(intent) is None
                            &&& !old(self).currencies_agree(intent)
                            &&& final(self).ledger() == led
                        },
                        LedgerError::InsufficientFunds { account_id, required, available } => {
                            &&& intent_valid(intent)
                            &&& !key_committed(led, key)
                            &&& old(self).missing_account(intent) is None
                            &&& old(self).currencies_agree(intent)
                            &&& intent.source_account == Some(account_id)
                            &&& required == intent.amount
                            &&& available as int == balance_of(led, account_id)
                            &&& available < required
                            &&& final(self).ledger() == led
                        },
                        LedgerError::StorageFailure(_) => final(self).ledger() == led,
                        _ => false,
                    },
                }
            }),
    {
        let ghost led = self.ledger();
        match validate_intent(&intent) {
            Err(e) => {
                return Err(e);
            },
            Ok(()) => {},
        }
        // Idempotent replay: answer with the prior result, change nothing.
        let found = match self.store.find_idempotency_key(&intent.idempotency_key) {
            Ok(f) => f,
            Err(e) => {
                return Err(e);
            },
        };
        match found {
            Some(prior) => {
                return Ok(prior);
            },
            None => {},
        }
        // Registration and currency checks, before any balance read.
        let currency: String = match intent.intent_type {
            TransactionIntentType::Deposit => {
                let dest = intent.destination_account.unwrap();
                match self.registry_index(dest) {
                    Some(i) => {
                        proof {
                            self.lemma_currency_at(dest, i as int);
                        }
                        self.accounts[i].currency.clone()
                    },
                    None => {
                        return Err(LedgerError::AccountNotFound(dest));
                    },
                }
            },
            TransactionIntentType::Withdrawal => {
                let src = intent.source_account.unwrap();
                match self.registry_index(src) {
                    Some(i) => {
                        proof {
                            self.lemma_currency_at(src, i as int);
                        }
                        self.accounts[i].currency.clone()
                    },
                    None => {
                        return Err(LedgerError::AccountNotFound(src));
                    },
                }
            },
            TransactionIntentType::Transfer => {
                let src = intent.source_account.unwrap();
                let dest = intent.destination_account.unwrap();
                let si = match self.registry_index(src) {
                    Some(i) => i,
                    None => {
                        return Err(LedgerError::AccountNotFound(src));
                    },
                };
                let di = match self.registry_index(dest) {
                    Some(i) => i,
                    None => {
                        return Err(LedgerError::AccountNotFound(dest));
                    },
                };
                proof {
                    self.lemma_currency_at(src, si as int);
                    self.lemma_currency_at(dest, di as int);
                }
                if self.accounts[si].currency != self.accounts[di].currency {
                    return Err(LedgerError::CurrencyMismatch);
                }
                self.accounts[si].currency.clone()
            },
        };
        // Funds: the source account must cover the amount.
        match intent.intent_type {
            TransactionIntentType::Deposit => {},
            _ => {
                let src = intent.source_account.unwrap();
                let bal = match self.store.get_account_balance(src) {
                    Ok(b) => b,
                    Err(e) => {
                        return Err(e);
                    },
                };
                if bal < intent.amount {
                    return Err(
                        LedgerError::InsufficientFunds {
                            account_id: src,
                            required: intent.amount,
                            available: bal,
                        },
                    );
                }
            },
        }
        // The balanced entry pair.
        let neg = -intent.amount;
        let mut entries: Vec<EntryInput> = Vec::new();
        match intent.intent_type {
            TransactionIntentType::Deposit => {
                entries.push(EntryInput { account_id: SYSTEM_ACCOUNT_ID, signed_amount: neg });
                entries.push(
                    EntryInput {
                        account_id: intent.destination_account.unwrap(),
                        signed_amount: intent.amount,
                    },
                );
            },
            TransactionIntentType::Withdrawal => {
                entries.push(
                    EntryInput {
                        account_id: intent.source_account.unwrap(),
                        signed_amount: neg,
                    },
                );
                entries.push(
                    EntryInput { account_id: SYSTEM_ACCOUNT_ID, signed_amount: intent.amount },
                );
            },
            TransactionIntentType::Transfer => {
                entries.push(
                    EntryInput {
                        account_id: intent.source_account.unwrap(),
                        signed_amount: neg,
                    },
                );
                entries.push(
                    EntryInput {
                        account_id: intent.destination_account.unwrap(),
                        signed_amount: intent.amount,
                    },
                );
            },
        }
        proof {
            assert(entries@ =~= planned_entries(intent));
            lemma_pair_sums(entries@[0], entries@[1], SYSTEM_ACCOUNT_ID);
        }
        // Commit atomically; the store re-checks the idempotency key.
        let id = fresh_id();
        let requested = now_unix_millis();
        let result = self.store.append_entries(
            id,
            intent.idempotency_key.clone(),
            &entries,
            &currency,
            requested,
        );
        match result {
            Ok(tx) => {
                proof {
                    let ghost newl = self.ledger();
                    assert(newl == led.push(tx@));
                    assert(key_committed(newl, intent.idempotency_key@)) by {
                        assert(newl[led.len() as int].idempotency_key == intent.idempotency_key@);
                    }
                    assert(newl == led.push(
                        committed_tx(
                            led,
                            id,
                            intent.idempotency_key@,
                            planned_entries(intent),
                            old(self).intent_currency(intent),
                            requested,
                        ),
                    ));
                    assert(exists|ts: i64|
                        newl == led.push(
                            committed_tx(
                                led,
                                id,
                                intent.idempotency_key@,
                                planned_entries(intent),
                                old(self).intent_currency(intent),
                                ts,
                            ),
                        ));
                    assert forall|a: u128|
                        balance_of(newl, a) == balance_of(led, a) + input_entry_sum(
                            planned_entries(intent),
                            a,
                        ) by {
                        crate::store::lemma_balance_push(led, tx@, a);
                        crate::store::lemma_stamp_inputs_sums_for(
                            entries@,
                            currency@,
                            id,
                            tx@.timestamp,
                            a,
                        );
                    }
                }
                Ok(id)
            },
            Err(e) => {
                match e {
                    LedgerError::StorageFailure(f) => Err(LedgerError::StorageFailure(f)),
                    _ => {
                        // The store can report neither a duplicate (the key
                        // was found fresh above and nothing ran in between)
                        // nor an unbalanced set (the pair sums to zero).
                        proof {
                            lemma_pair_sums(entries@[0], entries@[1], SYSTEM_ACCOUNT_ID);
                            assert(false);
                        }
                        Err(LedgerError::StorageFailure(StorageFault::Backend))
                    },
                }
            },
        }
    }

    /// A read-only view of the underlying ledger store, for callers
    /// that audit it (reconciliation) without going through the service.
    pub fn store(&self) -> (r: &S)
        ensures
            r.txs() == self.ledger(),
    {
        &self.store
    }

    /// The balance of an account: the signed sum of its committed
    /// entries, read from the store. Zero for untouched accounts.
    pub fn get_account_balance(&self, account_id: u128) -> (r: Result<i64, LedgerError>)
        requires
            self.wf(),
        ensures
            match r {
                Ok(b) => b as int == balance_of(self.ledger(), account_id),
                Err(e) => e is StorageFailure,
            },
    {
        self.store.get_account_balance(account_id)
    }

    /// One page of the transactions touching an account, newest first,
    /// read from the store.
    pub fn get_account_transactions(&self, account_id: u128, limit: usize, offset: usize) -> (r:
        Result<Vec<CommittedTransaction>, LedgerError>)
        requires
            self.wf(),
        ensures
            match r {
                Ok(page) => page@.map_values(|t: CommittedTransaction| t@) == page_of(
                    self.ledger(),
                    account_id,
                    limit as nat,
                    offset as nat,
                ),
                Err(e) => e is StorageFailure,
            },
    {
        self.store.get_account_transactions(account_id, limit, offset)
    }
}

} // verus!
