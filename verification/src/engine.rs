//! A payments ledger: a state machine that consumes deposit, withdrawal,
//! dispute, resolve and chargeback records one at a time and tracks, per
//! client account, the available balance, the held balance and the lock
//! status.
//!
//! Monetary amounts are exact fixed-scale decimals: an `i128` counts units
//! of one ten-thousandth of the currency, so `1_000_000` units stand for
//! `100.0000`. Rendering an amount (trimming trailing zeros, placing the
//! decimal point) is a display concern and lives in [`crate::render`].

use vstd::prelude::*;

verus! {

broadcast use vstd::std_specs::hash::group_hash_axioms;

use std::collections::HashMap;
use std::collections::HashSet;

/// The five kinds of input record.
#[derive(Clone, Copy, Debug, PartialEq, Eq, Structural)]
pub enum TxType {
    Deposit,
    Withdrawal,
    Dispute,
    Resolve,
    ChargeBack,
}

/// One input record. `amount` is present only on deposits and withdrawals,
/// in fixed-scale units of one ten-thousandth of the currency.
#[derive(Clone, Copy, Debug)]
pub struct Tx {
    pub id: u32,
    pub ty: TxType,
    pub client: u16,
    pub amount: Option<i128>,
}

/// Every way a transaction can be refused. A refused transaction leaves the
/// ledger's balances, open transactions and disputes unchanged.
#[derive(Clone, Copy, Debug, PartialEq, Eq, Structural)]
pub enum Error {
    AccountLocked(u16),
    MissingTxAmount(u32),
    NotEnoughFunds(u32),
    TxDoesNotExist(u32),
    TxNotUnderDispute(u32),
    TxAlreadyUnderDispute(u32),
    TxInvalidAmount(u32),
    InvalidDispute(u32),
    ClientIdMismatch(TxType, u32),
}

/// One client account. `available` and `held` may each go negative as a
/// side effect of disputing a deposit whose funds were already withdrawn;
/// this mirrors the documented behaviour and is not guarded against.
#[derive(Clone, Copy, Debug)]
pub struct Account {
    pub client: u16,
    pub available: i128,
    pub held: i128,
    pub locked: bool,
}

/// The mathematical value of an account: balances as unbounded integers.
#[verifier::ext_equal]
pub struct AccountRecord {
    pub available: int,
    pub held: int,
    pub locked: bool,
}

impl View for Account {
    type V = AccountRecord;

    open spec fn view(&self) -> AccountRecord {
        AccountRecord {
            available: self.available as int,
            held: self.held as int,
            locked: self.locked,
        }
    }
}

pub open spec fn fresh_account_record() -> AccountRecord {
    AccountRecord { available: 0, held: 0, locked: false }
}

/// The computed total `available + held` stays representable in an `i128`.
pub open spec fn account_total_fits(a: AccountRecord) -> bool {
    i128::MIN <= a.available + a.held <= i128::MAX
}

impl Account {
    pub fn new(client: u16) -> (a: Account)
        ensures
            a.client == client,
            a@ == fresh_account_record(),
    {
        Account { client, available: 0, held: 0, locked: false }
    }

    /// The account's total funds, computed from the two balances and never
    /// stored redundantly.
    pub fn total(&self) -> (t: i128)
        requires
            account_total_fits(self@),
        ensures
            t == self@.available + self@.held,
    {
        self.available + self.held
    }
}

/// A deposit or withdrawal that was applied and is still referenceable by a
/// later dispute, resolve or chargeback.
#[derive(Clone, Copy, Debug)]
pub struct OpenTx {
    pub ty: TxType,
    pub client: u16,
    pub amount: i128,
}

/// The mathematical value of an open transaction: all a later reference
/// reads of it is whether it was a deposit, whose it was, and its amount.
#[verifier::ext_equal]
pub struct OpenTxRecord {
    pub is_deposit: bool,
    pub client: u16,
    pub amount: int,
}

impl View for OpenTx {
    type V = OpenTxRecord;

    open spec fn view(&self) -> OpenTxRecord {
        OpenTxRecord {
            is_deposit: self.ty is Deposit,
            client: self.client,
            amount: self.amount as int,
        }
    }
}

/// The mathematical state of the whole ledger: the accounts ever referenced,
/// the open deposits and withdrawals keyed by transaction id, and the ids
/// currently under dispute.
#[verifier::ext_equal]
pub struct LedgerState {
    pub accounts: Map<u16, AccountRecord>,
    pub txs: Map<u32, OpenTxRecord>,
    pub disputes: Set<u32>,
}

pub open spec fn empty_ledger() -> LedgerState {
    LedgerState {
        accounts: Map::empty(),
        txs: Map::empty(),
        disputes: Set::empty(),
    }
}

/// The amount carried by a record, or zero where none is present.
pub open spec fn tx_amount(tx: Tx) -> int {
    match tx.amount {
        Option::Some(a) => a as int,
        Option::None => 0,
    }
}

/// The ledger after the account for `client` has been created lazily, if it
/// was not yet known. Every transaction does this first, whether or not it
/// is then refused.
pub open spec fn with_account(m: LedgerState, client: u16) -> LedgerState {
    if m.accounts.contains_key(client) {
        m
    } else {
        LedgerState { accounts: m.accounts.insert(client, fresh_account_record()), ..m }
    }
}

/// The account for `client`, counting a never-referenced client as a fresh
/// zero-balance account.
pub open spec fn account_or_fresh(m: LedgerState, client: u16) -> AccountRecord {
    with_account(m, client).accounts[client]
}

/// What a deposit or withdrawal does, once the account is known and
/// unlocked: validate the amount, move `available`, and record the
/// transaction as open (overwriting any stale entry with the same id).
pub open spec fn apply_funds_step(m: LedgerState, tx: Tx) -> (LedgerState, Option<Error>) {
    let acct = m.accounts[tx.client];
    match tx.amount {
        Option::None => (m, Some(Error::MissingTxAmount(tx.id))),
        Option::Some(a) => if a <= 0 {
            (m, Some(Error::TxInvalidAmount(tx.id)))
        } else if tx.ty is Withdrawal && acct.available < a {
            (m, Some(Error::NotEnoughFunds(tx.id)))
        } else {
            let moved = if tx.ty is Deposit { acct.available + a } else { acct.available - a };
            (
                LedgerState {
                    accounts: m.accounts.insert(
                        tx.client,
                        AccountRecord { available: moved, ..acct },
                    ),
                    txs: m.txs.insert(
                        tx.id,
                        OpenTxRecord {
                            is_deposit: tx.ty is Deposit,
                            client: tx.client,
                            amount: a as int,
                        },
                    ),
                    disputes: m.disputes,
                },
                None,
            )
        },
    }
}

/// What a dispute does, once the account is known and unlocked: check the
/// referenced id, the client, that the original is a deposit and not yet
/// disputed, then hold the original amount.
pub open spec fn apply_dispute_step(m: LedgerState, tx: Tx) -> (LedgerState, Option<Error>) {
    if !m.txs.contains_key(tx.id) {
        (m, Some(Error::TxDoesNotExist(tx.id)))
    } else if m.txs[tx.id].client != tx.client {
        (m, Some(Error::ClientIdMismatch(tx.ty, tx.id)))
    } else if !m.txs[tx.id].is_deposit {
        (m, Some(Error::InvalidDispute(tx.id)))
    } else if m.disputes.contains(tx.id) {
        (m, Some(Error::TxAlreadyUnderDispute(tx.id)))
    } else {
        let a = m.txs[tx.id].amount;
        let acct = m.accounts[tx.client];
        (
            LedgerState {
                accounts: m.accounts.insert(
                    tx.client,
                    AccountRecord { available: acct.available - a, held: acct.held + a, ..acct },
                ),
                disputes: m.disputes.insert(tx.id),
                ..m
            },
            None,
        )
    }
}

/// What a resolve does, once the account is known and unlocked: check the
/// referenced id and client, require an open dispute, then release the hold.
pub open spec fn apply_resolve_step(m: LedgerState, tx: Tx) -> (LedgerState, Option<Error>) {
    if !m.txs.contains_key(tx.id) {
        (m, Some(Error::TxDoesNotExist(tx.id)))
    } else if m.txs[tx.id].client != tx.client {
        (m, Some(Error::ClientIdMismatch(tx.ty, tx.id)))
    } else if !m.disputes.contains(tx.id) {
        (m, Some(Error::TxNotUnderDispute(tx.id)))
    } else {
        let a = m.txs[tx.id].amount;
        let acct = m.accounts[tx.client];
        (
            LedgerState {
                accounts: m.accounts.insert(
                    tx.client,
                    AccountRecord { available: acct.available + a, held: acct.held - a, ..acct },
                ),
                disputes: m.disputes.remove(tx.id),
                ..m
            },
            None,
        )
    }
}

/// What a chargeback does, once the account is known and unlocked: check
/// the referenced id and client, require an open dispute, then reverse the
/// held funds permanently, lock the account and close the transaction.
pub open spec fn apply_chargeback_step(m: LedgerState, tx: Tx) -> (LedgerState, Option<Error>) {
    if !m.txs.contains_key(tx.id) {
        (m, Some(Error::TxDoesNotExist(tx.id)))
    } else if m.txs[tx.id].client != tx.client {
        (m, Some(Error::ClientIdMismatch(tx.ty, tx.id)))
    } else if !m.disputes.contains(tx.id) {
        (m, Some(Error::TxNotUnderDispute(tx.id)))
    } else {
        let a = m.txs[tx.id].amount;
        let acct = m.accounts[tx.client];
        (
            LedgerState {
                accounts: m.accounts.insert(
                    tx.client,
                    AccountRecord { held: acct.held - a, locked: true, ..acct },
                ),
                txs: m.txs.remove(tx.id),
                disputes: m.disputes.remove(tx.id),
            },
            None,
        )
    }
}

/// The ledger's transition function: the state after one transaction, and
/// the error, if the transaction was refused. Even a refused transaction
/// creates the account for its client if it was never referenced before;
/// nothing else changes on refusal.
pub open spec fn apply_step(m: LedgerState, tx: Tx) -> (LedgerState, Option<Error>) {
    let m1 = with_account(m, tx.client);
    let acct = m1.accounts[tx.client];
    if acct.locked {
        (m1, Some(Error::AccountLocked(tx.client)))
    } else {
        match tx.ty {
            TxType::Deposit => apply_funds_step(m1, tx),
            TxType::Withdrawal => apply_funds_step(m1, tx),
            TxType::Dispute => apply_dispute_step(m1, tx),
            TxType::Resolve => apply_resolve_step(m1, tx),
            TxType::ChargeBack => apply_chargeback_step(m1, tx),
        }
    }
}

/// The outcome of one transaction, as the caller sees it.
pub open spec fn step_result(e: Option<Error>) -> Result<(), Error> {
    match e {
        Option::None => Result::Ok(()),
        Option::Some(err) => Result::Err(err),
    }
}

/// Both balances, and their computed total, stay representable in an
/// `i128`.
pub open spec fn account_rep_fits(a: AccountRecord) -> bool {
    &&& i128::MIN <= a.available <= i128::MAX
    &&& i128::MIN <= a.held <= i128::MAX
    &&& account_total_fits(a)
}

/// Balances the ledger itself maintains: every account's balances and
/// computed total are representable, and every open transaction carries a
/// positive representable amount.
pub open spec fn ledger_inv(m: LedgerState) -> bool {
    &&& forall|c: u16| #[trigger] m.accounts.contains_key(c) ==> account_rep_fits(m.accounts[c])
    &&& forall|id: u32| #[trigger] m.txs.contains_key(id) ==> 0 < m.txs[id].amount <= i128::MAX
}

/// The machine-range side conditions under which one transaction can be
/// applied with `i128` balances: the branch actually taken must keep the
/// touched balances and their total representable. Only pathological volumes
/// (on the order of ten-to-the-34th currency units) ever fail this.
pub open spec fn apply_fits(m: LedgerState, tx: Tx) -> bool {
    let m1 = with_account(m, tx.client);
    let acct = m1.accounts[tx.client];
    let a = tx_amount(tx);
    if acct.locked {
        true
    } else {
        match tx.ty {
            TxType::Deposit => tx.amount is Some && a > 0 ==> {
                &&& acct.available + a <= i128::MAX
                &&& acct.available + acct.held + a <= i128::MAX
            },
            TxType::Withdrawal => true,
            TxType::Dispute => dispute_applies(m1, tx) ==> {
                let held_amt = m1.txs[tx.id].amount;
                &&& acct.available - held_amt >= i128::MIN
                &&& acct.held + held_amt <= i128::MAX
            },
            TxType::Resolve => resolve_applies(m1, tx) ==> {
                let held_amt = m1.txs[tx.id].amount;
                &&& acct.available + held_amt <= i128::MAX
                &&& acct.held - held_amt >= i128::MIN
            },
            TxType::ChargeBack => resolve_applies(m1, tx) ==> {
                let held_amt = m1.txs[tx.id].amount;
                &&& acct.held - held_amt >= i128::MIN
                &&& acct.available + acct.held - held_amt >= i128::MIN
            },
        }
    }
}

/// The guards a dispute must pass before it mutates anything.
pub open spec fn dispute_applies(m: LedgerState, tx: Tx) -> bool {
    &&& m.txs.contains_key(tx.id)
    &&& m.txs[tx.id].client == tx.client
    &&& m.txs[tx.id].is_deposit
    &&& !m.disputes.contains(tx.id)
}

/// The guards a resolve or chargeback must pass before it mutates anything.
pub open spec fn resolve_applies(m: LedgerState, tx: Tx) -> bool {
    &&& m.txs.contains_key(tx.id)
    &&& m.txs[tx.id].client == tx.client
    &&& m.disputes.contains(tx.id)
}

/// One row of the final account table. `total` is recomputed from the two
/// balances at projection time, never stored.
#[derive(Clone, Copy, Debug)]
pub struct AccountSummary {
    pub client: u16,
    pub available: i128,
    pub held: i128,
    pub total: i128,
    pub locked: bool,
}

impl AccountSummary {
    pub fn from_account(account: &Account) -> (s: AccountSummary)
        requires
            account_total_fits(account@),
        ensures
            s.client == account.client,
            s.available == account@.available,
            s.held == account@.held,
            s.total == account@.available + account@.held,
            s.locked == account@.locked,
    {
        AccountSummary {
            client: account.client,
            available: account.available,
            held: account.held,
            total: account.total(),
            locked: account.locked,
        }
    }
}

/// The ledger: all mutable state of one processing run. Transactions come
/// in one at a time through [`PaymentsEngine::process_tx`]; the final table
/// comes out of [`PaymentsEngine::snapshot`].
pub struct PaymentsEngine {
    /// Deposits and withdrawals that have not been reversed.
    txs: HashMap<u32, OpenTx>,
    /// Ids currently under dispute.
    disputes: HashSet<u32>,
    accounts: HashMap<u16, Account>,
    /// Client ids in first-reference order, for the snapshot projection.
    clients: Vec<u16>,
}

impl View for PaymentsEngine {
    type V = LedgerState;

    closed spec fn view(&self) -> LedgerState {
        LedgerState {
            accounts: Map::new(
                |c: u16| self.accounts@.contains_key(c),
                |c: u16| self.accounts@[c]@,
            ),
            txs: Map::new(|id: u32| self.txs@.contains_key(id), |id: u32| self.txs@[id]@),
            disputes: self.disputes@,
        }
    }
}

impl PaymentsEngine {
    /// Internal well-formedness: each stored account knows its own client
    /// id, the client list mirrors the account map exactly, and the
    /// mathematical state keeps its invariant.
    pub closed spec fn wf(&self) -> bool {
        &&& forall|c: u16|
            #[trigger] self.accounts@.contains_key(c) ==> self.accounts@[c].client == c
        &&& self.clients@.no_duplicates()
        &&& forall|c: u16| #[trigger] self.accounts@.contains_key(c) ==> self.clients@.contains(c)
        &&& forall|i: int|
            0 <= i < self.clients@.len() ==> self.accounts@.contains_key(
                #[trigger] self.clients@[i],
            )
        &&& ledger_inv(self@)
    }

    pub fn new() -> (e: PaymentsEngine)
        ensures
            e.wf(),
            e@ == empty_ledger(),
    {
        let e = PaymentsEngine {
            txs: HashMap::new(),
            disputes: HashSet::new(),
            accounts: HashMap::new(),
            clients: Vec::new(),
        };
        proof {
            assert(e@ =~= empty_ledger());
        }
        e
    }

    /// Apply one transaction. The ledger moves to exactly the state that
    /// [`apply_step`] gives, and the result reports the error, if any, that
    /// [`apply_step`] gives. The `apply_fits` premise only rules out
    /// balances beyond the range of an `i128`; the caller tests it with
    /// [`PaymentsEngine::check_fits`].
    pub fn process_tx(&mut self, tx: Tx) -> (r: Result<(), Error>)
        requires
            old(self).wf(),
            apply_fits(old(self)@, tx),
        ensures
            final(self).wf(),
            final(self)@ == apply_step(old(self)@, tx).0,
            r == step_result(apply_step(old(self)@, tx).1),
    {
        let ghost m0 = self@;
        // Resolve, or lazily create, the account for the client.
        if !self.accounts.contains_key(&tx.client) {
            let fresh = Account::new(tx.client);
            self.accounts.insert(tx.client, fresh);
            self.clients.push(tx.client);
            proof {
                assert(self@ =~= with_account(m0, tx.client));
                assert forall|i: int, j: int|
                    0 <= i < j < self.clients@.len() implies self.clients@[i]
                    != self.clients@[j] by {
                    if j == self.clients@.len() - 1 {
                        assert(old(self).clients@[i] == self.clients@[i]);
                    }
                }
            }
        }
        let ghost m1 = with_account(m0, tx.client);
        proof {
            assert(self@ =~= m1);
            assert forall|c: u16| #[trigger] self.accounts@.contains_key(c) implies self.clients@.contains(
                c,
            ) by {
                if old(self).accounts@.contains_key(c) {
                    let i = choose|i: int|
                        0 <= i < old(self).clients@.len() && old(self).clients@[i] == c;
                    assert(self.clients@[i] == c);
                } else {
                    assert(self.clients@[self.clients@.len() - 1] == c);
                }
            }
            assert forall|i: int| 0 <= i < self.clients@.len() implies self.accounts@.contains_key(
                #[trigger] self.clients@[i],
            ) by {
                if i < old(self).clients@.len() {
                    assert(old(self).clients@[i] == self.clients@[i]);
                }
            }
            assert forall|c: u16| #[trigger] self@.accounts.contains_key(c) implies account_rep_fits(
                self@.accounts[c],
            ) by {
                if m0.accounts.contains_key(c) {
                    assert(self@.accounts[c] == m0.accounts[c]);
                }
            }
            assert(self@.txs =~= m0.txs);
            assert(self.wf());
        }
        let acct = *self.accounts.get(&tx.client).unwrap();
        proof {
            assert(acct@ == m1.accounts[tx.client]);
            assert(acct.client == tx.client);
        }
        if acct.locked {
            return Err(Error::AccountLocked(tx.client));
        }
        match tx.ty {
            TxType::Deposit | TxType::Withdrawal => {
                let a = match tx.amount {
                    Some(amount) => amount,
                    None => {
                        return Err(Error::MissingTxAmount(tx.id));
                    },
                };
                if a <= 0 {
                    return Err(Error::TxInvalidAmount(tx.id));
                }
                let moved: i128;
                if matches!(tx.ty, TxType::Deposit) {
                    moved = acct.available + a;
                } else {
                    if acct.available < a {
                        return Err(Error::NotEnoughFunds(tx.id));
                    }
                    moved = acct.available - a;
                }
                self.accounts.insert(tx.client, Account { available: moved, ..acct });
                self.txs.insert(tx.id, OpenTx { ty: tx.ty, client: tx.client, amount: a });
                proof {
                    assert(self@ =~= apply_step(m0, tx).0);
                }
                Ok(())
            },
            TxType::Dispute => {
                let orig = match self.txs.get(&tx.id) {
                    Some(t) => *t,
                    None => {
                        return Err(Error::TxDoesNotExist(tx.id));
                    },
                };
                proof {
                    assert(orig@ == m1.txs[tx.id]);
                }
                if tx.client != orig.client {
                    return Err(Error::ClientIdMismatch(tx.ty, tx.id));
                }
                if !matches!(orig.ty, TxType::Deposit) {
                    return Err(Error::InvalidDispute(tx.id));
                }
                if self.disputes.contains(&tx.id) {
                    return Err(Error::TxAlreadyUnderDispute(tx.id));
                }
                let a = orig.amount;
                self.accounts.insert(
                    tx.client,
                    Account { available: acct.available - a, held: acct.held + a, ..acct },
                );
                self.disputes.insert(tx.id);
                proof {
                    assert(self@ =~= apply_step(m0, tx).0);
                }
                Ok(())
            },
            TxType::Resolve => {
                let orig = match self.txs.get(&tx.id) {
                    Some(t) => *t,
                    None => {
                        return Err(Error::TxDoesNotExist(tx.id));
                    },
                };
                proof {
                    assert(orig@ == m1.txs[tx.id]);
                }
                if tx.client != orig.client {
                    return Err(Error::ClientIdMismatch(tx.ty, tx.id));
                }
                if !self.disputes.remove(&tx.id) {
                    proof {
                        assert(self@ =~= m1);
                    }
                    return Err(Error::TxNotUnderDispute(tx.id));
                }
                let a = orig.amount;
                self.accounts.insert(
                    tx.client,
                    Account { available: acct.available + a, held: acct.held - a, ..acct },
                );
                proof {
                    assert(self@ =~= apply_step(m0, tx).0);
                }
                Ok(())
            },
            TxType::ChargeBack => {
                let orig = match self.txs.get(&tx.id) {
                    Some(t) => *t,
                    None => {
                        return Err(Error::TxDoesNotExist(tx.id));
                    },
                };
                proof {
                    assert(orig@ == m1.txs[tx.id]);
                }
                if tx.client != orig.client {
                    return Err(Error::ClientIdMismatch(tx.ty, tx.id));
                }
                if !self.disputes.remove(&tx.id) {
                    proof {
                        assert(self@ =~= m1);
                    }
                    return Err(Error::TxNotUnderDispute(tx.id));
                }
                let a = orig.amount;
                self.accounts.insert(
                    tx.client,
                    Account { held: acct.held - a, locked: true, ..acct },
                );
                self.txs.remove(&tx.id);
                proof {
                    assert(self@ =~= apply_step(m0, tx).0);
                }
                Ok(())
            },
        }
    }

    /// Whether `tx` can be applied without a balance leaving the range of
    /// an `i128`. This is the caller's test for the `apply_fits` premise of
    /// [`PaymentsEngine::process_tx`]; it refuses only pathological volumes.
    pub fn check_fits(&self, tx: &Tx) -> (b: bool)
        requires
            self.wf(),
        ensures
            b == apply_fits(self@, *tx),
    {
        let acct: Account = match self.accounts.get(&tx.client) {
            Some(a) => *a,
            None => Account::new(tx.client),
        };
        proof {
            assert(acct@ == account_or_fresh(self@, tx.client));
            assert(account_total_fits(acct@)) by {
                if self.accounts@.contains_key(tx.client) {
                    assert(self@.accounts.contains_key(tx.client));
                }
            }
        }
        if acct.locked {
            return true;
        }
        match tx.ty {
            TxType::Deposit => {
                match tx.amount {
                    Some(a) => {
                        if a <= 0 {
                            true
                        } else {
                            acct.available <= i128::MAX - a && acct.available + acct.held
                                <= i128::MAX - a
                        }
                    },
                    None => true,
                }
            },
            TxType::Withdrawal => true,
            TxType::Dispute => {
                match self.txs.get(&tx.id) {
                    Some(orig) => {
                        proof {
                            assert(self@.txs.contains_key(tx.id));
                            assert(orig@ == self@.txs[tx.id]);
                        }
                        if orig.client != tx.client || !matches!(orig.ty, TxType::Deposit)
                            || self.disputes.contains(&tx.id) {
                            true
                        } else {
                            let h: i128 = orig.amount;
                            acct.available >= i128::MIN + h && acct.held <= i128::MAX - h
                        }
                    },
                    None => true,
                }
            },
            TxType::Resolve => {
                match self.txs.get(&tx.id) {
                    Some(orig) => {
                        proof {
                            assert(self@.txs.contains_key(tx.id));
                            assert(orig@ == self@.txs[tx.id]);
                        }
                        if orig.client != tx.client || !self.disputes.contains(&tx.id) {
                            true
                        } else {
                            let h: i128 = orig.amount;
                            acct.available <= i128::MAX - h && acct.held >= i128::MIN + h
                        }
                    },
                    None => true,
                }
            },
            TxType::ChargeBack => {
                match self.txs.get(&tx.id) {
                    Some(orig) => {
                        proof {
                            assert(self@.txs.contains_key(tx.id));
                            assert(orig@ == self@.txs[tx.id]);
                        }
                        if orig.client != tx.client || !self.disputes.contains(&tx.id) {
                            true
                        } else {
                            let h: i128 = orig.amount;
                            acct.held >= i128::MIN + h && acct.available + acct.held
                                >= i128::MIN + h
                        }
                    },
                    None => true,
                }
            },
        }
    }

    /// The final account table: one row per account ever referenced, each
    /// row's total recomputed from its balances, no client listed twice.
    pub fn snapshot(&self) -> (v: Vec<AccountSummary>)
        requires
            self.wf(),
        ensures
            forall|i: int|
                0 <= i < v@.len() ==> {
                    let s = #[trigger] v@[i];
                    &&& self@.accounts.contains_key(s.client)
                    &&& s.available == self@.accounts[s.client].available
                    &&& s.held == self@.accounts[s.client].held
                    &&& s.total == s.available + s.held
                    &&& s.locked == self@.accounts[s.client].locked
                },
            forall|c: u16|
                #[trigger] self@.accounts.contains_key(c) ==> exists|i: int|
                    0 <= i < v@.len() && v@[i].client == c,
            forall|i: int, j: int| 0 <= i < j < v@.len() ==> v@[i].client != v@[j].client,
    {
        let mut v: Vec<AccountSummary> = Vec::new();
        let mut k: usize = 0;
        while k < self.clients.len()
            invariant
                self.wf(),
                0 <= k <= self.clients@.len(),
                v@.len() == k,
                forall|i: int|
                    0 <= i < k ==> {
                        let s = #[trigger] v@[i];
                        &&& s.client == self.clients@[i]
                        &&& self@.accounts.contains_key(s.client)
                        &&& s.available == self@.accounts[s.client].available
                        &&& s.held == self@.accounts[s.client].held
                        &&& s.total == s.available + s.held
                        &&& s.locked == self@.accounts[s.client].locked
                    },
            decreases self.clients@.len() - k,
        {
            let c = self.clients[k];
            let account = self.accounts.get(&c).unwrap();
            proof {
                assert(self@.accounts.contains_key(c));
                assert((*account)@ == self@.accounts[c]);
            }
            v.push(AccountSummary::from_account(account));
            k += 1;
        }
        proof {
            assert forall|c: u16| #[trigger] self@.accounts.contains_key(c) implies exists|i: int|
                0 <= i < v@.len() && v@[i].client == c by {
                let i = choose|i: int| 0 <= i < self.clients@.len() && self.clients@[i] == c;
                assert(v@[i].client == c);
            }
        }
        v
    }

    /// The stored account for `client`, if that client was ever referenced.
    pub fn account(&self, client: u16) -> (r: Option<Account>)
        requires
            self.wf(),
        ensures
            match r {
                Option::Some(a) => self@.accounts.contains_key(client) && a@
                    == self@.accounts[client] && a.client == client,
                Option::None => !self@.accounts.contains_key(client),
            },
    {
        match self.accounts.get(&client) {
            Some(a) => Some(*a),
            None => None,
        }
    }

    /// How many accounts were ever referenced.
    pub fn account_count(&self) -> (n: usize)
        ensures
            n == self@.accounts.dom().len(),
    {
        proof {
            assert(self@.accounts.dom() =~= self.accounts@.dom());
        }
        self.accounts.len()
    }

    /// How many deposits and withdrawals are still open.
    pub fn open_tx_count(&self) -> (n: usize)
        ensures
            n == self@.txs.dom().len(),
    {
        proof {
            assert(self@.txs.dom() =~= self.txs@.dom());
        }
        self.txs.len()
    }

    /// Whether the transaction with this id is under active dispute.
    pub fn is_disputed(&self, id: u32) -> (b: bool)
        ensures
            b == self@.disputes.contains(id),
    {
        self.disputes.contains(&id)
    }
}

} // verus!
