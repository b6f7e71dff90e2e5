//! The general guarantees the ledger gives, stated over the mathematical
//! model of [`crate::engine`] and proved once for every state and every
//! transaction.

use vstd::prelude::*;

use crate::engine::Error;
use crate::engine::LedgerState;
use crate::engine::Tx;
use crate::engine::TxType;
use crate::engine::account_or_fresh;
use crate::engine::account_rep_fits;
use crate::engine::apply_fits;
use crate::engine::apply_step;
use crate::engine::dispute_applies;
use crate::engine::ledger_inv;
use crate::engine::resolve_applies;
use crate::engine::tx_amount;
use crate::engine::with_account;

verus! {

/// Applying any transaction keeps the ledger's balance invariant: every
/// account's computed total `available + held` stays representable, and
/// every open transaction keeps a positive amount. No total is ever stored,
/// so `available + held == total` holds of every account at every point in
/// processing.
pub proof fn lemma_step_preserves_inv(m: LedgerState, tx: Tx)
    requires
        ledger_inv(m),
        apply_fits(m, tx),
    ensures
        ledger_inv(apply_step(m, tx).0),
{
    let m1 = with_account(m, tx.client);
    let r = apply_step(m, tx).0;
    assert forall|c: u16| #[trigger] r.accounts.contains_key(c) implies account_rep_fits(
        r.accounts[c],
    ) by {
        if m.accounts.contains_key(c) {
            assert(m1.accounts[c] == m.accounts[c]);
        }
        if c == tx.client {
            let acct = m1.accounts[c];
            assert(account_rep_fits(acct));
            if !acct.locked {
                match tx.ty {
                    TxType::Deposit | TxType::Withdrawal => {
                        // the amount was validated positive, and `apply_fits`
                        // bounds the raised balance and total; a withdrawal
                        // only moves `available` down towards zero
                    },
                    TxType::Dispute => {
                        if dispute_applies(m1, tx) {
                            assert(m.txs.contains_key(tx.id));
                            assert(0 < m1.txs[tx.id].amount <= i128::MAX);
                        }
                    },
                    TxType::Resolve => {
                        if resolve_applies(m1, tx) {
                            assert(m.txs.contains_key(tx.id));
                            assert(0 < m1.txs[tx.id].amount <= i128::MAX);
                        }
                    },
                    TxType::ChargeBack => {
                        if resolve_applies(m1, tx) {
                            assert(m.txs.contains_key(tx.id));
                            assert(0 < m1.txs[tx.id].amount <= i128::MAX);
                        }
                    },
                }
            }
        }
    }
    assert forall|id: u32| #[trigger] r.txs.contains_key(id) implies 0 < r.txs[id].amount
        <= i128::MAX by {
        if m.txs.contains_key(id) {
            assert(m1.txs[id] == m.txs[id]);
        }
    }
}

/// An applied withdrawal never overdraws: it succeeds only when the
/// pre-state available balance covers the whole amount, and it leaves a
/// non-negative available balance behind.
pub proof fn lemma_withdrawal_never_overdraws(m: LedgerState, tx: Tx)
    requires
        tx.ty is Withdrawal,
        apply_step(m, tx).1 is None,
    ensures
        tx.amount is Some,
        tx_amount(tx) > 0,
        account_or_fresh(m, tx.client).available >= tx_amount(tx),
        apply_step(m, tx).0.accounts[tx.client].available == account_or_fresh(
            m,
            tx.client,
        ).available - tx_amount(tx),
        apply_step(m, tx).0.accounts[tx.client].available >= 0,
{
}

/// Once an account is locked it is frozen: no later transaction, whichever
/// client sends it, changes its balances or unlocks it, and one addressed
/// to that client is refused outright with `AccountLocked` and changes
/// nothing at all.
pub proof fn lemma_locked_account_frozen(m: LedgerState, tx: Tx, client: u16)
    requires
        m.accounts.contains_key(client),
        m.accounts[client].locked,
    ensures
        apply_step(m, tx).0.accounts.contains_key(client),
        apply_step(m, tx).0.accounts[client] == m.accounts[client],
        tx.client == client ==> apply_step(m, tx).0 == m && apply_step(m, tx).1 == Some(
            Error::AccountLocked(client),
        ),
{
}

/// A dispute, resolve or chargeback that references an unknown transaction
/// id, or one recorded for a different client, is refused and changes
/// nothing: every account known before, the open transactions and the
/// dispute set are exactly as they were.
pub proof fn lemma_unmatched_reference_changes_nothing(m: LedgerState, tx: Tx)
    requires
        tx.ty is Dispute || tx.ty is Resolve || tx.ty is ChargeBack,
        !m.txs.contains_key(tx.id) || m.txs[tx.id].client != tx.client,
    ensures
        apply_step(m, tx).1 is Some,
        apply_step(m, tx).0.txs == m.txs,
        apply_step(m, tx).0.disputes == m.disputes,
        forall|c: u16|
            #[trigger] m.accounts.contains_key(c) ==> apply_step(m, tx).0.accounts.contains_key(c)
                && apply_step(m, tx).0.accounts[c] == m.accounts[c],
{
}

/// A resolve is not idempotent: once a resolve has succeeded, repeating the
/// very same record fails with `TxNotUnderDispute`, and the repeat changes
/// nothing.
pub proof fn lemma_resolve_twice_fails(m: LedgerState, tx: Tx)
    requires
        tx.ty is Resolve,
        apply_step(m, tx).1 is None,
    ensures
        apply_step(apply_step(m, tx).0, tx).1 == Some(Error::TxNotUnderDispute(tx.id)),
        apply_step(apply_step(m, tx).0, tx).0 == apply_step(m, tx).0,
{
}

} // verus!
