use payments_engine::engine::Error;
use payments_engine::engine::PaymentsEngine;
use payments_engine::engine::Tx;
use payments_engine::engine::TxType;

// Amounts count units of one ten-thousandth: 1_001_001 units are 100.1001.

fn tx(ty: TxType, id: u32, client: u16, amount: Option<i128>) -> Tx {
    Tx { id, ty, client, amount }
}

#[test]
fn deposit_snapshot_exact() {
    let mut engine = PaymentsEngine::new();
    assert_eq!(engine.process_tx(tx(TxType::Deposit, 1, 1, Some(1_001_001))), Ok(()));
    let rows = engine.snapshot();
    assert_eq!(rows.len(), 1);
    assert_eq!(rows[0].client, 1);
    assert_eq!(rows[0].available, 1_001_001);
    assert_eq!(rows[0].held, 0);
    assert_eq!(rows[0].total, 1_001_001);
    assert!(!rows[0].locked);
}

#[test]
fn deposit_then_withdrawal() {
    let mut engine = PaymentsEngine::new();
    assert_eq!(engine.process_tx(tx(TxType::Deposit, 1, 1, Some(1_000_000))), Ok(()));
    assert_eq!(engine.process_tx(tx(TxType::Withdrawal, 2, 1, Some(505_000))), Ok(()));
    assert_eq!(engine.account(1).unwrap().available, 495_000);
}

#[test]
fn withdrawal_without_deposit() {
    let mut engine = PaymentsEngine::new();
    let r = engine.process_tx(tx(TxType::Withdrawal, 1, 1, Some(500_000)));
    assert_eq!(r, Err(Error::NotEnoughFunds(1)));
    // The account was still created, with zero balances.
    let a = engine.account(1).expect("Account exists");
    assert_eq!(a.available, 0);
    assert_eq!(a.held, 0);
    let rows = engine.snapshot();
    assert_eq!(rows.len(), 1);
    assert_eq!(rows[0].client, 1);
}

#[test]
fn dispute_then_resolve() {
    let mut engine = PaymentsEngine::new();
    assert_eq!(engine.process_tx(tx(TxType::Deposit, 1, 1, Some(1_000_000))), Ok(()));
    assert_eq!(engine.process_tx(tx(TxType::Dispute, 1, 1, None)), Ok(()));
    assert_eq!(engine.account(1).unwrap().available, 0);
    assert_eq!(engine.account(1).unwrap().held, 1_000_000);
    assert_eq!(engine.process_tx(tx(TxType::Resolve, 1, 1, None)), Ok(()));
    assert_eq!(engine.account(1).unwrap().available, 1_000_000);
    assert_eq!(engine.account(1).unwrap().held, 0);
    assert!(!engine.is_disputed(1));
}

#[test]
fn chargeback_locks_account() {
    let mut engine = PaymentsEngine::new();
    assert_eq!(engine.process_tx(tx(TxType::Deposit, 1, 1, Some(1_000_000))), Ok(()));
    assert_eq!(engine.process_tx(tx(TxType::Dispute, 1, 1, None)), Ok(()));
    assert_eq!(engine.process_tx(tx(TxType::ChargeBack, 1, 1, None)), Ok(()));
    let a = engine.account(1).unwrap();
    assert_eq!(a.available, 0);
    assert_eq!(a.held, 0);
    assert!(a.locked);
    // A later deposit for the locked client is refused and changes nothing.
    let r = engine.process_tx(tx(TxType::Deposit, 2, 1, Some(500_000)));
    assert_eq!(r, Err(Error::AccountLocked(1)));
    let a = engine.account(1).unwrap();
    assert_eq!(a.available, 0);
    assert_eq!(a.held, 0);
    assert!(a.locked);
}

#[test]
fn missing_amount_is_refused() {
    let mut engine = PaymentsEngine::new();
    assert_eq!(engine.process_tx(tx(TxType::Deposit, 1, 1, None)), Err(Error::MissingTxAmount(1)));
    assert_eq!(
        engine.process_tx(tx(TxType::Withdrawal, 2, 1, None)),
        Err(Error::MissingTxAmount(2))
    );
    assert_eq!(engine.account(1).unwrap().available, 0);
}

#[test]
fn non_positive_amount_is_refused() {
    let mut engine = PaymentsEngine::new();
    assert_eq!(engine.process_tx(tx(TxType::Deposit, 1, 1, Some(0))), Err(Error::TxInvalidAmount(1)));
    assert_eq!(
        engine.process_tx(tx(TxType::Deposit, 2, 1, Some(-500_000))),
        Err(Error::TxInvalidAmount(2))
    );
    assert_eq!(
        engine.process_tx(tx(TxType::Withdrawal, 3, 1, Some(0))),
        Err(Error::TxInvalidAmount(3))
    );
    assert_eq!(engine.account(1).unwrap().available, 0);
    assert_eq!(engine.open_tx_count(), 0);
}

#[test]
fn dispute_unknown_tx() {
    let mut engine = PaymentsEngine::new();
    assert_eq!(engine.process_tx(tx(TxType::Dispute, 7, 1, None)), Err(Error::TxDoesNotExist(7)));
    assert_eq!(engine.process_tx(tx(TxType::Resolve, 7, 1, None)), Err(Error::TxDoesNotExist(7)));
    assert_eq!(
        engine.process_tx(tx(TxType::ChargeBack, 7, 1, None)),
        Err(Error::TxDoesNotExist(7))
    );
}

#[test]
fn dispute_client_mismatch() {
    let mut engine = PaymentsEngine::new();
    assert_eq!(engine.process_tx(tx(TxType::Deposit, 1, 1, Some(1_000_000))), Ok(()));
    let r = engine.process_tx(tx(TxType::Dispute, 1, 2, None));
    assert_eq!(r, Err(Error::ClientIdMismatch(TxType::Dispute, 1)));
    // The original deposit is untouched and not under dispute.
    assert_eq!(engine.account(1).unwrap().available, 1_000_000);
    assert_eq!(engine.account(1).unwrap().held, 0);
    assert!(!engine.is_disputed(1));
    // The referencing client's account was still created, empty.
    assert_eq!(engine.account(2).unwrap().available, 0);
}

#[test]
fn only_deposits_can_be_disputed() {
    let mut engine = PaymentsEngine::new();
    assert_eq!(engine.process_tx(tx(TxType::Deposit, 1, 1, Some(1_000_000))), Ok(()));
    assert_eq!(engine.process_tx(tx(TxType::Withdrawal, 2, 1, Some(500_000))), Ok(()));
    assert_eq!(engine.process_tx(tx(TxType::Dispute, 2, 1, None)), Err(Error::InvalidDispute(2)));
    assert_eq!(engine.account(1).unwrap().available, 500_000);
    assert_eq!(engine.account(1).unwrap().held, 0);
}

#[test]
fn dispute_twice_is_refused() {
    let mut engine = PaymentsEngine::new();
    assert_eq!(engine.process_tx(tx(TxType::Deposit, 1, 1, Some(1_000_000))), Ok(()));
    assert_eq!(engine.process_tx(tx(TxType::Dispute, 1, 1, None)), Ok(()));
    assert_eq!(
        engine.process_tx(tx(TxType::Dispute, 1, 1, None)),
        Err(Error::TxAlreadyUnderDispute(1))
    );
    assert_eq!(engine.account(1).unwrap().held, 1_000_000);
}

#[test]
fn resolve_twice_fails_second_time() {
    let mut engine = PaymentsEngine::new();
    assert_eq!(engine.process_tx(tx(TxType::Deposit, 1, 1, Some(1_000_000))), Ok(()));
    assert_eq!(engine.process_tx(tx(TxType::Dispute, 1, 1, None)), Ok(()));
    assert_eq!(engine.process_tx(tx(TxType::Resolve, 1, 1, None)), Ok(()));
    let before = engine.account(1).unwrap();
    let r = engine.process_tx(tx(TxType::Resolve, 1, 1, None));
    assert_eq!(r, Err(Error::TxNotUnderDispute(1)));
    let after = engine.account(1).unwrap();
    assert_eq!(after.available, before.available);
    assert_eq!(after.held, before.held);
    assert_eq!(after.locked, before.locked);
    assert_eq!(engine.open_tx_count(), 1);
}

#[test]
fn chargeback_without_dispute_is_refused() {
    let mut engine = PaymentsEngine::new();
    assert_eq!(engine.process_tx(tx(TxType::Deposit, 1, 1, Some(1_000_000))), Ok(()));
    assert_eq!(
        engine.process_tx(tx(TxType::ChargeBack, 1, 1, None)),
        Err(Error::TxNotUnderDispute(1))
    );
    assert_eq!(engine.account(1).unwrap().available, 1_000_000);
    assert!(!engine.account(1).unwrap().locked);
}

#[test]
fn dispute_after_withdrawal_goes_negative() {
    // Disputing a deposit whose funds were already withdrawn drives
    // `available` negative; this documented behaviour is kept, not clamped.
    let mut engine = PaymentsEngine::new();
    assert_eq!(engine.process_tx(tx(TxType::Deposit, 1, 1, Some(1_000_000))), Ok(()));
    assert_eq!(engine.process_tx(tx(TxType::Withdrawal, 2, 1, Some(600_000))), Ok(()));
    assert_eq!(engine.process_tx(tx(TxType::Dispute, 1, 1, None)), Ok(()));
    let a = engine.account(1).unwrap();
    assert_eq!(a.available, -600_000);
    assert_eq!(a.held, 1_000_000);
    let rows = engine.snapshot();
    assert_eq!(rows[0].total, 400_000);
    // Charging the dispute back leaves the shortfall in place and locks.
    assert_eq!(engine.process_tx(tx(TxType::ChargeBack, 1, 1, None)), Ok(()));
    let a = engine.account(1).unwrap();
    assert_eq!(a.available, -600_000);
    assert_eq!(a.held, 0);
    assert!(a.locked);
}

#[test]
fn snapshot_totals_are_computed() {
    let mut engine = PaymentsEngine::new();
    let stream = [
        tx(TxType::Deposit, 1, 1, Some(1_000_000)),
        tx(TxType::Deposit, 2, 2, Some(2_500_000)),
        tx(TxType::Withdrawal, 3, 2, Some(400_000)),
        tx(TxType::Dispute, 1, 1, None),
        tx(TxType::Deposit, 4, 3, Some(1)),
    ];
    for t in stream {
        let _ = engine.process_tx(t);
    }
    let rows = engine.snapshot();
    assert_eq!(rows.len(), 3);
    for row in rows {
        assert_eq!(row.total, row.available + row.held);
    }
}

#[test]
fn check_fits_refuses_only_extremes() {
    let mut engine = PaymentsEngine::new();
    assert!(engine.check_fits(&tx(TxType::Deposit, 1, 1, Some(i128::MAX))));
    assert_eq!(engine.process_tx(tx(TxType::Deposit, 1, 1, Some(i128::MAX))), Ok(()));
    // Any further deposit for the same client would push `available` past
    // the representable range.
    assert!(!engine.check_fits(&tx(TxType::Deposit, 2, 1, Some(1))));
    // Ordinary volumes are fine.
    assert!(engine.check_fits(&tx(TxType::Deposit, 3, 2, Some(1_000_000))));
    assert!(engine.check_fits(&tx(TxType::Withdrawal, 4, 1, Some(1))));
}
