use payments_engine::engine::PaymentsEngine;
use payments_engine::engine::Tx;
use payments_engine::engine::TxType;
use payments_engine::render::render_table;

// Amounts count units of one ten-thousandth: 1_000_000 units are 100.0000.

fn tx(ty: TxType, id: u32, client: u16, amount: Option<i128>) -> Tx {
    Tx { id, ty, client, amount }
}

fn apply_all(engine: &mut PaymentsEngine, txs: &[Tx]) {
    for t in txs {
        let _ = engine.process_tx(*t);
    }
}

#[test]
fn test_deposits_and_withdrawals() {
    let mut engine = PaymentsEngine::new();
    apply_all(
        &mut engine,
        &[
            tx(TxType::Deposit, 1, 1, Some(1_000_000)),
            tx(TxType::Withdrawal, 2, 1, Some(1_000_000)),
            tx(TxType::Deposit, 3, 2, Some(1_000_000)),
            tx(TxType::Withdrawal, 4, 2, Some(505_000)),
        ],
    );
    assert_eq!(engine.account_count(), 2);
    assert_eq!(engine.account(1).expect("Account exists").available, 0);
    assert_eq!(engine.account(2).unwrap().available, 495_000);
}

#[test]
fn test_failed_withdrawal() {
    let mut engine = PaymentsEngine::new();
    apply_all(
        &mut engine,
        &[
            tx(TxType::Deposit, 1, 1, Some(500_000)),
            tx(TxType::Withdrawal, 2, 1, Some(1_000_000)),
        ],
    );
    assert_eq!(engine.account(1).expect("Account exists").available, 500_000);
}

#[test]
fn test_disputes() {
    let mut engine = PaymentsEngine::new();
    apply_all(
        &mut engine,
        &[
            tx(TxType::Deposit, 1, 1, Some(1_000_000)),
            tx(TxType::Dispute, 1, 1, None),
            tx(TxType::Resolve, 1, 1, None),
            tx(TxType::Deposit, 2, 2, Some(1_000_000)),
            tx(TxType::Dispute, 2, 2, None),
            tx(TxType::Deposit, 3, 3, Some(1_000_000)),
            tx(TxType::Resolve, 3, 3, None),
        ],
    );

    // Client 1 dispute was resolved
    assert_eq!(engine.account(1).expect("Account exists").available, 1_000_000);
    assert_eq!(engine.account(1).expect("Account exists").held, 0);
    assert!(!engine.account(1).expect("Account exists").locked);
    assert!(!engine.is_disputed(1));

    // Client 2 dispute is still open
    assert_eq!(engine.account(2).expect("Account exists").available, 0);
    assert_eq!(engine.account(2).expect("Account exists").held, 1_000_000);
    assert!(engine.is_disputed(2));

    // Client 3 resolve ignored since no dispute opened
    assert_eq!(engine.account(3).expect("Account exists").available, 1_000_000);
    assert_eq!(engine.account(3).expect("Account exists").held, 0);
    assert!(!engine.is_disputed(3));
}

#[test]
fn test_reversed_deposit() {
    let mut engine = PaymentsEngine::new();
    apply_all(
        &mut engine,
        &[
            tx(TxType::Deposit, 1, 1, Some(1_000_000)),
            tx(TxType::Dispute, 1, 1, None),
            tx(TxType::ChargeBack, 1, 1, None),
            tx(TxType::Deposit, 2, 1, Some(500_000)),
        ],
    );

    // Deposit was reversed and the deposit following the chargeback was ignored
    assert!(engine.account(1).expect("Account exists").locked);
    assert_eq!(engine.account(1).expect("Account exists").available, 0);
    assert_eq!(engine.account(1).expect("Account exists").held, 0);
    assert_eq!(engine.open_tx_count(), 0);
}

#[test]
fn test_whitespace() {
    // Whitespace around field values is tolerated by the record reader; the
    // engine sees the same stream of records either way.
    let mut engine = PaymentsEngine::new();
    apply_all(
        &mut engine,
        &[
            tx(TxType::Deposit, 1, 1, Some(1_000_000)),
            tx(TxType::Withdrawal, 2, 1, Some(100_000)),
        ],
    );
    assert_eq!(engine.account_count(), 1);
    assert_eq!(engine.account(1).expect("Account exists").available, 900_000);
}

#[test]
fn test_print_accounts() {
    let mut engine = PaymentsEngine::new();
    apply_all(&mut engine, &[tx(TxType::Deposit, 1, 1, Some(1_001_001))]);

    let buf = render_table(&engine.snapshot());

    let expected = "client,available,held,total,locked\n1,100.1001,0,100.1001,false\n";
    assert_eq!(String::from_utf8(buf).unwrap(), expected);
}
