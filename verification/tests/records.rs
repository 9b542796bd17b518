use payment_engine::amount::Amount;
use payment_engine::transaction::{RecordError, Transaction, TxPayload};

#[test]
fn test_record_deposit() {
    let t = Transaction::from_record("deposit", 4, 7, Some(Amount::from_units(3))).unwrap();
    assert_eq!(t.client, 4);
    assert_eq!(t.id, 7);
    assert!(matches!(t.payload, TxPayload::Deposit { amount } if amount == Amount::from_units(3)));
}

#[test]
fn test_record_withdrawal() {
    let t = Transaction::from_record("withdrawal", 1, 2, Some(Amount::from_units(5))).unwrap();
    assert!(
        matches!(t.payload, TxPayload::Withdrawal { amount } if amount == Amount::from_units(5))
    );
}

#[test]
fn test_record_kinds_without_amount() {
    let d = Transaction::from_record("dispute", 1, 2, None).unwrap();
    assert!(matches!(d.payload, TxPayload::Dispute));
    let r = Transaction::from_record("resolve", 1, 2, None).unwrap();
    assert!(matches!(r.payload, TxPayload::Resolve));
    let c = Transaction::from_record("chargeback", 1, 2, None).unwrap();
    assert!(matches!(c.payload, TxPayload::Chargeback));
}

#[test]
fn test_record_unknown_kind() {
    let e = Transaction::from_record("transfer", 1, 2, None).unwrap_err();
    assert_eq!(e, RecordError::UnknownKind);
    let e = Transaction::from_record("", 1, 2, Some(Amount::from_units(1))).unwrap_err();
    assert_eq!(e, RecordError::UnknownKind);
}

#[test]
fn test_record_missing_amount() {
    let e = Transaction::from_record("deposit", 1, 2, None).unwrap_err();
    assert_eq!(e, RecordError::MissingAmount);
    let e = Transaction::from_record("withdrawal", 1, 2, None).unwrap_err();
    assert_eq!(e, RecordError::MissingAmount);
}

#[test]
fn test_record_extra_amount_is_kept_off_disputes() {
    // A dispute record may carry an amount column entry; the transaction
    // kind carries none.
    let t = Transaction::from_record("dispute", 1, 2, Some(Amount::from_units(9))).unwrap();
    assert!(matches!(t.payload, TxPayload::Dispute));
}
