use payment_engine::amount::Amount;
use payment_engine::client::Client;
use payment_engine::transaction::{Transaction, TxPayload};

#[test]
fn test_withdrawal() {
    let txs = vec![
        Transaction {
            id: 1,
            client: 1,
            payload: TxPayload::Deposit { amount: Amount::from_units(10) },
        },
        Transaction {
            id: 2,
            client: 1,
            payload: TxPayload::Withdrawal { amount: Amount::from_units(5) },
        },
        Transaction {
            id: 3,
            client: 1,
            payload: TxPayload::Withdrawal { amount: Amount::from_units(15) },
        },
    ];

    let mut client = Client::default();
    for tx in &txs {
        client.process_transaction(*tx);
    }

    assert_eq!(client.account().total_funds(), Amount::from_units(5));
    assert!(!client.account().is_locked());
    assert!(client.has_transaction(1));
    assert!(client.has_transaction(2));
    assert!(!client.has_transaction(3));
}

#[test]
fn test_dispute_resolve() {
    let txs = vec![
        Transaction {
            id: 1,
            client: 1,
            payload: TxPayload::Deposit { amount: Amount::from_units(10) },
        },
        Transaction { id: 1, client: 1, payload: TxPayload::Dispute },
        Transaction { id: 1, client: 1, payload: TxPayload::Resolve },
    ];

    let mut client = Client::default();
    for tx in &txs {
        client.process_transaction(*tx);
    }

    assert_eq!(client.account().total_funds(), Amount::from_units(10));
    assert!(!client.account().is_locked());
    assert!(!client.disputes().is_disputed(1));
    assert!(client.has_transaction(1));
}

#[test]
fn test_dispute_chargeback() {
    let txs = vec![
        Transaction {
            id: 1,
            client: 1,
            payload: TxPayload::Deposit { amount: Amount::from_units(10) },
        },
        Transaction { id: 1, client: 1, payload: TxPayload::Dispute },
        Transaction { id: 1, client: 1, payload: TxPayload::Chargeback },
    ];

    let mut client = Client::default();
    for tx in &txs {
        client.process_transaction(*tx);
    }

    assert_eq!(client.account().total_funds(), Amount::from_units(0));
    assert!(client.account().is_locked());
    assert!(client.disputes().is_disputed(1));
    assert!(client.has_transaction(1));
}

#[test]
fn test_dispute_missing_tx() {
    let txs = vec![
        Transaction {
            id: 1,
            client: 1,
            payload: TxPayload::Deposit { amount: Amount::from_units(10) },
        },
        Transaction { id: 2, client: 1, payload: TxPayload::Dispute },
    ];

    let mut client = Client::default();

    for tx in &txs {
        client.process_transaction(*tx);
    }

    assert_eq!(client.account().total_funds(), Amount::from_units(10));
    assert!(!client.account().is_locked());
    assert!(!client.disputes().is_disputed(2));
    assert!(client.has_transaction(1));
    assert!(!client.has_transaction(2));
}

#[test]
fn test_dispute_withdrawal() {
    let txs = vec![
        Transaction {
            id: 1,
            client: 1,
            payload: TxPayload::Deposit { amount: Amount::from_units(10) },
        },
        Transaction {
            id: 2,
            client: 1,
            payload: TxPayload::Withdrawal { amount: Amount::from_units(5) },
        },
        Transaction { id: 2, client: 1, payload: TxPayload::Dispute },
    ];

    let mut client = Client::default();

    for tx in &txs {
        client.process_transaction(*tx);
    }

    assert_eq!(client.account().total_funds(), Amount::from_units(5));
    assert!(!client.account().is_locked());
    assert!(!client.disputes().is_disputed(2));
    assert!(client.has_transaction(1));
    assert!(client.has_transaction(2));
}

#[test]
fn test_no_dispute_if_not_enough_funds() {
    let txs = vec![
        Transaction {
            id: 1,
            client: 1,
            payload: TxPayload::Deposit { amount: Amount::from_units(10) },
        },
        Transaction {
            id: 2,
            client: 1,
            payload: TxPayload::Withdrawal { amount: Amount::from_units(5) },
        },
        Transaction { id: 1, client: 1, payload: TxPayload::Dispute },
    ];

    let mut client = Client::default();

    for tx in &txs {
        client.process_transaction(*tx);
    }

    assert_eq!(client.account().total_funds(), Amount::from_units(5));
    assert!(!client.account().is_locked());
    assert!(!client.disputes().is_disputed(1));
    assert!(client.has_transaction(1));
    assert!(client.has_transaction(2));
}

#[test]
fn test_dont_process_tx_after_locked() {
    let txs = vec![
        Transaction {
            id: 1,
            client: 1,
            payload: TxPayload::Deposit { amount: Amount::from_units(10) },
        },
        Transaction { id: 1, client: 1, payload: TxPayload::Dispute },
        Transaction { id: 1, client: 1, payload: TxPayload::Chargeback },
        Transaction {
            id: 4,
            client: 1,
            payload: TxPayload::Deposit { amount: Amount::from_units(10) },
        },
    ];

    let mut client = Client::default();
    for tx in &txs {
        client.process_transaction(*tx);
    }

    assert_eq!(client.account().total_funds(), Amount::from_units(0));
    assert!(client.account().is_locked());
    assert!(!client.has_transaction(4));
}

#[test]
fn test_replay_same_deposit_id() {
    let mut client = Client::default();
    let deposit = Transaction {
        id: 7,
        client: 1,
        payload: TxPayload::Deposit { amount: Amount::from_units(25) },
    };
    client.process_transaction(deposit);
    client.process_transaction(deposit);

    assert_eq!(client.account().total_funds(), Amount::from_units(25));
    assert_eq!(client.account().available_funds(), Amount::from_units(25));
}

#[test]
fn test_replay_same_withdrawal_id() {
    let mut client = Client::default();
    client.process_transaction(Transaction {
        id: 1,
        client: 1,
        payload: TxPayload::Deposit { amount: Amount::from_units(100) },
    });
    let withdrawal = Transaction {
        id: 2,
        client: 1,
        payload: TxPayload::Withdrawal { amount: Amount::from_units(30) },
    };
    client.process_transaction(withdrawal);
    client.process_transaction(withdrawal);

    assert_eq!(client.account().available_funds(), Amount::from_units(70));
}

#[test]
fn test_failed_withdrawal_cannot_be_disputed() {
    let mut client = Client::default();
    client.process_transaction(Transaction {
        id: 1,
        client: 1,
        payload: TxPayload::Deposit { amount: Amount::from_units(10) },
    });
    client.process_transaction(Transaction {
        id: 2,
        client: 1,
        payload: TxPayload::Withdrawal { amount: Amount::from_units(50) },
    });
    assert!(!client.has_transaction(2));

    client.process_transaction(Transaction { id: 2, client: 1, payload: TxPayload::Dispute });
    assert!(!client.disputes().is_disputed(2));
    assert_eq!(client.account().available_funds(), Amount::from_units(10));
    assert_eq!(client.account().held_funds(), Amount::from_units(0));
}

#[test]
fn test_resolve_without_dispute_is_no_op() {
    let mut client = Client::default();
    client.process_transaction(Transaction {
        id: 1,
        client: 1,
        payload: TxPayload::Deposit { amount: Amount::from_units(10) },
    });
    client.process_transaction(Transaction { id: 1, client: 1, payload: TxPayload::Resolve });
    client.process_transaction(Transaction { id: 1, client: 1, payload: TxPayload::Chargeback });

    assert_eq!(client.account().available_funds(), Amount::from_units(10));
    assert_eq!(client.account().held_funds(), Amount::from_units(0));
    assert!(!client.account().is_locked());
}

#[test]
fn test_dispute_holds_funds() {
    let mut client = Client::default();
    client.process_transaction(Transaction {
        id: 1,
        client: 1,
        payload: TxPayload::Deposit { amount: Amount::from_units(10) },
    });
    client.process_transaction(Transaction { id: 1, client: 1, payload: TxPayload::Dispute });

    assert_eq!(client.account().available_funds(), Amount::from_units(0));
    assert_eq!(client.account().held_funds(), Amount::from_units(10));
    assert_eq!(client.account().total_funds(), Amount::from_units(10));
    assert!(client.disputes().is_disputed(1));
}
