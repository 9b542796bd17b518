use payment_engine::account::Account;
use payment_engine::amount::Amount;

#[test]
fn test_deposit() {
    let mut account = Account::default();
    account.deposit(Amount::from_units(100));
    assert_eq!(account.available_funds(), Amount::from_units(100));
    assert_eq!(account.held_funds(), Amount::from_units(0));
    assert_eq!(account.total_funds(), Amount::from_units(100));
}

#[test]
fn test_withdraw() {
    let mut account = Account::default();
    account.deposit(Amount::from_units(100));
    assert!(account.withdraw(Amount::from_units(50)).is_ok());
    assert_eq!(account.available_funds(), Amount::from_units(50));
    assert_eq!(account.held_funds(), Amount::from_units(0));
    assert_eq!(account.total_funds(), Amount::from_units(50));

    assert!(account.withdraw(Amount::from_units(60)).is_err());
    assert_eq!(account.available_funds(), Amount::from_units(50));
}

#[test]
fn test_hold_funds() {
    let mut account = Account::default();
    account.deposit(Amount::from_units(100));
    assert!(account.hold_funds(Amount::from_units(30)).is_ok());
    assert_eq!(account.available_funds(), Amount::from_units(70));
    assert_eq!(account.held_funds(), Amount::from_units(30));
    assert_eq!(account.total_funds(), Amount::from_units(100));

    assert!(account.hold_funds(Amount::from_units(80)).is_err());
    assert_eq!(account.available_funds(), Amount::from_units(70));
}

#[test]
fn test_release_funds() {
    let mut account = Account::default();
    account.deposit(Amount::from_units(100));
    account.hold_funds(Amount::from_units(40)).unwrap();
    account.release_funds(Amount::from_units(20));
    assert_eq!(account.available_funds(), Amount::from_units(80));
    assert_eq!(account.held_funds(), Amount::from_units(20));
    assert_eq!(account.total_funds(), Amount::from_units(100));
}

#[test]
fn test_chargeback() {
    let mut account = Account::default();
    account.deposit(Amount::from_units(100));
    account.hold_funds(Amount::from_units(50)).unwrap();
    account.chargeback(Amount::from_units(50));
    assert_eq!(account.available_funds(), Amount::from_units(50));
    assert_eq!(account.held_funds(), Amount::from_units(0));
    assert_eq!(account.total_funds(), Amount::from_units(50));
    assert!(account.is_locked());
}
