use lottery_engine::ledger::{pot_account, pot_prize, Ledger, LedgerError};

#[test]
fn transfer_moves_funds() {
    let mut ledger = Ledger::new(10);
    ledger.deposit_creating(1, 100);
    assert_eq!(ledger.transfer(1, 2, 40, true), Ok(()));
    assert_eq!(ledger.total_balance(1), 60);
    assert_eq!(ledger.total_balance(2), 40);
}

#[test]
fn keep_alive_refuses_to_drain_below_minimum() {
    let mut ledger = Ledger::new(10);
    ledger.deposit_creating(1, 100);
    assert_eq!(ledger.transfer(1, 2, 95, true), Err(LedgerError::InsufficientBalance));
    assert_eq!(ledger.total_balance(1), 100);
    assert_eq!(ledger.total_balance(2), 0);
    assert_eq!(ledger.transfer(1, 2, 95, false), Ok(()));
    assert_eq!(ledger.total_balance(1), 5);
}

#[test]
fn transfer_beyond_balance_is_refused() {
    let mut ledger = Ledger::new(1);
    ledger.deposit_creating(1, 50);
    assert_eq!(ledger.transfer(1, 2, 51, false), Err(LedgerError::InsufficientBalance));
    assert_eq!(ledger.total_balance(1), 50);
}

#[test]
fn transfer_creating_dust_account_is_refused() {
    let mut ledger = Ledger::new(10);
    ledger.deposit_creating(1, 100);
    assert_eq!(ledger.transfer(1, 2, 5, true), Err(LedgerError::ExistentialDeposit));
    assert_eq!(ledger.total_balance(2), 0);
}

#[test]
fn transfer_overflowing_payee_is_refused() {
    let mut ledger = Ledger::new(1);
    ledger.deposit_creating(1, 100);
    ledger.deposit_creating(2, u128::MAX - 10);
    assert_eq!(ledger.transfer(1, 2, 50, false), Err(LedgerError::Overflow));
    assert_eq!(ledger.total_balance(2), u128::MAX - 10);
}

#[test]
fn empty_or_self_transfer_changes_nothing() {
    let mut ledger = Ledger::new(10);
    ledger.deposit_creating(1, 100);
    assert_eq!(ledger.transfer(1, 1, 100, true), Ok(()));
    assert_eq!(ledger.transfer(3, 1, 0, true), Ok(()));
    assert_eq!(ledger.total_balance(1), 100);
}

#[test]
fn deposit_below_minimum_does_not_create_account() {
    let mut ledger = Ledger::new(10);
    ledger.deposit_creating(1, 9);
    assert_eq!(ledger.total_balance(1), 0);
    ledger.deposit_creating(1, 10);
    ledger.deposit_creating(1, 3);
    assert_eq!(ledger.total_balance(1), 13);
    assert_eq!(ledger.free_balance(1), 13);
}

#[test]
fn pot_account_is_derived_from_identifier() {
    // "modl" followed by "py/l", read little-endian.
    assert_eq!(pot_account(*b"py/lotto"), 0x6c2f_7970_6c64_6f6d);
    assert_eq!(pot_account(*b"py/lotto"), pot_account(*b"py/lotto"));
    assert_ne!(pot_account(*b"py/lotto"), pot_account(*b"py/givea"));
}

#[test]
fn pot_prize_excludes_minimum() {
    let mut ledger = Ledger::new(10);
    let pot = pot_account(*b"py/lotto");
    assert_eq!(pot_prize(&ledger, pot), 0);
    ledger.deposit_creating(pot, 35);
    assert_eq!(pot_prize(&ledger, pot), 25);
}
