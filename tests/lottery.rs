use vstd::seq::Seq;
use std::cell::Cell;

use lottery_engine::ledger::{Ledger, LedgerError};
use lottery_engine::lottery::{Error, Event, LotteryConfig, Pallet};
use lottery_engine::randomness::Randomness;

struct Scripted {
    values: Vec<u32>,
    calls: Cell<usize>,
}

impl Randomness for Scripted {
    fn output(&self, _subject: Seq<u8>) -> Seq<u8> {
        unreachable!("the source's value is a proof-only view")
    }

    fn random(&self, subject: &[u8]) -> [u8; 32] {
        self.calls.set(self.calls.get() + 1);
        let seed = u32::from_le_bytes([subject[8], subject[9], subject[10], subject[11]]);
        let mut out = [0u8; 32];
        out[..4].copy_from_slice(&self.values[seed as usize].to_le_bytes());
        out
    }
}

const A: [u8; 10] = *b"selectionA";
const B: [u8; 10] = *b"selectionB";
const MINIMUM: u128 = 10;

fn setup(max_participants: u32) -> (Pallet, Ledger) {
    let pallet = Pallet::new(*b"py/lotto", 3, max_participants);
    let mut ledger = Ledger::new(MINIMUM);
    for who in [1u64, 2, 3] {
        ledger.deposit_creating(who, 1_000);
    }
    ledger.deposit_creating(4, 50);
    (pallet, ledger)
}

#[test]
fn start_advances_index_and_funds_pot() {
    let (mut p, mut l) = setup(2);
    let r = p.start_lottery(7, 100, 10, 2, false, 5, &mut l);
    assert!(matches!(r, Ok(Event::LotteryStarted { kind: 7, index: 0 })));
    assert_eq!(p.lottery_index(7), 1);
    assert_eq!(p.lottery_index(8), 0);
    assert_eq!(
        p.lottery(7, 0),
        Some(LotteryConfig { price: 100, start: 5, length: 10, delay: 2, repeat: false })
    );
    assert_eq!(l.total_balance(p.account_id()), MINIMUM);
    assert_eq!(l.total_balance(p.account_id()), MINIMUM);
}

#[test]
fn one_open_lottery_per_kind() {
    let (mut p, mut l) = setup(2);
    p.start_lottery(7, 100, 10, 2, false, 5, &mut l).unwrap();
    assert_eq!(p.start_lottery(7, 50, 10, 2, false, 6, &mut l).err(), Some(Error::InProgress));
    assert_eq!(p.lottery_index(7), 1);
    assert_eq!(p.lottery(7, 1), None);
    let other = p.start_lottery(8, 50, 10, 2, false, 6, &mut l);
    assert!(matches!(other, Ok(Event::LotteryStarted { kind: 8, index: 0 })));
}

#[test]
fn ticket_sale_window() {
    let (mut p, mut l) = setup(2);
    assert_eq!(p.do_buy_ticket(1, 7, 0, A, 5, &mut l).err(), Some(Error::NotConfigured));
    p.start_lottery(7, 100, 10, 2, false, 5, &mut l).unwrap();
    assert_eq!(p.do_buy_ticket(1, 7, 0, A, 15, &mut l).err(), Some(Error::AlreadyEnded));
    let r = p.do_buy_ticket(1, 7, 0, A, 14, &mut l);
    assert!(matches!(r, Ok(Event::TicketBought { kind: 7, index: 0, user: 1, selection: A })));
    assert_eq!(l.total_balance(1), 900);
    assert_eq!(l.total_balance(p.account_id()), MINIMUM + 100);
}

#[test]
fn pool_capacity_is_enforced_without_charging() {
    let (mut p, mut l) = setup(2);
    p.start_lottery(7, 100, 10, 2, false, 5, &mut l).unwrap();
    p.do_buy_ticket(1, 7, 0, A, 6, &mut l).unwrap();
    p.do_buy_ticket(2, 7, 0, A, 6, &mut l).unwrap();
    let pot = l.total_balance(p.account_id());
    assert_eq!(p.do_buy_ticket(3, 7, 0, A, 6, &mut l).err(), Some(Error::TooManyParticipants));
    assert_eq!(l.total_balance(3), 1_000);
    assert_eq!(l.total_balance(p.account_id()), pot);
    assert_eq!(p.participants(7, 0, A), vec![1, 2]);
    assert!(p.do_buy_ticket(3, 7, 0, B, 6, &mut l).is_ok());
    assert_eq!(p.participants(7, 0, B), vec![3]);
}

#[test]
fn one_ticket_per_selection() {
    let (mut p, mut l) = setup(3);
    p.start_lottery(7, 100, 10, 2, false, 5, &mut l).unwrap();
    p.do_buy_ticket(1, 7, 0, A, 6, &mut l).unwrap();
    assert_eq!(p.do_buy_ticket(1, 7, 0, A, 6, &mut l).err(), Some(Error::AlreadyParticipating));
    assert_eq!(l.total_balance(1), 900);
}

#[test]
fn unpaid_ticket_is_not_recorded() {
    let (mut p, mut l) = setup(3);
    p.start_lottery(7, 100, 10, 2, false, 5, &mut l).unwrap();
    let r = p.do_buy_ticket(4, 7, 0, A, 6, &mut l);
    assert_eq!(r.err(), Some(Error::Transfer(LedgerError::InsufficientBalance)));
    assert_eq!(p.participants(7, 0, A), Vec::<u64>::new());
    assert!(p.buy_ticket(4, 7, 0, A, 6, &mut l).is_none());
    assert!(p.buy_ticket(1, 7, 0, A, 6, &mut l).is_some());
}

#[test]
fn pot_reports_prize_above_minimum() {
    let (mut p, mut l) = setup(3);
    p.start_lottery(7, 100, 10, 2, false, 5, &mut l).unwrap();
    p.do_buy_ticket(1, 7, 0, A, 6, &mut l).unwrap();
    p.do_buy_ticket(2, 7, 0, B, 6, &mut l).unwrap();
    let (account, prize) = p.pot(&l);
    assert_eq!(account, p.account_id());
    assert_eq!(prize, 200);
}

#[test]
fn winning_ticket_uses_retry_budget() {
    let (p, _l) = setup(3);
    let rng = Scripted { values: vec![u32::MAX, u32::MAX - 1, u32::MAX - 2, 4], calls: Cell::new(0) };
    // u32::MAX % 3 == 0: only u32::MAX itself is redrawn.
    let r = p.choose_ticket(&rng, 3);
    assert_eq!(r.ticket, Some((u32::MAX - 1) % 3));
    assert_eq!(rng.calls.get(), 2);
    let none = p.choose_ticket(&rng, 0);
    assert_eq!(none.ticket, None);
}
