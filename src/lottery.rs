//! Lotteries of several kinds in which a ticket is bought for a selection;
//! each selection holds a bounded pool of buyers.
use std::collections::HashMap;
use vstd::prelude::*;

use crate::ledger::{
    deposit_book, pot_account, pot_account_of, pot_prize, transfer_book, transfer_check, Ledger,
    LedgerError,
};
use crate::lucky_number::contains_account;
use crate::randomness::{choose_ticket, Randomness, TicketDraw};
use crate::{AccountId, Balance, BlockNumber};

verus! {

broadcast use vstd::std_specs::hash::group_hash_axioms;

/// Identifies a kind of lottery.
pub type LotteryKind = u16;

/// What a ticket is bought for.
pub type LotterySelection = [u8; 10];

/// The configuration of one lottery.
#[derive(Clone, Copy, Debug, PartialEq, Eq, Structural)]
pub struct LotteryConfig {
    /// Price of a ticket.
    pub price: Balance,
    /// Height at which the lottery opened.
    pub start: BlockNumber,
    /// Tickets are sold before `start + length`.
    pub length: BlockNumber,
    /// The winner is drawn `delay` blocks after the sale closes.
    pub delay: BlockNumber,
    /// Whether the lottery repeats once it completes.
    pub repeat: bool,
}

/// A ticket and its owner.
#[derive(Clone, Copy, Debug)]
pub struct TicketInfo {
    pub account_id: AccountId,
    pub selection: LotterySelection,
}

/// Why a lottery operation was refused.
#[derive(Clone, Copy, Debug, PartialEq, Eq, Structural)]
pub enum Error {
    /// No lottery has that kind and index.
    NotConfigured,
    /// A lottery of that kind and index already exists.
    InProgress,
    /// The lottery no longer sells tickets.
    AlreadyEnded,
    InvalidCall,
    /// The buyer already holds a ticket for that selection.
    AlreadyParticipating,
    TooManyCalls,
    EncodingFailed,
    /// The pool of the selection is full.
    TooManyParticipants,
    /// The index of the kind cannot advance any further.
    IndexOverflow,
    /// The ticket price could not be moved.
    Transfer(LedgerError),
}

/// What a lottery operation reports.
#[derive(Clone, Copy, Debug)]
pub enum Event {
    LotteryStarted { kind: LotteryKind, index: u32 },
    CallsUpdated,
    Winner { winner: AccountId, lottery_balance: Balance },
    TicketBought { kind: LotteryKind, index: u32, user: AccountId, selection: LotterySelection },
}

/// Storage key of the lottery `index` of `kind`.
pub open spec fn lottery_key(kind: LotteryKind, index: u32) -> u64 {
    (kind * 0x1_0000_0000 + index) as u64
}

fn lottery_key_of(kind: LotteryKind, index: u32) -> (r: u64)
    ensures
        r == lottery_key(kind, index),
{
    (kind as u64) * 0x1_0000_0000 + (index as u64)
}

/// The ten bytes of a selection read as one little-endian number.
pub open spec fn selection_value(s: Seq<u8>) -> int {
    s[0] + s[1] * 0x100 + s[2] * 0x1_0000 + s[3] * 0x100_0000 + s[4] * 0x1_0000_0000 + s[5]
        * 0x100_0000_0000 + s[6] * 0x1_0000_0000_0000 + s[7] * 0x100_0000_0000_0000 + s[8]
        * 0x1_0000_0000_0000_0000 + s[9] * 0x100_0000_0000_0000_0000
}

/// Storage key of the pool of `selection` in the lottery `index` of `kind`.
pub open spec fn pool_key(kind: LotteryKind, index: u32, selection: LotterySelection) -> u128 {
    (kind * 0x1_0000_0000_0000_0000_0000_0000_0000 + index * 0x1_0000_0000_0000_0000_0000
        + selection_value(selection@)) as u128
}

fn pool_key_of(kind: LotteryKind, index: u32, selection: LotterySelection) -> (r: u128)
    ensures
        r == pool_key(kind, index, selection),
{
    let s = selection;
    let v: u128 = (s[0] as u128) + (s[1] as u128) * 0x100 + (s[2] as u128) * 0x1_0000 + (s[3] as u128)
        * 0x100_0000 + (s[4] as u128) * 0x1_0000_0000 + (s[5] as u128) * 0x100_0000_0000 + (
    s[6] as u128) * 0x1_0000_0000_0000 + (s[7] as u128) * 0x100_0000_0000_0000 + (s[8] as u128)
        * 0x1_0000_0000_0000_0000 + (s[9] as u128) * 0x100_0000_0000_0000_0000;
    (kind as u128) * 0x1_0000_0000_0000_0000_0000_0000_0000 + (index as u128)
        * 0x1_0000_0000_0000_0000_0000 + v
}

/// Last height before which tickets are sold.
pub open spec fn close_height(c: LotteryConfig) -> BlockNumber {
    if c.start + c.length > u32::MAX {
        u32::MAX
    } else {
        (c.start + c.length) as BlockNumber
    }
}

/// How a purchase by `caller` of a ticket for `selection` in lottery `index`
/// of `kind` at height `now` settles on `pre` and the book `book0`, leaving
/// `post` and `book1`. The lottery must exist and still sell tickets, the
/// pool must have room, the caller must not hold a ticket for that
/// selection yet, and the price must reach the pot with the caller kept
/// alive; the caller then joins the pool. A refused purchase changes
/// nothing.
pub open spec fn ticket_outcome(
    pre: &Pallet,
    post: &Pallet,
    book0: Map<AccountId, Balance>,
    book1: Map<AccountId, Balance>,
    minimum: Balance,
    caller: AccountId,
    kind: LotteryKind,
    index: u32,
    selection: LotterySelection,
    now: BlockNumber,
    r: Result<Event, Error>,
) -> bool {
    let pool = pre.pool(kind, index, selection);
    let refused = post == pre && book1 == book0;
    if pre.config(kind, index) is None {
        r == Err::<Event, Error>(Error::NotConfigured) && refused
    } else if now >= close_height(pre.config(kind, index).unwrap()) {
        r == Err::<Event, Error>(Error::AlreadyEnded) && refused
    } else if pool.len() >= pre.capacity() {
        r == Err::<Event, Error>(Error::TooManyParticipants) && refused
    } else if pool.contains(caller) {
        r == Err::<Event, Error>(Error::AlreadyParticipating) && refused
    } else {
        let price = pre.config(kind, index).unwrap().price;
        match transfer_check(book0, caller, pre.pot_id(), price, minimum, true) {
            Ok(_) => {
                &&& (r matches Ok(Event::TicketBought { kind: k, index: i, user: u, selection: s })
                    && k == kind && i == index && u == caller && s == selection)
                &&& book1 == transfer_book(book0, caller, pre.pot_id(), price)
                &&& post.pools() == pre.pools().insert(
                    pool_key(kind, index, selection),
                    pool.push(caller),
                )
                &&& post.same_lotteries(pre)
            },
            Err(e) => r == Err::<Event, Error>(Error::Transfer(e)) && refused,
        }
    }
}

/// Lotteries, their pools of buyers, and the index each kind is at.
pub struct Pallet {
    pallet_id: [u8; 8],
    max_generate_random: u32,
    max_participants: u32,
    indices: HashMap<LotteryKind, u32>,
    lotteries: HashMap<u64, LotteryConfig>,
    participants: HashMap<u128, Vec<AccountId>>,
}

impl Pallet {
    /// The index the next lottery of `kind` receives.
    pub closed spec fn index_of(&self, kind: LotteryKind) -> u32 {
        if self.indices@.contains_key(kind) {
            self.indices@[kind]
        } else {
            0
        }
    }

    /// The configuration of lottery `index` of `kind`.
    pub closed spec fn config(&self, kind: LotteryKind, index: u32) -> Option<LotteryConfig> {
        if self.lotteries@.contains_key(lottery_key(kind, index)) {
            Some(self.lotteries@[lottery_key(kind, index)])
        } else {
            None
        }
    }

    /// The pools, by storage key.
    pub closed spec fn pools(&self) -> Map<u128, Seq<AccountId>> {
        self.participants@.map_values(|v: Vec<AccountId>| v@)
    }

    /// Buyers of tickets for `selection` in lottery `index` of `kind`.
    pub open spec fn pool(&self, kind: LotteryKind, index: u32, selection: LotterySelection) -> Seq<
        AccountId,
    > {
        let k = pool_key(kind, index, selection);
        if self.pools().contains_key(k) {
            self.pools()[k]
        } else {
            Seq::empty()
        }
    }

    /// Escrow account of the lotteries.
    pub closed spec fn pot_id(&self) -> AccountId {
        pot_account_of(self.pallet_id@) as AccountId
    }

    /// Most buyers of one selection.
    pub closed spec fn capacity(&self) -> u32 {
        self.max_participants
    }

    /// Most draws made to pick a winner without bias.
    pub closed spec fn retry_budget(&self) -> u32 {
        self.max_generate_random
    }

    /// No pool exceeds the capacity or holds a buyer twice.
    pub open spec fn wf(&self) -> bool {
        forall|k: u128| #[trigger]
            self.pools().contains_key(k) ==> self.pools()[k].len() <= self.capacity()
                && self.pools()[k].no_duplicates()
    }

    /// Identifier of the configuration, which seeds the draws.
    pub closed spec fn pallet_id(&self) -> [u8; 8] {
        self.pallet_id
    }

    /// In a consistent state no pool holds more buyers than the capacity,
    /// and none holds a buyer twice.
    pub proof fn lemma_pool_bounded(&self, kind: LotteryKind, index: u32, selection: LotterySelection)
        requires
            self.wf(),
        ensures
            self.pool(kind, index, selection).len() <= self.capacity(),
            self.pool(kind, index, selection).no_duplicates(),
    {
        let k = pool_key(kind, index, selection);
        if self.participants@.contains_key(k) {
            assert(self.pools()[k] == self.participants@[k]@);
        }
    }

    /// Whether a lottery of `kind` is configured at the index about to be
    /// given out, or at the last one given out.
    pub open spec fn kind_in_progress(&self, kind: LotteryKind) -> bool {
        let i = self.index_of(kind);
        self.config(kind, i) is Some || (i > 0 && self.config(kind, (i - 1) as u32) is Some)
    }

    /// Everything but the pools is the same in `self` and `other`.
    pub open spec fn same_lotteries(&self, other: &Pallet) -> bool {
        &&& self.pallet_id() == other.pallet_id()
        &&& self.pot_id() == other.pot_id()
        &&& self.retry_budget() == other.retry_budget()
        &&& self.capacity() == other.capacity()
        &&& forall|kind: LotteryKind| #[trigger] self.index_of(kind) == other.index_of(kind)
        &&& forall|kind: LotteryKind, index: u32| #[trigger]
            self.config(kind, index) == other.config(kind, index)
    }

    /// No lottery yet; pools hold up to `max_participants` buyers and a
    /// winner is drawn with up to `max_generate_random` draws.
    pub fn new(pallet_id: [u8; 8], max_generate_random: u32, max_participants: u32) -> (r: Pallet)
        ensures
            r.wf(),
            r.pot_id() == pot_account_of(pallet_id@),
            r.pallet_id() == pallet_id,
            r.capacity() == max_participants,
            r.retry_budget() == max_generate_random,
            forall|kind: LotteryKind| #[trigger] r.index_of(kind) == 0,
            forall|kind: LotteryKind, index: u32| #[trigger] r.config(kind, index) is None,
            r.pools() == Map::<u128, Seq<AccountId>>::empty(),
    {
        let r = Pallet {
            pallet_id,
            max_generate_random,
            max_participants,
            indices: HashMap::new(),
            lotteries: HashMap::new(),
            participants: HashMap::new(),
        };
        assert(r.pools() =~= Map::<u128, Seq<AccountId>>::empty());
        r
    }

    /// The escrow account of the lotteries.
    pub fn account_id(&self) -> (r: AccountId)
        ensures
            r == self.pot_id(),
    {
        pot_account(self.pallet_id)
    }

    /// The pot account and the prize it holds: its free balance above the
    /// minimum that keeps it alive.
    pub fn pot(&self, ledger: &Ledger) -> (r: (AccountId, Balance))
        ensures
            r.0 == self.pot_id(),
            r.1 == (if ledger.balance(self.pot_id()) >= ledger.minimum() {
                ledger.balance(self.pot_id()) - ledger.minimum()
            } else {
                0
            }),
    {
        let account = self.account_id();
        (account, pot_prize(ledger, account))
    }

    /// The index the next lottery of `kind` receives.
    pub fn lottery_index(&self, kind: LotteryKind) -> (r: u32)
        ensures
            r == self.index_of(kind),
    {
        match self.indices.get(&kind) {
            Some(i) => *i,
            None => 0,
        }
    }

    /// The configuration of lottery `index` of `kind`.
    pub fn lottery(&self, kind: LotteryKind, index: u32) -> (r: Option<LotteryConfig>)
        ensures
            r == self.config(kind, index),
    {
        match self.lotteries.get(&lottery_key_of(kind, index)) {
            Some(c) => Some(*c),
            None => None,
        }
    }

    /// Buyers of tickets for `selection` in lottery `index` of `kind`.
    pub fn participants(&self, kind: LotteryKind, index: u32, selection: LotterySelection) -> (r: Vec<
        AccountId,
    >)
        ensures
            r@ == self.pool(kind, index, selection),
    {
        match self.participants.get(&pool_key_of(kind, index, selection)) {
            Some(v) => crate::truncate_copy(v.as_slice(), v.len()),
            None => Vec::new(),
        }
    }

    /// Opens lottery number `index_of(kind)` of `kind` at height `now` and
    /// advances the index of the kind; an empty pot is first funded with the
    /// minimum balance. At most one lottery of a kind is open: neither that
    /// lottery nor the previous one of the kind may be configured, and the
    /// index must be able to advance; otherwise nothing changes.
    pub fn start_lottery(
        &mut self,
        kind: LotteryKind,
        price: Balance,
        length: BlockNumber,
        delay: BlockNumber,
        repeat: bool,
        now: BlockNumber,
        ledger: &mut Ledger,
    ) -> (r: Result<Event, Error>)
        requires
            old(self).wf(),
        ensures
            final(self).wf(),
            final(ledger).minimum() == old(ledger).minimum(),
            old(self).kind_in_progress(kind) ==> r == Err::<Event, Error>(Error::InProgress),
            !old(self).kind_in_progress(kind) && old(self).index_of(kind) == u32::MAX ==> r == Err::<
                Event,
                Error,
            >(Error::IndexOverflow),
            !old(self).kind_in_progress(kind) && old(self).index_of(kind) < u32::MAX ==> (r matches Ok(Event::LotteryStarted { kind: k, index: i }) && k == kind
                && i == old(self).index_of(kind)),
            r is Err ==> *final(self) == *old(self) && final(ledger).book() == old(ledger).book(),
            r is Ok ==> ({
                let index = old(self).index_of(kind);
                &&& final(self).config(kind, index) == Some(
                    LotteryConfig { price, start: now, length, delay, repeat },
                )
                &&& forall|k: LotteryKind, i: u32|
                    !(k == kind && i == index) ==> #[trigger] final(self).config(k, i) == old(
                        self,
                    ).config(k, i)
                &&& final(self).index_of(kind) == index + 1
                &&& forall|k: LotteryKind|
                    k != kind ==> #[trigger] final(self).index_of(k) == old(self).index_of(k)
                &&& final(self).pools() == old(self).pools()
                &&& final(self).pallet_id() == old(self).pallet_id()
                &&& final(self).pot_id() == old(self).pot_id()
                &&& final(self).capacity() == old(self).capacity()
                &&& final(self).retry_budget() == old(self).retry_budget()
                &&& final(ledger).book() == (if old(ledger).balance(old(self).pot_id()) == 0 {
                    deposit_book(
                        old(ledger).book(),
                        old(self).pot_id(),
                        old(ledger).minimum(),
                        old(ledger).minimum(),
                    )
                } else {
                    old(ledger).book()
                })
            }),
    {
        let index = self.lottery_index(kind);
        let key = lottery_key_of(kind, index);
        if self.lotteries.contains_key(&key) {
            return Err(Error::InProgress);
        }
        if index > 0 && self.lotteries.contains_key(&lottery_key_of(kind, index - 1)) {
            return Err(Error::InProgress);
        }
        if index == u32::MAX {
            return Err(Error::IndexOverflow);
        }
        let ghost s0 = *old(self);
        self.lotteries.insert(key, LotteryConfig { price, start: now, length, delay, repeat });
        self.indices.insert(kind, index + 1);
        proof {
            assert forall|k: LotteryKind, i: u32|
                !(k == kind && i == index) implies #[trigger] self.config(k, i) == s0.config(k, i) by {
                assert(lottery_key(k, i) != lottery_key(kind, index));
            }
            assert(self.pools() == s0.pools());
        }
        let pot = self.account_id();
        if ledger.total_balance(pot) == 0 {
            let minimum = ledger.minimum_balance();
            ledger.deposit_creating(pot, minimum);
        }
        Ok(Event::LotteryStarted { kind, index })
    }

    /// Sells `caller` a ticket for `selection` in lottery `index` of `kind`
    /// at height `now` (see `ticket_outcome`).
    pub fn do_buy_ticket(
        &mut self,
        caller: AccountId,
        kind: LotteryKind,
        index: u32,
        selection: LotterySelection,
        now: BlockNumber,
        ledger: &mut Ledger,
    ) -> (r: Result<Event, Error>)
        requires
            old(self).wf(),
        ensures
            final(self).wf(),
            final(ledger).minimum() == old(ledger).minimum(),
            ticket_outcome(
                old(self),
                final(self),
                old(ledger).book(),
                final(ledger).book(),
                old(ledger).minimum(),
                caller,
                kind,
                index,
                selection,
                now,
                r,
            ),
    {
        let config = match self.lotteries.get(&lottery_key_of(kind, index)) {
            Some(c) => *c,
            None => {
                return Err(Error::NotConfigured);
            },
        };
        if now >= config.start.saturating_add(config.length) {
            return Err(Error::AlreadyEnded);
        }
        let pkey = pool_key_of(kind, index, selection);
        let (full, joined) = match self.participants.get(&pkey) {
            Some(v) => (v.len() >= self.max_participants as usize, contains_account(v.as_slice(), caller)),
            None => (self.max_participants == 0, false),
        };
        if full {
            return Err(Error::TooManyParticipants);
        }
        if joined {
            return Err(Error::AlreadyParticipating);
        }
        let pot = self.account_id();
        match ledger.transfer(caller, pot, config.price, true) {
            Ok(()) => {},
            Err(e) => {
                return Err(Error::Transfer(e));
            },
        }
        let ghost s0 = *old(self);
        let mut pool: Vec<AccountId> = match self.participants.remove(&pkey) {
            Some(v) => v,
            None => Vec::new(),
        };
        assert(pool@ == s0.pool(kind, index, selection));
        pool.push(caller);
        self.participants.insert(pkey, pool);
        proof {
            assert(self.pools() =~= s0.pools().insert(
                pool_key(kind, index, selection),
                s0.pool(kind, index, selection).push(caller),
            ));
            assert forall|k: u128| #[trigger]
                self.pools().contains_key(k) implies self.pools()[k].len() <= self.capacity()
                && self.pools()[k].no_duplicates() by {
                if k != pkey {
                    assert(s0.pools().contains_key(k));
                }
            }
        }
        Ok(Event::TicketBought { kind, index, user: caller, selection })
    }

    /// Buys a ticket as `do_buy_ticket` does; a refused purchase fails
    /// silently, and only the returned event tells that a ticket was bought.
    pub fn buy_ticket(
        &mut self,
        caller: AccountId,
        kind: LotteryKind,
        index: u32,
        selection: LotterySelection,
        now: BlockNumber,
        ledger: &mut Ledger,
    ) -> (r: Option<Event>)
        requires
            old(self).wf(),
        ensures
            final(self).wf(),
            final(ledger).minimum() == old(ledger).minimum(),
            exists|res: Result<Event, Error>|
                ticket_outcome(
                    old(self),
                    final(self),
                    old(ledger).book(),
                    final(ledger).book(),
                    old(ledger).minimum(),
                    caller,
                    kind,
                    index,
                    selection,
                    now,
                    res,
                ) && r == match res {
                    Ok(e) => Some(e),
                    Err(_) => None,
                },
    {
        let res = self.do_buy_ticket(caller, kind, index, selection, now, ledger);
        match res {
            Ok(e) => Some(e),
            Err(_) => None,
        }
    }

    /// Picks a winning ticket among `total` tickets, drawing from `rng` with
    /// the retry budget of the lotteries (see `randomness::choose_ticket`).
    pub fn choose_ticket<R: Randomness>(&self, rng: &R, total: u32) -> (r: TicketDraw)
        ensures
            r.ticket == crate::randomness::fair_choice(total, r.draws@),
            total == 0 ==> r.ticket is None,
            total > 0 ==> 1 <= r.draws@.len() <= crate::randomness::draw_budget(
                self.retry_budget(),
            ),
            forall|k: int|
                0 <= k < r.draws@.len() - 1 ==> r.draws@[k] >= crate::randomness::fair_bound(
                    total,
                ),
            total > 0 && r.draws@.len() < crate::randomness::draw_budget(self.retry_budget())
                ==> r.draws@.last() < crate::randomness::fair_bound(total),
            forall|k: int|
                0 <= k < r.draws@.len() ==> #[trigger] r.draws@[k] == crate::randomness::drawn(
                    rng,
                    self.pallet_id()@,
                    k as u32,
                ),
    {
        choose_ticket(rng, self.pallet_id, total, self.max_generate_random)
    }
}

} // verus!
