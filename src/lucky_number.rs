//! Rounds in which participants stake on a number below one hundred; the
//! number drawn when the round matures makes its stakers winners, each paid
//! its stake times the round's rate.
use std::collections::HashMap;
use vstd::prelude::*;

use crate::ledger::{
    deposit_book, pot_account, pot_account_of, transfer_book, transfer_check, Ledger, LedgerError,
};
use crate::randomness::{drawn, generate_random_number, Randomness};
use crate::{truncate_copy, AccountId, Balance, BlockNumber};

verus! {

broadcast use vstd::std_specs::hash::group_hash_axioms;

/// Numbers that can be staked on are those below this one.
pub const NUMBER_RANGE: u8 = 100;

/// `s` with every occurrence of `x` taken out, the rest in order.
pub open spec fn without(s: Seq<AccountId>, x: AccountId) -> Seq<AccountId>
    decreases s.len(),
{
    if s.len() == 0 {
        s
    } else if s.last() == x {
        without(s.drop_last(), x)
    } else {
        without(s.drop_last(), x).push(s.last())
    }
}

/// Whether `x` occurs in `s`.
pub fn contains_account(s: &[AccountId], x: AccountId) -> (r: bool)
    ensures
        r == s@.contains(x),
{
    let mut i: usize = 0;
    while i < s.len()
        invariant
            0 <= i <= s@.len(),
            forall|k: int| 0 <= k < i ==> s@[k] != x,
        decreases s@.len() - i,
    {
        if s[i] == x {
            assert(s@[i as int] == x);
            return true;
        }
        i = i + 1;
    }
    false
}

proof fn lemma_without_contains(s: Seq<AccountId>, x: AccountId, y: AccountId)
    ensures
        without(s, x).contains(y) <==> (s.contains(y) && y != x),
    decreases s.len(),
{
    if s.len() > 0 {
        lemma_without_contains(s.drop_last(), x, y);
        let w = without(s.drop_last(), x);
        if s.contains(y) && y != x && s.last() != y {
            let k = choose|k: int| 0 <= k < s.len() && s[k] == y;
            assert(s.drop_last()[k] == y);
        }
        if w.contains(y) {
            let k = choose|k: int| 0 <= k < w.len() && w[k] == y;
            if s.last() != x {
                assert(without(s, x)[k] == y);
            }
        }
        if s.last() == y && y != x {
            assert(without(s, x).last() == y);
        }
        if without(s, x).contains(y) && s.last() != x {
            let k = choose|k: int| 0 <= k < without(s, x).len() && without(s, x)[k] == y;
            if k < w.len() {
                assert(w[k] == y);
            }
        }
        if s.drop_last().contains(y) {
            let k = choose|k: int| 0 <= k < s.drop_last().len() && s.drop_last()[k] == y;
            assert(s[k] == y);
        }
    }
}

proof fn lemma_without_no_duplicates(s: Seq<AccountId>, x: AccountId)
    requires
        s.no_duplicates(),
    ensures
        without(s, x).no_duplicates(),
        without(s, x).len() <= s.len(),
    decreases s.len(),
{
    if s.len() > 0 {
        let d = s.drop_last();
        assert(d.no_duplicates());
        lemma_without_no_duplicates(d, x);
        if s.last() != x {
            lemma_without_contains(d, x, s.last());
            assert(!d.contains(s.last())) by {
                if d.contains(s.last()) {
                    let k = choose|k: int| 0 <= k < d.len() && d[k] == s.last();
                    assert(s[k] == s[s.len() - 1]);
                }
            }
        }
    }
}

/// A copy of `s` without `x`.
pub fn remove_account(s: &[AccountId], x: AccountId) -> (r: Vec<AccountId>)
    ensures
        r@ == without(s@, x),
{
    let mut r: Vec<AccountId> = Vec::new();
    let mut i: usize = 0;
    assert(s@.subrange(0, 0) =~= Seq::<AccountId>::empty());
    while i < s.len()
        invariant
            0 <= i <= s@.len(),
            r@ == without(s@.subrange(0, i as int), x),
        decreases s@.len() - i,
    {
        let ghost pre = s@.subrange(0, i + 1);
        assert(pre.drop_last() =~= s@.subrange(0, i as int));
        if s[i] != x {
            r.push(s[i]);
        }
        i = i + 1;
    }
    assert(s@.subrange(0, s@.len() as int) =~= s@);
    r
}

/// The configuration of a round.
#[derive(Clone, Copy, Debug, PartialEq, Eq, Structural)]
pub struct LotteryConfig {
    /// Smallest stake the round is meant for.
    pub min_price: Balance,
    /// Height at which the round opened.
    pub start: BlockNumber,
    /// Stakes are taken up to `start + length`.
    pub length: BlockNumber,
    /// The number is drawn `delay` blocks after the stakes close.
    pub delay: BlockNumber,
    /// A winner receives its stake times this rate.
    pub rate: u8,
    /// Whether a new round opens when this one is resolved.
    pub repeat: bool,
}

/// `a + b`, or the largest height when that does not exist.
pub open spec fn sat_add(a: BlockNumber, b: BlockNumber) -> BlockNumber {
    if a + b > u32::MAX {
        u32::MAX
    } else {
        (a + b) as BlockNumber
    }
}

/// Last height at which stakes are taken.
pub open spec fn close_height(c: LotteryConfig) -> BlockNumber {
    sat_add(c.start, c.length)
}

/// Height from which the round can be resolved: `start + length + delay`.
pub open spec fn payout_height(c: LotteryConfig) -> BlockNumber {
    sat_add(sat_add(c.start, c.length), c.delay)
}

/// Why an operation on the rounds was refused.
#[derive(Clone, Copy, Debug, PartialEq, Eq, Structural)]
pub enum Error {
    /// No round is configured.
    NotConfigured,
    /// The current round is already configured.
    InProgress,
    /// The rate is too high.
    CannotSetRate,
    /// The round index cannot advance any further.
    IndexOverflow,
    /// The round no longer takes stakes.
    AlreadyEnded,
    /// The account has no pending reward in that round.
    InvalidCall,
    /// The number is not below one hundred.
    InvalidNumber,
    TooManyParticipants,
    /// The stake could not be moved.
    Transfer(LedgerError),
}

/// What an operation on the rounds reports.
#[derive(Clone, Copy, Debug, PartialEq, Eq, Structural)]
pub enum Event {
    RoundStarted { round: u32 },
    TicketBought { round: u32, who: AccountId, amount: Balance, number: u8 },
    RandomNumberGenerated { round: u32, number: u8 },
    RewardClaimed { round: u32, who: AccountId, amount: Balance },
    /// The payout failed; the winner keeps its claim.
    RewardClaimedFailed { round: u32, who: AccountId, amount: Balance, error: LedgerError },
}

/// Storage key of the stakers on `number` in `round`.
pub open spec fn pool_key(round: u32, number: u8) -> u64 {
    (round * 0x100 + number) as u64
}

fn pool_key_of(round: u32, number: u8) -> (r: u64)
    ensures
        r == pool_key(round, number),
{
    (round as u64) * 0x100 + (number as u64)
}

/// Storage key of the stake of `who` on `number` in `round`.
pub open spec fn stake_key(round: u32, who: AccountId, number: u8) -> u128 {
    (round * 0x100_0000_0000_0000_0000 + who * 0x100 + number) as u128
}

fn stake_key_of(round: u32, who: AccountId, number: u8) -> (r: u128)
    ensures
        r == stake_key(round, who, number),
{
    (round as u128) * 0x100_0000_0000_0000_0000 + (who as u128) * 0x100 + (number as u128)
}

/// `a * b`, or the largest amount when that does not exist.
pub open spec fn sat_mul(a: Balance, b: Balance) -> Balance {
    if a * b > u128::MAX {
        u128::MAX
    } else {
        (a * b) as Balance
    }
}

fn saturating_mul(a: Balance, b: Balance) -> (r: Balance)
    ensures
        r == sat_mul(a, b),
{
    if a == 0 {
        assert(a * b == 0) by (nonlinear_arith)
            requires
                a == 0,
        ;
        return 0;
    }
    if b > u128::MAX / a {
        assert(a * b > u128::MAX) by (nonlinear_arith)
            requires
                a > 0,
                b > u128::MAX / a,
        ;
        u128::MAX
    } else {
        assert(a * b <= u128::MAX) by (nonlinear_arith)
            requires
                a > 0,
                b <= u128::MAX / a,
        ;
        a * b
    }
}

/// Whether the current round of `p` is configured and may be resolved at
/// height `n`.
pub open spec fn matured(p: &Pallet, n: BlockNumber) -> bool {
    &&& p.config(p.current_round()) is Some
    &&& payout_height(p.config(p.current_round()).unwrap()) <= n
}

/// The round after `round`.
pub open spec fn next_round(round: u32) -> u32 {
    (round + 1) as u32
}

/// Whether a repeating round `round` is followed by a new one: the last
/// round index is never opened.
pub open spec fn reopens(c: LotteryConfig, round: u32) -> bool {
    c.repeat && round + 1 < u32::MAX
}

/// `post` is `pre` after its current round, matured at height `n`, was
/// resolved with the drawn `number`: the stakers on that number become the
/// round's winners, the next round becomes current and, for a repeating
/// round, opens at `n` with the same parameters unless it would be the last
/// round index.
pub open spec fn resolved(pre: &Pallet, post: &Pallet, n: BlockNumber, number: u8) -> bool {
    let round = pre.current_round();
    let c = pre.config(round).unwrap();
    let next = next_round(round);
    &&& post.winners_of(round) == pre.pool(round, number)
    &&& post.pool(round, number).len() == 0
    &&& forall|x: u32, m: u8|
        !(x == round && m == number) ==> #[trigger] post.pool(x, m) == pre.pool(x, m)
    &&& forall|x: u32| x != round ==> #[trigger] post.winners_of(x) == pre.winners_of(x)
    &&& forall|x: u32, a: AccountId, m: u8| #[trigger] post.stake(x, a, m) == pre.stake(x, a, m)
    &&& post.current_round() == next
    &&& post.config(next) == (if reopens(c, round) {
        Some(LotteryConfig { start: n, ..c })
    } else {
        pre.config(next)
    })
    &&& forall|x: u32| x != next ==> #[trigger] post.config(x) == pre.config(x)
    &&& post.pot() == pre.pot()
    &&& post.deposit() == pre.deposit()
    &&& post.capacity() == pre.capacity()
}

/// The payout height of a round is `start + length + delay` whenever that
/// height exists, and a round is not resolved at any height below it.
pub proof fn lemma_payout_height(p: &Pallet, n: BlockNumber)
    requires
        p.config(p.current_round()) is Some,
        ({
            let c = p.config(p.current_round()).unwrap();
            c.start + c.length + c.delay <= u32::MAX
        }),
    ensures
        ({
            let c = p.config(p.current_round()).unwrap();
            &&& payout_height(c) == c.start + c.length + c.delay
            &&& n < c.start + c.length + c.delay ==> !matured(p, n)
        }),
{
}

/// What resolving the current round of `pre` with `number` reports.
pub open spec fn resolution_events(pre: &Pallet, number: u8) -> Seq<Event> {
    let round = pre.current_round();
    let first = Event::RandomNumberGenerated { round, number };
    if reopens(pre.config(round).unwrap(), round) {
        seq![first, Event::RoundStarted { round: next_round(round) }]
    } else {
        seq![first]
    }
}

/// How a claim by `who` for `number` in `round` settles on `pre` and the
/// book `book0`, leaving `post` and `book1`: only a pending winner of a
/// configured round is paid, its stake times the rate (saturating), from
/// the pot kept alive. A paid winner leaves the winners; a failed payout
/// changes nothing and is reported.
pub open spec fn claim_outcome(
    pre: &Pallet,
    post: &Pallet,
    book0: Map<AccountId, Balance>,
    book1: Map<AccountId, Balance>,
    minimum: Balance,
    who: AccountId,
    round: u32,
    number: u8,
    r: Result<Event, Error>,
) -> bool {
    if !pre.winners_of(round).contains(who) {
        r == Err::<Event, Error>(Error::InvalidCall) && post == pre && book1 == book0
    } else if pre.config(round) is None {
        r == Err::<Event, Error>(Error::NotConfigured) && post == pre && book1 == book0
    } else {
        let reward = sat_mul(pre.stake(round, who, number), pre.config(round).unwrap().rate as Balance);
        match transfer_check(book0, pre.pot(), who, reward, minimum, true) {
            Ok(_) => {
                &&& r == Ok::<Event, Error>(Event::RewardClaimed { round, who, amount: reward })
                &&& book1 == transfer_book(book0, pre.pot(), who, reward)
                &&& post.winners_of(round) == without(pre.winners_of(round), who)
                &&& forall|x: u32| x != round ==> #[trigger] post.winners_of(x) == pre.winners_of(x)
                &&& forall|x: u32, m: u8| #[trigger] post.pool(x, m) == pre.pool(x, m)
                &&& forall|x: u32, a: AccountId, m: u8| #[trigger]
                    post.stake(x, a, m) == pre.stake(x, a, m)
                &&& post.same_rounds(pre)
            },
            Err(e) => r == Ok::<Event, Error>(
                Event::RewardClaimedFailed { round, who, amount: reward, error: e },
            ) && post == pre && book1 == book0,
        }
    }
}

/// A claim that paid cannot pay again: after `who` was paid for `round`, a
/// further claim by `who` for that round, on any number, is refused with
/// `InvalidCall` and moves nothing.
pub proof fn lemma_claim_pays_once(
    s0: &Pallet,
    s1: &Pallet,
    s2: &Pallet,
    b0: Map<AccountId, Balance>,
    b1: Map<AccountId, Balance>,
    b2: Map<AccountId, Balance>,
    minimum: Balance,
    who: AccountId,
    round: u32,
    first: u8,
    second: u8,
    r1: Result<Event, Error>,
    r2: Result<Event, Error>,
)
    requires
        claim_outcome(s0, s1, b0, b1, minimum, who, round, first, r1),
        r1 matches Ok(Event::RewardClaimed { .. }),
        claim_outcome(s1, s2, b1, b2, minimum, who, round, second, r2),
    ensures
        r2 == Err::<Event, Error>(Error::InvalidCall),
        b2 == b1,
        s2 == s1,
{
    lemma_without_contains(s0.winners_of(round), who, who);
}

/// In a consistent state no pool holds more accounts than the capacity, and
/// none holds an account twice.
pub proof fn lemma_pool_bounded(p: &Pallet, round: u32, number: u8)
    requires
        p.wf(),
    ensures
        p.pool(round, number).len() <= p.capacity(),
        p.pool(round, number).no_duplicates(),
{
}

/// The rounds, their stakers, stakes and winners.
pub struct Pallet {
    pallet_id: [u8; 8],
    pot_deposit: Balance,
    max_set: u32,
    round: u32,
    lotteries: HashMap<u32, LotteryConfig>,
    participants: HashMap<u64, Vec<AccountId>>,
    winners: HashMap<u32, Vec<AccountId>>,
    stakes: HashMap<u128, Balance>,
}

impl Pallet {
    /// The round that takes stakes, or awaits its configuration.
    pub closed spec fn current_round(&self) -> u32 {
        self.round
    }

    /// The configuration of `round`.
    pub closed spec fn config(&self, round: u32) -> Option<LotteryConfig> {
        if self.lotteries@.contains_key(round) {
            Some(self.lotteries@[round])
        } else {
            None
        }
    }

    /// Accounts staking on `number` in `round`, in order of arrival.
    pub closed spec fn pool(&self, round: u32, number: u8) -> Seq<AccountId> {
        if self.participants@.contains_key(pool_key(round, number)) {
            self.participants@[pool_key(round, number)]@
        } else {
            Seq::empty()
        }
    }

    /// Winners of `round` that were not paid yet.
    pub closed spec fn winners_of(&self, round: u32) -> Seq<AccountId> {
        if self.winners@.contains_key(round) {
            self.winners@[round]@
        } else {
            Seq::empty()
        }
    }

    /// What `who` staked on `number` in `round`.
    pub closed spec fn stake(&self, round: u32, who: AccountId, number: u8) -> Balance {
        if self.stakes@.contains_key(stake_key(round, who, number)) {
            self.stakes@[stake_key(round, who, number)]
        } else {
            0
        }
    }

    /// Escrow account of the rounds.
    pub closed spec fn pot(&self) -> AccountId {
        pot_account_of(self.pallet_id@) as AccountId
    }

    /// Amount minted into an empty pot when a round opens.
    pub closed spec fn deposit(&self) -> Balance {
        self.pot_deposit
    }

    /// Most accounts that may stake on one number in one round.
    pub closed spec fn capacity(&self) -> u32 {
        self.max_set
    }

    /// Identifier of the configuration, which seeds the draws.
    pub closed spec fn pallet_id(&self) -> [u8; 8] {
        self.pallet_id
    }

    /// No pool exceeds the capacity or holds an account twice, no account
    /// is twice among the winners of a round, no round after the current one
    /// is configured, and the last round index is never configured.
    pub open spec fn wf(&self) -> bool {
        &&& forall|r: u32, n: u8| #[trigger] self.pool(r, n).len() <= self.capacity()
        &&& forall|r: u32, n: u8| #[trigger] self.pool(r, n).no_duplicates()
        &&& forall|r: u32| #[trigger] self.winners_of(r).no_duplicates()
        &&& forall|r: u32| r > self.current_round() ==> #[trigger] self.config(r) is None
        &&& self.config(u32::MAX) is None
    }

    /// Nothing but the stakers, stakes and winners differs.
    pub open spec fn same_rounds(&self, other: &Pallet) -> bool {
        &&& self.pallet_id() == other.pallet_id()
        &&& self.pot() == other.pot()
        &&& self.deposit() == other.deposit()
        &&& self.capacity() == other.capacity()
        &&& self.current_round() == other.current_round()
        &&& forall|r: u32| #[trigger] self.config(r) == other.config(r)
    }

    /// An empty set of rounds paid from the pot identified by `pallet_id`.
    pub fn new(pallet_id: [u8; 8], pot_deposit: Balance, max_set: u32) -> (r: Pallet)
        ensures
            r.wf(),
            r.current_round() == 0,
            r.pot() == pot_account_of(pallet_id@),
            r.pallet_id() == pallet_id,
            r.deposit() == pot_deposit,
            r.capacity() == max_set,
            forall|round: u32| #[trigger] r.config(round) is None,
            forall|round: u32, n: u8| #[trigger] r.pool(round, n).len() == 0,
            forall|round: u32| #[trigger] r.winners_of(round).len() == 0,
            forall|round: u32, a: AccountId, n: u8| #[trigger] r.stake(round, a, n) == 0,
    {
        Pallet {
            pallet_id,
            pot_deposit,
            max_set,
            round: 0,
            lotteries: HashMap::new(),
            participants: HashMap::new(),
            winners: HashMap::new(),
            stakes: HashMap::new(),
        }
    }

    /// Opens the current round at height `now` with the given parameters,
    /// and tops the pot up with the deposit when it is empty. The current
    /// round must not be configured yet and the rate must be below 99;
    /// otherwise nothing changes.
    pub fn start_lottery(
        &mut self,
        min_price: Balance,
        length: BlockNumber,
        delay: BlockNumber,
        rate: u8,
        repeat: bool,
        now: BlockNumber,
        ledger: &mut Ledger,
    ) -> (r: Result<Event, Error>)
        requires
            old(self).wf(),
        ensures
            final(self).wf(),
            final(ledger).minimum() == old(ledger).minimum(),
            old(self).config(old(self).current_round()) is Some ==> r == Err::<Event, Error>(
                Error::InProgress,
            ),
            old(self).config(old(self).current_round()) is None && old(self).current_round()
                == u32::MAX ==> r == Err::<Event, Error>(Error::IndexOverflow),
            old(self).config(old(self).current_round()) is None && old(self).current_round()
                < u32::MAX && rate >= 99 ==> r == Err::<Event, Error>(Error::CannotSetRate),
            old(self).config(old(self).current_round()) is None && old(self).current_round()
                < u32::MAX && rate < 99 ==> r == Ok::<
                Event,
                Error,
            >(Event::RoundStarted { round: old(self).current_round() }),
            r is Err ==> *final(self) == *old(self) && final(ledger).book() == old(ledger).book(),
            r is Ok ==> ({
                let round = old(self).current_round();
                &&& final(self).config(round) == Some(
                    LotteryConfig { min_price, start: now, length, delay, rate, repeat },
                )
                &&& forall|x: u32| x != round ==> #[trigger] final(self).config(x) == old(self).config(x)
                &&& final(self).current_round() == round
                &&& final(self).pallet_id() == old(self).pallet_id()
                &&& final(self).pot() == old(self).pot()
                &&& final(self).deposit() == old(self).deposit()
                &&& final(self).capacity() == old(self).capacity()
                &&& forall|x: u32, n: u8| #[trigger] final(self).pool(x, n) == old(self).pool(x, n)
                &&& forall|x: u32| #[trigger] final(self).winners_of(x) == old(self).winners_of(x)
                &&& forall|x: u32, a: AccountId, n: u8| #[trigger]
                    final(self).stake(x, a, n) == old(self).stake(x, a, n)
                &&& final(ledger).book() == (if old(ledger).balance(old(self).pot()) == 0 {
                    deposit_book(
                        old(ledger).book(),
                        old(self).pot(),
                        old(self).deposit(),
                        old(ledger).minimum(),
                    )
                } else {
                    old(ledger).book()
                })
            }),
    {
        let round = self.round;
        if self.lotteries.contains_key(&round) {
            return Err(Error::InProgress);
        }
        if round == u32::MAX {
            return Err(Error::IndexOverflow);
        }
        if rate >= 99 {
            return Err(Error::CannotSetRate);
        }
        let ghost s0 = *old(self);
        self.lotteries.insert(round, LotteryConfig { min_price, start: now, length, delay, rate, repeat });
        proof {
            assert forall|x: u32, n: u8| #[trigger] self.pool(x, n).len() <= self.max_set by {
                assert(s0.pool(x, n).len() <= s0.max_set);
            }
            assert forall|x: u32, n: u8| #[trigger] self.pool(x, n).no_duplicates() by {
                assert(s0.pool(x, n).no_duplicates());
            }
            assert forall|x: u32| #[trigger] self.winners_of(x).no_duplicates() by {
                assert(s0.winners_of(x).no_duplicates());
            }
            assert forall|x: u32| x > self.current_round() implies #[trigger] self.config(x) is None by {
                assert(s0.config(x) is None);
            }
            assert(s0.config(u32::MAX) is None);
        }
        let pot = self.account_id();
        if ledger.total_balance(pot) == 0 {
            ledger.deposit_creating(pot, self.pot_deposit);
        }
        Ok(Event::RoundStarted { round })
    }

    /// `who` stakes `amount` on `number` in the current round at height
    /// `now`. A first stake on a number puts `who` in that number's pool;
    /// a further one adds to the stake (saturating). The number must be
    /// below one hundred, the round configured and still taking stakes, the
    /// pool must have room for a newcomer, and the stake must reach the pot
    /// with `who` kept alive. Otherwise nothing changes.
    pub fn buy_ticket(
        &mut self,
        who: AccountId,
        number: u8,
        amount: Balance,
        now: BlockNumber,
        ledger: &mut Ledger,
    ) -> (r: Result<Event, Error>)
        requires
            old(self).wf(),
        ensures
            final(self).wf(),
            final(ledger).minimum() == old(ledger).minimum(),
            number >= NUMBER_RANGE ==> r == Err::<Event, Error>(Error::InvalidNumber),
            number < NUMBER_RANGE && old(self).config(old(self).current_round()) is None ==> r
                == Err::<Event, Error>(Error::NotConfigured),
            number < NUMBER_RANGE && old(self).config(old(self).current_round()) is Some ==> ({
                let round = old(self).current_round();
                let c = old(self).config(round).unwrap();
                let pool = old(self).pool(round, number);
                if now > close_height(c) {
                    r == Err::<Event, Error>(Error::AlreadyEnded)
                } else if !pool.contains(who) && pool.len() >= old(self).capacity() {
                    r == Err::<Event, Error>(Error::TooManyParticipants)
                } else {
                    match transfer_check(
                        old(ledger).book(),
                        who,
                        old(self).pot(),
                        amount,
                        old(ledger).minimum(),
                        true,
                    ) {
                        Ok(_) => r == Ok::<Event, Error>(
                            Event::TicketBought { round, who, amount, number },
                        ),
                        Err(e) => r == Err::<Event, Error>(Error::Transfer(e)),
                    }
                }
            }),
            r is Err ==> *final(self) == *old(self) && final(ledger).book() == old(ledger).book(),
            r is Ok ==> ({
                let round = old(self).current_round();
                let pool = old(self).pool(round, number);
                let before = old(self).stake(round, who, number);
                &&& final(ledger).book() == transfer_book(
                    old(ledger).book(),
                    who,
                    old(self).pot(),
                    amount,
                )
                &&& final(self).same_rounds(old(self))
                &&& final(self).pool(round, number) == (if pool.contains(who) {
                    pool
                } else {
                    pool.push(who)
                })
                &&& final(self).stake(round, who, number) == (if pool.contains(who) {
                    if before + amount > u128::MAX {
                        u128::MAX
                    } else {
                        (before + amount) as Balance
                    }
                } else {
                    amount
                })
                &&& forall|x: u32, n: u8|
                    !(x == round && n == number) ==> #[trigger] final(self).pool(x, n) == old(
                        self,
                    ).pool(x, n)
                &&& forall|x: u32, a: AccountId, n: u8|
                    !(x == round && a == who && n == number) ==> #[trigger] final(self).stake(
                        x,
                        a,
                        n,
                    ) == old(self).stake(x, a, n)
                &&& forall|x: u32| #[trigger] final(self).winners_of(x) == old(self).winners_of(x)
            }),
    {
        if number >= NUMBER_RANGE {
            return Err(Error::InvalidNumber);
        }
        let round = self.round;
        let config = match self.lotteries.get(&round) {
            Some(c) => *c,
            None => {
                return Err(Error::NotConfigured);
            },
        };
        if now > config.start.saturating_add(config.length) {
            return Err(Error::AlreadyEnded);
        }
        let pkey = pool_key_of(round, number);
        let joined: bool = match self.participants.get(&pkey) {
            Some(v) => contains_account(v.as_slice(), who),
            None => false,
        };
        let pool_len: usize = match self.participants.get(&pkey) {
            Some(v) => v.len(),
            None => 0,
        };
        if !joined && pool_len >= self.max_set as usize {
            return Err(Error::TooManyParticipants);
        }
        let pot = self.account_id();
        match ledger.transfer(who, pot, amount, true) {
            Ok(()) => {},
            Err(e) => {
                return Err(Error::Transfer(e));
            },
        }
        let ghost s0 = *old(self);
        let skey = stake_key_of(round, who, number);
        if joined {
            let before = self.user_prediction_value(round, who, number);
            self.stakes.insert(skey, before.saturating_add(amount));
        } else {
            let mut pool: Vec<AccountId> = match self.participants.remove(&pkey) {
                Some(v) => v,
                None => Vec::new(),
            };
            assert(pool@ == s0.pool(round, number));
            pool.push(who);
            self.participants.insert(pkey, pool);
            self.stakes.insert(skey, amount);
        }
        proof {
            assert forall|x: u32, n: u8|
                !(x == round && n == number) implies #[trigger] self.pool(x, n) == s0.pool(x, n) by {
                assert(pool_key(x, n) != pool_key(round, number));
            }
            assert forall|x: u32, a: AccountId, n: u8|
                !(x == round && a == who && n == number) implies #[trigger] self.stake(x, a, n)
                == s0.stake(x, a, n) by {
                assert(stake_key(x, a, n) != stake_key(round, who, number));
            }
            assert forall|x: u32, n: u8| #[trigger] self.pool(x, n).len() <= self.max_set by {
                assert(s0.pool(x, n).len() <= s0.max_set);
            }
            assert forall|x: u32, n: u8| #[trigger] self.pool(x, n).no_duplicates() by {
                assert(s0.pool(x, n).no_duplicates());
            }
            assert forall|x: u32| #[trigger] self.winners_of(x).no_duplicates() by {
                assert(s0.winners_of(x).no_duplicates());
            }
            assert forall|x: u32| x > self.current_round() implies #[trigger] self.config(x) is None by {
                assert(s0.config(x) is None);
            }
            assert(s0.config(u32::MAX) is None);
        }
        Ok(Event::TicketBought { round, who, amount, number })
    }

    /// Resolves the current round at height `n` with the random number
    /// `draw`, when the round is configured and `n` reached its payout
    /// height: the number drawn is `draw` modulo one hundred. Before that
    /// height nothing changes and nothing is reported.
    pub fn resolve_round(&mut self, n: BlockNumber, draw: u32) -> (r: Vec<Event>)
        requires
            old(self).wf(),
        ensures
            final(self).wf(),
            !matured(old(self), n) ==> *final(self) == *old(self) && r@.len() == 0,
            matured(old(self), n) ==> resolved(old(self), final(self), n, (draw % 100) as u8) && r@
                == resolution_events(old(self), (draw % 100) as u8),
    {
        let round = self.round;
        let c = match self.lotteries.get(&round) {
            Some(c) => *c,
            None => {
                return Vec::new();
            },
        };
        if c.start.saturating_add(c.length).saturating_add(c.delay) > n {
            return Vec::new();
        }
        let ghost s0 = *old(self);
        let number = (draw % 100) as u8;
        let pkey = pool_key_of(round, number);
        let pool: Vec<AccountId> = match self.participants.remove(&pkey) {
            Some(v) => v,
            None => Vec::new(),
        };
        assert(pool@ == s0.pool(round, number));
        self.winners.insert(round, pool);
        let next = round + 1;
        self.round = next;
        let mut events: Vec<Event> = Vec::new();
        events.push(Event::RandomNumberGenerated { round, number });
        if c.repeat && next < u32::MAX {
            self.lotteries.insert(
                next,
                LotteryConfig {
                    min_price: c.min_price,
                    start: n,
                    length: c.length,
                    delay: c.delay,
                    rate: c.rate,
                    repeat: c.repeat,
                },
            );
            events.push(Event::RoundStarted { round: next });
        }
        proof {
            assert forall|x: u32, m: u8|
                !(x == round && m == number) implies #[trigger] self.pool(x, m) == s0.pool(x, m) by {
                assert(pool_key(x, m) != pool_key(round, number));
            }
            assert forall|x: u32, m: u8| #[trigger] self.pool(x, m).len() <= self.max_set by {
                assert(s0.pool(x, m).len() <= s0.max_set);
            }
            assert forall|x: u32, m: u8| #[trigger] self.pool(x, m).no_duplicates() by {
                assert(s0.pool(x, m).no_duplicates());
            }
            assert forall|x: u32| #[trigger] self.winners_of(x).no_duplicates() by {
                assert(s0.winners_of(x).no_duplicates());
                assert(s0.pool(round, number).no_duplicates());
            }
            assert forall|x: u32| x > self.current_round() implies #[trigger] self.config(x) is None by {
                assert(s0.config(x) is None);
            }
            assert(s0.config(u32::MAX) is None);
            assert(events@ =~= resolution_events(&s0, number));
        }
        events
    }

    /// The number drawn for `round`: the random number for that seed modulo
    /// one hundred.
    pub fn random_number<R: Randomness>(&self, rng: &R, round: u32) -> (r: u8)
        ensures
            r == (drawn(rng, self.pallet_id()@, round) % 100) as u8,
            r < NUMBER_RANGE,
    {
        let draw = generate_random_number(rng, self.pallet_id, round);
        (draw % 100) as u8
    }

    /// The per-block hook: at height `n`, resolves the current round with a
    /// number drawn from `rng` once the round has matured. Before that
    /// nothing is drawn and nothing changes.
    pub fn on_initialize<R: Randomness>(&mut self, n: BlockNumber, rng: &R) -> (r: Vec<Event>)
        requires
            old(self).wf(),
        ensures
            final(self).wf(),
            !matured(old(self), n) ==> *final(self) == *old(self) && r@.len() == 0,
            matured(old(self), n) ==> ({
                let number = (drawn(rng, old(self).pallet_id()@, old(self).current_round()) % 100) as u8;
                resolved(old(self), final(self), n, number) && r@ == resolution_events(
                    old(self),
                    number,
                )
            }),
    {
        let round = self.round;
        let matured_now: bool = match self.lotteries.get(&round) {
            Some(c) => c.start.saturating_add(c.length).saturating_add(c.delay) <= n,
            None => false,
        };
        if !matured_now {
            return Vec::new();
        }
        let draw = generate_random_number(rng, self.pallet_id, round);
        let ghost s0 = *old(self);
        let events = self.resolve_round(n, draw);
        let ghost number = (draw % 100) as u8;
        assert(number < NUMBER_RANGE && resolved(&s0, self, n, number) && events@ == resolution_events(
            &s0,
            number,
        ));
        events
    }

    /// Pays `who` for its stake on `number` in `round` when it is a pending
    /// winner of that round (see `claim_outcome`).
    pub fn claim_reward(&mut self, who: AccountId, round: u32, number: u8, ledger: &mut Ledger) -> (r:
        Result<Event, Error>)
        requires
            old(self).wf(),
        ensures
            final(self).wf(),
            final(ledger).minimum() == old(ledger).minimum(),
            claim_outcome(
                old(self),
                final(self),
                old(ledger).book(),
                final(ledger).book(),
                old(ledger).minimum(),
                who,
                round,
                number,
                r,
            ),
    {
        let listed: bool = match self.winners.get(&round) {
            Some(v) => contains_account(v.as_slice(), who),
            None => false,
        };
        if !listed {
            return Err(Error::InvalidCall);
        }
        let amount = self.user_prediction_value(round, who, number);
        let rate = match self.lotteries.get(&round) {
            Some(c) => c.rate,
            None => {
                return Err(Error::NotConfigured);
            },
        };
        let reward = saturating_mul(amount, rate as u128);
        let pot = self.account_id();
        match ledger.transfer(pot, who, reward, true) {
            Ok(()) => {
                let ghost s0 = *old(self);
                let list: Vec<AccountId> = match self.winners.remove(&round) {
                    Some(v) => v,
                    None => Vec::new(),
                };
                assert(list@ == s0.winners_of(round));
                let rest = remove_account(list.as_slice(), who);
                self.winners.insert(round, rest);
                proof {
                    lemma_without_no_duplicates(s0.winners_of(round), who);
                    assert forall|x: u32, m: u8| #[trigger] self.pool(x, m).len() <= self.max_set by {
                        assert(s0.pool(x, m).len() <= s0.max_set);
                    }
                    assert forall|x: u32, m: u8| #[trigger] self.pool(x, m).no_duplicates() by {
                        assert(s0.pool(x, m).no_duplicates());
                    }
                    assert forall|x: u32| #[trigger] self.winners_of(x).no_duplicates() by {
                        assert(s0.winners_of(x).no_duplicates());
                    }
                    assert forall|x: u32| x > self.current_round() implies #[trigger] self.config(x) is None by {
                        assert(s0.config(x) is None);
                    }
                    assert(s0.config(u32::MAX) is None);
                }
                Ok(Event::RewardClaimed { round, who, amount: reward })
            },
            Err(e) => Ok(Event::RewardClaimedFailed { round, who, amount: reward, error: e }),
        }
    }

    /// The escrow account of the rounds.
    pub fn account_id(&self) -> (r: AccountId)
        ensures
            r == self.pot(),
    {
        pot_account(self.pallet_id)
    }

    /// The round that takes stakes, or awaits its configuration.
    pub fn round(&self) -> (r: u32)
        ensures
            r == self.current_round(),
    {
        self.round
    }

    /// The configuration of `round`.
    pub fn lottery(&self, round: u32) -> (r: Option<LotteryConfig>)
        ensures
            r == self.config(round),
    {
        match self.lotteries.get(&round) {
            Some(c) => Some(*c),
            None => None,
        }
    }

    /// What `who` staked on `number` in `round`.
    pub fn user_prediction_value(&self, round: u32, who: AccountId, number: u8) -> (r: Balance)
        ensures
            r == self.stake(round, who, number),
    {
        match self.stakes.get(&stake_key_of(round, who, number)) {
            Some(v) => *v,
            None => 0,
        }
    }

    /// Accounts staking on `number` in `round`.
    pub fn participants(&self, round: u32, number: u8) -> (r: Vec<AccountId>)
        ensures
            r@ == self.pool(round, number),
    {
        match self.participants.get(&pool_key_of(round, number)) {
            Some(v) => truncate_copy(v.as_slice(), v.len()),
            None => Vec::new(),
        }
    }
}

} // verus!
