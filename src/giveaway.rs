//! Giveaways whose winners are drawn from random values that an oracle
//! delivers per maturity height.
use std::collections::HashMap;
use vstd::prelude::*;

use crate::did;

use crate::ledger::{
    balance_in, deposit_book, pot_account, pot_account_of, transfer_book, transfer_check, Ledger, LedgerError,
};
use crate::{truncate_copy, truncated, AccountId, Balance, BlockNumber};

verus! {

broadcast use vstd::std_specs::hash::group_hash_axioms;

/// Longest giveaway name kept.
pub const MAX_NAME_LEN: usize = 128;

/// Longest oracle request identifier kept.
pub const MAX_REQUEST_ID_LEN: usize = 64;

/// Most random values kept from one oracle delivery.
pub const MAX_RESULTS: usize = 32;

/// Whether joining requires an identity vouched for by a provider.
#[derive(Clone, Copy, Debug, PartialEq, Eq, Structural)]
pub enum KYCStatus {
    Tier0,
    Tier1,
}

impl KYCStatus {
    pub fn default() -> (r: KYCStatus)
        ensures
            r == KYCStatus::Tier0,
    {
        KYCStatus::Tier0
    }
}

/// Where the randomness of a giveaway comes from.
#[derive(Clone, Copy, Debug, PartialEq, Eq, Structural)]
pub enum RandomType {
    Chainlink,
}

impl RandomType {
    pub fn default() -> (r: RandomType)
        ensures
            r == RandomType::Chainlink,
    {
        RandomType::Chainlink
    }
}

/// What a giveaway hands out.
#[derive(Clone, Copy, Debug, PartialEq, Eq, Structural)]
pub enum AssetType {
    FungibleToken,
}

impl AssetType {
    pub fn default() -> (r: AssetType)
        ensures
            r == AssetType::FungibleToken,
    {
        AssetType::FungibleToken
    }
}

/// A non-fungible item, by collection and item.
#[derive(Clone, Copy, Debug, PartialEq, Eq, Structural)]
pub struct NftInfo {
    pub collection_id: u32,
    pub nft_id: u32,
}

/// An amount of a fungible asset.
#[derive(Clone, Copy, Debug, PartialEq, Eq, Structural)]
pub struct TokenInfo {
    pub asset_id: u32,
    pub amount: Balance,
}

/// The configuration of one giveaway.
pub struct GiveawayConfig {
    pub name: Vec<u8>,
    pub start: BlockNumber,
    pub end: BlockNumber,
    pub kyc: KYCStatus,
    pub random_type: RandomType,
    pub creator: AccountId,
    pub asset_type: AssetType,
    pub token: Option<TokenInfo>,
    pub max_join: u32,
}

/// A 256-bit random value, as four 64-bit limbs, least significant first.
pub type RandomValue = [u64; 4];

/// What the oracle delivered for one height.
pub struct BlockResult {
    pub request_id: Vec<u8>,
    pub results: Vec<RandomValue>,
}

/// Why a giveaway operation was refused.
#[derive(Clone, Copy, Debug, PartialEq, Eq, Structural)]
pub enum Error {
    /// Too many giveaways mature at that height.
    TooMany,
    TooManyParticipants,
    StartBlockInvalid,
    EndBlockInvalid,
    AlreadyJoined,
    CannotSetResultAgain,
    InvalidResult,
    InvalidRound,
    /// The caller is not the recorded winner.
    InvalidCall,
    GiveawayEnded,
    GiveawayNotStarted,
    UserIsNotVerified,
    /// No giveaway has that index.
    NotConfigured,
    /// Giveaway indices are exhausted.
    IndexOverflow,
    /// A fungible giveaway was created without its token.
    MissingToken,
    /// The funds could not be moved.
    Transfer(LedgerError),
}

/// What a giveaway operation reports.
pub enum Event {
    GiveawayCreated { index: u32 },
    /// `status` is false when nobody joined and the creator is recorded in
    /// place of a real winner.
    Winner { index: u32, who: AccountId, status: bool },
    Participated { index: u32, who: AccountId },
    Results { block: BlockNumber, request_id: Vec<u8>, results: Vec<RandomValue> },
    RewardClaimed { index: u32, winner: AccountId },
    /// The payout failed; the winner stays recorded and may claim again.
    RewardClaimFailed { index: u32, winner: AccountId, error: LedgerError },
}

/// The provider whose vouching admits to a giveaway that requires identity.
pub open spec fn identity_provider() -> Seq<u8> {
    seq![0x46u8, 0x72u8, 0x61u8, 0x63u8, 0x74u8, 0x61u8, 0x6cu8]
}

fn identity_provider_name() -> (r: Vec<u8>)
    ensures
        r@ == identity_provider(),
{
    let r: Vec<u8> = vec![0x46u8, 0x72u8, 0x61u8, 0x63u8, 0x74u8, 0x61u8, 0x6cu8];
    assert(r@ =~= identity_provider());
    r
}

/// The book after an empty pot is topped up with `deposit`; a pot that
/// holds anything is left as it is.
pub open spec fn funded_book(
    book: Map<AccountId, Balance>,
    pot: AccountId,
    deposit: Balance,
    minimum: Balance,
) -> Map<AccountId, Balance> {
    if balance_in(book, pot) == 0 {
        deposit_book(book, pot, deposit, minimum)
    } else {
        book
    }
}

/// Storage key of the participant with sequence number `seq` in giveaway
/// `index`.
pub open spec fn slot_key(index: u32, seq: u32) -> u64 {
    (index * 0x1_0000_0000 + seq) as u64
}

fn slot_key_of(index: u32, seq: u32) -> (r: u64)
    ensures
        r == slot_key(index, seq),
{
    (index as u64) * 0x1_0000_0000 + (seq as u64)
}

/// Storage key that marks `who` as having joined giveaway `index`.
pub open spec fn join_key(index: u32, who: AccountId) -> u128 {
    (index * 0x1_0000_0000_0000_0000 + who) as u128
}

fn join_key_of(index: u32, who: AccountId) -> (r: u128)
    ensures
        r == join_key(index, who),
{
    (index as u128) * 0x1_0000_0000_0000_0000 + (who as u128)
}

/// The low 32 bits of a random value.
pub open spec fn low_u32(v: RandomValue) -> u32 {
    (v@[0] % 0x1_0000_0000) as u32
}

/// Position of the winner among `count` participants for the random value
/// `v`: the value modulo `count`, where a remainder of zero selects the last
/// participant and any other remainder `i` the participant at `i - 1`.
pub open spec fn winner_position(v: RandomValue, count: u32) -> u32 {
    let i = low_u32(v) % count;
    if i == 0 {
        (count - 1) as u32
    } else {
        (i - 1) as u32
    }
}

/// Computes the position of the winner among `count > 0` participants.
pub fn winner_position_of(v: RandomValue, count: u32) -> (r: u32)
    requires
        count > 0,
    ensures
        r == winner_position(v, count),
        r < count,
{
    let low = (v[0] % 0x1_0000_0000) as u32;
    let i = low % count;
    if i == 0 {
        count - 1
    } else {
        i - 1
    }
}

/// Giveaways, their participants, and their winners.
pub struct Pallet {
    pallet_id: [u8; 8],
    pot_deposit: Balance,
    max_set: u32,
    index: u32,
    giveaways: HashMap<u32, GiveawayConfig>,
    participants: HashMap<u64, AccountId>,
    totals: HashMap<u32, u32>,
    joined: HashMap<u128, bool>,
    queued: HashMap<BlockNumber, Vec<u32>>,
    results: HashMap<BlockNumber, BlockResult>,
    winners: HashMap<u32, AccountId>,
}

impl Pallet {
    pub closed spec fn configs(&self) -> Map<u32, GiveawayConfig> {
        self.giveaways@
    }

    /// Index the next giveaway receives.
    pub closed spec fn next_index(&self) -> u32 {
        self.index
    }

    /// Escrow account of the giveaways.
    pub closed spec fn pot(&self) -> AccountId {
        pot_account_of(self.pallet_id@) as AccountId
    }

    /// Amount minted into the pot when a giveaway is created.
    pub closed spec fn deposit(&self) -> Balance {
        self.pot_deposit
    }

    /// Most giveaways that may mature at one height.
    pub closed spec fn capacity(&self) -> u32 {
        self.max_set
    }

    /// Number of participants of giveaway `i`.
    pub closed spec fn total(&self, i: u32) -> u32 {
        if self.totals@.contains_key(i) {
            self.totals@[i]
        } else {
            0
        }
    }

    /// The participant with sequence number `s` in giveaway `i`.
    pub closed spec fn participant(&self, i: u32, s: u32) -> Option<AccountId> {
        if self.participants@.contains_key(slot_key(i, s)) {
            Some(self.participants@[slot_key(i, s)])
        } else {
            None
        }
    }

    /// Whether `who` joined giveaway `i`.
    pub closed spec fn has_joined(&self, i: u32, who: AccountId) -> bool {
        self.joined@.contains_key(join_key(i, who)) && self.joined@[join_key(i, who)]
    }

    /// Giveaways that mature at height `b`, in order of creation.
    pub closed spec fn queued_at(&self, b: BlockNumber) -> Seq<u32> {
        if self.queued@.contains_key(b) {
            self.queued@[b]@
        } else {
            Seq::empty()
        }
    }

    /// Whether the oracle already delivered for height `b`.
    pub closed spec fn has_result(&self, b: BlockNumber) -> bool {
        self.results@.contains_key(b)
    }

    /// The delivery stored for height `b`.
    pub closed spec fn result_at(&self, b: BlockNumber) -> BlockResult {
        self.results@[b]
    }

    /// The recorded winner of giveaway `i` that has not been paid yet.
    pub closed spec fn winner(&self, i: u32) -> Option<AccountId> {
        if self.winners@.contains_key(i) {
            Some(self.winners@[i])
        } else {
            None
        }
    }

    /// The storage is consistent: the capacity fits one oracle delivery,
    /// every participant slot below a count is filled, no height holds more
    /// giveaways than the capacity or one giveaway twice, every queued
    /// giveaway is configured and below the next index, and every configured
    /// giveaway has a token.
    pub open spec fn wf(&self) -> bool {
        &&& self.capacity() <= MAX_RESULTS
        &&& forall|i: u32, s: u32| s < self.total(i) ==> #[trigger] self.participant(i, s) is Some
        &&& forall|b: BlockNumber| #[trigger] self.queued_at(b).len() <= self.capacity()
        &&& forall|b: BlockNumber| #[trigger] self.queued_at(b).no_duplicates()
        &&& forall|b: BlockNumber, k: int|
            0 <= k < self.queued_at(b).len() ==> self.configs().contains_key(
                #[trigger] self.queued_at(b)[k],
            ) && self.queued_at(b)[k] < self.next_index()
        &&& forall|i: u32| #[trigger]
            self.configs().contains_key(i) ==> self.configs()[i].token is Some
    }

    /// Who is recorded for giveaway `g` when the random value `v` arrives:
    /// the participant at the winner position and `true`, or, when nobody
    /// joined, the creator and `false`.
    pub open spec fn resolution(&self, g: u32, v: RandomValue) -> (AccountId, bool) {
        if self.total(g) != 0 {
            (self.participant(g, winner_position(v, self.total(g))).unwrap(), true)
        } else {
            (self.configs()[g].creator, false)
        }
    }

    /// Who is recorded for a giveaway depends on nothing but the stored
    /// state and the random value: two identical states resolve alike.
    pub proof fn lemma_delivery_deterministic(first: &Pallet, second: &Pallet, g: u32, v: RandomValue)
        requires
            first == second,
        ensures
            first.resolution(g, v) == second.resolution(g, v),
    {
    }

    /// With participants, the winner is the participant at the position the
    /// random value selects; without any, the creator is recorded in place
    /// of a real winner.
    pub proof fn lemma_resolution(&self, g: u32, v: RandomValue)
        requires
            self.wf(),
            self.configs().contains_key(g),
        ensures
            self.total(g) > 0 ==> winner_position(v, self.total(g)) < self.total(g) && Some(
                self.resolution(g, v).0,
            ) == self.participant(g, winner_position(v, self.total(g))) && self.resolution(g, v).1,
            self.total(g) == 0 ==> self.resolution(g, v) == (self.configs()[g].creator, false),
    {
        if self.total(g) > 0 {
            assert(self.participant(g, winner_position(v, self.total(g))) is Some);
        }
    }

    /// Whether `who` may create a giveaway from `start_block` to `end_block`
    /// with `token` at height `now` against the book `book`, and else why
    /// not.
    pub open spec fn create_check(
        &self,
        book: Map<AccountId, Balance>,
        minimum: Balance,
        who: AccountId,
        start_block: BlockNumber,
        end_block: BlockNumber,
        token: Option<TokenInfo>,
        now: BlockNumber,
    ) -> Result<(), Error> {
        if now >= start_block {
            Err(Error::StartBlockInvalid)
        } else if end_block <= start_block {
            Err(Error::EndBlockInvalid)
        } else if self.next_index() == u32::MAX {
            Err(Error::IndexOverflow)
        } else if self.queued_at(end_block).len() >= self.capacity() {
            Err(Error::TooMany)
        } else if token is None {
            Err(Error::MissingToken)
        } else {
            match transfer_check(
                funded_book(book, self.pot(), self.deposit(), minimum),
                who,
                self.pot(),
                token.unwrap().amount,
                minimum,
                true,
            ) {
                Ok(_) => Ok(()),
                Err(e) => Err(Error::Transfer(e)),
            }
        }
    }

    /// Whether `who` may join giveaway `index` at height `now`, and else why
    /// not.
    pub open spec fn participate_check(
        &self,
        registry: &did::Pallet,
        who: AccountId,
        index: u32,
        now: BlockNumber,
    ) -> Result<(), Error> {
        if !self.configs().contains_key(index) {
            Err(Error::NotConfigured)
        } else {
            let c = self.configs()[index];
            if c.end < now {
                Err(Error::GiveawayEnded)
            } else if c.start > now {
                Err(Error::GiveawayNotStarted)
            } else if c.kyc == KYCStatus::Tier1 && registry.external_id_of(
                who,
                identity_provider(),
            ).len() == 0 {
                Err(Error::UserIsNotVerified)
            } else if self.has_joined(index, who) {
                Err(Error::AlreadyJoined)
            } else if self.total(index) >= c.max_join {
                Err(Error::TooManyParticipants)
            } else {
                Ok(())
            }
        }
    }

    /// What a claim by `who` for giveaway `round` returns against the book
    /// `book`.
    pub open spec fn claim_result(
        &self,
        book: Map<AccountId, Balance>,
        minimum: Balance,
        who: AccountId,
        round: u32,
    ) -> Result<Event, Error> {
        if !self.configs().contains_key(round) || self.winner(round) is None {
            Err(Error::InvalidRound)
        } else if self.winner(round).unwrap() != who {
            Err(Error::InvalidCall)
        } else {
            let amount = self.configs()[round].token.unwrap().amount;
            match transfer_check(book, self.pot(), who, amount, minimum, true) {
                Ok(_) => Ok(Event::RewardClaimed { index: round, winner: who }),
                Err(e) => Ok(Event::RewardClaimFailed { index: round, winner: who, error: e }),
            }
        }
    }

    /// A paid reward is not paid twice: a successful claim removes the
    /// winner record, and a claim on a round without one is refused with
    /// `InvalidRound`, whoever makes it and whatever the book holds.
    pub proof fn lemma_claim_pays_once(
        &self,
        book: Map<AccountId, Balance>,
        minimum: Balance,
        who: AccountId,
        round: u32,
    )
        requires
            self.winner(round) is None,
        ensures
            self.claim_result(book, minimum, who, round) == Err::<Event, Error>(Error::InvalidRound),
    {
    }

    /// An empty registry of giveaways paid from the pot identified by
    /// `pallet_id`. At most `max_set` giveaways, and never more than one
    /// oracle delivery holds values, mature at one height.
    pub fn new(pallet_id: [u8; 8], pot_deposit: Balance, max_set: u32) -> (r: Pallet)
        ensures
            r.wf(),
            r.next_index() == 0,
            r.pot() == pot_account_of(pallet_id@),
            r.deposit() == pot_deposit,
            r.capacity() == (if max_set as usize <= MAX_RESULTS {
                max_set
            } else {
                MAX_RESULTS as u32
            }),
            r.configs() == Map::<u32, GiveawayConfig>::empty(),
            forall|i: u32| #[trigger] r.total(i) == 0,
            forall|i: u32| #[trigger] r.winner(i) is None,
            forall|b: BlockNumber| #[trigger] r.queued_at(b).len() == 0,
            forall|b: BlockNumber| !#[trigger] r.has_result(b),
    {
        let max_set: u32 = if max_set as usize <= MAX_RESULTS {
            max_set
        } else {
            MAX_RESULTS as u32
        };
        Pallet {
            pallet_id,
            pot_deposit,
            max_set,
            index: 0,
            giveaways: HashMap::new(),
            participants: HashMap::new(),
            totals: HashMap::new(),
            joined: HashMap::new(),
            queued: HashMap::new(),
            results: HashMap::new(),
            winners: HashMap::new(),
        }
    }

    /// Everything but the winners, the oracle deliveries and the queues is
    /// the same in `self` and `other`.
    pub open spec fn same_entries(&self, other: &Pallet) -> bool {
        &&& self.pot() == other.pot()
        &&& self.deposit() == other.deposit()
        &&& self.capacity() == other.capacity()
        &&& self.next_index() == other.next_index()
        &&& self.configs() == other.configs()
        &&& forall|i: u32| #[trigger] self.total(i) == other.total(i)
        &&& forall|i: u32, s: u32| #[trigger] self.participant(i, s) == other.participant(i, s)
        &&& forall|i: u32, a: AccountId| #[trigger] self.has_joined(i, a) == other.has_joined(i, a)
    }

    /// Number of participants of giveaway `i`.
    pub fn total_participants(&self, i: u32) -> (r: u32)
        ensures
            r == self.total(i),
    {
        match self.totals.get(&i) {
            Some(t) => *t,
            None => 0,
        }
    }

    /// Takes the oracle's delivery for the past height `block`: one random
    /// value per giveaway that matures there, in queue order. Each such
    /// giveaway gets its winner recorded (see `resolution`), the delivery is
    /// stored, and the queue of that height is emptied. A delivery is taken
    /// once per height, only for a past height, and only when it holds as
    /// many values as giveaways are queued; otherwise nothing changes.
    pub fn set_block_result(
        &mut self,
        block: BlockNumber,
        request_id: Vec<u8>,
        result: Vec<RandomValue>,
        now: BlockNumber,
    ) -> (r: Result<Vec<Event>, Error>)
        requires
            old(self).wf(),
        ensures
            final(self).wf(),
            old(self).has_result(block) ==> r == Err::<Vec<Event>, Error>(
                Error::CannotSetResultAgain,
            ),
            !old(self).has_result(block) && block >= now ==> r == Err::<Vec<Event>, Error>(
                Error::EndBlockInvalid,
            ),
            !old(self).has_result(block) && block < now && old(self).queued_at(block).len()
                != result@.len() ==> r == Err::<Vec<Event>, Error>(Error::InvalidResult),
            !old(self).has_result(block) && block < now && old(self).queued_at(block).len()
                == result@.len() ==> r is Ok,
            r is Err ==> *final(self) == *old(self),
            r is Ok ==> ({
                let gs = old(self).queued_at(block);
                &&& final(self).same_entries(old(self))
                &&& final(self).has_result(block)
                &&& final(self).result_at(block).request_id@ == truncated(
                    request_id@,
                    MAX_REQUEST_ID_LEN,
                )
                &&& final(self).result_at(block).results@ == result@
                &&& forall|b: BlockNumber|
                    b != block ==> #[trigger] final(self).has_result(b) == old(self).has_result(b)
                &&& forall|b: BlockNumber|
                    b != block ==> #[trigger] final(self).result_at(b) == old(self).result_at(b)
                &&& final(self).queued_at(block).len() == 0
                &&& forall|b: BlockNumber|
                    b != block ==> #[trigger] final(self).queued_at(b) == old(self).queued_at(b)
                &&& forall|j: int|
                    0 <= j < gs.len() ==> #[trigger] final(self).winner(gs[j]) == Some(
                        old(self).resolution(gs[j], result@[j]).0,
                    )
                &&& forall|g: u32| !gs.contains(g) ==> #[trigger] final(self).winner(g) == old(
                    self,
                ).winner(g)
            }),
            r matches Ok(evs) ==> ({
                let gs = old(self).queued_at(block);
                &&& evs@.len() == gs.len() + 1
                &&& forall|j: int|
                    0 <= j < gs.len() ==> #[trigger] evs@[j] == (Event::Winner {
                        index: gs[j],
                        who: old(self).resolution(gs[j], result@[j]).0,
                        status: old(self).resolution(gs[j], result@[j]).1,
                    })
                &&& evs@[gs.len() as int] matches Event::Results {
                    block: b,
                    request_id: q,
                    results: rs,
                } && b == block && q@ == truncated(request_id@, MAX_REQUEST_ID_LEN) && rs@ == result@
            }),
    {
        if self.results.contains_key(&block) {
            return Err(Error::CannotSetResultAgain);
        }
        if block >= now {
            return Err(Error::EndBlockInvalid);
        }
        let queued_len: usize = match self.queued.get(&block) {
            Some(v) => v.len(),
            None => 0,
        };
        if queued_len != result.len() {
            return Err(Error::InvalidResult);
        }
        let ghost s0 = *old(self);
        let values = truncate_copy(result.as_slice(), MAX_RESULTS);
        assert(values@ == result@);
        let gs: Vec<u32> = match self.queued.remove(&block) {
            Some(v) => v,
            None => Vec::new(),
        };
        assert(gs@ == s0.queued_at(block));
        let n: usize = if gs.len() <= values.len() {
            gs.len()
        } else {
            values.len()
        };
        let mut events: Vec<Event> = Vec::new();
        let mut k: usize = 0;
        while k < n
            invariant
                s0.wf(),
                0 <= k <= n,
                n <= gs@.len(),
                n <= values@.len(),
                gs@ == s0.queued_at(block),
                values@ == truncated(result@, MAX_RESULTS),
                self.giveaways@ == s0.giveaways@,
                self.participants@ == s0.participants@,
                self.totals@ == s0.totals@,
                self.joined@ == s0.joined@,
                self.results@ == s0.results@,
                self.queued@ == s0.queued@.remove(block),
                self.index == s0.index,
                self.pallet_id == s0.pallet_id,
                self.pot_deposit == s0.pot_deposit,
                self.max_set == s0.max_set,
                values@ == result@,
                n == gs@.len(),
                gs@.no_duplicates(),
                forall|j: int|
                    0 <= j < k ==> #[trigger] self.winner(gs@[j]) == Some(
                        s0.resolution(gs@[j], values@[j]).0,
                    ),
                forall|g: u32|
                    !gs@.subrange(0, k as int).contains(g) ==> #[trigger] self.winner(g) == s0.winner(
                        g,
                    ),
                events@.len() == k,
                forall|j: int|
                    0 <= j < k ==> #[trigger] events@[j] == (Event::Winner {
                        index: gs@[j],
                        who: s0.resolution(gs@[j], values@[j]).0,
                        status: s0.resolution(gs@[j], values@[j]).1,
                    }),
            decreases n - k,
        {
            let g = gs[k];
            let v = values[k];
            let ghost before = *self;
            let count = self.total_participants(g);
            assert(count == s0.total(g));
            if count != 0 {
                let pos = winner_position_of(v, count);
                assert(s0.participant(g, pos) is Some);
                let key = slot_key_of(g, pos);
                let winner = *self.participants.get(&key).unwrap();
                self.winners.insert(g, winner);
                events.push(Event::Winner { index: g, who: winner, status: true });
            } else {
                assert(self.giveaways@.contains_key(s0.queued_at(block)[k as int]));
                let creator = self.giveaways.get(&g).unwrap().creator;
                self.winners.insert(g, creator);
                events.push(Event::Winner { index: g, who: creator, status: false });
            }
            proof {
                assert forall|j: int| 0 <= j < k + 1 implies #[trigger] self.winner(gs@[j]) == Some(
                    s0.resolution(gs@[j], values@[j]).0,
                ) by {
                    if j < k {
                        assert(gs@[j] != gs@[k as int]);
                        assert(before.winner(gs@[j]) == Some(s0.resolution(gs@[j], values@[j]).0));
                    }
                }
                assert forall|x: u32| !gs@.subrange(0, k + 1).contains(x) implies #[trigger] self.winner(x)
                    == s0.winner(x) by {
                    assert(gs@.subrange(0, k + 1)[k as int] == gs@[k as int]);
                    if gs@.subrange(0, k as int).contains(x) {
                        let t = choose|t: int| 0 <= t < k && gs@.subrange(0, k as int)[t] == x;
                        assert(gs@.subrange(0, k + 1)[t] == x);
                    }
                    assert(before.winner(x) == s0.winner(x));
                }
            }
            k = k + 1;
        }
        assert(gs@.subrange(0, n as int) =~= gs@);
        let ghost resolved = *self;
        let stored = truncate_copy(values.as_slice(), values.len());
        assert(stored@ =~= values@);
        let request_bounded = truncate_copy(request_id.as_slice(), MAX_REQUEST_ID_LEN);
        let request_copy = truncate_copy(request_bounded.as_slice(), MAX_REQUEST_ID_LEN);
        self.results.insert(block, BlockResult { request_id: request_copy, results: stored });
        events.push(Event::Results { block, request_id: request_bounded, results: values });
        proof {
            assert(forall|b: BlockNumber| b != block ==> #[trigger] self.queued_at(b) == s0.queued_at(b));
            assert(self.queued_at(block).len() == 0);
            assert forall|i: u32, s: u32| s < self.total(i) implies #[trigger] self.participant(i, s) is Some by {
                assert(s0.participant(i, s) is Some);
            }
            assert forall|b: BlockNumber| #[trigger] self.queued_at(b).len() <= self.max_set by {
                assert(s0.queued_at(b).len() <= s0.max_set);
            }
            assert forall|b: BlockNumber| #[trigger] self.queued_at(b).no_duplicates() by {
                assert(s0.queued_at(b).no_duplicates());
            }
            assert forall|b: BlockNumber, j: int|
                0 <= j < self.queued_at(b).len() implies self.configs().contains_key(
                #[trigger] self.queued_at(b)[j],
            ) && self.queued_at(b)[j] < self.next_index() by {
                assert(s0.configs().contains_key(s0.queued_at(b)[j]));
            }
            assert forall|b: BlockNumber|
                b != block implies #[trigger] self.result_at(b) == s0.result_at(b) by {}
            assert forall|j: int| 0 <= j < gs@.len() implies #[trigger] self.winner(gs@[j]) == Some(
                s0.resolution(gs@[j], result@[j]).0,
            ) by {
                assert(resolved.winner(gs@[j]) == Some(s0.resolution(gs@[j], values@[j]).0));
            }
            assert forall|x: u32| !gs@.contains(x) implies #[trigger] self.winner(x) == s0.winner(x) by {
                assert(resolved.winner(x) == s0.winner(x));
            }
        }
        Ok(events)
    }

    /// The creator `who` opens a giveaway running from `start_block` to
    /// `end_block` and escrows the token amount in the pot, which is first
    /// topped up with the pot deposit when it is empty. The giveaway takes
    /// the next index and is queued for resolution at `end_block`. It must
    /// start after `now`, end after it starts, find an index left, find room
    /// in the queue of its end height and carry a token; the transfer of the
    /// token amount must succeed. Otherwise nothing changes.
    pub fn create_give_away(
        &mut self,
        who: AccountId,
        name: Vec<u8>,
        start_block: BlockNumber,
        end_block: BlockNumber,
        kyc: KYCStatus,
        random_type: RandomType,
        asset_type: AssetType,
        token: Option<TokenInfo>,
        max_join: u32,
        now: BlockNumber,
        ledger: &mut Ledger,
    ) -> (r: Result<Event, Error>)
        requires
            old(self).wf(),
        ensures
            final(self).wf(),
            final(ledger).minimum() == old(ledger).minimum(),
            ({
                let chk = old(self).create_check(
                    old(ledger).book(),
                    old(ledger).minimum(),
                    who,
                    start_block,
                    end_block,
                    token,
                    now,
                );
                &&& (chk is Ok ==> r == Ok::<Event, Error>(
                    Event::GiveawayCreated { index: old(self).next_index() },
                ))
                &&& (chk matches Err(e) ==> r == Err::<Event, Error>(e))
            }),
            r is Ok ==> final(ledger).book() == transfer_book(
                funded_book(old(ledger).book(), old(self).pot(), old(self).deposit(), old(ledger).minimum()),
                who,
                old(self).pot(),
                token.unwrap().amount,
            ),
            r is Err ==> *final(self) == *old(self) && final(ledger).book() == old(ledger).book(),
            r is Ok ==> ({
                let i = old(self).next_index();
                let c = final(self).configs()[i];
                &&& final(self).configs() == old(self).configs().insert(i, c)
                &&& c.name@ == truncated(name@, MAX_NAME_LEN)
                &&& c.start == start_block && c.end == end_block && c.kyc == kyc
                &&& c.random_type == random_type && c.creator == who && c.asset_type == asset_type
                &&& c.token == token && c.max_join == max_join
                &&& final(self).next_index() == i + 1
                &&& final(self).queued_at(end_block) == old(self).queued_at(end_block).push(i)
                &&& forall|b: BlockNumber|
                    b != end_block ==> #[trigger] final(self).queued_at(b) == old(self).queued_at(b)
                &&& forall|g: u32| #[trigger] final(self).total(g) == old(self).total(g)
                &&& forall|g: u32, s: u32| #[trigger]
                    final(self).participant(g, s) == old(self).participant(g, s)
                &&& forall|g: u32| #[trigger] final(self).winner(g) == old(self).winner(g)
                &&& forall|b: BlockNumber| #[trigger]
                    final(self).has_result(b) == old(self).has_result(b)
                &&& forall|b: BlockNumber| #[trigger]
                    final(self).result_at(b) == old(self).result_at(b)
                &&& forall|g: u32, a: AccountId| #[trigger]
                    final(self).has_joined(g, a) == old(self).has_joined(g, a)
                &&& final(self).pot() == old(self).pot()
                &&& final(self).deposit() == old(self).deposit()
                &&& final(self).capacity() == old(self).capacity()
            }),
    {
        if now >= start_block {
            return Err(Error::StartBlockInvalid);
        }
        if end_block <= start_block {
            return Err(Error::EndBlockInvalid);
        }
        if self.index == u32::MAX {
            return Err(Error::IndexOverflow);
        }
        let queued_len: usize = match self.queued.get(&end_block) {
            Some(v) => v.len(),
            None => 0,
        };
        if queued_len >= self.max_set as usize {
            return Err(Error::TooMany);
        }
        let token_info = match token {
            Some(t) => t,
            None => {
                return Err(Error::MissingToken);
            },
        };
        let pot = self.account_id();
        let saved = ledger.snapshot();
        if ledger.total_balance(pot) == 0 {
            ledger.deposit_creating(pot, self.pot_deposit);
        }
        match ledger.transfer(who, pot, token_info.amount, true) {
            Ok(()) => {},
            Err(e) => {
                *ledger = saved;
                return Err(Error::Transfer(e));
            },
        }
        let ghost s0 = *old(self);
        let index = self.index;
        self.index = index + 1;
        let name_bounded = truncate_copy(name.as_slice(), MAX_NAME_LEN);
        self.giveaways.insert(
            index,
            GiveawayConfig {
                name: name_bounded,
                start: start_block,
                end: end_block,
                kyc,
                random_type,
                creator: who,
                asset_type,
                token,
                max_join,
            },
        );
        let mut queue: Vec<u32> = match self.queued.remove(&end_block) {
            Some(v) => v,
            None => Vec::new(),
        };
        assert(queue@ == s0.queued_at(end_block));
        queue.push(index);
        self.queued.insert(end_block, queue);
        proof {
            assert(self.queued_at(end_block) == s0.queued_at(end_block).push(index));
            assert(forall|b: BlockNumber|
                b != end_block ==> #[trigger] self.queued_at(b) == s0.queued_at(b));
            assert(self.configs() =~= s0.configs().insert(index, self.configs()[index]));
            assert forall|i: u32, s: u32| s < self.total(i) implies #[trigger] self.participant(i, s) is Some by {
                assert(s0.participant(i, s) is Some);
            }
            assert forall|b: BlockNumber| #[trigger] self.queued_at(b).len() <= self.max_set by {
                assert(s0.queued_at(b).len() <= s0.max_set);
            }
            assert forall|b: BlockNumber| #[trigger] self.queued_at(b).no_duplicates() by {
                assert(s0.queued_at(b).no_duplicates());
                if b == end_block {
                    let q = s0.queued_at(end_block);
                    assert forall|x: int, y: int|
                        0 <= x < y < q.len() + 1 implies self.queued_at(b)[x] != self.queued_at(b)[y] by {
                        if y == q.len() {
                            assert(q[x] < s0.next_index());
                        }
                    }
                }
            }
            assert forall|b: BlockNumber, j: int|
                0 <= j < self.queued_at(b).len() implies self.configs().contains_key(
                #[trigger] self.queued_at(b)[j],
            ) && self.queued_at(b)[j] < self.next_index() by {
                if b != end_block || j < s0.queued_at(end_block).len() {
                    assert(s0.configs().contains_key(s0.queued_at(b)[j]));
                }
            }
        }
        Ok(Event::GiveawayCreated { index })
    }

    /// `who` joins giveaway `index` at height `now` and receives the next
    /// sequence number. The giveaway must exist and be running, an identity
    /// must be vouched for when the giveaway asks for one, `who` must not
    /// have joined yet, and the giveaway must have room. Otherwise nothing
    /// changes.
    pub fn participate(&mut self, who: AccountId, index: u32, now: BlockNumber, registry: &did::Pallet) -> (r:
        Result<Event, Error>)
        requires
            old(self).wf(),
        ensures
            final(self).wf(),
            r == (match old(self).participate_check(registry, who, index, now) {
                Ok(_) => Ok::<Event, Error>(Event::Participated { index, who }),
                Err(e) => Err::<Event, Error>(e),
            }),
            r is Err ==> *final(self) == *old(self),
            r is Ok ==> ({
                let t = old(self).total(index);
                &&& final(self).participant(index, t) == Some(who)
                &&& final(self).total(index) == t + 1
                &&& final(self).has_joined(index, who)
                &&& forall|g: u32, s: u32|
                    !(g == index && s == t) ==> #[trigger] final(self).participant(g, s) == old(
                        self,
                    ).participant(g, s)
                &&& forall|g: u32| g != index ==> #[trigger] final(self).total(g) == old(self).total(g)
                &&& forall|g: u32, a: AccountId|
                    !(g == index && a == who) ==> #[trigger] final(self).has_joined(g, a) == old(
                        self,
                    ).has_joined(g, a)
                &&& final(self).configs() == old(self).configs()
                &&& forall|g: u32| #[trigger] final(self).winner(g) == old(self).winner(g)
                &&& forall|b: BlockNumber| #[trigger]
                    final(self).queued_at(b) == old(self).queued_at(b)
                &&& forall|b: BlockNumber| #[trigger]
                    final(self).has_result(b) == old(self).has_result(b)
                &&& forall|b: BlockNumber| #[trigger]
                    final(self).result_at(b) == old(self).result_at(b)
                &&& final(self).pot() == old(self).pot()
                &&& final(self).deposit() == old(self).deposit()
                &&& final(self).capacity() == old(self).capacity()
                &&& final(self).next_index() == old(self).next_index()
            }),
    {
        let (end, start, kyc, max_join) = match self.giveaways.get(&index) {
            Some(c) => (c.end, c.start, c.kyc, c.max_join),
            None => {
                return Err(Error::NotConfigured);
            },
        };
        if end < now {
            return Err(Error::GiveawayEnded);
        }
        if start > now {
            return Err(Error::GiveawayNotStarted);
        }
        if kyc == KYCStatus::Tier1 {
            let provider = identity_provider_name();
            let value = registry.external_id(who, provider.as_slice());
            if value.len() == 0 {
                return Err(Error::UserIsNotVerified);
            }
        }
        let jkey = join_key_of(index, who);
        let already: bool = match self.joined.get(&jkey) {
            Some(b) => *b,
            None => false,
        };
        if already {
            return Err(Error::AlreadyJoined);
        }
        let total = self.total_participants(index);
        if total >= max_join {
            return Err(Error::TooManyParticipants);
        }
        let ghost s0 = *old(self);
        self.participants.insert(slot_key_of(index, total), who);
        self.totals.insert(index, total + 1);
        self.joined.insert(jkey, true);
        proof {
            assert forall|g: u32, s: u32|
                !(g == index && s == total) implies #[trigger] self.participant(g, s)
                == s0.participant(g, s) by {
                assert(slot_key(g, s) != slot_key(index, total));
            }
            assert forall|g: u32, a: AccountId|
                !(g == index && a == who) implies #[trigger] self.has_joined(g, a) == s0.has_joined(
                g,
                a,
            ) by {
                assert(join_key(g, a) != join_key(index, who));
            }
            assert forall|i: u32, s: u32| s < self.total(i) implies #[trigger] self.participant(i, s) is Some by {
                if !(i == index && s == total) {
                    assert(s0.participant(i, s) is Some);
                }
            }
            assert forall|b: BlockNumber| #[trigger] self.queued_at(b).len() <= self.max_set by {
                assert(s0.queued_at(b).len() <= s0.max_set);
            }
            assert forall|b: BlockNumber| #[trigger] self.queued_at(b).no_duplicates() by {
                assert(s0.queued_at(b).no_duplicates());
            }
            assert forall|b: BlockNumber, j: int|
                0 <= j < self.queued_at(b).len() implies self.configs().contains_key(
                #[trigger] self.queued_at(b)[j],
            ) && self.queued_at(b)[j] < self.next_index() by {
                assert(s0.configs().contains_key(s0.queued_at(b)[j]));
            }
        }
        Ok(Event::Participated { index, who })
    }

    /// The recorded winner `who` of giveaway `round` claims the escrowed
    /// token amount from the pot. On success the winner record is removed,
    /// so the reward is paid once. When the transfer fails the winner stays
    /// recorded, nothing changes, and the failure is reported so the claim
    /// can be made again.
    pub fn claim_reward(&mut self, who: AccountId, round: u32, ledger: &mut Ledger) -> (r: Result<
        Event,
        Error,
    >)
        requires
            old(self).wf(),
        ensures
            final(self).wf(),
            final(ledger).minimum() == old(ledger).minimum(),
            r == old(self).claim_result(old(ledger).book(), old(ledger).minimum(), who, round),
            r matches Ok(Event::RewardClaimed { .. }) ==> final(ledger).book() == transfer_book(
                old(ledger).book(),
                old(self).pot(),
                who,
                old(self).configs()[round].token.unwrap().amount,
            ),
            r matches Ok(Event::RewardClaimed { .. }) ==> ({
                &&& final(self).winner(round) is None
                &&& final(self).same_entries(old(self))
                &&& forall|g: u32| g != round ==> #[trigger] final(self).winner(g) == old(self).winner(g)
                &&& forall|b: BlockNumber| #[trigger]
                    final(self).queued_at(b) == old(self).queued_at(b)
                &&& forall|b: BlockNumber| #[trigger]
                    final(self).has_result(b) == old(self).has_result(b)
                &&& forall|b: BlockNumber| #[trigger]
                    final(self).result_at(b) == old(self).result_at(b)
            }),
            !(r matches Ok(Event::RewardClaimed { .. })) ==> *final(self) == *old(self)
                && final(ledger).book() == old(ledger).book(),
    {
        let amount = match self.giveaways.get(&round) {
            Some(c) => match c.token {
                Some(t) => t.amount,
                None => 0,
            },
            None => {
                return Err(Error::InvalidRound);
            },
        };
        let winner = match self.winners.get(&round) {
            Some(w) => *w,
            None => {
                return Err(Error::InvalidRound);
            },
        };
        if winner != who {
            return Err(Error::InvalidCall);
        }
        let pot = self.account_id();
        match ledger.transfer(pot, who, amount, true) {
            Ok(()) => {
                let ghost s0 = *old(self);
                self.winners.remove(&round);
                proof {
                    assert forall|i: u32, s: u32| s < self.total(i) implies #[trigger] self.participant(i, s) is Some by {
                        assert(s0.participant(i, s) is Some);
                    }
                    assert forall|b: BlockNumber| #[trigger] self.queued_at(b).len() <= self.max_set by {
                        assert(s0.queued_at(b).len() <= s0.max_set);
                    }
                    assert forall|b: BlockNumber| #[trigger] self.queued_at(b).no_duplicates() by {
                        assert(s0.queued_at(b).no_duplicates());
                    }
                    assert forall|b: BlockNumber, j: int|
                        0 <= j < self.queued_at(b).len() implies self.configs().contains_key(
                        #[trigger] self.queued_at(b)[j],
                    ) && self.queued_at(b)[j] < self.next_index() by {
                        assert(s0.configs().contains_key(s0.queued_at(b)[j]));
                    }
                }
                Ok(Event::RewardClaimed { index: round, winner: who })
            },
            Err(e) => Ok(Event::RewardClaimFailed { index: round, winner: who, error: e }),
        }
    }

    /// The configuration of giveaway `i`.
    pub fn give_away(&self, i: u32) -> (r: Option<&GiveawayConfig>)
        ensures
            r matches Some(c) ==> self.configs().contains_key(i) && *c == self.configs()[i],
            r is None ==> !self.configs().contains_key(i),
    {
        self.giveaways.get(&i)
    }

    /// The participant with sequence number `s` in giveaway `i`.
    pub fn participants(&self, i: u32, s: u32) -> (r: Option<AccountId>)
        ensures
            r == self.participant(i, s),
    {
        match self.participants.get(&slot_key_of(i, s)) {
            Some(a) => Some(*a),
            None => None,
        }
    }

    /// Giveaways that mature at height `b`, in order of creation.
    pub fn get_giveaways_by_block(&self, b: BlockNumber) -> (r: Vec<u32>)
        ensures
            r@ == self.queued_at(b),
    {
        match self.queued.get(&b) {
            Some(v) => truncate_copy(v.as_slice(), v.len()),
            None => Vec::new(),
        }
    }

    /// The oracle's delivery for height `b`.
    pub fn get_results_by_block(&self, b: BlockNumber) -> (r: Option<&BlockResult>)
        ensures
            r matches Some(x) ==> self.has_result(b) && *x == self.result_at(b),
            r is None ==> !self.has_result(b),
    {
        self.results.get(&b)
    }

    /// The recorded winner of giveaway `i` that has not been paid yet.
    pub fn round_winner(&self, i: u32) -> (r: Option<AccountId>)
        ensures
            r == self.winner(i),
    {
        match self.winners.get(&i) {
            Some(a) => Some(*a),
            None => None,
        }
    }

    /// Index the next giveaway receives.
    pub fn giveaway_index(&self) -> (r: u32)
        ensures
            r == self.next_index(),
    {
        self.index
    }

    /// The escrow account of the giveaways.
    pub fn account_id(&self) -> (r: AccountId)
        ensures
            r == self.pot(),
    {
        pot_account(self.pallet_id)
    }
}

} // verus!
