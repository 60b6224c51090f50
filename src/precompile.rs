//! The contract-facing entry points: they decode wide contract words into
//! amounts and codes, then hand the call to the pallets.
use vstd::prelude::*;

use crate::did;
use crate::giveaway;
use crate::giveaway::{AssetType, KYCStatus, RandomType, TokenInfo};
use crate::ledger::Ledger;
use crate::lucky_number;
use crate::{truncate_copy, truncated, AccountId, Balance, BlockNumber};

verus! {

/// A 256-bit contract word, as four 64-bit limbs, least significant first.
pub type U256 = [u64; 4];

/// The number a contract word holds.
pub open spec fn u256_value(v: U256) -> int {
    v@[0] + v@[1] * 0x1_0000_0000_0000_0000 + v@[2] * 0x1_0000_0000_0000_0000_0000_0000_0000_0000
        + v@[3] * 0x1_0000_0000_0000_0000_0000_0000_0000_0000_0000_0000_0000_0000
}

/// Why a contract call reverted.
#[derive(Clone, Copy, Debug, PartialEq, Eq, Structural)]
pub enum Revert {
    /// An amount does not fit in a balance.
    ValueTooLarge,
    Giveaway(giveaway::Error),
    LuckyNumber(lucky_number::Error),
}

/// The balance a contract word holds, when it fits.
pub fn u256_to_amount(value: U256) -> (r: Result<Balance, Revert>)
    ensures
        u256_value(value) <= u128::MAX ==> r == Ok::<Balance, Revert>(u256_value(value) as Balance),
        u256_value(value) > u128::MAX ==> r == Err::<Balance, Revert>(Revert::ValueTooLarge),
{
    if value[2] != 0 || value[3] != 0 {
        return Err(Revert::ValueTooLarge);
    }
    Ok((value[0] as u128) + (value[1] as u128) * 0x1_0000_0000_0000_0000)
}

/// The identity requirement a contract code stands for: none for zero, a
/// vouched identity for any other code.
pub open spec fn kyc_of(code: u8) -> KYCStatus {
    if code == 0 {
        KYCStatus::Tier0
    } else {
        KYCStatus::Tier1
    }
}

pub fn kyc_status_of(code: u8) -> (r: KYCStatus)
    ensures
        r == kyc_of(code),
{
    if code == 0 {
        KYCStatus::Tier0
    } else {
        KYCStatus::Tier1
    }
}

/// Contract entry points of the giveaways.
pub struct GiveawayPrecompile;

impl GiveawayPrecompile {
    /// Creates a giveaway for the contract caller `caller`, escrowing
    /// `amount` of asset `asset_id`. Any other code than zero asks for a
    /// vouched identity; every giveaway draws from the oracle and hands out
    /// a fungible token.
    pub fn create_giveaway(
        pallet: &mut giveaway::Pallet,
        ledger: &mut Ledger,
        caller: AccountId,
        name: Vec<u8>,
        start: BlockNumber,
        end: BlockNumber,
        kyc_status: u8,
        random_type: u8,
        asset_type: u8,
        asset_id: u32,
        amount: U256,
        max_join: u32,
        now: BlockNumber,
    ) -> (r: Result<(), Revert>)
        requires
            old(pallet).wf(),
        ensures
            final(pallet).wf(),
            u256_value(amount) > u128::MAX ==> r == Err::<(), Revert>(Revert::ValueTooLarge)
                && *final(pallet) == *old(pallet) && final(ledger).book() == old(ledger).book(),
            u256_value(amount) <= u128::MAX ==> ({
                let token = Some(TokenInfo { asset_id, amount: u256_value(amount) as Balance });
                let chk = old(pallet).create_check(
                    old(ledger).book(),
                    old(ledger).minimum(),
                    caller,
                    start,
                    end,
                    token,
                    now,
                );
                &&& (chk is Ok ==> r is Ok && ({
                    let c = final(pallet).configs()[old(pallet).next_index()];
                    &&& c.creator == caller && c.kyc == kyc_of(kyc_status)
                    &&& c.random_type == RandomType::Chainlink
                    &&& c.asset_type == AssetType::FungibleToken && c.token == token
                    &&& c.start == start && c.end == end && c.max_join == max_join
                    &&& c.name@ == truncated(name@, giveaway::MAX_NAME_LEN)
                }))
                &&& (chk matches Err(e) ==> r == Err::<(), Revert>(Revert::Giveaway(e)))
            }),
    {
        let amount = match u256_to_amount(amount) {
            Ok(a) => a,
            Err(e) => {
                return Err(e);
            },
        };
        let kyc = kyc_status_of(kyc_status);
        let token = Some(TokenInfo { asset_id, amount });
        match pallet.create_give_away(
            caller,
            name,
            start,
            end,
            kyc,
            RandomType::Chainlink,
            AssetType::FungibleToken,
            token,
            max_join,
            now,
            ledger,
        ) {
            Ok(_) => Ok(()),
            Err(e) => Err(Revert::Giveaway(e)),
        }
    }

    /// The contract caller claims the reward of giveaway `round`.
    pub fn claim_reward(pallet: &mut giveaway::Pallet, ledger: &mut Ledger, caller: AccountId, round: u32) -> (r:
        Result<(), Revert>)
        requires
            old(pallet).wf(),
        ensures
            final(pallet).wf(),
            r == (match old(pallet).claim_result(old(ledger).book(), old(ledger).minimum(), caller, round) {
                Ok(_) => Ok::<(), Revert>(()),
                Err(e) => Err::<(), Revert>(Revert::Giveaway(e)),
            }),
    {
        match pallet.claim_reward(caller, round, ledger) {
            Ok(_) => Ok(()),
            Err(e) => Err(Revert::Giveaway(e)),
        }
    }

    /// The contract caller joins giveaway `index`.
    pub fn participate(
        pallet: &mut giveaway::Pallet,
        registry: &did::Pallet,
        caller: AccountId,
        index: u32,
        now: BlockNumber,
    ) -> (r: Result<(), Revert>)
        requires
            old(pallet).wf(),
        ensures
            final(pallet).wf(),
            r == (match old(pallet).participate_check(registry, caller, index, now) {
                Ok(_) => Ok::<(), Revert>(()),
                Err(e) => Err::<(), Revert>(Revert::Giveaway(e)),
            }),
    {
        match pallet.participate(caller, index, now, registry) {
            Ok(_) => Ok(()),
            Err(e) => Err(Revert::Giveaway(e)),
        }
    }
}

/// The pairs of a number and its amount that a ticket purchase carries.
pub open spec fn selections_of(numbers: Seq<u8>, amounts: Seq<U256>) -> Seq<(u8, Balance)> {
    let n = if numbers.len() <= amounts.len() {
        numbers.len()
    } else {
        amounts.len()
    };
    Seq::new(n, |i: int| (numbers[i], u256_value(amounts[i]) as Balance))
}

/// Contract entry points of the lucky-number rounds.
pub struct LuckyNumberPrecompile;

impl LuckyNumberPrecompile {
    /// Pairs each number with its amount, as far as both lists go. Every
    /// amount paired must fit in a balance.
    pub fn ticket_selections(numbers: &[u8], amounts: &[U256]) -> (r: Result<
        Vec<(u8, Balance)>,
        Revert,
    >)
        ensures
            ({
                let n = if numbers@.len() <= amounts@.len() {
                    numbers@.len()
                } else {
                    amounts@.len()
                };
                if forall|i: int| 0 <= i < n ==> u256_value(#[trigger] amounts@[i]) <= u128::MAX {
                    r matches Ok(v) && v@ == selections_of(numbers@, amounts@)
                } else {
                    r == Err::<Vec<(u8, Balance)>, Revert>(Revert::ValueTooLarge)
                }
            }),
    {
        let n: usize = if numbers.len() <= amounts.len() {
            numbers.len()
        } else {
            amounts.len()
        };
        let mut out: Vec<(u8, Balance)> = Vec::new();
        let mut i: usize = 0;
        while i < n
            invariant
                0 <= i <= n,
                n <= numbers@.len(),
                n <= amounts@.len(),
                n == (if numbers@.len() <= amounts@.len() { numbers@.len() } else { amounts@.len() }),
                forall|k: int| 0 <= k < i ==> u256_value(#[trigger] amounts@[k]) <= u128::MAX,
                out@ == selections_of(numbers@, amounts@).subrange(0, i as int),
            decreases n - i,
        {
            let amount = match u256_to_amount(amounts[i]) {
                Ok(a) => a,
                Err(e) => {
                    return Err(e);
                },
            };
            out.push((numbers[i], amount));
            i = i + 1;
            assert(out@ =~= selections_of(numbers@, amounts@).subrange(0, i as int));
        }
        assert(out@ =~= selections_of(numbers@, amounts@));
        Ok(out)
    }

    /// A manager claims, through a contract, the reward of `who` for
    /// `number` in `round`.
    pub fn claim_reward(
        pallet: &mut lucky_number::Pallet,
        ledger: &mut Ledger,
        who: AccountId,
        round: u32,
        number: u8,
    ) -> (r: Result<(), Revert>)
        requires
            old(pallet).wf(),
        ensures
            final(pallet).wf(),
            exists|res: Result<lucky_number::Event, lucky_number::Error>|
                lucky_number::claim_outcome(
                    old(pallet),
                    final(pallet),
                    old(ledger).book(),
                    final(ledger).book(),
                    old(ledger).minimum(),
                    who,
                    round,
                    number,
                    res,
                ) && r == match res {
                    Ok(_) => Ok::<(), Revert>(()),
                    Err(e) => Err::<(), Revert>(Revert::LuckyNumber(e)),
                },
    {
        match pallet.claim_reward(who, round, number, ledger) {
            Ok(_) => Ok(()),
            Err(e) => Err(Revert::LuckyNumber(e)),
        }
    }
}

/// Contract entry points of the identity registry.
pub struct DidPrecompile;

impl DidPrecompile {
    /// The identifier that `provider` vouched for `user`; empty when none.
    /// The provider name is cut to its longest kept length first.
    pub fn external_id_address(registry: &did::Pallet, user: AccountId, provider: &[u8]) -> (r: Vec<u8>)
        ensures
            r@ == registry.external_id_of(user, truncated(provider@, did::MAX_PROVIDER_LEN)),
    {
        let provider_bounded = truncate_copy(provider, did::MAX_PROVIDER_LEN);
        registry.external_id(user, provider_bounded.as_slice())
    }
}

} // verus!
