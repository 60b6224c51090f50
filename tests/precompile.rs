use lottery_engine::did::GenesisConfig;
use lottery_engine::giveaway::{self, KYCStatus};
use lottery_engine::ledger::Ledger;
use lottery_engine::lucky_number;
use lottery_engine::precompile::{
    kyc_status_of, u256_to_amount, DidPrecompile, GiveawayPrecompile, LuckyNumberPrecompile, Revert,
};

#[test]
fn wide_amounts_are_converted_or_refused() {
    assert_eq!(u256_to_amount([5, 0, 0, 0]), Ok(5));
    assert_eq!(u256_to_amount([1, 2, 0, 0]), Ok((2u128 << 64) + 1));
    assert_eq!(u256_to_amount([u64::MAX, u64::MAX, 0, 0]), Ok(u128::MAX));
    assert_eq!(u256_to_amount([0, 0, 1, 0]), Err(Revert::ValueTooLarge));
    assert_eq!(u256_to_amount([0, 0, 0, 1]), Err(Revert::ValueTooLarge));
}

#[test]
fn kyc_codes() {
    assert_eq!(kyc_status_of(0), KYCStatus::Tier0);
    assert_eq!(kyc_status_of(1), KYCStatus::Tier1);
    assert_eq!(kyc_status_of(255), KYCStatus::Tier1);
}

#[test]
fn giveaway_created_through_contract() {
    let mut pallet = giveaway::Pallet::new(*b"py/givea", 10, 4);
    let mut ledger = Ledger::new(5);
    ledger.deposit_creating(1, 1_000);
    let r = GiveawayPrecompile::create_giveaway(
        &mut pallet, &mut ledger, 1, b"g".to_vec(), 2, 10, 3, 9, 9, 77, [250, 0, 0, 0], 8, 1,
    );
    assert_eq!(r, Ok(()));
    let c = pallet.give_away(0).unwrap();
    assert_eq!(c.kyc, KYCStatus::Tier1);
    assert_eq!(c.token.unwrap().asset_id, 77);
    assert_eq!(c.token.unwrap().amount, 250);
    assert_eq!(ledger.total_balance(1), 750);
    let too_much = GiveawayPrecompile::create_giveaway(
        &mut pallet, &mut ledger, 1, vec![], 2, 10, 0, 0, 0, 1, [0, 0, 1, 0], 8, 1,
    );
    assert_eq!(too_much, Err(Revert::ValueTooLarge));
    assert_eq!(pallet.giveaway_index(), 1);
    let late = GiveawayPrecompile::create_giveaway(
        &mut pallet, &mut ledger, 1, vec![], 1, 10, 0, 0, 0, 1, [1, 0, 0, 0], 8, 1,
    );
    assert_eq!(late, Err(Revert::Giveaway(giveaway::Error::StartBlockInvalid)));
}

#[test]
fn giveaway_joined_and_claimed_through_contract() {
    let mut pallet = giveaway::Pallet::new(*b"py/givea", 10, 4);
    let mut ledger = Ledger::new(5);
    ledger.deposit_creating(1, 1_000);
    let registry = GenesisConfig::default().build();
    GiveawayPrecompile::create_giveaway(&mut pallet, &mut ledger, 1, vec![], 2, 10, 0, 0, 0, 1, [100, 0, 0, 0], 8, 1).unwrap();
    assert_eq!(GiveawayPrecompile::participate(&mut pallet, &registry, 2, 0, 5), Ok(()));
    assert_eq!(
        GiveawayPrecompile::participate(&mut pallet, &registry, 2, 0, 5),
        Err(Revert::Giveaway(giveaway::Error::AlreadyJoined))
    );
    assert_eq!(
        GiveawayPrecompile::claim_reward(&mut pallet, &mut ledger, 2, 0),
        Err(Revert::Giveaway(giveaway::Error::InvalidRound))
    );
    pallet.set_block_result(10, vec![], vec![[0, 0, 0, 0]], 11).unwrap();
    assert_eq!(GiveawayPrecompile::claim_reward(&mut pallet, &mut ledger, 2, 0), Ok(()));
    assert_eq!(ledger.total_balance(2), 100);
}

#[test]
fn ticket_selections_pair_numbers_with_amounts() {
    let r = LuckyNumberPrecompile::ticket_selections(&[4, 9, 13], &[[10, 0, 0, 0], [20, 1, 0, 0]]);
    assert_eq!(r, Ok(vec![(4, 10), (9, (1u128 << 64) + 20)]));
    let r = LuckyNumberPrecompile::ticket_selections(&[4, 9], &[[10, 0, 0, 0], [0, 0, 0, 3]]);
    assert_eq!(r, Err(Revert::ValueTooLarge));
    assert_eq!(LuckyNumberPrecompile::ticket_selections(&[], &[[1, 0, 0, 0]]), Ok(vec![]));
}

#[test]
fn lucky_number_claim_through_contract() {
    let mut pallet = lucky_number::Pallet::new(*b"py/lucky", 1_000, 4);
    let mut ledger = Ledger::new(10);
    ledger.deposit_creating(1, 500);
    pallet.start_lottery(100, 10, 2, 2, false, 0, &mut ledger).unwrap();
    pallet.buy_ticket(1, 3, 100, 1, &mut ledger).unwrap();
    pallet.resolve_round(12, 103);
    assert_eq!(LuckyNumberPrecompile::claim_reward(&mut pallet, &mut ledger, 1, 0, 3), Ok(()));
    assert_eq!(ledger.total_balance(1), 600);
    assert_eq!(
        LuckyNumberPrecompile::claim_reward(&mut pallet, &mut ledger, 1, 0, 3),
        Err(Revert::LuckyNumber(lucky_number::Error::InvalidCall))
    );
}

#[test]
fn identity_read_through_contract() {
    let mut registry = GenesisConfig { managers: vec![1] }.build();
    registry.add_user_address(1, 5, b"Fractal".to_vec(), b"abc".to_vec()).unwrap();
    assert_eq!(DidPrecompile::external_id_address(&registry, 5, b"Fractal"), b"abc".to_vec());
    assert_eq!(DidPrecompile::external_id_address(&registry, 6, b"Fractal"), Vec::<u8>::new());
}
