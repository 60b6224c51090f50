use lottery_engine::did::GenesisConfig;
use lottery_engine::giveaway::{
    winner_position_of, AssetType, Error, Event, KYCStatus, Pallet, RandomType, TokenInfo,
};
use lottery_engine::ledger::{Ledger, LedgerError};

const CREATOR: u64 = 100;
const DEPOSIT: u128 = 10;
const MINIMUM: u128 = 5;

fn setup() -> (Pallet, Ledger) {
    let pallet = Pallet::new(*b"py/givea", DEPOSIT, 4);
    let mut ledger = Ledger::new(MINIMUM);
    ledger.deposit_creating(CREATOR, 1_000);
    (pallet, ledger)
}

fn token(amount: u128) -> Option<TokenInfo> {
    Some(TokenInfo { asset_id: 1, amount })
}

fn create(p: &mut Pallet, l: &mut Ledger, start: u32, end: u32, kyc: KYCStatus, max_join: u32) -> Result<Event, Error> {
    p.create_give_away(
        CREATOR,
        b"prize".to_vec(),
        start,
        end,
        kyc,
        RandomType::default(),
        AssetType::default(),
        token(300),
        max_join,
        1,
        l,
    )
}

fn value(low: u64) -> [u64; 4] {
    [low, 7, 7, 7]
}

#[test]
fn create_escrows_the_token() {
    let (mut p, mut l) = setup();
    let r = create(&mut p, &mut l, 2, 10, KYCStatus::Tier0, 5);
    assert!(matches!(r, Ok(Event::GiveawayCreated { index: 0 })));
    assert_eq!(p.giveaway_index(), 1);
    assert_eq!(l.total_balance(p.account_id()), DEPOSIT + 300);
    assert_eq!(l.total_balance(CREATOR), 700);
    assert_eq!(p.get_giveaways_by_block(10), vec![0]);
    let c = p.give_away(0).unwrap();
    assert_eq!(c.creator, CREATOR);
    assert_eq!(c.name, b"prize".to_vec());
    assert_eq!(c.max_join, 5);
}

#[test]
fn create_truncates_long_name() {
    let (mut p, mut l) = setup();
    let name = vec![7u8; 200];
    let r = p.create_give_away(CREATOR, name, 2, 10, KYCStatus::Tier0, RandomType::Chainlink, AssetType::FungibleToken, token(1), 5, 1, &mut l);
    assert!(r.is_ok());
    assert_eq!(p.give_away(0).unwrap().name.len(), 128);
}

#[test]
fn create_rejects_bad_window() {
    let (mut p, mut l) = setup();
    assert_eq!(create(&mut p, &mut l, 1, 10, KYCStatus::Tier0, 5).err(), Some(Error::StartBlockInvalid));
    assert_eq!(create(&mut p, &mut l, 5, 5, KYCStatus::Tier0, 5).err(), Some(Error::EndBlockInvalid));
    assert_eq!(p.giveaway_index(), 0);
    assert_eq!(l.total_balance(CREATOR), 1_000);
}

#[test]
fn create_rejects_full_height() {
    let mut p = Pallet::new(*b"py/givea", DEPOSIT, 1);
    let mut l = Ledger::new(MINIMUM);
    l.deposit_creating(CREATOR, 1_000);
    assert!(create(&mut p, &mut l, 2, 10, KYCStatus::Tier0, 5).is_ok());
    assert_eq!(create(&mut p, &mut l, 3, 10, KYCStatus::Tier0, 5).err(), Some(Error::TooMany));
    assert_eq!(p.get_giveaways_by_block(10), vec![0]);
}

#[test]
fn create_requires_token() {
    let (mut p, mut l) = setup();
    let r = p.create_give_away(CREATOR, vec![], 2, 10, KYCStatus::Tier0, RandomType::Chainlink, AssetType::FungibleToken, None, 5, 1, &mut l);
    assert_eq!(r.err(), Some(Error::MissingToken));
}

#[test]
fn create_failing_transfer_changes_nothing() {
    let (mut p, mut l) = setup();
    let r = p.create_give_away(CREATOR, vec![], 2, 10, KYCStatus::Tier0, RandomType::Chainlink, AssetType::FungibleToken, token(999), 5, 1, &mut l);
    assert_eq!(r.err(), Some(Error::Transfer(LedgerError::InsufficientBalance)));
    assert_eq!(l.total_balance(p.account_id()), 0);
    assert_eq!(l.total_balance(CREATOR), 1_000);
    assert!(p.give_away(0).is_none());
    assert_eq!(p.get_giveaways_by_block(10), Vec::<u32>::new());
}

#[test]
fn participate_checks_window_and_existence() {
    let (mut p, mut l) = setup();
    let registry = GenesisConfig::default().build();
    create(&mut p, &mut l, 3, 10, KYCStatus::Tier0, 5).unwrap();
    assert_eq!(p.participate(1, 9, 5, &registry).err(), Some(Error::NotConfigured));
    assert_eq!(p.participate(1, 0, 2, &registry).err(), Some(Error::GiveawayNotStarted));
    assert_eq!(p.participate(1, 0, 11, &registry).err(), Some(Error::GiveawayEnded));
    assert!(matches!(p.participate(1, 0, 10, &registry), Ok(Event::Participated { index: 0, who: 1 })));
    assert_eq!(p.total_participants(0), 1);
    assert_eq!(p.participants(0, 0), Some(1));
}

#[test]
fn participate_rejects_duplicates_and_overflow() {
    let (mut p, mut l) = setup();
    let registry = GenesisConfig::default().build();
    create(&mut p, &mut l, 3, 10, KYCStatus::Tier0, 2).unwrap();
    assert!(p.participate(1, 0, 5, &registry).is_ok());
    assert_eq!(p.participate(1, 0, 5, &registry).err(), Some(Error::AlreadyJoined));
    assert!(p.participate(2, 0, 5, &registry).is_ok());
    assert_eq!(p.participate(3, 0, 5, &registry).err(), Some(Error::TooManyParticipants));
    assert_eq!(p.total_participants(0), 2);
    assert_eq!(p.participants(0, 2), None);
}

#[test]
fn verified_identity_is_required_for_tier_one() {
    let (mut p, mut l) = setup();
    let mut registry = GenesisConfig { managers: vec![50] }.build();
    create(&mut p, &mut l, 3, 10, KYCStatus::Tier1, 5).unwrap();
    assert_eq!(p.participate(1, 0, 5, &registry).err(), Some(Error::UserIsNotVerified));
    registry.add_user_address(50, 1, b"Fractal".to_vec(), b"id-1".to_vec()).unwrap();
    registry.add_user_address(50, 2, b"Other".to_vec(), b"id-2".to_vec()).unwrap();
    assert!(p.participate(1, 0, 5, &registry).is_ok());
    assert_eq!(p.participate(2, 0, 5, &registry).err(), Some(Error::UserIsNotVerified));
}

#[test]
fn winner_position_remaps_zero_to_last() {
    assert_eq!(winner_position_of(value(3), 3), 2);
    assert_eq!(winner_position_of(value(4), 3), 0);
    assert_eq!(winner_position_of(value(5), 3), 1);
    // Only the low 32 bits count.
    assert_eq!(winner_position_of(value(0x1_0000_0004), 3), 0);
}

fn two_giveaways() -> (Pallet, Ledger) {
    let (mut p, mut l) = setup();
    let registry = GenesisConfig::default().build();
    create(&mut p, &mut l, 2, 10, KYCStatus::Tier0, 5).unwrap();
    create(&mut p, &mut l, 2, 10, KYCStatus::Tier0, 5).unwrap();
    for who in [1u64, 2, 3] {
        p.participate(who, 0, 5, &registry).unwrap();
    }
    (p, l)
}

#[test]
fn oracle_batch_records_winners() {
    let (mut p, _l) = two_giveaways();
    let events = p.set_block_result(10, b"req".to_vec(), vec![value(3), value(8)], 11).unwrap();
    assert_eq!(events.len(), 3);
    // Remainder zero selects the last of the three participants.
    assert!(matches!(events[0], Event::Winner { index: 0, who: 3, status: true }));
    // Nobody joined giveaway 1: its creator stands in.
    assert!(matches!(events[1], Event::Winner { index: 1, who: CREATOR, status: false }));
    assert!(matches!(&events[2], Event::Results { block: 10, .. }));
    assert_eq!(p.round_winner(0), Some(3));
    assert_eq!(p.round_winner(1), Some(CREATOR));
    assert_eq!(p.get_giveaways_by_block(10), Vec::<u32>::new());
    let stored = p.get_results_by_block(10).unwrap();
    assert_eq!(stored.request_id, b"req".to_vec());
    assert_eq!(stored.results, vec![value(3), value(8)]);
}

#[test]
fn oracle_batch_is_written_once() {
    let (mut p, _l) = two_giveaways();
    p.set_block_result(10, vec![], vec![value(1), value(1)], 11).unwrap();
    assert_eq!(p.round_winner(0), Some(1));
    let again = p.set_block_result(10, vec![], vec![value(2), value(2)], 12);
    assert_eq!(again.err(), Some(Error::CannotSetResultAgain));
    assert_eq!(p.round_winner(0), Some(1));
}

#[test]
fn oracle_batch_for_current_height_is_refused() {
    let (mut p, _l) = two_giveaways();
    let r = p.set_block_result(10, vec![], vec![value(1), value(1)], 10);
    assert_eq!(r.err(), Some(Error::EndBlockInvalid));
    assert!(p.get_results_by_block(10).is_none());
}

#[test]
fn mismatched_oracle_batch_is_rejected_whole() {
    let (mut p, _l) = two_giveaways();
    let r = p.set_block_result(10, b"req".to_vec(), vec![value(1)], 11);
    assert_eq!(r.err(), Some(Error::InvalidResult));
    assert_eq!(p.round_winner(0), None);
    assert_eq!(p.round_winner(1), None);
    assert!(p.get_results_by_block(10).is_none());
    assert_eq!(p.get_giveaways_by_block(10), vec![0, 1]);
}

#[test]
fn winner_claims_once() {
    let (mut p, mut l) = two_giveaways();
    p.set_block_result(10, vec![], vec![value(4), value(0)], 11).unwrap();
    let pot = p.account_id();
    let before = l.total_balance(pot);
    assert_eq!(p.claim_reward(2, 0, &mut l).err(), Some(Error::InvalidCall));
    assert!(matches!(p.claim_reward(1, 0, &mut l), Ok(Event::RewardClaimed { index: 0, winner: 1 })));
    assert_eq!(l.total_balance(pot), before - 300);
    assert_eq!(l.total_balance(1), 300);
    assert_eq!(p.claim_reward(1, 0, &mut l).err(), Some(Error::InvalidRound));
    assert_eq!(l.total_balance(1), 300);
}

#[test]
fn creator_fallback_claim_leaves_deposit() {
    let (mut p, mut l) = setup();
    create(&mut p, &mut l, 2, 10, KYCStatus::Tier0, 5).unwrap();
    let events = p.set_block_result(10, vec![], vec![value(9)], 11).unwrap();
    assert!(matches!(events[0], Event::Winner { index: 0, who: CREATOR, status: false }));
    assert!(matches!(p.claim_reward(CREATOR, 0, &mut l), Ok(Event::RewardClaimed { index: 0, winner: CREATOR })));
    assert_eq!(l.total_balance(p.account_id()), DEPOSIT);
    assert_eq!(l.total_balance(CREATOR), 1_000);
}

#[test]
fn failed_payout_keeps_winner() {
    let mut p = Pallet::new(*b"py/givea", 0, 4);
    let mut l = Ledger::new(MINIMUM);
    l.deposit_creating(CREATOR, 1_000);
    create(&mut p, &mut l, 2, 10, KYCStatus::Tier0, 5).unwrap();
    p.set_block_result(10, vec![], vec![value(9)], 11).unwrap();
    // The pot holds exactly the token amount and must stay alive.
    let r = p.claim_reward(CREATOR, 0, &mut l);
    assert!(matches!(r, Ok(Event::RewardClaimFailed { index: 0, winner: CREATOR, error: LedgerError::InsufficientBalance })));
    assert_eq!(p.round_winner(0), Some(CREATOR));
    assert_eq!(l.total_balance(p.account_id()), 300);
}

#[test]
fn claim_without_winner_is_refused() {
    let (mut p, mut l) = two_giveaways();
    assert_eq!(p.claim_reward(1, 0, &mut l).err(), Some(Error::InvalidRound));
    assert_eq!(p.claim_reward(1, 7, &mut l).err(), Some(Error::InvalidRound));
}

#[test]
fn defaults_are_first_variants() {
    assert_eq!(KYCStatus::default(), KYCStatus::Tier0);
    assert_eq!(RandomType::default(), RandomType::Chainlink);
    assert_eq!(AssetType::default(), AssetType::FungibleToken);
}

#[test]
fn pot_is_topped_up_once() {
    let (mut p, mut l) = setup();
    create(&mut p, &mut l, 2, 10, KYCStatus::Tier0, 5).unwrap();
    create(&mut p, &mut l, 2, 11, KYCStatus::Tier0, 5).unwrap();
    assert_eq!(l.total_balance(p.account_id()), DEPOSIT + 600);
    assert_eq!(p.giveaway_index(), 2);
}

#[test]
fn one_height_holds_at_most_one_delivery() {
    let mut p = Pallet::new(*b"py/givea", DEPOSIT, 100);
    let mut l = Ledger::new(MINIMUM);
    l.deposit_creating(CREATOR, 1_000_000);
    for _ in 0..32 {
        assert!(create(&mut p, &mut l, 2, 10, KYCStatus::Tier0, 5).is_ok());
    }
    assert_eq!(create(&mut p, &mut l, 2, 10, KYCStatus::Tier0, 5).err(), Some(Error::TooMany));
    let values: Vec<[u64; 4]> = (0..32).map(value).collect();
    let events = p.set_block_result(10, vec![], values, 11).unwrap();
    assert_eq!(events.len(), 33);
    for g in 0..32u32 {
        assert_eq!(p.round_winner(g), Some(CREATOR));
    }
}
