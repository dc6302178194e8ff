use opensquare::bounties::{
    Error, Event, Module, DEFAULT_MAX_HOLDING_BOUNTIES, DEFAULT_OUTDATED_HEIGHT,
};
use opensquare::bounty_id::{bounty_id_for, BountyIdFor, SimpleBountyIdDeterminer};
use sp_core::Hasher;
use opensquare::mining::MiningError;
use opensquare::primitives::{AccountId, Balance, BountyId, CurrencyId};
use opensquare::reputation::BountyRemarkCollaborationResult;
use opensquare::types::{Bounty, BountyMetaData, BountyState, CloseReason, HunterBountyState};

const FUNDER: AccountId = 1;
const H1: AccountId = 2;
const H2: AccountId = 3;
const COUNCIL: AccountId = 100;

fn market() -> Module {
    let mut m = Module::new(
        DEFAULT_MAX_HOLDING_BOUNTIES,
        DEFAULT_OUTDATED_HEIGHT,
        5,
        COUNCIL,
        10,
    );
    m.set_currency_ratio(CurrencyId::Native, 2);
    m.deposit(CurrencyId::Native, FUNDER, 5000).unwrap();
    m
}

fn bounty(owner: AccountId, payment: Balance) -> Bounty {
    Bounty::V1(BountyMetaData {
        owner,
        currency_id: CurrencyId::Native,
        payment,
        digest: [7; 32],
    })
}

fn created(m: &mut Module, nonce: u32) -> BountyId {
    m.create_bounty_impl(FUNDER, nonce, bounty(FUNDER, 1000)).unwrap();
    bounty_id_for(FUNDER, nonce)
}

fn accepted(m: &mut Module, nonce: u32, now: u64) -> BountyId {
    let id = created(m, nonce);
    m.examine_bounty_impl(id, true, now).unwrap();
    id
}

fn expected_id(origin: u64, nonce: u32) -> BountyId {
    let mut data = origin.to_le_bytes().to_vec();
    data.extend_from_slice(&nonce.to_le_bytes());
    let digest = sp_core::Blake2Hasher::hash(&data).0;
    let mut low = [0u8; 16];
    let mut high = [0u8; 16];
    low.copy_from_slice(&digest[..16]);
    high.copy_from_slice(&digest[16..]);
    (u128::from_le_bytes(low), u128::from_le_bytes(high))
}

#[test]
fn bounty_ids_hash_account_and_nonce() {
    assert_eq!(bounty_id_for(1, 0), expected_id(1, 0));
    assert_eq!(bounty_id_for(1, 5), expected_id(1, 5));
    assert_eq!(bounty_id_for(u64::MAX, u32::MAX), expected_id(u64::MAX, u32::MAX));
    assert_ne!(bounty_id_for(1, 0), bounty_id_for(0, 1));
    assert_ne!(bounty_id_for(1, 0), bounty_id_for(1, 1));
}

#[test]
fn full_lifecycle_pays_out_and_credits_ledgers() {
    let mut m = market();
    let id = created(&mut m, 0);
    assert_eq!(m.escrow().reserved_balance(CurrencyId::Native, FUNDER), 1000);
    assert_eq!(m.escrow().free_balance(CurrencyId::Native, FUNDER), 4000);
    assert_eq!(m.bounty_state_of(id), Some(BountyState::Applying));

    assert_eq!(m.examine_bounty_impl(id, true, 1), Ok(()));
    assert_eq!(m.bounty_state_of(id), Some(BountyState::Accepted));
    assert_eq!(m.approved_height(id), 1);

    assert_eq!(m.hunt_bounty_impl(id, H1), Ok(()));
    assert_eq!(m.hunt_bounty_impl(id, H2), Ok(()));
    assert!(m.hunting_for_bounty(id, H1));
    assert!(m.hunting_for_bounty(id, H2));

    assert_eq!(m.assign_bounty_impl(id, FUNDER, H1, 2), Ok(()));
    assert_eq!(m.bounty_state_of(id), Some(BountyState::Assigned));
    assert_eq!(m.hunter_bounties(H1, id), Some(HunterBountyState::Processing));
    assert_eq!(m.hunter_bounties(H2, id), Some(HunterBountyState::Hunting));
    assert_eq!(m.hunted_for_bounty(id), Some(H1));

    assert_eq!(m.submit_bounty_impl(id, H1), Ok(()));
    assert_eq!(m.bounty_state_of(id), Some(BountyState::Submitted));

    assert_eq!(
        m.resolve_bounty_and_remark_impl(id, FUNDER, BountyRemarkCollaborationResult::Good, 5),
        Ok(())
    );
    assert_eq!(m.bounty_state_of(id), Some(BountyState::Resolved));
    assert_eq!(m.escrow().free_balance(CurrencyId::Native, H1), 950);
    assert_eq!(m.escrow().free_balance(CurrencyId::Native, COUNCIL), 50);
    assert_eq!(m.escrow().reserved_balance(CurrencyId::Native, FUNDER), 0);
    assert_eq!(m.escrow().free_balance(CurrencyId::Native, FUNDER), 4000);
    assert_eq!(m.reputation().behavior_score(&H1), 13);
    assert_eq!(m.mining().session_account_mining_power(0, FUNDER), 90);
    assert_eq!(m.mining().session_account_mining_power(0, H1), 10);
    assert_eq!(m.mining().session_total_mining_power(0), 100);
    assert!(!m.hunting_for_bounty(id, H1));
    assert!(!m.hunting_for_bounty(id, H2));
    assert_eq!(m.hunter_bounties(H2, id), None);
    assert_eq!(m.hunted_for_bounty(id), None);
    assert_eq!(m.hunter_bounty_count(H1), 0);
    assert_eq!(m.hunter_bounty_count(H2), 0);
}

#[test]
fn assign_to_a_non_hunter_fails() {
    let mut m = market();
    let id = accepted(&mut m, 0, 1);
    m.hunt_bounty_impl(id, H1).unwrap();
    assert_eq!(m.assign_bounty_impl(id, FUNDER, H2, 2), Err(Error::NotHunter));
    assert_eq!(m.bounty_state_of(id), Some(BountyState::Accepted));
    assert_eq!(m.hunted_for_bounty(id), None);
}

#[test]
fn force_close_waits_for_the_outdated_height() {
    let mut m = market();
    let id = accepted(&mut m, 0, 10);
    m.hunt_bounty_impl(id, H1).unwrap();
    m.assign_bounty_impl(id, FUNDER, H1, 20).unwrap();
    assert_eq!(m.assigned_height(id), 20);
    assert_eq!(
        m.force_close_bounty_impl(id, CloseReason::Outdated, 1019),
        Err(Error::ValidBounty)
    );
    assert_eq!(m.bounty_state_of(id), Some(BountyState::Assigned));
    assert_eq!(
        m.force_close_bounty_impl(id, CloseReason::Outdated, 1020),
        Err(Error::ValidBounty)
    );
    assert_eq!(m.force_close_bounty_impl(id, CloseReason::Outdated, 1021), Ok(()));
    assert_eq!(m.bounty_state_of(id), Some(BountyState::Outdated));
    assert_eq!(m.escrow().reserved_balance(CurrencyId::Native, FUNDER), 0);
    assert_eq!(m.escrow().free_balance(CurrencyId::Native, FUNDER), 5000);
    assert_eq!(m.hunted_for_bounty(id), None);
    assert_eq!(m.hunter_bounty_count(H1), 0);
}

#[test]
fn force_close_of_an_accepted_bounty_counts_from_approval() {
    let mut m = market();
    let id = accepted(&mut m, 0, 10);
    assert_eq!(
        m.force_close_bounty_impl(id, CloseReason::Outdated, 1010),
        Err(Error::ValidBounty)
    );
    assert_eq!(m.force_close_bounty_impl(id, CloseReason::Outdated, 1011), Ok(()));
}

#[test]
fn force_close_refuses_other_reasons_and_states() {
    let mut m = market();
    let id = created(&mut m, 0);
    assert_eq!(
        m.force_close_bounty_impl(id, CloseReason::Outdated, 5000),
        Err(Error::InvalidState)
    );
    m.examine_bounty_impl(id, true, 1).unwrap();
    assert_eq!(
        m.force_close_bounty_impl(id, CloseReason::InvalidState, 5000),
        Err(Error::InvalidState)
    );
    assert_eq!(
        m.force_close_bounty_impl(bounty_id_for(9, 9), CloseReason::Outdated, 5000),
        Err(Error::NotExisted)
    );
}

#[test]
fn creating_twice_from_one_nonce_fails() {
    let mut m = market();
    let id = created(&mut m, 3);
    assert_eq!(
        m.create_bounty_impl(FUNDER, 3, bounty(FUNDER, 10)),
        Err(Error::Existed)
    );
    assert_eq!(m.escrow().reserved_balance(CurrencyId::Native, FUNDER), 1000);
    assert_eq!(m.create_bounty_impl(FUNDER, 4, bounty(FUNDER, 10)), Ok(()));
    assert_ne!(bounty_id_for(FUNDER, 4), id);
    assert_eq!(m.escrow().reserved_balance(CurrencyId::Native, FUNDER), 1010);
}

#[test]
fn create_checks_owner_and_funds() {
    let mut m = market();
    assert_eq!(
        m.create_bounty_impl(FUNDER, 0, bounty(H1, 10)),
        Err(Error::NotFunder)
    );
    assert_eq!(
        m.create_bounty_impl(FUNDER, 0, bounty(FUNDER, 5001)),
        Err(Error::CantPay)
    );
    assert_eq!(m.bounty_state_of(bounty_id_for(FUNDER, 0)), None);
    assert_eq!(m.create_bounty_impl(FUNDER, 0, bounty(FUNDER, 5000)), Ok(()));
    assert_eq!(m.escrow().free_balance(CurrencyId::Native, FUNDER), 0);
}

#[test]
fn rejection_releases_the_payment() {
    let mut m = market();
    let id = created(&mut m, 0);
    assert_eq!(m.examine_bounty_impl(id, false, 1), Ok(()));
    assert_eq!(m.bounty_state_of(id), Some(BountyState::Rejected));
    assert_eq!(m.escrow().reserved_balance(CurrencyId::Native, FUNDER), 0);
    assert_eq!(m.escrow().free_balance(CurrencyId::Native, FUNDER), 5000);
    assert_eq!(m.examine_bounty_impl(id, true, 2), Err(Error::InvalidState));
    assert_eq!(m.hunt_bounty_impl(id, H1), Err(Error::InvalidState));
    assert_eq!(m.close_bounty_impl(FUNDER, id), Err(Error::InvalidState));
}

#[test]
fn unknown_bounties_are_not_existed() {
    let mut m = market();
    let id = bounty_id_for(42, 0);
    assert_eq!(m.get_bounty(&id), Err(Error::NotExisted));
    assert_eq!(m.examine_bounty_impl(id, true, 1), Err(Error::NotExisted));
    assert_eq!(m.hunt_bounty_impl(id, H1), Err(Error::NotExisted));
    assert_eq!(m.assign_bounty_impl(id, FUNDER, H1, 1), Err(Error::NotExisted));
    assert_eq!(m.submit_bounty_impl(id, H1), Err(Error::NotExisted));
    assert_eq!(m.resign_from_bounty_impl(id, H1, 1), Err(Error::NotExisted));
    assert_eq!(m.close_bounty_impl(FUNDER, id), Err(Error::NotExisted));
    assert_eq!(
        m.resolve_bounty_and_remark_impl(id, FUNDER, BountyRemarkCollaborationResult::Fine, 1),
        Err(Error::NotExisted)
    );
    assert_eq!(
        m.remark_bounty_funder_impl(id, H1, BountyRemarkCollaborationResult::Fine),
        Err(Error::NotExisted)
    );
    assert_eq!(m.cancel_bounty_hunting_impl(id, H1), Err(Error::NotHunter));
}

#[test]
fn only_the_funder_acts_as_funder() {
    let mut m = market();
    let id = accepted(&mut m, 0, 1);
    m.hunt_bounty_impl(id, H1).unwrap();
    assert_eq!(m.assign_bounty_impl(id, H2, H1, 2), Err(Error::NotFunder));
    assert_eq!(m.close_bounty_impl(H2, id), Err(Error::NotFunder));
    m.assign_bounty_impl(id, FUNDER, H1, 2).unwrap();
    m.submit_bounty_impl(id, H1).unwrap();
    assert_eq!(
        m.resolve_bounty_and_remark_impl(id, H2, BountyRemarkCollaborationResult::Fine, 3),
        Err(Error::NotFunder)
    );
}

#[test]
fn hunting_rules() {
    let mut m = market();
    let id = created(&mut m, 0);
    assert_eq!(m.hunt_bounty_impl(id, H1), Err(Error::InvalidState));
    m.examine_bounty_impl(id, true, 1).unwrap();
    assert_eq!(m.hunt_bounty_impl(id, H1), Ok(()));
    assert_eq!(m.hunt_bounty_impl(id, H1), Err(Error::AlreadyHunted));
    assert_eq!(m.hunter_bounty_count(H1), 1);
    assert_eq!(m.cancel_bounty_hunting_impl(id, H1), Ok(()));
    assert_eq!(m.cancel_bounty_hunting_impl(id, H1), Err(Error::NotHunter));
    assert_eq!(m.hunter_bounty_count(H1), 0);
    assert_eq!(m.hunter_bounties(H1, id), None);
}

#[test]
fn the_holding_cap_is_enforced() {
    let mut m = Module::new(2, DEFAULT_OUTDATED_HEIGHT, 5, COUNCIL, 10);
    m.deposit(CurrencyId::Native, FUNDER, 5000).unwrap();
    let a = accepted(&mut m, 0, 1);
    let b = accepted(&mut m, 1, 1);
    let c = accepted(&mut m, 2, 1);
    assert_eq!(m.hunt_bounty_impl(a, H1), Ok(()));
    assert_eq!(m.hunt_bounty_impl(b, H1), Ok(()));
    assert_eq!(m.hunter_bounty_count(H1), 2);
    assert_eq!(m.hunt_bounty_impl(c, H1), Err(Error::TooManyHuntedBounties));
    assert_eq!(m.hunter_bounty_count(H1), 2);
    m.cancel_bounty_hunting_impl(a, H1).unwrap();
    assert_eq!(m.hunt_bounty_impl(c, H1), Ok(()));
}

#[test]
fn default_cap_is_ten_holdings() {
    let mut m = market();
    m.deposit(CurrencyId::Native, FUNDER, 20_000).unwrap();
    let mut ids = Vec::new();
    for nonce in 0..11u32 {
        ids.push(accepted(&mut m, nonce, 1));
    }
    for id in ids.iter().take(10) {
        assert_eq!(m.hunt_bounty_impl(*id, H1), Ok(()));
    }
    assert_eq!(m.hunt_bounty_impl(ids[10], H1), Err(Error::TooManyHuntedBounties));
}

#[test]
fn reassignment_demotes_the_former_assignee() {
    let mut m = market();
    let id = accepted(&mut m, 0, 1);
    m.hunt_bounty_impl(id, H1).unwrap();
    m.hunt_bounty_impl(id, H2).unwrap();
    m.assign_bounty_impl(id, FUNDER, H1, 2).unwrap();
    assert_eq!(m.assign_bounty_impl(id, FUNDER, H1, 3), Err(Error::AlreadyAssigned));
    assert_eq!(m.assign_bounty_impl(id, FUNDER, H2, 4), Ok(()));
    assert_eq!(m.hunter_bounties(H1, id), Some(HunterBountyState::Hunting));
    assert_eq!(m.hunter_bounties(H2, id), Some(HunterBountyState::Processing));
    assert_eq!(m.hunted_for_bounty(id), Some(H2));
    assert_eq!(m.assigned_height(id), 4);
}

#[test]
fn the_assignee_cannot_cancel_its_hunt() {
    let mut m = market();
    let id = accepted(&mut m, 0, 1);
    m.hunt_bounty_impl(id, H1).unwrap();
    m.hunt_bounty_impl(id, H2).unwrap();
    m.assign_bounty_impl(id, FUNDER, H1, 2).unwrap();
    assert_eq!(m.cancel_bounty_hunting_impl(id, H1), Err(Error::AlreadyAssigned));
    assert_eq!(m.hunter_bounties(H1, id), Some(HunterBountyState::Processing));
    assert_eq!(m.assign_bounty_impl(id, FUNDER, H2, 3), Ok(()));
    assert_eq!(m.hunter_bounties(H1, id), Some(HunterBountyState::Hunting));
    assert_eq!(m.cancel_bounty_hunting_impl(id, H1), Ok(()));
    assert_eq!(m.hunter_bounties(H1, id), None);
}

#[test]
fn only_the_assignee_submits() {
    let mut m = market();
    let id = accepted(&mut m, 0, 1);
    m.hunt_bounty_impl(id, H1).unwrap();
    m.hunt_bounty_impl(id, H2).unwrap();
    assert_eq!(m.submit_bounty_impl(id, H1), Err(Error::InvalidState));
    m.assign_bounty_impl(id, FUNDER, H1, 2).unwrap();
    assert_eq!(m.submit_bounty_impl(id, H2), Err(Error::NotAssignee));
    assert_eq!(m.submit_bounty_impl(id, H1), Ok(()));
    assert_eq!(m.submit_bounty_impl(id, H1), Err(Error::InvalidState));
    assert_eq!(m.hunt_bounty_impl(id, 9), Ok(()));
}

#[test]
fn resignation_reopens_the_bounty() {
    let mut m = market();
    let id = accepted(&mut m, 0, 1);
    m.hunt_bounty_impl(id, H1).unwrap();
    m.hunt_bounty_impl(id, H2).unwrap();
    m.assign_bounty_impl(id, FUNDER, H1, 2).unwrap();
    assert_eq!(m.resign_from_bounty_impl(id, H2, 3), Err(Error::NotHunter));
    assert_eq!(m.resign_from_bounty_impl(id, H1, 3), Ok(()));
    assert_eq!(m.bounty_state_of(id), Some(BountyState::Accepted));
    assert_eq!(m.approved_height(id), 3);
    assert_eq!(m.reputation().behavior_score(&H1), -2);
    assert_eq!(m.hunted_for_bounty(id), None);
    assert!(!m.hunting_for_bounty(id, H1));
    assert!(!m.hunting_for_bounty(id, H2));
    assert_eq!(m.hunter_bounty_count(H2), 0);
    assert_eq!(m.resign_from_bounty_impl(id, H1, 4), Err(Error::InvalidState));
    assert_eq!(m.escrow().reserved_balance(CurrencyId::Native, FUNDER), 1000);
}

#[test]
fn closing_releases_and_purges() {
    let mut m = market();
    let id = accepted(&mut m, 0, 1);
    m.hunt_bounty_impl(id, H1).unwrap();
    m.assign_bounty_impl(id, FUNDER, H1, 2).unwrap();
    assert_eq!(m.check_bounty_can_be_closed(id), Ok(()));
    assert_eq!(m.close_bounty_impl(FUNDER, id), Ok(()));
    assert_eq!(m.bounty_state_of(id), Some(BountyState::Closed));
    assert_eq!(m.escrow().free_balance(CurrencyId::Native, FUNDER), 5000);
    assert_eq!(m.escrow().reserved_balance(CurrencyId::Native, FUNDER), 0);
    assert_eq!(m.hunter_bounty_count(H1), 0);
    assert_eq!(m.hunted_for_bounty(id), None);
    assert_eq!(m.check_bounty_can_be_closed(id), Err(Error::InvalidState));
    assert_eq!(m.close_bounty_impl(FUNDER, id), Err(Error::InvalidState));
    assert_eq!(m.escrow().free_balance(CurrencyId::Native, FUNDER), 5000);
}

#[test]
fn an_applying_bounty_can_be_closed() {
    let mut m = market();
    let id = created(&mut m, 0);
    assert_eq!(m.close_bounty_impl(FUNDER, id), Ok(()));
    assert_eq!(m.escrow().reserved_balance(CurrencyId::Native, FUNDER), 0);
}

#[test]
fn resolve_needs_a_submission() {
    let mut m = market();
    let id = accepted(&mut m, 0, 1);
    m.hunt_bounty_impl(id, H1).unwrap();
    m.assign_bounty_impl(id, FUNDER, H1, 2).unwrap();
    assert_eq!(
        m.resolve_bounty_and_remark_impl(id, FUNDER, BountyRemarkCollaborationResult::Fine, 3),
        Err(Error::InvalidState)
    );
    assert_eq!(m.escrow().reserved_balance(CurrencyId::Native, FUNDER), 1000);
}

#[test]
fn council_fee_rounds_to_nearest() {
    let mut m = market();
    m.create_bounty_impl(FUNDER, 0, bounty(FUNDER, 999)).unwrap();
    let id = bounty_id_for(FUNDER, 0);
    m.examine_bounty_impl(id, true, 1).unwrap();
    m.hunt_bounty_impl(id, H1).unwrap();
    m.assign_bounty_impl(id, FUNDER, H1, 2).unwrap();
    m.submit_bounty_impl(id, H1).unwrap();
    m.resolve_bounty_and_remark_impl(id, FUNDER, BountyRemarkCollaborationResult::Bad, 3)
        .unwrap();
    // 5% of 999 is 49.95, which rounds up.
    assert_eq!(m.escrow().free_balance(CurrencyId::Native, COUNCIL), 50);
    assert_eq!(m.escrow().free_balance(CurrencyId::Native, H1), 949);
    assert_eq!(m.reputation().behavior_score(&H1), 8);
    assert_eq!(m.mining().session_account_mining_power(0, FUNDER), 90);
    assert_eq!(m.mining().session_account_mining_power(0, H1), 10);
    assert_eq!(m.mining().session_total_mining_power(0), 100);
}

fn fee_paid_for(payment: Balance) -> Balance {
    let mut m = market();
    m.deposit(CurrencyId::Native, FUNDER, 10_000).unwrap();
    m.create_bounty_impl(FUNDER, 0, bounty(FUNDER, payment)).unwrap();
    let id = bounty_id_for(FUNDER, 0);
    m.examine_bounty_impl(id, true, 1).unwrap();
    m.hunt_bounty_impl(id, H1).unwrap();
    m.assign_bounty_impl(id, FUNDER, H1, 2).unwrap();
    m.submit_bounty_impl(id, H1).unwrap();
    m.resolve_bounty_and_remark_impl(id, FUNDER, BountyRemarkCollaborationResult::Fine, 3)
        .unwrap();
    assert_eq!(
        m.escrow().free_balance(CurrencyId::Native, H1)
            + m.escrow().free_balance(CurrencyId::Native, COUNCIL),
        payment
    );
    m.escrow().free_balance(CurrencyId::Native, COUNCIL)
}

#[test]
fn council_fee_halves_round_down() {
    assert_eq!(fee_paid_for(19), 1);
    assert_eq!(fee_paid_for(10), 0);
    assert_eq!(fee_paid_for(1010), 50);
    assert_eq!(fee_paid_for(1011), 51);
    assert_eq!(fee_paid_for(1000), 50);
}

#[test]
fn the_resolving_hunter_remarks_the_funder_once() {
    let mut m = market();
    let id = accepted(&mut m, 0, 1);
    m.hunt_bounty_impl(id, H1).unwrap();
    m.assign_bounty_impl(id, FUNDER, H1, 2).unwrap();
    assert_eq!(
        m.remark_bounty_funder_impl(id, H1, BountyRemarkCollaborationResult::Perfect),
        Err(Error::InvalidState)
    );
    m.submit_bounty_impl(id, H1).unwrap();
    m.resolve_bounty_and_remark_impl(id, FUNDER, BountyRemarkCollaborationResult::Fine, 3)
        .unwrap();
    assert_eq!(
        m.remark_bounty_funder_impl(id, H2, BountyRemarkCollaborationResult::Perfect),
        Err(Error::NotHunter)
    );
    assert_eq!(
        m.remark_bounty_funder_impl(id, H1, BountyRemarkCollaborationResult::Perfect),
        Ok(())
    );
    assert_eq!(m.reputation().behavior_score(&FUNDER), 5);
    assert_eq!(
        m.remark_bounty_funder_impl(id, H1, BountyRemarkCollaborationResult::Perfect),
        Err(Error::NotHunter)
    );
}

#[test]
fn mining_rewards_are_claimed_once() {
    let mut m = market();
    let id = accepted(&mut m, 0, 1);
    m.hunt_bounty_impl(id, H1).unwrap();
    m.assign_bounty_impl(id, FUNDER, H1, 2).unwrap();
    m.submit_bounty_impl(id, H1).unwrap();
    m.resolve_bounty_and_remark_impl(id, FUNDER, BountyRemarkCollaborationResult::Good, 5)
        .unwrap();
    assert_eq!(m.claim(FUNDER, 0, 9), Err(MiningError::InvalidSession));
    m.on_initialize(10);
    assert_eq!(m.mining().session_total_reward(0), 50);
    assert_eq!(m.claim(FUNDER, 0, 10), Ok(45));
    assert_eq!(m.escrow().free_balance(CurrencyId::Native, FUNDER), 4045);
    assert_eq!(m.claim(FUNDER, 0, 11), Err(MiningError::NoMiningPower));
    assert_eq!(m.claim(H1, 0, 11), Ok(5));
    assert_eq!(m.claim(H1, 0, 12), Err(MiningError::NoMiningPower));
    let events = m.events();
    let tail = &events[events.len() - 3..];
    assert_eq!(
        tail,
        &[
            Event::SessionTotalRewardSet(0, 50),
            Event::RewardClaimed(FUNDER, 0, 45),
            Event::RewardClaimed(H1, 0, 5),
        ]
    );
}

#[test]
fn market_deposit_overflow_is_refused() {
    let mut m = market();
    assert_eq!(m.deposit(CurrencyId::Native, H1, u128::MAX), Err(Error::Overflow));
    assert_eq!(m.escrow().free_balance(CurrencyId::Native, H1), 0);
}

#[test]
fn currency_ratios_are_per_currency() {
    let mut m = market();
    m.set_currency_ratio(CurrencyId::DOT, 7);
    assert_eq!(m.currency_ratios(CurrencyId::DOT), 7);
    assert_eq!(m.currency_ratios(CurrencyId::Native), 2);
    assert_eq!(m.currency_ratios(CurrencyId::USDT), 0);
    assert_eq!(m.max_holding_bounties(), 10);
    assert_eq!(m.outdated_height(), 1000);
}

#[test]
fn defaults_are_the_initial_states() {
    assert_eq!(BountyState::default(), BountyState::Applying);
    assert_eq!(HunterBountyState::default(), HunterBountyState::Hunting);
    assert_eq!(CurrencyId::DOT.index(), 3);
    let b = bounty(FUNDER, 12);
    assert_eq!(Module::get_funder(&b), FUNDER);
    assert_eq!(Module::get_currency_id(&b), CurrencyId::Native);
    assert_eq!(Module::parse_payment(&b), (CurrencyId::Native, 12));
    assert_eq!(Module::check_funder(&H1, &b), Err(Error::NotFunder));
    assert_eq!(Module::check_funder(&FUNDER, &b), Ok(()));
}

fn in_state(m: &mut Module, nonce: u32, state: BountyState) -> BountyId {
    let id = created(m, nonce);
    match state {
        BountyState::Applying => {}
        BountyState::Rejected => m.examine_bounty_impl(id, false, 1).unwrap(),
        BountyState::Closed => m.close_bounty_impl(FUNDER, id).unwrap(),
        _ => {
            m.examine_bounty_impl(id, true, 1).unwrap();
            if state == BountyState::Outdated {
                m.force_close_bounty_impl(id, CloseReason::Outdated, 5000).unwrap();
            } else if state != BountyState::Accepted {
                m.hunt_bounty_impl(id, H1).unwrap();
                m.assign_bounty_impl(id, FUNDER, H1, 2).unwrap();
                if state != BountyState::Assigned {
                    m.submit_bounty_impl(id, H1).unwrap();
                    if state == BountyState::Resolved {
                        m.resolve_bounty_and_remark_impl(
                            id,
                            FUNDER,
                            BountyRemarkCollaborationResult::Fine,
                            3,
                        )
                        .unwrap();
                    }
                }
            }
        }
    }
    assert_eq!(m.bounty_state_of(id), Some(state));
    id
}

#[test]
fn unlisted_state_and_action_pairs_are_invalid() {
    let all = [
        BountyState::Applying,
        BountyState::Accepted,
        BountyState::Rejected,
        BountyState::Closed,
        BountyState::Assigned,
        BountyState::Outdated,
        BountyState::Submitted,
        BountyState::Resolved,
    ];
    let mut m = market();
    m.deposit(CurrencyId::Native, FUNDER, 100_000).unwrap();
    let invalid = Err(Error::InvalidState);
    for (nonce, state) in all.iter().enumerate() {
        let id = in_state(&mut m, nonce as u32, *state);
        if *state != BountyState::Applying {
            assert_eq!(m.examine_bounty_impl(id, true, 9), invalid);
        }
        if !matches!(state, BountyState::Accepted | BountyState::Assigned | BountyState::Submitted) {
            assert_eq!(m.hunt_bounty_impl(id, H2), invalid);
        }
        if !matches!(state, BountyState::Accepted | BountyState::Assigned) {
            assert_eq!(m.assign_bounty_impl(id, FUNDER, H1, 9), invalid);
            assert_eq!(
                m.force_close_bounty_impl(id, CloseReason::Outdated, 50_000),
                invalid
            );
        }
        if *state != BountyState::Assigned {
            assert_eq!(m.submit_bounty_impl(id, H1), invalid);
            assert_eq!(m.resign_from_bounty_impl(id, H1, 9), invalid);
        }
        if *state != BountyState::Submitted {
            assert_eq!(
                m.resolve_bounty_and_remark_impl(id, FUNDER, BountyRemarkCollaborationResult::Good, 9),
                invalid
            );
        }
        if matches!(state, BountyState::Rejected | BountyState::Closed | BountyState::Outdated | BountyState::Resolved) {
            assert_eq!(m.close_bounty_impl(FUNDER, id), invalid);
        }
        if *state != BountyState::Resolved {
            assert_eq!(
                m.remark_bounty_funder_impl(id, H1, BountyRemarkCollaborationResult::Good),
                invalid
            );
        }
        assert_eq!(m.bounty_state_of(id), Some(*state));
    }
}

#[test]
fn the_simple_determiner_hashes_account_and_nonce() {
    assert_eq!(
        <SimpleBountyIdDeterminer as BountyIdFor>::bounty_id_for(3, 9),
        expected_id(3, 9)
    );
}

#[test]
fn events_record_each_action() {
    let mut m = market();
    let id = created(&mut m, 0);
    m.examine_bounty_impl(id, true, 1).unwrap();
    m.hunt_bounty_impl(id, H1).unwrap();
    m.hunt_bounty_impl(id, H2).unwrap();
    m.cancel_bounty_hunting_impl(id, H2).unwrap();
    m.assign_bounty_impl(id, FUNDER, H1, 2).unwrap();
    assert_eq!(m.submit_bounty_impl(id, H2), Err(Error::NotAssignee));
    m.submit_bounty_impl(id, H1).unwrap();
    m.resolve_bounty_and_remark_impl(id, FUNDER, BountyRemarkCollaborationResult::Good, 5)
        .unwrap();
    m.remark_bounty_funder_impl(id, H1, BountyRemarkCollaborationResult::Fine)
        .unwrap();
    let other = created(&mut m, 1);
    m.close_bounty_impl(FUNDER, other).unwrap();
    assert_eq!(
        m.events().clone(),
        vec![
            Event::ApplyBounty(FUNDER, id),
            Event::Accept(id),
            Event::HuntBounty(id, H1),
            Event::HuntBounty(id, H2),
            Event::CancelHuntBounty(id, H2),
            Event::AssignBounty(id, H1),
            Event::Submit(id),
            Event::Resolve(id),
            Event::FunderRemark(id, H1, BountyRemarkCollaborationResult::Good),
            Event::HunterRemark(id, BountyRemarkCollaborationResult::Fine),
            Event::ApplyBounty(FUNDER, other),
            Event::Close(other, 0),
        ]
    );
}
