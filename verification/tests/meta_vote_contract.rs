use meta_vote::legacy::linear_voting_power;
use meta_vote::meta_vote::{MetaVoteContract, MetaVoteError};
use meta_vote::utils::calculate_voting_power;
use meta_vote::voter::Voter;

/// One mpDAO (6 decimals).
const E6: u128 = 1_000_000;
/// One unit of voting power (24 decimals).
const E24: u128 = 1_000_000_000_000_000_000_000_000;
const MIN_LOCKING_PERIOD: u16 = 30;
const MAX_LOCKING_PERIOD: u16 = 300;
const MIN_DEPOSIT_AMOUNT: u128 = E6;
const MAX_LOCKING_POSITIONS: u8 = 10;
const MAX_VOTING_POSITIONS: u8 = 10;
const GENESIS_TIME_IN_DAYS: u64 = 500;

fn s(x: &str) -> String {
    x.to_string()
}

fn owner_account() -> String {
    s("owner.near")
}

fn operator_account() -> String {
    s("operator.near")
}

fn meta_token_account() -> String {
    s("mpdao-token.near")
}

fn stnear_token_account() -> String {
    s("meta-pool.near")
}

fn voter_account() -> String {
    s("voter.near")
}

fn voter_account_id(n: u8) -> String {
    format!("voter{}.near", n)
}

fn votable_account() -> String {
    s("votable.near")
}

/// Milliseconds at a day since the epoch.
fn to_ms(days: u64) -> u64 {
    days * 86_400_000
}

fn new_metavote_contract() -> MetaVoteContract {
    MetaVoteContract::new(
        owner_account(),
        operator_account(),
        MIN_LOCKING_PERIOD,
        MAX_LOCKING_PERIOD,
        MIN_DEPOSIT_AMOUNT,
        MAX_LOCKING_POSITIONS,
        MAX_VOTING_POSITIONS,
        meta_token_account(),
        stnear_token_account(),
        0,
        s("prev-gov.near"),
    )
    .unwrap()
}

fn internal_get_voter<'a>(contract: &'a MetaVoteContract, id: &String) -> &'a Voter {
    contract.voters.get(id).unwrap()
}

fn deposit(contract: &mut MetaVoteContract, sender: &String, amount: u128, days: &str) {
    let r = contract.ft_on_transfer(&meta_token_account(), sender, amount, &s(days));
    assert_eq!(r, Ok(0));
}

#[test]
fn test_single_deposit() {
    let mut contract = new_metavote_contract();
    let sender_id = voter_account();
    let amount = 2 * E6;
    let msg = "30";
    deposit(&mut contract, &sender_id, amount, msg);
    assert_eq!(1, contract.voters.len(), "Voter was not created!");

    let voter = internal_get_voter(&contract, &sender_id);
    assert_eq!(1, voter.locking_positions.len(), "Locking position was not created!");
    let vote_power = calculate_voting_power(amount, msg.parse::<u16>().unwrap());
    assert_eq!(vote_power, voter.available_voting_power, "Incorrect voting power calculation!");
    assert_eq!(vote_power, E24);

    let voters = contract.get_voters(0, 10, to_ms(GENESIS_TIME_IN_DAYS));
    assert_eq!(voters.len(), 1);
    assert_eq!(voters[0].locking_positions.len(), 1);
    assert_eq!(voters[0].vote_positions.len(), 0);
}

#[test]
fn test_multiple_deposit_same_locking_period() {
    let mut contract = new_metavote_contract();
    let sender_id = voter_account();
    let amount = 2 * E6;
    let msg = "30";
    deposit(&mut contract, &sender_id, amount, msg);
    let new_amount = 5 * E6;
    deposit(&mut contract, &sender_id, new_amount, msg);

    let voter = internal_get_voter(&contract, &sender_id);
    assert_eq!(1, voter.locking_positions.len(), "Locking position was not created!");

    let total_vote_power = calculate_voting_power(amount, 30) + calculate_voting_power(new_amount, 30);
    assert_eq!(
        total_vote_power,
        contract.get_available_voting_power(&sender_id),
        "Incorrect voting power calculation!"
    );
    assert_eq!(amount + new_amount, contract.get_locked_balance(&sender_id), "Incorrect locked balance sum!");
    assert_eq!(0, contract.get_balance(&sender_id, to_ms(GENESIS_TIME_IN_DAYS)), "Incorrect balance!");

    let voters = contract.get_voters(0, 10, to_ms(GENESIS_TIME_IN_DAYS));
    assert_eq!(voters.len(), 1);
    assert_eq!(voters[0].locking_positions.len(), 1);
    assert_eq!(voters[0].vote_positions.len(), 0);
}

#[test]
fn test_multiple_deposit_diff_locking_period() {
    let mut contract = new_metavote_contract();
    let sender_id = voter_account();
    let amount = 2 * E6;
    deposit(&mut contract, &sender_id, amount, "30");
    let new_amount = 5 * E6;
    deposit(&mut contract, &sender_id, new_amount, "200");

    let voter = internal_get_voter(&contract, &sender_id);
    assert_eq!(2, voter.locking_positions.len(), "Locking position was not created!");

    let total_vote_power = calculate_voting_power(amount, 30) + calculate_voting_power(new_amount, 200);
    assert_eq!(
        total_vote_power,
        contract.get_available_voting_power(&sender_id),
        "Incorrect voting power calculation!"
    );
    assert_eq!(amount + new_amount, contract.get_locked_balance(&sender_id), "Incorrect locked balance sum!");
    assert_eq!(0, contract.get_balance(&sender_id, to_ms(GENESIS_TIME_IN_DAYS)), "Incorrect balance!");

    let voters = contract.get_voters(0, 10, to_ms(GENESIS_TIME_IN_DAYS));
    assert_eq!(voters.len(), 1);
    assert_eq!(voters[0].locking_positions.len(), 2);
    assert_eq!(voters[0].vote_positions.len(), 0);
}

#[test]
fn test_unlock_position() {
    let mut contract = new_metavote_contract();
    let sender_id = voter_account();
    let amount = 2 * E6;
    deposit(&mut contract, &sender_id, amount, "30");
    let now = to_ms(GENESIS_TIME_IN_DAYS);

    assert_eq!(amount, contract.get_locked_balance(&sender_id), "Incorrect locked balance!");
    assert_eq!(0, contract.get_unlocking_balance(&sender_id, now), "Incorrect unlocking balance!");

    let index = contract.get_all_locking_positions(&sender_id, now)[0].index.unwrap();
    assert_eq!(contract.unlock_position(&sender_id, index, now), Ok(()));
    let voter = internal_get_voter(&contract, &sender_id);
    assert_eq!(1, voter.locking_positions.len(), "Locking position was not created!");

    let unlocking_started_at = contract.get_all_locking_positions(&sender_id, now)[0].unlocking_started_at;
    assert!(unlocking_started_at.is_some(), "Position is not unlocked!");
    assert_eq!(0, contract.get_locked_balance(&sender_id), "Incorrect locked balance!");
    assert_eq!(amount, contract.get_unlocking_balance(&sender_id, now), "Incorrect unlocking balance!");

    let voter = internal_get_voter(&contract, &sender_id);
    assert_eq!(voter.available_voting_power, 0, "Voting power was not removed!");
}

#[test]
fn test_unlock_partial_position() {
    let mut contract = new_metavote_contract();
    let sender_id = voter_account();
    let amount = 2 * E6;
    deposit(&mut contract, &sender_id, amount, "30");
    let new_amount = 5 * E6;
    deposit(&mut contract, &sender_id, new_amount, "200");
    let now = to_ms(GENESIS_TIME_IN_DAYS);

    assert_eq!(amount + new_amount, contract.get_locked_balance(&sender_id), "Incorrect locked balance!");
    assert_eq!(0, contract.get_unlocking_balance(&sender_id, now), "Incorrect unlocking balance!");

    // Partially removing the last (second) locking position.
    let index = contract.get_all_locking_positions(&sender_id, now).last().unwrap().index.unwrap();
    let third_amount = 4 * E6;
    assert_eq!(contract.unlock_partial_position(&sender_id, index, third_amount, now), Ok(()));
    let voter = internal_get_voter(&contract, &sender_id);
    assert_eq!(3, voter.locking_positions.len(), "Locking position was not created!");

    let unlocking_started_at =
        contract.get_all_locking_positions(&sender_id, now).last().unwrap().unlocking_started_at;
    assert!(unlocking_started_at.is_some(), "Position is not unlocked!");
    assert_eq!(
        amount + new_amount - third_amount,
        contract.get_locked_balance(&sender_id),
        "Incorrect locked balance!"
    );
    assert_eq!(third_amount, contract.get_unlocking_balance(&sender_id, now), "Incorrect unlocking balance!");

    let voter = internal_get_voter(&contract, &sender_id);
    let total_vote_power =
        calculate_voting_power(amount, 30) + calculate_voting_power(new_amount - third_amount, 200);
    assert_eq!(voter.available_voting_power, total_vote_power, "Voting power was not removed!");
}

fn generate_lock_position_context(locking_days: u16, amount: u128) -> (MetaVoteContract, String) {
    let mut contract = new_metavote_contract();
    let sender_id = voter_account();
    deposit(&mut contract, &sender_id, amount, &locking_days.to_string());
    (contract, sender_id)
}

fn generate_relock_position_context() -> (MetaVoteContract, String) {
    const LOCKING_PERIOD: u16 = 100;
    const AMOUNT: u128 = 10 * E6;
    let (mut contract, sender_id) = generate_lock_position_context(LOCKING_PERIOD, AMOUNT);
    let timestamp_1 = to_ms(GENESIS_TIME_IN_DAYS + 5);
    let timestamp_2 = to_ms(GENESIS_TIME_IN_DAYS + 5 + LOCKING_PERIOD as u64);

    let index = contract.get_all_locking_positions(&sender_id, timestamp_1)[0].index.unwrap();
    assert_eq!(contract.unlock_position(&sender_id, index, timestamp_1), Ok(()));
    let voter = internal_get_voter(&contract, &sender_id);
    let locking_position = voter.get_position(index);
    assert_eq!(locking_position.unlocking_started_at.unwrap(), timestamp_1, "Incorrect unlocking started at date.");
    assert_eq!(
        locking_position.unlocking_started_at.unwrap() + locking_position.locking_period_millis(),
        timestamp_2,
        "Incorrect unlocking finish date."
    );
    assert_eq!(0, contract.get_locked_balance(&sender_id), "Incorrect locked balance!");
    assert_eq!(AMOUNT, contract.get_unlocking_balance(&sender_id, timestamp_1), "Incorrect unlocking balance!");
    (contract, sender_id)
}

#[test]
fn test_relock_position_1() {
    let (mut contract, sender_id) = generate_relock_position_context();
    let now = to_ms(GENESIS_TIME_IN_DAYS + 5 + 12);
    let before_positions = contract.get_all_locking_positions(&sender_id, now);
    // The new locking period should be greater than 88 days.
    assert_eq!(contract.relock_position(&sender_id, 0, 30, 0, now), Err(MetaVoteError::PeriodTooShort(88)));
    assert_eq!(contract.get_all_locking_positions(&sender_id, now), before_positions);
}

fn prepare_locking_position_extend_days(initial_locking_days: u16, amount: u128) -> (MetaVoteContract, String) {
    generate_lock_position_context(initial_locking_days, amount)
}

fn do_locking_position_extend_days(
    contract: &mut MetaVoteContract,
    sender_id: &String,
    new_locking_days: u16,
    amount: u128,
) -> Result<(), MetaVoteError> {
    const INDEX: u64 = 0;
    let voter = internal_get_voter(contract, sender_id);
    let locking_position = voter.get_position(INDEX);
    let old_voting_power = locking_position.voting_power;
    let old_total_voting_power = contract.total_voting_power;
    let old_balance = voter.balance;
    let old_available = voter.available_voting_power;

    contract.locking_position_extend_days(sender_id, INDEX, new_locking_days)?;

    let voter_new = internal_get_voter(contract, sender_id);
    let locking_position = voter_new.get_position(INDEX);
    assert_eq!(locking_position.locking_period, new_locking_days);
    assert!(locking_position.is_locked());
    assert_eq!(locking_position.amount, amount);
    let expected_new_voting_power = calculate_voting_power(amount, new_locking_days);
    assert_eq!(locking_position.voting_power, expected_new_voting_power);
    assert_eq!(
        contract.total_voting_power,
        old_total_voting_power - old_voting_power + expected_new_voting_power
    );
    assert_eq!(voter_new.balance, old_balance);
    assert_eq!(
        voter_new.available_voting_power,
        old_available - old_voting_power + expected_new_voting_power
    );
    Ok(())
}

#[test]
fn test_locking_position_extend_days_1() {
    let amount = 10 * E6;
    let (mut contract, sender_id) = prepare_locking_position_extend_days(30, amount);
    assert_eq!(do_locking_position_extend_days(&mut contract, &sender_id, 165, amount), Ok(()));
}

#[test]
fn test_locking_position_extend_days_fail() {
    let amount = 10 * E6;
    let (mut contract, sender_id) = prepare_locking_position_extend_days(30, amount);
    // The new auto-lock period should be greater than the previous one.
    assert_eq!(
        do_locking_position_extend_days(&mut contract, &sender_id, 29, amount),
        Err(MetaVoteError::PeriodNotGreater)
    );
}

#[test]
fn test_locking_position_extend_days_fail_2() {
    let amount = 10 * E6;
    let (mut contract, sender_id) = generate_relock_position_context();
    // The position should be locked in order to extend its time.
    assert_eq!(
        do_locking_position_extend_days(&mut contract, &sender_id, 60, amount),
        Err(MetaVoteError::PositionNotLocked)
    );
}

#[test]
fn test_relock_position_2() {
    let (mut contract, sender_id) = generate_relock_position_context();
    let now = to_ms(GENESIS_TIME_IN_DAYS + 5 + 12);
    let index = contract.get_all_locking_positions(&sender_id, now)[0].index.unwrap();
    let voter = internal_get_voter(&contract, &sender_id);
    let amount = voter.get_position(index).amount;
    assert_eq!(voter.available_voting_power, 0, "Voting power should be 0.");

    let locking_period: u16 = 89;
    assert_eq!(contract.relock_position(&sender_id, 0, locking_period, 0, now), Ok(()));

    let voter = internal_get_voter(&contract, &sender_id);
    let locking_position = voter.get_position(index);
    assert_eq!(
        voter.available_voting_power,
        calculate_voting_power(amount, locking_period),
        "Voting power of Voter is incorrect."
    );
    assert_eq!(locking_position.amount, contract.get_locked_balance(&sender_id), "Incorrect locked balance!");
    assert_eq!(0, contract.get_unlocking_balance(&sender_id, now), "Incorrect unlocking balance!");
    assert!(locking_position.unlocking_started_at.is_none(), "Unlocking started should be None.");
}

#[test]
fn test_relock_position_3() {
    let (mut contract, sender_id) = generate_relock_position_context();
    let now = to_ms(GENESIS_TIME_IN_DAYS + 5 + 177);
    let index = contract.get_all_locking_positions(&sender_id, now)[0].index.unwrap();
    let voter = internal_get_voter(&contract, &sender_id);
    let amount = voter.get_position(index).amount;
    assert_eq!(voter.available_voting_power, 0, "Voting power should be 0.");

    let locking_period: u16 = 30;
    assert_eq!(contract.relock_position(&sender_id, 0, locking_period, 0, now), Ok(()));

    let voter = internal_get_voter(&contract, &sender_id);
    let locking_position = voter.get_position(index);
    assert_eq!(
        voter.available_voting_power,
        calculate_voting_power(amount, locking_period),
        "Voting power of Voter is incorrect."
    );
    assert_eq!(locking_position.amount, contract.get_locked_balance(&sender_id), "Incorrect locked balance!");
    assert_eq!(0, contract.get_unlocking_balance(&sender_id, now), "Incorrect unlocking balance!");
    assert!(locking_position.unlocking_started_at.is_none(), "Unlocking started should be None.");
}

#[test]
fn test_relock_partial_position_1() {
    let (mut contract, sender_id) = generate_relock_position_context();
    let now = to_ms(GENESIS_TIME_IN_DAYS + 5 + 23);
    let index = contract.get_all_locking_positions(&sender_id, now)[0].index.unwrap();
    let amount = internal_get_voter(&contract, &sender_id).get_position(index).amount;
    // The new locking period should be greater than 77 days.
    assert_eq!(
        contract.relock_partial_position(&sender_id, index, amount - 2 * E6, 30, 0, now),
        Err(MetaVoteError::PeriodTooShort(77))
    );
}

#[test]
fn test_relock_partial_position_2() {
    let (mut contract, sender_id) = generate_relock_position_context();
    let now = to_ms(GENESIS_TIME_IN_DAYS + 5 + 23);
    let index = contract.get_all_locking_positions(&sender_id, now)[0].index.unwrap();
    let voter = internal_get_voter(&contract, &sender_id);
    let amount = voter.get_position(index).amount;
    assert_eq!(voter.available_voting_power, 0, "Voting power should be 0.");

    let keep_amount = 2 * E6;
    let relock_amount = amount - keep_amount;
    let locking_period: u16 = 89;
    assert_eq!(
        contract.relock_partial_position(&sender_id, index, relock_amount, locking_period, 0, now),
        Ok(())
    );

    // The unlocking one is index 0, and the relocked one is index 1.
    let index = contract.get_all_locking_positions(&sender_id, now).last().unwrap().index.unwrap();
    assert_eq!(index, 1);
    let voter = internal_get_voter(&contract, &sender_id);
    let locking_position = voter.get_position(index);
    assert_eq!(voter.locking_positions.len(), 2, "Incorrect locking position.");
    assert_eq!(
        voter.available_voting_power,
        calculate_voting_power(relock_amount, locking_period),
        "Voting power of Voter is incorrect."
    );
    assert_eq!(relock_amount, contract.get_locked_balance(&sender_id), "Incorrect locked balance!");
    assert_eq!(keep_amount, contract.get_unlocking_balance(&sender_id, now), "Incorrect unlocking balance!");
    assert!(locking_position.unlocking_started_at.is_none(), "Unlocking started should be None.");
}

#[test]
fn test_relock_partial_position_3() {
    let (mut contract, sender_id) = generate_relock_position_context();
    let now = to_ms(GENESIS_TIME_IN_DAYS + 5 + 177);
    let index = contract.get_all_locking_positions(&sender_id, now)[0].index.unwrap();
    let voter = internal_get_voter(&contract, &sender_id);
    let amount = voter.get_position(index).amount;
    assert_eq!(voter.available_voting_power, 0, "Voting power should be 0.");

    let keep_amount = 2 * E6;
    let relock_amount = amount - keep_amount;
    let locking_period: u16 = 30;
    assert_eq!(
        contract.relock_partial_position(&sender_id, index, relock_amount, locking_period, 0, now),
        Ok(())
    );

    // The unlocked one was index 0, and the relocked one is also index 0.
    let voter = internal_get_voter(&contract, &sender_id);
    let locking_position = voter.get_position(index);
    assert_eq!(voter.locking_positions.len(), 1, "Incorrect locking position.");
    assert_eq!(
        voter.available_voting_power,
        calculate_voting_power(relock_amount, locking_period),
        "Voting power of Voter is incorrect."
    );
    assert_eq!(voter.balance, keep_amount, "Voter balance is incorrect.");
    assert_eq!(keep_amount, contract.get_balance(&sender_id, now), "Incorrect free balance!");
    assert_eq!(relock_amount, contract.get_locked_balance(&sender_id), "Incorrect locked balance!");
    assert_eq!(0, contract.get_unlocking_balance(&sender_id, now), "Incorrect unlocking balance!");
    assert!(locking_position.unlocking_started_at.is_none(), "Unlocking started should be None.");

    assert_eq!(contract.unlock_position(&sender_id, index, now), Ok(()));
    let locking_period: u16 = 38;
    let keep_amount_1 = keep_amount - E6;
    let keep_amount_2 = keep_amount - keep_amount_1;
    assert_eq!(contract.relock_position(&sender_id, index, locking_period, keep_amount_1, now), Ok(()));

    let voter = internal_get_voter(&contract, &sender_id);
    assert_eq!(voter.balance, keep_amount_2, "Incorrect voter balance.");
    assert_eq!(
        voter.available_voting_power,
        calculate_voting_power(relock_amount + keep_amount_1, locking_period),
        "Voting power of Voter is incorrect."
    );

    // Relock from balance.
    let locking_period: u16 = 278;
    assert_eq!(contract.relock_from_balance(&sender_id, locking_period, keep_amount_2), Ok(()));
    let voter = internal_get_voter(&contract, &sender_id);
    assert_eq!(voter.balance, 0, "Incorrect voter balance.");
    assert_eq!(voter.locking_positions.len(), 2, "Incorrect number of Locking Positions.");
}

#[test]
fn test_clear_locking_position() {
    const LOCKING_PERIOD: u16 = 30;
    const AMOUNT: u128 = 2 * E6;
    let (mut contract, sender_id) = generate_lock_position_context(LOCKING_PERIOD, AMOUNT);
    let unlock_started = to_ms(GENESIS_TIME_IN_DAYS + 5);
    let clear_positions = to_ms(GENESIS_TIME_IN_DAYS + 5 + 60);

    let new_amount = 5 * E6;
    deposit(&mut contract, &sender_id, new_amount, "32");
    let voter = internal_get_voter(&contract, &sender_id);
    assert_eq!(2, voter.locking_positions.len(), "Locking position was not created!");

    assert_eq!(contract.unlock_position(&sender_id, 0, unlock_started), Ok(()));
    assert_eq!(contract.unlock_position(&sender_id, 1, unlock_started), Ok(()));

    assert_eq!(contract.clear_locking_position(&sender_id, vec![0, 1], clear_positions), Ok(()));

    let voter = internal_get_voter(&contract, &sender_id);
    assert_eq!(0, voter.locking_positions.len(), "Locking position was not deleted!");
    assert_eq!(AMOUNT + new_amount, voter.balance, "Incorrect balance!");
    assert_eq!(AMOUNT + new_amount, contract.get_balance(&sender_id, clear_positions), "Incorrect balance!");

    let voters = contract.get_voters(0, 10, clear_positions);
    assert_eq!(voters.len(), 1);
    assert_eq!(voters[0].locking_positions.len(), 0);
    assert_eq!(voters[0].vote_positions.len(), 0);
}

#[test]
fn test_unlock_position_without_voting_power() {
    const LOCKING_PERIOD: u16 = 100;
    const AMOUNT: u128 = 10 * E6;
    let (mut contract, sender_id) = generate_lock_position_context(LOCKING_PERIOD, AMOUNT);
    let now = to_ms(GENESIS_TIME_IN_DAYS + 5);
    let index = contract.get_all_locking_positions(&sender_id, now)[0].index.unwrap();

    let vote = calculate_voting_power(AMOUNT, LOCKING_PERIOD);
    assert_eq!(contract.vote(&sender_id, vote, &votable_account(), &s("0")), Ok(()));
    let voter = internal_get_voter(&contract, &sender_id);
    assert_eq!(voter.available_voting_power, 0, "Incorrect Voting Power calculation.");
    assert_eq!(
        vote,
        contract.get_votes_for_object(&sender_id, &votable_account(), &s("0")),
        "Incorrect votes for votable object"
    );
    // Not enough free voting power to unlock.
    assert_eq!(contract.unlock_position(&sender_id, index, now), Err(MetaVoteError::NotEnoughVotingPower));
}

#[test]
fn test_rebalance_increase_and_decrease() {
    const LOCKING_PERIOD: u16 = 100;
    const AMOUNT: u128 = 10 * E6;
    let (mut contract, sender_id) = generate_lock_position_context(LOCKING_PERIOD, AMOUNT);
    let now = to_ms(GENESIS_TIME_IN_DAYS + 5);

    let vote = calculate_voting_power(AMOUNT, LOCKING_PERIOD);
    let contract_address = votable_account();
    let votable_object_id = s("0");
    assert_eq!(contract.vote(&sender_id, vote, &contract_address, &votable_object_id), Ok(()));

    // Decrease votes.
    let delta_1 = 5 * E24;
    let decreased_votes = vote - delta_1;
    assert_eq!(contract.rebalance(&sender_id, decreased_votes, &contract_address, &votable_object_id, now), Ok(()));
    let voter = internal_get_voter(&contract, &sender_id);
    assert_eq!(voter.available_voting_power, delta_1, "Incorrect Voting Power calculation.");
    let votes = contract.get_votes_for_object(&sender_id, &contract_address, &votable_object_id);

    // Increase votes.
    let delta_2 = E24;
    let additional_votes = votes + delta_2;
    assert_eq!(contract.rebalance(&sender_id, additional_votes, &contract_address, &votable_object_id, now), Ok(()));
    let voter = internal_get_voter(&contract, &sender_id);
    assert_eq!(voter.available_voting_power, delta_1 - delta_2, "Incorrect Voting Power calculation.");
    let votes = contract.get_votes_for_object(&sender_id, &contract_address, &votable_object_id);
    assert_eq!(votes, additional_votes, "Incorrect Voting Power calculation.");

    let voters = contract.get_voters(0, 10, now);
    assert_eq!(voters.len(), 1);
    assert_eq!(voters[0].locking_positions.len(), 1);
    assert_eq!(voters[0].vote_positions.len(), 1);
}

struct User {
    numeric_id: u8,
    /// Votes in whole units: the voter bonds twice as many mpDAO and gives
    /// this many units of voting power.
    votes: u128,
    locking_period: u16,
    contract_address: String,
    votable_object_id: String,
}

impl User {
    fn account_id(&self) -> String {
        voter_account_id(self.numeric_id)
    }
}

fn internal_prepare_multi_voter_contract() -> (MetaVoteContract, Vec<User>) {
    let users = vec![
        User { numeric_id: 0, votes: 10, locking_period: 30, contract_address: s("app_1.near"), votable_object_id: s("1") },
        User { numeric_id: 1, votes: 1, locking_period: 45, contract_address: s("app_1.near"), votable_object_id: s("1") },
        User { numeric_id: 2, votes: 24, locking_period: 200, contract_address: s("app_1.near"), votable_object_id: s("2") },
        User { numeric_id: 3, votes: 8, locking_period: 300, contract_address: s("app_2.near"), votable_object_id: s("1") },
    ];
    let mut votes_1_1 = 0_u128;
    let mut votes_1_2 = 0_u128;
    let mut votes_2_1 = 0_u128;
    let now = to_ms(GENESIS_TIME_IN_DAYS + 5);
    let mut contract = new_metavote_contract();

    for user in users.iter() {
        let sender_id = user.account_id();
        let amount = 2 * user.votes * E6;
        deposit(&mut contract, &sender_id, amount, &user.locking_period.to_string());
        let voting_power = calculate_voting_power(amount, user.locking_period);
        assert_eq!(contract.get_available_voting_power(&sender_id), voting_power, "Incorrect voting power for user.");
        let votes_to_use = user.votes * E24;
        let remaining = voting_power - votes_to_use;
        assert_eq!(contract.vote(&sender_id, votes_to_use, &user.contract_address, &user.votable_object_id), Ok(()));
        if user.numeric_id == 0 || user.numeric_id == 1 {
            votes_1_1 += votes_to_use;
        } else if user.numeric_id == 2 {
            votes_1_2 += votes_to_use;
        } else if user.numeric_id == 3 {
            votes_2_1 += votes_to_use;
        }
        assert_eq!(votes_to_use, contract.get_used_voting_power(&sender_id), "Incorrect used voting power.");
        assert_eq!(remaining, contract.get_available_voting_power(&sender_id), "Incorrect remaining voting power.");
    }

    // Unvote and vote again to test contract total voting consistency.
    let user = &users[3];
    let sender_id = user.account_id();
    assert_eq!(contract.unvote(&sender_id, &user.contract_address, &user.votable_object_id, now), Ok(()));
    assert_eq!(
        contract.vote(&sender_id, user.votes * E24, &user.contract_address, &user.votable_object_id),
        Ok(())
    );

    assert_eq!(contract.get_total_votes(&s("app_1.near"), &s("1")), votes_1_1, "Incorrect vote count for project 1, object 1.");
    assert_eq!(contract.get_total_votes(&s("app_1.near"), &s("2")), votes_1_2, "Incorrect vote count for project 1, object 2.");
    assert_eq!(contract.get_total_votes(&s("app_2.near"), &s("1")), votes_2_1, "Incorrect vote count for project 2, object 1.");

    let voters = contract.get_voters(0, 10, now);
    assert_eq!(voters.len(), 4);
    assert_eq!(voters[0].locking_positions.len(), 1);
    assert_eq!(voters[0].vote_positions.len(), 1);
    (contract, users)
}

#[test]
fn test_multi_voter_contract() {
    internal_prepare_multi_voter_contract();
}

fn claims_message(users: &Vec<User>, amounts: [u64; 4]) -> String {
    let mut msg = String::from("for-claims:[");
    for (i, user) in users.iter().enumerate() {
        if i > 0 {
            msg.push(',');
        }
        msg.push_str(&format!("[\"{}\",{}]", user.account_id(), amounts[i]));
    }
    msg.push(']');
    msg
}

fn internal_distribute_100_for_claims(contract: &mut MetaVoteContract, users: &Vec<User>) {
    let sender_id = operator_account();
    let initial_accumulated_distributed = contract.accumulated_mpdao_distributed_for_claims;
    let initial_unclaimed = contract.total_unclaimed_mpdao;
    const AMOUNT: u128 = 100 * E6;
    let msg = claims_message(users, [10, 20, 40, 30]);
    assert_eq!(contract.ft_on_transfer(&meta_token_account(), &sender_id, AMOUNT, &msg), Ok(0));
    assert_eq!(
        contract.accumulated_mpdao_distributed_for_claims,
        initial_accumulated_distributed + AMOUNT,
        "accumulated_distributed_for_claims not correct"
    );
    assert_eq!(contract.total_unclaimed_mpdao, initial_unclaimed + AMOUNT, "contract.total_unclaimed_meta not correct");
}

#[test]
fn test_deposit_for_claims() {
    let (mut contract, users) = internal_prepare_multi_voter_contract();
    internal_distribute_100_for_claims(&mut contract, &users);
}

#[test]
fn distribute_too_much() {
    let (mut contract, users) = internal_prepare_multi_voter_contract();
    let amount = 100 * E6;
    let msg = claims_message(&users, [10, 20, 40, 31]);
    // The total to distribute (101) is not the total amount sent (100).
    assert_eq!(
        contract.ft_on_transfer(&meta_token_account(), &operator_account(), amount, &msg),
        Err(MetaVoteError::DistributionMismatch)
    );
    assert_eq!(contract.total_unclaimed_mpdao, 0);
}

fn prepare_contract_with_claims() -> (MetaVoteContract, Vec<User>) {
    let (mut contract, users) = internal_prepare_multi_voter_contract();
    internal_distribute_100_for_claims(&mut contract, &users);
    (contract, users)
}

#[test]
fn test_distribute_claims() {
    let (contract, users) = prepare_contract_with_claims();
    assert_eq!(contract.get_claimable_mpdao(&users[0].account_id()), 10 * E6);
    assert_eq!(contract.get_claimable_mpdao(&users[1].account_id()), 20 * E6);
    assert_eq!(contract.get_claimable_mpdao(&users[2].account_id()), 40 * E6);
    assert_eq!(contract.get_claimable_mpdao(&users[3].account_id()), 30 * E6);
}

#[test]
fn test_claim_too_much() {
    let (mut contract, users) = prepare_contract_with_claims();
    // You don't have enough claimable mpDAO.
    assert_eq!(
        contract.claim_and_lock(&users[2].account_id(), 41 * E6, 30),
        Err(MetaVoteError::NotEnoughClaimable)
    );
}

#[test]
fn test_claim() {
    let (mut contract, users) = prepare_contract_with_claims();
    let now = to_ms(GENESIS_TIME_IN_DAYS + 5);

    // total claim
    {
        let unclaimed_pre = contract.total_unclaimed_mpdao;
        let caller = users[2].account_id();
        let claim_balance_pre = contract.get_claimable_meta(&caller);
        let claim_amount = 40 * E6;
        let duration = 165;
        assert_eq!(contract.claim_and_lock(&caller, claim_amount, duration), Ok(()));
        assert_eq!(contract.total_unclaimed_mpdao, unclaimed_pre - claim_amount, "total_unclaimed_meta");
        let claim_balance_post = contract.get_claimable_meta(&caller);
        assert_eq!(claim_balance_post, claim_balance_pre.saturating_sub(claim_amount));
        let user_record_post = contract.get_voter_info(&caller, now);
        assert_eq!(user_record_post.locking_positions.len(), 2);
        let pos = &user_record_post.locking_positions[1];
        assert_eq!(pos.locking_period, duration);
        assert_eq!(pos.is_unlocked, false);
        assert_eq!(pos.is_unlocking, false);
        assert_eq!(pos.voting_power, calculate_voting_power(claim_amount, duration));
        // Under the linear multiplier of the first version (1x at 30 days,
        // 5x at 300 days), 165 days give three times the amount.
        assert_eq!(linear_voting_power(40 * E24, duration, 30, 300), 40 * E24 * 3);
    }

    // partial claim
    {
        let unclaimed_pre = contract.total_unclaimed_mpdao;
        let caller = users[1].account_id();
        let claim_balance_pre = contract.get_claimable_meta(&caller);
        let claim_amount = 6 * E6;
        assert_eq!(contract.claim_and_lock(&caller, claim_amount, 30), Ok(()));
        assert_eq!(contract.total_unclaimed_mpdao, unclaimed_pre - claim_amount, "total_unclaimed_meta");
        let claim_balance_post = contract.get_claimable_meta(&caller);
        assert_eq!(claim_balance_post, claim_balance_pre - claim_amount);
    }
}
