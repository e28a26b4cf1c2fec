use meta_vote::meta_vote::{MetaVoteContract, MetaVoteError, TokenTransfer};
use meta_vote::utils::calculate_voting_power;

const E6: u128 = 1_000_000;
const E24: u128 = 1_000_000_000_000_000_000_000_000;
const DAY: u64 = 86_400_000;
const T0: u64 = 500 * DAY;

fn s(x: &str) -> String {
    x.to_string()
}

fn mpdao() -> String {
    s("mpdao-token.near")
}

fn stnear() -> String {
    s("meta-pool.near")
}

fn contract() -> MetaVoteContract {
    MetaVoteContract::new(
        s("owner.near"),
        s("operator.near"),
        30,
        300,
        E6,
        10,
        10,
        mpdao(),
        stnear(),
        0,
        s("prev-gov.near"),
    )
    .unwrap()
}

/// The contract's totals are the sum of every voter's votes, for the given objects.
fn assert_totals_match(c: &MetaVoteContract, voters: &[&str], objects: &[(&str, &str)]) {
    for (a, o) in objects {
        let mut sum = 0u128;
        for v in voters {
            sum += c.get_votes_for_object(&s(v), &s(a), &s(o));
        }
        assert_eq!(c.get_total_votes(&s(a), &s(o)), sum);
    }
}

/// Each voter's locked voting power is its free voting power plus its votes.
fn assert_balanced(c: &MetaVoteContract, voters: &[&str]) {
    let mut sum_vp = 0u128;
    for v in voters {
        if let Some(voter) = c.voters.get(&s(v)) {
            let locked: u128 = voter.locking_positions.iter().map(|p| p.voting_power).sum();
            assert_eq!(locked, voter.available_voting_power + c.get_used_voting_power(&s(v)));
            sum_vp += locked;
        }
    }
    assert_eq!(c.total_voting_power, sum_vp);
}

#[test]
fn new_refuses_bad_periods() {
    let r = MetaVoteContract::new(
        s("owner.near"),
        s("operator.near"),
        300,
        300,
        E6,
        10,
        10,
        mpdao(),
        stnear(),
        0,
        s("prev.near"),
    );
    assert!(matches!(r, Err(MetaVoteError::InvalidUnbondPeriods)));
}

#[test]
fn bond_three_mpdao_for_sixty_days() {
    let mut c = contract();
    assert_eq!(c.ft_on_transfer(&mpdao(), &s("alice.near"), 3 * E6, &s("60")), Ok(0));
    assert_eq!(c.get_available_voting_power(&s("alice.near")), 3 * E24);
    assert_eq!(c.get_total_voting_power(), 3 * E24);
    assert_eq!(c.get_voters_count(), 1);
}

#[test]
fn bond_three_mpdao_for_one_hundred_twenty_days() {
    let mut c = contract();
    assert_eq!(c.ft_on_transfer(&mpdao(), &s("bob.near"), 3 * E6, &s("120")), Ok(0));
    assert_eq!(c.get_available_voting_power(&s("bob.near")), 6 * E24);
    assert_eq!(c.get_locked_balance(&s("bob.near")), 3 * E6);
}

#[test]
fn bond_errors() {
    let mut c = contract();
    assert_eq!(c.ft_on_transfer(&s("other.near"), &s("a.near"), 3 * E6, &s("60")), Err(MetaVoteError::WrongToken));
    assert_eq!(c.ft_on_transfer(&mpdao(), &s("a.near"), E6 - 1, &s("60")), Err(MetaVoteError::BelowMinDeposit));
    assert_eq!(c.ft_on_transfer(&mpdao(), &s("a.near"), 3 * E6, &s("29")), Err(MetaVoteError::UnbondPeriodOutOfRange));
    assert_eq!(c.ft_on_transfer(&mpdao(), &s("a.near"), 3 * E6, &s("301")), Err(MetaVoteError::UnbondPeriodOutOfRange));
    assert_eq!(c.ft_on_transfer(&mpdao(), &s("a.near"), 3 * E6, &s("sixty")), Err(MetaVoteError::BadDaysMessage));
    assert_eq!(c.get_voters_count(), 0);
    assert_eq!(c.total_voting_power, 0);
}

#[test]
fn owner_bonds_for_another_account() {
    let mut c = contract();
    let msg = s("[\"carol.near\",60]");
    assert_eq!(c.ft_on_transfer(&mpdao(), &s("owner.near"), 2 * E6, &msg), Ok(0));
    assert_eq!(c.get_available_voting_power(&s("carol.near")), 2 * E24);
    assert_eq!(c.get_available_voting_power(&s("owner.near")), 0);
    // Others cannot.
    assert_eq!(c.ft_on_transfer(&mpdao(), &s("dave.near"), 2 * E6, &msg), Err(MetaVoteError::OnlyOwnerDepositsForOthers));
    assert_eq!(
        c.ft_on_transfer(&mpdao(), &s("owner.near"), 2 * E6, &s("[\"carol.near\"")),
        Err(MetaVoteError::BadDepositMessage)
    );
}

#[test]
fn too_many_locking_positions() {
    let mut c = MetaVoteContract::new(
        s("owner.near"),
        s("operator.near"),
        30,
        300,
        E6,
        2,
        10,
        mpdao(),
        stnear(),
        0,
        s("prev.near"),
    )
    .unwrap();
    assert_eq!(c.ft_on_transfer(&mpdao(), &s("a.near"), E6, &s("30")), Ok(0));
    assert_eq!(c.ft_on_transfer(&mpdao(), &s("a.near"), E6, &s("40")), Ok(0));
    // The same period adds to the locked position.
    assert_eq!(c.ft_on_transfer(&mpdao(), &s("a.near"), E6, &s("40")), Ok(0));
    assert_eq!(c.ft_on_transfer(&mpdao(), &s("a.near"), E6, &s("50")), Err(MetaVoteError::TooManyLockingPositions));
    assert_eq!(c.voters.get(&s("a.near")).unwrap().locking_positions.len(), 2);
}

#[test]
fn vote_unvote_and_totals() {
    let mut c = contract();
    c.ft_on_transfer(&mpdao(), &s("a.near"), 6 * E6, &s("60")).unwrap();
    c.ft_on_transfer(&mpdao(), &s("b.near"), 3 * E6, &s("60")).unwrap();
    assert_eq!(c.vote(&s("a.near"), 2 * E24, &s("app.near"), &s("1")), Ok(()));
    assert_eq!(c.vote(&s("b.near"), E24, &s("app.near"), &s("1")), Ok(()));
    assert_eq!(c.vote(&s("a.near"), E24, &s("app.near"), &s("2")), Ok(()));
    // A second vote for the same object adds to the first.
    assert_eq!(c.vote(&s("a.near"), E24, &s("app.near"), &s("1")), Ok(()));
    assert_eq!(c.get_votes_for_object(&s("a.near"), &s("app.near"), &s("1")), 3 * E24);
    assert_eq!(c.rebalance(&s("a.near"), E24, &s("app.near"), &s("2"), T0), Err(MetaVoteError::SameVotingPower));
    assert_eq!(c.vote(&s("b.near"), 3 * E24, &s("app.near"), &s("3")), Err(MetaVoteError::NotEnoughVotingPower));
    assert_eq!(c.vote(&s("nobody.near"), E24, &s("app.near"), &s("3")), Err(MetaVoteError::VoterNotFound));
    assert_eq!(c.get_total_votes(&s("app.near"), &s("1")), 4 * E24);
    assert_eq!(c.get_used_voting_power(&s("a.near")), 4 * E24);
    assert_eq!(c.get_available_voting_power(&s("a.near")), 2 * E24);
    assert_totals_match(&c, &["a.near", "b.near"], &[("app.near", "1"), ("app.near", "2")]);
    assert_balanced(&c, &["a.near", "b.near"]);

    assert_eq!(c.unvote(&s("a.near"), &s("app.near"), &s("1"), T0), Ok(()));
    assert_eq!(c.unvote(&s("a.near"), &s("app.near"), &s("1"), T0), Err(MetaVoteError::NoVotesForObject));
    assert_eq!(c.get_total_votes(&s("app.near"), &s("1")), E24);
    assert_eq!(c.get_available_voting_power(&s("a.near")), 5 * E24);
    assert_totals_match(&c, &["a.near", "b.near"], &[("app.near", "1"), ("app.near", "2")]);
    assert_balanced(&c, &["a.near", "b.near"]);

    let by_app = c.get_votes_by_app(&s("app.near"));
    assert_eq!(by_app, vec![(s("1"), E24), (s("2"), E24)]);
    let by_voter = c.get_votes_by_voter(&s("a.near"));
    assert_eq!(by_voter.len(), 1);
    assert_eq!(by_voter[0].id, s("2"));
    assert_eq!(by_voter[0].current_votes, E24);
}

#[test]
fn votes_by_contract_sorted_smallest_first() {
    let mut c = contract();
    c.ft_on_transfer(&mpdao(), &s("a.near"), 6 * E6, &s("60")).unwrap();
    c.vote(&s("a.near"), 3 * E24, &s("app.near"), &s("x")).unwrap();
    c.vote(&s("a.near"), E24, &s("app.near"), &s("y")).unwrap();
    c.vote(&s("a.near"), 2 * E24, &s("app.near"), &s("z")).unwrap();
    let list = c.get_votes_by_contract(&s("app.near"));
    let ids: Vec<String> = list.iter().map(|o| o.id.clone()).collect();
    assert_eq!(ids, vec![s("y"), s("z"), s("x")]);
    assert!(c.get_votes_by_contract(&s("none.near")).is_empty());
}

#[test]
fn lock_in_vote_filter() {
    let mut c = contract();
    c.ft_on_transfer(&mpdao(), &s("a.near"), 6 * E6, &s("60")).unwrap();
    c.vote(&s("a.near"), E24, &s("app.near"), &s("5|apple")).unwrap();
    c.vote(&s("a.near"), E24, &s("app.near"), &s("6|pear")).unwrap();
    assert_eq!(
        c.set_lock_in_vote_filters(&s("a.near"), T0 + DAY, 5, Some(s("app.near"))),
        Err(MetaVoteError::OnlyOperator)
    );
    assert_eq!(c.set_lock_in_vote_filters(&s("operator.near"), T0 + DAY, 5, Some(s("app.near"))), Ok(()));
    assert_eq!(c.get_lock_in_vote_filters(), (T0 + DAY, Some(s("app.near")), 5));
    assert!(c.is_vote_locked(&s("app.near"), &s("5|apple"), T0));
    assert!(!c.is_vote_locked(&s("app.near"), &s("6|pear"), T0));
    assert!(!c.is_vote_locked(&s("app.near"), &s("5|apple"), T0 + DAY));
    assert_eq!(c.unvote(&s("a.near"), &s("app.near"), &s("5|apple"), T0), Err(MetaVoteError::VotesLocked(T0 + DAY)));
    assert_eq!(c.unvote(&s("a.near"), &s("app.near"), &s("6|pear"), T0), Ok(()));
    assert_eq!(c.unvote(&s("a.near"), &s("app.near"), &s("5|apple"), T0 + DAY), Ok(()));
}

#[test]
fn withdraw_after_unbond_and_failed_transfer() {
    let mut c = contract();
    let a = s("a.near");
    c.ft_on_transfer(&mpdao(), &a, 2 * E6, &s("30")).unwrap();
    assert_eq!(c.unlock_position(&a, 0, T0), Ok(()));
    assert_eq!(c.get_unlocking_balance(&a, T0 + DAY), 2 * E6);
    // Still unbonding: nothing free to withdraw.
    assert_eq!(c.withdraw(&a, 1, vec![], 0, T0 + DAY), Err(MetaVoteError::NothingToWithdraw));
    assert_eq!(c.withdraw(&a, 0, vec![0], 0, T0 + 31 * DAY), Err(MetaVoteError::RequiresOneYocto));
    assert_eq!(c.withdraw(&a, 1, vec![3], 0, T0 + 31 * DAY), Err(MetaVoteError::IndexOutOfRange));
    let t = c.withdraw(&a, 1, vec![0], 0, T0 + 31 * DAY).unwrap();
    assert_eq!(t, TokenTransfer { token: mpdao(), receiver: a.clone(), amount: 2 * E6, source: a.clone() });
    assert_eq!(c.get_voters_count(), 0);
    // The transfer failed: the amount comes back.
    assert_eq!(c.after_transfer_mpdao_callback(&a, 2 * E6, false), Ok(()));
    assert_eq!(c.get_balance(&a, T0 + 31 * DAY), 2 * E6);
    assert_eq!(c.after_transfer_mpdao_callback(&a, 2 * E6, true), Ok(()));
    assert_eq!(c.get_balance(&a, T0 + 31 * DAY), 2 * E6);
    let t = c.withdraw_all(&a, 1, T0 + 31 * DAY).unwrap();
    assert_eq!(t.amount, 2 * E6);
}

#[test]
fn partial_withdraw_keeps_the_rest() {
    let mut c = contract();
    let a = s("a.near");
    c.ft_on_transfer(&mpdao(), &a, 5 * E6, &s("30")).unwrap();
    c.unlock_position(&a, 0, T0).unwrap();
    assert_eq!(c.withdraw(&a, 1, vec![0], 6 * E6, T0 + 30 * DAY + 1), Err(MetaVoteError::NotEnoughBalance));
    let t = c.withdraw(&a, 1, vec![0], 2 * E6, T0 + 30 * DAY + 1).unwrap();
    assert_eq!(t.amount, 2 * E6);
    assert_eq!(c.voters.get(&a).unwrap().balance, 3 * E6);
    assert_eq!(c.voters.get(&a).unwrap().locking_positions.len(), 0);
}

#[test]
fn claims_of_stnear() {
    let mut c = contract();
    let msg = s("for-claims:[[\"a.near\",15000],[\"b.near\",5000],[\"a.near\",1]]");
    // Amounts in stNEAR have 4 decimals: 1.5 + 0.5 + 0.0001 stNEAR.
    let total = 20001 * 100_000_000_000_000_000_000u128;
    assert_eq!(c.ft_on_transfer(&stnear(), &s("operator.near"), total, &msg), Ok(0));
    assert_eq!(c.get_claimable_stnear(&s("a.near")), 15001 * 100_000_000_000_000_000_000u128);
    assert_eq!(c.total_unclaimed_stnear, total);
    assert_eq!(c.claim_stnear(&s("b.near"), 6000 * 100_000_000_000_000_000_000u128), Err(MetaVoteError::NotEnoughClaimable));
    let t = c.claim_stnear(&s("b.near"), 5000 * 100_000_000_000_000_000_000u128).unwrap();
    assert_eq!(t.token, stnear());
    assert_eq!(t.receiver, s("b.near"));
    assert_eq!(c.get_claimable_stnear(&s("b.near")), 0);
    assert_eq!(c.total_unclaimed_stnear, 15001 * 100_000_000_000_000_000_000u128);
    // The transfer failed: the claim comes back.
    assert_eq!(c.after_transfer_stnear_callback(&s("b.near"), t.amount, false), Ok(()));
    assert_eq!(c.get_claimable_stnear(&s("b.near")), t.amount);
    assert_eq!(c.total_unclaimed_stnear, total);
    let page = c.get_stnear_claims(0, 10);
    assert_eq!(page.len(), 2);
}

#[test]
fn claims_message_errors() {
    let mut c = contract();
    assert_eq!(
        c.ft_on_transfer(&mpdao(), &s("op.near"), 10 * E6, &s("for-claims:[[\"a.near\",0]]")),
        Err(MetaVoteError::ZeroClaim)
    );
    assert_eq!(
        c.ft_on_transfer(&mpdao(), &s("op.near"), 10 * E6, &s("for-claims:{")),
        Err(MetaVoteError::BadClaimsMessage)
    );
    assert_eq!(
        c.ft_on_transfer(&s("x.near"), &s("op.near"), 10 * E6, &s("for-claims:[[\"a.near\",10]]")),
        Err(MetaVoteError::UnknownToken)
    );
    assert_eq!(c.get_claimable_mpdao(&s("a.near")), 0);
}

#[test]
fn evm_delegation_flow() {
    let mut c = contract();
    let op = s("operator.near");
    let evm = s("0xabc");
    let pseudo = s("0xabc.evmp.near");
    // The operator mirrors 3 mpDAO locked for 60 days.
    assert_eq!(c.operator_mirror_lps(&s("x.near"), &evm, vec![(60, 3 * E6)]), Err(MetaVoteError::OnlyOperator));
    assert_eq!(c.operator_mirror_lps(&op, &evm, vec![(60, 3 * E6)]), Ok(()));
    assert_eq!(c.get_available_voting_power(&pseudo), 3 * E24);
    assert_eq!(c.total_voting_power, 3 * E24);

    assert_eq!(c.pre_delegate_evm_address(&s("alice.near"), 0, evm.clone(), s("sig")), Err(MetaVoteError::RequiresOneYocto));
    assert_eq!(c.pre_delegate_evm_address(&s("alice.near"), 1, s("0x.a"), s("sig")), Err(MetaVoteError::EvmAddressWithDot));
    assert_eq!(c.pre_delegate_evm_address(&s("alice.near"), 1, evm.clone(), s("sig")), Ok(()));
    assert_eq!(c.get_pre_delegate_evm_address(&evm), Some((s("alice.near"), s("sig"))));
    assert_eq!(c.verify_delegate(&s("alice.near"), &evm), Err(MetaVoteError::NotDelegatedToCaller));
    assert_eq!(c.operator_confirm_delegated_evm_address(&op, 1, &evm), Ok(()));
    assert_eq!(c.get_pre_delegate_evm_address(&evm), None);
    assert_eq!(c.get_delegate(&evm), Some(s("alice.near")));
    assert_eq!(c.get_delegating_evm_addresses(&s("alice.near")), vec![evm.clone()]);
    assert_eq!(c.get_delegation_signature(&evm), Ok((s("alice.near"), s("sig"))));
    assert_eq!(c.verify_delegate(&s("alice.near"), &evm), Ok(pseudo.clone()));
    assert_eq!(c.verify_delegate(&s("bob.near"), &evm), Err(MetaVoteError::NotDelegatedToCaller));

    assert_eq!(c.vote_delegated(&s("alice.near"), &evm, 2 * E24, &s("app.near"), &s("1")), Ok(()));
    assert_eq!(c.vote_delegated(&s("bob.near"), &evm, E24, &s("app.near"), &s("1")), Err(MetaVoteError::NotDelegatedToCaller));
    assert_eq!(c.get_votes_for_object(&pseudo, &s("app.near"), &s("1")), 2 * E24);

    // The positions shrink below the votes: the vote is taken back.
    assert_eq!(c.operator_mirror_lps(&op, &evm, vec![(30, E6)]), Ok(()));
    assert_eq!(c.get_votes_for_object(&pseudo, &s("app.near"), &s("1")), 0);
    assert_eq!(c.get_total_votes(&s("app.near"), &s("1")), 0);
    assert_eq!(c.get_available_voting_power(&pseudo), E24 / 2);
    assert_eq!(c.total_voting_power, E24 / 2);

    // Positions large enough keep the votes.
    assert_eq!(c.operator_mirror_lps(&op, &evm, vec![(60, 2 * E6), (120, E6)]), Ok(()));
    assert_eq!(c.vote_delegated(&s("alice.near"), &evm, E24, &s("app.near"), &s("2")), Ok(()));
    assert_eq!(c.operator_mirror_lps(&op, &evm, vec![(60, E6)]), Ok(()));
    assert_eq!(c.get_votes_for_object(&pseudo, &s("app.near"), &s("2")), E24);
    assert_eq!(c.get_available_voting_power(&pseudo), 0);
    assert_eq!(c.unvote_delegated(&s("alice.near"), &evm, &s("app.near"), &s("2"), T0), Ok(()));
    assert_eq!(c.get_available_voting_power(&pseudo), E24);

    // Two locked positions for one period are refused, and nothing changes.
    assert_eq!(c.operator_mirror_lps(&op, &evm, vec![(60, E6), (60, E6)]), Err(MetaVoteError::LockedPositionExists));
    assert_eq!(c.get_available_voting_power(&pseudo), E24);

    assert_eq!(c.get_delegates(0, 10), Ok(vec![(s("alice.near"), vec![evm.clone()])]));
    assert_eq!(c.get_delegates(5, 10), Err(MetaVoteError::FromIndexOutOfRange));
    assert_eq!(c.remove_delegated_evm_address(&s("alice.near"), 1, &evm), Ok(()));
    assert_eq!(c.get_delegate(&evm), None);
    assert_eq!(c.get_delegating_evm_addresses(&s("alice.near")), Vec::<String>::new());
}

#[test]
fn migration_creates_positions() {
    let mut c = contract();
    let prev = s("prev-gov.near");
    assert_eq!(
        c.migration_create_lps(&s("x.near"), &s("a.near"), vec![(E6, 60)], None),
        Err(MetaVoteError::OnlyPrevGovContract)
    );
    // Amounts come with 24 decimals and become mpDAO (6 decimals).
    assert_eq!(c.migration_create_lps(&prev, &s("a.near"), vec![(E24, 60), (2 * E24, 120)], Some(s("data"))), Ok(()));
    assert_eq!(c.get_available_voting_power(&s("a.near")), E24 + 4 * E24);
    assert_eq!(c.get_locked_balance(&s("a.near")), 3 * E6);
    assert_eq!(c.total_voting_power, 5 * E24);
    // The data is kept under the calling contract's account, once.
    assert_eq!(c.get_airdrop_account(&prev), Ok(s("data")));
    assert!(c.check_if_registered_for_airdrops(&prev));
    assert_eq!(c.migration_create_lps(&prev, &s("b.near"), vec![], Some(s("other"))), Ok(()));
    assert_eq!(c.get_airdrop_account(&prev), Ok(s("data")));
    assert!(c.check_if_user_is_registerd(&prev));
    assert!(!c.check_if_user_is_registerd(&s("a.near")));
    assert_eq!(c.get_airdrop_accounts(0, 10), vec![(prev.clone(), s("data"))]);
    assert_eq!(c.operator_multi_set_airdrop_data(&s("operator.near"), vec![(s("b.near"), s("e"))]), Ok(()));
    assert_eq!(c.get_airdrop_account(&s("b.near")), Ok(s("e")));
    assert_eq!(c.get_airdrop_account(&s("c.near")), Err(MetaVoteError::AccountDataNotFound));
}

#[test]
fn owner_setters_and_info() {
    let mut c = contract();
    assert_eq!(c.set_operator_id(&s("x.near"), 1, s("op2.near")), Err(MetaVoteError::OnlyOwner));
    assert_eq!(c.set_operator_id(&s("owner.near"), 0, s("op2.near")), Err(MetaVoteError::RequiresOneYocto));
    assert_eq!(c.set_operator_id(&s("owner.near"), 1, s("op2.near")), Ok(()));
    assert_eq!(c.get_operator_id(), s("op2.near"));
    assert_eq!(c.update_min_unbond_period(&s("owner.near"), 1, 60), Ok(()));
    assert_eq!(c.update_max_unbond_period(&s("owner.near"), 1, 200), Ok(()));
    assert_eq!(c.get_locking_period(), (60, 200));
    assert_eq!(c.update_registration_cost(&s("op2.near"), 5), Err(MetaVoteError::OnlyOwner));
    assert_eq!(c.update_registration_cost(&s("owner.near"), 5), Ok(()));
    assert_eq!(c.get_registration_cost(), 5);
    assert_eq!(c.update_airdrop_user_data(&s("z.near"), 4, &s("d")), Err(MetaVoteError::WrongRegistrationCost));
    assert_eq!(c.update_airdrop_user_data(&s("z.near"), 5, &s("d")), Ok(()));
    let info = c.get_contract_info();
    assert_eq!(info.operator_id, s("op2.near"));
    assert_eq!(info.min_unbond_period, 60);
    assert_eq!(c.set_owner_id(&s("owner.near"), 1, s("o2.near")), Ok(()));
    assert_eq!(c.get_owner_id(), s("o2.near"));
}

#[test]
fn unlock_partial_and_extend_errors() {
    let mut c = contract();
    let a = s("a.near");
    c.ft_on_transfer(&mpdao(), &a, 5 * E6, &s("60")).unwrap();
    assert_eq!(c.unlock_partial_position(&a, 0, 6 * E6, T0), Err(MetaVoteError::AmountTooLarge));
    assert_eq!(c.unlock_partial_position(&a, 3, E6, T0), Err(MetaVoteError::IndexOutOfRange));
    assert_eq!(c.unlock_partial_position(&a, 0, 5 * E6, T0), Ok(()));
    assert_eq!(c.get_available_voting_power(&a), 0);
    assert_eq!(c.get_unlocking_balance(&a, T0), 5 * E6);
    assert_eq!(c.locking_position_extend_days(&a, 0, 90), Err(MetaVoteError::PositionNotLocked));
}

#[test]
fn voting_power_for_one_position() {
    assert_eq!(calculate_voting_power(E6, 60), E24);
}

#[test]
fn unvote_undoes_vote() {
    let mut c = contract();
    c.ft_on_transfer(&mpdao(), &s("a.near"), 6 * E6, &s("60")).unwrap();
    c.ft_on_transfer(&mpdao(), &s("b.near"), 3 * E6, &s("60")).unwrap();
    c.vote(&s("b.near"), E24, &s("app.near"), &s("1")).unwrap();
    let before_available = c.get_available_voting_power(&s("a.near"));
    let before_total = c.get_total_votes(&s("app.near"), &s("1"));
    let before_by_app = c.get_votes_by_app(&s("app.near"));
    c.vote(&s("a.near"), 2 * E24, &s("app.near"), &s("1")).unwrap();
    assert_eq!(c.get_total_votes(&s("app.near"), &s("1")), before_total + 2 * E24);
    c.unvote(&s("a.near"), &s("app.near"), &s("1"), T0).unwrap();
    assert_eq!(c.get_available_voting_power(&s("a.near")), before_available);
    assert_eq!(c.get_total_votes(&s("app.near"), &s("1")), before_total);
    assert_eq!(c.get_votes_by_app(&s("app.near")), before_by_app);
    assert!(c.get_votes_by_voter(&s("a.near")).is_empty());
    assert_eq!(c.get_available_voting_power(&s("b.near")), 2 * E24);
}

#[test]
fn nothing_leaves_before_the_unbond_period() {
    let mut c = contract();
    let a = s("a.near");
    c.ft_on_transfer(&mpdao(), &a, 4 * E6, &s("30")).unwrap();
    c.ft_on_transfer(&mpdao(), &a, 2 * E6, &s("60")).unwrap();
    c.unlock_position(&a, 0, T0).unwrap();
    c.unlock_position(&a, 1, T0).unwrap();
    // After 40 days only the 30-day position is free.
    let now = T0 + 40 * DAY;
    assert_eq!(c.get_balance(&a, now), 4 * E6);
    assert_eq!(c.withdraw(&a, 1, vec![0, 1], 5 * E6, now), Err(MetaVoteError::NotEnoughBalance));
    let t = c.withdraw(&a, 1, vec![0, 1], 0, now).unwrap();
    assert_eq!(t.amount, 4 * E6);
    assert_eq!(c.get_unlocking_balance(&a, now), 2 * E6);
}

fn register_delegate(c: &mut MetaVoteContract, delegate: &str, evm: &str) {
    let sig = format!("SOME-SIGNATURE-FOR-DELEGATE-TO-{}", delegate);
    assert_eq!(c.pre_delegate_evm_address(&s(delegate), 1, s(evm), sig), Ok(()));
    assert_eq!(c.operator_confirm_delegated_evm_address(&s("operator.near"), 1, &s(evm)), Ok(()));
}

#[test]
fn redelegation_moves_the_address() {
    let mut c = contract();
    let evm1 = "0xSomeEvmAddress1";
    let evm2 = "0xSomeEvmAddress02";
    register_delegate(&mut c, "delegate-1.near", evm1);
    assert_eq!(c.get_delegating_evm_addresses(&s("delegate-1.near")), vec![s(evm1)]);
    assert_eq!(
        c.get_delegation_signature(&s(evm1)),
        Ok((s("delegate-1.near"), s("SOME-SIGNATURE-FOR-DELEGATE-TO-delegate-1.near")))
    );
    // Another account registers the same address: it leaves the first one.
    register_delegate(&mut c, "delegate-2.near", evm1);
    assert!(c.get_delegating_evm_addresses(&s("delegate-1.near")).is_empty());
    assert_eq!(
        c.get_delegation_signature(&s(evm1)),
        Ok((s("delegate-2.near"), s("SOME-SIGNATURE-FOR-DELEGATE-TO-delegate-2.near")))
    );
    assert_eq!(c.get_delegating_evm_addresses(&s("delegate-2.near")), vec![s(evm1)]);
    register_delegate(&mut c, "delegate-2.near", evm2);
    assert_eq!(c.get_delegating_evm_addresses(&s("delegate-2.near")), vec![s(evm1), s(evm2)]);
    // Confirming with no pending request changes nothing.
    assert_eq!(c.operator_confirm_delegated_evm_address(&s("operator.near"), 1, &s("0xnone")), Ok(()));
    assert_eq!(c.get_delegate(&s("0xnone")), None);
}

#[test]
fn extend_days_stays_within_the_maximum() {
    let mut c = contract();
    let a = s("a.near");
    c.ft_on_transfer(&mpdao(), &a, 5 * E6, &s("60")).unwrap();
    assert_eq!(c.locking_position_extend_days(&a, 0, 60), Err(MetaVoteError::PeriodNotGreater));
    assert_eq!(c.locking_position_extend_days(&a, 0, 301), Err(MetaVoteError::UnbondPeriodOutOfRange));
    assert_eq!(c.locking_position_extend_days(&a, 0, 400), Err(MetaVoteError::UnbondPeriodOutOfRange));
    assert_eq!(c.get_available_voting_power(&a), 5 * E24);
    assert_eq!(c.get_all_locking_positions(&a, T0)[0].locking_period, 60);
    assert_eq!(c.locking_position_extend_days(&a, 0, 300), Ok(()));
    assert_eq!(c.get_available_voting_power(&a), 25 * E24);
    assert_eq!(c.total_voting_power, 25 * E24);
    assert_eq!(c.get_all_locking_positions(&a, T0)[0].locking_period, 300);
}

fn vote_list(c: &MetaVoteContract, voter: &str) -> Vec<(String, String, u128)> {
    c.get_votes_by_voter(&s(voter)).into_iter().map(|o| (o.votable_contract, o.id, o.current_votes)).collect()
}

#[test]
fn votes_keep_their_order() {
    let mut c = contract();
    let a = s("a.near");
    c.ft_on_transfer(&mpdao(), &a, 10 * E6, &s("60")).unwrap();
    c.vote(&a, E24, &s("app1.near"), &s("1")).unwrap();
    c.vote(&a, E24, &s("app2.near"), &s("1")).unwrap();
    c.vote(&a, E24, &s("app1.near"), &s("2")).unwrap();
    c.vote(&a, E24, &s("app1.near"), &s("3")).unwrap();
    // A new address goes at the end, a new object at the end of its address.
    assert_eq!(c.voters.get(&a).unwrap().vote_positions.keys, vec![s("app1.near"), s("app2.near")]);
    assert_eq!(
        vote_list(&c, "a.near"),
        vec![
            (s("app1.near"), s("1"), E24),
            (s("app1.near"), s("2"), E24),
            (s("app1.near"), s("3"), E24),
            (s("app2.near"), s("1"), E24),
        ]
    );
    // More votes for an object keep its place.
    c.vote(&a, E24, &s("app1.near"), &s("1")).unwrap();
    assert_eq!(c.voters.get(&a).unwrap().vote_positions.get(&s("app1.near")).unwrap().keys, vec![s("1"), s("2"), s("3")]);
    // The last object of an address takes the place of one taken back.
    c.unvote(&a, &s("app1.near"), &s("1"), T0).unwrap();
    assert_eq!(c.voters.get(&a).unwrap().vote_positions.get(&s("app1.near")).unwrap().keys, vec![s("3"), s("2")]);
    // An address left without objects leaves the list.
    c.unvote(&a, &s("app2.near"), &s("1"), T0).unwrap();
    assert_eq!(c.voters.get(&a).unwrap().vote_positions.keys, vec![s("app1.near")]);
    assert_eq!(c.get_total_votes(&s("app2.near"), &s("1")), 0);
    assert_eq!(c.get_available_voting_power(&a), 8 * E24);
}

#[test]
fn unvote_of_the_only_object_drops_the_address() {
    let mut c = contract();
    let a = s("a.near");
    c.ft_on_transfer(&mpdao(), &a, 6 * E6, &s("60")).unwrap();
    c.vote(&a, E24, &s("app.near"), &s("1")).unwrap();
    c.vote(&a, 2 * E24, &s("other.near"), &s("9")).unwrap();
    assert_eq!(c.voters.get(&a).unwrap().vote_positions.keys, vec![s("app.near"), s("other.near")]);
    c.unvote(&a, &s("app.near"), &s("1"), T0).unwrap();
    // The last address takes the place of the one that left.
    assert_eq!(c.voters.get(&a).unwrap().vote_positions.keys, vec![s("other.near")]);
    assert_eq!(vote_list(&c, "a.near"), vec![(s("other.near"), s("9"), 2 * E24)]);
}

/// The free balance plus the amounts of all positions.
fn holdings(c: &MetaVoteContract, voter: &str) -> u128 {
    let v = c.voters.get(&s(voter)).unwrap();
    v.balance + v.locking_positions.iter().map(|p| p.amount).sum::<u128>()
}

#[test]
fn relocking_keeps_what_the_voter_holds() {
    let mut c = contract();
    let a = s("a.near");
    c.ft_on_transfer(&mpdao(), &a, 5 * E6, &s("30")).unwrap();
    c.ft_on_transfer(&mpdao(), &a, 4 * E6, &s("90")).unwrap();
    c.unlock_position(&a, 0, T0).unwrap();
    c.unlock_position(&a, 1, T0).unwrap();
    assert_eq!(holdings(&c, "a.near"), 9 * E6);
    // After the 30-day unbond, 2 mpDAO of it are bonded again; the rest goes to the balance.
    let now = T0 + 31 * DAY;
    assert_eq!(c.relock_partial_position(&a, 0, 2 * E6, 60, 0, now), Ok(()));
    assert_eq!(c.voters.get(&a).unwrap().balance, 3 * E6);
    assert_eq!(c.get_locked_balance(&a), 2 * E6);
    assert_eq!(holdings(&c, "a.near"), 9 * E6);
    // The 90-day position, still unbonding, is bonded again with 1 mpDAO of the balance.
    let index = c.get_all_locking_positions(&a, now).iter().find(|p| p.amount == 4 * E6).unwrap().index.unwrap();
    assert_eq!(c.relock_position(&a, index, 60, E6, now), Ok(()));
    assert_eq!(c.voters.get(&a).unwrap().balance, 2 * E6);
    assert_eq!(c.get_locked_balance(&a), 7 * E6);
    assert_eq!(holdings(&c, "a.near"), 9 * E6);
    // A refused relock changes nothing.
    assert_eq!(c.relock_position(&a, 0, 60, 10 * E6, now), Err(MetaVoteError::NotEnoughBalance));
    assert_eq!(holdings(&c, "a.near"), 9 * E6);
}

#[test]
fn confirming_an_address_twice_lists_it_once() {
    let mut c = contract();
    register_delegate(&mut c, "delegate.near", "0xaa");
    register_delegate(&mut c, "delegate.near", "0xbb");
    // Confirming it again for the same account changes nothing.
    register_delegate(&mut c, "delegate.near", "0xaa");
    assert_eq!(c.get_delegating_evm_addresses(&s("delegate.near")), vec![s("0xaa"), s("0xbb")]);
    assert_eq!(c.get_delegate(&s("0xaa")), Some(s("delegate.near")));
}

#[test]
fn rebalance_to_zero_is_unvote() {
    let mut c = contract();
    let a = s("a.near");
    c.ft_on_transfer(&mpdao(), &a, 10 * E6, &s("60")).unwrap();
    c.vote(&a, E24, &s("app1.near"), &s("1")).unwrap();
    c.vote(&a, E24, &s("app2.near"), &s("1")).unwrap();
    c.vote(&a, E24, &s("app3.near"), &s("1")).unwrap();
    // A new amount other than zero keeps the object in its place.
    assert_eq!(c.rebalance(&a, 3 * E24, &s("app1.near"), &s("1"), T0), Ok(()));
    assert_eq!(c.voters.get(&a).unwrap().vote_positions.keys, vec![s("app1.near"), s("app2.near"), s("app3.near")]);
    assert_eq!(c.get_total_votes(&s("app1.near"), &s("1")), 3 * E24);
    // Zero takes the votes back: the address leaves, the last one takes its place.
    assert_eq!(c.rebalance(&a, 0, &s("app1.near"), &s("1"), T0), Ok(()));
    assert_eq!(c.voters.get(&a).unwrap().vote_positions.keys, vec![s("app3.near"), s("app2.near")]);
    assert_eq!(c.get_total_votes(&s("app1.near"), &s("1")), 0);
    assert_eq!(c.votes.keys, vec![s("app3.near"), s("app2.near")]);
    assert_eq!(c.get_available_voting_power(&a), 8 * E24);
    assert_eq!(c.rebalance(&a, E24, &s("app2.near"), &s("1"), T0), Err(MetaVoteError::SameVotingPower));
}

#[test]
fn contract_totals_keep_their_order() {
    let mut c = contract();
    let a = s("a.near");
    let b = s("b.near");
    c.ft_on_transfer(&mpdao(), &a, 10 * E6, &s("60")).unwrap();
    c.ft_on_transfer(&mpdao(), &b, 10 * E6, &s("60")).unwrap();
    c.vote(&a, E24, &s("app.near"), &s("1")).unwrap();
    c.vote(&b, 2 * E24, &s("app.near"), &s("2")).unwrap();
    c.vote(&a, 3 * E24, &s("app.near"), &s("3")).unwrap();
    c.vote(&b, E24, &s("app.near"), &s("1")).unwrap();
    assert_eq!(
        c.get_votes_by_app(&s("app.near")),
        vec![(s("1"), 2 * E24), (s("2"), 2 * E24), (s("3"), 3 * E24)]
    );
    // A total that stays above zero keeps its place.
    c.unvote(&a, &s("app.near"), &s("1"), T0).unwrap();
    assert_eq!(
        c.get_votes_by_app(&s("app.near")),
        vec![(s("1"), E24), (s("2"), 2 * E24), (s("3"), 3 * E24)]
    );
    // A total that reaches zero leaves; the last object takes its place.
    c.unvote(&b, &s("app.near"), &s("1"), T0).unwrap();
    assert_eq!(c.get_votes_by_app(&s("app.near")), vec![(s("3"), 3 * E24), (s("2"), 2 * E24)]);
}

#[test]
fn delegate_accounts_keep_their_order() {
    let mut c = contract();
    register_delegate(&mut c, "d1.near", "0x01");
    register_delegate(&mut c, "d2.near", "0x02");
    register_delegate(&mut c, "d3.near", "0x03");
    let names = |c: &MetaVoteContract| c.get_delegates(0, 10).unwrap().into_iter().map(|(k, _)| k).collect::<Vec<String>>();
    assert_eq!(names(&c), vec![s("d1.near"), s("d2.near"), s("d3.near")]);
    // d1's only address moves to a new account: d1 leaves, the last account
    // takes its place, and the new account goes at the end.
    register_delegate(&mut c, "d4.near", "0x01");
    assert_eq!(names(&c), vec![s("d3.near"), s("d2.near"), s("d4.near")]);
    // Removing an address keeps every account in its place.
    assert_eq!(c.remove_delegated_evm_address(&s("d2.near"), 1, &s("0x02")), Ok(()));
    assert_eq!(names(&c), vec![s("d3.near"), s("d2.near"), s("d4.near")]);
    assert!(c.get_delegating_evm_addresses(&s("d2.near")).is_empty());
}

#[test]
fn mirroring_keeps_the_order_of_the_totals() {
    let mut c = contract();
    let op = s("operator.near");
    let evm = s("0xfeed");
    let pseudo = s("0xfeed.evmp.near");
    c.ft_on_transfer(&mpdao(), &s("b.near"), 10 * E6, &s("60")).unwrap();
    register_delegate(&mut c, "alice.near", "0xfeed");
    assert_eq!(c.operator_mirror_lps(&op, &evm, vec![(60, 3 * E6)]), Ok(()));
    c.vote(&s("b.near"), E24, &s("app.near"), &s("0")).unwrap();
    c.vote_delegated(&s("alice.near"), &evm, E24, &s("app.near"), &s("1")).unwrap();
    c.vote_delegated(&s("alice.near"), &evm, E24, &s("app.near"), &s("2")).unwrap();
    c.vote(&s("b.near"), E24, &s("app.near"), &s("3")).unwrap();
    // The new positions give less than the votes: the first vote (object 1)
    // is taken back; its total reaches zero and the last object takes its place.
    assert_eq!(c.operator_mirror_lps(&op, &evm, vec![(60, E6)]), Ok(()));
    assert_eq!(c.get_votes_for_object(&pseudo, &s("app.near"), &s("1")), 0);
    assert_eq!(
        c.get_votes_by_app(&s("app.near")),
        vec![(s("0"), E24), (s("3"), E24), (s("2"), E24)]
    );
}
