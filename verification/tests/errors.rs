use meta_vote::meta_vote::{MetaVoteContract, MetaVoteError};
use meta_vote::votes::{remove_votes, set_votes};

const E6: u128 = 1_000_000;
const E24: u128 = 1_000_000_000_000_000_000_000_000;
const DAY: u64 = 86_400_000;
const T0: u64 = 500 * DAY;

fn s(x: &str) -> String {
    x.to_string()
}

fn mpdao() -> String {
    s("mpdao-token.near")
}

fn contract_with(max_voting_positions: u8) -> MetaVoteContract {
    MetaVoteContract::new(
        s("owner.near"),
        s("operator.near"),
        30,
        300,
        E6,
        10,
        max_voting_positions,
        mpdao(),
        s("meta-pool.near"),
        0,
        s("prev.near"),
    )
    .unwrap()
}

fn with_bond(amount: u128, days: &str) -> MetaVoteContract {
    let mut c = contract_with(10);
    assert_eq!(c.ft_on_transfer(&mpdao(), &s("a.near"), amount, &s(days)), Ok(0));
    c
}

#[test]
fn partial_unlock_leaving_too_little() {
    let mut c = with_bond(5 * E6, "60");
    assert_eq!(c.unlock_partial_position(&s("a.near"), 0, 4 * E6 + E6 / 2, T0), Err(MetaVoteError::PositionBelowMinimum));
}

#[test]
fn partial_unlock_of_less_than_one_mpdao() {
    let mut c = with_bond(5 * E6, "60");
    assert_eq!(c.unlock_partial_position(&s("a.near"), 0, E6 / 2, T0), Err(MetaVoteError::BelowOneMpdao));
}

#[test]
fn bond_whose_voting_power_does_not_fit() {
    let mut c = contract_with(10);
    assert_eq!(
        c.ft_on_transfer(&mpdao(), &s("a.near"), u128::MAX / 2, &s("60")),
        Err(MetaVoteError::VotingPowerUndefined)
    );
    assert_eq!(c.get_voters_count(), 0);
}

#[test]
fn relock_of_a_locked_position() {
    let mut c = with_bond(5 * E6, "60");
    assert_eq!(c.relock_position(&s("a.near"), 0, 90, 0, T0), Err(MetaVoteError::PositionIsLocked));
    assert_eq!(c.relock_partial_position(&s("a.near"), 0, E6, 90, 0, T0), Err(MetaVoteError::PositionIsLocked));
}

#[test]
fn relock_partial_errors() {
    let mut c = with_bond(5 * E6, "60");
    c.unlock_position(&s("a.near"), 0, T0).unwrap();
    assert_eq!(
        c.relock_partial_position(&s("a.near"), 0, 6 * E6, 90, 0, T0 + DAY),
        Err(MetaVoteError::PositionAmountNotEnough)
    );
    // Everything while the position is still unbonding: that is a whole relock.
    assert_eq!(
        c.relock_partial_position(&s("a.near"), 0, 5 * E6, 90, 0, T0 + DAY),
        Err(MetaVoteError::UseRelockPosition)
    );
    assert_eq!(c.relock_position(&s("a.near"), 0, 90, E6, T0 + DAY), Err(MetaVoteError::NotEnoughBalance));
    assert_eq!(c.relock_from_balance(&s("a.near"), 90, E6), Err(MetaVoteError::NotEnoughBalance));
}

#[test]
fn clear_with_no_indexes() {
    let mut c = with_bond(5 * E6, "60");
    assert_eq!(c.clear_locking_position(&s("a.near"), vec![], T0), Err(MetaVoteError::EmptyIndexList));
    assert_eq!(c.clear_locking_position(&s("b.near"), vec![0], T0), Err(MetaVoteError::VoterNotFound));
}

#[test]
fn too_many_voting_positions() {
    let mut c = contract_with(1);
    c.ft_on_transfer(&mpdao(), &s("a.near"), 6 * E6, &s("60")).unwrap();
    assert_eq!(c.vote(&s("a.near"), E24, &s("app1.near"), &s("1")), Ok(()));
    assert_eq!(c.vote(&s("a.near"), E24, &s("app2.near"), &s("1")), Ok(()));
    assert_eq!(c.vote(&s("a.near"), E24, &s("app3.near"), &s("1")), Err(MetaVoteError::TooManyVotingPositions));
}

#[test]
fn message_cut_inside_a_character() {
    let mut c = contract_with(10);
    assert_eq!(c.ft_on_transfer(&mpdao(), &s("a.near"), E6, &s("é60")), Err(MetaVoteError::MessageNotCharBoundary));
    assert_eq!(
        c.ft_on_transfer(&mpdao(), &s("a.near"), E6, &s("for-claimsé[]")),
        Err(MetaVoteError::MessageNotCharBoundary)
    );
}

#[test]
fn distribution_that_does_not_fit() {
    let mut c = contract_with(10);
    let msg = s("for-claims:[[\"a.near\",18446744073709551615]]");
    assert_eq!(c.ft_on_transfer(&s("meta-pool.near"), &s("op.near"), 1, &msg), Err(MetaVoteError::Overflow));
    assert_eq!(c.total_unclaimed_stnear, 0);
}

#[test]
fn delegation_errors() {
    let mut c = contract_with(10);
    let evm = s("0xabc");
    assert_eq!(c.remove_delegated_evm_address(&s("alice.near"), 1, &evm), Err(MetaVoteError::NotDelegated));
    assert_eq!(c.get_delegation_signature(&evm), Err(MetaVoteError::NotDelegated));
    // A signature without the list of addresses of its account.
    c.evm_delegation_signatures.insert(&evm, (s("alice.near"), s("sig")));
    assert_eq!(c.remove_delegated_evm_address(&s("bob.near"), 1, &evm), Err(MetaVoteError::NotDelegatedToCaller));
    assert_eq!(c.remove_delegated_evm_address(&s("alice.near"), 1, &evm), Err(MetaVoteError::MissingDelegateList));
    assert_eq!(c.pre_delegate_evm_address(&s("carol.near"), 1, evm.clone(), s("sig2")), Ok(()));
    assert_eq!(c.operator_confirm_delegated_evm_address(&s("operator.near"), 1, &evm), Err(MetaVoteError::MissingDelegateList));
    assert_eq!(c.operator_confirm_delegated_evm_address(&s("x.near"), 1, &evm), Err(MetaVoteError::OnlyOperator));
}

#[test]
fn totals_that_do_not_cover_a_vote() {
    let mut c = contract_with(10);
    c.ft_on_transfer(&mpdao(), &s("a.near"), 6 * E6, &s("60")).unwrap();
    c.vote(&s("a.near"), 2 * E24, &s("app.near"), &s("1")).unwrap();
    set_votes(&mut c.votes, &s("app.near"), &s("1"), E24);
    assert_eq!(c.unvote(&s("a.near"), &s("app.near"), &s("1"), T0), Err(MetaVoteError::TotalVotesTooSmall));
    remove_votes(&mut c.votes, &s("app.near"), &s("1"));
    assert_eq!(c.unvote(&s("a.near"), &s("app.near"), &s("1"), T0), Err(MetaVoteError::NoTotalsForObject));
    assert_eq!(c.get_votes_for_object(&s("a.near"), &s("app.near"), &s("1")), 2 * E24);
}
