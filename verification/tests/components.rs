use meta_vote::kv_store::{KVStoreContract, KvError};
use meta_vote::legacy::linear_voting_power;
use meta_vote::locking_position::LockingPosition;
use meta_vote::meta_vote::view::{sort_objects_by_votes, VotableObjectJSON};
use meta_vote::mpip::contract::{MpipContract, MpipError};
use meta_vote::mpip::{MpipState, VoteType};
use meta_vote::pipeline::{PipelineContract, PipelineError, VotableObject};
use meta_vote::text::{contains_byte, parse_u16, starts_with, u16_decimal};
use meta_vote::utils::{
    assert_at_least_1_mpdao, calculate_voting_power, checked_proportional, checked_voting_power, days_to_millis,
    millis_to_days, proportional, pseudo_near_address, AmountError,
};
use meta_vote::voter::sort_desc_vec;

const E6: u128 = 1_000_000;
const E24: u128 = 1_000_000_000_000_000_000_000_000;
const DAY: u64 = 86_400_000;

fn s(x: &str) -> String {
    x.to_string()
}

#[test]
fn days_and_millis() {
    assert_eq!(days_to_millis(0), 0);
    assert_eq!(days_to_millis(1), 86_400_000);
    assert_eq!(days_to_millis(65535), 65535 * 86_400_000);
    assert_eq!(millis_to_days(86_399_999), 0);
    assert_eq!(millis_to_days(3 * 86_400_000 + 5), 3);
    // Whole days past 65535 keep their low 16 bits, as a cast does.
    assert_eq!(millis_to_days(65536 * 86_400_000), 0);
    assert_eq!(millis_to_days(days_to_millis(300)), 300);
}

#[test]
fn proportional_is_exact() {
    assert_eq!(proportional(10, 3, 4), 7);
    assert_eq!(proportional(u128::MAX, 3, 3), u128::MAX);
    assert_eq!(proportional(u128::MAX, u128::MAX - 1, u128::MAX), u128::MAX - 1);
    assert_eq!(proportional(0, 5, 7), 0);
    assert_eq!(checked_proportional(u128::MAX, 2, 1), None);
    assert_eq!(checked_proportional(1 << 100, 1 << 27, 1 << 20), Some(1 << 107));
}

#[test]
fn voting_power_formula() {
    // 30 days give 0.5x, 60 days 1x, 120 days 2x, 300 days 5x.
    assert_eq!(calculate_voting_power(E6, 30), E24 / 2);
    assert_eq!(calculate_voting_power(E6, 60), E24);
    assert_eq!(calculate_voting_power(3 * E6, 60), 3 * E24);
    assert_eq!(calculate_voting_power(3 * E6, 120), 6 * E24);
    assert_eq!(calculate_voting_power(E6, 300), 5 * E24);
    assert_eq!(calculate_voting_power(1, 1), 16_666_666_666_666_666);
    assert_eq!(checked_voting_power(E6, 3600), None);
    assert_eq!(checked_voting_power(u128::MAX, 60), None);
    assert_eq!(checked_voting_power(E6, 3599), Some(E24 * 3599 / 60));
    // Longer bonds never give less.
    let mut last = 0;
    for d in [0u16, 1, 29, 30, 59, 60, 61, 120, 300, 3599] {
        let vp = calculate_voting_power(7 * E6 + 3, d);
        assert!(vp >= last);
        last = vp;
    }
}

#[test]
fn at_least_one_mpdao() {
    assert_eq!(assert_at_least_1_mpdao(E6), Ok(()));
    assert_eq!(assert_at_least_1_mpdao(E6 - 1), Err(AmountError::BelowOneMpdao));
}

#[test]
fn pseudo_address() {
    assert_eq!(pseudo_near_address(&s("0x12ab")), s("0x12ab.evmp.near"));
    assert_eq!(pseudo_near_address(&s("")), s(".evmp.near"));
}

#[test]
fn linear_multiplier_of_the_first_version() {
    assert_eq!(linear_voting_power(E24, 30, 30, 300), E24);
    assert_eq!(linear_voting_power(E24, 165, 30, 300), 3 * E24);
    assert_eq!(linear_voting_power(E24, 300, 30, 300), 5 * E24);
    assert_eq!(linear_voting_power(10, 31, 30, 300), 10);
}

#[test]
fn numbers_in_text() {
    assert_eq!(parse_u16(b"60"), Some(60));
    assert_eq!(parse_u16(b"+7"), Some(7));
    assert_eq!(parse_u16(b"0065535"), Some(65535));
    assert_eq!(parse_u16(b"65536"), None);
    assert_eq!(parse_u16(b""), None);
    assert_eq!(parse_u16(b"+"), None);
    assert_eq!(parse_u16(b"-1"), None);
    assert_eq!(parse_u16(b"6 0"), None);
    for n in [0u16, 5, 10, 99, 100, 4096, 65535] {
        assert_eq!(u16_decimal(n), n.to_string().into_bytes());
    }
    assert!(starts_with(b"for-claims:[]", b"for-claims:"));
    assert!(!starts_with(b"for-claim", b"for-claims:"));
    assert!(starts_with(b"abc", b""));
    assert!(contains_byte(b"a.b", b'.'));
    assert!(!contains_byte(b"0xab", b'.'));
}

#[test]
fn indexes_sorted_descending() {
    assert_eq!(sort_desc_vec(vec![1, 5, 0, 3, 5]), vec![5, 5, 3, 1, 0]);
    assert_eq!(sort_desc_vec(vec![]), Vec::<u64>::new());
}

#[test]
fn locking_position_states() {
    let p = LockingPosition::new(E6, 30, E24 / 2, None);
    assert!(p.is_locked());
    assert!(!p.is_unlocking(0));
    assert!(!p.is_unlocked(0));
    assert_eq!(p.locking_period_millis(), 30 * DAY);
    let q = LockingPosition::new(E6, 30, E24 / 2, Some(10 * DAY));
    assert!(!q.is_locked());
    assert!(q.is_unlocking(10 * DAY));
    assert!(q.is_unlocking(40 * DAY));
    assert!(!q.is_unlocked(40 * DAY));
    assert!(!q.is_unlocking(40 * DAY + 1));
    assert!(q.is_unlocked(40 * DAY + 1));
    let j = q.to_json(Some(2), 40 * DAY + 1);
    assert_eq!(j.index, Some(2));
    assert!(j.is_unlocked && !j.is_unlocking && !j.is_locked);
}

#[test]
fn sort_keeps_order_of_equal_votes() {
    let o = |id: &str, v: u128| VotableObjectJSON { votable_contract: s("app"), id: s(id), current_votes: v };
    let sorted = sort_objects_by_votes(vec![o("a", 3), o("b", 1), o("c", 3), o("d", 2), o("e", 1)]);
    let ids: Vec<String> = sorted.iter().map(|x| x.id.clone()).collect();
    assert_eq!(ids, vec![s("b"), s("e"), s("d"), s("a"), s("c")]);
}

#[test]
fn votable_object_message() {
    assert_eq!(VotableObject::parse_votable_object(&s("7@app.near")), Ok((s("7"), s("app.near"))));
    assert_eq!(VotableObject::parse_votable_object(&s("a@b@c")), Ok((s("a"), s("b@c"))));
    assert_eq!(VotableObject::parse_votable_object(&s("x@")), Ok((s("x"), s(""))));
    assert_eq!(VotableObject::parse_votable_object(&s("@app.near")), Err(PipelineError::EmptyId));
    assert_eq!(VotableObject::parse_votable_object(&s("nope")), Err(PipelineError::MissingSeparator));
    let mut p = PipelineContract::new(s("owner.near"), 5);
    assert_eq!(p.ft_on_transfer(&s("a.near"), 10, &s("1@app.near")), Ok(0));
    assert_eq!(p.ft_on_transfer(&s("a.near"), 10, &s("app.near")), Err(PipelineError::MissingSeparator));
    assert_eq!(p.balance, 0);
    assert!(p.votable_objects.is_empty());
}

#[test]
fn kv_store_read_after_write() {
    let mut kv = KVStoreContract::new(s("owner.near"), s("operator.near"));
    assert_eq!(kv.set_value(&s("x.near"), &s("k"), s("v")), Err(KvError::OnlyOperator));
    assert_eq!(kv.get_value(&s("k")), None);
    assert_eq!(kv.set_value(&s("operator.near"), &s("k"), s("v")), Ok(()));
    assert_eq!(kv.get_value(&s("k")), Some(s("v")));
    assert_eq!(kv.set_value(&s("operator.near"), &s("k"), s("w")), Ok(()));
    assert_eq!(kv.get_value(&s("k")), Some(s("w")));
    assert_eq!(kv.get_kv_count(), 1);
    assert_eq!(
        kv.set_values(&s("operator.near"), vec![(s("a"), s("1")), (s("b"), s("2")), (s("a"), s("3"))]),
        Ok(())
    );
    assert_eq!(kv.get_value(&s("a")), Some(s("3")));
    assert_eq!(kv.get_kv_count(), 3);
    assert_eq!(kv.get_values(1, 5), vec![(s("a"), s("3")), (s("b"), s("2"))]);
    assert_eq!(kv.get_values(3, 5), vec![]);
    assert_eq!(kv.remove_value(&s("x.near"), &s("a")), Err(KvError::OnlyOperator));
    assert_eq!(kv.remove_value(&s("operator.near"), &s("a")), Ok(Some(s("3"))));
    assert_eq!(kv.remove_value(&s("operator.near"), &s("a")), Ok(None));
    assert_eq!(kv.get_value(&s("a")), None);
    assert_eq!(kv.get_value(&s("b")), Some(s("2")));
    assert_eq!(kv.set_owner_id(&s("owner.near"), 0, s("o2")), Err(KvError::RequiresOneYocto));
    assert_eq!(kv.set_owner_id(&s("operator.near"), 1, s("o2")), Err(KvError::OnlyOwner));
    assert_eq!(kv.set_operator_id(&s("owner.near"), 1, s("op2")), Ok(()));
    assert_eq!(kv.get_operator_id(), s("op2"));
    assert_eq!(kv.get_owner_id(), s("owner.near"));
}

fn mpip_contract() -> MpipContract {
    MpipContract::new(
        s("admin.near"),
        s("operator.near"),
        s("meta.near"),
        s("metavote.near"),
        1,
        10 * E24,
        0,
        500,
    )
    .unwrap()
}

#[test]
fn mpip_quorum_over_one_hundred_percent() {
    let r = MpipContract::new(s("a"), s("o"), s("m"), s("mv"), 1, 0, 0, 10_001);
    assert!(matches!(r, Err(MpipError::IncorrectQuorum)));
}

#[test]
fn mpip_lifecycle() {
    let mut c = mpip_contract();
    let creator = s("creator.near");
    let t0: u64 = 1_000 * DAY;
    assert_eq!(
        c.create_proposal_callback(&creator, 0, Some(vec![4 * E24, 5 * E24]), s("t"), s("sd"), s("b"), s("d"), s("e")),
        Err(MpipError::ThresholdNotReached)
    );
    assert_eq!(
        c.create_proposal_callback(&creator, 0, None, s("t"), s("sd"), s("b"), s("d"), s("e")),
        Err(MpipError::MetaVoteUnavailable)
    );
    assert_eq!(
        c.create_proposal_callback(&creator, 0, Some(vec![4 * E24, 6 * E24]), s("t"), s("sd"), s("b"), s("d"), s("e")),
        Ok(0)
    );
    assert_eq!(c.get_last_proposal_id(), Some(0));
    assert_eq!(c.get_proposal_state(0, t0), Ok(MpipState::Draft));
    assert_eq!(c.get_proposal_state(1, t0), Err(MpipError::MpipNotFound));

    assert_eq!(c.start_voting_period(&s("x.near"), 0, t0), Err(MpipError::OnlyOperatorOrCreator));
    assert_eq!(c.start_voting_period(&creator, 0, t0), Ok(s("metavote.near")));
    assert_eq!(c.start_voting_period_callback(0, Some(1_000 * E24), t0), Ok(()));
    assert_eq!(c.get_proposal_state(0, t0), Ok(MpipState::VotingProcess));
    let p = c.get_proposal(0).unwrap();
    assert_eq!(p.vote_start_timestamp, Some(t0));
    assert_eq!(p.vote_end_timestamp, Some(t0 + DAY));
    assert!(!p.draft);

    // Voters: alice for, bob against, carol abstains.
    assert_eq!(c.vote_proposal(&s("alice.near"), 0, t0 + 1), Ok(s("metavote.near")));
    assert_eq!(c.vote_proposal_callback(0, 40 * E24, &s("alice.near"), VoteType::For, s("yes"), Some(vec![50 * E24])), Ok(()));
    assert_eq!(c.vote_proposal(&s("alice.near"), 0, t0 + 1), Err(MpipError::AlreadyVoted));
    assert_eq!(
        c.vote_proposal_callback(0, 60 * E24, &s("bob.near"), VoteType::Against, s("no"), Some(vec![50 * E24])),
        Err(MpipError::NotEnoughVotingPower)
    );
    assert_eq!(c.vote_proposal_callback(0, 20 * E24, &s("bob.near"), VoteType::Against, s("no"), Some(vec![50 * E24])), Ok(()));
    assert_eq!(c.vote_proposal_callback(0, 5 * E24, &s("carol.near"), VoteType::Abstain, s(""), Some(vec![5 * E24])), Ok(()));
    let pv = c.get_proposal_votes(0);
    assert_eq!((pv.for_votes, pv.against_votes, pv.abstain_votes), (40 * E24, 20 * E24, 5 * E24));
    assert_eq!(pv.has_voted.len(), 3);
    assert!(c.has_voted(&s("bob.near"), 0));
    assert_eq!(c.get_voter_used_voting_power(&s("alice.near")), 40 * E24);
    assert_eq!(c.get_total_voters(), s("3"));
    let mine = c.get_my_vote(&s("alice.near"), 0).unwrap();
    assert_eq!((mine.vote_type, mine.voting_power), (VoteType::For, 40 * E24));

    // Bob changes his mind: his vote leaves the tally.
    assert_eq!(c.remove_vote_proposal(&s("bob.near"), 0, t0 + 2), Ok(()));
    assert_eq!(c.remove_vote_proposal(&s("bob.near"), 0, t0 + 2), Err(MpipError::NotVoted));
    assert_eq!(c.get_proposal_votes(0).against_votes, 0);
    assert!(!c.has_voted(&s("bob.near"), 0));

    // Quorum: 5% of 1000 is 50; for + abstain is 45.
    assert_eq!(c.get_quorum_reached(&s("x.near"), 0), Err(MpipError::OnlyOperatorOrAdmin));
    assert_eq!(c.get_quorum_reached(&s("admin.near"), 0), Ok(false));
    assert_eq!(c.vote_proposal_callback(0, 5 * E24, &s("dave.near"), VoteType::For, s(""), Some(vec![5 * E24])), Ok(()));
    assert_eq!(c.get_quorum_reached(&s("operator.near"), 0), Ok(true));
    assert!(c.get_proposal_vote_succeeded(0));
    assert_eq!(c.get_proposal_state(0, t0 + DAY + 1), Ok(MpipState::Accepted));

    // After the end the voting power can be taken back.
    assert_eq!(c.withdraw_voting_power(&s("carol.near"), 0, t0 + 2), Err(MpipError::VotingNotFinished));
    assert_eq!(c.process_voting_status(&s("x.near"), 0, t0 + DAY), Err(MpipError::OnlyOperatorOrAdmin));
    assert_eq!(c.process_voting_status(&s("operator.near"), 0, t0 + DAY), Ok(()));
    assert_eq!(c.get_proposal_state(0, t0 + DAY + 1), Ok(MpipState::Executed));
}

#[test]
fn mpip_rejected_and_canceled() {
    let mut c = mpip_contract();
    let creator = s("creator.near");
    let t0: u64 = 1_000 * DAY;
    c.create_proposal_callback(&creator, 0, Some(vec![10 * E24]), s("a"), s("b"), s("c"), s("d"), s("e")).unwrap();
    c.create_proposal_callback(&creator, 0, Some(vec![10 * E24]), s("a2"), s("b"), s("c"), s("d"), s("e")).unwrap();
    assert_eq!(c.cancel_proposal(&s("x.near"), 1, t0), Err(MpipError::OnlyOperatorOrCreator));
    assert_eq!(c.cancel_proposal(&creator, 1, t0), Ok(()));
    assert_eq!(c.get_proposal_state(1, t0), Ok(MpipState::Canceled));
    c.start_voting_period_callback(0, Some(100 * E24), t0).unwrap();
    c.vote_proposal_callback(0, 10 * E24, &s("a.near"), VoteType::Against, s(""), Some(vec![10 * E24])).unwrap();
    c.vote_proposal_callback(0, 5 * E24, &s("b.near"), VoteType::For, s(""), Some(vec![10 * E24])).unwrap();
    assert_eq!(c.get_proposal_state(0, t0 + DAY + 1), Ok(MpipState::Rejected));
    assert_eq!(c.update_open_for_new_mpips(&s("x.near"), false), Err(MpipError::OnlyAdmin));
    assert_eq!(c.update_open_for_new_mpips(&s("admin.near"), false), Ok(()));
    assert_eq!(
        c.create_proposal_callback(&creator, 0, Some(vec![10 * E24]), s("a"), s("b"), s("c"), s("d"), s("e")),
        Err(MpipError::NotOpenForNewMpips)
    );
    assert_eq!(c.get_proposals(0, 10).unwrap().len(), 2);
    assert!(c.get_proposals(5, 10).is_none());
}

#[test]
fn mpip_votes_recorded_on_both_sides() {
    let mut c = mpip_contract();
    let t0: u64 = 1_000 * DAY;
    c.create_proposal_callback(&s("p.near"), 0, Some(vec![10 * E24]), s("a"), s("b"), s("c"), s("d"), s("e")).unwrap();
    c.create_proposal_callback(&s("p.near"), 0, Some(vec![10 * E24]), s("a"), s("b"), s("c"), s("d"), s("e")).unwrap();
    c.start_voting_period_callback(0, Some(100 * E24), t0).unwrap();
    c.start_voting_period_callback(1, Some(100 * E24), t0).unwrap();
    c.vote_proposal_callback(0, 5 * E24, &s("v.near"), VoteType::For, s(""), Some(vec![20 * E24])).unwrap();
    c.vote_proposal_callback(1, 5 * E24, &s("v.near"), VoteType::Against, s(""), Some(vec![20 * E24])).unwrap();
    let voter = c.get_voter(&s("v.near"));
    assert_eq!(voter.used_voting_power, 10 * E24);
    assert_eq!(voter.votes.iter().map(|v| v.voting_power).sum::<u128>(), 10 * E24);
    assert!(c.has_voted(&s("v.near"), 0) && c.has_voted(&s("v.near"), 1));
    // After the end, taking back the voting power of one vote takes it twice.
    assert_eq!(c.withdraw_voting_power(&s("v.near"), 0, t0 + DAY + 1), Ok(()));
    let voter = c.get_voter(&s("v.near"));
    assert_eq!(voter.used_voting_power, 0);
    assert_eq!(voter.votes.len(), 1);
    assert_eq!(voter.votes[0].mpip_id, 1);
    // The proposal keeps the vote.
    assert!(c.has_voted(&s("v.near"), 0));
}

#[test]
fn mpip_removing_a_vote_restores_the_voter() {
    let mut c = mpip_contract();
    let t0: u64 = 1_000 * DAY;
    c.create_proposal_callback(&s("p.near"), 0, Some(vec![10 * E24]), s("a"), s("b"), s("c"), s("d"), s("e")).unwrap();
    c.create_proposal_callback(&s("p.near"), 0, Some(vec![10 * E24]), s("a"), s("b"), s("c"), s("d"), s("e")).unwrap();
    c.start_voting_period_callback(0, Some(100 * E24), t0).unwrap();
    c.start_voting_period_callback(1, Some(100 * E24), t0).unwrap();
    c.vote_proposal_callback(1, 3 * E24, &s("v.near"), VoteType::For, s(""), Some(vec![20 * E24])).unwrap();
    let used = c.get_voter_used_voting_power(&s("v.near"));
    let pv = c.get_proposal_votes(0);
    // Voting Against and removing the vote leaves the voter and the tallies as they were.
    c.vote_proposal_callback(0, 7 * E24, &s("v.near"), VoteType::Against, s("no"), Some(vec![20 * E24])).unwrap();
    assert_eq!(c.get_voter_used_voting_power(&s("v.near")), used + 7 * E24);
    assert_eq!(c.remove_vote_proposal(&s("v.near"), 0, t0 + 1), Ok(()));
    assert_eq!(c.get_voter_used_voting_power(&s("v.near")), used);
    let voter = c.get_voter(&s("v.near"));
    assert_eq!(voter.votes.len(), 1);
    assert_eq!(voter.votes[0].mpip_id, 1);
    assert!(!c.has_voted(&s("v.near"), 0));
    let after = c.get_proposal_votes(0);
    assert_eq!((after.for_votes, after.against_votes, after.abstain_votes), (pv.for_votes, pv.against_votes, pv.abstain_votes));
    // A voter with no other vote loses its record again.
    c.vote_proposal_callback(0, 2 * E24, &s("w.near"), VoteType::For, s(""), Some(vec![5 * E24])).unwrap();
    assert_eq!(c.remove_vote_proposal(&s("w.near"), 0, t0 + 1), Ok(()));
    assert_eq!(c.get_voter_used_voting_power(&s("w.near")), 0);
    // Voting For afterwards counts again, and Against stays at zero.
    c.vote_proposal_callback(0, 7 * E24, &s("v.near"), VoteType::For, s(""), Some(vec![20 * E24])).unwrap();
    let pv = c.get_proposal_votes(0);
    assert_eq!((pv.for_votes, pv.against_votes), (7 * E24, 0));
}
