use tgrade_contracts::common::{BlockInfo, Decimal, Duration, Status, Vote};
use tgrade_contracts::dispute::{
    execute_close, execute_execute, execute_vote, instantiate, Multisig,
    MultisigError, ParentExecMsg, Threshold, ThresholdError, Voter,
};

const OWNER: &str = "admin0001";
const VOTER1: &str = "voter0001";
const VOTER2: &str = "voter0002";
const VOTER3: &str = "voter0003";
const VOTER4: &str = "voter0004";
const VOTER5: &str = "voter0005";
const VOTER6: &str = "voter0006";
const NOWEIGHT_VOTER: &str = "voterxxxx";
const SOMEBODY: &str = "somebody";

fn mock_block() -> BlockInfo {
    BlockInfo { height: 12_345, time: 1_571_797_419_879_305_533 }
}

fn mock_block_time(seconds: u64) -> BlockInfo {
    let b = mock_block();
    BlockInfo { height: b.height, time: b.time + seconds * 1_000_000_000 }
}

fn voter(addr: &str, weight: u64) -> Voter {
    Voter { addr: addr.to_string(), weight }
}

fn setup_test_case(threshold: Threshold, max_voting_period: Duration, complaint_id: u64) -> Result<Multisig, MultisigError> {
    let voters = vec![
        voter(OWNER, 1),
        voter(VOTER1, 1),
        voter(VOTER2, 2),
        voter(VOTER3, 3),
        voter(VOTER4, 4),
        voter(VOTER5, 5),
        voter(VOTER6, 1),
        voter(NOWEIGHT_VOTER, 0),
    ];
    instantiate(voters, threshold, max_voting_period, complaint_id, OWNER.to_string(), &mock_block())
}

#[test]
fn contract_test_instantiate_works() {
    let max_voting_period = Duration::Time(1234567);

    // No voters fails
    let threshold = Threshold::ThresholdQuorum { threshold: Decimal::zero(), quorum: Decimal::percent(1) };
    let err = instantiate(vec![], threshold, max_voting_period, 0, OWNER.to_string(), &mock_block()).unwrap_err();
    assert_eq!(err, MultisigError::NoVoters);

    // Zero required weight fails
    let err = instantiate(vec![voter(OWNER, 1)], threshold, max_voting_period, 0, OWNER.to_string(), &mock_block())
        .unwrap_err();
    assert_eq!(err, MultisigError::Threshold(ThresholdError::InvalidThreshold));

    // Total weight less than required weight not allowed
    let err = setup_test_case(Threshold::AbsoluteCount { weight: 100 }, max_voting_period, 0).unwrap_err();
    assert_eq!(err, MultisigError::Threshold(ThresholdError::UnreachableWeight));

    // All valid
    let m = setup_test_case(Threshold::AbsoluteCount { weight: 1 }, max_voting_period, 0).unwrap();
    assert_eq!(m.config.total_weight, 17);
    assert_eq!(m.status, Status::Open);
}

#[test]
fn zero_weight_member_cant_vote() {
    let mut m = setup_test_case(Threshold::AbsoluteCount { weight: 4 }, Duration::Time(2000000), 0).unwrap();
    let err = execute_vote(&mut m, &NOWEIGHT_VOTER.to_string(), Vote::No, &mock_block()).unwrap_err();
    assert_eq!(err, MultisigError::Unauthorized);
}

fn yes_tally(m: &Multisig) -> u64 {
    m.votes.yes
}

#[test]
fn test_vote_works() {
    let voting_period = 2000000u64;
    let mut m = setup_test_case(Threshold::AbsoluteCount { weight: 3 }, Duration::Time(voting_period), 0).unwrap();

    // Only voters can vote
    let err = execute_vote(&mut m, &SOMEBODY.to_string(), Vote::Yes, &mock_block()).unwrap_err();
    assert_eq!(err, MultisigError::Unauthorized);

    // But voter1 can
    let status = execute_vote(&mut m, &VOTER1.to_string(), Vote::Yes, &mock_block()).unwrap();
    assert_eq!(status, Status::Open);

    let tally = yes_tally(&m);

    // Cast a No vote
    execute_vote(&mut m, &VOTER2.to_string(), Vote::No, &mock_block()).unwrap();
    // Cast a Veto vote
    execute_vote(&mut m, &VOTER3.to_string(), Vote::Veto, &mock_block()).unwrap();
    assert_eq!(tally, yes_tally(&m));

    // Once voted, votes cannot be changed
    let err = execute_vote(&mut m, &VOTER3.to_string(), Vote::Yes, &mock_block()).unwrap_err();
    assert_eq!(err, MultisigError::AlreadyVoted);
    assert_eq!(tally, yes_tally(&m));

    // Expired proposals cannot be voted
    let err = execute_vote(&mut m, &VOTER3.to_string(), Vote::No, &mock_block_time(voting_period + 1)).unwrap_err();
    assert_eq!(err, MultisigError::Expired);

    // Vote it again, so it passes
    let status = execute_vote(&mut m, &VOTER4.to_string(), Vote::Yes, &mock_block()).unwrap();
    assert_eq!(status, Status::Passed);

    // Passed proposals can still be voted (while they are not expired or executed)
    let status = execute_vote(&mut m, &VOTER5.to_string(), Vote::Yes, &mock_block()).unwrap();
    assert_eq!(status, Status::Passed);
}

#[test]
fn test_execute_works() {
    let mut m = setup_test_case(Threshold::AbsoluteCount { weight: 3 }, Duration::Time(2000000), 0).unwrap();

    // Only Passed can be executed
    let err = execute_execute(&mut m, &mock_block(), "summary".to_owned(), "ipfs".to_owned()).unwrap_err();
    assert_eq!(err, MultisigError::WrongExecuteStatus);

    // Vote it, so it passes
    let status = execute_vote(&mut m, &VOTER3.to_string(), Vote::Yes, &mock_block()).unwrap();
    assert_eq!(status, Status::Passed);

    // In passing: Try to close Passed fails
    let err = execute_close(&mut m, &mock_block()).unwrap_err();
    assert_eq!(err, MultisigError::WrongCloseStatus);

    // Execute works. Anybody can execute Passed proposals
    let msg = execute_execute(&mut m, &mock_block(), "summary".to_owned(), "ipfs".to_owned()).unwrap();
    assert_eq!(
        msg,
        ParentExecMsg::RenderDecision { complaint_id: 0, summary: "summary".to_owned(), ipfs_link: "ipfs".to_owned() }
    );
    assert_eq!(m.config.parent, OWNER.to_string());
    assert_eq!(m.status, Status::Executed);

    // In passing: Try to close Executed fails
    let err = execute_close(&mut m, &mock_block()).unwrap_err();
    assert_eq!(err, MultisigError::WrongCloseStatus);
}

#[test]
fn expired_multisig_that_did_not_pass_can_be_closed() {
    let mut m = setup_test_case(Threshold::AbsoluteCount { weight: 10 }, Duration::Time(100), 7).unwrap();
    execute_vote(&mut m, &VOTER1.to_string(), Vote::Yes, &mock_block()).unwrap();
    assert_eq!(execute_close(&mut m, &mock_block()).unwrap_err(), MultisigError::NotExpired);
    execute_close(&mut m, &mock_block_time(100)).unwrap();
    assert_eq!(m.status, Status::Rejected);
    // a rejected multisig still takes votes until it expires, but it is expired here
    assert_eq!(
        execute_vote(&mut m, &VOTER5.to_string(), Vote::Yes, &mock_block_time(100)).unwrap_err(),
        MultisigError::Expired
    );
}

#[test]
fn quorum_threshold_counts_abstentions_for_quorum_only() {
    // 17 weight in all; quorum 50% needs 9; threshold 50% of the non-abstaining weight
    let threshold = Threshold::ThresholdQuorum { threshold: Decimal::percent(50), quorum: Decimal::percent(50) };
    let mut m = setup_test_case(threshold, Duration::Time(1000), 1).unwrap();
    assert_eq!(execute_vote(&mut m, &VOTER5.to_string(), Vote::Abstain, &mock_block()).unwrap(), Status::Open);
    assert_eq!(execute_vote(&mut m, &VOTER4.to_string(), Vote::Yes, &mock_block()).unwrap(), Status::Open);
    // 4 yes + 5 abstain reach the quorum; 4 of the 12 possible opinions is not half
    assert_eq!(execute_vote(&mut m, &VOTER3.to_string(), Vote::Yes, &mock_block()).unwrap(), Status::Passed);
}

#[test]
fn law_yes_votes_keep_passing_example() {
    let threshold = Threshold::AbsolutePercentage { percentage: Decimal::percent(60) };
    let mut m = setup_test_case(threshold, Duration::Time(1000), 1).unwrap();
    // 60% of 17 is 11 (rounded up)
    execute_vote(&mut m, &VOTER5.to_string(), Vote::Yes, &mock_block()).unwrap();
    execute_vote(&mut m, &VOTER4.to_string(), Vote::Yes, &mock_block()).unwrap();
    assert_eq!(execute_vote(&mut m, &VOTER3.to_string(), Vote::Yes, &mock_block()).unwrap(), Status::Passed);
    assert_eq!(execute_vote(&mut m, &VOTER2.to_string(), Vote::Yes, &mock_block()).unwrap(), Status::Passed);
}
