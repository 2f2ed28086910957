use tgrade_contracts::common::{BlockInfo, Decimal, Expiration, Status, Vote};
use tgrade_contracts::community_pool;
use tgrade_contracts::oversight::{
    execute_close, execute_execute, execute_propose, execute_vote, JailingDuration, OversightAction, OversightError,
    OversightProposal,
};
use tgrade_contracts::version::{version_le, version_lt, version_text_le, version_text_lt};
use tgrade_contracts::voting::{Votes, VotingRules};

fn rules() -> VotingRules {
    VotingRules { voting_period: 1, quorum: Decimal::percent(50), threshold: Decimal::percent(50), allow_end_early: true }
}

fn block(time_secs: u64) -> BlockInfo {
    BlockInfo { height: 1000 + time_secs / 5, time: 1_600_000_000_000_000_000 + time_secs * 1_000_000_000 }
}

#[test]
fn proposals_are_validated() {
    let grant = OversightProposal::GrantEngagement { member: "m".to_string(), points: 0 };
    assert_eq!(grant.validate(true), Err(OversightError::InvalidPoints(0)));
    assert_eq!(grant.validate(false), Err(OversightError::InvalidAddress("m".to_string())));
    let punish = OversightProposal::Punish { member: "m".to_string(), portion: Decimal::percent(101), jailing_duration: None };
    assert_eq!(punish.validate(true), Err(OversightError::InvalidPortion(Decimal::percent(101))));
    let punish = OversightProposal::Punish {
        member: "m".to_string(),
        portion: Decimal::percent(10),
        jailing_duration: Some(JailingDuration::Duration(0)),
    };
    assert_eq!(punish.validate(true), Err(OversightError::InvalidDuration(0)));
    let punish = OversightProposal::Punish {
        member: "m".to_string(),
        portion: Decimal::percent(10),
        jailing_duration: Some(JailingDuration::Forever),
    };
    assert_eq!(punish.validate(true), Ok(()));
    let update = OversightProposal::UpdateConfig { min_points: Some(1), max_validators: Some(0) };
    assert_eq!(update.validate(true), Err(OversightError::InvalidMaxValidators(0)));
    assert_eq!(OversightProposal::Text.validate(false), Ok(()));
}

#[test]
fn grant_engagement_reward() {
    let proposal = OversightProposal::GrantEngagement { member: "member".to_string(), points: 10 };
    let (mut prop, ballot) =
        execute_propose(rules(), "t".to_string(), "d".to_string(), proposal, Some(1), 3, &block(0)).unwrap();
    assert_eq!(ballot.weight, 1);
    assert_eq!(prop.status, Status::Open);
    assert_eq!(prop.expires, Expiration::AtTime(block(86_400).time));
    execute_vote(&mut prop, &block(10), Some(1), false, Vote::Yes).unwrap();
    assert_eq!(prop.status, Status::Passed);
    assert_eq!(prop.votes, Votes { yes: 2, no: 0, abstain: 0, veto: 0 });
    assert_eq!(community_pool::execute_execute(&prop), Ok(()));
    let action = execute_execute(&mut prop).unwrap();
    assert_eq!(action, OversightAction::AddPoints { member: "member".to_string(), points: 10 });
    assert_eq!(prop.status, Status::Executed);
    assert_eq!(execute_execute(&mut prop).unwrap_err(), OversightError::WrongExecuteStatus);
}

#[test]
fn only_voters_can_propose() {
    let err = execute_propose(rules(), "t".to_string(), "d".to_string(), OversightProposal::Text, None, 3, &block(0)).unwrap_err();
    assert_eq!(err, OversightError::Unauthorized);
    let err =
        execute_propose(rules(), "t".to_string(), "d".to_string(), OversightProposal::Text, Some(0), 3, &block(0)).unwrap_err();
    assert_eq!(err, OversightError::Unauthorized);
}

#[test]
fn close_proposal() {
    let (mut prop, _) =
        execute_propose(rules(), "t".to_string(), "d".to_string(), OversightProposal::Text, Some(1), 10, &block(0)).unwrap();
    assert_eq!(execute_close(&mut prop, &block(10)).unwrap_err(), OversightError::NotExpired);
    assert_eq!(execute_vote(&mut prop, &block(10), Some(1), true, Vote::No).unwrap_err(), OversightError::AlreadyVoted);
    assert_eq!(execute_vote(&mut prop, &block(10), None, false, Vote::No).unwrap_err(), OversightError::Unauthorized);
    execute_close(&mut prop, &block(86_400)).unwrap();
    assert_eq!(prop.status, Status::Rejected);
    assert_eq!(execute_close(&mut prop, &block(86_400)).unwrap_err(), OversightError::WrongCloseStatus);
    assert_eq!(community_pool::execute_execute(&prop), Err(community_pool::PoolError::WrongExecuteStatus));
    assert_eq!(community_pool::align_limit(None), 10);
    assert_eq!(community_pool::align_limit(Some(50)), 30);
}

#[test]
fn versions_compare_as_semver() {
    assert_eq!(version_text_le("0.16.0", 0, 16, 0), Some(true));
    assert_eq!(version_text_lt("0.16.0", 0, 16, 0), Some(false));
    assert_eq!(version_text_lt("0.16.0-rc1", 0, 16, 0), Some(true));
    assert_eq!(version_text_le("0.16.0+build", 0, 16, 0), Some(false));
    assert_eq!(version_text_lt("0.6.2", 0, 6, 3), Some(true));
    assert_eq!(version_text_lt("0.7.0", 0, 6, 3), Some(false));
    assert_eq!(version_text_lt("1.2.3-alpha.1+build", 1, 2, 3), Some(true));
    assert_eq!(version_text_le("not a version", 0, 16, 0), None);
    assert_eq!(version_text_lt("", 0, 16, 0), None);
    assert!(version_le((0, 16, 0, false, false), 0, 16, 0));
    assert!(!version_lt((0, 16, 0, false, false), 0, 16, 0));
    assert!(version_lt((0, 16, 0, true, false), 0, 16, 0));
    assert!(!version_le((0, 16, 0, false, true), 0, 16, 0));
}
