use tgrade_contracts::group::list_members_by_weight;
use tgrade_contracts::dso::{list_votes_by_proposal, list_votes_by_voter, ReadyAt};
use tgrade_contracts::voting::Ballot;
use tgrade_contracts::addr_map::AddrMap;
use tgrade_contracts::common::{BlockInfo, Decimal, Duration, Expiration, Status, Vote};
use tgrade_contracts::dispute::{
    execute_vote, instantiate, list_voters, list_votes, query_complaint_id, query_status, query_threshold, query_vote,
    query_voter, StatusResp, Threshold, ThresholdResponse, Voter,
};
use tgrade_contracts::dso::{list_non_voting_members, list_voting_members, ProposalContent};
use tgrade_contracts::group::{list_members, query_member};
use tgrade_contracts::id_map::IdMap;
use tgrade_contracts::mixer::{query_groups, Groups};
use tgrade_contracts::paging::page_after;
use tgrade_contracts::voting::{list_proposals, Proposal, Votes, VotingRules};

fn map(entries: &[(&str, u64)]) -> AddrMap<u64> {
    let mut m = AddrMap::new();
    for (k, v) in entries {
        m.insert(k.to_string(), *v);
    }
    m
}

#[test]
fn pages_follow_address_order() {
    let m = map(&[("carol", 3), ("alice", 1), ("dave", 0), ("bob", 2)]);
    assert_eq!(
        page_after(&m, &None, 10),
        vec![("alice".to_string(), 1), ("bob".to_string(), 2), ("carol".to_string(), 3), ("dave".to_string(), 0)]
    );
    assert_eq!(page_after(&m, &Some("bob".to_string()), 1), vec![("carol".to_string(), 3)]);
    assert_eq!(page_after(&m, &Some("bobby".to_string()), 10), vec![("carol".to_string(), 3), ("dave".to_string(), 0)]);
    assert_eq!(page_after(&m, &Some("zed".to_string()), 10), vec![]);
    assert_eq!(page_after(&m, &None, 0), vec![]);
}

#[test]
fn member_listings() {
    let m = map(&[("carol", 1), ("alice", 1), ("dave", 0), ("bob", 0), ("eve", 1)]);
    assert_eq!(list_members(&m, &None, Some(2)), vec![("alice".to_string(), 1), ("bob".to_string(), 0)]);
    assert_eq!(list_members(&m, &None, None).len(), 5);
    assert_eq!(
        list_voting_members(&m, &Some("alice".to_string()), None),
        vec![("carol".to_string(), 1), ("eve".to_string(), 1)]
    );
    assert_eq!(list_non_voting_members(&m, &None, None), vec![("bob".to_string(), 0), ("dave".to_string(), 0)]);
    assert_eq!(query_member(&m, &"carol".to_string()), Some(1));
    assert_eq!(query_member(&m, &"zed".to_string()), None);
    let g = Groups { left: "l".to_string(), right: "r".to_string() };
    assert_eq!(query_groups(&g).left, "l");
}

#[test]
fn multisig_queries() {
    let block = BlockInfo { height: 10, time: 1_000_000_000_000 };
    let voters = vec![
        Voter { addr: "b".to_string(), weight: 2 },
        Voter { addr: "a".to_string(), weight: 1 },
        Voter { addr: "c".to_string(), weight: 3 },
    ];
    let threshold = Threshold::ThresholdQuorum { threshold: Decimal::percent(50), quorum: Decimal::percent(30) };
    let mut m = instantiate(voters, threshold, Duration::Height(5), 42, "parent".to_string(), &block).unwrap();
    assert_eq!(
        query_threshold(&m),
        ThresholdResponse::ThresholdQuorum { threshold: Decimal::percent(50), quorum: Decimal::percent(30), total_weight: 6 }
    );
    assert_eq!(m.config.expires, Expiration::AtHeight(15));
    assert_eq!(query_complaint_id(&m).complaint_id, 42);
    assert_eq!(query_voter(&m, &"c".to_string()), Some(3));
    assert_eq!(list_voters(&m, &None, None), vec![("a".to_string(), 1), ("b".to_string(), 2), ("c".to_string(), 3)]);
    execute_vote(&mut m, &"c".to_string(), Vote::Yes, &block).unwrap();
    execute_vote(&mut m, &"a".to_string(), Vote::No, &block).unwrap();
    assert_eq!(query_vote(&m, &"c".to_string()).unwrap().vote, Vote::Yes);
    assert!(query_vote(&m, &"b".to_string()).is_none());
    let votes = list_votes(&m, &None, None);
    assert_eq!(votes.iter().map(|(a, b)| (a.clone(), b.weight)).collect::<Vec<_>>(), vec![("a".to_string(), 1), ("c".to_string(), 3)]);
    assert_eq!(query_status(&m), StatusResp { status: Status::Passed });
}

fn proposal(status: Status) -> Proposal<ProposalContent> {
    Proposal {
        title: "t".to_string(),
        description: "d".to_string(),
        start_height: 1,
        expires: Expiration::AtHeight(100),
        proposal: ProposalContent::AddRemoveNonVotingMembers { add: vec![], remove: vec![] },
        status,
        rules: VotingRules {
            voting_period: 1,
            quorum: Decimal::percent(50),
            threshold: Decimal::percent(50),
            allow_end_early: true,
        },
        total_weight: 4,
        votes: Votes { yes: 1, no: 0, abstain: 0, veto: 0 },
    }
}

#[test]
fn proposals_list_both_ways() {
    let mut props = IdMap::new();
    for id in [1u64, 2, 3, 5] {
        props.insert(id, proposal(Status::Open));
    }
    props.insert(4, proposal(Status::Executed));
    let expired = BlockInfo { height: 100, time: 0 };
    let open = BlockInfo { height: 50, time: 0 };
    assert_eq!(
        list_proposals(&props, &open, None, 3, false),
        vec![(1, Status::Open), (2, Status::Open), (3, Status::Open)]
    );
    assert_eq!(list_proposals(&props, &expired, Some(3), 10, false), vec![(4, Status::Executed), (5, Status::Rejected)]);
    assert_eq!(list_proposals(&props, &open, None, 2, true), vec![(5, Status::Open), (4, Status::Executed)]);
    assert_eq!(list_proposals(&props, &open, Some(2), 10, true), vec![(1, Status::Open)]);
    assert_eq!(list_proposals(&props, &open, Some(1), 10, true), vec![]);
}

#[test]
fn try_list_members_by_weight() {
    let m = map(&[("somebody", 11), ("else", 6), ("funny", 11), ("bar", 1)]);
    assert_eq!(
        list_members_by_weight(&m, &None, None),
        vec![("somebody".to_string(), 11), ("funny".to_string(), 11), ("else".to_string(), 6), ("bar".to_string(), 1)]
    );
    assert_eq!(
        list_members_by_weight(&m, &Some(("funny".to_string(), 11)), Some(1)),
        vec![("else".to_string(), 6)]
    );
    assert_eq!(
        list_members_by_weight(&m, &Some(("zzz".to_string(), 11)), Some(2)),
        vec![("somebody".to_string(), 11), ("funny".to_string(), 11)]
    );
}

#[test]
fn ballots_listed_by_voter() {
    let mut ballots = AddrMap::new();
    ballots.insert("carl".to_string(), Ballot { weight: 3, vote: Vote::No });
    ballots.insert("alice".to_string(), Ballot { weight: 1, vote: Vote::Yes });
    ballots.insert("bob".to_string(), Ballot { weight: 2, vote: Vote::Abstain });
    let all = list_votes_by_proposal(&ballots, &None, None);
    assert_eq!(all.iter().map(|(a, _)| a.as_str()).collect::<Vec<_>>(), vec!["alice", "bob", "carl"]);
    assert_eq!(all[2].1, Ballot { weight: 3, vote: Vote::No });
    let page = list_votes_by_proposal(&ballots, &Some("alice".to_string()), Some(1));
    assert_eq!(page, vec![("bob".to_string(), Ballot { weight: 2, vote: Vote::Abstain })]);
    assert_eq!(list_votes_by_proposal(&ballots, &Some("carl".to_string()), None), vec![]);
}

#[test]
fn ready_at_compares_block_time() {
    let ready = ReadyAt(5_000);
    assert_eq!(ready.nanos(), 5_000);
    assert!(!ready.is_ready(&BlockInfo { height: 1, time: 4_999 }));
    assert!(ready.is_ready(&BlockInfo { height: 1, time: 5_000 }));
    assert!(ready.is_ready(&BlockInfo { height: 1, time: 5_001 }));
}

#[test]
fn voter_ballots_newest_first() {
    let mut ballots = IdMap::new();
    for id in [1u64, 4, 7, 9] {
        ballots.insert(id, Ballot { weight: id, vote: Vote::Yes });
    }
    ballots.insert(u64::MAX, Ballot { weight: 2, vote: Vote::No });
    let ids = |v: Vec<(u64, Ballot)>| v.iter().map(|(id, _)| *id).collect::<Vec<_>>();
    assert_eq!(ids(list_votes_by_voter(&ballots, None, None)), vec![u64::MAX, 9, 7, 4, 1]);
    assert_eq!(ids(list_votes_by_voter(&ballots, Some(9), Some(2))), vec![7, 4]);
    assert_eq!(ids(list_votes_by_voter(&ballots, Some(1), None)), Vec::<u64>::new());
    assert_eq!(list_votes_by_voter(&ballots, Some(5), Some(1)), vec![(4, Ballot { weight: 4, vote: Vote::Yes })]);
}
