use tgrade_contracts::common::{BlockInfo, Decimal, Expiration, Status, Vote};
use tgrade_contracts::dso::{escrow_key, ProposalContent};
use tgrade_contracts::engagement::Halflife;
use tgrade_contracts::group::{Member, MemberDiff};
use tgrade_contracts::mixer::{initialize_members, mixer_fn, update_members, GeometricMean, MixerError};
use tgrade_contracts::voting::{votes_needed, Proposal, Votes, VotingRules};

fn mock_block() -> BlockInfo {
    BlockInfo { height: 12_345, time: 1_571_797_419_879_305_533 }
}

#[test]
fn count_votes() {
    let mut votes = Votes::yes(5);
    votes.add_vote(Vote::No, 10);
    votes.add_vote(Vote::Veto, 20);
    votes.add_vote(Vote::Yes, 30);
    votes.add_vote(Vote::Abstain, 40);

    assert_eq!(votes.total(), 105);
    assert_eq!(votes.yes, 35);
    assert_eq!(votes.no, 10);
    assert_eq!(votes.veto, 20);
    assert_eq!(votes.abstain, 40);
}

#[test]
fn votes_needed_rounds_properly() {
    // round up right below 1
    assert_eq!(1, votes_needed(3, Decimal::permille(333)));
    // round up right over 1
    assert_eq!(2, votes_needed(3, Decimal::permille(334)));
    assert_eq!(11, votes_needed(30, Decimal::permille(334)));

    // exact matches don't round
    assert_eq!(17, votes_needed(34, Decimal::percent(50)));
    assert_eq!(12, votes_needed(48, Decimal::percent(25)));
}

fn check_is_passed(rules: VotingRules, votes: Votes, total_weight: u64, is_expired: bool) -> bool {
    let block = mock_block();
    let expires = if is_expired {
        Expiration::AtHeight(block.height - 5)
    } else {
        Expiration::AtHeight(block.height + 100)
    };
    let prop = Proposal {
        title: "Demo".to_string(),
        description: "Info".to_string(),
        start_height: 100,
        expires,
        proposal: ProposalContent::AddRemoveNonVotingMembers { add: vec![], remove: vec![] },
        status: Status::Open,
        rules,
        total_weight,
        votes,
    };
    prop.is_passed(&block)
}

#[test]
fn proposal_passed_quorum() {
    let early_end = VotingRules {
        voting_period: 10000,
        threshold: Decimal::percent(50),
        quorum: Decimal::percent(40),
        allow_end_early: true,
    };
    let no_early_end = VotingRules { allow_end_early: false, ..early_end };

    // all non-yes votes are counted for quorum
    let passing = Votes { yes: 7, no: 3, abstain: 2, veto: 1 };
    // abstain votes are not counted for threshold => yes / (yes + no + veto)
    let passes_ignoring_abstain = Votes { yes: 6, no: 4, abstain: 5, veto: 2 };
    // fails any way you look at it
    let failing = Votes { yes: 6, no: 5, abstain: 2, veto: 2 };

    // first, expired (voting period over)
    // over quorum (40% of 30 = 12), over threshold (7/11 > 50%)
    assert_eq!(true, check_is_passed(early_end, passing, 30, true));
    assert_eq!(true, check_is_passed(no_early_end, passing, 30, true));
    // under quorum it is not passing (40% of 33 = 13.2 > 13)
    assert_eq!(false, check_is_passed(early_end, passing, 33, true));
    // over quorum, threshold passes if we ignore abstain
    assert_eq!(true, check_is_passed(early_end, passes_ignoring_abstain, 40, true));
    // over quorum, but under threshold fails also
    assert_eq!(false, check_is_passed(early_end, failing, 20, true));

    // now, check with open voting period
    // would pass if closed, but fail here, as remaining votes no -> fail
    assert_eq!(false, check_is_passed(early_end, passing, 30, false));
    // same for non-early end
    assert_eq!(false, check_is_passed(no_early_end, passing, 30, false));
    assert_eq!(false, check_is_passed(early_end, passes_ignoring_abstain, 40, false));
    // if we have threshold * total_weight as yes votes this must pass
    assert_eq!(true, check_is_passed(early_end, passing, 14, false));
    // false with no early end
    assert_eq!(false, check_is_passed(no_early_end, passing, 14, false));
    // all votes have been cast, some abstain
    assert_eq!(true, check_is_passed(early_end, passes_ignoring_abstain, 17, false));
    // false with no early end
    assert_eq!(false, check_is_passed(no_early_end, passes_ignoring_abstain, 17, false));
    // 3 votes uncast, if they all vote no, we have 7 yes, 7 no+veto, 2 abstain (out of 16)
    assert_eq!(true, check_is_passed(early_end, passing, 16, false));
}

#[test]
fn quorum_edge_cases() {
    // when we pass absolute threshold (everyone else voting no, we pass), but still don't hit quorum
    let quorum = VotingRules {
        voting_period: 10000,
        threshold: Decimal::percent(60),
        quorum: Decimal::percent(80),
        allow_end_early: true,
    };

    // try 9 yes, 1 no (out of 15) -> 90% voter threshold, 60% absolute threshold, still no quorum
    // doesn't matter if expired or not
    let missing_voters = Votes { yes: 9, no: 1, abstain: 0, veto: 0 };
    assert_eq!(false, check_is_passed(quorum, missing_voters, 15, false));
    assert_eq!(false, check_is_passed(quorum, missing_voters, 15, true));

    // 1 less yes, 3 vetos and this passes only when expired
    let wait_til_expired = Votes { yes: 8, no: 1, abstain: 0, veto: 3 };
    assert_eq!(false, check_is_passed(quorum, wait_til_expired, 15, false));
    assert_eq!(true, check_is_passed(quorum, wait_til_expired, 15, true));

    // 9 yes and 3 nos passes early
    let passes_early = Votes { yes: 9, no: 3, abstain: 0, veto: 0 };
    assert_eq!(true, check_is_passed(quorum, passes_early, 15, false));
    assert_eq!(true, check_is_passed(quorum, passes_early, 15, true));
}

#[test]
fn halflife_should_apply() {
    let nanos = 1_000_000_000u64;
    let epoch = 123456789u64;
    let hf = Halflife { halflife: None, last_applied: epoch * nanos };
    assert!(!hf.should_apply(epoch * nanos));

    let hf = Halflife { halflife: Some(epoch + 1), last_applied: epoch * nanos };
    assert!(!hf.should_apply(epoch * nanos));

    let hf = Halflife { halflife: Some(epoch + 1), last_applied: epoch * nanos };
    // because halflife + last_applied + 1 = one second after half life is expected to be met
    assert!(hf.should_apply((epoch * 2 + 1) * nanos));

    let hf = Halflife { halflife: Some(epoch + 1), last_applied: (epoch + 2) * nanos };
    assert!(!hf.should_apply((epoch + 2) * nanos));

    let hf = Halflife { halflife: Some(epoch + 1), last_applied: (epoch + 2) * nanos };
    assert!(hf.should_apply((epoch * 2 + 3) * nanos));
}

#[test]
fn mixer_works() {
    // either 0 -> 0
    assert_eq!(mixer_fn(0, 123456).unwrap(), 0);
    assert_eq!(mixer_fn(7777, 0).unwrap(), 0);

    // basic math checks (no rounding)
    assert_eq!(mixer_fn(4, 9).unwrap(), 6);

    // rounding down (sqrt(240) = 15.49...
    assert_eq!(mixer_fn(12, 20).unwrap(), 15);

    // overflow checks
    let very_big = 12_000_000_000u64;
    let err = mixer_fn(very_big, very_big).unwrap_err();
    assert_eq!(err, MixerError::WeightOverflow);
}

#[test]
fn mixer_geometric_works() {
    let geometric = GeometricMean::new();

    // either 0 -> 0
    assert_eq!(geometric.rewards(0, 123456).unwrap(), 0);
    assert_eq!(geometric.rewards(7777, 0).unwrap(), 0);

    // basic math checks (no rounding)
    assert_eq!(geometric.rewards(4, 9).unwrap(), 6);

    // rounding down (sqrt(240) = 15.49...
    assert_eq!(geometric.rewards(12, 20).unwrap(), 15);

    // overflow checks
    let very_big = 12_000_000_000u64;
    let err = geometric.rewards(very_big, very_big).unwrap_err();
    assert_eq!(err, MixerError::WeightOverflow);
}

#[test]
fn escrow_key_is_length_prefixed_namespace_and_address() {
    assert_eq!(escrow_key("foo"), b"\x00\x07escrowsfoo".to_vec());
    assert_eq!(escrow_key(""), b"\x00\x07escrows".to_vec());
}

#[test]
fn geometric_mean_default_is_new() {
    assert_eq!(GeometricMean::default(), GeometricMean::new());
    assert_eq!(GeometricMean::default().rewards(16, 4).unwrap(), 8);
}

fn member(addr: &str, weight: u64) -> Member {
    Member { addr: addr.to_string(), weight }
}

fn diff(addr: &str, old: Option<u64>, new: Option<u64>) -> MemberDiff {
    MemberDiff { key: addr.to_string(), old, new }
}

#[test]
fn update_with_upstream_change() {
    // the group (left) and the stakes (right) of its members; 50 is below the stake threshold
    let group = vec![
        member("owner", 0),
        member("voter1", 100),
        member("voter2", 200),
        member("voter3", 300),
        member("voter4", 400),
        member("voter5", 500),
    ];
    let stakes = vec![None, Some(10000), None, Some(7500), None, None];
    let (mut members, mut total) = initialize_members(&group, &vec![true; group.len()], &stakes).unwrap();
    let weight = |m: &tgrade_contracts::addr_map::AddrMap<u64>, a: &str| m.get(&a.to_string());
    let all = |m: &tgrade_contracts::addr_map::AddrMap<u64>| {
        ["owner", "voter1", "voter2", "voter3", "voter4", "voter5"].iter().map(|a| weight(m, a)).collect::<Vec<_>>()
    };
    assert_eq!(all(&members), vec![None, Some(1000), None, Some(1500), None, None]);
    assert_eq!(total, 2500);

    // voter5 bonds enough to count: sqrt(500 * 500) = 500
    update_members(&mut members, &mut total, &vec![diff("voter5", None, Some(500))], &vec![true], &vec![Some(500)]).unwrap();
    assert_eq!(all(&members), vec![None, Some(1000), None, Some(1500), None, Some(500)]);

    // the group removes voter1, sets voter2 to 300 (no stake, so not mixed) and voter3 to 1200
    let changes = vec![
        diff("voter1", Some(100), None),
        diff("voter2", Some(200), Some(300)),
        diff("voter3", Some(300), Some(1200)),
    ];
    update_members(&mut members, &mut total, &changes, &vec![true; 3], &vec![Some(10000), None, Some(7500)]).unwrap();
    // sqrt(1200 * 7500) = 3000
    assert_eq!(all(&members), vec![None, None, None, Some(3000), None, Some(500)]);
    assert_eq!(total, 3500);
}

#[test]
fn mixer_refuses_invalid_addresses() {
    let group = vec![member("a", 4), member("Bad", 9)];
    assert_eq!(
        initialize_members(&group, &vec![true, false], &vec![Some(9), Some(4)]).unwrap_err(),
        MixerError::InvalidAddress("Bad".to_string())
    );
    let (mut members, mut total) = initialize_members(&group, &vec![true, true], &vec![Some(9), Some(4)]).unwrap();
    assert_eq!(total, 12);
    let err = update_members(
        &mut members,
        &mut total,
        &vec![diff("a", Some(4), Some(16)), diff("Bad", Some(9), None)],
        &vec![true, false],
        &vec![Some(9), Some(4)],
    )
    .unwrap_err();
    assert_eq!(err, MixerError::InvalidAddress("Bad".to_string()));
    // nothing changed
    assert_eq!(total, 12);
    assert_eq!(members.get(&"a".to_string()), Some(6));
}

#[test]
fn early_pass_stays_passed_at_expiry() {
    let rules = VotingRules { voting_period: 1, threshold: Decimal::percent(60), quorum: Decimal::percent(30), allow_end_early: true };
    // 6 of 10 say yes: passed before expiry
    let early = Votes { yes: 6, no: 0, abstain: 0, veto: 0 };
    assert!(check_is_passed(rules, early, 10, false));
    // everyone else votes no or abstains, and the vote ends
    for later in [
        Votes { yes: 6, no: 4, abstain: 0, veto: 0 },
        Votes { yes: 6, no: 0, abstain: 4, veto: 0 },
        Votes { yes: 7, no: 1, abstain: 1, veto: 1 },
    ] {
        assert!(check_is_passed(rules, later, 10, true));
        assert!(check_is_passed(rules, later, 10, false));
    }
}
