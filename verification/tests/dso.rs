use tgrade_contracts::addr_map::AddrMap;
use tgrade_contracts::common::{BlockInfo, Decimal, Status, Vote};
use tgrade_contracts::dso::{
    add_remove_non_voting_members, check_pending, execute_deposit_escrow, execute_leave_dso, execute_propose, execute_return_escrow,
    execute_vote, instantiate, list_non_voting_members, list_voting_members, proposal_add_voting_members,
    proposal_execute, query_escrow, Batch, Coin, Dso, DsoError, EscrowStatus, LeaveOutcome, MemberStatus,
    ProposalContent, ProposeResult,
};
use tgrade_contracts::id_map::IdMap;
use tgrade_contracts::voting::Ballot;

const INIT_ADMIN: &str = "juan";
const ESCROW_FUNDS: u128 = 1_000_000;
const VOTING1: &str = "miles";
const VOTING2: &str = "john";
const VOTING3: &str = "julian";
const NONVOTING1: &str = "bill";
const NONVOTING2: &str = "paul";
const NONVOTING3: &str = "jimmy";
const SECOND1: &str = "more";
const SECOND2: &str = "peeps";

// the members of the scenario below
const NON_VOTING: &str = "juanito";
const PENDING_BROKE: &str = "larry";
const PENDING_SOME: &str = "paul";
const PENDING_PAID: &str = "bill";
const VOTING: &str = "val";
const SOME_ESCROW: u128 = ESCROW_FUNDS / 2;
const PAID_ESCROW: u128 = ESCROW_FUNDS;
const VOTING_ESCROW: u128 = ESCROW_FUNDS * 2;
const PENDING_STARTS: u64 = 500;
const NOW: u64 = 86_400 * 2;

fn start() -> BlockInfo {
    BlockInfo { height: 12_345, time: 1_571_797_419_879_305_533 }
}

fn later(block: &BlockInfo, seconds: u64) -> BlockInfo {
    BlockInfo { height: block.height + seconds / 5, time: block.time + seconds * 1_000_000_000 }
}

fn utgd(amount: u128) -> Vec<Coin> {
    vec![Coin { denom: "utgd".to_string(), amount }]
}

struct Dao {
    dso: Dso,
    escrows: AddrMap<EscrowStatus>,
    members: AddrMap<u64>,
    total: u64,
    batches: IdMap<Batch>,
}

fn new_dao(creator: &str, paid: u128, initial: &[&str]) -> Dao {
    let initial: Vec<String> = initial.iter().map(|s| s.to_string()).collect();
    let inst = instantiate(
        "test_dso".to_string(),
        ESCROW_FUNDS,
        14,
        Decimal::percent(40),
        Decimal::percent(60),
        true,
        &initial,
        &creator.to_string(),
        &utgd(paid),
    )
    .unwrap();
    Dao { dso: inst.dso, escrows: inst.escrows, members: inst.members, total: inst.total, batches: IdMap::new() }
}

impl Dao {
    fn add_voting(&mut self, block: &BlockInfo, id: u64, addrs: &[&str]) -> Result<(), DsoError> {
        let addrs: Vec<String> = addrs.iter().map(|s| s.to_string()).collect();
        let rules = self.dso.rules;
        proposal_add_voting_members(&mut self.batches, &mut self.members, &mut self.escrows, &rules, block, id, &addrs)
    }

    fn add_remove(&mut self, add: &[&str], remove: &[&str]) -> Result<(), DsoError> {
        let add: Vec<String> = add.iter().map(|s| s.to_string()).collect();
        let remove: Vec<String> = remove.iter().map(|s| s.to_string()).collect();
        add_remove_non_voting_members(&mut self.members, &mut self.escrows, &add, &remove)
    }

    fn deposit(&mut self, block: &BlockInfo, who: &str, funds: Vec<Coin>) -> Result<(), DsoError> {
        execute_deposit_escrow(
            &mut self.escrows,
            &mut self.members,
            &mut self.total,
            &mut self.batches,
            &self.dso,
            block,
            &who.to_string(),
            &funds,
        )
        .map(|_| ())
    }

    fn refund(&mut self, block: &BlockInfo, who: &str) -> Result<u128, DsoError> {
        execute_return_escrow(&mut self.escrows, &mut self.members, &self.dso, block, &who.to_string(), &vec![])
    }

    fn leave(&mut self, block: &BlockInfo, who: &str) -> Result<LeaveOutcome, DsoError> {
        execute_leave_dso(&mut self.escrows, &mut self.members, &mut self.total, &self.dso, block, &who.to_string(), &vec![])
    }

    fn propose(&mut self, block: &BlockInfo, who: &str, content: ProposalContent) -> Result<ProposeResult, DsoError> {
        execute_propose(
            &mut self.dso,
            &mut self.escrows,
            &mut self.members,
            &mut self.total,
            &mut self.batches,
            block,
            &who.to_string(),
            "A proposal".to_string(),
            "Described".to_string(),
            content,
            &vec![],
        )
    }

    fn execute(&mut self, block: &BlockInfo, id: u64, content: ProposalContent) -> Result<(), DsoError> {
        proposal_execute(&mut self.dso, &mut self.members, &mut self.escrows, &mut self.batches, block, id, content)
    }

    fn weight(&self, who: &str) -> Option<u64> {
        self.members.get(&who.to_string())
    }

    fn escrow(&self, who: &str) -> Option<EscrowStatus> {
        query_escrow(&self.escrows, &who.to_string())
    }

    fn paid(&self, who: &str) -> Option<u128> {
        self.escrow(who).map(|e| e.paid)
    }

    fn status(&self, who: &str) -> MemberStatus {
        self.escrow(who).unwrap().status
    }

    /// A new proposal by the admin at `block`: those in `can_vote` vote on it, those in
    /// `cannot_vote` are refused.
    fn assert_can_vote(&mut self, block: &BlockInfo, can_vote: &[&str], cannot_vote: &[&str]) {
        let content = ProposalContent::AddRemoveNonVotingMembers { remove: vec![], add: vec!["new guy".to_string()] };
        let mut prop = self.propose(block, INIT_ADMIN, content).unwrap().proposal;
        for voter in can_vote {
            let power = self.weight(voter).unwrap_or(0);
            let escrow = self.escrow(voter);
            execute_vote(&mut prop, &later(block, 5), power, escrow, false, Vote::Yes, &vec![]).unwrap();
        }
        for voter in cannot_vote {
            let power = self.weight(voter).unwrap_or(0);
            let escrow = self.escrow(voter);
            execute_vote(&mut prop, &later(block, 10), power, escrow, false, Vote::Yes, &vec![]).unwrap_err();
        }
    }
}

fn setup_bdd() -> Dao {
    let start = start();
    let mut dao = new_dao(VOTING, VOTING_ESCROW, &[NON_VOTING]);
    dao.add_voting(&later(&start, PENDING_STARTS), 1, &[PENDING_BROKE, PENDING_SOME, PENDING_PAID]).unwrap();
    dao.deposit(&later(&start, PENDING_STARTS + 200), PENDING_PAID, utgd(PAID_ESCROW)).unwrap();
    dao.deposit(&later(&start, PENDING_STARTS + 400), PENDING_SOME, utgd(SOME_ESCROW)).unwrap();
    assert_eq!(list_voting_members(&dao.members, &None, None).len(), 1);
    assert_eq!(list_non_voting_members(&dao.members, &None, None).len(), 4);
    dao
}

fn now() -> BlockInfo {
    later(&start(), NOW)
}

#[test]
fn test_add_voting_members_overlapping_batches() {
    let mut dao = new_dao(INIT_ADMIN, ESCROW_FUNDS, &[]);
    let start = start();
    dao.assert_can_vote(&start, &[], &[VOTING1, VOTING2, VOTING3, SECOND1, SECOND2]);

    // add new members, and one of them pays in
    let delay1 = 10;
    dao.add_voting(&later(&start, delay1), 1, &[VOTING1, VOTING2, VOTING3]).unwrap();
    dao.deposit(&later(&start, delay1 + 1), VOTING1, utgd(ESCROW_FUNDS)).unwrap();

    // still no power
    dao.assert_can_vote(&later(&start, delay1 + 10), &[], &[VOTING1, VOTING2, VOTING3, SECOND1, SECOND2]);

    // a second batch one week later, and both pay in
    let delay2 = 86_400 * 7;
    dao.add_voting(&later(&start, delay2), 2, &[SECOND1, SECOND2]).unwrap();
    dao.deposit(&later(&start, delay2 + 1), SECOND1, utgd(ESCROW_FUNDS)).unwrap();
    dao.deposit(&later(&start, delay2 + 2), SECOND2, utgd(ESCROW_FUNDS)).unwrap();

    // the second batch votes
    dao.assert_can_vote(&later(&start, delay2 + 10), &[SECOND1, SECOND2], &[VOTING1, VOTING2, VOTING3]);

    // not yet past the first batch's grace period
    let almost_finish1 = delay1 + 86_400 * 14 - 1;
    dao.assert_can_vote(&later(&start, almost_finish1), &[SECOND1, SECOND2], &[VOTING1, VOTING2, VOTING3]);

    // after the grace period the paid member of the first batch votes
    let finish1 = delay1 + 86_400 * 30;
    dao.assert_can_vote(&later(&start, finish1), &[VOTING1, SECOND1, SECOND2], &[VOTING2, VOTING3]);
}

#[test]
fn test_escrows() {
    let mut dao = new_dao(INIT_ADMIN, ESCROW_FUNDS, &[]);
    let voting_status = MemberStatus::Voting;
    let paid_status = MemberStatus::PendingPaid { proposal_id: 1 };
    let pending_status = MemberStatus::Pending { proposal_id: 1 };
    let pending_status2 = MemberStatus::Pending { proposal_id: 2 };
    assert_eq!((dao.weight(INIT_ADMIN), dao.weight(VOTING1), dao.weight(VOTING2)), (Some(1), None, None));

    let mut env = start();
    env.height += 1;
    dao.add_voting(&env, 1, &[VOTING1, VOTING2]).unwrap();
    assert_eq!((dao.weight(INIT_ADMIN), dao.weight(VOTING1), dao.weight(VOTING2)), (Some(1), Some(0), Some(0)));
    assert_eq!((dao.paid(INIT_ADMIN), dao.paid(VOTING1), dao.paid(VOTING2)), (Some(ESCROW_FUNDS), Some(0), Some(0)));
    assert_eq!((dao.status(INIT_ADMIN), dao.status(VOTING1), dao.status(VOTING2)), (voting_status, pending_status, pending_status));

    // first voting member tops up with enough funds: paid, not yet a voter
    dao.deposit(&env, VOTING1, utgd(ESCROW_FUNDS)).unwrap();
    assert_eq!((dao.weight(VOTING1), dao.weight(VOTING2)), (Some(0), Some(0)));
    assert_eq!((dao.status(VOTING1), dao.status(VOTING2)), (paid_status, pending_status));
    assert_eq!((dao.paid(VOTING1), dao.paid(VOTING2)), (Some(ESCROW_FUNDS), Some(0)));

    // second tops up without enough funds
    dao.deposit(&env, VOTING2, utgd(ESCROW_FUNDS - 1)).unwrap();
    assert_eq!((dao.paid(VOTING1), dao.paid(VOTING2)), (Some(ESCROW_FUNDS), Some(ESCROW_FUNDS - 1)));
    assert_eq!((dao.weight(VOTING1), dao.weight(VOTING2)), (Some(0), Some(0)));
    assert_eq!((dao.status(VOTING1), dao.status(VOTING2)), (paid_status, pending_status));

    // second adds just enough: the batch is promoted
    dao.deposit(&env, VOTING2, utgd(1)).unwrap();
    assert_eq!((dao.weight(INIT_ADMIN), dao.weight(VOTING1), dao.weight(VOTING2)), (Some(1), Some(1), Some(1)));
    assert_eq!((dao.status(VOTING1), dao.status(VOTING2)), (voting_status, voting_status));
    assert_eq!((dao.paid(VOTING1), dao.paid(VOTING2)), (Some(ESCROW_FUNDS), Some(ESCROW_FUNDS)));
    assert_eq!(dao.total, 3);

    // second adds more than enough
    dao.deposit(&env, VOTING2, utgd(ESCROW_FUNDS - 1)).unwrap();
    assert_eq!((dao.weight(VOTING1), dao.weight(VOTING2)), (Some(1), Some(1)));
    assert_eq!(dao.paid(VOTING2), Some(ESCROW_FUNDS * 2 - 1));

    // second reclaims all it can
    assert_eq!(dao.refund(&env, VOTING2), Ok(ESCROW_FUNDS - 1));
    assert_eq!((dao.weight(VOTING1), dao.weight(VOTING2)), (Some(1), Some(1)));
    assert_eq!(dao.status(VOTING2), voting_status);
    assert_eq!(dao.paid(VOTING2), Some(ESCROW_FUNDS));

    // a third, not yet added, cannot top up nor refund
    assert_eq!(dao.deposit(&env, VOTING3, utgd(ESCROW_FUNDS)), Err(DsoError::NotAMember));
    assert_eq!(dao.refund(&env, VOTING3), Err(DsoError::NotAMember));

    // the third is added and tops up with less than enough
    env.height += 1;
    dao.add_voting(&env, 2, &[VOTING3]).unwrap();
    dao.deposit(&env, VOTING3, utgd(ESCROW_FUNDS - 1)).unwrap();
    assert_eq!(
        (dao.weight(INIT_ADMIN), dao.weight(VOTING1), dao.weight(VOTING2), dao.weight(VOTING3)),
        (Some(1), Some(1), Some(1), Some(0))
    );
    assert_eq!(dao.status(VOTING3), pending_status2);
    assert_eq!(dao.paid(VOTING3), Some(ESCROW_FUNDS - 1));

    // not a voter yet, so no refund
    assert_eq!(dao.refund(&env, VOTING3), Err(DsoError::InvalidStatus(pending_status2)));

    // an existing voter deposits more and withdraws the excess
    dao.deposit(&env, VOTING2, utgd(ESCROW_FUNDS + 888)).unwrap();
    assert_eq!(dao.paid(VOTING2), Some(2 * ESCROW_FUNDS + 888));
    assert_eq!(dao.refund(&env, VOTING2), Ok(ESCROW_FUNDS + 888));
    assert_eq!(
        (dao.paid(INIT_ADMIN), dao.paid(VOTING1), dao.paid(VOTING2), dao.paid(VOTING3)),
        (Some(ESCROW_FUNDS), Some(ESCROW_FUNDS), Some(ESCROW_FUNDS), Some(ESCROW_FUNDS - 1))
    );
}

#[test]
fn test_update_nonvoting_members() {
    let mut dao = new_dao(INIT_ADMIN, ESCROW_FUNDS, &[]);
    assert_eq!((dao.weight(NONVOTING1), dao.weight(NONVOTING2), dao.weight(NONVOTING3)), (None, None, None));

    let content = ProposalContent::AddRemoveNonVotingMembers {
        add: vec![NONVOTING1.to_string(), NONVOTING2.to_string()],
        remove: vec![],
    };
    let mut env = start();
    env.height += 10;
    let res = dao.propose(&env, INIT_ADMIN, content).unwrap();
    // passed already through the only voter
    assert_eq!(res.proposal.total_weight, 1);
    assert_eq!(res.proposal.status, Status::Passed);
    assert_eq!((dao.weight(NONVOTING1), dao.weight(NONVOTING2)), (None, None));

    env.height += 1;
    dao.execute(&env, 1, res.proposal.proposal).unwrap();
    assert_eq!((dao.weight(NONVOTING1), dao.weight(NONVOTING2), dao.weight(NONVOTING3)), (Some(0), Some(0), None));

    // add one, remove one
    let content = ProposalContent::AddRemoveNonVotingMembers {
        add: vec![NONVOTING3.to_string()],
        remove: vec![NONVOTING2.to_string()],
    };
    env.height += 5;
    let res = dao.propose(&env, INIT_ADMIN, content).unwrap();
    assert_eq!(res.proposal.status, Status::Passed);
    assert_eq!(res.ballot, Ballot { weight: 1, vote: Vote::Yes });

    env.height += 1;
    dao.execute(&env, 2, res.proposal.proposal).unwrap();
    assert_eq!((dao.weight(NONVOTING1), dao.weight(NONVOTING2), dao.weight(NONVOTING3)), (Some(0), None, Some(0)));
    assert_eq!(list_non_voting_members(&dao.members, &None, None).len(), 2);
    assert_eq!(dao.total, 1);
    assert_eq!(dao.weight(INIT_ADMIN), Some(1));
    assert_eq!(dao.weight(VOTING3), None);
}

#[test]
fn non_voting_can_leave() {
    let mut dao = new_dao(INIT_ADMIN, ESCROW_FUNDS, &[NONVOTING1, NONVOTING2]);
    assert_eq!(list_non_voting_members(&dao.members, &None, None).len(), 2);
    assert_eq!(dao.leave(&start(), NONVOTING2), Ok(LeaveOutcome::Immediately));
    let non_voting = list_non_voting_members(&dao.members, &None, None);
    assert_eq!(non_voting.len(), 1);
    assert_eq!(non_voting[0].0, NONVOTING1);
}

#[test]
fn pending_with_escrow_leaves_delayed() {
    let mut dao = new_dao(INIT_ADMIN, ESCROW_FUNDS, &[NONVOTING1, NONVOTING2]);
    dao.add_voting(&start(), 1, &[VOTING1]).unwrap();
    dao.deposit(&start(), VOTING1, utgd(50_000)).unwrap();
    assert_eq!(list_voting_members(&dao.members, &None, None).len(), 1);
    assert_eq!(list_non_voting_members(&dao.members, &None, None).len(), 3);
    // with escrow paid in, leaving waits for two voting periods
    let claim_at = start().time / 1_000_000_000 + 2 * 14 * 86_400;
    assert_eq!(dao.leave(&start(), VOTING1), Ok(LeaveOutcome::Delayed { claim_at, was_voting: false }));
    assert_eq!(dao.status(VOTING1), MemberStatus::Leaving { claim_at });
    assert_eq!(dao.refund(&start(), VOTING1), Err(DsoError::CannotClaimYet(claim_at)));
    assert_eq!(dao.refund(&later(&start(), 2 * 14 * 86_400), VOTING1), Ok(50_000));
    assert_eq!(dao.weight(VOTING1), None);
}

#[test]
fn voting_leaves_delayed() {
    let mut dao = new_dao(INIT_ADMIN, ESCROW_FUNDS, &[NONVOTING1, NONVOTING2]);
    assert_eq!(list_voting_members(&dao.members, &None, None).len(), 1);
    let claim_at = start().time / 1_000_000_000 + 2 * 14 * 86_400;
    assert_eq!(dao.leave(&start(), INIT_ADMIN), Ok(LeaveOutcome::Delayed { claim_at, was_voting: true }));
    assert_eq!(list_voting_members(&dao.members, &None, None).len(), 0);
    assert_eq!(dao.total, 0);
    assert_eq!(dao.leave(&start(), INIT_ADMIN), Err(DsoError::InvalidStatus(MemberStatus::Leaving { claim_at })));
}

#[test]
fn re_adding_existing_members() {
    let mut dao = setup_bdd();

    // NO OP: add non-voting who is already voting
    dao.add_remove(&[VOTING], &[]).unwrap();
    assert_eq!(dao.status(VOTING), MemberStatus::Voting);
    assert_eq!(dao.paid(VOTING), Some(VOTING_ESCROW));

    // NO OP: add voting who is already voting
    dao.add_voting(&now(), 2, &[VOTING]).unwrap();
    assert_eq!(dao.status(VOTING), MemberStatus::Voting);
    assert_eq!(dao.paid(VOTING), Some(VOTING_ESCROW));

    // NO OP: add non-voting who is already pending
    dao.add_remove(&[PENDING_SOME], &[]).unwrap();
    assert!(matches!(dao.status(PENDING_SOME), MemberStatus::Pending { .. }));
    assert_eq!(dao.paid(PENDING_SOME), Some(SOME_ESCROW));

    // NO OP: add voting who is already pending
    dao.add_voting(&now(), 3, &[PENDING_SOME]).unwrap();
    assert!(matches!(dao.status(PENDING_SOME), MemberStatus::Pending { .. }));
    assert_eq!(dao.paid(PENDING_SOME), Some(SOME_ESCROW));

    // NO OP: add non-voting who is already non-voting
    dao.add_remove(&[NON_VOTING], &[]).unwrap();
    assert_eq!(dao.status(NON_VOTING), MemberStatus::NonVoting);
    assert_eq!(dao.paid(NON_VOTING), Some(0));

    // SUCCEED: add voting who is already non-voting
    dao.add_voting(&now(), 4, &[NON_VOTING]).unwrap();
    assert!(matches!(dao.status(NON_VOTING), MemberStatus::Pending { .. }));
    assert_eq!(dao.paid(NON_VOTING), Some(0));
}

#[test]
fn remove_existing_members() {
    let mut dao = setup_bdd();

    // FAIL: remove voting member
    assert_eq!(dao.add_remove(&[], &[VOTING]), Err(DsoError::VotingMember(VOTING.to_string())));
    assert_eq!(dao.status(VOTING), MemberStatus::Voting);
    assert_eq!(dao.paid(VOTING), Some(VOTING_ESCROW));

    // FAIL: remove pending member
    dao.add_remove(&[], &[PENDING_PAID]).unwrap_err();
    assert!(matches!(dao.status(PENDING_PAID), MemberStatus::PendingPaid { .. }));
    assert_eq!(dao.paid(PENDING_PAID), Some(PAID_ESCROW));

    // FAIL: remove pending member with no escrow
    dao.add_remove(&[], &[PENDING_BROKE]).unwrap_err();
    assert!(matches!(dao.status(PENDING_BROKE), MemberStatus::Pending { .. }));
    assert_eq!(dao.paid(PENDING_BROKE), Some(0));

    // Succeed: remove non-voting member
    dao.add_remove(&[], &[NON_VOTING]).unwrap();
    assert_eq!(dao.weight(NON_VOTING), None);
}

#[test]
fn member_actions_by_status() {
    let mut dao = setup_bdd();
    // non-voting: no deposit, no refund, no proposal, but leaves at once
    dao.deposit(&now(), NON_VOTING, utgd(5000)).unwrap_err();
    dao.refund(&now(), NON_VOTING).unwrap_err();
    let demo = || ProposalContent::AddRemoveNonVotingMembers { remove: vec!["no one".to_string()], add: vec![] };
    assert_eq!(dao.propose(&now(), NON_VOTING, demo()).err(), Some(DsoError::Unauthorized));
    assert_eq!(dao.leave(&now(), NON_VOTING), Ok(LeaveOutcome::Immediately));
    assert_eq!(dao.weight(NON_VOTING), None);

    // pending broke: deposits, no refund, no proposal
    dao.deposit(&now(), PENDING_BROKE, utgd(5000)).unwrap();
    dao.refund(&now(), PENDING_BROKE).unwrap_err();
    dao.propose(&now(), PENDING_BROKE, demo()).err().unwrap();
    assert_eq!(dao.weight(PENDING_BROKE), Some(0));

    // voting: deposits, refunds, proposes, leaves (delayed)
    dao.deposit(&now(), VOTING, utgd(5000)).unwrap();
    dao.refund(&now(), VOTING).unwrap();
    dao.propose(&now(), VOTING, demo()).unwrap();
    dao.leave(&now(), VOTING).unwrap();
    assert_eq!(dao.weight(VOTING), Some(0));
    assert_eq!(dao.total, 0);
    assert!(matches!(dao.status(VOTING), MemberStatus::Leaving { .. }));
}

#[test]
fn ready_batches_promote_by_grace_end() {
    let mut dao = new_dao(INIT_ADMIN, ESCROW_FUNDS, &[]);
    let start = start();
    // batch 5 is proposed first, so its grace period ends first
    dao.add_voting(&start, 5, &[VOTING1, VOTING2]).unwrap();
    dao.add_voting(&later(&start, 100), 2, &[SECOND1, SECOND2]).unwrap();
    dao.deposit(&later(&start, 200), VOTING1, utgd(ESCROW_FUNDS)).unwrap();
    dao.deposit(&later(&start, 200), SECOND2, utgd(ESCROW_FUNDS)).unwrap();
    let block = later(&start, 15 * 86_400);
    let events =
        check_pending(&mut dao.dso, &mut dao.escrows, &mut dao.members, &mut dao.total, &mut dao.batches, &block)
            .unwrap();
    assert_eq!(events.iter().map(|e| e.batch).collect::<Vec<_>>(), vec![5, 2]);
    assert_eq!(events[0].members, vec![VOTING1.to_string()]);
    assert_eq!(events[1].members, vec![SECOND2.to_string()]);
    assert_eq!((dao.weight(VOTING1), dao.weight(VOTING2), dao.weight(SECOND2)), (Some(1), Some(0), Some(1)));
    assert_eq!(dao.total, 3);
    // nothing is left to promote
    let events =
        check_pending(&mut dao.dso, &mut dao.escrows, &mut dao.members, &mut dao.total, &mut dao.batches, &block)
            .unwrap();
    assert!(events.is_empty());
}
