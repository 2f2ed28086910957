use tgrade_contracts::complaints::{decision_transfers, privilege_change, uses_legacy_config, Privilege, PrivilegeChange};
use tgrade_contracts::common::{BlockInfo, Expiration};
use tgrade_contracts::complaints::{
    execute_accept_complaint, align_limit, decision_payout, list_complaints, multisig_instantiate_reply, execute_propose_arbiters,
    execute_register_complaint, execute_render_decision, validate_proposal, execute_withdraw_complaint, ApConfig, ApError,
    ArbiterPoolProposal, Complaint, ComplaintState,
};
use tgrade_contracts::dso::{Coin, PaymentError};
use tgrade_contracts::id_map::IdMap;

const DENOM: &str = "utgd";

fn block_at(seconds: u64) -> BlockInfo {
    BlockInfo { height: 100 + seconds / 5, time: 1_600_000_000_000_000_000 + seconds * 1_000_000_000 }
}

fn config(waiting_period: u64) -> ApConfig {
    ApConfig {
        dispute_cost: Coin { denom: DENOM.to_string(), amount: 100 },
        waiting_period,
        next_complaint_id: 0,
        multisig_code_id: 5,
    }
}

fn coins(amount: u128) -> Vec<Coin> {
    vec![Coin { denom: DENOM.to_string(), amount }]
}

fn register(cfg: &mut ApConfig, complaints: &mut IdMap<Complaint>, now: u64) -> u64 {
    execute_register_complaint(
        cfg,
        complaints,
        "plaintiff".to_string(),
        &coins(100),
        "title".to_string(),
        "description".to_string(),
        "defendant".to_string(),
        true,
        &block_at(now),
    )
    .unwrap()
}

fn state_at(complaints: &IdMap<Complaint>, id: u64, now: u64) -> ComplaintState {
    complaints.get(id).unwrap().current_state(&block_at(now))
}

#[test]
fn registering_complaint() {
    let mut cfg = config(3600);
    let mut complaints = IdMap::new();
    let id = register(&mut cfg, &mut complaints, 0);
    assert_eq!(id, 0);
    assert_eq!(cfg.next_complaint_id, 1);
    let c = complaints.get(id).unwrap();
    assert_eq!(c.plaintiff, "plaintiff");
    assert_eq!(c.defendant, "defendant");
    assert_eq!(c.title, "title");
    assert_eq!(c.description, "description");
    assert!(matches!(c.state, ComplaintState::Initiated { .. }));
}

#[test]
fn register_complaint_requires_dispute() {
    let mut cfg = config(3600);
    let mut complaints = IdMap::new();
    let err = execute_register_complaint(
        &mut cfg,
        &mut complaints,
        "sender".to_string(),
        &vec![],
        "Complaint".to_string(),
        "Fist complaint".to_string(),
        "defendant".to_string(),
        true,
        &block_at(0),
    )
    .unwrap_err();
    assert_eq!(err, ApError::Payment(PaymentError::NoFunds));
    assert_eq!(cfg.next_complaint_id, 0);
}

#[test]
fn register_complaint_with_wrong_amount() {
    let mut cfg = config(3600);
    let mut complaints = IdMap::new();
    let err = execute_register_complaint(
        &mut cfg,
        &mut complaints,
        "sender".to_string(),
        &coins(90),
        "t".to_string(),
        "d".to_string(),
        "defendant".to_string(),
        true,
        &block_at(0),
    )
    .unwrap_err();
    assert_eq!(
        err,
        ApError::InvalidDisputePayment {
            paid: Coin { denom: DENOM.to_string(), amount: 90 },
            required: Coin { denom: DENOM.to_string(), amount: 100 },
        }
    );
}

#[test]
fn complaint_aborted() {
    let mut cfg = config(100);
    let mut complaints = IdMap::new();
    let id = register(&mut cfg, &mut complaints, 0);
    assert!(matches!(state_at(&complaints, id, 99), ComplaintState::Initiated { .. }));
    assert_eq!(state_at(&complaints, id, 100), ComplaintState::Aborted);
}

#[test]
fn accepting_complaint() {
    let mut cfg = config(100);
    let mut complaints = IdMap::new();
    let id = register(&mut cfg, &mut complaints, 0);
    execute_accept_complaint(&cfg, &mut complaints, &"defendant".to_string(), &coins(100), id, &block_at(10)).unwrap();
    assert_eq!(
        complaints.get(id).unwrap().state,
        ComplaintState::Waiting { wait_over: Expiration::AtTime(block_at(110).time) }
    );
    assert_eq!(state_at(&complaints, id, 110), ComplaintState::Accepted);
}

#[test]
fn accept_complaint_only_by_defendant() {
    let mut cfg = config(100);
    let mut complaints = IdMap::new();
    let id = register(&mut cfg, &mut complaints, 0);
    let err = execute_accept_complaint(&cfg, &mut complaints, &"plaintiff".to_string(), &coins(100), id, &block_at(1)).unwrap_err();
    assert_eq!(err, ApError::Unauthorized("plaintiff".to_string()));
    let err = execute_accept_complaint(&cfg, &mut complaints, &"defendant".to_string(), &coins(100), 7, &block_at(1)).unwrap_err();
    assert_eq!(err, ApError::ComplaintMissing(7));
}

#[test]
fn cannot_accept_aborted_complaint() {
    let mut cfg = config(100);
    let mut complaints = IdMap::new();
    let id = register(&mut cfg, &mut complaints, 0);
    let err = execute_accept_complaint(&cfg, &mut complaints, &"defendant".to_string(), &coins(100), id, &block_at(100)).unwrap_err();
    assert_eq!(err, ApError::ImproperState(ComplaintState::Aborted));
}

#[test]
fn withdraw_initiated_complaint() {
    let mut cfg = config(3600);
    let mut complaints = IdMap::new();
    let id = register(&mut cfg, &mut complaints, 0);
    let refunds = execute_withdraw_complaint(&cfg, &mut complaints, &"plaintiff".to_string(), id, "reasoning".to_string(), &block_at(1)).unwrap();
    assert_eq!(refunds, vec![("plaintiff".to_string(), 80)]);
    assert_eq!(complaints.get(id).unwrap().state, ComplaintState::Withdrawn { reason: "reasoning".to_owned() });
}

#[test]
fn withdraw_accepted_complaint() {
    let mut cfg = config(3600);
    let mut complaints = IdMap::new();
    let id = register(&mut cfg, &mut complaints, 0);
    execute_accept_complaint(&cfg, &mut complaints, &"defendant".to_string(), &coins(100), id, &block_at(1)).unwrap();
    let refunds = execute_withdraw_complaint(&cfg, &mut complaints, &"plaintiff".to_string(), id, "reasoning".to_string(), &block_at(2)).unwrap();
    assert_eq!(refunds, vec![("plaintiff".to_string(), 80), ("defendant".to_string(), 80)]);
    assert_eq!(complaints.get(id).unwrap().state, ComplaintState::Withdrawn { reason: "reasoning".to_owned() });
}

#[test]
fn withdraw_aborted_complaint() {
    let mut cfg = config(100);
    let mut complaints = IdMap::new();
    let id = register(&mut cfg, &mut complaints, 0);
    let refunds = execute_withdraw_complaint(&cfg, &mut complaints, &"plaintiff".to_string(), id, "reasoning".to_string(), &block_at(100)).unwrap();
    assert_eq!(refunds, vec![("plaintiff".to_string(), 100)]);
}

#[test]
fn withdraw_is_for_the_plaintiff_and_open_complaints_only() {
    let mut cfg = config(100);
    let mut complaints = IdMap::new();
    let id = register(&mut cfg, &mut complaints, 0);
    let err = execute_withdraw_complaint(&cfg, &mut complaints, &"defendant".to_string(), id, "r".to_string(), &block_at(1)).unwrap_err();
    assert_eq!(err, ApError::Unauthorized("defendant".to_string()));
    execute_withdraw_complaint(&cfg, &mut complaints, &"plaintiff".to_string(), id, "r".to_string(), &block_at(1)).unwrap();
    let err = execute_withdraw_complaint(&cfg, &mut complaints, &"plaintiff".to_string(), id, "again".to_string(), &block_at(2)).unwrap_err();
    assert_eq!(err, ApError::ImproperState(ComplaintState::Withdrawn { reason: "r".to_string() }));
}

#[test]
fn eighty_percent_rounds_down() {
    let mut cfg = config(3600);
    cfg.dispute_cost.amount = 99;
    let mut complaints = IdMap::new();
    let id = execute_register_complaint(
        &mut cfg,
        &mut complaints,
        "plaintiff".to_string(),
        &coins(99),
        "t".to_string(),
        "d".to_string(),
        "defendant".to_string(),
        true,
        &block_at(0),
    )
    .unwrap();
    let refunds = execute_withdraw_complaint(&cfg, &mut complaints, &"plaintiff".to_string(), id, "r".to_string(), &block_at(1)).unwrap();
    // 99 * 0.8 = 79.2
    assert_eq!(refunds, vec![("plaintiff".to_string(), 79)]);
}

#[test]
fn proposing_arbiters() {
    let mut cfg = config(100);
    let mut complaints = IdMap::new();
    let id = register(&mut cfg, &mut complaints, 0);
    let arbiters = vec!["arbiter1".to_string(), "arbiter2".to_string()];
    // not accepted yet
    let err = execute_propose_arbiters(&cfg, &complaints, id, &arbiters, &block_at(1)).unwrap_err();
    assert!(matches!(err, ApError::ImproperState(ComplaintState::Initiated { .. })));
    execute_accept_complaint(&cfg, &mut complaints, &"defendant".to_string(), &coins(100), id, &block_at(1)).unwrap();
    let setup = execute_propose_arbiters(&cfg, &complaints, id, &arbiters, &block_at(101)).unwrap();
    assert_eq!(setup.voters.len(), 2);
    assert_eq!(setup.voters[0].addr, "arbiter1");
    assert_eq!(setup.voters[1].weight, 1);
    assert_eq!(setup.threshold_weight, 2);
    assert_eq!(setup.max_voting_period, 100);
    assert_eq!(setup.complaint_id, id);
    assert_eq!(setup.code_id, 5);
    assert_eq!(execute_propose_arbiters(&cfg, &complaints, 9, &arbiters, &block_at(101)).unwrap_err(), ApError::NotFound);

    multisig_instantiate_reply(&mut complaints, id, "multisig".to_string()).unwrap();
    assert_eq!(complaints.get(id).unwrap().state, ComplaintState::Processing { arbiters: "multisig".to_string() });
}

#[test]
fn render_decision() {
    let mut cfg = config(100);
    let mut complaints = IdMap::new();
    let id = register(&mut cfg, &mut complaints, 0);
    // only processing complaints take a decision
    let err = execute_render_decision(&mut complaints, &"multisig".to_string(), id, "s".to_string(), "l".to_string()).unwrap_err();
    assert!(matches!(err, ApError::ImproperState(ComplaintState::Initiated { .. })));
    multisig_instantiate_reply(&mut complaints, id, "multisig".to_string()).unwrap();
    let err = execute_render_decision(&mut complaints, &"other".to_string(), id, "s".to_string(), "l".to_string()).unwrap_err();
    assert_eq!(err, ApError::Unauthorized("Only multisig can render decision for this complaint".to_string()));
    execute_render_decision(&mut complaints, &"multisig".to_string(), id, "summary".to_string(), "ipfs".to_string()).unwrap();
    assert_eq!(
        complaints.get(id).unwrap().state,
        ComplaintState::Closed { summary: "summary".to_string(), ipfs_link: "ipfs".to_string() }
    );
    // twice the dispute cost shared by the three members of the multisig
    assert_eq!(decision_payout(100, 3), 66);
}

#[test]
fn arbiter_proposals_need_members_of_the_pool() {
    let mut cfg = config(100);
    let mut complaints = IdMap::new();
    let id = register(&mut cfg, &mut complaints, 0);
    let p = ArbiterPoolProposal::ProposeArbiters { case_id: id, arbiters: vec!["a".to_string(), "b".to_string()] };
    let ok = vec![true, true];
    assert_eq!(validate_proposal(&p, &complaints, &ok, &vec![Some(1), Some(3)]), Ok(()));
    assert_eq!(validate_proposal(&p, &complaints, &ok, &vec![Some(1), None]), Err(ApError::InvalidProposedArbiter("b".to_string())));
    // addresses are checked before membership
    assert_eq!(
        validate_proposal(&p, &complaints, &vec![true, false], &vec![None, None]),
        Err(ApError::InvalidAddress("b".to_string()))
    );
    let missing = ArbiterPoolProposal::ProposeArbiters { case_id: 4, arbiters: vec![] };
    assert_eq!(validate_proposal(&missing, &complaints, &vec![], &vec![]), Err(ApError::NotFound));
    assert_eq!(validate_proposal(&ArbiterPoolProposal::Text, &complaints, &vec![], &vec![]), Ok(()));
}

#[test]
fn listing_complaints_pages_by_id() {
    let mut cfg = config(100);
    let mut complaints = IdMap::new();
    for _ in 0..5 {
        register(&mut cfg, &mut complaints, 0);
    }
    let page = list_complaints(&complaints, None, 2, &block_at(200));
    assert_eq!(page.iter().map(|(id, c)| (*id, c.state.copy())).collect::<Vec<_>>(), vec![(0, ComplaintState::Aborted), (1, ComplaintState::Aborted)]);
    assert_eq!(page[0].1.title, complaints.get(0).unwrap().title);
    assert_eq!(page[1].1.defendant, complaints.get(1).unwrap().defendant);
    let page = list_complaints(&complaints, Some(2), align_limit(None), &block_at(1));
    assert_eq!(page.len(), 2);
    assert_eq!(page[0].0, 3);
    assert_eq!(page[1].0, 4);
    assert_eq!(page[0].1.state, complaints.get(3).unwrap().state);
    assert_eq!(align_limit(Some(500)), 100);
    assert_eq!(align_limit(Some(7)), 7);
}

#[test]
fn legacy_config_before_0_6_3() {
    assert_eq!(uses_legacy_config("0.6.2"), Some(true));
    assert_eq!(uses_legacy_config("0.6.3-rc.1"), Some(true));
    assert_eq!(uses_legacy_config("0.6.3"), Some(false));
    assert_eq!(uses_legacy_config("0.7.0"), Some(false));
    assert_eq!(uses_legacy_config("six"), None);
}

#[test]
fn promotion_requests_privileges() {
    assert_eq!(
        privilege_change(PrivilegeChange::Promoted),
        vec![Privilege::GovProposalExecutor, Privilege::ConsensusParamChanger]
    );
    assert_eq!(privilege_change(PrivilegeChange::Demoted), vec![]);
}

#[test]
fn complaint_against_invalid_address_is_refused() {
    let mut cfg = config(3600);
    let mut complaints = IdMap::new();
    // the payment is checked first
    let err = execute_register_complaint(
        &mut cfg, &mut complaints, "p".to_string(), &vec![], "t".to_string(), "d".to_string(), "Bad".to_string(), false, &block_at(0),
    )
    .unwrap_err();
    assert_eq!(err, ApError::Payment(PaymentError::NoFunds));
    let err = execute_register_complaint(
        &mut cfg, &mut complaints, "p".to_string(), &coins(100), "t".to_string(), "d".to_string(), "Bad".to_string(), false, &block_at(0),
    )
    .unwrap_err();
    assert_eq!(err, ApError::InvalidAddress("Bad".to_string()));
    assert_eq!(cfg.next_complaint_id, 0);
}

#[test]
fn arbiters_share_twice_the_dispute_cost() {
    let arbiters = vec!["x".to_string(), "y".to_string(), "z".to_string()];
    assert_eq!(
        decision_transfers(&arbiters, 100),
        Some(vec![("x".to_string(), 66), ("y".to_string(), 66), ("z".to_string(), 66)])
    );
    assert_eq!(decision_transfers(&vec![], 100), None);
    assert_eq!(decision_transfers(&arbiters, u128::MAX / 2 + 1), None);
}
