//! The arbiter pool: complaints against members, their life cycle from registration to a
//! rendered decision, and the payouts along the way.
use crate::common::{spec_is_expired, BlockInfo, Expiration, NANOS_PER_SECOND};
use crate::dispute::Voter;
use crate::dso::{must_pay, payment_error_is, spec_must_pay, Coin, PaymentError};
use crate::id_map::IdMap;
use crate::version::{semver_parse, spec_version_lt, version_text_lt};
use vstd::prelude::*;
use vstd::string::StringExecFns;

verus! {

/// Where a complaint stands.
#[derive(Debug, PartialEq, Eq)]
pub enum ComplaintState {
    /// Registered; the defendant may accept it until `expiration`.
    Initiated { expiration: Expiration },
    /// Accepted by the defendant; arbiters may be proposed once `wait_over` passed.
    Waiting { wait_over: Expiration },
    Withdrawn { reason: String },
    /// The defendant did not accept in time.
    Aborted,
    /// The waiting period is over.
    Accepted,
    /// The arbiters (a multisig contract) are deciding.
    Processing { arbiters: String },
    Closed { summary: String, ipfs_link: String },
}

impl ComplaintState {
    /// A copy of this state.
    pub fn copy(&self) -> (r: ComplaintState)
        ensures
            r == *self,
    {
        match self {
            ComplaintState::Initiated { expiration } => ComplaintState::Initiated { expiration: *expiration },
            ComplaintState::Waiting { wait_over } => ComplaintState::Waiting { wait_over: *wait_over },
            ComplaintState::Withdrawn { reason } => ComplaintState::Withdrawn { reason: reason.clone() },
            ComplaintState::Aborted => ComplaintState::Aborted,
            ComplaintState::Accepted => ComplaintState::Accepted,
            ComplaintState::Processing { arbiters } => ComplaintState::Processing { arbiters: arbiters.clone() },
            ComplaintState::Closed { summary, ipfs_link } => ComplaintState::Closed {
                summary: summary.clone(),
                ipfs_link: ipfs_link.clone(),
            },
        }
    }
}

/// A complaint of `plaintiff` against `defendant`.
#[derive(Debug, PartialEq, Eq)]
pub struct Complaint {
    pub title: String,
    pub description: String,
    pub plaintiff: String,
    pub defendant: String,
    pub state: ComplaintState,
}

/// The state a stored state has reached at `block`: an initiated complaint not accepted in time
/// is aborted, a waiting one whose waiting period is over is accepted.
pub open spec fn spec_current_state(state: ComplaintState, block: BlockInfo) -> ComplaintState {
    match state {
        ComplaintState::Initiated { expiration } => if spec_is_expired(expiration, block) {
            ComplaintState::Aborted
        } else {
            state
        },
        ComplaintState::Waiting { wait_over } => if spec_is_expired(wait_over, block) {
            ComplaintState::Accepted
        } else {
            state
        },
        _ => state,
    }
}

impl Complaint {
    /// The state of this complaint at `block`.
    pub fn current_state(&self, block: &BlockInfo) -> (r: ComplaintState)
        ensures
            r == spec_current_state(self.state, *block),
    {
        match &self.state {
            ComplaintState::Initiated { expiration } => {
                if expiration.is_expired(block) {
                    ComplaintState::Aborted
                } else {
                    self.state.copy()
                }
            },
            ComplaintState::Waiting { wait_over } => {
                if wait_over.is_expired(block) {
                    ComplaintState::Accepted
                } else {
                    self.state.copy()
                }
            },
            _ => self.state.copy(),
        }
    }

    /// This complaint with its state brought up to `block`.
    pub fn update_state(self, block: &BlockInfo) -> (r: Complaint)
        ensures
            r == (Complaint { state: spec_current_state(self.state, *block), ..self }),
    {
        let state = self.current_state(block);
        Complaint { state, ..self }
    }
}

/// Settings of the arbiter pool.
#[derive(Debug, PartialEq, Eq)]
pub struct ApConfig {
    /// What registering or accepting a complaint costs.
    pub dispute_cost: Coin,
    /// Seconds the defendant has to accept, and then to wait before arbiters are proposed.
    pub waiting_period: u64,
    pub next_complaint_id: u64,
    /// Code of the multisig contract the arbiters decide with.
    pub multisig_code_id: u64,
}

/// Errors of the arbiter pool.
#[derive(Debug, PartialEq, Eq)]
pub enum ApError {
    /// A stored item that must exist was not found.
    NotFound,
    Payment(PaymentError),
    Unauthorized(String),
    InvalidDisputePayment { paid: Coin, required: Coin },
    ComplaintMissing(u64),
    ImproperState(ComplaintState),
    InvalidProposedArbiter(String),
    /// An address the chain does not accept.
    InvalidAddress(String),
}

/// The expiration `seconds` after `block`.
pub open spec fn time_after(seconds: u64, block: BlockInfo) -> Expiration {
    Expiration::AtTime((block.time + seconds * NANOS_PER_SECOND) as u64)
}

/// Whether `seconds` after `block` is still a time the chain can express.
pub open spec fn fits_after(seconds: u64, block: BlockInfo) -> bool {
    block.time + seconds * NANOS_PER_SECOND <= u64::MAX
}

fn expiration_after(seconds: u64, block: &BlockInfo) -> (e: Expiration)
    requires
        fits_after(seconds, *block),
    ensures
        e == time_after(seconds, *block),
{
    Expiration::AtTime(block.time + seconds * NANOS_PER_SECOND)
}

/// The error for a payment that is no single coin of the dispute denom, or not the dispute cost.
pub open spec fn dispute_payment_error(config: ApConfig, funds: Seq<Coin>) -> Option<ApError> {
    match spec_must_pay(funds, config.dispute_cost.denom@) {
        None => Some(ApError::Payment(PaymentError::NoFunds)),
        Some(paid) => if paid != config.dispute_cost.amount {
            Some(ApError::InvalidDisputePayment {
                paid: Coin { denom: config.dispute_cost.denom, amount: paid },
                required: config.dispute_cost,
            })
        } else {
            None
        },
    }
}

/// Whether `e` is the error a payment of `funds` for a dispute is refused with.
pub open spec fn dispute_error_is(e: ApError, config: ApConfig, funds: Seq<Coin>) -> bool {
    match dispute_payment_error(config, funds) {
        Some(ApError::Payment(_)) => e matches ApError::Payment(pe) && payment_error_is(pe, funds, config.dispute_cost.denom@),
        Some(other) => e == other,
        None => false,
    }
}

/// Checks that exactly the dispute cost was paid.
fn check_dispute_payment(config: &ApConfig, funds: &Vec<Coin>) -> (r: Result<(), ApError>)
    ensures
        r is Ok <==> dispute_payment_error(*config, funds@) is None,
        r matches Err(e) ==> dispute_error_is(e, *config, funds@),
{
    match must_pay(funds, &config.dispute_cost.denom) {
        Err(e) => Err(ApError::Payment(e)),
        Ok(paid) => {
            if paid != config.dispute_cost.amount {
                Err(ApError::InvalidDisputePayment {
                    paid: Coin { denom: config.dispute_cost.denom.clone(), amount: paid },
                    required: Coin { denom: config.dispute_cost.denom.clone(), amount: config.dispute_cost.amount },
                })
            } else {
                Ok(())
            }
        },
    }
}

/// Registers a complaint of `sender` against `defendant`, paid with `funds`; it is initiated
/// until the waiting period after `block`. Returns its id. `defendant_valid` is whether the
/// chain accepts the defendant's address.
pub fn execute_register_complaint(
    config: &mut ApConfig,
    complaints: &mut IdMap<Complaint>,
    sender: String,
    funds: &Vec<Coin>,
    title: String,
    description: String,
    defendant: String,
    defendant_valid: bool,
    block: &BlockInfo,
) -> (r: Result<u64, ApError>)
    requires
        old(complaints).wf(),
        old(config).next_complaint_id < u64::MAX,
        fits_after(old(config).waiting_period, *block),
    ensures
        final(complaints).wf(),
        r is Ok <==> dispute_payment_error(*old(config), funds@) is None && defendant_valid,
        dispute_payment_error(*old(config), funds@) is Some ==> (r matches Err(e) && dispute_error_is(e, *old(config), funds@)),
        dispute_payment_error(*old(config), funds@) is None && !defendant_valid ==> r == Err::<u64, ApError>(
            ApError::InvalidAddress(defendant),
        ),
        r is Err ==> *final(config) == *old(config) && final(complaints).view() == old(complaints).view(),
        r matches Ok(id) ==> {
            &&& id == old(config).next_complaint_id
            &&& *final(config) == (ApConfig { next_complaint_id: (id + 1) as u64, ..*old(config) })
            &&& final(complaints).view() == old(complaints).view().insert(id, Complaint {
                title,
                description,
                plaintiff: sender,
                defendant,
                state: ComplaintState::Initiated { expiration: time_after(old(config).waiting_period, *block) },
            })
        },
{
    check_dispute_payment(config, funds)?;
    if !defendant_valid {
        return Err(ApError::InvalidAddress(defendant));
    }
    let id = config.next_complaint_id;
    let expiration = expiration_after(config.waiting_period, block);
    let complaint = Complaint {
        title,
        description,
        plaintiff: sender,
        defendant,
        state: ComplaintState::Initiated { expiration },
    };
    complaints.insert(id, complaint);
    config.next_complaint_id = id + 1;
    Ok(id)
}

/// The defendant `sender` accepts complaint `id`, paying the dispute cost with `funds`; the
/// complaint then waits for the waiting period after `block`.
pub fn execute_accept_complaint(
    config: &ApConfig,
    complaints: &mut IdMap<Complaint>,
    sender: &String,
    funds: &Vec<Coin>,
    id: u64,
    block: &BlockInfo,
) -> (r: Result<(), ApError>)
    requires
        old(complaints).wf(),
        fits_after(config.waiting_period, *block),
    ensures
        final(complaints).wf(),
        r is Err ==> final(complaints).view() == old(complaints).view(),
        dispute_payment_error(*config, funds@) is Some ==> (r matches Err(e) && dispute_error_is(e, *config, funds@)),
        dispute_payment_error(*config, funds@) is None ==> {
            let c = old(complaints).view()[id];
            &&& !old(complaints).view().contains_key(id) ==> r == Err::<(), ApError>(ApError::ComplaintMissing(id))
            &&& old(complaints).view().contains_key(id) && c.defendant@ != sender@ ==> r == Err::<(), ApError>(ApError::Unauthorized(*sender))
            &&& old(complaints).view().contains_key(id) && c.defendant@ == sender@ && !(spec_current_state(c.state, *block) is Initiated)
                ==> r == Err::<(), ApError>(ApError::ImproperState(spec_current_state(c.state, *block)))
            &&& old(complaints).view().contains_key(id) && c.defendant@ == sender@ && spec_current_state(c.state, *block) is Initiated
                ==> r is Ok && final(complaints).view() == old(complaints).view().insert(id, Complaint {
                    state: ComplaintState::Waiting { wait_over: time_after(config.waiting_period, *block) },
                    ..c
                })
        },
{
    check_dispute_payment(config, funds)?;
    let complaint = match complaints.remove(id) {
        None => return Err(ApError::ComplaintMissing(id)),
        Some(c) => c,
    };
    let ghost c0 = old(complaints).view()[id];
    proof {
        assert(old(complaints).view().remove(id).insert(id, c0) =~= old(complaints).view());
    }
    if *sender != complaint.defendant {
        complaints.insert(id, complaint);
        return Err(ApError::Unauthorized(sender.clone()));
    }
    let state = complaint.current_state(block);
    match state {
        ComplaintState::Initiated { .. } => {},
        _ => {
            complaints.insert(id, complaint);
            return Err(ApError::ImproperState(state));
        },
    }
    let wait_over = expiration_after(config.waiting_period, block);
    let updated = Complaint { state: ComplaintState::Waiting { wait_over }, ..complaint };
    complaints.insert(id, updated);
    proof {
        assert(final(complaints).view() =~= old(complaints).view().insert(id, Complaint {
            state: ComplaintState::Waiting { wait_over: time_after(config.waiting_period, *block) },
            ..c0
        }));
    }
    Ok(())
}

/// `amount` scaled down to 80%, rounded down.
pub open spec fn eighty_percent(amount: u128) -> int {
    amount * 80 / 100
}

/// 80% of `amount`, rounded down.
pub fn eighty_percent_of(amount: u128) -> (r: u128)
    ensures
        r == eighty_percent(amount),
{
    let q = amount / 100;
    let m = amount % 100;
    proof {
        assert(amount == q * 100 + m);
        assert(amount * 80 / 100 == q * 80 + m * 80 / 100) by (nonlinear_arith)
            requires
                amount == q * 100 + m,
                0 <= m < 100,
        ;
        assert(q * 80 <= amount) by (nonlinear_arith)
            requires
                amount == q * 100 + m,
                0 <= m,
                0 <= q,
        ;
    }
    q * 80 + m * 80 / 100
}

/// The refunds owed when complaint `c` is withdrawn in state `state`: the plaintiff gets 80% of
/// the dispute cost back (all of it from an aborted complaint); from a waiting complaint the
/// defendant gets 80% back too. `None` where the complaint cannot be withdrawn.
pub open spec fn withdraw_refunds(config: ApConfig, c: Complaint, state: ComplaintState) -> Option<Seq<(Seq<char>, u128)>> {
    let cost = config.dispute_cost.amount;
    match state {
        ComplaintState::Initiated { .. } => Some(seq![(c.plaintiff@, eighty_percent(cost) as u128)]),
        ComplaintState::Waiting { .. } => Some(seq![(c.plaintiff@, eighty_percent(cost) as u128), (c.defendant@, eighty_percent(cost) as u128)]),
        ComplaintState::Aborted => Some(seq![(c.plaintiff@, cost)]),
        _ => None,
    }
}

/// Addresses and amounts of a list of refunds.
pub open spec fn refund_view(r: Seq<(String, u128)>) -> Seq<(Seq<char>, u128)> {
    r.map_values(|p: (String, u128)| (p.0@, p.1))
}

/// The plaintiff `sender` withdraws complaint `id` for `reason`; returns the refunds (address,
/// amount in the dispute denom) to send.
pub fn execute_withdraw_complaint(
    config: &ApConfig,
    complaints: &mut IdMap<Complaint>,
    sender: &String,
    id: u64,
    reason: String,
    block: &BlockInfo,
) -> (r: Result<Vec<(String, u128)>, ApError>)
    requires
        old(complaints).wf(),
    ensures
        final(complaints).wf(),
        r is Err ==> final(complaints).view() == old(complaints).view(),
        ({
            let c = old(complaints).view()[id];
            let state = spec_current_state(c.state, *block);
            &&& !old(complaints).view().contains_key(id) ==> r == Err::<Vec<(String, u128)>, ApError>(ApError::ComplaintMissing(id))
            &&& old(complaints).view().contains_key(id) && c.plaintiff@ != sender@ ==> r == Err::<Vec<(String, u128)>, ApError>(ApError::Unauthorized(*sender))
            &&& old(complaints).view().contains_key(id) && c.plaintiff@ == sender@ && withdraw_refunds(*config, c, state) is None
                ==> r == Err::<Vec<(String, u128)>, ApError>(ApError::ImproperState(state))
            &&& old(complaints).view().contains_key(id) && c.plaintiff@ == sender@ && withdraw_refunds(*config, c, state) is Some
                ==> (r matches Ok(refunds) && refund_view(refunds@) == withdraw_refunds(*config, c, state)->0
                    && final(complaints).view() == old(complaints).view().insert(id, Complaint { state: ComplaintState::Withdrawn { reason }, ..c }))
        }),
{
    let complaint = match complaints.remove(id) {
        None => return Err(ApError::ComplaintMissing(id)),
        Some(c) => c,
    };
    let ghost c0 = old(complaints).view()[id];
    proof {
        assert(old(complaints).view().remove(id).insert(id, c0) =~= old(complaints).view());
    }
    if complaint.plaintiff != *sender {
        complaints.insert(id, complaint);
        return Err(ApError::Unauthorized(sender.clone()));
    }
    let cost = config.dispute_cost.amount;
    let mut refunds: Vec<(String, u128)> = Vec::new();
    let state = complaint.current_state(block);
    match state {
        ComplaintState::Initiated { .. } => {
            refunds.push((sender.clone(), eighty_percent_of(cost)));
        },
        ComplaintState::Waiting { .. } => {
            let part = eighty_percent_of(cost);
            refunds.push((sender.clone(), part));
            refunds.push((complaint.defendant.clone(), part));
        },
        ComplaintState::Aborted => {
            refunds.push((sender.clone(), cost));
        },
        _ => {
            complaints.insert(id, complaint);
            return Err(ApError::ImproperState(state));
        },
    }
    let updated = Complaint { state: ComplaintState::Withdrawn { reason }, ..complaint };
    complaints.insert(id, updated);
    proof {
        assert(refund_view(refunds@) =~= withdraw_refunds(*config, c0, spec_current_state(c0.state, *block))->0);
    }
    Ok(refunds)
}

/// The refusal of a decision by someone other than the deciding `arbiters`.
pub open spec fn not_decider_message(arbiters: Seq<char>) -> Seq<char> {
    "Only "@ + arbiters + " can render decision for this complaint"@
}

/// The arbiters `sender` render their decision on complaint `id`, which closes it.
pub fn execute_render_decision(
    complaints: &mut IdMap<Complaint>,
    sender: &String,
    id: u64,
    summary: String,
    ipfs_link: String,
) -> (r: Result<(), ApError>)
    requires
        old(complaints).wf(),
    ensures
        final(complaints).wf(),
        r is Err ==> final(complaints).view() == old(complaints).view(),
        ({
            let c = old(complaints).view()[id];
            &&& !old(complaints).view().contains_key(id) ==> r == Err::<(), ApError>(ApError::ComplaintMissing(id))
            &&& old(complaints).view().contains_key(id) && !(c.state is Processing) ==> r == Err::<(), ApError>(ApError::ImproperState(c.state))
            &&& old(complaints).view().contains_key(id) && c.state is Processing && c.state->arbiters@ != sender@
                ==> (r matches Err(ApError::Unauthorized(m))
                    && m@ == not_decider_message(c.state->arbiters@))
            &&& old(complaints).view().contains_key(id) && c.state is Processing && c.state->arbiters@ == sender@
                ==> r is Ok && final(complaints).view() == old(complaints).view().insert(id, Complaint { state: ComplaintState::Closed { summary, ipfs_link }, ..c })
        }),
{
    let complaint = match complaints.remove(id) {
        None => return Err(ApError::ComplaintMissing(id)),
        Some(c) => c,
    };
    let ghost c0 = old(complaints).view()[id];
    proof {
        assert(old(complaints).view().remove(id).insert(id, c0) =~= old(complaints).view());
    }
    let allowed = match &complaint.state {
        ComplaintState::Processing { arbiters } => {
            if *arbiters != *sender {
                let message = String::from_str("Only ").concat(arbiters.as_str()).concat(
                    " can render decision for this complaint",
                );
                complaints.insert(id, complaint);
                return Err(ApError::Unauthorized(message));
            }
            true
        },
        _ => false,
    };
    if !allowed {
        let state = complaint.state.copy();
        complaints.insert(id, complaint);
        return Err(ApError::ImproperState(state));
    }
    let updated = Complaint { state: ComplaintState::Closed { summary, ipfs_link }, ..complaint };
    complaints.insert(id, updated);
    Ok(())
}

/// What each member of the deciding multisig receives: twice the dispute cost, shared out,
/// rounded down.
pub fn decision_payout(dispute_cost: u128, members: usize) -> (r: u128)
    requires
        members > 0,
        2 * dispute_cost <= u128::MAX,
    ensures
        r == 2 * dispute_cost / (members as int),
{
    2 * dispute_cost / (members as u128)
}

/// How the multisig deciding a complaint is set up.
#[derive(Debug, PartialEq, Eq)]
pub struct MultisigSetup {
    /// Each proposed arbiter, with weight 1.
    pub voters: Vec<Voter>,
    /// Weight needed to pass: a majority of the arbiters.
    pub threshold_weight: u64,
    /// Longest voting period, in seconds.
    pub max_voting_period: u64,
    pub complaint_id: u64,
    pub code_id: u64,
}

/// Proposes `arbiters` for complaint `case_id`, which must be accepted at `block`; returns the
/// multisig to instantiate for them.
pub fn execute_propose_arbiters(
    config: &ApConfig,
    complaints: &IdMap<Complaint>,
    case_id: u64,
    arbiters: &Vec<String>,
    block: &BlockInfo,
) -> (r: Result<MultisigSetup, ApError>)
    requires
        complaints.wf(),
    ensures
        !complaints.view().contains_key(case_id) ==> r == Err::<MultisigSetup, ApError>(ApError::NotFound),
        complaints.view().contains_key(case_id) && !(spec_current_state(complaints.view()[case_id].state, *block) is Accepted)
            ==> r == Err::<MultisigSetup, ApError>(ApError::ImproperState(complaints.view()[case_id].state)),
        complaints.view().contains_key(case_id) && spec_current_state(complaints.view()[case_id].state, *block) is Accepted
            ==> (r matches Ok(m) && {
                &&& m.voters@.len() == arbiters@.len()
                &&& forall|i: int| 0 <= i < arbiters@.len() ==> (#[trigger] m.voters@[i]).addr@ == arbiters@[i]@ && m.voters@[i].weight == 1
                &&& m.threshold_weight == arbiters@.len() / 2 + 1
                &&& m.max_voting_period == config.waiting_period
                &&& m.complaint_id == case_id
                &&& m.code_id == config.multisig_code_id
            }),
{
    let complaint = match complaints.get(case_id) {
        None => return Err(ApError::NotFound),
        Some(c) => c,
    };
    let state = complaint.current_state(block);
    match state {
        ComplaintState::Accepted => {},
        _ => return Err(ApError::ImproperState(complaint.state.copy())),
    }
    let mut voters: Vec<Voter> = Vec::new();
    let mut i: usize = 0;
    while i < arbiters.len()
        invariant
            i <= arbiters@.len(),
            voters@.len() == i,
            forall|k: int| 0 <= k < i ==> (#[trigger] voters@[k]).addr@ == arbiters@[k]@ && voters@[k].weight == 1,
        decreases arbiters@.len() - i,
    {
        voters.push(Voter { addr: arbiters[i].clone(), weight: 1 });
        i = i + 1;
    }
    let pass_weight = (arbiters.len() / 2 + 1) as u64;
    Ok(MultisigSetup {
        voters,
        threshold_weight: pass_weight,
        max_voting_period: config.waiting_period,
        complaint_id: case_id,
        code_id: config.multisig_code_id,
    })
}

/// The multisig at `arbiters` was instantiated for complaint `id`, which now waits for its
/// decision.
pub fn multisig_instantiate_reply(complaints: &mut IdMap<Complaint>, id: u64, arbiters: String) -> (r: Result<(), ApError>)
    requires
        old(complaints).wf(),
    ensures
        final(complaints).wf(),
        !old(complaints).view().contains_key(id) ==> r == Err::<(), ApError>(ApError::ComplaintMissing(id))
            && final(complaints).view() == old(complaints).view(),
        old(complaints).view().contains_key(id) ==> r is Ok && final(complaints).view() == old(complaints).view().insert(
            id,
            Complaint { state: ComplaintState::Processing { arbiters }, ..old(complaints).view()[id] },
        ),
{
    match complaints.remove(id) {
        None => Err(ApError::ComplaintMissing(id)),
        Some(complaint) => {
            let updated = Complaint { state: ComplaintState::Processing { arbiters }, ..complaint };
            complaints.insert(id, updated);
            proof {
                assert(final(complaints).view() =~= old(complaints).view().insert(
                    id,
                    Complaint { state: ComplaintState::Processing { arbiters }, ..old(complaints).view()[id] },
                ));
            }
            Ok(())
        },
    }
}

/// A proposal of the arbiter pool.
#[derive(Debug, PartialEq, Eq)]
pub enum ArbiterPoolProposal {
    /// A text proposal; nothing is executed when it passes.
    Text,
    /// Proposes arbiters for an existing complaint.
    ProposeArbiters { case_id: u64, arbiters: Vec<String> },
}

/// Checks a proposal: proposed arbiters must be for an existing complaint, each must have an
/// address the chain accepts (`valid[i]` for the `i`-th arbiter; the first refused one is
/// reported), and each must be a member of the pool's group (`membership[i]` is the group's
/// answer for the `i`-th arbiter; the first who is no member is reported).
pub fn validate_proposal(
    proposal: &ArbiterPoolProposal,
    complaints: &IdMap<Complaint>,
    valid: &Vec<bool>,
    membership: &Vec<Option<u64>>,
) -> (r: Result<(), ApError>)
    requires
        complaints.wf(),
        proposal is ProposeArbiters ==> membership@.len() == proposal->arbiters@.len()
            && valid@.len() == proposal->arbiters@.len(),
    ensures
        (match *proposal {
            ArbiterPoolProposal::Text => r is Ok,
            ArbiterPoolProposal::ProposeArbiters { case_id, arbiters } => {
                &&& !complaints.view().contains_key(case_id) ==> r == Err::<(), ApError>(ApError::NotFound)
                &&& complaints.view().contains_key(case_id) && !(forall|i: int| 0 <= i < arbiters@.len() ==> #[trigger] valid@[i])
                    ==> exists|i: int| 0 <= i < arbiters@.len() && !(#[trigger] valid@[i])
                        && r == Err::<(), ApError>(ApError::InvalidAddress(arbiters@[i]))
                        && forall|k: int| 0 <= k < i ==> #[trigger] valid@[k]
                &&& complaints.view().contains_key(case_id) && (forall|i: int| 0 <= i < arbiters@.len() ==> #[trigger] valid@[i]) ==> {
                    &&& r is Ok <==> forall|i: int| 0 <= i < arbiters@.len() ==> (#[trigger] membership@[i]) is Some
                    &&& r is Err ==> exists|i: int| 0 <= i < arbiters@.len() && (#[trigger] membership@[i]) is None
                        && r == Err::<(), ApError>(ApError::InvalidProposedArbiter(arbiters@[i]))
                        && forall|k: int| 0 <= k < i ==> (#[trigger] membership@[k]) is Some
                }
            },
        }),
{
    match proposal {
        ArbiterPoolProposal::Text => Ok(()),
        ArbiterPoolProposal::ProposeArbiters { case_id, arbiters } => {
            if !complaints.contains(*case_id) {
                return Err(ApError::NotFound);
            }
            let mut j: usize = 0;
            while j < arbiters.len()
                invariant
                    j <= arbiters@.len(),
                    valid@.len() == arbiters@.len(),
                    proposal is ProposeArbiters,
                    proposal->arbiters == *arbiters,
                    proposal->case_id == *case_id,
                    complaints.view().contains_key(*case_id),
                    forall|k: int| 0 <= k < j ==> #[trigger] valid@[k],
                decreases arbiters@.len() - j,
            {
                if !valid[j] {
                    proof {
                        assert(!valid@[j as int]);
                    }
                    return Err(ApError::InvalidAddress(arbiters[j].clone()));
                }
                j = j + 1;
            }
            let mut i: usize = 0;
            while i < arbiters.len()
                invariant
                    i <= arbiters@.len(),
                    membership@.len() == arbiters@.len(),
                    forall|k: int| 0 <= k < arbiters@.len() ==> #[trigger] valid@[k],
                    proposal is ProposeArbiters,
                    proposal->arbiters == *arbiters,
                    proposal->case_id == *case_id,
                    complaints.view().contains_key(*case_id),
                    forall|k: int| 0 <= k < i ==> (#[trigger] membership@[k]) is Some,
                decreases arbiters@.len() - i,
            {
                if membership[i].is_none() {
                    return Err(ApError::InvalidProposedArbiter(arbiters[i].clone()));
                }
                i = i + 1;
            }
            Ok(())
        },
    }
}

/// Whether a migration from contract version `version` reads the settings in their layout from
/// before 0.6.3 (which lacks the multisig code id); `None` when `version` is no semantic
/// version.
pub fn uses_legacy_config(version: &str) -> (r: Option<bool>)
    ensures
        r == (match semver_parse(version@) {
            Some(v) => Some(spec_version_lt(v, 0, 6, 3)),
            None => None,
        }),
{
    version_text_lt(version, 0, 6, 3)
}

/// Settings a migration may change: a code id of 0 and a waiting period of 0 seconds leave the
/// current ones.
pub fn migrate_ap_config(config: &mut ApConfig, multisig_code: u64, waiting_period: u64)
    ensures
        final(config).multisig_code_id == (if multisig_code > 0 { multisig_code } else { old(config).multisig_code_id }),
        final(config).waiting_period == (if waiting_period > 0 { waiting_period } else { old(config).waiting_period }),
        final(config).dispute_cost == old(config).dispute_cost,
        final(config).next_complaint_id == old(config).next_complaint_id,
{
    if multisig_code > 0 {
        config.multisig_code_id = multisig_code;
    }
    if waiting_period > 0 {
        config.waiting_period = waiting_period;
    }
}

/// Page size for listing: 30 unless given, at most 100.
pub fn align_limit(limit: Option<u32>) -> (r: usize)
    ensures
        r == (match limit {
            None => 30,
            Some(l) => if l < 100 { l as int } else { 100 },
        }),
{
    let l = match limit {
        None => 30u32,
        Some(l) => l,
    };
    if l < 100 {
        l as usize
    } else {
        100
    }
}

/// Up to `limit` complaints with ids after `start_after`, by id, each with its state brought up
/// to `block`; each is returned with its id.
pub fn list_complaints(
    complaints: &IdMap<Complaint>,
    start_after: Option<u64>,
    limit: usize,
    block: &BlockInfo,
) -> (r: Vec<(u64, Complaint)>)
    requires
        complaints.wf(),
    ensures
        r@.len() <= limit,
        forall|i: int| 0 <= i < r@.len() ==> {
            &&& complaints.view().contains_key(#[trigger] r@[i].0)
            &&& r@[i].1 == (Complaint {
                state: spec_current_state(complaints.view()[r@[i].0].state, *block),
                ..complaints.view()[r@[i].0]
            })
            &&& start_after matches Some(s) ==> r@[i].0 > s
        },
        forall|i: int, j: int| 0 <= i < j < r@.len() ==> #[trigger] r@[i].0 < #[trigger] r@[j].0,
        r@.len() < limit ==> forall|k: u64| #[trigger] complaints.view().contains_key(k) && (start_after matches Some(s) ==> k > s)
            ==> exists|i: int| 0 <= i < r@.len() && r@[i].0 == k,
        r@.len() > 0 ==> forall|k: u64| #[trigger] complaints.view().contains_key(k) && (start_after matches Some(s) ==> k > s)
            && k <= r@.last().0 ==> exists|i: int| 0 <= i < r@.len() && r@[i].0 == k,
{
    let mut out: Vec<(u64, Complaint)> = Vec::new();
    let mut next: Option<u64> = match start_after {
        None => Some(0),
        Some(s) => if s < u64::MAX { Some(s + 1) } else { None },
    };
    let ghost lower: int = match start_after { None => 0, Some(s) => s + 1 };
    while out.len() < limit && next.is_some()
        invariant
            complaints.wf(),
            out@.len() <= limit,
            next matches Some(n) ==> lower <= n,
            lower == (match start_after { None => 0int, Some(s) => s + 1 }),
            forall|i: int| 0 <= i < out@.len() ==> {
                &&& complaints.view().contains_key(#[trigger] out@[i].0)
                &&& out@[i].1 == (Complaint {
                    state: spec_current_state(complaints.view()[out@[i].0].state, *block),
                    ..complaints.view()[out@[i].0]
                })
                &&& lower <= out@[i].0
                &&& next matches Some(n) ==> out@[i].0 < n
            },
            forall|i: int, j: int| 0 <= i < j < out@.len() ==> #[trigger] out@[i].0 < #[trigger] out@[j].0,
            forall|k: u64| #[trigger] complaints.view().contains_key(k) && lower <= k && (next matches Some(n) ==> k < n)
                ==> exists|i: int| 0 <= i < out@.len() && out@[i].0 == k,
            out@.len() > 0 ==> forall|k: u64| #[trigger] complaints.view().contains_key(k) && lower <= k && k <= out@.last().0
                ==> exists|i: int| 0 <= i < out@.len() && out@[i].0 == k,
        decreases (if next is Some { 1int } else { 0int }), u64::MAX - (match next { Some(n) => n as int, None => 0int }),
    {
        let n = match next { Some(n) => n, None => 0 };
        match complaints.smallest_key_from(n) {
            None => {
                next = None;
            },
            Some(k) => {
                let c = complaints.get(k).unwrap();
                let st = c.current_state(block);
                let item = Complaint {
                    title: c.title.clone(),
                    description: c.description.clone(),
                    plaintiff: c.plaintiff.clone(),
                    defendant: c.defendant.clone(),
                    state: st,
                };
                let ghost before = out@;
                out.push((k, item));
                next = if k < u64::MAX { Some(k + 1) } else { None };
                proof {
                    assert forall|j: u64| #[trigger] complaints.view().contains_key(j) && lower <= j && j <= k
                        implies exists|i: int| 0 <= i < out@.len() && out@[i].0 == j by {
                        if j < n {
                            let i = choose|i: int| 0 <= i < before.len() && before[i].0 == j;
                            assert(out@[i] == before[i]);
                        } else {
                            assert(out@[before.len() as int].0 == j);
                        }
                    }
                    assert(out@.last().0 == k);
                }
            },
        }
    }
    out
}

/// Bringing a complaint's state up to a block twice changes nothing more than doing it once.
pub proof fn law_current_state_idempotent(state: ComplaintState, block: BlockInfo)
    ensures
        spec_current_state(spec_current_state(state, block), block) == spec_current_state(state, block),
{
}

/// Once a block has passed a complaint's deadline, every later block sees the same state.
pub proof fn law_current_state_settles(state: ComplaintState, block: BlockInfo, later: BlockInfo)
    requires
        block.height <= later.height,
        block.time <= later.time,
        spec_current_state(state, block) != state,
    ensures
        spec_current_state(state, later) == spec_current_state(state, block),
{
}

/// A privilege that a contract can ask the chain for.
#[derive(Clone, Copy, Debug, PartialEq, Eq, Structural)]
pub enum Privilege {
    GovProposalExecutor,
    ConsensusParamChanger,
}

/// A change of the contract's standing that the chain announces.
#[derive(Clone, Copy, Debug, PartialEq, Eq, Structural)]
pub enum PrivilegeChange {
    Promoted,
    Demoted,
}

/// The privileges to request on a change of standing: on promotion the right to execute
/// governance proposals and to change consensus parameters, on demotion none.
pub fn privilege_change(change: PrivilegeChange) -> (r: Vec<Privilege>)
    ensures
        r@ == (match change {
            PrivilegeChange::Promoted => seq![Privilege::GovProposalExecutor, Privilege::ConsensusParamChanger],
            PrivilegeChange::Demoted => Seq::<Privilege>::empty(),
        }),
{
    match change {
        PrivilegeChange::Promoted => vec![Privilege::GovProposalExecutor, Privilege::ConsensusParamChanger],
        PrivilegeChange::Demoted => Vec::new(),
    }
}

/// The payouts of a decided complaint: each member of the deciding multisig gets
/// [`decision_payout`]; `None` when there are no members, or twice the dispute cost does not
/// fit, as the fees cannot be divided then.
pub fn decision_transfers(arbiters: &Vec<String>, dispute_cost: u128) -> (r: Option<Vec<(String, u128)>>)
    ensures
        r is None <==> arbiters@.len() == 0 || 2 * dispute_cost > u128::MAX,
        r matches Some(t) ==> t@ == arbiters@.map_values(|a: String| (a, (2 * dispute_cost / (arbiters@.len() as int)) as u128)),
{
    if arbiters.len() == 0 || dispute_cost > u128::MAX / 2 {
        return None;
    }
    let payout = decision_payout(dispute_cost, arbiters.len());
    let mut out: Vec<(String, u128)> = Vec::new();
    let mut i: usize = 0;
    while i < arbiters.len()
        invariant
            i <= arbiters@.len(),
            payout == 2 * dispute_cost / (arbiters@.len() as int),
            out@ == arbiters@.subrange(0, i as int).map_values(|a: String| (a, (2 * dispute_cost / (arbiters@.len() as int)) as u128)),
        decreases arbiters@.len() - i,
    {
        out.push((arbiters[i].clone(), payout));
        proof {
            assert(out@ =~= arbiters@.subrange(0, i + 1).map_values(|a: String| (a, (2 * dispute_cost / (arbiters@.len() as int)) as u128)));
        }
        i = i + 1;
    }
    proof {
        assert(arbiters@.subrange(0, i as int) =~= arbiters@);
    }
    Some(out)
}

} // verus!
