//! Proposals of the oversight community: granting engagement points, punishing or unjailing
//! validators and changing the validator set's settings, voted on by the community.
use crate::common::{spec_is_expired, BlockInfo, Decimal, Expiration, Status, Vote, DECIMAL_FRACTIONAL};
use crate::dso::{lemma_valid_rules_defined, spec_rules_error};
use crate::voting::{spec_add_vote, spec_add_vote_fits, Ballot, Proposal, Votes, VotingRules, SECONDS_PER_DAY};
use vstd::prelude::*;

verus! {

/// How long a punished validator stays jailed.
#[derive(Clone, Copy, Debug, PartialEq, Eq, Structural)]
pub enum JailingDuration {
    /// For this many seconds.
    Duration(u64),
    Forever,
}

/// What the oversight community can propose.
#[derive(Debug, PartialEq, Eq)]
pub enum OversightProposal {
    GrantEngagement { member: String, points: u64 },
    Punish { member: String, portion: Decimal, jailing_duration: Option<JailingDuration> },
    Unjail { member: String },
    UpdateConfig { min_points: Option<u64>, max_validators: Option<u32> },
    /// An open text proposal; nothing is executed when it passes.
    Text,
}

/// Errors of the oversight proposals.
#[derive(Debug, PartialEq, Eq)]
pub enum OversightError {
    /// The member is no valid address.
    InvalidAddress(String),
    InvalidPoints(u64),
    InvalidPortion(Decimal),
    InvalidDuration(u64),
    InvalidMaxValidators(u64),
    Unauthorized,
    NotOpen,
    Expired,
    AlreadyVoted,
    WrongExecuteStatus,
    WrongCloseStatus,
    NotExpired,
}

/// The error a proposal has, if any; `member_valid` tells whether its member is a valid
/// address.
pub open spec fn proposal_error(p: OversightProposal, member_valid: bool) -> Option<OversightError> {
    match p {
        OversightProposal::GrantEngagement { member, points } => if !member_valid {
            Some(OversightError::InvalidAddress(member))
        } else if points == 0 {
            Some(OversightError::InvalidPoints(0))
        } else {
            None
        },
        OversightProposal::Punish { member, portion, jailing_duration } => if !member_valid {
            Some(OversightError::InvalidAddress(member))
        } else if portion.atomics == 0 || portion.atomics > DECIMAL_FRACTIONAL {
            Some(OversightError::InvalidPortion(portion))
        } else if jailing_duration == Some(JailingDuration::Duration(0)) {
            Some(OversightError::InvalidDuration(0))
        } else {
            None
        },
        OversightProposal::Unjail { member } => if !member_valid {
            Some(OversightError::InvalidAddress(member))
        } else {
            None
        },
        OversightProposal::UpdateConfig { min_points, max_validators } => if min_points == Some(0u64) {
            Some(OversightError::InvalidPoints(0))
        } else if max_validators == Some(0u32) {
            Some(OversightError::InvalidMaxValidators(0))
        } else {
            None
        },
        OversightProposal::Text => None,
    }
}

impl OversightProposal {
    /// Checks the proposal: points and portions must be positive, a portion at most 100%, a
    /// jailing duration not zero, and the member a valid address (`member_valid`, the answer of
    /// the chain's address check for the member, where there is one).
    pub fn validate(&self, member_valid: bool) -> (r: Result<(), OversightError>)
        ensures
            r is Ok <==> proposal_error(*self, member_valid) is None,
            r matches Err(e) ==> proposal_error(*self, member_valid) == Some(e),
    {
        match self {
            OversightProposal::GrantEngagement { member, points } => {
                if !member_valid {
                    return Err(OversightError::InvalidAddress(member.clone()));
                }
                if *points == 0 {
                    return Err(OversightError::InvalidPoints(0));
                }
            },
            OversightProposal::Punish { member, portion, jailing_duration } => {
                if !member_valid {
                    return Err(OversightError::InvalidAddress(member.clone()));
                }
                if portion.atomics == 0 || portion.atomics > DECIMAL_FRACTIONAL {
                    return Err(OversightError::InvalidPortion(*portion));
                }
                if let Some(JailingDuration::Duration(d)) = jailing_duration {
                    if *d == 0 {
                        return Err(OversightError::InvalidDuration(0));
                    }
                }
            },
            OversightProposal::Unjail { member } => {
                if !member_valid {
                    return Err(OversightError::InvalidAddress(member.clone()));
                }
            },
            OversightProposal::UpdateConfig { min_points, max_validators } => {
                if let Some(points) = min_points {
                    if *points == 0 {
                        return Err(OversightError::InvalidPoints(0));
                    }
                }
                if let Some(validators) = max_validators {
                    if *validators == 0 {
                        return Err(OversightError::InvalidMaxValidators(0));
                    }
                }
            },
            OversightProposal::Text => {},
        }
        Ok(())
    }
}

/// The proposal created at `block`, with the proposer's yes vote of `vote_power`.
pub open spec fn spec_new_oversight(
    title: String,
    description: String,
    proposal: OversightProposal,
    block: BlockInfo,
    rules: VotingRules,
    total_weight: u64,
    vote_power: u64,
) -> Proposal<OversightProposal> {
    let p = Proposal {
        title,
        description,
        start_height: block.height,
        expires: Expiration::AtTime((block.time + rules.voting_period * SECONDS_PER_DAY * 1_000_000_000) as u64),
        proposal,
        status: Status::Open,
        votes: Votes { yes: vote_power, no: 0, abstain: 0, veto: 0 },
        rules,
        total_weight,
    };
    Proposal { status: p.spec_status(block), ..p }
}

/// A member with `vote_power` (`None` when the sender is no voting member) proposes at
/// `block`; returns the proposal and the proposer's yes ballot.
pub fn execute_propose(
    rules: VotingRules,
    title: String,
    description: String,
    proposal: OversightProposal,
    vote_power: Option<u64>,
    total_weight: u64,
    block: &BlockInfo,
) -> (r: Result<(Proposal<OversightProposal>, Ballot), OversightError>)
    requires
        spec_rules_error(rules) is None,
        block.time + rules.voting_period * SECONDS_PER_DAY * 1_000_000_000 <= u64::MAX,
        vote_power matches Some(p) ==> p <= total_weight,
    ensures
        !(vote_power matches Some(p) && p >= 1) ==> r == Err::<(Proposal<OversightProposal>, Ballot), OversightError>(OversightError::Unauthorized),
        (vote_power matches Some(p) && p >= 1) ==> r == Ok::<(Proposal<OversightProposal>, Ballot), OversightError>((
            spec_new_oversight(title, description, proposal, *block, rules, total_weight, vote_power->0),
            Ballot { weight: vote_power->0, vote: Vote::Yes },
        )),
{
    let power = match vote_power {
        Some(p) => {
            if p >= 1 {
                p
            } else {
                return Err(OversightError::Unauthorized);
            }
        },
        None => return Err(OversightError::Unauthorized),
    };
    let mut prop = Proposal {
        title,
        description,
        start_height: block.height,
        expires: Expiration::AtTime(block.time + rules.voting_period_secs() * 1_000_000_000),
        proposal,
        status: Status::Open,
        votes: Votes::yes(power),
        rules,
        total_weight,
    };
    proof {
        lemma_valid_rules_defined(rules, prop.votes, prop.total_weight, spec_is_expired(prop.expires, *block));
    }
    prop.update_status(block);
    Ok((prop, Ballot { weight: power, vote: Vote::Yes }))
}

/// The outcome of a vote check on an open proposal.
pub open spec fn spec_oversight_vote_check(
    prop: Proposal<OversightProposal>,
    block: BlockInfo,
    vote_power: Option<u64>,
    already_voted: bool,
) -> Option<OversightError> {
    if prop.status != Status::Open {
        Some(OversightError::NotOpen)
    } else if spec_is_expired(prop.expires, block) {
        Some(OversightError::Expired)
    } else if !(vote_power matches Some(p) && p >= 1) {
        Some(OversightError::Unauthorized)
    } else if already_voted {
        Some(OversightError::AlreadyVoted)
    } else {
        None
    }
}

/// A member with `vote_power` at the proposal's start votes `vote` at `block`; `already_voted`
/// tells whether it voted before. Returns the ballot to store.
pub fn execute_vote(
    prop: &mut Proposal<OversightProposal>,
    block: &BlockInfo,
    vote_power: Option<u64>,
    already_voted: bool,
    vote: Vote,
) -> (r: Result<Ballot, OversightError>)
    requires
        spec_rules_error(old(prop).rules) is None,
        vote_power matches Some(p) ==> spec_add_vote_fits(old(prop).votes, vote, p)
            && crate::voting::spec_total(spec_add_vote(old(prop).votes, vote, p)) <= u64::MAX
            && spec_add_vote(old(prop).votes, vote, p).abstain <= old(prop).total_weight,
    ensures
        r is Err ==> *final(prop) == *old(prop),
        spec_oversight_vote_check(*old(prop), *block, vote_power, already_voted) matches Some(e) ==> r == Err::<Ballot, OversightError>(e),
        spec_oversight_vote_check(*old(prop), *block, vote_power, already_voted) is None ==> ({
            let p = vote_power->0;
            let p1 = Proposal { votes: spec_add_vote(old(prop).votes, vote, p), ..*old(prop) };
            &&& r == Ok::<Ballot, OversightError>(Ballot { weight: p, vote })
            &&& *final(prop) == Proposal { status: p1.spec_status(*block), ..p1 }
        }),
{
    if prop.status != Status::Open {
        return Err(OversightError::NotOpen);
    }
    if prop.expires.is_expired(block) {
        return Err(OversightError::Expired);
    }
    let power = match vote_power {
        Some(p) => {
            if p >= 1 {
                p
            } else {
                return Err(OversightError::Unauthorized);
            }
        },
        None => return Err(OversightError::Unauthorized),
    };
    if already_voted {
        return Err(OversightError::AlreadyVoted);
    }
    prop.votes.add_vote(vote, power);
    proof {
        lemma_valid_rules_defined(prop.rules, prop.votes, prop.total_weight, spec_is_expired(prop.expires, *block));
    }
    prop.update_status(block);
    Ok(Ballot { weight: power, vote })
}

/// What executing a passed proposal does.
#[derive(Debug, PartialEq, Eq)]
pub enum OversightAction {
    /// Add engagement points to a member.
    AddPoints { member: String, points: u64 },
    /// Slash a validator's stake by `portion` and jail it.
    Punish { member: String, portion: Decimal, jailing_duration: Option<JailingDuration> },
    Unjail { member: String },
    UpdateConfig { min_points: Option<u64>, max_validators: Option<u32> },
    /// Nothing to do.
    Nothing,
}

/// The action a proposal's content calls for.
pub open spec fn spec_action(p: OversightProposal) -> OversightAction {
    match p {
        OversightProposal::GrantEngagement { member, points } => OversightAction::AddPoints { member, points },
        OversightProposal::Punish { member, portion, jailing_duration } => OversightAction::Punish { member, portion, jailing_duration },
        OversightProposal::Unjail { member } => OversightAction::Unjail { member },
        OversightProposal::UpdateConfig { min_points, max_validators } => OversightAction::UpdateConfig { min_points, max_validators },
        OversightProposal::Text => OversightAction::Nothing,
    }
}

/// Executes a passed proposal, which becomes executed; returns the action it calls for.
pub fn execute_execute(prop: &mut Proposal<OversightProposal>) -> (r: Result<OversightAction, OversightError>)
    ensures
        old(prop).status != Status::Passed ==> r == Err::<OversightAction, OversightError>(OversightError::WrongExecuteStatus)
            && *final(prop) == *old(prop),
        old(prop).status == Status::Passed ==> r == Ok::<OversightAction, OversightError>(spec_action(old(prop).proposal))
            && *final(prop) == (Proposal { status: Status::Executed, ..*old(prop) }),
{
    if prop.status != Status::Passed {
        return Err(OversightError::WrongExecuteStatus);
    }
    let action = match &prop.proposal {
        OversightProposal::GrantEngagement { member, points } => OversightAction::AddPoints { member: member.clone(), points: *points },
        OversightProposal::Punish { member, portion, jailing_duration } => OversightAction::Punish {
            member: member.clone(),
            portion: *portion,
            jailing_duration: *jailing_duration,
        },
        OversightProposal::Unjail { member } => OversightAction::Unjail { member: member.clone() },
        OversightProposal::UpdateConfig { min_points, max_validators } => OversightAction::UpdateConfig {
            min_points: *min_points,
            max_validators: *max_validators,
        },
        OversightProposal::Text => OversightAction::Nothing,
    };
    prop.status = Status::Executed;
    Ok(action)
}

/// Closes an expired proposal that neither passed nor was executed or rejected, rejecting it.
pub fn execute_close(prop: &mut Proposal<OversightProposal>, block: &BlockInfo) -> (r: Result<(), OversightError>)
    ensures
        r is Err ==> *final(prop) == *old(prop),
        (old(prop).status == Status::Executed || old(prop).status == Status::Rejected || old(prop).status == Status::Passed)
            ==> r == Err::<(), OversightError>(OversightError::WrongCloseStatus),
        !(old(prop).status == Status::Executed || old(prop).status == Status::Rejected || old(prop).status == Status::Passed)
            && !spec_is_expired(old(prop).expires, *block) ==> r == Err::<(), OversightError>(OversightError::NotExpired),
        !(old(prop).status == Status::Executed || old(prop).status == Status::Rejected || old(prop).status == Status::Passed)
            && spec_is_expired(old(prop).expires, *block) ==> r is Ok && *final(prop) == (Proposal { status: Status::Rejected, ..*old(prop) }),
{
    if prop.status == Status::Executed || prop.status == Status::Rejected || prop.status == Status::Passed {
        return Err(OversightError::WrongCloseStatus);
    }
    if !prop.expires.is_expired(block) {
        return Err(OversightError::NotExpired);
    }
    prop.status = Status::Rejected;
    Ok(())
}

} // verus!
