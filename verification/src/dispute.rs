//! The multisig in which arbiters decide a complaint: a fixed set of weighted voters, a
//! threshold, one vote each, and the decision sent back to the arbiter pool.
use crate::addr_map::{entries_wf, AddrMap};
use crate::common::{spec_is_expired, BlockInfo, Decimal, Duration, Expiration, Status, Vote, DECIMAL_FRACTIONAL, NANOS_PER_SECOND};
use crate::group::{members_total, opt_weight, set_member_weight, weight_sum};
use crate::voting::{law_votes_needed_step, lemma_votes_needed_bounds, lemma_votes_needed_defined, spec_add_vote, spec_total, spec_votes_needed, votes_needed, Ballot, Votes};
use crate::common::{page_limit, spec_page_limit};
use crate::paging::{is_page, opt_view, page_after};
use vstd::prelude::*;

verus! {

/// A voter of the multisig, with its weight.
#[derive(Debug, PartialEq, Eq)]
pub struct Voter {
    pub addr: String,
    pub weight: u64,
}

/// A message the multisig sends to the arbiter pool that created it.
#[derive(Debug, PartialEq, Eq)]
pub enum ParentExecMsg {
    RenderDecision { complaint_id: u64, summary: String, ipfs_link: String },
}

/// A query the multisig forwards to the arbiter pool.
#[derive(Clone, Copy, Debug, PartialEq, Eq, Structural)]
pub enum ParentQueryMsg {
    Complaint { complaint_id: u64 },
}

/// The complaint the multisig decides.
#[derive(Clone, Copy, Debug, PartialEq, Eq, Structural)]
pub struct ComplaintIdResp {
    pub complaint_id: u64,
}

/// The multisig's status.
#[derive(Clone, Copy, Debug, PartialEq, Eq, Structural)]
pub struct StatusResp {
    pub status: Status,
}

/// What it takes to pass.
#[derive(Clone, Copy, Debug, PartialEq, Eq, Structural)]
pub enum Threshold {
    /// At least this weight of yes votes.
    AbsoluteCount { weight: u64 },
    /// At least this share of the weight that does not abstain.
    AbsolutePercentage { percentage: Decimal },
    /// At least `quorum` of the weight voting, and `threshold` of the opinions yes.
    ThresholdQuorum { threshold: Decimal, quorum: Decimal },
}

/// What is wrong with a threshold.
#[derive(Clone, Copy, Debug, PartialEq, Eq, Structural)]
pub enum ThresholdError {
    /// A percentage outside 50% to 100%.
    InvalidThreshold,
    ZeroQuorumThreshold,
    UnreachableQuorumThreshold,
    ZeroWeight,
    UnreachableWeight,
}

/// The error a threshold has with the total weight `total`, if any.
pub open spec fn threshold_error(t: Threshold, total: u64) -> Option<ThresholdError> {
    match t {
        Threshold::AbsoluteCount { weight } => if weight == 0 {
            Some(ThresholdError::ZeroWeight)
        } else if weight > total {
            Some(ThresholdError::UnreachableWeight)
        } else {
            None
        },
        Threshold::AbsolutePercentage { percentage } => if !percentage_valid(percentage) {
            Some(ThresholdError::InvalidThreshold)
        } else {
            None
        },
        Threshold::ThresholdQuorum { threshold, quorum } => if !percentage_valid(threshold) {
            Some(ThresholdError::InvalidThreshold)
        } else if quorum.atomics == 0 {
            Some(ThresholdError::ZeroQuorumThreshold)
        } else if quorum.atomics > DECIMAL_FRACTIONAL {
            Some(ThresholdError::UnreachableQuorumThreshold)
        } else {
            None
        },
    }
}

/// A passing percentage lies between 50% and 100%.
pub open spec fn percentage_valid(p: Decimal) -> bool {
    DECIMAL_FRACTIONAL / 2 <= p.atomics <= DECIMAL_FRACTIONAL
}

impl Threshold {
    /// Checks the threshold against the total weight of the voters.
    pub fn validate(&self, total_weight: u64) -> (r: Result<(), ThresholdError>)
        ensures
            r is Ok <==> threshold_error(*self, total_weight) is None,
            r matches Err(e) ==> threshold_error(*self, total_weight) == Some(e),
    {
        let half = DECIMAL_FRACTIONAL / 2;
        match *self {
            Threshold::AbsoluteCount { weight } => {
                if weight == 0 {
                    Err(ThresholdError::ZeroWeight)
                } else if weight > total_weight {
                    Err(ThresholdError::UnreachableWeight)
                } else {
                    Ok(())
                }
            },
            Threshold::AbsolutePercentage { percentage } => {
                if percentage.atomics < half || percentage.atomics > DECIMAL_FRACTIONAL {
                    Err(ThresholdError::InvalidThreshold)
                } else {
                    Ok(())
                }
            },
            Threshold::ThresholdQuorum { threshold, quorum } => {
                if threshold.atomics < half || threshold.atomics > DECIMAL_FRACTIONAL {
                    Err(ThresholdError::InvalidThreshold)
                } else if quorum.atomics == 0 {
                    Err(ThresholdError::ZeroQuorumThreshold)
                } else if quorum.atomics > DECIMAL_FRACTIONAL {
                    Err(ThresholdError::UnreachableQuorumThreshold)
                } else {
                    Ok(())
                }
            },
        }
    }
}

/// Whether `votes` pass `threshold` out of `total_weight`; `expired` tells whether voting has
/// ended. Before the end, every vote not cast yet counts against.
pub open spec fn spec_multisig_passed(t: Threshold, votes: Votes, total_weight: u64, expired: bool) -> bool {
    match t {
        Threshold::AbsoluteCount { weight } => votes.yes >= weight,
        Threshold::AbsolutePercentage { percentage } => votes.yes >= spec_votes_needed((total_weight - votes.abstain) as u64, percentage),
        Threshold::ThresholdQuorum { threshold, quorum } => {
            if spec_total(votes) < spec_votes_needed(total_weight, quorum) {
                false
            } else if expired {
                votes.yes >= spec_votes_needed((spec_total(votes) - votes.abstain) as u64, threshold)
            } else {
                votes.yes >= spec_votes_needed((total_weight - votes.abstain) as u64, threshold)
            }
        },
    }
}

/// The status an open multisig has reached: passed once the threshold is met, else rejected
/// once expired.
pub open spec fn spec_multisig_status(status: Status, t: Threshold, votes: Votes, total_weight: u64, expired: bool) -> Status {
    if status == Status::Open && spec_multisig_passed(t, votes, total_weight, expired) {
        Status::Passed
    } else if status == Status::Open && expired {
        Status::Rejected
    } else {
        status
    }
}

/// Settings of the multisig.
#[derive(Debug, PartialEq, Eq)]
pub struct MultisigConfig {
    /// The arbiter pool that created the multisig.
    pub parent: String,
    pub threshold: Threshold,
    pub total_weight: u64,
    pub expires: Expiration,
    pub complaint_id: u64,
}

/// Errors of the multisig.
#[derive(Clone, Copy, Debug, PartialEq, Eq, Structural)]
pub enum MultisigError {
    NoVoters,
    Threshold(ThresholdError),
    Unauthorized,
    NotOpen,
    Expired,
    AlreadyVoted,
    WrongExecuteStatus,
    WrongCloseStatus,
    NotExpired,
}

/// Weight of the voters who have not voted yet.
pub open spec fn unvoted_weight(voters: Seq<(String, u64)>, ballots: Map<Seq<char>, Ballot>) -> int
    decreases voters.len(),
{
    if voters.len() == 0 {
        0
    } else {
        unvoted_weight(voters.drop_last(), ballots) + if ballots.contains_key(voters.last().0@) {
            0
        } else {
            voters.last().1 as int
        }
    }
}

/// A multisig deciding a complaint.
#[derive(Debug)]
pub struct Multisig {
    pub config: MultisigConfig,
    pub votes: Votes,
    pub status: Status,
    /// Weight of each voter.
    pub voters: AddrMap<u64>,
    /// The vote of each voter who voted.
    pub ballots: AddrMap<Ballot>,
}

impl Multisig {
    /// The votes cast and those still possible never exceed the total weight, and the threshold
    /// is valid for it.
    pub open spec fn wf(&self) -> bool {
        &&& self.voters.wf()
        &&& self.ballots.wf()
        &&& threshold_error(self.config.threshold, self.config.total_weight) is None
        &&& spec_total(self.votes) + unvoted_weight(self.voters.entries@, self.ballots@) <= self.config.total_weight
    }

    /// The status at `block`.
    pub open spec fn spec_status(&self, block: BlockInfo) -> Status {
        spec_multisig_status(self.status, self.config.threshold, self.votes, self.config.total_weight, spec_is_expired(self.config.expires, block))
    }

    /// Whether the votes pass at `block`.
    pub fn is_passed(&self, block: &BlockInfo) -> (b: bool)
        requires
            self.wf(),
        ensures
            b == spec_multisig_passed(self.config.threshold, self.votes, self.config.total_weight, spec_is_expired(self.config.expires, *block)),
    {
        proof {
            lemma_unvoted_nonneg(self.voters.entries@, self.ballots@);
        }
        let total_weight = self.config.total_weight;
        let votes = self.votes;
        match self.config.threshold {
            Threshold::AbsoluteCount { weight } => votes.yes >= weight,
            Threshold::AbsolutePercentage { percentage } => {
                proof {
                    lemma_votes_needed_defined((total_weight - votes.abstain) as u64, percentage);
                }
                votes.yes >= votes_needed(total_weight - votes.abstain, percentage)
            },
            Threshold::ThresholdQuorum { threshold, quorum } => {
                proof {
                    lemma_votes_needed_defined(total_weight, quorum);
                    lemma_votes_needed_defined((spec_total(votes) - votes.abstain) as u64, threshold);
                    lemma_votes_needed_defined((total_weight - votes.abstain) as u64, threshold);
                }
                let cast = votes.total();
                if cast < votes_needed(total_weight, quorum) {
                    false
                } else if self.config.expires.is_expired(block) {
                    votes.yes >= votes_needed(cast - votes.abstain, threshold)
                } else {
                    votes.yes >= votes_needed(total_weight - votes.abstain, threshold)
                }
            },
        }
    }

    /// The status at `block`: an open multisig passes once the threshold is met, or is rejected
    /// once expired.
    pub fn current_status(&self, block: &BlockInfo) -> (s: Status)
        requires
            self.wf(),
        ensures
            s == self.spec_status(*block),
    {
        if self.status == Status::Open && self.is_passed(block) {
            Status::Passed
        } else if self.status == Status::Open && self.config.expires.is_expired(block) {
            Status::Rejected
        } else {
            self.status
        }
    }
}

/// Sum of the weights of a list of voters.
pub open spec fn voters_weight(v: Seq<Voter>) -> int
    decreases v.len(),
{
    if v.len() == 0 {
        0
    } else {
        voters_weight(v.drop_last()) + v.last().weight
    }
}

/// The expiration `period` after `block`.
pub open spec fn period_end(period: Duration, block: BlockInfo) -> Expiration {
    match period {
        Duration::Height(h) => Expiration::AtHeight((block.height + h) as u64),
        Duration::Time(s) => Expiration::AtTime((block.time + s * NANOS_PER_SECOND) as u64),
    }
}

/// Whether `period` after `block` can be expressed.
pub open spec fn period_end_fits(period: Duration, block: BlockInfo) -> bool {
    match period {
        Duration::Height(h) => block.height + h <= u64::MAX,
        Duration::Time(s) => block.time + s * NANOS_PER_SECOND <= u64::MAX,
    }
}

/// The map of voter weights that storing each voter in turn leaves: a later entry for the same
/// address replaces an earlier one.
pub open spec fn voters_map(v: Seq<Voter>) -> Map<Seq<char>, u64>
    decreases v.len(),
{
    if v.len() == 0 {
        Map::empty()
    } else {
        voters_map(v.drop_last()).insert(v.last().addr@, v.last().weight)
    }
}

/// Sets up the multisig created by `parent` at `block` for complaint `complaint_id`.
pub fn instantiate(
    voters: Vec<Voter>,
    threshold: Threshold,
    max_voting_period: Duration,
    complaint_id: u64,
    parent: String,
    block: &BlockInfo,
) -> (r: Result<Multisig, MultisigError>)
    requires
        voters_weight(voters@) <= u64::MAX,
        period_end_fits(max_voting_period, *block),
    ensures
        voters@.len() == 0 ==> r == Err::<Multisig, MultisigError>(MultisigError::NoVoters),
        voters@.len() > 0 && threshold_error(threshold, voters_weight(voters@) as u64) is Some
            ==> r == Err::<Multisig, MultisigError>(MultisigError::Threshold(threshold_error(threshold, voters_weight(voters@) as u64)->0)),
        r is Ok <==> voters@.len() > 0 && threshold_error(threshold, voters_weight(voters@) as u64) is None,
        r matches Ok(m) ==> {
            &&& m.wf()
            &&& m.config == (MultisigConfig {
                parent,
                threshold,
                total_weight: voters_weight(voters@) as u64,
                expires: period_end(max_voting_period, *block),
                complaint_id,
            })
            &&& m.votes == (Votes { yes: 0, no: 0, abstain: 0, veto: 0 })
            &&& m.status == Status::Open
            &&& m.voters@ == voters_map(voters@)
            &&& m.ballots@ == Map::<Seq<char>, Ballot>::empty()
        },
{
    if voters.len() == 0 {
        return Err(MultisigError::NoVoters);
    }
    let mut total_weight: u64 = 0;
    let mut map_weight: u64 = 0;
    let mut map: AddrMap<u64> = AddrMap::new();
    let mut i: usize = 0;
    while i < voters.len()
        invariant
            i <= voters@.len(),
            voters_weight(voters@) <= u64::MAX,
            total_weight == voters_weight(voters@.take(i as int)),
            map.wf(),
            map_weight == members_total(map),
            map_weight <= total_weight,
            map@ == voters_map(voters@.take(i as int)),
        decreases voters@.len() - i,
    {
        proof {
            assert(voters@.take(i + 1).drop_last() =~= voters@.take(i as int));
            assert(voters@.take(i + 1).last() == voters@[i as int]);
            lemma_voters_weight_take_le(voters@, i + 1);
            lemma_members_total_opt(map, voters@[i as int].addr@);
        }
        let w = voters[i].weight;
        total_weight = total_weight + w;
        set_member_weight(&mut map, &mut map_weight, voters[i].addr.clone(), w);
        i = i + 1;
    }
    proof {
        assert(voters@.take(voters@.len() as int) =~= voters@);
    }
    match threshold.validate(total_weight) {
        Err(e) => return Err(MultisigError::Threshold(e)),
        Ok(()) => {},
    }
    let expires = match max_voting_period {
        Duration::Height(h) => Expiration::AtHeight(block.height + h),
        Duration::Time(s) => Expiration::AtTime(block.time + s * NANOS_PER_SECOND),
    };
    let ballots: AddrMap<Ballot> = AddrMap::new();
    proof {
        lemma_unvoted_none(map.entries@, ballots@);
    }
    Ok(Multisig {
        config: MultisigConfig { parent, threshold, total_weight, expires, complaint_id },
        votes: Votes { yes: 0, no: 0, abstain: 0, veto: 0 },
        status: Status::Open,
        voters: map,
        ballots,
    })
}

/// Whether the status still takes votes: open, and also passed or rejected.
pub open spec fn takes_votes(s: Status) -> bool {
    s == Status::Open || s == Status::Passed || s == Status::Rejected
}

/// `sender` votes `vote` at `block` with its full weight; returns the status afterwards.
pub fn execute_vote(m: &mut Multisig, sender: &String, vote: Vote, block: &BlockInfo) -> (r: Result<Status, MultisigError>)
    requires
        old(m).wf(),
    ensures
        final(m).wf(),
        r is Err ==> *final(m) == *old(m),
        ({
            let power = old(m).voters@.get(sender@);
            &&& !(power matches Some(p) && p >= 1) ==> r == Err::<Status, MultisigError>(MultisigError::Unauthorized)
            &&& (power matches Some(p) && p >= 1) && !takes_votes(old(m).status) ==> r == Err::<Status, MultisigError>(MultisigError::NotOpen)
            &&& (power matches Some(p) && p >= 1) && takes_votes(old(m).status) && spec_is_expired(old(m).config.expires, *block)
                ==> r == Err::<Status, MultisigError>(MultisigError::Expired)
            &&& (power matches Some(p) && p >= 1) && takes_votes(old(m).status) && !spec_is_expired(old(m).config.expires, *block)
                && old(m).ballots@.contains_key(sender@) ==> r == Err::<Status, MultisigError>(MultisigError::AlreadyVoted)
            &&& (power matches Some(p) && p >= 1) && takes_votes(old(m).status) && !spec_is_expired(old(m).config.expires, *block)
                && !old(m).ballots@.contains_key(sender@) ==> {
                    let p = power->0;
                    let votes = spec_add_vote(old(m).votes, vote, p);
                    let status = spec_multisig_status(old(m).status, old(m).config.threshold, votes, old(m).config.total_weight, false);
                    &&& r == Ok::<Status, MultisigError>(status)
                    &&& final(m).votes == votes
                    &&& final(m).status == status
                    &&& final(m).ballots@ == old(m).ballots@.insert(sender@, Ballot { weight: p, vote })
                    &&& final(m).voters == old(m).voters
                    &&& final(m).config == old(m).config
                }
        }),
{
    let power = match m.voters.get(sender) {
        Some(p) => {
            if p >= 1 {
                p
            } else {
                return Err(MultisigError::Unauthorized);
            }
        },
        None => return Err(MultisigError::Unauthorized),
    };
    if !(m.status == Status::Open || m.status == Status::Passed || m.status == Status::Rejected) {
        return Err(MultisigError::NotOpen);
    }
    if m.config.expires.is_expired(block) {
        return Err(MultisigError::Expired);
    }
    if m.ballots.contains(sender) {
        return Err(MultisigError::AlreadyVoted);
    }
    proof {
        let i = m.voters.index_of(sender@);
        assert(m.voters.has(sender@));
        m.voters.lemma_index(i);
        lemma_unvoted_vote(m.voters.entries@, m.ballots@, i, Ballot { weight: power, vote });
        lemma_unvoted_nonneg(m.voters.entries@, m.ballots@.insert(sender@, Ballot { weight: power, vote }));
    }
    m.ballots.insert(sender.clone(), Ballot { weight: power, vote });
    m.votes.add_vote(vote, power);
    let status = m.current_status(block);
    m.status = status;
    Ok(status)
}

/// Executes the decision at `block`: the multisig must have passed. Returns the message that
/// renders the decision in the arbiter pool.
pub fn execute_execute(m: &mut Multisig, block: &BlockInfo, summary: String, ipfs_link: String) -> (r: Result<ParentExecMsg, MultisigError>)
    requires
        old(m).wf(),
    ensures
        final(m).wf(),
        old(m).spec_status(*block) != Status::Passed ==> r == Err::<ParentExecMsg, MultisigError>(MultisigError::WrongExecuteStatus)
            && *final(m) == *old(m),
        old(m).spec_status(*block) == Status::Passed ==> r == Ok::<ParentExecMsg, MultisigError>(
            ParentExecMsg::RenderDecision { complaint_id: old(m).config.complaint_id, summary, ipfs_link },
        ) && final(m).status == Status::Executed && final(m).votes == old(m).votes && final(m).config == old(m).config
            && final(m).voters == old(m).voters && final(m).ballots == old(m).ballots,
{
    let status = m.current_status(block);
    if status != Status::Passed {
        return Err(MultisigError::WrongExecuteStatus);
    }
    m.status = Status::Executed;
    Ok(ParentExecMsg::RenderDecision { complaint_id: m.config.complaint_id, summary, ipfs_link })
}

/// Closes an expired multisig that did not pass, rejecting it.
pub fn execute_close(m: &mut Multisig, block: &BlockInfo) -> (r: Result<(), MultisigError>)
    requires
        old(m).wf(),
    ensures
        final(m).wf(),
        r is Err ==> *final(m) == *old(m),
        (old(m).status == Status::Executed || old(m).status == Status::Rejected || old(m).status == Status::Passed
            || old(m).spec_status(*block) == Status::Passed) ==> r == Err::<(), MultisigError>(MultisigError::WrongCloseStatus),
        !(old(m).status == Status::Executed || old(m).status == Status::Rejected || old(m).status == Status::Passed
            || old(m).spec_status(*block) == Status::Passed) && !spec_is_expired(old(m).config.expires, *block)
            ==> r == Err::<(), MultisigError>(MultisigError::NotExpired),
        !(old(m).status == Status::Executed || old(m).status == Status::Rejected || old(m).status == Status::Passed
            || old(m).spec_status(*block) == Status::Passed) && spec_is_expired(old(m).config.expires, *block)
            ==> r is Ok && final(m).status == Status::Rejected && final(m).votes == old(m).votes
                && final(m).config == old(m).config && final(m).voters == old(m).voters && final(m).ballots == old(m).ballots,
{
    if m.status == Status::Executed || m.status == Status::Rejected || m.status == Status::Passed {
        return Err(MultisigError::WrongCloseStatus);
    }
    if m.current_status(block) == Status::Passed {
        return Err(MultisigError::WrongCloseStatus);
    }
    if !m.config.expires.is_expired(block) {
        return Err(MultisigError::NotExpired);
    }
    m.status = Status::Rejected;
    Ok(())
}

proof fn lemma_voters_weight_take_le(v: Seq<Voter>, k: int)
    requires
        0 <= k <= v.len(),
    ensures
        voters_weight(v.take(k)) <= voters_weight(v),
        voters_weight(v.take(k)) >= 0,
    decreases v.len(),
{
    if k < v.len() {
        assert(v.drop_last().take(k) =~= v.take(k));
        lemma_voters_weight_take_le(v.drop_last(), k);
    } else {
        assert(v.take(k) =~= v);
        lemma_voters_weight_nonneg(v);
    }
}

proof fn lemma_voters_weight_nonneg(v: Seq<Voter>)
    ensures
        voters_weight(v) >= 0,
    decreases v.len(),
{
    if v.len() > 0 {
        lemma_voters_weight_nonneg(v.drop_last());
    }
}

/// The total of a map of weights covers the weight of any member.
proof fn lemma_members_total_opt(m: AddrMap<u64>, k: Seq<char>)
    requires
        m.wf(),
    ensures
        0 <= opt_weight(m@, k) <= members_total(m),
{
    lemma_weight_sum_nonneg_all(m.entries@);
    if m@.contains_key(k) {
        let i = m.index_of(k);
        assert(m.has(k));
        m.lemma_index(i);
        lemma_weight_sum_elem(m.entries@, i);
    }
}

proof fn lemma_weight_sum_nonneg_all(s: Seq<(String, u64)>)
    ensures
        weight_sum(s) >= 0,
    decreases s.len(),
{
    if s.len() > 0 {
        lemma_weight_sum_nonneg_all(s.drop_last());
    }
}

proof fn lemma_weight_sum_elem(s: Seq<(String, u64)>, i: int)
    requires
        0 <= i < s.len(),
    ensures
        weight_sum(s) >= s[i].1,
    decreases s.len(),
{
    lemma_weight_sum_nonneg_all(s.drop_last());
    if i < s.len() - 1 {
        lemma_weight_sum_elem(s.drop_last(), i);
    }
}

proof fn lemma_unvoted_nonneg(v: Seq<(String, u64)>, b: Map<Seq<char>, Ballot>)
    ensures
        unvoted_weight(v, b) >= 0,
    decreases v.len(),
{
    if v.len() > 0 {
        lemma_unvoted_nonneg(v.drop_last(), b);
    }
}

/// Before any vote, the weight not voted is all the weight.
proof fn lemma_unvoted_none(v: Seq<(String, u64)>, b: Map<Seq<char>, Ballot>)
    requires
        b == Map::<Seq<char>, Ballot>::empty(),
    ensures
        unvoted_weight(v, b) == weight_sum(v),
    decreases v.len(),
{
    if v.len() > 0 {
        lemma_unvoted_none(v.drop_last(), b);
    }
}

/// A ballot for an address no voter has leaves the weight not voted unchanged.
proof fn lemma_unvoted_other(v: Seq<(String, u64)>, b: Map<Seq<char>, Ballot>, k: Seq<char>, x: Ballot)
    requires
        forall|j: int| 0 <= j < v.len() ==> (#[trigger] v[j]).0@ != k,
    ensures
        unvoted_weight(v, b.insert(k, x)) == unvoted_weight(v, b),
    decreases v.len(),
{
    if v.len() > 0 {
        assert forall|j: int| 0 <= j < v.drop_last().len() implies (#[trigger] v.drop_last()[j]).0@ != k by {
            assert(v.drop_last()[j] == v[j]);
        }
        lemma_unvoted_other(v.drop_last(), b, k, x);
        assert(v.last() == v[v.len() - 1]);
    }
}

/// The first ballot of voter `i` moves its weight out of the weight not voted.
proof fn lemma_unvoted_vote(v: Seq<(String, u64)>, b: Map<Seq<char>, Ballot>, i: int, x: Ballot)
    requires
        entries_wf(v),
        0 <= i < v.len(),
        !b.contains_key(v[i].0@),
    ensures
        unvoted_weight(v, b.insert(v[i].0@, x)) == unvoted_weight(v, b) - v[i].1,
    decreases v.len(),
{
    let k = v[i].0@;
    let d = v.drop_last();
    if i == v.len() - 1 {
        assert forall|j: int| 0 <= j < d.len() implies (#[trigger] d[j]).0@ != k by {
            assert(d[j] == v[j]);
            assert(v[j].0@ != v[i].0@);
        }
        lemma_unvoted_other(d, b, k, x);
    } else {
        assert(entries_wf(d)) by {
            assert forall|a: int, c: int| 0 <= a < c < d.len() implies #[trigger] d[a].0@ != #[trigger] d[c].0@ by {
                assert(v[a].0@ != v[c].0@);
            }
        }
        assert(d[i] == v[i]);
        lemma_unvoted_vote(d, b, i, x);
        assert(v.last().0@ != k) by {
            assert(v[i].0@ != v[v.len() - 1].0@);
        }
    }
}

/// More yes votes never turn a passing multisig into a failing one.
pub proof fn law_yes_votes_keep_passing(t: Threshold, votes: Votes, total_weight: u64, expired: bool, w: u64)
    requires
        threshold_error(t, total_weight) is None,
        spec_total(votes) + w <= total_weight,
        spec_multisig_passed(t, votes, total_weight, expired),
    ensures
        spec_multisig_passed(t, spec_add_vote(votes, Vote::Yes, w), total_weight, expired),
{
    let v2 = spec_add_vote(votes, Vote::Yes, w);
    match t {
        Threshold::AbsoluteCount { .. } => {},
        Threshold::AbsolutePercentage { .. } => {},
        Threshold::ThresholdQuorum { threshold, quorum } => {
            if expired {
                let op = (spec_total(votes) - votes.abstain) as u64;
                law_votes_needed_step(op, w, threshold);
                assert((spec_total(v2) - v2.abstain) as u64 == (op + w) as u64);
            }
        },
    }
}

/// The threshold with the total weight it is measured against.
#[derive(Clone, Copy, Debug, PartialEq, Eq, Structural)]
pub enum ThresholdResponse {
    AbsoluteCount { weight: u64, total_weight: u64 },
    AbsolutePercentage { percentage: Decimal, total_weight: u64 },
    ThresholdQuorum { threshold: Decimal, quorum: Decimal, total_weight: u64 },
}

/// The multisig's threshold and total weight.
pub fn query_threshold(m: &Multisig) -> (r: ThresholdResponse)
    ensures
        r == (match m.config.threshold {
            Threshold::AbsoluteCount { weight } => ThresholdResponse::AbsoluteCount { weight, total_weight: m.config.total_weight },
            Threshold::AbsolutePercentage { percentage } => ThresholdResponse::AbsolutePercentage {
                percentage,
                total_weight: m.config.total_weight,
            },
            Threshold::ThresholdQuorum { threshold, quorum } => ThresholdResponse::ThresholdQuorum {
                threshold,
                quorum,
                total_weight: m.config.total_weight,
            },
        }),
{
    let total_weight = m.config.total_weight;
    match m.config.threshold {
        Threshold::AbsoluteCount { weight } => ThresholdResponse::AbsoluteCount { weight, total_weight },
        Threshold::AbsolutePercentage { percentage } => ThresholdResponse::AbsolutePercentage { percentage, total_weight },
        Threshold::ThresholdQuorum { threshold, quorum } => ThresholdResponse::ThresholdQuorum { threshold, quorum, total_weight },
    }
}

/// The ballot of `voter`, if it voted.
pub fn query_vote(m: &Multisig, voter: &String) -> (r: Option<Ballot>)
    requires
        m.wf(),
    ensures
        r == m.ballots@.get(voter@),
{
    m.ballots.get(voter)
}

/// The weight of `voter`, if it is one.
pub fn query_voter(m: &Multisig, voter: &String) -> (r: Option<u64>)
    requires
        m.wf(),
    ensures
        r == m.voters@.get(voter@),
{
    m.voters.get(voter)
}

/// Up to `limit` (10 unless given, at most 30) ballots after voter `start_after`, by voter.
pub fn list_votes(m: &Multisig, start_after: &Option<String>, limit: Option<u32>) -> (r: Vec<(String, Ballot)>)
    requires
        m.wf(),
    ensures
        is_page(m.ballots@, opt_view(*start_after), spec_page_limit(limit, 10, 30) as int, r@),
{
    let l = page_limit(limit, 10, 30);
    page_after(&m.ballots, start_after, l as usize)
}

/// Up to `limit` (10 unless given, at most 30) voters after `start_after`, by address.
pub fn list_voters(m: &Multisig, start_after: &Option<String>, limit: Option<u32>) -> (r: Vec<(String, u64)>)
    requires
        m.wf(),
    ensures
        is_page(m.voters@, opt_view(*start_after), spec_page_limit(limit, 10, 30) as int, r@),
{
    let l = page_limit(limit, 10, 30);
    page_after(&m.voters, start_after, l as usize)
}

/// The multisig's status.
pub fn query_status(m: &Multisig) -> (r: StatusResp)
    ensures
        r == (StatusResp { status: m.status }),
{
    StatusResp { status: m.status }
}

/// The complaint the multisig decides.
pub fn query_complaint_id(m: &Multisig) -> (r: ComplaintIdResp)
    ensures
        r == (ComplaintIdResp { complaint_id: m.config.complaint_id }),
{
    ComplaintIdResp { complaint_id: m.config.complaint_id }
}

/// A multisig with a percentage threshold counts only the weight that did not abstain: it
/// passes when the yes votes reach the percentage of that weight, and not when they fall short
/// of it by a whole vote or more (for a percentage of at most one).
pub proof fn law_percentage_threshold_ignores_abstain(percentage: Decimal, votes: Votes, total_weight: u64, expired: bool)
    requires
        percentage.atomics <= DECIMAL_FRACTIONAL,
        votes.abstain <= total_weight,
    ensures
        votes.yes * DECIMAL_FRACTIONAL >= percentage.atomics * (total_weight - votes.abstain)
            ==> spec_multisig_passed(Threshold::AbsolutePercentage { percentage }, votes, total_weight, expired),
        spec_multisig_passed(Threshold::AbsolutePercentage { percentage }, votes, total_weight, expired)
            ==> (votes.yes + 1) * DECIMAL_FRACTIONAL > percentage.atomics * (total_weight - votes.abstain),
{
    lemma_votes_needed_bounds((total_weight - votes.abstain) as u64, percentage, votes.yes as int);
}

/// A multisig with a count threshold passes exactly when the yes weight reaches the count; one
/// with threshold and quorum passes when the votes cast reach the quorum of the total weight and
/// the yes votes the threshold of the weight without abstentions (of the votes cast once voting
/// has ended, of the total weight before), and fails when either falls short by a whole vote or
/// more (for percentages of at most one).
pub proof fn law_multisig_passing_means_reaching_thresholds(t: Threshold, votes: Votes, total_weight: u64, expired: bool)
    requires
        spec_total(votes) <= total_weight,
        t matches Threshold::ThresholdQuorum { threshold, quorum } ==> threshold.atomics <= DECIMAL_FRACTIONAL
            && quorum.atomics <= DECIMAL_FRACTIONAL,
    ensures
        t matches Threshold::AbsoluteCount { weight } ==> (spec_multisig_passed(t, votes, total_weight, expired) <==> votes.yes >= weight),
        t matches Threshold::ThresholdQuorum { threshold, quorum } ==> ({
            let f = DECIMAL_FRACTIONAL as int;
            let cast = spec_total(votes);
            let base = if expired { cast - votes.abstain } else { total_weight - votes.abstain };
            &&& (cast * f >= quorum.atomics * total_weight && votes.yes * f >= threshold.atomics * base)
                ==> spec_multisig_passed(t, votes, total_weight, expired)
            &&& spec_multisig_passed(t, votes, total_weight, expired) ==> (cast + 1) * f > quorum.atomics * total_weight
                && (votes.yes + 1) * f > threshold.atomics * base
        }),
{
    match t {
        Threshold::ThresholdQuorum { threshold, quorum } => {
            lemma_votes_needed_bounds(total_weight, quorum, spec_total(votes));
            lemma_votes_needed_bounds((spec_total(votes) - votes.abstain) as u64, threshold, votes.yes as int);
            lemma_votes_needed_bounds((total_weight - votes.abstain) as u64, threshold, votes.yes as int);
        },
        _ => {},
    }
}

} // verus!
