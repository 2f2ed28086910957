//! The DSO (trusted circle): members pay an escrow to become voters, vote on
//! proposals that add or remove members or edit the DSO, and leave with their escrow.
use crate::addr_map::AddrMap;
use crate::id_map::IdMap;
use crate::common::{spec_is_expired, BlockInfo, Decimal, Expiration, Status, Vote, DECIMAL_FRACTIONAL};
use crate::voting::{
    id_in_range, lemma_votes_needed_defined, spec_add_vote, spec_add_vote_fits, spec_apply_adjustments, Ballot, Proposal, Votes,
    VotingRules, VotingRulesAdjustments, SECONDS_PER_DAY,
};
use cw_storage_plus::PrimaryKey;
use crate::common::{page_limit, spec_page_limit};
use crate::paging::{is_page, members_with_weight, opt_view, page_after, with_weight};
use vstd::prelude::*;
use vstd::string::StringSliceAdditionalSpecFns;

verus! {

/// The only denom the DSO accepts.
pub const DSO_DENOM: &'static str = "utgd";

/// Voting weight of every voting member.
pub const VOTING_WEIGHT: u64 = 1u64;

/// Smallest escrow (1 TGD, in utgd).
pub const MIN_ESCROW: u128 = 1_000_000u128;

/// Longest DSO name.
pub const MAX_NAME_LENGTH: usize = 1024usize;

/// Storage namespace of the escrows.
pub const ESCROWS_KEY: &'static str = "escrows";

/// The key cw-storage-plus stores `key` under in `namespace`: `(namespace, key).joined_key()`.
/// Claimed: the namespace's length in two bytes, big-endian, then the namespace's bytes, then
/// the key's bytes.
#[verifier::external_body]
fn joined_pair_key(namespace: &str, key: &str) -> (r: Vec<u8>)
    requires
        namespace.spec_bytes().len() <= 0xFFFF,
    ensures
        r@ == seq![(namespace.spec_bytes().len() / 256) as u8, (namespace.spec_bytes().len() % 256) as u8]
            + namespace.spec_bytes() + key.spec_bytes(),
{
    (namespace, key).joined_key()
}

/// The raw storage key of a member's escrow, for raw queries.
pub fn escrow_key(address: &str) -> (k: Vec<u8>)
    ensures
        k@ == seq![0u8, 7u8] + ESCROWS_KEY.spec_bytes() + address.spec_bytes(),
{
    proof {
        reveal_strlit("escrows");
        vstd::string::is_ascii_spec_bytes(ESCROWS_KEY);
    }
    joined_pair_key(ESCROWS_KEY, address)
}

/// Errors of the DSO.
#[derive(Clone, Debug, PartialEq, Eq)]
pub enum DsoError {
    /// A stored item that must exist was not found.
    NotFound,
    Unauthorized,
    EmptyName,
    LongName,
    InvalidQuorum(Decimal),
    InvalidThreshold(Decimal),
    InvalidVotingPeriod(u32),
    InvalidEscrow(u128),
    InvalidPendingEscrow(u128),
    InsufficientFunds(u128),
    /// Paying in (or not) the wrong funds.
    Payment(PaymentError),
    PendingEscrowAlreadySet,
    VotingMember(String),
    NotAMember,
    InvalidStatus(MemberStatus),
    CannotClaimYet(u64),
    NotOpen,
    Expired,
    NotExpired,
    AlreadyVoted,
    AlreadyUsedProposal(u64),
    WrongExecuteStatus,
    WrongCloseStatus,
    /// Arithmetic overflow or underflow.
    Overflow,
}

/// What is wrong with the funds sent along with a message.
#[derive(Clone, Debug, PartialEq, Eq)]
pub enum PaymentError {
    NoFunds,
    MultipleDenoms,
    MissingDenom(String),
    ExtraDenom(String),
    NonPayable,
}

/// An amount of a token.
#[derive(Clone, Debug, PartialEq, Eq)]
pub struct Coin {
    pub denom: String,
    pub amount: u128,
}

/// The amount paid: exactly one coin, of `denom`, and not zero.
pub open spec fn spec_must_pay(funds: Seq<Coin>, denom: Seq<char>) -> Option<u128> {
    if funds.len() == 1 && funds[0].denom@ == denom && funds[0].amount != 0 {
        Some(funds[0].amount)
    } else {
        None
    }
}

/// The error a payment of `funds` in `denom` is refused with: no (or a zero) coin, several
/// coins, or a coin of another denom (naming `denom`).
pub open spec fn payment_error_is(e: PaymentError, funds: Seq<Coin>, denom: Seq<char>) -> bool {
    match e {
        PaymentError::NoFunds => funds.len() == 0 || (funds.len() == 1 && funds[0].denom@ == denom
            && funds[0].amount == 0),
        PaymentError::MultipleDenoms => funds.len() > 1,
        PaymentError::MissingDenom(d) => funds.len() == 1 && funds[0].denom@ != denom && d@ == denom,
        _ => false,
    }
}

/// The amount paid in `denom`: exactly one coin of that denom, and not zero.
pub fn must_pay(funds: &Vec<Coin>, denom: &String) -> (r: Result<u128, PaymentError>)
    ensures
        r is Ok <==> spec_must_pay(funds@, denom@) is Some,
        r matches Ok(a) ==> spec_must_pay(funds@, denom@) == Some(a),
        r matches Err(e) ==> payment_error_is(e, funds@, denom@),
{
    if funds.len() == 0 {
        return Err(PaymentError::NoFunds);
    }
    if funds.len() != 1 {
        return Err(PaymentError::MultipleDenoms);
    }
    if funds[0].denom != *denom {
        return Err(PaymentError::MissingDenom(denom.clone()));
    }
    if funds[0].amount == 0 {
        return Err(PaymentError::NoFunds);
    }
    Ok(funds[0].amount)
}

/// Succeeds only when no funds are sent.
pub fn nonpayable(funds: &Vec<Coin>) -> (r: Result<(), PaymentError>)
    ensures
        r is Ok <==> funds@.len() == 0,
        r matches Err(e) ==> e == PaymentError::NonPayable,
{
    if funds.len() == 0 {
        Ok(())
    } else {
        Err(PaymentError::NonPayable)
    }
}

/// Membership status of an address.
#[derive(Clone, Copy, Debug, PartialEq, Eq, Structural)]
pub enum MemberStatus {
    /// Can participate in the DSO, but has no vote.
    NonVoting,
    /// Approved for voting, must pay in the escrow.
    Pending { proposal_id: u64 },
    /// Paid the escrow, waits for the rest of its batch.
    PendingPaid { proposal_id: u64 },
    /// Full voting member.
    Voting,
    /// Leaving; the escrow can be claimed from `claim_at` (seconds).
    Leaving { claim_at: u64 },
}

/// Escrow paid in by a member, with its status.
#[derive(Clone, Copy, Debug, PartialEq, Eq, Structural)]
pub struct EscrowStatus {
    pub paid: u128,
    pub status: MemberStatus,
}

impl EscrowStatus {
    /// A pending member of the given proposal, with nothing paid.
    pub fn pending(proposal_id: u64) -> (e: EscrowStatus)
        ensures
            e == (EscrowStatus { paid: 0, status: MemberStatus::Pending { proposal_id } }),
    {
        EscrowStatus { paid: 0, status: MemberStatus::Pending { proposal_id } }
    }

    /// A non-voting member, with nothing paid.
    pub fn non_voting() -> (e: EscrowStatus)
        ensures
            e == (EscrowStatus { paid: 0, status: MemberStatus::NonVoting }),
    {
        EscrowStatus { paid: 0, status: MemberStatus::NonVoting }
    }
}

/// A new escrow amount, applied once its grace period ends.
#[derive(Clone, Copy, Debug, PartialEq, Eq, Structural)]
pub struct PendingEscrow {
    pub proposal_id: u64,
    pub amount: u128,
    /// Seconds since the epoch.
    pub grace_ends_at: u64,
}

/// The DSO's configuration.
#[derive(Clone, Debug, PartialEq, Eq)]
pub struct Dso {
    pub name: String,
    pub escrow_amount: u128,
    pub escrow_pending: Option<PendingEscrow>,
    pub rules: VotingRules,
}

pub open spec fn spec_rules_error(r: VotingRules) -> Option<DsoError> {
    if r.voting_period == 0 || r.voting_period > 365 {
        Some(DsoError::InvalidVotingPeriod(r.voting_period))
    } else if r.quorum.atomics < DECIMAL_FRACTIONAL / 100 || r.quorum.atomics > DECIMAL_FRACTIONAL {
        Some(DsoError::InvalidQuorum(r.quorum))
    } else if r.threshold.atomics < DECIMAL_FRACTIONAL / 2 || r.threshold.atomics > DECIMAL_FRACTIONAL {
        Some(DsoError::InvalidThreshold(r.threshold))
    } else {
        None
    }
}

pub open spec fn spec_dso_error(name_len: usize, escrow_amount: u128, rules: VotingRules) -> Option<DsoError> {
    if name_len == 0 {
        Some(DsoError::EmptyName)
    } else if name_len > MAX_NAME_LENGTH {
        Some(DsoError::LongName)
    } else if escrow_amount < MIN_ESCROW {
        Some(DsoError::InvalidEscrow(escrow_amount))
    } else {
        spec_rules_error(rules)
    }
}

/// Checks voting rules: period 1-365 days, quorum 0.01-1.0, threshold 0.5-1.0.
pub fn validate_rules(rules: &VotingRules) -> (r: Result<(), DsoError>)
    ensures
        r is Ok <==> spec_rules_error(*rules) is None,
        r matches Err(e) ==> spec_rules_error(*rules) == Some(e),
{
    if rules.voting_period == 0 || rules.voting_period > 365 {
        return Err(DsoError::InvalidVotingPeriod(rules.voting_period));
    }
    if rules.quorum.atomics < DECIMAL_FRACTIONAL / 100 || rules.quorum.atomics > DECIMAL_FRACTIONAL {
        return Err(DsoError::InvalidQuorum(rules.quorum));
    }
    if rules.threshold.atomics < DECIMAL_FRACTIONAL / 2 || rules.threshold.atomics
        > DECIMAL_FRACTIONAL {
        return Err(DsoError::InvalidThreshold(rules.threshold));
    }
    Ok(())
}

/// The escrow that is due: the larger of the current and the pending one.
pub open spec fn spec_get_escrow(dso: Dso) -> u128 {
    match dso.escrow_pending {
        Some(p) => if p.amount > dso.escrow_amount {
            p.amount
        } else {
            dso.escrow_amount
        },
        None => dso.escrow_amount,
    }
}

impl Dso {
    /// A copy of the configuration.
    pub fn copy(&self) -> (d: Dso)
        ensures
            d == *self,
    {
        Dso {
            name: self.name.clone(),
            escrow_amount: self.escrow_amount,
            escrow_pending: self.escrow_pending,
            rules: self.rules,
        }
    }

    /// Checks the name (1-1024 bytes), the escrow (at least 1 TGD) and the voting rules.
    pub fn validate(&self) -> (r: Result<(), DsoError>)
        ensures
            r is Ok <==> spec_dso_error(name_bytes(self.name), self.escrow_amount, self.rules) is None,
            r matches Err(e) ==> spec_dso_error(name_bytes(self.name), self.escrow_amount, self.rules)
                == Some(e),
    {
        let n = name_length(&self.name);
        if n == 0 {
            return Err(DsoError::EmptyName);
        }
        if n > MAX_NAME_LENGTH {
            return Err(DsoError::LongName);
        }
        if self.escrow_amount < MIN_ESCROW {
            return Err(DsoError::InvalidEscrow(self.escrow_amount));
        }
        validate_rules(&self.rules)
    }

    /// The escrow that is due: the larger of the current and the pending one.
    pub fn get_escrow(&self) -> (e: u128)
        ensures
            e == spec_get_escrow(*self),
    {
        match &self.escrow_pending {
            Some(p) => if p.amount > self.escrow_amount {
                p.amount
            } else {
                self.escrow_amount
            },
            None => self.escrow_amount,
        }
    }
}

/// Length in bytes (UTF-8) of a name.
pub open spec fn name_bytes(s: String) -> usize {
    vstd::utf8::encode_utf8(s@).len() as usize
}

fn name_length(s: &String) -> (n: usize)
    ensures
        n == name_bytes(*s),
{
    s.as_str().len()
}

/// Voting members approved by one proposal, promoted together.
#[derive(Clone, Debug, PartialEq, Eq)]
pub struct Batch {
    /// Seconds since the epoch when members are no longer waited for.
    pub grace_ends_at: u64,
    /// How many must still pay in their escrow before the batch can be promoted early.
    pub waiting_escrow: u32,
    /// All paid members were promoted (done once).
    pub batch_promoted: bool,
    /// All members of this batch.
    pub members: Vec<String>,
}

impl Batch {
    /// True once every member has paid, or the grace period is over.
    pub fn can_promote(&self, block: &BlockInfo) -> (b: bool)
        ensures
            b == (self.waiting_escrow == 0 || block.time / 1_000_000_000 >= self.grace_ends_at),
    {
        self.waiting_escrow == 0 || block.seconds() >= self.grace_ends_at
    }
}

// ---------------------------------------------------------------------------------------
// Promotion of paid members to voters.

/// State after promoting one address: if it has paid, it becomes a voter of weight one.
pub open spec fn promote_one(
    escrows: Map<Seq<char>, EscrowStatus>,
    members: Map<Seq<char>, u64>,
    a: Seq<char>,
) -> (Map<Seq<char>, EscrowStatus>, Map<Seq<char>, u64>, bool) {
    let e = escrows[a];
    if e.status is PendingPaid {
        (
            escrows.insert(a, EscrowStatus { paid: e.paid, status: MemberStatus::Voting }),
            members.insert(a, VOTING_WEIGHT),
            true,
        )
    } else {
        (escrows, members, false)
    }
}

/// Promotes every address of `addrs` in turn; returns the maps and the promoted addresses.
pub open spec fn promote_all(
    escrows: Map<Seq<char>, EscrowStatus>,
    members: Map<Seq<char>, u64>,
    addrs: Seq<Seq<char>>,
) -> (Map<Seq<char>, EscrowStatus>, Map<Seq<char>, u64>, Seq<Seq<char>>)
    decreases addrs.len(),
{
    if addrs.len() == 0 {
        (escrows, members, Seq::empty())
    } else {
        let (e0, m0, p0) = promote_all(escrows, members, addrs.drop_last());
        let (e1, m1, b) = promote_one(e0, m0, addrs.last());
        (e1, m1, if b { p0.push(addrs.last()) } else { p0 })
    }
}

/// Every address of `addrs` has an escrow, also after promoting a prefix of them.
pub open spec fn all_have_escrow(escrows: Map<Seq<char>, EscrowStatus>, addrs: Seq<Seq<char>>) -> bool {
    forall|i: int| 0 <= i < addrs.len() ==> escrows.contains_key(#[trigger] addrs[i])
}

pub open spec fn addrs_of(v: Seq<String>) -> Seq<Seq<char>> {
    v.map_values(|s: String| s@)
}

proof fn lemma_promote_all_keeps_keys(
    escrows: Map<Seq<char>, EscrowStatus>,
    members: Map<Seq<char>, u64>,
    addrs: Seq<Seq<char>>,
)
    requires
        all_have_escrow(escrows, addrs),
    ensures
        promote_all(escrows, members, addrs).0.dom() =~= escrows.dom(),
        promote_all(escrows, members, addrs).2.len() <= addrs.len(),
    decreases addrs.len(),
{
    if addrs.len() > 0 {
        let prefix = addrs.drop_last();
        assert forall|i: int| 0 <= i < prefix.len() implies escrows.contains_key(#[trigger] prefix[i]) by {
            assert(prefix[i] == addrs[i]);
        }
        lemma_promote_all_keeps_keys(escrows, members, prefix);
        assert(escrows.contains_key(addrs[addrs.len() - 1]));
    }
}

/// Makes `to_promote` a voter of weight one if it has paid its escrow; returns whether it did.
pub fn convert_to_voter_if_paid(
    escrows: &mut AddrMap<EscrowStatus>,
    members: &mut AddrMap<u64>,
    to_promote: &String,
) -> (r: Result<bool, DsoError>)
    requires
        old(escrows).wf(),
        old(members).wf(),
    ensures
        final(escrows).wf(),
        final(members).wf(),
        r is Err <==> !old(escrows)@.contains_key(to_promote@),
        r matches Err(e) ==> e == DsoError::NotFound,
        r is Err ==> final(escrows)@ == old(escrows)@ && final(members)@ == old(members)@,
        r is Ok ==> ({
            let (e1, m1, b) = promote_one(old(escrows)@, old(members)@, to_promote@);
            &&& final(escrows)@ == e1
            &&& final(members)@ == m1
            &&& r == Ok::<bool, DsoError>(b)
        }),
{
    let escrow = match escrows.get(to_promote) {
        Some(e) => e,
        None => return Err(DsoError::NotFound),
    };
    // if this one was not yet paid up, do nothing
    if !matches!(escrow.status, MemberStatus::PendingPaid { .. }) {
        return Ok(false);
    }
    escrows.insert(to_promote.clone(), EscrowStatus { paid: escrow.paid, status: MemberStatus::Voting });
    members.insert(to_promote.clone(), VOTING_WEIGHT);
    Ok(true)
}

/// Promotes every paid member of `list` to voter and adds the new voting weight to the total.
/// Returns the promoted addresses. Fails with `NotFound` when a member of the list has no
/// escrow, and with `Overflow` when the new weight does not fit in the total.
fn promote_paid_members(
    escrows: &mut AddrMap<EscrowStatus>,
    members: &mut AddrMap<u64>,
    total: &mut u64,
    list: &Vec<String>,
) -> (r: Result<Vec<String>, DsoError>)
    requires
        old(escrows).wf(),
        old(members).wf(),
    ensures
        final(escrows).wf(),
        final(members).wf(),
        !all_have_escrow(old(escrows)@, addrs_of(list@)) ==> r == Err::<Vec<String>, DsoError>(DsoError::NotFound),
        all_have_escrow(old(escrows)@, addrs_of(list@)) ==> (r is Err <==> *old(total)
            + promote_all(old(escrows)@, old(members)@, addrs_of(list@)).2.len() * VOTING_WEIGHT > u64::MAX),
        r is Err ==> r == Err::<Vec<String>, DsoError>(DsoError::NotFound) || r == Err::<Vec<String>, DsoError>(DsoError::Overflow),
        r matches Ok(promoted) ==> ({
            let (e1, m1, p) = promote_all(
                old(escrows)@,
                old(members)@,
                addrs_of(list@),
            );
            &&& final(escrows)@ == e1
            &&& final(members)@ == m1
            &&& addrs_of(promoted@) == p
            &&& *final(total) == *old(total) + p.len() * VOTING_WEIGHT
        }),
{
    let ghost e0 = escrows@;
    let ghost m0 = members@;
    let ghost addrs = addrs_of(list@);
    let mut promoted: Vec<String> = Vec::new();
    let mut added: u64 = 0;
    let mut i: usize = 0;
    while i < list.len()
        invariant
            escrows.wf(),
            members.wf(),
            addrs == addrs_of(list@),
            e0 == old(escrows)@,
            m0 == old(members)@,
            *total == *old(total),
            i <= list@.len(),
            all_have_escrow(e0, addrs.subrange(0, i as int)),
            ({
                let (e1, m1, p) = promote_all(e0, m0, addrs.subrange(0, i as int));
                &&& escrows@ == e1
                &&& members@ == m1
                &&& addrs_of(promoted@) == p
                &&& added == p.len() * VOTING_WEIGHT
            }),
            promoted@.len() <= i,
        decreases list@.len() - i,
    {
        let ghost prev = addrs.subrange(0, i as int);
        let ghost next = addrs.subrange(0, i + 1);
        proof {
            assert(next.drop_last() =~= prev);
            assert(next.last() == list@[i as int]@);
            lemma_promote_all_keeps_keys(e0, m0, prev);
        }
        let member = list[i].clone();
        assert(member@ == addrs[i as int]);
        let res = convert_to_voter_if_paid(escrows, members, &member);
        match res {
            Err(e) => {
                proof {
                    assert(!escrows@.contains_key(addrs[i as int]));
                    assert(!e0.contains_key(addrs[i as int]));
                    assert(!all_have_escrow(e0, addrs));
                    assert(addrs == addrs_of(list@));
                    assert(e0 == old(escrows)@);
                }
                return Err(e);
            },
            Ok(b) => {
                if b {
                    promoted.push(member);
                    added = added + VOTING_WEIGHT;
                }
                proof {
                    assert(e0.contains_key(addrs[i as int]));
                    assert forall|j: int| 0 <= j < next.len() implies e0.contains_key(#[trigger] next[j]) by {
                        if j < i {
                            assert(next[j] == prev[j]);
                        }
                    }
                    let (pe, pm, pp) = promote_all(e0, m0, prev);
                    if b {
                        assert(addrs_of(promoted@) =~= pp.push(member@));
                    }
                }
            },
        }
        i = i + 1;
    }
    proof {
        assert(addrs.subrange(0, i as int) =~= addrs);
    }
    if added > u64::MAX - *total {
        return Err(DsoError::Overflow);
    }
    // update the total with the new weight
    *total = *total + added;
    Ok(promoted)
}

/// Promotes every paid member of the batch to voter, marks the batch promoted and adds the
/// new voting weight to the total. Returns the promoted addresses. Fails with `NotFound` when a
/// member of the batch has no escrow, and with `Overflow` when the new weight does not fit in
/// the total.
pub fn convert_all_paid_members_to_voters(
    escrows: &mut AddrMap<EscrowStatus>,
    members: &mut AddrMap<u64>,
    total: &mut u64,
    batch: &mut Batch,
) -> (r: Result<Vec<String>, DsoError>)
    requires
        old(escrows).wf(),
        old(members).wf(),
    ensures
        final(escrows).wf(),
        final(members).wf(),
        !all_have_escrow(old(escrows)@, addrs_of(old(batch).members@)) ==> r == Err::<Vec<String>, DsoError>(DsoError::NotFound),
        all_have_escrow(old(escrows)@, addrs_of(old(batch).members@)) ==> (r is Err <==> *old(total)
            + promote_all(old(escrows)@, old(members)@, addrs_of(old(batch).members@)).2.len() * VOTING_WEIGHT > u64::MAX),
        r is Err ==> r == Err::<Vec<String>, DsoError>(DsoError::NotFound) || r == Err::<Vec<String>, DsoError>(DsoError::Overflow),
        r matches Ok(promoted) ==> ({
            let (e1, m1, p) = promote_all(
                old(escrows)@,
                old(members)@,
                addrs_of(old(batch).members@),
            );
            &&& final(escrows)@ == e1
            &&& final(members)@ == m1
            &&& addrs_of(promoted@) == p
            &&& *final(total) == *old(total) + p.len() * VOTING_WEIGHT
            &&& final(batch).batch_promoted
            &&& final(batch).members == old(batch).members
            &&& final(batch).grace_ends_at == old(batch).grace_ends_at
            &&& final(batch).waiting_escrow == old(batch).waiting_escrow
        }),
{
    let r = promote_paid_members(escrows, members, total, &batch.members);
    if r.is_ok() {
        batch.batch_promoted = true;
    }
    r
}

/// The batch after one more member paid: one less to wait for.
pub open spec fn spec_batch_paid(b: Batch) -> Batch {
    Batch { waiting_escrow: (b.waiting_escrow - 1) as u32, ..b }
}

pub open spec fn spec_can_promote(b: Batch, block: BlockInfo) -> bool {
    b.waiting_escrow == 0 || block.time / 1_000_000_000 >= b.grace_ends_at
}

/// What bookkeeping after a paid escrow does (see [`update_batch_after_escrow_paid`]).
pub open spec fn batch_paid_outcome(
    batches: Map<u64, Batch>,
    escrows: Map<Seq<char>, EscrowStatus>,
    members: Map<Seq<char>, u64>,
    total: u64,
    block: BlockInfo,
    proposal_id: u64,
    paid: Seq<char>,
    batches1: Map<u64, Batch>,
    escrows1: Map<Seq<char>, EscrowStatus>,
    members1: Map<Seq<char>, u64>,
    total1: u64,
    r: Result<Option<Vec<String>>, DsoError>,
) -> bool {
            let b = spec_batch_paid(batches[proposal_id]);
            if !spec_can_promote(b, block) {
                &&& r == Ok::<Option<Vec<String>>, DsoError>(None)
                &&& batches1 =~= batches.insert(proposal_id, b)
                &&& escrows1 =~= escrows
                &&& members1 =~= members
                &&& total1 == total
            } else if b.batch_promoted {
                &&& batches1 =~= batches.insert(proposal_id, b)
                &&& (r is Err <==> !escrows.contains_key(paid))
                &&& r is Ok ==> {
                    let (e1, m1, promoted) = promote_one(escrows, members, paid);
                    &&& escrows1 =~= e1
                    &&& members1 =~= m1
                    &&& total1 == total + if promoted { VOTING_WEIGHT } else { 0 }
                    &&& promoted ==> (r matches Ok(Some(v)) && v@.len() == 1 && v@[0]@ == paid)
                    &&& !promoted ==> r matches Ok(None)
                }
            } else {
                &&& (r is Err <==> !all_have_escrow(escrows, addrs_of(b.members@)))
                &&& r is Ok ==> {
                    let (e1, m1, p) = promote_all(escrows, members, addrs_of(b.members@));
                    &&& escrows1 =~= e1
                    &&& members1 =~= m1
                    &&& total1 == total + p.len() * VOTING_WEIGHT
                    &&& batches1 =~= batches.insert(
                        proposal_id,
                        Batch { batch_promoted: true, ..b },
                    )
                    &&& r matches Ok(Some(v)) && addrs_of(v@) == p
                }
            }
        }

/// Bookkeeping after `paid` has paid its full escrow in batch `proposal_id`: the batch waits
/// for one member less; if the batch can be promoted and was promoted before, only `paid` is
/// promoted; if it was not promoted yet, every paid member of it is. Returns the promoted
/// addresses, if any promotion took place.
#[verifier::rlimit(50)]
pub fn update_batch_after_escrow_paid(
    batches: &mut IdMap<Batch>,
    escrows: &mut AddrMap<EscrowStatus>,
    members: &mut AddrMap<u64>,
    total: &mut u64,
    block: &BlockInfo,
    proposal_id: u64,
    paid: &String,
) -> (r: Result<Option<Vec<String>>, DsoError>)
    requires
        old(batches).wf(),
        old(escrows).wf(),
        old(members).wf(),
        old(batches)@.contains_key(proposal_id) ==> old(batches)@[proposal_id].waiting_escrow > 0
            && *old(total) + old(batches)@[proposal_id].members@.len() + 1 <= u64::MAX,
    ensures
        final(batches).wf(),
        final(escrows).wf(),
        final(members).wf(),
        !old(batches)@.contains_key(proposal_id) ==> r == Err::<Option<Vec<String>>, DsoError>(
            DsoError::NotFound,
        ),
        old(batches)@.contains_key(proposal_id) ==> batch_paid_outcome(
            old(batches)@,
            old(escrows)@,
            old(members)@,
            *old(total),
            *block,
            proposal_id,
            paid@,
            final(batches)@,
            final(escrows)@,
            final(members)@,
            *final(total),
            r,
        ),
{
    let mut batch = match batches.remove(proposal_id) {
        Some(b) => b,
        None => return Err(DsoError::NotFound),
    };
    batch.waiting_escrow = batch.waiting_escrow - 1;
    let can = batch.can_promote(block);
    if can && batch.batch_promoted {
        batches.insert(proposal_id, batch);
        // just promote this one, everyone else has been promoted
        match convert_to_voter_if_paid(escrows, members, paid) {
            Err(e) => Err(e),
            Ok(true) => {
                *total = *total + VOTING_WEIGHT;
                let mut v: Vec<String> = Vec::new();
                v.push(paid.clone());
                Ok(Some(v))
            },
            Ok(false) => Ok(None),
        }
    } else if can {
        proof {
            if all_have_escrow(escrows@, addrs_of(batch.members@)) {
                lemma_promote_all_keeps_keys(escrows@, members@, addrs_of(batch.members@));
            }
        }
        match convert_all_paid_members_to_voters(escrows, members, total, &mut batch) {
            Err(e) => Err(e),
            Ok(promoted) => {
                batches.insert(proposal_id, batch);
                Ok(Some(promoted))
            },
        }
    } else {
        batches.insert(proposal_id, batch);
        Ok(None)
    }
}

/// What a deposit into the escrow did.
#[derive(Clone, Debug, PartialEq, Eq)]
pub struct DepositResult {
    /// The amount deposited.
    pub amount: u128,
    /// Addresses promoted to voters because of it, if any promotion took place.
    pub promoted: Option<Vec<String>>,
}

/// The escrow after a deposit of `amount`, without the batch bookkeeping.
pub open spec fn spec_deposit(e: EscrowStatus, amount: u128, required: u128) -> EscrowStatus {
    let paid = (e.paid + amount) as u128;
    match e.status {
        MemberStatus::Pending { proposal_id } => if paid >= required {
            EscrowStatus { paid, status: MemberStatus::PendingPaid { proposal_id } }
        } else {
            EscrowStatus { paid, status: e.status }
        },
        _ => EscrowStatus { paid, status: e.status },
    }
}

/// A member pays into its escrow (only in `utgd`). A pending member that now has paid the
/// required escrow becomes pending-paid, and its batch is updated (which may promote it and
/// others). Only pending, pending-paid and voting members may deposit.
pub fn execute_deposit_escrow(
    escrows: &mut AddrMap<EscrowStatus>,
    members: &mut AddrMap<u64>,
    total: &mut u64,
    batches: &mut IdMap<Batch>,
    dso: &Dso,
    block: &BlockInfo,
    sender: &String,
    funds: &Vec<Coin>,
) -> (r: Result<DepositResult, DsoError>)
    requires
        old(batches).wf(),
        old(escrows).wf(),
        old(members).wf(),
        old(escrows)@.contains_key(sender@) && spec_must_pay(funds@, DSO_DENOM@) is Some
            ==> old(escrows)@[sender@].paid + spec_must_pay(funds@, DSO_DENOM@).unwrap()
            <= u128::MAX,
        forall|id: u64| #[trigger]
            old(batches)@.contains_key(id) ==> old(batches)@[id].waiting_escrow > 0
                && *old(total) + old(batches)@[id].members@.len() + 1 <= u64::MAX,
    ensures
        final(batches).wf(),
        final(escrows).wf(),
        final(members).wf(),
        !old(escrows)@.contains_key(sender@) ==> r == Err::<DepositResult, DsoError>(
            DsoError::NotAMember,
        ),
        old(escrows)@.contains_key(sender@) && spec_must_pay(funds@, DSO_DENOM@) is None
            ==> (r matches Err(DsoError::Payment(pe)) && payment_error_is(pe, funds@, DSO_DENOM@)),
        old(escrows)@.contains_key(sender@) && spec_must_pay(funds@, DSO_DENOM@) is Some ==> ({
            let e = old(escrows)@[sender@];
            let amount = spec_must_pay(funds@, DSO_DENOM@).unwrap();
            let e1 = spec_deposit(e, amount, spec_get_escrow(*dso));
            match e.status {
                MemberStatus::Pending { proposal_id } => if e1.status is PendingPaid {
                    &&& old(batches)@.contains_key(proposal_id) ==> exists|res: Result<Option<Vec<String>>, DsoError>|
                        batch_paid_outcome(
                            old(batches)@,
                            old(escrows)@.insert(sender@, e1),
                            old(members)@,
                            *old(total),
                            *block,
                            proposal_id,
                            sender@,
                            final(batches)@,
                            final(escrows)@,
                            final(members)@,
                            *final(total),
                            res,
                        ) && (res is Err <==> r is Err) && (r matches Ok(d) ==> res == Ok::<Option<Vec<String>>, DsoError>(d.promoted) && d.amount == amount)
                    &&& !old(batches)@.contains_key(proposal_id) ==> r == Err::<DepositResult, DsoError>(DsoError::NotFound)
                } else {
                    &&& r == Ok::<DepositResult, DsoError>(DepositResult { amount, promoted: None })
                    &&& final(escrows)@ == old(escrows)@.insert(sender@, e1)
                    &&& final(members)@ == old(members)@
                    &&& final(batches)@ == old(batches)@
                    &&& *final(total) == *old(total)
                },
                MemberStatus::PendingPaid { .. } | MemberStatus::Voting => {
                    &&& r == Ok::<DepositResult, DsoError>(DepositResult { amount, promoted: None })
                    &&& final(escrows)@ == old(escrows)@.insert(sender@, e1)
                    &&& final(members)@ == old(members)@
                    &&& final(batches)@ == old(batches)@
                    &&& *final(total) == *old(total)
                },
                _ => r == Err::<DepositResult, DsoError>(DsoError::InvalidStatus(e.status)),
            }
        }),
{
    let escrow = match escrows.get(sender) {
        Some(e) => e,
        None => return Err(DsoError::NotAMember),
    };
    let denom = DSO_DENOM.to_string();
    proof {
        assert(denom@ == DSO_DENOM@);
    }
    let amount = match must_pay(funds, &denom) {
        Ok(a) => a,
        Err(e) => return Err(DsoError::Payment(e)),
    };
    let paid = escrow.paid + amount;
    match escrow.status {
        MemberStatus::Pending { proposal_id } => {
            let required = dso.get_escrow();
            if paid >= required {
                escrows.insert(
                    sender.clone(),
                    EscrowStatus { paid, status: MemberStatus::PendingPaid { proposal_id } },
                );
                let promoted = update_batch_after_escrow_paid(
                    batches,
                    escrows,
                    members,
                    total,
                    block,
                    proposal_id,
                    sender,
                );
                match promoted {
                    Ok(p) => Ok(DepositResult { amount, promoted: p }),
                    Err(e) => Err(e),
                }
            } else {
                escrows.insert(sender.clone(), EscrowStatus { paid, status: escrow.status });
                Ok(DepositResult { amount, promoted: None })
            }
        },
        MemberStatus::PendingPaid { .. } | MemberStatus::Voting => {
            escrows.insert(sender.clone(), EscrowStatus { paid, status: escrow.status });
            Ok(DepositResult { amount, promoted: None })
        },
        _ => Err(DsoError::InvalidStatus(escrow.status)),
    }
}

pub open spec fn seconds_of(block: BlockInfo) -> u64 {
    (block.time / 1_000_000_000) as u64
}

/// The refund of a return-escrow request: a voter may take out what exceeds the required
/// escrow; a leaving member takes everything once `claim_at` has passed.
pub open spec fn spec_refund(e: EscrowStatus, required: u128, now: u64) -> Result<u128, DsoError> {
    match e.status {
        MemberStatus::Voting => if e.paid >= required {
            Ok((e.paid - required) as u128)
        } else {
            Err(DsoError::Overflow)
        },
        MemberStatus::Leaving { claim_at } => if claim_at <= now {
            Ok(e.paid)
        } else {
            Err(DsoError::CannotClaimYet(claim_at))
        },
        _ => Err(DsoError::InvalidStatus(e.status)),
    }
}

/// A member takes back escrow: a voter what exceeds the required escrow, a leaving member
/// everything once its claim time has passed. A member left with nothing paid is removed.
/// Returns the refund.
pub fn execute_return_escrow(
    escrows: &mut AddrMap<EscrowStatus>,
    members: &mut AddrMap<u64>,
    dso: &Dso,
    block: &BlockInfo,
    sender: &String,
    funds: &Vec<Coin>,
) -> (r: Result<u128, DsoError>)
    requires
        old(escrows).wf(),
        old(members).wf(),
    ensures
        final(escrows).wf(),
        final(members).wf(),
        funds@.len() != 0 ==> r == Err::<u128, DsoError>(DsoError::Payment(PaymentError::NonPayable)),
        funds@.len() == 0 && !old(escrows)@.contains_key(sender@) ==> r == Err::<u128, DsoError>(
            DsoError::NotAMember,
        ),
        funds@.len() == 0 && old(escrows)@.contains_key(sender@) ==> ({
            let e = old(escrows)@[sender@];
            match spec_refund(e, spec_get_escrow(*dso), seconds_of(*block)) {
                Err(err) => r == Err::<u128, DsoError>(err),
                Ok(refund) => {
                    &&& r == Ok::<u128, DsoError>(refund)
                    &&& if refund == 0 {
                        final(escrows)@ == old(escrows)@ && final(members)@ == old(members)@
                    } else if e.paid == refund {
                        final(escrows)@ == old(escrows)@.remove(sender@) && final(members)@
                            == old(members)@.remove(sender@)
                    } else {
                        final(escrows)@ == old(escrows)@.insert(
                            sender@,
                            EscrowStatus { paid: (e.paid - refund) as u128, status: e.status },
                        ) && final(members)@ == old(members)@
                    }
                },
            }
        }),
{
    if let Err(e) = nonpayable(funds) {
        return Err(DsoError::Payment(e));
    }
    let escrow = match escrows.get(sender) {
        Some(e) => e,
        None => return Err(DsoError::NotAMember),
    };
    let refund = match escrow.status {
        // voters can deduct as long as they maintain the required escrow
        MemberStatus::Voting => {
            let min = dso.get_escrow();
            match escrow.paid.checked_sub(min) {
                Some(v) => v,
                None => return Err(DsoError::Overflow),
            }
        },
        // leaving voters can claim as long as claim_at has passed
        MemberStatus::Leaving { claim_at } => {
            if claim_at <= block.seconds() {
                escrow.paid
            } else {
                return Err(DsoError::CannotClaimYet(claim_at));
            }
        },
        // no one else can withdraw
        _ => return Err(DsoError::InvalidStatus(escrow.status)),
    };
    if refund == 0 {
        return Ok(0);
    }
    let paid = escrow.paid - refund;
    if paid == 0 {
        // clearing out leaving member
        escrows.remove(sender);
        members.remove(sender);
    } else {
        // removing excess from voting member
        escrows.insert(sender.clone(), EscrowStatus { paid, status: escrow.status });
    }
    Ok(refund)
}

/// A member casts a vote on a proposal. The proposal must be open (or passed) and not expired;
/// `vote_power` is the sender's weight when the proposal started, which must not be zero; the
/// sender must currently be a voting member (`escrow`) and not have voted (`already_voted`).
pub fn execute_vote(
    prop: &mut Proposal<ProposalContent>,
    block: &BlockInfo,
    vote_power: u64,
    escrow: Option<EscrowStatus>,
    already_voted: bool,
    vote: Vote,
    funds: &Vec<Coin>,
) -> (r: Result<Ballot, DsoError>)
    requires
        spec_add_vote_fits(old(prop).votes, vote, vote_power),
        ({
            let p1 = Proposal { votes: spec_add_vote(old(prop).votes, vote, vote_power), ..*old(prop) };
            p1.passed_defined(*block)
        }),
    ensures
        r is Err ==> *final(prop) == *old(prop),
        r == spec_vote_check(*old(prop), *block, vote_power, escrow, already_voted, vote, funds@.len()),
        r is Ok ==> ({
            let p1 = Proposal { votes: spec_add_vote(old(prop).votes, vote, vote_power), ..*old(prop) };
            *final(prop) == Proposal { status: p1.spec_status(*block), ..p1 }
        }),
{
    if funds.len() != 0 {
        return Err(DsoError::Payment(PaymentError::NonPayable));
    }
    if prop.status != Status::Open && prop.status != Status::Passed {
        return Err(DsoError::NotOpen);
    }
    // if the block time == expiration time, this counts as expired
    if prop.expires.is_expired(block) {
        return Err(DsoError::Expired);
    }
    if vote_power == 0 {
        return Err(DsoError::Unauthorized);
    }
    // ensure the voter is not currently leaving the dso (must be currently a voter)
    let escrow = match escrow {
        Some(e) => e,
        None => return Err(DsoError::NotFound),
    };
    if !matches!(escrow.status, MemberStatus::Voting) {
        return Err(DsoError::InvalidStatus(escrow.status));
    }
    if already_voted {
        return Err(DsoError::AlreadyVoted);
    }
    let ballot = Ballot { weight: vote_power, vote };
    prop.votes.add_vote(vote, vote_power);
    prop.update_status(block);
    Ok(ballot)
}

/// The outcome of the checks of [`execute_vote`].
pub open spec fn spec_vote_check(
    prop: Proposal<ProposalContent>,
    block: BlockInfo,
    vote_power: u64,
    escrow: Option<EscrowStatus>,
    already_voted: bool,
    vote: Vote,
    n_funds: nat,
) -> Result<Ballot, DsoError> {
    if n_funds != 0 {
        Err(DsoError::Payment(PaymentError::NonPayable))
    } else if prop.status != Status::Open && prop.status != Status::Passed {
        Err(DsoError::NotOpen)
    } else if spec_is_expired(prop.expires, block) {
        Err(DsoError::Expired)
    } else if vote_power == 0 {
        Err(DsoError::Unauthorized)
    } else if escrow is None {
        Err(DsoError::NotFound)
    } else if !(escrow.unwrap().status is Voting) {
        Err(DsoError::InvalidStatus(escrow.unwrap().status))
    } else if already_voted {
        Err(DsoError::AlreadyVoted)
    } else {
        Ok(Ballot { weight: vote_power, vote })
    }
}

/// Marks a passed proposal executed (anyone may trigger this, also after expiration).
pub fn mark_executed(prop: &mut Proposal<ProposalContent>, funds: &Vec<Coin>) -> (r: Result<(), DsoError>)
    ensures
        funds@.len() != 0 ==> r == Err::<(), DsoError>(DsoError::Payment(PaymentError::NonPayable)),
        funds@.len() == 0 && old(prop).status != Status::Passed ==> r == Err::<(), DsoError>(
            DsoError::WrongExecuteStatus,
        ),
        r is Err ==> *final(prop) == *old(prop),
        r is Ok ==> funds@.len() == 0 && old(prop).status == Status::Passed && *final(prop)
            == (Proposal { status: Status::Executed, ..*old(prop) }),
{
    if funds.len() != 0 {
        return Err(DsoError::Payment(PaymentError::NonPayable));
    }
    if prop.status != Status::Passed {
        return Err(DsoError::WrongExecuteStatus);
    }
    prop.status = Status::Executed;
    Ok(())
}

/// Rejects an expired proposal that has not passed, been rejected or been executed.
pub fn execute_close(
    prop: &mut Proposal<ProposalContent>,
    block: &BlockInfo,
    funds: &Vec<Coin>,
) -> (r: Result<(), DsoError>)
    ensures
        r is Err ==> *final(prop) == *old(prop),
        funds@.len() != 0 ==> r == Err::<(), DsoError>(DsoError::Payment(PaymentError::NonPayable)),
        funds@.len() == 0 && (old(prop).status == Status::Executed || old(prop).status
            == Status::Rejected || old(prop).status == Status::Passed) ==> r == Err::<(), DsoError>(
            DsoError::WrongCloseStatus,
        ),
        funds@.len() == 0 && (old(prop).status == Status::Open || old(prop).status
            == Status::Pending) && !spec_is_expired(old(prop).expires, *block) ==> r
            == Err::<(), DsoError>(DsoError::NotExpired),
        funds@.len() == 0 && (old(prop).status == Status::Open || old(prop).status
            == Status::Pending) && spec_is_expired(old(prop).expires, *block) ==> r is Ok
            && *final(prop) == (Proposal { status: Status::Rejected, ..*old(prop) }),
{
    if funds.len() != 0 {
        return Err(DsoError::Payment(PaymentError::NonPayable));
    }
    if prop.status == Status::Executed || prop.status == Status::Rejected || prop.status
        == Status::Passed {
        return Err(DsoError::WrongCloseStatus);
    }
    if !prop.expires.is_expired(block) {
        return Err(DsoError::NotExpired);
    }
    prop.status = Status::Rejected;
    Ok(())
}

/// Content of a DSO proposal.
#[derive(Clone, Debug, PartialEq, Eq)]
pub enum ProposalContent {
    /// Apply a diff to the existing non-voting members.
    /// Remove is applied after add, so if an address is in both, it is removed
    AddRemoveNonVotingMembers { remove: Vec<String>, add: Vec<String> },
    EditDso(DsoAdjustments),
    AddVotingMembers { voters: Vec<String> },
}

/// Optional changes to the DSO.
#[derive(Clone, Debug, PartialEq, Eq)]
pub struct DsoAdjustments {
    pub name: Option<String>,
    pub escrow_amount: Option<u128>,
    pub voting_period: Option<u32>,
    pub quorum: Option<Decimal>,
    pub threshold: Option<Decimal>,
    pub allow_end_early: Option<bool>,
}

// ---------------------------------------------------------------------------------------
// Leaving the DSO.

/// How a member left.
#[derive(Clone, Copy, Debug, PartialEq, Eq, Structural)]
pub enum LeaveOutcome {
    /// Removed at once (never paid an escrow).
    Immediately,
    /// Became a leaving member; its escrow can be claimed from `claim_at` (seconds). When it
    /// was a voter, `was_voting` is set and the open proposals it has not voted on count one
    /// voter less (see [`proposals_to_adjust_for_leaver`]).
    Delayed { claim_at: u64, was_voting: bool },
}

pub open spec fn leaves_immediately(e: EscrowStatus) -> bool {
    e.status is NonVoting || (e.status is Pending && e.paid == 0)
}

/// A member leaves the DSO: non-voting members and pending members who paid nothing are
/// removed at once; a leaving member cannot leave again; everyone else becomes leaving (a voter
/// loses its vote) and can claim its escrow after twice the voting period.
pub fn execute_leave_dso(
    escrows: &mut AddrMap<EscrowStatus>,
    members: &mut AddrMap<u64>,
    total: &mut u64,
    dso: &Dso,
    block: &BlockInfo,
    sender: &String,
    funds: &Vec<Coin>,
) -> (r: Result<LeaveOutcome, DsoError>)
    requires
        old(escrows).wf(),
        old(members).wf(),
        seconds_of(*block) + dso.rules.voting_period * SECONDS_PER_DAY * 2 <= u64::MAX,
    ensures
        final(escrows).wf(),
        final(members).wf(),
        funds@.len() != 0 ==> r == Err::<LeaveOutcome, DsoError>(
            DsoError::Payment(PaymentError::NonPayable),
        ),
        funds@.len() == 0 && !old(escrows)@.contains_key(sender@) ==> r == Err::<
            LeaveOutcome,
            DsoError,
        >(DsoError::NotAMember),
        funds@.len() == 0 && old(escrows)@.contains_key(sender@) ==> ({
            let e = old(escrows)@[sender@];
            let claim_at = (seconds_of(*block) + dso.rules.voting_period * SECONDS_PER_DAY * 2) as u64;
            if leaves_immediately(e) {
                &&& r == Ok::<LeaveOutcome, DsoError>(LeaveOutcome::Immediately)
                &&& final(escrows)@ == old(escrows)@.remove(sender@)
                &&& final(members)@ == old(members)@.remove(sender@)
                &&& *final(total) == *old(total)
            } else if e.status is Leaving {
                r == Err::<LeaveOutcome, DsoError>(DsoError::InvalidStatus(e.status))
            } else if e.status is Voting {
                &&& *old(total) >= VOTING_WEIGHT ==> {
                    &&& r == Ok::<LeaveOutcome, DsoError>(
                        LeaveOutcome::Delayed { claim_at, was_voting: true },
                    )
                    &&& final(escrows)@ == old(escrows)@.insert(
                        sender@,
                        EscrowStatus { paid: e.paid, status: MemberStatus::Leaving { claim_at } },
                    )
                    &&& final(members)@ == old(members)@.insert(sender@, 0)
                    &&& *final(total) == *old(total) - VOTING_WEIGHT
                }
                &&& *old(total) < VOTING_WEIGHT ==> r == Err::<LeaveOutcome, DsoError>(
                    DsoError::Overflow,
                )
            } else {
                &&& r == Ok::<LeaveOutcome, DsoError>(
                    LeaveOutcome::Delayed { claim_at, was_voting: false },
                )
                &&& final(escrows)@ == old(escrows)@.insert(
                    sender@,
                    EscrowStatus { paid: e.paid, status: MemberStatus::Leaving { claim_at } },
                )
                &&& final(members)@ == old(members)@
                &&& *final(total) == *old(total)
            }
        }),
{
    if let Err(e) = nonpayable(funds) {
        return Err(DsoError::Payment(e));
    }
    let escrow = match escrows.get(sender) {
        Some(e) => e,
        None => return Err(DsoError::NotAMember),
    };
    match escrow.status {
        MemberStatus::NonVoting => {
            leave_immediately(escrows, members, sender);
            return Ok(LeaveOutcome::Immediately);
        },
        MemberStatus::Pending { .. } => {
            if escrow.paid == 0 {
                leave_immediately(escrows, members, sender);
                return Ok(LeaveOutcome::Immediately);
            }
        },
        MemberStatus::Leaving { .. } => {
            return Err(DsoError::InvalidStatus(escrow.status));
        },
        _ => {},
    }
    trigger_long_leave(escrows, members, total, dso, block, sender, escrow)
}

/// Removes a member that never paid an escrow.
fn leave_immediately(escrows: &mut AddrMap<EscrowStatus>, members: &mut AddrMap<u64>, leaver: &String)
    requires
        old(escrows).wf(),
        old(members).wf(),
    ensures
        final(escrows).wf(),
        final(members).wf(),
        final(escrows)@ == old(escrows)@.remove(leaver@),
        final(members)@ == old(members)@.remove(leaver@),
{
    members.remove(leaver);
    escrows.remove(leaver);
}

/// A voter loses its vote; in all cases the member becomes leaving, with a claim on its escrow
/// after twice the voting period.
fn trigger_long_leave(
    escrows: &mut AddrMap<EscrowStatus>,
    members: &mut AddrMap<u64>,
    total: &mut u64,
    dso: &Dso,
    block: &BlockInfo,
    leaver: &String,
    escrow: EscrowStatus,
) -> (r: Result<LeaveOutcome, DsoError>)
    requires
        old(escrows).wf(),
        old(members).wf(),
        seconds_of(*block) + dso.rules.voting_period * SECONDS_PER_DAY * 2 <= u64::MAX,
    ensures
        final(escrows).wf(),
        final(members).wf(),
        ({
            let claim_at = (seconds_of(*block) + dso.rules.voting_period * SECONDS_PER_DAY * 2) as u64;
            let voting = escrow.status is Voting;
            if voting && *old(total) < VOTING_WEIGHT {
                r == Err::<LeaveOutcome, DsoError>(DsoError::Overflow)
            } else {
                &&& r == Ok::<LeaveOutcome, DsoError>(
                    LeaveOutcome::Delayed { claim_at, was_voting: voting },
                )
                &&& final(escrows)@ == old(escrows)@.insert(
                    leaver@,
                    EscrowStatus { paid: escrow.paid, status: MemberStatus::Leaving { claim_at } },
                )
                &&& final(members)@ == if voting {
                    old(members)@.insert(leaver@, 0)
                } else {
                    old(members)@
                }
                &&& *final(total) == if voting {
                    (*old(total) - VOTING_WEIGHT) as u64
                } else {
                    *old(total)
                }
            }
        }),
{
    let voting = matches!(escrow.status, MemberStatus::Voting);
    // if we are voting member, reduce vote to 0 (otherwise, it is already 0)
    if voting {
        if *total < VOTING_WEIGHT {
            return Err(DsoError::Overflow);
        }
        members.insert(leaver.clone(), 0);
        *total = *total - VOTING_WEIGHT;
    }
    // in all case, we become a leaving member and set the claim on our escrow
    let claim_at = block.seconds() + dso.rules.voting_period_secs() * 2;
    escrows.insert(
        leaver.clone(),
        EscrowStatus { paid: escrow.paid, status: MemberStatus::Leaving { claim_at } },
    );
    Ok(LeaveOutcome::Delayed { claim_at, was_voting: voting })
}

/// A proposal not yet expired when a voter leaves, with whether the leaver voted on it.
#[derive(Clone, Copy, Debug, PartialEq, Eq, Structural)]
pub struct LeaverCandidate {
    pub proposal_id: u64,
    pub status: Status,
    pub leaver_voted: bool,
}

pub open spec fn needs_adjustment(c: LeaverCandidate) -> bool {
    !c.leaver_voted && c.status == Status::Open
}

/// Ids of the proposals whose total weight must drop by one voter when a voter leaves: the
/// open ones (among those not yet expired) that the leaver has not voted on, in order.
pub fn proposals_to_adjust_for_leaver(candidates: &Vec<LeaverCandidate>) -> (ids: Vec<u64>)
    ensures
        ids@ == candidates@.filter(|c: LeaverCandidate| needs_adjustment(c)).map_values(
            |c: LeaverCandidate| c.proposal_id,
        ),
{
    let ghost pred = |c: LeaverCandidate| needs_adjustment(c);
    let ghost f = |c: LeaverCandidate| c.proposal_id;
    let mut ids: Vec<u64> = Vec::new();
    let mut i: usize = 0;
    while i < candidates.len()
        invariant
            i <= candidates@.len(),
            pred == (|c: LeaverCandidate| needs_adjustment(c)),
            f == (|c: LeaverCandidate| c.proposal_id),
            ids@ == candidates@.subrange(0, i as int).filter(pred).map_values(f),
        decreases candidates@.len() - i,
    {
        let c = candidates[i];
        let ghost old_ids = ids@;
        if !c.leaver_voted && c.status == Status::Open {
            ids.push(c.proposal_id);
        }
        proof {
            let prev = candidates@.subrange(0, i as int);
            let next = candidates@.subrange(0, i + 1);
            assert(next.drop_last() =~= prev);
            assert(next.last() == c);
            reveal_with_fuel(Seq::<_>::filter, 1);
            if pred(c) {
                assert(next.filter(pred) == prev.filter(pred).push(c));
                assert(next.filter(pred).map_values(f) =~= prev.filter(pred).map_values(f).push(f(c)));
                assert(f(c) == c.proposal_id);
                assert(ids@ =~= next.filter(pred).map_values(f));
            } else {
                assert(next.filter(pred) == prev.filter(pred));
                assert(ids@ =~= next.filter(pred).map_values(f));
            }
        }
        i = i + 1;
    }
    proof {
        assert(candidates@.subrange(0, i as int) =~= candidates@);
    }
    ids
}

// ---------------------------------------------------------------------------------------
// Membership changes decided by proposals.

/// Adds each address, in turn, as a non-voting member unless it is a member already.
pub open spec fn spec_add_non_voting(
    members: Map<Seq<char>, u64>,
    escrows: Map<Seq<char>, EscrowStatus>,
    adds: Seq<Seq<char>>,
) -> (Map<Seq<char>, u64>, Map<Seq<char>, EscrowStatus>)
    decreases adds.len(),
{
    if adds.len() == 0 {
        (members, escrows)
    } else {
        let (m, e) = spec_add_non_voting(members, escrows, adds.drop_last());
        let a = adds.last();
        if m.contains_key(a) {
            (m, e)
        } else {
            (m.insert(a, 0), e.insert(a, EscrowStatus { paid: 0, status: MemberStatus::NonVoting }))
        }
    }
}

/// Removes each address, in turn, if it is a non-voting member; fails at the first address that
/// is a member of another kind; addresses that are not members are ignored.
pub open spec fn spec_remove_non_voting(
    members: Map<Seq<char>, u64>,
    escrows: Map<Seq<char>, EscrowStatus>,
    removes: Seq<Seq<char>>,
) -> Result<(Map<Seq<char>, u64>, Map<Seq<char>, EscrowStatus>), Seq<char>>
    decreases removes.len(),
{
    if removes.len() == 0 {
        Ok((members, escrows))
    } else {
        match spec_remove_non_voting(members, escrows, removes.drop_last()) {
            Err(a) => Err(a),
            Ok((m, e)) => {
                let a = removes.last();
                if !e.contains_key(a) {
                    Ok((m, e))
                } else if e[a].status is NonVoting {
                    Ok((m.remove(a), e.remove(a)))
                } else {
                    Err(a)
                }
            },
        }
    }
}

/// Adds `to_add` as non-voting members (existing members stay as they are), then removes
/// `to_remove`, which must not hold voting, pending or leaving members. Remove is applied after
/// add, so an address in both ends up removed.
pub fn add_remove_non_voting_members(
    members: &mut AddrMap<u64>,
    escrows: &mut AddrMap<EscrowStatus>,
    to_add: &Vec<String>,
    to_remove: &Vec<String>,
) -> (r: Result<(), DsoError>)
    requires
        old(members).wf(),
        old(escrows).wf(),
    ensures
        final(members).wf(),
        final(escrows).wf(),
        ({
            let (m1, e1) = spec_add_non_voting(old(members)@, old(escrows)@, addrs_of(to_add@));
            match spec_remove_non_voting(m1, e1, addrs_of(to_remove@)) {
                Ok((m2, e2)) => r is Ok && final(members)@ == m2 && final(escrows)@ == e2,
                Err(a) => {
                    &&& r matches Err(DsoError::VotingMember(s)) && s@ == a
                    &&& old(escrows)@.contains_key(a)
                    &&& *final(members) == *old(members)
                    &&& *final(escrows) == *old(escrows)
                },
            }
        }),
{
    let mut m = members.copy();
    let mut e = escrows.copy();
    let r = apply_non_voting_changes(&mut m, &mut e, to_add, to_remove);
    if r.is_ok() {
        *members = m;
        *escrows = e;
    }
    r
}

/// In place (see [`add_remove_non_voting_members`]): adds `to_add` as non-voting members (existing members stay as they are), then removes
/// `to_remove`, which must not hold voting, pending or leaving members. Remove is applied after
/// add, so an address in both ends up removed.
fn apply_non_voting_changes(
    members: &mut AddrMap<u64>,
    escrows: &mut AddrMap<EscrowStatus>,
    to_add: &Vec<String>,
    to_remove: &Vec<String>,
) -> (r: Result<(), DsoError>)
    requires
        old(members).wf(),
        old(escrows).wf(),
    ensures
        final(members).wf(),
        final(escrows).wf(),
        ({
            let (m1, e1) = spec_add_non_voting(old(members)@, old(escrows)@, addrs_of(to_add@));
            match spec_remove_non_voting(m1, e1, addrs_of(to_remove@)) {
                Ok((m2, e2)) => r is Ok && final(members)@ == m2 && final(escrows)@ == e2,
                Err(a) => {
                    &&& r matches Err(DsoError::VotingMember(s)) && s@ == a
                    &&& old(escrows)@.contains_key(a) && final(escrows)@.contains_key(a)
                    &&& final(escrows)@[a] == old(escrows)@[a]
                    &&& final(members)@.contains_key(a) == old(members)@.contains_key(a)
                    &&& old(members)@.contains_key(a) ==> final(members)@[a] == old(members)@[a]
                },
            }
        }),
{
    let ghost m0 = members@;
    let ghost e0 = escrows@;
    let ghost adds = addrs_of(to_add@);
    let ghost removes = addrs_of(to_remove@);
    let mut i: usize = 0;
    while i < to_add.len()
        invariant
            members.wf(),
            escrows.wf(),
            i <= to_add@.len(),
            adds == addrs_of(to_add@),
            m0 == old(members)@,
            e0 == old(escrows)@,
            (members@, escrows@) == spec_add_non_voting(m0, e0, adds.subrange(0, i as int)),
        decreases to_add@.len() - i,
    {
        proof {
            assert(adds.subrange(0, i + 1).drop_last() =~= adds.subrange(0, i as int));
        }
        let add = &to_add[i];
        // If the member already exists, the update for that member is ignored
        if !members.contains(add) {
            members.insert(add.clone(), 0);
            escrows.insert(add.clone(), EscrowStatus::non_voting());
        }
        i = i + 1;
    }
    proof {
        assert(adds.subrange(0, i as int) =~= adds);
    }
    let ghost m1 = members@;
    let ghost e1 = escrows@;
    let mut j: usize = 0;
    while j < to_remove.len()
        invariant
            members.wf(),
            escrows.wf(),
            j <= to_remove@.len(),
            removes == addrs_of(to_remove@),
            (m1, e1) == spec_add_non_voting(old(members)@, old(escrows)@, addrs_of(to_add@)),
            spec_remove_non_voting(m1, e1, removes.subrange(0, j as int)) == Ok::<
                (Map<Seq<char>, u64>, Map<Seq<char>, EscrowStatus>),
                Seq<char>,
            >((members@, escrows@)),
        decreases to_remove@.len() - j,
    {
        proof {
            assert(removes.subrange(0, j + 1).drop_last() =~= removes.subrange(0, j as int));
        }
        let remove = &to_remove[j];
        // Ignore non-members
        if let Some(escrow) = escrows.get(remove) {
            if matches!(escrow.status, MemberStatus::NonVoting) {
                members.remove(remove);
                escrows.remove(remove);
            } else {
                proof {
                    assert(remove@ == removes[j as int]);
                    lemma_remove_error_sticks(m1, e1, removes, (j + 1) as int);
                    assert(removes.subrange(0, to_remove@.len() as int) =~= removes);
                    lemma_remove_keeps_others(m1, e1, removes.subrange(0, j as int), remove@);
                    lemma_add_keeps_members(old(members)@, old(escrows)@, addrs_of(to_add@), remove@);
                }
                return Err(DsoError::VotingMember(remove.clone()));
            }
        }
        j = j + 1;
    }
    proof {
        assert(removes.subrange(0, j as int) =~= removes);
    }
    Ok(())
}

/// Removing non-voting members leaves every address that is still there as it was.
proof fn lemma_remove_keeps_others(
    members: Map<Seq<char>, u64>,
    escrows: Map<Seq<char>, EscrowStatus>,
    removes: Seq<Seq<char>>,
    a: Seq<char>,
)
    requires
        spec_remove_non_voting(members, escrows, removes) is Ok,
    ensures
        ({
            let (m, e) = spec_remove_non_voting(members, escrows, removes)->Ok_0;
            e.contains_key(a) ==> {
                &&& escrows.contains_key(a) && e[a] == escrows[a]
                &&& m.contains_key(a) == members.contains_key(a)
                &&& m.contains_key(a) ==> m[a] == members[a]
            }
        }),
    decreases removes.len(),
{
    if removes.len() > 0 {
        lemma_remove_keeps_others(members, escrows, removes.drop_last(), a);
    }
}

/// Adding non-voting members leaves every member that is not non-voting as it was.
proof fn lemma_add_keeps_members(
    members: Map<Seq<char>, u64>,
    escrows: Map<Seq<char>, EscrowStatus>,
    adds: Seq<Seq<char>>,
    a: Seq<char>,
)
    ensures
        ({
            let (m, e) = spec_add_non_voting(members, escrows, adds);
            e.contains_key(a) && !(e[a].status is NonVoting) ==> {
                &&& escrows.contains_key(a) && e[a] == escrows[a]
                &&& m.contains_key(a) == members.contains_key(a)
                &&& m.contains_key(a) ==> m[a] == members[a]
            }
        }),
    decreases adds.len(),
{
    if adds.len() > 0 {
        lemma_add_keeps_members(members, escrows, adds.drop_last(), a);
    }
}

proof fn lemma_remove_error_sticks(
    members: Map<Seq<char>, u64>,
    escrows: Map<Seq<char>, EscrowStatus>,
    removes: Seq<Seq<char>>,
    k: int,
)
    requires
        0 <= k <= removes.len(),
        spec_remove_non_voting(members, escrows, removes.subrange(0, k)) is Err,
    ensures
        spec_remove_non_voting(members, escrows, removes) == spec_remove_non_voting(
            members,
            escrows,
            removes.subrange(0, k),
        ),
    decreases removes.len() - k,
{
    if k < removes.len() {
        assert(removes.subrange(0, k + 1).drop_last() =~= removes.subrange(0, k));
        lemma_remove_error_sticks(members, escrows, removes, k + 1);
    } else {
        assert(removes.subrange(0, k) =~= removes);
    }
}

/// Makes each address, in turn, a pending voter of the proposal unless it is a member other
/// than a non-voting one.
pub open spec fn spec_add_pending(
    members: Map<Seq<char>, u64>,
    escrows: Map<Seq<char>, EscrowStatus>,
    addrs: Seq<Seq<char>>,
    proposal_id: u64,
) -> (Map<Seq<char>, u64>, Map<Seq<char>, EscrowStatus>)
    decreases addrs.len(),
{
    if addrs.len() == 0 {
        (members, escrows)
    } else {
        let (m, e) = spec_add_pending(members, escrows, addrs.drop_last(), proposal_id);
        let a = addrs.last();
        if !e.contains_key(a) || e[a].status is NonVoting {
            (
                m.insert(a, 0),
                e.insert(a, EscrowStatus { paid: 0, status: MemberStatus::Pending { proposal_id } }),
            )
        } else {
            (m, e)
        }
    }
}

/// A passed proposal approves voting members: they form a batch, waited for during one voting
/// period, and each (unless already a member other than a non-voting one) becomes a pending
/// member with nothing paid. A proposal can create only one batch.
pub fn proposal_add_voting_members(
    batches: &mut IdMap<Batch>,
    members: &mut AddrMap<u64>,
    escrows: &mut AddrMap<EscrowStatus>,
    rules: &VotingRules,
    block: &BlockInfo,
    proposal_id: u64,
    to_add: &Vec<String>,
) -> (r: Result<(), DsoError>)
    requires
        old(batches).wf(),
        old(members).wf(),
        old(escrows).wf(),
        block.time + rules.voting_period * SECONDS_PER_DAY * 1_000_000_000 <= u64::MAX,
    ensures
        final(batches).wf(),
        final(members).wf(),
        final(escrows).wf(),
        old(batches)@.contains_key(proposal_id) ==> r == Err::<(), DsoError>(
            DsoError::AlreadyUsedProposal(proposal_id),
        ),
        r is Err ==> *final(batches) == *old(batches) && *final(members) == *old(members)
            && *final(escrows) == *old(escrows),
        !old(batches)@.contains_key(proposal_id) ==> ({
            let (m1, e1) = spec_add_pending(old(members)@, old(escrows)@, addrs_of(to_add@), proposal_id);
            let b = final(batches)@[proposal_id];
            &&& r is Ok
            &&& final(batches)@.dom() == old(batches)@.dom().insert(proposal_id)
            &&& forall|id: u64| id != proposal_id && #[trigger] old(batches)@.contains_key(id) ==> final(batches)@[id] == old(batches)@[id]
            &&& b.grace_ends_at == (block.time + rules.voting_period * SECONDS_PER_DAY * 1_000_000_000) / 1_000_000_000
            &&& b.waiting_escrow == to_add@.len() as u32
            &&& !b.batch_promoted
            &&& b.members@ == to_add@
            &&& final(members)@ == m1
            &&& final(escrows)@ == e1
        }),
{
    // grace period is defined as the voting period
    let grace_period = rules.voting_period_secs();
    if batches.contains(proposal_id) {
        return Err(DsoError::AlreadyUsedProposal(proposal_id));
    }
    let addrs = to_add.clone();
    proof {
        assert(addrs@ =~= to_add@);
    }
    let batch = Batch {
        grace_ends_at: (block.time + grace_period * 1_000_000_000) / 1_000_000_000,
        waiting_escrow: to_add.len() as u32,
        batch_promoted: false,
        members: addrs,
    };
    batches.insert(proposal_id, batch);
    let ghost m0 = members@;
    let ghost e0 = escrows@;
    let ghost seq = addrs_of(to_add@);
    let mut i: usize = 0;
    while i < to_add.len()
        invariant
            members.wf(),
            escrows.wf(),
            i <= to_add@.len(),
            seq == addrs_of(to_add@),
            m0 == old(members)@,
            e0 == old(escrows)@,
            (members@, escrows@) == spec_add_pending(m0, e0, seq.subrange(0, i as int), proposal_id),
        decreases to_add@.len() - i,
    {
        proof {
            assert(seq.subrange(0, i + 1).drop_last() =~= seq.subrange(0, i as int));
        }
        let add = &to_add[i];
        // Only add the member if it does not already exist or is non-voting
        let create = match escrows.get(add) {
            Some(val) => matches!(val.status, MemberStatus::NonVoting),
            None => true,
        };
        if create {
            members.insert(add.clone(), 0);
            // Create member entry in escrow (with no funds)
            escrows.insert(add.clone(), EscrowStatus::pending(proposal_id));
        }
        i = i + 1;
    }
    proof {
        assert(seq.subrange(0, i as int) =~= seq);
    }
    Ok(())
}

/// The DSO after a passed proposal edits it.
pub open spec fn spec_edit_dso(dso: Dso, block: BlockInfo, proposal_id: u64, a: DsoAdjustments) -> Dso {
    let rules = spec_apply_adjustments(
        dso.rules,
        VotingRulesAdjustments {
            voting_period: a.voting_period,
            quorum: a.quorum,
            threshold: a.threshold,
            allow_end_early: a.allow_end_early,
        },
    );
    Dso {
        name: match a.name {
            Some(n) => n,
            None => dso.name,
        },
        escrow_amount: dso.escrow_amount,
        escrow_pending: match a.escrow_amount {
            Some(amount) => Some(
                PendingEscrow {
                    proposal_id,
                    amount,
                    grace_ends_at: (seconds_of(block) + dso.rules.voting_period * SECONDS_PER_DAY) as u64,
                },
            ),
            None => dso.escrow_pending,
        },
        rules,
    }
}

/// A passed proposal edits the DSO: a new name, new voting rules, or a new escrow amount,
/// which becomes pending and applies after one voting period (only one can be pending at a
/// time, and it must be at least 1 TGD). The edited DSO must still be valid.
pub fn proposal_edit_dso(
    dso: &mut Dso,
    block: &BlockInfo,
    proposal_id: u64,
    adjustments: DsoAdjustments,
) -> (r: Result<(), DsoError>)
    requires
        seconds_of(*block) + old(dso).rules.voting_period * SECONDS_PER_DAY <= u64::MAX,
    ensures
        adjustments.escrow_amount is Some && old(dso).escrow_pending is Some ==> r == Err::<
            (),
            DsoError,
        >(DsoError::PendingEscrowAlreadySet),
        adjustments.escrow_amount is Some && old(dso).escrow_pending is None
            && adjustments.escrow_amount.unwrap() < MIN_ESCROW ==> r == Err::<(), DsoError>(
            DsoError::InvalidPendingEscrow(adjustments.escrow_amount.unwrap()),
        ),
        (adjustments.escrow_amount is None || (old(dso).escrow_pending is None
            && adjustments.escrow_amount.unwrap() >= MIN_ESCROW)) ==> ({
            let d = spec_edit_dso(*old(dso), *block, proposal_id, adjustments);
            match spec_dso_error(name_bytes(d.name), d.escrow_amount, d.rules) {
                Some(e) => r == Err::<(), DsoError>(e),
                None => r is Ok && *final(dso) == d,
            }
        }),
        r is Err ==> *final(dso) == *old(dso),
{
    let mut d = dso.copy();
    let r = edit_dso(&mut d, block, proposal_id, adjustments);
    if r.is_ok() {
        *dso = d;
    }
    r
}

/// Applies the adjustments to `dso` in place (see [`proposal_edit_dso`]).
fn edit_dso(
    dso: &mut Dso,
    block: &BlockInfo,
    proposal_id: u64,
    adjustments: DsoAdjustments,
) -> (r: Result<(), DsoError>)
    requires
        seconds_of(*block) + old(dso).rules.voting_period * SECONDS_PER_DAY <= u64::MAX,
    ensures
        adjustments.escrow_amount is Some && old(dso).escrow_pending is Some ==> r == Err::<
            (),
            DsoError,
        >(DsoError::PendingEscrowAlreadySet),
        adjustments.escrow_amount is Some && old(dso).escrow_pending is None
            && adjustments.escrow_amount.unwrap() < MIN_ESCROW ==> r == Err::<(), DsoError>(
            DsoError::InvalidPendingEscrow(adjustments.escrow_amount.unwrap()),
        ),
        (adjustments.escrow_amount is None || (old(dso).escrow_pending is None
            && adjustments.escrow_amount.unwrap() >= MIN_ESCROW)) ==> ({
            let d = spec_edit_dso(*old(dso), *block, proposal_id, adjustments);
            match spec_dso_error(name_bytes(d.name), d.escrow_amount, d.rules) {
                Some(e) => r == Err::<(), DsoError>(e),
                None => r is Ok && *final(dso) == d,
            }
        }),
{
    if let Some(amount) = adjustments.escrow_amount {
        if dso.escrow_pending.is_some() {
            return Err(DsoError::PendingEscrowAlreadySet);
        }
        if amount < MIN_ESCROW {
            return Err(DsoError::InvalidPendingEscrow(amount));
        }
        let grace_ends_at = block.seconds() + dso.rules.voting_period_secs();
        dso.escrow_pending = Some(PendingEscrow { proposal_id, amount, grace_ends_at });
    }
    if let Some(name) = adjustments.name {
        dso.name = name;
    }
    dso.rules.apply_adjustments(
        VotingRulesAdjustments {
            voting_period: adjustments.voting_period,
            quorum: adjustments.quorum,
            threshold: adjustments.threshold,
            allow_end_early: adjustments.allow_end_early,
        },
    );
    dso.validate()
}

// ---------------------------------------------------------------------------------------
// Pending escrow changes and batch promotion by timeout.

/// A voter that paid less than the new escrow becomes pending again.
pub open spec fn spec_demote(e: EscrowStatus, amount: u128, proposal_id: u64) -> EscrowStatus {
    if e.status is Voting && e.paid < amount {
        EscrowStatus { paid: e.paid, status: MemberStatus::Pending { proposal_id } }
    } else {
        e
    }
}

/// Applies [`spec_demote`] to every escrow.
pub open spec fn spec_demote_all(
    escrows: Map<Seq<char>, EscrowStatus>,
    amount: u128,
    proposal_id: u64,
) -> Map<Seq<char>, EscrowStatus> {
    Map::new(|k: Seq<char>| escrows.contains_key(k), |k: Seq<char>| spec_demote(escrows[k], amount, proposal_id))
}

/// Demotes every voter whose escrow is below `amount` to pending in `proposal_id`.
fn demote_underfunded(escrows: &mut AddrMap<EscrowStatus>, amount: u128, proposal_id: u64)
    requires
        old(escrows).wf(),
    ensures
        final(escrows).wf(),
        final(escrows)@ =~= spec_demote_all(old(escrows)@, amount, proposal_id),
{
    let ghost old_entries = escrows.entries@;
    let mut i: usize = 0;
    while i < escrows.entries.len()
        invariant
            escrows.wf(),
            i <= escrows.entries@.len(),
            escrows.entries@.len() == old_entries.len(),
            forall|j: int| 0 <= j < old_entries.len() ==> #[trigger] escrows.entries@[j].0 == old_entries[j].0,
            forall|j: int| 0 <= j < i ==> #[trigger] escrows.entries@[j].1 == spec_demote(old_entries[j].1, amount, proposal_id),
            forall|j: int| i <= j < old_entries.len() ==> #[trigger] escrows.entries@[j].1 == old_entries[j].1,
        decreases old_entries.len() - i,
    {
        let e = escrows.entries[i].1;
        if matches!(e.status, MemberStatus::Voting) && e.paid < amount {
            escrows.set_value_at(
                i,
                EscrowStatus { paid: e.paid, status: MemberStatus::Pending { proposal_id } },
            );
        }
        i = i + 1;
    }
    proof {
        let ghost old_map = entries_map_of(old_entries);
        assert forall|k: Seq<char>| #[trigger] escrows@.contains_key(k) == old_map.contains_key(k) by {
            if escrows.has(k) {
                let j = escrows.index_of(k);
                assert(old_entries[j].0@ == k);
            }
            if old_map.contains_key(k) {
                let j = choose|j: int| 0 <= j < old_entries.len() && #[trigger] old_entries[j].0@ == k;
                assert(escrows.entries@[j].0@ == k);
            }
        }
        assert forall|k: Seq<char>| escrows@.contains_key(k) implies #[trigger] escrows@[k] == spec_demote(old_map[k], amount, proposal_id) by {
            let j = escrows.index_of(k);
            escrows.lemma_index(j);
            crate::addr_map::lemma_entries_index(old_entries, j);
        }
    }
}

pub open spec fn entries_map_of(s: Seq<(String, EscrowStatus)>) -> Map<Seq<char>, EscrowStatus> {
    crate::addr_map::entries_map(s)
}

/// The DSO and escrows after the pending escrow, if its grace period is over at `now`, takes
/// effect.
pub open spec fn spec_apply_pending(dso: Dso, escrows: Map<Seq<char>, EscrowStatus>, now: u64) -> (Dso, Map<Seq<char>, EscrowStatus>) {
    match dso.escrow_pending {
        Some(p) => if now >= p.grace_ends_at {
            (
                Dso { escrow_amount: p.amount, escrow_pending: None, ..dso },
                spec_demote_all(escrows, p.amount, p.proposal_id),
            )
        } else {
            (dso, escrows)
        },
        None => (dso, escrows),
    }
}

/// Applies a pending escrow whose grace period is over: it becomes the escrow amount, and
/// voters that paid less become pending members of the proposal that set it.
pub fn apply_pending_escrow(dso: &mut Dso, escrows: &mut AddrMap<EscrowStatus>, block: &BlockInfo)
    requires
        old(escrows).wf(),
    ensures
        final(escrows).wf(),
        (*final(dso), final(escrows)@) == spec_apply_pending(*old(dso), old(escrows)@, seconds_of(*block)),
{
    if let Some(pending) = dso.escrow_pending {
        if block.seconds() >= pending.grace_ends_at {
            dso.escrow_amount = pending.amount;
            dso.escrow_pending = None;
            demote_underfunded(escrows, pending.amount, pending.proposal_id);
        }
    }
}

/// A batch ready for promotion by timeout: not promoted, and its grace period ended by `now`.
pub open spec fn batch_ready(b: Batch, now: u64) -> bool {
    !b.batch_promoted && b.grace_ends_at <= now
}

/// Ids of the batches ready for promotion, in entry order.
pub open spec fn ready_ids(entries: Seq<(u64, Batch)>, now: u64) -> Seq<u64>
    decreases entries.len(),
{
    if entries.len() == 0 {
        Seq::empty()
    } else {
        let rest = ready_ids(entries.drop_last(), now);
        if batch_ready(entries.last().1, now) {
            rest.push(entries.last().0)
        } else {
            rest
        }
    }
}

/// Promotion of one batch in the bookkeeping state.
pub struct PromotionState {
    pub escrows: Map<Seq<char>, EscrowStatus>,
    pub members: Map<Seq<char>, u64>,
    pub total: int,
    pub batches: Map<u64, Batch>,
}

/// Promotes every paid member of each batch in `ids`, in turn; `None` if a member has no escrow
/// or the voting weight total would exceed `u64::MAX`.
pub open spec fn spec_promote_batches(st: PromotionState, ids: Seq<u64>) -> Option<PromotionState>
    decreases ids.len(),
{
    if ids.len() == 0 {
        Some(st)
    } else {
        match spec_promote_batches(st, ids.drop_last()) {
            None => None,
            Some(s0) => {
                let id = ids.last();
                let b = s0.batches[id];
                if !all_have_escrow(s0.escrows, addrs_of(b.members@)) {
                    None
                } else {
                    let (e1, m1, p) = promote_all(s0.escrows, s0.members, addrs_of(b.members@));
                    if s0.total + p.len() * VOTING_WEIGHT > u64::MAX {
                        None
                    } else {
                        Some(
                            PromotionState {
                                escrows: e1,
                                members: m1,
                                total: s0.total + p.len() * VOTING_WEIGHT,
                                batches: s0.batches.insert(id, Batch { batch_promoted: true, ..b }),
                            },
                        )
                    }
                }
            },
        }
    }
}

/// Members promoted together, with the batch (proposal) they belong to.
#[derive(Clone, Debug, PartialEq, Eq)]
pub struct PromotionEvent {
    pub batch: u64,
    pub members: Vec<String>,
}

/// Collects the ids of the batches that can be promoted by timeout at `now`.
fn collect_ready(batches: &IdMap<Batch>, now: u64) -> (ids: Vec<u64>)
    requires
        batches.wf(),
    ensures
        ids@ == ready_ids(batches.entries@, now),
        forall|i: int| 0 <= i < ids@.len() ==> batches@.contains_key(#[trigger] ids@[i]),
{
    let mut ids: Vec<u64> = Vec::new();
    let mut i: usize = 0;
    while i < batches.entries.len()
        invariant
            batches.wf(),
            i <= batches.entries@.len(),
            ids@ == ready_ids(batches.entries@.subrange(0, i as int), now),
            forall|j: int| 0 <= j < ids@.len() ==> batches@.contains_key(#[trigger] ids@[j]),
        decreases batches.entries@.len() - i,
    {
        proof {
            assert(batches.entries@.subrange(0, i + 1).drop_last() =~= batches.entries@.subrange(0, i as int));
            batches.lemma_index(i as int);
        }
        let b = &batches.entries[i].1;
        if !b.batch_promoted && b.grace_ends_at <= now {
            ids.push(batches.entries[i].0);
        }
        i = i + 1;
    }
    proof {
        assert(batches.entries@.subrange(0, i as int) =~= batches.entries@);
    }
    ids
}

/// Whether batch `a` is promoted before batch `b`: batches go by the end of their grace
/// period, then by id.
pub open spec fn promoted_before(batches: Map<u64, Batch>, a: u64, b: u64) -> bool {
    batches[a].grace_ends_at < batches[b].grace_ends_at
        || (batches[a].grace_ends_at == batches[b].grace_ends_at && a < b)
}

/// `s` with `x` inserted after the last id of it that is promoted before `x`.
pub open spec fn insert_by_promotion(batches: Map<u64, Batch>, s: Seq<u64>, x: u64) -> Seq<u64>
    decreases s.len(),
{
    if s.len() == 0 {
        seq![x]
    } else if promoted_before(batches, s.last(), x) {
        s.push(x)
    } else {
        insert_by_promotion(batches, s.drop_last(), x).push(s.last())
    }
}

/// The ids `s` in promotion order.
pub open spec fn by_promotion_time(batches: Map<u64, Batch>, s: Seq<u64>) -> Seq<u64>
    decreases s.len(),
{
    if s.len() == 0 {
        Seq::empty()
    } else {
        insert_by_promotion(batches, by_promotion_time(batches, s.drop_last()), s.last())
    }
}

/// The batches ready for promotion at `now`, in the order they are promoted.
pub open spec fn promotion_order(batches: IdMap<Batch>, now: u64) -> Seq<u64> {
    by_promotion_time(batches@, ready_ids(batches.entries@, now))
}

proof fn lemma_insert_at(batches: Map<u64, Batch>, s: Seq<u64>, x: u64, j: int)
    requires
        0 <= j <= s.len(),
        forall|k: int| j <= k < s.len() ==> !promoted_before(batches, #[trigger] s[k], x),
        j > 0 ==> promoted_before(batches, s[j - 1], x),
    ensures
        insert_by_promotion(batches, s, x) == s.insert(j, x),
    decreases s.len(),
{
    if s.len() == 0 {
        assert(s.insert(0, x) =~= seq![x]);
    } else if j == s.len() {
        assert(s.insert(j, x) =~= s.push(x));
    } else {
        assert(!promoted_before(batches, s[s.len() - 1], x));
        lemma_insert_at(batches, s.drop_last(), x, j);
        assert(s.insert(j, x) =~= s.drop_last().insert(j, x).push(s.last()));
    }
}

/// Puts the ids in promotion order.
fn order_by_promotion(batches: &IdMap<Batch>, ids: &Vec<u64>) -> (r: Vec<u64>)
    requires
        batches.wf(),
        forall|i: int| 0 <= i < ids@.len() ==> batches@.contains_key(#[trigger] ids@[i]),
    ensures
        r@ == by_promotion_time(batches@, ids@),
        forall|i: int| 0 <= i < r@.len() ==> batches@.contains_key(#[trigger] r@[i]),
{
    let mut out: Vec<u64> = Vec::new();
    let mut i: usize = 0;
    proof {
        assert(ids@.subrange(0, 0) =~= Seq::<u64>::empty());
    }
    while i < ids.len()
        invariant
            batches.wf(),
            forall|i: int| 0 <= i < ids@.len() ==> batches@.contains_key(#[trigger] ids@[i]),
            i <= ids@.len(),
            out@ == by_promotion_time(batches@, ids@.subrange(0, i as int)),
            forall|k: int| 0 <= k < out@.len() ==> batches@.contains_key(#[trigger] out@[k]),
        decreases ids@.len() - i,
    {
        let x = ids[i];
        let gx = batches.get(x).unwrap().grace_ends_at;
        let mut j: usize = out.len();
        while j > 0
            invariant
                batches.wf(),
                j <= out@.len(),
                batches@.contains_key(x),
                gx == batches@[x].grace_ends_at,
                forall|k: int| 0 <= k < out@.len() ==> batches@.contains_key(#[trigger] out@[k]),
                forall|k: int| j <= k < out@.len() ==> !promoted_before(batches@, #[trigger] out@[k], x),
            ensures
                j <= out@.len(),
                forall|k: int| j <= k < out@.len() ==> !promoted_before(batches@, #[trigger] out@[k], x),
                j > 0 ==> promoted_before(batches@, out@[j - 1], x),
            decreases j,
        {
            let y = out[j - 1];
            let gy = batches.get(y).unwrap().grace_ends_at;
            if gy < gx || (gy == gx && y < x) {
                break;
            }
            j = j - 1;
        }
        proof {
            lemma_insert_at(batches@, out@, x, j as int);
            assert(ids@.subrange(0, i + 1).drop_last() =~= ids@.subrange(0, i as int));
        }
        out.insert(j, x);
        i = i + 1;
    }
    proof {
        assert(ids@.subrange(0, i as int) =~= ids@);
    }
    out
}

/// The batches after those with the ids `ids` were marked promoted, in turn.
pub open spec fn mark_promoted(batches: Map<u64, Batch>, ids: Seq<u64>) -> Map<u64, Batch>
    decreases ids.len(),
{
    if ids.len() == 0 {
        batches
    } else {
        let m = mark_promoted(batches, ids.drop_last());
        m.insert(ids.last(), Batch { batch_promoted: true, ..m[ids.last()] })
    }
}

proof fn lemma_mark_keeps_members(batches: Map<u64, Batch>, ids: Seq<u64>)
    requires
        forall|i: int| 0 <= i < ids.len() ==> batches.contains_key(#[trigger] ids[i]),
    ensures
        mark_promoted(batches, ids).dom() == batches.dom(),
        forall|x: u64| #[trigger] batches.contains_key(x) ==> mark_promoted(batches, ids)[x].members
            == batches[x].members,
    decreases ids.len(),
{
    if ids.len() > 0 {
        lemma_mark_keeps_members(batches, ids.drop_last());
        let m = mark_promoted(batches, ids.drop_last());
        assert(batches.contains_key(ids[ids.len() - 1]));
        assert(m.insert(ids.last(), Batch { batch_promoted: true, ..m[ids.last()] }).dom() =~= m.dom());
    }
}

/// Marks the batches with the ids `ids` promoted.
fn mark_batches_promoted(batches: &mut IdMap<Batch>, ids: &Vec<u64>)
    requires
        old(batches).wf(),
        forall|i: int| 0 <= i < ids@.len() ==> old(batches)@.contains_key(#[trigger] ids@[i]),
    ensures
        final(batches).wf(),
        final(batches)@ == mark_promoted(old(batches)@, ids@),
{
    let ghost b0 = batches@;
    let mut k: usize = 0;
    proof {
        assert(ids@.subrange(0, 0) =~= Seq::<u64>::empty());
    }
    while k < ids.len()
        invariant
            batches.wf(),
            k <= ids@.len(),
            b0 == old(batches)@,
            forall|i: int| 0 <= i < ids@.len() ==> b0.contains_key(#[trigger] ids@[i]),
            batches@ == mark_promoted(b0, ids@.subrange(0, k as int)),
        decreases ids@.len() - k,
    {
        let id = ids[k];
        proof {
            lemma_mark_keeps_members(b0, ids@.subrange(0, k as int));
            assert(b0.contains_key(ids@[k as int]));
            assert(ids@.subrange(0, k + 1).drop_last() =~= ids@.subrange(0, k as int));
        }
        let ghost before = batches@;
        match batches.remove(id) {
            Some(mut b) => {
                b.batch_promoted = true;
                batches.insert(id, b);
                proof {
                    assert(batches@ =~= before.insert(id, Batch { batch_promoted: true, ..before[id] }));
                }
            },
            None => {
                proof {
                    assert(false);
                }
            },
        }
        k = k + 1;
    }
    proof {
        assert(ids@.subrange(0, k as int) =~= ids@);
    }
}

/// Who is promoted with the `i`-th batch of `ids`, when the batches before it were promoted.
pub open spec fn promoted_at(st: PromotionState, ids: Seq<u64>, i: int) -> Seq<Seq<char>> {
    match spec_promote_batches(st, ids.subrange(0, i)) {
        Some(s) => promote_all(s.escrows, s.members, addrs_of(s.batches[ids[i]].members@)).2,
        None => Seq::empty(),
    }
}

/// Applies a pending escrow whose grace period is over, then promotes every batch whose grace
/// period has ended and that was not promoted yet (all its paid members become voters), in
/// promotion order. On an error nothing changes.
pub fn check_pending(
    dso: &mut Dso,
    escrows: &mut AddrMap<EscrowStatus>,
    members: &mut AddrMap<u64>,
    total: &mut u64,
    batches: &mut IdMap<Batch>,
    block: &BlockInfo,
) -> (r: Result<Vec<PromotionEvent>, DsoError>)
    requires
        old(escrows).wf(),
        old(members).wf(),
        old(batches).wf(),
    ensures
        final(escrows).wf(),
        final(members).wf(),
        final(batches).wf(),
        ({
            let (d1, e1) = spec_apply_pending(*old(dso), old(escrows)@, seconds_of(*block));
            let st = PromotionState { escrows: e1, members: old(members)@, total: *old(total) as int, batches: old(batches)@ };
            let ids = promotion_order(*old(batches), seconds_of(*block));
            &&& r is Ok <==> spec_promote_batches(st, ids) is Some
            &&& r is Ok ==> {
                &&& *final(dso) == d1
                &&& spec_promote_batches(st, ids) == Some(
                    PromotionState { escrows: final(escrows)@, members: final(members)@, total: *final(total) as int, batches: final(batches)@ },
                )
                &&& r.unwrap()@.len() == ids.len()
                &&& forall|i: int| 0 <= i < ids.len() ==> (#[trigger] r.unwrap()@[i]).batch == ids[i]
                    && addrs_of(r.unwrap()@[i].members@) == promoted_at(st, ids, i)
            }
            &&& r is Err ==> {
                &&& r == Err::<Vec<PromotionEvent>, DsoError>(DsoError::Overflow)
                    || r == Err::<Vec<PromotionEvent>, DsoError>(DsoError::NotFound)
                &&& *final(dso) == *old(dso)
                &&& *final(escrows) == *old(escrows)
                &&& *final(members) == *old(members)
                &&& *final(total) == *old(total)
                &&& *final(batches) == *old(batches)
            }
        }),
{
    let mut d = dso.copy();
    let mut e = escrows.copy();
    apply_pending_escrow(&mut d, &mut e, block);
    let now = block.seconds();
    let ready = collect_ready(batches, now);
    let ids = order_by_promotion(batches, &ready);
    let mut m = members.copy();
    let mut t = *total;
    let ghost st0 = PromotionState { escrows: e@, members: m@, total: t as int, batches: batches@ };
    let mut events: Vec<PromotionEvent> = Vec::new();
    let mut k: usize = 0;
    proof {
        assert(ids@.subrange(0, 0) =~= Seq::<u64>::empty());
    }
    while k < ids.len()
        invariant
            e.wf(),
            m.wf(),
            escrows.wf(),
            members.wf(),
            batches.wf(),
            *batches == *old(batches),
            *dso == *old(dso),
            *escrows == *old(escrows),
            *members == *old(members),
            *total == *old(total),
            k <= ids@.len(),
            (d, st0.escrows) == spec_apply_pending(*old(dso), old(escrows)@, seconds_of(*block)),
            st0.members == old(members)@,
            st0.total == *old(total) as int,
            st0.batches == old(batches)@,
            ids@ == promotion_order(*old(batches), seconds_of(*block)),
            forall|i: int| 0 <= i < ids@.len() ==> st0.batches.contains_key(#[trigger] ids@[i]),
            spec_promote_batches(st0, ids@.subrange(0, k as int)) == Some(
                PromotionState { escrows: e@, members: m@, total: t as int, batches: mark_promoted(st0.batches, ids@.subrange(0, k as int)) },
            ),
            events@.len() == k,
            forall|i: int| 0 <= i < k ==> (#[trigger] events@[i]).batch == ids@[i]
                && addrs_of(events@[i].members@) == promoted_at(st0, ids@, i),
        decreases ids@.len() - k,
    {
        let id = ids[k];
        proof {
            assert(ids@.subrange(0, k + 1).drop_last() =~= ids@.subrange(0, k as int));
            assert(ids@.subrange(0, k + 1).subrange(0, k as int) =~= ids@.subrange(0, k as int));
            assert(st0.batches.contains_key(ids@[k as int]));
            assert forall|i: int| 0 <= i < k implies st0.batches.contains_key(#[trigger] ids@.subrange(0, k as int)[i]) by {
                assert(ids@.subrange(0, k as int)[i] == ids@[i]);
            }
            lemma_mark_keeps_members(st0.batches, ids@.subrange(0, k as int));
        }
        let b = batches.get(id).unwrap();
        let ghost e_before = e@;
        let ghost m_before = m@;
        let ghost t_before = t;
        match promote_paid_members(&mut e, &mut m, &mut t, &b.members) {
            Err(err) => {
                proof {
                    assert(spec_promote_batches(st0, ids@.subrange(0, k + 1)) is None);
                    lemma_promote_batches_none_sticks(st0, ids@, (k + 1) as int);
                    assert(ids@.subrange(0, ids@.len() as int) =~= ids@);
                }
                return Err(err);
            },
            Ok(promoted) => {
                let ghost before = events@;
                events.push(PromotionEvent { batch: id, members: promoted });
                proof {
                    assert(promoted_at(st0, ids@, k as int) == addrs_of(events@[k as int].members@));
                    assert forall|i: int| 0 <= i < k + 1 implies (#[trigger] events@[i]).batch == ids@[i]
                        && addrs_of(events@[i].members@) == promoted_at(st0, ids@, i) by {
                        if i < k {
                            assert(events@[i] == before[i]);
                        }
                    }
                }
            },
        }
        k = k + 1;
    }
    proof {
        assert(ids@.subrange(0, k as int) =~= ids@);
    }
    mark_batches_promoted(batches, &ids);
    *dso = d;
    *escrows = e;
    *members = m;
    *total = t;
    Ok(events)
}

proof fn lemma_promote_batches_none_sticks(st: PromotionState, ids: Seq<u64>, k: int)
    requires
        0 <= k <= ids.len(),
        spec_promote_batches(st, ids.subrange(0, k)) is None,
    ensures
        spec_promote_batches(st, ids) is None,
    decreases ids.len() - k,
{
    if k < ids.len() {
        assert(ids.subrange(0, k + 1).drop_last() =~= ids.subrange(0, k));
        lemma_promote_batches_none_sticks(st, ids, k + 1);
    } else {
        assert(ids.subrange(0, k) =~= ids);
    }
}

// ---------------------------------------------------------------------------------------
// Proposals.

/// Under rules that [`validate_rules`] accepts, an early pass is final: later votes (more of
/// each kind, within the total weight) leave the proposal passed, before expiry and at expiry.
pub proof fn law_valid_rules_early_pass_final(
    rules: VotingRules,
    votes: Votes,
    later: Votes,
    total_weight: u64,
    expired: bool,
)
    requires
        spec_rules_error(rules) is None,
        crate::voting::spec_is_passed(rules, votes, total_weight, false),
        votes.yes <= later.yes,
        votes.no <= later.no,
        votes.abstain <= later.abstain,
        votes.veto <= later.veto,
        crate::voting::spec_total(later) <= total_weight,
    ensures
        crate::voting::spec_is_passed(rules, later, total_weight, expired),
{
    let z = (total_weight - votes.abstain) as u64;
    lemma_votes_needed_defined(z, rules.threshold);
    let a = crate::voting::spec_applied(z, rules.threshold);
    let p = crate::voting::PRECISION_FACTOR as int;
    assert((a + p - 1) / p <= z) by (nonlinear_arith)
        requires 0 <= a <= p * z, p > 0, z >= 0;
    crate::voting::law_early_pass_stays_passed(rules, votes, later, total_weight, expired);
}

/// Rules validated by [`validate_rules`] keep every percentage at most one.
pub proof fn lemma_valid_rules_defined(rules: VotingRules, votes: Votes, total_weight: u64, expired: bool)
    requires
        spec_rules_error(rules) is None,
        crate::voting::spec_total(votes) <= u64::MAX,
        votes.abstain <= total_weight,
    ensures
        crate::voting::is_passed_defined(rules, votes, total_weight, expired),
{
    lemma_votes_needed_defined(total_weight, rules.quorum);
    lemma_votes_needed_defined(
        (crate::voting::spec_total(votes) - votes.abstain) as u64,
        rules.threshold,
    );
    lemma_votes_needed_defined((total_weight - votes.abstain) as u64, rules.threshold);
}

/// The proposal a voter creates: voting starts now and lasts the voting period, with the
/// proposer's yes vote and the current total weight.
pub open spec fn spec_new_proposal(
    title: String,
    description: String,
    content: ProposalContent,
    block: BlockInfo,
    rules: VotingRules,
    total: u64,
    vote_power: u64,
) -> Proposal<ProposalContent> {
    let p = Proposal {
        title,
        description,
        start_height: block.height,
        expires: Expiration::AtTime(
            (block.time + rules.voting_period * SECONDS_PER_DAY * 1_000_000_000) as u64,
        ),
        proposal: content,
        status: Status::Open,
        votes: Votes { yes: vote_power, no: 0, abstain: 0, veto: 0 },
        rules,
        total_weight: total,
    };
    Proposal { status: p.spec_status(block), ..p }
}

/// A created proposal with the proposer's ballot and the promotions done first.
pub struct ProposeResult {
    pub proposal: Proposal<ProposalContent>,
    pub ballot: Ballot,
    pub promotions: Vec<PromotionEvent>,
}

/// A voting member creates a proposal. Pending changes are brought up to date first (as of the
/// previous block, so members promoted now vote on it), then the proposal is created with the
/// proposer's yes vote.
pub fn execute_propose(
    dso: &mut Dso,
    escrows: &mut AddrMap<EscrowStatus>,
    members: &mut AddrMap<u64>,
    total: &mut u64,
    batches: &mut IdMap<Batch>,
    block: &BlockInfo,
    sender: &String,
    title: String,
    description: String,
    content: ProposalContent,
    funds: &Vec<Coin>,
) -> (r: Result<ProposeResult, DsoError>)
    requires
        old(escrows).wf(),
        old(members).wf(),
        old(batches).wf(),
        block.height >= 1,
        spec_rules_error(old(dso).rules) is None,
        block.time + old(dso).rules.voting_period * SECONDS_PER_DAY * 1_000_000_000 <= u64::MAX,
    ensures
        final(escrows).wf(),
        final(members).wf(),
        final(batches).wf(),
        funds@.len() != 0 ==> r matches Err(DsoError::Payment(PaymentError::NonPayable)),
        funds@.len() == 0 && !(old(members)@.contains_key(sender@) && old(members)@[sender@] > 0) ==> r
            matches Err(DsoError::Unauthorized),
        r is Err ==> *final(dso) == *old(dso) && *final(escrows) == *old(escrows) && *final(members) == *old(members)
            && *final(total) == *old(total) && *final(batches) == *old(batches),
        funds@.len() == 0 && old(members)@.contains_key(sender@) && old(members)@[sender@] > 0 ==> ({
            let last = BlockInfo { height: (block.height - 1) as u64, time: block.time };
            let (d1, e1) = spec_apply_pending(*old(dso), old(escrows)@, seconds_of(last));
            let st = PromotionState { escrows: e1, members: old(members)@, total: *old(total) as int, batches: old(batches)@ };
            &&& r is Ok <==> spec_promote_batches(st, promotion_order(*old(batches), seconds_of(last))) is Some
            &&& r is Err ==> r == Err::<ProposeResult, DsoError>(DsoError::Overflow)
                || r == Err::<ProposeResult, DsoError>(DsoError::NotFound)
        }),
        r matches Ok(res) ==> ({
            let vote_power = old(members)@[sender@];
            let last = BlockInfo { height: (block.height - 1) as u64, time: block.time };
            let (d1, e1) = spec_apply_pending(*old(dso), old(escrows)@, seconds_of(last));
            let st = PromotionState { escrows: e1, members: old(members)@, total: *old(total) as int, batches: old(batches)@ };
            &&& spec_promote_batches(st, promotion_order(*old(batches), seconds_of(last))) == Some(
                PromotionState { escrows: final(escrows)@, members: final(members)@, total: *final(total) as int, batches: final(batches)@ },
            )
            &&& *final(dso) == d1
            &&& res.proposal == spec_new_proposal(title, description, content, *block, old(dso).rules, *final(total), vote_power)
            &&& res.ballot == (Ballot { weight: vote_power, vote: Vote::Yes })
        }),
{
    if let Err(e) = nonpayable(funds) {
        return Err(DsoError::Payment(e));
    }
    // only voting members can create a proposal
    let vote_power = match members.get(sender) {
        Some(w) => w,
        None => 0,
    };
    if vote_power == 0 {
        return Err(DsoError::Unauthorized);
    }
    // Check pending at the end of the last block, so that promoted members are included in
    // the voters of this proposal
    let last_block = BlockInfo { height: block.height - 1, time: block.time };
    let promotions = match check_pending(dso, escrows, members, total, batches, &last_block) {
        Ok(p) => p,
        Err(e) => return Err(e),
    };
    let rules = dso.rules;
    let mut prop = Proposal {
        title,
        description,
        start_height: block.height,
        expires: Expiration::AtTime(block.time + rules.voting_period_secs() * 1_000_000_000),
        proposal: content,
        status: Status::Open,
        votes: Votes::yes(vote_power),
        total_weight: *total,
        rules,
    };
    proof {
        lemma_valid_rules_defined(rules, prop.votes, prop.total_weight, spec_is_expired(prop.expires, *block));
    }
    prop.update_status(block);
    // add the first yes vote from voter
    let ballot = Ballot { weight: vote_power, vote: Vote::Yes };
    Ok(ProposeResult { proposal: prop, ballot, promotions })
}

/// Executes a passed proposal's content (after it was marked executed).
pub fn proposal_execute(
    dso: &mut Dso,
    members: &mut AddrMap<u64>,
    escrows: &mut AddrMap<EscrowStatus>,
    batches: &mut IdMap<Batch>,
    block: &BlockInfo,
    proposal_id: u64,
    content: ProposalContent,
) -> (r: Result<(), DsoError>)
    requires
        old(members).wf(),
        old(escrows).wf(),
        old(batches).wf(),
        block.time + old(dso).rules.voting_period * SECONDS_PER_DAY * 1_000_000_000 <= u64::MAX,
    ensures
        r is Err ==> *final(dso) == *old(dso) && *final(members) == *old(members) && *final(escrows) == *old(escrows)
            && *final(batches) == *old(batches),
        final(members).wf(),
        final(escrows).wf(),
        final(batches).wf(),
        match content {
            ProposalContent::AddRemoveNonVotingMembers { remove, add } => {
                let (m1, e1) = spec_add_non_voting(old(members)@, old(escrows)@, addrs_of(add@));
                &&& *final(dso) == *old(dso)
                &&& final(batches)@ == old(batches)@
                &&& match spec_remove_non_voting(m1, e1, addrs_of(remove@)) {
                    Ok((m2, e2)) => r is Ok && final(members)@ == m2 && final(escrows)@ == e2,
                    Err(a) => r matches Err(DsoError::VotingMember(s)) && s@ == a,
                }
            },
            ProposalContent::EditDso(adjustments) => {
                &&& final(members)@ == old(members)@
                &&& final(escrows)@ == old(escrows)@
                &&& final(batches)@ == old(batches)@
                &&& (adjustments.escrow_amount is None || (old(dso).escrow_pending is None
                    && adjustments.escrow_amount.unwrap() >= MIN_ESCROW)) ==> {
                    let d = spec_edit_dso(*old(dso), *block, proposal_id, adjustments);
                    match spec_dso_error(name_bytes(d.name), d.escrow_amount, d.rules) {
                        Some(e) => r == Err::<(), DsoError>(e),
                        None => r is Ok && *final(dso) == d,
                    }
                }
                &&& (adjustments.escrow_amount is Some && !(old(dso).escrow_pending is None
                    && adjustments.escrow_amount.unwrap() >= MIN_ESCROW)) ==> r is Err
            },
            ProposalContent::AddVotingMembers { voters } => {
                &&& *final(dso) == *old(dso)
                &&& old(batches)@.contains_key(proposal_id) ==> r == Err::<(), DsoError>(
                    DsoError::AlreadyUsedProposal(proposal_id),
                )
                &&& !old(batches)@.contains_key(proposal_id) ==> {
                    let (m1, e1) = spec_add_pending(old(members)@, old(escrows)@, addrs_of(voters@), proposal_id);
                    &&& r is Ok
                    &&& final(batches)@.contains_key(proposal_id)
                    &&& final(batches)@[proposal_id].members@ == voters@
                    &&& final(members)@ == m1
                    &&& final(escrows)@ == e1
                }
            },
        },
{
    match content {
        ProposalContent::AddRemoveNonVotingMembers { add, remove } => {
            add_remove_non_voting_members(members, escrows, &add, &remove)
        },
        ProposalContent::EditDso(adjustments) => {
            proof {
                assert(seconds_of(*block) + dso.rules.voting_period * SECONDS_PER_DAY <= u64::MAX)
                    by (nonlinear_arith)
                    requires
                        block.time + dso.rules.voting_period * SECONDS_PER_DAY * 1_000_000_000 <= u64::MAX,
                        seconds_of(*block) == block.time / 1_000_000_000;
            }
            proposal_edit_dso(dso, block, proposal_id, adjustments)
        },
        ProposalContent::AddVotingMembers { voters } => {
            let rules = dso.rules;
            proposal_add_voting_members(batches, members, escrows, &rules, block, proposal_id, &voters)
        },
    }
}

/// The DSO right after instantiation.
pub struct DsoInstance {
    pub dso: Dso,
    pub escrows: AddrMap<EscrowStatus>,
    pub members: AddrMap<u64>,
    pub total: u64,
}

/// Creates a DSO: the creator pays at least the escrow in `utgd` and becomes its first voting
/// member; the initial members join as non-voting members.
pub fn instantiate(
    name: String,
    escrow_amount: u128,
    voting_period: u32,
    quorum: Decimal,
    threshold: Decimal,
    allow_end_early: bool,
    initial_members: &Vec<String>,
    sender: &String,
    funds: &Vec<Coin>,
) -> (r: Result<DsoInstance, DsoError>)
    ensures
        ({
            let rules = VotingRules { voting_period, quorum, threshold, allow_end_early };
            let dso = Dso { name, escrow_amount, escrow_pending: None, rules };
            match spec_dso_error(name_bytes(name), escrow_amount, rules) {
                Some(e) => r == Err::<DsoInstance, DsoError>(e),
                None => match spec_must_pay(funds@, DSO_DENOM@) {
                    None => (r matches Err(DsoError::Payment(pe)) && payment_error_is(pe, funds@, DSO_DENOM@)),
                    Some(amount) => if amount < escrow_amount {
                        r == Err::<DsoInstance, DsoError>(DsoError::InsufficientFunds(amount))
                    } else {
                        let e0 = Map::<Seq<char>, EscrowStatus>::empty().insert(
                            sender@,
                            EscrowStatus { paid: amount, status: MemberStatus::Voting },
                        );
                        let m0 = Map::<Seq<char>, u64>::empty().insert(sender@, VOTING_WEIGHT);
                        let (m1, e1) = spec_add_non_voting(m0, e0, addrs_of(initial_members@));
                        r matches Ok(inst) && inst.dso == dso && inst.total == VOTING_WEIGHT
                            && inst.members@ == m1 && inst.escrows@ == e1 && inst.members.wf()
                            && inst.escrows.wf()
                    },
                },
            }
        }),
{
    let dso = Dso {
        name,
        escrow_amount,
        escrow_pending: None,
        rules: VotingRules { voting_period, quorum, threshold, allow_end_early },
    };
    if let Err(e) = dso.validate() {
        return Err(e);
    }
    let denom = DSO_DENOM.to_string();
    let amount = match must_pay(funds, &denom) {
        Ok(a) => a,
        Err(e) => return Err(DsoError::Payment(e)),
    };
    if amount < dso.get_escrow() {
        return Err(DsoError::InsufficientFunds(amount));
    }
    let mut escrows: AddrMap<EscrowStatus> = AddrMap::new();
    escrows.insert(sender.clone(), EscrowStatus { paid: amount, status: MemberStatus::Voting });
    let mut members: AddrMap<u64> = AddrMap::new();
    members.insert(sender.clone(), VOTING_WEIGHT);
    let no_removals: Vec<String> = Vec::new();
    match add_remove_non_voting_members(&mut members, &mut escrows, initial_members, &no_removals) {
        Ok(()) => {},
        Err(e) => {
            proof {
                assert(false);
            }
            return Err(e);
        },
    }
    Ok(DsoInstance { dso, escrows, members, total: VOTING_WEIGHT })
}

// ---------------------------------------------------------------------------------------
// Laws.

proof fn lemma_add_non_voting_dom(
    members: Map<Seq<char>, u64>,
    escrows: Map<Seq<char>, EscrowStatus>,
    adds: Seq<Seq<char>>,
)
    requires
        members.dom() == escrows.dom(),
    ensures
        ({
            let (m, e) = spec_add_non_voting(members, escrows, adds);
            &&& m.dom() == e.dom()
            &&& forall|i: int| 0 <= i < adds.len() ==> m.contains_key(#[trigger] adds[i])
            &&& forall|k: Seq<char>| members.contains_key(k) ==> #[trigger] m.contains_key(k)
        }),
    decreases adds.len(),
{
    if adds.len() > 0 {
        let prefix = adds.drop_last();
        lemma_add_non_voting_dom(members, escrows, prefix);
        let (m, e) = spec_add_non_voting(members, escrows, prefix);
        let a = adds.last();
        if !m.contains_key(a) {
            assert(m.insert(a, 0).dom() =~= e.insert(a, EscrowStatus { paid: 0, status: MemberStatus::NonVoting }).dom());
        }
        let (m1, e1) = spec_add_non_voting(members, escrows, adds);
        assert forall|i: int| 0 <= i < adds.len() implies m1.contains_key(#[trigger] adds[i]) by {
            if i < adds.len() - 1 {
                assert(prefix[i] == adds[i]);
            }
        }
    }
}

proof fn lemma_remove_non_voting_gone(
    members: Map<Seq<char>, u64>,
    escrows: Map<Seq<char>, EscrowStatus>,
    removes: Seq<Seq<char>>,
)
    requires
        members.dom() == escrows.dom(),
        spec_remove_non_voting(members, escrows, removes) is Ok,
    ensures
        ({
            let (m, e) = spec_remove_non_voting(members, escrows, removes)->Ok_0;
            &&& m.dom() == e.dom()
            &&& forall|i: int| 0 <= i < removes.len() ==> !m.contains_key(#[trigger] removes[i])
        }),
    decreases removes.len(),
{
    if removes.len() > 0 {
        let prefix = removes.drop_last();
        lemma_remove_non_voting_gone(members, escrows, prefix);
        let (m, e) = spec_remove_non_voting(members, escrows, prefix)->Ok_0;
        let a = removes.last();
        if e.contains_key(a) && e[a].status is NonVoting {
            assert(m.remove(a).dom() =~= e.remove(a).dom());
        }
        let (m1, e1) = spec_remove_non_voting(members, escrows, removes)->Ok_0;
        assert forall|i: int| 0 <= i < removes.len() implies !m1.contains_key(#[trigger] removes[i]) by {
            if i < removes.len() - 1 {
                assert(prefix[i] == removes[i]);
            }
        }
    }
}

/// Remove is applied after add: when non-voting members are added and removed in one
/// proposal and the change succeeds, an address in both lists is not a member afterwards
/// (members and escrows cover the same addresses, as the DSO keeps them).
pub proof fn law_remove_applies_after_add(
    members: Map<Seq<char>, u64>,
    escrows: Map<Seq<char>, EscrowStatus>,
    add: Seq<Seq<char>>,
    remove: Seq<Seq<char>>,
    a: Seq<char>,
)
    requires
        members.dom() == escrows.dom(),
        add.contains(a),
        remove.contains(a),
        ({
            let (m1, e1) = spec_add_non_voting(members, escrows, add);
            spec_remove_non_voting(m1, e1, remove) is Ok
        }),
    ensures
        ({
            let (m1, e1) = spec_add_non_voting(members, escrows, add);
            let (m2, e2) = spec_remove_non_voting(m1, e1, remove)->Ok_0;
            !m2.contains_key(a) && !e2.contains_key(a)
        }),
{
    lemma_add_non_voting_dom(members, escrows, add);
    let (m1, e1) = spec_add_non_voting(members, escrows, add);
    lemma_remove_non_voting_gone(m1, e1, remove);
    let j = choose|j: int| 0 <= j < remove.len() && remove[j] == a;
    assert(remove[j] == a);
}

/// A voter never takes its escrow below the required amount: after a successful return of a
/// positive refund, a voter's paid escrow equals the required escrow exactly.
pub proof fn law_voter_keeps_required_escrow(e: EscrowStatus, required: u128, now: u64)
    requires
        e.status is Voting,
        spec_refund(e, required, now) is Ok,
    ensures
        e.paid - spec_refund(e, required, now).unwrap() == required,
{
}

/// Up to `limit` (10 unless given, at most 30) voting members after `start_after`, by address.
pub fn list_voting_members(members: &AddrMap<u64>, start_after: &Option<String>, limit: Option<u32>) -> (r: Vec<(String, u64)>)
    requires
        members.wf(),
    ensures
        is_page(with_weight(members@, VOTING_WEIGHT), opt_view(*start_after), spec_page_limit(limit, 10, 30) as int, r@),
{
    let voting = members_with_weight(members, VOTING_WEIGHT);
    let l = page_limit(limit, 10, 30);
    page_after(&voting, start_after, l as usize)
}

/// Up to `limit` (10 unless given, at most 30) non-voting members (weight zero) after
/// `start_after`, by address.
pub fn list_non_voting_members(members: &AddrMap<u64>, start_after: &Option<String>, limit: Option<u32>) -> (r: Vec<(String, u64)>)
    requires
        members.wf(),
    ensures
        is_page(with_weight(members@, 0), opt_view(*start_after), spec_page_limit(limit, 10, 30) as int, r@),
{
    let non_voting = members_with_weight(members, 0);
    let l = page_limit(limit, 10, 30);
    page_after(&non_voting, start_after, l as usize)
}

/// Up to `limit` (10 unless given, at most 30) escrows after `start_after`, by address.
pub fn list_escrows(escrows: &AddrMap<EscrowStatus>, start_after: &Option<String>, limit: Option<u32>) -> (r: Vec<(String, EscrowStatus)>)
    requires
        escrows.wf(),
    ensures
        is_page(escrows@, opt_view(*start_after), spec_page_limit(limit, 10, 30) as int, r@),
{
    let l = page_limit(limit, 10, 30);
    page_after(escrows, start_after, l as usize)
}

/// The escrow of `addr`, if it has one.
pub fn query_escrow(escrows: &AddrMap<EscrowStatus>, addr: &String) -> (r: Option<EscrowStatus>)
    requires
        escrows.wf(),
    ensures
        r == escrows@.get(addr@),
{
    escrows.get(addr)
}

/// A point in time (nanoseconds) at which something becomes ready.
#[derive(Clone, Copy, Debug, PartialEq, Eq, Structural)]
pub struct ReadyAt(pub u64);

impl ReadyAt {
    /// Whether `block` is at or after the point.
    pub fn is_ready(&self, block: &BlockInfo) -> (b: bool)
        ensures
            b == (block.time >= self.0),
    {
        block.time >= self.0
    }

    /// The point in nanoseconds.
    pub fn nanos(&self) -> (n: u64)
        ensures
            n == self.0,
    {
        self.0
    }
}

/// Up to `limit` (10 unless given, at most 30) ballots on a proposal after voter `start_after`,
/// by voter; `ballots` are the ballots cast on that proposal.
pub fn list_votes_by_proposal(ballots: &AddrMap<Ballot>, start_after: &Option<String>, limit: Option<u32>) -> (r: Vec<(String, Ballot)>)
    requires
        ballots.wf(),
    ensures
        is_page(ballots@, opt_view(*start_after), spec_page_limit(limit, 10, 30) as int, r@),
{
    let l = page_limit(limit, 10, 30);
    page_after(ballots, start_after, l as usize)
}

/// Up to `limit` (10 unless given, at most 30) ballots of one voter, by decreasing proposal id,
/// on proposals before `start_before`; `ballots` maps proposal ids to that voter's ballots.
pub fn list_votes_by_voter(ballots: &IdMap<Ballot>, start_before: Option<u64>, limit: Option<u32>) -> (r: Vec<(u64, Ballot)>)
    requires
        ballots.wf(),
    ensures
        r@.len() <= spec_page_limit(limit, 10, 30),
        forall|i: int| 0 <= i < r@.len() ==> {
            &&& ballots.view().contains_key(#[trigger] r@[i].0)
            &&& r@[i].1 == ballots.view()[r@[i].0]
            &&& id_in_range(start_before, true, r@[i].0)
        },
        forall|i: int, j: int| 0 <= i < j < r@.len() ==> #[trigger] r@[i].0 > #[trigger] r@[j].0,
        forall|k: u64| #[trigger] ballots.view().contains_key(k) && id_in_range(start_before, true, k)
            && (r@.len() < spec_page_limit(limit, 10, 30) || (r@.len() > 0 && k >= r@.last().0))
            ==> exists|i: int| 0 <= i < r@.len() && r@[i].0 == k,
{
    let l = page_limit(limit, 10, 30) as usize;
    let mut out: Vec<(u64, Ballot)> = Vec::new();
    let mut found: Option<u64> = match start_before {
        None => if ballots.contains(u64::MAX) { Some(u64::MAX) } else { ballots.largest_key_below(u64::MAX) },
        Some(s) => ballots.largest_key_below(s),
    };
    while out.len() < l && found.is_some()
        invariant
            ballots.wf(),
            out@.len() <= l,
            l == spec_page_limit(limit, 10, 30),
            found matches Some(f) ==> ballots.view().contains_key(f) && id_in_range(start_before, true, f),
            forall|i: int| 0 <= i < out@.len() ==> {
                &&& ballots.view().contains_key(#[trigger] out@[i].0)
                &&& out@[i].1 == ballots.view()[out@[i].0]
                &&& id_in_range(start_before, true, out@[i].0)
                &&& found matches Some(f) ==> out@[i].0 > f
            },
            forall|i: int, j: int| 0 <= i < j < out@.len() ==> #[trigger] out@[i].0 > #[trigger] out@[j].0,
            forall|k: u64| #[trigger] ballots.view().contains_key(k) && id_in_range(start_before, true, k)
                && (match found { Some(f) => k > f, None => true })
                ==> exists|i: int| 0 <= i < out@.len() && out@[i].0 == k,
        decreases (if found is Some { 1int } else { 0int }), (match found { Some(f) => f as int, None => 0int }),
    {
        let k = match found { Some(k) => k, None => 0 };
        let b = *ballots.get(k).unwrap();
        let ghost before = out@;
        out.push((k, b));
        found = ballots.largest_key_below(k);
        proof {
            assert(out@[before.len() as int] == (k, b));
            assert forall|i: int| 0 <= i < before.len() implies out@[i] == before[i] by {}
        }
    }
    out
}

/// The escrow a member must hold is the larger of the current escrow and the pending one: it
/// is at least each of them, and is one of them.
pub proof fn law_required_escrow_is_the_larger(dso: Dso)
    ensures
        spec_get_escrow(dso) >= dso.escrow_amount,
        dso.escrow_pending matches Some(p) ==> spec_get_escrow(dso) >= p.amount,
        spec_get_escrow(dso) == dso.escrow_amount || (dso.escrow_pending matches Some(p) && spec_get_escrow(dso) == p.amount),
{
}

/// A pending member's deposit makes it paid exactly when what it has paid in covers both the
/// current escrow and a pending one.
pub proof fn law_deposit_pays_when_both_escrows_covered(e: EscrowStatus, amount: u128, dso: Dso)
    requires
        e.status is Pending,
        e.paid + amount <= u128::MAX,
    ensures
        spec_deposit(e, amount, spec_get_escrow(dso)).status is PendingPaid <==> (e.paid + amount >= dso.escrow_amount
            && (dso.escrow_pending matches Some(p) ==> e.paid + amount >= p.amount)),
        spec_deposit(e, amount, spec_get_escrow(dso)).paid == e.paid + amount,
{
}

} // verus!
