//! Engagement points: how often their half-life is applied.
use crate::common::NANOS_PER_SECOND;
use vstd::prelude::*;

verus! {

/// How many pre-authorizations are left.
#[derive(Clone, Copy, Debug, PartialEq, Eq, Structural)]
pub struct PreauthResponse {
    pub preauths: u64,
}

/// The half-life of engagement points: every `halflife` seconds (never when `None`) the points
/// are halved; `last_applied` is when that last happened (nanoseconds).
#[derive(Clone, Copy, Debug, PartialEq, Eq, Structural)]
pub struct Halflife {
    pub halflife: Option<u64>,
    pub last_applied: u64,
}

/// Whether the half-life is due at time `t` (nanoseconds): a full half-life has passed since it
/// was last applied.
pub open spec fn spec_should_apply(h: Halflife, t: u64) -> bool {
    match h.halflife {
        Some(secs) => t >= h.last_applied + secs * NANOS_PER_SECOND,
        None => false,
    }
}

impl Halflife {
    /// Whether a half-life can be computed from this one: the next application time fits.
    pub open spec fn next_fits(&self) -> bool {
        self.halflife matches Some(h) ==> self.last_applied + h * NANOS_PER_SECOND <= u64::MAX
    }

    /// Whether the half-life is due at time `t` (nanoseconds): a full half-life has passed
    /// since it was last applied.
    pub fn should_apply(&self, t: u64) -> (b: bool)
        requires
            self.next_fits(),
        ensures
            b == spec_should_apply(*self, t),
    {
        match self.halflife {
            Some(h) => t >= self.last_applied + h * NANOS_PER_SECOND,
            None => false,
        }
    }
}

/// Once due, the half-life stays due until it is applied.
pub proof fn law_halflife_stays_due(h: Halflife, t: u64, later: u64)
    requires
        spec_should_apply(h, t),
        t <= later,
    ensures
        spec_should_apply(h, later),
{
}

} // verus!
