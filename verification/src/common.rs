//! Plain-value models of the chain primitives that the contracts reason about:
//! fixed-point decimals, block info, expirations, votes and proposal status.
use vstd::prelude::*;

verus! {

/// One whole unit of a [`Decimal`], in atomics (18 decimal places).
pub const DECIMAL_FRACTIONAL: u128 = 1_000_000_000_000_000_000u128;

/// Nanoseconds in one second.
pub const NANOS_PER_SECOND: u64 = 1_000_000_000u64;

/// A fixed-point decimal with 18 fractional digits: the value is `atomics / 10^18`.
#[derive(Clone, Copy, Debug, PartialEq, Eq, Structural)]
pub struct Decimal {
    pub atomics: u128,
}

/// `floor(x * d / 10^18)`, the product of an integer amount and a decimal, rounded down.
pub open spec fn spec_mul_floor(d: Decimal, x: u128) -> int {
    (x as int * d.atomics as int) / (DECIMAL_FRACTIONAL as int)
}

proof fn lemma_mul_floor_split(xq: int, xr: int, aq: int, ar: int, f: int)
    requires
        f > 0,
        0 <= xr < f,
        0 <= ar < f,
        xq >= 0,
        aq >= 0,
    ensures
        ((xq * f + xr) * (aq * f + ar)) / f == xq * aq * f + xq * ar + xr * aq + (xr * ar) / f,
        xq * aq * f >= 0,
        xq * ar >= 0,
        xr * aq >= 0,
        xr * ar >= 0,
{
    assert((xq * f + xr) * (aq * f + ar) == (xq * aq * f + xq * ar + xr * aq) * f + xr * ar)
        by (nonlinear_arith);
    assert(xq * aq * f >= 0 && xq * ar >= 0 && xr * aq >= 0 && xr * ar >= 0) by (nonlinear_arith)
        requires xq >= 0, aq >= 0, xr >= 0, ar >= 0, f > 0;
    let k = xq * aq * f + xq * ar + xr * aq;
    assert((k * f + xr * ar) / f == k + (xr * ar) / f) by (nonlinear_arith)
        requires f > 0, xr * ar >= 0;
}

impl Decimal {
    /// `x` percent.
    pub fn percent(x: u64) -> (d: Decimal)
        ensures
            d.atomics == x as int * 10_000_000_000_000_000,
    {
        Decimal { atomics: x as u128 * 10_000_000_000_000_000u128 }
    }

    /// `x` per mille.
    pub fn permille(x: u64) -> (d: Decimal)
        ensures
            d.atomics == x as int * 1_000_000_000_000_000,
    {
        Decimal { atomics: x as u128 * 1_000_000_000_000_000u128 }
    }

    /// The decimal one.
    pub fn one() -> (d: Decimal)
        ensures
            d.atomics == DECIMAL_FRACTIONAL,
    {
        Decimal { atomics: DECIMAL_FRACTIONAL }
    }

    /// The decimal zero.
    pub fn zero() -> (d: Decimal)
        ensures
            d.atomics == 0,
    {
        Decimal { atomics: 0 }
    }

    pub fn is_zero(&self) -> (b: bool)
        ensures
            b == (self.atomics == 0),
    {
        self.atomics == 0
    }

    /// `floor(x * self)`, or `None` where the product does not fit in 128 bits.
    pub fn checked_mul_floor(&self, x: u128) -> (r: Option<u128>)
        ensures
            r matches Some(v) ==> v == spec_mul_floor(*self, x),
            r is None <==> spec_mul_floor(*self, x) > u128::MAX,
    {
        let f = DECIMAL_FRACTIONAL;
        let xq = x / f;
        let xr = x % f;
        let aq = self.atomics / f;
        let ar = self.atomics % f;
        proof {
            lemma_mul_floor_split(xq as int, xr as int, aq as int, ar as int, f as int);
            assert(xq as int * f as int + xr as int == x as int);
            assert(aq as int * f as int + ar as int == self.atomics as int);
            assert(xr * ar < f * f) by (nonlinear_arith)
                requires xr < f, ar < f, xr >= 0, ar >= 0;
        }
        let low: u128 = (xr * ar) / f;
        let t1 = match xq.checked_mul(aq) {
            Some(v) => v,
            None => {
                proof {
                    assert(xq * aq * f >= xq * aq) by (nonlinear_arith) requires xq >= 0, aq >= 0, f > 0;
                }
                return None;
            },
        };
        let t1 = match t1.checked_mul(f) {
            Some(v) => v,
            None => return None,
        };
        let t2 = match xq.checked_mul(ar) {
            Some(v) => v,
            None => return None,
        };
        let t3 = match xr.checked_mul(aq) {
            Some(v) => v,
            None => return None,
        };
        let s = match t1.checked_add(t2) {
            Some(v) => v,
            None => return None,
        };
        let s = match s.checked_add(t3) {
            Some(v) => v,
            None => return None,
        };
        s.checked_add(low)
    }
}

/// Height and time of a block; time in nanoseconds since the epoch.
#[derive(Clone, Copy, Debug, PartialEq, Eq, Structural)]
pub struct BlockInfo {
    pub height: u64,
    pub time: u64,
}

impl BlockInfo {
    /// Block time in whole seconds.
    pub fn seconds(&self) -> (s: u64)
        ensures
            s == self.time / NANOS_PER_SECOND,
    {
        self.time / NANOS_PER_SECOND
    }
}

/// When something expires: at a block height, at a time (nanoseconds), or never.
#[derive(Clone, Copy, Debug, PartialEq, Eq, Structural)]
pub enum Expiration {
    AtHeight(u64),
    AtTime(u64),
    Never,
}

pub open spec fn spec_is_expired(e: Expiration, block: BlockInfo) -> bool {
    match e {
        Expiration::AtHeight(h) => block.height >= h,
        Expiration::AtTime(t) => block.time >= t,
        Expiration::Never => false,
    }
}

impl Expiration {
    /// True once the block has reached the expiration point (inclusive).
    pub fn is_expired(&self, block: &BlockInfo) -> (b: bool)
        ensures
            b == spec_is_expired(*self, *block),
    {
        match self {
            Expiration::AtHeight(h) => block.height >= *h,
            Expiration::AtTime(t) => block.time >= *t,
            Expiration::Never => false,
        }
    }
}

/// A length of time, in blocks or in seconds.
#[derive(Clone, Copy, Debug, PartialEq, Eq, Structural)]
pub enum Duration {
    Height(u64),
    Time(u64),
}

pub open spec fn spec_duration_after(d: Duration, block: BlockInfo) -> Expiration {
    match d {
        Duration::Height(h) => Expiration::AtHeight((block.height + h) as u64),
        Duration::Time(s) => Expiration::AtTime((block.time + s * NANOS_PER_SECOND) as u64),
    }
}

impl Duration {
    /// The expiration this duration after the given block.
    pub fn after(&self, block: &BlockInfo) -> (e: Expiration)
        requires
            match *self {
                Duration::Height(h) => block.height + h <= u64::MAX,
                Duration::Time(s) => block.time + s * NANOS_PER_SECOND <= u64::MAX,
            },
        ensures
            e == spec_duration_after(*self, *block),
    {
        match self {
            Duration::Height(h) => Expiration::AtHeight(block.height + *h),
            Duration::Time(s) => Expiration::AtTime(block.time + *s * NANOS_PER_SECOND),
        }
    }
}

/// A ballot option.
#[derive(Clone, Copy, Debug, PartialEq, Eq, Structural)]
pub enum Vote {
    Yes,
    No,
    Abstain,
    Veto,
}

/// Status of a proposal.
#[derive(Clone, Copy, Debug, PartialEq, Eq, Structural)]
pub enum Status {
    Pending,
    Open,
    Rejected,
    Passed,
    Executed,
}

pub open spec fn spec_page_limit(limit: Option<u32>, default_limit: u32, max_limit: u32) -> u32 {
    let l = match limit {
        Some(l) => l,
        None => default_limit,
    };
    if l < max_limit {
        l
    } else {
        max_limit
    }
}

/// Pagination limit: the requested one (or the default), capped at the maximum.
pub fn page_limit(limit: Option<u32>, default_limit: u32, max_limit: u32) -> (r: u32)
    ensures
        r == spec_page_limit(limit, default_limit, max_limit),
        r <= max_limit,
{
    let l = match limit {
        Some(l) => l,
        None => default_limit,
    };
    if l < max_limit {
        l
    } else {
        max_limit
    }
}

} // verus!
