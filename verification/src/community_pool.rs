//! The community pool: proposals voted on by the community, executed once passed.
use crate::common::Status;
use crate::voting::Proposal;
use vstd::prelude::*;

verus! {

/// Errors of the community pool.
#[derive(Clone, Copy, Debug, PartialEq, Eq, Structural)]
pub enum PoolError {
    WrongExecuteStatus,
}

/// Checks that a proposal may be executed: it must have passed. Its status is left as it is.
pub fn execute_execute<P>(prop: &Proposal<P>) -> (r: Result<(), PoolError>)
    ensures
        r is Ok <==> prop.status == Status::Passed,
        r is Err ==> r == Err::<(), PoolError>(PoolError::WrongExecuteStatus),
{
    if prop.status != Status::Passed {
        return Err(PoolError::WrongExecuteStatus);
    }
    Ok(())
}

/// Page size for listing: 10 unless given, at most 30.
pub fn align_limit(limit: Option<u32>) -> (r: usize)
    ensures
        r == (match limit {
            None => 10,
            Some(l) => if l < 30 { l as int } else { 30 },
        }),
{
    let l = match limit {
        None => 10u32,
        Some(l) => l,
    };
    if l < 30 {
        l as usize
    } else {
        30
    }
}

} // verus!
