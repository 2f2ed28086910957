//! The addresses allowed to slash stake.
use crate::group::{position_of, texts};
use vstd::prelude::*;

verus! {

/// Errors of the stake contract's slasher registry.
#[derive(Debug, PartialEq, Eq)]
pub enum StakeError {
    /// Nothing is stored yet.
    NotFound,
    SlasherAlreadyRegistered(String),
    SlasherNotRegistered(String),
}

/// The registered slashers; `None` until the list is first stored.
pub struct Slashers {
    pub slashers: Option<Vec<String>>,
}

/// The list of slasher addresses, empty when nothing is stored.
pub open spec fn stored_or_empty(s: Option<Vec<String>>) -> Seq<String> {
    match s {
        Some(v) => v@,
        None => Seq::empty(),
    }
}

impl Slashers {
    /// No list stored yet.
    pub fn new() -> (s: Slashers)
        ensures
            s.slashers is None,
    {
        Slashers { slashers: None }
    }

    /// Registers `addr` as a slasher; refused if it already is one.
    pub fn add_slasher(&mut self, addr: String) -> (r: Result<(), StakeError>)
        ensures
            texts(stored_or_empty(old(self).slashers)).contains(addr@) ==> r == Err::<(), StakeError>(StakeError::SlasherAlreadyRegistered(addr))
                && final(self).slashers == old(self).slashers,
            !texts(stored_or_empty(old(self).slashers)).contains(addr@) ==> r is Ok
                && final(self).slashers is Some && stored_or_empty(final(self).slashers) == stored_or_empty(old(self).slashers).push(addr),
    {
        if let Some(v) = &self.slashers {
            if position_of(v, &addr).is_some() {
                return Err(StakeError::SlasherAlreadyRegistered(addr));
            }
        } else {
            proof {
                assert(texts(Seq::<String>::empty()) =~= Seq::<Seq<char>>::empty());
            }
        }
        let mut list = match self.slashers.take() {
            Some(v) => v,
            None => Vec::new(),
        };
        list.push(addr);
        self.slashers = Some(list);
        Ok(())
    }

    /// Unregisters `addr`; refused if it is no slasher or nothing is stored.
    pub fn remove_slasher(&mut self, addr: &String) -> (r: Result<(), StakeError>)
        ensures
            old(self).slashers is None ==> r == Err::<(), StakeError>(StakeError::NotFound) && final(self).slashers == old(self).slashers,
            old(self).slashers is Some && !texts(stored_or_empty(old(self).slashers)).contains(addr@) ==>
                r == Err::<(), StakeError>(StakeError::SlasherNotRegistered(*addr)) && final(self).slashers == old(self).slashers,
            old(self).slashers is Some && texts(stored_or_empty(old(self).slashers)).contains(addr@) ==> r is Ok
                && final(self).slashers is Some
                && exists|i: int| 0 <= i < stored_or_empty(old(self).slashers).len()
                    && (#[trigger] stored_or_empty(old(self).slashers)[i])@ == addr@
                    && stored_or_empty(final(self).slashers) == stored_or_empty(old(self).slashers).remove(i),
    {
        let p = match &self.slashers {
            None => return Err(StakeError::NotFound),
            Some(v) => position_of(v, addr),
        };
        match p {
            None => Err(StakeError::SlasherNotRegistered(addr.clone())),
            Some(i) => {
                let mut list = match self.slashers.take() {
                    Some(v) => v,
                    None => Vec::new(),
                };
                list.remove(i);
                self.slashers = Some(list);
                Ok(())
            },
        }
    }

    /// Whether `addr` is a slasher; an error when nothing is stored.
    pub fn is_slasher(&self, addr: &String) -> (r: Result<bool, StakeError>)
        ensures
            self.slashers is None ==> r == Err::<bool, StakeError>(StakeError::NotFound),
            self.slashers is Some ==> r == Ok::<bool, StakeError>(texts(stored_or_empty(self.slashers)).contains(addr@)),
    {
        match &self.slashers {
            None => Err(StakeError::NotFound),
            Some(v) => Ok(position_of(v, addr).is_some()),
        }
    }

    /// All slashers, in the order they were registered.
    pub fn list_slashers(&self) -> (r: Vec<String>)
        ensures
            r@ == stored_or_empty(self.slashers),
    {
        match &self.slashers {
            None => Vec::new(),
            Some(v) => v.clone(),
        }
    }
}

} // verus!
