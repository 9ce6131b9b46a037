//! Single-owner administration with a two-phase transfer protocol.
//!
//! The registry keeps at most one owner. The owner may propose a transfer to
//! a new owner, optionally with an expiry; the proposed owner accepts to take
//! the role over, and the owner may renounce the role outright.

use vstd::prelude::*;

use crate::types::{ContractError, Expiration, Ownership, OwnershipAction};

verus! {

/// Whether a pending transfer's deadline has passed at the given chain height
/// and block time (in nanoseconds).
pub open spec fn spec_expired(e: Option<Expiration>, height: u64, time: u64) -> bool {
    match e {
        None => false,
        Some(Expiration::AtHeight(h)) => height >= h,
        Some(Expiration::AtTime(t)) => time >= t,
        Some(Expiration::Never) => false,
    }
}

/// Whether a pending transfer's deadline has passed.
pub fn is_expired(e: &Option<Expiration>, height: u64, time: u64) -> (r: bool)
    ensures
        r == spec_expired(*e, height, time),
{
    match e {
        None => false,
        Some(Expiration::AtHeight(h)) => height >= *h,
        Some(Expiration::AtTime(t)) => time >= *t,
        Some(Expiration::Never) => false,
    }
}

/// Copy of an optional address.
pub fn clone_opt_string(o: &Option<String>) -> (r: Option<String>)
    ensures
        r == *o,
{
    match o {
        Some(s) => Some(s.clone()),
        None => None,
    }
}

impl Ownership {
    /// No owner, no pending transfer.
    pub fn none() -> (r: Ownership)
        ensures
            r.owner is None,
            r.pending_owner is None,
            r.pending_expiry is None,
    {
        Ownership { owner: None, pending_owner: None, pending_expiry: None }
    }

    /// Whether the given address is the current owner.
    pub open spec fn spec_is_owner(&self, sender: Seq<char>) -> bool {
        match self.owner {
            Some(o) => o@ == sender,
            None => false,
        }
    }

    /// Whether the given address is the pending owner.
    pub open spec fn spec_is_pending(&self, sender: Seq<char>) -> bool {
        match self.pending_owner {
            Some(o) => o@ == sender,
            None => false,
        }
    }

    /// Fail with `Unauthorized` unless the sender is the current owner.
    pub fn assert_owner(&self, sender: &str) -> (r: Result<(), ContractError>)
        ensures
            r is Ok <==> self.spec_is_owner(sender@),
            r is Err ==> r == Err::<(), ContractError>(ContractError::Unauthorized),
    {
        match &self.owner {
            Some(o) => {
                if crate::order::str_eq(o.as_str(), sender) {
                    Ok(())
                } else {
                    Err(ContractError::Unauthorized)
                }
            },
            None => Err(ContractError::Unauthorized),
        }
    }

    /// A copy of the ownership record, as the ownership query returns it.
    pub fn snapshot(&self) -> (r: Ownership)
        ensures
            r == *self,
    {
        Ownership {
            owner: clone_opt_string(&self.owner),
            pending_owner: clone_opt_string(&self.pending_owner),
            pending_expiry: match &self.pending_expiry {
                Some(e) => Some(*e),
                None => None,
            },
        }
    }

    /// What applying a transfer action yields: the new ownership record on
    /// success, or the error the attempt fails with.
    ///
    /// A transfer may be proposed by the owner alone and names a non-empty
    /// new owner, optionally with an expiry. The proposed owner accepts a
    /// pending, unexpired transfer to become the owner. The owner may
    /// renounce the role, leaving the registry ownerless.
    pub open spec fn spec_update(
        self,
        height: u64,
        time: u64,
        sender: Seq<char>,
        action: OwnershipAction,
    ) -> Result<Ownership, ContractError> {
        match action {
            OwnershipAction::TransferOwnership { new_owner, expiry } => {
                if !self.spec_is_owner(sender) {
                    Err(ContractError::Unauthorized)
                } else if new_owner@.len() == 0 {
                    Err(ContractError::InvalidAddress)
                } else {
                    Ok(
                        Ownership {
                            owner: self.owner,
                            pending_owner: Some(new_owner),
                            pending_expiry: expiry,
                        },
                    )
                }
            },
            OwnershipAction::AcceptOwnership => {
                if !self.spec_is_pending(sender) || spec_expired(self.pending_expiry, height, time) {
                    Err(ContractError::Unauthorized)
                } else {
                    Ok(
                        Ownership {
                            owner: self.pending_owner,
                            pending_owner: None,
                            pending_expiry: None,
                        },
                    )
                }
            },
            OwnershipAction::RenounceOwnership => {
                if !self.spec_is_owner(sender) {
                    Err(ContractError::Unauthorized)
                } else {
                    Ok(Ownership { owner: None, pending_owner: None, pending_expiry: None })
                }
            },
        }
    }

    /// Apply a two-phase transfer action on behalf of the sender; failures
    /// leave the record unchanged.
    pub fn update(
        &mut self,
        height: u64,
        time: u64,
        sender: &str,
        action: OwnershipAction,
    ) -> (r: Result<(), ContractError>)
        ensures
            match old(self).spec_update(height, time, sender@, action) {
                Ok(o2) => r is Ok && *final(self) == o2,
                Err(e) => r == Err::<(), ContractError>(e) && *final(self) == *old(self),
            },
    {
        match action {
            OwnershipAction::TransferOwnership { new_owner, expiry } => {
                self.assert_owner(sender)?;
                if new_owner.as_str().unicode_len() == 0 {
                    return Err(ContractError::InvalidAddress);
                }
                self.pending_owner = Some(new_owner);
                self.pending_expiry = expiry;
                Ok(())
            },
            OwnershipAction::AcceptOwnership => {
                let pending = match &self.pending_owner {
                    Some(p) => p,
                    None => {
                        return Err(ContractError::Unauthorized);
                    },
                };
                if !crate::order::str_eq(pending.as_str(), sender) {
                    return Err(ContractError::Unauthorized);
                }
                if is_expired(&self.pending_expiry, height, time) {
                    return Err(ContractError::Unauthorized);
                }
                self.owner = clone_opt_string(&self.pending_owner);
                self.pending_owner = None;
                self.pending_expiry = None;
                Ok(())
            },
            OwnershipAction::RenounceOwnership => {
                self.assert_owner(sender)?;
                self.owner = None;
                self.pending_owner = None;
                self.pending_expiry = None;
                Ok(())
            },
        }
    }
}

} // verus!
