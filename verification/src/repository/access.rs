//! Caller access checks: row ownership and module administration.

use crate::error::{ServiceError, ServiceResult};
use crate::ids::Identity;
use crate::text::append_str;
use vstd::prelude::*;

verus! {

/// The failure for touching another player's row.
pub open spec fn is_not_owner(e: ServiceError, sender: Identity) -> bool {
    e is Forbidden && e->Forbidden_identity == sender && e.text() == "row is owned by another player"@
}

/// Ownership guard shared by every service touching player-owned rows.
pub fn ensure_owner(sender: Identity, owner: Identity) -> (res: ServiceResult<()>)
    ensures
        res is Ok <==> sender == owner,
        res is Err ==> is_not_owner(res->Err_0, sender),
{
    if sender == owner {
        Ok(())
    } else {
        let mut m = String::new();
        append_str(&mut m, "row is owned by another player");
        Err(ServiceError::Forbidden { identity: sender, message: m })
    }
}

/// The identity that published the module, once recorded.
pub struct ModuleOwner {
    pub owner: Option<Identity>,
}

/// The failure for an import before the module owner is recorded.
pub open spec fn is_owner_not_initialized(e: ServiceError) -> bool {
    e is Internal && e.text() == "module owner not initialized"@
}

/// The failure for an import by anyone but the module owner.
pub open spec fn is_not_module_owner(e: ServiceError, sender: Identity) -> bool {
    e is Forbidden && e->Forbidden_identity == sender && e.text()
        == "only the module owner may import content"@
}

impl ModuleOwner {
    /// No owner recorded yet.
    pub fn new() -> (m: ModuleOwner)
        ensures
            m.owner is None,
    {
        ModuleOwner { owner: None }
    }

    /// Record the publishing identity as the module owner during `init`.
    pub fn record_module_owner(&mut self, owner: Identity)
        ensures
            final(self).owner == Some(owner),
    {
        self.owner = Some(owner);
    }

    /// Owner-only guard for content import reducers.
    pub fn require_module_owner(&self, sender: Identity) -> (res: ServiceResult<()>)
        ensures
            match self.owner {
                None => res is Err && is_owner_not_initialized(res->Err_0),
                Some(o) => if o == sender {
                    res is Ok
                } else {
                    res is Err && is_not_module_owner(res->Err_0, sender)
                },
            },
    {
        match self.owner {
            None => {
                let mut m = String::new();
                append_str(&mut m, "module owner not initialized");
                Err(ServiceError::Internal { message: m })
            },
            Some(o) => {
                if o == sender {
                    Ok(())
                } else {
                    let mut m = String::new();
                    append_str(&mut m, "only the module owner may import content");
                    Err(ServiceError::Forbidden { identity: sender, message: m })
                }
            },
        }
    }
}

} // verus!
