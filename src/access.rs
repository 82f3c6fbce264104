//! Role-based access: the one policy check that the HTTP layer applies before
//! it calls into the services, which stay role-agnostic.
use vstd::prelude::*;

use crate::error::ServiceError;

verus! {

/// The role of an authenticated caller.
#[derive(Clone, Copy, Debug, PartialEq, Eq, Structural)]
pub enum UserRole {
    Buyer,
    Vendor,
    Admin,
}

/// Admits a caller whose role is among `allowed_roles`; refuses any other
/// with a forbidden error.
pub fn require_role(role: UserRole, allowed_roles: &[UserRole]) -> (r: Result<(), ServiceError>)
    ensures
        r is Ok <==> allowed_roles@.contains(role),
        r matches Err(e) ==> e is Forbidden,
{
    let mut i: usize = 0;
    while i < allowed_roles.len()
        invariant
            i <= allowed_roles@.len(),
            forall|j: int| 0 <= j < i ==> #[trigger] allowed_roles@[j] != role,
        decreases allowed_roles@.len() - i,
    {
        if allowed_roles[i] == role {
            assert(allowed_roles@[i as int] == role);
            return Ok(());
        }
        i = i + 1;
    }
    Err(ServiceError::Forbidden("You do not have permission to access this resource.".to_string()))
}

} // verus!
