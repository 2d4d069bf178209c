//! Stored users and the responses that describe them.

use vstd::prelude::*;

verus! {

/// A stored user account; `password` holds the password's PHC hash string.
pub struct UserModel {
    pub id: i32,
    pub email: String,
    pub password: String,
    pub role_id: i32,
}

impl UserModel {
    /// A field-by-field copy.
    pub fn copy(&self) -> (r: UserModel)
        ensures
            r == *self,
    {
        UserModel {
            id: self.id,
            email: self.email.clone(),
            password: self.password.clone(),
            role_id: self.role_id,
        }
    }
}


/// The names of the roles every installation starts with.
pub open spec fn base_role_names() -> Seq<Seq<char>> {
    seq!["admin"@, "viewer"@]
}

/// The names of the roles every installation starts with, in the order they
/// are created.
pub fn base_roles() -> (r: Vec<&'static str>)
    ensures
        r@.map_values(|x: &str| x@) == base_role_names(),
{
    let v: Vec<&'static str> = vec!["admin", "viewer"];
    assert(v@.map_values(|x: &str| x@) =~= base_role_names());
    v
}

} // verus!
