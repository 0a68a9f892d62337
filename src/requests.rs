use vstd::prelude::*;

verus! {

/// Credentials sent to log in.
pub struct LoginRequest {
    pub email: String,
    pub password: String,
}

/// The fields of a new account.
pub struct CreateUser {
    pub username: String,
    pub email: String,
    pub password: String,
}

/// The fields of an account to change; an absent field stays as it is.
pub struct UpdateUser {
    pub username: Option<String>,
    pub email: Option<String>,
    pub password: Option<String>,
}

impl UpdateUser {
    /// Whether the request names at least one field to change; an update
    /// naming none is refused.
    pub fn has_changes(&self) -> (r: bool)
        ensures
            r == (self.username is Some || self.email is Some || self.password is Some),
    {
        self.username.is_some() || self.email.is_some() || self.password.is_some()
    }
}

} // verus!
