//! The authorization capability the boundary layer consumes: an opaque claim
//! set, with one example shape. Policy itself is out of the engine's hands.

use vstd::prelude::*;

verus! {

/// The claims a request carries; implement this for the token format the
/// service accepts.
pub trait AuthClaims {
    /// The requesting user.
    fn get_user_id(&self) -> &str;

    /// When the claims expire, as a timestamp.
    fn get_expiration(&self) -> usize;

    /// The token's subject.
    fn get_subject(&self) -> &str;
}

/// An example claim set in the common JWT shape.
#[derive(Debug)]
pub struct ExampleJwtClaims {
    pub sub: String,
    pub user_id: String,
    pub exp: usize,
}

impl AuthClaims for ExampleJwtClaims {
    fn get_user_id(&self) -> &str {
        self.user_id.as_str()
    }

    fn get_expiration(&self) -> usize {
        self.exp
    }

    fn get_subject(&self) -> &str {
        self.sub.as_str()
    }
}

} // verus!
