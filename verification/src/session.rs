//! Value types for one pairing attempt's authorization session.

use vstd::prelude::*;

verus! {

/// The per-login authorization context: a PKCE verifier, the CSRF value used
/// to correlate the provider's callback with its pairing entry, and the
/// authorize URL handed to the user agent. Created once per login attempt and
/// consumed exactly once when the callback is claimed.
pub struct AuthorizeContext {
    pub pkce_code_verifier: String,
    pub csrf_token: String,
    pub authorize_url: String,
}

/// Mathematical model of an [`AuthorizeContext`].
pub ghost struct AuthorizeContextView {
    pub pkce_code_verifier: Seq<char>,
    pub csrf_token: Seq<char>,
    pub authorize_url: Seq<char>,
}

impl View for AuthorizeContext {
    type V = AuthorizeContextView;

    open spec fn view(&self) -> AuthorizeContextView {
        AuthorizeContextView {
            pkce_code_verifier: self.pkce_code_verifier@,
            csrf_token: self.csrf_token@,
            authorize_url: self.authorize_url@,
        }
    }
}

impl AuthorizeContext {
    pub fn new(pkce_code_verifier: String, csrf_token: String, authorize_url: String) -> (r: Self)
        ensures
            r@ == (AuthorizeContextView {
                pkce_code_verifier: pkce_code_verifier@,
                csrf_token: csrf_token@,
                authorize_url: authorize_url@,
            }),
    {
        AuthorizeContext { pkce_code_verifier, csrf_token, authorize_url }
    }
}

} // verus!
