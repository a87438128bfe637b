//! The correlation matcher: the decision protocol run by the authorization
//! callback. It validates the inbound correlation parameters, claims the
//! matching pairing entry by CSRF value, and — once the caller has attempted
//! the (external) token exchange — records the outcome on the entry.
//!
//! Claiming strictly precedes the exchange, so at most one exchange attempt
//! can ever be made per session, even under duplicated callback delivery.

use vstd::prelude::*;

use crate::session::AuthorizeContext;
use crate::store::DeviceCodeStore;
use crate::store::cleared;
use crate::store::code_index;
use crate::store::contains_code;
use crate::store::has_csrf_match;
use crate::store::slot_matches_csrf;
use crate::store::with_token;

verus! {

/// The decision taken on an inbound callback before any exchange is tried.
pub enum ClaimOutcome {
    /// The callback carried no usable correlation values, or no live entry
    /// matched them: the callback is rejected and nothing changed.
    InvalidResponse,
    /// A single entry matched and its session was claimed; the exchange may
    /// now be attempted with the claimed session.
    Claimed(String, AuthorizeContext),
}

/// The decision taken once the token exchange has been attempted.
pub enum CompletionOutcome {
    /// The exchange succeeded and the token was recorded for the code.
    Completed,
    /// The exchange failed; the pairing attempt is dead and the user must
    /// restart pairing. Nothing was recorded.
    AuthFailed,
}

/// Handle the correlation step of an inbound authorization callback carrying
/// the query values `state_param` (the CSRF value) and `code_param` (the
/// authorization code). Empty values are rejected without touching the
/// store; otherwise the matching entry, if any, is atomically claimed.
pub fn begin_auth_callback(
    store: &mut DeviceCodeStore,
    state_param: &String,
    code_param: &String,
) -> (r: ClaimOutcome)
    requires
        old(store).wf(),
    ensures
        final(store).wf(),
        final(store).spec_code_len() == old(store).spec_code_len(),
        (state_param@.len() == 0 || code_param@.len() == 0) ==> (r is InvalidResponse
            && final(store)@ == old(store)@),
        (state_param@.len() > 0 && code_param@.len() > 0) ==> {
            &&& (r is Claimed <==> has_csrf_match(old(store)@, state_param@))
            &&& match r {
                ClaimOutcome::Claimed(device_code, session) => exists|i: int|
                    0 <= i < old(store)@.len() && slot_matches_csrf(
                        #[trigger] old(store)@[i],
                        state_param@,
                    ) && device_code@ == old(store)@[i].code && old(store)@[i].entry.auth_context
                        == Some(session@) && final(store)@ == old(store)@.update(
                        i,
                        cleared(old(store)@[i]),
                    ),
                ClaimOutcome::InvalidResponse => final(store)@ == old(store)@,
            }
        },
{
    if state_param.as_str().is_empty() || code_param.as_str().is_empty() {
        return ClaimOutcome::InvalidResponse;
    }
    match store.claim_session_by_csrf(state_param) {
        Some((device_code, session)) => ClaimOutcome::Claimed(device_code, session),
        None => ClaimOutcome::InvalidResponse,
    }
}

/// Record the outcome of the token exchange for a claimed device code.
/// On success the token is stored on the entry (when the entry is still
/// live) and the pairing completes; on failure nothing is recorded and the
/// session is not re-inserted, so the attempt stays dead.
pub fn finish_auth_callback(
    store: &mut DeviceCodeStore,
    device_code: &String,
    exchange_result: Option<String>,
) -> (r: CompletionOutcome)
    requires
        old(store).wf(),
    ensures
        final(store).wf(),
        final(store).spec_code_len() == old(store).spec_code_len(),
        match exchange_result {
            Some(token) => {
                &&& r is Completed
                &&& contains_code(old(store)@, device_code@) ==> final(store)@ == old(
                    store,
                )@.update(
                    code_index(old(store)@, device_code@),
                    with_token(old(store)@[code_index(old(store)@, device_code@)], token@),
                )
                &&& !contains_code(old(store)@, device_code@) ==> final(store)@ == old(store)@
            },
            None => r is AuthFailed && final(store)@ == old(store)@,
        },
{
    match exchange_result {
        Some(token) => {
            let _ = store.set_code_token(device_code, token);
            CompletionOutcome::Completed
        },
        None => CompletionOutcome::AuthFailed,
    }
}

} // verus!
