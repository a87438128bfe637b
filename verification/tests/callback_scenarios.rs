use device_code_broker::begin_auth_callback;
use device_code_broker::finish_auth_callback;
use device_code_broker::AuthorizeContext;
use device_code_broker::ClaimOutcome;
use device_code_broker::CodeTokenStatus;
use device_code_broker::CompletionOutcome;
use device_code_broker::DeviceCodeStore;

fn session(csrf: &str) -> AuthorizeContext {
    AuthorizeContext::new(
        String::from("pkce-verifier"),
        String::from(csrf),
        String::from("https://login.example/authorize"),
    )
}

#[test]
fn callback_with_empty_state_is_rejected() {
    let mut store = DeviceCodeStore::new(6);
    let code = store.add_new_code(0).expect("code generation should succeed");
    assert!(store.attach_session(&code, session("xyz")));
    let outcome = begin_auth_callback(&mut store, &String::new(), &String::from("authcode"));
    assert!(matches!(outcome, ClaimOutcome::InvalidResponse));
    // the store was not touched: the session is still claimable
    assert!(store.claim_session_by_csrf(&String::from("xyz")).is_some());
}

#[test]
fn callback_with_empty_code_is_rejected() {
    let mut store = DeviceCodeStore::new(6);
    let code = store.add_new_code(0).expect("code generation should succeed");
    assert!(store.attach_session(&code, session("xyz")));
    let outcome = begin_auth_callback(&mut store, &String::from("xyz"), &String::new());
    assert!(matches!(outcome, ClaimOutcome::InvalidResponse));
    assert!(store.claim_session_by_csrf(&String::from("xyz")).is_some());
}

#[test]
fn callback_with_unmatched_state_is_rejected() {
    let mut store = DeviceCodeStore::new(6);
    let code = store.add_new_code(0).expect("code generation should succeed");
    assert!(store.attach_session(&code, session("xyz")));
    let outcome =
        begin_auth_callback(&mut store, &String::from("not-xyz"), &String::from("authcode"));
    assert!(matches!(outcome, ClaimOutcome::InvalidResponse));
}

#[test]
fn callback_claims_matching_entry_once() {
    let mut store = DeviceCodeStore::new(6);
    let code = store.add_new_code(0).expect("code generation should succeed");
    assert!(store.attach_session(&code, session("xyz")));
    let outcome = begin_auth_callback(&mut store, &String::from("xyz"), &String::from("authcode"));
    match outcome {
        ClaimOutcome::Claimed(device_code, claimed) => {
            assert_eq!(device_code, code);
            assert_eq!(claimed.csrf_token, "xyz");
            assert_eq!(claimed.pkce_code_verifier, "pkce-verifier");
        }
        ClaimOutcome::InvalidResponse => panic!("expected the entry to be claimed"),
    }
    // a duplicate delivery of the same callback finds nothing
    let replay = begin_auth_callback(&mut store, &String::from("xyz"), &String::from("authcode"));
    assert!(matches!(replay, ClaimOutcome::InvalidResponse));
}

#[test]
fn failed_exchange_never_sets_a_token() {
    let mut store = DeviceCodeStore::new(6);
    let code = store.add_new_code(0).expect("code generation should succeed");
    assert!(store.attach_session(&code, session("xyz")));
    let outcome = begin_auth_callback(&mut store, &String::from("xyz"), &String::from("authcode"));
    assert!(matches!(outcome, ClaimOutcome::Claimed(_, _)));
    // the external exchange failed: nothing is recorded
    let done = finish_auth_callback(&mut store, &code, None);
    assert!(matches!(done, CompletionOutcome::AuthFailed));
    assert!(matches!(store.get_code_token(&code), CodeTokenStatus::Pending));
    // after expiry the poll reports Invalid, never Complete
    store.garbage_collect(300, 1_000);
    assert!(matches!(store.get_code_token(&code), CodeTokenStatus::Invalid));
}

#[test]
fn successful_exchange_completes_with_exact_token() {
    let mut store = DeviceCodeStore::new(6);
    let code = store.add_new_code(0).expect("code generation should succeed");
    assert!(store.attach_session(&code, session("xyz")));
    let outcome = begin_auth_callback(&mut store, &String::from("xyz"), &String::from("authcode"));
    let device_code = match outcome {
        ClaimOutcome::Claimed(device_code, _) => device_code,
        ClaimOutcome::InvalidResponse => panic!("expected the entry to be claimed"),
    };
    let done = finish_auth_callback(&mut store, &device_code, Some(String::from("tok-123")));
    assert!(matches!(done, CompletionOutcome::Completed));
    match store.get_code_token(&code) {
        CodeTokenStatus::Complete(token) => assert_eq!(token, "tok-123"),
        _ => panic!("expected Complete with the exchanged token"),
    }
}

#[test]
fn concurrent_style_double_claim_has_one_winner() {
    // two callbacks racing on one CSRF value: under the store's lock they
    // run in some order, and exactly one of them claims the entry
    let mut store = DeviceCodeStore::new(6);
    let code = store.add_new_code(0).expect("code generation should succeed");
    assert!(store.attach_session(&code, session("xyz")));
    let first = begin_auth_callback(&mut store, &String::from("xyz"), &String::from("c1"));
    let second = begin_auth_callback(&mut store, &String::from("xyz"), &String::from("c2"));
    let wins = matches!(first, ClaimOutcome::Claimed(_, _)) as u32
        + matches!(second, ClaimOutcome::Claimed(_, _)) as u32;
    assert_eq!(wins, 1);
}
