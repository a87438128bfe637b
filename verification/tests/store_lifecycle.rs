use device_code_broker::AuthorizeContext;
use device_code_broker::CodeTokenStatus;
use device_code_broker::DeviceCodeStore;

fn session(csrf: &str) -> AuthorizeContext {
    AuthorizeContext::new(
        String::from("verifier-secret"),
        String::from(csrf),
        String::from("https://login.example/authorize"),
    )
}

#[test]
fn new_store_reports_invalid_for_any_code() {
    let store = DeviceCodeStore::new(6);
    let status = store.get_code_token(&String::from("ABC123"));
    assert!(matches!(status, CodeTokenStatus::Invalid));
}

#[test]
fn created_code_polls_pending() {
    let mut store = DeviceCodeStore::new(6);
    let code = store.add_new_code(0).expect("code generation should succeed");
    assert_eq!(code.len(), 6);
    let status = store.get_code_token(&code);
    assert!(matches!(status, CodeTokenStatus::Pending));
}

#[test]
fn generated_codes_are_pairwise_distinct() {
    let mut store = DeviceCodeStore::new(8);
    let mut codes: Vec<String> = Vec::new();
    for _ in 0..50 {
        let code = store.add_new_code(0).expect("code generation should succeed");
        codes.push(code);
    }
    for i in 0..codes.len() {
        for j in 0..codes.len() {
            if i != j {
                assert_ne!(codes[i], codes[j]);
            }
        }
    }
}

#[test]
fn set_token_completes_with_exact_value() {
    let mut store = DeviceCodeStore::new(6);
    let code = store.add_new_code(0).expect("code generation should succeed");
    let ok = store.set_code_token(&code, String::from("bearer-token-value"));
    assert!(ok);
    match store.get_code_token(&code) {
        CodeTokenStatus::Complete(token) => assert_eq!(token, "bearer-token-value"),
        _ => panic!("expected Complete"),
    }
}

#[test]
fn set_token_on_unknown_code_is_refused() {
    let mut store = DeviceCodeStore::new(6);
    let ok = store.set_code_token(&String::from("NOSUCH"), String::from("tok"));
    assert!(!ok);
    assert!(matches!(store.get_code_token(&String::from("NOSUCH")), CodeTokenStatus::Invalid));
}

#[test]
fn attach_session_on_unknown_code_is_refused() {
    let mut store = DeviceCodeStore::new(6);
    let ok = store.attach_session(&String::from("NOSUCH"), session("xyz"));
    assert!(!ok);
}

#[test]
fn attach_session_then_claim_returns_code_and_session() {
    let mut store = DeviceCodeStore::new(6);
    let code = store.add_new_code(0).expect("code generation should succeed");
    assert!(store.attach_session(&code, session("xyz")));
    let (claimed_code, claimed) = store
        .claim_session_by_csrf(&String::from("xyz"))
        .expect("claim should find the attached session");
    assert_eq!(claimed_code, code);
    assert_eq!(claimed.csrf_token, "xyz");
    assert_eq!(claimed.pkce_code_verifier, "verifier-secret");
    assert_eq!(claimed.authorize_url, "https://login.example/authorize");
}

#[test]
fn second_claim_of_same_csrf_returns_none() {
    let mut store = DeviceCodeStore::new(6);
    let code = store.add_new_code(0).expect("code generation should succeed");
    assert!(store.attach_session(&code, session("xyz")));
    assert!(store.claim_session_by_csrf(&String::from("xyz")).is_some());
    assert!(store.claim_session_by_csrf(&String::from("xyz")).is_none());
}

#[test]
fn claim_with_unknown_csrf_returns_none() {
    let mut store = DeviceCodeStore::new(6);
    let code = store.add_new_code(0).expect("code generation should succeed");
    assert!(store.attach_session(&code, session("xyz")));
    assert!(store.claim_session_by_csrf(&String::from("other")).is_none());
    // the pending session is untouched by the failed claim
    assert!(store.claim_session_by_csrf(&String::from("xyz")).is_some());
}

#[test]
fn reattaching_overwrites_the_previous_session() {
    let mut store = DeviceCodeStore::new(6);
    let code = store.add_new_code(0).expect("code generation should succeed");
    assert!(store.attach_session(&code, session("first")));
    assert!(store.attach_session(&code, session("second")));
    assert!(store.claim_session_by_csrf(&String::from("first")).is_none());
    let (claimed_code, claimed) = store
        .claim_session_by_csrf(&String::from("second"))
        .expect("the replacement session should be claimable");
    assert_eq!(claimed_code, code);
    assert_eq!(claimed.csrf_token, "second");
}

#[test]
fn sweep_removes_entries_at_ttl() {
    let mut store = DeviceCodeStore::new(6);
    let code = store.add_new_code(100).expect("code generation should succeed");
    // age exactly ttl: expired
    store.garbage_collect(300, 400);
    assert!(matches!(store.get_code_token(&code), CodeTokenStatus::Invalid));
}

#[test]
fn sweep_keeps_entries_younger_than_ttl() {
    let mut store = DeviceCodeStore::new(6);
    let code = store.add_new_code(100).expect("code generation should succeed");
    store.garbage_collect(300, 399);
    assert!(matches!(store.get_code_token(&code), CodeTokenStatus::Pending));
}

#[test]
fn sweep_on_empty_store_is_a_no_op() {
    let mut store = DeviceCodeStore::new(6);
    store.garbage_collect(300, 1_000_000);
    assert!(matches!(store.get_code_token(&String::from("ABC123")), CodeTokenStatus::Invalid));
}

#[test]
fn sweep_separates_old_from_young() {
    let mut store = DeviceCodeStore::new(6);
    let old_code = store.add_new_code(0).expect("code generation should succeed");
    let young_code = store.add_new_code(250).expect("code generation should succeed");
    store.garbage_collect(300, 310);
    assert!(matches!(store.get_code_token(&old_code), CodeTokenStatus::Invalid));
    assert!(matches!(store.get_code_token(&young_code), CodeTokenStatus::Pending));
}

#[test]
fn sweep_before_creation_time_keeps_the_entry() {
    let mut store = DeviceCodeStore::new(6);
    let code = store.add_new_code(500).expect("code generation should succeed");
    store.garbage_collect(300, 499);
    assert!(matches!(store.get_code_token(&code), CodeTokenStatus::Pending));
}

#[test]
fn sweep_near_the_tick_limit_does_not_overflow() {
    let mut store = DeviceCodeStore::new(6);
    let code = store.add_new_code(u64::MAX - 10).expect("code generation should succeed");
    store.garbage_collect(300, u64::MAX);
    assert!(matches!(store.get_code_token(&code), CodeTokenStatus::Pending));
}

#[test]
fn completed_entry_survives_sweep_until_its_own_expiry() {
    let mut store = DeviceCodeStore::new(6);
    let code = store.add_new_code(0).expect("code generation should succeed");
    assert!(store.set_code_token(&code, String::from("tok")));
    store.garbage_collect(300, 299);
    match store.get_code_token(&code) {
        CodeTokenStatus::Complete(token) => assert_eq!(token, "tok"),
        _ => panic!("expected Complete to survive a sweep before expiry"),
    }
    store.garbage_collect(300, 300);
    assert!(matches!(store.get_code_token(&code), CodeTokenStatus::Invalid));
}
