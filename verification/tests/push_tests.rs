use dashmap::DashMap;
use rusmes_jmap::methods::push_subscription::{
    destroy_subscription, finish_subscription, generate_verification_code, prepare_subscription,
    push_subscription_get, push_subscription_set_with_state, update_subscription, validate_push_url,
    PushSubscriptionCreate, PushSubscriptionGetRequest, PushSubscriptionSetRequest, PushSubscriptionUpdate,
    CreateAttempt, Registry, VerificationPush,
};
use rusmes_jmap::Principal;

fn principal(acc: &str) -> Principal {
    Principal { username: acc.to_string(), account_id: acc.to_string(), scopes: vec![] }
}

fn create(url: &str) -> PushSubscriptionCreate {
    PushSubscriptionCreate {
        device_client_id: "dev1".to_string(),
        url: url.to_string(),
        keys: None,
        expires: None,
        types: vec!["Email".to_string()],
    }
}

fn registered(reg: &mut Registry, acc: &str, id: &str, code: &str) {
    let sub = prepare_subscription(create("https://push.example.com/x"), &principal(acc), id.to_string(), code.to_string())
        .expect("https");
    finish_subscription(reg, sub, VerificationPush::Delivered).expect("delivered");
}

#[test]
fn url_must_be_https() {
    assert!(validate_push_url("https://push.example.com").is_ok());
    let err = validate_push_url("http://push.example.com").expect_err("plain http");
    assert!(err.contains("http://push.example.com"));
    assert!(prepare_subscription(create("ftp://x"), &principal("a"), "s".to_string(), "c".to_string()).is_err());
}

#[test]
fn verification_codes_are_fresh() {
    let a = generate_verification_code().expect("random");
    let b = generate_verification_code().expect("random");
    assert_ne!(a, b);
    assert_eq!(a.len(), 43);
}

#[test]
fn register_then_get() {
    let mut reg: Registry = DashMap::new();
    registered(&mut reg, "alice", "s1", "code1");
    let r = push_subscription_get(PushSubscriptionGetRequest { ids: Some(vec!["s1".to_string(), "s2".to_string()]) }, &principal("alice"), &reg);
    assert_eq!(r.list.len(), 1);
    assert_eq!(r.list[0].id, "s1");
    assert_eq!(r.list[0].url, "https://push.example.com/x");
    assert_eq!(r.not_found, vec!["s2".to_string()]);
    let other = push_subscription_get(PushSubscriptionGetRequest { ids: None }, &principal("bob"), &reg);
    assert!(other.list.is_empty());
    let all = push_subscription_get(PushSubscriptionGetRequest { ids: None }, &principal("alice"), &reg);
    assert_eq!(all.list.len(), 1);
}

#[test]
fn failed_verification_push_registers_nothing() {
    let mut reg: Registry = DashMap::new();
    let sub = prepare_subscription(create("https://x"), &principal("a"), "s1".to_string(), "c".to_string()).expect("ok");
    let err = finish_subscription(&mut reg, sub, VerificationPush::Gone).expect_err("gone");
    assert_eq!(err, "Push endpoint returned 410 Gone during verification");
    let sub = prepare_subscription(create("https://x"), &principal("a"), "s1".to_string(), "c".to_string()).expect("ok");
    let err = finish_subscription(&mut reg, sub, VerificationPush::Failed("timeout".to_string())).expect_err("failed");
    assert_eq!(err, "Failed to send verification push: timeout");
    assert!(reg.is_empty());
}

#[test]
fn update_verifies_with_right_code_only() {
    let mut reg: Registry = DashMap::new();
    registered(&mut reg, "alice", "s1", "code1");
    let wrong = PushSubscriptionUpdate { verification_code: Some("nope".to_string()), types: None, expires: None };
    assert!(update_subscription(&mut reg, "s1", wrong, &principal("alice")).is_err());
    assert!(!reg.get("s1").expect("kept").verified);
    let right = PushSubscriptionUpdate { verification_code: Some("code1".to_string()), types: Some(vec!["Mailbox".to_string()]), expires: Some(5) };
    update_subscription(&mut reg, "s1", right, &principal("alice")).expect("verified");
    let s = reg.get("s1").expect("kept");
    assert!(s.verified);
    assert_eq!(s.types, vec!["Mailbox".to_string()]);
    assert_eq!(s.expires, Some(5));
}

#[test]
fn only_owner_updates_or_destroys() {
    let mut reg: Registry = DashMap::new();
    registered(&mut reg, "alice", "s1", "code1");
    let patch = PushSubscriptionUpdate { verification_code: None, types: None, expires: None };
    let err = update_subscription(&mut reg, "s1", patch, &principal("bob")).expect_err("not owner");
    assert_eq!(err, "Subscription s1 not owned by this principal");
    let err = destroy_subscription(&mut reg, "s1", &principal("bob")).expect_err("not owner");
    assert_eq!(err, "Subscription s1 not owned by this principal");
    assert!(reg.contains_key("s1"));
    destroy_subscription(&mut reg, "s1", &principal("alice")).expect("owner");
    assert!(!reg.contains_key("s1"));
    let err = destroy_subscription(&mut reg, "s1", &principal("alice")).expect_err("gone");
    assert_eq!(err, "Subscription not found: s1");
}

#[test]
fn set_with_state_collects_outcomes() {
    let mut reg: Registry = DashMap::new();
    registered(&mut reg, "alice", "s1", "code1");
    registered(&mut reg, "alice", "s2", "code2");
    let request = PushSubscriptionSetRequest {
        create: Some(vec![("c1".to_string(), create("https://a")), ("c2".to_string(), create("https://b"))]),
        update: Some(vec![(
            "s1".to_string(),
            PushSubscriptionUpdate { verification_code: Some("code1".to_string()), types: None, expires: None },
        )]),
        destroy: Some(vec!["s2".to_string(), "zz".to_string()]),
    };
    let attempts = vec![
        CreateAttempt { id: "n1".to_string(), code: Ok("v".to_string()), push: Some(VerificationPush::Delivered) },
        CreateAttempt {
            id: "n2".to_string(),
            code: Ok("w".to_string()),
            push: Some(VerificationPush::Failed("boom".to_string())),
        },
    ];
    let r = push_subscription_set_with_state(request, &principal("alice"), &mut reg, attempts);
    let c = r.created.expect("created");
    assert_eq!(c.len(), 1);
    assert_eq!(c[0].0, "c1");
    let nc = r.not_created.expect("not created");
    assert_eq!(nc[0].0, "c2");
    assert_eq!(nc[0].1.error_type, "serverFail");
    assert_eq!(nc[0].1.description.as_deref(), Some("Failed to send verification push: boom"));
    let n1 = reg.get("n1").expect("registered");
    assert_eq!(n1.url, "https://a");
    assert_eq!(n1.verification_code.as_deref(), Some("v"));
    assert!(!n1.verified);
    drop(n1);
    assert!(!reg.contains_key("n2"));
    assert_eq!(r.updated.expect("updated")[0].0, "s1");
    assert_eq!(r.destroyed, Some(vec!["s2".to_string()]));
    let nd = r.not_destroyed.expect("not destroyed");
    assert_eq!(nd[0].0, "zz");
    assert_eq!(nd[0].1.description.as_deref(), Some("Subscription not found: zz"));
    assert!(r.not_updated.is_none());
    assert!(reg.get("s1").expect("kept").verified);
    assert!(!reg.contains_key("s2"));
}


#[test]
fn set_with_state_refuses_plain_http() {
    let mut reg: Registry = DashMap::new();
    let request = PushSubscriptionSetRequest {
        create: Some(vec![
            ("c1".to_string(), create("http://push.example.com/x")),
            ("c2".to_string(), create("https://push.example.com/y")),
        ]),
        update: None,
        destroy: None,
    };
    let attempts = vec![
        CreateAttempt { id: String::new(), code: Err(String::new()), push: None },
        CreateAttempt { id: "n2".to_string(), code: Err("RNG failure during verification code generation: x".to_string()), push: None },
    ];
    let r = push_subscription_set_with_state(request, &principal("alice"), &mut reg, attempts);
    assert!(r.created.is_none());
    let nc = r.not_created.expect("not created");
    assert_eq!(nc.len(), 2);
    assert_eq!(nc[0].0, "c1");
    assert_eq!(nc[0].1.error_type, "serverFail");
    assert_eq!(
        nc[0].1.description.as_deref(),
        Some("Push subscription URL must use HTTPS, got: http://push.example.com/x")
    );
    assert_eq!(nc[1].0, "c2");
    assert_eq!(nc[1].1.description.as_deref(), Some("RNG failure during verification code generation: x"));
    assert!(reg.is_empty());
}
