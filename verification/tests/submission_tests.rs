use rusmes_jmap::json::JsonValue;
use rusmes_jmap::methods::identity::IdentityAccountState;
use rusmes_jmap::methods::submission::create::FetchedMessage;
use rusmes_jmap::methods::submission::handlers::{email_submission_set_with, CreateLookup};
use rusmes_jmap::methods::submission::EmailSubmissionSetRequest;
use rusmes_jmap::Principal;
use rusmes_jmap::methods::submission::create::{
    build_envelope, derive_recipients, parse_message_id, SmtpEnvelope,
};
use rusmes_jmap::methods::submission::handlers::{
    classify_submission_error, handle_submission_destroy, handle_submission_update,
};
use rusmes_jmap::methods::submission::store::within_undo_window;
use rusmes_jmap::methods::submission::types::{Envelope, UndoStatus};
use rusmes_jmap::methods::submission::{Address, EmailSubmission, EmailSubmissionObject, StoredSubmission, SubmissionAccountState};

fn headers(pairs: &[(&str, &[&str])]) -> Vec<(String, Vec<String>)> {
    pairs
        .iter()
        .map(|(k, vs)| (k.to_string(), vs.iter().map(|v| v.to_string()).collect()))
        .collect()
}

fn submission(id: &str, status: UndoStatus) -> EmailSubmission {
    EmailSubmission {
        id: id.to_string(),
        identity_id: "default".to_string(),
        email_id: "e1".to_string(),
        thread_id: None,
        envelope: None,
        send_at: None,
        undo_status: status,
        delivery_status: None,
        dsn_blob_ids: None,
        mdn_blob_ids: None,
    }
}

fn state_with(id: &str, status: UndoStatus, created_at: i64) -> SubmissionAccountState {
    SubmissionAccountState {
        submissions: vec![(id.to_string(), StoredSubmission { submission: submission(id, status), created_at })],
        state_version: 1,
    }
}

fn cancel_patch() -> JsonValue {
    JsonValue::Object(vec![("undoStatus".to_string(), JsonValue::Str("canceled".to_string()))])
}

#[test]
fn test_parse_message_id_valid_uuid() {
    let id = uuid::Uuid::new_v4().to_string();
    let result = parse_message_id(&id);
    assert!(result.is_ok());
    assert_eq!(result.expect("ok").len(), 16);
}

#[test]
fn test_parse_message_id_invalid() {
    let result = parse_message_id("not-a-uuid");
    assert!(result.is_err());
    let err = result.expect_err("err");
    assert_eq!(err.error_type, "invalidProperties");
    assert_eq!(err.description.as_deref(), Some("'not-a-uuid' is not a valid message ID (expected UUID)"));
}

#[test]
fn test_build_envelope_empty_rcpt_explicit() {
    let obj = EmailSubmissionObject {
        identity_id: "id1".to_string(),
        email_id: uuid::Uuid::new_v4().to_string(),
        envelope: Some(Envelope {
            mail_from: Address { email: "from@example.com".to_string(), parameters: None },
            rcpt_to: vec![],
        }),
        send_at: None,
    };
    let h = headers(&[("From", &["from@example.com"])]);
    let err = build_envelope(&obj, "identity@example.com", &h).expect_err("should err");
    assert_eq!(err.error_type, "invalidProperties");
}

#[test]
fn envelope_from_headers_when_not_given() {
    let obj = EmailSubmissionObject {
        identity_id: "id1".to_string(),
        email_id: "e".to_string(),
        envelope: None,
        send_at: None,
    };
    let h = headers(&[
        ("To", &["Alice <alice@example.com>, bob@example.com"]),
        ("Cc", &["carol@example.com"]),
        ("Subject", &["x"]),
    ]);
    let env: SmtpEnvelope = build_envelope(&obj, "me@example.com", &h).expect("recipients");
    assert_eq!(env.mail_from, "me@example.com");
    assert_eq!(env.rcpt_to, vec!["alice@example.com", "bob@example.com", "carol@example.com"]);
    assert_eq!(derive_recipients(&h), vec!["alice@example.com", "bob@example.com", "carol@example.com"]);
    let none = build_envelope(&obj, "me@example.com", &headers(&[("Subject", &["x"])]));
    assert!(none.is_err());
}

#[test]
fn undo_window_edges() {
    let s = StoredSubmission { submission: submission("s1", UndoStatus::Pending), created_at: 1_000 };
    assert!(within_undo_window(&s, 30, 31_000));
    assert!(!within_undo_window(&s, 30, 31_001));
    let f = StoredSubmission { submission: submission("s1", UndoStatus::Final), created_at: 1_000 };
    assert!(!within_undo_window(&f, 30, 1_000));
}

#[test]
fn cancel_inside_window_then_destroy() {
    let mut st = state_with("s1", UndoStatus::Pending, 1_000);
    let updated = handle_submission_update(&mut st, "s1", &cancel_patch(), 2_000).expect("cancel");
    assert_eq!(updated.undo_status, UndoStatus::Canceled);
    assert_eq!(st.get_submission("s1").expect("kept").submission.undo_status, UndoStatus::Canceled);
    handle_submission_destroy(&mut st, "s1").expect("destroy");
    assert!(st.get_submission("s1").is_none());
}

#[test]
fn cancel_after_window_is_refused() {
    let mut st = state_with("s1", UndoStatus::Pending, 1_000);
    let err = handle_submission_update(&mut st, "s1", &cancel_patch(), 100_000).expect_err("late");
    assert!(err.starts_with("cannotUnsend"));
    assert_eq!(classify_submission_error(&err), "cannotUnsend");
}

#[test]
fn final_submission_is_not_destroyed() {
    let mut st = state_with("s1", UndoStatus::Final, 1_000);
    let err = handle_submission_destroy(&mut st, "s1").expect_err("final");
    assert!(err.starts_with("methodNotAllowed"));
    assert!(st.get_submission("s1").is_some());
    let err = handle_submission_destroy(&mut st, "nope").expect_err("missing");
    assert!(err.starts_with("notFound"));
}

#[test]
fn update_patch_errors() {
    let mut st = state_with("s1", UndoStatus::Pending, 1_000);
    let bad = JsonValue::Object(vec![("emailId".to_string(), JsonValue::Str("x".to_string()))]);
    let err = handle_submission_update(&mut st, "s1", &bad, 1_000).expect_err("immutable");
    assert!(err.starts_with("invalidProperties"));
    let err = handle_submission_update(&mut st, "s1", &JsonValue::Null, 1_000).expect_err("not object");
    assert_eq!(err, "invalidProperties: patch must be a JSON object");
}

#[test]
fn one_send_per_created_submission() {
    let mut state = SubmissionAccountState { submissions: vec![], state_version: 1 };
    let identities = IdentityAccountState::new_with_default("acc1", "alice@example.com");
    let email_id = "123e4567-e89b-12d3-a456-426614174000";
    let obj = |identity: &str, send_at: Option<i64>| EmailSubmissionObject {
        identity_id: identity.to_string(),
        email_id: email_id.to_string(),
        envelope: None,
        send_at,
    };
    let request = EmailSubmissionSetRequest {
        account_id: "acc1".to_string(),
        if_in_state: None,
        create: Some(vec![
            ("c1".to_string(), obj("default", Some(1_704_067_200_000))),
            ("c2".to_string(), obj("nobody", None)),
        ]),
        update: None,
        destroy: None,
        on_success_update_email: None,
        on_success_destroy_email: None,
    };
    let fetched = || CreateLookup {
        fetched: Ok(Some(FetchedMessage { headers: headers(&[("To", &["bob@example.com"])]) })),
        thread_id: None,
    };
    let principal = Principal { username: "alice".to_string(), account_id: "acc1".to_string(), scopes: vec![] };
    let (r, sends) = email_submission_set_with(
        &mut state,
        &identities,
        request,
        &principal,
        vec![fetched(), fetched()],
        &vec!["s1".to_string(), "s2".to_string()],
        1_000,
    )
    .expect("owner");
    assert_eq!(sends.len(), 1);
    assert_eq!(sends[0].submission_id, "s1");
    assert_eq!(sends[0].send_at, Some(1_704_067_200_000));
    assert_eq!(sends[0].envelope.rcpt_to, vec!["bob@example.com".to_string()]);
    let created = r.created.expect("created");
    assert_eq!(created.len(), 1);
    assert_eq!(created[0].0, "c1");
    assert_eq!(created[0].1.undo_status, UndoStatus::Pending);
    let nc = r.not_created.expect("not created");
    assert_eq!(nc[0].0, "c2");
    assert_eq!(nc[0].1.error_type, "notFound");
    assert_eq!(state.submissions.len(), 1);
    assert_eq!(state.submissions[0].0, "s1");
}
