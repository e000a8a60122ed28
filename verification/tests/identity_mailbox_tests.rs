use rusmes_jmap::json::JsonValue;
use rusmes_jmap::methods::identity::{is_valid_email, Identity, IdentityAccountState};
use rusmes_jmap::methods::mailbox::mailbox_types::{apply_mailbox_sort, create_default_mailbox};
use rusmes_jmap::methods::mailbox::{mailbox_set_with, MailboxObject, MailboxRole, MailboxSetRequest, MailboxSort};
use rusmes_jmap::methods::{route_method, ForbiddenError, Route};
use rusmes_jmap::methods::forbidden_message;

fn ident(id: &str, email: &str) -> Identity {
    Identity {
        id: id.to_string(),
        name: "N".to_string(),
        email: email.to_string(),
        reply_to: None,
        bcc: None,
        text_signature: None,
        html_signature: None,
        may_delete: true,
    }
}

fn patch(members: Vec<(&str, JsonValue)>) -> JsonValue {
    JsonValue::Object(members.into_iter().map(|(k, v)| (k.to_string(), v)).collect())
}

#[test]
fn default_identity_created() {
    let st = IdentityAccountState::new_with_default("acc1", "alice@example.com");
    let d = st.get_identity("default").expect("default");
    assert_eq!(d.email, "alice@example.com");
    assert!(!d.may_delete);
    assert_eq!(st.state_token(), "1");
    let st = IdentityAccountState::new_with_default("acc1", "alice");
    assert_eq!(st.get_identity("default").expect("default").email, "acc1@localhost");
}

#[test]
fn create_then_get_then_delete_identity() {
    let mut st = IdentityAccountState::new_with_default("acc1", "alice");
    let created = st.create_identity(ident("i2", "b@x.org"));
    assert_eq!(created.id, "i2");
    assert_eq!(st.get_identity("i2").expect("readable").email, "b@x.org");
    assert_eq!(st.state_token(), "2");
    st.delete_identity("i2").expect("deleted");
    assert!(st.get_identity("i2").is_none());
    assert!(st.delete_identity("i2").is_err());
    assert_eq!(st.list_identities().len(), 1);
}

#[test]
fn default_identity_stays_undeletable_after_update() {
    let mut st = IdentityAccountState::new_with_default("acc1", "alice");
    let u = st
        .update_identity("default", &patch(vec![("mayDelete", JsonValue::Bool(true)), ("name", JsonValue::Str("Al".to_string()))]))
        .expect("patched");
    assert_eq!(u.name, "Al");
    assert!(!u.may_delete);
    assert_eq!(u.id, "default");
    assert!(st.update_identity("missing", &patch(vec![])).is_err());
}

#[test]
fn email_validity() {
    assert!(is_valid_email("a@b"));
    assert!(!is_valid_email("@b"));
    assert!(!is_valid_email("a@"));
    assert!(!is_valid_email("a@b@c"));
    assert!(!is_valid_email("ab"));
}

#[test]
fn special_use_mailbox_is_not_destroyed() {
    let request = MailboxSetRequest {
        account_id: "acc1".to_string(),
        if_in_state: None,
        create: None,
        update: None,
        destroy: Some(vec!["inbox".to_string(), "missing".to_string()]),
        on_destroy_remove_emails: None,
    };
    let r = mailbox_set_with(request, &vec![], "1".to_string(), "2".to_string());
    let nd = r.not_destroyed.expect("refusals");
    assert_eq!(nd[0].0, "inbox");
    assert_eq!(nd[0].1.error_type, "forbidden");
    assert_eq!(nd[0].1.description.as_deref(), Some("Cannot delete special-use mailbox"));
    assert_eq!(nd[1].1.error_type, "notFound");
    assert!(r.destroyed.is_none());
}

#[test]
fn mailbox_create_then_destroy() {
    let request = MailboxSetRequest {
        account_id: "acc1".to_string(),
        if_in_state: None,
        create: Some(vec![(
            "c1".to_string(),
            MailboxObject { name: "Projects".to_string(), parent_id: None, role: None, sort_order: None, is_subscribed: None },
        )]),
        update: None,
        destroy: Some(vec!["m-new".to_string()]),
        on_destroy_remove_emails: None,
    };
    let r = mailbox_set_with(request, &vec!["m-new".to_string()], "1".to_string(), "2".to_string());
    let created = r.created.expect("created");
    assert_eq!(created[0].0, "c1");
    assert_eq!(created[0].1.id, "m-new");
    assert_eq!(created[0].1.name, "Projects");
    assert_eq!(r.destroyed, Some(vec!["m-new".to_string()]));
    assert_eq!(r.old_state, "1");
    assert_eq!(r.new_state, "2");
}

#[test]
fn routing_and_capabilities() {
    let mail = vec!["urn:ietf:params:jmap:core".to_string(), "urn:ietf:params:jmap:mail".to_string()];
    assert!(matches!(route_method("Email/get", &mail), Route::Handle(_)));
    assert!(matches!(route_method("Nope/get", &mail), Route::Reject(_)));
    assert!(matches!(route_method("EmailSubmission/set", &mail), Route::Reject(_)));
    assert!(matches!(route_method("PushSubscription/get", &[]), Route::Handle(_)));
}

#[test]
fn forbidden_message_text() {
    let e = ForbiddenError { requested_account_id: "b".to_string(), principal_account_id: "a".to_string() };
    assert_eq!(
        forbidden_message(&e),
        "urn:ietf:params:jmap:error:forbidden: requested account 'b' is not owned by principal (owns 'a')"
    );
}

#[test]
fn test_would_create_cycle_walks_parent_chain() {
    let mut mailboxes = rusmes_jmap::methods::mailbox::mailbox_types::get_default_mailboxes();
    for (id, m) in mailboxes.iter_mut() {
        if id == "sent" {
            m.parent_id = Some("inbox".to_string());
        }
    }
    use_cycle_checks(&mailboxes);
}

fn use_cycle_checks(mailboxes: &Vec<(String, rusmes_jmap::methods::mailbox::Mailbox)>) {
    let check = rusmes_jmap::methods::mailbox::mailbox_types::would_create_cycle;
    // inbox under sent closes inbox -> sent -> inbox
    assert!(check("sent", "inbox", mailboxes));
    assert!(check("inbox", "inbox", mailboxes));
    // sent under inbox is how things already stand: inbox has no parent
    assert!(!check("inbox", "sent", mailboxes));
    assert!(!check("trash", "inbox", mailboxes));
    assert!(!check("unknown", "inbox", mailboxes));
}

#[test]
fn test_mailbox_update_refuses_circular_parent() {
    let patch = |p: &str| JsonValue::Object(vec![("parentId".to_string(), JsonValue::Str(p.to_string()))]);
    let request = MailboxSetRequest {
        account_id: "acc".to_string(),
        if_in_state: None,
        create: None,
        update: Some(vec![("sent".to_string(), patch("inbox")), ("inbox".to_string(), patch("sent"))]),
        destroy: None,
        on_destroy_remove_emails: None,
    };
    let r = mailbox_set_with(request, &Vec::new(), "1".to_string(), "2".to_string());
    let updated = r.updated.expect("sent moved under inbox");
    assert_eq!(updated.len(), 1);
    assert_eq!(updated[0].0, "sent");
    let not_updated = r.not_updated.expect("inbox under sent refused");
    assert_eq!(not_updated.len(), 1);
    assert_eq!(not_updated[0].0, "inbox");
    assert_eq!(not_updated[0].1.error_type, "invalidProperties");
    assert_eq!(not_updated[0].1.description.as_deref(), Some("Would create circular hierarchy"));
}

#[test]
fn mailbox_set_answers_each_create_once() {
    let obj = |name: &str, parent: Option<&str>| MailboxObject {
        name: name.to_string(),
        parent_id: parent.map(|p| p.to_string()),
        role: None,
        sort_order: None,
        is_subscribed: None,
    };
    let request = MailboxSetRequest {
        account_id: "acc1".to_string(),
        if_in_state: None,
        create: Some(vec![
            ("c1".to_string(), obj("Spam", None)),
            ("c2".to_string(), obj("a/b", None)),
            ("c3".to_string(), obj("Child", Some("nowhere"))),
            ("c4".to_string(), obj("Child", Some("m1"))),
        ]),
        update: None,
        destroy: None,
        on_destroy_remove_emails: None,
    };
    let ids = vec!["m1".to_string(), "m2".to_string(), "m3".to_string(), "m4".to_string()];
    let r = mailbox_set_with(request, &ids, "1".to_string(), "2".to_string());
    let created = r.created.expect("created");
    assert_eq!(created.len(), 2);
    assert_eq!(created[0].0, "c1");
    assert_eq!(created[0].1.id, "m1");
    assert_eq!(created[0].1.role, Some(MailboxRole::Junk));
    assert_eq!(created[0].1.sort_order, 1000);
    assert!(!created[0].1.is_subscribed);
    assert_eq!(created[1].0, "c4");
    assert_eq!(created[1].1.parent_id.as_deref(), Some("m1"));
    let nc = r.not_created.expect("not created");
    assert_eq!(nc.len(), 2);
    assert_eq!(nc[0].0, "c2");
    assert_eq!(nc[0].1.error_type, "invalidProperties");
    assert_eq!(nc[0].1.description.as_deref(), Some("Mailbox name contains invalid characters"));
    assert_eq!(nc[1].0, "c3");
    assert_eq!(nc[1].1.description.as_deref(), Some("Parent mailbox not found"));
}

#[test]
fn role_detection_ignores_ascii_case() {
    assert_eq!(MailboxRole::detect_from_name("INBOX"), Some(MailboxRole::Inbox));
    assert_eq!(MailboxRole::detect_from_name("Sent Items"), Some(MailboxRole::Sent));
    assert_eq!(MailboxRole::detect_from_name("sent items"), Some(MailboxRole::Sent));
    assert_eq!(MailboxRole::detect_from_name("Projects"), None);
}

#[test]
fn mailbox_sort_is_stable() {
    let mut v = vec![
        create_default_mailbox("a", "Zeta", None, 5),
        create_default_mailbox("b", "Alpha", None, 1),
        create_default_mailbox("c", "Beta", None, 5),
        create_default_mailbox("d", "Gamma", None, 1),
    ];
    apply_mailbox_sort(&mut v, &[MailboxSort { property: "sortOrder".to_string(), is_ascending: None }]);
    let ids: Vec<&str> = v.iter().map(|m| m.id.as_str()).collect();
    assert_eq!(ids, vec!["b", "d", "a", "c"]);
    apply_mailbox_sort(&mut v, &[MailboxSort { property: "name".to_string(), is_ascending: Some(false) }]);
    let ids: Vec<&str> = v.iter().map(|m| m.id.as_str()).collect();
    assert_eq!(ids, vec!["a", "d", "c", "b"]);
}
