use rusmes_jmap::blob::compute_blob_id;
use rusmes_jmap::json::JsonValue;
use rusmes_jmap::methods::email::{
    apply_keyword_patch, build_mail_from_set_object, build_mail_from_set_object_with, build_search_criteria, classify_destroy_error,
    classify_update_error, convert_mail_to_email, detect_attachment, email_get_with, flags_to_keywords,
    format_addresses, jmap_keywords_from_flags, join_spaced, keywords_to_flags, mail_headers, parse_address_list,
    parse_date_header, parse_received_header, plan_email_create, plan_email_update, CreatePlanError,
    EmailConversionContext, EmailGetRequest, EmailOpError, EmailSetObject, MailboxChange, MessageFlags,
    SearchCriteria,
};
use rusmes_jmap::{EmailAddress, Principal};
use rusmes_jmap::types::EmailFilterCondition;

const MBX_A: &str = "11111111-1111-1111-1111-111111111111";
const MBX_B: &str = "22222222-2222-2222-2222-222222222222";

fn kw_get(kw: &[(String, bool)], k: &str) -> Option<bool> {
    kw.iter().find(|(n, _)| n == k).map(|(_, v)| *v)
}

fn headers(pairs: &[(&str, &[&str])]) -> Vec<(String, Vec<String>)> {
    pairs
        .iter()
        .map(|(k, vs)| (k.to_string(), vs.iter().map(|v| v.to_string()).collect()))
        .collect()
}

fn obj(members: Vec<(&str, JsonValue)>) -> JsonValue {
    JsonValue::Object(members.into_iter().map(|(k, v)| (k.to_string(), v)).collect())
}

fn empty_filter() -> EmailFilterCondition {
    EmailFilterCondition {
        in_mailbox: None,
        in_mailbox_other_than: None,
        before: None,
        after: None,
        min_size: None,
        max_size: None,
        all_in_thread_have_keyword: None,
        some_in_thread_have_keyword: None,
        none_in_thread_have_keyword: None,
        has_keyword: None,
        not_keyword: None,
        has_attachment: None,
        text: None,
        from: None,
        to: None,
        cc: None,
        bcc: None,
        subject: None,
        body: None,
        header: None,
    }
}

fn set_object() -> EmailSetObject {
    EmailSetObject {
        mailbox_ids: vec![],
        keywords: None,
        from: None,
        to: None,
        cc: None,
        bcc: None,
        reply_to: None,
        sender: None,
        subject: None,
        sent_at: None,
        message_id: None,
        in_reply_to: None,
        references: None,
        body_values: None,
        text_body: None,
    }
}

fn ctx(blob: &str) -> EmailConversionContext {
    EmailConversionContext {
        blob_id: blob.to_string(),
        received_at: 1_704_067_200_000,
        mailbox_ids: vec![("inbox".to_string(), true)],
        keywords: vec![],
        thread_id: None,
    }
}

#[test]
fn test_compute_blob_id_deterministic() {
    let id1 = compute_blob_id(b"hello world");
    let id2 = compute_blob_id(b"hello world");
    assert_eq!(id1, id2);
    assert_eq!(id1.len(), 64);
}

#[test]
fn test_compute_blob_id_differs_for_different_inputs() {
    let id1 = compute_blob_id(b"foo");
    let id2 = compute_blob_id(b"bar");
    assert_ne!(id1, id2);
}

#[test]
fn test_jmap_keywords_from_flags_canonical_mapping() {
    let mut flags = MessageFlags::new();
    flags.seen = true;
    flags.flagged = true;
    let kw = jmap_keywords_from_flags(&flags);
    assert_eq!(kw_get(&kw, "$seen"), Some(true));
    assert_eq!(kw_get(&kw, "$flagged"), Some(true));
    assert_eq!(kw_get(&kw, "$answered"), None);
}

#[test]
fn test_jmap_keywords_from_flags_all_set() {
    let mut flags = MessageFlags::new();
    flags.seen = true;
    flags.answered = true;
    flags.flagged = true;
    flags.deleted = true;
    flags.draft = true;
    let kw = jmap_keywords_from_flags(&flags);
    assert_eq!(kw_get(&kw, "$seen"), Some(true));
    assert_eq!(kw_get(&kw, "$answered"), Some(true));
    assert_eq!(kw_get(&kw, "$flagged"), Some(true));
    assert_eq!(kw_get(&kw, "$deleted"), Some(true));
    assert_eq!(kw_get(&kw, "$draft"), Some(true));
}

#[test]
fn test_placeholder_context_has_inbox() {
    let ctx = EmailConversionContext::placeholder("some-blob-id".to_string());
    assert_eq!(kw_get(&ctx.mailbox_ids, "inbox"), Some(true));
    assert!(ctx.keywords.is_empty());
    assert!(ctx.thread_id.is_none());
    assert_eq!(ctx.blob_id, "some-blob-id");
}

#[test]
fn keywords_round_trip_keeps_system_flags() {
    let mut flags = MessageFlags::new();
    flags.seen = true;
    flags.draft = true;
    flags.add_custom("$label".to_string());
    let back = keywords_to_flags(&flags_to_keywords(&flags));
    assert!(back.seen && back.draft && !back.answered && !back.flagged && !back.deleted);
    assert!(back.custom.is_empty());
}

#[test]
fn keywords_to_flags_lowercases_and_keeps_custom() {
    let f = keywords_to_flags(&vec![
        ("$Seen".to_string(), true),
        ("$Flagged".to_string(), false),
        ("Work".to_string(), true),
    ]);
    assert!(f.seen);
    assert!(!f.flagged);
    assert_eq!(f.custom, vec!["work".to_string()]);
}

#[test]
fn keyword_patch_per_flag_and_full() {
    let patch = obj(vec![
        ("/keywords/$seen", JsonValue::Bool(true)),
        ("/keywords/Todo", JsonValue::Bool(true)),
        ("/mailboxIds/x", JsonValue::Bool(true)),
    ]);
    let (f, changed) = apply_keyword_patch(MessageFlags::new(), &patch);
    assert!(changed);
    assert!(f.seen);
    assert_eq!(f.custom, vec!["todo".to_string()]);
    let full = obj(vec![("keywords", obj(vec![("$draft", JsonValue::Bool(true))]))]);
    let (g, changed) = apply_keyword_patch(f, &full);
    assert!(changed);
    assert!(g.draft && !g.seen);
    assert!(g.custom.is_empty());
    let (h, changed) = apply_keyword_patch(MessageFlags::new(), &JsonValue::Null);
    assert!(!changed && !h.seen);
}

#[test]
fn update_plan_full_replacement() {
    let patch = obj(vec![(
        "/mailboxIds",
        obj(vec![(MBX_A, JsonValue::Bool(true)), ("not-a-uuid", JsonValue::Bool(true)), (MBX_B, JsonValue::Bool(false))]),
    )]);
    let plan = plan_email_update(&patch);
    assert_eq!(plan.owning_mailbox.as_deref(), Some(MBX_A));
    assert_eq!(plan.mailbox_changes.len(), 1);
    assert!(matches!(&plan.mailbox_changes[0], MailboxChange::Ensure(id) if id == MBX_A));
}

#[test]
fn update_plan_per_mailbox_paths() {
    let add = format!("/mailboxIds/{}", MBX_A);
    let remove = format!("/mailboxIds/{}", MBX_B);
    let patch = obj(vec![
        (remove.as_str(), JsonValue::Bool(false)),
        (add.as_str(), JsonValue::Bool(true)),
        ("/mailboxIds/bogus", JsonValue::Bool(true)),
    ]);
    let plan = plan_email_update(&patch);
    assert_eq!(plan.owning_mailbox.as_deref(), Some(MBX_A));
    assert_eq!(plan.mailbox_changes.len(), 2);
    assert!(matches!(&plan.mailbox_changes[0], MailboxChange::Remove(id) if id == MBX_B));
    assert!(matches!(&plan.mailbox_changes[1], MailboxChange::Ensure(id) if id == MBX_A));
    let none = plan_email_update(&JsonValue::Bool(true));
    assert!(none.owning_mailbox.is_none() && none.mailbox_changes.is_empty());
}

#[test]
fn create_plan_cases() {
    let mut o = set_object();
    assert!(matches!(plan_email_create(&o), Err(CreatePlanError::NoMailbox)));
    o.mailbox_ids = vec![("junk".to_string(), true)];
    assert!(matches!(plan_email_create(&o), Err(CreatePlanError::InvalidMailbox(ref m)) if m == "junk"));
    o.mailbox_ids = vec![
        ("x".to_string(), false),
        (MBX_A.to_string(), true),
        ("bad".to_string(), true),
        (MBX_B.to_string(), true),
    ];
    o.keywords = Some(vec![("$seen".to_string(), true)]);
    let plan = plan_email_create(&o).expect("valid");
    assert_eq!(plan.primary, MBX_A);
    assert_eq!(plan.extra_mailboxes, vec![MBX_B.to_string()]);
    assert!(plan.flags.expect("flags").seen);
    o.keywords = Some(vec![]);
    assert!(plan_email_create(&o).expect("valid").flags.is_none());
}

#[test]
fn search_criteria_shapes() {
    assert!(matches!(build_search_criteria(&empty_filter()), SearchCriteria::All));
    let mut f = empty_filter();
    f.from = Some("bob".to_string());
    assert!(matches!(build_search_criteria(&f), SearchCriteria::From(ref s) if s == "bob"));
    let mut f = empty_filter();
    f.text = Some("hi".to_string());
    f.has_keyword = Some("$seen".to_string());
    f.not_keyword = Some("$flagged".to_string());
    match build_search_criteria(&f) {
        SearchCriteria::And(v) => {
            assert_eq!(v.len(), 4);
            assert!(matches!(&v[0], SearchCriteria::Subject(s) if s == "hi"));
            assert!(matches!(&v[1], SearchCriteria::Body(s) if s == "hi"));
            assert!(matches!(&v[2], SearchCriteria::Seen));
            assert!(matches!(&v[3], SearchCriteria::Unflagged));
        }
        other => panic!("unexpected {other:?}"),
    }
    let mut f = empty_filter();
    f.has_keyword = Some("$draft".to_string());
    assert!(matches!(build_search_criteria(&f), SearchCriteria::All));
}

#[test]
fn mail_headers_in_order() {
    let mut o = set_object();
    o.from = Some(vec![EmailAddress { name: Some("Alice".to_string()), email: "a@x.org".to_string() }]);
    o.to = Some(vec![]);
    o.subject = Some("Hi".to_string());
    o.message_id = Some(vec!["<m1@x>".to_string(), "<m2@x>".to_string()]);
    o.references = Some(vec!["<r1@x>".to_string(), "<r2@x>".to_string()]);
    let h = mail_headers(&o, "Mon, 1 Jan 2024 00:00:00 +0000".to_string());
    let names: Vec<&str> = h.iter().map(|(k, _)| k.as_str()).collect();
    assert_eq!(names, vec!["from", "subject", "date", "message-id", "references", "content-type"]);
    assert_eq!(h[0].1, "\"Alice\" <a@x.org>");
    assert_eq!(h[3].1, "<m1@x>");
    assert_eq!(h[4].1, "<r1@x> <r2@x>");
    assert_eq!(h[5].1, "text/plain; charset=utf-8");
    assert_eq!(join_spaced(&vec![]), "");
}

#[test]
fn build_mail_uses_sent_at() {
    let mut o = set_object();
    o.sent_at = Some(1_704_067_200_000);
    let m = build_mail_from_set_object(&o).expect("ok");
    assert_eq!(m.date_ms, 1_704_067_200_000);
    let date = m.headers.iter().find(|(k, _)| k == "date").expect("date").1.clone();
    assert_eq!(date, "Mon, 1 Jan 2024 00:00:00 +0000");
    let now = build_mail_from_set_object(&set_object()).expect("ok");
    assert!(now.date_ms > 1_704_067_200_000);
}

#[test]
fn build_mail_with_given_time() {
    let m = build_mail_from_set_object_with(&set_object(), 0).expect("ok");
    assert_eq!(m.date_ms, 0);
    let date = m.headers.iter().find(|(k, _)| k == "date").expect("date").1.clone();
    assert_eq!(date, "Thu, 1 Jan 1970 00:00:00 +0000");
    let mut o = set_object();
    o.sent_at = Some(1_704_067_200_000);
    let kept = build_mail_from_set_object_with(&o, 0).expect("ok");
    assert_eq!(kept.date_ms, 1_704_067_200_000);
    let err = build_mail_from_set_object_with(&set_object(), i64::MAX).expect_err("out of range");
    assert_eq!(err, "the current time has no RFC 2822 date");
}

#[test]
fn format_and_parse_addresses() {
    let addrs = vec![
        EmailAddress { name: Some("A".to_string()), email: "a@x".to_string() },
        EmailAddress { name: None, email: "b@x".to_string() },
    ];
    assert_eq!(format_addresses(&addrs), "\"A\" <a@x>, b@x");
    let parsed = parse_address_list("\"Bob B\" <bob@x>,  carol@y , ");
    assert_eq!(parsed.len(), 2);
    assert_eq!(parsed[0].name.as_deref(), Some("Bob B"));
    assert_eq!(parsed[0].email, "bob@x");
    assert_eq!(parsed[1].name, None);
    assert_eq!(parsed[1].email, "carol@y");
}

#[test]
fn dates_from_headers() {
    assert_eq!(parse_date_header(Some("Mon, 1 Jan 2024 00:00:00 +0000")), Some(1_704_067_200_000));
    assert_eq!(parse_date_header(Some("not a date")), None);
    assert_eq!(parse_date_header(None), None);
    let h = headers(&[(
        "Received",
        &["from a by b", "from c by d; Mon, 1 Jan 2024 01:00:00 +0100"],
    )]);
    assert_eq!(parse_received_header(&h), Some(1_704_067_200_000));
    assert_eq!(parse_received_header(&headers(&[])), None);
}

#[test]
fn test_convert_mail_to_email_uses_real_blob_id() {
    let h = headers(&[("Subject", &["Test"]), ("From", &["alice@example.com"])]);
    let caller_blob_id = compute_blob_id(b"test-id-123");
    let email = convert_mail_to_email("msg-1", &h, 40, None, ctx(&caller_blob_id));
    assert_eq!(email.blob_id, caller_blob_id);
    assert_eq!(email.subject.as_deref(), Some("Test"));
    assert_eq!(email.from.expect("from")[0].email, "alice@example.com");
}

#[test]
fn test_convert_mail_to_email_thread_id_present() {
    let h = headers(&[("Subject", &["Thread test"])]);
    let mut c = ctx("blob-thread");
    c.thread_id = Some("T123".to_string());
    let email = convert_mail_to_email("msg-4", &h, 10, None, c);
    assert_eq!(email.thread_id, Some("T123".to_string()));
    assert_eq!(email.received_at, 1_704_067_200_000);
}

#[test]
fn test_convert_mail_to_email_thread_id_none() {
    let h = headers(&[("Subject", &["No thread"])]);
    let email = convert_mail_to_email(
        "msg-6",
        &h,
        10,
        None,
        EmailConversionContext::placeholder("blob-no-thread".to_string()),
    );
    assert_eq!(email.thread_id, None);
}

#[test]
fn convert_reads_ids_and_attachment() {
    let h = headers(&[
        ("Message-ID", &["<m@x>"]),
        ("References", &["<a@x>", "<b@x>"]),
        ("Content-Type", &["multipart/mixed; boundary=z"]),
        ("Date", &["Mon, 1 Jan 2024 00:00:00 +0000"]),
    ]);
    let email = convert_mail_to_email("m", &h, 1, Some("pre".to_string()), ctx("b"));
    assert_eq!(email.message_id, Some(vec!["<m@x>".to_string()]));
    assert_eq!(email.references, Some(vec!["<a@x>".to_string(), "<b@x>".to_string()]));
    assert!(email.has_attachment);
    assert_eq!(email.sent_at, Some(1_704_067_200_000));
    assert_eq!(email.preview.as_deref(), Some("pre"));
    assert!(detect_attachment(&headers(&[("Content-Type", &["image/png; name=a.png"])])));
    assert!(!detect_attachment(&headers(&[("Content-Type", &["text/plain"])])));
}

#[test]
fn email_get_found_and_missing() {
    let p = Principal { username: "u".to_string(), account_id: "acc".to_string(), scopes: vec![] };
    let req = EmailGetRequest {
        account_id: "acc".to_string(),
        ids: Some(vec![MBX_A.to_string(), "not-uuid".to_string(), MBX_B.to_string()]),
        properties: None,
    };
    let found = vec![
        Some(convert_mail_to_email(MBX_A, &headers(&[]), 1, None, ctx("b1"))),
        Some(convert_mail_to_email("x", &headers(&[]), 1, None, ctx("b2"))),
        None,
    ];
    let r = email_get_with(req, &p, found, 1700000000).expect("owned");
    assert_eq!(r.state, "1700000000");
    assert_eq!(r.list.len(), 1);
    assert_eq!(r.list[0].id, MBX_A);
    assert_eq!(r.not_found, vec!["not-uuid".to_string(), MBX_B.to_string()]);
    let req = EmailGetRequest { account_id: "other".to_string(), ids: None, properties: None };
    assert!(email_get_with(req, &p, vec![], 0).is_err());
}

#[test]
fn op_error_classification() {
    let (t, _) = classify_update_error(&EmailOpError::NotFound("x".to_string()));
    assert_eq!(t, "notFound");
    let (t, _) = classify_update_error(&EmailOpError::Other("Invalid mailbox ID: bad".to_string()));
    assert_eq!(t, "invalidArguments");
    let (t, _) = classify_destroy_error(&EmailOpError::Other("Invalid mailbox ID: bad".to_string()));
    assert_eq!(t, "serverFail");
    let (t, _) = classify_destroy_error(&EmailOpError::Other("Invalid message ID: bad".to_string()));
    assert_eq!(t, "invalidArguments");
}
