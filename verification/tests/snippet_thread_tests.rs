use sha2::{Digest, Sha256};
use rusmes_jmap::methods::search_snippet::{
    extract_search_terms, find_bytes_from, generate_snippet, generate_snippet_checked, highlight_snippet,
    highlight_snippet_checked, search_snippet_get, snippet_window_checked, split_words, SearchSnippetGetRequest,
};
use rusmes_jmap::methods::thread;
use rusmes_jmap::methods::thread::{
    calculate_thread_id, thread_changes, thread_get, ThreadChangesRequest, ThreadGetRequest,
};
use rusmes_jmap::types::EmailFilterCondition;
use rusmes_jmap::Principal;

fn filter(text: Option<&str>, from: Option<&str>, subject: Option<&str>, body: Option<&str>) -> EmailFilterCondition {
    EmailFilterCondition {
        in_mailbox: None,
        in_mailbox_other_than: None,
        before: None,
        after: None,
        min_size: None,
        max_size: None,
        all_in_thread_have_keyword: None,
        some_in_thread_have_keyword: None,
        none_in_thread_have_keyword: None,
        has_keyword: None,
        not_keyword: None,
        has_attachment: None,
        text: text.map(|s| s.to_string()),
        from: from.map(|s| s.to_string()),
        to: None,
        cc: None,
        bcc: None,
        subject: subject.map(|s| s.to_string()),
        body: body.map(|s| s.to_string()),
        header: None,
    }
}

fn acc1() -> Principal {
    Principal { username: "admin".to_string(), account_id: "acc1".to_string(), scopes: vec![] }
}

#[test]
fn search_snippet_get_without_terms_lists_all() {
    let request = SearchSnippetGetRequest {
        account_id: "acc1".to_string(),
        email_ids: vec!["email1".to_string(), "email2".to_string(), "email3".to_string()],
        filter: None,
    };
    let response = search_snippet_get(request, &acc1()).unwrap();
    assert_eq!(response.account_id, "acc1");
    assert_eq!(response.list.len(), 3);
    assert_eq!(response.list[1].email_id, "email2");
    assert!(response.not_found.is_empty());
}

#[test]
fn search_snippet_get_with_terms_reports_not_found() {
    let request = SearchSnippetGetRequest {
        account_id: "acc1".to_string(),
        email_ids: vec!["email1".to_string()],
        filter: Some(filter(Some("search term"), None, None, None)),
    };
    let response = search_snippet_get(request, &acc1()).unwrap();
    assert_eq!(response.account_id, "acc1");
    assert!(response.list.is_empty());
    assert_eq!(response.not_found, vec!["email1".to_string()]);
}

#[test]
fn search_snippet_get_empty_and_forbidden() {
    let request = SearchSnippetGetRequest { account_id: "acc1".to_string(), email_ids: vec![], filter: None };
    let response = search_snippet_get(request, &acc1()).unwrap();
    assert_eq!(response.list.len(), 0);
    assert_eq!(response.not_found.len(), 0);
    let request = SearchSnippetGetRequest { account_id: "other".to_string(), email_ids: vec![], filter: None };
    let err = search_snippet_get(request, &acc1()).expect_err("forbidden");
    assert!(err.contains("forbidden"));
}

#[test]
fn extract_terms_text() {
    let terms = extract_search_terms(&Some(filter(Some("search term"), None, None, None)));
    assert_eq!(terms, vec!["search".to_string(), "term".to_string()]);
}

#[test]
fn extract_terms_multiple_fields_in_order() {
    let terms = extract_search_terms(&Some(filter(Some("search"), Some("user"), Some("important"), Some("message"))));
    assert_eq!(terms, vec!["search", "important", "message", "user"]);
    assert_eq!(extract_search_terms(&None).len(), 0);
}

#[test]
fn split_words_like_split_whitespace() {
    let mut out = vec!["x".to_string()];
    split_words("  a\tbb  \n c ", &mut out);
    assert_eq!(out, vec!["x", "a", "bb", "c"]);
    let mut none: Vec<String> = vec![];
    split_words("   ", &mut none);
    assert!(none.is_empty());
}

#[test]
fn generate_snippet_no_search_terms() {
    let text = "This is a test message with some content.";
    assert_eq!(generate_snippet(text, &[], 100), text);
}

#[test]
fn generate_snippet_with_match() {
    let text = "This is a test message with important information that we need to find.";
    let snippet = generate_snippet(text, &["important".to_string()], 100);
    assert!(snippet.contains("important"));
    assert!(snippet.contains("<mark>"));
}

#[test]
fn generate_snippet_truncate_long_text() {
    let text = "A".repeat(200);
    let snippet = generate_snippet(&text, &[], 50);
    assert!(snippet.len() <= 53);
    assert!(snippet.ends_with("..."));
}

#[test]
fn generate_snippet_match_at_start_and_end() {
    let s = generate_snippet("Important information at the beginning of the message.", &["Important".to_string()], 100);
    assert!(s.contains("<mark>Important</mark>"));
    let s = generate_snippet("The message ends with important information.", &["important".to_string()], 100);
    assert!(s.contains("<mark>important</mark>"));
}

#[test]
fn generate_snippet_multiple_terms_and_case() {
    let s = generate_snippet(
        "This message contains both urgent and important information.",
        &["urgent".to_string(), "important".to_string()],
        100,
    );
    assert!(s.contains("<mark>urgent</mark>") || s.contains("<mark>important</mark>"));
    let s = generate_snippet("This message contains IMPORTANT information.", &["important".to_string()], 100);
    assert!(s.to_lowercase().contains("<mark>important</mark>"));
}

#[test]
fn generate_snippet_exact_max_and_short() {
    let text = "Exactly fifty characters for testing purposes!";
    assert_eq!(generate_snippet(text, &[], 47), text);
    assert_eq!(generate_snippet("Hi", &[], 100), "Hi");
    let s = generate_snippet("This is a longer message that should be truncated", &[], 20);
    assert!(s.len() <= 20);
    assert!(s.ends_with("..."));
    assert_eq!(s, "This is a longer ...");
}

#[test]
fn generate_snippet_context_window() {
    let text = "A".repeat(50) + "IMPORTANT" + &"Z".repeat(50);
    let snippet = generate_snippet(&text, &["IMPORTANT".to_string()], 80);
    assert!(snippet.contains("<mark>IMPORTANT</mark>"));
    assert!(snippet.contains("..."));
    assert_eq!(snippet, "A".repeat(50) + "<mark>IMPORTANT</mark>" + &"Z".repeat(15) + "...");
}

#[test]
fn generate_snippet_window_leading_dots() {
    let text = "x".repeat(60) + "key" + &"y".repeat(10);
    let s = generate_snippet(&text, &["key".to_string()], 200);
    assert_eq!(s, "...".to_string() + &"x".repeat(50) + "<mark>key</mark>" + &"y".repeat(10));
}

#[test]
fn generate_snippet_checked_refuses_split_character() {
    // Cutting "é" (two bytes) after its first byte cannot be done.
    assert_eq!(generate_snippet_checked("aé", &[], 4), Some("aé".to_string()));
    assert_eq!(generate_snippet_checked("aébcdef", &[], 5), None);
    assert_eq!(generate_snippet_checked("abcdef", &[], 5), Some("ab...".to_string()));
}

#[test]
fn highlight_basic_and_multiple() {
    assert!(highlight_snippet("This is an important message", &["important".to_string()])
        .contains("<mark>important</mark>"));
    let h = highlight_snippet("test message with test data", &["test".to_string()]);
    assert_eq!(h.matches("<mark>test</mark>").count(), 2);
    assert_eq!(h, "<mark>test</mark> message with <mark>test</mark> data");
}

#[test]
fn highlight_case_preservation_and_no_terms() {
    let h = highlight_snippet("IMPORTANT message is Important", &["important".to_string()]);
    assert!(h.contains("<mark>IMPORTANT</mark>"));
    assert!(h.contains("<mark>Important</mark>"));
    let t = "No highlighting needed";
    assert_eq!(highlight_snippet(t, &[]), t);
}

#[test]
fn highlight_overlapping_terms() {
    let h = highlight_snippet("important information", &["important".to_string(), "info".to_string()]);
    assert_eq!(h, "<mark>important</mark> <mark>info</mark>rmation");
    let h = highlight_snippet("information", &["information".to_string(), "form".to_string()]);
    assert!(h.contains("<mark>"));
}

#[test]
fn highlight_checked_empty_term_never_finishes() {
    assert_eq!(highlight_snippet_checked("abc", &["".to_string()]), None);
    assert_eq!(highlight_snippet_checked("abc", &["b".to_string()]), Some("a<mark>b</mark>c".to_string()));
}

#[test]
fn find_bytes_positions() {
    assert_eq!(find_bytes_from(b"abcabc", b"bc", 0), Some(1));
    assert_eq!(find_bytes_from(b"abcabc", b"bc", 2), Some(4));
    assert_eq!(find_bytes_from(b"abc", b"", 3), Some(3));
    assert_eq!(find_bytes_from(b"abc", b"zz", 0), None);
    assert_eq!(find_bytes_from(b"abc", b"a", 4), None);
}

#[test]
fn thread_get_reports_not_found() {
    let request = ThreadGetRequest {
        account_id: "acc1".to_string(),
        ids: Some(vec!["thread1".to_string(), "thread2".to_string()]),
        properties: Some(vec!["id".to_string()]),
    };
    let response = thread_get(request);
    assert_eq!(response.account_id, "acc1");
    assert_eq!(response.state, "1");
    assert_eq!(response.not_found, vec!["thread1".to_string(), "thread2".to_string()]);
    assert!(response.list.is_empty());
    let all = thread_get(ThreadGetRequest { account_id: "acc1".to_string(), ids: None, properties: None });
    assert_eq!(all.list.len(), 0);
    assert!(all.not_found.is_empty());
}

#[test]
fn thread_changes_progression() {
    let r = thread_changes(ThreadChangesRequest {
        account_id: "acc1".to_string(),
        since_state: "1".to_string(),
        max_changes: Some(50),
    });
    assert_eq!(r.old_state, "1");
    assert_eq!(r.new_state, "2");
    assert!(!r.has_more_changes);
    let r = thread_changes(ThreadChangesRequest {
        account_id: "acc1".to_string(),
        since_state: "100".to_string(),
        max_changes: Some(10),
    });
    assert_eq!(r.new_state, "101");
    let r = thread_changes(ThreadChangesRequest {
        account_id: "acc1".to_string(),
        since_state: "garbage".to_string(),
        max_changes: None,
    });
    assert_eq!(r.old_state, "garbage");
    assert_eq!(r.new_state, "1");
}

#[test]
fn thread_id_from_root() {
    let refs = vec!["<root@example.com>".to_string(), "<reply1@example.com>".to_string()];
    let id = calculate_thread_id(Some("<reply2@example.com>"), None, Some(refs.as_slice()));
    assert!(id.starts_with('T'));
    assert_eq!(id.len(), 32);
    assert_eq!(id, calculate_thread_id(Some("<root@example.com>"), None, None));
    let irt = vec!["<original@example.com>".to_string()];
    assert_eq!(
        calculate_thread_id(Some("<reply@example.com>"), Some(irt.as_slice()), Some(Vec::<String>::new().as_slice())),
        calculate_thread_id(Some("<original@example.com>"), None, None)
    );
    let unknown = calculate_thread_id(None, None, None);
    assert_eq!(unknown, calculate_thread_id(Some("unknown"), None, None));
    // "T" and the first 31 hex digits of SHA-256("unknown").
    let hex = format!("{:x}", Sha256::digest(b"unknown"));
    assert_eq!(unknown, format!("T{}", &hex[..31]));
}

#[test]
fn thread_snippets_are_unmarked() {
    let text = "This is a test message with important information that we need to find.";
    let s = thread::generate_snippet(text, &["important".to_string()], 100);
    assert!(s.contains("important"));
    assert!(!s.contains("<mark>"));
    let long = "A".repeat(200);
    let s = thread::generate_snippet(&long, &[], 50);
    assert_eq!(s.len(), 50);
    assert!(s.ends_with("..."));
    let s = thread::generate_snippet("Important information at the beginning of the message.", &["Important".to_string()], 100);
    assert!(s.starts_with("Important"));
    assert_eq!(snippet_window_checked("aébcdef", &[], 5), None);
    assert_eq!(thread::highlight_snippet("a b", &["b".to_string()]), "a <mark>b</mark>");
}

#[test]
fn test_highlight_enclosing_match_dropped() {
    let terms = vec!["important".to_string(), "por".to_string()];
    let out = rusmes_jmap::methods::search_snippet::highlight_snippet_checked("important", &terms).expect("ascii");
    assert_eq!(out, "im<mark>por</mark>tant");
    assert_eq!(out.replace("<mark>", "").replace("</mark>", ""), "important");
}

#[test]
fn test_highlight_overlapping_matches_keep_text() {
    let terms = vec!["abc".to_string(), "bcd".to_string()];
    let out = rusmes_jmap::methods::search_snippet::highlight_snippet_checked("xabcde", &terms).expect("ascii");
    assert_eq!(out.replace("<mark>", "").replace("</mark>", ""), "xabcde");
    assert_eq!(out.matches("<mark>").count(), 1);
}
