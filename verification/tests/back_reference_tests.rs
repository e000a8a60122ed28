use rusmes_jmap::back_reference::{resolve_back_references, BackRefError};
use rusmes_jmap::json::{JsonNumber, JsonValue};

fn s(x: &str) -> JsonValue {
    JsonValue::Str(x.to_string())
}

fn n(x: u64) -> JsonValue {
    JsonValue::Number(JsonNumber::PosInt(x))
}

fn obj(members: Vec<(&str, JsonValue)>) -> JsonValue {
    JsonValue::Object(members.into_iter().map(|(k, v)| (k.to_string(), v)).collect())
}

fn arr(items: Vec<JsonValue>) -> JsonValue {
    JsonValue::Array(items)
}

fn reference(result_of: &str, name: &str, path: &str) -> JsonValue {
    obj(vec![("resultOf", s(result_of)), ("name", s(name)), ("path", s(path))])
}

fn completed_entry(id: &str, name: &str, body: JsonValue) -> (String, String, JsonValue) {
    (id.to_string(), name.to_string(), body)
}

fn get<'a>(args: &'a [(String, JsonValue)], key: &str) -> Option<&'a JsonValue> {
    args.iter().find(|(k, _)| k == key).map(|(_, v)| v)
}

#[test]
fn test_back_ref_resolves_correctly() {
    let query_response = obj(vec![
        ("accountId", s("acc1")),
        ("queryState", s("s1")),
        ("canCalculateChanges", JsonValue::Bool(false)),
        ("position", n(0)),
        ("ids", arr(vec![s("email-1"), s("email-2"), s("email-3")])),
    ]);
    let completed = vec![completed_entry("c0", "Email/query", query_response)];
    let mut args = vec![
        ("accountId".to_string(), s("acc1")),
        ("#ids".to_string(), reference("c0", "Email/query", "/ids")),
    ];
    resolve_back_references(&mut args, &completed).expect("should resolve");
    assert!(get(&args, "#ids").is_none(), "#ids should have been removed");
    assert_eq!(
        get(&args, "ids"),
        Some(&arr(vec![s("email-1"), s("email-2"), s("email-3")])),
        "ids should equal the extracted array"
    );
    assert_eq!(get(&args, "accountId"), Some(&s("acc1")));
}

#[test]
fn test_back_ref_resolves_nested_path() {
    let email_get_response = obj(vec![
        ("accountId", s("acc1")),
        ("state", s("s2")),
        (
            "list",
            arr(vec![obj(vec![("id", s("email-1")), ("threadId", s("T1")), ("subject", s("Hello"))])]),
        ),
        ("notFound", arr(vec![])),
    ]);
    let completed = vec![completed_entry("c0", "Email/get", email_get_response)];
    let mut args = vec![("#threadId".to_string(), reference("c0", "Email/get", "/list/0/threadId"))];
    resolve_back_references(&mut args, &completed).expect("should resolve nested");
    assert!(get(&args, "#threadId").is_none());
    assert_eq!(get(&args, "threadId"), Some(&s("T1")));
}

#[test]
fn test_back_ref_result_not_found() {
    let completed: Vec<(String, String, JsonValue)> = vec![];
    let mut args = vec![("#ids".to_string(), reference("ghost-call", "Email/query", "/ids"))];
    let err = resolve_back_references(&mut args, &completed).expect_err("should return an error");
    assert!(
        matches!(err, BackRefError::ResultNotFound(ref id, _) if id == "ghost-call"),
        "unexpected error variant: {err:?}"
    );
}

#[test]
fn test_back_ref_result_not_found_wrong_name() {
    let completed = vec![completed_entry(
        "c0",
        "Email/get",
        obj(vec![("list", arr(vec![])), ("notFound", arr(vec![]))]),
    )];
    let mut args = vec![("#ids".to_string(), reference("c0", "Email/query", "/ids"))];
    let err = resolve_back_references(&mut args, &completed)
        .expect_err("should return an error for method-name mismatch");
    assert!(matches!(err, BackRefError::ResultNotFound(..)));
}

#[test]
fn test_back_ref_path_not_found() {
    let completed = vec![completed_entry(
        "c0",
        "Email/query",
        obj(vec![("accountId", s("acc1")), ("ids", arr(vec![s("e1")]))]),
    )];
    let mut args = vec![(
        "#missingKey".to_string(),
        reference("c0", "Email/query", "/doesNotExist/deeply/nested"),
    )];
    let err = resolve_back_references(&mut args, &completed).expect_err("should return PathNotFound");
    assert!(
        matches!(err, BackRefError::PathNotFound(ref p, _) if p == "/doesNotExist/deeply/nested"),
        "unexpected error: {err:?}"
    );
}

#[test]
fn test_back_ref_result_was_error() {
    let error_body = obj(vec![
        ("type", s("urn:ietf:params:jmap:error:serverFail")),
        ("detail", s("something went wrong")),
    ]);
    let completed = vec![completed_entry("c0", "Email/query", error_body)];
    let mut args = vec![("#ids".to_string(), reference("c0", "Email/query", "/ids"))];
    let err = resolve_back_references(&mut args, &completed).expect_err("should return ResultWasError");
    assert!(
        matches!(err, BackRefError::ResultWasError(ref id) if id == "c0"),
        "unexpected error: {err:?}"
    );
}

#[test]
fn test_back_ref_non_ref_shape_left_alone() {
    let completed: Vec<(String, String, JsonValue)> = vec![];
    let mut args = vec![
        ("#notARef".to_string(), s("plain string value")),
        ("#alsoNotARef".to_string(), obj(vec![("someOtherField", n(42))])),
    ];
    resolve_back_references(&mut args, &completed).expect("should succeed");
    assert_eq!(get(&args, "#notARef"), Some(&s("plain string value")));
    assert_eq!(get(&args, "#alsoNotARef"), Some(&obj(vec![("someOtherField", n(42))])));
}

#[test]
fn back_ref_earlier_references_stay_resolved_on_error() {
    let completed = vec![completed_entry("c0", "Email/query", obj(vec![("ids", arr(vec![s("e1")]))]))];
    let mut args = vec![
        ("#ids".to_string(), reference("c0", "Email/query", "/ids")),
        ("#other".to_string(), reference("c9", "Email/query", "/ids")),
    ];
    let err = resolve_back_references(&mut args, &completed).expect_err("second fails");
    assert!(matches!(err, BackRefError::ResultNotFound(ref id, _) if id == "c9"));
    assert_eq!(get(&args, "ids"), Some(&arr(vec![s("e1")])));
}

#[test]
fn back_ref_escaped_pointer_tokens() {
    let completed = vec![completed_entry(
        "c0",
        "Foo/get",
        obj(vec![("a/b", obj(vec![("m~n", s("v"))]))]),
    )];
    let mut args = vec![("#x".to_string(), reference("c0", "Foo/get", "/a~1b/m~0n"))];
    resolve_back_references(&mut args, &completed).expect("resolves");
    assert_eq!(get(&args, "x"), Some(&s("v")));
}
