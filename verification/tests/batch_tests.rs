use rusmes_jmap::api::{Batch, JmapMethodCall, JmapMethodResponse};
use rusmes_jmap::json::JsonValue;

fn s(x: &str) -> JsonValue {
    JsonValue::Str(x.to_string())
}

fn obj(members: Vec<(&str, JsonValue)>) -> JsonValue {
    JsonValue::Object(members.into_iter().map(|(k, v)| (k.to_string(), v)).collect())
}

fn reference(result_of: &str, name: &str, path: &str) -> JsonValue {
    obj(vec![("resultOf", s(result_of)), ("name", s(name)), ("path", s(path))])
}

fn call(name: &str, args: JsonValue, id: &str) -> JmapMethodCall {
    JmapMethodCall(name.to_string(), args, id.to_string())
}

#[test]
fn test_batch_plain_call_passes_through() {
    let mut batch = Batch::new();
    let prepared = batch.prepare(call("Mailbox/get", obj(vec![("accountId", s("a"))]), "c0"));
    let c = prepared.expect("a call without references is kept");
    assert_eq!(c.0, "Mailbox/get");
    assert_eq!(c.1, obj(vec![("accountId", s("a"))]));
    assert_eq!(c.2, "c0");
    assert!(batch.responses.is_empty());
    assert!(batch.completed.is_empty());
}

#[test]
fn test_batch_reference_to_success_resolves() {
    let mut batch = Batch::new();
    let body = obj(vec![("ids", JsonValue::Array(vec![s("m1"), s("m2")]))]);
    batch.record_success(
        "c0".to_string(),
        "Email/query".to_string(),
        JmapMethodResponse("Email/query".to_string(), body, "c0".to_string()),
    );
    assert_eq!(batch.responses.len(), 1);
    assert_eq!(batch.completed.len(), 1);
    let prepared = batch.prepare(call("Email/get", obj(vec![("#ids", reference("c0", "Email/query", "/ids"))]), "c1"));
    let c = prepared.expect("the reference resolves");
    assert_eq!(c.1, obj(vec![("ids", JsonValue::Array(vec![s("m1"), s("m2")]))]));
    assert_eq!(batch.responses.len(), 1);
}

#[test]
fn test_batch_reference_to_failed_call_is_result_was_error() {
    let mut batch = Batch::new();
    batch.record_failure("c0".to_string(), "Email/query".to_string(), "storage offline".to_string());
    assert_eq!(batch.responses.len(), 1);
    let first = &batch.responses[0];
    assert_eq!(first.0, "error");
    assert_eq!(first.2, "c0");
    assert_eq!(
        first.1,
        obj(vec![
            ("type", s("urn:ietf:params:jmap:error:serverFail")),
            ("detail", s("storage offline")),
        ])
    );
    let prepared = batch.prepare(call("Email/get", obj(vec![("#ids", reference("c0", "Email/query", "/ids"))]), "c1"));
    assert!(prepared.is_none());
    assert_eq!(batch.responses.len(), 2);
    let second = &batch.responses[1];
    assert_eq!(second.0, "error");
    assert_eq!(second.2, "c1");
    assert_eq!(
        second.1,
        obj(vec![
            ("type", s("urn:ietf:params:jmap:error:invalidArguments")),
            ("detail", s("referenced call id=\"c0\" returned an error response")),
        ])
    );
    assert_eq!(batch.completed.len(), 1);
}

#[test]
fn test_batch_unknown_reference_is_answered_and_not_completed() {
    let mut batch = Batch::new();
    let prepared = batch.prepare(call("Email/get", obj(vec![("#ids", reference("nope", "Email/query", "/ids"))]), "c1"));
    assert!(prepared.is_none());
    assert_eq!(batch.responses.len(), 1);
    assert_eq!(
        batch.responses[0].1,
        obj(vec![
            ("type", s("urn:ietf:params:jmap:error:invalidArguments")),
            ("detail", s("result not found: no completed call with id=\"nope\" and method=\"Email/query\"")),
        ])
    );
    assert!(batch.completed.is_empty());
}
