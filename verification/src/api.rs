//! Request-level rules of the JMAP API endpoint (RFC 8620 §3).
use vstd::prelude::*;

use crate::back_reference::{
    back_ref_error_text, completed_model, error_type_prefix, find_completed, hash_keys, is_error_body, ref_err,
    reference_of, resolve_all, resolve_back_references, resolve_one, BackRefError, RefErr,
};
use crate::json::{clone_json, jm, jm_entries, lemma_jm_entries, obj_lookup, JNum, JModel, JsonNumber, JsonValue};
use crate::text::{concat, decimal, str_eq, string_from, u64_to_decimal};
use crate::types::{account_id_spec, derive_account_id, error_type_uri, JmapError, JmapErrorType};

verus! {

/// One method call of a request: method name, arguments, call id.
#[derive(Debug)]
pub struct JmapMethodCall(pub String, pub JsonValue, pub String);

/// A JMAP request.
#[derive(Debug)]
pub struct JmapRequest {
    /// Capabilities the client uses.
    pub using: Vec<String>,
    /// The method calls, in order.
    pub method_calls: Vec<JmapMethodCall>,
    /// Creation ids already known to the client.
    pub created_ids: Option<Vec<(String, String)>>,
}

/// Server marker for the JMAP API.
pub struct JmapServer;

/// The most method calls that one request may hold.
pub const MAX_CALLS_IN_REQUEST: usize = 16;

/// The capabilities this server supports.
pub open spec fn supported_capabilities() -> Seq<Seq<char>> {
    seq![
        "urn:ietf:params:jmap:core"@,
        "urn:ietf:params:jmap:mail"@,
        "urn:ietf:params:jmap:submission"@,
        "urn:ietf:params:jmap:vacationresponse"@,
    ]
}

/// The capabilities this server supports.
pub fn get_supported_capabilities() -> (r: Vec<&'static str>)
    ensures
        r@.len() == supported_capabilities().len(),
        forall|i: int| 0 <= i < r@.len() ==> #[trigger] r@[i]@ == supported_capabilities()[i],
{
    let mut v: Vec<&'static str> = Vec::new();
    v.push("urn:ietf:params:jmap:core");
    v.push("urn:ietf:params:jmap:mail");
    v.push("urn:ietf:params:jmap:submission");
    v.push("urn:ietf:params:jmap:vacationresponse");
    v
}

/// The account id that belongs to a user name.
pub fn account_id_for(username: &str) -> (r: String)
    ensures
        r@ == account_id_spec(username@),
{
    derive_account_id(username)
}

/// A request-level error: kind, detail, and the name of the exceeded limit.
pub open spec fn request_error(e: JmapError, t: JmapErrorType, detail: Seq<char>, limit: Option<Seq<char>>) -> bool {
    &&& e.error_type == t
    &&& e.status == Some(400u16)
    &&& match e.detail {
        Some(d) => d@ == detail,
        None => false,
    }
    &&& match (e.limit, limit) {
        (None, None) => true,
        (Some(l), Some(m)) => l@ == m,
        _ => false,
    }
}

/// The first declared capability that the server does not support.
pub open spec fn first_unsupported(using: Seq<String>, i: int) -> Option<Seq<char>>
    decreases using.len() - i,
{
    if i < 0 || i >= using.len() {
        None
    } else if supported_capabilities().contains(using[i]@) {
        first_unsupported(using, i + 1)
    } else {
        Some(using[i]@)
    }
}

/// The problem with the first malformed method call from index `i` on: a
/// call is checked for an empty name, then an empty call id, then
/// arguments that are not an object.
pub open spec fn first_bad_call(calls: Seq<JmapMethodCall>, i: int) -> Option<(JmapErrorType, Seq<char>)>
    decreases calls.len() - i,
{
    if i < 0 || i >= calls.len() {
        None
    } else if calls[i].0@.len() == 0 {
        Some((JmapErrorType::NotRequest, "Method call "@ + decimal(i as nat) + " has empty method name"@))
    } else if calls[i].2@.len() == 0 {
        Some((JmapErrorType::NotRequest, "Method call "@ + decimal(i as nat) + " has empty call ID"@))
    } else if !(jm(calls[i].1) is Object) {
        Some(
            (
                JmapErrorType::InvalidArguments,
                "Method call "@ + decimal(i as nat) + " ('"@ + calls[i].0@
                    + "') has invalid arguments - must be an object"@,
            ),
        )
    } else {
        first_bad_call(calls, i + 1)
    }
}

/// The error that a request's structure calls for, checked in this order:
/// no capability; an unsupported capability; no method call; more calls than
/// the limit; a malformed call.
pub open spec fn request_check(req: JmapRequest, e: Option<JmapError>) -> bool {
    if req.using@.len() == 0 {
        e matches Some(x) && request_error(
            x,
            JmapErrorType::UnknownCapability,
            "The 'using' property must contain at least one capability"@,
            None,
        )
    } else if first_unsupported(req.using@, 0) is Some {
        e matches Some(x) && request_error(
            x,
            JmapErrorType::UnknownCapability,
            "Unsupported capability: "@ + first_unsupported(req.using@, 0)->0,
            None,
        )
    } else if req.method_calls@.len() == 0 {
        e matches Some(x) && request_error(
            x,
            JmapErrorType::NotRequest,
            "The 'methodCalls' property must contain at least one method call"@,
            None,
        )
    } else if req.method_calls@.len() > 16 {
        e matches Some(x) && request_error(
            x,
            JmapErrorType::Limit,
            "Too many method calls. Maximum allowed: 16"@,
            Some("maxCallsInRequest"@),
        )
    } else {
        match first_bad_call(req.method_calls@, 0) {
            Some((t, d)) => e matches Some(x) && request_error(x, t, d, None),
            None => e is None,
        }
    }
}

fn is_supported(cap: &String) -> (r: bool)
    ensures
        r == supported_capabilities().contains(cap@),
{
    let caps = get_supported_capabilities();
    let mut i: usize = 0;
    while i < caps.len()
        invariant
            i <= caps@.len(),
            caps@.len() == supported_capabilities().len(),
            forall|j: int| 0 <= j < caps@.len() ==> #[trigger] caps@[j]@ == supported_capabilities()[j],
            forall|j: int| 0 <= j < i ==> supported_capabilities()[j] != cap@,
        decreases caps.len() - i,
    {
        if str_eq(cap.as_str(), caps[i]) {
            assert(supported_capabilities()[i as int] == cap@);
            return true;
        }
        i = i + 1;
    }
    false
}

fn call_index_text(idx: usize) -> (r: String)
    ensures
        r@ == "Method call "@ + decimal(idx as nat),
{
    let n = u64_to_decimal(idx as u64);
    concat("Method call ", n.as_str())
}

fn bad_request(t: JmapErrorType, detail: String) -> (r: JmapError)
    ensures
        r.error_type == t,
        r.status == Some(400u16),
        r.detail == Some(detail),
        r.limit is None,
{
    JmapError::new(t).with_status(400).with_detail(detail)
}

/// Checks the structure and capabilities of a request; `None` when the
/// request may be processed.
#[verifier::loop_isolation(false)]
pub fn validate_request(request: &JmapRequest) -> (r: Option<JmapError>)
    ensures
        request_check(*request, r),
{
    if request.using.len() == 0 {
        return Some(
            bad_request(
                JmapErrorType::UnknownCapability,
                string_from("The 'using' property must contain at least one capability"),
            ),
        );
    }
    let mut i: usize = 0;
    while i < request.using.len()
        invariant
            i <= request.using@.len(),
            first_unsupported(request.using@, 0) == first_unsupported(request.using@, i as int),
        decreases request.using.len() - i,
    {
        if !is_supported(&request.using[i]) {
            let d = concat("Unsupported capability: ", request.using[i].as_str());
            return Some(bad_request(JmapErrorType::UnknownCapability, d));
        }
        i = i + 1;
    }
    if request.method_calls.len() == 0 {
        return Some(
            bad_request(
                JmapErrorType::NotRequest,
                string_from("The 'methodCalls' property must contain at least one method call"),
            ),
        );
    }
    if request.method_calls.len() > MAX_CALLS_IN_REQUEST {
        let d = string_from("Too many method calls. Maximum allowed: 16");
        let e = bad_request(JmapErrorType::Limit, d).with_limit(string_from("maxCallsInRequest"));
        return Some(e);
    }
    let mut k: usize = 0;
    while k < request.method_calls.len()
        invariant
            k <= request.method_calls@.len(),
            first_bad_call(request.method_calls@, 0) == first_bad_call(request.method_calls@, k as int),
        decreases request.method_calls.len() - k,
    {
        let call = &request.method_calls[k];
        if call.0.as_str().is_empty() {
            let d = concat(call_index_text(k).as_str(), " has empty method name");
            return Some(bad_request(JmapErrorType::NotRequest, d));
        }
        if call.2.as_str().is_empty() {
            let d = concat(call_index_text(k).as_str(), " has empty call ID");
            return Some(bad_request(JmapErrorType::NotRequest, d));
        }
        let is_object = match &call.1 {
            JsonValue::Object(_) => true,
            _ => false,
        };
        if !is_object {
            let a = concat(call_index_text(k).as_str(), " ('");
            let b = concat(a.as_str(), call.0.as_str());
            let d = concat(b.as_str(), "') has invalid arguments - must be an object");
            return Some(bad_request(JmapErrorType::InvalidArguments, d));
        }
        k = k + 1;
    }
    None
}

/// Resolves the result references in the arguments of one call; arguments
/// that are not an object are left as they are.
pub fn resolve_back_refs_in_call(
    call: JmapMethodCall,
    completed: &[(String, String, JsonValue)],
) -> (r: Result<JmapMethodCall, BackRefError>)
    ensures
        match call.1 {
            JsonValue::Object(args) => {
                let (out, err) = resolve_all(
                    jm_entries(args@),
                    hash_keys(jm_entries(args@)),
                    completed_model(completed@),
                );
                match err {
                    None => match r {
                        Ok(c) => c.0 == call.0 && c.2 == call.2 && match c.1 {
                            JsonValue::Object(a2) => jm_entries(a2@) == out,
                            _ => false,
                        },
                        Err(_) => false,
                    },
                    Some(e) => match r {
                        Err(x) => ref_err(x) == e,
                        Ok(_) => false,
                    },
                }
            },
            _ => r == Ok::<JmapMethodCall, BackRefError>(call),
        },
{
    let JmapMethodCall(name, args, id) = call;
    match args {
        JsonValue::Object(mut entries) => {
            match resolve_back_references(&mut entries, completed) {
                Ok(()) => Ok(JmapMethodCall(name, JsonValue::Object(entries), id)),
                Err(e) => Err(e),
            }
        },
        other => Ok(JmapMethodCall(name, other, id)),
    }
}


// ── Running the calls of a request ──────────────────────────────────────────

/// One response of a request: method name, result, call id.
#[derive(Debug)]
pub struct JmapMethodResponse(pub String, pub JsonValue, pub String);

/// The content of a response.
pub open spec fn response_model(r: JmapMethodResponse) -> (Seq<char>, JModel, Seq<char>) {
    (r.0@, jm(r.1), r.2@)
}

/// The contents of a list of responses.
pub open spec fn responses_model(s: Seq<JmapMethodResponse>) -> Seq<(Seq<char>, JModel, Seq<char>)> {
    s.map_values(|r: JmapMethodResponse| response_model(r))
}

/// The JSON of an error: its type, then its status, detail and limit where
/// they are set.
pub open spec fn error_json_model(e: JmapError) -> JModel {
    JModel::Object(
        seq![("type"@, JModel::Str(error_type_uri(e.error_type)))] + (match e.status {
            Some(st) => seq![("status"@, JModel::Number(JNum::PosInt(st as u64)))],
            None => seq![],
        }) + (match e.detail {
            Some(d) => seq![("detail"@, JModel::Str(d@))],
            None => seq![],
        }) + (match e.limit {
            Some(l) => seq![("limit"@, JModel::Str(l@))],
            None => seq![],
        }),
    )
}

/// The JSON of an error (see `error_json_model`).
pub fn error_json(e: &JmapError) -> (r: JsonValue)
    ensures
        jm(r) == error_json_model(*e),
{
    let mut m: Vec<(String, JsonValue)> = Vec::new();
    m.push((string_from("type"), JsonValue::Str(string_from(e.error_type.as_str()))));
    let ghost a = m@;
    if let Some(st) = e.status {
        m.push((string_from("status"), JsonValue::Number(JsonNumber::PosInt(st as u64))));
    }
    let ghost b = m@;
    if let Some(d) = &e.detail {
        m.push((string_from("detail"), JsonValue::Str(d.clone())));
    }
    let ghost c = m@;
    if let Some(l) = &e.limit {
        m.push((string_from("limit"), JsonValue::Str(l.clone())));
    }
    proof {
        lemma_jm_entries(m@);
        assert(jm_entries(m@) =~= match error_json_model(*e) {
            JModel::Object(x) => x,
            _ => seq![],
        });
    }
    JsonValue::Object(m)
}

/// The responses given so far and the calls completed, which later calls
/// may refer to.
#[derive(Debug)]
pub struct Batch {
    pub responses: Vec<JmapMethodResponse>,
    pub completed: Vec<(String, String, JsonValue)>,
}

/// The body a call that failed in its handler is answered with:
/// `serverFail`, with the failure's text as detail.
pub open spec fn failure_body(detail: Seq<char>) -> JModel {
    JModel::Object(
        seq![
            ("type"@, JModel::Str("urn:ietf:params:jmap:error:serverFail"@)),
            ("detail"@, JModel::Str(detail)),
        ],
    )
}

/// An `error` response for a call.
pub open spec fn error_response(call_id: Seq<char>, e: JModel) -> (Seq<char>, JModel, Seq<char>) {
    ("error"@, e, call_id)
}

impl Batch {
    /// Nothing answered yet.
    pub fn new() -> (r: Batch)
        ensures
            r.responses@.len() == 0,
            r.completed@.len() == 0,
    {
        Batch { responses: Vec::new(), completed: Vec::new() }
    }

    /// The next call with its result references resolved against the calls
    /// completed so far. Where they cannot be, the call is answered with an
    /// `invalidArguments` error giving the reason, is not recorded as
    /// completed, and `None` is returned.
    pub fn prepare(&mut self, call: JmapMethodCall) -> (r: Option<JmapMethodCall>)
        ensures
            final(self).completed@ == old(self).completed@,
            match call.1 {
                JsonValue::Object(args) => {
                    let (out, err) = resolve_all(
                        jm_entries(args@),
                        hash_keys(jm_entries(args@)),
                        completed_model(old(self).completed@),
                    );
                    match err {
                        None => final(self).responses@ == old(self).responses@ && match r {
                            Some(c) => c.0 == call.0 && c.2 == call.2 && match c.1 {
                                JsonValue::Object(a2) => jm_entries(a2@) == out,
                                _ => false,
                            },
                            None => false,
                        },
                        Some(e) => r is None && responses_model(final(self).responses@) == responses_model(
                            old(self).responses@,
                        ).push(
                            error_response(
                                call.2@,
                                JModel::Object(
                                    seq![
                                        ("type"@, JModel::Str("urn:ietf:params:jmap:error:invalidArguments"@)),
                                        ("detail"@, JModel::Str(back_ref_error_text(e))),
                                    ],
                                ),
                            ),
                        ),
                    }
                },
                _ => final(self).responses@ == old(self).responses@ && r == Some(call),
            },
    {
        let call_id = call.2.clone();
        match resolve_back_refs_in_call(call, self.completed.as_slice()) {
            Ok(c) => Some(c),
            Err(e) => {
                let msg = e.message();
                let ghost text = msg@;
                let err = JmapError::new(JmapErrorType::InvalidArguments).with_detail(msg);
                let body = error_json(&err);
                proof {
                    assert(jm(body) == JModel::Object(
                        seq![
                            ("type"@, JModel::Str("urn:ietf:params:jmap:error:invalidArguments"@)),
                            ("detail"@, JModel::Str(text)),
                        ],
                    )) by {
                        match error_json_model(err) {
                            JModel::Object(x) => {
                                assert(x =~= seq![
                                    ("type"@, JModel::Str("urn:ietf:params:jmap:error:invalidArguments"@)),
                                    ("detail"@, JModel::Str(text)),
                                ]);
                            },
                            _ => {},
                        }
                    }
                }
                let ghost before = self.responses@;
                self.responses.push(JmapMethodResponse(string_from("error"), body, call_id));
                proof {
                    reveal_strlit("error");
                    assert(responses_model(self.responses@) =~= responses_model(before).push(
                        response_model(self.responses@.last()),
                    ));
                }
                None
            },
        }
    }

    /// Records the answer of a call that ran: it is given, and later calls
    /// may refer to it.
    pub fn record_success(&mut self, call_id: String, method_name: String, response: JmapMethodResponse)
        ensures
            responses_model(final(self).responses@) == responses_model(old(self).responses@).push(response_model(response)),
            completed_model(final(self).completed@) == completed_model(old(self).completed@).push(
                (call_id@, method_name@, jm(response.1)),
            ),
    {
        let body = clone_json(&response.1);
        let ghost before_r = self.responses@;
        let ghost before_c = self.completed@;
        self.completed.push((call_id, method_name, body));
        self.responses.push(response);
        proof {
            assert(responses_model(self.responses@) =~= responses_model(before_r).push(response_model(response)));
            assert(completed_model(self.completed@) =~= completed_model(before_c).push(
                (call_id@, method_name@, jm(response.1)),
            ));
        }
    }

    /// Records a call whose handler failed: it is answered with a
    /// `serverFail` error giving the reason, and a later reference to it
    /// finds that error.
    pub fn record_failure(&mut self, call_id: String, method_name: String, detail: String)
        ensures
            responses_model(final(self).responses@) == responses_model(old(self).responses@).push(
                error_response(call_id@, failure_body(detail@)),
            ),
            completed_model(final(self).completed@) == completed_model(old(self).completed@).push(
                (call_id@, method_name@, failure_body(detail@)),
            ),
    {
        let ghost text = detail@;
        let err = JmapError::new(JmapErrorType::ServerFail).with_detail(detail);
        let body = error_json(&err);
        proof {
            assert(jm(body) == failure_body(text)) by {
                match error_json_model(err) {
                    JModel::Object(x) => {
                        assert(x =~= seq![
                            ("type"@, JModel::Str("urn:ietf:params:jmap:error:serverFail"@)),
                            ("detail"@, JModel::Str(text)),
                        ]);
                    },
                    _ => {},
                }
            }
        }
        let copy = clone_json(&body);
        let ghost before_r = self.responses@;
        let ghost before_c = self.completed@;
        let ghost cid = call_id@;
        self.completed.push((call_id.clone(), method_name, copy));
        self.responses.push(JmapMethodResponse(string_from("error"), body, call_id));
        proof {
            reveal_strlit("error");
            assert(responses_model(self.responses@) =~= responses_model(before_r).push(
                response_model(self.responses@.last()),
            ));
            assert(completed_model(self.completed@) =~= completed_model(before_c).push(
                (self.completed@.last().0@, self.completed@.last().1@, jm(self.completed@.last().2)),
            ));
        }
    }
}

/// The first completed call with an id and a name, after one more call is
/// recorded: as before when there was one, else the new call if it matches.
proof fn lemma_find_completed_push(
    c: Seq<(Seq<char>, Seq<char>, JModel)>,
    x: (Seq<char>, Seq<char>, JModel),
    id: Seq<char>,
    name: Seq<char>,
)
    ensures
        find_completed(c.push(x), id, name) == match find_completed(c, id, name) {
            Some(b) => Some(b),
            None => if x.0 == id && x.1 == name {
                Some(x.2)
            } else {
                None
            },
        },
    decreases c.len(),
{
    let e = Seq::<(Seq<char>, Seq<char>, JModel)>::empty();
    if c.len() > 0 {
        assert(c.push(x)[0] == c[0]);
        assert(c.push(x).drop_first() =~= c.drop_first().push(x));
        lemma_find_completed_push(c.drop_first(), x, id, name);
    } else {
        assert(c =~= e);
        assert(c.push(x)[0] == x);
        assert(c.push(x).drop_first() =~= e);
        assert(find_completed(e, id, name) is None);
        assert(find_completed(c, id, name) is None);
    }
}

/// A call whose handler failed is recorded so that a later reference to
/// its result fails with `ResultWasError`, where no earlier completed call
/// has the same id and method name.
pub proof fn law_failed_call_reference_fails(
    completed: Seq<(Seq<char>, Seq<char>, JModel)>,
    call_id: Seq<char>,
    method_name: Seq<char>,
    detail: Seq<char>,
    args: Seq<(Seq<char>, JModel)>,
    hash_key: Seq<char>,
    path: Seq<char>,
)
    requires
        find_completed(completed, call_id, method_name) is None,
        obj_lookup(args, hash_key) matches Some(raw) && reference_of(raw) == Some((call_id, method_name, path)),
    ensures
        resolve_one(args, hash_key, completed.push((call_id, method_name, failure_body(detail))))
            == Err::<Seq<(Seq<char>, JModel)>, RefErr>(RefErr::ResultWasError(call_id)),
{
    let body = failure_body(detail);
    lemma_find_completed_push(completed, (call_id, method_name, body), call_id, method_name);
    reveal_strlit("type");
    reveal_strlit("urn:ietf:params:jmap:error:serverFail");
    reveal_strlit("urn:ietf:params:jmap:error:");
    let m = seq![
        ("type"@, JModel::Str("urn:ietf:params:jmap:error:serverFail"@)),
        ("detail"@, JModel::Str(detail)),
    ];
    assert(obj_lookup(m, "type"@) == Some(JModel::Str("urn:ietf:params:jmap:error:serverFail"@)));
    assert("urn:ietf:params:jmap:error:serverFail"@.take(error_type_prefix().len() as int) =~= error_type_prefix());
    assert(is_error_body(body));
}

} // verus!
