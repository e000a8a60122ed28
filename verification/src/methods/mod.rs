//! JMAP method handlers, and the rules that decide which handler a call
//! goes to.
use vstd::prelude::*;

use crate::text::{chars_of, concat, seq_starts_with, starts_with_chars, str_eq};
use crate::types::{JmapError, JmapErrorType, Principal};

pub mod email;
pub mod email_advanced;
pub mod email_query_helpers;
pub mod identity;
pub mod mailbox;
pub mod push_subscription;
pub mod search_snippet;
pub mod submission;
pub mod thread;

verus! {

/// The methods this server implements.
#[derive(Debug, Clone, Copy, PartialEq, Eq)]
pub enum MethodKind {
    EmailGet,
    EmailSet,
    EmailQuery,
    EmailChanges,
    EmailQueryChanges,
    EmailCopy,
    EmailImport,
    EmailParse,
    EmailSubmissionGet,
    EmailSubmissionSet,
    EmailSubmissionQuery,
    EmailSubmissionChanges,
    MailboxGet,
    MailboxSet,
    MailboxQuery,
    MailboxChanges,
    MailboxQueryChanges,
    ThreadGet,
    ThreadChanges,
    SearchSnippetGet,
    IdentityGet,
    IdentitySet,
    IdentityChanges,
    VacationResponseGet,
    VacationResponseSet,
    PushSubscriptionGet,
    PushSubscriptionSet,
}

/// The method that a method name designates.
pub open spec fn method_of(name: Seq<char>) -> Option<MethodKind> {
    if name == "Email/get"@ { Some(MethodKind::EmailGet) }
    else if name == "Email/set"@ { Some(MethodKind::EmailSet) }
    else if name == "Email/query"@ { Some(MethodKind::EmailQuery) }
    else if name == "Email/changes"@ { Some(MethodKind::EmailChanges) }
    else if name == "Email/queryChanges"@ { Some(MethodKind::EmailQueryChanges) }
    else if name == "Email/copy"@ { Some(MethodKind::EmailCopy) }
    else if name == "Email/import"@ { Some(MethodKind::EmailImport) }
    else if name == "Email/parse"@ { Some(MethodKind::EmailParse) }
    else if name == "EmailSubmission/get"@ { Some(MethodKind::EmailSubmissionGet) }
    else if name == "EmailSubmission/set"@ { Some(MethodKind::EmailSubmissionSet) }
    else if name == "EmailSubmission/query"@ { Some(MethodKind::EmailSubmissionQuery) }
    else if name == "EmailSubmission/changes"@ { Some(MethodKind::EmailSubmissionChanges) }
    else if name == "Mailbox/get"@ { Some(MethodKind::MailboxGet) }
    else if name == "Mailbox/set"@ { Some(MethodKind::MailboxSet) }
    else if name == "Mailbox/query"@ { Some(MethodKind::MailboxQuery) }
    else if name == "Mailbox/changes"@ { Some(MethodKind::MailboxChanges) }
    else if name == "Mailbox/queryChanges"@ { Some(MethodKind::MailboxQueryChanges) }
    else if name == "Thread/get"@ { Some(MethodKind::ThreadGet) }
    else if name == "Thread/changes"@ { Some(MethodKind::ThreadChanges) }
    else if name == "SearchSnippet/get"@ { Some(MethodKind::SearchSnippetGet) }
    else if name == "Identity/get"@ { Some(MethodKind::IdentityGet) }
    else if name == "Identity/set"@ { Some(MethodKind::IdentitySet) }
    else if name == "Identity/changes"@ { Some(MethodKind::IdentityChanges) }
    else if name == "VacationResponse/get"@ { Some(MethodKind::VacationResponseGet) }
    else if name == "VacationResponse/set"@ { Some(MethodKind::VacationResponseSet) }
    else if name == "PushSubscription/get"@ { Some(MethodKind::PushSubscriptionGet) }
    else if name == "PushSubscription/set"@ { Some(MethodKind::PushSubscriptionSet) }
    else { None }
}

/// The capability that a method name requires beyond the core one, if any:
/// chosen by the name's prefix.
pub open spec fn required_capability(name: Seq<char>) -> Option<Seq<char>> {
    if seq_starts_with(name, "Email/"@) || seq_starts_with(name, "Mailbox/"@) || seq_starts_with(
        name,
        "Thread/"@,
    ) || seq_starts_with(name, "SearchSnippet/"@) {
        Some("urn:ietf:params:jmap:mail"@)
    } else if seq_starts_with(name, "EmailSubmission/"@) || seq_starts_with(name, "Identity/"@) {
        Some("urn:ietf:params:jmap:submission"@)
    } else if seq_starts_with(name, "VacationResponse/"@) {
        Some("urn:ietf:params:jmap:vacationresponse"@)
    } else {
        None
    }
}

/// A method-level error of kind `t` with exactly the detail `detail`.
pub open spec fn method_error(e: JmapError, t: JmapErrorType, detail: Seq<char>) -> bool {
    &&& e.error_type == t
    &&& e.status is None
    &&& e.limit is None
    &&& match e.detail {
        Some(d) => d@ == detail,
        None => false,
    }
}

/// The list of capabilities holds `cap`.
pub open spec fn declares(caps: Seq<String>, cap: Seq<char>) -> bool {
    exists|i: int| 0 <= i < caps.len() && caps[i]@ == cap
}

/// The detail of the error for a method whose capability was not declared.
pub open spec fn missing_capability_detail(name: Seq<char>, cap: Seq<char>) -> Seq<char> {
    "Method '"@ + name + "' requires capability '"@ + cap + "' which was not declared in 'using'"@
}

/// The capability a method name requires, by prefix.
fn required_capability_exec(method_name: &str) -> (r: Option<&'static str>)
    ensures
        match r {
            Some(c) => required_capability(method_name@) == Some(c@),
            None => required_capability(method_name@) is None,
        },
{
    let n = chars_of(method_name);
    if starts_with_chars(&n, &chars_of("Email/")) || starts_with_chars(&n, &chars_of("Mailbox/"))
        || starts_with_chars(&n, &chars_of("Thread/")) || starts_with_chars(
        &n,
        &chars_of("SearchSnippet/"),
    ) {
        Some("urn:ietf:params:jmap:mail")
    } else if starts_with_chars(&n, &chars_of("EmailSubmission/")) || starts_with_chars(
        &n,
        &chars_of("Identity/"),
    ) {
        Some("urn:ietf:params:jmap:submission")
    } else if starts_with_chars(&n, &chars_of("VacationResponse/")) {
        Some("urn:ietf:params:jmap:vacationresponse")
    } else {
        None
    }
}

/// Checks that the capability a method needs was declared in `using`.
/// Methods outside the mail, submission and vacation-response families need
/// only the core capability and always pass.
pub fn validate_method_capability(method_name: &str, capabilities: &[String]) -> (r: Result<(), JmapError>)
    ensures
        match required_capability(method_name@) {
            None => r is Ok,
            Some(cap) => if declares(capabilities@, cap) {
                r is Ok
            } else {
                match r {
                    Err(e) => method_error(e, JmapErrorType::UnknownMethod, missing_capability_detail(method_name@, cap)),
                    Ok(_) => false,
                }
            },
        },
{
    let required = match required_capability_exec(method_name) {
        Some(c) => c,
        None => return Ok(()),
    };
    let mut i: usize = 0;
    while i < capabilities.len()
        invariant
            i <= capabilities@.len(),
            required_capability(method_name@) == Some(required@),
            forall|j: int| 0 <= j < i ==> capabilities@[j]@ != required@,
        decreases capabilities.len() - i,
    {
        if str_eq(capabilities[i].as_str(), required) {
            assert(capabilities@[i as int]@ == required@);
            return Ok(());
        }
        i = i + 1;
    }
    let d1 = concat("Method '", method_name);
    let d2 = concat(d1.as_str(), "' requires capability '");
    let d3 = concat(d2.as_str(), required);
    let d4 = concat(d3.as_str(), "' which was not declared in 'using'");
    Err(JmapError::new(JmapErrorType::UnknownMethod).with_detail(d4))
}

/// The outcome of routing a method call.
#[derive(Debug)]
pub enum Route {
    /// Run the handler of this method.
    Handle(MethodKind),
    /// Answer the call with this error.
    Reject(JmapError),
}

/// How a call is routed: push-subscription methods go through without a
/// capability check; any other call must have its capability declared, and
/// then either names a known method or is answered `unknownMethod`.
pub open spec fn route_ok(name: Seq<char>, caps: Seq<String>, r: Route) -> bool {
    if name == "PushSubscription/get"@ {
        r == Route::Handle(MethodKind::PushSubscriptionGet)
    } else if name == "PushSubscription/set"@ {
        r == Route::Handle(MethodKind::PushSubscriptionSet)
    } else if required_capability(name) is Some && !declares(caps, required_capability(name)->0) {
        match r {
            Route::Reject(e) => method_error(
                e,
                JmapErrorType::UnknownMethod,
                missing_capability_detail(name, required_capability(name)->0),
            ),
            _ => false,
        }
    } else {
        match method_of(name) {
            Some(m) => r == Route::Handle(m),
            None => match r {
                Route::Reject(e) => method_error(e, JmapErrorType::UnknownMethod, "Unknown method: "@ + name),
                _ => false,
            },
        }
    }
}

/// The method a name designates.
pub fn method_from_name(name: &str) -> (r: Option<MethodKind>)
    ensures
        r == method_of(name@),
{
    if str_eq(name, "Email/get") { Some(MethodKind::EmailGet) }
    else if str_eq(name, "Email/set") { Some(MethodKind::EmailSet) }
    else if str_eq(name, "Email/query") { Some(MethodKind::EmailQuery) }
    else if str_eq(name, "Email/changes") { Some(MethodKind::EmailChanges) }
    else if str_eq(name, "Email/queryChanges") { Some(MethodKind::EmailQueryChanges) }
    else if str_eq(name, "Email/copy") { Some(MethodKind::EmailCopy) }
    else if str_eq(name, "Email/import") { Some(MethodKind::EmailImport) }
    else if str_eq(name, "Email/parse") { Some(MethodKind::EmailParse) }
    else if str_eq(name, "EmailSubmission/get") { Some(MethodKind::EmailSubmissionGet) }
    else if str_eq(name, "EmailSubmission/set") { Some(MethodKind::EmailSubmissionSet) }
    else if str_eq(name, "EmailSubmission/query") { Some(MethodKind::EmailSubmissionQuery) }
    else if str_eq(name, "EmailSubmission/changes") { Some(MethodKind::EmailSubmissionChanges) }
    else if str_eq(name, "Mailbox/get") { Some(MethodKind::MailboxGet) }
    else if str_eq(name, "Mailbox/set") { Some(MethodKind::MailboxSet) }
    else if str_eq(name, "Mailbox/query") { Some(MethodKind::MailboxQuery) }
    else if str_eq(name, "Mailbox/changes") { Some(MethodKind::MailboxChanges) }
    else if str_eq(name, "Mailbox/queryChanges") { Some(MethodKind::MailboxQueryChanges) }
    else if str_eq(name, "Thread/get") { Some(MethodKind::ThreadGet) }
    else if str_eq(name, "Thread/changes") { Some(MethodKind::ThreadChanges) }
    else if str_eq(name, "SearchSnippet/get") { Some(MethodKind::SearchSnippetGet) }
    else if str_eq(name, "Identity/get") { Some(MethodKind::IdentityGet) }
    else if str_eq(name, "Identity/set") { Some(MethodKind::IdentitySet) }
    else if str_eq(name, "Identity/changes") { Some(MethodKind::IdentityChanges) }
    else if str_eq(name, "VacationResponse/get") { Some(MethodKind::VacationResponseGet) }
    else if str_eq(name, "VacationResponse/set") { Some(MethodKind::VacationResponseSet) }
    else if str_eq(name, "PushSubscription/get") { Some(MethodKind::PushSubscriptionGet) }
    else if str_eq(name, "PushSubscription/set") { Some(MethodKind::PushSubscriptionSet) }
    else { None }
}

/// Decides which handler a method call goes to, or the error it is answered
/// with.
pub fn route_method(method_name: &str, capabilities: &[String]) -> (r: Route)
    ensures
        route_ok(method_name@, capabilities@, r),
{
    if str_eq(method_name, "PushSubscription/get") {
        return Route::Handle(MethodKind::PushSubscriptionGet);
    }
    if str_eq(method_name, "PushSubscription/set") {
        return Route::Handle(MethodKind::PushSubscriptionSet);
    }
    match validate_method_capability(method_name, capabilities) {
        Err(e) => Route::Reject(e),
        Ok(()) => match method_from_name(method_name) {
            Some(m) => Route::Handle(m),
            None => {
                let d = concat("Unknown method: ", method_name);
                Route::Reject(JmapError::new(JmapErrorType::UnknownMethod).with_detail(d))
            },
        },
    }
}

/// A request named an account that its principal does not own.
#[derive(Debug, Clone)]
pub struct ForbiddenError {
    /// The account named in the request.
    pub requested_account_id: String,
    /// The account the principal owns.
    pub principal_account_id: String,
}

/// Checks that the principal owns the requested account.
pub fn ensure_account_ownership(requested_account_id: &str, principal: &Principal) -> (r: Result<
    (),
    ForbiddenError,
>)
    ensures
        principal.account_id@ == requested_account_id@ ==> r is Ok,
        principal.account_id@ != requested_account_id@ ==> match r {
            Err(e) => e.requested_account_id@ == requested_account_id@ && e.principal_account_id@
                == principal.account_id@,
            Ok(_) => false,
        },
{
    if principal.owns_account(requested_account_id) {
        Ok(())
    } else {
        Err(
            ForbiddenError {
                requested_account_id: crate::text::string_of(chars_of(requested_account_id).as_slice()),
                principal_account_id: principal.account_id.clone(),
            },
        )
    }
}

/// The text of a `ForbiddenError`.
pub fn forbidden_message(e: &ForbiddenError) -> (r: String)
    ensures
        r@ == "urn:ietf:params:jmap:error:forbidden: requested account '"@ + e.requested_account_id@
            + "' is not owned by principal (owns '"@ + e.principal_account_id@ + "')"@,
{
    let a = concat("urn:ietf:params:jmap:error:forbidden: requested account '", e.requested_account_id.as_str());
    let b = concat(a.as_str(), "' is not owned by principal (owns '");
    let c = concat(b.as_str(), e.principal_account_id.as_str());
    concat(c.as_str(), "')")
}

} // verus!
